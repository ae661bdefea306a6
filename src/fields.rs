//! Field rules shared by the sentence grammars: optional numbers, the UTC
//! time of day and the geographic position.
//!
//! Every rule reads `s` from index `pos` and either fails or returns its
//! value with the index where it stopped, which is always the index of the
//! delimiter that ends its last token.
use vstd::prelude::*;
use vstd::slice::{slice_subrange, slice_to_vec};
use crate::errors::{DataError, DataErrorModel, ErrorModel, NmeaSentenceError};
use crate::token::{
    all_digits, check_decimal, digits_between, lemma_decimal_chars, no_byte, STAR, delim_from, digits_value, find_byte, is_decimal, is_digit,
    u8_token, COMMA, NINE, ZERO,
};

verus! {

pub const NORTH: u8 = 78;
pub const SOUTH: u8 = 83;
pub const EAST: u8 = 69;
pub const WEST: u8 = 87;

/// A decimal number as it was transmitted, e.g. `-12.50`.
#[derive(Debug, Clone, PartialEq)]
pub struct Decimal {
    text: Vec<u8>,
}

impl View for Decimal {
    type V = Seq<u8>;

    closed spec fn view(&self) -> Seq<u8> {
        self.text@
    }
}

impl Decimal {
    /// The decimal written by `t`, if `t` is one.
    pub fn parse(t: &[u8]) -> (r: Option<Decimal>)
        ensures
            r is Some <==> is_decimal(t@),
            r matches Some(d) ==> d@ == t@,
    {
        assert(t@.subrange(0, t@.len() as int) =~= t@);
        if check_decimal(t, 0, t.len()) {
            Some(Decimal { text: slice_to_vec(t) })
        } else {
            None
        }
    }

    /// The characters of the number.
    pub fn as_bytes(&self) -> (r: &[u8])
        ensures
            r@ == self@,
    {
        self.text.as_slice()
    }
}

pub open spec fn opt_view(o: Option<Decimal>) -> Option<Seq<u8>> {
    match o {
        Some(d) => Some(d@),
        None => None,
    }
}

/// Whether an executable rule's result is the one its spec gives.
pub open spec fn agrees<'a, T, M>(
    r: Result<(T, usize), NmeaSentenceError<'a>>,
    m: Result<(M, int), ErrorModel>,
    view: spec_fn(T) -> M,
) -> bool {
    match (r, m) {
        (Ok((x, p)), Ok((v, q))) => view(x) == v && p == q,
        (Err(e), Err(f)) => e@ == f,
        _ => false,
    }
}

/// An optional number: an empty token is absent, anything else must be a
/// decimal.
pub open spec fn spec_opt_decimal(s: Seq<u8>, pos: int) -> Result<(Option<Seq<u8>>, int), ErrorModel> {
    let e = delim_from(s, pos, COMMA);
    if e == s.len() {
        Err(ErrorModel::Data(DataErrorModel::Incomplete))
    } else if e == pos {
        Ok((None, pos))
    } else if is_decimal(s.subrange(pos, e)) {
        Ok((Some(s.subrange(pos, e)), e))
    } else {
        Err(ErrorModel::Data(DataErrorModel::Invalid(s.subrange(pos, e))))
    }
}

/// An optional unsigned 8-bit count.
pub open spec fn spec_opt_u8(s: Seq<u8>, pos: int) -> Result<(Option<u8>, int), ErrorModel> {
    let e = delim_from(s, pos, COMMA);
    if e == s.len() {
        Err(ErrorModel::Data(DataErrorModel::Incomplete))
    } else if e == pos {
        Ok((None, pos))
    } else if u8_token(s.subrange(pos, e)) is Some {
        Ok((u8_token(s.subrange(pos, e)), e))
    } else {
        Err(ErrorModel::Data(DataErrorModel::Invalid(s.subrange(pos, e))))
    }
}

/// A token that is read and thrown away.
pub open spec fn spec_skip(s: Seq<u8>, pos: int) -> Result<((), int), ErrorModel> {
    let e = delim_from(s, pos, COMMA);
    if e == s.len() {
        Err(ErrorModel::Data(DataErrorModel::Incomplete))
    } else {
        Ok(((), e))
    }
}

/// One literal byte.
pub open spec fn spec_expect(s: Seq<u8>, pos: int, c: u8) -> Result<((), int), ErrorModel> {
    if 0 <= pos < s.len() && s[pos] == c {
        Ok(((), pos + 1))
    } else {
        Err(ErrorModel::General)
    }
}

pub fn opt_decimal<'a>(b: &'a [u8], pos: usize) -> (r: Result<(Option<Decimal>, usize), NmeaSentenceError<'a>>)
    requires
        pos <= b@.len(),
    ensures
        agrees(r, spec_opt_decimal(b@, pos as int), |o: Option<Decimal>| opt_view(o)),
        r matches Ok((_, p)) ==> pos <= p < b@.len(),
{
    let e = find_byte(b, pos, COMMA);
    if e == b.len() {
        return Err(NmeaSentenceError::DataParsingError(DataError::Incomplete));
    }
    if e == pos {
        return Ok((None, pos));
    }
    let t = slice_subrange(b, pos, e);
    if check_decimal(b, pos, e) {
        Ok((Some(Decimal { text: slice_to_vec(t) }), e))
    } else {
        Err(NmeaSentenceError::DataParsingError(DataError::Invalid(t)))
    }
}

/// The value of `t`, if it is a decimal count that fits a `u8`.
pub fn parse_u8(t: &[u8]) -> (r: Option<u8>)
    ensures
        r == u8_token(t@),
{
    if t.len() == 0 {
        return None;
    }
    let mut acc: u16 = 0;
    let mut i: usize = 0;
    while i < t.len()
        invariant
            0 <= i <= t@.len(),
            all_digits(t@.subrange(0, i as int)),
            acc as nat == if digits_value(t@.subrange(0, i as int)) > 256 { 256 } else { digits_value(t@.subrange(0, i as int)) },
        decreases t@.len() - i,
    {
        let c = t[i];
        if c < ZERO || c > NINE {
            assert(t@[i as int] == c);
            return None;
        }
        let ghost prev = t@.subrange(0, i as int);
        let ghost next = t@.subrange(0, i + 1);
        assert(next.drop_last() =~= prev);
        assert(next.last() == c);
        let v: u16 = acc * 10 + (c - ZERO) as u16;
        acc = if v > 256 { 256 } else { v };
        i = i + 1;
        assert(all_digits(next)) by {
            assert forall|k: int| 0 <= k < next.len() implies is_digit(#[trigger] next[k]) by {
                if k < i - 1 {
                    assert(next[k] == prev[k]);
                }
            }
        }
    }
    assert(t@.subrange(0, t@.len() as int) =~= t@);
    if acc > 255 {
        None
    } else {
        Some(acc as u8)
    }
}

pub fn opt_u8<'a>(b: &'a [u8], pos: usize) -> (r: Result<(Option<u8>, usize), NmeaSentenceError<'a>>)
    requires
        pos <= b@.len(),
    ensures
        agrees(r, spec_opt_u8(b@, pos as int), |o: Option<u8>| o),
        r matches Ok((_, p)) ==> pos <= p < b@.len(),
{
    let e = find_byte(b, pos, COMMA);
    if e == b.len() {
        return Err(NmeaSentenceError::DataParsingError(DataError::Incomplete));
    }
    if e == pos {
        return Ok((None, pos));
    }
    let t = slice_subrange(b, pos, e);
    match parse_u8(t) {
        Some(v) => Ok((Some(v), e)),
        None => Err(NmeaSentenceError::DataParsingError(DataError::Invalid(t))),
    }
}

pub fn skip_token<'a>(b: &'a [u8], pos: usize) -> (r: Result<((), usize), NmeaSentenceError<'a>>)
    requires
        pos <= b@.len(),
    ensures
        agrees(r, spec_skip(b@, pos as int), |u: ()| u),
        r matches Ok((_, p)) ==> pos <= p < b@.len(),
{
    let e = find_byte(b, pos, COMMA);
    if e == b.len() {
        Err(NmeaSentenceError::DataParsingError(DataError::Incomplete))
    } else {
        Ok(((), e))
    }
}

pub fn expect<'a>(b: &'a [u8], pos: usize, c: u8) -> (r: Result<((), usize), NmeaSentenceError<'a>>)
    requires
        pos <= b@.len(),
    ensures
        agrees(r, spec_expect(b@, pos as int, c), |u: ()| u),
        r matches Ok((_, p)) ==> p == pos + 1 <= b@.len(),
{
    if pos < b.len() && b[pos] == c {
        Ok(((), pos + 1))
    } else {
        Err(NmeaSentenceError::GeneralParsingError)
    }
}

/// The value of the two digits at `i` and `i + 1`.
pub open spec fn two_digits(t: Seq<u8>, i: int) -> int {
    (t[i] - ZERO) * 10 + (t[i + 1] - ZERO)
}

/// The value of the three digits from `i`.
pub open spec fn three_digits(t: Seq<u8>, i: int) -> int {
    (t[i] - ZERO) * 100 + (t[i + 1] - ZERO) * 10 + (t[i + 2] - ZERO)
}

/// A time of day, `HHMMSS` with an optional fraction of a second. The
/// components are not checked against their ranges.
#[derive(Debug, Clone, PartialEq)]
pub struct GpsTime {
    pub hour: u8,
    pub minute: u8,
    pub second: Decimal,
}

pub struct TimeModel {
    pub hour: u8,
    pub minute: u8,
    pub second: Seq<u8>,
}

impl View for GpsTime {
    type V = TimeModel;

    open spec fn view(&self) -> TimeModel {
        TimeModel { hour: self.hour, minute: self.minute, second: self.second@ }
    }
}

pub open spec fn opt_time_view(o: Option<GpsTime>) -> Option<TimeModel> {
    match o {
        Some(t) => Some(t@),
        None => None,
    }
}

/// Six digits or more, the seconds being a decimal.
pub open spec fn time_shape(t: Seq<u8>) -> bool {
    &&& t.len() >= 6
    &&& all_digits(t.subrange(0, 6))
    &&& is_decimal(t.subrange(4, t.len() as int))
}

pub open spec fn spec_opt_time(s: Seq<u8>, pos: int) -> Result<(Option<TimeModel>, int), ErrorModel> {
    let e = delim_from(s, pos, COMMA);
    let t = s.subrange(pos, e);
    if e == s.len() {
        Err(ErrorModel::Data(DataErrorModel::Incomplete))
    } else if e == pos {
        Ok((None, pos))
    } else if time_shape(t) {
        Ok((
            Some(
                TimeModel {
                    hour: two_digits(t, 0) as u8,
                    minute: two_digits(t, 2) as u8,
                    second: t.subrange(4, t.len() as int),
                },
            ),
            e,
        ))
    } else {
        Err(ErrorModel::Data(DataErrorModel::Invalid(t)))
    }
}

pub fn opt_time<'a>(b: &'a [u8], pos: usize) -> (r: Result<(Option<GpsTime>, usize), NmeaSentenceError<'a>>)
    requires
        pos <= b@.len(),
    ensures
        agrees(r, spec_opt_time(b@, pos as int), |o: Option<GpsTime>| opt_time_view(o)),
        r matches Ok((_, p)) ==> pos <= p < b@.len(),
{
    let e = find_byte(b, pos, COMMA);
    if e == b.len() {
        return Err(NmeaSentenceError::DataParsingError(DataError::Incomplete));
    }
    if e == pos {
        return Ok((None, pos));
    }
    let t = slice_subrange(b, pos, e);
    if e - pos < 6 {
        return Err(NmeaSentenceError::DataParsingError(DataError::Invalid(t)));
    }
    assert(t@.subrange(0, 6) =~= b@.subrange(pos as int, pos + 6));
    assert(t@.subrange(4, t@.len() as int) =~= b@.subrange(pos + 4, e as int));
    if !digits_between(b, pos, pos + 6) || !check_decimal(b, pos + 4, e) {
        return Err(NmeaSentenceError::DataParsingError(DataError::Invalid(t)));
    }
    assert(is_digit(t@.subrange(0, 6)[0]) && is_digit(t@.subrange(0, 6)[1]));
    assert(is_digit(t@.subrange(0, 6)[2]) && is_digit(t@.subrange(0, 6)[3]));
    let hour = (b[pos] - ZERO) * 10 + (b[pos + 1] - ZERO);
    let minute = (b[pos + 2] - ZERO) * 10 + (b[pos + 3] - ZERO);
    let second = Decimal { text: slice_to_vec(slice_subrange(b, pos + 4, e)) };
    Ok((Some(GpsTime { hour, minute, second }), e))
}

/// A position: latitude as degrees and minutes with `N` or `S`, longitude
/// as degrees and minutes with `E` or `W`.
#[derive(Debug, Clone, PartialEq)]
pub struct GpsPosition {
    pub lat_degrees: u8,
    pub lat_minutes: Decimal,
    pub lat_hemisphere: u8,
    pub lon_degrees: u16,
    pub lon_minutes: Decimal,
    pub lon_hemisphere: u8,
}

pub struct PositionModel {
    pub lat_degrees: u8,
    pub lat_minutes: Seq<u8>,
    pub lat_hemisphere: u8,
    pub lon_degrees: u16,
    pub lon_minutes: Seq<u8>,
    pub lon_hemisphere: u8,
}

impl View for GpsPosition {
    type V = PositionModel;

    open spec fn view(&self) -> PositionModel {
        PositionModel {
            lat_degrees: self.lat_degrees,
            lat_minutes: self.lat_minutes@,
            lat_hemisphere: self.lat_hemisphere,
            lon_degrees: self.lon_degrees,
            lon_minutes: self.lon_minutes@,
            lon_hemisphere: self.lon_hemisphere,
        }
    }
}

pub open spec fn opt_position_view(o: Option<GpsPosition>) -> Option<PositionModel> {
    match o {
        Some(p) => Some(p@),
        None => None,
    }
}

/// `n` digits of degrees followed by a decimal count of minutes.
pub open spec fn coord_shape(t: Seq<u8>, n: int) -> bool {
    &&& t.len() > n
    &&& all_digits(t.subrange(0, n))
    &&& is_decimal(t.subrange(n, t.len() as int))
}

/// An optional position: four empty tokens are absent, otherwise all four
/// must be well formed.
pub open spec fn spec_opt_position(s: Seq<u8>, pos: int) -> Result<(Option<PositionModel>, int), ErrorModel> {
    let e1 = delim_from(s, pos, COMMA);
    let lat = s.subrange(pos, e1);
    let at3 = e1 + 3;
    let e3 = delim_from(s, at3, COMMA);
    let lon = s.subrange(at3, e3);
    if pos + 3 <= s.len() && s[pos] == COMMA && s[pos + 1] == COMMA && s[pos + 2] == COMMA {
        Ok((None, pos + 3))
    } else if e1 == s.len() {
        Err(ErrorModel::Data(DataErrorModel::Incomplete))
    } else if !coord_shape(lat, 2) {
        Err(ErrorModel::Data(DataErrorModel::Invalid(lat)))
    } else if !(e1 + 2 < s.len() && (s[e1 + 1] == NORTH || s[e1 + 1] == SOUTH) && s[e1 + 2] == COMMA) {
        Err(ErrorModel::General)
    } else if e3 == s.len() {
        Err(ErrorModel::Data(DataErrorModel::Incomplete))
    } else if !coord_shape(lon, 3) {
        Err(ErrorModel::Data(DataErrorModel::Invalid(lon)))
    } else if !(e3 + 1 < s.len() && (s[e3 + 1] == EAST || s[e3 + 1] == WEST)) {
        Err(ErrorModel::General)
    } else {
        Ok((
            Some(
                PositionModel {
                    lat_degrees: two_digits(lat, 0) as u8,
                    lat_minutes: lat.subrange(2, lat.len() as int),
                    lat_hemisphere: s[e1 + 1],
                    lon_degrees: three_digits(lon, 0) as u16,
                    lon_minutes: lon.subrange(3, lon.len() as int),
                    lon_hemisphere: s[e3 + 1],
                },
            ),
            e3 + 2,
        ))
    }
}

/// Reads `n` digits of degrees and a decimal of minutes from `b[start..end]`.
fn coord<'a>(b: &'a [u8], start: usize, end: usize, n: usize) -> (r: Option<(u16, Decimal)>)
    requires
        start <= end <= b@.len(),
        n == 2 || n == 3,
    ensures
        r is Some <==> coord_shape(b@.subrange(start as int, end as int), n as int),
        r matches Some((d, m)) ==> {
            let t = b@.subrange(start as int, end as int);
            &&& d == (if n == 2 { two_digits(t, 0) } else { three_digits(t, 0) })
            &&& m@ == t.subrange(n as int, t.len() as int)
            &&& n == 2 ==> d <= 99
        },
{
    let ghost t = b@.subrange(start as int, end as int);
    if end - start <= n {
        return None;
    }
    assert(t.subrange(0, n as int) =~= b@.subrange(start as int, start + n));
    assert(t.subrange(n as int, t.len() as int) =~= b@.subrange(start + n, end as int));
    if !digits_between(b, start, start + n) || !check_decimal(b, start + n, end) {
        return None;
    }
    assert(is_digit(t.subrange(0, n as int)[0]) && is_digit(t.subrange(0, n as int)[1]));
    let mut d: u16 = (b[start] - ZERO) as u16 * 10 + (b[start + 1] - ZERO) as u16;
    if n == 3 {
        assert(is_digit(t.subrange(0, n as int)[2]));
        d = d * 10 + (b[start + 2] - ZERO) as u16;
    }
    Some((d, Decimal { text: slice_to_vec(slice_subrange(b, start + n, end)) }))
}

pub fn opt_position<'a>(b: &'a [u8], pos: usize) -> (r: Result<(Option<GpsPosition>, usize), NmeaSentenceError<'a>>)
    requires
        pos <= b@.len(),
    ensures
        agrees(r, spec_opt_position(b@, pos as int), |o: Option<GpsPosition>| opt_position_view(o)),
        r matches Ok((_, p)) ==> pos <= p <= b@.len(),
{
    if b.len() - pos >= 3 && b[pos] == COMMA && b[pos + 1] == COMMA && b[pos + 2] == COMMA {
        return Ok((None, pos + 3));
    }
    let e1 = find_byte(b, pos, COMMA);
    if e1 == b.len() {
        return Err(NmeaSentenceError::DataParsingError(DataError::Incomplete));
    }
    let (lat_degrees, lat_minutes) = match coord(b, pos, e1, 2) {
        Some((d, m)) => (d as u8, m),
        None => {
            return Err(NmeaSentenceError::DataParsingError(DataError::Invalid(slice_subrange(b, pos, e1))));
        },
    };
    if !(b.len() - e1 > 2 && (b[e1 + 1] == NORTH || b[e1 + 1] == SOUTH) && b[e1 + 2] == COMMA) {
        return Err(NmeaSentenceError::GeneralParsingError);
    }
    let at3 = e1 + 3;
    let e3 = find_byte(b, at3, COMMA);
    if e3 == b.len() {
        return Err(NmeaSentenceError::DataParsingError(DataError::Incomplete));
    }
    let (lon_degrees, lon_minutes) = match coord(b, at3, e3, 3) {
        Some((d, m)) => (d, m),
        None => {
            return Err(NmeaSentenceError::DataParsingError(DataError::Invalid(slice_subrange(b, at3, e3))));
        },
    };
    if !(e3 + 1 < b.len() && (b[e3 + 1] == EAST || b[e3 + 1] == WEST)) {
        return Err(NmeaSentenceError::GeneralParsingError);
    }
    let position = GpsPosition {
        lat_degrees,
        lat_minutes,
        lat_hemisphere: b[e1 + 1],
        lon_degrees,
        lon_minutes,
        lon_hemisphere: b[e3 + 1],
    };
    Ok((Some(position), e3 + 2))
}

/// An empty token in an optional position is an absent value, and the
/// rule stops at the comma that ends it; an empty position is three commas.
pub proof fn lemma_empty_optional(s: Seq<u8>, pos: int)
    requires
        0 <= pos < s.len(),
        s[pos] == COMMA,
    ensures
        spec_opt_decimal(s, pos) == Ok::<(Option<Seq<u8>>, int), ErrorModel>((None, pos)),
        spec_opt_u8(s, pos) == Ok::<(Option<u8>, int), ErrorModel>((None, pos)),
        spec_opt_time(s, pos) == Ok::<(Option<TimeModel>, int), ErrorModel>((None, pos)),
        pos + 3 <= s.len() && s[pos + 1] == COMMA && s[pos + 2] == COMMA ==> spec_opt_position(s, pos)
            == Ok::<(Option<PositionModel>, int), ErrorModel>((None, pos + 3)),
{
}

/// The token of an optional value: empty when it is absent.
pub open spec fn opt_text(o: Option<Seq<u8>>) -> Seq<u8> {
    match o {
        Some(t) => t,
        None => Seq::empty(),
    }
}

pub open spec fn opt_decimal_ok(o: Option<Seq<u8>>) -> bool {
    o matches Some(t) ==> is_decimal(t)
}

/// The token of a decimal holds neither a comma nor the delimiter.
pub proof fn lemma_opt_text(o: Option<Seq<u8>>)
    requires
        opt_decimal_ok(o),
    ensures
        no_byte(opt_text(o), COMMA),
        no_byte(opt_text(o), STAR),
{
    if let Some(t) = o {
        lemma_decimal_chars(t);
    }
}

/// `t` stands at `o` in `s` and a comma follows it.
pub open spec fn token_then_comma(s: Seq<u8>, o: int, t: Seq<u8>) -> bool {
    &&& 0 <= o
    &&& o + t.len() < s.len()
    &&& s.subrange(o, o + t.len()) == t
    &&& s[o + t.len()] == COMMA
    &&& delim_from(s, o, COMMA) == o + t.len()
}

} // verus!
