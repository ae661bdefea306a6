//! The proprietary extended fix sentence, `PUBX,00`.
use vstd::prelude::*;
use crate::errors::{DataError, DataErrorModel, ErrorModel, NmeaSentenceError};
use crate::fields::{
    coord_shape, expect, lemma_opt_text, opt_decimal, opt_decimal_ok, opt_position, opt_position_view,
    opt_text, opt_time, opt_time_view, opt_u8, opt_view, skip_token, spec_expect, spec_opt_decimal,
    spec_opt_position, spec_opt_time, spec_opt_u8, spec_skip, three_digits, time_shape, token_then_comma,
    two_digits, Decimal, GpsPosition, GpsTime, PositionModel, TimeModel, EAST, NORTH, SOUTH, WEST,
};
use crate::status::{
    nav_stat_of, NavStat, CHAR_2, CHAR_3, CHAR_D, CHAR_F, CHAR_G, CHAR_K, CHAR_N, CHAR_R, CHAR_T,
};
use crate::token::{
    all_digits, digits_value, is_decimal, is_digit, join, lemma_decimal_chars,
    lemma_join_no_byte, lemma_token, no_byte, offset, COMMA, STAR, ZERO,
};

verus! {

pub const ONE: u8 = 49;

/// Position, velocity and time from a receiver, with the accuracy of each.
/// Every value but the status and the dead reckoning flag is absent when
/// its token is empty.
#[derive(Debug, Clone, PartialEq)]
pub struct PubxLocData {
    pub time: Option<GpsTime>,
    pub position: Option<GpsPosition>,
    /// Altitude above the ellipsoid, in metres.
    pub altitude: Option<Decimal>,
    pub status: NavStat,
    /// Horizontal accuracy estimate, in metres.
    pub h_acc: Option<Decimal>,
    /// Vertical accuracy estimate, in metres.
    pub v_acc: Option<Decimal>,
    /// Speed over ground, in kilometres per hour.
    pub sog: Option<Decimal>,
    /// Course over ground, in degrees.
    pub cog: Option<Decimal>,
    /// Vertical velocity, in metres per second, positive downwards.
    pub v_vel: Option<Decimal>,
    /// Age of the differential corrections, in seconds.
    pub diff_age: Option<Decimal>,
    pub hdop: Option<Decimal>,
    pub vdop: Option<Decimal>,
    pub tdop: Option<Decimal>,
    pub num_satellites: Option<u8>,
    pub dead_reckoning: bool,
}

pub struct PubxModel {
    pub time: Option<TimeModel>,
    pub position: Option<PositionModel>,
    pub altitude: Option<Seq<u8>>,
    pub status: NavStat,
    pub h_acc: Option<Seq<u8>>,
    pub v_acc: Option<Seq<u8>>,
    pub sog: Option<Seq<u8>>,
    pub cog: Option<Seq<u8>>,
    pub v_vel: Option<Seq<u8>>,
    pub diff_age: Option<Seq<u8>>,
    pub hdop: Option<Seq<u8>>,
    pub vdop: Option<Seq<u8>>,
    pub tdop: Option<Seq<u8>>,
    pub num_satellites: Option<u8>,
    pub dead_reckoning: bool,
}

impl View for PubxLocData {
    type V = PubxModel;

    open spec fn view(&self) -> PubxModel {
        PubxModel {
            time: opt_time_view(self.time),
            position: opt_position_view(self.position),
            altitude: opt_view(self.altitude),
            status: self.status,
            h_acc: opt_view(self.h_acc),
            v_acc: opt_view(self.v_acc),
            sog: opt_view(self.sog),
            cog: opt_view(self.cog),
            v_vel: opt_view(self.v_vel),
            diff_age: opt_view(self.diff_age),
            hdop: opt_view(self.hdop),
            vdop: opt_view(self.vdop),
            tdop: opt_view(self.tdop),
            num_satellites: self.num_satellites,
            dead_reckoning: self.dead_reckoning,
        }
    }
}

/// A two-byte status code.
pub open spec fn spec_status(s: Seq<u8>, pos: int) -> Result<(NavStat, int), ErrorModel> {
    if pos + 2 > s.len() {
        Err(ErrorModel::Data(DataErrorModel::Incomplete))
    } else {
        match nav_stat_of(s[pos], s[pos + 1]) {
            Some(st) => Ok((st, pos + 2)),
            None => Err(ErrorModel::Status(s[pos], s[pos + 1])),
        }
    }
}

/// A flag written `0` or `1`.
pub open spec fn spec_flag(s: Seq<u8>, pos: int) -> Result<(bool, int), ErrorModel> {
    if 0 <= pos < s.len() && s[pos] == ZERO {
        Ok((false, pos + 1))
    } else if 0 <= pos < s.len() && s[pos] == ONE {
        Ok((true, pos + 1))
    } else {
        Err(ErrorModel::General)
    }
}

/// An optional number and the comma after it.
pub open spec fn spec_dec_comma(s: Seq<u8>, pos: int) -> Result<(Option<Seq<u8>>, int), ErrorModel> {
    match spec_opt_decimal(s, pos) {
        Err(e) => Err(e),
        Ok((v, p)) => match spec_expect(s, p, COMMA) {
            Err(e) => Err(e),
            Ok((_, q)) => Ok((v, q)),
        },
    }
}

/// `00,<time>,<position>,<altitude>,<status>,` and where it ends.
pub open spec fn spec_pubx_head(s: Seq<u8>) -> Result<(Option<TimeModel>, Option<PositionModel>, Option<Seq<u8>>, NavStat, int), ErrorModel> {
    if !(s.len() >= 3 && s[0] == ZERO && s[1] == ZERO && s[2] == COMMA) {
        Err(ErrorModel::General)
    } else {
        match spec_opt_time(s, 3) {
            Err(e) => Err(e),
            Ok((time, at1)) => match spec_expect(s, at1, COMMA) {
                Err(e) => Err(e),
                Ok((_, at2)) => match spec_opt_position(s, at2) {
                    Err(e) => Err(e),
                    Ok((position, at3)) => match spec_expect(s, at3, COMMA) {
                        Err(e) => Err(e),
                        Ok((_, at4)) => match spec_dec_comma(s, at4) {
                            Err(e) => Err(e),
                            Ok((altitude, at5)) => match spec_status(s, at5) {
                                Err(e) => Err(e),
                                Ok((status, at6)) => match spec_expect(s, at6, COMMA) {
                                    Err(e) => Err(e),
                                    Ok((_, at7)) => Ok((time, position, altitude, status, at7)),
                                },
                            },
                        },
                    },
                },
            },
        }
    }
}

/// The six accuracy and motion numbers, each with its comma.
pub open spec fn spec_pubx_motion(s: Seq<u8>, pos: int) -> Result<(Seq<Option<Seq<u8>>>, int), ErrorModel> {
    match spec_dec_comma(s, pos) {
        Err(e) => Err(e),
        Ok((a, at1)) => match spec_dec_comma(s, at1) {
            Err(e) => Err(e),
            Ok((b, at2)) => match spec_dec_comma(s, at2) {
                Err(e) => Err(e),
                Ok((c, at3)) => match spec_dec_comma(s, at3) {
                    Err(e) => Err(e),
                    Ok((d, at4)) => match spec_dec_comma(s, at4) {
                        Err(e) => Err(e),
                        Ok((e5, at5)) => match spec_dec_comma(s, at5) {
                            Err(e) => Err(e),
                            Ok((f, at6)) => Ok((seq![a, b, c, d, e5, f], at6)),
                        },
                    },
                },
            },
        },
    }
}

/// `<hdop>,<vdop>,<tdop>,<satellites>,<reserved>,<flag>*`, which ends the
/// body.
pub open spec fn spec_pubx_tail(s: Seq<u8>, pos: int) -> Result<(Seq<Option<Seq<u8>>>, Option<u8>, bool), ErrorModel> {
    match spec_dec_comma(s, pos) {
        Err(e) => Err(e),
        Ok((h, at1)) => match spec_dec_comma(s, at1) {
            Err(e) => Err(e),
            Ok((v, at2)) => match spec_dec_comma(s, at2) {
                Err(e) => Err(e),
                Ok((t, at3)) => match spec_opt_u8(s, at3) {
                    Err(e) => Err(e),
                    Ok((n, at4)) => match spec_expect(s, at4, COMMA) {
                        Err(e) => Err(e),
                        Ok((_, at5)) => match spec_skip(s, at5) {
                            Err(e) => Err(e),
                            Ok((_, at6)) => match spec_expect(s, at6, COMMA) {
                                Err(e) => Err(e),
                                Ok((_, at7)) => match spec_flag(s, at7) {
                                    Err(e) => Err(e),
                                    Ok((dr, at8)) => match spec_expect(s, at8, STAR) {
                                        Err(e) => Err(e),
                                        Ok((_, at9)) => if at9 == s.len() {
                                            Ok((seq![h, v, t], n, dr))
                                        } else {
                                            Err(ErrorModel::General)
                                        },
                                    },
                                },
                            },
                        },
                    },
                },
            },
        },
    }
}

/// The body of an extended fix sentence, read left to right; the first
/// rule that fails decides the error.
#[verifier::opaque]
pub open spec fn spec_pubx(s: Seq<u8>) -> Result<PubxModel, ErrorModel> {
    match spec_pubx_head(s) {
        Err(e) => Err(e),
        Ok((time, position, altitude, status, p)) => match spec_pubx_motion(s, p) {
            Err(e) => Err(e),
            Ok((m, q)) => match spec_pubx_tail(s, q) {
                Err(e) => Err(e),
                Ok((d, num_satellites, dead_reckoning)) => Ok(
                    PubxModel {
                        time,
                        position,
                        altitude,
                        status,
                        h_acc: m[0],
                        v_acc: m[1],
                        sog: m[2],
                        cog: m[3],
                        v_vel: m[4],
                        diff_age: m[5],
                        hdop: d[0],
                        vdop: d[1],
                        tdop: d[2],
                        num_satellites,
                        dead_reckoning,
                    },
                ),
            },
        },
    }
}

fn dec_comma<'a>(b: &'a [u8], pos: usize) -> (r: Result<(Option<Decimal>, usize), NmeaSentenceError<'a>>)
    requires
        pos <= b@.len(),
    ensures
        match (r, spec_dec_comma(b@, pos as int)) {
            (Ok((x, p)), Ok((v, q))) => opt_view(x) == v && p == q && q <= b@.len(),
            (Err(e), Err(f)) => e@ == f,
            _ => false,
        },
{
    let (v, p) = opt_decimal(b, pos)?;
    let (_, q) = expect(b, p, COMMA)?;
    Ok((v, q))
}

fn status<'a>(b: &'a [u8], pos: usize) -> (r: Result<(NavStat, usize), NmeaSentenceError<'a>>)
    requires
        pos <= b@.len(),
    ensures
        match (r, spec_status(b@, pos as int)) {
            (Ok((x, p)), Ok((v, q))) => x == v && p == q && q <= b@.len(),
            (Err(e), Err(f)) => e@ == f,
            _ => false,
        },
{
    if b.len() - pos < 2 {
        return Err(NmeaSentenceError::DataParsingError(DataError::Incomplete));
    }
    match NavStat::from_code(b[pos], b[pos + 1]) {
        Ok(st) => Ok((st, pos + 2)),
        Err(e) => Err(NmeaSentenceError::StatusParsingError(e)),
    }
}

fn flag<'a>(b: &'a [u8], pos: usize) -> (r: Result<(bool, usize), NmeaSentenceError<'a>>)
    requires
        pos <= b@.len(),
    ensures
        match (r, spec_flag(b@, pos as int)) {
            (Ok((x, p)), Ok((v, q))) => x == v && p == q && q <= b@.len(),
            (Err(e), Err(f)) => e@ == f,
            _ => false,
        },
{
    if pos < b.len() && b[pos] == ZERO {
        Ok((false, pos + 1))
    } else if pos < b.len() && b[pos] == ONE {
        Ok((true, pos + 1))
    } else {
        Err(NmeaSentenceError::GeneralParsingError)
    }
}

/// Decodes the body of an extended fix sentence: what follows `PUBX,`, up
/// to and including the checksum delimiter.
pub fn parse_pubx<'a>(data: &'a [u8]) -> (r: Result<PubxLocData, NmeaSentenceError<'a>>)
    ensures
        match (r, spec_pubx(data@)) {
            (Ok(x), Ok(v)) => x@ == v,
            (Err(e), Err(f)) => e@ == f,
            _ => false,
        },
{
    proof {
        reveal(spec_pubx);
    }
    if !(data.len() >= 3 && data[0] == ZERO && data[1] == ZERO && data[2] == COMMA) {
        return Err(NmeaSentenceError::GeneralParsingError);
    }
    let (time, p) = opt_time(data, 3)?;
    let (_, p) = expect(data, p, COMMA)?;
    let (position, p) = opt_position(data, p)?;
    let (_, p) = expect(data, p, COMMA)?;
    let (altitude, p) = dec_comma(data, p)?;
    let (status, p) = status(data, p)?;
    let (_, p) = expect(data, p, COMMA)?;
    let (h_acc, p) = dec_comma(data, p)?;
    let (v_acc, p) = dec_comma(data, p)?;
    let (sog, p) = dec_comma(data, p)?;
    let (cog, p) = dec_comma(data, p)?;
    let (v_vel, p) = dec_comma(data, p)?;
    let (diff_age, p) = dec_comma(data, p)?;
    let (hdop, p) = dec_comma(data, p)?;
    let (vdop, p) = dec_comma(data, p)?;
    let (tdop, p) = dec_comma(data, p)?;
    let (num_satellites, p) = opt_u8(data, p)?;
    let (_, p) = expect(data, p, COMMA)?;
    let (_, p) = skip_token(data, p)?;
    let (_, p) = expect(data, p, COMMA)?;
    let (dead_reckoning, p) = flag(data, p)?;
    let (_, p) = expect(data, p, STAR)?;
    if p != data.len() {
        return Err(NmeaSentenceError::GeneralParsingError);
    }
    Ok(PubxLocData {
        time,
        position,
        altitude,
        status,
        h_acc,
        v_acc,
        sog,
        cog,
        v_vel,
        diff_age,
        hdop,
        vdop,
        tdop,
        num_satellites,
        dead_reckoning,
    })
}

/// An empty token where a status or the dead reckoning flag must stand
/// ends the decoding: with a status error for the status, a structural
/// error for the flag.
pub proof fn lemma_empty_mandatory(s: Seq<u8>, pos: int)
    requires
        0 <= pos,
        pos + 2 <= s.len(),
        s[pos] == COMMA,
    ensures
        spec_status(s, pos) == Err::<(NavStat, int), ErrorModel>(ErrorModel::Status(s[pos], s[pos + 1])),
        spec_flag(s, pos) == Err::<(bool, int), ErrorModel>(ErrorModel::General),
{
}

/// The two-letter code of a status.
pub open spec fn status_code(st: NavStat) -> Seq<u8> {
    match st {
        NavStat::NoFix => seq![CHAR_N, CHAR_F],
        NavStat::DeadReckoning => seq![CHAR_D, CHAR_R],
        NavStat::StandAlone2D => seq![CHAR_G, CHAR_2],
        NavStat::StandAlone3D => seq![CHAR_G, CHAR_3],
        NavStat::Differential2D => seq![CHAR_D, CHAR_2],
        NavStat::Differential3D => seq![CHAR_D, CHAR_3],
        NavStat::Combined => seq![CHAR_R, CHAR_K],
        NavStat::TimeOnly => seq![CHAR_T, CHAR_T],
    }
}

pub open spec fn digit(n: int) -> u8 {
    (ZERO + n) as u8
}

/// `n` in two digits, for `n < 100`.
pub open spec fn two_digit_text(n: int) -> Seq<u8> {
    seq![digit(n / 10), digit(n % 10)]
}

/// `n` in three digits, for `n < 1000`.
pub open spec fn three_digit_text(n: int) -> Seq<u8> {
    seq![digit(n / 100), digit((n / 10) % 10), digit(n % 10)]
}

pub open spec fn time_text(o: Option<TimeModel>) -> Seq<u8> {
    match o {
        Some(t) => two_digit_text(t.hour as int) + two_digit_text(t.minute as int) + t.second,
        None => Seq::empty(),
    }
}

/// The four tokens of a position.
pub open spec fn position_tokens(o: Option<PositionModel>) -> Seq<Seq<u8>> {
    match o {
        Some(p) => seq![
            two_digit_text(p.lat_degrees as int) + p.lat_minutes,
            seq![p.lat_hemisphere],
            three_digit_text(p.lon_degrees as int) + p.lon_minutes,
            seq![p.lon_hemisphere],
        ],
        None => seq![Seq::empty(), Seq::empty(), Seq::empty(), Seq::empty()],
    }
}

pub open spec fn count_text(o: Option<u8>) -> Seq<u8> {
    match o {
        Some(n) => three_digit_text(n as int),
        None => Seq::empty(),
    }
}

/// The tokens of an extended fix body, the given reserved token included.
pub open spec fn pubx_tokens(m: PubxModel, reserved: Seq<u8>) -> Seq<Seq<u8>> {
    seq![seq![ZERO, ZERO], time_text(m.time)] + position_tokens(m.position) + seq![
        opt_text(m.altitude),
        status_code(m.status),
        opt_text(m.h_acc),
        opt_text(m.v_acc),
        opt_text(m.sog),
        opt_text(m.cog),
        opt_text(m.v_vel),
        opt_text(m.diff_age),
        opt_text(m.hdop),
        opt_text(m.vdop),
        opt_text(m.tdop),
        count_text(m.num_satellites),
        reserved,
        seq![if m.dead_reckoning { ONE } else { ZERO }],
    ]
}

/// The body that writes `m`, ending at the checksum delimiter.
pub open spec fn render_pubx(m: PubxModel, reserved: Seq<u8>) -> Seq<u8> {
    join(pubx_tokens(m, reserved)) + seq![STAR]
}

/// The values that a body can carry: numbers are decimals, the seconds
/// start with two digits, degrees and hemispheres are in range.
pub open spec fn pubx_model_ok(m: PubxModel) -> bool {
    &&& (m.time matches Some(t) ==> t.hour < 100 && t.minute < 100 && is_decimal(t.second) && t.second.len() >= 2
        && is_digit(t.second[0]) && is_digit(t.second[1]))
    &&& (m.position matches Some(p) ==> p.lat_degrees < 100 && is_decimal(p.lat_minutes) && (p.lat_hemisphere
        == NORTH || p.lat_hemisphere == SOUTH) && p.lon_degrees < 1000 && is_decimal(p.lon_minutes) && (
    p.lon_hemisphere == EAST || p.lon_hemisphere == WEST))
    &&& opt_decimal_ok(m.altitude)
    &&& opt_decimal_ok(m.h_acc)
    &&& opt_decimal_ok(m.v_acc)
    &&& opt_decimal_ok(m.sog)
    &&& opt_decimal_ok(m.cog)
    &&& opt_decimal_ok(m.v_vel)
    &&& opt_decimal_ok(m.diff_age)
    &&& opt_decimal_ok(m.hdop)
    &&& opt_decimal_ok(m.vdop)
    &&& opt_decimal_ok(m.tdop)
}

proof fn lemma_two_digit_text(n: int)
    requires
        0 <= n < 100,
    ensures
        two_digit_text(n).len() == 2,
        all_digits(two_digit_text(n)),
        two_digits(two_digit_text(n), 0) == n,
{
    assert(0 <= n / 10 < 10 && 0 <= n % 10 < 10 && (n / 10) * 10 + n % 10 == n) by (nonlinear_arith)
        requires
            0 <= n < 100,
    ;
}

proof fn lemma_three_digit_text(n: int)
    requires
        0 <= n < 1000,
    ensures
        three_digit_text(n).len() == 3,
        all_digits(three_digit_text(n)),
        three_digits(three_digit_text(n), 0) == n,
        digits_value(three_digit_text(n)) == n,
{
    assert(0 <= n / 100 < 10 && 0 <= (n / 10) % 10 < 10 && 0 <= n % 10 < 10 && (n / 100) * 100 + ((n / 10)
        % 10) * 10 + n % 10 == n) by (nonlinear_arith)
        requires
            0 <= n < 1000,
    ;
    let t = three_digit_text(n);
    let t1 = t.drop_last().drop_last();
    assert(t1 =~= seq![t[0]]);
    assert(t1.drop_last() =~= Seq::<u8>::empty());
    assert(digits_value(t1.drop_last()) == 0);
    assert(digits_value(t1) == (t[0] - ZERO));
    assert(t.drop_last() =~= seq![t[0], t[1]]);
    assert(t.drop_last().drop_last() =~= t1);
    assert(digits_value(t.drop_last()) == (t[0] - ZERO) * 10 + (t[1] - ZERO));
}

proof fn lemma_dec_comma_field(s: Seq<u8>, o: int, v: Option<Seq<u8>>)
    requires
        opt_decimal_ok(v),
        token_then_comma(s, o, opt_text(v)),
    ensures
        spec_dec_comma(s, o) == Ok::<(Option<Seq<u8>>, int), ErrorModel>((v, o + opt_text(v).len() + 1)),
{
}

proof fn lemma_time_field(s: Seq<u8>, o: int, time: Option<TimeModel>)
    requires
        time matches Some(t) ==> t.hour < 100 && t.minute < 100 && is_decimal(t.second) && t.second.len() >= 2
            && is_digit(t.second[0]) && is_digit(t.second[1]),
        token_then_comma(s, o, time_text(time)),
    ensures
        spec_opt_time(s, o) == Ok::<(Option<TimeModel>, int), ErrorModel>((time, o + time_text(time).len())),
{
    if let Some(t) = time {
        let x = time_text(time);
        let h = two_digit_text(t.hour as int);
        let mi = two_digit_text(t.minute as int);
        lemma_two_digit_text(t.hour as int);
        lemma_two_digit_text(t.minute as int);
        assert(x.subrange(4, x.len() as int) =~= t.second);
        assert(x[0] == h[0] && x[1] == h[1] && x[2] == mi[0] && x[3] == mi[1]);
        assert(x[4] == t.second[0] && x[5] == t.second[1]);
        assert(all_digits(x.subrange(0, 6))) by {
            assert forall|i: int| 0 <= i < 6 implies is_digit(#[trigger] x.subrange(0, 6)[i]) by {
                assert(x.subrange(0, 6)[i] == x[i]);
            }
        }
        assert(time_shape(x));
    }
}

proof fn lemma_position_field(s: Seq<u8>, o: int, position: Option<PositionModel>)
    requires
        position matches Some(p) ==> p.lat_degrees < 100 && is_decimal(p.lat_minutes) && (p.lat_hemisphere
            == NORTH || p.lat_hemisphere == SOUTH) && p.lon_degrees < 1000 && is_decimal(p.lon_minutes) && (
        p.lon_hemisphere == EAST || p.lon_hemisphere == WEST),
        ({
            let ps = position_tokens(position);
            let o1 = o + ps[0].len() + 1;
            let o2 = o1 + ps[1].len() + 1;
            let o3 = o2 + ps[2].len() + 1;
            &&& token_then_comma(s, o, ps[0])
            &&& token_then_comma(s, o1, ps[1])
            &&& token_then_comma(s, o2, ps[2])
            &&& token_then_comma(s, o3, ps[3])
        }),
    ensures
        ({
            let ps = position_tokens(position);
            let end = o + ps[0].len() + ps[1].len() + ps[2].len() + ps[3].len() + 3;
            spec_opt_position(s, o) == Ok::<(Option<PositionModel>, int), ErrorModel>((position, end))
        }),
{
    let ps = position_tokens(position);
    if let Some(p) = position {
        let lat = ps[0];
        let lon = ps[2];
        let d2 = two_digit_text(p.lat_degrees as int);
        let d3 = three_digit_text(p.lon_degrees as int);
        lemma_two_digit_text(p.lat_degrees as int);
        lemma_three_digit_text(p.lon_degrees as int);
        lemma_decimal_chars(p.lat_minutes);
        assert(lat.subrange(0, 2) =~= d2);
        assert(lat.subrange(2, lat.len() as int) =~= p.lat_minutes);
        assert(lon.subrange(0, 3) =~= d3);
        assert(lon.subrange(3, lon.len() as int) =~= p.lon_minutes);
        assert(coord_shape(lat, 2));
        assert(coord_shape(lon, 3));
        assert(two_digits(lat, 0) == two_digits(d2, 0));
        assert(three_digits(lon, 0) == three_digits(d3, 0));
        assert(s[o] == lat[0]);
        assert(lat[0] == d2[0]);
        let o1 = o + lat.len() + 1;
        assert(s[o1] == s.subrange(o1, o1 + 1)[0]);
        let o3 = o1 + 2 + lon.len() + 1;
        assert(s[o3] == s.subrange(o3, o3 + 1)[0]);
    }
}

proof fn lemma_status_field(s: Seq<u8>, o: int, st: NavStat)
    requires
        token_then_comma(s, o, status_code(st)),
    ensures
        spec_status(s, o) == Ok::<(NavStat, int), ErrorModel>((st, o + 2)),
{
    let c = status_code(st);
    assert(s[o] == s.subrange(o, o + 2)[0] && s[o + 1] == s.subrange(o, o + 2)[1]);
    assert(nav_stat_of(c[0], c[1]) == Some(st));
}

proof fn lemma_count_field(s: Seq<u8>, o: int, n: Option<u8>)
    requires
        token_then_comma(s, o, count_text(n)),
    ensures
        spec_opt_u8(s, o) == Ok::<(Option<u8>, int), ErrorModel>((n, o + count_text(n).len())),
{
    if let Some(v) = n {
        lemma_three_digit_text(v as int);
    }
}

proof fn lemma_pubx_head(s: Seq<u8>, ts: Seq<Seq<u8>>, m: PubxModel, reserved: Seq<u8>)
    requires
        pubx_model_ok(m),
        ts[0] == seq![ZERO, ZERO],
        token_then_comma(s, offset(ts, 0), ts[0]),
        ts[1] == time_text(m.time),
        token_then_comma(s, offset(ts, 1), ts[1]),
        ts[2] == position_tokens(m.position)[0],
        token_then_comma(s, offset(ts, 2), ts[2]),
        ts[3] == position_tokens(m.position)[1],
        token_then_comma(s, offset(ts, 3), ts[3]),
        ts[4] == position_tokens(m.position)[2],
        token_then_comma(s, offset(ts, 4), ts[4]),
        ts[5] == position_tokens(m.position)[3],
        token_then_comma(s, offset(ts, 5), ts[5]),
        ts[6] == opt_text(m.altitude),
        token_then_comma(s, offset(ts, 6), ts[6]),
        ts[7] == status_code(m.status),
        token_then_comma(s, offset(ts, 7), ts[7]),
    ensures
        spec_pubx_head(s) == Ok::<(Option<TimeModel>, Option<PositionModel>, Option<Seq<u8>>, NavStat, int), ErrorModel>(
            (m.time, m.position, m.altitude, m.status, offset(ts, 8)),
        ),
{
    assert(s[0] == s.subrange(0, 2)[0] && s[1] == s.subrange(0, 2)[1]);
    lemma_time_field(s, offset(ts, 1), m.time);
    lemma_position_field(s, offset(ts, 2), m.position);
    lemma_dec_comma_field(s, offset(ts, 6), m.altitude);
    lemma_status_field(s, offset(ts, 7), m.status);
}

proof fn lemma_pubx_motion(s: Seq<u8>, ts: Seq<Seq<u8>>, m: PubxModel, reserved: Seq<u8>)
    requires
        pubx_model_ok(m),
        ts[8] == opt_text(m.h_acc),
        token_then_comma(s, offset(ts, 8), ts[8]),
        ts[9] == opt_text(m.v_acc),
        token_then_comma(s, offset(ts, 9), ts[9]),
        ts[10] == opt_text(m.sog),
        token_then_comma(s, offset(ts, 10), ts[10]),
        ts[11] == opt_text(m.cog),
        token_then_comma(s, offset(ts, 11), ts[11]),
        ts[12] == opt_text(m.v_vel),
        token_then_comma(s, offset(ts, 12), ts[12]),
        ts[13] == opt_text(m.diff_age),
        token_then_comma(s, offset(ts, 13), ts[13]),
    ensures
        spec_pubx_motion(s, offset(ts, 8)) == Ok::<(Seq<Option<Seq<u8>>>, int), ErrorModel>(
            (seq![m.h_acc, m.v_acc, m.sog, m.cog, m.v_vel, m.diff_age], offset(ts, 14)),
        ),
{
    lemma_dec_comma_field(s, offset(ts, 8), m.h_acc);
    lemma_dec_comma_field(s, offset(ts, 9), m.v_acc);
    lemma_dec_comma_field(s, offset(ts, 10), m.sog);
    lemma_dec_comma_field(s, offset(ts, 11), m.cog);
    lemma_dec_comma_field(s, offset(ts, 12), m.v_vel);
    lemma_dec_comma_field(s, offset(ts, 13), m.diff_age);
}

proof fn lemma_pubx_tail(s: Seq<u8>, ts: Seq<Seq<u8>>, m: PubxModel, reserved: Seq<u8>)
    requires
        pubx_model_ok(m),
        ts[14] == opt_text(m.hdop),
        token_then_comma(s, offset(ts, 14), ts[14]),
        ts[15] == opt_text(m.vdop),
        token_then_comma(s, offset(ts, 15), ts[15]),
        ts[16] == opt_text(m.tdop),
        token_then_comma(s, offset(ts, 16), ts[16]),
        ts[17] == count_text(m.num_satellites),
        token_then_comma(s, offset(ts, 17), ts[17]),
        ts[18] == reserved,
        token_then_comma(s, offset(ts, 18), ts[18]),
        ts[19] == seq![if m.dead_reckoning { ONE } else { ZERO }],
        ({
            let o = offset(ts, 19);
            s.subrange(o, o + 1) == ts[19] && s[o + 1] == STAR && o + 2 == s.len()
        }),
    ensures
        spec_pubx_tail(s, offset(ts, 14)) == Ok::<(Seq<Option<Seq<u8>>>, Option<u8>, bool), ErrorModel>(
            (seq![m.hdop, m.vdop, m.tdop], m.num_satellites, m.dead_reckoning),
        ),
{
    lemma_dec_comma_field(s, offset(ts, 14), m.hdop);
    lemma_dec_comma_field(s, offset(ts, 15), m.vdop);
    lemma_dec_comma_field(s, offset(ts, 16), m.tdop);
    lemma_count_field(s, offset(ts, 17), m.num_satellites);
    let o = offset(ts, 19);
    assert(s[o] == s.subrange(o, o + 1)[0]);
}

/// Reads the body token by token, given where each token stands.
#[verifier::rlimit(60)]
proof fn lemma_pubx_chain(s: Seq<u8>, ts: Seq<Seq<u8>>, m: PubxModel, reserved: Seq<u8>)
    requires
        pubx_model_ok(m),
        s == join(ts) + seq![STAR],
        ts.len() == 20,
        no_byte(ts[0], COMMA),
        no_byte(ts[1], COMMA),
        no_byte(ts[2], COMMA),
        no_byte(ts[3], COMMA),
        no_byte(ts[4], COMMA),
        no_byte(ts[5], COMMA),
        no_byte(ts[6], COMMA),
        no_byte(ts[7], COMMA),
        no_byte(ts[8], COMMA),
        no_byte(ts[9], COMMA),
        no_byte(ts[10], COMMA),
        no_byte(ts[11], COMMA),
        no_byte(ts[12], COMMA),
        no_byte(ts[13], COMMA),
        no_byte(ts[14], COMMA),
        no_byte(ts[15], COMMA),
        no_byte(ts[16], COMMA),
        no_byte(ts[17], COMMA),
        no_byte(ts[18], COMMA),
        no_byte(ts[19], COMMA),
        ts[0] == seq![ZERO, ZERO],
        ts[1] == time_text(m.time),
        ts[2] == position_tokens(m.position)[0],
        ts[3] == position_tokens(m.position)[1],
        ts[4] == position_tokens(m.position)[2],
        ts[5] == position_tokens(m.position)[3],
        ts[6] == opt_text(m.altitude),
        ts[7] == status_code(m.status),
        ts[8] == opt_text(m.h_acc),
        ts[9] == opt_text(m.v_acc),
        ts[10] == opt_text(m.sog),
        ts[11] == opt_text(m.cog),
        ts[12] == opt_text(m.v_vel),
        ts[13] == opt_text(m.diff_age),
        ts[14] == opt_text(m.hdop),
        ts[15] == opt_text(m.vdop),
        ts[16] == opt_text(m.tdop),
        ts[17] == count_text(m.num_satellites),
        ts[18] == reserved,
        ts[19] == seq![if m.dead_reckoning { ONE } else { ZERO }],
    ensures
        spec_pubx(s) == Ok::<PubxModel, ErrorModel>(m),
{
    assert(token_then_comma(s, offset(ts, 0), ts[0])) by {
        lemma_token(ts, STAR, 0);
    }
    assert(token_then_comma(s, offset(ts, 1), ts[1])) by {
        lemma_token(ts, STAR, 1);
    }
    assert(token_then_comma(s, offset(ts, 2), ts[2])) by {
        lemma_token(ts, STAR, 2);
    }
    assert(token_then_comma(s, offset(ts, 3), ts[3])) by {
        lemma_token(ts, STAR, 3);
    }
    assert(token_then_comma(s, offset(ts, 4), ts[4])) by {
        lemma_token(ts, STAR, 4);
    }
    assert(token_then_comma(s, offset(ts, 5), ts[5])) by {
        lemma_token(ts, STAR, 5);
    }
    assert(token_then_comma(s, offset(ts, 6), ts[6])) by {
        lemma_token(ts, STAR, 6);
    }
    assert(token_then_comma(s, offset(ts, 7), ts[7])) by {
        lemma_token(ts, STAR, 7);
    }
    assert(token_then_comma(s, offset(ts, 8), ts[8])) by {
        lemma_token(ts, STAR, 8);
    }
    assert(token_then_comma(s, offset(ts, 9), ts[9])) by {
        lemma_token(ts, STAR, 9);
    }
    assert(token_then_comma(s, offset(ts, 10), ts[10])) by {
        lemma_token(ts, STAR, 10);
    }
    assert(token_then_comma(s, offset(ts, 11), ts[11])) by {
        lemma_token(ts, STAR, 11);
    }
    assert(token_then_comma(s, offset(ts, 12), ts[12])) by {
        lemma_token(ts, STAR, 12);
    }
    assert(token_then_comma(s, offset(ts, 13), ts[13])) by {
        lemma_token(ts, STAR, 13);
    }
    assert(token_then_comma(s, offset(ts, 14), ts[14])) by {
        lemma_token(ts, STAR, 14);
    }
    assert(token_then_comma(s, offset(ts, 15), ts[15])) by {
        lemma_token(ts, STAR, 15);
    }
    assert(token_then_comma(s, offset(ts, 16), ts[16])) by {
        lemma_token(ts, STAR, 16);
    }
    assert(token_then_comma(s, offset(ts, 17), ts[17])) by {
        lemma_token(ts, STAR, 17);
    }
    assert(token_then_comma(s, offset(ts, 18), ts[18])) by {
        lemma_token(ts, STAR, 18);
    }
    let o19 = offset(ts, 19);
    assert(s.subrange(o19, o19 + 1) == ts[19] && s[o19 + 1] == STAR && o19 + 2 == s.len()) by {
        lemma_token(ts, STAR, 19);
    }
    lemma_pubx_head(s, ts, m, reserved);
    lemma_pubx_motion(s, ts, m, reserved);
    lemma_pubx_tail(s, ts, m, reserved);
    reveal(spec_pubx);
}

/// Writing a well-formed record as a body and decoding that body gives the
/// record back, whatever the reserved token holds.
pub proof fn lemma_pubx_round_trip(m: PubxModel, reserved: Seq<u8>)
    requires
        pubx_model_ok(m),
        no_byte(reserved, COMMA),
    ensures
        spec_pubx(render_pubx(m, reserved)) == Ok::<PubxModel, ErrorModel>(m),
{
    let ts = pubx_tokens(m, reserved);
    let s = render_pubx(m, reserved);
    let ps = position_tokens(m.position);
    assert(ts.len() == 20);
    assert(ts[0] == seq![ZERO, ZERO] && ts[1] == time_text(m.time));
    assert(ts[2] == ps[0] && ts[3] == ps[1] && ts[4] == ps[2] && ts[5] == ps[3]);
    assert(ts[6] == opt_text(m.altitude) && ts[7] == status_code(m.status));
    assert(ts[8] == opt_text(m.h_acc) && ts[9] == opt_text(m.v_acc) && ts[10] == opt_text(m.sog));
    assert(ts[11] == opt_text(m.cog) && ts[12] == opt_text(m.v_vel) && ts[13] == opt_text(m.diff_age));
    assert(ts[14] == opt_text(m.hdop) && ts[15] == opt_text(m.vdop) && ts[16] == opt_text(m.tdop));
    assert(ts[17] == count_text(m.num_satellites) && ts[18] == reserved);
    assert(ts[19] == seq![if m.dead_reckoning { ONE } else { ZERO }]);
    if let Some(t) = m.time {
        lemma_two_digit_text(t.hour as int);
        lemma_two_digit_text(t.minute as int);
        lemma_decimal_chars(t.second);
        lemma_concat_no_byte(two_digit_text(t.hour as int), two_digit_text(t.minute as int), COMMA);
        lemma_concat_no_byte(two_digit_text(t.hour as int) + two_digit_text(t.minute as int), t.second, COMMA);
    }
    if let Some(p) = m.position {
        lemma_two_digit_text(p.lat_degrees as int);
        lemma_three_digit_text(p.lon_degrees as int);
        lemma_decimal_chars(p.lat_minutes);
        lemma_decimal_chars(p.lon_minutes);
        lemma_concat_no_byte(two_digit_text(p.lat_degrees as int), p.lat_minutes, COMMA);
        lemma_concat_no_byte(three_digit_text(p.lon_degrees as int), p.lon_minutes, COMMA);
    }
    if let Some(n) = m.num_satellites {
        lemma_three_digit_text(n as int);
    }
    lemma_opt_text(m.altitude);
    lemma_opt_text(m.h_acc);
    lemma_opt_text(m.v_acc);
    lemma_opt_text(m.sog);
    lemma_opt_text(m.cog);
    lemma_opt_text(m.v_vel);
    lemma_opt_text(m.diff_age);
    lemma_opt_text(m.hdop);
    lemma_opt_text(m.vdop);
    lemma_opt_text(m.tdop);
    assert(no_byte(ts[0], COMMA));
    assert(no_byte(ts[1], COMMA));
    assert(no_byte(ts[2], COMMA));
    assert(no_byte(ts[3], COMMA));
    assert(no_byte(ts[4], COMMA));
    assert(no_byte(ts[5], COMMA));
    assert(no_byte(ts[6], COMMA));
    assert(no_byte(ts[7], COMMA));
    assert(no_byte(ts[8], COMMA));
    assert(no_byte(ts[9], COMMA));
    assert(no_byte(ts[10], COMMA));
    assert(no_byte(ts[11], COMMA));
    assert(no_byte(ts[12], COMMA));
    assert(no_byte(ts[13], COMMA));
    assert(no_byte(ts[14], COMMA));
    assert(no_byte(ts[15], COMMA));
    assert(no_byte(ts[16], COMMA));
    assert(no_byte(ts[17], COMMA));
    assert(no_byte(ts[18], COMMA));
    assert(no_byte(ts[19], COMMA));
    lemma_pubx_chain(s, ts, m, reserved);
}

proof fn lemma_concat_no_byte(a: Seq<u8>, b: Seq<u8>, c: u8)
    requires
        no_byte(a, c),
        no_byte(b, c),
    ensures
        no_byte(a + b, c),
{
    assert forall|i: int| 0 <= i < (a + b).len() implies (a + b)[i] != c by {
        if i >= a.len() {
            assert((a + b)[i] == b[i - a.len()]);
        }
    }
}

/// The body that writes a well-formed record holds `*` only at its end.
pub proof fn lemma_render_no_star(m: PubxModel, reserved: Seq<u8>)
    requires
        pubx_model_ok(m),
        no_byte(reserved, STAR),
    ensures
        render_pubx(m, reserved).drop_last() == join(pubx_tokens(m, reserved)),
        render_pubx(m, reserved).last() == STAR,
        no_byte(join(pubx_tokens(m, reserved)), STAR),
{
    let ts = pubx_tokens(m, reserved);
    let ps = position_tokens(m.position);
    assert(render_pubx(m, reserved).drop_last() =~= join(ts));
    if let Some(t) = m.time {
        lemma_decimal_chars(t.second);
        lemma_two_digit_text(t.hour as int);
        lemma_two_digit_text(t.minute as int);
        lemma_concat_no_byte(two_digit_text(t.hour as int), two_digit_text(t.minute as int), STAR);
        lemma_concat_no_byte(two_digit_text(t.hour as int) + two_digit_text(t.minute as int), t.second, STAR);
    }
    if let Some(p) = m.position {
        lemma_decimal_chars(p.lat_minutes);
        lemma_decimal_chars(p.lon_minutes);
        lemma_two_digit_text(p.lat_degrees as int);
        lemma_three_digit_text(p.lon_degrees as int);
        lemma_concat_no_byte(two_digit_text(p.lat_degrees as int), p.lat_minutes, STAR);
        lemma_concat_no_byte(three_digit_text(p.lon_degrees as int), p.lon_minutes, STAR);
    }
    if let Some(n) = m.num_satellites {
        lemma_three_digit_text(n as int);
    }
    lemma_opt_text(m.altitude);
    lemma_opt_text(m.h_acc);
    lemma_opt_text(m.v_acc);
    lemma_opt_text(m.sog);
    lemma_opt_text(m.cog);
    lemma_opt_text(m.v_vel);
    lemma_opt_text(m.diff_age);
    lemma_opt_text(m.hdop);
    lemma_opt_text(m.vdop);
    lemma_opt_text(m.tdop);
    assert(no_byte(time_text(m.time), STAR));
    assert(no_byte(ps[0], STAR) && no_byte(ps[1], STAR) && no_byte(ps[2], STAR) && no_byte(ps[3], STAR));
    assert(no_byte(status_code(m.status), STAR));
    assert(no_byte(count_text(m.num_satellites), STAR));
    assert forall|k: int| 0 <= k < ts.len() implies no_byte(#[trigger] ts[k], STAR) by {
        if k == 0 {
            assert(ts[k] == ts[0]);
        } else if k == 1 {
            assert(ts[k] == ts[1]);
        } else if k == 2 {
            assert(ts[k] == ts[2]);
        } else if k == 3 {
            assert(ts[k] == ts[3]);
        } else if k == 4 {
            assert(ts[k] == ts[4]);
        } else if k == 5 {
            assert(ts[k] == ts[5]);
        } else if k == 6 {
            assert(ts[k] == ts[6]);
        } else if k == 7 {
            assert(ts[k] == ts[7]);
        } else if k == 8 {
            assert(ts[k] == ts[8]);
        } else if k == 9 {
            assert(ts[k] == ts[9]);
        } else if k == 10 {
            assert(ts[k] == ts[10]);
        } else if k == 11 {
            assert(ts[k] == ts[11]);
        } else if k == 12 {
            assert(ts[k] == ts[12]);
        } else if k == 13 {
            assert(ts[k] == ts[13]);
        } else if k == 14 {
            assert(ts[k] == ts[14]);
        } else if k == 15 {
            assert(ts[k] == ts[15]);
        } else if k == 16 {
            assert(ts[k] == ts[16]);
        } else if k == 17 {
            assert(ts[k] == ts[17]);
        } else if k == 18 {
            assert(ts[k] == ts[18]);
        } else if k == 19 {
            assert(ts[k] == ts[19]);
        }
    }
    lemma_join_no_byte(ts, STAR);
}

} // verus!
