//! The course and speed over ground sentence.
use vstd::prelude::*;
use crate::errors::{ErrorModel, NmeaSentenceError};
use crate::fields::{
    lemma_opt_text, opt_decimal, opt_decimal_ok, opt_text, opt_view, spec_opt_decimal, token_then_comma, Decimal,
};
use crate::status::{CHAR_K, CHAR_N, CHAR_T};
use crate::token::{join, lemma_token, no_byte, offset, COMMA, STAR};

verus! {

pub const CHAR_M: u8 = 77;

/// Course and speed over ground. Each value is absent when its token is.
#[derive(Debug, Clone, PartialEq)]
pub struct VtgData {
    /// True bearing, in degrees.
    pub bearing_true: Option<Decimal>,
    /// Magnetic bearing, in degrees.
    pub bearing_magnetic: Option<Decimal>,
    /// Speed in knots.
    pub speed_knots: Option<Decimal>,
    /// Speed in kilometres per hour.
    pub speed_kmh: Option<Decimal>,
}

pub struct VtgModel {
    pub bearing_true: Option<Seq<u8>>,
    pub bearing_magnetic: Option<Seq<u8>>,
    pub speed_knots: Option<Seq<u8>>,
    pub speed_kmh: Option<Seq<u8>>,
}

impl View for VtgData {
    type V = VtgModel;

    open spec fn view(&self) -> VtgModel {
        VtgModel {
            bearing_true: opt_view(self.bearing_true),
            bearing_magnetic: opt_view(self.bearing_magnetic),
            speed_knots: opt_view(self.speed_knots),
            speed_kmh: opt_view(self.speed_kmh),
        }
    }
}

/// An optional number followed by `,<unit>,`, or by `,<unit>*` for the
/// last one.
pub open spec fn spec_unit_field(s: Seq<u8>, pos: int, unit: u8, end: u8) -> Result<(Option<Seq<u8>>, int), ErrorModel> {
    match spec_opt_decimal(s, pos) {
        Err(e) => Err(e),
        Ok((v, p)) => if p + 2 < s.len() && s[p] == COMMA && s[p + 1] == unit && s[p + 2] == end {
            Ok((v, p + 3))
        } else {
            Err(ErrorModel::General)
        },
    }
}

/// The body `<true>,T,<magnetic>,M,<knots>,N,<kmh>,K*`, which ends at the
/// checksum delimiter.
#[verifier::opaque]
pub open spec fn spec_vtg(s: Seq<u8>) -> Result<VtgModel, ErrorModel> {
    match spec_unit_field(s, 0, CHAR_T, COMMA) {
        Err(e) => Err(e),
        Ok((t, at1)) => match spec_unit_field(s, at1, CHAR_M, COMMA) {
            Err(e) => Err(e),
            Ok((m, at2)) => match spec_unit_field(s, at2, CHAR_N, COMMA) {
                Err(e) => Err(e),
                Ok((n, at3)) => match spec_unit_field(s, at3, CHAR_K, STAR) {
                    Err(e) => Err(e),
                    Ok((k, at4)) => if at4 == s.len() {
                        Ok(VtgModel { bearing_true: t, bearing_magnetic: m, speed_knots: n, speed_kmh: k })
                    } else {
                        Err(ErrorModel::General)
                    },
                },
            },
        },
    }
}

fn unit_field<'a>(b: &'a [u8], pos: usize, unit: u8, end: u8) -> (r: Result<(Option<Decimal>, usize), NmeaSentenceError<'a>>)
    requires
        pos <= b@.len(),
    ensures
        match (r, spec_unit_field(b@, pos as int, unit, end)) {
            (Ok((x, p)), Ok((v, q))) => opt_view(x) == v && p == q && q <= b@.len(),
            (Err(e), Err(f)) => e@ == f,
            _ => false,
        },
{
    let (v, p) = opt_decimal(b, pos)?;
    if b.len() - p > 2 && b[p] == COMMA && b[p + 1] == unit && b[p + 2] == end {
        Ok((v, p + 3))
    } else {
        Err(NmeaSentenceError::GeneralParsingError)
    }
}

/// Decodes the body of a course and speed sentence: what follows the
/// type tag's comma, up to and including the checksum delimiter.
pub fn parse_vtg<'a>(data: &'a [u8]) -> (r: Result<VtgData, NmeaSentenceError<'a>>)
    ensures
        match (r, spec_vtg(data@)) {
            (Ok(x), Ok(v)) => x@ == v,
            (Err(e), Err(f)) => e@ == f,
            _ => false,
        },
{
    proof {
        reveal(spec_vtg);
    }
    let (bearing_true, at1) = unit_field(data, 0, CHAR_T, COMMA)?;
    let (bearing_magnetic, at2) = unit_field(data, at1, CHAR_M, COMMA)?;
    let (speed_knots, at3) = unit_field(data, at2, CHAR_N, COMMA)?;
    let (speed_kmh, at4) = unit_field(data, at3, CHAR_K, STAR)?;
    if at4 != data.len() {
        return Err(NmeaSentenceError::GeneralParsingError);
    }
    Ok(VtgData { bearing_true, bearing_magnetic, speed_knots, speed_kmh })
}

/// A unit field whose number is empty is absent and is followed by its
/// unit as usual.
pub proof fn lemma_empty_unit_field(s: Seq<u8>, pos: int, unit: u8, end: u8)
    requires
        0 <= pos,
        pos + 3 <= s.len(),
        s[pos] == COMMA,
        s[pos + 1] == unit,
        s[pos + 2] == end,
    ensures
        spec_unit_field(s, pos, unit, end) == Ok::<(Option<Seq<u8>>, int), ErrorModel>((None, pos + 3)),
{
}

/// The tokens of a course and speed body: each value and its unit.
pub open spec fn vtg_tokens(m: VtgModel) -> Seq<Seq<u8>> {
    seq![
        opt_text(m.bearing_true),
        seq![CHAR_T],
        opt_text(m.bearing_magnetic),
        seq![CHAR_M],
        opt_text(m.speed_knots),
        seq![CHAR_N],
        opt_text(m.speed_kmh),
        seq![CHAR_K],
    ]
}

/// The body that writes `m`, ending at the checksum delimiter.
pub open spec fn render_vtg(m: VtgModel) -> Seq<u8> {
    join(vtg_tokens(m)) + seq![STAR]
}

proof fn lemma_unit_field(s: Seq<u8>, o: int, v: Option<Seq<u8>>, unit: u8, end: u8)
    requires
        opt_decimal_ok(v),
        token_then_comma(s, o, opt_text(v)),
        s.subrange(o + opt_text(v).len() + 1, o + opt_text(v).len() + 2) == seq![unit],
        s[o + opt_text(v).len() + 2] == end,
        o + opt_text(v).len() + 2 < s.len(),
    ensures
        spec_unit_field(s, o, unit, end) == Ok::<(Option<Seq<u8>>, int), ErrorModel>((v, o + opt_text(v).len() + 3)),
{
    let p = o + opt_text(v).len();
    assert(s[p + 1] == s.subrange(p + 1, p + 2)[0]);
}

/// Writing any record whose values are decimals as a body and decoding that
/// body gives the record back.
pub proof fn lemma_vtg_round_trip(m: VtgModel)
    requires
        opt_decimal_ok(m.bearing_true),
        opt_decimal_ok(m.bearing_magnetic),
        opt_decimal_ok(m.speed_knots),
        opt_decimal_ok(m.speed_kmh),
    ensures
        spec_vtg(render_vtg(m)) == Ok::<VtgModel, ErrorModel>(m),
{
    let ts = vtg_tokens(m);
    let s = render_vtg(m);
    lemma_opt_text(m.bearing_true);
    lemma_opt_text(m.bearing_magnetic);
    lemma_opt_text(m.speed_knots);
    lemma_opt_text(m.speed_kmh);
    assert(no_byte(ts[1], COMMA) && no_byte(ts[3], COMMA) && no_byte(ts[5], COMMA) && no_byte(ts[7], COMMA));
    assert(token_then_comma(s, offset(ts, 0), ts[0])) by { lemma_token(ts, STAR, 0); }
    assert(token_then_comma(s, offset(ts, 1), ts[1])) by { lemma_token(ts, STAR, 1); }
    assert(token_then_comma(s, offset(ts, 2), ts[2])) by { lemma_token(ts, STAR, 2); }
    assert(token_then_comma(s, offset(ts, 3), ts[3])) by { lemma_token(ts, STAR, 3); }
    assert(token_then_comma(s, offset(ts, 4), ts[4])) by { lemma_token(ts, STAR, 4); }
    assert(token_then_comma(s, offset(ts, 5), ts[5])) by { lemma_token(ts, STAR, 5); }
    assert(token_then_comma(s, offset(ts, 6), ts[6])) by { lemma_token(ts, STAR, 6); }
    let o7 = offset(ts, 7);
    assert(s.subrange(o7, o7 + 1) == ts[7] && s[o7 + 1] == STAR && o7 + 2 == s.len()) by {
        lemma_token(ts, STAR, 7);
    }
    lemma_unit_field(s, offset(ts, 0), m.bearing_true, CHAR_T, COMMA);
    lemma_unit_field(s, offset(ts, 2), m.bearing_magnetic, CHAR_M, COMMA);
    lemma_unit_field(s, offset(ts, 4), m.speed_knots, CHAR_N, COMMA);
    lemma_unit_field(s, offset(ts, 6), m.speed_kmh, CHAR_K, STAR);
    reveal(spec_vtg);
}

} // verus!
