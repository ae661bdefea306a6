//! Sentence types and the decoding of a whole sentence.
use vstd::prelude::*;
use vstd::slice::slice_subrange;
use crate::envelope::{check_envelope, frame, lemma_frame_valid, spec_envelope, star_index, MAX_SENTENCE_LENGTH};
use crate::errors::{ErrorModel, NmeaSentenceError};
use crate::pubx::{
    lemma_pubx_round_trip, lemma_render_no_star, parse_pubx, pubx_model_ok, pubx_tokens, render_pubx,
    spec_pubx, PubxLocData, PubxModel,
};
use crate::token::{delim_from, find_byte, join, lemma_delim_at, no_byte, COMMA, STAR};
use crate::vtg::{parse_vtg, spec_vtg, VtgData, VtgModel};

verus! {

/// The sentence types that the protocol defines and that this library
/// recognises. Only `Pubx` and `Vtg` have a grammar.
#[derive(Debug, Clone, Copy, PartialEq, Eq, Structural)]
pub enum SentenceType {
    /// `PUBX`, the proprietary extended fix
    Pubx,
    /// `DTM`
    Dtm,
    /// `GBS`
    Gbs,
    /// `GGA`
    Gga,
    /// `GLL`
    Gll,
    /// `GNS`
    Gns,
    /// `GRS`
    Grs,
    /// `GSA`
    Gsa,
    /// `GST`
    Gst,
    /// `GSV`
    Gsv,
    /// `RMC`
    Rmc,
    /// `TXT`
    Txt,
    /// `VTG`
    Vtg,
    /// `ZDA`
    Zda,
}

/// A decoded sentence.
#[derive(Debug, Clone, PartialEq)]
pub enum Sentence {
    Pubx(PubxLocData),
    Vtg(VtgData),
}

pub enum SentenceModel {
    Pubx(PubxModel),
    Vtg(VtgModel),
}

impl View for Sentence {
    type V = SentenceModel;

    open spec fn view(&self) -> SentenceModel {
        match self {
            Sentence::Pubx(d) => SentenceModel::Pubx(d@),
            Sentence::Vtg(d) => SentenceModel::Vtg(d@),
        }
    }
}

/// The type named by a three-letter sentence code.
pub open spec fn known_code(c: Seq<u8>) -> Option<SentenceType> {
    if c[0] == 68 && c[1] == 84 && c[2] == 77 {
        Some(SentenceType::Dtm)
    } else if c[0] == 71 && c[1] == 66 && c[2] == 83 {
        Some(SentenceType::Gbs)
    } else if c[0] == 71 && c[1] == 71 && c[2] == 65 {
        Some(SentenceType::Gga)
    } else if c[0] == 71 && c[1] == 76 && c[2] == 76 {
        Some(SentenceType::Gll)
    } else if c[0] == 71 && c[1] == 78 && c[2] == 83 {
        Some(SentenceType::Gns)
    } else if c[0] == 71 && c[1] == 82 && c[2] == 83 {
        Some(SentenceType::Grs)
    } else if c[0] == 71 && c[1] == 83 && c[2] == 65 {
        Some(SentenceType::Gsa)
    } else if c[0] == 71 && c[1] == 83 && c[2] == 84 {
        Some(SentenceType::Gst)
    } else if c[0] == 71 && c[1] == 83 && c[2] == 86 {
        Some(SentenceType::Gsv)
    } else if c[0] == 82 && c[1] == 77 && c[2] == 67 {
        Some(SentenceType::Rmc)
    } else if c[0] == 84 && c[1] == 88 && c[2] == 84 {
        Some(SentenceType::Txt)
    } else if c[0] == 86 && c[1] == 84 && c[2] == 71 {
        Some(SentenceType::Vtg)
    } else if c[0] == 90 && c[1] == 68 && c[2] == 65 {
        Some(SentenceType::Zda)
    } else {
        None
    }
}

/// The tag of the proprietary extended fix sentence.
pub open spec fn is_pubx_tag(h: Seq<u8>) -> bool {
    h.len() == 4 && h[0] == 80 && h[1] == 85 && h[2] == 66 && h[3] == 88
}

/// The type that a header names. A header is `PUBX`, or a two-letter
/// talker followed by a three-letter code; a code that names nothing is
/// carried by the error, as is a header of any other shape.
pub open spec fn spec_classify(h: Seq<u8>) -> Result<SentenceType, ErrorModel> {
    if is_pubx_tag(h) {
        Ok(SentenceType::Pubx)
    } else if h.len() == 5 {
        match known_code(h.subrange(2, 5)) {
            Some(t) => Ok(t),
            None => Err(ErrorModel::UnknownType(h.subrange(2, 5))),
        }
    } else {
        Err(ErrorModel::UnknownType(h))
    }
}

/// A whole sentence: envelope, then the type in the header (up to the
/// first comma), then the grammar of that type on the rest of the payload
/// and the checksum delimiter.
pub open spec fn spec_decode(s: Seq<u8>) -> Result<SentenceModel, ErrorModel> {
    match spec_envelope(s) {
        Err(e) => Err(e),
        Ok(star) => {
            let c = delim_from(s, 1, COMMA);
            let body = s.subrange(c + 1, star + 1);
            if c >= star {
                Err(ErrorModel::General)
            } else {
                match spec_classify(s.subrange(1, c)) {
                    Err(e) => Err(e),
                    Ok(SentenceType::Pubx) => match spec_pubx(body) {
                        Ok(m) => Ok(SentenceModel::Pubx(m)),
                        Err(e) => Err(e),
                    },
                    Ok(SentenceType::Vtg) => match spec_vtg(body) {
                        Ok(m) => Ok(SentenceModel::Vtg(m)),
                        Err(e) => Err(e),
                    },
                    Ok(t) => Err(ErrorModel::TypeNotImplemented(t)),
                }
            }
        },
    }
}

/// The type named by a three-letter code.
pub fn sentence_type_of(code: &[u8]) -> (r: Option<SentenceType>)
    requires
        code@.len() == 3,
    ensures
        r == known_code(code@),
{
    if code[0] == 68 && code[1] == 84 && code[2] == 77 {
        Some(SentenceType::Dtm)
    } else if code[0] == 71 && code[1] == 66 && code[2] == 83 {
        Some(SentenceType::Gbs)
    } else if code[0] == 71 && code[1] == 71 && code[2] == 65 {
        Some(SentenceType::Gga)
    } else if code[0] == 71 && code[1] == 76 && code[2] == 76 {
        Some(SentenceType::Gll)
    } else if code[0] == 71 && code[1] == 78 && code[2] == 83 {
        Some(SentenceType::Gns)
    } else if code[0] == 71 && code[1] == 82 && code[2] == 83 {
        Some(SentenceType::Grs)
    } else if code[0] == 71 && code[1] == 83 && code[2] == 65 {
        Some(SentenceType::Gsa)
    } else if code[0] == 71 && code[1] == 83 && code[2] == 84 {
        Some(SentenceType::Gst)
    } else if code[0] == 71 && code[1] == 83 && code[2] == 86 {
        Some(SentenceType::Gsv)
    } else if code[0] == 82 && code[1] == 77 && code[2] == 67 {
        Some(SentenceType::Rmc)
    } else if code[0] == 84 && code[1] == 88 && code[2] == 84 {
        Some(SentenceType::Txt)
    } else if code[0] == 86 && code[1] == 84 && code[2] == 71 {
        Some(SentenceType::Vtg)
    } else if code[0] == 90 && code[1] == 68 && code[2] == 65 {
        Some(SentenceType::Zda)
    } else {
        None
    }
}

/// The type that a sentence header names, or the error for a header that
/// names none.
pub fn classify<'a>(h: &'a [u8]) -> (r: Result<SentenceType, NmeaSentenceError<'a>>)
    ensures
        match (r, spec_classify(h@)) {
            (Ok(x), Ok(v)) => x == v,
            (Err(e), Err(f)) => e@ == f,
            _ => false,
        },
{
    if h.len() == 4 && h[0] == 80 && h[1] == 85 && h[2] == 66 && h[3] == 88 {
        return Ok(SentenceType::Pubx);
    }
    if h.len() != 5 {
        return Err(NmeaSentenceError::UnkownTypeError(h));
    }
    let code = slice_subrange(h, 2, 5);
    match sentence_type_of(code) {
        Some(t) => Ok(t),
        None => Err(NmeaSentenceError::UnkownTypeError(code)),
    }
}

/// Decodes one sentence, from `$` to the checksum and an optional `\r\n`.
pub fn parse_sentence<'a>(s: &'a [u8]) -> (r: Result<Sentence, NmeaSentenceError<'a>>)
    ensures
        match (r, spec_decode(s@)) {
            (Ok(x), Ok(v)) => x@ == v,
            (Err(e), Err(f)) => e@ == f,
            _ => false,
        },
{
    let star = check_envelope(s)?;
    let c = find_byte(s, 1, COMMA);
    if c >= star {
        return Err(NmeaSentenceError::GeneralParsingError);
    }
    let body = slice_subrange(s, c + 1, star + 1);
    match classify(slice_subrange(s, 1, c))? {
        SentenceType::Pubx => Ok(Sentence::Pubx(parse_pubx(body)?)),
        SentenceType::Vtg => Ok(Sentence::Vtg(parse_vtg(body)?)),
        t => Err(NmeaSentenceError::TypeNotImplementedError(t)),
    }
}

/// The header of a sentence: from after `$` up to the first comma.
pub open spec fn header(s: Seq<u8>) -> Seq<u8> {
    s.subrange(1, delim_from(s, 1, COMMA))
}

/// A sentence longer than the bound fails with its exact length, whatever
/// else it holds.
pub proof fn lemma_too_long(s: Seq<u8>)
    requires
        s.len() > MAX_SENTENCE_LENGTH,
    ensures
        spec_decode(s) == Err::<SentenceModel, ErrorModel>(ErrorModel::SentenceLength(s.len() as usize)),
{
}

/// In a sentence with a sound envelope and a talker-and-code header, a code
/// that names no type fails with that code, and a code that names a type
/// without a grammar fails with that type.
pub proof fn lemma_type_dispatch(s: Seq<u8>)
    requires
        spec_envelope(s) is Ok,
        delim_from(s, 1, COMMA) < star_index(s),
        header(s).len() == 5,
    ensures
        known_code(header(s).subrange(2, 5)) is None ==> spec_decode(s) == Err::<SentenceModel, ErrorModel>(
            ErrorModel::UnknownType(header(s).subrange(2, 5)),
        ),
        forall|t: SentenceType|
            known_code(header(s).subrange(2, 5)) == Some(t) && t != SentenceType::Vtg ==> spec_decode(s)
                == Err::<SentenceModel, ErrorModel>(ErrorModel::TypeNotImplemented(t)),
{
    let t = known_code(header(s).subrange(2, 5));
    assert(t != Some(SentenceType::Pubx));
}

/// The payload of an extended fix sentence that writes `m`: `PUBX,` and
/// the body up to its delimiter.
pub open spec fn pubx_payload(m: PubxModel, reserved: Seq<u8>) -> Seq<u8> {
    seq![80u8, 85u8, 66u8, 88u8, COMMA] + join(pubx_tokens(m, reserved))
}

/// A whole extended fix sentence, framed with its checksum, that writes a
/// well-formed record decodes to exactly that record.
pub proof fn lemma_pubx_sentence_round_trip(m: PubxModel, reserved: Seq<u8>)
    requires
        pubx_model_ok(m),
        no_byte(reserved, COMMA),
        no_byte(reserved, STAR),
        pubx_payload(m, reserved).len() + 4 <= MAX_SENTENCE_LENGTH,
    ensures
        spec_decode(frame(pubx_payload(m, reserved))) == Ok::<SentenceModel, ErrorModel>(SentenceModel::Pubx(m)),
{
    let p = pubx_payload(m, reserved);
    let s = frame(p);
    let j = join(pubx_tokens(m, reserved));
    lemma_render_no_star(m, reserved);
    assert forall|i: int| 0 <= i < p.len() implies p[i] != STAR by {
        if i >= 5 {
            assert(p[i] == j[i - 5]);
        }
    }
    lemma_frame_valid(p);
    let star = p.len() + 1int;
    assert forall|k: int| 1 <= k < 5 implies s[k] != COMMA by {
        assert(s[k] == p[k - 1]);
    }
    assert(s[5] == p[4]);
    lemma_delim_at(s, 1, COMMA, 5);
    assert(s.subrange(1, 5) =~= seq![80u8, 85u8, 66u8, 88u8]);
    assert(s.subrange(6, star + 1) =~= render_pubx(m, reserved));
    assert(spec_classify(s.subrange(1, 5)) == Ok::<SentenceType, ErrorModel>(SentenceType::Pubx));
    lemma_pubx_round_trip(m, reserved);
}

} // verus!
