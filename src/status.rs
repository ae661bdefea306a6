//! Receiver status codes.
use vstd::prelude::*;
use crate::errors::StatusParsingError;

verus! {

pub const CHAR_2: u8 = 50;
pub const CHAR_3: u8 = 51;
pub const CHAR_D: u8 = 68;
pub const CHAR_F: u8 = 70;
pub const CHAR_G: u8 = 71;
pub const CHAR_K: u8 = 75;
pub const CHAR_N: u8 = 78;
pub const CHAR_R: u8 = 82;
pub const CHAR_T: u8 = 84;

/// The navigation status that a receiver reports.
#[derive(Debug, Clone, Copy, PartialEq, Eq, Structural)]
pub enum NavStat {
    /// `NF`
    NoFix,
    /// `DR`
    DeadReckoning,
    /// `G2`
    StandAlone2D,
    /// `G3`
    StandAlone3D,
    /// `D2`
    Differential2D,
    /// `D3`
    Differential3D,
    /// `RK`
    Combined,
    /// `TT`
    TimeOnly,
}

/// The status that the code `a b` names, if any.
pub open spec fn nav_stat_of(a: u8, b: u8) -> Option<NavStat> {
    if a == CHAR_N && b == CHAR_F {
        Some(NavStat::NoFix)
    } else if a == CHAR_D && b == CHAR_R {
        Some(NavStat::DeadReckoning)
    } else if a == CHAR_G && b == CHAR_2 {
        Some(NavStat::StandAlone2D)
    } else if a == CHAR_G && b == CHAR_3 {
        Some(NavStat::StandAlone3D)
    } else if a == CHAR_D && b == CHAR_2 {
        Some(NavStat::Differential2D)
    } else if a == CHAR_D && b == CHAR_3 {
        Some(NavStat::Differential3D)
    } else if a == CHAR_R && b == CHAR_K {
        Some(NavStat::Combined)
    } else if a == CHAR_T && b == CHAR_T {
        Some(NavStat::TimeOnly)
    } else {
        None
    }
}

impl NavStat {
    /// The status named by a two-byte code; any other code is an error
    /// that carries it.
    pub fn from_code(a: u8, b: u8) -> (r: Result<NavStat, StatusParsingError>)
        ensures
            r == (match nav_stat_of(a, b) {
                Some(s) => Ok(s),
                None => Err(StatusParsingError(a, b)),
            }),
    {
        if a == CHAR_N && b == CHAR_F {
            Ok(NavStat::NoFix)
        } else if a == CHAR_D && b == CHAR_R {
            Ok(NavStat::DeadReckoning)
        } else if a == CHAR_G && b == CHAR_2 {
            Ok(NavStat::StandAlone2D)
        } else if a == CHAR_G && b == CHAR_3 {
            Ok(NavStat::StandAlone3D)
        } else if a == CHAR_D && b == CHAR_2 {
            Ok(NavStat::Differential2D)
        } else if a == CHAR_D && b == CHAR_3 {
            Ok(NavStat::Differential3D)
        } else if a == CHAR_R && b == CHAR_K {
            Ok(NavStat::Combined)
        } else if a == CHAR_T && b == CHAR_T {
            Ok(NavStat::TimeOnly)
        } else {
            Err(StatusParsingError(a, b))
        }
    }
}

} // verus!
