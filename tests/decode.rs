use nmea_decode::envelope::{check_envelope, checksum, hex_digit, MAX_SENTENCE_LENGTH};
use nmea_decode::errors::{DataError, NmeaSentenceError, StatusParsingError};
use nmea_decode::fields::{parse_u8, Decimal};
use nmea_decode::pubx::{parse_pubx, PubxLocData};
use nmea_decode::sentence::{classify, parse_sentence, sentence_type_of, Sentence, SentenceType};
use nmea_decode::status::NavStat;
use nmea_decode::token::find_byte;
use nmea_decode::vtg::parse_vtg;

fn num(d: &Option<Decimal>) -> Option<f32> {
    d.as_ref().map(|d| std::str::from_utf8(d.as_bytes()).unwrap().parse::<f32>().unwrap())
}

fn pubx_of(s: &[u8]) -> PubxLocData {
    match parse_sentence(s) {
        Ok(Sentence::Pubx(d)) => d,
        other => panic!("not an extended fix: {:?}", other),
    }
}

#[test]
fn vtg_with_empty_magnetic_bearing() {
    let s = b"$GPVTG,0.0,T,,M,0.0,N,0.0,K*60";
    match parse_sentence(s) {
        Ok(Sentence::Vtg(d)) => {
            assert_eq!(num(&d.bearing_true), Some(0.0));
            assert_eq!(d.bearing_magnetic, None);
            assert_eq!(num(&d.speed_knots), Some(0.0));
            assert_eq!(num(&d.speed_kmh), Some(0.0));
        },
        other => panic!("unexpected {:?}", other),
    }
}

#[test]
fn vtg_body_alone() {
    let d = parse_vtg(b",T,,M,1.25,N,-2,K*").unwrap();
    assert_eq!(d.bearing_true, None);
    assert_eq!(d.bearing_magnetic, None);
    assert_eq!(d.speed_knots.unwrap().as_bytes(), b"1.25");
    assert_eq!(d.speed_kmh.unwrap().as_bytes(), b"-2");
}

#[test]
fn vtg_body_without_delimiter_is_incomplete() {
    assert_eq!(parse_vtg(b"0.0"), Err(NmeaSentenceError::DataParsingError(DataError::Incomplete)));
}

#[test]
fn vtg_wrong_unit_letter() {
    assert_eq!(parse_sentence(b"$GPVTG,1.5,X,,M,,N,,K*68"), Err(NmeaSentenceError::GeneralParsingError));
}

#[test]
fn vtg_trailing_field_before_delimiter() {
    assert_eq!(parse_sentence(b"$GPVTG,,T,,M,,N,,K,A*23"), Err(NmeaSentenceError::GeneralParsingError));
}

#[test]
fn vtg_malformed_number() {
    assert_eq!(
        parse_sentence(b"$GPVTG,abc,T,,M,0.0,N,0.0,K*2E"),
        Err(NmeaSentenceError::DataParsingError(DataError::Invalid(b"abc")))
    );
}

#[test]
fn pubx_round_trip() {
    let d = pubx_of(b"$PUBX,00,081350.00,4717.11,N,00833.91,E,545.4,G3,2.1,2.0,0.007,77.52,-0.007,,0.92,1.19,0.77,9,0,1*7B");
    let t = d.time.clone().unwrap();
    assert_eq!((t.hour, t.minute), (8, 13));
    assert_eq!(t.second.as_bytes(), b"50.00");
    let p = d.position.clone().unwrap();
    assert_eq!(p.lat_degrees, 47);
    assert_eq!(p.lat_minutes.as_bytes(), b"17.11");
    assert_eq!(p.lat_hemisphere, b'N');
    assert_eq!(p.lon_degrees, 8);
    assert_eq!(p.lon_minutes.as_bytes(), b"33.91");
    assert_eq!(p.lon_hemisphere, b'E');
    assert_eq!(num(&d.altitude), Some(545.4f32));
    assert_eq!(d.status, NavStat::StandAlone3D);
    assert_eq!(num(&d.h_acc), Some(2.1));
    assert_eq!(num(&d.v_acc), Some(2.0));
    assert_eq!(num(&d.sog), Some(0.007));
    assert_eq!(num(&d.cog), Some(77.52));
    assert_eq!(num(&d.v_vel), Some(-0.007));
    assert_eq!(d.diff_age, None);
    assert_eq!(num(&d.hdop), Some(0.92));
    assert_eq!(num(&d.vdop), Some(1.19));
    assert_eq!(num(&d.tdop), Some(0.77));
    assert_eq!(d.num_satellites, Some(9));
    assert!(d.dead_reckoning);
}

#[test]
fn pubx_empty_altitude_is_absent() {
    let d = pubx_of(b"$PUBX,00,081350.00,4717.11,N,00833.91,E,,G3,2.1,2.0,0.007,77.52,-0.007,,0.92,1.19,0.77,9,0,1*55");
    assert_eq!(d.altitude, None);
    assert_eq!(num(&d.h_acc), Some(2.1));
}

#[test]
fn pubx_all_optional_fields_empty() {
    let d = pubx_of(b"$PUBX,00,,,,,,,NF,,,,,,,,,,,0,0*17");
    assert_eq!(d.time, None);
    assert_eq!(d.position, None);
    assert_eq!(d.altitude, None);
    assert_eq!(d.status, NavStat::NoFix);
    assert_eq!(d.h_acc, None);
    assert_eq!(d.tdop, None);
    assert_eq!(d.num_satellites, None);
    assert!(!d.dead_reckoning);
}

#[test]
fn pubx_unknown_status() {
    assert_eq!(
        parse_sentence(b"$PUBX,00,,,,,,,ZZ,,,,,,,,,,,0,0*1F"),
        Err(NmeaSentenceError::StatusParsingError(StatusParsingError(b'Z', b'Z')))
    );
}

#[test]
fn pubx_empty_status() {
    assert_eq!(
        parse_sentence(b"$PUBX,00,,,,,,,,,,,,,,,,,,0,0*1F"),
        Err(NmeaSentenceError::StatusParsingError(StatusParsingError(b',', b',')))
    );
}

#[test]
fn pubx_bad_dead_reckoning_flag() {
    assert_eq!(parse_sentence(b"$PUBX,00,,,,,,,NF,,,,,,,,,,,0,2*15"), Err(NmeaSentenceError::GeneralParsingError));
}

#[test]
fn pubx_bad_hemisphere() {
    assert_eq!(
        parse_sentence(b"$PUBX,00,081350.00,4717.1132,X,00833.9151,E,,NF,,,,,,,,,,,0,0*1B"),
        Err(NmeaSentenceError::GeneralParsingError)
    );
}

#[test]
fn pubx_partial_position() {
    assert_eq!(
        parse_sentence(b"$PUBX,00,,4717.1132,N,,E,,NF,,,,,,,,,,,0,0*36"),
        Err(NmeaSentenceError::DataParsingError(DataError::Invalid(b"")))
    );
}

#[test]
fn pubx_short_time() {
    assert_eq!(
        parse_sentence(b"$PUBX,00,0813,,,,,,NF,,,,,,,,,,,0,0*1D"),
        Err(NmeaSentenceError::DataParsingError(DataError::Invalid(b"0813")))
    );
}

#[test]
fn pubx_satellite_count_overflow() {
    assert_eq!(
        parse_sentence(b"$PUBX,00,,,,,,,NF,,,,,,,,,,300,0,0*24"),
        Err(NmeaSentenceError::DataParsingError(DataError::Invalid(b"300")))
    );
}

#[test]
fn pubx_wrong_sub_type() {
    assert_eq!(parse_pubx(b"03,,0*"), Err(NmeaSentenceError::GeneralParsingError));
}

#[test]
fn unknown_type_carries_code() {
    assert_eq!(parse_sentence(b"$GPZZZ,1,2*4E"), Err(NmeaSentenceError::UnkownTypeError(b"ZZZ")));
}

#[test]
fn unknown_proprietary_header_carries_header() {
    assert_eq!(parse_sentence(b"$PXYZ,1*16"), Err(NmeaSentenceError::UnkownTypeError(b"PXYZ")));
}

#[test]
fn known_type_without_grammar() {
    assert_eq!(
        parse_sentence(b"$GPGGA,1,2*55"),
        Err(NmeaSentenceError::TypeNotImplementedError(SentenceType::Gga))
    );
}

#[test]
fn header_without_fields() {
    assert_eq!(parse_sentence(b"$GPVTG*52"), Err(NmeaSentenceError::GeneralParsingError));
}

#[test]
fn classify_headers() {
    assert_eq!(classify(b"PUBX"), Ok(SentenceType::Pubx));
    assert_eq!(classify(b"GNVTG"), Ok(SentenceType::Vtg));
    assert_eq!(classify(b"GPRMC"), Ok(SentenceType::Rmc));
    assert_eq!(sentence_type_of(b"ZDA"), Some(SentenceType::Zda));
    assert_eq!(sentence_type_of(b"ABC"), None);
}

#[test]
fn too_long_sentence_reports_length() {
    let mut s = b"$GPVTG,0.0,T,,M,0.0,N,0.0,K*60".to_vec();
    s.resize(MAX_SENTENCE_LENGTH + 1, b' ');
    assert_eq!(parse_sentence(&s), Err(NmeaSentenceError::SentenceLengthError(103)));
    let junk = vec![b'x'; 200];
    assert_eq!(parse_sentence(&junk), Err(NmeaSentenceError::SentenceLengthError(200)));
}

#[test]
fn checksum_is_recomputed() {
    let s = b"$GPVTG,0.0,T,,M,0.0,N,0.0,K*60";
    assert_eq!(checksum(s, 1, s.len() - 3), 0x60);
    assert_eq!(check_envelope(s), Ok(s.len() - 3));
}

#[test]
fn corrupted_byte_is_a_checksum_error() {
    let mut s = b"$GPVTG,0.0,T,,M,0.0,N,0.0,K*60".to_vec();
    s[8] = b'1';
    assert_eq!(parse_sentence(&s), Err(NmeaSentenceError::ChecksumError(0x60, 0x7F)));
}

#[test]
fn lower_case_checksum_and_line_end() {
    assert!(parse_sentence(b"$GPVTG,1.5,X,,M,,N,,K*68\r\n").is_err());
    let d = parse_sentence(b"$PUBX,00,,,,,,,NF,,,,,,,,,,,0,0*17\r\n");
    assert!(matches!(d, Ok(Sentence::Pubx(_))));
    assert_eq!(check_envelope(b"$A*41"), Ok(2));
    assert_eq!(check_envelope(b"$J*4a"), Ok(2));
}

#[test]
fn bad_hex_digits() {
    assert_eq!(parse_sentence(b"$GPZZZ,1,2*G1"), Err(NmeaSentenceError::HexParsingError(b'G', b'1')));
}

#[test]
fn bad_framing() {
    assert_eq!(parse_sentence(b"GPZZZ,1,2*4E"), Err(NmeaSentenceError::GeneralParsingError));
    assert_eq!(parse_sentence(b"$GPZZZ,1,2"), Err(NmeaSentenceError::GeneralParsingError));
    assert_eq!(parse_sentence(b"$GPZZZ,1,2*4E0"), Err(NmeaSentenceError::GeneralParsingError));
    assert_eq!(parse_sentence(b""), Err(NmeaSentenceError::GeneralParsingError));
}

#[test]
fn status_codes() {
    assert_eq!(NavStat::from_code(b'N', b'F'), Ok(NavStat::NoFix));
    assert_eq!(NavStat::from_code(b'D', b'R'), Ok(NavStat::DeadReckoning));
    assert_eq!(NavStat::from_code(b'G', b'2'), Ok(NavStat::StandAlone2D));
    assert_eq!(NavStat::from_code(b'D', b'3'), Ok(NavStat::Differential3D));
    assert_eq!(NavStat::from_code(b'R', b'K'), Ok(NavStat::Combined));
    assert_eq!(NavStat::from_code(b'T', b'T'), Ok(NavStat::TimeOnly));
    assert_eq!(NavStat::from_code(b'Z', b'Z'), Err(StatusParsingError(b'Z', b'Z')));
}

#[test]
fn hex_digits() {
    assert_eq!(hex_digit(b'0'), Some(0));
    assert_eq!(hex_digit(b'9'), Some(9));
    assert_eq!(hex_digit(b'A'), Some(10));
    assert_eq!(hex_digit(b'f'), Some(15));
    assert_eq!(hex_digit(b'g'), None);
}

#[test]
fn decimals() {
    assert_eq!(Decimal::parse(b"545.4").unwrap().as_bytes(), b"545.4");
    assert_eq!(Decimal::parse(b"-0.007").unwrap().as_bytes(), b"-0.007");
    assert_eq!(Decimal::parse(b"12").unwrap().as_bytes(), b"12");
    assert!(Decimal::parse(b"").is_none());
    assert!(Decimal::parse(b"-").is_none());
    assert!(Decimal::parse(b"1.").is_none());
    assert!(Decimal::parse(b".5").is_none());
    assert!(Decimal::parse(b"1.2.3").is_none());
    assert!(Decimal::parse(b"1e5").is_none());
}

#[test]
fn unsigned_counts() {
    assert_eq!(parse_u8(b"0"), Some(0));
    assert_eq!(parse_u8(b"255"), Some(255));
    assert_eq!(parse_u8(b"0009"), Some(9));
    assert_eq!(parse_u8(b"256"), None);
    assert_eq!(parse_u8(b"99999"), None);
    assert_eq!(parse_u8(b""), None);
    assert_eq!(parse_u8(b"1a"), None);
}

#[test]
fn byte_search() {
    assert_eq!(find_byte(b"ab,cd,", 0, b','), 2);
    assert_eq!(find_byte(b"ab,cd,", 3, b','), 5);
    assert_eq!(find_byte(b"ab,cd", 3, b','), 5);
}

#[test]
fn vtg_written_values_come_back() {
    let d = parse_vtg(b"12.5,T,-3,M,,N,7,K*").unwrap();
    assert_eq!(d.bearing_true.unwrap().as_bytes(), b"12.5");
    assert_eq!(d.bearing_magnetic.unwrap().as_bytes(), b"-3");
    assert_eq!(d.speed_knots, None);
    assert_eq!(d.speed_kmh.unwrap().as_bytes(), b"7");
}

#[test]
fn corrupting_to_delimiter_breaks_framing() {
    assert_eq!(check_envelope(b"$A*41"), Ok(2));
    assert_eq!(check_envelope(b"$**41"), Err(NmeaSentenceError::GeneralParsingError));
}
