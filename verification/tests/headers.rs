use blackbox::parser::decode::Encoding;
use blackbox::parser::frame::{
    is_frame_def_header, parse_frame_def_header, FrameKind, FrameProperty, FrameProps,
    MainFrameDef, SlowFrameDef,
};
use blackbox::parser::headers::{parse_header, FirmwareKind, Headers, MotorOutputRange, State};
use blackbox::parser::text::{
    cut, find, is_lower, parse_number, same_bytes, same_text, split_all, split_once,
};
use blackbox::parser::{ParseError, Reader};
use blackbox::LogVersion;

const LOG: &[u8] = b"H Product:Blackbox flight data recorder by Nicholas Sherlock\n\
H Data version:2\n\
H I interval:1\n\
H Field I name:loopIteration,time,axisP[0],motor[0]\n\
H Field I signed:0,0,1,0\n\
H Field I predictor:0,0,0,11\n\
H Field I encoding:1,1,0,1\n\
H Field P predictor:6,2,1,1\n\
H Field P encoding:9,0,0,0\n\
H Field S name:flightModeFlags,stateFlags\n\
H Field S signed:0,0\n\
H Field S predictor:0,0\n\
H Field S encoding:1,1\n\
H Firmware type:Cleanflight\n\
H Firmware revision:Betaflight 4.2.0 (8f2d21460) STM32F405\n\
H Board information:AIRB OMNIBUSF4\n\
H Craft name:caf\xC3\xA9\n\
H vbatref:420\n\
H minthrottle:1070\n\
H motorOutput:1070,2000\n\
I\x00\x01";

fn invalid(header: &str, value: &str) -> ParseError {
    ParseError::InvalidHeader { header: header.to_owned(), value: value.to_owned() }
}

fn missing(header: &str) -> ParseError {
    ParseError::MissingHeader(header.to_owned())
}

/// The log above without the lines that start with `without`, and with
/// `extra` put before the first frame.
fn log(without: &[&str], extra: &str) -> Vec<u8> {
    let mut out = Vec::new();
    for line in LOG.split_inclusive(|b| *b == b'\n') {
        if line.first() == Some(&b'I') {
            out.extend_from_slice(extra.as_bytes());
        }
        if !without.iter().any(|prefix| line.starts_with(prefix.as_bytes())) {
            out.extend_from_slice(line);
        }
    }
    out
}

fn parse(bytes: &[u8]) -> Result<Headers<'_>, ParseError> {
    Headers::parse(&mut Reader::new(bytes))
}

#[test]
#[should_panic(expected = "HeaderInvalidUtf8")]
fn invalid_utf8() {
    let mut b = Reader::new(b"H \xFF:\xFF\n");
    parse_header(&mut b).unwrap();
}

#[test]
fn header_parse_rejects_invalid_utf8() {
    let mut b = Reader::new(b"H \xFF:\xFF\n");
    assert_eq!(parse_header(&mut b), Err(ParseError::HeaderInvalidUtf8));
    // the line is still there
    assert_eq!(b.read_u8(), Some(b'H'));
    assert_eq!(parse(b"H \xFF:\xFF\n").unwrap_err(), ParseError::HeaderInvalidUtf8);
}

#[test]
fn header_parse_rejects_missing_colon() {
    let mut b = Reader::new(b"H no-colon-here\n");
    assert_eq!(parse_header(&mut b), Err(ParseError::HeaderMissingColon));
    assert_eq!(parse(b"H no-colon-here\n").unwrap_err(), ParseError::HeaderMissingColon);
}

#[test]
fn header_line_grammar() {
    let mut b = Reader::new(b"H name:value\nHname2:va:lue 2 \nH  x:\nH :y\nrest");
    assert_eq!(parse_header(&mut b), Ok(("name", "value")));
    assert_eq!(parse_header(&mut b), Ok(("name2", "va:lue 2 ")));
    assert_eq!(parse_header(&mut b), Ok((" x", "")));
    assert_eq!(parse_header(&mut b), Ok(("", "y")));
    assert_eq!(parse_header(&mut b), Err(ParseError::Corrupted));
    assert_eq!(b.read_line(), None);
    assert_eq!(b.read_u8(), Some(b'r'));
}

#[test]
fn header_line_keeps_utf8() {
    let mut b = Reader::new("H Craft name:caf\u{e9} \u{1F681}\n".as_bytes());
    assert_eq!(parse_header(&mut b), Ok(("Craft name", "caf\u{e9} \u{1F681}")));
}

#[test]
fn header_line_errors() {
    assert_eq!(parse_header(&mut Reader::new(b"")), Err(ParseError::UnexpectedEof));
    assert_eq!(parse_header(&mut Reader::new(b"I")), Err(ParseError::Corrupted));
    assert_eq!(parse_header(&mut Reader::new(b"H a:b")), Err(ParseError::UnexpectedEof));
    assert_eq!(parse_header(&mut Reader::new(b"H")), Err(ParseError::UnexpectedEof));
    assert_eq!(parse_header(&mut Reader::new(b"H\n")), Err(ParseError::HeaderMissingColon));
    assert_eq!(parse_header(&mut Reader::new(b"H \n")), Err(ParseError::HeaderMissingColon));
    // a truncated character
    assert_eq!(parse_header(&mut Reader::new(b"H a:\xC3\n")), Err(ParseError::HeaderInvalidUtf8));
    // invalid bytes count before the missing colon
    assert_eq!(parse_header(&mut Reader::new(b"H \x80\n")), Err(ParseError::HeaderInvalidUtf8));
}

#[test]
fn header_line_must_be_utf8() {
    for line in [&b"H a:\xFF\n"[..], b"H \xC3:b\n", b"H a:\xED\xA0\x80\n", b"H a:\xC0\x80\n"] {
        assert_eq!(parse_header(&mut Reader::new(line)), Err(ParseError::HeaderInvalidUtf8));
    }
    let line = "H n\u{e4}me:\u{20ac}\u{10348}\n";
    assert_eq!(
        parse_header(&mut Reader::new(line.as_bytes())),
        Ok(("n\u{e4}me", "\u{20ac}\u{10348}"))
    );
    assert_eq!(parse_header(&mut Reader::new(b"H :\n")), Ok(("", "")));
}

#[test]
fn bytes_are_found_and_compared() {
    assert_eq!(find(b"a:b:c", b':', 0), 1);
    assert_eq!(find(b"a:b:c", b':', 1), 1);
    assert_eq!(find(b"a:b:c", b':', 2), 3);
    assert_eq!(find(b"a:b:c", b':', 4), 5);
    assert_eq!(find(b"a:b:c", b':', 5), 5);
    assert_eq!(find(b"", b':', 0), 0);
    assert!(same_bytes(b"", b""));
    assert!(same_bytes(b"abc", b"abc"));
    assert!(!same_bytes(b"abc", b"abd"));
    assert!(!same_bytes(b"abc", b"ab"));
    assert!(!same_bytes(b"ab", b"abc"));
    assert!(same_text("caf\u{e9}", "caf\u{e9}"));
    assert!(!same_text("Product", "product"));
    assert_eq!(cut("key=value", 3), ("key", "value"));
    assert_eq!(cut("=", 0), ("", ""));
    assert_eq!(cut("\u{e9}=\u{e9}", 2), ("\u{e9}", "\u{e9}"));
}

#[test]
fn text_is_split_at_ascii_bytes() {
    assert_eq!(split_once("a,b,c", b','), Some(("a", "b,c")));
    assert_eq!(split_once(",", b','), Some(("", "")));
    assert_eq!(split_once("abc", b','), None);
    assert_eq!(split_once("\u{e9},\u{1F681}", b','), Some(("\u{e9}", "\u{1F681}")));
    assert_eq!(split_all("a,b,c", b','), vec!["a", "b", "c"]);
    assert_eq!(split_all("", b','), vec![""]);
    assert_eq!(split_all(",", b','), vec!["", ""]);
    assert_eq!(split_all("a,,\u{e9}b,", b','), vec!["a", "", "\u{e9}b", ""]);
}

#[test]
fn lower_case_comparison() {
    assert!(is_lower("Firmware Revision", "firmware revision"));
    assert!(is_lower("VBATREF", "vbatref"));
    assert!(is_lower("vbatref", "vbatref"));
    assert!(!is_lower("vbatref", "VBATREF"));
    assert!(!is_lower("vbatre", "vbatref"));
    assert!(!is_lower("@[`{", "`{`{"));
    assert!(is_lower("AZ[@", "az[@"));
    assert!(!is_lower("\u{c9}", "\u{e9}"));
}

#[test]
fn numbers_are_decimal() {
    assert_eq!(parse_number("0", 0xFFFF), Some(0));
    assert_eq!(parse_number("420", 0xFFFF), Some(420));
    assert_eq!(parse_number("+420", 0xFFFF), Some(420));
    assert_eq!(parse_number("65535", 0xFFFF), Some(65535));
    assert_eq!(parse_number("0000000000000000065535", 0xFFFF), Some(65535));
    assert_eq!(parse_number("65536", 0xFFFF), None);
    assert_eq!(parse_number("99999999999999999999999999", 0xFFFF), None);
    assert_eq!(parse_number("", 0xFFFF), None);
    assert_eq!(parse_number("+", 0xFFFF), None);
    assert_eq!(parse_number("-1", 0xFFFF), None);
    assert_eq!(parse_number("++1", 0xFFFF), None);
    assert_eq!(parse_number("1+", 0xFFFF), None);
    assert_eq!(parse_number(" 1", 0xFFFF), None);
    assert_eq!(parse_number("1 ", 0xFFFF), None);
    assert_eq!(parse_number("0x10", 0xFFFF), None);
    assert_eq!(parse_number("12a", 0xFFFF), None);
    assert_eq!(parse_number("\u{0661}", 0xFFFF), None);
    assert_eq!(parse_number("255", 255), Some(255));
    assert_eq!(parse_number("256", 255), None);
    assert_eq!(parse_number("4294967295", u32::MAX), Some(u32::MAX));
    assert_eq!(parse_number("4294967296", u32::MAX), None);
    for text in ["0", "7", "+9", "0012", "65535", "65536", "", "+", "-0", "1e3", "70000"] {
        assert_eq!(parse_number(text, 0xFFFF), text.parse::<u16>().ok().map(u32::from));
    }
}

#[test]
fn log_version_from_str() {
    assert_eq!(LogVersion::from_str("1"), Some(LogVersion::V1));
    assert_eq!(LogVersion::from_str("2"), Some(LogVersion::V2));
    assert_eq!(LogVersion::from_str("3"), None);
    assert_eq!(LogVersion::from_str(""), None);
    assert_eq!(LogVersion::from_str("02"), None);
    assert_eq!(LogVersion::from_str("2 "), None);
}

#[test]
fn firmware_kind_from_str() {
    assert_eq!(FirmwareKind::from_str("Cleanflight"), Ok(FirmwareKind::Cleanflight));
    assert_eq!(FirmwareKind::from_str("cleanflight"), Ok(FirmwareKind::Cleanflight));
    assert_eq!(FirmwareKind::from_str("BASEFLIGHT"), Ok(FirmwareKind::Baseflight));
    assert_eq!(FirmwareKind::from_str("INAV"), Ok(FirmwareKind::INav));
    assert_eq!(FirmwareKind::from_str("iNav"), Ok(FirmwareKind::INav));
    assert_eq!(FirmwareKind::from_str("Betaflight"), Err(invalid("Firmware type", "Betaflight")));
    assert_eq!(FirmwareKind::from_str(""), Err(invalid("Firmware type", "")));
}

#[test]
fn motor_output_range() {
    let range = MotorOutputRange::new(1070, 2000);
    assert_eq!(range.min(), 1070);
    assert_eq!(range.max(), 2000);
    let range = MotorOutputRange::new(9, 3);
    assert_eq!(range.min(), 9);
    assert_eq!(range.max(), 3);
}

#[test]
fn motor_output_range_from_str() {
    assert_eq!(MotorOutputRange::from_str("1070,2000"), Ok(MotorOutputRange::new(1070, 2000)));
    assert_eq!(MotorOutputRange::from_str("0,65535"), Ok(MotorOutputRange::new(0, 65535)));
    assert_eq!(MotorOutputRange::from_str("+1,+2"), Ok(MotorOutputRange::new(1, 2)));
    assert_eq!(MotorOutputRange::from_str("1070"), Err(ParseError::Corrupted));
    assert_eq!(MotorOutputRange::from_str(""), Err(ParseError::Corrupted));
    assert_eq!(MotorOutputRange::from_str("1,2,3"), Err(ParseError::Corrupted));
    assert_eq!(MotorOutputRange::from_str("1, 2"), Err(ParseError::Corrupted));
    assert_eq!(MotorOutputRange::from_str(",2"), Err(ParseError::Corrupted));
    assert_eq!(MotorOutputRange::from_str("1,"), Err(ParseError::Corrupted));
    assert_eq!(MotorOutputRange::from_str("1,65536"), Err(ParseError::Corrupted));
}

#[test]
fn frame_def_header_names() {
    assert!(is_frame_def_header("Field I name"));
    assert!(is_frame_def_header("Field X name"));
    assert!(is_frame_def_header("Field "));
    assert!(!is_frame_def_header("Field"));
    assert!(!is_frame_def_header("field I name"));
    assert!(!is_frame_def_header("Firmware type"));
    assert_eq!(parse_frame_def_header("Field I name"), Some((FrameKind::Intra, FrameProperty::Name)));
    assert_eq!(
        parse_frame_def_header("Field P predictor"),
        Some((FrameKind::Inter, FrameProperty::Predictor))
    );
    assert_eq!(parse_frame_def_header("Field S signed"), Some((FrameKind::Slow, FrameProperty::Signed)));
    assert_eq!(
        parse_frame_def_header("Field I encoding"),
        Some((FrameKind::Intra, FrameProperty::Encoding))
    );
    assert_eq!(parse_frame_def_header("Field P width"), Some((FrameKind::Inter, FrameProperty::Width)));
    assert_eq!(parse_frame_def_header("Field G name"), None);
    assert_eq!(parse_frame_def_header("Field I names"), None);
    assert_eq!(parse_frame_def_header("Field i name"), None);
    assert_eq!(parse_frame_def_header("Field I Name"), None);
    assert_eq!(parse_frame_def_header("Field  I name"), None);
    assert_eq!(parse_frame_def_header("Field I"), None);
    assert_eq!(parse_frame_def_header("I interval"), None);
}

#[test]
fn parse_full_header_section() {
    let mut reader = Reader::new(LOG);
    let headers = Headers::parse(&mut reader).unwrap();
    assert_eq!(headers.version, LogVersion::V2);
    assert_eq!(headers.firmware_revision, "Betaflight 4.2.0 (8f2d21460) STM32F405");
    assert_eq!(headers.firmware_kind, FirmwareKind::Cleanflight);
    assert_eq!(headers.board_info, "AIRB OMNIBUSF4");
    assert_eq!(headers.craft_name, "caf\u{e9}");
    assert_eq!(headers.vbat_reference, 420);
    assert_eq!(headers.min_throttle, Some(1070));
    assert_eq!(headers.motor_output_range, Some(MotorOutputRange::new(1070, 2000)));
    assert_eq!(headers.main_fields(), vec!["loopIteration", "time", "axisP[0]", "motor[0]"]);
    assert_eq!(headers.slow_fields(), vec!["flightModeFlags", "stateFlags"]);

    let intra = &headers.main_frames.intra;
    let inter = &headers.main_frames.inter;
    assert_eq!(intra.len(), 4);
    assert_eq!(inter.len(), 4);
    assert_eq!(intra[0].name, "loopIteration");
    assert_eq!(intra[1].name, "time");
    let signs: Vec<bool> = intra.iter().map(|f| f.signed).collect();
    assert_eq!(signs, vec![false, false, true, false]);
    let predictors: Vec<u8> = intra.iter().map(|f| f.predictor).collect();
    assert_eq!(predictors, vec![0, 0, 0, 11]);
    let encodings: Vec<Encoding> = intra.iter().map(|f| f.encoding).collect();
    assert_eq!(
        encodings,
        vec![Encoding::Variable, Encoding::Variable, Encoding::VariableSigned, Encoding::Variable]
    );
    for (i, p) in intra.iter().zip(inter.iter()) {
        assert_eq!(i.name, p.name);
        assert_eq!(i.signed, p.signed);
    }
    let predictors: Vec<u8> = inter.iter().map(|f| f.predictor).collect();
    assert_eq!(predictors, vec![6, 2, 1, 1]);
    let encodings: Vec<Encoding> = inter.iter().map(|f| f.encoding).collect();
    assert_eq!(
        encodings,
        vec![
            Encoding::Null,
            Encoding::VariableSigned,
            Encoding::VariableSigned,
            Encoding::VariableSigned
        ]
    );
    let slow = &headers.slow_frames.0;
    assert_eq!(slow.len(), 2);
    assert_eq!(slow[1].name, "stateFlags");
    assert!(!slow[1].signed);
    assert_eq!(slow[1].predictor, 0);
    assert_eq!(slow[1].encoding, Encoding::Variable);

    // the reader stands at the first frame
    assert_eq!(reader.read_u8(), Some(b'I'));
    assert_eq!(reader.read_bits(16), Ok(1));
}

#[test]
fn parse_leaves_the_reader_on_failure() {
    let bytes = log(&["H vbatref"], "");
    let mut reader = Reader::new(&bytes);
    assert_eq!(Headers::parse(&mut reader).unwrap_err(), missing("vbatref"));
    assert_eq!(reader.read_line(), Some(&LOG[..60]));
}

#[test]
fn parse_any_prefix_of_a_log() {
    for end in 0..=LOG.len() {
        let result = parse(&LOG[..end]);
        if end < LOG.len() - 2 {
            let error = result.unwrap_err();
            assert!(
                matches!(error, ParseError::UnexpectedEof | ParseError::HeaderInvalidUtf8),
                "{end}: {error:?}"
            );
        } else {
            assert!(result.is_ok());
        }
    }
}

#[test]
fn parse_never_panics_on_damaged_logs() {
    for at in 0..LOG.len() {
        for byte in [0x00, b'\n', b':', b',', b'H', 0x80, 0xFF, b'9', b'I'] {
            let mut bytes = LOG.to_vec();
            bytes[at] = byte;
            let first = parse(&bytes).map(|h| format!("{h:?}"));
            let second = parse(&bytes).map(|h| format!("{h:?}"));
            assert_eq!(first, second);
        }
    }
}

#[test]
fn product_header_must_be_first() {
    let bytes = log(&["H Product"], "");
    assert_eq!(parse(&bytes).unwrap_err(), missing("Product"));
    assert_eq!(parse(b"H product:x\nH Data version:2\n").unwrap_err(), missing("Product"));
}

#[test]
fn data_version_header_must_be_second() {
    let bytes = log(&["H Data version"], "");
    assert_eq!(parse(&bytes).unwrap_err(), missing("Data version"));
    assert_eq!(
        parse(b"H Product:x\nH Data version:3\nI").unwrap_err(),
        invalid("Data version", "3")
    );
    assert_eq!(parse(b"H Product:x\nH Data version:\nI").unwrap_err(), invalid("Data version", ""));
}

#[test]
fn header_section_ends_at_first_other_line() {
    assert_eq!(parse(b"H Product:x\nH Data version:2\n").unwrap_err(), ParseError::UnexpectedEof);
    assert_eq!(parse(b"H Product:x\n").unwrap_err(), ParseError::UnexpectedEof);
    assert_eq!(parse(b"").unwrap_err(), ParseError::UnexpectedEof);
    assert_eq!(parse(b"P").unwrap_err(), ParseError::Corrupted);
    assert_eq!(parse(b"H Product:x\nI").unwrap_err(), ParseError::Corrupted);
    // headers behind the first frame are not read
    let mut bytes = LOG.to_vec();
    bytes.extend_from_slice(b"\nH vbatref:bad\n");
    assert_eq!(parse(&bytes).unwrap().vbat_reference, 420);
}

#[test]
fn missing_required_headers() {
    for (line, name) in [
        ("H Firmware revision", "Firmware revision"),
        ("H Firmware type", "Firmware type"),
        ("H Board information", "Board information"),
        ("H Craft name", "Craft name"),
        ("H vbatref", "vbatref"),
        ("H Field I name", "Field I name"),
        ("H Field I signed", "Field I signed"),
        ("H Field I predictor", "Field I predictor"),
        ("H Field I encoding", "Field I encoding"),
        ("H Field P predictor", "Field P predictor"),
        ("H Field P encoding", "Field P encoding"),
        ("H Field S name", "Field S name"),
        ("H Field S signed", "Field S signed"),
        ("H Field S predictor", "Field S predictor"),
        ("H Field S encoding", "Field S encoding"),
    ] {
        let bytes = log(&[line], "");
        assert_eq!(parse(&bytes).unwrap_err(), missing(name));
    }
    let bytes = log(&["H Firmware", "H Field", "H vbatref"], "");
    assert_eq!(parse(&bytes).unwrap_err(), missing("Field I name"));
    let bytes = log(&["H Firmware", "H Field S", "H vbatref"], "");
    assert_eq!(parse(&bytes).unwrap_err(), missing("Firmware revision"));
}

#[test]
fn optional_headers_may_be_absent() {
    let bytes = log(&["H minthrottle", "H motorOutput", "H Field S", "H I interval"], "");
    let headers = parse(&bytes).unwrap();
    assert_eq!(headers.min_throttle, None);
    assert_eq!(headers.motor_output_range, None);
    assert!(headers.slow_fields().is_empty());
    assert_eq!(headers.main_fields().len(), 4);
}

#[test]
fn invalid_header_values() {
    for (line, header, value) in [
        ("H vbatref:4x\n", "vbatref", "4x"),
        ("H vbatref:65536\n", "vbatref", "65536"),
        ("H VBATref:\n", "VBATref", ""),
        ("H minthrottle:-1\n", "minthrottle", "-1"),
        ("H motorOutput:1070\n", "motorOutput", "1070"),
        ("H motorOutput:1070,2000,3\n", "motorOutput", "1070,2000,3"),
        ("H Firmware type:Betaflight\n", "Firmware type", "Betaflight"),
        ("H FIRMWARE TYPE:Betaflight\n", "Firmware type", "Betaflight"),
        ("H Field I signed:0,0,2,0\n", "Field I signed", "0,0,2,0"),
        ("H Field I signed:0,0,,0\n", "Field I signed", "0,0,,0"),
        ("H Field I predictor:0,0,256,0\n", "Field I predictor", "0,0,256,0"),
        ("H Field P predictor:0,x,0,0\n", "Field P predictor", "0,x,0,0"),
        ("H Field I encoding:1,1,2,1\n", "Field I encoding", "1,1,2,1"),
        ("H Field P encoding:1,1,12,1\n", "Field P encoding", "1,1,12,1"),
        ("H Field S encoding:1,\n", "Field S encoding", "1,"),
        ("H Field P signed:0,0,1,yes\n", "Field P signed", "0,0,1,yes"),
    ] {
        let bytes = log(&[], line);
        assert_eq!(parse(&bytes).unwrap_err(), invalid(header, value), "{line}");
    }
}

#[test]
fn unknown_field_headers() {
    for name in ["Field G name", "Field I unit", "Field ", "Field I", "Field  I name", "Field i name"]
    {
        let bytes = log(&[], &format!("H {name}:0\n"));
        assert_eq!(parse(&bytes).unwrap_err(), ParseError::UnknownHeader(name.to_owned()));
    }
}

#[test]
fn other_headers_are_skipped() {
    let bytes = log(&[], "H looptime:125\nH field I name:x\nH Fields:x\nH :\nH Field I width:4,4\n");
    let headers = parse(&bytes).unwrap();
    assert_eq!(headers.main_fields(), vec!["loopIteration", "time", "axisP[0]", "motor[0]"]);
}

#[test]
fn later_headers_replace_earlier_ones() {
    let bytes = log(&[], "H CRAFT NAME:other\nH Vbatref:+7\nH Field S name:a,b\n");
    let headers = parse(&bytes).unwrap();
    assert_eq!(headers.craft_name, "other");
    assert_eq!(headers.vbat_reference, 7);
    assert_eq!(headers.slow_fields(), vec!["a", "b"]);
}

#[test]
fn frame_definitions_of_unequal_cardinality() {
    for line in [
        "H Field I name:loopIteration,time,axisP[0]\n",
        "H Field I signed:0,0,1,0,0\n",
        "H Field I predictor:0\n",
        "H Field I encoding:1,1,0,1,1\n",
        "H Field P predictor:6,2,1\n",
        "H Field P encoding:9,0,0,0,0\n",
        "H Field S name:flightModeFlags\n",
        "H Field S signed:0,0,0\n",
        "H Field S predictor:0\n",
        "H Field S encoding:1,1,1\n",
    ] {
        let bytes = log(&[], line);
        assert_eq!(parse(&bytes).unwrap_err(), ParseError::Corrupted, "{line}");
    }
}

#[test]
fn main_frame_names_must_agree() {
    let bytes = log(&[], "H Field P name:loopIteration,time,axisP[0],motor[0]\n");
    assert!(parse(&bytes).is_ok());
    let bytes = log(&[], "H Field P name:loopIteration,time,axisP[1],motor[0]\n");
    assert_eq!(parse(&bytes).unwrap_err(), ParseError::Corrupted);
    let bytes = log(&[], "H Field P name:loopIteration,time,axisP[0]\n");
    assert_eq!(parse(&bytes).unwrap_err(), ParseError::Corrupted);
}

#[test]
fn main_frames_hold_iteration_and_time() {
    let short = "H Field I name:loopIteration\nH Field I signed:0\nH Field I predictor:0\n\
H Field I encoding:1\nH Field P predictor:6\nH Field P encoding:9\n";
    let bytes = log(&[], short);
    assert_eq!(parse(&bytes).unwrap_err(), ParseError::Corrupted);
}

#[test]
fn state_takes_headers_one_by_one() {
    let mut state = State::new(LogVersion::V1);
    assert_eq!(state.update("Firmware revision", "rev"), Ok(()));
    assert_eq!(state.update("Firmware type", "INAV"), Ok(()));
    assert_eq!(state.update("Board information", "board"), Ok(()));
    assert_eq!(state.update("Craft name", ""), Ok(()));
    assert_eq!(state.update("vbatref", "x"), Err(invalid("vbatref", "x")));
    assert_eq!(state.update("vbatref", "112"), Ok(()));
    assert_eq!(state.update("Field Q name", "a"), Err(ParseError::UnknownHeader("Field Q name".into())));
    assert_eq!(state.update("unknown", "a"), Ok(()));
    assert_eq!(state.finish().unwrap_err(), missing("Field I name"));
    for (header, value) in [
        ("Field I name", "loopIteration,time"),
        ("Field I signed", "0,0"),
        ("Field I predictor", "0,0"),
        ("Field I encoding", "1,1"),
        ("Field P predictor", "6,2"),
        ("Field P encoding", "9,0"),
    ] {
        assert_eq!(state.update(header, value), Ok(()));
    }
    let headers = state.finish().unwrap();
    assert_eq!(headers.version, LogVersion::V1);
    assert_eq!(headers.firmware_kind, FirmwareKind::INav);
    assert_eq!(headers.firmware_revision, "rev");
    assert_eq!(headers.craft_name, "");
    assert_eq!(headers.vbat_reference, 112);
    assert_eq!(headers.main_fields(), vec!["loopIteration", "time"]);
    assert!(headers.slow_fields().is_empty());
}

#[test]
fn frame_props_parse() {
    let mut props = FrameProps::new();
    assert_eq!(props.parse(FrameKind::Slow).unwrap_err(), missing("Field S name"));
    props.set(FrameProperty::Name, "a,b");
    props.set(FrameProperty::Signed, "1,0");
    props.set(FrameProperty::Predictor, "3,255");
    props.set(FrameProperty::Width, "8,8");
    assert_eq!(props.parse(FrameKind::Inter).unwrap_err(), missing("Field P encoding"));
    props.set(FrameProperty::Encoding, "11,+8");
    let fields = props.parse(FrameKind::Intra).unwrap();
    assert_eq!(fields.len(), 2);
    assert_eq!(fields[0].name, "a");
    assert!(fields[0].signed);
    assert_eq!(fields[0].predictor, 3);
    assert_eq!(fields[0].encoding, Encoding::EliasGammaSigned);
    assert_eq!(fields[1].name, "b");
    assert!(!fields[1].signed);
    assert_eq!(fields[1].predictor, 255);
    assert_eq!(fields[1].encoding, Encoding::Tagged16);
}

#[test]
fn frame_def_builders() {
    let mut main = MainFrameDef::builder();
    assert_eq!(main.parse().unwrap_err(), missing("Field I name"));
    main.update(FrameKind::Intra, FrameProperty::Name, "loopIteration,time");
    main.update(FrameKind::Intra, FrameProperty::Signed, "0,0");
    main.update(FrameKind::Intra, FrameProperty::Predictor, "0,0");
    main.update(FrameKind::Intra, FrameProperty::Encoding, "1,1");
    assert_eq!(main.parse().unwrap_err(), missing("Field P predictor"));
    main.update(FrameKind::Inter, FrameProperty::Predictor, "6,2");
    main.update(FrameKind::Inter, FrameProperty::Encoding, "9,0");
    let def = main.parse().unwrap();
    assert_eq!(def.intra.len(), 2);
    assert_eq!(def.inter[0].name, "loopIteration");
    assert_eq!(def.inter[0].encoding, Encoding::Null);
    main.update(FrameKind::Inter, FrameProperty::Signed, "0,1");
    assert!(main.parse().unwrap().inter[1].signed);

    let mut slow = SlowFrameDef::builder();
    assert!(slow.parse().unwrap().0.is_empty());
    slow.update(FrameProperty::Name, "a");
    assert_eq!(slow.parse().unwrap_err(), missing("Field S signed"));
}
