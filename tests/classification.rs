use sol_log_parser::parsed_log::ParsedDataLog;
use sol_log_parser::raw_log::{
    RawCuLog, RawDataLog, RawFailedLog, RawInvokeLog, RawOtherLog, RawProgramLog, RawReturnLog,
};
use sol_log_parser::{quick_pubkey_check, LogParseError, ParsedLog, RawLog};

const ID: &str = "D4SghRBTyA7HQSEH89uT9LgCs1TTtrPptwuqm1sLSsns";

#[test]
fn program_message_keeps_text_and_line() {
    let line = "Program log: hi there";
    assert_eq!(
        RawLog::parse(line),
        RawLog::Log(RawProgramLog { raw: line, msg: "hi there" })
    );
}

#[test]
fn surrounding_whitespace_is_trimmed_but_raw_kept() {
    let line = "  \tProgram log: padded  ";
    assert_eq!(
        RawLog::parse(line),
        RawLog::Log(RawProgramLog { raw: line, msg: "padded" })
    );
}

#[test]
fn empty_program_message_is_other() {
    let line = "Program log: ";
    assert_eq!(RawLog::parse(line), RawLog::Other(RawOtherLog { raw: line }));
}

#[test]
fn invoke_line_with_valid_id_and_depth() {
    let line = format!("Program {ID} invoke [3]");
    assert_eq!(
        RawLog::parse(&line),
        RawLog::Invoke(RawInvokeLog { raw: &line, program_id: ID, depth: 3 })
    );
}

#[test]
fn invoke_depth_with_plus_sign_reads_as_number() {
    let line = format!("Program {ID} invoke [+7]");
    assert_eq!(
        RawLog::parse(&line),
        RawLog::Invoke(RawInvokeLog { raw: &line, program_id: ID, depth: 7 })
    );
}

#[test]
fn invoke_with_bad_depth_is_other() {
    for depth in ["x", "256", "", "-1", "1 "] {
        let line = format!("Program {ID} invoke [{depth}]");
        assert_eq!(RawLog::parse(&line), RawLog::Other(RawOtherLog { raw: &line }));
    }
}

#[test]
fn invoke_with_bad_id_is_other() {
    for id in ["abc", "0000000000000000000000000000000000", "1111111111111111111111111111111l"] {
        let line = format!("Program {id} invoke [1]");
        assert_eq!(RawLog::parse(&line), RawLog::Other(RawOtherLog { raw: &line }));
    }
}

#[test]
fn other_line_reclassifies_as_other() {
    for line in ["random text", "Program is running", "Program return: nospace", ""] {
        let first = RawLog::parse(line);
        let RawLog::Other(other) = first else {
            panic!("expected an unmatched line: {line}");
        };
        assert_eq!(other.raw, line);
        assert_eq!(RawLog::parse(other.raw), RawLog::Other(RawOtherLog { raw: line }));
    }
}

#[test]
fn data_line_keeps_base64_text() {
    let line = "Program data: aGVsbG8=";
    let raw = RawLog::parse(line);
    assert_eq!(raw, RawLog::Data(RawDataLog { raw: line, data: "aGVsbG8=" }));
    let parsed = ParsedLog::from_raw(&raw).expect("valid base64");
    assert_eq!(
        parsed,
        ParsedLog::Data(ParsedDataLog { raw: line.into(), data: b"hello".to_vec() })
    );
}

#[test]
fn data_line_with_invalid_base64_fails_to_decode() {
    let raw = RawLog::parse("Program data: not*base64");
    assert!(matches!(raw, RawLog::Data(_)));
    assert!(matches!(ParsedLog::from_raw(&raw), Err(LogParseError::Base64(_))));
}

#[test]
fn return_line_splits_id_and_payload() {
    let line = format!("Program return: {ID} AQID");
    let raw = RawLog::parse(&line);
    assert_eq!(
        raw,
        RawLog::Return(RawReturnLog { raw: &line, program_id: ID, data: "AQID" })
    );
    match ParsedLog::from_raw(&raw).expect("decodes") {
        ParsedLog::Return(r) => assert_eq!(r.data, vec![1, 2, 3]),
        other => panic!("unexpected {other:?}"),
    }
}

#[test]
fn failed_line_keeps_error_text() {
    let line = format!("Program {ID} failed: custom program error: 0x1");
    assert_eq!(
        RawLog::parse(&line),
        RawLog::Failed(RawFailedLog {
            raw: &line,
            program_id: ID,
            err: "custom program error: 0x1"
        })
    );
}

#[test]
fn success_with_extra_text_is_other() {
    let line = format!("Program {ID} successful");
    assert_eq!(RawLog::parse(&line), RawLog::Other(RawOtherLog { raw: &line }));
}

#[test]
fn compute_units_at_the_largest_value() {
    let line = format!("Program {ID} consumed 18446744073709551615 of 0 compute units");
    assert_eq!(
        RawLog::parse(&line),
        RawLog::Cu(RawCuLog {
            raw: &line,
            program_id: ID,
            consumed: u64::MAX,
            budget: 0
        })
    );
}

#[test]
fn compute_units_that_do_not_parse_are_other() {
    for tail in [
        "consumed x of 100 compute units",
        "consumed 18446744073709551616 of 1 compute units",
        "consumed 10 of 100 units",
        "consumed 10 100 compute units",
    ] {
        let line = format!("Program {ID} {tail}");
        assert_eq!(RawLog::parse(&line), RawLog::Other(RawOtherLog { raw: &line }));
    }
}

#[test]
fn identifier_shape_bounds() {
    assert!(!quick_pubkey_check(&"1".repeat(31)));
    assert!(quick_pubkey_check(&"1".repeat(32)));
    assert!(quick_pubkey_check(&"z".repeat(44)));
    assert!(!quick_pubkey_check(&"z".repeat(45)));
    assert!(!quick_pubkey_check("111111111111111111111111111111I1"));
    assert!(!quick_pubkey_check("11111111111111111111111111111111 "));
}

#[test]
fn identifier_of_right_shape_that_does_not_decode() {
    let line = format!("Program {} success", "z".repeat(44));
    let raw = RawLog::parse(&line);
    assert!(matches!(raw, RawLog::Success(_)));
    assert!(matches!(ParsedLog::from_raw(&raw), Err(LogParseError::Pubkey(_))));
}

#[test]
fn batch_decode_fails_as_a_whole() {
    let good = format!("Program {ID} invoke [1]");
    let lines = vec![
        RawLog::parse(&good),
        RawLog::parse("Program data: %%%"),
        RawLog::parse("Program log: after"),
    ];
    assert!(matches!(ParsedLog::from_raw_logs(&lines), Err(LogParseError::Base64(_))));
    let ok = vec![RawLog::parse(&good), RawLog::parse("Program log: after")];
    let parsed = ParsedLog::from_raw_logs(&ok).expect("all decode");
    assert_eq!(parsed.len(), 2);
    assert!(matches!(parsed[1], ParsedLog::Log(_)));
}
