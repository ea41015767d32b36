use sol_log_parser::raw_log::{RawDataLog, RawProgramLog};
use sol_log_parser::structured_log::raw::RawProgramResult;
use sol_log_parser::structured_log::{ComputeUnits, StructureError};
use sol_log_parser::{LogParseError, ParsedLog, ParsedStructuredLog, RawLog, RawStructuredLog};

const P: &str = "D4SghRBTyA7HQSEH89uT9LgCs1TTtrPptwuqm1sLSsns";
const Q: &str = "11111111111111111111111111111111";

fn classify_all<'a>(lines: &'a [String]) -> Vec<RawLog<'a>> {
    lines.iter().map(|l| RawLog::parse(l)).collect()
}

fn count(frames: &[RawStructuredLog]) -> usize {
    frames.iter().map(|f| 1 + count(&f.cpi_logs)).sum()
}

#[test]
fn single_invocation_with_message_and_units() {
    let lines = vec![
        format!("Program {P} invoke [1]"),
        "Program log: hi".to_string(),
        format!("Program {P} consumed 10 of 100 compute units"),
        format!("Program {P} success"),
    ];
    let forest = RawStructuredLog::from_raw_logs(classify_all(&lines)).expect("balanced");
    assert_eq!(forest.len(), 1);
    let f = &forest[0];
    assert_eq!(f.program_id, P);
    assert_eq!(f.depth, 1);
    assert_eq!(f.result, RawProgramResult::Success);
    assert_eq!(f.program_logs, vec![RawProgramLog { raw: "Program log: hi", msg: "hi" }]);
    assert_eq!(f.compute_log, Some(ComputeUnits { consumed: 10, budget: 100 }));
    assert!(f.cpi_logs.is_empty());
    assert_eq!(f.return_data, None);
    let expected: Vec<&str> = lines.iter().map(|s| s.as_str()).collect();
    assert_eq!(f.raw_logs, expected);
}

#[test]
fn nested_invocation_keeps_all_lines_in_caller() {
    let lines = vec![
        format!("Program {P} invoke [1]"),
        format!("Program {Q} invoke [2]"),
        format!("Program {Q} success"),
        format!("Program {P} success"),
    ];
    let forest = RawStructuredLog::from_raw_logs(classify_all(&lines)).expect("balanced");
    assert_eq!(forest.len(), 1);
    let a = &forest[0];
    assert_eq!(a.program_id, P);
    assert_eq!(a.cpi_logs.len(), 1);
    assert_eq!(a.cpi_logs[0].program_id, Q);
    assert_eq!(a.cpi_logs[0].depth, 2);
    assert_eq!(a.cpi_logs[0].raw_logs, vec![lines[1].as_str(), lines[2].as_str()]);
    let expected: Vec<&str> = lines.iter().map(|s| s.as_str()).collect();
    assert_eq!(a.raw_logs, expected);
}

#[test]
fn frame_count_equals_outcome_count() {
    let lines = vec![
        format!("Program {P} invoke [1]"),
        format!("Program {Q} invoke [2]"),
        format!("Program {Q} success"),
        format!("Program {Q} invoke [2]"),
        format!("Program {Q} failed: boom"),
        format!("Program {P} success"),
        format!("Program {Q} invoke [1]"),
        format!("Program {Q} success"),
    ];
    let forest = RawStructuredLog::from_raw_logs(classify_all(&lines)).expect("balanced");
    assert_eq!(forest.len(), 2);
    assert_eq!(count(&forest), 4);
    assert_eq!(forest[0].cpi_logs[1].result, RawProgramResult::Failed("boom"));
}

#[test]
fn outcome_without_invocation_is_rejected() {
    let lines = vec![format!("Program {P} success")];
    let r = RawStructuredLog::from_raw_logs(classify_all(&lines));
    assert!(matches!(
        r,
        Err(LogParseError::Structure(StructureError::UnmatchedOutcome { line: 0 }))
    ));
}

#[test]
fn outcome_of_another_program_is_rejected() {
    let lines = vec![format!("Program {P} invoke [1]"), format!("Program {Q} success")];
    let r = RawStructuredLog::from_raw_logs(classify_all(&lines));
    assert!(matches!(
        r,
        Err(LogParseError::Structure(StructureError::MismatchedOutcome { line: 1 }))
    ));
}

#[test]
fn unclosed_invocation_is_rejected() {
    let lines = vec![
        format!("Program {P} invoke [1]"),
        format!("Program {Q} invoke [2]"),
        format!("Program {Q} success"),
    ];
    let r = RawStructuredLog::from_raw_logs(classify_all(&lines));
    assert!(matches!(
        r,
        Err(LogParseError::Structure(StructureError::UnclosedInvocations { open: 1 }))
    ));
}

#[test]
fn empty_input_gives_empty_forest() {
    let forest = RawStructuredLog::from_raw_logs(Vec::new()).expect("nothing to close");
    assert!(forest.is_empty());
}

#[test]
fn lines_outside_any_invocation_are_dropped() {
    let lines = vec![
        "Program log: before".to_string(),
        format!("Program {P} invoke [1]"),
        format!("Program {P} success"),
        "Program data: AQ==".to_string(),
    ];
    let forest = RawStructuredLog::from_raw_logs(classify_all(&lines)).expect("balanced");
    assert_eq!(forest.len(), 1);
    assert_eq!(forest[0].raw_logs, vec![lines[1].as_str(), lines[2].as_str()]);
}

#[test]
fn return_and_units_of_another_program_stay_raw_only() {
    let lines = vec![
        format!("Program {P} invoke [1]"),
        format!("Program return: {Q} AQ=="),
        format!("Program {Q} consumed 1 of 2 compute units"),
        format!("Program return: {P} Ag=="),
        format!("Program return: {P} Aw=="),
        "Program data: BA==".to_string(),
        "something else".to_string(),
        format!("Program {P} success"),
    ];
    let forest = RawStructuredLog::from_raw_logs(classify_all(&lines)).expect("balanced");
    let f = &forest[0];
    assert_eq!(f.return_data, Some("Aw=="));
    assert_eq!(f.compute_log, None);
    assert_eq!(f.data_logs, vec![RawDataLog { raw: "Program data: BA==", data: "BA==" }]);
    assert_eq!(f.raw_logs.len(), lines.len());
}

#[test]
fn typed_projection_decodes_ids_and_payloads() {
    let lines = vec![
        format!("Program {P} invoke [1]"),
        "Program data: aGVsbG8=".to_string(),
        format!("Program return: {P} AQID"),
        format!("Program {P} success"),
    ];
    let raws = classify_all(&lines);
    let parsed = ParsedLog::from_raw_logs(&raws).expect("decodes");
    let forest = ParsedStructuredLog::from_parsed_logs(parsed).expect("balanced");
    assert_eq!(forest.len(), 1);
    let f = &forest[0];
    assert_eq!(f.program_id, solana_pubkey::Pubkey::from_str_const(P).to_bytes());
    assert_eq!(f.data_logs[0].data, b"hello".to_vec());
    assert_eq!(f.return_data, Some(vec![1, 2, 3]));
    assert_eq!(f.raw_logs, lines);
}

#[test]
fn typed_projection_rejects_unbalanced_input() {
    let lines = vec![format!("Program {P} invoke [1]")];
    let parsed = ParsedLog::from_raw_logs(&classify_all(&lines)).expect("decodes");
    assert!(matches!(
        ParsedStructuredLog::from_parsed_logs(parsed),
        Err(LogParseError::Structure(StructureError::UnclosedInvocations { open: 1 }))
    ));
}
