use brainfuck_vm::parser::BrainfuckParser;
use brainfuck_vm::tracer::trace;

#[test]
fn trace_reports_each_instruction() {
    let program = BrainfuckParser::parse("+[-]").unwrap();
    let lines = trace(&program);
    assert_eq!(lines, vec!["0: +", "1: [ -> 3", "2: -", "3: ] -> 1"]);
}

#[test]
fn trace_excludes_sentinel() {
    let program = BrainfuckParser::parse("").unwrap();
    let lines = trace(&program);
    assert!(lines.is_empty());
}

#[test]
fn trace_multi_digit_indices() {
    let source = format!("{}[]", "+".repeat(10));
    let program = BrainfuckParser::parse(&source).unwrap();
    let lines = trace(&program);
    assert_eq!(lines.len(), 12);
    assert_eq!(lines[9], "9: +");
    assert_eq!(lines[10], "10: [ -> 11");
    assert_eq!(lines[11], "11: ] -> 10");
}

#[test]
fn trace_all_symbols() {
    let program = BrainfuckParser::parse("+-><.,").unwrap();
    let lines = trace(&program);
    assert_eq!(lines, vec!["0: +", "1: -", "2: >", "3: <", "4: .", "5: ,"]);
}
