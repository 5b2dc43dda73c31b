use brainfuck_vm::ops::Opcode;
use brainfuck_vm::ops::Operation;
use brainfuck_vm::parser::BrainfuckParser;
use brainfuck_vm::parser::ParseError;
use brainfuck_vm::program::Program;

fn opcodes_of(program: &Program) -> Vec<(Opcode, usize)> {
    let mut v: Vec<(Opcode, usize)> = Vec::new();
    let mut i = 0;
    while i < program.len() {
        let op = program.get(i);
        v.push((op.opcode, op.operand));
        i += 1;
    }
    v
}

#[test]
fn parse_simple_commands() {
    let program = BrainfuckParser::parse("+-><.,").unwrap();
    assert_eq!(
        opcodes_of(&program),
        vec![
            (Opcode::IncrementCell, 1),
            (Opcode::DecrementCell, 1),
            (Opcode::MovePointerRight, 1),
            (Opcode::MovePointerLeft, 1),
            (Opcode::Output, 0),
            (Opcode::Input, 0),
            (Opcode::End, 0),
        ]
    );
}

#[test]
fn parse_links_nested_brackets() {
    let program = BrainfuckParser::parse("[[]]").unwrap();
    assert_eq!(
        opcodes_of(&program),
        vec![
            (Opcode::LoopStart, 3),
            (Opcode::LoopStart, 2),
            (Opcode::LoopEnd, 1),
            (Opcode::LoopEnd, 0),
            (Opcode::End, 0),
        ]
    );
}

#[test]
fn parse_unmatched_open_bracket() {
    let r = BrainfuckParser::parse("[");
    assert!(r.is_err());
    assert_eq!(
        r.err().unwrap(),
        ParseError::UnmatchedOpenBracket { position: 0 }
    );
}

#[test]
fn parse_unmatched_open_bracket_reports_innermost() {
    let r = BrainfuckParser::parse("+[[]");
    assert_eq!(
        r.err().unwrap(),
        ParseError::UnmatchedOpenBracket { position: 1 }
    );
}

#[test]
fn parse_unmatched_close_bracket() {
    let r = BrainfuckParser::parse("]");
    assert_eq!(
        r.err().unwrap(),
        ParseError::UnmatchedCloseBracket { position: 0 }
    );
}

#[test]
fn parse_unmatched_close_bracket_position() {
    let r = BrainfuckParser::parse("+]+");
    assert_eq!(
        r.err().unwrap(),
        ParseError::UnmatchedCloseBracket { position: 1 }
    );
}

#[test]
fn parse_comments_consume_no_slot() {
    let program = BrainfuckParser::parse("a+ b+\nc.").unwrap();
    assert_eq!(
        opcodes_of(&program),
        vec![
            (Opcode::IncrementCell, 1),
            (Opcode::IncrementCell, 1),
            (Opcode::Output, 0),
            (Opcode::End, 0),
        ]
    );
}

#[test]
fn parse_leading_comment_is_true_no_op() {
    let program = BrainfuckParser::parse("x+.").unwrap();
    assert_eq!(
        opcodes_of(&program),
        vec![
            (Opcode::IncrementCell, 1),
            (Opcode::Output, 0),
            (Opcode::End, 0),
        ]
    );
}

#[test]
fn parse_deterministic() {
    let source = "++[>+<-].x";
    let first = BrainfuckParser::parse(source).unwrap();
    let second = BrainfuckParser::parse(source).unwrap();
    assert_eq!(opcodes_of(&first), opcodes_of(&second));
}

#[test]
fn parse_program_at_capacity() {
    let source = "+".repeat(8191);
    let program = BrainfuckParser::parse(&source).unwrap();
    assert_eq!(program.len(), 8192);
    assert_eq!(program.get(8191).opcode, Opcode::End);
}

#[test]
fn parse_program_too_large_for_sentinel() {
    let source = "+".repeat(8192);
    let r = BrainfuckParser::parse(&source);
    assert_eq!(r.err().unwrap(), ParseError::ProgramTooLarge { position: 8192 });
}

#[test]
fn parse_program_too_large_mid_scan() {
    let source = "+".repeat(8193);
    let r = BrainfuckParser::parse(&source);
    assert_eq!(r.err().unwrap(), ParseError::ProgramTooLarge { position: 8192 });
}

#[test]
fn program_set_get_len() {
    let mut program = Program::new();
    assert_eq!(program.len(), 0);
    program.push(Operation { opcode: Opcode::IncrementCell, operand: 1 });
    program.push(Operation { opcode: Opcode::End, operand: 0 });
    assert_eq!(program.len(), 2);
    assert_eq!(program.get(0).opcode, Opcode::IncrementCell);
    program.set(0, Operation { opcode: Opcode::Output, operand: 0 });
    assert_eq!(program.get(0).opcode, Opcode::Output);
    assert_eq!(program.get(0).operand, 0);
    assert_eq!(program.get(1).opcode, Opcode::End);
}
