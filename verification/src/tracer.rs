//! The tracer: a static disassembly of a program, one human-readable text
//! line per instruction in program order, the sentinel excluded. It is a
//! linear pass that reports each instruction's index, its symbolic opcode
//! and, for brackets, the resolved jump target; it performs no tape
//! mutation and no branching.

use vstd::prelude::*;

use crate::ops::Opcode;
use crate::ops::Operation;
use crate::program::Program;

verus! {

/// The character for a single decimal digit.
pub open spec fn digit_seq(d: nat) -> Seq<char> {
    if d == 0 {
        "0"@
    } else if d == 1 {
        "1"@
    } else if d == 2 {
        "2"@
    } else if d == 3 {
        "3"@
    } else if d == 4 {
        "4"@
    } else if d == 5 {
        "5"@
    } else if d == 6 {
        "6"@
    } else if d == 7 {
        "7"@
    } else if d == 8 {
        "8"@
    } else {
        "9"@
    }
}

/// The decimal notation of `n`, most significant digit first, with no
/// leading zeros (zero itself is a single digit).
pub open spec fn dec_digits(n: nat) -> Seq<char>
    decreases n,
{
    if n < 10 {
        digit_seq(n)
    } else {
        dec_digits(n / 10) + digit_seq(n % 10)
    }
}

/// The symbol an instruction is written with in source text; the sentinel
/// has none.
pub open spec fn opcode_symbol(opcode: Opcode) -> Seq<char> {
    match opcode {
        Opcode::IncrementCell => "+"@,
        Opcode::DecrementCell => "-"@,
        Opcode::MovePointerRight => ">"@,
        Opcode::MovePointerLeft => "<"@,
        Opcode::LoopStart => "["@,
        Opcode::LoopEnd => "]"@,
        Opcode::Output => "."@,
        Opcode::Input => ","@,
        Opcode::End => ""@,
    }
}

/// The disassembly line for the instruction `op` at index `i`: the index,
/// the symbol, and for a bracket the resolved jump target.
pub open spec fn line_spec(i: nat, op: Operation) -> Seq<char> {
    if op.opcode == Opcode::LoopStart || op.opcode == Opcode::LoopEnd {
        dec_digits(i) + ": "@ + opcode_symbol(op.opcode) + " -> "@ + dec_digits(op.operand as nat)
    } else {
        dec_digits(i) + ": "@ + opcode_symbol(op.opcode)
    }
}

/// The single-digit string for `d`.
fn digit_str(d: usize) -> (r: &'static str)
    requires
        d < 10,
    ensures
        r@ == digit_seq(d as nat),
{
    match d {
        0 => "0",
        1 => "1",
        2 => "2",
        3 => "3",
        4 => "4",
        5 => "5",
        6 => "6",
        7 => "7",
        8 => "8",
        _ => "9",
    }
}

/// Append the decimal notation of `n` to `s`.
fn append_decimal(s: &mut String, n: usize)
    ensures
        final(s)@ == old(s)@ + dec_digits(n as nat),
    decreases n,
{
    if n >= 10 {
        append_decimal(s, n / 10);
    }
    s.append(digit_str(n % 10));
    proof {
        assert(final(s)@ =~= old(s)@ + dec_digits(n as nat));
    }
}

/// The symbol for `opcode` as a string slice.
fn symbol_str(opcode: Opcode) -> (r: &'static str)
    ensures
        r@ == opcode_symbol(opcode),
{
    match opcode {
        Opcode::IncrementCell => "+",
        Opcode::DecrementCell => "-",
        Opcode::MovePointerRight => ">",
        Opcode::MovePointerLeft => "<",
        Opcode::LoopStart => "[",
        Opcode::LoopEnd => "]",
        Opcode::Output => ".",
        Opcode::Input => ",",
        Opcode::End => "",
    }
}

/// Disassemble `program`: one line per instruction up to but excluding the
/// sentinel, in program order.
pub fn trace(program: &Program) -> (lines: Vec<String>)
    requires
        program.wf(),
    ensures
        lines@.len() == program@.len() - 1,
        forall|i: int|
            0 <= i < lines@.len() ==> (#[trigger] lines@[i])@ == line_spec(
                i as nat,
                program@[i],
            ),
{
    let n = program.len();
    let mut lines: Vec<String> = Vec::new();
    let mut i: usize = 0;
    while i < n - 1
        invariant
            program.wf(),
            n == program@.len(),
            i <= n - 1,
            lines@.len() == i,
            forall|k: int|
                0 <= k < lines@.len() ==> (#[trigger] lines@[k])@ == line_spec(
                    k as nat,
                    program@[k],
                ),
        decreases n - 1 - i,
    {
        let op = program.get(i);
        let mut line = String::new();
        append_decimal(&mut line, i);
        line.append(": ");
        line.append(symbol_str(op.opcode));
        if op.opcode == Opcode::LoopStart || op.opcode == Opcode::LoopEnd {
            line.append(" -> ");
            append_decimal(&mut line, op.operand);
        }
        proof {
            assert(line@ =~= line_spec(i as nat, program@[i as int]));
        }
        lines.push(line);
        i = i + 1;
    }
    lines
}

} // verus!
