//! The parser: a single left-to-right scan translating source characters
//! into instructions, resolving loop jump targets via a bracket-matching
//! stack.

use vstd::prelude::*;

use crate::ops::CODE_MAX_SIZE;
use crate::ops::Opcode;
use crate::ops::Operation;
use crate::program::Program;
use crate::program::code_wf;

verus! {

/// Why a parse attempt failed. Each variant carries the source position
/// (an index into the scanned character sequence) at which it was detected.
#[derive(Clone, Copy, PartialEq, Eq, Structural, Debug)]
pub enum ParseError {
    /// A `[` was never closed; the position is that of the innermost
    /// still-open `[`.
    UnmatchedOpenBracket { position: usize },
    /// A `]` had no open `[` left to match; the position is that of the `]`.
    UnmatchedCloseBracket { position: usize },
    /// The program would need more instruction slots than the capacity
    /// allows; the position is that of the command character that did not
    /// fit, or the end of the source when only the sentinel did not fit.
    ProgramTooLarge { position: usize },
}

/// Whether `c` is one of the eight command characters. Every other
/// character is a comment: it consumes no instruction slot.
pub open spec fn is_command(c: char) -> bool {
    c == '+' || c == '-' || c == '>' || c == '<' || c == '[' || c == ']' || c == '.' || c == ','
}

/// The instruction a non-bracket command character scans to.
pub open spec fn op_of(c: char) -> Operation {
    if c == '+' {
        Operation { opcode: Opcode::IncrementCell, operand: 1 }
    } else if c == '-' {
        Operation { opcode: Opcode::DecrementCell, operand: 1 }
    } else if c == '>' {
        Operation { opcode: Opcode::MovePointerRight, operand: 1 }
    } else if c == '<' {
        Operation { opcode: Opcode::MovePointerLeft, operand: 1 }
    } else if c == '.' {
        Operation { opcode: Opcode::Output, operand: 0 }
    } else {
        Operation { opcode: Opcode::Input, operand: 0 }
    }
}

/// The scan from position `i` onward, carrying the instructions emitted so
/// far and, for each still-open `[`, its instruction index and source
/// position (innermost last). Capacity is checked before each slot is
/// written; at the end of the source an unclosed bracket is reported before
/// a sentinel that does not fit.
pub open spec fn scan(
    src: Seq<char>,
    i: int,
    code: Seq<Operation>,
    stack: Seq<(usize, usize)>,
) -> Result<Seq<Operation>, ParseError>
    decreases src.len() - i,
{
    if i < 0 || i >= src.len() {
        if stack.len() > 0 {
            Err(ParseError::UnmatchedOpenBracket { position: stack.last().1 })
        } else if code.len() >= CODE_MAX_SIZE {
            Err(ParseError::ProgramTooLarge { position: src.len() as usize })
        } else {
            Ok(code.push(Operation { opcode: Opcode::End, operand: 0 }))
        }
    } else if !is_command(src[i]) {
        scan(src, i + 1, code, stack)
    } else if code.len() >= CODE_MAX_SIZE {
        Err(ParseError::ProgramTooLarge { position: i as usize })
    } else if src[i] == '[' {
        scan(
            src,
            i + 1,
            code.push(Operation { opcode: Opcode::LoopStart, operand: 0 }),
            stack.push((code.len() as usize, i as usize)),
        )
    } else if src[i] == ']' {
        if stack.len() == 0 {
            Err(ParseError::UnmatchedCloseBracket { position: i as usize })
        } else {
            scan(
                src,
                i + 1,
                code.update(
                    stack.last().0 as int,
                    Operation { opcode: Opcode::LoopStart, operand: code.len() as usize },
                ).push(Operation { opcode: Opcode::LoopEnd, operand: stack.last().0 }),
                stack.drop_last(),
            )
        }
    } else {
        scan(src, i + 1, code.push(op_of(src[i])), stack)
    }
}

/// What parsing a character sequence yields: the complete instruction
/// sequence (sentinel included) on success, the first error otherwise.
pub open spec fn spec_parse(src: Seq<char>) -> Result<Seq<Operation>, ParseError> {
    scan(src, 0, Seq::empty(), Seq::empty())
}

/// Whether instruction index `idx` is on the bracket stack.
pub open spec fn in_stack(stack: Seq<(usize, usize)>, idx: int) -> bool {
    exists|k: int| 0 <= k < stack.len() && (#[trigger] stack[k]).0 == idx
}

/// A `LoopStart` at `i` already linked to its partner `LoopEnd`.
pub open spec fn matched_start(code: Seq<Operation>, i: int) -> bool {
    &&& i < code[i].operand < code.len()
    &&& code[code[i].operand as int].opcode == Opcode::LoopEnd
    &&& code[code[i].operand as int].operand == i
}

/// A `LoopEnd` at `i` linked back to its partner `LoopStart`, which is no
/// longer open.
pub open spec fn matched_end(code: Seq<Operation>, stack: Seq<(usize, usize)>, i: int) -> bool {
    &&& code[i].operand < i
    &&& code[code[i].operand as int].opcode == Opcode::LoopStart
    &&& code[code[i].operand as int].operand == i
    &&& !in_stack(stack, code[i].operand as int)
}

/// The scan's intermediate well-formedness: the stack lists the still-open
/// `LoopStart`s in strictly increasing order, no sentinel has been emitted,
/// and every bracket instruction not still open is correctly linked.
pub open spec fn scan_wf(code: Seq<Operation>, stack: Seq<(usize, usize)>) -> bool {
    &&& code.len() <= CODE_MAX_SIZE
    &&& forall|k: int| 0 <= k < stack.len() ==> (#[trigger] stack[k]).0 < code.len()
    &&& forall|k: int|
        0 <= k < stack.len() ==> code[(#[trigger] stack[k]).0 as int].opcode == Opcode::LoopStart
    &&& forall|k1: int, k2: int|
        0 <= k1 < k2 < stack.len() ==> (#[trigger] stack[k1]).0 < (#[trigger] stack[k2]).0
    &&& forall|i: int| 0 <= i < code.len() ==> (#[trigger] code[i]).opcode != Opcode::End
    &&& forall|i: int|
        0 <= i < code.len() && (#[trigger] code[i]).opcode == Opcode::LoopStart && !in_stack(
            stack,
            i,
        ) ==> matched_start(code, i)
    &&& forall|i: int|
        0 <= i < code.len() && (#[trigger] code[i]).opcode == Opcode::LoopEnd ==> matched_end(
            code,
            stack,
            i,
        )
}

/// Appending a non-bracket, non-sentinel instruction preserves the scan's
/// well-formedness.
proof fn lemma_scan_wf_push_plain(code: Seq<Operation>, stack: Seq<(usize, usize)>, op: Operation)
    requires
        scan_wf(code, stack),
        code.len() < CODE_MAX_SIZE,
        op.opcode != Opcode::End,
        op.opcode != Opcode::LoopStart,
        op.opcode != Opcode::LoopEnd,
    ensures
        scan_wf(code.push(op), stack),
{
    let code2 = code.push(op);
    assert forall|i: int|
        0 <= i < code2.len() && (#[trigger] code2[i]).opcode == Opcode::LoopStart && !in_stack(
            stack,
            i,
        ) implies matched_start(code2, i) by {
        assert(i < code.len());
        assert(matched_start(code, i));
    }
    assert forall|i: int|
        0 <= i < code2.len() && (#[trigger] code2[i]).opcode == Opcode::LoopEnd implies matched_end(
        code2,
        stack,
        i,
    ) by {
        assert(i < code.len());
        assert(matched_end(code, stack, i));
    }
}

/// Opening a bracket: appending a placeholder `LoopStart` and pushing its
/// index preserves the scan's well-formedness.
proof fn lemma_scan_wf_push_open(code: Seq<Operation>, stack: Seq<(usize, usize)>, pos: usize)
    requires
        scan_wf(code, stack),
        code.len() < CODE_MAX_SIZE,
    ensures
        scan_wf(
            code.push(Operation { opcode: Opcode::LoopStart, operand: 0 }),
            stack.push((code.len() as usize, pos)),
        ),
{
    let code2 = code.push(Operation { opcode: Opcode::LoopStart, operand: 0 });
    let stack2 = stack.push((code.len() as usize, pos));
    assert forall|i: int|
        0 <= i < code2.len() && (#[trigger] code2[i]).opcode == Opcode::LoopStart && !in_stack(
            stack2,
            i,
        ) implies matched_start(code2, i) by {
        if i == code.len() {
            assert(stack2[stack2.len() - 1].0 == i);
            assert(in_stack(stack2, i));
        } else {
            assert(!in_stack(stack, i)) by {
                if in_stack(stack, i) {
                    let k = choose|k: int|
                        0 <= k < stack.len() && (#[trigger] stack[k]).0 == i;
                    assert(stack2[k].0 == i);
                }
            }
            assert(matched_start(code, i));
        }
    }
    assert forall|i: int|
        0 <= i < code2.len() && (#[trigger] code2[i]).opcode == Opcode::LoopEnd implies matched_end(
        code2,
        stack2,
        i,
    ) by {
        assert(i < code.len());
        assert(matched_end(code, stack, i));
        let p = code[i].operand as int;
        assert(code2[p] == code[p]);
        assert(!in_stack(stack2, p)) by {
            if in_stack(stack2, p) {
                let k = choose|k: int|
                    0 <= k < stack2.len() && (#[trigger] stack2[k]).0 == p;
                if k < stack.len() {
                    assert(stack[k].0 == p);
                } else {
                    assert(stack2[k].0 == code.len());
                }
            }
        }
    }
}

/// Closing a bracket: linking the most recently opened `LoopStart` with a
/// new `LoopEnd` and popping the stack preserves the scan's
/// well-formedness.
proof fn lemma_scan_wf_close(code: Seq<Operation>, stack: Seq<(usize, usize)>)
    requires
        scan_wf(code, stack),
        code.len() < CODE_MAX_SIZE,
        stack.len() > 0,
    ensures
        scan_wf(
            code.update(
                stack.last().0 as int,
                Operation { opcode: Opcode::LoopStart, operand: code.len() as usize },
            ).push(Operation { opcode: Opcode::LoopEnd, operand: stack.last().0 }),
            stack.drop_last(),
        ),
{
    let j = stack.last().0 as int;
    let pc = code.len() as int;
    let code2 = code.update(
        j,
        Operation { opcode: Opcode::LoopStart, operand: code.len() as usize },
    ).push(Operation { opcode: Opcode::LoopEnd, operand: stack.last().0 });
    let stack2 = stack.drop_last();
    assert(stack[stack.len() - 1].0 == j);
    assert(0 <= j < code.len());

    // Every remaining stack entry sits strictly below `j`.
    assert forall|k: int| 0 <= k < stack2.len() implies (#[trigger] stack2[k]).0 < j by {
        assert(stack[k].0 < stack[stack.len() - 1].0);
    }
    assert(!in_stack(stack2, j));

    assert forall|k: int|
        0 <= k < stack2.len() implies code2[(#[trigger] stack2[k]).0 as int].opcode
        == Opcode::LoopStart by {
        assert(stack[k].0 == stack2[k].0);
        assert(code[stack2[k].0 as int].opcode == Opcode::LoopStart);
    }

    assert forall|i: int|
        0 <= i < code2.len() && (#[trigger] code2[i]).opcode == Opcode::LoopStart && !in_stack(
            stack2,
            i,
        ) implies matched_start(code2, i) by {
        if i == j {
            assert(code2[j].operand == pc);
            assert(code2[pc] == Operation { opcode: Opcode::LoopEnd, operand: stack.last().0 });
        } else if i == pc {
            assert(code2[i].opcode == Opcode::LoopEnd);
        } else {
            assert(code2[i] == code[i]);
            assert(!in_stack(stack, i)) by {
                if in_stack(stack, i) {
                    let k = choose|k: int|
                        0 <= k < stack.len() && (#[trigger] stack[k]).0 == i;
                    assert(k < stack.len() - 1 ==> stack2[k].0 == i);
                }
            }
            assert(matched_start(code, i));
            let p = code[i].operand as int;
            assert(code[p].opcode == Opcode::LoopEnd);
            assert(p != j);
            assert(code2[p] == code[p]);
        }
    }

    assert forall|i: int|
        0 <= i < code2.len() && (#[trigger] code2[i]).opcode == Opcode::LoopEnd implies matched_end(
        code2,
        stack2,
        i,
    ) by {
        if i == pc {
            assert(code2[i].operand == j);
            assert(code2[j].opcode == Opcode::LoopStart);
            assert(code2[j].operand == pc);
        } else {
            assert(i != j);
            assert(code2[i] == code[i]);
            assert(matched_end(code, stack, i));
            let p = code[i].operand as int;
            assert(p != j);
            assert(code2[p] == code[p]);
            assert(!in_stack(stack2, p)) by {
                if in_stack(stack2, p) {
                    let k = choose|k: int|
                        0 <= k < stack2.len() && (#[trigger] stack2[k]).0 == p;
                    assert(stack[k].0 == p);
                }
            }
        }
    }
}

/// When the scan ends with an empty stack, appending the sentinel yields a
/// well-formed program.
proof fn lemma_final_wf(code: Seq<Operation>)
    requires
        scan_wf(code, Seq::<(usize, usize)>::empty()),
        code.len() < CODE_MAX_SIZE,
    ensures
        code_wf(code.push(Operation { opcode: Opcode::End, operand: 0 })),
{
    let full = code.push(Operation { opcode: Opcode::End, operand: 0 });
    assert forall|i: int| 0 <= i < full.len() implies crate::program::bracket_ok(full, i) by {
        if i < code.len() {
            if code[i].opcode == Opcode::LoopStart {
                assert(!in_stack(Seq::<(usize, usize)>::empty(), i));
                assert(matched_start(code, i));
                let p = code[i].operand as int;
                assert(full[p] == code[p]);
            } else if code[i].opcode == Opcode::LoopEnd {
                assert(matched_end(code, Seq::<(usize, usize)>::empty(), i));
                let p = code[i].operand as int;
                assert(full[p] == code[p]);
            }
            assert(full[i] == code[i]);
        } else {
            assert(full[i].opcode == Opcode::End);
        }
    }
}

/// Ok-results of the scan are well formed: from any intermediate state the
/// scan's invariant admits, a successful scan yields a sentinel-terminated,
/// fully bracket-linked program.
proof fn lemma_scan_ok_wf(
    src: Seq<char>,
    i: int,
    code: Seq<Operation>,
    stack: Seq<(usize, usize)>,
    full: Seq<Operation>,
)
    requires
        scan_wf(code, stack),
        scan(src, i, code, stack) == Ok::<Seq<Operation>, ParseError>(full),
    ensures
        code_wf(full),
    decreases src.len() - i,
{
    if i < 0 || i >= src.len() {
        assert(stack =~= Seq::<(usize, usize)>::empty());
        lemma_final_wf(code);
    } else if !is_command(src[i]) {
        lemma_scan_ok_wf(src, i + 1, code, stack, full);
    } else if src[i] == '[' {
        lemma_scan_wf_push_open(code, stack, i as usize);
        lemma_scan_ok_wf(
            src,
            i + 1,
            code.push(Operation { opcode: Opcode::LoopStart, operand: 0 }),
            stack.push((code.len() as usize, i as usize)),
            full,
        );
    } else if src[i] == ']' {
        lemma_scan_wf_close(code, stack);
        lemma_scan_ok_wf(
            src,
            i + 1,
            code.update(
                stack.last().0 as int,
                Operation { opcode: Opcode::LoopStart, operand: code.len() as usize },
            ).push(Operation { opcode: Opcode::LoopEnd, operand: stack.last().0 }),
            stack.drop_last(),
            full,
        );
    } else {
        lemma_scan_wf_push_plain(code, stack, op_of(src[i]));
        lemma_scan_ok_wf(src, i + 1, code.push(op_of(src[i])), stack, full);
    }
}

/// Every instruction sequence the parser accepts is well formed:
/// sentinel-terminated, within capacity, with every bracket pair
/// bidirectionally linked.
pub proof fn lemma_parse_ok_wf(src: Seq<char>, code: Seq<Operation>)
    requires
        spec_parse(src) == Ok::<Seq<Operation>, ParseError>(code),
    ensures
        code_wf(code),
{
    lemma_scan_ok_wf(src, 0, Seq::empty(), Seq::empty(), code);
}

/// Parsing is deterministic: one source scans to one result, so equal
/// sources always yield structurally identical instruction sequences (same
/// opcodes, same resolved jump targets) or identical errors.
pub proof fn lemma_parse_deterministic(src1: Seq<char>, src2: Seq<char>)
    requires
        src1 == src2,
    ensures
        spec_parse(src1) == spec_parse(src2),
{
}

/// The parser. It holds no state of its own; `parse` is a pure function of
/// the source text.
pub struct BrainfuckParser;

impl BrainfuckParser {
    /// Translate source text into a program in one left-to-right scan.
    ///
    /// On success the returned program is exactly what the scan specifies —
    /// sentinel-terminated and with every bracket pair bidirectionally
    /// linked — and on failure the error is the first one the scan meets.
    pub fn parse(codestring: &str) -> (r: Result<Program, ParseError>)
        ensures
            match r {
                Ok(p) => spec_parse(codestring@) == Ok::<Seq<Operation>, ParseError>(p@)
                    && p.wf(),
                Err(e) => spec_parse(codestring@) == Err::<Seq<Operation>, ParseError>(e),
            },
    {
        let n = codestring.unicode_len();
        let mut program = Program::new();
        let mut stack: Vec<(usize, usize)> = Vec::new();
        let mut i: usize = 0;
        while i < n
            invariant
                n == codestring@.len(),
                i <= n,
                spec_parse(codestring@) == scan(codestring@, i as int, program@, stack@),
                scan_wf(program@, stack@),
            decreases n - i,
        {
            let ghost code0 = program@;
            let ghost stack0 = stack@;
            let c = codestring.get_char(i);
            let is_cmd = c == '+' || c == '-' || c == '>' || c == '<' || c == '[' || c == ']'
                || c == '.' || c == ',';
            if is_cmd {
                if program.len() >= CODE_MAX_SIZE {
                    proof {
                        assert(scan(codestring@, i as int, code0, stack0) == Err::<
                            Seq<Operation>,
                            ParseError,
                        >(ParseError::ProgramTooLarge { position: i }));
                    }
                    return Err(ParseError::ProgramTooLarge { position: i });
                }
                if c == '[' {
                    let pc = program.len();
                    stack.push((pc, i));
                    program.push(Operation { opcode: Opcode::LoopStart, operand: 0 });
                    proof {
                        lemma_scan_wf_push_open(code0, stack0, i);
                    }
                } else if c == ']' {
                    match stack.pop() {
                        None => {
                            proof {
                                assert(scan(codestring@, i as int, code0, stack0) == Err::<
                                    Seq<Operation>,
                                    ParseError,
                                >(ParseError::UnmatchedCloseBracket { position: i }));
                            }
                            return Err(ParseError::UnmatchedCloseBracket { position: i });
                        },
                        Some(entry) => {
                            let j = entry.0;
                            let pc = program.len();
                            assert(stack0[stack0.len() - 1].0 < code0.len());
                            program.set(j, Operation { opcode: Opcode::LoopStart, operand: pc });
                            program.push(Operation { opcode: Opcode::LoopEnd, operand: j });
                            proof {
                                assert(stack@ =~= stack0.drop_last());
                                lemma_scan_wf_close(code0, stack0);
                            }
                        },
                    }
                } else {
                    let op = if c == '+' {
                        Operation { opcode: Opcode::IncrementCell, operand: 1 }
                    } else if c == '-' {
                        Operation { opcode: Opcode::DecrementCell, operand: 1 }
                    } else if c == '>' {
                        Operation { opcode: Opcode::MovePointerRight, operand: 1 }
                    } else if c == '<' {
                        Operation { opcode: Opcode::MovePointerLeft, operand: 1 }
                    } else if c == '.' {
                        Operation { opcode: Opcode::Output, operand: 0 }
                    } else {
                        Operation { opcode: Opcode::Input, operand: 0 }
                    };
                    proof {
                        assert(op == op_of(codestring@[i as int]));
                        lemma_scan_wf_push_plain(code0, stack0, op);
                    }
                    program.push(op);
                }
            }
            proof {
                assert(scan(codestring@, i as int, code0, stack0) == scan(
                    codestring@,
                    i + 1,
                    program@,
                    stack@,
                ));
            }
            i = i + 1;
        }
        if stack.len() > 0 {
            let top = stack[stack.len() - 1];
            return Err(ParseError::UnmatchedOpenBracket { position: top.1 });
        }
        if program.len() >= CODE_MAX_SIZE {
            return Err(ParseError::ProgramTooLarge { position: n });
        }
        proof {
            lemma_final_wf(program@);
        }
        program.push(Operation { opcode: Opcode::End, operand: 0 });
        Ok(program)
    }
}

} // verus!
