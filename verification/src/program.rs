//! A program: an ordered, capacity-bounded sequence of instructions.

use vstd::prelude::*;

use crate::ops::CODE_MAX_SIZE;
use crate::ops::Opcode;
use crate::ops::Operation;

verus! {

/// Every bracket instruction at index `i` is linked bidirectionally with its
/// partner: a `LoopStart` names a later `LoopEnd` whose operand points back
/// at `i`, and a `LoopEnd` names an earlier `LoopStart` likewise.
pub open spec fn bracket_ok(code: Seq<Operation>, i: int) -> bool {
    &&& code[i].opcode == Opcode::LoopStart ==> {
        &&& i < code[i].operand < code.len()
        &&& code[code[i].operand as int].opcode == Opcode::LoopEnd
        &&& code[code[i].operand as int].operand == i
    }
    &&& code[i].opcode == Opcode::LoopEnd ==> {
        &&& code[i].operand < i
        &&& code[code[i].operand as int].opcode == Opcode::LoopStart
        &&& code[code[i].operand as int].operand == i
    }
}

/// A well-formed instruction sequence: within capacity, terminated by
/// exactly one `End` sentinel in the last slot, and with every bracket
/// instruction linked to its matching partner.
pub open spec fn code_wf(code: Seq<Operation>) -> bool {
    &&& 1 <= code.len() <= CODE_MAX_SIZE
    &&& code[code.len() - 1].opcode == Opcode::End
    &&& forall|i: int| 0 <= i < code.len() - 1 ==> (#[trigger] code[i]).opcode != Opcode::End
    &&& forall|i: int| 0 <= i < code.len() ==> bracket_ok(code, i)
}

/// An ordered sequence of instructions with a fixed maximum capacity.
///
/// Created by the parser from one source string and immutable thereafter;
/// a single `Program` may be reused across any number of runs.
pub struct Program {
    code: Vec<Operation>,
}

impl View for Program {
    type V = Seq<Operation>;

    closed spec fn view(&self) -> Seq<Operation> {
        self.code@
    }
}

impl Program {
    /// A program is well formed when its instruction sequence is.
    pub open spec fn wf(&self) -> bool {
        code_wf(self@)
    }

    /// An empty program, to be filled one instruction at a time.
    pub fn new() -> (p: Program)
        ensures
            p@ == Seq::<Operation>::empty(),
    {
        Program { code: Vec::new() }
    }

    /// The number of instruction slots currently filled.
    pub fn len(&self) -> (n: usize)
        ensures
            n == self@.len(),
    {
        self.code.len()
    }

    /// Overwrite the instruction at `location`.
    pub fn set(&mut self, location: usize, operation: Operation)
        requires
            location < old(self)@.len(),
        ensures
            final(self)@ == old(self)@.update(location as int, operation),
    {
        self.code[location] = operation;
    }

    /// Read the instruction at `location`.
    pub fn get(&self, location: usize) -> (operation: Operation)
        requires
            location < self@.len(),
        ensures
            operation == self@[location as int],
    {
        self.code[location]
    }

    /// Append an instruction in the next free slot.
    pub fn push(&mut self, operation: Operation)
        requires
            old(self)@.len() < CODE_MAX_SIZE,
        ensures
            final(self)@ == old(self)@.push(operation),
    {
        self.code.push(operation);
    }
}

} // verus!
