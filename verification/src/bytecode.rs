//! Bytecode units, their operands, and what the opcode table says of them.
use rustpython_compiler_core::bytecode::Instruction;
use vstd::prelude::*;

verus! {

pub const CACHE: u8 = 0;
pub const CALL_FUNCTION_EX: u8 = 4;
pub const END_FOR: u8 = 9;
pub const END_SEND: u8 = 10;
pub const NOP: u8 = 27;
pub const NOT_TAKEN: u8 = 28;
pub const POP_ITER: u8 = 30;
pub const POP_TOP: u8 = 31;
pub const RETURN_VALUE: u8 = 35;
pub const STORE_SUBSCR: u8 = 38;
pub const TO_BOOL: u8 = 39;
pub const UNARY_INVERT: u8 = 40;
pub const UNARY_NEGATIVE: u8 = 41;
pub const UNARY_NOT: u8 = 42;
pub const BINARY_OP: u8 = 44;
pub const CALL: u8 = 52;
pub const CALL_KW: u8 = 55;
pub const COMPARE_OP: u8 = 56;
pub const CONTAINS_OP: u8 = 57;
pub const COPY: u8 = 59;
pub const END_ASYNC_FOR: u8 = 68;
pub const EXTENDED_ARG: u8 = 69;
pub const FOR_ITER: u8 = 70;
pub const JUMP_BACKWARD: u8 = 75;
pub const JUMP_BACKWARD_NO_INTERRUPT: u8 = 76;
pub const JUMP_FORWARD: u8 = 77;
pub const LOAD_ATTR: u8 = 80;
pub const LOAD_CONST: u8 = 82;
pub const LOAD_FAST: u8 = 84;
pub const LOAD_FAST_BORROW: u8 = 86;
pub const LOAD_FAST_BORROW_LOAD_FAST_BORROW: u8 = 87;
pub const LOAD_FAST_CHECK: u8 = 88;
pub const LOAD_FAST_LOAD_FAST: u8 = 89;
pub const LOAD_GLOBAL: u8 = 92;
pub const LOAD_SMALL_INT: u8 = 94;
pub const LOAD_SUPER_ATTR: u8 = 96;
pub const POP_JUMP_IF_FALSE: u8 = 100;
pub const POP_JUMP_IF_NONE: u8 = 101;
pub const POP_JUMP_IF_NOT_NONE: u8 = 102;
pub const POP_JUMP_IF_TRUE: u8 = 103;
pub const SEND: u8 = 106;
pub const STORE_ATTR: u8 = 110;
pub const STORE_FAST: u8 = 112;
pub const STORE_FAST_LOAD_FAST: u8 = 113;
pub const STORE_FAST_STORE_FAST: u8 = 114;
pub const SWAP: u8 = 117;
pub const UNPACK_SEQUENCE: u8 = 119;
pub const YIELD_VALUE: u8 = 120;
pub const RESUME: u8 = 128;
pub const BINARY_OP_ADD_INT: u8 = 130;
pub const BINARY_OP_MULTIPLY_INT: u8 = 134;
pub const BINARY_OP_SUBTRACT_INT: u8 = 142;
pub const INSTRUMENTED_END_FOR: u8 = 234;

/// The bytes that number an opcode.
pub open spec fn is_opcode(op: u8) -> bool {
    op <= 120 || 128 <= op <= 211 || 234 <= op
}

/// The opcode that a specialized or instrumented opcode stands for; any other stands for
/// itself.
pub open spec fn base_op(op: u8) -> u8 {
    if op == 3 || 129 <= op <= 142 {
        BINARY_OP
    } else if 151 <= op <= 153 || op == 251 {
        CALL_KW
    } else if 143 <= op <= 165 || op == 250 {
        CALL
    } else if 166 <= op <= 168 {
        COMPARE_OP
    } else if 169 <= op <= 170 {
        CONTAINS_OP
    } else if 171 <= op <= 174 || op == 237 {
        FOR_ITER
    } else if 175 <= op <= 176 || op == 253 {
        JUMP_BACKWARD
    } else if 177 <= op <= 189 {
        LOAD_ATTR
    } else if 190 <= op <= 191 {
        LOAD_CONST
    } else if 192 <= op <= 193 {
        LOAD_GLOBAL
    } else if 194 <= op <= 195 || op == 249 {
        LOAD_SUPER_ATTR
    } else if op == 196 || op == 245 {
        RESUME
    } else if op == 197 {
        SEND
    } else if 198 <= op <= 200 {
        STORE_ATTR
    } else if 201 <= op <= 202 {
        STORE_SUBSCR
    } else if 203 <= op <= 208 {
        TO_BOOL
    } else if 209 <= op <= 211 {
        UNPACK_SEQUENCE
    } else if op == 234 {
        END_FOR
    } else if op == 235 {
        POP_ITER
    } else if op == 236 {
        END_SEND
    } else if op == 239 {
        JUMP_FORWARD
    } else if op == 240 {
        NOT_TAKEN
    } else if op == 241 {
        POP_JUMP_IF_TRUE
    } else if op == 242 {
        POP_JUMP_IF_FALSE
    } else if op == 243 {
        POP_JUMP_IF_NONE
    } else if op == 244 {
        POP_JUMP_IF_NOT_NONE
    } else if op == 246 {
        RETURN_VALUE
    } else if op == 247 {
        YIELD_VALUE
    } else if op == 248 {
        END_ASYNC_FOR
    } else if op == 252 {
        CALL_FUNCTION_EX
    } else {
        op
    }
}

/// How many cache units follow an instruction. Specialized and instrumented forms have as
/// many as the opcode they stand for.
pub open spec fn caches(op: u8) -> nat {
    let base = base_op(op);
    if base == LOAD_ATTR {
        9
    } else if base == BINARY_OP {
        5
    } else if base == LOAD_GLOBAL || base == STORE_ATTR {
        4
    } else if base == CALL || base == CALL_KW || base == TO_BOOL {
        3
    } else if base == COMPARE_OP || base == CONTAINS_OP || base == FOR_ITER || base == JUMP_BACKWARD
        || base == LOAD_SUPER_ATTR || base == POP_JUMP_IF_TRUE || base == POP_JUMP_IF_FALSE || base
        == POP_JUMP_IF_NONE || base == POP_JUMP_IF_NOT_NONE || base == SEND || base == STORE_SUBSCR
        || base == UNPACK_SEQUENCE {
        1
    } else {
        0
    }
}

/// Whether `Instruction::try_from` of `rustpython_compiler_core` takes the byte: it does for
/// the numbers of the plain opcodes, of the specialized ones with `RESUME` before them, and of
/// the instrumented ones with the last byte after them.
#[verifier::external_body]
fn names_instruction(op: u8) -> (r: bool)
    ensures
        r == is_opcode(op),
{
    Instruction::try_from(op).is_ok()
}

/// The number of what `Instruction::deoptimize` of `rustpython_compiler_core` returns for the
/// instruction with number `op`: the opcode that `base_op` lists.
#[verifier::external_body]
fn deoptimize(op: u8) -> (r: u8)
    requires
        is_opcode(op),
    ensures
        r == base_op(op),
{
    u8::from(Instruction::try_from(op).unwrap().deoptimize())
}

/// What `Instruction::cache_entries` of `rustpython_compiler_core` returns for the instruction
/// with number `op`: the count that `caches` lists.
#[verifier::external_body]
fn cache_entries(op: u8) -> (r: usize)
    requires
        is_opcode(op),
    ensures
        r == caches(op),
{
    Instruction::try_from(op).unwrap().cache_entries()
}

/// One unit of bytecode: the number of an instruction and one byte of operand.
#[derive(Copy, Clone, Debug, PartialEq, Eq, Structural)]
pub struct CodeUnit {
    pub op: u8,
    pub arg: u8,
}

impl CodeUnit {
    /// The unit names an instruction.
    pub open spec fn wf(self) -> bool {
        is_opcode(self.op)
    }

    /// A unit, if `op` is the number of an instruction.
    pub fn new(op: u8, arg: u8) -> (r: Option<CodeUnit>)
        ensures
            r == (if is_opcode(op) {
                Some(CodeUnit { op, arg })
            } else {
                None
            }),
    {
        if names_instruction(op) {
            Some(CodeUnit { op, arg })
        } else {
            None
        }
    }

    /// The opcode that the unit's opcode stands for.
    pub fn base(&self) -> (r: u8)
        requires
            self.wf(),
        ensures
            r == base_op(self.op),
    {
        deoptimize(self.op)
    }

    /// How many cache units follow the unit.
    pub fn cache_entries(&self) -> (r: usize)
        requires
            self.wf(),
        ensures
            r == caches(self.op),
            r <= 9,
    {
        cache_entries(self.op)
    }
}

/// The operand so far with one byte more behind it; the oldest byte of four drops out.
pub open spec fn widen(state: u32, arg: u8) -> u32 {
    (state % 0x100_0000 * 0x100 + arg) as u32
}

/// The operand bytes that `EXTENDED_ARG` units have put in front of the next instruction.
pub struct OpArgState {
    state: u32,
}

impl OpArgState {
    pub closed spec fn pending(self) -> u32 {
        self.state
    }

    pub fn new() -> (r: Self)
        ensures
            r.pending() == 0,
    {
        OpArgState { state: 0 }
    }

    /// The opcode of the unit and its full operand. Any unit but `EXTENDED_ARG` uses the
    /// bytes up.
    pub fn get(&mut self, unit: CodeUnit) -> (r: (u8, u32))
        ensures
            r.0 == unit.op,
            r.1 == widen(old(self).pending(), unit.arg),
            final(self).pending() == (if unit.op == EXTENDED_ARG {
                r.1
            } else {
                0
            }),
    {
        let arg: u32 = self.state % 0x100_0000 * 0x100 + unit.arg as u32;
        self.state = if unit.op == EXTENDED_ARG {
            arg
        } else {
            0
        };
        (unit.op, arg)
    }
}

} // verus!
