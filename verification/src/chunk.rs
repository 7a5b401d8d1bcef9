use vstd::prelude::*;

verus! {

/// The instructions of the bytecode machine.
#[derive(Debug, Clone, Copy, PartialEq, Eq, Structural)]
pub enum OpCode {
    OpConstant,
    OpReturn,
}

/// The byte that encodes an instruction.
pub open spec fn opcode_byte(op: OpCode) -> u8 {
    match op {
        OpCode::OpConstant => 0,
        OpCode::OpReturn => 1,
    }
}

/// The instruction that a byte encodes, if any.
pub open spec fn decode_byte(byte: u8) -> Option<OpCode> {
    if byte == 0 {
        Some(OpCode::OpConstant)
    } else if byte == 1 {
        Some(OpCode::OpReturn)
    } else {
        None
    }
}

impl OpCode {
    /// Decodes a byte into an instruction.
    pub fn from_u8(byte: u8) -> (res: Option<OpCode>)
        ensures
            res == decode_byte(byte),
    {
        match byte {
            0 => Some(OpCode::OpConstant),
            1 => Some(OpCode::OpReturn),
            _ => None,
        }
    }

    /// The byte that encodes this instruction.
    pub fn to_u8(self) -> (byte: u8)
        ensures
            byte == opcode_byte(self),
    {
        match self {
            OpCode::OpConstant => 0,
            OpCode::OpReturn => 1,
        }
    }
}

/// Decoding the byte of an instruction gives the instruction back.
pub proof fn law_opcode_round_trip(op: OpCode)
    ensures
        decode_byte(opcode_byte(op)) == Some(op),
{
}

/// A byte decodes to an instruction exactly when it is the byte of that
/// instruction.
pub proof fn law_opcode_bytes_unique(byte: u8, op: OpCode)
    ensures
        decode_byte(byte) == Some(op) <==> byte == opcode_byte(op),
{
}

/// The constants of a chunk, in the order they were added.
pub struct ValueArray<V> {
    values: Vec<V>,
}

impl<V> View for ValueArray<V> {
    type V = Seq<V>;

    closed spec fn view(&self) -> Seq<V> {
        self.values@
    }
}

impl<V> ValueArray<V> {
    pub fn new() -> (r: ValueArray<V>)
        ensures
            r@ == Seq::<V>::empty(),
    {
        ValueArray { values: Vec::new() }
    }

    /// Appends a value.
    pub fn write(&mut self, value: V)
        ensures
            final(self)@ == old(self)@.push(value),
    {
        self.values.push(value);
    }

    pub fn values(&self) -> (r: &[V])
        ensures
            r@ == self@,
    {
        self.values.as_slice()
    }
}

/// A chunk of bytecode: the bytes of its instructions and its constants.
pub struct Chunk<V> {
    code: Vec<u8>,
    constants: ValueArray<V>,
}

impl<V> Chunk<V> {
    /// The bytes of the code.
    pub closed spec fn code_view(&self) -> Seq<u8> {
        self.code@
    }

    /// The constants.
    pub closed spec fn constants_view(&self) -> Seq<V> {
        self.constants@
    }

    pub fn new() -> (r: Chunk<V>)
        ensures
            r.code_view() == Seq::<u8>::empty(),
            r.constants_view() == Seq::<V>::empty(),
    {
        Chunk { code: Vec::new(), constants: ValueArray::new() }
    }

    /// Appends a byte to the code. The line is accepted and not kept.
    pub fn write_byte(&mut self, byte: u8, line: u32)
        ensures
            final(self).code_view() == old(self).code_view().push(byte),
            final(self).constants_view() == old(self).constants_view(),
    {
        self.code.push(byte);
    }

    /// Appends the byte of an instruction to the code.
    pub fn write_opcode(&mut self, opcode: OpCode, line: u32)
        ensures
            final(self).code_view() == old(self).code_view().push(opcode_byte(opcode)),
            final(self).constants_view() == old(self).constants_view(),
    {
        self.write_byte(opcode.to_u8(), line);
    }

    /// Appends a constant and returns its index.
    pub fn add_constant(&mut self, value: V) -> (index: usize)
        requires
            old(self).constants_view().len() < usize::MAX,
        ensures
            final(self).constants_view() == old(self).constants_view().push(value),
            final(self).code_view() == old(self).code_view(),
            index == old(self).constants_view().len(),
    {
        self.constants.write(value);
        self.constants.values().len() - 1
    }

    pub fn code(&self) -> (r: &[u8])
        ensures
            r@ == self.code_view(),
    {
        self.code.as_slice()
    }

    pub fn constants(&self) -> (r: &[V])
        ensures
            r@ == self.constants_view(),
    {
        self.constants.values()
    }
}

// ---------------------------------------------------------------------------
// The machine.
// ---------------------------------------------------------------------------

/// How a run of the machine ended.
#[derive(Debug, Clone, Copy, PartialEq, Eq, Structural)]
pub enum InterpretResult {
    InterpretOk,
    InterpretCompileError,
    InterpretRuntimeError,
}

/// Where a run of the machine from instruction `ip` with stack `stack` ends:
/// how it ended, the value it returned (if it returned one) and the stack
/// left. `None` where the code runs out in the middle of an instruction or
/// names a constant that the chunk does not have.
pub open spec fn run_from<V>(code: Seq<u8>, constants: Seq<V>, ip: int, stack: Seq<V>) -> Option<
    (InterpretResult, Option<V>, Seq<V>),
>
    decreases code.len() - ip,
{
    if ip < 0 || ip >= code.len() {
        None
    } else {
        match decode_byte(code[ip]) {
            Some(OpCode::OpReturn) => if stack.len() == 0 {
                Some((InterpretResult::InterpretRuntimeError, None, stack))
            } else {
                Some((InterpretResult::InterpretOk, Some(stack.last()), stack.drop_last()))
            },
            Some(OpCode::OpConstant) => if ip + 1 < code.len() && (code[ip + 1] as int) < constants.len() {
                run_from(code, constants, ip + 2, stack.push(constants[code[ip + 1] as int]))
            } else {
                None
            },
            None => Some((InterpretResult::InterpretRuntimeError, None, stack)),
        }
    }
}

/// Whether the `j`-th instruction from `ip` is `OP_CONSTANT` (byte 0) naming
/// a constant that the chunk has.
pub open spec fn constant_at<V>(code: Seq<u8>, constants: Seq<V>, ip: int, j: int) -> bool {
    &&& 0 <= ip + 2 * j
    &&& ip + 2 * j + 1 < code.len()
    &&& code[ip + 2 * j] == 0
    &&& (code[ip + 2 * j + 1] as int) < constants.len()
}

/// The constant that the `j`-th instruction from `ip` pushes.
pub open spec fn pushed_constant<V>(code: Seq<u8>, constants: Seq<V>, ip: int, j: int) -> V {
    constants[code[ip + 2 * j + 1] as int]
}

/// `OP_RETURN` hands back the value pushed last: run from any stack, `k`
/// instructions `OP_CONSTANT` (at least one) followed by `OP_RETURN` (byte 1)
/// end well, return the constant that the last of them pushed, and leave the
/// stack it started with plus the constants pushed before that one.
pub proof fn law_return_gives_last_pushed<V>(code: Seq<u8>, constants: Seq<V>, ip: int, k: int, stack: Seq<V>)
    requires
        0 <= ip,
        1 <= k,
        ip + 2 * k < code.len(),
        forall|j: int| 0 <= j < k ==> #[trigger] constant_at(code, constants, ip, j),
        code[ip + 2 * k] == 1,
    ensures
        run_from(code, constants, ip, stack) == Some(
            (
                InterpretResult::InterpretOk,
                Some(pushed_constant(code, constants, ip, k - 1)),
                stack + Seq::new((k - 1) as nat, |j: int| pushed_constant(code, constants, ip, j)),
            ),
        ),
    decreases k,
{
    assert(constant_at(code, constants, ip, 0));
    let c0 = pushed_constant(code, constants, ip, 0);
    if k == 1 {
        assert(stack.push(c0).drop_last() =~= stack + Seq::new(0, |j: int| pushed_constant(code, constants, ip, j)));
    } else {
        assert forall|j: int| 0 <= j < k - 1 implies #[trigger] constant_at(code, constants, ip + 2, j) by {
            assert(constant_at(code, constants, ip, j + 1));
        }
        law_return_gives_last_pushed(code, constants, ip + 2, k - 1, stack.push(c0));
        assert(pushed_constant(code, constants, ip + 2, k - 2) == pushed_constant(code, constants, ip, k - 1));
        let rest = Seq::new((k - 2) as nat, |j: int| pushed_constant(code, constants, ip + 2, j));
        let all = Seq::new((k - 1) as nat, |j: int| pushed_constant(code, constants, ip, j));
        assert(stack.push(c0) + rest =~= stack + all) by {
            assert forall|j: int| 0 <= j < rest.len() implies rest[j] == all[j + 1] by {
                assert(pushed_constant(code, constants, ip + 2, j) == pushed_constant(code, constants, ip, j + 1));
            }
        }
    }
}

/// Whether a run from instruction `ip` stays inside the code: every
/// instruction it reaches is whole and names a constant that the chunk has.
pub open spec fn completes(code: Seq<u8>, constants_len: int, ip: int) -> bool
    decreases code.len() - ip,
{
    if ip < 0 || ip >= code.len() {
        false
    } else {
        match decode_byte(code[ip]) {
            Some(OpCode::OpConstant) => ip + 1 < code.len() && (code[ip + 1] as int) < constants_len
                && completes(code, constants_len, ip + 2),
            _ => true,
        }
    }
}

proof fn lemma_completes<V>(code: Seq<u8>, constants: Seq<V>, ip: int, stack: Seq<V>)
    ensures
        run_from(code, constants, ip, stack) is Some <==> completes(code, constants.len() as int, ip),
    decreases code.len() - ip,
{
    if 0 <= ip < code.len() {
        if decode_byte(code[ip]) == Some(OpCode::OpConstant) && ip + 1 < code.len() && (code[ip + 1] as int)
            < constants.len() {
            lemma_completes(code, constants, ip + 2, stack.push(constants[code[ip + 1] as int]));
        }
    }
}

/// Whether running the chunk stays inside its code (whatever the stack).
pub fn run_completes<V>(chunk: &Chunk<V>) -> (r: bool)
    ensures
        r <==> forall|stack: Seq<V>| #[trigger] run_from(chunk.code_view(), chunk.constants_view(), 0, stack) is Some,
{
    let code = chunk.code();
    let n = chunk.constants().len();
    let mut ip: usize = 0;
    while ip < code.len()
        invariant
            code@ == chunk.code_view(),
            n == chunk.constants_view().len(),
            completes(code@, n as int, 0) <==> completes(code@, n as int, ip as int),
        decreases code@.len() - ip,
    {
        if OpCode::from_u8(code[ip]) == Some(OpCode::OpConstant) {
            if ip + 1 < code.len() && (code[ip + 1] as usize) < n {
                ip = ip + 2;
            } else {
                proof {
                    assert forall|stack: Seq<V>| !(#[trigger] run_from(chunk.code_view(), chunk.constants_view(), 0, stack) is Some) by {
                        lemma_completes(code@, chunk.constants_view(), 0, stack);
                    }
                    assert(run_from(chunk.code_view(), chunk.constants_view(), 0, Seq::empty()) is None);
                }
                return false;
            }
        } else {
            proof {
                assert forall|stack: Seq<V>| #[trigger] run_from(chunk.code_view(), chunk.constants_view(), 0, stack) is Some by {
                    lemma_completes(code@, chunk.constants_view(), 0, stack);
                }
            }
            return true;
        }
    }
    proof {
        assert forall|stack: Seq<V>| !(#[trigger] run_from(chunk.code_view(), chunk.constants_view(), 0, stack) is Some) by {
            lemma_completes(code@, chunk.constants_view(), 0, stack);
        }
        assert(run_from(chunk.code_view(), chunk.constants_view(), 0, Seq::empty()) is None);
    }
    false
}

/// The bytecode machine: an instruction pointer and a stack of values.
pub struct VM<V> {
    ip: usize,
    stack: Vec<V>,
}

impl<V> VM<V> {
    pub closed spec fn stack_view(&self) -> Seq<V> {
        self.stack@
    }

    pub fn new() -> (r: VM<V>)
        ensures
            r.stack_view() == Seq::<V>::empty(),
    {
        VM { ip: 0, stack: Vec::new() }
    }
}

impl<V: Copy> VM<V> {
    /// Runs a chunk from its first instruction. Returns how the run ended
    /// and the value that `OP_RETURN` hands back, which the caller prints.
    pub fn interpret(&mut self, chunk: &Chunk<V>) -> (r: (InterpretResult, Option<V>))
        requires
            run_from(chunk.code_view(), chunk.constants_view(), 0, old(self).stack_view()) is Some,
        ensures
            ({
                let (res, value, stack) = run_from(chunk.code_view(), chunk.constants_view(), 0, old(self).stack_view())->0;
                r == (res, value) && final(self).stack_view() == stack
            }),
    {
        self.ip = 0;
        self.run(chunk)
    }

    fn run(&mut self, chunk: &Chunk<V>) -> (r: (InterpretResult, Option<V>))
        requires
            run_from(chunk.code_view(), chunk.constants_view(), old(self).ip as int, old(self).stack_view()) is Some,
        ensures
            ({
                let (res, value, stack) = run_from(
                    chunk.code_view(),
                    chunk.constants_view(),
                    old(self).ip as int,
                    old(self).stack_view(),
                )->0;
                r == (res, value) && final(self).stack_view() == stack
            }),
    {
        let code = chunk.code();
        let constants = chunk.constants();
        let ghost target = run_from(chunk.code_view(), chunk.constants_view(), self.ip as int, self.stack@);
        loop
            invariant
                code@ == chunk.code_view(),
                constants@ == chunk.constants_view(),
                run_from(code@, constants@, self.ip as int, self.stack@) == target,
                target is Some,
                target == run_from(chunk.code_view(), chunk.constants_view(), old(self).ip as int, old(self).stack_view()),
            decreases code@.len() - self.ip,
        {
            let byte = self.read_byte(code);
            match OpCode::from_u8(byte) {
                Some(OpCode::OpReturn) => {
                    match self.stack.pop() {
                        Some(value) => {
                            return (InterpretResult::InterpretOk, Some(value));
                        },
                        None => {
                            return (InterpretResult::InterpretRuntimeError, None);
                        },
                    }
                },
                Some(OpCode::OpConstant) => {
                    let constant = self.read_constant(constants, code);
                    self.stack.push(constant);
                },
                None => {
                    return (InterpretResult::InterpretRuntimeError, None);
                },
            }
        }
    }

    fn read_byte(&mut self, code: &[u8]) -> (byte: u8)
        requires
            old(self).ip < code@.len(),
        ensures
            byte == code@[old(self).ip as int],
            final(self).ip == old(self).ip + 1,
            final(self).stack@ == old(self).stack@,
    {
        let byte = code[self.ip];
        self.ip = self.ip + 1;
        byte
    }

    fn read_constant(&mut self, constants: &[V], code: &[u8]) -> (value: V)
        requires
            old(self).ip < code@.len(),
            (code@[old(self).ip as int] as int) < constants@.len(),
        ensures
            value == constants@[code@[old(self).ip as int] as int],
            final(self).ip == old(self).ip + 1,
            final(self).stack@ == old(self).stack@,
    {
        let index = self.read_byte(code);
        constants[index as usize]
    }
}

/// What an instruction of a chunk is, for a listing: its name and, for
/// `OP_CONSTANT`, the index of its constant.
#[derive(Debug, Clone, Copy, PartialEq, Eq, Structural)]
pub enum Disassembled {
    Simple,
    Constant(u8),
    Unknown(u8),
}

/// Reads the instruction at `offset` for a listing: what it is and the
/// offset of the next instruction.
pub fn disassemble_instruction<V>(chunk: &Chunk<V>, offset: usize) -> (r: (Disassembled, usize))
    requires
        offset < chunk.code_view().len(),
        decode_byte(chunk.code_view()[offset as int]) == Some(OpCode::OpConstant) ==> offset + 1
            < chunk.code_view().len(),
    ensures
        match decode_byte(chunk.code_view()[offset as int]) {
            Some(OpCode::OpReturn) => r == (Disassembled::Simple, (offset + 1) as usize),
            Some(OpCode::OpConstant) => r == (
                Disassembled::Constant(chunk.code_view()[offset + 1]),
                (offset + 2) as usize,
            ),
            None => r == (Disassembled::Unknown(chunk.code_view()[offset as int]), (offset + 1) as usize),
        },
{
    let code = chunk.code();
    match OpCode::from_u8(code[offset]) {
        Some(OpCode::OpReturn) => (Disassembled::Simple, offset + 1),
        Some(OpCode::OpConstant) => (Disassembled::Constant(code[offset + 1]), offset + 2),
        None => (Disassembled::Unknown(code[offset]), offset + 1),
    }
}

} // verus!
