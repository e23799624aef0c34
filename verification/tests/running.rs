//! Runs assembled and compiled code on a small machine.
use rustpython_compiler_core::bytecode::{Arg, BinaryOperator, ComparisonOperator, Instruction};
use std::cell::RefCell;
use std::collections::HashMap;
use tier2::assembler::{Assembler, Reg};
use tier2::bytecode::CodeUnit;
use tier2::codegen::{
    checked_compile, compile, resume_at, CompileError, Compiled, Env, HelperId, HelperTable, Image,
    JitContext, BORROW_TAG, BREAKER_INTERVAL, FAST_PATH_MISS,
};
use tier2::exec::{Abi, ExecError, ExecMemory, Mapping, Outcome};

const RSP: usize = 4;
const CODE: u64 = 0x40_0000;
const STACK: u64 = 0x7000_0000;
const HEAP: u64 = 0x10_0000;
const HOST: u64 = 0x6000_0000;
const DONE: u64 = 0x1234_5678;

/// Memory, shared by the machine and the host.
struct World {
    bytes: RefCell<HashMap<u64, u8>>,
    next: RefCell<u64>,
}

impl World {
    fn new() -> World {
        World { bytes: RefCell::new(HashMap::new()), next: RefCell::new(HEAP) }
    }

    fn take(&self, n: u64) -> u64 {
        let mut next = self.next.borrow_mut();
        let at = *next;
        *next += (n + 15) / 16 * 16;
        at
    }

    fn byte(&self, at: u64) -> u8 {
        *self.bytes.borrow().get(&at).unwrap_or(&0)
    }

    fn get(&self, at: u64, n: u64) -> u64 {
        (0..n).fold(0, |v, i| v | (self.byte(at.wrapping_add(i)) as u64) << (8 * i))
    }

    fn set(&self, at: u64, n: u64, v: u64) {
        let mut bytes = self.bytes.borrow_mut();
        for i in 0..n {
            bytes.insert(at.wrapping_add(i), (v >> (8 * i)) as u8);
        }
    }

    fn obj(&self, rc: u64) -> Obj<'_> {
        let at = self.take(8);
        self.set(at, 8, rc);
        Obj { w: self, at }
    }
}

struct Obj<'a> {
    w: &'a World,
    at: u64,
}

impl Obj<'_> {
    fn ptr(&self) -> u64 {
        self.at
    }

    fn rc(&self) -> u64 {
        self.w.get(self.at, 8)
    }

    fn set_rc(&self, rc: u64) {
        self.w.set(self.at, 8, rc)
    }
}

struct Cpu<'a> {
    w: &'a World,
    r: [u64; 16],
    zf: bool,
    sf: bool,
    rip: u64,
}

enum Rm {
    Reg(usize),
    Mem(u64),
}

impl Cpu<'_> {
    fn fetch(&mut self, n: u64) -> u64 {
        let v = self.w.get(self.rip, n);
        self.rip += n;
        v
    }

    fn fetch_i32(&mut self) -> u64 {
        self.fetch(4) as u32 as i32 as i64 as u64
    }

    fn rm(&mut self, rex: u64) -> (usize, Rm) {
        let modrm = self.fetch(1);
        let reg = (modrm >> 3 & 7 | (rex >> 2 & 1) << 3) as usize;
        let low = modrm & 7;
        let mode = modrm >> 6;
        if mode == 3 {
            return (reg, Rm::Reg((low | (rex & 1) << 3) as usize));
        }
        let base = if low == 4 {
            let sib = self.fetch(1);
            let base = self.r[(sib & 7 | (rex & 1) << 3) as usize];
            let index = (sib >> 3 & 7 | (rex >> 1 & 1) << 3) as usize;
            if index == RSP {
                base
            } else {
                base.wrapping_add(self.r[index] << (sib >> 6))
            }
        } else {
            self.r[(low | (rex & 1) << 3) as usize]
        };
        let disp = match mode {
            1 => self.fetch(1) as u8 as i8 as i64 as u64,
            2 => self.fetch_i32(),
            _ => panic!("operand form {mode}"),
        };
        (reg, Rm::Mem(base.wrapping_add(disp)))
    }

    fn read(&self, p: &Rm, n: u64) -> u64 {
        match p {
            Rm::Reg(r) => self.r[*r],
            Rm::Mem(a) => self.w.get(*a, n),
        }
    }

    fn write(&mut self, p: &Rm, n: u64, v: u64) {
        match p {
            Rm::Reg(r) => self.r[*r] = v,
            Rm::Mem(a) => self.w.set(*a, n, v),
        }
    }

    fn flags(&mut self, v: u64) -> u64 {
        self.zf = v == 0;
        self.sf = (v as i64) < 0;
        v
    }

    fn alu(&mut self, op: u64, p: &Rm, b: u64) {
        let a = self.read(p, 8);
        let v = match op {
            0 => a.wrapping_add(b),
            1 => a | b,
            4 => a & b,
            5 | 7 => a.wrapping_sub(b),
            _ => panic!("operation {op}"),
        };
        self.flags(v);
        if op != 7 {
            self.write(p, 8, v);
        }
    }

    fn push(&mut self, v: u64) {
        self.r[RSP] -= 8;
        self.w.set(self.r[RSP], 8, v);
    }

    fn pop(&mut self) -> u64 {
        let v = self.w.get(self.r[RSP], 8);
        self.r[RSP] += 8;
        v
    }

    fn cond(&self, c: u64) -> bool {
        match c {
            4 => self.zf,
            5 => !self.zf,
            8 => self.sf,
            9 => !self.sf,
            _ => panic!("condition {c}"),
        }
    }

    fn step(&mut self) {
        let mut op = self.fetch(1);
        let lock = op == 0xF0;
        if lock {
            op = self.fetch(1);
        }
        let mut rex = 0;
        if op & 0xF0 == 0x40 {
            rex = op;
            op = self.fetch(1);
        }
        let wide = if rex & 8 != 0 { 8 } else { 4 };
        match op {
            0x89 => {
                let (reg, p) = self.rm(rex);
                let v = self.r[reg];
                self.write(&p, wide, v);
            }
            0x8B => {
                let (reg, p) = self.rm(rex);
                self.r[reg] = self.read(&p, wide);
            }
            0x01 | 0x09 | 0x21 | 0x29 | 0x39 => {
                let (reg, p) = self.rm(rex);
                let b = self.r[reg];
                self.alu(op >> 3, &p, b);
            }
            0x85 => {
                let (reg, p) = self.rm(rex);
                let v = self.read(&p, 8) & self.r[reg];
                self.flags(v);
            }
            0x81 => {
                let (digit, p) = self.rm(rex & !4);
                let imm = self.fetch_i32();
                self.alu(digit as u64, &p, imm);
            }
            0xC7 => {
                let (_, p) = self.rm(rex);
                let imm = self.fetch_i32();
                self.write(&p, 8, imm);
            }
            0xC1 => {
                let (digit, p) = self.rm(rex & !4);
                let n = self.fetch(1) & 63;
                let a = self.read(&p, 8);
                let v = match digit {
                    4 => a << n,
                    5 => a >> n,
                    7 => (a as i64 >> n) as u64,
                    _ => panic!("shift {digit}"),
                };
                if n != 0 {
                    self.flags(v);
                }
                self.write(&p, 8, v);
            }
            0xB8..=0xBF => {
                let r = (op & 7 | (rex & 1) << 3) as usize;
                self.r[r] = self.fetch(8);
            }
            0x50..=0x57 => {
                let v = self.r[(op & 7 | (rex & 1) << 3) as usize];
                self.push(v);
            }
            0x58..=0x5F => {
                let v = self.pop();
                self.r[(op & 7 | (rex & 1) << 3) as usize] = v;
            }
            0xFF => {
                let (digit, p) = self.rm(rex & !4);
                let to = self.read(&p, 8);
                if digit == 2 {
                    let back = self.rip;
                    self.push(back);
                }
                self.rip = to;
            }
            0xC3 => self.rip = self.pop(),
            0xE9 => {
                let rel = self.fetch_i32();
                self.rip = self.rip.wrapping_add(rel);
            }
            0x0F => {
                let second = self.fetch(1);
                match second {
                    0xAF => {
                        let (reg, p) = self.rm(rex);
                        self.r[reg] = self.r[reg].wrapping_mul(self.read(&p, 8));
                    }
                    0xC1 => {
                        let (reg, p) = self.rm(rex);
                        let a = self.read(&p, 8);
                        let v = a.wrapping_add(self.r[reg]);
                        self.r[reg] = a;
                        let v = self.flags(v);
                        self.write(&p, 8, v);
                    }
                    0x80..=0x8F => {
                        let rel = self.fetch_i32();
                        if self.cond(second & 15) {
                            self.rip = self.rip.wrapping_add(rel);
                        }
                    }
                    _ => panic!("opcode 0F {second:x}"),
                }
            }
            _ => panic!("opcode {op:x}"),
        }
    }
}

fn number(r: Reg) -> usize {
    match r {
        Reg::Rcx => 1,
        Reg::Rdx => 2,
        Reg::Rsi => 6,
        Reg::Rdi => 7,
        _ => panic!("no argument register"),
    }
}

/// Calls code with two arguments. Every other register holds junk, a host call spoils what
/// it may, and what a callee keeps must be kept.
fn call(
    w: &World,
    code: &[u8],
    abi: Abi,
    args: (u64, u64),
    host: &mut dyn FnMut(u64, u64, u64) -> u64,
) -> u64 {
    for (i, b) in code.iter().enumerate() {
        w.set(CODE + i as u64, 1, *b as u64);
    }
    let mut r = [0xDEAD_0000u64; 16];
    for (i, v) in r.iter_mut().enumerate() {
        *v += i as u64;
    }
    r[RSP] = STACK - 8;
    w.set(r[RSP], 8, DONE);
    r[number(abi.arg0())] = args.0;
    r[number(abi.arg1())] = args.1;
    let kept = r;
    let mut cpu = Cpu { w, r, zf: false, sf: false, rip: CODE };
    let mut steps = 0;
    while cpu.rip != DONE {
        steps += 1;
        assert!(steps < 1_000_000);
        if cpu.rip >= HOST && cpu.rip < HOST + 0x1000 {
            assert_eq!(cpu.r[RSP] % 16, 8);
            let a = cpu.r[number(abi.arg0())];
            let b = cpu.r[number(abi.arg1())];
            let v = host(cpu.rip, a, b);
            for i in [1, 2, 6, 7, 8, 9, 10, 11] {
                if abi == Abi::SystemV || (i != 6 && i != 7) {
                    cpu.r[i] = 0xBAD0_0000 + i as u64;
                }
            }
            cpu.r[0] = v;
            cpu.rip = cpu.pop();
        } else {
            cpu.step();
        }
    }
    assert_eq!(cpu.r[RSP], STACK);
    for i in [3, 5, 12, 13, 14, 15] {
        assert_eq!(cpu.r[i], kept[i]);
    }
    if abi == Abi::Windows {
        assert_eq!((cpu.r[6], cpu.r[7]), (kept[6], kept[7]));
    }
    cpu.r[0]
}

fn no_host(_: u64, _: u64, _: u64) -> u64 {
    panic!("unexpected call")
}

/// Takes the code through its mapping, at the address the machine runs it from.
fn map(code: &[u8]) -> ExecMemory {
    match ExecMemory::new(code).step(Outcome::Reserved(CODE as usize)).step(Outcome::Sealed) {
        Mapping::Mapped(mem) => mem,
        other => panic!("{other:?}"),
    }
}

#[test]
fn runs_return_constant() {
    let mut a = Assembler::new();
    a.mov_ri(Reg::Rax, 42);
    a.ret();
    let code = a.finish();
    let mem = map(&code);
    assert_eq!(mem.as_ptr() as u64, CODE);
    assert_eq!(call(&World::new(), &code, Abi::SystemV, (0, 0), &mut no_host), 42);
}

#[test]
fn first_argument_arrives_in_abi_register() {
    for abi in [Abi::SystemV, Abi::Windows] {
        let mut a = Assembler::new();
        a.mov_rr(Reg::Rax, abi.arg0());
        a.add_ri(Reg::Rax, 1);
        a.ret();
        let code = a.finish();
        assert_eq!(map(&code).size(), 4096);
        assert_eq!(call(&World::new(), &code, abi, (41, 0), &mut no_host), 42);
    }
}

#[test]
fn calls_rust_helper_with_shadow_space() {
    for abi in [Abi::SystemV, Abi::Windows] {
        let mut a = Assembler::new();
        a.push(Reg::Rbx);
        a.sub_ri(Reg::Rsp, abi.shadow_space());
        a.mov_rr(Reg::Rbx, abi.arg0());
        a.mov_rr(abi.arg0(), Reg::Rbx);
        a.mov_ri(Reg::Rax, HOST);
        a.call_r(Reg::Rax);
        a.add_rr(Reg::Rax, Reg::Rbx);
        a.add_ri(Reg::Rsp, abi.shadow_space());
        a.pop(Reg::Rbx);
        a.ret();
        let code = a.finish();
        assert_eq!(map(&code).size(), 4096);
        let mut helper = |_: u64, x: u64, _: u64| x * 3;
        assert_eq!(call(&World::new(), &code, abi, (10, 0), &mut helper), 40);
    }
}

#[test]
fn empty_code_is_rejected() {
    assert_eq!(ExecMemory::new(&[]), Mapping::Failed(ExecError::Empty));
}

#[test]
fn mapping_takes_whole_pages() {
    assert_eq!(ExecMemory::new(&[0]), Mapping::Reserve { size: 4096 });
    assert_eq!(ExecMemory::new(&[0; 4096]), Mapping::Reserve { size: 4096 });
    assert_eq!(ExecMemory::new(&[0; 4097]), Mapping::Reserve { size: 8192 });
}

#[test]
fn refused_memory_is_an_os_error() {
    let m = ExecMemory::new(&[0xC3]);
    assert_eq!(m.step(Outcome::Refused(Some(12))), Mapping::Failed(ExecError::Os(12)));
    assert_eq!(m.step(Outcome::Refused(None)), Mapping::Failed(ExecError::Os(0)));
}

#[test]
fn memory_that_cannot_be_sealed_is_released() {
    let m = ExecMemory::new(&[0xC3]).step(Outcome::Reserved(0x5000));
    assert_eq!(m, Mapping::Seal { addr: 0x5000, size: 4096 });
    let m = m.step(Outcome::Refused(Some(13)));
    let error = ExecError::Os(13);
    assert_eq!(m, Mapping::Release { addr: 0x5000, size: 4096, error });
    assert_eq!(m.step(Outcome::Released), Mapping::Failed(error));
}

#[test]
fn error_messages() {
    assert_eq!(ExecError::Empty.message(), "no code to map");
    assert_eq!(ExecError::Os(0).message(), "os error 0");
    assert_eq!(ExecError::Os(12).message(), "os error 12");
    assert_eq!(ExecError::Os(-105).message(), "os error -105");
    assert_eq!(ExecError::Os(i32::MIN).message(), "os error -2147483648");
    assert_eq!(CompileError::from(ExecError::Os(7)), CompileError::Exec(ExecError::Os(7)));
    assert_eq!(CompileError::Exec(ExecError::Os(1234567890)).message(), "os error 1234567890");
}

const LEAKED: u64 = 1 << 61;

struct Frame<'a> {
    w: &'a World,
    data: u64,
    top: u64,
    nlocalsplus: u64,
}

impl Frame<'_> {
    fn new(w: &World, nlocalsplus: u64, stacksize: u64) -> Frame<'_> {
        let data = w.take(8 * (nlocalsplus + stacksize));
        let top = w.take(4);
        Frame { w, data, top, nlocalsplus }
    }

    fn slot(&self, i: u64) -> u64 {
        self.w.get(self.data + 8 * i, 8)
    }

    fn set(&self, i: u64, v: u64) {
        self.w.set(self.data + 8 * i, 8, v)
    }

    fn stack_top(&self) -> u64 {
        self.w.get(self.top, 4)
    }

    fn push(&self, v: u64) {
        self.set(self.nlocalsplus + self.stack_top(), v);
        self.w.set(self.top, 4, self.stack_top() + 1);
    }

    fn stack(&self) -> Vec<u64> {
        (0..self.stack_top()).map(|i| self.slot(self.nlocalsplus + i)).collect()
    }
}

const IDS: [HelperId; HelperId::COUNT] = [
    HelperId::LoadFast,
    HelperId::LoadFastLoadFast,
    HelperId::StoreFast,
    HelperId::StoreFastLoadFast,
    HelperId::StoreFastStoreFast,
    HelperId::LoadConst,
    HelperId::LoadSmallInt,
    HelperId::LoadGlobal,
    HelperId::BinaryOp,
    HelperId::CompareOp,
    HelperId::ToBool,
    HelperId::UnaryNot,
    HelperId::UnaryNegative,
    HelperId::UnaryInvert,
    HelperId::PopIsTrue,
    HelperId::PopIsNone,
    HelperId::PopTop,
    HelperId::Copy,
    HelperId::Swap,
    HelperId::ForIter,
    HelperId::EvalBreaker,
    HelperId::Drop,
    HelperId::CompareFast,
    HelperId::BinaryOpIntFast,
];

fn table() -> HelperTable {
    let mut t = HelperTable::new(HOST + 0x800);
    for (i, id) in IDS.iter().enumerate() {
        t.set(*id, HOST + i as u64);
    }
    t
}

struct Singletons<'a> {
    t: Obj<'a>,
    f: Obj<'a>,
    n: Obj<'a>,
    five: Obj<'a>,
}

fn singletons(w: &World) -> Singletons<'_> {
    Singletons {
        t: w.obj(LEAKED | 1),
        f: w.obj(LEAKED | 1),
        n: w.obj(LEAKED | 1),
        five: w.obj(LEAKED | 1),
    }
}

type Calls = Vec<(HelperId, u64)>;

fn image_of(units: &[CodeUnit], s: &Singletons, abi: Abi) -> Image {
    let five = s.five.ptr();
    let small_int = move |i: i32| if i == 5 { Some(five) } else { None };
    let env = Env {
        refcount_offset: 0,
        true_ptr: s.t.ptr(),
        false_ptr: s.f.ptr(),
        none_ptr: s.n.ptr(),
        small_int,
    };
    checked_compile(units, &table(), &env, abi).expect("compile")
}

fn run_abi(
    units: &[CodeUnit],
    entry: usize,
    script: Vec<i64>,
    frame: &Frame,
    s: &Singletons,
    abi: Abi,
) -> (u32, Calls) {
    let w = frame.w;
    let image = image_of(units, s, abi);
    let code = image.code.clone();
    let compiled = Compiled::new(image, Ok(map(&code))).unwrap();
    assert_eq!(compiled.len(), units.len());
    assert_eq!(compiled.address() as u64, CODE);
    let ctx = JitContext::new(0, frame.data, frame.top, frame.nlocalsplus);
    let at = w.take(40);
    w.set(at, 8, ctx.user);
    w.set(at + 8, 8, ctx.locals);
    w.set(at + 16, 8, ctx.stack_top);
    w.set(at + 24, 8, ctx.nlocalsplus);
    w.set(at + 32, 8, ctx.breaker_countdown);
    let mut calls: Calls = vec![];
    let mut script = script.into_iter();
    let mut host = |address: u64, ctx: u64, arg: u64| {
        assert_eq!(ctx, at);
        let id = IDS[(address - HOST) as usize];
        calls.push((id, arg));
        let r = script.next().unwrap_or(0);
        let pops = match id {
            HelperId::PopIsTrue | HelperId::BinaryOp => 1,
            HelperId::BinaryOpIntFast if r == 0 => 1,
            _ => 0,
        };
        w.set(frame.top, 4, frame.stack_top() - pops);
        r as u64
    };
    let target = compiled.target(entry) as u64;
    let returned = call(w, &code, abi, (at, target), &mut host);
    (resume_at(returned), calls)
}

fn run_with(
    units: &[CodeUnit],
    entry: usize,
    script: Vec<i64>,
    frame: &Frame,
    s: &Singletons,
) -> (u32, Calls) {
    run_abi(units, entry, script, frame, s, Abi::SystemV)
}

fn run(units: &[CodeUnit], entry: usize, script: Vec<i64>) -> (u32, Calls) {
    let w = World::new();
    let frame = Frame::new(&w, 4, 8);
    let s = singletons(&w);
    run_with(units, entry, script, &frame, &s)
}

fn u(op: Instruction, arg: u8) -> CodeUnit {
    CodeUnit::new(u8::from(op), arg).unwrap()
}

fn caches(op: Instruction) -> u8 {
    op.cache_entries() as u8
}

fn with_caches(op: Instruction, arg: u8) -> Vec<CodeUnit> {
    let mut v = vec![u(op, arg)];
    for _ in 0..caches(op) {
        v.push(u(Instruction::Cache, 0));
    }
    v
}

const LOAD_FAST: Instruction = Instruction::LoadFast { var_num: Arg::marker() };
const STORE_FAST: Instruction = Instruction::StoreFast { var_num: Arg::marker() };
const LOAD_SMALL_INT: Instruction = Instruction::LoadSmallInt { i: Arg::marker() };
const BINARY_OP: Instruction = Instruction::BinaryOp { op: Arg::marker() };
const POP_JUMP_IF_FALSE: Instruction = Instruction::PopJumpIfFalse { delta: Arg::marker() };
const POP_JUMP_IF_TRUE: Instruction = Instruction::PopJumpIfTrue { delta: Arg::marker() };
const POP_JUMP_IF_NONE: Instruction = Instruction::PopJumpIfNone { delta: Arg::marker() };
const POP_JUMP_IF_NOT_NONE: Instruction = Instruction::PopJumpIfNotNone { delta: Arg::marker() };
const JUMP_BACKWARD: Instruction = Instruction::JumpBackward { delta: Arg::marker() };
const JUMP_FORWARD: Instruction = Instruction::JumpForward { delta: Arg::marker() };
const FOR_ITER: Instruction = Instruction::ForIter { delta: Arg::marker() };
const CALL: Instruction = Instruction::Call { argc: Arg::marker() };
const COMPARE_OP: Instruction = Instruction::CompareOp { opname: Arg::marker() };
const RETURN: Instruction = Instruction::ReturnValue;

fn ids(calls: &[(HelperId, u64)]) -> Vec<HelperId> {
    calls.iter().map(|c| c.0).collect()
}

#[test]
fn load_fast_pushes_owned_clone_without_helper() {
    let w = World::new();
    let a = w.obj(1);
    let frame = Frame::new(&w, 2, 4);
    frame.set(0, a.ptr());
    let s = singletons(&w);
    let units = [u(LOAD_FAST, 0), u(RETURN, 0)];
    let (lasti, calls) = run_with(&units, 0, vec![], &frame, &s);
    assert_eq!(lasti, 1);
    assert!(calls.is_empty());
    assert_eq!(frame.stack(), [a.ptr()]);
    assert_eq!(a.rc(), 2);
}

#[test]
fn load_fast_of_empty_slot_goes_to_helper() {
    let units = [u(LOAD_FAST, 1), u(RETURN, 0)];
    let (lasti, calls) = run(&units, 0, vec![-1]);
    assert_eq!(lasti, 1);
    assert_eq!(calls, [(HelperId::LoadFast, 1)]);
}

#[test]
fn store_fast_replaces_slot_and_releases_old_value() {
    let w = World::new();
    let a = w.obj(1);
    let b = w.obj(2);
    let frame = Frame::new(&w, 2, 4);
    frame.set(0, b.ptr());
    frame.push(a.ptr());
    let s = singletons(&w);
    let units = [u(STORE_FAST, 0), u(RETURN, 0)];
    let (_, calls) = run_with(&units, 0, vec![], &frame, &s);
    assert!(calls.is_empty());
    assert_eq!(frame.stack_top(), 0);
    assert_eq!(frame.slot(0), a.ptr());
    assert_eq!(a.rc(), 1);
    assert_eq!(b.rc(), 1);
}

#[test]
fn store_fast_drops_old_value_when_its_count_hits_zero() {
    let w = World::new();
    let a = w.obj(1);
    let b = w.obj(1);
    let frame = Frame::new(&w, 2, 4);
    frame.set(0, b.ptr());
    frame.push(a.ptr());
    let s = singletons(&w);
    let units = [u(STORE_FAST, 0), u(RETURN, 0)];
    let (_, calls) = run_with(&units, 0, vec![], &frame, &s);
    assert_eq!(calls, [(HelperId::Drop, b.ptr())]);
    assert_eq!(b.rc(), 0);
}

#[test]
fn store_fast_never_drops_leaked_objects() {
    let w = World::new();
    let a = w.obj(1);
    let b = w.obj(LEAKED | 1);
    let frame = Frame::new(&w, 2, 4);
    frame.set(0, b.ptr());
    frame.push(a.ptr());
    let s = singletons(&w);
    let units = [u(STORE_FAST, 0), u(RETURN, 0)];
    let (_, calls) = run_with(&units, 0, vec![], &frame, &s);
    assert!(calls.is_empty());
    assert_eq!(b.rc(), LEAKED);
}

#[test]
fn store_fast_promotes_borrowed_values() {
    let w = World::new();
    let a = w.obj(1);
    let frame = Frame::new(&w, 2, 4);
    frame.push(a.ptr() | BORROW_TAG);
    let s = singletons(&w);
    let units = [u(STORE_FAST, 1), u(RETURN, 0)];
    run_with(&units, 0, vec![], &frame, &s);
    assert_eq!(frame.slot(1), a.ptr());
    assert_eq!(a.rc(), 2);
}

#[test]
fn pop_top_releases_owned_but_not_borrowed_or_null() {
    let w = World::new();
    let a = w.obj(1);
    let b = w.obj(1);
    let frame = Frame::new(&w, 1, 4);
    frame.push(a.ptr());
    frame.push(b.ptr() | BORROW_TAG);
    frame.push(0);
    let s = singletons(&w);
    let units = [
        u(Instruction::PopTop, 0),
        u(Instruction::PopTop, 0),
        u(Instruction::PopTop, 0),
        u(RETURN, 0),
    ];
    let (_, calls) = run_with(&units, 0, vec![], &frame, &s);
    assert_eq!(calls, [(HelperId::Drop, a.ptr())]);
    assert_eq!(frame.stack_top(), 0);
    assert_eq!(b.rc(), 1);
}

#[test]
fn load_small_int_pushes_borrowed_pointer_when_interned() {
    let w = World::new();
    let frame = Frame::new(&w, 1, 4);
    let s = singletons(&w);
    let units = [u(LOAD_SMALL_INT, 5), u(LOAD_SMALL_INT, 7), u(RETURN, 0)];
    let (_, calls) = run_with(&units, 0, vec![], &frame, &s);
    assert_eq!(calls, [(HelperId::LoadSmallInt, 7)]);
    assert_eq!(frame.stack(), [s.five.ptr() | BORROW_TAG]);
}

fn branchy(op: Instruction) -> (Vec<CodeUnit>, u32) {
    let mut v = vec![];
    let pj = v.len();
    v.extend(with_caches(op, 0));
    v.push(u(LOAD_SMALL_INT, 5));
    v.push(u(Instruction::PopTop, 0));
    let ret = v.len();
    v.push(u(RETURN, 0));
    let after = pj + 1 + caches(op) as usize;
    v[pj].arg = (ret - after) as u8;
    (v, ret as u32)
}

#[test]
fn pop_jump_if_false_on_bool_singletons_needs_no_helper() {
    let w = World::new();
    let s = singletons(&w);
    let (units, ret) = branchy(POP_JUMP_IF_FALSE);
    for (value, expect_body) in [
        (s.f.ptr() | BORROW_TAG, false),
        (s.t.ptr() | BORROW_TAG, true),
        (s.f.ptr(), false),
        (s.t.ptr(), true),
    ] {
        let frame = Frame::new(&w, 1, 4);
        frame.push(value);
        let (lasti, calls) = run_with(&units, 0, vec![], &frame, &s);
        assert_eq!(lasti, ret);
        assert!(calls.is_empty());
        assert_eq!(frame.stack_top(), 0);
        let body_ran = frame.slot(1) == s.five.ptr() | BORROW_TAG;
        assert_eq!(body_ran, expect_body);
    }
    assert_eq!(s.t.rc(), LEAKED);
    assert_eq!(s.f.rc(), LEAKED);
}

#[test]
fn pop_jump_if_true_on_bool_singletons_needs_no_helper() {
    let w = World::new();
    let s = singletons(&w);
    let (units, ret) = branchy(POP_JUMP_IF_TRUE);
    for (value, expect_body) in [(s.f.ptr() | BORROW_TAG, true), (s.t.ptr(), false)] {
        let frame = Frame::new(&w, 1, 4);
        frame.push(value);
        let (lasti, calls) = run_with(&units, 0, vec![], &frame, &s);
        assert_eq!(lasti, ret);
        assert!(calls.is_empty());
        let body_ran = frame.slot(1) == s.five.ptr() | BORROW_TAG;
        assert_eq!(body_ran, expect_body);
    }
}

#[test]
fn pop_jump_if_false_on_other_objects_asks_helper() {
    let w = World::new();
    let s = singletons(&w);
    let other = w.obj(1);
    let (units, ret) = branchy(POP_JUMP_IF_FALSE);
    let frame = Frame::new(&w, 1, 4);
    frame.push(other.ptr());
    let (lasti, calls) = run_with(&units, 0, vec![1], &frame, &s);
    assert_eq!(lasti, ret);
    assert_eq!(ids(&calls), [HelperId::PopIsTrue]);
}

#[test]
fn pop_jump_if_none_compares_pointers_inline() {
    let w = World::new();
    let s = singletons(&w);
    let other = w.obj(3);
    for (op, value, expect_body) in [
        (POP_JUMP_IF_NONE, s.n.ptr() | BORROW_TAG, false),
        (POP_JUMP_IF_NONE, other.ptr(), true),
        (POP_JUMP_IF_NOT_NONE, s.n.ptr(), true),
        (POP_JUMP_IF_NOT_NONE, other.ptr(), false),
    ] {
        let (units, ret) = branchy(op);
        let frame = Frame::new(&w, 1, 4);
        frame.push(value);
        let (lasti, calls) = run_with(&units, 0, vec![], &frame, &s);
        assert_eq!(lasti, ret);
        assert!(calls.is_empty());
        assert_eq!(frame.stack_top(), 0);
        let body_ran = frame.slot(1) == s.five.ptr() | BORROW_TAG;
        assert_eq!(body_ran, expect_body);
    }
    assert_eq!(other.rc(), 1);
}

#[test]
fn helper_calls_see_and_update_the_shared_stack_top() {
    let w = World::new();
    let a = w.obj(1);
    let b = w.obj(1);
    let frame = Frame::new(&w, 2, 4);
    frame.set(0, a.ptr());
    frame.set(1, b.ptr());
    let s = singletons(&w);
    let mut units = vec![u(LOAD_FAST, 0), u(LOAD_FAST, 1)];
    units.extend(with_caches(BINARY_OP, BinaryOperator::Add as u8));
    units.push(u(STORE_FAST, 0));
    units.push(u(RETURN, 0));
    let (_, calls) = run_with(&units, 0, vec![], &frame, &s);
    assert_eq!(ids(&calls), [HelperId::BinaryOp]);
    assert_eq!(frame.stack_top(), 0);
    assert_eq!(frame.slot(0), a.ptr());
    assert_eq!(a.rc(), 1);
    assert_eq!(b.rc(), 2);
}

#[test]
fn helper_error_exits_just_after_faulting_instruction() {
    let mut units = vec![u(LOAD_SMALL_INT, 5), u(LOAD_SMALL_INT, 5)];
    units.extend(with_caches(BINARY_OP, BinaryOperator::Add as u8));
    units.push(u(RETURN, 0));
    let (lasti, calls) = run(&units, 0, vec![-1]);
    assert_eq!(lasti, 3);
    assert_eq!(calls.len(), 1);
}

fn while_loop() -> (Vec<CodeUnit>, u32, usize) {
    let mut v = vec![u(LOAD_FAST, 0)];
    let pj = v.len();
    v.extend(with_caches(POP_JUMP_IF_FALSE, 0));
    let body = v.len();
    v.push(u(LOAD_SMALL_INT, 5));
    v.push(u(Instruction::PopTop, 0));
    let jb = v.len();
    let jb_after = jb + 1 + caches(JUMP_BACKWARD) as usize;
    v.extend(with_caches(JUMP_BACKWARD, jb_after as u8));
    let ret = v.len();
    v.push(u(RETURN, 0));
    let after = pj + 1 + caches(POP_JUMP_IF_FALSE) as usize;
    v[pj].arg = (ret - after) as u8;
    (v, ret as u32, body)
}

#[test]
fn loop_runs_until_condition_false_and_checks_eval_breaker() {
    let w = World::new();
    let (units, ret, _) = while_loop();
    let other = w.obj(1);
    let frame = Frame::new(&w, 1, 4);
    frame.set(0, other.ptr());
    let s = singletons(&w);
    let (lasti, calls) = run_with(&units, 0, vec![1, 0, 1, 0], &frame, &s);
    assert_eq!(lasti, ret);
    assert_eq!(
        ids(&calls),
        [
            HelperId::PopIsTrue,
            HelperId::EvalBreaker,
            HelperId::PopIsTrue,
            HelperId::PopIsTrue
        ]
    );
    assert_eq!(other.rc(), 4);
}

#[test]
fn eval_breaker_is_consulted_on_the_first_back_edge_then_every_interval() {
    let w = World::new();
    let (units, _, _) = while_loop();
    let other = w.obj(1);
    let frame = Frame::new(&w, 1, 4);
    frame.set(0, other.ptr());
    let s = singletons(&w);
    let iterations = BREAKER_INTERVAL as usize + 2;
    let mut script = vec![];
    for _ in 0..iterations {
        script.push(1);
    }
    script.push(0);
    let (_, calls) = run_with(&units, 0, script, &frame, &s);
    let breaker_calls = calls.iter().filter(|c| c.0 == HelperId::EvalBreaker).count();
    assert_eq!(breaker_calls, 2);
    let positions: Vec<usize> = calls
        .iter()
        .enumerate()
        .filter(|(_, c)| c.0 == HelperId::EvalBreaker)
        .map(|(i, _)| i)
        .collect();
    assert_eq!(positions[0], 1);
    assert_eq!(positions[1], 2 + BREAKER_INTERVAL as usize);
}

#[test]
fn eval_breaker_error_exits_after_jump_instruction() {
    let w = World::new();
    let (units, _, _) = while_loop();
    let other = w.obj(1);
    let frame = Frame::new(&w, 1, 4);
    frame.set(0, other.ptr());
    let s = singletons(&w);
    let (lasti, calls) = run_with(&units, 0, vec![1, -1], &frame, &s);
    let jb = units.iter().position(|c| c.op == u8::from(JUMP_BACKWARD)).unwrap();
    assert_eq!(lasti, jb as u32 + 1);
    assert_eq!(calls.len(), 2);
}

#[test]
fn can_enter_in_the_middle_of_the_code() {
    let w = World::new();
    let (units, ret, body) = while_loop();
    let s = singletons(&w);
    let frame = Frame::new(&w, 1, 4);
    frame.set(0, s.f.ptr());
    let (lasti, calls) = run_with(&units, body, vec![], &frame, &s);
    assert_eq!(lasti, ret);
    assert_eq!(ids(&calls), [HelperId::EvalBreaker]);
}

#[test]
fn extended_arg_widens_the_operand() {
    let mut v = vec![u(Instruction::ExtendedArg, 1)];
    v.extend(with_caches(Instruction::LoadGlobal { namei: Arg::marker() }, 4));
    v.push(u(RETURN, 0));
    let (lasti, calls) = run(&v, 0, vec![]);
    assert_eq!(lasti, v.len() as u32 - 1);
    assert_eq!(calls, [(HelperId::LoadGlobal, 0x104)]);
}

#[test]
fn unsupported_instruction_exits_before_it_runs() {
    let w = World::new();
    let mut v = vec![u(LOAD_SMALL_INT, 5)];
    v.extend(with_caches(CALL, 0));
    v.push(u(RETURN, 0));
    let frame = Frame::new(&w, 1, 4);
    let s = singletons(&w);
    let (lasti, calls) = run_with(&v, 0, vec![], &frame, &s);
    assert_eq!(lasti, 1);
    assert!(calls.is_empty());
    assert_eq!(frame.stack_top(), 1);
}

#[test]
fn specialized_ops_are_compiled_as_their_base_op() {
    let mut v = vec![u(LOAD_SMALL_INT, 5), u(LOAD_SMALL_INT, 5)];
    v.extend(with_caches(Instruction::BinaryOpSubscrListInt, BinaryOperator::Subscr as u8));
    v.extend(with_caches(Instruction::ToBoolInt, 0));
    v.push(u(RETURN, 0));
    let (_, calls) = run(&v, 0, vec![]);
    assert_eq!(calls[0], (HelperId::BinaryOp, BinaryOperator::Subscr as u64));
    assert_eq!(calls[1], (HelperId::ToBool, 0));
}

#[test]
fn for_iter_exhaustion_skips_end_for() {
    let w = World::new();
    let mut v = vec![];
    let fi = v.len();
    v.extend(with_caches(FOR_ITER, 0));
    v.push(u(STORE_FAST, 0));
    let jb = v.len();
    v.extend(with_caches(JUMP_BACKWARD, (jb + 1 + caches(JUMP_BACKWARD) as usize) as u8));
    let end_for = v.len();
    v.push(u(Instruction::EndFor, 0));
    v.push(u(Instruction::PopIter, 0));
    v.push(u(RETURN, 0));
    let after = fi + 1 + caches(FOR_ITER) as usize;
    v[fi].arg = (end_for - after) as u8;
    let frame = Frame::new(&w, 1, 4);
    frame.push(0);
    frame.push(0);
    let s = singletons(&w);
    let (lasti, calls) = run_with(&v, 0, vec![0, 0, 1], &frame, &s);
    assert_eq!(lasti, v.len() as u32 - 1);
    assert_eq!(
        ids(&calls),
        [HelperId::ForIter, HelperId::EvalBreaker, HelperId::ForIter]
    );
    assert_eq!(calls[0].1, end_for as u64);
}

#[test]
fn compare_fast_hit_pops_operands_and_pushes_bool_singleton() {
    let w = World::new();
    let a = w.obj(1);
    let b = w.obj(1);
    let s = singletons(&w);
    for (result, expect) in [(1i64, s.t.ptr()), (0, s.f.ptr())] {
        let frame = Frame::new(&w, 1, 4);
        frame.push(a.ptr());
        frame.push(b.ptr() | BORROW_TAG);
        a.set_rc(2);
        let mut units = vec![];
        units.extend(with_caches(COMPARE_OP, ComparisonOperator::Less as u8));
        units.push(u(RETURN, 0));
        let (lasti, calls) = run_with(&units, 0, vec![result], &frame, &s);
        assert_eq!(lasti, units.len() as u32 - 1);
        assert_eq!(calls, [(HelperId::CompareFast, ComparisonOperator::Less as u64)]);
        assert_eq!(frame.stack(), [expect | BORROW_TAG]);
        assert_eq!(a.rc(), 1);
        assert_eq!(b.rc(), 1);
    }
}

#[test]
fn compare_fast_miss_falls_back_to_generic_helper() {
    let mut units = vec![u(LOAD_SMALL_INT, 5), u(LOAD_SMALL_INT, 5)];
    units.extend(with_caches(Instruction::CompareOpInt, ComparisonOperator::Equal as u8));
    units.push(u(RETURN, 0));
    let (_, calls) = run(&units, 0, vec![FAST_PATH_MISS]);
    assert_eq!(ids(&calls), [HelperId::CompareFast, HelperId::CompareOp]);
}

fn compare_then_jump(jump_op: Instruction) -> (Vec<CodeUnit>, u32) {
    let mut v = vec![u(LOAD_SMALL_INT, 5), u(LOAD_SMALL_INT, 5)];
    v.extend(with_caches(COMPARE_OP, ComparisonOperator::Less as u8));
    let pj = v.len();
    v.extend(with_caches(jump_op, 0));
    v.push(u(LOAD_SMALL_INT, 5));
    v.push(u(STORE_FAST, 0));
    let ret = v.len();
    v.push(u(RETURN, 0));
    let after = pj + 1 + caches(jump_op) as usize;
    v[pj].arg = (ret - after) as u8;
    (v, ret as u32)
}

#[test]
fn compare_fused_with_pop_jump_branches_without_touching_the_stack() {
    let w = World::new();
    let s = singletons(&w);
    for (op, result, expect_body) in [
        (POP_JUMP_IF_FALSE, 0i64, false),
        (POP_JUMP_IF_FALSE, 1, true),
        (POP_JUMP_IF_TRUE, 1, false),
        (POP_JUMP_IF_TRUE, 0, true),
    ] {
        let (units, ret) = compare_then_jump(op);
        let frame = Frame::new(&w, 1, 4);
        let (lasti, calls) = run_with(&units, 0, vec![result], &frame, &s);
        assert_eq!(lasti, ret);
        assert_eq!(ids(&calls), [HelperId::CompareFast]);
        assert_eq!(frame.stack_top(), 0);
        let body_ran = frame.slot(0) == s.five.ptr();
        assert_eq!(body_ran, expect_body);
    }
}

#[test]
fn compare_fused_miss_uses_generic_compare_and_pop_helper() {
    let (units, ret) = compare_then_jump(POP_JUMP_IF_FALSE);
    let (lasti, calls) = run(&units, 0, vec![FAST_PATH_MISS, 0, 1]);
    assert_eq!(lasti, ret);
    assert_eq!(
        ids(&calls),
        [HelperId::CompareFast, HelperId::CompareOp, HelperId::PopIsTrue]
    );
}

#[test]
fn entering_at_a_fused_jump_exits_to_the_interpreter() {
    let (units, _) = compare_then_jump(POP_JUMP_IF_FALSE);
    let pj = units.iter().position(|c| c.op == u8::from(POP_JUMP_IF_FALSE)).unwrap();
    let (lasti, calls) = run(&units, pj, vec![]);
    assert_eq!(lasti, pj as u32);
    assert!(calls.is_empty());
}

#[test]
fn specialized_int_binary_op_uses_fast_helper_then_generic_on_miss() {
    let w = World::new();
    let mut units = vec![u(LOAD_SMALL_INT, 5), u(LOAD_SMALL_INT, 5)];
    units.extend(with_caches(Instruction::BinaryOpAddInt, BinaryOperator::Add as u8));
    units.push(u(LOAD_SMALL_INT, 5));
    units.extend(with_caches(Instruction::BinaryOpSubtractInt, BinaryOperator::Subtract as u8));
    units.push(u(RETURN, 0));
    let frame = Frame::new(&w, 1, 4);
    let s = singletons(&w);
    let (_, calls) = run_with(&units, 0, vec![0, FAST_PATH_MISS], &frame, &s);
    assert_eq!(
        ids(&calls),
        [HelperId::BinaryOpIntFast, HelperId::BinaryOpIntFast, HelperId::BinaryOp]
    );
    assert_eq!(frame.stack_top(), 1);
}

#[test]
#[should_panic]
fn entry_out_of_range_panics() {
    let units = [u(RETURN, 0)];
    run(&units, 1, vec![]);
}

#[test]
fn both_conventions_give_the_same_run() {
    for abi in [Abi::SystemV, Abi::Windows] {
        let w = World::new();
        let (units, ret, _) = while_loop();
        let other = w.obj(1);
        let frame = Frame::new(&w, 1, 4);
        frame.set(0, other.ptr());
        let s = singletons(&w);
        let (lasti, calls) = run_abi(&units, 0, vec![1, 0, 0], &frame, &s, abi);
        assert_eq!(lasti, ret);
        assert_eq!(
            ids(&calls),
            [HelperId::PopIsTrue, HelperId::EvalBreaker, HelperId::PopIsTrue]
        );
        assert_eq!(other.rc(), 3);
    }
}

#[test]
fn jumps_past_the_end_leave_with_the_target() {
    let units = [u(JUMP_FORWARD, 9)];
    let (lasti, calls) = run(&units, 0, vec![]);
    assert_eq!(lasti, 10);
    assert!(calls.is_empty());
}

#[test]
fn code_that_runs_off_its_end_leaves_with_its_length() {
    let units = [u(Instruction::Nop, 0), u(Instruction::NotTaken, 0)];
    let (lasti, calls) = run(&units, 0, vec![]);
    assert_eq!(lasti, 2);
    assert!(calls.is_empty());
}

#[test]
fn two_locals_are_named_by_one_operand() {
    let w = World::new();
    let a = w.obj(1);
    let b = w.obj(5);
    let frame = Frame::new(&w, 3, 4);
    frame.push(a.ptr());
    frame.push(b.ptr());
    let s = singletons(&w);
    let store = Instruction::StoreFastStoreFast { var_nums: Arg::marker() };
    let load = Instruction::LoadFastLoadFast { var_nums: Arg::marker() };
    let units = [u(store, 0x12), u(load, 0x21), u(RETURN, 0)];
    let (lasti, calls) = run_with(&units, 0, vec![], &frame, &s);
    assert_eq!(lasti, 2);
    assert!(calls.is_empty());
    assert_eq!(frame.slot(1), b.ptr());
    assert_eq!(frame.slot(2), a.ptr());
    assert_eq!(frame.stack(), [a.ptr(), b.ptr()]);
    assert_eq!((a.rc(), b.rc()), (2, 6));
}

#[test]
fn a_backward_jump_before_the_first_unit_is_refused() {
    let w = World::new();
    let s = singletons(&w);
    let env = Env {
        refcount_offset: 0,
        true_ptr: s.t.ptr(),
        false_ptr: s.f.ptr(),
        none_ptr: s.n.ptr(),
        small_int: |_: i32| None,
    };
    let far = with_caches(JUMP_BACKWARD, 3);
    assert!(checked_compile(&far, &table(), &env, Abi::SystemV).is_none());
    let near = with_caches(JUMP_BACKWARD, 2);
    assert!(checked_compile(&near, &table(), &env, Abi::SystemV).is_some());
}

#[test]
fn code_starts_with_the_saved_registers_and_entries_lie_inside() {
    let w = World::new();
    let s = singletons(&w);
    let env = Env {
        refcount_offset: 0,
        true_ptr: s.t.ptr(),
        false_ptr: s.f.ptr(),
        none_ptr: s.n.ptr(),
        small_int: |_: i32| None,
    };
    let units = [u(RETURN, 0)];
    let image = compile(&units, &table(), &env, Abi::SystemV);
    assert_eq!(image.code[..9], [0x53, 0x41, 0x54, 0x41, 0x55, 0x41, 0x56, 0x41, 0x57]);
    assert_eq!(image.offsets.len(), 1);
    assert!((image.offsets[0] as usize) < image.code.len());
    let failed = Compiled::new(image, Err(ExecError::Os(9)));
    assert!(matches!(failed, Err(CompileError::Exec(ExecError::Os(9)))));
    let nothing = compile(&[], &table(), &env, Abi::SystemV);
    let code = nothing.code.clone();
    let compiled = Compiled::new(nothing, Ok(map(&code))).ok().unwrap();
    assert!(compiled.is_empty());
    assert_eq!(resume_at(0x5_0000_0007), 7);
}

#[test]
fn a_stored_value_is_loaded_again() {
    for (tag, count) in [(BORROW_TAG, 3), (0, 2)] {
        let w = World::new();
        let a = w.obj(1);
        let frame = Frame::new(&w, 1, 4);
        frame.push(a.ptr() | tag);
        let s = singletons(&w);
        let units = [u(STORE_FAST, 0), u(LOAD_FAST, 0), u(RETURN, 0)];
        let (lasti, calls) = run_with(&units, 0, vec![], &frame, &s);
        assert_eq!(lasti, 2);
        assert!(calls.is_empty());
        assert_eq!(frame.slot(0), a.ptr());
        assert_eq!(frame.stack(), [a.ptr()]);
        assert_eq!(a.rc(), count);
    }
}

#[test]
fn entering_a_cache_goes_on_behind_it() {
    let w = World::new();
    let frame = Frame::new(&w, 1, 4);
    let s = singletons(&w);
    let mut units = with_caches(BINARY_OP, BinaryOperator::Add as u8);
    units.push(u(LOAD_SMALL_INT, 5));
    units.push(u(RETURN, 0));
    let (lasti, calls) = run_with(&units, 2, vec![], &frame, &s);
    assert_eq!(lasti, units.len() as u32 - 1);
    assert!(calls.is_empty());
    assert_eq!(frame.stack(), [s.five.ptr() | BORROW_TAG]);
}

#[test]
fn long_code_is_compiled() {
    let w = World::new();
    let s = singletons(&w);
    let mut units = vec![];
    for _ in 0..500 {
        units.extend(with_caches(COMPARE_OP, 0));
        units.extend(with_caches(POP_JUMP_IF_FALSE, 200));
        units.extend(with_caches(POP_JUMP_IF_NONE, 255));
        units.push(u(STORE_FAST, 255));
    }
    let image = image_of(&units, &s, Abi::Windows);
    assert_eq!(image.offsets.len(), units.len());
    assert!(image.offsets.windows(2).all(|o| o[0] <= o[1]));
    assert!(image.code.len() > 500_000);
}

#[test]
fn argument_registers() {
    assert_eq!(
        (Abi::SystemV.arg0(), Abi::SystemV.arg1(), Abi::SystemV.arg2()),
        (Reg::Rdi, Reg::Rsi, Reg::Rdx)
    );
    assert_eq!(
        (Abi::Windows.arg0(), Abi::Windows.arg1(), Abi::Windows.arg2()),
        (Reg::Rcx, Reg::Rdx, Reg::R8)
    );
    assert_eq!((Abi::SystemV.shadow_space(), Abi::Windows.shadow_space()), (0, 32));
}

#[test]
fn a_new_context_consults_the_breaker_on_the_first_back_edge() {
    let ctx = JitContext::new(1, 2, 3, 4);
    assert_eq!((ctx.user, ctx.locals, ctx.stack_top, ctx.nlocalsplus), (1, 2, 3, 4));
    assert_eq!(ctx.breaker_countdown, 1);
}

#[test]
fn inline_code_agrees_with_the_helpers() {
    let w = World::new();
    let a = w.obj(4);
    let b = w.obj(4);
    let c = w.obj(4);
    let frame = Frame::new(&w, 2, 4);
    frame.set(0, a.ptr());
    frame.push(b.ptr() | BORROW_TAG);
    frame.push(c.ptr());
    let s = singletons(&w);
    let value = |x: u64| if x == 0 { None } else { Some(x & !BORROW_TAG) };
    let read = |f: &Frame| tier2::frame::Frame {
        locals: (0..2).map(|i| value(f.slot(i))).collect(),
        stack: f.stack().into_iter().map(value).collect(),
    };
    let mut helped = read(&frame);
    let units = [u(STORE_FAST, 1), u(LOAD_FAST, 0), u(LOAD_FAST, 1), u(Instruction::PopTop, 0)];
    let (lasti, calls) = run_with(&units, 0, vec![], &frame, &s);
    assert_eq!(lasti, 4);
    assert!(calls.is_empty());
    helped.store_fast(1);
    assert_eq!(helped.load_fast(0), Ok(0));
    assert_eq!(helped.load_fast(1), Ok(0));
    helped.pop_top();
    let inline = read(&frame);
    assert_eq!(inline.locals, helped.locals);
    assert_eq!(inline.stack, helped.stack);
    assert_eq!(inline.stack, [Some(b.ptr()), Some(a.ptr())]);
    assert_eq!((a.rc(), b.rc(), c.rc()), (5, 4, 4));
}

#[test]
fn a_shift_counts_only_the_lower_six_bits() {
    for (count, result) in [(0, 5), (1, 10), (63, 1 << 63), (64, 5), (65, 10)] {
        let mut a = Assembler::new();
        a.mov_ri(Reg::Rax, 5);
        a.shl_ri(Reg::Rax, count);
        a.ret();
        assert_eq!(call(&World::new(), &a.finish(), Abi::SystemV, (0, 0), &mut no_host), result);
    }
}

#[test]
fn an_uninterrupted_jump_does_not_count() {
    let w = World::new();
    let other = w.obj(1);
    let frame = Frame::new(&w, 1, 4);
    frame.set(0, other.ptr());
    let s = singletons(&w);
    let back = Instruction::JumpBackwardNoInterrupt { delta: Arg::marker() };
    let mut units = vec![u(LOAD_FAST, 0)];
    units.extend(with_caches(POP_JUMP_IF_FALSE, 1));
    let after = units.len() as u8 + 1;
    units.push(u(back, after));
    units.push(u(RETURN, 0));
    let mut script = vec![1; 130];
    script.push(0);
    let (lasti, calls) = run_with(&units, 0, script, &frame, &s);
    assert_eq!(lasti, units.len() as u32 - 1);
    assert_eq!(calls.len(), 131);
    assert!(calls.iter().all(|c| c.0 == HelperId::PopIsTrue));
}

#[test]
fn the_breaker_is_asked_by_back_edges_that_begin_an_interval() {
    let w = World::new();
    let (units, _, _) = while_loop();
    let other = w.obj(1);
    let frame = Frame::new(&w, 1, 4);
    frame.set(0, other.ptr());
    let s = singletons(&w);
    let mut script = vec![1; 203];
    script.push(0);
    let (_, calls) = run_with(&units, 0, script, &frame, &s);
    let mut edge = 0;
    let mut asked = vec![];
    for c in calls.iter().skip(1) {
        match c.0 {
            HelperId::EvalBreaker => asked.push(edge),
            _ => edge += 1,
        }
    }
    assert_eq!(asked, [0, 64, 128, 192]);
    assert!(edge >= 193);
}
