//! An assembler for the part of x86-64 that generated code uses.
//!
//! An [`Assembler`] is modelled by its listing: each method adds one line, and
//! [`Assembler::finish`] turns the lines into bytes.
use crate::insn;
use crate::insn::{Alu, Insn, Item, Listing, Shift};
use crate::layout;
use vstd::prelude::*;

verus! {

#[derive(Copy, Clone, Debug, PartialEq, Eq, Structural)]
pub enum Reg {
    Rax,
    Rcx,
    Rdx,
    Rbx,
    Rsp,
    Rbp,
    Rsi,
    Rdi,
    R8,
    R9,
    R10,
    R11,
    R12,
    R13,
    R14,
    R15,
}

impl Reg {
    /// The number the architecture gives the register.
    pub open spec fn number(self) -> int {
        match self {
            Reg::Rax => 0,
            Reg::Rcx => 1,
            Reg::Rdx => 2,
            Reg::Rbx => 3,
            Reg::Rsp => 4,
            Reg::Rbp => 5,
            Reg::Rsi => 6,
            Reg::Rdi => 7,
            Reg::R8 => 8,
            Reg::R9 => 9,
            Reg::R10 => 10,
            Reg::R11 => 11,
            Reg::R12 => 12,
            Reg::R13 => 13,
            Reg::R14 => 14,
            Reg::R15 => 15,
        }
    }

    /// The three bits of the number that go into an operand byte.
    pub open spec fn low_bits(self) -> int {
        self.number() % 8
    }

    /// Whether the number needs the fourth bit.
    pub open spec fn is_ext(self) -> bool {
        self.number() >= 8
    }

    fn code(self) -> (r: u8)
        ensures
            r == self.number(),
            r < 16,
    {
        match self {
            Reg::Rax => 0,
            Reg::Rcx => 1,
            Reg::Rdx => 2,
            Reg::Rbx => 3,
            Reg::Rsp => 4,
            Reg::Rbp => 5,
            Reg::Rsi => 6,
            Reg::Rdi => 7,
            Reg::R8 => 8,
            Reg::R9 => 9,
            Reg::R10 => 10,
            Reg::R11 => 11,
            Reg::R12 => 12,
            Reg::R13 => 13,
            Reg::R14 => 14,
            Reg::R15 => 15,
        }
    }

    fn low(self) -> (r: u8)
        ensures
            r == self.low_bits(),
            r < 8,
    {
        self.code() % 8
    }

    fn ext(self) -> (r: bool)
        ensures
            r == self.is_ext(),
    {
        self.code() >= 8
    }
}

#[derive(Copy, Clone, Debug, PartialEq, Eq, Structural)]
pub enum Cond {
    O,
    NO,
    B,
    AE,
    E,
    NE,
    BE,
    A,
    S,
    NS,
    L,
    GE,
    LE,
    G,
}

impl Cond {
    /// The number the architecture gives the condition.
    pub open spec fn number(self) -> int {
        match self {
            Cond::O => 0x0,
            Cond::NO => 0x1,
            Cond::B => 0x2,
            Cond::AE => 0x3,
            Cond::E => 0x4,
            Cond::NE => 0x5,
            Cond::BE => 0x6,
            Cond::A => 0x7,
            Cond::S => 0x8,
            Cond::NS => 0x9,
            Cond::L => 0xC,
            Cond::GE => 0xD,
            Cond::LE => 0xE,
            Cond::G => 0xF,
        }
    }

    /// The number the architecture gives the condition.
    pub fn code(self) -> (r: u8)
        ensures
            r == self.number(),
            r < 16,
    {
        match self {
            Cond::O => 0x0,
            Cond::NO => 0x1,
            Cond::B => 0x2,
            Cond::AE => 0x3,
            Cond::E => 0x4,
            Cond::NE => 0x5,
            Cond::BE => 0x6,
            Cond::A => 0x7,
            Cond::S => 0x8,
            Cond::NS => 0x9,
            Cond::L => 0xC,
            Cond::GE => 0xD,
            Cond::LE => 0xE,
            Cond::G => 0xF,
        }
    }
}

impl Cond {
    /// The condition that holds where this one does not.
    pub open spec fn negated(self) -> Cond {
        match self {
            Cond::O => Cond::NO,
            Cond::NO => Cond::O,
            Cond::B => Cond::AE,
            Cond::AE => Cond::B,
            Cond::E => Cond::NE,
            Cond::NE => Cond::E,
            Cond::BE => Cond::A,
            Cond::A => Cond::BE,
            Cond::S => Cond::NS,
            Cond::NS => Cond::S,
            Cond::L => Cond::GE,
            Cond::GE => Cond::L,
            Cond::LE => Cond::G,
            Cond::G => Cond::LE,
        }
    }
}

/// The architecture counts the registers from `rax` in this order.
pub proof fn law_register_numbers()
    ensures
        Reg::Rax.number() == 0 && Reg::Rcx.number() == 1 && Reg::Rdx.number() == 2,
        Reg::Rbx.number() == 3 && Reg::Rsp.number() == 4 && Reg::Rbp.number() == 5,
        Reg::Rsi.number() == 6 && Reg::Rdi.number() == 7 && Reg::R8.number() == 8,
        Reg::R9.number() == 9 && Reg::R10.number() == 10 && Reg::R11.number() == 11,
        Reg::R12.number() == 12 && Reg::R13.number() == 13 && Reg::R14.number() == 14,
        Reg::R15.number() == 15,
{
}

/// Conditions have different numbers, of four bits, that leave out the two of the parity flag.
pub proof fn law_conditions_are_distinct(c: Cond, d: Cond)
    ensures
        c != d ==> c.number() != d.number(),
        0 <= c.number() <= 0xF,
        c.number() != 0xA,
        c.number() != 0xB,
{
}

/// A condition and its negation differ in the lowest bit alone; the ones that state a flag or
/// "less" have it clear.
pub proof fn law_negation_flips_the_lowest_bit(c: Cond)
    ensures
        c.negated().negated() == c,
        c.negated().number() as u8 == (c.number() as u8) ^ 1u8,
        c.number() % 2 == 0 <==> c == Cond::O || c == Cond::B || c == Cond::E || c == Cond::BE || c
            == Cond::S || c == Cond::L || c == Cond::LE,
        Cond::O.number() == 0,
        Cond::B.number() == 2,
        Cond::E.number() == 4,
        Cond::BE.number() == 6,
        Cond::S.number() == 8,
        Cond::L.number() == 0xC,
        Cond::LE.number() == 0xE,
{
    let n = c.number() as u8;
    assert(n % 2 == 0 ==> n ^ 1u8 == n + 1) by (bit_vector);
    assert(n % 2 == 1 ==> n ^ 1u8 == n - 1) by (bit_vector);
}

/// A place in the code that jumps can name before it is known.
#[derive(Copy, Clone, Debug, PartialEq, Eq, Structural)]
pub struct Label(usize);

impl Label {
    /// Labels are numbered in the order in which they were handed out.
    pub closed spec fn id(self) -> nat {
        self.0 as nat
    }
}

pub struct Assembler {
    buf: Vec<u8>,
    labels: Vec<Option<usize>>,
    fixups: Vec<(usize, Label)>,
    listing: Ghost<Listing>,
}

impl View for Assembler {
    type V = Listing;

    closed spec fn view(&self) -> Listing {
        self.listing@
    }
}

impl Assembler {
    /// The bytes, the label table and the jump list agree with the listing.
    pub closed spec fn wf(self) -> bool {
        let items = self.listing@.items;
        &&& self.buf@ == insn::code_upto(items, 0, items)
        &&& self.labels@.len() == self.listing@.labels
        &&& forall|l: nat|
            l < self.labels@.len() ==> {
                match #[trigger] insn::label_at(items, l) {
                    Some(o) => self.labels@[l as int] == Some(o as usize) && o <= self.buf@.len(),
                    None => self.labels@[l as int] is None,
                }
            }
        &&& forall|l: nat| l >= self.labels@.len() ==> #[trigger] insn::label_at(items, l) is None
        &&& self.fixups@.len() == insn::fixups_of(items).len()
        &&& forall|j: int|
            0 <= j < self.fixups@.len() ==> {
                &&& (#[trigger] self.fixups@[j]).0 == insn::fixups_of(items)[j].0
                &&& self.fixups@[j].1.id() == insn::fixups_of(items)[j].1
            }
    }

    /// Nothing but bytes was added since `before`.
    spec fn grown(self, before: Assembler, bytes: Seq<u8>) -> bool {
        &&& self.buf@ =~= before.buf@ + bytes
        &&& self.labels == before.labels
        &&& self.fixups == before.fixups
        &&& self.listing == before.listing
    }

    pub fn new() -> (r: Self)
        ensures
            r.wf(),
            r@ == Listing::empty(),
    {
        Assembler {
            buf: Vec::new(),
            labels: Vec::new(),
            fixups: Vec::new(),
            listing: Ghost(Listing::empty()),
        }
    }

    pub fn len(&self) -> (r: usize)
        requires
            self.wf(),
        ensures
            r == insn::code_len(self@.items),
    {
        proof {
            layout::lemma_code_upto_len(self@.items, 0, self@.items);
        }
        self.buf.len()
    }

    pub fn is_empty(&self) -> (r: bool)
        requires
            self.wf(),
        ensures
            r == (insn::code_len(self@.items) == 0),
    {
        self.len() == 0
    }

    pub fn new_label(&mut self) -> (r: Label)
        requires
            old(self).wf(),
        ensures
            final(self).wf(),
            final(self)@ == old(self)@.fresh(),
            r.id() == old(self)@.labels,
            insn::label_at(final(self)@.items, r.id()) is None,
    {
        self.labels.push(None);
        self.listing = Ghost(self.listing@.fresh());
        proof {
            assert forall|l: nat| l < self.labels@.len() implies ({
                match #[trigger] insn::label_at(self.listing@.items, l) {
                    Some(o) => self.labels@[l as int] == Some(o as usize) && o <= self.buf@.len(),
                    None => self.labels@[l as int] is None,
                }
            }) by {}
        }
        Label(self.labels.len() - 1)
    }

    pub fn bind(&mut self, label: Label)
        requires
            old(self).wf(),
            label.id() < old(self)@.labels,
            insn::label_at(old(self)@.items, label.id()) is None,
        ensures
            final(self).wf(),
            final(self)@ == old(self)@.push(Item::Bind(label.id())),
    {
        let here: usize = self.buf.len();
        self.labels.set(label.0, Some(here));
        self.listing = Ghost(self.listing@.push(Item::Bind(label.id())));
        proof {
            let items = old(self)@.items;
            layout::lemma_push(items, Item::Bind(label.id()));
            layout::lemma_code_upto_push_raw(items, Item::Bind(label.id()));
            layout::lemma_code_upto_len(items, 0, items);
            assert forall|l: nat| #[trigger]
                insn::label_at(items.push(Item::Bind(label.id())), l) == (if l == label.id() {
                    Some(insn::code_len(items))
                } else {
                    insn::label_at(items, l)
                }) by {
                layout::lemma_label_push(items, Item::Bind(label.id()), l);
            }
            assert(self.buf@ =~= insn::code_upto(self@.items, 0, self@.items));
        }
    }

    pub fn bind_new(&mut self) -> (r: Label)
        requires
            old(self).wf(),
        ensures
            final(self).wf(),
            final(self)@ == old(self)@.append(seq![Item::Bind(old(self)@.labels)], 1),
            r.id() == old(self)@.labels,
    {
        let l = self.new_label();
        self.bind(l);
        assert(self@ =~= old(self)@.append(seq![Item::Bind(old(self)@.labels)], 1));
        l
    }

    pub fn label_offset(&self, label: Label) -> (r: Option<usize>)
        requires
            self.wf(),
            label.id() < self@.labels,
        ensures
            match insn::label_at(self@.items, label.id()) {
                Some(o) => r matches Some(x) && x == o,
                None => r is None,
            },
    {
        let _bound = self.buf.len();
        self.labels[label.0]
    }

    fn byte(&mut self, b: u8)
        ensures
            final(self).grown(*old(self), seq![b]),
    {
        self.buf.push(b);
    }

    fn imm32(&mut self, v: i32)
        ensures
            final(self).grown(*old(self), insn::le4(insn::twos32(v as int))),
    {
        let u: u32 = v as u32;
        assert(v < 0 ==> u == v + 0x1_0000_0000) by (bit_vector)
            requires
                u == v as u32,
        ;
        self.word(u);
    }

    fn word(&mut self, v: u32)
        ensures
            final(self).grown(*old(self), insn::le4(v as int)),
    {
        self.buf.push((v % 256) as u8);
        self.buf.push((v / 0x100 % 256) as u8);
        self.buf.push((v / 0x1_0000 % 256) as u8);
        self.buf.push((v / 0x100_0000 % 256) as u8);
    }

    fn imm64(&mut self, v: u64)
        ensures
            final(self).grown(*old(self), insn::le8(v as int)),
    {
        self.word((v % 0x1_0000_0000) as u32);
        self.word((v / 0x1_0000_0000) as u32);
    }

    fn rex(&mut self, w: bool, reg: Reg, rm: Reg)
        ensures
            final(self).grown(*old(self), insn::rex(w, reg, rm)),
    {
        let mut rex: u8 = 0x40;
        if w {
            rex = rex + 0x08;
        }
        if reg.ext() {
            rex = rex + 0x04;
        }
        if rm.ext() {
            rex = rex + 0x01;
        }
        if rex != 0x40 {
            self.byte(rex);
        }
    }

    fn rex_w(&mut self, reg: Reg, rm: Reg)
        ensures
            final(self).grown(*old(self), insn::rex(true, reg, rm)),
    {
        self.rex(true, reg, rm);
    }

    fn modrm_rr(&mut self, reg: u8, rm: Reg)
        requires
            reg < 8,
        ensures
            final(self).grown(*old(self), insn::modrm_rr(reg as int, rm)),
    {
        self.byte(0xC0 + reg * 8 + rm.low());
    }

    fn modrm_mem(&mut self, reg: u8, base: Reg, disp: i32)
        requires
            reg < 8,
        ensures
            final(self).grown(*old(self), insn::modrm_mem(reg as int, base, disp)),
    {
        self.byte(0x80 + reg * 8 + base.low());
        if base.low() == 4 {
            self.byte(0x24);
        }
        self.imm32(disp);
    }

    fn rex_idx(&mut self, reg: Reg, index: Reg, base: Reg)
        ensures
            final(self).grown(*old(self), insn::rex_idx(reg, index, base)),
    {
        let mut rex: u8 = 0x48;
        if reg.ext() {
            rex = rex + 0x04;
        }
        if index.ext() {
            rex = rex + 0x02;
        }
        if base.ext() {
            rex = rex + 0x01;
        }
        self.byte(rex);
    }

    fn modrm_idx8(&mut self, reg: u8, base: Reg, index: Reg, disp: i8)
        requires
            reg < 8,
        ensures
            final(self).grown(*old(self), insn::modrm_idx8(reg as int, base, index, disp)),
    {
        self.byte(0x44 + reg * 8);
        self.byte(0xC0 + index.low() * 8 + base.low());
        let d: u8 = disp as u8;
        assert(disp < 0 ==> d == disp + 0x100) by (bit_vector)
            requires
                d == disp as u8,
        ;
        self.byte(d);
    }

    /// Enters the instruction whose bytes were just added into the listing.
    fn note(&mut self, Ghost(before): Ghost<Assembler>, Ghost(i): Ghost<Insn>)
        requires
            before.wf(),
            old(self).grown(before, insn::encode(i)),
        ensures
            final(self).wf(),
            final(self)@ == before@.op(i),
    {
        self.listing = Ghost(self.listing@.op(i));
        proof {
            let items = before@.items;
            layout::lemma_push(items, Item::Op(i));
            layout::lemma_code_upto_push_raw(items, Item::Op(i));
            assert forall|l: nat| #[trigger]
                insn::label_at(items.push(Item::Op(i)), l) == insn::label_at(items, l) by {
                layout::lemma_label_push(items, Item::Op(i), l);
            }
        }
    }

    pub fn mov_rr(&mut self, dst: Reg, src: Reg)
        requires
            old(self).wf(),
        ensures
            final(self).wf(),
            final(self)@ == old(self)@.op(Insn::MovRR { dst, src }),
    {
        self.rex_w(src, dst);
        self.byte(0x89);
        self.modrm_rr(src.low(), dst);
        self.note(Ghost(*old(self)), Ghost(Insn::MovRR { dst, src }));
    }

    pub fn mov_rm(&mut self, dst: Reg, base: Reg, disp: i32)
        requires
            old(self).wf(),
        ensures
            final(self).wf(),
            final(self)@ == old(self)@.op(Insn::MovRM { dst, base, disp }),
    {
        self.rex_w(dst, base);
        self.byte(0x8B);
        self.modrm_mem(dst.low(), base, disp);
        self.note(Ghost(*old(self)), Ghost(Insn::MovRM { dst, base, disp }));
    }

    pub fn mov_mr(&mut self, base: Reg, disp: i32, src: Reg)
        requires
            old(self).wf(),
        ensures
            final(self).wf(),
            final(self)@ == old(self)@.op(Insn::MovMR { base, disp, src }),
    {
        self.rex_w(src, base);
        self.byte(0x89);
        self.modrm_mem(src.low(), base, disp);
        self.note(Ghost(*old(self)), Ghost(Insn::MovMR { base, disp, src }));
    }

    pub fn mov_ri(&mut self, dst: Reg, imm: u64)
        requires
            old(self).wf(),
        ensures
            final(self).wf(),
            final(self)@ == old(self)@.op(Insn::MovRI { dst, imm }),
    {
        self.rex_w(Reg::Rax, dst);
        self.byte(0xB8 + dst.low());
        self.imm64(imm);
        self.note(Ghost(*old(self)), Ghost(Insn::MovRI { dst, imm }));
    }

    pub fn mov_rm32(&mut self, dst: Reg, base: Reg, disp: i32)
        requires
            old(self).wf(),
        ensures
            final(self).wf(),
            final(self)@ == old(self)@.op(Insn::MovRM32 { dst, base, disp }),
    {
        self.rex(false, dst, base);
        self.byte(0x8B);
        self.modrm_mem(dst.low(), base, disp);
        self.note(Ghost(*old(self)), Ghost(Insn::MovRM32 { dst, base, disp }));
    }

    pub fn mov_mr32(&mut self, base: Reg, disp: i32, src: Reg)
        requires
            old(self).wf(),
        ensures
            final(self).wf(),
            final(self)@ == old(self)@.op(Insn::MovMR32 { base, disp, src }),
    {
        self.rex(false, src, base);
        self.byte(0x89);
        self.modrm_mem(src.low(), base, disp);
        self.note(Ghost(*old(self)), Ghost(Insn::MovMR32 { base, disp, src }));
    }

    pub fn mov_rm_idx8(&mut self, dst: Reg, base: Reg, index: Reg, disp: i8)
        requires
            old(self).wf(),
        ensures
            final(self).wf(),
            final(self)@ == old(self)@.op(Insn::MovRMIdx8 { dst, base, index, disp }),
    {
        self.rex_idx(dst, index, base);
        self.byte(0x8B);
        self.modrm_idx8(dst.low(), base, index, disp);
        self.note(Ghost(*old(self)), Ghost(Insn::MovRMIdx8 { dst, base, index, disp }));
    }

    pub fn mov_mr_idx8(&mut self, base: Reg, index: Reg, disp: i8, src: Reg)
        requires
            old(self).wf(),
        ensures
            final(self).wf(),
            final(self)@ == old(self)@.op(Insn::MovMRIdx8 { base, index, disp, src }),
    {
        self.rex_idx(src, index, base);
        self.byte(0x89);
        self.modrm_idx8(src.low(), base, index, disp);
        self.note(Ghost(*old(self)), Ghost(Insn::MovMRIdx8 { base, index, disp, src }));
    }

    pub fn lock_xadd(&mut self, base: Reg, disp: i32, src: Reg)
        requires
            old(self).wf(),
        ensures
            final(self).wf(),
            final(self)@ == old(self)@.op(Insn::LockXadd { base, disp, src }),
    {
        self.byte(0xF0);
        self.rex_w(src, base);
        self.byte(0x0F);
        self.byte(0xC1);
        self.modrm_mem(src.low(), base, disp);
        self.note(Ghost(*old(self)), Ghost(Insn::LockXadd { base, disp, src }));
    }

    pub fn lock_add_mi(&mut self, base: Reg, disp: i32, imm: i32)
        requires
            old(self).wf(),
        ensures
            final(self).wf(),
            final(self)@ == old(self)@.op(Insn::LockAddMI { base, disp, imm }),
    {
        self.byte(0xF0);
        self.rex_w(Reg::Rax, base);
        self.byte(0x81);
        self.modrm_mem(0, base, disp);
        self.imm32(imm);
        self.note(Ghost(*old(self)), Ghost(Insn::LockAddMI { base, disp, imm }));
    }

    pub fn sub_mi(&mut self, base: Reg, disp: i32, imm: i32)
        requires
            old(self).wf(),
        ensures
            final(self).wf(),
            final(self)@ == old(self)@.op(Insn::SubMI { base, disp, imm }),
    {
        self.rex_w(Reg::Rax, base);
        self.byte(0x81);
        self.modrm_mem(5, base, disp);
        self.imm32(imm);
        self.note(Ghost(*old(self)), Ghost(Insn::SubMI { base, disp, imm }));
    }

    pub fn mov_mi32(&mut self, base: Reg, disp: i32, imm: i32)
        requires
            old(self).wf(),
        ensures
            final(self).wf(),
            final(self)@ == old(self)@.op(Insn::MovMI32 { base, disp, imm }),
    {
        self.rex_w(Reg::Rax, base);
        self.byte(0xC7);
        self.modrm_mem(0, base, disp);
        self.imm32(imm);
        self.note(Ghost(*old(self)), Ghost(Insn::MovMI32 { base, disp, imm }));
    }

    fn alu_rr(&mut self, opcode: u8, dst: Reg, src: Reg)
        ensures
            final(self).grown(
                *old(self),
                insn::rex(true, src, dst) + seq![opcode] + insn::modrm_rr(src.low_bits(), dst),
            ),
    {
        self.rex_w(src, dst);
        self.byte(opcode);
        self.modrm_rr(src.low(), dst);
    }

    fn alu_ri(&mut self, ext: u8, dst: Reg, imm: i32)
        requires
            ext < 8,
        ensures
            final(self).grown(
                *old(self),
                insn::rex(true, Reg::Rax, dst) + seq![0x81u8] + insn::modrm_rr(ext as int, dst)
                    + insn::le4(insn::twos32(imm as int)),
            ),
    {
        self.rex_w(Reg::Rax, dst);
        self.byte(0x81);
        self.modrm_rr(ext, dst);
        self.imm32(imm);
    }

    pub fn add_rr(&mut self, dst: Reg, src: Reg)
        requires
            old(self).wf(),
        ensures
            final(self).wf(),
            final(self)@ == old(self)@.op(Insn::AluRR { op: Alu::Add, dst, src }),
    {
        self.alu_rr(0x01, dst, src);
        self.note(Ghost(*old(self)), Ghost(Insn::AluRR { op: Alu::Add, dst, src }));
    }

    pub fn sub_rr(&mut self, dst: Reg, src: Reg)
        requires
            old(self).wf(),
        ensures
            final(self).wf(),
            final(self)@ == old(self)@.op(Insn::AluRR { op: Alu::Sub, dst, src }),
    {
        self.alu_rr(0x29, dst, src);
        self.note(Ghost(*old(self)), Ghost(Insn::AluRR { op: Alu::Sub, dst, src }));
    }

    pub fn and_rr(&mut self, dst: Reg, src: Reg)
        requires
            old(self).wf(),
        ensures
            final(self).wf(),
            final(self)@ == old(self)@.op(Insn::AluRR { op: Alu::And, dst, src }),
    {
        self.alu_rr(0x21, dst, src);
        self.note(Ghost(*old(self)), Ghost(Insn::AluRR { op: Alu::And, dst, src }));
    }

    pub fn cmp_rr(&mut self, a: Reg, b: Reg)
        requires
            old(self).wf(),
        ensures
            final(self).wf(),
            final(self)@ == old(self)@.op(Insn::AluRR { op: Alu::Cmp, dst: a, src: b }),
    {
        self.alu_rr(0x39, a, b);
        self.note(Ghost(*old(self)), Ghost(Insn::AluRR { op: Alu::Cmp, dst: a, src: b }));
    }

    pub fn test_rr(&mut self, a: Reg, b: Reg)
        requires
            old(self).wf(),
        ensures
            final(self).wf(),
            final(self)@ == old(self)@.op(Insn::TestRR { a, b }),
    {
        self.alu_rr(0x85, a, b);
        self.note(Ghost(*old(self)), Ghost(Insn::TestRR { a, b }));
    }

    pub fn add_ri(&mut self, dst: Reg, imm: i32)
        requires
            old(self).wf(),
        ensures
            final(self).wf(),
            final(self)@ == old(self)@.op(Insn::AluRI { op: Alu::Add, dst, imm }),
    {
        self.alu_ri(0, dst, imm);
        self.note(Ghost(*old(self)), Ghost(Insn::AluRI { op: Alu::Add, dst, imm }));
    }

    pub fn or_ri(&mut self, dst: Reg, imm: i32)
        requires
            old(self).wf(),
        ensures
            final(self).wf(),
            final(self)@ == old(self)@.op(Insn::AluRI { op: Alu::Or, dst, imm }),
    {
        self.alu_ri(1, dst, imm);
        self.note(Ghost(*old(self)), Ghost(Insn::AluRI { op: Alu::Or, dst, imm }));
    }

    pub fn and_ri(&mut self, dst: Reg, imm: i32)
        requires
            old(self).wf(),
        ensures
            final(self).wf(),
            final(self)@ == old(self)@.op(Insn::AluRI { op: Alu::And, dst, imm }),
    {
        self.alu_ri(4, dst, imm);
        self.note(Ghost(*old(self)), Ghost(Insn::AluRI { op: Alu::And, dst, imm }));
    }

    pub fn sub_ri(&mut self, dst: Reg, imm: i32)
        requires
            old(self).wf(),
        ensures
            final(self).wf(),
            final(self)@ == old(self)@.op(Insn::AluRI { op: Alu::Sub, dst, imm }),
    {
        self.alu_ri(5, dst, imm);
        self.note(Ghost(*old(self)), Ghost(Insn::AluRI { op: Alu::Sub, dst, imm }));
    }

    pub fn cmp_ri(&mut self, a: Reg, imm: i32)
        requires
            old(self).wf(),
        ensures
            final(self).wf(),
            final(self)@ == old(self)@.op(Insn::AluRI { op: Alu::Cmp, dst: a, imm }),
    {
        self.alu_ri(7, a, imm);
        self.note(Ghost(*old(self)), Ghost(Insn::AluRI { op: Alu::Cmp, dst: a, imm }));
    }

    fn shift_ri(&mut self, ext: u8, dst: Reg, imm: u8)
        requires
            ext < 8,
        ensures
            final(self).grown(
                *old(self),
                insn::rex(true, Reg::Rax, dst) + seq![0xC1u8] + insn::modrm_rr(ext as int, dst)
                    + seq![imm],
            ),
    {
        self.rex_w(Reg::Rax, dst);
        self.byte(0xC1);
        self.modrm_rr(ext, dst);
        self.byte(imm);
    }

    pub fn shl_ri(&mut self, dst: Reg, imm: u8)
        requires
            old(self).wf(),
        ensures
            final(self).wf(),
            final(self)@ == old(self)@.op(Insn::ShiftRI { op: Shift::Shl, dst, imm }),
    {
        self.shift_ri(4, dst, imm);
        self.note(Ghost(*old(self)), Ghost(Insn::ShiftRI { op: Shift::Shl, dst, imm }));
    }

    pub fn shr_ri(&mut self, dst: Reg, imm: u8)
        requires
            old(self).wf(),
        ensures
            final(self).wf(),
            final(self)@ == old(self)@.op(Insn::ShiftRI { op: Shift::Shr, dst, imm }),
    {
        self.shift_ri(5, dst, imm);
        self.note(Ghost(*old(self)), Ghost(Insn::ShiftRI { op: Shift::Shr, dst, imm }));
    }

    pub fn sar_ri(&mut self, dst: Reg, imm: u8)
        requires
            old(self).wf(),
        ensures
            final(self).wf(),
            final(self)@ == old(self)@.op(Insn::ShiftRI { op: Shift::Sar, dst, imm }),
    {
        self.shift_ri(7, dst, imm);
        self.note(Ghost(*old(self)), Ghost(Insn::ShiftRI { op: Shift::Sar, dst, imm }));
    }

    pub fn imul_rr(&mut self, dst: Reg, src: Reg)
        requires
            old(self).wf(),
        ensures
            final(self).wf(),
            final(self)@ == old(self)@.op(Insn::ImulRR { dst, src }),
    {
        self.rex_w(dst, src);
        self.byte(0x0F);
        self.byte(0xAF);
        self.modrm_rr(dst.low(), src);
        self.note(Ghost(*old(self)), Ghost(Insn::ImulRR { dst, src }));
    }

    pub fn push(&mut self, r: Reg)
        requires
            old(self).wf(),
        ensures
            final(self).wf(),
            final(self)@ == old(self)@.op(Insn::Push { r }),
    {
        self.rex(false, Reg::Rax, r);
        self.byte(0x50 + r.low());
        self.note(Ghost(*old(self)), Ghost(Insn::Push { r }));
    }

    pub fn pop(&mut self, r: Reg)
        requires
            old(self).wf(),
        ensures
            final(self).wf(),
            final(self)@ == old(self)@.op(Insn::Pop { r }),
    {
        self.rex(false, Reg::Rax, r);
        self.byte(0x58 + r.low());
        self.note(Ghost(*old(self)), Ghost(Insn::Pop { r }));
    }

    pub fn call_r(&mut self, r: Reg)
        requires
            old(self).wf(),
        ensures
            final(self).wf(),
            final(self)@ == old(self)@.op(Insn::CallR { r }),
    {
        self.rex(false, Reg::Rax, r);
        self.byte(0xFF);
        self.modrm_rr(2, r);
        self.note(Ghost(*old(self)), Ghost(Insn::CallR { r }));
    }

    pub fn jmp_r(&mut self, r: Reg)
        requires
            old(self).wf(),
        ensures
            final(self).wf(),
            final(self)@ == old(self)@.op(Insn::JmpR { r }),
    {
        self.rex(false, Reg::Rax, r);
        self.byte(0xFF);
        self.modrm_rr(4, r);
        self.note(Ghost(*old(self)), Ghost(Insn::JmpR { r }));
    }

    pub fn ret(&mut self)
        requires
            old(self).wf(),
        ensures
            final(self).wf(),
            final(self)@ == old(self)@.op(Insn::Ret),
    {
        self.byte(0xC3);
        self.note(Ghost(*old(self)), Ghost(Insn::Ret));
    }

    /// Leaves room for the displacement of the jump whose opcode was just added, and enters
    /// the jump into the listing.
    fn jump_field(&mut self, label: Label, Ghost(before): Ghost<Assembler>, Ghost(item): Ghost<Item>)
        requires
            before.wf(),
            insn::jump_label(item) == Some(label.id()),
            exists|opcode: Seq<u8>| #[trigger]
                old(self).grown(before, opcode) && opcode.len() == insn::jump_opcode_len(item)
                    && insn::item_bytes(item, 0) =~= opcode + insn::le4(0),
        ensures
            final(self).wf(),
            final(self)@ == before@.push(item),
    {
        let at: usize = self.buf.len();
        self.fixups.push((at, label));
        self.buf.push(0);
        self.buf.push(0);
        self.buf.push(0);
        self.buf.push(0);
        self.listing = Ghost(self.listing@.push(item));
        proof {
            let items = before@.items;
            layout::lemma_push(items, item);
            layout::lemma_code_upto_push_raw(items, item);
            layout::lemma_code_upto_len(items, 0, items);
            assert(self.buf@ =~= insn::code_upto(self@.items, 0, self@.items));
            assert forall|l: nat| #[trigger]
                insn::label_at(items.push(item), l) == insn::label_at(items, l) by {
                layout::lemma_label_push(items, item, l);
            }
        }
    }

    pub fn jmp(&mut self, label: Label)
        requires
            old(self).wf(),
        ensures
            final(self).wf(),
            final(self)@ == old(self)@.push(Item::Jmp(label.id())),
    {
        self.byte(0xE9);
        assert(self.grown(*old(self), seq![0xE9u8]));
        self.jump_field(label, Ghost(*old(self)), Ghost(Item::Jmp(label.id())));
    }

    pub fn jcc(&mut self, cond: Cond, label: Label)
        requires
            old(self).wf(),
        ensures
            final(self).wf(),
            final(self)@ == old(self)@.push(Item::Jcc(cond, label.id())),
    {
        self.byte(0x0F);
        self.byte(0x80 + cond.code());
        assert(self.grown(*old(self), seq![0x0Fu8, (0x80 + cond.number()) as u8]));
        self.jump_field(label, Ghost(*old(self)), Ghost(Item::Jcc(cond, label.id())));
    }

    /// The finished code, or nothing if a jump names a label that is not bound or that is too
    /// far away.
    pub fn checked_finish(self) -> (r: Option<Vec<u8>>)
        requires
            self.wf(),
        ensures
            r is Some <==> insn::jumps_resolve(self@.items),
            r matches Some(code) ==> code@ == insn::assemble(self@.items),
    {
        let Assembler { mut buf, labels, fixups, listing } = self;
        let ghost items = listing@.items;
        let n: usize = fixups.len();
        let size: usize = buf.len();
        let ghost mut m: int = 0;
        proof {
            layout::lemma_code_upto_len(items, 0, items);
            assert(items.take(0) =~= seq![]);
        }
        for j in 0..n
            invariant
                self.wf(),
                items == self@.items,
                labels == self.labels,
                fixups == self.fixups,
                n == fixups@.len(),
                0 <= m <= items.len(),
                insn::fixups_of(items.take(m)).len() == j,
                buf@ == insn::code_upto(items, m, items),
                buf@.len() == size,
                insn::code_len(items) == size,
                self.buf@.len() == size,
                forall|k: int| 0 <= k < m ==> #[trigger] insn::jump_resolves(items, k),
        {
            let (at, label) = fixups[j];
            let ghost k = layout::lemma_fixup_item(items, j as int);
            proof {
                layout::lemma_no_jumps_between(items, m, k);
                layout::lemma_code_upto_skip(items, m, k, items);
                layout::lemma_field_fits(items, k);
                layout::lemma_code_upto_set(items, k, items);
                assert(label.id() == insn::jump_label(items[k]).unwrap());
            }
            if label.0 >= labels.len() {
                assert(!insn::jump_resolves(items, k));
                return None;
            }
            match labels[label.0] {
                None => {
                    assert(!insn::jump_resolves(items, k));
                    return None;
                },
                Some(target) => {
                    let end: usize = at + 4;
                    assert(insn::label_at(items, label.id()) == Some(target as nat));
                    let field: u32 = if target >= end {
                        let d: usize = target - end;
                        if d > 0x7FFF_FFFF {
                            assert(!insn::jump_resolves(items, k));
                            return None;
                        }
                        d as u32
                    } else {
                        let d: usize = end - target;
                        if d > 0x8000_0000 {
                            assert(!insn::jump_resolves(items, k));
                            return None;
                        }
                        (0x1_0000_0000u64 - d as u64) as u32
                    };
                    assert(field == insn::resolved_field(items, k, items));
                    buf.set(at, (field % 256) as u8);
                    buf.set(at + 1, (field / 0x100 % 256) as u8);
                    buf.set(at + 2, (field / 0x1_0000 % 256) as u8);
                    buf.set(at + 3, (field / 0x100_0000 % 256) as u8);
                    proof {
                        assert(buf@ =~= insn::code_upto(items, k + 1, items));
                        layout::lemma_count_step(items, k);
                        assert(insn::jump_resolves(items, k));
                        assert forall|i: int| 0 <= i < k + 1 implies #[trigger] insn::jump_resolves(
                            items,
                            i,
                        ) by {
                            if i >= m && i < k {
                                assert(insn::jump_label(items[i]) is None);
                            }
                        }
                        m = k + 1;
                    }
                },
            }
        }
        proof {
            assert(items.take(items.len() as int) =~= items);
            layout::lemma_no_jumps_between(items, m, items.len() as int);
            layout::lemma_code_upto_skip(items, m, items.len() as int, items);
            assert forall|i: int| 0 <= i < items.len() implies #[trigger] insn::jump_resolves(
                items,
                i,
            ) by {
                if i >= m {
                    assert(insn::jump_label(items[i]) is None);
                }
            }
        }
        Some(buf)
    }

    pub fn finish(self) -> (r: Vec<u8>)
        requires
            self.wf(),
            insn::jumps_resolve(self@.items),
        ensures
            r@ == insn::assemble(self@.items),
    {
        self.checked_finish().unwrap()
    }
}

impl Default for Assembler {
    fn default() -> (r: Self)
        ensures
            r.wf(),
            r@ == Listing::empty(),
    {
        Assembler::new()
    }
}

} // verus!
