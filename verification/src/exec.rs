//! Calling conventions and executable memory.
use crate::assembler::Reg;
use vstd::prelude::*;

verus! {

/// The calling conventions that generated code can follow.
#[derive(Copy, Clone, Debug, PartialEq, Eq, Structural)]
pub enum Abi {
    SystemV,
    Windows,
}

impl Abi {
    /// The register of the first argument.
    pub open spec fn first_arg(self) -> Reg {
        match self {
            Abi::SystemV => Reg::Rdi,
            Abi::Windows => Reg::Rcx,
        }
    }

    /// The register of the second argument.
    pub open spec fn second_arg(self) -> Reg {
        match self {
            Abi::SystemV => Reg::Rsi,
            Abi::Windows => Reg::Rdx,
        }
    }

    /// The register of the third argument.
    pub open spec fn third_arg(self) -> Reg {
        match self {
            Abi::SystemV => Reg::Rdx,
            Abi::Windows => Reg::R8,
        }
    }

    /// The stack bytes a caller leaves free for the callee.
    pub open spec fn home_space(self) -> i32 {
        match self {
            Abi::SystemV => 0,
            Abi::Windows => 32,
        }
    }

    /// A callee leaves the register as it was.
    pub open spec fn keeps(self, r: Reg) -> bool {
        match r {
            Reg::Rbx => true,
            Reg::Rbp => true,
            Reg::Rsp => true,
            Reg::R12 => true,
            Reg::R13 => true,
            Reg::R14 => true,
            Reg::R15 => true,
            Reg::Rsi => self == Abi::Windows,
            Reg::Rdi => self == Abi::Windows,
            _ => false,
        }
    }

    pub fn arg0(self) -> (r: Reg)
        ensures
            r == self.first_arg(),
    {
        match self {
            Abi::SystemV => Reg::Rdi,
            Abi::Windows => Reg::Rcx,
        }
    }

    pub fn arg1(self) -> (r: Reg)
        ensures
            r == self.second_arg(),
    {
        match self {
            Abi::SystemV => Reg::Rsi,
            Abi::Windows => Reg::Rdx,
        }
    }

    pub fn arg2(self) -> (r: Reg)
        ensures
            r == self.third_arg(),
    {
        match self {
            Abi::SystemV => Reg::Rdx,
            Abi::Windows => Reg::R8,
        }
    }

    pub fn shadow_space(self) -> (r: i32)
        ensures
            r == self.home_space(),
    {
        match self {
            Abi::SystemV => 0,
            Abi::Windows => 32,
        }
    }
}

/// Why code could not be mapped.
#[derive(Copy, Clone, Debug, PartialEq, Eq, Structural)]
pub enum ExecError {
    Empty,
    /// the error number of the system, zero where it gave none
    Os(i32),
}

/// The character of a decimal digit.
pub open spec fn digit_char(d: nat) -> char {
    ('0' as u32 + d) as char
}

/// A number in decimal digits.
pub open spec fn decimal(n: nat) -> Seq<char>
    decreases n,
{
    if n < 10 {
        seq![digit_char(n)]
    } else {
        decimal(n / 10).push(digit_char(n % 10))
    }
}

/// A number in decimal digits, with its sign where it is negative.
pub open spec fn signed_decimal(v: int) -> Seq<char> {
    if v < 0 {
        "-"@ + decimal((-v) as nat)
    } else {
        decimal(v as nat)
    }
}

fn digit(d: u32) -> (r: &'static str)
    requires
        d < 10,
    ensures
        r@ == seq![digit_char(d as nat)],
{
    proof {
        reveal_strlit("0");
        reveal_strlit("1");
        reveal_strlit("2");
        reveal_strlit("3");
        reveal_strlit("4");
        reveal_strlit("5");
        reveal_strlit("6");
        reveal_strlit("7");
        reveal_strlit("8");
        reveal_strlit("9");
    }
    match d {
        0 => "0",
        1 => "1",
        2 => "2",
        3 => "3",
        4 => "4",
        5 => "5",
        6 => "6",
        7 => "7",
        8 => "8",
        _ => "9",
    }
}

fn digits(n: u32) -> (r: String)
    ensures
        r@ == decimal(n as nat),
    decreases n,
{
    if n < 10 {
        String::from_str(digit(n))
    } else {
        let mut r = digits(n / 10);
        r.append(digit(n % 10));
        assert(r@ =~= decimal(n as nat));
        r
    }
}

impl ExecError {
    /// What the message says.
    pub open spec fn text(self) -> Seq<char> {
        match self {
            ExecError::Empty => "no code to map"@,
            ExecError::Os(code) => "os error "@ + signed_decimal(code as int),
        }
    }

    /// The message for a reader.
    pub fn message(&self) -> (r: String)
        ensures
            r@ == self.text(),
    {
        match self {
            ExecError::Empty => String::from_str("no code to map"),
            ExecError::Os(code) => {
                let mut r = String::from_str("os error ");
                if *code < 0 {
                    r.append("-");
                    let d = digits((-(*code as i64)) as u32);
                    r.append(d.as_str());
                    assert(r@ =~= "os error "@ + ("-"@ + d@));
                } else {
                    r.append(digits(*code as u32).as_str());
                }
                r
            },
        }
    }
}

/// The granularity in which memory is mapped.
pub const PAGE: usize = 4096;

/// Memory that holds code: its address, and how many bytes are mapped there.
#[derive(Copy, Clone, Debug, PartialEq, Eq, Structural)]
pub struct ExecMemory {
    addr: usize,
    size: usize,
}

impl ExecMemory {
    pub closed spec fn address(self) -> usize {
        self.addr
    }

    pub closed spec fn bytes(self) -> usize {
        self.size
    }

    /// Starts the mapping of code: without any it fails, otherwise whole pages are asked for.
    pub fn new(code: &[u8]) -> (r: Mapping)
        requires
            code@.len() + PAGE - 1 <= usize::MAX,
        ensures
            r == Mapping::start(code@.len()),
    {
        if code.len() == 0 {
            Mapping::Failed(ExecError::Empty)
        } else {
            let pages: usize = (code.len() + (PAGE - 1)) / PAGE;
            assert(pages * 4096 <= code@.len() + 4095);
            Mapping::Reserve { size: pages * PAGE }
        }
    }

    /// The address of the first byte.
    pub fn as_ptr(&self) -> (r: usize)
        ensures
            r == self.address(),
    {
        self.addr
    }

    /// How many bytes are mapped.
    pub fn size(&self) -> (r: usize)
        ensures
            r == self.bytes(),
    {
        self.size
    }
}

/// The number of bytes that is mapped for `len` bytes of code: the least number of whole
/// pages that holds them.
pub open spec fn page_bytes(len: nat) -> nat {
    (len + PAGE - 1) as nat / PAGE as nat * PAGE as nat
}

/// How the mapping of code stands. Each state but the last names what has to be done next.
#[derive(Copy, Clone, Debug, PartialEq, Eq, Structural)]
pub enum Mapping {
    /// map `size` bytes that can be read and written
    Reserve { size: usize },
    /// copy the code to `addr`, then make the `size` bytes there executable and read-only
    Seal { addr: usize, size: usize },
    /// unmap the `size` bytes at `addr`
    Release { addr: usize, size: usize, error: ExecError },
    Mapped(ExecMemory),
    Failed(ExecError),
}

/// What came of the thing to be done. A failure carries the error number of the system, where
/// it gave one.
#[derive(Copy, Clone, Debug, PartialEq, Eq, Structural)]
pub enum Outcome {
    Reserved(usize),
    Sealed,
    Released,
    Refused(Option<i32>),
}

/// The error for an error number of the system.
pub open spec fn os_error_of(code: Option<i32>) -> ExecError {
    ExecError::Os(match code {
        Some(c) => c,
        None => 0,
    })
}

fn os_error(code: Option<i32>) -> (r: ExecError)
    ensures
        r == os_error_of(code),
{
    match code {
        Some(c) => ExecError::Os(c),
        None => ExecError::Os(0),
    }
}

impl Mapping {
    /// Where the mapping of `len` bytes of code starts.
    pub open spec fn start(len: nat) -> Mapping {
        if len == 0 {
            Mapping::Failed(ExecError::Empty)
        } else {
            Mapping::Reserve { size: page_bytes(len) as usize }
        }
    }

    /// The outcome can come of what the state asks for.
    pub open spec fn expects(self, o: Outcome) -> bool {
        match self {
            Mapping::Reserve { .. } => o is Reserved || o is Refused,
            Mapping::Seal { .. } => o is Sealed || o is Refused,
            Mapping::Release { .. } => o is Released,
            _ => false,
        }
    }

    /// The state after the outcome.
    pub open spec fn after(self, o: Outcome) -> Mapping {
        match (self, o) {
            (Mapping::Reserve { size }, Outcome::Reserved(addr)) => Mapping::Seal { addr, size },
            (Mapping::Reserve { .. }, Outcome::Refused(code)) => Mapping::Failed(os_error_of(code)),
            (Mapping::Seal { addr, size }, Outcome::Sealed) => Mapping::mapped(addr, size),
            (Mapping::Seal { addr, size }, Outcome::Refused(code)) => Mapping::Release {
                addr,
                size,
                error: os_error_of(code),
            },
            (Mapping::Release { error, .. }, Outcome::Released) => Mapping::Failed(error),
            _ => self,
        }
    }

    /// The state in which `size` bytes of code are mapped at `addr`.
    pub closed spec fn mapped(addr: usize, size: usize) -> Mapping {
        Mapping::Mapped(ExecMemory { addr, size })
    }

    /// Nothing is left to do.
    pub open spec fn is_final(self) -> bool {
        self is Mapped || self is Failed
    }

    /// The memory that is mapped in this state, as address and size.
    pub open spec fn holds(self) -> Option<(usize, usize)> {
        match self {
            Mapping::Reserve { .. } => None,
            Mapping::Seal { addr, size } => Some((addr, size)),
            Mapping::Release { addr, size, .. } => Some((addr, size)),
            Mapping::Mapped(mem) => Some((mem.address(), mem.bytes())),
            Mapping::Failed(_) => None,
        }
    }

    /// Goes on with what came of the thing to be done.
    pub fn step(self, o: Outcome) -> (r: Mapping)
        requires
            self.expects(o),
        ensures
            r == self.after(o),
    {
        match (self, o) {
            (Mapping::Reserve { size }, Outcome::Reserved(addr)) => Mapping::Seal { addr, size },
            (Mapping::Reserve { .. }, Outcome::Refused(code)) => Mapping::Failed(os_error(code)),
            (Mapping::Seal { addr, size }, Outcome::Sealed) => Mapping::Mapped(
                ExecMemory { addr, size },
            ),
            (Mapping::Seal { addr, size }, Outcome::Refused(code)) => Mapping::Release {
                addr,
                size,
                error: os_error(code),
            },
            (Mapping::Release { error, .. }, Outcome::Released) => Mapping::Failed(error),
            _ => self,
        }
    }
}

/// The state after a run of outcomes.
pub open spec fn run_mapping(m: Mapping, outcomes: Seq<Outcome>) -> Mapping
    decreases outcomes.len(),
{
    if outcomes.len() == 0 {
        m
    } else {
        run_mapping(m, outcomes.drop_last()).after(outcomes.last())
    }
}

/// Each outcome of the run can come of what its state asks for.
pub open spec fn run_expects(m: Mapping, outcomes: Seq<Outcome>) -> bool
    decreases outcomes.len(),
{
    outcomes.len() > 0 ==> {
        &&& run_expects(m, outcomes.drop_last())
        &&& run_mapping(m, outcomes.drop_last()).expects(outcomes.last())
    }
}

/// Where memory is mapped after a run of outcomes.
pub open spec fn reserved_at(outcomes: Seq<Outcome>) -> Option<usize>
    decreases outcomes.len(),
{
    if outcomes.len() == 0 {
        None
    } else {
        match outcomes.last() {
            Outcome::Reserved(addr) => Some(addr),
            Outcome::Released => None,
            _ => reserved_at(outcomes.drop_last()),
        }
    }
}

/// A mapping that was sealed is mapped: the memory is that which was reserved.
pub proof fn law_sealed_is_mapped(addr: usize, size: usize)
    ensures
        Mapping::mapped(addr, size) matches Mapping::Mapped(m) && m.address() == addr && m.bytes()
            == size,
{
}

/// No memory is lost: whatever the system answers, what is mapped at any moment is what the
/// state holds. So at the end it belongs to the result, and after a failure there is none.
pub proof fn law_memory_is_owned(len: nat, outcomes: Seq<Outcome>)
    requires
        run_expects(Mapping::start(len), outcomes),
    ensures
        ({
            let m = run_mapping(Mapping::start(len), outcomes);
            &&& reserved_at(outcomes) == (match m.holds() {
                Some((addr, _)) => Some(addr),
                None => None,
            })
            &&& m matches Mapping::Failed(_) ==> reserved_at(outcomes) is None
            &&& m.holds() matches Some((_, size)) ==> size == page_bytes(len) as usize
            &&& m matches Mapping::Reserve { size } ==> size == page_bytes(len) as usize
        }),
    decreases outcomes.len(),
{
    if outcomes.len() > 0 {
        law_memory_is_owned(len, outcomes.drop_last());
    }
}

/// A mapping comes to an end after at most three outcomes.
pub proof fn law_mapping_ends(len: nat, outcomes: Seq<Outcome>)
    requires
        run_expects(Mapping::start(len), outcomes),
    ensures
        outcomes.len() <= 3,
        outcomes.len() == 3 ==> run_mapping(Mapping::start(len), outcomes).is_final(),
    decreases outcomes.len(),
{
    if outcomes.len() > 0 {
        let front = outcomes.drop_last();
        law_mapping_ends(len, front);
        reveal_with_fuel(run_mapping, 5);
        reveal_with_fuel(run_expects, 5);
    }
}

/// What is mapped holds the code, fills whole pages, and is less than a page too large.
pub proof fn law_page_bytes(len: nat)
    ensures
        len <= page_bytes(len) < len + PAGE,
        page_bytes(len) % PAGE as nat == 0,
{
}

/// The number that a row of decimal digits stands for.
pub open spec fn read_decimal(s: Seq<char>) -> int
    decreases s.len(),
{
    if s.len() == 0 {
        0
    } else {
        read_decimal(s.drop_last()) * 10 + (s.last() as u32 - 48)
    }
}

/// The digits of a number read back as that number. They are digits, and begin with zero only
/// for zero itself.
pub proof fn law_decimal_reads_back(n: nat)
    ensures
        read_decimal(decimal(n)) == n,
        decimal(n).len() > 0,
        forall|i: int| 0 <= i < decimal(n).len() ==> 48 <= #[trigger] decimal(n)[i] as u32 <= 57,
        decimal(n)[0] as u32 == 48 <==> n == 0,
    decreases n,
{
    if n < 10 {
        assert(decimal(n).drop_last() =~= Seq::<char>::empty());
        assert(read_decimal(decimal(n).drop_last()) == 0);
    } else {
        law_decimal_reads_back(n / 10);
        assert(decimal(n).drop_last() =~= decimal(n / 10));
        assert(decimal(n)[0] == decimal(n / 10)[0]);
    }
}

/// A negative number has a minus before the digits of its opposite; no other number has one.
pub proof fn law_signed_decimal(v: int)
    ensures
        v >= 0 ==> read_decimal(signed_decimal(v)) == v && signed_decimal(v)[0] as u32 != 45,
        v < 0 ==> signed_decimal(v)[0] as u32 == 45 && read_decimal(signed_decimal(v).skip(1)) == -v,
{
    reveal_strlit("-");
    if v < 0 {
        law_decimal_reads_back((-v) as nat);
        assert(signed_decimal(v).skip(1) =~= decimal((-v) as nat));
    } else {
        law_decimal_reads_back(v as nat);
        assert(48 <= decimal(v as nat)[0] as u32);
    }
}

/// The error number of the last refusal, as far as the system gave one.
pub open spec fn refusal(outcomes: Seq<Outcome>) -> Option<i32>
    decreases outcomes.len(),
{
    if outcomes.len() == 0 {
        None
    } else {
        match outcomes.last() {
            Outcome::Refused(code) => Some(code.unwrap_or(0)),
            _ => refusal(outcomes.drop_last()),
        }
    }
}

/// A mapping fails exactly if there is no code, or something was refused and what was reserved
/// is released; the error is the one that the system gave, zero where it gave none.
pub proof fn law_refusals_are_reported(len: nat, outcomes: Seq<Outcome>)
    requires
        run_expects(Mapping::start(len), outcomes),
    ensures
        ({
            let m = run_mapping(Mapping::start(len), outcomes);
            &&& len == 0 ==> m == Mapping::Failed(ExecError::Empty)
            &&& len > 0 && refusal(outcomes) is None ==> !(m is Failed) && !(m is Release)
            &&& len > 0 ==> match refusal(outcomes) {
                Some(code) => match m {
                    Mapping::Failed(error) => error == ExecError::Os(code),
                    Mapping::Release { error, .. } => error == ExecError::Os(code),
                    _ => false,
                },
                None => true,
            }
        }),
    decreases outcomes.len(),
{
    if outcomes.len() > 0 {
        law_refusals_are_reported(len, outcomes.drop_last());
    }
}

/// The registers in which arguments are handed over, and the room that a caller leaves.
pub proof fn law_calling_conventions()
    ensures
        Abi::SystemV.first_arg() == Reg::Rdi,
        Abi::SystemV.second_arg() == Reg::Rsi,
        Abi::SystemV.third_arg() == Reg::Rdx,
        Abi::SystemV.home_space() == 0,
        Abi::Windows.first_arg() == Reg::Rcx,
        Abi::Windows.second_arg() == Reg::Rdx,
        Abi::Windows.third_arg() == Reg::R8,
        Abi::Windows.home_space() == 32,
{
}

} // verus!
