use vstd::prelude::*;
use riscv::register::mcause::Exception;

verus! {

/// A trap of the guest that the firmware knows how to handle.
#[derive(Clone, Copy, Debug, PartialEq, Eq, Structural)]
pub enum MachineTrap {
    /// An environment call from supervisor mode: an SBI call.
    SbiCall,
    LoadAccessFault(usize),
    StoreAccessFault(usize),
    IllegalInstruction(usize),
}

/// The exception causes that the classification tells apart.
#[derive(Clone, Copy, Debug, PartialEq, Eq, Structural)]
pub enum ExceptionKind {
    IllegalInstruction,
    LoadFault,
    StoreFault,
    SupervisorEnvCall,
    Other,
}

/// The exception that a cause code names, by the privileged architecture's numbering.
pub open spec fn exception_kind_spec(code: usize) -> ExceptionKind {
    if code == 2 {
        ExceptionKind::IllegalInstruction
    } else if code == 5 {
        ExceptionKind::LoadFault
    } else if code == 7 {
        ExceptionKind::StoreFault
    } else if code == 9 {
        ExceptionKind::SupervisorEnvCall
    } else {
        ExceptionKind::Other
    }
}

/// Relies on riscv's `Exception::from`: code 2 is an illegal instruction,
/// 5 a load access fault, 7 a store/AMO access fault, 9 an environment call
/// from supervisor mode.
#[verifier::external_body]
fn exception_kind(code: usize) -> (r: ExceptionKind)
    ensures
        r == exception_kind_spec(code),
{
    match Exception::from(code) {
        Exception::IllegalInstruction => ExceptionKind::IllegalInstruction,
        Exception::LoadFault => ExceptionKind::LoadFault,
        Exception::StoreFault => ExceptionKind::StoreFault,
        Exception::SupervisorEnvCall => ExceptionKind::SupervisorEnvCall,
        _ => ExceptionKind::Other,
    }
}

/// Whether `mcause` has its top bit, the interrupt flag, set.
pub open spec fn is_interrupt(mcause: usize) -> bool {
    mcause > usize::MAX / 2
}

/// The trap that `mcause` and `mtval` describe, or `None` for any other cause.
pub open spec fn classify_spec(mcause: usize, mtval: usize) -> Option<MachineTrap> {
    if is_interrupt(mcause) {
        None
    } else {
        match exception_kind_spec(mcause) {
            ExceptionKind::SupervisorEnvCall => Some(MachineTrap::SbiCall),
            ExceptionKind::LoadFault => Some(MachineTrap::LoadAccessFault(mtval)),
            ExceptionKind::StoreFault => Some(MachineTrap::StoreAccessFault(mtval)),
            ExceptionKind::IllegalInstruction => Some(MachineTrap::IllegalInstruction(mtval)),
            ExceptionKind::Other => None,
        }
    }
}

/// Classifies a trap from the raw `mcause` and `mtval` registers. `None` means
/// a cause this firmware does not handle: the caller must stop the hart.
pub fn classify_trap(mcause: usize, mtval: usize) -> (r: Option<MachineTrap>)
    ensures
        r == classify_spec(mcause, mtval),
{
    if mcause > usize::MAX / 2 {
        return None;
    }
    match exception_kind(mcause) {
        ExceptionKind::SupervisorEnvCall => Some(MachineTrap::SbiCall),
        ExceptionKind::LoadFault => Some(MachineTrap::LoadAccessFault(mtval)),
        ExceptionKind::StoreFault => Some(MachineTrap::StoreAccessFault(mtval)),
        ExceptionKind::IllegalInstruction => Some(MachineTrap::IllegalInstruction(mtval)),
        ExceptionKind::Other => None,
    }
}

/// A trap is handled only for the four known exception causes; every other
/// cause, and every interrupt, is refused.
pub proof fn lemma_unknown_cause_is_refused(mcause: usize, mtval: usize)
    ensures
        classify_spec(mcause, mtval) is None <==> (is_interrupt(mcause) || !(mcause == 2
            || mcause == 5 || mcause == 7 || mcause == 9)),
{
}

/// What the dispatcher loop does with a trap.
#[derive(Clone, Copy, Debug, PartialEq, Eq, Structural)]
pub enum Dispatch {
    /// Call the SBI dispatcher and hand its result back to the guest.
    SbiCall,
    /// Enter the debug console.
    Breakpoint,
    /// Stop: the trap has no handler.
    Fatal,
}

pub open spec fn dispatch_spec(trap: MachineTrap) -> Dispatch {
    match trap {
        MachineTrap::SbiCall => Dispatch::SbiCall,
        MachineTrap::IllegalInstruction(_) => Dispatch::Breakpoint,
        _ => Dispatch::Fatal,
    }
}

pub fn dispatch(trap: &MachineTrap) -> (r: Dispatch)
    ensures
        r == dispatch_spec(*trap),
{
    match trap {
        MachineTrap::SbiCall => Dispatch::SbiCall,
        MachineTrap::IllegalInstruction(_) => Dispatch::Breakpoint,
        _ => Dispatch::Fatal,
    }
}

/// The address written to `mtvec` for a trap entry at `addr`: rounded up to
/// the four-byte alignment that direct mode asks for, when `addr` is two-byte aligned.
pub fn trap_vector_base(addr: usize) -> (r: usize)
    requires
        addr <= usize::MAX - 2,
    ensures
        r == if addr % 4 >= 2 {
            addr + 2
        } else {
            addr as int
        },
        addr % 2 == 0 ==> r % 4 == 0,
{
    proof {
        let a = addr as int;
        let q = a / 4;
        vstd::arithmetic::div_mod::lemma_fundamental_div_mod(a, 4);
        assert(a % 2 == 0 ==> a % 4 == 0 || a % 4 == 2) by (nonlinear_arith)
            requires
                a == 4 * q + a % 4,
                0 <= a % 4 < 4,
        ;
        assert((4 * q + 4) % 4 == 0 && (4 * q) % 4 == 0) by (nonlinear_arith);
    }
    if addr % 4 >= 2 {
        addr + 2
    } else {
        addr
    }
}

} // verus!
