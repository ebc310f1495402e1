use qemu_sbi::context::{KernelContext, Runtime};
use qemu_sbi::trap::{classify_trap, dispatch, trap_vector_base, Dispatch, MachineTrap};

#[test]
fn classify_known_causes() {
    assert_eq!(classify_trap(9, 0x55), Some(MachineTrap::SbiCall));
    assert_eq!(classify_trap(5, 0x1000), Some(MachineTrap::LoadAccessFault(0x1000)));
    assert_eq!(classify_trap(7, 0x2000), Some(MachineTrap::StoreAccessFault(0x2000)));
    assert_eq!(classify_trap(2, 0x73), Some(MachineTrap::IllegalInstruction(0x73)));
}

#[test]
fn classify_refuses_other_causes() {
    for code in [0usize, 1, 3, 4, 6, 8, 11, 12, 13, 15, 16, 100] {
        assert_eq!(classify_trap(code, 0), None);
    }
    let interrupt = 1usize << (usize::BITS - 1);
    for code in [2usize, 5, 7, 9] {
        assert_eq!(classify_trap(interrupt | code, 0), None);
    }
}

#[test]
fn dispatch_policy() {
    assert_eq!(dispatch(&MachineTrap::SbiCall), Dispatch::SbiCall);
    assert_eq!(dispatch(&MachineTrap::IllegalInstruction(0)), Dispatch::Breakpoint);
    assert_eq!(dispatch(&MachineTrap::LoadAccessFault(0)), Dispatch::Fatal);
    assert_eq!(dispatch(&MachineTrap::StoreAccessFault(0)), Dispatch::Fatal);
}

#[test]
fn trap_vector_is_aligned() {
    assert_eq!(trap_vector_base(0x8000_0002), 0x8000_0004);
    assert_eq!(trap_vector_base(0x8000_0004), 0x8000_0004);
}

#[test]
fn boot_context() {
    let rt = Runtime::new(3, 0xdead, 0x8020_0000, 0x800);
    let c = rt.context();
    assert_eq!(c.a0, 3);
    assert_eq!(c.a1, 0xdead);
    assert_eq!(c.mepc, 0x8020_0000);
    assert_eq!(c.mstatus, 0x800);
    assert_eq!(c.sp, 0);
    assert_eq!(c.a7, 0);
}

#[test]
fn sbi_call_round_trip() {
    let mut rt = Runtime::new(0, 0, 0x8020_0000, 0);
    {
        let c = rt.context_mut();
        c.a7 = 0x10;
        c.a6 = 3;
        c.a0 = 1;
        c.a4 = 5;
    }
    let call = rt.context().sbi_call();
    assert_eq!(call.extension, 0x10);
    assert_eq!(call.function, 3);
    assert_eq!(call.params, [1, 0, 0, 0, 5]);
    rt.context_mut().finish_sbi_call(0, 42);
    let words = rt.context().to_words();
    assert_eq!(words[9], 0);
    assert_eq!(words[10], 42);
    assert_eq!(words[32], 0x8020_0004);
    assert_eq!(words[16], 0x10);
}

#[test]
fn program_counter_wraps() {
    let mut rt = Runtime::new(0, 0, usize::MAX - 1, 0);
    rt.context_mut().finish_sbi_call(1, 2);
    assert_eq!(rt.context().mepc, 2);
}

#[test]
fn save_area_layout() {
    let mut w = [0usize; 34];
    for (i, x) in w.iter_mut().enumerate() {
        *x = i * 10;
    }
    let c = KernelContext::from_words(&w);
    assert_eq!(c.ra, 0);
    assert_eq!(c.sp, 10);
    assert_eq!(c.a0, 90);
    assert_eq!(c.t6, 300);
    assert_eq!(c.mstatus, 310);
    assert_eq!(c.mepc, 320);
    assert_eq!(c.machine_stack, 330);
    assert_eq!(c.to_words(), w);
}
