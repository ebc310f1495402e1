use vstd::prelude::*;

verus! {

/// The guest's registers as the trap entry saved them, with the privileged
/// status and program counter to return to, and the firmware's own stack.
#[derive(Clone, Copy, Debug, PartialEq, Eq, Structural)]
pub struct KernelContext {
    pub ra: usize,
    pub sp: usize,
    pub gp: usize,
    pub tp: usize,
    pub t0: usize,
    pub t1: usize,
    pub t2: usize,
    pub s0: usize,
    pub s1: usize,
    pub a0: usize,
    pub a1: usize,
    pub a2: usize,
    pub a3: usize,
    pub a4: usize,
    pub a5: usize,
    pub a6: usize,
    pub a7: usize,
    pub s2: usize,
    pub s3: usize,
    pub s4: usize,
    pub s5: usize,
    pub s6: usize,
    pub s7: usize,
    pub s8: usize,
    pub s9: usize,
    pub s10: usize,
    pub s11: usize,
    pub t3: usize,
    pub t4: usize,
    pub t5: usize,
    pub t6: usize,
    /// The raw bits of `mstatus`.
    pub mstatus: usize,
    pub mepc: usize,
    pub machine_stack: usize,
}

/// The field of `c` stored at word `i` of the save area.
pub open spec fn slot(c: KernelContext, i: int) -> usize {
    if i == 0 {
        c.ra
    } else if i == 1 {
        c.sp
    } else if i == 2 {
        c.gp
    } else if i == 3 {
        c.tp
    } else if i == 4 {
        c.t0
    } else if i == 5 {
        c.t1
    } else if i == 6 {
        c.t2
    } else if i == 7 {
        c.s0
    } else if i == 8 {
        c.s1
    } else if i == 9 {
        c.a0
    } else if i == 10 {
        c.a1
    } else if i == 11 {
        c.a2
    } else if i == 12 {
        c.a3
    } else if i == 13 {
        c.a4
    } else if i == 14 {
        c.a5
    } else if i == 15 {
        c.a6
    } else if i == 16 {
        c.a7
    } else if i == 17 {
        c.s2
    } else if i == 18 {
        c.s3
    } else if i == 19 {
        c.s4
    } else if i == 20 {
        c.s5
    } else if i == 21 {
        c.s6
    } else if i == 22 {
        c.s7
    } else if i == 23 {
        c.s8
    } else if i == 24 {
        c.s9
    } else if i == 25 {
        c.s10
    } else if i == 26 {
        c.s11
    } else if i == 27 {
        c.t3
    } else if i == 28 {
        c.t4
    } else if i == 29 {
        c.t5
    } else if i == 30 {
        c.t6
    } else if i == 31 {
        c.mstatus
    } else if i == 32 {
        c.mepc
    } else {
        c.machine_stack
    }
}

/// The context a hart starts its guest with.
pub open spec fn boot_context(mhartid: usize, opaque: usize, mepc: usize, mstatus: usize) -> KernelContext {
    KernelContext {
        ra: 0,
        sp: 0,
        gp: 0,
        tp: 0,
        t0: 0,
        t1: 0,
        t2: 0,
        s0: 0,
        s1: 0,
        a0: mhartid,
        a1: opaque,
        a2: 0,
        a3: 0,
        a4: 0,
        a5: 0,
        a6: 0,
        a7: 0,
        s2: 0,
        s3: 0,
        s4: 0,
        s5: 0,
        s6: 0,
        s7: 0,
        s8: 0,
        s9: 0,
        s10: 0,
        s11: 0,
        t3: 0,
        t4: 0,
        t5: 0,
        t6: 0,
        mstatus,
        mepc,
        machine_stack: 0,
    }
}

/// The program counter one call instruction (4 bytes) further on, wrapping.
pub open spec fn next_pc(pc: usize) -> usize {
    if pc + 4 > usize::MAX {
        (pc + 4 - (usize::MAX + 1)) as usize
    } else {
        (pc + 4) as usize
    }
}

/// The context after an SBI call's two-word result is handed back.
pub open spec fn finished_call(c: KernelContext, error: usize, value: usize) -> KernelContext {
    KernelContext { a0: error, a1: value, mepc: next_pc(c.mepc), ..c }
}

/// The guest resumes from the save area with the call's error in a0 and its
/// value in a1, at the instruction after the call; no other word changes.
pub proof fn lemma_sbi_call_round_trip(c: KernelContext, error: usize, value: usize)
    ensures
        slot(finished_call(c, error, value), 9) == error,
        slot(finished_call(c, error, value), 10) == value,
        slot(finished_call(c, error, value), 32) == next_pc(c.mepc),
        c.mepc + 4 <= usize::MAX ==> slot(finished_call(c, error, value), 32) == c.mepc + 4,
        forall|i: int|
            0 <= i < 34 && i != 9 && i != 10 && i != 32 ==> slot(finished_call(c, error, value), i)
                == slot(c, i),
{
}

/// An SBI call as the guest placed it in its argument registers.
#[derive(Clone, Copy, Debug, PartialEq, Eq)]
pub struct SbiCall {
    pub extension: usize,
    pub function: usize,
    pub params: [usize; 5],
}

impl KernelContext {
    /// The save area as words, in the order the mode-transition routines use.
    pub fn to_words(&self) -> (r: [usize; 34])
        ensures
            forall|i: int| 0 <= i < 34 ==> r@[i] == slot(*self, i),
    {
        let r = [
            self.ra, self.sp, self.gp, self.tp, self.t0, self.t1, self.t2, self.s0, self.s1,
            self.a0, self.a1, self.a2, self.a3, self.a4, self.a5, self.a6, self.a7, self.s2,
            self.s3, self.s4, self.s5, self.s6, self.s7, self.s8, self.s9, self.s10, self.s11,
            self.t3, self.t4, self.t5, self.t6, self.mstatus, self.mepc, self.machine_stack,
        ];
        r
    }

    /// The context that a save area holds.
    pub fn from_words(w: &[usize; 34]) -> (r: KernelContext)
        ensures
            forall|i: int| 0 <= i < 34 ==> slot(r, i) == w@[i],
    {
        KernelContext {
            ra: w[0],
            sp: w[1],
            gp: w[2],
            tp: w[3],
            t0: w[4],
            t1: w[5],
            t2: w[6],
            s0: w[7],
            s1: w[8],
            a0: w[9],
            a1: w[10],
            a2: w[11],
            a3: w[12],
            a4: w[13],
            a5: w[14],
            a6: w[15],
            a7: w[16],
            s2: w[17],
            s3: w[18],
            s4: w[19],
            s5: w[20],
            s6: w[21],
            s7: w[22],
            s8: w[23],
            s9: w[24],
            s10: w[25],
            s11: w[26],
            t3: w[27],
            t4: w[28],
            t5: w[29],
            t6: w[30],
            mstatus: w[31],
            mepc: w[32],
            machine_stack: w[33],
        }
    }

    /// The extension id (a7), function id (a6) and parameters (a0 to a4) of
    /// the SBI call the guest made.
    pub fn sbi_call(&self) -> (r: SbiCall)
        ensures
            r.extension == self.a7,
            r.function == self.a6,
            r.params@ == seq![self.a0, self.a1, self.a2, self.a3, self.a4],
    {
        let r = SbiCall {
            extension: self.a7,
            function: self.a6,
            params: [self.a0, self.a1, self.a2, self.a3, self.a4],
        };
        assert(r.params@ =~= seq![self.a0, self.a1, self.a2, self.a3, self.a4]);
        r
    }

    /// Hands the two-word result of an SBI call back to the guest (a0, a1)
    /// and moves its program counter past the call instruction.
    pub fn finish_sbi_call(&mut self, error: usize, value: usize)
        ensures
            *final(self) == finished_call(*old(self), error, value),
    {
        self.a0 = error;
        self.a1 = value;
        self.mepc = self.mepc.wrapping_add(4);
    }
}

/// One hart's guest: its saved context.
pub struct Runtime {
    context: KernelContext,
}

impl Runtime {
    pub closed spec fn context_spec(&self) -> KernelContext {
        self.context
    }

    /// The runtime of a hart at boot: the guest starts at `mepc` with the hart
    /// id in a0, the opaque boot value in a1, `mstatus` as given (its previous
    /// privilege set to Supervisor by the caller), and every other register zero.
    pub fn new(mhartid: usize, opaque: usize, mepc: usize, mstatus: usize) -> (r: Runtime)
        ensures
            r.context_spec() == boot_context(mhartid, opaque, mepc, mstatus),
    {
        let context = KernelContext {
            ra: 0,
            sp: 0,
            gp: 0,
            tp: 0,
            t0: 0,
            t1: 0,
            t2: 0,
            s0: 0,
            s1: 0,
            a0: mhartid,
            a1: opaque,
            a2: 0,
            a3: 0,
            a4: 0,
            a5: 0,
            a6: 0,
            a7: 0,
            s2: 0,
            s3: 0,
            s4: 0,
            s5: 0,
            s6: 0,
            s7: 0,
            s8: 0,
            s9: 0,
            s10: 0,
            s11: 0,
            t3: 0,
            t4: 0,
            t5: 0,
            t6: 0,
            mstatus,
            mepc,
            machine_stack: 0,
        };
        Runtime { context }
    }

    pub fn context_mut(&mut self) -> (r: &mut KernelContext)
        ensures
            *r == old(self).context_spec(),
            final(self).context_spec() == *final(r),
    {
        &mut self.context
    }

    pub fn context(&self) -> (r: &KernelContext)
        ensures
            *r == self.context_spec(),
    {
        &self.context
    }
}

} // verus!
