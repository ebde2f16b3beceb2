//! Interrupt controller.
//!
//! Ten interrupt sources share vectors in fixed-fixed memory, four words
//! apart after the boot vector. INHINT disables interrupts and RELINT enables
//! them; while an interrupt service routine runs, no other interrupt is taken.
//! The context (A, L, Q, BB, Z) is saved on entry and handed back by RESUME.

pub mod vector;

use vstd::prelude::*;

verus! {

/// Interrupt sources, in priority order (T6RUPT highest).
#[derive(Debug, Clone, Copy, PartialEq, Eq, Structural)]
pub enum Interrupt {
    T6Rupt,
    T5Rupt,
    T3Rupt,
    T4Rupt,
    KeyRupt1,
    KeyRupt2,
    UpRupt,
    DownRupt,
    RadarRupt,
    Rupt10,
}

/// Number of interrupt sources.
pub const NUM_INTERRUPTS: usize = 10;

/// All interrupt sources in priority order (T6RUPT highest).
pub const INTERRUPT_PRIORITY: [Interrupt; NUM_INTERRUPTS] = [
    Interrupt::T6Rupt,
    Interrupt::T5Rupt,
    Interrupt::T3Rupt,
    Interrupt::T4Rupt,
    Interrupt::KeyRupt1,
    Interrupt::KeyRupt2,
    Interrupt::UpRupt,
    Interrupt::DownRupt,
    Interrupt::RadarRupt,
    Interrupt::Rupt10,
];

/// The interrupt at a priority position (0 is the highest priority).
pub open spec fn interrupt_at(i: int) -> Interrupt {
    if i <= 0 {
        Interrupt::T6Rupt
    } else if i == 1 {
        Interrupt::T5Rupt
    } else if i == 2 {
        Interrupt::T3Rupt
    } else if i == 3 {
        Interrupt::T4Rupt
    } else if i == 4 {
        Interrupt::KeyRupt1
    } else if i == 5 {
        Interrupt::KeyRupt2
    } else if i == 6 {
        Interrupt::UpRupt
    } else if i == 7 {
        Interrupt::DownRupt
    } else if i == 8 {
        Interrupt::RadarRupt
    } else {
        Interrupt::Rupt10
    }
}

impl Interrupt {
    /// The priority position of this source: its slot in the pending array.
    pub open spec fn priority(self) -> int {
        match self {
            Interrupt::T6Rupt => 0,
            Interrupt::T5Rupt => 1,
            Interrupt::T3Rupt => 2,
            Interrupt::T4Rupt => 3,
            Interrupt::KeyRupt1 => 4,
            Interrupt::KeyRupt2 => 5,
            Interrupt::UpRupt => 6,
            Interrupt::DownRupt => 7,
            Interrupt::RadarRupt => 8,
            Interrupt::Rupt10 => 9,
        }
    }

    /// The slot of this source in the pending array.
    pub fn slot(self) -> (r: usize)
        ensures
            r == self.priority(),
            r < NUM_INTERRUPTS,
    {
        match self {
            Interrupt::T6Rupt => 0,
            Interrupt::T5Rupt => 1,
            Interrupt::T3Rupt => 2,
            Interrupt::T4Rupt => 3,
            Interrupt::KeyRupt1 => 4,
            Interrupt::KeyRupt2 => 5,
            Interrupt::UpRupt => 6,
            Interrupt::DownRupt => 7,
            Interrupt::RadarRupt => 8,
            Interrupt::Rupt10 => 9,
        }
    }

    /// The source at a slot of the pending array.
    fn from_slot(i: usize) -> (r: Interrupt)
        requires
            i < NUM_INTERRUPTS,
        ensures
            r == interrupt_at(i as int),
            r.priority() == i,
    {
        if i == 0 {
            Interrupt::T6Rupt
        } else if i == 1 {
            Interrupt::T5Rupt
        } else if i == 2 {
            Interrupt::T3Rupt
        } else if i == 3 {
            Interrupt::T4Rupt
        } else if i == 4 {
            Interrupt::KeyRupt1
        } else if i == 5 {
            Interrupt::KeyRupt2
        } else if i == 6 {
            Interrupt::UpRupt
        } else if i == 7 {
            Interrupt::DownRupt
        } else if i == 8 {
            Interrupt::RadarRupt
        } else {
            Interrupt::Rupt10
        }
    }

    /// Four words per source after the boot vector, in priority order.
    pub open spec fn spec_vector_address(self) -> u16 {
        (vector::T6RUPT + 4 * self.priority()) as u16
    }

    /// The vector address of this source: four words per source after the
    /// boot vector, in priority order.
    #[verifier::when_used_as_spec(spec_vector_address)]
    pub fn vector_address(self) -> (r: u16)
        ensures
            r == self.spec_vector_address(),
    {
        match self {
            Interrupt::T6Rupt => vector::T6RUPT,
            Interrupt::T5Rupt => vector::T5RUPT,
            Interrupt::T3Rupt => vector::T3RUPT,
            Interrupt::T4Rupt => vector::T4RUPT,
            Interrupt::KeyRupt1 => vector::KEYRUPT1,
            Interrupt::KeyRupt2 => vector::KEYRUPT2,
            Interrupt::UpRupt => vector::UPRUPT,
            Interrupt::DownRupt => vector::DOWNRUPT,
            Interrupt::RadarRupt => vector::RADARRUPT,
            Interrupt::Rupt10 => vector::RUPT10,
        }
    }
}

/// Interrupt controller state.
#[derive(Clone)]
pub struct InterruptController {
    /// Pending flags, one per source, indexed by priority.
    pub pending: [bool; NUM_INTERRUPTS],
    /// Whether interrupts are globally enabled.
    pub enabled: bool,
    /// Whether an interrupt service routine is running.
    pub in_isr: bool,
    /// Saved A.
    pub arupt: u16,
    /// Saved L.
    pub lrupt: u16,
    /// Saved Q.
    pub qrupt: u16,
    /// Saved BB.
    pub bbrupt: u16,
    /// Saved Z.
    pub zrupt: u16,
}

impl InterruptController {
    /// The pending source of highest priority among slots `i..10`.
    pub open spec fn first_pending_from(self, i: int) -> Option<Interrupt>
        decreases NUM_INTERRUPTS - i,
    {
        if i < 0 || i >= NUM_INTERRUPTS {
            None
        } else if self.pending[i] {
            Some(interrupt_at(i))
        } else {
            self.first_pending_from(i + 1)
        }
    }

    /// The source that a poll hands out: the pending source of highest
    /// priority, unless interrupts are disabled or a service routine runs.
    pub open spec fn polled(self) -> Option<Interrupt> {
        if !self.enabled || self.in_isr {
            None
        } else {
            self.first_pending_from(0)
        }
    }

    /// The controller with the pending flag of `irq` set to `flag`.
    pub open spec fn with_pending(self, irq: Interrupt, flag: bool) -> InterruptController {
        InterruptController {
            pending: vstd::array::spec_array_update(self.pending, irq.priority(), flag),
            ..self
        }
    }

    /// The controller after requesting each interrupt of `irqs` in turn.
    pub open spec fn requested_all(self, irqs: Seq<Interrupt>) -> InterruptController
        decreases irqs.len(),
    {
        if irqs.len() == 0 {
            self
        } else {
            self.requested_all(irqs.drop_last()).with_pending(irqs.last(), true)
        }
    }

    /// The controller after entering a service routine with the given context.
    pub open spec fn entered(self, a: u16, l: u16, q: u16, bb: u16, z: u16) -> InterruptController {
        InterruptController { arupt: a, lrupt: l, qrupt: q, bbrupt: bb, zrupt: z, in_isr: true, ..self }
    }

    /// The saved context (A, L, Q, BB, Z).
    pub open spec fn saved_context(self) -> (u16, u16, u16, u16, u16) {
        (self.arupt, self.lrupt, self.qrupt, self.bbrupt, self.zrupt)
    }

    /// Power-up state: nothing pending, interrupts enabled, not in a service
    /// routine, saved context all zero.
    pub fn new() -> (ic: Self)
        ensures
            forall|i: int| 0 <= i < NUM_INTERRUPTS ==> !ic.pending[i],
            ic.enabled,
            !ic.in_isr,
            ic.saved_context() == (0u16, 0u16, 0u16, 0u16, 0u16),
    {
        Self {
            pending: [false; NUM_INTERRUPTS],
            enabled: true,
            in_isr: false,
            arupt: 0,
            lrupt: 0,
            qrupt: 0,
            bbrupt: 0,
            zrupt: 0,
        }
    }

    /// Request an interrupt.
    pub fn request(&mut self, interrupt: Interrupt)
        ensures
            *final(self) == old(self).with_pending(interrupt, true),
    {
        self.pending[interrupt.slot()] = true;
    }

    /// Clear a pending interrupt.
    pub fn clear(&mut self, interrupt: Interrupt)
        ensures
            *final(self) == old(self).with_pending(interrupt, false),
    {
        self.pending[interrupt.slot()] = false;
    }

    /// The pending interrupt of highest priority, if interrupts are enabled
    /// and no service routine runs.
    pub fn poll(&self) -> (r: Option<Interrupt>)
        ensures
            r == self.polled(),
    {
        if !self.enabled || self.in_isr {
            return None;
        }
        let mut i: usize = 0;
        while i < NUM_INTERRUPTS
            invariant
                i <= NUM_INTERRUPTS,
                self.enabled && !self.in_isr,
                self.first_pending_from(0) == self.first_pending_from(i as int),
            decreases NUM_INTERRUPTS - i,
        {
            if self.pending[i] {
                return Some(Interrupt::from_slot(i));
            }
            i = i + 1;
        }
        None
    }

    /// Disable interrupts (INHINT).
    pub fn inhibit(&mut self)
        ensures
            *final(self) == (InterruptController { enabled: false, ..*old(self) }),
    {
        self.enabled = false;
    }

    /// Enable interrupts (RELINT).
    pub fn release(&mut self)
        ensures
            *final(self) == (InterruptController { enabled: true, ..*old(self) }),
    {
        self.enabled = true;
    }

    /// Enter a service routine: save the context and block further interrupts.
    pub fn enter_isr(&mut self, a: u16, l: u16, q: u16, bb: u16, z: u16)
        ensures
            *final(self) == old(self).entered(a, l, q, bb, z),
    {
        self.arupt = a;
        self.lrupt = l;
        self.qrupt = q;
        self.bbrupt = bb;
        self.zrupt = z;
        self.in_isr = true;
    }

    /// Leave a service routine (RESUME): re-enable interrupts and hand back
    /// the saved context.
    pub fn exit_isr(&mut self) -> (r: (u16, u16, u16, u16, u16))
        ensures
            r == old(self).saved_context(),
            *final(self) == (InterruptController { in_isr: false, enabled: true, ..*old(self) }),
    {
        self.in_isr = false;
        self.enabled = true;
        (self.arupt, self.lrupt, self.qrupt, self.bbrupt, self.zrupt)
    }
}

/// The pending source of highest priority from slot `i` on.
proof fn lemma_first_pending_from(ic: InterruptController, i: int)
    requires
        0 <= i <= NUM_INTERRUPTS,
    ensures
        match ic.first_pending_from(i) {
            Some(irq) => {
                &&& i <= irq.priority() < NUM_INTERRUPTS
                &&& ic.pending[irq.priority()]
                &&& forall|j: int| i <= j < irq.priority() ==> !ic.pending[j]
            },
            None => forall|j: int| i <= j < NUM_INTERRUPTS ==> !ic.pending[j],
        },
    decreases NUM_INTERRUPTS - i,
{
    if i < NUM_INTERRUPTS {
        lemma_first_pending_from(ic, i + 1);
    }
}

/// Priority: a poll hands out a pending source with no pending source of
/// higher priority, and nothing only when interrupts are disabled, a service
/// routine runs, or nothing is pending.
pub proof fn lemma_poll_priority(ic: InterruptController)
    ensures
        match ic.polled() {
            Some(irq) => {
                &&& ic.enabled && !ic.in_isr
                &&& ic.pending[irq.priority()]
                &&& forall|j: int| 0 <= j < irq.priority() ==> !ic.pending[j]
            },
            None => !ic.enabled || ic.in_isr || forall|j: int|
                0 <= j < NUM_INTERRUPTS ==> !ic.pending[j],
        },
{
    lemma_first_pending_from(ic, 0);
}

/// A request is never lost: while interrupts are enabled and no service
/// routine runs, a poll after a request hands out that source or one of
/// higher priority.
pub proof fn lemma_request_then_poll(ic: InterruptController, irq: Interrupt)
    requires
        ic.enabled,
        !ic.in_isr,
    ensures
        ic.with_pending(irq, true).polled() is Some,
        ic.with_pending(irq, true).polled().unwrap().priority() <= irq.priority(),
{
    lemma_poll_priority(ic.with_pending(irq, true));
    assert(ic.with_pending(irq, true).pending[irq.priority()]);
}

/// INHINT blocks every poll; RELINT after INHINT gives back an enabled
/// controller.
pub proof fn lemma_inhibit_release(ic: InterruptController)
    ensures
        (InterruptController { enabled: false, ..ic }).polled() is None,
        ic.enabled ==> (InterruptController { enabled: true, ..InterruptController { enabled: false, ..ic } }) == ic,
{
}

/// A service routine blocks every poll; leaving it hands back the context
/// saved on entry, enables interrupts, and keeps the pending requests.
pub proof fn lemma_isr_round_trip(ic: InterruptController, a: u16, l: u16, q: u16, bb: u16, z: u16)
    ensures
        ic.entered(a, l, q, bb, z).polled() is None,
        ic.entered(a, l, q, bb, z).saved_context() == (a, l, q, bb, z),
        (InterruptController { in_isr: false, enabled: true, ..ic.entered(a, l, q, bb, z) }).pending
            == ic.pending,
{
}

/// Requesting a sequence of interrupts leaves pending exactly what was
/// pending before and every source in the sequence, and changes nothing
/// else.
pub proof fn lemma_requested_all(ic: InterruptController, irqs: Seq<Interrupt>)
    ensures
        forall|irq: Interrupt|
            #[trigger] ic.requested_all(irqs).pending[irq.priority()] == (ic.pending[irq.priority()]
                || irqs.contains(irq)),
        ic.requested_all(irqs).enabled == ic.enabled,
        ic.requested_all(irqs).in_isr == ic.in_isr,
        ic.requested_all(irqs).saved_context() == ic.saved_context(),
    decreases irqs.len(),
{
    if irqs.len() > 0 {
        let prefix = irqs.drop_last();
        lemma_requested_all(ic, prefix);
        assert forall|irq: Interrupt|
            #[trigger] ic.requested_all(irqs).pending[irq.priority()] == (ic.pending[irq.priority()]
                || irqs.contains(irq)) by {
            if irqs.contains(irq) && irq != irqs.last() {
                let i = choose|i: int| 0 <= i < irqs.len() && irqs[i] == irq;
                assert(prefix[i] == irq);
            }
            if prefix.contains(irq) {
                let i = choose|i: int| 0 <= i < prefix.len() && prefix[i] == irq;
                assert(irqs[i] == irq);
            }
            if irq == irqs.last() {
                assert(irqs[irqs.len() - 1] == irq);
            }
        }
    }
}

impl Default for InterruptController {
    fn default() -> (ic: Self)
        ensures
            forall|i: int| 0 <= i < NUM_INTERRUPTS ==> !ic.pending[i],
            ic.enabled,
            !ic.in_isr,
            ic.saved_context() == (0u16, 0u16, 0u16, 0u16, 0u16),
    {
        Self::new()
    }
}

} // verus!
