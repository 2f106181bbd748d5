//! Interrupt-controller plumbing, to the extent it feeds the scheduler
//! and the keyboard path: the local APIC's registers and its timer setup,
//! and the I/O APIC's redirection-table arithmetic.
//!
//! Both controllers are memory-mapped register windows; the model holds
//! the register values the kernel writes, and the embedder mirrors them
//! into the machine's windows.

use vstd::prelude::*;

verus! {

/// Local-APIC register offsets (bytes).
pub const LAPIC_ID_OFFSET: u64 = 0x20;

pub const SIVR_OFFSET: u64 = 0xf0;

pub const DESTINATION_FORMAT_OFFSET: u64 = 0xe0;

pub const TASK_PRIORITY_OFFSET: u64 = 0x80;

pub const INITIAL_COUNT_REGISTER_OFFSET: u64 = 0x380;

pub const LVT_TIMER_OFFSET: u64 = 0x320;

pub const DIVIDE_CONFIG_OFFSET: u64 = 0x3e0;

pub const EOI_OFFSET: u64 = 0xb0;

/// The timer's divide configuration encodings.
#[derive(PartialEq, Eq, Structural, Clone, Copy, Debug)]
pub enum TimerDivideConfig {
    DivideBy2,
    DivideBy4,
    DivideBy8,
    DivideBy16,
    DivideBy32,
    DivideBy64,
    DivideBy128,
    DivideBy1,
}

impl TimerDivideConfig {
    /// The encoding the divide-configuration register takes.
    pub open spec fn spec_value(self) -> u32 {
        match self {
            TimerDivideConfig::DivideBy2 => 0,
            TimerDivideConfig::DivideBy4 => 1,
            TimerDivideConfig::DivideBy8 => 2,
            TimerDivideConfig::DivideBy16 => 3,
            TimerDivideConfig::DivideBy32 => 8,
            TimerDivideConfig::DivideBy64 => 9,
            TimerDivideConfig::DivideBy128 => 10,
            TimerDivideConfig::DivideBy1 => 11,
        }
    }

    pub fn value(self) -> (r: u32)
        ensures
            r == self.spec_value(),
    {
        match self {
            TimerDivideConfig::DivideBy2 => 0,
            TimerDivideConfig::DivideBy4 => 1,
            TimerDivideConfig::DivideBy8 => 2,
            TimerDivideConfig::DivideBy16 => 3,
            TimerDivideConfig::DivideBy32 => 8,
            TimerDivideConfig::DivideBy64 => 9,
            TimerDivideConfig::DivideBy128 => 10,
            TimerDivideConfig::DivideBy1 => 11,
        }
    }
}

/// The local APIC's one-page register window, as 32-bit registers indexed
/// by byte offset / 4. The embedder aliases it at the LAPIC's fixed
/// kernel-virtual address.
pub struct Lapic {
    regs: Vec<u32>,
}

impl View for Lapic {
    type V = Seq<u32>;

    closed spec fn view(&self) -> Seq<u32> {
        self.regs@
    }
}

impl Lapic {
    pub open spec fn wf(self) -> bool {
        self@.len() == 1024
    }

    /// Fresh register window with the enable sequence applied: spurious
    /// vector with the enable bit, flat destination format, and task
    /// priority zero to accept every interrupt.
    pub fn new(spurious_interrupt_vector: u8) -> (r: Lapic)
        ensures
            r.wf(),
            r@[SIVR_OFFSET as int / 4] == 0x100u32 | (spurious_interrupt_vector as u32),
            r@[DESTINATION_FORMAT_OFFSET as int / 4] == 0xffff_ffffu32,
            r@[TASK_PRIORITY_OFFSET as int / 4] == 0,
    {
        let mut regs: Vec<u32> = Vec::new();
        let mut i: usize = 0;
        while i < 1024
            invariant
                0 <= i <= 1024,
                regs@.len() == i,
            decreases 1024 - i,
        {
            regs.push(0);
            i = i + 1;
        }
        let mut apic = Lapic { regs };
        apic.write(SIVR_OFFSET, 0x100 | (spurious_interrupt_vector as u32));
        apic.write(DESTINATION_FORMAT_OFFSET, 0xffff_ffff);
        apic.write(TASK_PRIORITY_OFFSET, 0);
        apic
    }

    /// The APIC id: the top byte of the id register.
    pub fn lapic_id(&self) -> (r: u8)
        requires
            self.wf(),
        ensures
            r == (self@[LAPIC_ID_OFFSET as int / 4] >> 24) as u8,
    {
        (self.read(LAPIC_ID_OFFSET) >> 24) as u8
    }

    /// Programs the timer: divide configuration, then the timer vector in
    /// periodic mode (bit 17), then the initial count. The order matters
    /// on hardware and is kept here.
    pub fn configure_timer(&mut self, vector: u8, timer_initial: u32, timer_divide: TimerDivideConfig)
        requires
            old(self).wf(),
        ensures
            final(self).wf(),
            final(self)@[DIVIDE_CONFIG_OFFSET as int / 4] == timer_divide.spec_value(),
            final(self)@[LVT_TIMER_OFFSET as int / 4] == (0x2_0000u32 | (vector as u32)),
            final(self)@[INITIAL_COUNT_REGISTER_OFFSET as int / 4] == timer_initial,
    {
        self.write(DIVIDE_CONFIG_OFFSET, timer_divide.value());
        proof {
            let v = vector;
            assert((1u32 << 17) | (v as u32) == 0x2_0000u32 | (v as u32)) by (bit_vector);
        }
        self.write(LVT_TIMER_OFFSET, (1u32 << 17) | (vector as u32));
        self.write(INITIAL_COUNT_REGISTER_OFFSET, timer_initial);
    }

    /// Acknowledges the current interrupt by writing the EOI register.
    pub fn end_of_interrupt(&mut self)
        requires
            old(self).wf(),
        ensures
            final(self).wf(),
            final(self)@ == old(self)@.update(EOI_OFFSET as int / 4, 0u32),
    {
        self.write(EOI_OFFSET, 0);
    }

    fn read(&self, offset: u64) -> (r: u32)
        requires
            self.wf(),
            offset < 4096,
        ensures
            r == self@[offset as int / 4],
    {
        self.regs[(offset / 4) as usize]
    }

    fn write(&mut self, offset: u64, val: u32)
        requires
            old(self).wf(),
            offset < 4096,
        ensures
            final(self).wf(),
            final(self)@ == old(self)@.update(offset as int / 4, val),
    {
        let idx = (offset / 4) as usize;
        self.regs.set(idx, val);
    }
}

/// The redirection-table word for an interrupt: the old word with the
/// vector, fixed delivery, physical destination mode, active-high
/// polarity, and the destination APIC id installed.
pub open spec fn spec_ioredtbl(old_word: u64, vector: u8, lapic_id: u8) -> u64 {
    (old_word & !0x0f0_0000_0001_efffu64) | (vector as u64) | (((lapic_id & 0xf) as u64) << 56)
}

/// The I/O APIC's two-register window: an index register selects one of
/// the controller's registers and a window register reads or writes it.
/// The model holds the register file the accesses build; the embedder
/// mirrors every access onto the machine's window.
pub struct IoApic {
    ioregsel: u32,
    regs: Vec<u32>,
}

impl View for IoApic {
    type V = Seq<u32>;

    closed spec fn view(&self) -> Seq<u32> {
        self.regs@
    }
}

impl IoApic {
    pub open spec fn wf(self) -> bool {
        self@.len() == 256
    }

    pub fn new() -> (r: IoApic)
        ensures
            r.wf(),
            forall|i: int| 0 <= i < 256 ==> r@[i] == 0u32,
    {
        let mut regs: Vec<u32> = Vec::new();
        let mut i: usize = 0;
        while i < 256
            invariant
                0 <= i <= 256,
                regs@.len() == i,
                forall|j: int| 0 <= j < i ==> regs@[j] == 0u32,
            decreases 256 - i,
        {
            regs.push(0);
            i = i + 1;
        }
        IoApic { ioregsel: 0, regs }
    }

    /// Routes ISA interrupt `irq` to `vector` on the CPU with the given
    /// APIC id: reads the 64-bit redirection entry from its two registers,
    /// installs vector, fixed delivery, physical destination, active-high
    /// polarity and the destination id, and writes it back.
    pub fn set_ioredtbl(&mut self, irq: u8, vector: u8, lapic_id: u8)
        requires
            old(self).wf(),
            irq < 24,
        ensures
            final(self).wf(),
            ({
                let low = 0x10 + 2 * (irq as int);
                let old_word = (old(self)@[low] as u64) | ((old(self)@[low + 1] as u64) << 32);
                let new_word = spec_ioredtbl(old_word, vector, lapic_id);
                final(self)@ == old(self)@.update(low, new_word as u32).update(
                    low + 1,
                    (new_word >> 32) as u32,
                )
            }),
    {
        let low_offset: u8 = 0x10 + irq * 2;
        let high_offset: u8 = 0x10 + irq * 2 + 1;

        let ioredtbl: u64 = (self.read(low_offset) as u64) | ((self.read(high_offset) as u64)
            << 32);

        let delivery_mode: u8 = 0;
        let destination_mode: u8 = 0;
        let pin_polarity: u8 = 0;

        let word: u64 = (ioredtbl & !0x0f0_0000_0001_efffu64) | (vector as u64) | ((
        (delivery_mode & 0b111) as u64) << 8) | (((destination_mode & 0b1) as u64) << 11) | ((
        (pin_polarity & 0b1) as u64) << 13) | (((lapic_id & 0xf) as u64) << 56);
        proof {
            let w = ioredtbl;
            let v = vector;
            let l = lapic_id;
            assert((w & !0x0f0_0000_0001_efffu64) | (v as u64) | (((0u8 & 0b111) as u64) << 8) | ((
            (0u8 & 0b1) as u64) << 11) | (((0u8 & 0b1) as u64) << 13) | (((l & 0xf) as u64) << 56)
                == (w & !0x0f0_0000_0001_efffu64) | (v as u64) | (((l & 0xf) as u64) << 56))
                by (bit_vector);
        }
        self.write(low_offset, word as u32);
        self.write(high_offset, (word >> 32) as u32);
    }

    fn read(&mut self, offset: u8) -> (r: u32)
        requires
            old(self).wf(),
        ensures
            final(self).wf(),
            final(self)@ == old(self)@,
            r == final(self)@[offset as int],
    {
        self.ioregsel = offset as u32;
        self.regs[offset as usize]
    }

    fn write(&mut self, offset: u8, value: u32)
        requires
            old(self).wf(),
        ensures
            final(self).wf(),
            final(self)@ == old(self)@.update(offset as int, value),
    {
        self.ioregsel = offset as u32;
        self.regs.set(offset as usize, value);
    }
}

/// Which global system interrupt the keyboard raises: the first interrupt
/// source override for ISA IRQ 1 wins; without one, the keyboard sits at
/// its legacy pin relative to the I/O APIC's base.
pub fn keyboard_gsi(overrides: &Vec<(u8, u32)>, gsi_base: u32) -> (r: u32)
    requires
        gsi_base < 0xffff_ff00,
    ensures
        r == spec_keyboard_gsi(overrides@, gsi_base),
{
    let mut i: usize = 0;
    proof {
        assert(overrides@.skip(0) =~= overrides@);
    }
    while i < overrides.len()
        invariant
            0 <= i <= overrides@.len(),
            gsi_base < 0xffff_ff00,
            spec_keyboard_gsi(overrides@, gsi_base) == spec_keyboard_gsi(
                overrides@.skip(i as int),
                gsi_base,
            ),
        decreases overrides@.len() - i,
    {
        proof {
            assert(overrides@.skip(i as int)[0] == overrides@[i as int]);
            assert(overrides@.skip(i as int).drop_first() =~= overrides@.skip(i + 1));
        }
        if overrides[i].0 == 1 {
            return overrides[i].1;
        }
        i = i + 1;
    }
    gsi_base + 1
}

/// First override for ISA IRQ 1, or the legacy pin.
pub open spec fn spec_keyboard_gsi(overrides: Seq<(u8, u32)>, gsi_base: u32) -> u32
    decreases overrides.len(),
{
    if overrides.len() == 0 {
        (gsi_base + 1) as u32
    } else if overrides[0].0 == 1 {
        overrides[0].1
    } else {
        spec_keyboard_gsi(overrides.drop_first(), gsi_base)
    }
}

} // verus!
