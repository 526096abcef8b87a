//! What the chip needs from the substrate: the interrupt-enable flag, the
//! table of attached interrupt handlers and the values of a few
//! configuration registers.
//!
//! Nothing here touches the hardware. The functions decide what the flag
//! or a register is to hold; the caller reads and writes the hardware.

use vstd::prelude::*;

verus! {

/// Number of interrupt lines that a handler can be attached to.
pub const IRQ_SLOTS: usize = 80;

/// Number of the first interrupt line that a handler can be attached to.
pub const IRQ_FIRST: i32 = 16;

/// Address of the byte that enables interrupt line [`IRQ_FIRST`]; the
/// bytes for the following lines follow it.
pub const IRQ_ENABLE_BASE: usize = 0x0280_0400;

/// Bit of the hibernate block's interrupt mode register that switches on
/// input and Schmitt trigger for the always-on pad.
pub const HBN_IRQ_MODE_REG_AON_PAD_IE_SMT: u32 = 0x100;

/// The bits of the shared memory register that select how much of the
/// radio's memory goes to Bluetooth.
pub const SEAM_MISC_EM_SEL_MASK: u32 = 0x0f;

/// The selection that gives eight kilobytes to Bluetooth.
pub const BL602_GLB_EM_8KB: u32 = 0x3;

/// The processor's interrupt-enable flag.
pub struct InterruptFlag {
    mie: bool,
}

impl InterruptFlag {
    /// Whether interrupts are enabled.
    pub closed spec fn enabled(&self) -> bool {
        self.mie
    }

    /// A flag that stands as `enabled` says.
    pub fn new(enabled: bool) -> (flag: InterruptFlag)
        ensures
            flag.enabled() == enabled,
    {
        InterruptFlag { mie: enabled }
    }

    /// Whether interrupts are enabled.
    pub fn is_enabled(&self) -> (enabled: bool)
        ensures
            enabled == self.enabled(),
    {
        self.mie
    }
}

/// Disables interrupts and returns what the flag was: one if interrupts
/// were enabled, zero if not.
pub fn up_irq_save(flag: &mut InterruptFlag) -> (flags: u32)
    ensures
        !final(flag).enabled(),
        flags == if old(flag).enabled() {
            1u32
        } else {
            0u32
        },
{
    let res = flag.mie;
    flag.mie = false;
    if res {
        1
    } else {
        0
    }
}

/// Puts the flag back to what [`up_irq_save`] returned: interrupts are
/// enabled if `flags` is one and disabled otherwise.
pub fn up_irq_restore(flag: &mut InterruptFlag, flags: u32)
    ensures
        final(flag).enabled() == (flags == 1),
{
    flag.mie = flags == 1;
}

/// The mark that interrupts are disabled. It exists only while
/// [`run_exclusive`] runs a closure, which gets it as its argument.
pub struct CriticalSection {
    _private: (),
}

/// Runs `f` with interrupts disabled and returns what it returns. After
/// that the flag is what it was before, so that nested calls leave
/// interrupts disabled until the outermost one returns.
///
/// The contract says that `f` has run and that the flag ends as it began.
/// It does not say that the flag is off while `f` runs: `f` cannot see the
/// flag, so no clause can speak of the flag at that moment. That the flag
/// is switched off and put back is what [`up_irq_save`] and
/// [`up_irq_restore`] state, which this function calls around `f`.
pub fn run_exclusive<R, F: FnOnce(&CriticalSection) -> R>(flag: &mut InterruptFlag, f: F) -> (result:
    R)
    requires
        forall|cs: &CriticalSection| call_requires(f, (cs,)),
    ensures
        exists|cs: &CriticalSection| call_ensures(f, (cs,), result),
        final(flag).enabled() == old(flag).enabled(),
{
    let flags = up_irq_save(flag);
    let cs = CriticalSection { _private: () };
    let result = f(&cs);
    up_irq_restore(flag, flags);
    result
}

/// A handler attached to an interrupt line, with the argument that it is
/// called with.
pub struct InterruptAttach<H> {
    pub isr: H,
    pub arg: usize,
}

/// The handlers attached to the interrupt lines, by line number less
/// [`IRQ_FIRST`].
pub struct IrqTable<H> {
    handlers: Vec<Option<InterruptAttach<H>>>,
}

impl<H> IrqTable<H> {
    /// The table's slots.
    pub closed spec fn view(&self) -> Seq<Option<InterruptAttach<H>>> {
        self.handlers@
    }

    /// The representation invariant: the table has a slot for every line.
    pub open spec fn wf(&self) -> bool {
        self@.len() == IRQ_SLOTS
    }

    /// A table without handlers.
    pub fn new() -> (table: Self)
        ensures
            table.wf(),
            forall|i: int| 0 <= i < IRQ_SLOTS ==> (#[trigger] table@[i]) is None,
    {
        let mut handlers: Vec<Option<InterruptAttach<H>>> = Vec::new();
        let mut i: usize = 0;
        while i < IRQ_SLOTS
            invariant
                i <= IRQ_SLOTS,
                handlers.len() == i,
                forall|k: int| 0 <= k < i ==> (#[trigger] handlers[k]) is None,
            decreases IRQ_SLOTS - i,
        {
            handlers.push(None);
            i = i + 1;
        }
        IrqTable { handlers }
    }

    /// Whether a handler is attached to slot `irq`.
    pub fn is_attached(&self, irq: usize) -> (attached: bool)
        requires
            self.wf(),
        ensures
            attached == (irq < IRQ_SLOTS && self@[irq as int] is Some),
    {
        irq < IRQ_SLOTS && self.handlers[irq].is_some()
    }
}

/// Attaches `isr`, to be called with `arg`, to interrupt line `irq`, in
/// place of any handler attached before. Returns zero. A line outside the
/// table is fatal, so callers rule it out.
pub fn irq_attach<H>(table: &mut IrqTable<H>, irq: i32, isr: H, arg: usize) -> (status: i32)
    requires
        old(table).wf(),
        IRQ_FIRST <= irq < IRQ_FIRST + IRQ_SLOTS,
    ensures
        status == 0,
        final(table).wf(),
        final(table)@ == old(table)@.update(irq - IRQ_FIRST, Some(InterruptAttach { isr, arg })),
{
    let slot = (irq - IRQ_FIRST) as usize;
    table.handlers.set(slot, Some(InterruptAttach { isr, arg }));
    0
}

/// Calls the handler attached to slot `irq` with a null first argument and
/// the argument it was attached with. An interrupt without a handler halts
/// the system, so callers rule it out.
pub fn dispatch_irq<H: Fn(usize, usize)>(table: &IrqTable<H>, irq: usize)
    requires
        table.wf(),
        irq < IRQ_SLOTS,
        table@[irq as int] is Some,
        call_requires(table@[irq as int].unwrap().isr, (0usize, table@[irq as int].unwrap().arg)),
    ensures
        call_ensures(
            table@[irq as int].unwrap().isr,
            (0usize, table@[irq as int].unwrap().arg),
            (),
        ),
{
    match &table.handlers[irq] {
        Some(data) => {
            (data.isr)(0, data.arg);
        },
        None => {},
    }
}

/// Address of the byte that enables interrupt line `irq`.
pub fn irq_enable_address(irq: i32) -> (address: usize)
    requires
        IRQ_FIRST <= irq < IRQ_FIRST + IRQ_SLOTS,
    ensures
        address == IRQ_ENABLE_BASE + irq - IRQ_FIRST,
{
    IRQ_ENABLE_BASE + (irq - IRQ_FIRST) as usize
}

/// The interrupt mode register with input and Schmitt trigger of the
/// always-on pad switched on, and every other bit as in `regval`.
pub fn hbn_config_aon_pad_input_and_smt(regval: u32) -> (configured: u32)
    ensures
        configured == regval | HBN_IRQ_MODE_REG_AON_PAD_IE_SMT,
{
    regval | HBN_IRQ_MODE_REG_AON_PAD_IE_SMT
}

/// The shared memory register with eight kilobytes selected for
/// Bluetooth, and every other bit as in `regval`.
pub fn bl602_set_em_sel_bl602_glb_em_8kb(regval: u32) -> (configured: u32)
    ensures
        configured == (regval & !SEAM_MISC_EM_SEL_MASK) | BL602_GLB_EM_8KB,
{
    (regval & !SEAM_MISC_EM_SEL_MASK) | BL602_GLB_EM_8KB
}

/// The interrupt mode register for the pad configuration `pad_cfg`: of
/// `regval` only the always-on pad's bit stays, and the configuration is
/// added from bit eight upwards.
pub fn bl602_aon_pad_iesmt_cfg(regval: u32, pad_cfg: u8) -> (configured: u32)
    ensures
        configured == (regval & HBN_IRQ_MODE_REG_AON_PAD_IE_SMT) | ((pad_cfg as u32) << 8),
{
    (regval & HBN_IRQ_MODE_REG_AON_PAD_IE_SMT) | ((pad_cfg as u32) << 8)
}

} // verus!
