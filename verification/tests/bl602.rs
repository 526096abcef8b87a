use bl602wifi::compat::bl602::{
    bl602_aon_pad_iesmt_cfg, bl602_set_em_sel_bl602_glb_em_8kb, dispatch_irq,
    hbn_config_aon_pad_input_and_smt, irq_attach, irq_enable_address, run_exclusive,
    up_irq_restore, up_irq_save, InterruptFlag, IrqTable, IRQ_SLOTS,
};
use std::cell::RefCell;
use std::rc::Rc;

type Handler = Box<dyn Fn(usize, usize)>;

#[test]
fn save_disables_and_restore_puts_back() {
    let mut flag = InterruptFlag::new(true);
    assert_eq!(up_irq_save(&mut flag), 1);
    assert!(!flag.is_enabled());
    assert_eq!(up_irq_save(&mut flag), 0);
    assert!(!flag.is_enabled());
    up_irq_restore(&mut flag, 0);
    assert!(!flag.is_enabled());
    up_irq_restore(&mut flag, 1);
    assert!(flag.is_enabled());
    up_irq_restore(&mut flag, 2);
    assert!(!flag.is_enabled());
}

#[test]
fn run_exclusive_returns_the_result_and_restores_the_flag() {
    let mut enabled = InterruptFlag::new(true);
    assert_eq!(run_exclusive(&mut enabled, |_| 6 * 7), 42);
    assert!(enabled.is_enabled());
    let mut disabled = InterruptFlag::new(false);
    assert_eq!(run_exclusive(&mut disabled, |_| "done"), "done");
    assert!(!disabled.is_enabled());
}

#[test]
fn run_exclusive_nests() {
    let mut flag = InterruptFlag::new(true);
    let mut inner = InterruptFlag::new(false);
    let total = run_exclusive(&mut flag, |_| 1 + run_exclusive(&mut inner, |_| 2));
    assert_eq!(total, 3);
    assert!(flag.is_enabled());
    assert!(!inner.is_enabled());
}

#[test]
fn a_new_table_has_no_handlers() {
    let table: IrqTable<Handler> = IrqTable::new();
    for irq in 0..IRQ_SLOTS {
        assert!(!table.is_attached(irq));
    }
    assert!(!table.is_attached(IRQ_SLOTS));
    assert!(!table.is_attached(usize::MAX));
}

#[test]
fn handlers_are_filed_by_line_number_less_sixteen() {
    let calls = Rc::new(RefCell::new(Vec::new()));
    let mut table: IrqTable<Handler> = IrqTable::new();
    let seen = Rc::clone(&calls);
    assert_eq!(
        irq_attach(&mut table, 16, Box::new(move |a, b| seen.borrow_mut().push((16, a, b))), 0x10),
        0
    );
    let seen = Rc::clone(&calls);
    assert_eq!(
        irq_attach(&mut table, 95, Box::new(move |a, b| seen.borrow_mut().push((95, a, b))), 0x20),
        0
    );
    assert!(table.is_attached(0));
    assert!(table.is_attached(79));
    assert!(!table.is_attached(1));
    dispatch_irq(&table, 79);
    dispatch_irq(&table, 0);
    dispatch_irq(&table, 0);
    assert_eq!(*calls.borrow(), vec![(95, 0, 0x20), (16, 0, 0x10), (16, 0, 0x10)]);
}

#[test]
fn attaching_again_replaces_the_handler() {
    let calls = Rc::new(RefCell::new(Vec::new()));
    let mut table: IrqTable<Handler> = IrqTable::new();
    let seen = Rc::clone(&calls);
    irq_attach(&mut table, 20, Box::new(move |_, b| seen.borrow_mut().push(("old", b))), 1);
    let seen = Rc::clone(&calls);
    irq_attach(&mut table, 20, Box::new(move |_, b| seen.borrow_mut().push(("new", b))), 2);
    dispatch_irq(&table, 4);
    assert_eq!(*calls.borrow(), vec![("new", 2)]);
}

#[test]
fn enable_bytes_follow_one_another() {
    assert_eq!(irq_enable_address(16), 0x0280_0400);
    assert_eq!(irq_enable_address(17), 0x0280_0401);
    assert_eq!(irq_enable_address(95), 0x0280_044f);
}

#[test]
fn pad_input_and_schmitt_trigger_set_bit_eight() {
    assert_eq!(hbn_config_aon_pad_input_and_smt(0), 0x100);
    assert_eq!(hbn_config_aon_pad_input_and_smt(0x100), 0x100);
    assert_eq!(hbn_config_aon_pad_input_and_smt(0xdead_beef), 0xdead_bfef);
}

#[test]
fn memory_selection_replaces_the_low_four_bits() {
    assert_eq!(bl602_set_em_sel_bl602_glb_em_8kb(0), 0x3);
    assert_eq!(bl602_set_em_sel_bl602_glb_em_8kb(0xf), 0x3);
    assert_eq!(bl602_set_em_sel_bl602_glb_em_8kb(0xffff_fffc), 0xffff_fff3);
}

#[test]
fn pad_configuration_keeps_bit_eight_and_adds_the_configuration() {
    assert_eq!(bl602_aon_pad_iesmt_cfg(0, 0), 0);
    assert_eq!(bl602_aon_pad_iesmt_cfg(0xffff_ffff, 0), 0x100);
    assert_eq!(bl602_aon_pad_iesmt_cfg(0, 1), 0x100);
    assert_eq!(bl602_aon_pad_iesmt_cfg(0, 0xff), 0xff00);
    assert_eq!(bl602_aon_pad_iesmt_cfg(0x1ff, 0x02), 0x300);
}
