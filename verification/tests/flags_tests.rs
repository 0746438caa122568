use guise::flags::{CtrlFlags, Inputs, Modifiers};

#[test]
fn inputs_constants_have_their_bits() {
    assert_eq!(Inputs::mb_left().bits(), 0x01);
    assert_eq!(Inputs::mb_right().bits(), 0x02);
    assert_eq!(Inputs::kb_tab().bits(), 0x80);
    assert_eq!(Inputs::kb_escape().bits(), 0x10_0000);
    assert_eq!(Inputs::none().bits(), 0);
    assert_eq!(Inputs::empty(), Inputs::none());
    assert_eq!(Inputs::all().bits(), 0x1f_ffff);
}

#[test]
fn inputs_truncate_drops_unknown_bits() {
    assert_eq!(Inputs::from_bits_truncate(0xffff_ffff), Inputs::all());
    assert_eq!(Inputs::from_bits_truncate(0x0120_0001).bits(), 0x0000_0001);
    let once = Inputs::from_bits_truncate(0xdead_beef);
    assert_eq!(Inputs::from_bits_truncate(once.bits()), once);
}

#[test]
fn inputs_intersect_and_union() {
    let both = Inputs::mb_left().union(Inputs::kb_enter());
    assert!(both.intersects(Inputs::mb_left()));
    assert!(both.intersects(Inputs::kb_enter()));
    assert!(!both.intersects(Inputs::mb_right()));
    assert!(!Inputs::none().intersects(Inputs::all()));
    assert_eq!(both.bits(), 0x01 | 0x8_0000);
}

#[test]
fn ctrl_flags_constants_and_unions() {
    assert_eq!(CtrlFlags::capture_scroll().bits(), 0x01);
    assert_eq!(CtrlFlags::capture_hover().bits(), 0x02);
    assert_eq!(CtrlFlags::capture_active().bits(), 0x04);
    assert_eq!(CtrlFlags::all().bits(), 0xf7);
    assert_eq!(
        CtrlFlags::all_shrink_to_fit_inline(),
        CtrlFlags::shrink_to_fit_inline_horizontal().union(CtrlFlags::shrink_to_fit_inline_vertical())
    );
    assert_eq!(
        CtrlFlags::all_resize_to_fit(),
        CtrlFlags::resize_to_fit_horizontal().union(CtrlFlags::resize_to_fit_vertical())
    );
    assert_eq!(CtrlFlags::from_bits_truncate(0x0f).bits(), 0x07);
    assert!(CtrlFlags::all().intersects(CtrlFlags::resize_to_fit_vertical()));
    assert!(!CtrlFlags::none().intersects(CtrlFlags::all()));
}

#[test]
fn modifiers_combine() {
    let both = Modifiers::ctrl().union(Modifiers::shift());
    assert!(both.intersects(Modifiers::shift()));
    assert!(!Modifiers::ctrl().intersects(Modifiers::shift()));
    assert_eq!(both.0, 0x03);
}
