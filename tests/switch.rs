use flexer::switch::Switch;

#[test]
fn switch_constructors() {
    let on = Switch::On(5u32);
    assert!(on.is_on());
    assert!(!on.is_off());
    let off = Switch::Off(5u32);
    assert!(off.is_off());
    assert_eq!(Switch::new(5u32, true), on);
}

#[test]
fn switch_modifiers() {
    let mut s = Switch::new(1u32, false);
    s.switch(true);
    assert!(s.is_on());
    s.toggle();
    assert!(s.is_off());
    let t = s.toggled();
    assert!(t.is_on());
    assert_eq!(t.value, 1);
    let u = t.switched(false);
    assert!(u.is_off());
}

#[test]
fn switch_getters() {
    let s = Switch::On(7u32);
    assert_eq!(s.on(), Some(&7));
    assert_eq!(s.off(), None);
    assert_eq!(s.into_on(), Some(7));
    assert_eq!(s.into_off(), None);
    let t = Switch::Off(8u32);
    assert_eq!(t.on(), None);
    assert_eq!(t.off(), Some(&8));
    assert_eq!(t.into_off(), Some(8));
    assert_eq!(t.into_on(), None);
}
