use led::key::{Code, Modifiers};

#[test]
fn it_works() {
    let result = led::add(2, 2);
    assert_eq!(result, 4);
}

#[test]
fn modifiers_shift_ctrl_alt_super_detection() {
    let mods = Modifiers::new(Modifiers::SHIFT | Modifiers::CTRL | Modifiers::ALT | Modifiers::SUPER);
    assert!(mods.shift());
    assert!(mods.ctrl());
    assert!(mods.alt());
    assert!(mods.super_key());
}

#[test]
fn modifiers_individual_keys() {
    let shift = Modifiers::new(Modifiers::SHIFT);
    let ctrl = Modifiers::new(Modifiers::CTRL);
    let alt = Modifiers::new(Modifiers::ALT);
    let super_key = Modifiers::new(Modifiers::SUPER);

    assert!(shift.shift());
    assert!(!shift.ctrl());
    assert!(!shift.alt());
    assert!(!shift.super_key());

    assert!(!ctrl.shift());
    assert!(ctrl.ctrl());
    assert!(!ctrl.alt());
    assert!(!ctrl.super_key());

    assert!(!alt.shift());
    assert!(!alt.ctrl());
    assert!(alt.alt());
    assert!(!alt.super_key());

    assert!(!super_key.shift());
    assert!(!super_key.ctrl());
    assert!(!super_key.alt());
    assert!(super_key.super_key());
}

#[test]
fn modifiers_default_is_empty() {
    let mods = Modifiers::default();
    assert!(!mods.shift());
    assert!(!mods.ctrl());
    assert!(!mods.alt());
    assert!(!mods.super_key());
    assert_eq!(mods, Modifiers::empty());
}

#[test]
fn code_enum_variants_are_distinct() {
    assert_ne!(Code::Enter, Code::Escape);
    assert_ne!(Code::A, Code::B);
    assert_ne!(Code::F1, Code::F2);
    assert_ne!(Code::LeftShift, Code::RightShift);
}

#[test]
fn code_other_variant_accepts_any_u32() {
    let code1 = Code::Other(42);
    let code2 = Code::Other(9999);
    assert_eq!(code1, Code::Other(42));
    assert_ne!(code1, code2);
}
