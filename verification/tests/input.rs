use std::cell::RefCell;

use beckon::config::InputProfile;
use beckon::input::{
    register_adapter, register_all, register_input, Glove80HotkeyInput, HotkeyEvent,
    HotkeyRegistrar, HotkeyState, InputAdapter, InputBinding, MacbookFunctionKeyInput,
    Registration, Shortcut, META, SHIFT, SUPER,
};
use global_hotkey::hotkey::{Code, HotKey, Modifiers};

#[derive(Default)]
struct FakeRegistrar {
    registered: RefCell<Vec<Shortcut>>,
    given_up: RefCell<Vec<Shortcut>>,
    refuse_after: Option<usize>,
}

impl HotkeyRegistrar for &FakeRegistrar {
    fn register(&mut self, shortcut: Shortcut) -> Result<(), String> {
        if self.refuse_after == Some(self.registered.borrow().len()) {
            return Err("taken".into());
        }
        self.registered.borrow_mut().push(shortcut);
        Ok(())
    }

    fn unregister(&mut self, shortcut: Shortcut) -> Result<(), String> {
        self.given_up.borrow_mut().push(shortcut);
        Err("ignored".into())
    }
}

fn id(shortcut: &Shortcut) -> u32 {
    let modifiers = Modifiers::from_bits(shortcut.modifiers());
    HotKey::new(modifiers, shortcut.code().parse::<Code>().unwrap()).id()
}

fn press(id: u32) -> HotkeyEvent {
    HotkeyEvent { id, state: HotkeyState::Pressed }
}

#[test]
fn glove80_adapter_registers_the_deployed_ten_shortcuts() {
    let registrar = FakeRegistrar::default();
    let input = register_adapter(&Glove80HotkeyInput, &mut &registrar).unwrap();
    let registered = registrar.registered.borrow();

    assert_eq!(registered.len(), 10);
    assert_eq!(input.pressed(&press(id(&registered[0]))).unwrap().key, "f1");
    assert_eq!(input.pressed(&press(id(&registered[5]))).unwrap().description, "Shift+F16");
}

#[test]
fn glove80_adapter_maps_each_shortcut_to_a_distinct_logical_key() {
    let registrar = FakeRegistrar::default();
    let input = register_adapter(&Glove80HotkeyInput, &mut &registrar).unwrap();
    let registered = registrar.registered.borrow();

    let keys = registered
        .iter()
        .map(|shortcut| input.pressed(&press(id(shortcut))).unwrap().key)
        .collect::<Vec<_>>();
    assert_eq!(keys, vec!["f1", "f2", "f3", "f4", "f5", "f6", "f7", "f8", "f9", "f10"]);
}

#[test]
fn adapter_ignores_releases_and_unowned_shortcuts() {
    let registrar = FakeRegistrar::default();
    let input = register_adapter(&Glove80HotkeyInput, &mut &registrar).unwrap();
    let id = id(&registrar.registered.borrow()[0]);

    assert_eq!(
        input.pressed(&HotkeyEvent { id, state: HotkeyState::Pressed }).unwrap().key,
        "f1"
    );
    assert!(input.pressed(&HotkeyEvent { id, state: HotkeyState::Released }).is_none());
    assert!(input
        .pressed(&HotkeyEvent { id: u32::MAX, state: HotkeyState::Pressed })
        .is_none());
}

#[test]
fn a_shortcut_goes_by_the_identifier_of_its_hotkey() {
    let registrar = FakeRegistrar::default();
    let input = register_adapter(&Glove80HotkeyInput, &mut &registrar).unwrap();
    assert_eq!(input.pressed(&press(175)).unwrap().key, "f1");
    assert_eq!(input.pressed(&press(0x0200_0000 + 179)).unwrap().key, "f10");
    assert!(input.pressed(&press(16)).is_none());
    const CODES: [&str; 35] = [
        "F1", "F2", "F3", "F4", "F5", "F6", "F7", "F8", "F9", "F10", "F11", "F12", "F13", "F14",
        "F15", "F16", "F17", "F18", "F19", "F20", "F21", "F22", "F23", "F24", "F25", "F26", "F27",
        "F28", "F29", "F30", "F31", "F32", "F33", "F34", "F35",
    ];
    let mut registrations = Vec::new();
    for (index, code) in CODES.into_iter().enumerate() {
        let modifiers = if index % 2 == 1 { SHIFT } else { 0 };
        let shortcut = Shortcut::new(modifiers, code).unwrap();
        assert_eq!(shortcut.id(), (modifiers << 16) + 160 + index as u32);
        let binding = InputBinding::new("f1", "any", shortcut);
        registrations.push(Registration { source: "all", binding });
    }
    let input = register_all(&registrations, &mut &FakeRegistrar::default());
    let input = input.unwrap();
    for function_key in 1..=35_u32 {
        let name = format!("F{function_key}");
        let modifiers = if function_key % 2 == 0 { Some(Modifiers::SHIFT) } else { None };
        let hotkey = HotKey::new(modifiers, name.parse::<Code>().unwrap());
        assert!(input.pressed(&press(hotkey.id())).is_some(), "{name}");
    }
}

#[test]
fn the_macbook_row_maps_one_to_one() {
    let table = MacbookFunctionKeyInput.bindings();
    let pairs: Vec<_> =
        table.iter().map(|binding| (binding.key, binding.description)).collect();
    assert_eq!(pairs.len(), 10);
    assert_eq!(pairs[0], ("f1", "F1"));
    assert_eq!(pairs[9], ("f10", "F10"));
    assert!(table.iter().all(|binding| binding.shortcut.modifiers() == 0));
    assert_eq!(table[9].shortcut.code(), "F10");
    assert_eq!(MacbookFunctionKeyInput.source_id(), "macbook-function-keys");
    assert_eq!(Glove80HotkeyInput.source_id(), "glove80");
}

#[test]
fn both_profiles_activate_the_same_keys() {
    let registrar = FakeRegistrar::default();
    let profiles = vec![InputProfile::Glove80, InputProfile::MacbookFunctionKeys];
    let input = register_input(&profiles, &mut &registrar).unwrap();
    assert_eq!(registrar.registered.borrow().len(), 20);
    assert_eq!(input.pressed(&press(175)).unwrap().key, "f1");
    assert_eq!(input.pressed(&press(160)).unwrap().key, "f1");
    assert_eq!(input.pressed(&press(160)).unwrap().description, "F1");
}

#[test]
fn a_refused_shortcut_is_named_and_the_others_are_given_up() {
    let registrar = FakeRegistrar { refuse_after: Some(6), ..Default::default() };
    let profiles = vec![InputProfile::Glove80];
    let refused = register_input(&profiles, &mut &registrar);
    assert_eq!(
        refused.err(),
        Some("register Shift+F17; another application may already own it: taken".into())
    );
    assert_eq!(registrar.registered.borrow().len(), 6);
    assert_eq!(*registrar.registered.borrow(), *registrar.given_up.borrow());
}

fn f1(modifiers: u32) -> Shortcut {
    Shortcut::new(modifiers, "F1").unwrap()
}

#[test]
fn any_modifiers_and_any_key_make_a_shortcut() {
    let (control, alt) = (Modifiers::CONTROL, Modifiers::ALT);
    for (modifiers, name, code) in [
        (control | alt, "KeyA", Code::KeyA),
        (Modifiers::META, "Space", Code::Space),
        (Modifiers::empty(), "MediaPlayPause", Code::MediaPlayPause),
        (control | Modifiers::SHIFT, "F35", Code::F35),
    ] {
        let shortcut = Shortcut::new(modifiers.bits(), name).unwrap();
        assert_eq!((shortcut.modifiers(), shortcut.code()), (modifiers.bits(), name));
        assert_eq!(shortcut.id(), HotKey::new(Some(modifiers), code).id());
        let registrar = FakeRegistrar::default();
        let binding = InputBinding::new("f7", "any", shortcut);
        let registrations = vec![Registration { source: "mine", binding }];
        let input = register_all(&registrations, &mut &registrar).unwrap();
        assert_eq!(*registrar.registered.borrow(), [shortcut]);
        assert_eq!(input.pressed(&press(shortcut.id())).unwrap().key, "f7");
    }
    assert_eq!(
        Shortcut::new(SUPER, "KeyA").unwrap().id(),
        Shortcut::new(META, "KeyA").unwrap().id()
    );
    for name in ["", "F0", "F36", "F01", "f1", "keya", "No such key"] {
        assert!(Shortcut::new(0, name).is_none(), "{name}");
    }
}

#[test]
fn a_shortcut_claimed_twice_is_refused_before_anything_is_claimed() {
    let registrar = FakeRegistrar::default();
    let registrations = vec![
        Registration { source: "one", binding: InputBinding::new("f1", "F1", f1(0)) },
        Registration { source: "two", binding: InputBinding::new("f2", "Shift+F1", f1(SHIFT)) },
        Registration { source: "two", binding: InputBinding::new("f3", "F1", f1(0)) },
    ];
    let refused = register_all(&registrations, &mut &registrar);
    assert_eq!(
        refused.err(),
        Some("shortcut F1 is claimed by both one (f1) and two (f3)".into())
    );
    assert!(registrar.registered.borrow().is_empty());
}

#[test]
fn the_glove80_adapter_has_a_default() {
    let registrar = FakeRegistrar::default();
    let adapter = Glove80HotkeyInput::default();
    let input = register_adapter(&adapter, &mut &registrar).unwrap();
    let registered = registrar.registered.borrow();
    assert_eq!(input.pressed(&press(id(&registered[9]))).unwrap().key, "f10");
}
