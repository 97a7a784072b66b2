use beckon::binding::{Binding, Pane, KEY_IDS};
use beckon::brightness::Brightness;
use beckon::name_map::NameMap;
use beckon::render::{
    all_state_examples, herdr_theme, render, state_name, AgentState, DisplayConfig, DisplayError, KeyDisplay,
    Motion, Rgb,
};

fn bright(value: f32) -> Brightness {
    Brightness { bits: value.to_bits() }
}

fn pane(status: &str) -> Pane {
    Pane {
        pane_id: "p1".into(),
        revision: 0,
        agent_status: status.into(),
        agent: None,
        label: None,
        cwd: None,
        terminal_title: None,
        terminal_title_stripped: None,
        focused: false,
        tokens: NameMap::new(),
    }
}

fn row(key: &str, status: &str) -> (Binding, Pane) {
    (Binding { key: key.into(), pane_id: "p1".into() }, pane(status))
}

#[test]
fn blocked_overrides_the_key_colour() {
    let plan = render(
        &DisplayConfig::default(),
        &[(Binding { key: "f1".into(), pane_id: "p1".into() }, pane("blocked"))],
    )
    .unwrap();
    assert_eq!(plan.keys[0].color.to_text(), "#F38BA8");
    assert_eq!(plan.keys[0].motion, Motion::Pulse);
}

#[test]
fn an_unknown_herdr_status_is_visible_as_unknown() {
    let plan = render(
        &DisplayConfig::default(),
        &[(Binding { key: "f1".into(), pane_id: "p1".into() }, pane("waiting_for_user"))],
    )
    .unwrap();
    assert_eq!(plan.keys[0].state, Some(AgentState::Unknown));
    assert_eq!(plan.keys[0].motion, Motion::Flicker);
}

#[test]
fn unbound_keys_are_explicitly_off() {
    let plan = render(&DisplayConfig::default(), &[]).unwrap();
    assert_eq!(plan.keys.len(), 10);
    assert_eq!(plan.keys[0].state, None);
    assert_eq!(plan.keys[0].brightness, bright(0.0));
}

#[test]
fn rejects_incomplete_key_configuration() {
    let mut display = DisplayConfig::default();
    display.keys.pop();
    assert!(display.validate().is_err());
}

#[test]
fn the_default_display_is_valid_and_every_plan_shows_every_key() {
    let display = DisplayConfig::default();
    assert!(display.validate().is_ok());
    assert_eq!(display.theme, "herdr");
    assert_eq!(display.keys[3].color.to_text(), "#FFB020");
    let plan = render(&display, &[row("f10", "done"), row("f2", "idle")]).unwrap();
    let keys: Vec<&str> = plan.keys.iter().map(|key| key.key.as_str()).collect();
    assert_eq!(keys, KEY_IDS);
    assert_eq!(plan.keys[9].state, Some(AgentState::Done));
    assert_eq!(plan.keys[1].state, Some(AgentState::Idle));
    assert_eq!(plan.keys[0].state, None);
    assert!(plan.treatments == herdr_theme());
}

#[test]
fn the_last_row_of_a_key_counts() {
    let plan =
        render(&DisplayConfig::default(), &[row("f1", "idle"), row("f1", "working")]).unwrap();
    assert_eq!(plan.keys[0].state, Some(AgentState::Working));
    assert_eq!(plan.keys[0].brightness, bright(0.6));
    assert_eq!(plan.keys[0].color.to_text(), "#F9E2AF");
}

#[test]
fn herdr_states_are_read_whatever_their_case_and_padding() {
    assert_eq!(AgentState::from_herdr(" Idle\n"), AgentState::Idle);
    assert_eq!(AgentState::from_herdr("WORKING"), AgentState::Working);
    assert_eq!(AgentState::from_herdr("blocked"), AgentState::Blocked);
    assert_eq!(AgentState::from_herdr("\u{a0}done\u{3000}"), AgentState::Done);
    assert_eq!(AgentState::from_herdr(""), AgentState::Unknown);
    assert_eq!(AgentState::from_herdr("i dle"), AgentState::Unknown);
    assert_eq!(state_name(None), "unbound");
    for name in ["idle", "working", "blocked", "done", "unknown"] {
        assert_eq!(state_name(Some(AgentState::from_herdr(name))), name);
    }
}

#[test]
fn examples_show_every_state_on_the_first_keys() {
    let plan = all_state_examples(&DisplayConfig::default()).unwrap();
    let shown: Vec<_> = plan.keys.iter().map(|key| (key.key.as_str(), key.state)).collect();
    assert_eq!(
        shown,
        [
            ("f1", Some(AgentState::Idle)),
            ("f2", Some(AgentState::Working)),
            ("f3", Some(AgentState::Blocked)),
            ("f4", Some(AgentState::Done)),
            ("f5", Some(AgentState::Unknown)),
        ]
    );
}

#[test]
fn colours_read_back_what_they_show() {
    let color = Rgb { red: 0x0a, green: 0xff, blue: 0x30 };
    assert_eq!(color.to_text(), "#0AFF30");
    assert_eq!(Rgb::parse("#0AFF30"), Ok(color));
    assert_eq!("#0aff30".parse::<Rgb>(), Ok(color));
    let refused = Err("colour must use #RRGGBB syntax".to_string());
    for text in [
        "", "#", "0AFF30", "#0AFF3", "#0AFF300", "#0AFF3G", "#-1-1-1", "#1+2345", "#+1+2+a", "#ä1234",
    ] {
        assert_eq!(Rgb::parse(text), refused, "{text}");
        assert_eq!(text.parse::<Rgb>(), refused, "{text}");
    }
}

#[test]
fn a_repeated_or_missing_key_is_named() {
    let mut display = DisplayConfig::default();
    display.keys[4] = KeyDisplay { id: "f1".into(), color: Rgb { red: 0, green: 0, blue: 0 } };
    let error = display.validate().unwrap_err();
    assert_eq!(error, DisplayError::NotOnce { key: "f1".into() });
    assert_eq!(error.message(), "display.keys must configure f1 exactly once");
    display.keys[4].id = "f11".into();
    assert_eq!(display.validate(), Err(DisplayError::NotOnce { key: "f5".into() }));
    display.keys.pop();
    let error = display.validate().unwrap_err();
    assert_eq!(error, DisplayError::KeyCount);
    assert_eq!(error.message(), "display.keys must configure exactly ten Beckon keys");
}

#[test]
fn an_unknown_theme_is_quoted_with_the_themes_there_are() {
    let mut display = DisplayConfig::default();
    display.themes.insert("mine".into(), herdr_theme());
    display.theme = "a \"b\"".into();
    let error = display.selected_theme().unwrap_err();
    assert_eq!(
        error.message(),
        "display.theme \"a \\\"b\\\"\" is not defined; available themes: catppuccin-mocha, herdr, mine"
    );
    assert!(render(&display, &[]).is_err());
    assert!(all_state_examples(&display).is_err());
}

#[test]
fn a_theme_of_the_user_overlays_the_built_in_one() {
    let mut display = DisplayConfig::default();
    let mut theme = herdr_theme();
    theme.idle.brightness = bright(1.0);
    display.themes.insert("herdr".into(), theme);
    assert_eq!(display.selected_theme().unwrap().idle.brightness, bright(1.0));
    display.theme = "catppuccin-mocha".into();
    assert_eq!(display.selected_theme().unwrap().idle.brightness, bright(0.2));
}

#[test]
fn a_brightness_out_of_range_names_theme_and_state() {
    let mut display = DisplayConfig::default();
    for value in [-0.5_f32, 1.5, f32::NAN, f32::INFINITY] {
        let mut theme = herdr_theme();
        theme.done.brightness = bright(value);
        display.themes.insert("herdr".into(), theme);
        let error = display.validate().unwrap_err();
        assert_eq!(
            error.message(),
            "display.themes.herdr.done.brightness must be between 0.0 and 1.0"
        );
    }
    let mut theme = herdr_theme();
    theme.done.brightness = bright(-0.0);
    display.themes.insert("herdr".into(), theme);
    assert!(display.validate().is_ok());
}

#[test]
fn ordered_treatments_follow_the_states() {
    let theme = herdr_theme();
    let ordered = theme.ordered();
    assert!(ordered[0] == theme.idle && ordered[4] == theme.unknown);
    assert_eq!(ordered.map(|treatment| treatment.motion), [
        Motion::Steady,
        Motion::Breathe,
        Motion::Pulse,
        Motion::Steady,
        Motion::Flicker,
    ]);
}

#[test]
fn plans_compare_brightness_as_numbers() {
    let plan = render(&DisplayConfig::default(), &[]).unwrap();
    let mut other = plan.clone();
    assert!(plan == other);
    other.keys[0].brightness = bright(-0.0);
    assert!(plan == other);
    other.keys[0].brightness = bright(f32::NAN);
    assert!(other != other.clone());
    other.keys[0].brightness = bright(0.5);
    assert!(plan != other);
}

#[test]
fn brightness_becomes_the_byte_that_float_arithmetic_gives() {
    let mut checked: u32 = 0;
    let mut bits: u32 = 0;
    while bits < 0x4080_0000 {
        let value = f32::from_bits(bits);
        let expected = (value.clamp(0.0, 1.0) * 255.0).round() as u8;
        assert_eq!(Brightness { bits }.level(), expected, "{value}");
        assert_eq!(Brightness { bits }.in_range(), (0.0..=1.0).contains(&value), "{value}");
        checked += 1;
        bits += 4_099;
    }
    assert!(checked > 200_000);
    for step in 0..=510_u32 {
        let value = step as f32 / 510.0;
        let expected = (value * 255.0).round() as u8;
        assert_eq!(bright(value).level(), expected, "{value}");
    }
    for (value, level) in [(0.2, 51), (0.6, 153), (0.8, 204), (0.3, 77), (1.0, 255), (0.0, 0)] {
        assert_eq!(bright(value).level(), level);
    }
    assert_eq!(bright(f32::NAN).level(), 0);
    assert_eq!(bright(-3.0).level(), 0);
    assert_eq!(bright(f32::INFINITY).level(), 255);
}

#[test]
fn a_copied_display_renders_alike() {
    let mut display = DisplayConfig::default();
    display.themes.insert("mine".into(), herdr_theme());
    display.theme = "mine".into();
    display.keys[0].color = Rgb { red: 1, green: 2, blue: 3 };
    let copy = display.clone();
    assert_eq!(copy.themes.get("mine").map(|theme| *theme == herdr_theme()), Some(true));
    assert_eq!(copy.keys[0].clone().color, Rgb { red: 1, green: 2, blue: 3 });
    assert!(render(&copy, &[]).unwrap() == render(&display, &[]).unwrap());
}
