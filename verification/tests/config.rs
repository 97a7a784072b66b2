use beckon::brightness::Brightness;
use beckon::config::{
    config_format, format_of_version, input_diagnostic, split_command, Config, ConfigError,
    ConfigFormat, ConfigV1, FocusConfig, InputConfig, InputError, InputProfile, LegacyStateTreatment,
    LegacyStateTreatments, OutputAdapter, OutputConfig, OutputError, OutputTarget,
    ProcessOutputPlugin, CONFIG_VERSION, DEFAULT_CONFIG,
};
use beckon::focus::{command_result, CommandFocus};
use beckon::render::Motion;

fn bright(value: f32) -> Brightness {
    Brightness { bits: value.to_bits() }
}

fn legacy(working: LegacyStateTreatment) -> ConfigV1 {
    ConfigV1 {
        focus: FocusConfig::default(),
        states: LegacyStateTreatments { working, ..LegacyStateTreatments::default() },
    }
}

#[test]
fn upgrades_a_v1_state_override_into_a_named_theme() {
    let text = r##"
config_version = 1
[display.states.working]
brightness = 0.4
motion = "pulse"
colour = "#112233"
"##;
    assert_eq!(config_format(text), Ok(ConfigFormat::V1));
    let config = legacy(LegacyStateTreatment {
        brightness: Some(bright(0.4)),
        motion: Some(Motion::Pulse),
        color: Some("#112233".parse().unwrap()),
    })
    .upgrade();
    assert_eq!(config.display.theme, "legacy-v1");
    let theme = config.display.selected_theme().unwrap();
    assert_eq!(theme.working.brightness, bright(0.4));
    assert_eq!(theme.working.motion, Motion::Pulse);
    assert_eq!(theme.working.color.to_text(), "#112233");
    assert!(!config.actions.confirm.enabled);
    assert_eq!(theme.idle.brightness, bright(0.2));
    assert_eq!(config.config_version, CONFIG_VERSION);
    assert!(config.check("/c").is_ok());
}

#[test]
fn confirmation_is_disabled_unless_explicitly_enabled() {
    assert_eq!(config_format("config_version = 2"), Ok(ConfigFormat::V2));
    let config = Config::default();
    assert_eq!(config.input.enabled_profiles().unwrap(), [InputProfile::Glove80]);
    assert!(!config.actions.confirm.enabled);
    assert_eq!(config.actions.confirm.repeat_press_ms, 750);
    assert_eq!(config.actions.confirm.keys, ["enter"]);
    assert!(config.check("/c").is_ok());
}

#[test]
fn confirmation_allows_a_user_selected_logical_key_sequence() {
    let text = r#"
config_version = 2
[actions.confirm]
enabled = true
keys = ["ctrl+c"]
"#;
    assert_eq!(config_format(text), Ok(ConfigFormat::V2));
    let mut config = Config::default();
    config.actions.confirm.enabled = true;
    config.actions.confirm.keys = vec!["ctrl+c".into()];
    assert_eq!(config.actions.confirm.keys, ["ctrl+c"]);
    assert!(config.check("/c").is_ok());
}

#[test]
fn parses_opt_in_macbook_function_key_input() {
    let input =
        InputConfig { profile: Some(InputProfile::MacbookFunctionKeys), profiles: None };
    assert_eq!(input.enabled_profiles().unwrap(), [InputProfile::MacbookFunctionKeys]);
}

#[test]
fn enables_glove80_and_macbook_inputs_together() {
    let input = InputConfig {
        profile: None,
        profiles: Some(vec![InputProfile::Glove80, InputProfile::MacbookFunctionKeys]),
    };
    assert_eq!(
        input.enabled_profiles().unwrap(),
        [InputProfile::Glove80, InputProfile::MacbookFunctionKeys]
    );
}

#[test]
fn rejects_ambiguous_or_duplicate_input_profiles() {
    let mixed = InputConfig {
        profile: Some(InputProfile::Glove80),
        profiles: Some(vec![InputProfile::MacbookFunctionKeys]),
    };
    assert_eq!(mixed.enabled_profiles(), Err(InputError::Mixed));

    let duplicate = InputConfig {
        profile: None,
        profiles: Some(vec![InputProfile::Glove80, InputProfile::Glove80]),
    };
    assert_eq!(
        duplicate.enabled_profiles(),
        Err(InputError::Duplicate(InputProfile::Glove80))
    );

    let empty = InputConfig { profile: None, profiles: Some(vec![]) };
    assert_eq!(empty.enabled_profiles(), Err(InputError::Empty));
}

#[test]
fn rejects_unknown_config_versions() {
    assert!(config_format("config_version = 9").is_err());
}

#[test]
fn the_version_of_a_file_decides_how_it_is_read() {
    assert_eq!(config_format(DEFAULT_CONFIG), Ok(ConfigFormat::V2));
    assert_eq!(
        config_format("config_version = 9"),
        Err("config_version 9 is unsupported; this Beckon version supports 1 and 2".into())
    );
    let missing = Err("config_version must be an integer".to_string());
    assert_eq!(config_format(""), missing);
    assert_eq!(config_format("config_version = \"2\""), missing);
    assert_eq!(config_format("[config_version]"), missing);
    assert!(config_format("config_version = ").is_err());
    assert_ne!(config_format("config_version = "), missing);
    assert_eq!(
        format_of_version(Some(i64::MIN)),
        Err("config_version -9223372036854775808 is unsupported; this Beckon version supports 1 and 2".into())
    );
    assert_eq!(format_of_version(Some(1)), Ok(ConfigFormat::V1));
}

#[test]
fn describes_enabled_input_profiles_at_startup() {
    assert_eq!(
        input_diagnostic(&vec![InputProfile::Glove80, InputProfile::MacbookFunctionKeys]),
        "glove80, macbook-function-keys"
    );
}

#[test]
fn input_errors_name_the_section() {
    assert_eq!(InputProfile::default().name(), "glove80");
    assert_eq!(
        InputError::Mixed.message(),
        "input.profile and input.profiles cannot be used together; use input.profiles for multiple inputs"
    );
    assert_eq!(InputError::Empty.message(), "input.profiles must enable at least one profile");
    assert_eq!(
        InputError::Duplicate(InputProfile::MacbookFunctionKeys).message(),
        "input.profiles contains duplicate profile MacbookFunctionKeys"
    );
}

fn message(config: &Config) -> String {
    config.check("/c.toml").unwrap_err().message()
}

#[test]
fn every_section_is_checked() {
    let mut config = Config::default();
    config.config_version = 3;
    assert_eq!(
        message(&config),
        "/c.toml has config_version 3; this Beckon version supports 2"
    );
    config.config_version = 2;
    config.focus.command = Some(vec![]);
    assert_eq!(message(&config), "focus.command must contain an executable when set");
    config.focus.command = None;
    config.actions.confirm.repeat_press_ms = 0;
    assert_eq!(message(&config), "actions.confirm.repeat_press_ms must be greater than zero");
    config.actions.confirm.repeat_press_ms = 1;
    for keys in [vec![], vec!["enter".to_string(), " \t".to_string()]] {
        config.actions.confirm.keys = keys;
        assert_eq!(
            message(&config),
            "actions.confirm.keys must contain one or more logical Herdr key names"
        );
    }
    config.actions.confirm.keys = vec!["enter".into()];
    config.input.profiles = Some(vec![]);
    assert!(matches!(config.check("/c"), Err(ConfigError::Input(InputError::Empty))));
    assert_eq!(message(&config), "input.profiles must enable at least one profile");
    config.input.profiles = None;
    config.outputs.adapters = vec![OutputAdapter::Glove80Usb, OutputAdapter::Glove80Usb];
    assert_eq!(message(&config), "outputs contains duplicate id \"glove80-usb\"");
    config.outputs.adapters = vec![];
    config.display.theme = "x".into();
    assert_eq!(
        message(&config),
        "display.theme \"x\" is not defined; available themes: catppuccin-mocha, herdr"
    );
    config.display.theme = "herdr".into();
    assert!(config.check("/c").is_ok());
}

fn plugin(id: &str, command: &[&str]) -> ProcessOutputPlugin {
    ProcessOutputPlugin {
        id: id.into(),
        command: command.iter().map(|part| part.to_string()).collect(),
    }
}

#[test]
fn displays_have_kebab_case_ids_that_differ_and_plugins_an_executable() {
    assert_eq!(OutputConfig::default().adapters, [OutputAdapter::Glove80Usb]);
    assert!(OutputConfig { adapters: vec![], plugins: vec![] }.validate().is_ok());
    for id in ["a", "status-log", "x2", "9-lives", "a-b-c"] {
        let outputs = OutputConfig {
            adapters: vec![OutputAdapter::Glove80Usb],
            plugins: vec![plugin(id, &["tee"])],
        };
        assert_eq!(outputs.validate(), Ok(()), "{id}");
    }
    for id in ["", "-a", "a-", "a--b", "A", "a_b", "a b", "é"] {
        let outputs = OutputConfig { adapters: vec![], plugins: vec![plugin(id, &["tee"])] };
        assert_eq!(outputs.validate(), Err(OutputError::InvalidId(id.into())), "{id}");
    }
    let outputs = OutputConfig { adapters: vec![], plugins: vec![plugin("a", &[])] };
    assert_eq!(outputs.validate(), Err(OutputError::EmptyCommand("a".into())));
    assert_eq!(
        outputs.validate().unwrap_err().message(),
        "outputs.plugins command of \"a\" must contain an executable"
    );
    let outputs = OutputConfig {
        adapters: vec![OutputAdapter::Glove80Usb],
        plugins: vec![plugin("glove80-usb", &["tee"])],
    };
    assert_eq!(outputs.validate(), Err(OutputError::DuplicateId("glove80-usb".into())));
    assert_eq!(
        OutputError::InvalidId("A".into()).message(),
        "outputs.plugins id \"A\" must use lowercase kebab-case"
    );
}

#[test]
fn built_in_displays_come_before_plugins() {
    let outputs = OutputConfig {
        adapters: vec![OutputAdapter::Glove80Usb],
        plugins: vec![plugin("b", &["x"]), plugin("a", &["y", "z"])],
    };
    let names: Vec<String> = outputs
        .targets()
        .unwrap()
        .iter()
        .map(|target| match target {
            OutputTarget::Adapter(adapter) => adapter.name().to_string(),
            OutputTarget::Plugin(plugin) => plugin.id.clone(),
        })
        .collect();
    assert_eq!(names, ["glove80-usb", "b", "a"]);
}

#[test]
fn a_focus_command_is_split_into_program_and_arguments() {
    assert_eq!(CommandFocus::new(&FocusConfig::default()).command(), None);
    let focus = FocusConfig { command: Some(vec!["open".into(), "-a".into(), "Ghostty".into()]) };
    assert_eq!(
        CommandFocus::new(&focus).command(),
        Some(("open".into(), vec!["-a".into(), "Ghostty".into()]))
    );
    assert_eq!(command_result("open", true, "exit status: 0"), Ok(()));
    assert_eq!(
        command_result("open", false, "exit status: 1"),
        Err("focus command open exited with exit status: 1".into())
    );
}

#[test]
fn a_v1_brightness_out_of_range_is_refused() {
    let config = legacy(LegacyStateTreatment {
        brightness: Some(bright(2.0)),
        motion: None,
        color: None,
    })
    .upgrade();
    assert_eq!(
        message(&config),
        "display.themes.legacy-v1.working.brightness must be between 0.0 and 1.0"
    );
}

#[test]
fn a_command_is_parted_into_program_and_arguments() {
    let command: Vec<String> = vec!["tee".into(), "-a".into(), "log".into()];
    assert_eq!(split_command(&command), Some(("tee".into(), vec!["-a".into(), "log".into()])));
    assert_eq!(split_command(&vec!["tee".into()]), Some(("tee".into(), vec![])));
    assert_eq!(split_command(&vec![]), None);
    let plugin = ProcessOutputPlugin { id: "log".into(), command: command.clone() };
    let copy = plugin.clone();
    assert_eq!((copy.id.as_str(), copy.command), ("log", command));
}
