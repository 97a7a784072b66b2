//! What is accepted of a configuration and what it means, told from its fields.

use vstd::prelude::*;

use crate::binding::key_ids;
use crate::config::{
    config_result, default_config, enabled, format_with, law_enabled_profiles_differ,
    law_outputs_accepted_iff_valid, output_fault_from, output_ids,
    output_targets, repeated_from, stands_earlier, upgraded, wanted_profiles, ConfigFault,
    ConfigFormat, ConfigView, InputError, InputProfile, InputView, LegacyStateTreatment,
    LegacyStateTreatments, OutputAdapter, OutputFault, OutputView, TargetView,
};
use crate::render::{
    display_result, herdr_treatments, not_once_from, once, theme_named, DisplayFault, DisplayView,
    KeyDisplayView, StateTreatment, StateTreatments,
};
use crate::render_laws::{all_unit, is_unit, law_display_accepted_iff, selects, stands_once};
use crate::request_laws::{law_logical_keys, logical_keys};
use crate::text::{is_white_space, trimmed};
use crate::text_laws::law_trimmed;

verus! {

// ---------------------------------------------------------------------------
// Inputs
// ---------------------------------------------------------------------------

proof fn lemma_repeats(profiles: Seq<InputProfile>, start: int)
    requires
        0 <= start,
    ensures
        match repeated_from(profiles, start) {
            Some(profile) => exists|i: int, j: int|
                0 <= i < j < profiles.len() && #[trigger] profiles[i] == profile
                    && #[trigger] profiles[j] == profile,
            None => true,
        },
    decreases profiles.len() - start,
{
    if start < profiles.len() {
        if stands_earlier(profiles, start) {
            let i = choose|i: int| 0 <= i < start && #[trigger] profiles[i] == profiles[start];
            assert(profiles[i] == profiles[start]);
        } else {
            lemma_repeats(profiles, start + 1);
        }
    }
}

/// The enabled profiles are the listed ones, or the one that is named, or the
/// Glove80 where nothing is said. They are refused exactly where both ways are
/// used, where none is listed, and where one is listed twice.
pub proof fn law_enabled_profiles(input: InputView)
    ensures
        match enabled(input) {
            Ok(profiles) => {
                &&& input.profile is None || input.profiles is None
                &&& input.profiles is Some ==> profiles == input.profiles->0
                &&& input.profile is Some ==> profiles.len() == 1 && profiles[0]
                    == input.profile->0
                &&& input.profile is None && input.profiles is None ==> profiles.len() == 1
                    && profiles[0] == InputProfile::Glove80
                &&& profiles.len() > 0
                &&& forall|i: int, j: int|
                    0 <= i < j < profiles.len() ==> #[trigger] profiles[i]
                        != #[trigger] profiles[j]
            },
            Err(InputError::Mixed) => input.profile is Some && input.profiles is Some,
            Err(InputError::Empty) => {
                &&& input.profile is None
                &&& input.profiles is Some
                &&& (input.profiles->0).len() == 0
            },
            Err(InputError::Duplicate(profile)) => {
                &&& input.profile is None
                &&& input.profiles is Some
                &&& exists|i: int, j: int|
                    0 <= i < j < (input.profiles->0).len() && #[trigger] (input.profiles->0)[i]
                        == profile && #[trigger] (input.profiles->0)[j] == profile
            },
        },
{
    match enabled(input) {
        Ok(profiles) => {
            law_enabled_profiles_differ(input, profiles);
        },
        Err(InputError::Duplicate(_)) => {
            lemma_repeats(wanted_profiles(input), 0);
        },
        _ => {},
    }
}

// ---------------------------------------------------------------------------
// Outputs
// ---------------------------------------------------------------------------

/// An ID in lowercase kebab-case: small letters and digits, in words that one
/// hyphen parts.
pub open spec fn is_plugin_id(id: Seq<char>) -> bool {
    &&& id.len() > 0
    &&& id[0] != '-'
    &&& id.last() != '-'
    &&& forall|i: int|
        0 <= i < id.len() ==> {
            let c = (#[trigger] id[i]) as int;
            97 <= c <= 122 || 48 <= c <= 57 || c == 45
        }
    &&& forall|i: int| 0 < i < id.len() ==> !(#[trigger] id[i] == '-' && id[i - 1] == '-')
}

/// The outputs section is accepted exactly when every plugin has an ID in
/// kebab-case and an executable, no display is built in twice, no plugin has
/// the ID of a built-in display that is listed, and no two plugins share one.
pub proof fn law_outputs_accepted_iff(outputs: OutputView)
    ensures
        output_fault_from(outputs, 0) is None <==> {
            &&& outputs.adapters.len() <= 1
            &&& forall|i: int|
                0 <= i < outputs.plugins.len() ==> is_plugin_id((#[trigger] outputs.plugins[i]).id)
                    && outputs.plugins[i].command.len() > 0
            &&& forall|i: int|
                0 <= i < outputs.plugins.len() && outputs.adapters.len() > 0 ==> (
                #[trigger] outputs.plugins[i]).id != "glove80-usb"@
            &&& forall|i: int, j: int|
                0 <= i < j < outputs.plugins.len() ==> (#[trigger] outputs.plugins[i]).id != (
                #[trigger] outputs.plugins[j]).id
        },
{
    law_outputs_accepted_iff_valid(outputs);
    let ids = output_ids(outputs);
    let built_in = outputs.adapters.len() as int;
    assert(forall|i: int| 0 <= i < built_in ==> #[trigger] ids[i] == "glove80-usb"@);
    assert forall|i: int| 0 <= i < outputs.plugins.len() implies (
    #[trigger] outputs.plugins[i]).id == ids[built_in + i] && crate::config::is_kebab_case(
        outputs.plugins[i].id,
    ) == is_plugin_id(outputs.plugins[i].id) by {
        lemma_kebab(outputs.plugins[i].id);
    }
    if output_fault_from(outputs, 0) is None {
        if outputs.adapters.len() >= 2 {
            assert(ids[0] == ids[1]);
        }
        assert forall|i: int|
            0 <= i < outputs.plugins.len() && outputs.adapters.len() > 0 implies (
        #[trigger] outputs.plugins[i]).id != "glove80-usb"@ by {
            assert(ids[0] != ids[built_in + i]);
        }
        assert forall|i: int, j: int| 0 <= i < j < outputs.plugins.len() implies (
        #[trigger] outputs.plugins[i]).id != (#[trigger] outputs.plugins[j]).id by {
            assert(ids[built_in + i] != ids[built_in + j]);
        }
    } else if outputs.adapters.len() <= 1 && (forall|i: int|
        0 <= i < outputs.plugins.len() ==> is_plugin_id((#[trigger] outputs.plugins[i]).id)
            && outputs.plugins[i].command.len() > 0) && (forall|i: int|
        0 <= i < outputs.plugins.len() && outputs.adapters.len() > 0 ==> (
        #[trigger] outputs.plugins[i]).id != "glove80-usb"@) && (forall|i: int, j: int|
        0 <= i < j < outputs.plugins.len() ==> (#[trigger] outputs.plugins[i]).id != (
        #[trigger] outputs.plugins[j]).id) {
        assert forall|i: int, j: int| 0 <= i < ids.len() && 0 <= j < ids.len() && i
            != j implies ids[i] != ids[j] by {
            let (a, b) = if i < j {
                (i, j)
            } else {
                (j, i)
            };
            assert(ids[b] == outputs.plugins[b - built_in].id);
            if a >= built_in {
                assert(ids[a] == outputs.plugins[a - built_in].id);
            }
        }
        assert(false);
    }
}

proof fn lemma_kebab(id: Seq<char>)
    ensures
        crate::config::is_kebab_case(id) == is_plugin_id(id),
{
    if crate::config::is_kebab_case(id) {
        assert(id[0] == id[0] && id[id.len() - 1] == id.last());
        if id[0] == '-' {
            assert(false);
        }
        if id[id.len() - 1] == '-' {
            assert(false);
        }
        assert forall|i: int| 0 < i < id.len() implies !(#[trigger] id[i] == '-' && id[i - 1]
            == '-') by {}
    }
    if is_plugin_id(id) {
        assert forall|i: int| 0 <= i < id.len() && #[trigger] id[i] == '-' implies 0 < i
            < id.len() - 1 && id[i - 1] != '-' by {
            assert(id[id.len() - 1] == id.last());
        }
        assert forall|i: int| 0 <= i < id.len() implies crate::config::is_id_char(
            #[trigger] id[i],
        ) || id[i] == '-' by {
            let c = id[i] as int;
            assert(97 <= c <= 122 || 48 <= c <= 57 || c == 45);
        }
    }
}

/// The displays are set up one for one: the built-in ones, and after them the
/// plugins, in the order in which they are listed.
pub proof fn law_output_targets(outputs: OutputView)
    ensures
        output_targets(outputs).len() == outputs.adapters.len() + outputs.plugins.len(),
        forall|i: int|
            0 <= i < outputs.adapters.len() ==> #[trigger] output_targets(outputs)[i]
                == TargetView::Adapter(outputs.adapters[i]),
        forall|i: int|
            0 <= i < outputs.plugins.len() ==> #[trigger] output_targets(
                outputs,
            )[outputs.adapters.len() + i] == TargetView::Plugin(outputs.plugins[i]),
{
}

// ---------------------------------------------------------------------------
// The whole configuration
// ---------------------------------------------------------------------------

/// A configuration is accepted exactly when it has the supported version, its
/// focus command, where it has one, an executable, the window of a repeated
/// press a length, every key to send a name and at least one such key, and when
/// every section is accepted.
pub proof fn law_config_accepted_iff(
    config: ConfigView,
    path: Seq<char>,
    fault: Option<ConfigFault>,
)
    requires
        config_result(config, path, fault),
    ensures
        fault is None <==> {
            &&& config.config_version == 2
            &&& config.focus is Some ==> (config.focus->0).len() > 0
            &&& config.confirm.repeat_press_ms > 0
            &&& config.confirm.keys.len() > 0
            &&& forall|i: int|
                0 <= i < config.confirm.keys.len() ==> has_name(#[trigger] config.confirm.keys[i])
            &&& enabled(config.input) is Ok
            &&& output_fault_from(config.outputs, 0) is None
            &&& config.display.keys.len() == 10
            &&& forall|n: int|
                0 <= n < 10 ==> stands_once(config.display.keys, #[trigger] logical_keys()[n])
            &&& exists|theme: StateTreatments| #[trigger]
                selects(config.display, theme) && all_unit(theme)
        },
{
    assert forall|i: int| 0 <= i < config.confirm.keys.len() implies (trimmed(
        #[trigger] config.confirm.keys[i],
    ).len() > 0) == has_name(config.confirm.keys[i]) by {
        let key = config.confirm.keys[i];
        law_trimmed(key);
        if trimmed(key).len() > 0 {
            let c = choose|c: int| 0 <= c < key.len() && !is_white_space(#[trigger] key[c]);
            assert(!is_white_space(key[c]));
        }
    }
    match fault {
        None => {
            law_display_accepted_iff(config.display, None);
        },
        Some(ConfigFault::Display(refused)) => {
            law_display_accepted_iff(config.display, Some(refused));
        },
        _ => {},
    }
}

/// A text has a character that is no white space.
pub open spec fn has_name(key: Seq<char>) -> bool {
    exists|c: int| 0 <= c < key.len() && !is_white_space(#[trigger] key[c])
}

/// A file says its format by its version, which is 1 or 2.
pub proof fn law_config_formats(version: Option<i64>)
    ensures
        format_with(version) == Ok::<ConfigFormat, Seq<char>>(ConfigFormat::V1) <==> version
            == Some(1i64),
        format_with(version) == Ok::<ConfigFormat, Seq<char>>(ConfigFormat::V2) <==> version
            == Some(2i64),
{
}

/// A treatment that some overrides give.
pub open spec fn is_override_of(
    treatment: StateTreatment,
    legacy: LegacyStateTreatment,
    plain: StateTreatment,
) -> bool {
    &&& legacy.brightness is Some ==> treatment.brightness == legacy.brightness->0
    &&& legacy.brightness is None ==> treatment.brightness == plain.brightness
    &&& legacy.motion is Some ==> treatment.motion == legacy.motion->0
    &&& legacy.motion is None ==> treatment.motion == plain.motion
    &&& legacy.color is Some ==> treatment.color == legacy.color->0
    &&& legacy.color is None ==> treatment.color == plain.color
}

/// An upgraded configuration keeps the focus command, and selects a theme that
/// is the built-in one, state for state, with the overrides of the old
/// configuration. The rest is as in a file that says nothing: no input section,
/// no plugins, the default colours, and no confirmation.
pub proof fn law_upgrade(focus: Option<Seq<Seq<char>>>, states: LegacyStateTreatments)
    ensures
        ({
            let config = upgraded(focus, states);
            let theme = config.display.themes[config.display.theme];
            let plain = herdr_treatments();
            &&& config.config_version == 2
            &&& config.focus == focus
            &&& config.input == default_config().input
            &&& config.outputs == default_config().outputs
            &&& config.confirm == default_config().confirm
            &&& config.display.keys == default_config().display.keys
            &&& config.display.themes.contains_key(config.display.theme)
            &&& is_override_of(theme.idle, states.idle, plain.idle)
            &&& is_override_of(theme.working, states.working, plain.working)
            &&& is_override_of(theme.blocked, states.blocked, plain.blocked)
            &&& is_override_of(theme.done, states.done, plain.done)
            &&& is_override_of(theme.unknown, states.unknown, plain.unknown)
        }),
{
}

/// A refusal says what is wrong with the configuration.
pub proof fn law_config_refusals(config: ConfigView, path: Seq<char>, fault: ConfigFault)
    requires
        config_result(config, path, Some(fault)),
    ensures
        match fault {
            ConfigFault::Version { path: read, version } => read == path && version
                == config.config_version && version != 2,
            ConfigFault::EmptyFocusCommand => config.focus is Some && (config.focus->0).len() == 0,
            ConfigFault::ZeroWindow => config.confirm.repeat_press_ms == 0,
            ConfigFault::ConfirmKeys => config.confirm.keys.len() == 0 || exists|i: int|
                0 <= i < config.confirm.keys.len() && !has_name(#[trigger] config.confirm.keys[i]),
            ConfigFault::Input(error) => enabled(config.input) == Err::<
                Seq<InputProfile>,
                InputError,
            >(error),
            ConfigFault::Outputs(refused) => is_wrong_with(config.outputs, refused),
            ConfigFault::Display(refused) => is_display_fault(config.display, refused),
        },
{
    assert forall|i: int| 0 <= i < config.confirm.keys.len() implies (trimmed(
        #[trigger] config.confirm.keys[i],
    ).len() > 0) == has_name(config.confirm.keys[i]) by {
        let key = config.confirm.keys[i];
        law_trimmed(key);
        if trimmed(key).len() > 0 {
            let c = choose|c: int| 0 <= c < key.len() && !is_white_space(#[trigger] key[c]);
            assert(!is_white_space(key[c]));
        }
    }
    lemma_output_faults(config.outputs, 0);
    match fault {
        ConfigFault::Display(refused) => {
            law_display_refusals(config.display, refused);
        },
        _ => {},
    }
}

/// What a refusal says of the outputs section is so.
pub open spec fn is_wrong_with(outputs: OutputView, fault: OutputFault) -> bool {
    match fault {
        OutputFault::InvalidId(id) => exists|i: int|
            0 <= i < outputs.plugins.len() && (#[trigger] outputs.plugins[i]).id == id
                && !is_plugin_id(id),
        OutputFault::EmptyCommand(id) => exists|i: int|
            0 <= i < outputs.plugins.len() && (#[trigger] outputs.plugins[i]).id == id
                && outputs.plugins[i].command.len() == 0,
        OutputFault::DuplicateId(id) => exists|i: int, j: int|
            0 <= i < j < output_ids(outputs).len() && #[trigger] output_ids(outputs)[i] == id
                && #[trigger] output_ids(outputs)[j] == id,
    }
}

proof fn lemma_output_faults(outputs: OutputView, start: int)
    requires
        0 <= start,
    ensures
        output_fault_from(outputs, start) is Some ==> is_wrong_with(
            outputs,
            output_fault_from(outputs, start)->0,
        ),
    decreases output_ids(outputs).len() - start,
{
    let ids = output_ids(outputs);
    let built_in = outputs.adapters.len() as int;
    if start < ids.len() {
        match crate::config::output_fault_at(outputs, start) {
            Some(OutputFault::DuplicateId(id)) => {
                let i = choose|i: int| 0 <= i < start && ids.take(start)[i] == id;
                assert(ids[i] == id && ids[start] == id);
            },
            Some(_) => {
                assert(outputs.plugins[start - built_in].id == ids[start]);
                lemma_kebab(ids[start]);
            },
            None => {
                lemma_output_faults(outputs, start + 1);
            },
        }
    }
}

/// What a refusal says of the display section is so.
pub open spec fn is_display_fault(display: DisplayView, fault: DisplayFault) -> bool {
    match fault {
        DisplayFault::KeyCount => display.keys.len() != 10,
        DisplayFault::NotOnce { key } => logical_keys().contains(key) && !stands_once(
            display.keys,
            key,
        ),
        DisplayFault::UnknownTheme { theme, available } => {
            &&& theme == display.theme
            &&& !display.themes.contains_key(theme)
            &&& theme != "herdr"@
            &&& theme != "catppuccin-mocha"@
            &&& forall|name: Seq<char>| #[trigger]
                available.contains(name) <==> display.themes.contains_key(name) || name
                    == "herdr"@ || name == "catppuccin-mocha"@
        },
        DisplayFault::Brightness { theme, state } => theme == display.theme && exists|
            selected: StateTreatments,
        |
            #[trigger]
            selects(display, selected) && is_too_bright(selected, state),
    }
}

/// The brightness of the named state is not from 0.0 to 1.0.
pub open spec fn is_too_bright(theme: StateTreatments, state: Seq<char>) -> bool {
    ||| state == "idle"@ && !is_unit(theme.idle.brightness)
    ||| state == "working"@ && !is_unit(theme.working.brightness)
    ||| state == "blocked"@ && !is_unit(theme.blocked.brightness)
    ||| state == "done"@ && !is_unit(theme.done.brightness)
    ||| state == "unknown"@ && !is_unit(theme.unknown.brightness)
}

/// A display section is refused for what is wrong with it.
pub proof fn law_display_refusals(display: DisplayView, fault: DisplayFault)
    requires
        display_result(display, Some(fault)),
    ensures
        is_display_fault(display, fault),
{
    law_logical_keys(key_ids()[0]);
    match fault {
        DisplayFault::NotOnce { key } => {
            lemma_not_once(display.keys, 0);
        },
        DisplayFault::Brightness { theme, state } => {
            let selected = theme_named(display.themes, display.theme)->0;
            assert(selects(display, selected));
        },
        _ => {},
    }
}

proof fn lemma_not_once(keys: Seq<KeyDisplayView>, start: int)
    requires
        0 <= start,
    ensures
        match not_once_from(keys, start) {
            Some(key) => logical_keys().contains(key) && !stands_once(keys, key),
            None => true,
        },
    decreases 10 - start,
{
    law_logical_keys(key_ids()[0]);
    if start < 10 {
        let key = key_ids()[start];
        if !once(keys, key) {
            assert(logical_keys()[start] == key);
            if stands_once(keys, key) {
                let i = choose|i: int| 0 <= i < keys.len() && (#[trigger] keys[i]).id == key;
                assert(keys[i].id == key);
            }
        } else {
            lemma_not_once(keys, start + 1);
        }
    }
}

/// A file that says nothing beyond its version enables the Glove80 and its
/// display, the built-in theme, no focus command, and no confirmation. Where
/// only confirmation is enabled, a press within 750 milliseconds sends `enter`.
pub proof fn law_defaults()
    ensures
        ({
            let config = default_config();
            &&& config.config_version == 2
            &&& config.input.profile is None && config.input.profiles is None
            &&& config.focus is None
            &&& config.outputs.adapters == seq![OutputAdapter::Glove80Usb]
            &&& config.outputs.plugins.len() == 0
            &&& config.display.theme == "herdr"@
            &&& !config.confirm.enabled
            &&& config.confirm.repeat_press_ms == 750
            &&& config.confirm.keys == seq!["enter"@]
        }),
{
}

} // verus!
