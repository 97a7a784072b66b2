//! The configuration: its sections, their defaults and their checks, and the
//! upgrade of version 1.

use vstd::prelude::*;

use crate::brightness::Brightness;
use crate::render::{
    default_display, default_key_views, display_result, herdr_treatments, law_accepted_iff_valid,
    law_default_display_is_valid, theme_named, too_bright, DisplayConfig, DisplayError,
    DisplayFault, DisplayView, Motion, Rgb, StateTreatment, StateTreatments,
};
use crate::text::{
    chars_of, decimal, decimal_of, is_blank, join, joined, quote, quoted, same_text, signed,
    signed_decimal, str_views, trimmed, views,
};

verus! {

broadcast use vstd::string::group_string_axioms;

/// The version that configurations have.
pub const CONFIG_VERSION: u32 = 2;

// ---------------------------------------------------------------------------
// Input
// ---------------------------------------------------------------------------

/// Selects the physical source that invokes Beckon's logical F1 through F10
/// bindings. This affects navigation only; displays remain independently
/// configured.
#[derive(Clone, Copy, Debug, PartialEq, Eq, PartialOrd, Ord, Structural)]
pub enum InputProfile {
    /// Glove80's Beckon layer: F16-F20 and Shift+F16-F20. This deliberately
    /// avoids colliding with macOS's normal function-key behavior.
    Glove80,
    /// The MacBook's physical F1-F10 row. macOS must be configured to emit
    /// standard function keys before this profile can receive them.
    MacbookFunctionKeys,
}

impl Default for InputProfile {
    fn default() -> (profile: Self)
        ensures
            profile == InputProfile::Glove80,
    {
        InputProfile::Glove80
    }
}

/// The configuration and diagnostic name of a profile.
pub open spec fn profile_name(profile: InputProfile) -> Seq<char> {
    match profile {
        InputProfile::Glove80 => "glove80"@,
        InputProfile::MacbookFunctionKeys => "macbook-function-keys"@,
    }
}

/// The name of a profile in error messages.
pub open spec fn profile_variant(profile: InputProfile) -> Seq<char> {
    match profile {
        InputProfile::Glove80 => "Glove80"@,
        InputProfile::MacbookFunctionKeys => "MacbookFunctionKeys"@,
    }
}

impl InputProfile {
    /// Stable configuration and diagnostic name for this physical source.
    pub fn name(self) -> (name: &'static str)
        ensures
            name@ == profile_name(self),
    {
        match self {
            InputProfile::Glove80 => "glove80",
            InputProfile::MacbookFunctionKeys => "macbook-function-keys",
        }
    }
}

/// The names of the enabled profiles, for the log.
pub fn input_diagnostic(profiles: &Vec<InputProfile>) -> (text: String)
    ensures
        text@ == joined(
            profiles@.map_values(|profile: InputProfile| profile_name(profile)),
            ", "@,
        ),
{
    let mut names: Vec<String> = Vec::new();
    for i in 0..profiles.len()
        invariant
            names.len() == i,
            forall|j: int| 0 <= j < i ==> (#[trigger] names@[j])@ == profile_name(profiles@[j]),
    {
        names.push(profiles[i].name().to_owned());
    }
    assert(views(names@) =~= profiles@.map_values(
        |profile: InputProfile| profile_name(profile),
    ));
    join(&names, ", ")
}

/// The input section.
#[derive(Debug)]
pub struct InputConfig {
    /// Compatibility spelling for selecting exactly one profile. New
    /// configurations should use `profiles` so multiple physical keyboards
    /// can activate the same logical Beckon slots concurrently.
    pub profile: Option<InputProfile>,
    /// Physical input profiles to enable together. Their shortcuts must be
    /// distinct, but profiles may map those shortcuts to the same logical
    /// Beckon slots.
    pub profiles: Option<Vec<InputProfile>>,
}

#[verifier::ext_equal]
pub struct InputView {
    pub profile: Option<InputProfile>,
    pub profiles: Option<Seq<InputProfile>>,
}

impl View for InputConfig {
    type V = InputView;

    open spec fn view(&self) -> InputView {
        InputView {
            profile: self.profile,
            profiles: match self.profiles {
                Some(profiles) => Some(profiles@),
                None => None,
            },
        }
    }
}

impl Default for InputConfig {
    fn default() -> (input: Self)
        ensures
            input@ == (InputView { profile: None, profiles: None }),
    {
        InputConfig { profile: None, profiles: None }
    }
}

/// Why the input section is refused.
#[derive(Clone, Copy, Debug, PartialEq, Eq, Structural)]
pub enum InputError {
    /// Both spellings are used.
    Mixed,
    /// No profile is enabled.
    Empty,
    /// A profile is enabled twice.
    Duplicate(InputProfile),
}

/// The text of an input error.
pub open spec fn input_message(error: InputError) -> Seq<char> {
    match error {
        InputError::Mixed =>
            "input.profile and input.profiles cannot be used together; use input.profiles for multiple inputs"@,
        InputError::Empty => "input.profiles must enable at least one profile"@,
        InputError::Duplicate(profile) => "input.profiles contains duplicate profile "@
            + profile_variant(profile),
    }
}

impl InputError {
    /// The text shown to the user.
    pub fn message(self) -> (text: String)
        ensures
            text@ == input_message(self),
    {
        match self {
            InputError::Mixed =>
                "input.profile and input.profiles cannot be used together; use input.profiles for multiple inputs".to_owned(),
            InputError::Empty => "input.profiles must enable at least one profile".to_owned(),
            InputError::Duplicate(InputProfile::Glove80) =>
                "input.profiles contains duplicate profile ".to_owned().concat("Glove80"),
            InputError::Duplicate(InputProfile::MacbookFunctionKeys) =>
                "input.profiles contains duplicate profile ".to_owned().concat(
                "MacbookFunctionKeys",
            ),
        }
    }
}

/// The profile at `index` also stands earlier.
pub open spec fn stands_earlier(profiles: Seq<InputProfile>, index: int) -> bool {
    exists|j: int| 0 <= j < index && #[trigger] profiles[j] == profiles[index]
}

/// The first profile from `start` on that also stands earlier.
pub open spec fn repeated_from(profiles: Seq<InputProfile>, start: int) -> Option<InputProfile>
    decreases profiles.len() - start,
{
    if start >= profiles.len() {
        None
    } else if stands_earlier(profiles, start) {
        Some(profiles[start])
    } else {
        repeated_from(profiles, start + 1)
    }
}

/// The profiles that the section asks for: Glove80 where it is silent.
pub open spec fn wanted_profiles(input: InputView) -> Seq<InputProfile> {
    match (input.profile, input.profiles) {
        (_, Some(profiles)) => profiles,
        (Some(profile), None) => seq![profile],
        (None, None) => seq![InputProfile::Glove80],
    }
}

/// The enabled profiles, or why the section is refused.
pub open spec fn enabled(input: InputView) -> Result<Seq<InputProfile>, InputError> {
    if input.profile is Some && input.profiles is Some {
        Err(InputError::Mixed)
    } else if wanted_profiles(input).len() == 0 {
        Err(InputError::Empty)
    } else {
        match repeated_from(wanted_profiles(input), 0) {
            Some(profile) => Err(InputError::Duplicate(profile)),
            None => Ok(wanted_profiles(input)),
        }
    }
}

fn check_profiles(profiles: Vec<InputProfile>) -> (result: Result<Vec<InputProfile>, InputError>)
    ensures
        match result {
            Ok(same) => same@ == profiles@ && profiles.len() > 0 && repeated_from(profiles@, 0)
                is None,
            Err(error) => error == if profiles.len() == 0 {
                InputError::Empty
            } else {
                InputError::Duplicate(repeated_from(profiles@, 0)->0)
            } && (profiles.len() > 0 ==> repeated_from(profiles@, 0) is Some),
        },
{
    if profiles.len() == 0 {
        return Err(InputError::Empty);
    }
    for i in 0..profiles.len()
        invariant
            repeated_from(profiles@, 0) == repeated_from(profiles@, i as int),
    {
        for j in 0..i
            invariant
                i < profiles.len(),
                repeated_from(profiles@, 0) == repeated_from(profiles@, i as int),
                forall|k: int| 0 <= k < j ==> #[trigger] profiles@[k] != profiles@[i as int],
        {
            if profiles[j] == profiles[i] {
                assert(stands_earlier(profiles@, i as int)) by {
                    assert(profiles@[j as int] == profiles@[i as int]);
                }
                assert(profiles.len() > 0);
                return Err(InputError::Duplicate(profiles[i]));
            }
        }
        assert(!stands_earlier(profiles@, i as int));
    }
    Ok(profiles)
}

fn copied_profiles(profiles: &Vec<InputProfile>) -> (copy: Vec<InputProfile>)
    ensures
        copy@ == profiles@,
{
    let mut copy: Vec<InputProfile> = Vec::new();
    for i in 0..profiles.len()
        invariant
            copy.len() == i,
            forall|j: int| 0 <= j < i ==> #[trigger] copy@[j] == profiles@[j],
    {
        copy.push(profiles[i]);
    }
    assert(copy@ =~= profiles@);
    copy
}

impl InputConfig {
    /// Resolves the enabled physical input profiles.
    ///
    /// Leaving the section absent preserves the Glove80-only behavior.
    /// `profile` remains supported for existing configurations, while
    /// `profiles` permits multiple sources such as a desktop Glove80 and a
    /// mobile MacBook keyboard.
    pub fn enabled_profiles(&self) -> (result: Result<Vec<InputProfile>, InputError>)
        ensures
            match result {
                Ok(profiles) => enabled(self@) == Ok::<Seq<InputProfile>, InputError>(profiles@),
                Err(error) => enabled(self@) == Err::<Seq<InputProfile>, InputError>(error),
            },
    {
        let wanted = match (self.profile, &self.profiles) {
            (Some(_), Some(_)) => {
                return Err(InputError::Mixed);
            },
            (Some(profile), None) => {
                let one = vec![profile];
                assert(one@ =~= seq![profile]);
                one
            },
            (None, None) => {
                let one = vec![InputProfile::Glove80];
                assert(one@ =~= seq![InputProfile::Glove80]);
                one
            },
            (None, Some(profiles)) => copied_profiles(profiles),
        };
        check_profiles(wanted)
    }
}

proof fn lemma_repeated(profiles: Seq<InputProfile>, start: int)
    requires
        0 <= start,
        repeated_from(profiles, start) is None,
    ensures
        forall|i: int| start <= i < profiles.len() ==> !#[trigger] stands_earlier(profiles, i),
    decreases profiles.len() - start,
{
    if start < profiles.len() {
        lemma_repeated(profiles, start + 1);
        assert forall|i: int| start <= i < profiles.len() implies !#[trigger] stands_earlier(
            profiles,
            i,
        ) by {
            if i > start {
                assert(start + 1 <= i);
            }
        }
    }
}

/// At least one profile is enabled, and none twice.
pub proof fn law_enabled_profiles_differ(input: InputView, profiles: Seq<InputProfile>)
    requires
        enabled(input) == Ok::<Seq<InputProfile>, InputError>(profiles),
    ensures
        profiles.len() > 0,
        profiles.no_duplicates(),
{
    lemma_repeated(profiles, 0);
    assert forall|i: int, j: int| 0 <= i < j < profiles.len() implies profiles[i]
        != profiles[j] by {
        assert(!stands_earlier(profiles, j));
    }
}

// ---------------------------------------------------------------------------
// Actions and focus
// ---------------------------------------------------------------------------

/// The repeat-press confirmation.
#[derive(Debug)]
pub struct ConfirmConfig {
    pub enabled: bool,
    pub repeat_press_ms: u64,
    pub keys: Vec<String>,
}

#[verifier::ext_equal]
pub struct ConfirmView {
    pub enabled: bool,
    pub repeat_press_ms: u64,
    pub keys: Seq<Seq<char>>,
}

impl View for ConfirmConfig {
    type V = ConfirmView;

    open spec fn view(&self) -> ConfirmView {
        ConfirmView {
            enabled: self.enabled,
            repeat_press_ms: self.repeat_press_ms,
            keys: views(self.keys@),
        }
    }
}

/// The confirmation where the configuration is silent: disabled.
pub open spec fn default_confirm() -> ConfirmView {
    ConfirmView { enabled: false, repeat_press_ms: 750, keys: seq!["enter"@] }
}

/// The window of a repeated press, in milliseconds, by default.
pub fn default_repeat_press_ms() -> (window: u64)
    ensures
        window == 750,
{
    750
}

/// The logical keys that a confirmation sends by default.
pub fn default_confirm_keys() -> (keys: Vec<String>)
    ensures
        views(keys@) == seq!["enter"@],
{
    let mut keys: Vec<String> = Vec::new();
    keys.push("enter".to_owned());
    assert(views(keys@) =~= seq!["enter"@]);
    keys
}

impl Default for ConfirmConfig {
    fn default() -> (confirm: Self)
        ensures
            confirm@ == default_confirm(),
    {
        ConfirmConfig {
            enabled: false,
            repeat_press_ms: default_repeat_press_ms(),
            keys: default_confirm_keys(),
        }
    }
}

/// Deliberately opt-in actions that can send input to a bound pane.
///
/// Beckon's default remains display and navigation only. A user must enable an
/// action explicitly because it can have effects inside an agent session.
#[derive(Debug)]
pub struct ActionsConfig {
    pub confirm: ConfirmConfig,
}

impl Default for ActionsConfig {
    fn default() -> (actions: Self)
        ensures
            actions.confirm@ == default_confirm(),
    {
        ActionsConfig { confirm: ConfirmConfig::default() }
    }
}

/// The focus section.
#[derive(Debug)]
pub struct FocusConfig {
    /// Executable followed by arguments. It runs before the pane is focused.
    pub command: Option<Vec<String>>,
}

/// The focus command.
pub open spec fn command_view(focus: FocusConfig) -> Option<Seq<Seq<char>>> {
    match focus.command {
        Some(command) => Some(views(command@)),
        None => None,
    }
}

impl Default for FocusConfig {
    fn default() -> (focus: Self)
        ensures
            command_view(focus) is None,
    {
        FocusConfig { command: None }
    }
}

// ---------------------------------------------------------------------------
// Outputs
// ---------------------------------------------------------------------------

/// A built-in display.
#[derive(Clone, Copy, Debug, PartialEq, Eq, PartialOrd, Ord, Structural)]
pub enum OutputAdapter {
    /// The wired status display of a Glove80.
    Glove80Usb,
}

/// The name of a built-in display.
pub open spec fn adapter_name(adapter: OutputAdapter) -> Seq<char> {
    match adapter {
        OutputAdapter::Glove80Usb => "glove80-usb"@,
    }
}

impl OutputAdapter {
    /// Stable configuration and diagnostic name for this display.
    pub fn name(self) -> (name: &'static str)
        ensures
            name@ == adapter_name(self),
    {
        match self {
            OutputAdapter::Glove80Usb => "glove80-usb",
        }
    }
}

/// An external display program.
#[derive(Debug)]
pub struct ProcessOutputPlugin {
    pub id: String,
    /// Executable followed by arguments.
    pub command: Vec<String>,
}

#[verifier::ext_equal]
pub struct PluginView {
    pub id: Seq<char>,
    pub command: Seq<Seq<char>>,
}

impl View for ProcessOutputPlugin {
    type V = PluginView;

    open spec fn view(&self) -> PluginView {
        PluginView { id: self.id@, command: views(self.command@) }
    }
}

impl Clone for ProcessOutputPlugin {
    fn clone(&self) -> (copy: Self)
        ensures
            copy@ == self@,
    {
        let mut command: Vec<String> = Vec::new();
        for i in 0..self.command.len()
            invariant
                command.len() == i,
                forall|j: int| 0 <= j < i ==> #[trigger] command@[j] == self.command@[j],
        {
            command.push(self.command[i].clone());
        }
        assert(command@ =~= self.command@);
        ProcessOutputPlugin { id: self.id.clone(), command }
    }
}

/// Parts a command into the program and its arguments; none where it is empty.
pub fn split_command(command: &Vec<String>) -> (parts: Option<(String, Vec<String>)>)
    ensures
        match parts {
            Some((program, arguments)) => views(command@) == seq![program@] + views(arguments@),
            None => command@.len() == 0,
        },
{
    if command.len() == 0 {
        return None;
    }
    let program = command[0].clone();
    let mut arguments: Vec<String> = Vec::new();
    let ghost all = views(command@);
    for i in 1..command.len()
        invariant
            all == views(command@),
            arguments.len() == i - 1,
            forall|j: int|
                0 <= j < arguments.len() ==> (#[trigger] arguments@[j])@ == all[j + 1],
    {
        arguments.push(command[i].clone());
    }
    assert(seq![program@] + views(arguments@) =~= all);
    Some((program, arguments))
}

/// The outputs section.
#[derive(Debug)]
pub struct OutputConfig {
    pub adapters: Vec<OutputAdapter>,
    pub plugins: Vec<ProcessOutputPlugin>,
}

#[verifier::ext_equal]
pub struct OutputView {
    pub adapters: Seq<OutputAdapter>,
    pub plugins: Seq<PluginView>,
}

impl View for OutputConfig {
    type V = OutputView;

    open spec fn view(&self) -> OutputView {
        OutputView {
            adapters: self.adapters@,
            plugins: self.plugins@.map_values(|plugin: ProcessOutputPlugin| plugin@),
        }
    }
}

/// The outputs where the configuration is silent.
pub open spec fn default_outputs() -> OutputView {
    OutputView { adapters: seq![OutputAdapter::Glove80Usb], plugins: Seq::empty() }
}

impl Default for OutputConfig {
    fn default() -> (outputs: Self)
        ensures
            outputs@ == default_outputs(),
    {
        let outputs = OutputConfig { adapters: vec![OutputAdapter::Glove80Usb], plugins: Vec::new() };
        assert(outputs@.adapters =~= default_outputs().adapters);
        assert(outputs@.plugins =~= default_outputs().plugins);
        outputs
    }
}

/// A lowercase letter or a digit.
pub open spec fn is_id_char(c: char) -> bool {
    'a' <= c <= 'z' || '0' <= c <= '9'
}

/// Lowercase kebab-case: words of lowercase letters and digits with one hyphen
/// between them.
pub open spec fn is_kebab_case(id: Seq<char>) -> bool {
    &&& id.len() > 0
    &&& forall|i: int| 0 <= i < id.len() ==> is_id_char(#[trigger] id[i]) || id[i] == '-'
    &&& forall|i: int|
        0 <= i < id.len() && #[trigger] id[i] == '-' ==> 0 < i < id.len() - 1 && id[i - 1] != '-'
}

/// Why the outputs section is refused.
#[derive(Debug, PartialEq, Eq)]
pub enum OutputError {
    /// An ID is not lowercase kebab-case.
    InvalidId(String),
    /// A plugin has no executable.
    EmptyCommand(String),
    /// Two displays have the same ID.
    DuplicateId(String),
}

pub enum OutputFault {
    InvalidId(Seq<char>),
    EmptyCommand(Seq<char>),
    DuplicateId(Seq<char>),
}

impl View for OutputError {
    type V = OutputFault;

    open spec fn view(&self) -> OutputFault {
        match *self {
            OutputError::InvalidId(id) => OutputFault::InvalidId(id@),
            OutputError::EmptyCommand(id) => OutputFault::EmptyCommand(id@),
            OutputError::DuplicateId(id) => OutputFault::DuplicateId(id@),
        }
    }
}

impl OutputFault {
    /// The text shown to the user.
    pub open spec fn message(self) -> Seq<char> {
        match self {
            OutputFault::InvalidId(id) => "outputs.plugins id "@ + quoted(id)
                + " must use lowercase kebab-case"@,
            OutputFault::EmptyCommand(id) => "outputs.plugins command of "@ + quoted(id)
                + " must contain an executable"@,
            OutputFault::DuplicateId(id) => "outputs contains duplicate id "@ + quoted(id),
        }
    }
}

impl OutputError {
    /// The text shown to the user.
    pub fn message(&self) -> (text: String)
        ensures
            text@ == self@.message(),
    {
        match self {
            OutputError::InvalidId(id) => "outputs.plugins id ".to_owned().concat(
                quote(id.as_str()).as_str(),
            ).concat(" must use lowercase kebab-case"),
            OutputError::EmptyCommand(id) => "outputs.plugins command of ".to_owned().concat(
                quote(id.as_str()).as_str(),
            ).concat(" must contain an executable"),
            OutputError::DuplicateId(id) => "outputs contains duplicate id ".to_owned().concat(
                quote(id.as_str()).as_str(),
            ),
        }
    }
}

/// The IDs of all displays, built-in ones first.
pub open spec fn output_ids(outputs: OutputView) -> Seq<Seq<char>> {
    outputs.adapters.map_values(|adapter: OutputAdapter| adapter_name(adapter))
        + outputs.plugins.map_values(|plugin: PluginView| plugin.id)
}

/// What is wrong with the display at a position, given those before it.
pub open spec fn output_fault_at(outputs: OutputView, index: int) -> Option<OutputFault> {
    let id = output_ids(outputs)[index];
    if index >= outputs.adapters.len() && !is_kebab_case(id) {
        Some(OutputFault::InvalidId(id))
    } else if index >= outputs.adapters.len() && outputs.plugins[index
        - outputs.adapters.len()].command.len() == 0 {
        Some(OutputFault::EmptyCommand(id))
    } else if output_ids(outputs).take(index).contains(id) {
        Some(OutputFault::DuplicateId(id))
    } else {
        None
    }
}

/// The first thing wrong with the displays from a position on.
pub open spec fn output_fault_from(outputs: OutputView, start: int) -> Option<OutputFault>
    decreases output_ids(outputs).len() - start,
{
    if start >= output_ids(outputs).len() {
        None
    } else if output_fault_at(outputs, start) is Some {
        output_fault_at(outputs, start)
    } else {
        output_fault_from(outputs, start + 1)
    }
}

/// Every plugin has a kebab-case ID and an executable, and no two displays
/// share an ID.
pub open spec fn valid_outputs(outputs: OutputView) -> bool {
    &&& forall|i: int|
        0 <= i < outputs.plugins.len() ==> is_kebab_case((#[trigger] outputs.plugins[i]).id)
            && outputs.plugins[i].command.len() > 0
    &&& output_ids(outputs).no_duplicates()
}

proof fn lemma_output_fault(outputs: OutputView, start: int)
    requires
        0 <= start <= output_ids(outputs).len(),
    ensures
        output_fault_from(outputs, start) is None <==> (forall|i: int|
            start <= i < output_ids(outputs).len() ==> #[trigger] output_fault_at(outputs, i)
                is None),
    decreases output_ids(outputs).len() - start,
{
    if start < output_ids(outputs).len() {
        lemma_output_fault(outputs, start + 1);
        if output_fault_from(outputs, start) is None {
            assert forall|i: int|
                start <= i < output_ids(outputs).len() implies #[trigger] output_fault_at(
                outputs,
                i,
            ) is None by {
                if i > start {
                    assert(start + 1 <= i);
                }
            }
        } else if output_fault_at(outputs, start) is None {
            let i = choose|i: int|
                start + 1 <= i < output_ids(outputs).len() && !(#[trigger] output_fault_at(
                    outputs,
                    i,
                ) is None);
            assert(!(output_fault_at(outputs, i) is None));
        }
    }
}

/// The outputs section is accepted exactly when it is valid.
pub proof fn law_outputs_accepted_iff_valid(outputs: OutputView)
    ensures
        output_fault_from(outputs, 0) is None <==> valid_outputs(outputs),
{
    let ids = output_ids(outputs);
    let built_in = outputs.adapters.len() as int;
    lemma_output_fault(outputs, 0);
    if output_fault_from(outputs, 0) is None {
        assert forall|i: int| 0 <= i < outputs.plugins.len() implies is_kebab_case(
            (#[trigger] outputs.plugins[i]).id,
        ) && outputs.plugins[i].command.len() > 0 by {
            assert(output_fault_at(outputs, built_in + i) is None);
            assert(ids[built_in + i] == outputs.plugins[i].id);
        }
        assert forall|i: int, j: int| 0 <= i < j < ids.len() implies ids[i] != ids[j] by {
            assert(output_fault_at(outputs, j) is None);
            assert(ids.take(j)[i] == ids[i]);
        }
    } else if valid_outputs(outputs) {
        let i = choose|i: int|
            0 <= i < ids.len() && !(#[trigger] output_fault_at(outputs, i) is None);
        if i >= built_in {
            assert(ids[i] == outputs.plugins[i - built_in].id);
        }
        assert(ids.take(i).contains(ids[i]));
        let j = choose|j: int| 0 <= j < i && ids.take(i)[j] == ids[i];
        assert(ids[j] == ids[i]);
    }
}

fn kebab_case(id: &str) -> (valid: bool)
    ensures
        valid == is_kebab_case(id@),
{
    let chars = chars_of(id);
    if chars.len() == 0 {
        return false;
    }
    for i in 0..chars.len()
        invariant
            chars@ == id@,
            chars.len() > 0,
            forall|j: int| 0 <= j < i ==> is_id_char(#[trigger] id@[j]) || id@[j] == '-',
            forall|j: int|
                0 <= j < i && #[trigger] id@[j] == '-' ==> 0 < j < id@.len() - 1 && id@[j - 1]
                    != '-',
    {
        let c = chars[i];
        assert(c == id@[i as int]);
        if c == '-' {
            if i == 0 || i == chars.len() - 1 || chars[i - 1] == '-' {
                return false;
            }
        } else if !(('a' <= c && c <= 'z') || ('0' <= c && c <= '9')) {
            return false;
        }
    }
    true
}

fn named(ids: &Vec<&str>, id: &str) -> (found: bool)
    ensures
        found == str_views(ids@).contains(id@),
{
    let ghost all = str_views(ids@);
    for i in 0..ids.len()
        invariant
            all == str_views(ids@),
            forall|j: int| 0 <= j < i ==> #[trigger] all[j] != id@,
    {
        if same_text(ids[i], id) {
            assert(all[i as int] == id@);
            return true;
        }
    }
    false
}

impl OutputConfig {
    /// Accepts kebab-case IDs that differ, and plugins with an executable.
    pub fn validate(&self) -> (result: Result<(), OutputError>)
        ensures
            match result {
                Ok(()) => output_fault_from(self@, 0) is None,
                Err(error) => output_fault_from(self@, 0) == Some(error@),
            },
    {
        let ghost ids = output_ids(self@);
        let mut known: Vec<&str> = Vec::new();
        assert(str_views(known@) =~= ids.take(0));
        for i in 0..self.adapters.len()
            invariant
                ids == output_ids(self@),
                str_views(known@) == ids.take(i as int),
                output_fault_from(self@, 0) == output_fault_from(self@, i as int),
        {
            let id = self.adapters[i].name();
            assert(ids[i as int] == id@);
            if named(&known, id) {
                return Err(OutputError::DuplicateId(id.to_owned()));
            }
            let ghost before = known@;
            known.push(id);
            assert(str_views(known@) =~= str_views(before).push(id@));
            assert(str_views(known@) =~= ids.take(i + 1));
        }
        let ghost built_in = self.adapters.len() as int;
        for i in 0..self.plugins.len()
            invariant
                ids == output_ids(self@),
                built_in == self.adapters.len(),
                str_views(known@) == ids.take(built_in + i),
                output_fault_from(self@, 0) == output_fault_from(self@, built_in + i),
        {
            let plugin = &self.plugins[i];
            let id = plugin.id.as_str();
            assert(self@.plugins[i as int] == plugin@);
            assert(ids[built_in + i] == id@);
            if !kebab_case(id) {
                return Err(OutputError::InvalidId(plugin.id.clone()));
            }
            if plugin.command.len() == 0 {
                return Err(OutputError::EmptyCommand(plugin.id.clone()));
            }
            if named(&known, id) {
                return Err(OutputError::DuplicateId(plugin.id.clone()));
            }
            let ghost before = known@;
            known.push(id);
            assert(str_views(known@) =~= str_views(before).push(id@));
            assert(str_views(known@) =~= ids.take(built_in + i + 1));
        }
        Ok(())
    }
}

/// One display that the configuration asks for.
#[derive(Debug)]
pub enum OutputTarget<'a> {
    Adapter(OutputAdapter),
    Plugin(&'a ProcessOutputPlugin),
}

pub enum TargetView {
    Adapter(OutputAdapter),
    Plugin(PluginView),
}

impl<'a> View for OutputTarget<'a> {
    type V = TargetView;

    open spec fn view(&self) -> TargetView {
        match *self {
            OutputTarget::Adapter(adapter) => TargetView::Adapter(adapter),
            OutputTarget::Plugin(plugin) => TargetView::Plugin(plugin@),
        }
    }
}

/// The displays in the order in which they are offered plans: built-in ones
/// first.
pub open spec fn output_targets(outputs: OutputView) -> Seq<TargetView> {
    outputs.adapters.map_values(|adapter: OutputAdapter| TargetView::Adapter(adapter))
        + outputs.plugins.map_values(|plugin: PluginView| TargetView::Plugin(plugin))
}

impl OutputConfig {
    /// The displays to set up, once the section is accepted.
    pub fn targets<'a>(&'a self) -> (result: Result<Vec<OutputTarget<'a>>, OutputError>)
        ensures
            match result {
                Ok(targets) => {
                    &&& output_fault_from(self@, 0) is None
                    &&& targets@.map_values(|target: OutputTarget<'a>| target@) == output_targets(
                        self@,
                    )
                },
                Err(error) => output_fault_from(self@, 0) == Some(error@),
            },
    {
        if let Err(error) = self.validate() {
            return Err(error);
        }
        let mut targets: Vec<OutputTarget<'a>> = Vec::new();
        let ghost wanted = output_targets(self@);
        for i in 0..self.adapters.len()
            invariant
                wanted == output_targets(self@),
                targets.len() == i,
                forall|j: int| 0 <= j < i ==> (#[trigger] targets@[j])@ == wanted[j],
        {
            targets.push(OutputTarget::Adapter(self.adapters[i]));
        }
        let ghost built_in = self.adapters.len() as int;
        for i in 0..self.plugins.len()
            invariant
                wanted == output_targets(self@),
                built_in == self.adapters.len(),
                targets.len() == built_in + i,
                forall|j: int| 0 <= j < built_in + i ==> (#[trigger] targets@[j])@ == wanted[j],
        {
            targets.push(OutputTarget::Plugin(&self.plugins[i]));
            assert(wanted[built_in + i] == TargetView::Plugin(self@.plugins[i as int]));
        }
        assert(targets@.map_values(|target: OutputTarget<'a>| target@) =~= wanted);
        Ok(targets)
    }
}

// ---------------------------------------------------------------------------
// The whole configuration
// ---------------------------------------------------------------------------

/// A configuration of the current version.
#[derive(Debug)]
pub struct Config {
    pub config_version: u32,
    pub input: InputConfig,
    pub focus: FocusConfig,
    pub outputs: OutputConfig,
    pub display: DisplayConfig,
    pub actions: ActionsConfig,
}

#[verifier::ext_equal]
pub struct ConfigView {
    pub config_version: u32,
    pub input: InputView,
    pub focus: Option<Seq<Seq<char>>>,
    pub outputs: OutputView,
    pub display: DisplayView,
    pub confirm: ConfirmView,
}

impl View for Config {
    type V = ConfigView;

    open spec fn view(&self) -> ConfigView {
        ConfigView {
            config_version: self.config_version,
            input: self.input@,
            focus: command_view(self.focus),
            outputs: self.outputs@,
            display: self.display@,
            confirm: self.actions.confirm@,
        }
    }
}

/// Why a configuration is refused.
#[derive(Debug)]
pub enum ConfigError {
    /// The file has another version.
    Version { path: String, version: u32 },
    /// The focus command has no executable.
    EmptyFocusCommand,
    /// The window of a repeated press is zero.
    ZeroWindow,
    /// A confirmation would send no key, or a key without a name.
    ConfirmKeys,
    Input(InputError),
    Outputs(OutputError),
    Display(DisplayError),
}

pub enum ConfigFault {
    Version { path: Seq<char>, version: u32 },
    EmptyFocusCommand,
    ZeroWindow,
    ConfirmKeys,
    Input(InputError),
    Outputs(OutputFault),
    Display(DisplayFault),
}

impl View for ConfigError {
    type V = ConfigFault;

    open spec fn view(&self) -> ConfigFault {
        match *self {
            ConfigError::Version { path, version } => ConfigFault::Version {
                path: path@,
                version,
            },
            ConfigError::EmptyFocusCommand => ConfigFault::EmptyFocusCommand,
            ConfigError::ZeroWindow => ConfigFault::ZeroWindow,
            ConfigError::ConfirmKeys => ConfigFault::ConfirmKeys,
            ConfigError::Input(error) => ConfigFault::Input(error),
            ConfigError::Outputs(error) => ConfigFault::Outputs(error@),
            ConfigError::Display(error) => ConfigFault::Display(error@),
        }
    }
}

impl ConfigFault {
    /// The text shown to the user.
    pub open spec fn message(self) -> Seq<char> {
        match self {
            ConfigFault::Version { path, version } => path + " has config_version "@ + decimal_of(
                version as nat,
            ) + "; this Beckon version supports 2"@,
            ConfigFault::EmptyFocusCommand =>
                "focus.command must contain an executable when set"@,
            ConfigFault::ZeroWindow => "actions.confirm.repeat_press_ms must be greater than zero"@,
            ConfigFault::ConfirmKeys =>
                "actions.confirm.keys must contain one or more logical Herdr key names"@,
            ConfigFault::Input(error) => input_message(error),
            ConfigFault::Outputs(fault) => fault.message(),
            ConfigFault::Display(fault) => fault.message(),
        }
    }
}

impl ConfigError {
    /// The text shown to the user.
    pub fn message(&self) -> (text: String)
        ensures
            text@ == self@.message(),
    {
        match self {
            ConfigError::Version { path, version } => path.clone().concat(
                " has config_version ",
            ).concat(decimal(*version as u128).as_str()).concat(
                "; this Beckon version supports 2",
            ),
            ConfigError::EmptyFocusCommand =>
                "focus.command must contain an executable when set".to_owned(),
            ConfigError::ZeroWindow =>
                "actions.confirm.repeat_press_ms must be greater than zero".to_owned(),
            ConfigError::ConfirmKeys =>
                "actions.confirm.keys must contain one or more logical Herdr key names".to_owned(),
            ConfigError::Input(error) => error.message(),
            ConfigError::Outputs(error) => error.message(),
            ConfigError::Display(error) => error.message(),
        }
    }
}

/// There is a key to send, and every key has a name.
pub open spec fn names_keys(keys: Seq<Seq<char>>) -> bool {
    keys.len() > 0 && forall|i: int| 0 <= i < keys.len() ==> trimmed(#[trigger] keys[i]).len() > 0
}

/// Whether a configuration read from `path` is accepted (no fault), or refused
/// for `fault`. The sections are looked at in this order.
pub open spec fn config_result(
    config: ConfigView,
    path: Seq<char>,
    fault: Option<ConfigFault>,
) -> bool {
    if config.config_version != CONFIG_VERSION {
        fault == Some(ConfigFault::Version { path, version: config.config_version })
    } else if config.focus is Some && (config.focus->0).len() == 0 {
        fault == Some(ConfigFault::EmptyFocusCommand)
    } else if config.confirm.repeat_press_ms == 0 {
        fault == Some(ConfigFault::ZeroWindow)
    } else if !names_keys(config.confirm.keys) {
        fault == Some(ConfigFault::ConfirmKeys)
    } else if enabled(config.input) is Err {
        fault == Some(ConfigFault::Input(enabled(config.input)->Err_0))
    } else if output_fault_from(config.outputs, 0) is Some {
        fault == Some(ConfigFault::Outputs(output_fault_from(config.outputs, 0)->0))
    } else {
        match fault {
            None => display_result(config.display, None),
            Some(ConfigFault::Display(fault)) => display_result(config.display, Some(fault)),
            Some(_) => false,
        }
    }
}

fn keys_named(keys: &Vec<String>) -> (named: bool)
    ensures
        named == names_keys(views(keys@)),
{
    let ghost all = views(keys@);
    for i in 0..keys.len()
        invariant
            all == views(keys@),
            forall|j: int| 0 <= j < i ==> trimmed(#[trigger] all[j]).len() > 0,
    {
        assert(all[i as int] == keys@[i as int]@);
        if is_blank(keys[i].as_str()) {
            return false;
        }
    }
    keys.len() > 0
}

impl Config {
    /// Accepts a configuration read from `path`, or says what is wrong.
    pub fn check(&self, path: &str) -> (result: Result<(), ConfigError>)
        ensures
            config_result(
                self@,
                path@,
                match result {
                    Ok(()) => None,
                    Err(error) => Some(error@),
                },
            ),
    {
        if self.config_version != CONFIG_VERSION {
            return Err(
                ConfigError::Version { path: path.to_owned(), version: self.config_version },
            );
        }
        if let Some(command) = &self.focus.command {
            if command.len() == 0 {
                return Err(ConfigError::EmptyFocusCommand);
            }
        }
        if self.actions.confirm.repeat_press_ms == 0 {
            return Err(ConfigError::ZeroWindow);
        }
        if !keys_named(&self.actions.confirm.keys) {
            return Err(ConfigError::ConfirmKeys);
        }
        if let Err(error) = self.input.enabled_profiles() {
            return Err(ConfigError::Input(error));
        }
        if let Err(error) = self.outputs.validate() {
            return Err(ConfigError::Outputs(error));
        }
        match self.display.validate() {
            Ok(()) => Ok(()),
            Err(error) => Err(ConfigError::Display(error)),
        }
    }
}

// ---------------------------------------------------------------------------
// Version 1
// ---------------------------------------------------------------------------

/// What version 1 overrides of one state's treatment.
#[derive(Clone, Copy, Debug)]
pub struct LegacyStateTreatment {
    pub brightness: Option<Brightness>,
    pub motion: Option<Motion>,
    pub color: Option<Rgb>,
}

impl Default for LegacyStateTreatment {
    fn default() -> (legacy: Self)
        ensures
            legacy == (LegacyStateTreatment { brightness: None, motion: None, color: None }),
    {
        LegacyStateTreatment { brightness: None, motion: None, color: None }
    }
}

/// What version 1 overrides of the treatments.
#[derive(Clone, Copy, Debug)]
pub struct LegacyStateTreatments {
    pub idle: LegacyStateTreatment,
    pub working: LegacyStateTreatment,
    pub blocked: LegacyStateTreatment,
    pub done: LegacyStateTreatment,
    pub unknown: LegacyStateTreatment,
}

/// Nothing is overridden.
pub open spec fn no_override() -> LegacyStateTreatment {
    LegacyStateTreatment { brightness: None, motion: None, color: None }
}

impl Default for LegacyStateTreatments {
    fn default() -> (legacy: Self)
        ensures
            legacy == (LegacyStateTreatments {
                idle: no_override(),
                working: no_override(),
                blocked: no_override(),
                done: no_override(),
                unknown: no_override(),
            }),
    {
        LegacyStateTreatments {
            idle: LegacyStateTreatment::default(),
            working: LegacyStateTreatment::default(),
            blocked: LegacyStateTreatment::default(),
            done: LegacyStateTreatment::default(),
            unknown: LegacyStateTreatment::default(),
        }
    }
}

/// A configuration of version 1. It had no named themes; its overrides are
/// applied to a generated `legacy-v1` theme, so an existing installation keeps
/// working until its owner chooses to migrate. Its per-key colours have no
/// counterpart.
#[derive(Debug)]
pub struct ConfigV1 {
    pub focus: FocusConfig,
    pub states: LegacyStateTreatments,
}

/// A treatment with its overrides applied.
pub open spec fn overridden(
    treatment: StateTreatment,
    legacy: LegacyStateTreatment,
) -> StateTreatment {
    StateTreatment {
        brightness: match legacy.brightness {
            Some(brightness) => brightness,
            None => treatment.brightness,
        },
        motion: match legacy.motion {
            Some(motion) => motion,
            None => treatment.motion,
        },
        color: match legacy.color {
            Some(color) => color,
            None => treatment.color,
        },
    }
}

/// The theme that a version 1 configuration stands for.
pub open spec fn legacy_theme(states: LegacyStateTreatments) -> StateTreatments {
    StateTreatments {
        idle: overridden(herdr_treatments().idle, states.idle),
        working: overridden(herdr_treatments().working, states.working),
        blocked: overridden(herdr_treatments().blocked, states.blocked),
        done: overridden(herdr_treatments().done, states.done),
        unknown: overridden(herdr_treatments().unknown, states.unknown),
    }
}

/// The configuration that a version 1 configuration stands for.
pub open spec fn upgraded(
    focus: Option<Seq<Seq<char>>>,
    states: LegacyStateTreatments,
) -> ConfigView {
    ConfigView {
        config_version: CONFIG_VERSION,
        input: InputView { profile: None, profiles: None },
        focus,
        outputs: default_outputs(),
        display: DisplayView {
            theme: "legacy-v1"@,
            themes: Map::empty().insert("legacy-v1"@, legacy_theme(states)),
            keys: default_key_views(),
        },
        confirm: default_confirm(),
    }
}

fn apply_legacy_treatment(target: &mut StateTreatment, legacy: LegacyStateTreatment)
    ensures
        *final(target) == overridden(*old(target), legacy),
{
    if let Some(brightness) = legacy.brightness {
        target.brightness = brightness;
    }
    if let Some(motion) = legacy.motion {
        target.motion = motion;
    }
    if let Some(color) = legacy.color {
        target.color = color;
    }
}

impl ConfigV1 {
    /// The configuration of the current version that this one stands for.
    pub fn upgrade(self) -> (config: Config)
        ensures
            config@ == upgraded(command_view(self.focus), self.states),
    {
        let mut display = DisplayConfig::default();
        let mut theme = crate::render::herdr_theme();
        apply_legacy_treatment(&mut theme.idle, self.states.idle);
        apply_legacy_treatment(&mut theme.working, self.states.working);
        apply_legacy_treatment(&mut theme.blocked, self.states.blocked);
        apply_legacy_treatment(&mut theme.done, self.states.done);
        apply_legacy_treatment(&mut theme.unknown, self.states.unknown);
        display.theme = "legacy-v1".to_owned();
        display.themes.insert("legacy-v1".to_owned(), theme);
        let config = Config {
            config_version: CONFIG_VERSION,
            input: InputConfig::default(),
            focus: self.focus,
            outputs: OutputConfig::default(),
            display,
            actions: ActionsConfig::default(),
        };
        assert(config@.display.themes =~= upgraded(
            command_view(self.focus),
            self.states,
        ).display.themes);
        config
    }
}

/// The configuration of a file that holds nothing but its version.
pub open spec fn default_config() -> ConfigView {
    ConfigView {
        config_version: CONFIG_VERSION,
        input: InputView { profile: None, profiles: None },
        focus: None,
        outputs: default_outputs(),
        display: default_display(),
        confirm: default_confirm(),
    }
}

impl Default for Config {
    fn default() -> (config: Self)
        ensures
            config@ == default_config(),
    {
        Config {
            config_version: CONFIG_VERSION,
            input: InputConfig::default(),
            focus: FocusConfig::default(),
            outputs: OutputConfig::default(),
            display: DisplayConfig::default(),
            actions: ActionsConfig::default(),
        }
    }
}

proof fn lemma_default_sections()
    ensures
        names_keys(default_confirm().keys),
        enabled(InputView { profile: None, profiles: None }) == Ok::<
            Seq<InputProfile>,
            InputError,
        >(seq![InputProfile::Glove80]),
        output_fault_from(default_outputs(), 0) is None,
{
    reveal_strlit("enter");
    assert(trimmed("enter"@).len() > 0) by {
        reveal_with_fuel(crate::text::without_leading, 2);
        reveal_with_fuel(crate::text::without_trailing, 2);
    }
    let profiles = seq![InputProfile::Glove80];
    assert(!stands_earlier(profiles, 0));
    reveal_with_fuel(repeated_from, 2);
    law_outputs_accepted_iff_valid(default_outputs());
    assert(output_ids(default_outputs()).len() == 1);
}

/// A file that holds nothing but its version is accepted. It enables the
/// Glove80 alone, and no confirmation.
pub proof fn law_default_config_is_accepted(path: Seq<char>, fault: Option<ConfigFault>)
    requires
        config_result(default_config(), path, fault),
    ensures
        fault is None,
        enabled(default_config().input) == Ok::<Seq<InputProfile>, InputError>(
            seq![InputProfile::Glove80],
        ),
        !default_config().confirm.enabled,
{
    lemma_default_sections();
    law_default_display_is_valid();
    match fault {
        Some(ConfigFault::Display(fault)) => {
            law_accepted_iff_valid(default_display(), Some(fault));
        },
        _ => {},
    }
}

/// A version 1 configuration keeps working: its upgrade is accepted as long as
/// its focus command has an executable and its brightnesses are from 0.0 to
/// 1.0. The upgrade enables no confirmation.
pub proof fn law_upgraded_config_is_accepted(
    focus: Option<Seq<Seq<char>>>,
    states: LegacyStateTreatments,
    path: Seq<char>,
    fault: Option<ConfigFault>,
)
    requires
        config_result(upgraded(focus, states), path, fault),
    ensures
        fault is None <==> (focus is Some ==> (focus->0).len() > 0) && too_bright(
            legacy_theme(states),
        ) is None,
        theme_named(
            upgraded(focus, states).display.themes,
            upgraded(focus, states).display.theme,
        ) == Some(legacy_theme(states)),
        !upgraded(focus, states).confirm.enabled,
{
    lemma_default_sections();
    law_default_display_is_valid();
    let display = upgraded(focus, states).display;
    assert(display.themes.contains_key("legacy-v1"@));
    assert(display.keys == default_display().keys);
    match fault {
        Some(ConfigFault::Display(fault)) => {
            law_accepted_iff_valid(display, Some(fault));
        },
        None => {
            law_accepted_iff_valid(display, None);
        },
        _ => {},
    }
}

// ---------------------------------------------------------------------------
// Reading
// ---------------------------------------------------------------------------

/// The integer under a name at the top of a TOML document: none where there is
/// no such name or its value is no integer, an error where the text is no TOML
/// document.
pub uninterp spec fn toml_integer(text: Seq<char>, name: Seq<char>) -> Result<
    Option<i64>,
    Seq<char>,
>;

/// Reads the integer under a name at the top of a TOML document with
/// `toml::from_str`, `toml::Value::get` and `toml::Value::as_integer`.
///
/// Trusted: the result, the error's text included, is a function of the two
/// texts, [`toml_integer`]. What TOML is, is left unsaid.
#[verifier::external_body]
fn integer_in_toml(text: &str, name: &str) -> (result: Result<Option<i64>, String>)
    ensures
        match result {
            Ok(value) => toml_integer(text@, name@) == Ok::<Option<i64>, Seq<char>>(value),
            Err(message) => toml_integer(text@, name@) == Err::<Option<i64>, Seq<char>>(message@),
        },
{
    match toml::from_str::<toml::Value>(text) {
        Ok(value) => Ok(value.get(name).and_then(toml::Value::as_integer)),
        Err(error) => Err(error.to_string()),
    }
}

/// The formats of a configuration file.
#[derive(Clone, Copy, Debug, PartialEq, Eq, Structural)]
pub enum ConfigFormat {
    V1,
    V2,
}

/// The format of a file with this version, or why there is none.
pub open spec fn format_with(version: Option<i64>) -> Result<ConfigFormat, Seq<char>> {
    match version {
        None => Err("config_version must be an integer"@),
        Some(version) => if version == 1 {
            Ok(ConfigFormat::V1)
        } else if version == 2 {
            Ok(ConfigFormat::V2)
        } else {
            Err(
                "config_version "@ + signed_decimal(version as int)
                    + " is unsupported; this Beckon version supports 1 and 2"@,
            )
        },
    }
}

/// The view of a format or of the reason why there is none.
pub open spec fn format_answer(result: Result<ConfigFormat, String>) -> Result<
    ConfigFormat,
    Seq<char>,
> {
    match result {
        Ok(format) => Ok(format),
        Err(message) => Err(message@),
    }
}

/// The format of a file with this version.
pub fn format_of_version(version: Option<i64>) -> (result: Result<ConfigFormat, String>)
    ensures
        format_answer(result) == format_with(version),
{
    match version {
        None => Err("config_version must be an integer".to_owned()),
        Some(version) => if version == 1 {
            Ok(ConfigFormat::V1)
        } else if version == 2 {
            Ok(ConfigFormat::V2)
        } else {
            let number = signed(version);
            Err(
                "config_version ".to_owned().concat(number.as_str()).concat(
                    " is unsupported; this Beckon version supports 1 and 2",
                ),
            )
        },
    }
}

/// The format of a configuration file.
pub fn config_format(contents: &str) -> (result: Result<ConfigFormat, String>)
    ensures
        format_answer(result) == match toml_integer(contents@, "config_version"@) {
            Ok(version) => format_with(version),
            Err(message) => Err(message),
        },
{
    match integer_in_toml(contents, "config_version") {
        Ok(version) => format_of_version(version),
        Err(message) => Err(message),
    }
}

/// The commented configuration template.
pub const DEFAULT_CONFIG: &'static str = r##"# Beckon's portable settings. Machine-specific focus behavior is optional.
config_version = 2

# Run this before Beckon focuses a Herdr agent pane. Leave commented out when
# Ghostty is already frontmost. Use an executable and its arguments, not a shell
# string, so no shell quoting or interpolation is involved.
# [focus]
# command = ["/Users/you/.config/beckon/focus-ghostty"]

# Select the physical input sources for Beckon's logical F1 through F10
# bindings. The default preserves the Glove80 Beckon-layer mappings:
# F16-F20, then Shift+F16-Shift+F20. To also navigate with the built-in
# MacBook keyboard, uncomment this and enable "Use F1, F2, etc. keys as
# standard function keys" in macOS Keyboard settings. Hold Fn/Globe when you
# need the normal macOS brightness, media, or volume behavior.
# [input]
# profiles = ["glove80", "macbook-function-keys"]

# Optional: repeat the same bound F key within this window after Beckon has
# focused it to send Enter to that pane. Disabled by default because Enter can
# confirm whatever is selected in an agent UI.
# [actions.confirm]
# enabled = true
# repeat_press_ms = 750
# keys = ["enter"]

# The selected theme is resolved by Beckon and sent to the keyboard as concrete
# colors and effects. Firmware never receives a theme name.
[display]
theme = "herdr"

# Built-in themes are available without copying them here. Defining a theme in
# this file adds a new name or replaces a built-in theme of the same name.
# Every theme defines every state so a status is never ambiguous.
[display.themes.herdr]
idle    = { color = "#3BA0FF", brightness = 0.2, motion = "steady" }
working = { color = "#F9E2AF", brightness = 0.6, motion = "breathe" }
blocked = { color = "#F38BA8", brightness = 0.8, motion = "pulse" }
done    = { color = "#A6E3A1", brightness = 0.8, motion = "steady" }
unknown = { color = "#6C7086", brightness = 0.3, motion = "flicker" }
"##;

} // verus!
