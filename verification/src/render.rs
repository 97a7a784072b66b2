//! Themes and render plans.
//!
//! A plan is a host-independent LED instruction: it names logical keys and
//! resolved treatments, and is not coupled to HID reports or keyboard-specific
//! coordinates.

use vstd::prelude::*;

use crate::binding::{key_ids, Binding, Pane, KEY_IDS};
use crate::brightness::{in_unit_range, same_number, Brightness};
use crate::name_map::{lists_names, NameMap};
use crate::status::{row_views, RowView};
use crate::text::{
    append_hex, chars_of, hex_digit, hex_pair, hex_value, join, joined, keyword, keyword_chars,
    quote, quoted, same_text, spells, views,
};

verus! {

broadcast use vstd::string::group_string_axioms;

// ---------------------------------------------------------------------------
// Colours
// ---------------------------------------------------------------------------

/// A colour.
#[derive(Clone, Copy, Debug, PartialEq, Eq, Structural)]
pub struct Rgb {
    pub red: u8,
    pub green: u8,
    pub blue: u8,
}

/// The byte that two hexadecimal digits spell.
pub open spec fn pair_value(high: char, low: char) -> Option<u8> {
    match (hex_value(high), hex_value(low)) {
        (Some(high), Some(low)) => Some((16 * high + low) as u8),
        _ => None,
    }
}

/// The colour that a text in `#RRGGBB` syntax names.
pub open spec fn color_named(text: Seq<char>) -> Option<Rgb> {
    if text.len() == 7 && text[0] == '#' {
        match (
            pair_value(text[1], text[2]),
            pair_value(text[3], text[4]),
            pair_value(text[5], text[6]),
        ) {
            (Some(red), Some(green), Some(blue)) => Some(Rgb { red, green, blue }),
            _ => None,
        }
    } else {
        None
    }
}

/// The `#RRGGBB` text of a colour.
pub open spec fn color_text(color: Rgb) -> Seq<char> {
    "#"@ + hex_pair(color.red) + hex_pair(color.green) + hex_pair(color.blue)
}

fn pair(high: char, low: char) -> (value: Option<u8>)
    ensures
        value == pair_value(high, low),
{
    match (hex_digit(high), hex_digit(low)) {
        (Some(high), Some(low)) => Some(16 * high + low),
        _ => None,
    }
}

impl Rgb {
    /// Reads `#RRGGBB`.
    pub fn parse(value: &str) -> (result: Result<Rgb, String>)
        ensures
            match result {
                Ok(color) => color_named(value@) == Some(color),
                Err(message) => color_named(value@) is None && message@
                    == "colour must use #RRGGBB syntax"@,
            },
    {
        let chars = chars_of(value);
        if chars.len() == 7 && chars[0] == '#' {
            if let (Some(red), Some(green), Some(blue)) = (
                pair(chars[1], chars[2]),
                pair(chars[3], chars[4]),
                pair(chars[5], chars[6]),
            ) {
                return Ok(Rgb { red, green, blue });
            }
        }
        Err("colour must use #RRGGBB syntax".to_owned())
    }

    /// The `#RRGGBB` text.
    pub fn to_text(self) -> (text: String)
        ensures
            text@ == color_text(self),
    {
        let mut text = "#".to_owned();
        append_hex(&mut text, self.red);
        append_hex(&mut text, self.green);
        append_hex(&mut text, self.blue);
        text
    }
}

impl std::str::FromStr for Rgb {
    type Err = String;

    fn from_str(value: &str) -> (result: Result<Rgb, String>)
        ensures
            match result {
                Ok(color) => color_named(value@) == Some(color),
                Err(message) => color_named(value@) is None && message@
                    == "colour must use #RRGGBB syntax"@,
            },
    {
        Rgb::parse(value)
    }
}

proof fn lemma_hex_round_trip(byte: u8)
    ensures
        pair_value(hex_pair(byte)[0], hex_pair(byte)[1]) == Some(byte),
{
}

/// The text of a colour names that colour.
pub proof fn law_color_round_trip(color: Rgb)
    ensures
        color_named(color_text(color)) == Some(color),
{
    reveal_strlit("#");
    let text = color_text(color);
    lemma_hex_round_trip(color.red);
    lemma_hex_round_trip(color.green);
    lemma_hex_round_trip(color.blue);
    assert(text[1] == hex_pair(color.red)[0] && text[2] == hex_pair(color.red)[1]);
    assert(text[3] == hex_pair(color.green)[0] && text[4] == hex_pair(color.green)[1]);
    assert(text[5] == hex_pair(color.blue)[0] && text[6] == hex_pair(color.blue)[1]);
}

// ---------------------------------------------------------------------------
// States and treatments
// ---------------------------------------------------------------------------

/// How a light moves.
#[derive(Clone, Copy, Debug, PartialEq, Eq, Structural)]
pub enum Motion {
    Steady,
    Breathe,
    Pulse,
    Flicker,
}

/// What the agent in a pane is doing.
#[derive(Clone, Copy, Debug, PartialEq, Eq, Structural)]
pub enum AgentState {
    Idle,
    Working,
    Blocked,
    Done,
    Unknown,
}

/// The state behind a status that Herdr reports.
pub open spec fn herdr_state(status: Seq<char>) -> AgentState {
    let word = keyword(status);
    if word == "idle"@ {
        AgentState::Idle
    } else if word == "working"@ {
        AgentState::Working
    } else if word == "blocked"@ {
        AgentState::Blocked
    } else if word == "done"@ {
        AgentState::Done
    } else {
        AgentState::Unknown
    }
}

impl AgentState {
    /// The state behind a status that Herdr reports. White space around it and
    /// the case of its letters do not matter.
    pub fn from_herdr(status: &str) -> (state: Self)
        ensures
            state == herdr_state(status@),
    {
        let word = keyword_chars(status);
        if spells(&word, "idle") {
            AgentState::Idle
        } else if spells(&word, "working") {
            AgentState::Working
        } else if spells(&word, "blocked") {
            AgentState::Blocked
        } else if spells(&word, "done") {
            AgentState::Done
        } else {
            AgentState::Unknown
        }
    }
}

/// The name of what a key shows.
pub open spec fn state_name_of(state: Option<AgentState>) -> Seq<char> {
    match state {
        None => "unbound"@,
        Some(AgentState::Idle) => "idle"@,
        Some(AgentState::Working) => "working"@,
        Some(AgentState::Blocked) => "blocked"@,
        Some(AgentState::Done) => "done"@,
        Some(AgentState::Unknown) => "unknown"@,
    }
}

/// The name of what a key shows.
pub fn state_name(state: Option<AgentState>) -> (name: &'static str)
    ensures
        name@ == state_name_of(state),
{
    match state {
        None => "unbound",
        Some(AgentState::Idle) => "idle",
        Some(AgentState::Working) => "working",
        Some(AgentState::Blocked) => "blocked",
        Some(AgentState::Done) => "done",
        Some(AgentState::Unknown) => "unknown",
    }
}

/// How one state is shown.
#[derive(Clone, Copy, Debug)]
pub struct StateTreatment {
    pub brightness: Brightness,
    pub motion: Motion,
    pub color: Rgb,
}

/// How every state is shown.
#[derive(Clone, Copy, Debug)]
pub struct StateTreatments {
    pub idle: StateTreatment,
    pub working: StateTreatment,
    pub blocked: StateTreatment,
    pub done: StateTreatment,
    pub unknown: StateTreatment,
}

impl StateTreatments {
    /// The treatment of a state.
    pub open spec fn of(self, state: AgentState) -> StateTreatment {
        match state {
            AgentState::Idle => self.idle,
            AgentState::Working => self.working,
            AgentState::Blocked => self.blocked,
            AgentState::Done => self.done,
            AgentState::Unknown => self.unknown,
        }
    }

    /// The treatments in the order idle, working, blocked, done, unknown.
    pub fn ordered(&self) -> (treatments: [StateTreatment; 5])
        ensures
            treatments@ == seq![self.idle, self.working, self.blocked, self.done, self.unknown],
    {
        let treatments = [self.idle, self.working, self.blocked, self.done, self.unknown];
        assert(treatments@ =~= seq![
            self.idle,
            self.working,
            self.blocked,
            self.done,
            self.unknown,
        ]);
        treatments
    }
}

/// The theme `herdr`, which `catppuccin-mocha` equals: brightness 0.2, 0.6,
/// 0.8, 0.8 and 0.3.
pub open spec fn herdr_treatments() -> StateTreatments {
    StateTreatments {
        idle: StateTreatment {
            brightness: Brightness { bits: 0x3E4C_CCCD },
            motion: Motion::Steady,
            color: Rgb { red: 0x3B, green: 0xA0, blue: 0xFF },
        },
        working: StateTreatment {
            brightness: Brightness { bits: 0x3F19_999A },
            motion: Motion::Breathe,
            color: Rgb { red: 0xF9, green: 0xE2, blue: 0xAF },
        },
        blocked: StateTreatment {
            brightness: Brightness { bits: 0x3F4C_CCCD },
            motion: Motion::Pulse,
            color: Rgb { red: 0xF3, green: 0x8B, blue: 0xA8 },
        },
        done: StateTreatment {
            brightness: Brightness { bits: 0x3F4C_CCCD },
            motion: Motion::Steady,
            color: Rgb { red: 0xA6, green: 0xE3, blue: 0xA1 },
        },
        unknown: StateTreatment {
            brightness: Brightness { bits: 0x3E99_999A },
            motion: Motion::Flicker,
            color: Rgb { red: 0x6C, green: 0x70, blue: 0x86 },
        },
    }
}

/// The built-in theme.
pub fn herdr_theme() -> (theme: StateTreatments)
    ensures
        theme == herdr_treatments(),
{
    StateTreatments {
        idle: StateTreatment {
            brightness: Brightness { bits: 0x3E4C_CCCD },
            motion: Motion::Steady,
            color: Rgb { red: 0x3B, green: 0xA0, blue: 0xFF },
        },
        working: StateTreatment {
            brightness: Brightness { bits: 0x3F19_999A },
            motion: Motion::Breathe,
            color: Rgb { red: 0xF9, green: 0xE2, blue: 0xAF },
        },
        blocked: StateTreatment {
            brightness: Brightness { bits: 0x3F4C_CCCD },
            motion: Motion::Pulse,
            color: Rgb { red: 0xF3, green: 0x8B, blue: 0xA8 },
        },
        done: StateTreatment {
            brightness: Brightness { bits: 0x3F4C_CCCD },
            motion: Motion::Steady,
            color: Rgb { red: 0xA6, green: 0xE3, blue: 0xA1 },
        },
        unknown: StateTreatment {
            brightness: Brightness { bits: 0x3E99_999A },
            motion: Motion::Flicker,
            color: Rgb { red: 0x6C, green: 0x70, blue: 0x86 },
        },
    }
}

// ---------------------------------------------------------------------------
// Display configuration
// ---------------------------------------------------------------------------

/// The identity colour of one key.
#[derive(Debug)]
pub struct KeyDisplay {
    pub id: String,
    pub color: Rgb,
}

#[verifier::ext_equal]
pub struct KeyDisplayView {
    pub id: Seq<char>,
    pub color: Rgb,
}

impl View for KeyDisplay {
    type V = KeyDisplayView;

    open spec fn view(&self) -> KeyDisplayView {
        KeyDisplayView { id: self.id@, color: self.color }
    }
}

impl Clone for KeyDisplay {
    fn clone(&self) -> (copy: Self)
        ensures
            copy@ == self@,
    {
        KeyDisplay { id: self.id.clone(), color: self.color }
    }
}

/// The views of a sequence of key displays.
pub open spec fn key_display_views(keys: Seq<KeyDisplay>) -> Seq<KeyDisplayView> {
    keys.map_values(|key: KeyDisplay| key@)
}

/// The display section of the configuration.
#[derive(Debug)]
pub struct DisplayConfig {
    /// A user-visible name, resolved only on the host. The firmware receives
    /// concrete treatments and therefore has no knowledge of named themes.
    pub theme: String,
    /// User-defined themes overlay the built-in themes of the same name.
    pub themes: NameMap<StateTreatments>,
    pub keys: Vec<KeyDisplay>,
}

#[verifier::ext_equal]
pub struct DisplayView {
    pub theme: Seq<char>,
    pub themes: Map<Seq<char>, StateTreatments>,
    pub keys: Seq<KeyDisplayView>,
}

impl View for DisplayConfig {
    type V = DisplayView;

    open spec fn view(&self) -> DisplayView {
        DisplayView {
            theme: self.theme@,
            themes: self.themes@,
            keys: key_display_views(self.keys@),
        }
    }
}

impl Clone for DisplayConfig {
    fn clone(&self) -> (copy: Self)
        ensures
            copy@ == self@,
    {
        let mut keys: Vec<KeyDisplay> = Vec::new();
        for i in 0..self.keys.len()
            invariant
                keys.len() == i,
                forall|j: int| 0 <= j < i ==> (#[trigger] keys@[j])@ == self.keys@[j]@,
        {
            keys.push(self.keys[i].clone());
        }
        assert(key_display_views(keys@) =~= key_display_views(self.keys@));
        DisplayConfig { theme: self.theme.clone(), themes: self.themes.copied(), keys }
    }
}

/// The identity colours that keys have by default.
pub open spec fn default_key_views() -> Seq<KeyDisplayView> {
    seq![
        KeyDisplayView { id: "f1"@, color: Rgb { red: 0x3B, green: 0xA0, blue: 0xFF } },
        KeyDisplayView { id: "f2"@, color: Rgb { red: 0x00, green: 0xC4, blue: 0x8C } },
        KeyDisplayView { id: "f3"@, color: Rgb { red: 0xB4, green: 0x7C, blue: 0xFF } },
        KeyDisplayView { id: "f4"@, color: Rgb { red: 0xFF, green: 0xB0, blue: 0x20 } },
        KeyDisplayView { id: "f5"@, color: Rgb { red: 0x35, green: 0xD0, blue: 0xE8 } },
        KeyDisplayView { id: "f6"@, color: Rgb { red: 0x61, green: 0x72, blue: 0xFF } },
        KeyDisplayView { id: "f7"@, color: Rgb { red: 0x22, green: 0xC5, blue: 0x5E } },
        KeyDisplayView { id: "f8"@, color: Rgb { red: 0xF5, green: 0x9E, blue: 0x0B } },
        KeyDisplayView { id: "f9"@, color: Rgb { red: 0xE8, green: 0x79, blue: 0xF9 } },
        KeyDisplayView { id: "f10"@, color: Rgb { red: 0x14, green: 0xB8, blue: 0xA6 } },
    ]
}

/// The display section where the configuration has none.
pub open spec fn default_display() -> DisplayView {
    DisplayView {
        theme: "herdr"@,
        themes: Map::empty(),
        keys: default_key_views(),
    }
}

fn key_display(id: &str, red: u8, green: u8, blue: u8) -> (key: KeyDisplay)
    ensures
        key@ == (KeyDisplayView { id: id@, color: Rgb { red, green, blue } }),
{
    KeyDisplay { id: id.to_owned(), color: Rgb { red, green, blue } }
}

/// The identity colours that keys have by default.
pub fn default_keys() -> (keys: Vec<KeyDisplay>)
    ensures
        key_display_views(keys@) == default_key_views(),
{
    let mut keys: Vec<KeyDisplay> = Vec::new();
    keys.push(key_display("f1", 0x3B, 0xA0, 0xFF));
    keys.push(key_display("f2", 0x00, 0xC4, 0x8C));
    keys.push(key_display("f3", 0xB4, 0x7C, 0xFF));
    keys.push(key_display("f4", 0xFF, 0xB0, 0x20));
    keys.push(key_display("f5", 0x35, 0xD0, 0xE8));
    keys.push(key_display("f6", 0x61, 0x72, 0xFF));
    keys.push(key_display("f7", 0x22, 0xC5, 0x5E));
    keys.push(key_display("f8", 0xF5, 0x9E, 0x0B));
    keys.push(key_display("f9", 0xE8, 0x79, 0xF9));
    keys.push(key_display("f10", 0x14, 0xB8, 0xA6));
    assert(key_display_views(keys@) =~= default_key_views());
    keys
}

/// The theme that is selected by default.
pub fn default_theme_name() -> (name: String)
    ensures
        name@ == "herdr"@,
{
    "herdr".to_owned()
}

impl Default for DisplayConfig {
    fn default() -> (display: Self)
        ensures
            display@ == default_display(),
    {
        DisplayConfig {
            theme: default_theme_name(),
            themes: NameMap::new(),
            keys: default_keys(),
        }
    }
}

/// The theme under a name: the user's, or else the built-in one.
pub open spec fn theme_named(
    themes: Map<Seq<char>, StateTreatments>,
    name: Seq<char>,
) -> Option<StateTreatments> {
    if themes.contains_key(name) {
        Some(themes[name])
    } else if name == "herdr"@ || name == "catppuccin-mocha"@ {
        Some(herdr_treatments())
    } else {
        None
    }
}

/// Whether `names` lists every theme once, in lexicographic order.
pub open spec fn lists_themes(
    names: Seq<Seq<char>>,
    themes: Map<Seq<char>, StateTreatments>,
) -> bool {
    lists_names(
        names,
        Map::new(
            |name: Seq<char>| theme_named(themes, name) is Some,
            |name: Seq<char>| theme_named(themes, name)->0,
        ),
    )
}

/// Why a display section is refused.
#[derive(Debug, PartialEq, Eq)]
pub enum DisplayError {
    /// There are not exactly ten keys.
    KeyCount,
    /// A logical key is missing or occurs twice.
    NotOnce { key: String },
    /// No theme has the selected name; these are the names that there are.
    UnknownTheme { theme: String, available: Vec<String> },
    /// A brightness of the selected theme is not from 0.0 to 1.0.
    Brightness { theme: String, state: &'static str },
}

pub enum DisplayFault {
    KeyCount,
    NotOnce { key: Seq<char> },
    UnknownTheme { theme: Seq<char>, available: Seq<Seq<char>> },
    Brightness { theme: Seq<char>, state: Seq<char> },
}

impl View for DisplayError {
    type V = DisplayFault;

    open spec fn view(&self) -> DisplayFault {
        match *self {
            DisplayError::KeyCount => DisplayFault::KeyCount,
            DisplayError::NotOnce { key } => DisplayFault::NotOnce { key: key@ },
            DisplayError::UnknownTheme { theme, available } => DisplayFault::UnknownTheme {
                theme: theme@,
                available: views(available@),
            },
            DisplayError::Brightness { theme, state } => DisplayFault::Brightness {
                theme: theme@,
                state: state@,
            },
        }
    }
}

impl DisplayFault {
    /// The text shown to the user.
    pub open spec fn message(self) -> Seq<char> {
        match self {
            DisplayFault::KeyCount => "display.keys must configure exactly ten Beckon keys"@,
            DisplayFault::NotOnce { key } => "display.keys must configure "@ + key
                + " exactly once"@,
            DisplayFault::UnknownTheme { theme, available } => "display.theme "@ + quoted(theme)
                + " is not defined; available themes: "@ + joined(available, ", "@),
            DisplayFault::Brightness { theme, state } => "display.themes."@ + theme + "."@ + state
                + ".brightness must be between 0.0 and 1.0"@,
        }
    }
}

impl DisplayError {
    /// The text shown to the user.
    pub fn message(&self) -> (text: String)
        ensures
            text@ == self@.message(),
    {
        match self {
            DisplayError::KeyCount => "display.keys must configure exactly ten Beckon keys".to_owned(),
            DisplayError::NotOnce { key } => "display.keys must configure ".to_owned().concat(
                key.as_str(),
            ).concat(" exactly once"),
            DisplayError::UnknownTheme { theme, available } => "display.theme ".to_owned().concat(
                quote(theme.as_str()).as_str(),
            ).concat(" is not defined; available themes: ").concat(
                join(available, ", ").as_str(),
            ),
            DisplayError::Brightness { theme, state } => "display.themes.".to_owned().concat(
                theme.as_str(),
            ).concat(".").concat(state).concat(".brightness must be between 0.0 and 1.0"),
        }
    }
}

/// Exactly one key display has the identifier.
pub open spec fn once(keys: Seq<KeyDisplayView>, id: Seq<char>) -> bool {
    exists|i: int|
        0 <= i < keys.len() && (#[trigger] keys[i]).id == id && (forall|j: int|
            0 <= j < keys.len() && (#[trigger] keys[j]).id == id ==> j == i)
}

/// The first logical key from position `start` on that is not configured
/// exactly once.
pub open spec fn not_once_from(keys: Seq<KeyDisplayView>, start: int) -> Option<Seq<char>>
    decreases 10 - start,
{
    if start >= 10 {
        None
    } else if !once(keys, key_ids()[start]) {
        Some(key_ids()[start])
    } else {
        not_once_from(keys, start + 1)
    }
}

/// The first state whose brightness is not from 0.0 to 1.0.
pub open spec fn too_bright(theme: StateTreatments) -> Option<Seq<char>> {
    if !in_unit_range(theme.idle.brightness.bits) {
        Some("idle"@)
    } else if !in_unit_range(theme.working.brightness.bits) {
        Some("working"@)
    } else if !in_unit_range(theme.blocked.brightness.bits) {
        Some("blocked"@)
    } else if !in_unit_range(theme.done.brightness.bits) {
        Some("done"@)
    } else if !in_unit_range(theme.unknown.brightness.bits) {
        Some("unknown"@)
    } else {
        None
    }
}

/// The selected theme, or why there is none.
pub open spec fn theme_result(
    display: DisplayView,
    result: Result<StateTreatments, DisplayFault>,
) -> bool {
    match theme_named(display.themes, display.theme) {
        Some(theme) => result == Ok::<StateTreatments, DisplayFault>(theme),
        None => match result {
            Ok(_) => false,
            Err(fault) => {
                &&& fault is UnknownTheme
                &&& fault->UnknownTheme_theme == display.theme
                &&& lists_themes(fault->available, display.themes)
            },
        },
    }
}

/// Whether a display section is accepted (no fault), or refused for `fault`.
pub open spec fn display_result(display: DisplayView, fault: Option<DisplayFault>) -> bool {
    if display.keys.len() != 10 {
        fault == Some(DisplayFault::KeyCount)
    } else {
        match not_once_from(display.keys, 0) {
            Some(key) => fault == Some(DisplayFault::NotOnce { key }),
            None => match theme_named(display.themes, display.theme) {
                None => fault is Some && theme_result(display, Err(fault->0)),
                Some(theme) => fault == match too_bright(theme) {
                    Some(state) => Some(
                        DisplayFault::Brightness { theme: display.theme, state },
                    ),
                    None => None,
                },
            },
        }
    }
}

/// Ten keys, every logical key once, a theme that exists, and every brightness
/// of it from 0.0 to 1.0.
pub open spec fn valid_display(display: DisplayView) -> bool {
    &&& display.keys.len() == 10
    &&& forall|i: int| 0 <= i < 10 ==> once(display.keys, #[trigger] key_ids()[i])
    &&& theme_named(display.themes, display.theme) is Some
    &&& too_bright(theme_named(display.themes, display.theme)->0) is None
}

proof fn lemma_not_once(keys: Seq<KeyDisplayView>, start: int)
    requires
        0 <= start <= 10,
    ensures
        not_once_from(keys, start) is None <==> (forall|i: int|
            start <= i < 10 ==> once(keys, #[trigger] key_ids()[i])),
    decreases 10 - start,
{
    if start < 10 {
        lemma_not_once(keys, start + 1);
        if not_once_from(keys, start) is None {
            assert forall|i: int| start <= i < 10 implies once(keys, #[trigger] key_ids()[i]) by {
                if i == start {
                    assert(once(keys, key_ids()[start]));
                }
            }
        } else if once(keys, key_ids()[start]) {
            let i = choose|i: int| start + 1 <= i < 10 && !once(keys, #[trigger] key_ids()[i]);
            assert(!once(keys, key_ids()[i]));
        } else {
            assert(!once(keys, key_ids()[start]));
        }
    }
}

/// A display section is accepted exactly when it is valid.
pub proof fn law_accepted_iff_valid(display: DisplayView, fault: Option<DisplayFault>)
    requires
        display_result(display, fault),
    ensures
        fault is None <==> valid_display(display),
{
    lemma_not_once(display.keys, 0);
}

/// The default display section is valid.
pub proof fn law_default_display_is_valid()
    ensures
        valid_display(default_display()),
{
    reveal_strlit("f1");
    reveal_strlit("f2");
    reveal_strlit("f3");
    reveal_strlit("f4");
    reveal_strlit("f5");
    reveal_strlit("f6");
    reveal_strlit("f7");
    reveal_strlit("f8");
    reveal_strlit("f9");
    reveal_strlit("f10");
    let keys = default_key_views();
    assert forall|i: int| 0 <= i < 10 implies once(keys, #[trigger] key_ids()[i]) by {
        assert(keys[i].id == key_ids()[i]);
        assert forall|j: int| 0 <= j < keys.len() && (#[trigger] keys[j]).id
            == key_ids()[i] implies j == i by {
            assert(keys[j].id == key_ids()[j]);
            assert(key_ids()[i][1] == key_ids()[j][1]);
            assert(key_ids()[i].len() == key_ids()[j].len());
        }
    }
}

fn occurs_once(keys: &Vec<KeyDisplay>, id: &str) -> (found: bool)
    ensures
        found == once(key_display_views(keys@), id@),
{
    let ghost all = key_display_views(keys@);
    let mut count: usize = 0;
    let ghost mut first: int = 0;
    for i in 0..keys.len()
        invariant
            all == key_display_views(keys@),
            count <= 1,
            count == 0 ==> forall|j: int| 0 <= j < i ==> (#[trigger] all[j]).id != id@,
            count == 1 ==> 0 <= first < i && all[first].id == id@ && (forall|j: int|
                0 <= j < i && (#[trigger] all[j]).id == id@ ==> j == first),
    {
        assert(all[i as int] == keys@[i as int]@);
        if same_text(keys[i].id.as_str(), id) {
            if count == 1 {
                proof {
                    if once(all, id@) {
                        let k = choose|k: int|
                            0 <= k < all.len() && (#[trigger] all[k]).id == id@ && (forall|j: int|
                                0 <= j < all.len() && (#[trigger] all[j]).id == id@ ==> j == k);
                        assert(first == k);
                        assert(i == k);
                    }
                }
                return false;
            }
            count = 1;
            proof {
                first = i as int;
            }
        }
    }
    count == 1
}

impl DisplayConfig {
    fn theme_names(&self) -> (names: Vec<String>)
        ensures
            lists_themes(views(names@), self.themes@),
    {
        let mut all: NameMap<StateTreatments> = NameMap::new();
        all.insert("herdr".to_owned(), herdr_theme());
        all.insert("catppuccin-mocha".to_owned(), herdr_theme());
        let own = self.themes.name_list();
        let ghost start = all@;
        let ghost listed = views(own@);
        for i in 0..own.len()
            invariant
                listed == views(own@),
                forall|name: Seq<char>| #[trigger]
                    all@.contains_key(name) <==> (start.contains_key(name) || exists|j: int|
                        0 <= j < i && #[trigger] listed[j] == name),
        {
            let ghost before = all@;
            all.insert(own[i].clone(), herdr_theme());
            assert forall|name: Seq<char>| #[trigger]
                all@.contains_key(name) <==> (start.contains_key(name) || exists|j: int|
                    0 <= j < i + 1 && #[trigger] listed[j] == name) by {
                if name == own@[i as int]@ {
                    assert(listed[i as int] == name);
                } else if before.contains_key(name) && !start.contains_key(name) {
                    let j = choose|j: int| 0 <= j < i && #[trigger] listed[j] == name;
                    assert(listed[j] == name);
                }
            }
        }
        let names = all.name_list();
        proof {
            let target = Map::new(
                |name: Seq<char>| theme_named(self.themes@, name) is Some,
                |name: Seq<char>| theme_named(self.themes@, name)->0,
            );
            assert forall|name: Seq<char>| #[trigger]
                views(names@).contains(name) <==> target.contains_key(name) by {
                assert(views(names@).contains(name) <==> all@.contains_key(name));
                if self.themes@.contains_key(name) {
                    assert(listed.contains(name));
                    let j = choose|j: int| 0 <= j < listed.len() && listed[j] == name;
                    assert(listed[j] == name);
                } else if all@.contains_key(name) && !start.contains_key(name) {
                    let j = choose|j: int| 0 <= j < listed.len() && #[trigger] listed[j] == name;
                    assert(listed.contains(name));
                }
            }
        }
        names
    }

    /// The selected theme.
    pub fn selected_theme(&self) -> (result: Result<StateTreatments, DisplayError>)
        ensures
            theme_result(
                self@,
                match result {
                    Ok(theme) => Ok(theme),
                    Err(error) => Err(error@),
                },
            ),
    {
        if let Some(theme) = self.themes.get(self.theme.as_str()) {
            return Ok(*theme);
        }
        if same_text(self.theme.as_str(), "herdr") || same_text(
            self.theme.as_str(),
            "catppuccin-mocha",
        ) {
            return Ok(herdr_theme());
        }
        Err(
            DisplayError::UnknownTheme {
                theme: self.theme.clone(),
                available: self.theme_names(),
            },
        )
    }

    /// Accepts ten keys, every logical key once, a theme that exists, and
    /// brightnesses from 0.0 to 1.0.
    pub fn validate(&self) -> (result: Result<(), DisplayError>)
        ensures
            display_result(
                self@,
                match result {
                    Ok(()) => None,
                    Err(error) => Some(error@),
                },
            ),
    {
        if self.keys.len() != 10 {
            return Err(DisplayError::KeyCount);
        }
        for i in 0..10usize
            invariant
                self.keys.len() == 10,
                not_once_from(self@.keys, 0) == not_once_from(self@.keys, i as int),
        {
            assert(KEY_IDS[i as int]@ == key_ids()[i as int]);
            if !occurs_once(&self.keys, KEY_IDS[i]) {
                return Err(DisplayError::NotOnce { key: KEY_IDS[i].to_owned() });
            }
        }
        let theme = match self.selected_theme() {
            Ok(theme) => theme,
            Err(error) => {
                return Err(error);
            },
        };
        let state: &'static str = if !theme.idle.brightness.in_range() {
            "idle"
        } else if !theme.working.brightness.in_range() {
            "working"
        } else if !theme.blocked.brightness.in_range() {
            "blocked"
        } else if !theme.done.brightness.in_range() {
            "done"
        } else if !theme.unknown.brightness.in_range() {
            "unknown"
        } else {
            return Ok(());
        };
        Err(DisplayError::Brightness { theme: self.theme.clone(), state })
    }
}

// ---------------------------------------------------------------------------
// Plans
// ---------------------------------------------------------------------------

impl PartialEq for StateTreatment {
    fn eq(&self, other: &Self) -> (same: bool) {
        self.brightness == other.brightness && self.motion == other.motion && self.color
            == other.color
    }
}

impl vstd::std_specs::cmp::PartialEqSpecImpl for StateTreatment {
    open spec fn obeys_eq_spec() -> bool {
        true
    }

    open spec fn eq_spec(&self, other: &Self) -> bool {
        same_treatment(*self, *other)
    }
}

impl PartialEq for StateTreatments {
    fn eq(&self, other: &Self) -> (same: bool) {
        self.idle == other.idle && self.working == other.working && self.blocked == other.blocked
            && self.done == other.done && self.unknown == other.unknown
    }
}

impl vstd::std_specs::cmp::PartialEqSpecImpl for StateTreatments {
    open spec fn obeys_eq_spec() -> bool {
        true
    }

    open spec fn eq_spec(&self, other: &Self) -> bool {
        same_treatments(*self, *other)
    }
}

/// Whether two treatments are equal, brightnesses compared as numbers.
pub open spec fn same_treatment(left: StateTreatment, right: StateTreatment) -> bool {
    &&& same_number(left.brightness.bits, right.brightness.bits)
    &&& left.motion == right.motion
    &&& left.color == right.color
}

/// Whether two themes are equal, brightnesses compared as numbers.
pub open spec fn same_treatments(left: StateTreatments, right: StateTreatments) -> bool {
    &&& same_treatment(left.idle, right.idle)
    &&& same_treatment(left.working, right.working)
    &&& same_treatment(left.blocked, right.blocked)
    &&& same_treatment(left.done, right.done)
    &&& same_treatment(left.unknown, right.unknown)
}

/// What one key shows.
#[derive(Debug)]
pub struct KeyRender {
    pub key: String,
    pub state: Option<AgentState>,
    pub color: Rgb,
    pub brightness: Brightness,
    pub motion: Motion,
}

#[verifier::ext_equal]
pub struct KeyRenderView {
    pub key: Seq<char>,
    pub state: Option<AgentState>,
    pub color: Rgb,
    pub brightness: Brightness,
    pub motion: Motion,
}

impl View for KeyRender {
    type V = KeyRenderView;

    open spec fn view(&self) -> KeyRenderView {
        KeyRenderView {
            key: self.key@,
            state: self.state,
            color: self.color,
            brightness: self.brightness,
            motion: self.motion,
        }
    }
}

impl Clone for KeyRender {
    fn clone(&self) -> (copy: Self)
        ensures
            copy@ == self@,
    {
        KeyRender {
            key: self.key.clone(),
            state: self.state,
            color: self.color,
            brightness: self.brightness,
            motion: self.motion,
        }
    }
}

/// Whether two keys show the same, brightnesses compared as numbers.
pub open spec fn same_key_render(left: KeyRenderView, right: KeyRenderView) -> bool {
    &&& left.key == right.key
    &&& left.state == right.state
    &&& left.color == right.color
    &&& same_number(left.brightness.bits, right.brightness.bits)
    &&& left.motion == right.motion
}

fn same_state(left: Option<AgentState>, right: Option<AgentState>) -> (same: bool)
    ensures
        same == (left == right),
{
    match (left, right) {
        (Some(left), Some(right)) => left == right,
        (None, None) => true,
        _ => false,
    }
}

impl PartialEq for KeyRender {
    fn eq(&self, other: &Self) -> (same: bool) {
        same_text(self.key.as_str(), other.key.as_str()) && same_state(self.state, other.state)
            && self.color == other.color && self.brightness == other.brightness && self.motion
            == other.motion
    }
}

impl vstd::std_specs::cmp::PartialEqSpecImpl for KeyRender {
    open spec fn obeys_eq_spec() -> bool {
        true
    }

    open spec fn eq_spec(&self, other: &Self) -> bool {
        same_key_render(self@, other@)
    }
}

/// The views of a sequence of key renders.
pub open spec fn key_render_views(keys: Seq<KeyRender>) -> Seq<KeyRenderView> {
    keys.map_values(|key: KeyRender| key@)
}

/// What every key shows, with the treatments that the plan was made from.
#[derive(Debug)]
pub struct RenderPlan {
    pub keys: Vec<KeyRender>,
    pub treatments: StateTreatments,
}

#[verifier::ext_equal]
pub struct PlanView {
    pub keys: Seq<KeyRenderView>,
    pub treatments: StateTreatments,
}

impl View for RenderPlan {
    type V = PlanView;

    open spec fn view(&self) -> PlanView {
        PlanView { keys: key_render_views(self.keys@), treatments: self.treatments }
    }
}

impl Clone for RenderPlan {
    fn clone(&self) -> (copy: Self)
        ensures
            copy@ == self@,
    {
        let mut keys: Vec<KeyRender> = Vec::new();
        for i in 0..self.keys.len()
            invariant
                keys.len() == i,
                forall|j: int| 0 <= j < i ==> (#[trigger] keys@[j])@ == self.keys@[j]@,
        {
            keys.push(self.keys[i].clone());
        }
        assert(key_render_views(keys@) =~= key_render_views(self.keys@));
        RenderPlan { keys, treatments: self.treatments }
    }
}

/// Whether two plans are equal, brightnesses compared as numbers.
pub open spec fn same_plan(left: PlanView, right: PlanView) -> bool {
    &&& left.keys.len() == right.keys.len()
    &&& forall|i: int|
        0 <= i < left.keys.len() ==> same_key_render(#[trigger] left.keys[i], right.keys[i])
    &&& same_treatments(left.treatments, right.treatments)
}

impl PartialEq for RenderPlan {
    fn eq(&self, other: &Self) -> (same: bool) {
        if self.keys.len() != other.keys.len() {
            return false;
        }
        for i in 0..self.keys.len()
            invariant
                self.keys.len() == other.keys.len(),
                forall|j: int|
                    0 <= j < i ==> same_key_render(#[trigger] self@.keys[j], other@.keys[j]),
        {
            if self.keys[i] != other.keys[i] {
                assert(!same_key_render(self@.keys[i as int], other@.keys[i as int]));
                return false;
            }
        }
        self.treatments == other.treatments
    }
}

impl vstd::std_specs::cmp::PartialEqSpecImpl for RenderPlan {
    open spec fn obeys_eq_spec() -> bool {
        true
    }

    open spec fn eq_spec(&self, other: &Self) -> bool {
        same_plan(self@, other@)
    }
}

/// What a key shows for a state.
pub open spec fn shown(
    key: Seq<char>,
    state: AgentState,
    treatments: StateTreatments,
) -> KeyRenderView {
    KeyRenderView {
        key,
        state: Some(state),
        color: treatments.of(state).color,
        brightness: treatments.of(state).brightness,
        motion: treatments.of(state).motion,
    }
}

/// What an unbound key shows: nothing, in its identity colour.
pub open spec fn off(key: KeyDisplayView) -> KeyRenderView {
    KeyRenderView {
        key: key.id,
        state: None,
        color: key.color,
        brightness: Brightness { bits: 0 },
        motion: Motion::Steady,
    }
}

/// The status of the pane that the last row for a key names.
pub open spec fn status_of_key(rows: Seq<RowView>, key: Seq<char>) -> Option<Seq<char>>
    decreases rows.len(),
{
    if rows.len() == 0 {
        None
    } else if rows.last().binding.key == key {
        Some(rows.last().pane.agent_status)
    } else {
        status_of_key(rows.drop_last(), key)
    }
}

/// What a key shows, given the rows of the ledger.
pub open spec fn key_plan(
    key: KeyDisplayView,
    rows: Seq<RowView>,
    treatments: StateTreatments,
) -> KeyRenderView {
    match status_of_key(rows, key.id) {
        Some(status) => shown(key.id, herdr_state(status), treatments),
        None => off(key),
    }
}

/// The plan for the rows of the ledger.
pub open spec fn planned(
    display: DisplayView,
    rows: Seq<RowView>,
    treatments: StateTreatments,
) -> PlanView {
    PlanView {
        keys: display.keys.map_values(|key: KeyDisplayView| key_plan(key, rows, treatments)),
        treatments,
    }
}

/// The states in the order in which examples show them.
pub open spec fn states() -> Seq<AgentState> {
    seq![
        AgentState::Idle,
        AgentState::Working,
        AgentState::Blocked,
        AgentState::Done,
        AgentState::Unknown,
    ]
}

/// A plan that shows the five states on the first five keys.
pub open spec fn example_plan(display: DisplayView, treatments: StateTreatments) -> PlanView {
    PlanView {
        keys: Seq::new(5, |i: int| shown(display.keys[i].id, states()[i], treatments)),
        treatments,
    }
}

/// The plan for an accepted display section, or why the section is refused.
pub open spec fn plan_result(
    display: DisplayView,
    rows: Seq<RowView>,
    result: Result<PlanView, DisplayFault>,
) -> bool {
    match result {
        Ok(plan) => {
            &&& display_result(display, None)
            &&& plan == planned(display, rows, theme_named(display.themes, display.theme)->0)
        },
        Err(fault) => display_result(display, Some(fault)),
    }
}

fn last_status<'a>(rows: &'a [(Binding, Pane)], key: &str) -> (status: Option<&'a str>)
    ensures
        match status {
            Some(status) => status_of_key(row_views(rows@), key@) == Some(status@),
            None => status_of_key(row_views(rows@), key@) is None,
        },
{
    let ghost all = row_views(rows@);
    let mut i: usize = rows.len();
    assert(all.take(i as int) =~= all);
    while i > 0
        invariant
            i <= rows.len(),
            all == row_views(rows@),
            status_of_key(all, key@) == status_of_key(all.take(i as int), key@),
        decreases i,
    {
        i = i - 1;
        proof {
            assert(all.take(i + 1).drop_last() =~= all.take(i as int));
            assert(all.take(i + 1).last() == all[i as int]);
        }
        if same_text(rows[i].0.key.as_str(), key) {
            return Some(rows[i].1.agent_status.as_str());
        }
    }
    assert(all.take(0) =~= Seq::empty());
    None
}

fn treatment(treatments: &StateTreatments, state: AgentState) -> (found: StateTreatment)
    ensures
        found == treatments.of(state),
{
    match state {
        AgentState::Idle => treatments.idle,
        AgentState::Working => treatments.working,
        AgentState::Blocked => treatments.blocked,
        AgentState::Done => treatments.done,
        AgentState::Unknown => treatments.unknown,
    }
}

fn render_state(key: &str, state: AgentState, treatments: &StateTreatments) -> (render: KeyRender)
    ensures
        render@ == shown(key@, state, *treatments),
{
    let treatment = treatment(treatments, state);
    KeyRender {
        key: key.to_owned(),
        state: Some(state),
        color: treatment.color,
        brightness: treatment.brightness,
        motion: treatment.motion,
    }
}

/// Resolves what every key shows. Where several rows name one key, the last
/// one counts.
pub fn render(
    display: &DisplayConfig,
    bindings: &[(Binding, Pane)],
) -> (result: Result<RenderPlan, DisplayError>)
    ensures
        plan_result(
            display@,
            row_views(bindings@),
            match result {
                Ok(plan) => Ok(plan@),
                Err(error) => Err(error@),
            },
        ),
{
    if let Err(error) = display.validate() {
        return Err(error);
    }
    let treatments = match display.selected_theme() {
        Ok(treatments) => treatments,
        Err(error) => {
            return Err(error);
        },
    };
    let ghost rows = row_views(bindings@);
    let mut keys: Vec<KeyRender> = Vec::new();
    for i in 0..display.keys.len()
        invariant
            rows == row_views(bindings@),
            keys.len() == i,
            forall|j: int|
                0 <= j < i ==> (#[trigger] keys@[j])@ == key_plan(
                    display.keys@[j]@,
                    rows,
                    treatments,
                ),
    {
        let key = &display.keys[i];
        let shows = match last_status(bindings, key.id.as_str()) {
            Some(status) => render_state(
                key.id.as_str(),
                AgentState::from_herdr(status),
                &treatments,
            ),
            None => KeyRender {
                key: key.id.clone(),
                state: None,
                color: key.color,
                brightness: Brightness { bits: 0 },
                motion: Motion::Steady,
            },
        };
        keys.push(shows);
    }
    let plan = RenderPlan { keys, treatments };
    assert(plan@.keys =~= planned(display@, rows, treatments).keys);
    Ok(plan)
}

/// Shows the five states on the first five keys.
pub fn all_state_examples(display: &DisplayConfig) -> (result: Result<RenderPlan, DisplayError>)
    ensures
        match result {
            Ok(plan) => {
                &&& display_result(display@, None)
                &&& plan@ == example_plan(
                    display@,
                    theme_named(display@.themes, display@.theme)->0,
                )
            },
            Err(error) => display_result(display@, Some(error@)),
        },
{
    if let Err(error) = display.validate() {
        return Err(error);
    }
    let treatments = match display.selected_theme() {
        Ok(treatments) => treatments,
        Err(error) => {
            return Err(error);
        },
    };
    let states = [
        AgentState::Idle,
        AgentState::Working,
        AgentState::Blocked,
        AgentState::Done,
        AgentState::Unknown,
    ];
    assert(states@ =~= self::states());
    let mut keys: Vec<KeyRender> = Vec::new();
    for i in 0..5usize
        invariant
            display.keys.len() == 10,
            states@ == self::states(),
            keys.len() == i,
            forall|j: int|
                0 <= j < i ==> (#[trigger] keys@[j])@ == shown(
                    display.keys@[j].id@,
                    self::states()[j],
                    treatments,
                ),
    {
        keys.push(render_state(display.keys[i].id.as_str(), states[i], &treatments));
    }
    let plan = RenderPlan { keys, treatments };
    assert(plan@.keys =~= example_plan(display@, treatments).keys);
    Ok(plan)
}

// ---------------------------------------------------------------------------
// Laws
// ---------------------------------------------------------------------------

/// Whether a plan shows the ten logical keys, each once.
pub open spec fn shows_every_key(plan: PlanView) -> bool {
    &&& plan.keys.len() == 10
    &&& forall|i: int| #![trigger key_ids()[i]]
        0 <= i < 10 ==> exists|j: int|
            0 <= j < 10 && (#[trigger] plan.keys[j]).key == key_ids()[i]
    &&& forall|i: int, j: int|
        0 <= i < 10 && 0 <= j < 10 && (#[trigger] plan.keys[i]).key == (
        #[trigger] plan.keys[j]).key ==> i == j
}

/// The ten keys of a valid display section are the ten logical keys, each
/// once.
proof fn lemma_keys_distinct(keys: Seq<KeyDisplayView>)
    requires
        keys.len() == 10,
        forall|i: int| 0 <= i < 10 ==> once(keys, #[trigger] key_ids()[i]),
    ensures
        forall|i: int, j: int|
            0 <= i < 10 && 0 <= j < 10 && (#[trigger] keys[i]).id == (#[trigger] keys[j]).id
                ==> i == j,
{
    // Where each logical key stands.
    let place = |i: int|
        choose|j: int|
            0 <= j < keys.len() && (#[trigger] keys[j]).id == key_ids()[i] && (forall|k: int|
                0 <= k < keys.len() && (#[trigger] keys[k]).id == key_ids()[i] ==> k == j);
    let places = Seq::new(10, |i: int| place(i));
    assert forall|i: int| 0 <= i < 10 implies 0 <= #[trigger] places[i] < 10 && keys[places[i]].id
        == key_ids()[i] by {
        assert(once(keys, key_ids()[i]));
    }
    lemma_key_ids_distinct();
    assert(places.no_duplicates()) by {
        assert forall|i: int, j: int| 0 <= i < 10 && 0 <= j < 10 && i != j implies places[i]
            != places[j] by {
            if places[i] == places[j] {
                assert(key_ids()[i] == key_ids()[j]);
            }
        }
    }
    lemma_covers(places, 10);
    assert forall|i: int, j: int|
        0 <= i < 10 && 0 <= j < 10 && (#[trigger] keys[i]).id == (
        #[trigger] keys[j]).id implies i == j by {
        assert(places.contains(i));
        let logical = choose|k: int| 0 <= k < places.len() && places[k] == i;
        assert(keys[places[logical]].id == key_ids()[logical]);
        assert(once(keys, key_ids()[logical]));
    }
}

proof fn lemma_key_ids_distinct()
    ensures
        forall|i: int, j: int|
            0 <= i < 10 && 0 <= j < 10 && #[trigger] key_ids()[i] == #[trigger] key_ids()[j]
                ==> i == j,
{
    reveal_strlit("f1");
    reveal_strlit("f2");
    reveal_strlit("f3");
    reveal_strlit("f4");
    reveal_strlit("f5");
    reveal_strlit("f6");
    reveal_strlit("f7");
    reveal_strlit("f8");
    reveal_strlit("f9");
    reveal_strlit("f10");
    assert forall|i: int, j: int|
        0 <= i < 10 && 0 <= j < 10 && #[trigger] key_ids()[i]
            == #[trigger] key_ids()[j] implies i == j by {
        assert(key_ids()[i].len() == key_ids()[j].len());
        assert(key_ids()[i][1] == key_ids()[j][1]);
    }
}

/// As many different numbers below a bound as the bound cover all of them.
proof fn lemma_covers(numbers: Seq<int>, bound: int)
    requires
        numbers.len() == bound,
        numbers.no_duplicates(),
        forall|i: int| 0 <= i < numbers.len() ==> 0 <= #[trigger] numbers[i] < bound,
    ensures
        forall|number: int| 0 <= number < bound ==> #[trigger] numbers.contains(number),
{
    let all = vstd::set_lib::set_int_range(0, bound);
    vstd::set_lib::lemma_int_range(0, bound);
    numbers.unique_seq_to_set();
    vstd::seq_lib::seq_to_set_is_finite(numbers);
    assert(numbers.to_set().subset_of(all)) by {
        assert forall|number: int| numbers.to_set().contains(number) implies all.contains(
            number,
        ) by {
            assert(numbers.contains(number));
        }
    }
    vstd::set_lib::lemma_subset_equality(numbers.to_set(), all);
    assert forall|number: int| 0 <= number < bound implies #[trigger] numbers.contains(number) by {
        assert(all.contains(number));
        assert(numbers.to_set().contains(number));
    }
}

/// Every plan shows the ten logical keys, each once, with a brightness from
/// 0.0 to 1.0.
pub proof fn law_plan_shows_every_key(display: DisplayView, rows: Seq<RowView>, plan: PlanView)
    requires
        plan_result(display, rows, Ok(plan)),
    ensures
        shows_every_key(plan),
        forall|i: int|
            0 <= i < 10 ==> in_unit_range((#[trigger] plan.keys[i]).brightness.bits),
{
    law_accepted_iff_valid(display, None);
    lemma_keys_distinct(display.keys);
    assert forall|i: int| #![trigger key_ids()[i]] 0 <= i < 10 implies exists|j: int|
        0 <= j < 10 && (#[trigger] plan.keys[j]).key == key_ids()[i] by {
        assert(once(display.keys, key_ids()[i]));
        let j = choose|j: int|
            0 <= j < display.keys.len() && (#[trigger] display.keys[j]).id == key_ids()[i];
        assert(plan.keys[j].key == key_ids()[i]);
    }
    assert forall|i: int, j: int|
        0 <= i < 10 && 0 <= j < 10 && (#[trigger] plan.keys[i]).key == (
        #[trigger] plan.keys[j]).key implies i == j by {
        assert(display.keys[i].id == display.keys[j].id);
    }
}

/// A key of a plan is off exactly when no row names it.
pub proof fn law_unbound_keys_are_off(
    display: DisplayView,
    rows: Seq<RowView>,
    plan: PlanView,
    index: int,
)
    requires
        plan_result(display, rows, Ok(plan)),
        0 <= index < plan.keys.len(),
    ensures
        plan.keys[index].state is None <==> (forall|i: int|
            0 <= i < rows.len() ==> (#[trigger] rows[i]).binding.key != plan.keys[index].key),
        plan.keys[index].state is None ==> plan.keys[index].brightness == (Brightness { bits: 0 }),
{
    lemma_status_of_key(rows, display.keys[index].id);
}

proof fn lemma_status_of_key(rows: Seq<RowView>, key: Seq<char>)
    ensures
        status_of_key(rows, key) is None <==> (forall|i: int|
            0 <= i < rows.len() ==> (#[trigger] rows[i]).binding.key != key),
    decreases rows.len(),
{
    if rows.len() > 0 {
        let earlier = rows.drop_last();
        lemma_status_of_key(earlier, key);
        assert(forall|i: int| 0 <= i < earlier.len() ==> #[trigger] earlier[i] == rows[i]);
        if rows.last().binding.key == key {
            assert(rows[rows.len() - 1].binding.key == key);
        } else if status_of_key(rows, key) is None {
            assert forall|i: int| 0 <= i < rows.len() implies (
            #[trigger] rows[i]).binding.key != key by {
                if i < rows.len() - 1 {
                    assert(earlier[i] == rows[i]);
                }
            }
        } else {
            let i = choose|i: int| 0 <= i < earlier.len() && (
            #[trigger] earlier[i]).binding.key == key;
            assert(rows[i].binding.key == key);
        }
    }
}

} // verus!
