//! Physical input adapters.
//!
//! Beckon's navigation core deals only in logical keys (`f1` through `f10`).
//! An adapter owns the keyboard-specific mapping from a physical shortcut
//! to one of those logical keys. All enabled adapters are registered as one
//! set: there is never a partial, invisible key map.

use std::collections::BTreeMap;

use global_hotkey::hotkey::{Code, HotKey, Modifiers};
use vstd::prelude::*;

use crate::binding::key_ids;
use crate::service::plain_answer;
use crate::text::same_text;
use crate::config::{enabled, law_enabled_profiles_differ, InputError, InputProfile, InputView};

verus! {

broadcast use {vstd::std_specs::btree::group_btree_axioms, vstd::string::group_string_axioms};

// ---------------------------------------------------------------------------
// Shortcuts
// ---------------------------------------------------------------------------

/// The bit of the Shift key among the modifier bits.
pub const SHIFT: u32 = 0x200;

/// The bit of the Meta key.
pub const META: u32 = 0x40;

/// The bit of the Super key, an older name of the Meta key.
pub const SUPER: u32 = 0x2000;

/// The number of the function key that a code names, `F1` through `F35`.
pub open spec fn function_key_of(code: Seq<char>) -> Option<int> {
    if code.len() == 2 && code[0] == 'F' && '1' <= code[1] <= '9' {
        Some(code[1] as int - '0' as int)
    } else if code.len() == 3 && code[0] == 'F' && '1' <= code[1] <= '3' && '0' <= code[2] <= '9'
        && 10 * (code[1] as int - '0' as int) + (code[2] as int - '0' as int) <= 35 {
        Some(10 * (code[1] as int - '0' as int) + (code[2] as int - '0' as int))
    } else {
        None
    }
}

/// The number of the code under a name, where that is no function key; none
/// where there is no such code.
pub uninterp spec fn other_code_number(code: Seq<char>) -> Option<u32>;

/// The number of the code under a name. Function keys count from 160 on.
pub open spec fn code_number(code: Seq<char>, other: Option<u32>) -> Option<u32> {
    match function_key_of(code) {
        Some(function_key) => Some((159 + function_key) as u32),
        None => other,
    }
}

/// Modifier bits with the Meta key in place of the Super key.
pub open spec fn super_as_meta(modifiers: u32) -> u32 {
    if modifiers & SUPER == SUPER {
        (modifiers & !SUPER) | META
    } else {
        modifiers
    }
}

/// The identifier under which the system reports a shortcut: the number of the
/// code, with the modifier bits above the lower sixteen.
pub open spec fn identifier(modifiers: u32, number: u32) -> u32 {
    (super_as_meta(modifiers) << 16u32) | number
}

/// Asks for the identifier of a shortcut with `HotKey::new` and `HotKey::id` of
/// `global_hotkey`, and for its code with the `FromStr` of
/// `keyboard_types::Code`; none where that refuses the name.
///
/// Trusted: `Code` reads the names `F1` through `F35` and numbers those
/// variants from 160 on without a gap. Of another name the number, or that
/// there is none, is a function of the name, [`other_code_number`]. `HotKey`
/// takes the Super key for the Meta key, and puts the modifier bits above the
/// lower sixteen bits, beside the number of the code.
#[verifier::external_body]
fn hotkey_id(modifiers: u32, code: &str) -> (id: Option<u32>)
    ensures
        id == match code_number(code@, other_code_number(code@)) {
            Some(number) => Some(identifier(modifiers, number)),
            None => None,
        },
{
    match code.parse::<Code>() {
        Ok(code) => Some(HotKey::new(Some(Modifiers::from_bits_retain(modifiers)), code).id()),
        Err(_) => None,
    }
}

/// A physical shortcut: the modifier keys to hold, and the physical key.
#[derive(Clone, Copy, Debug)]
pub struct Shortcut {
    modifiers: u32,
    code: &'static str,
}

#[verifier::ext_equal]
pub struct ShortcutView {
    pub modifiers: u32,
    pub code: Seq<char>,
}

impl ShortcutView {
    /// The number of the physical key; none where there is no such key.
    pub open spec fn number(self) -> Option<u32> {
        code_number(self.code, other_code_number(self.code))
    }

    /// The identifier under which the system reports the shortcut.
    pub open spec fn id(self) -> u32 {
        identifier(self.modifiers, self.number()->0)
    }
}

impl View for Shortcut {
    type V = ShortcutView;

    closed spec fn view(&self) -> ShortcutView {
        ShortcutView { modifiers: self.modifiers, code: self.code@ }
    }
}

impl Shortcut {
    /// There is a key with the code.
    #[verifier::type_invariant]
    closed spec fn has_key(self) -> bool {
        code_number(self.code@, other_code_number(self.code@)) is Some
    }

    /// The shortcut of modifier bits and of the physical key that a code names,
    /// such as `F16` or `KeyA`; none where no key has that code.
    pub fn new(modifiers: u32, code: &'static str) -> (shortcut: Option<Self>)
        ensures
            match shortcut {
                Some(shortcut) => shortcut@ == (ShortcutView { modifiers, code: code@ })
                    && shortcut@.number() is Some,
                None => (ShortcutView { modifiers, code: code@ }).number() is None,
            },
    {
        match hotkey_id(modifiers, code) {
            Some(_) => Some(Shortcut { modifiers, code }),
            None => None,
        }
    }

    /// The shortcut of modifier bits and a function key.
    fn function_key(modifiers: u32, code: &'static str) -> (shortcut: Self)
        requires
            function_key_of(code@) is Some,
        ensures
            shortcut@ == (ShortcutView { modifiers, code: code@ }),
    {
        Shortcut::new(modifiers, code).unwrap()
    }

    /// The modifier bits.
    pub fn modifiers(&self) -> (modifiers: u32)
        ensures
            modifiers == self@.modifiers,
    {
        self.modifiers
    }

    /// The code of the physical key.
    pub fn code(&self) -> (code: &'static str)
        ensures
            code@ == self@.code,
    {
        self.code
    }

    /// The identifier under which the system reports the shortcut.
    pub fn id(&self) -> (id: u32)
        ensures
            id == self@.id(),
    {
        proof {
            use_type_invariant(self);
        }
        hotkey_id(self.modifiers, self.code).unwrap()
    }
}

impl PartialEq for Shortcut {
    fn eq(&self, other: &Shortcut) -> (same: bool) {
        self.modifiers == other.modifiers && same_text(self.code, other.code)
    }
}

impl Eq for Shortcut {

}

impl vstd::std_specs::cmp::PartialEqSpecImpl for Shortcut {
    open spec fn obeys_eq_spec() -> bool {
        true
    }

    open spec fn eq_spec(&self, other: &Shortcut) -> bool {
        self@ == other@
    }
}

/// A function key, with modifier keys that the identifier holds as they are.
pub open spec fn is_plain(shortcut: ShortcutView) -> bool {
    &&& function_key_of(shortcut.code) is Some
    &&& shortcut.modifiers < 0x1_0000
    &&& shortcut.modifiers & SUPER == 0
}

/// Function keys with different modifiers, and different function keys, have
/// different identifiers.
pub proof fn law_hotkey_ids_differ(left: ShortcutView, right: ShortcutView)
    requires
        is_plain(left),
        is_plain(right),
        left.id() == right.id(),
    ensures
        left == right,
{
    let (m, n) = (left.modifiers, right.modifiers);
    let (i, j) = (left.number()->0, right.number()->0);
    assert(m & SUPER == 0 ==> !(m & SUPER == SUPER)) by (bit_vector);
    assert(n & SUPER == 0 ==> !(n & SUPER == SUPER)) by (bit_vector);
    assert(m == n && i == j) by (bit_vector)
        requires
            (m << 16u32) | i == (n << 16u32) | j,
            m < 0x1_0000u32,
            n < 0x1_0000u32,
            i < 0x1_0000u32,
            j < 0x1_0000u32,
    ;
    assert(left.code =~= right.code);
}

/// One physical shortcut exposed by an input adapter.
#[derive(Clone, Copy, Debug)]
pub struct InputBinding {
    /// Beckon's hardware-independent binding identifier.
    pub key: &'static str,
    /// A human-readable representation of the physical input for diagnostics.
    pub description: &'static str,
    /// The physical input.
    pub shortcut: Shortcut,
}

#[verifier::ext_equal]
pub struct InputBindingView {
    pub key: Seq<char>,
    pub description: Seq<char>,
    pub shortcut: ShortcutView,
}

impl View for InputBinding {
    type V = InputBindingView;

    open spec fn view(&self) -> InputBindingView {
        InputBindingView {
            key: self.key@,
            description: self.description@,
            shortcut: self.shortcut@,
        }
    }
}

impl InputBinding {
    /// The binding of a physical shortcut to a logical key.
    pub fn new(key: &'static str, description: &'static str, shortcut: Shortcut) -> (binding: Self)
        ensures
            binding@ == (InputBindingView {
                key: key@,
                description: description@,
                shortcut: shortcut@,
            }),
    {
        InputBinding { key, description, shortcut }
    }
}

/// The views of a sequence of input bindings.
pub open spec fn input_views(bindings: Seq<InputBinding>) -> Seq<InputBindingView> {
    bindings.map_values(|binding: InputBinding| binding@)
}

// ---------------------------------------------------------------------------
// Adapters
// ---------------------------------------------------------------------------

/// A source of physical global shortcuts.
///
/// Implementations map physical shortcuts to Beckon's logical keys, while the
/// caller remains responsible for navigation and confirmation behavior.
pub trait InputAdapter {
    /// The name of the source.
    spec fn source(&self) -> Seq<char>;

    /// The mapping of the source.
    spec fn table(&self) -> Seq<InputBindingView>;

    /// The name of the source.
    fn source_id(&self) -> (source: &'static str)
        ensures
            source@ == self.source(),
    ;

    /// The mapping of the source.
    fn bindings(&self) -> (bindings: Vec<InputBinding>)
        ensures
            input_views(bindings@) == self.table(),
    ;
}

/// The Glove80's Beckon layer.
///
/// F1 through F5 emit F16 through F20; F6 through F10 emit their Shift
/// variants. This preserves the deployed firmware and its intentionally
/// uncommon shortcuts while keeping that device detail outside the daemon.
#[derive(Debug)]
pub struct Glove80HotkeyInput;

impl Default for Glove80HotkeyInput {
    fn default() -> (input: Self)
        ensures
            input == Glove80HotkeyInput,
    {
        Glove80HotkeyInput
    }
}

/// The MacBook's function row: F1 through F10.
#[derive(Debug)]
pub struct MacbookFunctionKeyInput;

/// The mapping of the Glove80's Beckon layer.
pub open spec fn glove80_table() -> Seq<InputBindingView> {
    seq![
        input_view("f1"@, "F16"@, 0, "F16"@),
        input_view("f2"@, "F17"@, 0, "F17"@),
        input_view("f3"@, "F18"@, 0, "F18"@),
        input_view("f4"@, "F19"@, 0, "F19"@),
        input_view("f5"@, "F20"@, 0, "F20"@),
        input_view("f6"@, "Shift+F16"@, SHIFT, "F16"@),
        input_view("f7"@, "Shift+F17"@, SHIFT, "F17"@),
        input_view("f8"@, "Shift+F18"@, SHIFT, "F18"@),
        input_view("f9"@, "Shift+F19"@, SHIFT, "F19"@),
        input_view("f10"@, "Shift+F20"@, SHIFT, "F20"@),
    ]
}

/// The mapping of the MacBook's function row.
pub open spec fn macbook_table() -> Seq<InputBindingView> {
    seq![
        input_view("f1"@, "F1"@, 0, "F1"@),
        input_view("f2"@, "F2"@, 0, "F2"@),
        input_view("f3"@, "F3"@, 0, "F3"@),
        input_view("f4"@, "F4"@, 0, "F4"@),
        input_view("f5"@, "F5"@, 0, "F5"@),
        input_view("f6"@, "F6"@, 0, "F6"@),
        input_view("f7"@, "F7"@, 0, "F7"@),
        input_view("f8"@, "F8"@, 0, "F8"@),
        input_view("f9"@, "F9"@, 0, "F9"@),
        input_view("f10"@, "F10"@, 0, "F10"@),
    ]
}

/// One entry of a mapping.
pub open spec fn input_view(
    key: Seq<char>,
    description: Seq<char>,
    modifiers: u32,
    code: Seq<char>,
) -> InputBindingView {
    InputBindingView { key, description, shortcut: ShortcutView { modifiers, code } }
}

impl InputAdapter for Glove80HotkeyInput {
    open spec fn source(&self) -> Seq<char> {
        "glove80"@
    }

    open spec fn table(&self) -> Seq<InputBindingView> {
        glove80_table()
    }

    fn source_id(&self) -> (source: &'static str) {
        "glove80"
    }

    fn bindings(&self) -> (bindings: Vec<InputBinding>) {
        proof {
            lemma_function_keys();
        }
        let bindings = vec![
            InputBinding::new("f1", "F16", Shortcut::function_key(0, "F16")),
            InputBinding::new("f2", "F17", Shortcut::function_key(0, "F17")),
            InputBinding::new("f3", "F18", Shortcut::function_key(0, "F18")),
            InputBinding::new("f4", "F19", Shortcut::function_key(0, "F19")),
            InputBinding::new("f5", "F20", Shortcut::function_key(0, "F20")),
            InputBinding::new("f6", "Shift+F16", Shortcut::function_key(SHIFT, "F16")),
            InputBinding::new("f7", "Shift+F17", Shortcut::function_key(SHIFT, "F17")),
            InputBinding::new("f8", "Shift+F18", Shortcut::function_key(SHIFT, "F18")),
            InputBinding::new("f9", "Shift+F19", Shortcut::function_key(SHIFT, "F19")),
            InputBinding::new("f10", "Shift+F20", Shortcut::function_key(SHIFT, "F20")),
        ];
        assert(input_views(bindings@) =~= glove80_table());
        bindings
    }
}

impl InputAdapter for MacbookFunctionKeyInput {
    open spec fn source(&self) -> Seq<char> {
        "macbook-function-keys"@
    }

    open spec fn table(&self) -> Seq<InputBindingView> {
        macbook_table()
    }

    fn source_id(&self) -> (source: &'static str) {
        "macbook-function-keys"
    }

    fn bindings(&self) -> (bindings: Vec<InputBinding>) {
        proof {
            lemma_function_keys();
        }
        let bindings = vec![
            InputBinding::new("f1", "F1", Shortcut::function_key(0, "F1")),
            InputBinding::new("f2", "F2", Shortcut::function_key(0, "F2")),
            InputBinding::new("f3", "F3", Shortcut::function_key(0, "F3")),
            InputBinding::new("f4", "F4", Shortcut::function_key(0, "F4")),
            InputBinding::new("f5", "F5", Shortcut::function_key(0, "F5")),
            InputBinding::new("f6", "F6", Shortcut::function_key(0, "F6")),
            InputBinding::new("f7", "F7", Shortcut::function_key(0, "F7")),
            InputBinding::new("f8", "F8", Shortcut::function_key(0, "F8")),
            InputBinding::new("f9", "F9", Shortcut::function_key(0, "F9")),
            InputBinding::new("f10", "F10", Shortcut::function_key(0, "F10")),
        ];
        assert(input_views(bindings@) =~= macbook_table());
        bindings
    }
}

/// The function keys that the profiles use.
proof fn lemma_function_keys()
    ensures
        function_key_of("F1"@) == Some(1int),
        function_key_of("F2"@) == Some(2int),
        function_key_of("F3"@) == Some(3int),
        function_key_of("F4"@) == Some(4int),
        function_key_of("F5"@) == Some(5int),
        function_key_of("F6"@) == Some(6int),
        function_key_of("F7"@) == Some(7int),
        function_key_of("F8"@) == Some(8int),
        function_key_of("F9"@) == Some(9int),
        function_key_of("F10"@) == Some(10int),
        function_key_of("F16"@) == Some(16int),
        function_key_of("F17"@) == Some(17int),
        function_key_of("F18"@) == Some(18int),
        function_key_of("F19"@) == Some(19int),
        function_key_of("F20"@) == Some(20int),
{
    reveal_strlit("F1");
    reveal_strlit("F2");
    reveal_strlit("F3");
    reveal_strlit("F4");
    reveal_strlit("F5");
    reveal_strlit("F6");
    reveal_strlit("F7");
    reveal_strlit("F8");
    reveal_strlit("F9");
    reveal_strlit("F10");
    reveal_strlit("F16");
    reveal_strlit("F17");
    reveal_strlit("F18");
    reveal_strlit("F19");
    reveal_strlit("F20");
}

/// Both profiles map one shortcut to each logical key, in order.
pub proof fn law_profiles_cover_every_key()
    ensures
        glove80_table().map_values(|binding: InputBindingView| binding.key) == key_ids(),
        macbook_table().map_values(|binding: InputBindingView| binding.key) == key_ids(),
{
    assert(glove80_table().map_values(|binding: InputBindingView| binding.key) =~= key_ids());
    assert(macbook_table().map_values(|binding: InputBindingView| binding.key) =~= key_ids());
}

// ---------------------------------------------------------------------------
// Registration
// ---------------------------------------------------------------------------

/// A call to the system's shortcut registry, with its answer.
pub enum RegistrarCall {
    Register(ShortcutView, Result<(), Seq<char>>),
    Unregister(ShortcutView, Result<(), Seq<char>>),
}

/// The registration surface required by global-hotkey input.
///
/// Keeping this small makes the physical mapping testable without an event
/// loop and without machine-global shortcuts.
pub trait HotkeyRegistrar {
    /// The calls made of the registry so far, oldest first, each with its
    /// answer. It is ghost: a registry that is not itself verified has nothing
    /// to define.
    open spec fn made(&self) -> Seq<RegistrarCall> {
        arbitrary()
    }

    /// Claims a shortcut.
    fn register(&mut self, shortcut: Shortcut) -> (answer: Result<(), String>)
        ensures
            final(self).made() == old(self).made().push(
                RegistrarCall::Register(shortcut@, plain_answer(answer)),
            ),
    ;

    /// Gives a shortcut up.
    fn unregister(&mut self, shortcut: Shortcut) -> (answer: Result<(), String>)
        ensures
            final(self).made() == old(self).made().push(
                RegistrarCall::Unregister(shortcut@, plain_answer(answer)),
            ),
    ;
}

/// A shortcut to claim, and the source that asks for it.
#[derive(Clone, Copy, Debug)]
pub struct Registration {
    pub source: &'static str,
    pub binding: InputBinding,
}

#[verifier::ext_equal]
pub struct RegistrationView {
    pub source: Seq<char>,
    pub binding: InputBindingView,
}

impl View for Registration {
    type V = RegistrationView;

    open spec fn view(&self) -> RegistrationView {
        RegistrationView { source: self.source@, binding: self.binding@ }
    }
}

/// The views of a sequence of registrations.
pub open spec fn registration_views(registrations: Seq<Registration>) -> Seq<RegistrationView> {
    registrations.map_values(|registration: Registration| registration@)
}

/// The first registration before `bound` that claims a shortcut.
pub open spec fn claimed_before(
    registrations: Seq<RegistrationView>,
    shortcut: ShortcutView,
    bound: int,
) -> Option<int>
    decreases bound,
{
    if bound <= 0 {
        None
    } else {
        match claimed_before(registrations, shortcut, bound - 1) {
            Some(index) => Some(index),
            None => if registrations[bound - 1].binding.shortcut == shortcut {
                Some(bound - 1)
            } else {
                None
            },
        }
    }
}

/// The first registration from `start` on whose shortcut was claimed before,
/// with the registration that claimed it.
pub open spec fn collision_from(registrations: Seq<RegistrationView>, start: int) -> Option<
    (int, int),
>
    decreases registrations.len() - start,
{
    if start >= registrations.len() {
        None
    } else {
        match claimed_before(registrations, registrations[start].binding.shortcut, start) {
            Some(owner) => Some((owner, start)),
            None => collision_from(registrations, start + 1),
        }
    }
}

/// The text that names both sources of a shortcut and both logical keys.
pub open spec fn collision_message(owner: RegistrationView, other: RegistrationView) -> Seq<char> {
    "shortcut "@ + other.binding.description + " is claimed by both "@ + owner.source + " ("@
        + owner.binding.key + ") and "@ + other.source + " ("@ + other.binding.key + ")"@
}

/// The text that names a shortcut that the system refused.
pub open spec fn refusal_message(binding: InputBindingView, cause: Seq<char>) -> Seq<char> {
    "register "@ + binding.description + "; another application may already own it: "@ + cause
}

/// The log of claims that all succeeded.
pub open spec fn claims(registrations: Seq<RegistrationView>) -> Seq<RegistrarCall> {
    registrations.map_values(
        |registration: RegistrationView|
            RegistrarCall::Register(registration.binding.shortcut, Ok(())),
    )
}

/// Whether `log` gives up the shortcuts, in order.
pub open spec fn gives_up(log: Seq<RegistrarCall>, registrations: Seq<RegistrationView>) -> bool {
    &&& log.len() == registrations.len()
    &&& forall|i: int|
        0 <= i < log.len() ==> (#[trigger] log[i]) is Unregister && log[i]->Unregister_0
            == registrations[i].binding.shortcut
}

/// The logical keys by the identifiers of their shortcuts.
pub open spec fn key_map(registrations: Seq<RegistrationView>) -> Map<u32, InputBindingView>
    decreases registrations.len(),
{
    if registrations.len() == 0 {
        Map::empty()
    } else {
        key_map(registrations.drop_last()).insert(
            registrations.last().binding.shortcut.id(),
            registrations.last().binding,
        )
    }
}

/// The claims up to the one at `index` were made. That one was refused for
/// `cause`, and the earlier shortcuts were given up.
pub open spec fn rolled_back(
    before: Seq<RegistrarCall>,
    after: Seq<RegistrarCall>,
    registrations: Seq<RegistrationView>,
    index: int,
    cause: Seq<char>,
) -> bool {
    &&& 0 <= index < registrations.len()
    &&& after.len() == before.len() + 2 * index + 1
    &&& after.take(before.len() + index + 1) == before + claims(registrations.take(index)).push(
        RegistrarCall::Register(registrations[index].binding.shortcut, Err(cause)),
    )
    &&& gives_up(after.skip(before.len() + index + 1), registrations.take(index))
}

/// All shortcuts are claimed, or none is kept. A shortcut that is asked for
/// twice is refused before any is claimed.
pub open spec fn register_run(
    before: Seq<RegistrarCall>,
    after: Seq<RegistrarCall>,
    registrations: Seq<RegistrationView>,
    result: Result<Map<u32, InputBindingView>, Seq<char>>,
) -> bool {
    match collision_from(registrations, 0) {
        Some((owner, other)) => {
            &&& after == before
            &&& result == Err::<Map<u32, InputBindingView>, Seq<char>>(
                collision_message(registrations[owner], registrations[other]),
            )
        },
        None => match result {
            Ok(map) => after == before + claims(registrations) && map == key_map(registrations),
            Err(message) => exists|index: int, cause: Seq<char>| #[trigger]
                rolled_back(before, after, registrations, index, cause) && message
                    == refusal_message(registrations[index].binding, cause),
        },
    }
}

/// Whether a shortcut is held down or let go.
#[derive(Clone, Copy, Debug, PartialEq, Eq, Structural)]
pub enum HotkeyState {
    Pressed,
    Released,
}

/// What the system reports of a shortcut.
#[derive(Clone, Copy, Debug, PartialEq, Eq, Structural)]
pub struct HotkeyEvent {
    pub id: u32,
    pub state: HotkeyState,
}

/// Registered input, able to resolve system events to logical keys.
#[derive(Debug)]
pub struct RegisteredInput {
    bindings: BTreeMap<u32, InputBinding>,
}

impl View for RegisteredInput {
    type V = Map<u32, InputBindingView>;

    closed spec fn view(&self) -> Map<u32, InputBindingView> {
        self.bindings@.map_values(|binding: InputBinding| binding@)
    }
}

/// The binding that an event activates: that of a press of a registered
/// shortcut.
pub open spec fn activated(map: Map<u32, InputBindingView>, event: HotkeyEvent) -> Option<
    InputBindingView,
> {
    if event.state is Pressed && map.contains_key(event.id) {
        Some(map[event.id])
    } else {
        None
    }
}

impl RegisteredInput {
    /// The binding for a press of a registered shortcut, and for nothing else.
    pub fn pressed(&self, event: &HotkeyEvent) -> (binding: Option<InputBinding>)
        ensures
            match binding {
                Some(binding) => activated(self@, *event) == Some(binding@),
                None => activated(self@, *event) is None,
            },
    {
        match event.state {
            HotkeyState::Pressed => match self.bindings.get(&event.id) {
                Some(binding) => Some(*binding),
                None => None,
            },
            HotkeyState::Released => None,
        }
    }
}

/// The view of registered input or of the reason why there is none.
pub open spec fn registered_result(result: Result<RegisteredInput, String>) -> Result<
    Map<u32, InputBindingView>,
    Seq<char>,
> {
    match result {
        Ok(input) => Ok(input@),
        Err(message) => Err(message@),
    }
}

fn owner_of(registrations: &Vec<Registration>, index: usize) -> (owner: Option<usize>)
    requires
        index < registrations.len(),
    ensures
        ({
            let all = registration_views(registrations@);
            let found = claimed_before(all, all[index as int].binding.shortcut, index as int);
            match owner {
                Some(owner) => found == Some(owner as int) && owner < index,
                None => found is None,
            }
        }),
{
    let ghost all = registration_views(registrations@);
    let ghost shortcut = all[index as int].binding.shortcut;
    for i in 0..index
        invariant
            index < registrations.len(),
            all == registration_views(registrations@),
            shortcut == all[index as int].binding.shortcut,
            claimed_before(all, shortcut, i as int) is None,
    {
        if registrations[i].binding.shortcut == registrations[index].binding.shortcut {
            proof {
                assert(claimed_before(all, shortcut, i + 1) == Some(i as int));
                lemma_claimed_stays(all, shortcut, i + 1, index as int);
            }
            return Some(i);
        }
    }
    None
}

proof fn lemma_claimed_stays(
    registrations: Seq<RegistrationView>,
    shortcut: ShortcutView,
    bound: int,
    later: int,
)
    requires
        bound <= later,
        claimed_before(registrations, shortcut, bound) is Some,
    ensures
        claimed_before(registrations, shortcut, later) == claimed_before(
            registrations,
            shortcut,
            bound,
        ),
    decreases later - bound,
{
    if bound < later {
        lemma_claimed_stays(registrations, shortcut, bound, later - 1);
    }
}

fn refuse_collisions(registrations: &Vec<Registration>) -> (result: Result<(), String>)
    ensures
        ({
            let all = registration_views(registrations@);
            match result {
                Ok(()) => collision_from(all, 0) is None,
                Err(message) => match collision_from(all, 0) {
                    Some((owner, other)) => message@ == collision_message(all[owner], all[other]),
                    None => false,
                },
            }
        }),
{
    let ghost all = registration_views(registrations@);
    for i in 0..registrations.len()
        invariant
            all == registration_views(registrations@),
            collision_from(all, 0) == collision_from(all, i as int),
    {
        if let Some(owner) = owner_of(registrations, i) {
            let owner = registrations[owner];
            let other = registrations[i];
            return Err(
                "shortcut ".to_owned().concat(other.binding.description).concat(
                    " is claimed by both ",
                ).concat(owner.source).concat(" (").concat(owner.binding.key).concat(
                    ") and ",
                ).concat(other.source).concat(" (").concat(other.binding.key).concat(")"),
            );
        }
    }
    Ok(())
}

fn give_up<R: HotkeyRegistrar>(
    registrar: &mut R,
    registrations: &Vec<Registration>,
    count: usize,
)
    requires
        count <= registrations.len(),
    ensures
        final(registrar).made().len() == old(registrar).made().len() + count,
        final(registrar).made().take(old(registrar).made().len() as int)
            == old(registrar).made(),
        gives_up(
            final(registrar).made().skip(old(registrar).made().len() as int),
            registration_views(registrations@).take(count as int),
        ),
{
    let ghost before = registrar.made();
    let ghost all = registration_views(registrations@);
    assert(before.take(before.len() as int) =~= before);
    for i in 0..count
        invariant
            count <= registrations.len(),
            all == registration_views(registrations@),
            registrar.made().len() == before.len() + i,
            registrar.made().take(before.len() as int) == before,
            gives_up(registrar.made().skip(before.len() as int), all.take(i as int)),
    {
        let ghost log = registrar.made();
        let _ = registrar.unregister(registrations[i].binding.shortcut);
        proof {
            let now = registrar.made();
            assert(now.take(before.len() as int) =~= log.take(before.len() as int));
            assert(now.skip(before.len() as int) =~= log.skip(before.len() as int).push(
                now.last(),
            ));
            assert forall|j: int| 0 <= j < i + 1 implies (
            #[trigger] now.skip(before.len() as int)[j]) is Unregister && now.skip(
                before.len() as int,
            )[j]->Unregister_0 == all.take(i + 1)[j].binding.shortcut by {
                if j < i {
                    assert(log.skip(before.len() as int)[j] is Unregister);
                    assert(all.take(i as int)[j] == all.take(i + 1)[j]);
                }
            }
        }
    }
}

/// Claims every shortcut as one set.
pub fn register_all<R: HotkeyRegistrar>(
    registrations: &Vec<Registration>,
    registrar: &mut R,
) -> (result: Result<RegisteredInput, String>)
    ensures
        register_run(
            old(registrar).made(),
            final(registrar).made(),
            registration_views(registrations@),
            registered_result(result),
        ),
{
    let ghost before = registrar.made();
    let ghost all = registration_views(registrations@);
    if let Err(message) = refuse_collisions(registrations) {
        return Err(message);
    }
    let mut bindings: BTreeMap<u32, InputBinding> = BTreeMap::new();
    proof {
        assert(before + claims(all.take(0)) =~= before);
        assert(bindings@.map_values(|binding: InputBinding| binding@) =~= key_map(all.take(0)));
    }
    for i in 0..registrations.len()
        invariant
            all == registration_views(registrations@),
            collision_from(all, 0) is None,
            before == old(registrar).made(),
            registrar.made() == before + claims(all.take(i as int)),
            bindings@.map_values(|binding: InputBinding| binding@) == key_map(
                all.take(i as int),
            ),
    {
        let binding = registrations[i].binding;
        assert(all[i as int].binding == binding@);
        let ghost known = bindings@;
        proof {
            assert(all.take(i + 1).drop_last() =~= all.take(i as int));
            assert(all.take(i + 1).last() == all[i as int]);
        }
        if let Err(cause) = registrar.register(binding.shortcut) {
            let ghost refused = registrar.made();
            give_up(registrar, registrations, i);
            proof {
                let after = registrar.made();
                let length = before.len() + i + 1;
                assert(refused.len() == length);
                assert(refused =~= before + claims(all.take(i as int)).push(
                    RegistrarCall::Register(binding.shortcut@, Err(cause@)),
                ));
                assert(rolled_back(before, after, all, i as int, cause@));
            }
            return Err(
                "register ".to_owned().concat(binding.description).concat(
                    "; another application may already own it: ",
                ).concat(cause.as_str()),
            );
        }
        bindings.insert(binding.shortcut.id(), binding);
        proof {
            assert(before + claims(all.take(i + 1)) =~= (before + claims(all.take(i as int))).push(
                RegistrarCall::Register(binding.shortcut@, Ok(())),
            ));
            assert(bindings@.map_values(|binding: InputBinding| binding@) =~= known.map_values(
                |binding: InputBinding| binding@,
            ).insert(binding.shortcut@.id(), binding@));
        }
    }
    assert(all.take(registrations.len() as int) =~= all);
    Ok(RegisteredInput { bindings })
}

/// The registrations that an adapter asks for.
pub open spec fn asked_by(source: Seq<char>, table: Seq<InputBindingView>) -> Seq<
    RegistrationView,
> {
    table.map_values(|binding: InputBindingView| RegistrationView { source, binding })
}

fn append_adapter<A: InputAdapter>(registrations: &mut Vec<Registration>, adapter: &A)
    ensures
        registration_views(final(registrations)@) == registration_views(old(registrations)@)
            + asked_by(adapter.source(), adapter.table()),
{
    let source = adapter.source_id();
    let bindings = adapter.bindings();
    let ghost start = registration_views(registrations@);
    let ghost asked = asked_by(adapter.source(), adapter.table());
    assert(start + asked.take(0) =~= start);
    for i in 0..bindings.len()
        invariant
            source@ == adapter.source(),
            input_views(bindings@) == adapter.table(),
            asked == asked_by(adapter.source(), adapter.table()),
            registration_views(registrations@) == start + asked.take(i as int),
    {
        let ghost before = registrations@;
        let registration = Registration { source, binding: bindings[i] };
        registrations.push(registration);
        proof {
            assert(adapter.table()[i as int] == bindings@[i as int]@);
            assert(registration_views(registrations@) =~= registration_views(before).push(
                registration@,
            ));
            assert(registration_views(registrations@) =~= start + asked.take(i + 1));
        }
    }
    assert(asked.take(bindings.len() as int) =~= asked);
}

/// Claims the shortcuts of one adapter.
pub fn register_adapter<A: InputAdapter, R: HotkeyRegistrar>(
    adapter: &A,
    registrar: &mut R,
) -> (result: Result<RegisteredInput, String>)
    ensures
        register_run(
            old(registrar).made(),
            final(registrar).made(),
            asked_by(adapter.source(), adapter.table()),
            registered_result(result),
        ),
{
    let mut registrations: Vec<Registration> = Vec::new();
    append_adapter(&mut registrations, adapter);
    assert(registration_views(registrations@) =~= asked_by(adapter.source(), adapter.table()));
    register_all(&registrations, registrar)
}

/// The registrations that a profile asks for.
pub open spec fn asked_by_profile(profile: InputProfile) -> Seq<RegistrationView> {
    match profile {
        InputProfile::Glove80 => asked_by("glove80"@, glove80_table()),
        InputProfile::MacbookFunctionKeys => asked_by("macbook-function-keys"@, macbook_table()),
    }
}

/// The registrations that the enabled profiles ask for, in order.
pub open spec fn asked_by_profiles(profiles: Seq<InputProfile>) -> Seq<RegistrationView>
    decreases profiles.len(),
{
    if profiles.len() == 0 {
        Seq::empty()
    } else {
        asked_by_profiles(profiles.drop_last()) + asked_by_profile(profiles.last())
    }
}

/// Claims the shortcuts of the enabled profiles as one set.
pub fn register_input<R: HotkeyRegistrar>(
    profiles: &Vec<InputProfile>,
    registrar: &mut R,
) -> (result: Result<RegisteredInput, String>)
    ensures
        register_run(
            old(registrar).made(),
            final(registrar).made(),
            asked_by_profiles(profiles@),
            registered_result(result),
        ),
{
    let mut registrations: Vec<Registration> = Vec::new();
    assert(registration_views(registrations@) =~= asked_by_profiles(profiles@.take(0)));
    for i in 0..profiles.len()
        invariant
            registration_views(registrations@) == asked_by_profiles(profiles@.take(i as int)),
    {
        proof {
            assert(profiles@.take(i + 1).drop_last() =~= profiles@.take(i as int));
            assert(profiles@.take(i + 1).last() == profiles@[i as int]);
        }
        match profiles[i] {
            InputProfile::Glove80 => append_adapter(&mut registrations, &Glove80HotkeyInput),
            InputProfile::MacbookFunctionKeys => append_adapter(
                &mut registrations,
                &MacbookFunctionKeyInput,
            ),
        }
    }
    assert(profiles@.take(profiles.len() as int) =~= profiles@);
    register_all(&registrations, registrar)
}

// ---------------------------------------------------------------------------
// Laws
// ---------------------------------------------------------------------------

proof fn lemma_claimed(registrations: Seq<RegistrationView>, shortcut: ShortcutView, bound: int)
    requires
        bound <= registrations.len(),
    ensures
        claimed_before(registrations, shortcut, bound) is None <==> (forall|i: int|
            0 <= i < bound ==> (#[trigger] registrations[i]).binding.shortcut != shortcut),
    decreases bound,
{
    if bound > 0 {
        lemma_claimed(registrations, shortcut, bound - 1);
        if claimed_before(registrations, shortcut, bound) is None {
            assert forall|i: int| 0 <= i < bound implies (
            #[trigger] registrations[i]).binding.shortcut != shortcut by {
                if i < bound - 1 {
                    assert(claimed_before(registrations, shortcut, bound - 1) is None);
                }
            }
        } else if claimed_before(registrations, shortcut, bound - 1) is None {
            assert(registrations[bound - 1].binding.shortcut == shortcut);
        } else {
            let i = choose|i: int|
                0 <= i < bound - 1 && (#[trigger] registrations[i]).binding.shortcut == shortcut;
            assert(registrations[i].binding.shortcut == shortcut);
        }
    }
}

/// No shortcut is asked for twice.
pub open spec fn shortcuts_differ(registrations: Seq<RegistrationView>) -> bool {
    forall|i: int, j: int|
        0 <= i < j < registrations.len() ==> (#[trigger] registrations[i]).binding.shortcut != (
        #[trigger] registrations[j]).binding.shortcut
}

proof fn lemma_collision(registrations: Seq<RegistrationView>, start: int)
    requires
        0 <= start <= registrations.len(),
    ensures
        collision_from(registrations, start) is None <==> (forall|i: int, j: int|
            0 <= i < j < registrations.len() && start <= j ==> (
            #[trigger] registrations[i]).binding.shortcut != (
            #[trigger] registrations[j]).binding.shortcut),
    decreases registrations.len() - start,
{
    if start < registrations.len() {
        lemma_collision(registrations, start + 1);
        lemma_claimed(registrations, registrations[start].binding.shortcut, start);
    }
}

/// The registrations are refused without a claim exactly when a shortcut is
/// asked for twice.
pub proof fn law_collisions_are_refused(registrations: Seq<RegistrationView>)
    ensures
        collision_from(registrations, 0) is None <==> shortcuts_differ(registrations),
{
    lemma_collision(registrations, 0);
}

/// The system reports no two of the shortcuts under one identifier.
pub open spec fn ids_differ(registrations: Seq<RegistrationView>) -> bool {
    forall|i: int, j: int|
        0 <= i < j < registrations.len() ==> (#[trigger] registrations[i]).binding.shortcut.id()
            != (#[trigger] registrations[j]).binding.shortcut.id()
}

proof fn lemma_key_map(registrations: Seq<RegistrationView>)
    requires
        ids_differ(registrations),
    ensures
        forall|i: int|
            0 <= i < registrations.len() ==> key_map(registrations).contains_key(
                (#[trigger] registrations[i]).binding.shortcut.id(),
            ) && key_map(registrations)[registrations[i].binding.shortcut.id()]
                == registrations[i].binding,
        forall|id: u32| #[trigger]
            key_map(registrations).contains_key(id) ==> exists|i: int|
                0 <= i < registrations.len() && (
                #[trigger] registrations[i]).binding.shortcut.id() == id,
    decreases registrations.len(),
{
    if registrations.len() > 0 {
        let earlier = registrations.drop_last();
        let last = registrations.len() - 1;
        assert forall|i: int, j: int| 0 <= i < j < earlier.len() implies (
        #[trigger] earlier[i]).binding.shortcut.id() != (
        #[trigger] earlier[j]).binding.shortcut.id() by {
            assert(earlier[i] == registrations[i] && earlier[j] == registrations[j]);
        }
        lemma_key_map(earlier);
        assert forall|i: int| 0 <= i < registrations.len() implies key_map(
            registrations,
        ).contains_key((#[trigger] registrations[i]).binding.shortcut.id()) && key_map(
            registrations,
        )[registrations[i].binding.shortcut.id()] == registrations[i].binding by {
            if i < last {
                assert(earlier[i] == registrations[i]);
                assert(registrations[i].binding.shortcut.id()
                    != registrations[last].binding.shortcut.id());
            }
        }
        assert forall|id: u32| #[trigger]
            key_map(registrations).contains_key(id) implies exists|i: int|
            0 <= i < registrations.len() && (#[trigger] registrations[i]).binding.shortcut.id()
                == id by {
            if id == registrations[last].binding.shortcut.id() {
            } else {
                assert(key_map(earlier).contains_key(id));
                let i = choose|i: int|
                    0 <= i < earlier.len() && (#[trigger] earlier[i]).binding.shortcut.id() == id;
                assert(earlier[i] == registrations[i]);
            }
        }
    }
}

/// A press of a registered shortcut activates the key that it was registered
/// for; a release, and a press of anything else, activates nothing. The system
/// must report no two of the shortcuts under one identifier.
pub proof fn law_registered_shortcuts_activate_their_keys(
    before: Seq<RegistrarCall>,
    after: Seq<RegistrarCall>,
    registrations: Seq<RegistrationView>,
    map: Map<u32, InputBindingView>,
    event: HotkeyEvent,
)
    requires
        ids_differ(registrations),
        register_run(before, after, registrations, Ok(map)),
    ensures
        event.state is Pressed ==> forall|i: int|
            0 <= i < registrations.len() && event.id == (
            #[trigger] registrations[i]).binding.shortcut.id() ==> activated(map, event) == Some(
                registrations[i].binding,
            ),
        activated(map, event) is Some ==> event.state is Pressed && exists|i: int|
            0 <= i < registrations.len() && event.id == (
            #[trigger] registrations[i]).binding.shortcut.id(),
{
    lemma_key_map(registrations);
    lemma_ids_tell_shortcuts_apart(registrations);
    law_collisions_are_refused(registrations);
}

proof fn lemma_ids_tell_shortcuts_apart(registrations: Seq<RegistrationView>)
    requires
        ids_differ(registrations),
    ensures
        shortcuts_differ(registrations),
{
    assert forall|i: int, j: int| 0 <= i < j < registrations.len() implies (
    #[trigger] registrations[i]).binding.shortcut != (
    #[trigger] registrations[j]).binding.shortcut by {
        assert(registrations[i].binding.shortcut.id() != registrations[j].binding.shortcut.id());
    }
}

/// Where registration fails, every shortcut that was claimed is given up
/// again.
pub proof fn law_failed_registration_keeps_nothing(
    before: Seq<RegistrarCall>,
    after: Seq<RegistrarCall>,
    registrations: Seq<RegistrationView>,
    message: Seq<char>,
    claimed: int,
    shortcut: ShortcutView,
)
    requires
        register_run(before, after, registrations, Err(message)),
        before.len() <= claimed < after.len(),
        after[claimed] == RegistrarCall::Register(shortcut, Ok(())),
    ensures
        exists|given_up: int|
            claimed < given_up < after.len() && (#[trigger] after[given_up]) is Unregister
                && after[given_up]->Unregister_0 == shortcut,
{
    let (index, cause) = choose|index: int, cause: Seq<char>| #[trigger]
        rolled_back(before, after, registrations, index, cause) && message == refusal_message(
            registrations[index].binding,
            cause,
        );
    let split = before.len() + index + 1;
    let log = after.skip(split);
    let attempts = before + claims(registrations.take(index)).push(
        RegistrarCall::Register(registrations[index].binding.shortcut, Err(cause)),
    );
    let position = claimed - before.len();
    if claimed >= split {
        assert(after[claimed] == log[claimed - split]);
        assert(false);
    }
    assert(after.take(split)[claimed] == after[claimed]);
    assert(attempts[claimed] == after[claimed]);
    assert(position < index);
    assert(registrations.take(index)[position] == registrations[position]);
    assert(shortcut == registrations[position].binding.shortcut);
    assert(log[position] is Unregister);
    assert(after[split + position] == log[position]);
}

/// The identifiers of a function key, alone and with Shift.
proof fn lemma_function_key_id(code: Seq<char>)
    requires
        function_key_of(code) is Some,
    ensures
        (ShortcutView { modifiers: 0, code }).id() == 159 + function_key_of(code)->0,
        (ShortcutView { modifiers: SHIFT, code }).id() == 0x200_0000 + 159 + function_key_of(
            code,
        )->0,
{
    let number = (159 + function_key_of(code)->0) as u32;
    assert(number < 0x1_0000);
    assert(!(0u32 & SUPER == SUPER)) by (bit_vector);
    assert(!(SHIFT & SUPER == SUPER)) by (bit_vector);
    assert((0u32 << 16u32) | number == number) by (bit_vector);
    assert((SHIFT << 16u32) | number == 0x200_0000u32 + number) by (bit_vector)
        requires
            number < 0x1_0000u32,
    ;
}

/// The identifiers of the shortcuts of the profiles.
proof fn lemma_profile_registrations()
    ensures
        asked_by_profile(InputProfile::Glove80).len() == 10,
        forall|i: int|
            0 <= i < 10 ==> (#[trigger] asked_by_profile(
                InputProfile::Glove80,
            )[i]).binding.shortcut.id() == if i < 5 {
                175 + i
            } else {
                0x200_0000 + 170 + i
            },
        asked_by_profile(InputProfile::MacbookFunctionKeys).len() == 10,
        forall|i: int|
            0 <= i < 10 ==> (#[trigger] asked_by_profile(
                InputProfile::MacbookFunctionKeys,
            )[i]).binding.shortcut.id() == 160 + i,
{
    lemma_function_keys();
    lemma_function_key_id("F1"@);
    lemma_function_key_id("F2"@);
    lemma_function_key_id("F3"@);
    lemma_function_key_id("F4"@);
    lemma_function_key_id("F5"@);
    lemma_function_key_id("F6"@);
    lemma_function_key_id("F7"@);
    lemma_function_key_id("F8"@);
    lemma_function_key_id("F9"@);
    lemma_function_key_id("F10"@);
    lemma_function_key_id("F16"@);
    lemma_function_key_id("F17"@);
    lemma_function_key_id("F18"@);
    lemma_function_key_id("F19"@);
    lemma_function_key_id("F20"@);
}

/// Any enabled profiles can be registered together: none of their shortcuts
/// collide, and the system reports them under different identifiers.
pub proof fn law_enabled_profiles_can_be_registered(input: InputView, profiles: Seq<InputProfile>)
    requires
        enabled(input) == Ok::<Seq<InputProfile>, InputError>(profiles),
    ensures
        collision_from(asked_by_profiles(profiles), 0) is None,
        ids_differ(asked_by_profiles(profiles)),
{
    law_enabled_profiles_differ(input, profiles);
    lemma_profile_registrations();
    if profiles.len() >= 3 {
        assert(profiles[0] != profiles[1] && profiles[0] != profiles[2] && profiles[1]
            != profiles[2]);
        assert(false);
    }
    let all = asked_by_profiles(profiles);
    reveal_with_fuel(asked_by_profiles, 3);
    if profiles.len() == 0 {
        assert(ids_differ(all));
    } else if profiles.len() == 1 {
        assert(all =~= asked_by_profile(profiles[0]));
        assert(ids_differ(all));
    } else {
        assert(profiles[0] != profiles[1]);
        let first = asked_by_profile(profiles[0]);
        let second = asked_by_profile(profiles[1]);
        assert(all =~= first + second);
        assert forall|i: int, j: int| 0 <= i < j < all.len() implies (
        #[trigger] all[i]).binding.shortcut.id() != (#[trigger] all[j]).binding.shortcut.id() by {
            assert(all[i] == if i < 10 {
                first[i]
            } else {
                second[i - 10]
            });
            assert(all[j] == if j < 10 {
                first[j]
            } else {
                second[j - 10]
            });
        }
    }
    lemma_ids_tell_shortcuts_apart(all);
    law_collisions_are_refused(all);
}

/// The Glove80's layer gives the ten logical keys F16 through F20, and then the
/// same with Shift. The MacBook's row gives them F1 through F10. A shortcut is
/// described by what it is.
pub proof fn law_profile_shortcuts(n: int)
    requires
        0 <= n < 10,
    ensures
        glove80_table().len() == 10,
        macbook_table().len() == 10,
        ({
            let entry = glove80_table()[n];
            let code = entry.shortcut.code;
            &&& entry.key == key_ids()[n]
            &&& function_key_of(code) == Some(16 + n % 5)
            &&& entry.shortcut.modifiers == if n < 5 {
                0u32
            } else {
                0x200
            }
            &&& entry.description == if n < 5 {
                code
            } else {
                "Shift+"@ + code
            }
        }),
        ({
            let entry = macbook_table()[n];
            &&& entry.key == key_ids()[n]
            &&& function_key_of(entry.shortcut.code) == Some(1 + n)
            &&& entry.shortcut.modifiers == 0
            &&& entry.description == entry.shortcut.code
        }),
{
    lemma_function_keys();
    reveal_strlit("Shift+");
    reveal_strlit("F16");
    reveal_strlit("Shift+F16");
    assert("Shift+F16"@ =~= "Shift+"@ + "F16"@);
    reveal_strlit("F17");
    reveal_strlit("Shift+F17");
    assert("Shift+F17"@ =~= "Shift+"@ + "F17"@);
    reveal_strlit("F18");
    reveal_strlit("Shift+F18");
    assert("Shift+F18"@ =~= "Shift+"@ + "F18"@);
    reveal_strlit("F19");
    reveal_strlit("Shift+F19");
    assert("Shift+F19"@ =~= "Shift+"@ + "F19"@);
    reveal_strlit("F20");
    reveal_strlit("Shift+F20");
    assert("Shift+F20"@ =~= "Shift+"@ + "F20"@);
}

/// A registration that succeeds has claimed every shortcut once, in order, and
/// done nothing else; one for which a shortcut is asked for twice has not asked
/// the system at all.
pub proof fn law_registration_claims_every_shortcut(
    before: Seq<RegistrarCall>,
    after: Seq<RegistrarCall>,
    registrations: Seq<RegistrationView>,
    result: Result<Map<u32, InputBindingView>, Seq<char>>,
)
    requires
        register_run(before, after, registrations, result),
    ensures
        result is Ok ==> {
            &&& after.len() == before.len() + registrations.len()
            &&& after.take(before.len() as int) == before
            &&& forall|i: int|
                0 <= i < registrations.len() ==> {
                    let call = after[before.len() + i];
                    &&& call is Register
                    &&& call->Register_0 == (#[trigger] registrations[i]).binding.shortcut
                    &&& call->Register_1 is Ok
                }
        },
        (exists|i: int, j: int|
            0 <= i < j < registrations.len() && (#[trigger] registrations[i]).binding.shortcut == (
            #[trigger] registrations[j]).binding.shortcut) ==> result is Err && after == before,
{
    law_collisions_are_refused(registrations);
    if result is Ok {
        assert(after.take(before.len() as int) =~= before);
    }
}

} // verus!
