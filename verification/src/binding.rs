//! The binding ledger: which logical key stands for which Herdr pane.
//!
//! The ledger, not Herdr metadata, is authoritative, because Herdr tokens are
//! intentionally not restart-durable. This module decides what the ledger
//! holds; storage and Herdr itself are reached through [`BindingStore`] and
//! [`PaneDirectory`].

use vstd::prelude::*;

use crate::name_map::NameMap;
use crate::text::{option_str_view, option_view, same_text};

verus! {

/// The ten logical keys, in assignment order.
pub const KEY_IDS: [&'static str; 10] = [
    "f1",
    "f2",
    "f3",
    "f4",
    "f5",
    "f6",
    "f7",
    "f8",
    "f9",
    "f10",
];

/// The version of the ledger format.
pub const STATE_VERSION: u32 = 1;

/// The texts of [`KEY_IDS`].
pub open spec fn key_ids() -> Seq<Seq<char>> {
    seq!["f1"@, "f2"@, "f3"@, "f4"@, "f5"@, "f6"@, "f7"@, "f8"@, "f9"@, "f10"@]
}

/// Whether `key` is one of the ten logical keys.
pub open spec fn is_key(key: Seq<char>) -> bool {
    key_ids().contains(key)
}

/// One ledger entry: a key and the pane that it focuses.
#[derive(Debug, PartialEq, Eq)]
pub struct Binding {
    pub key: String,
    pub pane_id: String,
}

#[verifier::ext_equal]
pub struct BindingView {
    pub key: Seq<char>,
    pub pane_id: Seq<char>,
}

impl View for Binding {
    type V = BindingView;

    open spec fn view(&self) -> BindingView {
        BindingView { key: self.key@, pane_id: self.pane_id@ }
    }
}

impl Clone for Binding {
    fn clone(&self) -> (copy: Self)
        ensures
            copy@ == self@,
    {
        Binding { key: self.key.clone(), pane_id: self.pane_id.clone() }
    }
}

/// The views of a sequence of bindings.
pub open spec fn binding_views(bindings: Seq<Binding>) -> Seq<BindingView> {
    bindings.map_values(|binding: Binding| binding@)
}

/// The whole ledger.
#[derive(Debug)]
pub struct BindingState {
    pub state_version: u32,
    pub bindings: Vec<Binding>,
}

#[verifier::ext_equal]
pub struct StateView {
    pub state_version: u32,
    pub bindings: Seq<BindingView>,
}

impl View for BindingState {
    type V = StateView;

    open spec fn view(&self) -> StateView {
        StateView {
            state_version: self.state_version,
            bindings: binding_views(self.bindings@),
        }
    }
}

impl Default for BindingState {
    /// A ledger without bindings, of no version yet.
    fn default() -> (state: Self)
        ensures
            state@ == (StateView { state_version: 0, bindings: Seq::empty() }),
    {
        let state = BindingState { state_version: 0, bindings: Vec::new() };
        assert(state@.bindings =~= Seq::empty());
        state
    }
}

impl Clone for BindingState {
    fn clone(&self) -> (copy: Self)
        ensures
            copy@ == self@,
    {
        let mut bindings: Vec<Binding> = Vec::new();
        for i in 0..self.bindings.len()
            invariant
                bindings.len() == i,
                forall|j: int| 0 <= j < i ==> (#[trigger] bindings@[j])@ == self.bindings@[j]@,
        {
            bindings.push(self.bindings[i].clone());
        }
        assert(binding_views(bindings@) =~= binding_views(self.bindings@));
        BindingState { state_version: self.state_version, bindings }
    }
}

/// What Herdr reports of one pane.
#[derive(Debug, PartialEq, Eq)]
pub struct Pane {
    pub pane_id: String,
    pub revision: u64,
    pub agent_status: String,
    pub agent: Option<String>,
    pub label: Option<String>,
    pub cwd: Option<String>,
    pub terminal_title: Option<String>,
    pub terminal_title_stripped: Option<String>,
    pub focused: bool,
    pub tokens: NameMap<String>,
}

#[verifier::ext_equal]
pub struct PaneView {
    pub pane_id: Seq<char>,
    pub revision: u64,
    pub agent_status: Seq<char>,
    pub agent: Option<Seq<char>>,
    pub label: Option<Seq<char>>,
    pub cwd: Option<Seq<char>>,
    pub terminal_title: Option<Seq<char>>,
    pub terminal_title_stripped: Option<Seq<char>>,
    pub focused: bool,
    pub tokens: Map<Seq<char>, Seq<char>>,
}

impl PaneView {
    /// The key named by the pane's visible `fkey` token.
    pub open spec fn fkey(self) -> Option<Seq<char>> {
        if self.tokens.contains_key("fkey"@) {
            Some(self.tokens["fkey"@])
        } else {
            None
        }
    }
}

impl View for Pane {
    type V = PaneView;

    open spec fn view(&self) -> PaneView {
        PaneView {
            pane_id: self.pane_id@,
            revision: self.revision,
            agent_status: self.agent_status@,
            agent: option_view(self.agent),
            label: option_view(self.label),
            cwd: option_view(self.cwd),
            terminal_title: option_view(self.terminal_title),
            terminal_title_stripped: option_view(self.terminal_title_stripped),
            focused: self.focused,
            tokens: self.tokens@.map_values(|value: String| value@),
        }
    }
}

fn copy_option(text: &Option<String>) -> (copy: Option<String>)
    ensures
        option_view(copy) == option_view(*text),
{
    match text {
        Some(text) => Some(text.clone()),
        None => None,
    }
}

impl Clone for Pane {
    fn clone(&self) -> (copy: Self)
        ensures
            copy@ == self@,
    {
        Pane {
            pane_id: self.pane_id.clone(),
            revision: self.revision,
            agent_status: self.agent_status.clone(),
            agent: copy_option(&self.agent),
            label: copy_option(&self.label),
            cwd: copy_option(&self.cwd),
            terminal_title: copy_option(&self.terminal_title),
            terminal_title_stripped: copy_option(&self.terminal_title_stripped),
            focused: self.focused,
            tokens: self.tokens.clone(),
        }
    }
}

impl Pane {
    /// The key named by the pane's visible `fkey` token.
    pub fn fkey(&self) -> (key: Option<&str>)
        ensures
            option_str_view(key) == self@.fkey(),
    {
        match self.tokens.get("fkey") {
            Some(value) => Some(value.as_str()),
            None => None,
        }
    }
}

/// The views of a sequence of panes.
pub open spec fn pane_views(panes: Seq<Pane>) -> Seq<PaneView> {
    panes.map_values(|pane: Pane| pane@)
}

/// Whether a pane with this identifier is listed.
pub open spec fn has_pane(panes: Seq<PaneView>, pane_id: Seq<char>) -> bool {
    exists|i: int| 0 <= i < panes.len() && (#[trigger] panes[i]).pane_id == pane_id
}

/// Why a binding operation was refused or could not finish.
#[derive(Debug, PartialEq, Eq)]
pub enum BindingError {
    /// The pane is not in the current Herdr snapshot.
    PaneGone,
    /// The key is not one of the ten logical keys.
    UnknownKey,
    /// Every logical key is bound.
    NoFreeKey,
    /// The requested key is bound to another pane.
    KeyTaken { key: String, owner: String },
    /// The key is not bound.
    NotBound { key: String },
    /// A ledger entry names no pane.
    EmptyPaneId,
    /// Two ledger entries share a key or a pane.
    NotUnique,
    /// The store answered with this failure.
    Store(String),
    /// Herdr answered with this failure.
    Directory(String),
}

pub enum BindingFault {
    PaneGone,
    UnknownKey,
    NoFreeKey,
    KeyTaken { key: Seq<char>, owner: Seq<char> },
    NotBound { key: Seq<char> },
    EmptyPaneId,
    NotUnique,
    Store(Seq<char>),
    Directory(Seq<char>),
}

impl View for BindingError {
    type V = BindingFault;

    open spec fn view(&self) -> BindingFault {
        match *self {
            BindingError::PaneGone => BindingFault::PaneGone,
            BindingError::UnknownKey => BindingFault::UnknownKey,
            BindingError::NoFreeKey => BindingFault::NoFreeKey,
            BindingError::KeyTaken { key, owner } => BindingFault::KeyTaken {
                key: key@,
                owner: owner@,
            },
            BindingError::NotBound { key } => BindingFault::NotBound { key: key@ },
            BindingError::EmptyPaneId => BindingFault::EmptyPaneId,
            BindingError::NotUnique => BindingFault::NotUnique,
            BindingError::Store(message) => BindingFault::Store(message@),
            BindingError::Directory(message) => BindingFault::Directory(message@),
        }
    }
}

impl BindingFault {
    /// The text shown to the user.
    pub open spec fn message(self) -> Seq<char> {
        match self {
            BindingFault::PaneGone => "pane no longer exists"@,
            BindingFault::UnknownKey => "key must be f1 through f10"@,
            BindingFault::NoFreeKey => "no Beckon keys are free"@,
            BindingFault::KeyTaken { key, owner } => key + " is already bound to "@ + owner,
            BindingFault::NotBound { key } => key + " is not bound"@,
            BindingFault::EmptyPaneId => "a binding has an empty pane_id"@,
            BindingFault::NotUnique => "bindings must have unique keys and pane IDs"@,
            BindingFault::Store(message) => message,
            BindingFault::Directory(message) => message,
        }
    }
}

impl BindingError {
    /// The text shown to the user.
    pub fn message(&self) -> (text: String)
        ensures
            text@ == self@.message(),
    {
        match self {
            BindingError::PaneGone => "pane no longer exists".to_owned(),
            BindingError::UnknownKey => "key must be f1 through f10".to_owned(),
            BindingError::NoFreeKey => "no Beckon keys are free".to_owned(),
            BindingError::KeyTaken { key, owner } => key.clone().concat(
                " is already bound to ",
            ).concat(owner.as_str()),
            BindingError::NotBound { key } => key.clone().concat(" is not bound"),
            BindingError::EmptyPaneId => "a binding has an empty pane_id".to_owned(),
            BindingError::NotUnique => "bindings must have unique keys and pane IDs".to_owned(),
            BindingError::Store(message) => message.clone(),
            BindingError::Directory(message) => message.clone(),
        }
    }
}

/// The view of a result that carries a [`BindingError`].
pub open spec fn fault_of<T>(result: Result<T, BindingError>) -> Option<BindingFault> {
    match result {
        Ok(_) => None,
        Err(error) => Some(error@),
    }
}

// ---------------------------------------------------------------------------
// Keys
// ---------------------------------------------------------------------------

proof fn lemma_key_id(index: int)
    requires
        0 <= index < 10,
    ensures
        KEY_IDS[index]@ == key_ids()[index],
{
}

/// A logical key has a text.
pub proof fn lemma_key_not_empty(key: Seq<char>)
    requires
        is_key(key),
    ensures
        key.len() > 0,
{
    reveal_strlit("f1");
    reveal_strlit("f2");
    reveal_strlit("f3");
    reveal_strlit("f4");
    reveal_strlit("f5");
    reveal_strlit("f6");
    reveal_strlit("f7");
    reveal_strlit("f8");
    reveal_strlit("f9");
    reveal_strlit("f10");
}

/// Returns `key` when it is one of the ten logical keys.
pub fn valid_key(key: &str) -> (result: Result<&str, BindingError>)
    ensures
        match result {
            Ok(found) => is_key(key@) && found@ == key@,
            Err(error) => !is_key(key@) && error == BindingError::UnknownKey,
        },
{
    for i in 0..10usize
        invariant
            forall|j: int| 0 <= j < i ==> #[trigger] key_ids()[j] != key@,
    {
        proof {
            lemma_key_id(i as int);
        }
        if same_text(KEY_IDS[i], key) {
            assert(key_ids()[i as int] == key@);
            return Ok(KEY_IDS[i]);
        }
    }
    Err(BindingError::UnknownKey)
}

/// Whether some binding uses `key`.
pub open spec fn key_used(bindings: Seq<BindingView>, key: Seq<char>) -> bool {
    exists|i: int| 0 <= i < bindings.len() && (#[trigger] bindings[i]).key == key
}

/// The first logical key from position `start` on that no binding uses.
pub open spec fn free_key_from(bindings: Seq<BindingView>, start: int) -> Option<Seq<char>>
    decreases 10 - start,
{
    if start >= 10 {
        None
    } else if !key_used(bindings, key_ids()[start]) {
        Some(key_ids()[start])
    } else {
        free_key_from(bindings, start + 1)
    }
}

/// The first logical key, in assignment order, that no binding uses.
pub open spec fn free_key(bindings: Seq<BindingView>) -> Option<Seq<char>> {
    free_key_from(bindings, 0)
}

fn uses_key(bindings: &[Binding], key: &str) -> (used: bool)
    ensures
        used == key_used(binding_views(bindings@), key@),
{
    let ghost entries = binding_views(bindings@);
    for i in 0..bindings.len()
        invariant
            entries == binding_views(bindings@),
            forall|j: int| 0 <= j < i ==> (#[trigger] entries[j]).key != key@,
    {
        if same_text(bindings[i].key.as_str(), key) {
            assert(entries[i as int].key == key@);
            return true;
        }
    }
    false
}

/// The first logical key, in assignment order, that no binding uses.
pub fn first_free_key(bindings: &[Binding]) -> (key: Option<&'static str>)
    ensures
        option_str_view(key) == free_key(binding_views(bindings@)),
{
    for i in 0..10usize
        invariant
            free_key(binding_views(bindings@)) == free_key_from(
                binding_views(bindings@),
                i as int,
            ),
    {
        proof {
            lemma_key_id(i as int);
        }
        if !uses_key(bindings, KEY_IDS[i]) {
            return Some(KEY_IDS[i]);
        }
    }
    None
}

// ---------------------------------------------------------------------------
// Ledger validity
// ---------------------------------------------------------------------------

/// What is wrong with one entry on its own.
pub open spec fn entry_fault(binding: BindingView) -> Option<BindingFault> {
    if !is_key(binding.key) {
        Some(BindingFault::UnknownKey)
    } else if binding.pane_id.len() == 0 {
        Some(BindingFault::EmptyPaneId)
    } else {
        None
    }
}

/// What is wrong with the first faulty entry.
pub open spec fn first_entry_fault(bindings: Seq<BindingView>) -> Option<BindingFault>
    decreases bindings.len(),
{
    if bindings.len() == 0 {
        None
    } else if entry_fault(bindings[0]) is Some {
        entry_fault(bindings[0])
    } else {
        first_entry_fault(bindings.drop_first())
    }
}

/// No two entries share a key or a pane.
pub open spec fn unique(bindings: Seq<BindingView>) -> bool {
    forall|i: int, j: int|
        #![trigger bindings[i], bindings[j]]
        0 <= i < j < bindings.len() ==> bindings[i].key != bindings[j].key && bindings[i].pane_id
            != bindings[j].pane_id
}

/// What is wrong with a ledger; nothing for a valid one.
pub open spec fn ledger_fault(bindings: Seq<BindingView>) -> Option<BindingFault> {
    if first_entry_fault(bindings) is Some {
        first_entry_fault(bindings)
    } else if !unique(bindings) {
        Some(BindingFault::NotUnique)
    } else {
        None
    }
}

/// Every entry is well formed, and no two share a key or a pane.
pub open spec fn valid_ledger(bindings: Seq<BindingView>) -> bool {
    &&& forall|i: int|
        0 <= i < bindings.len() ==> is_key((#[trigger] bindings[i]).key)
            && bindings[i].pane_id.len() > 0
    &&& unique(bindings)
}

/// A ledger has no fault exactly when it is valid.
pub proof fn lemma_no_fault_iff_valid(bindings: Seq<BindingView>)
    ensures
        ledger_fault(bindings) is None <==> valid_ledger(bindings),
{
    lemma_entry_faults(bindings);
}

proof fn lemma_entry_faults(bindings: Seq<BindingView>)
    ensures
        first_entry_fault(bindings) is None <==> (forall|i: int|
            0 <= i < bindings.len() ==> entry_fault(#[trigger] bindings[i]) is None),
    decreases bindings.len(),
{
    if bindings.len() > 0 {
        let rest = bindings.drop_first();
        lemma_entry_faults(rest);
        if first_entry_fault(bindings) is None {
            assert forall|i: int| 0 <= i < bindings.len() implies entry_fault(
                #[trigger] bindings[i],
            ) is None by {
                if i > 0 {
                    assert(rest[i - 1] == bindings[i]);
                }
            }
        } else if entry_fault(bindings[0]) is None {
            let i = choose|i: int| 0 <= i < rest.len() && entry_fault(#[trigger] rest[i]) is Some;
            assert(bindings[i + 1] == rest[i]);
        }
    }
}

proof fn lemma_entry_faults_skip(bindings: Seq<BindingView>, count: int)
    requires
        0 <= count <= bindings.len(),
        forall|i: int| 0 <= i < count ==> entry_fault(#[trigger] bindings[i]) is None,
    ensures
        first_entry_fault(bindings) == first_entry_fault(bindings.skip(count)),
    decreases count,
{
    if count > 0 {
        let rest = bindings.drop_first();
        assert forall|i: int| 0 <= i < count - 1 implies entry_fault(#[trigger] rest[i]) is None by {
            assert(rest[i] == bindings[i + 1]);
        }
        lemma_entry_faults_skip(rest, count - 1);
        assert(rest.skip(count - 1) =~= bindings.skip(count));
        assert(entry_fault(bindings[0]) is None);
    } else {
        assert(bindings.skip(0) =~= bindings);
    }
}

/// Refuses a ledger with an unknown key, an entry without a pane, or two
/// entries that share a key or a pane.
pub fn validate_bindings(bindings: &[Binding]) -> (result: Result<(), BindingError>)
    ensures
        fault_of(result) == ledger_fault(binding_views(bindings@)),
{
    let ghost entries = binding_views(bindings@);
    for i in 0..bindings.len()
        invariant
            entries == binding_views(bindings@),
            forall|j: int| 0 <= j < i ==> entry_fault(#[trigger] entries[j]) is None,
    {
        proof {
            lemma_entry_faults_skip(entries, i as int);
            assert(entries.skip(i as int)[0] == entries[i as int]);
        }
        match valid_key(bindings[i].key.as_str()) {
            Ok(_) => {},
            Err(error) => {
                return Err(error);
            },
        }
        if bindings[i].pane_id.as_str().is_empty() {
            return Err(BindingError::EmptyPaneId);
        }
    }
    proof {
        lemma_entry_faults(entries);
    }
    for i in 0..bindings.len()
        invariant
            entries == binding_views(bindings@),
            first_entry_fault(entries) is None,
            forall|a: int, b: int|
                #![trigger entries[a], entries[b]]
                0 <= a < i && a < b < entries.len() ==> entries[a].key != entries[b].key
                    && entries[a].pane_id != entries[b].pane_id,
    {
        for j in (i + 1)..bindings.len()
            invariant
                i < bindings.len(),
                entries == binding_views(bindings@),
                first_entry_fault(entries) is None,
                forall|b: int|
                    i < b < j ==> entries[i as int].key != (#[trigger] entries[b]).key
                        && entries[i as int].pane_id != entries[b].pane_id,
        {
            if same_text(bindings[j].key.as_str(), bindings[i].key.as_str()) || same_text(
                bindings[j].pane_id.as_str(),
                bindings[i].pane_id.as_str(),
            ) {
                assert(entries[i as int] == bindings@[i as int]@);
                assert(entries[j as int] == bindings@[j as int]@);
                assert(!unique(entries));
                return Err(BindingError::NotUnique);
            }
        }
    }
    Ok(())
}

} // verus!
