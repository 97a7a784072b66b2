//! What keys show and what is sent to the keyboard, told from the
//! configuration, the bound panes and the reports alone.

use vstd::prelude::*;

use crate::binding::{key_ids, BindingView, PaneView, StateView};
use crate::brightness::{level_of, nearest_even, scaled_significand, Brightness};
use crate::hid::{
    code_of_motion, omitted_from, plan_slots, render_of, sent_treatments, sink_run, sink_step,
    status_code, status_name, status_named, PlanFault, SinkStep, SinkView, SnapshotView, Status,
    WriteFault, WriterCall,
};
use crate::presentation::plan_run;
use crate::render::{
    color_named, color_text, default_key_views, display_result, example_plan, herdr_state,
    herdr_treatments, law_accepted_iff_valid, once, plan_result, same_plan, state_name_of,
    status_of_key, theme_named, AgentState, DisplayFault, DisplayView, KeyDisplayView,
    KeyRenderView, Motion, PlanView, StateTreatment, StateTreatments,
};
use crate::request_laws::{is_first_listed, law_logical_keys, law_pairing, listed, logical_keys};
use crate::service::World;
use crate::status::{paired, RowView};
use crate::text::{hex_value, keyword};

use vstd::arithmetic::power2::{lemma_pow2_pos, pow2};

verus! {

// ---------------------------------------------------------------------------
// The display section
// ---------------------------------------------------------------------------

/// A key stands at exactly one place of the display section.
pub open spec fn stands_once(keys: Seq<KeyDisplayView>, key: Seq<char>) -> bool {
    &&& exists|i: int| 0 <= i < keys.len() && (#[trigger] keys[i]).id == key
    &&& forall|i: int, j: int|
        0 <= i < keys.len() && 0 <= j < keys.len() && (#[trigger] keys[i]).id == key && (
        #[trigger] keys[j]).id == key ==> i == j
}

/// A brightness from 0.0 to 1.0: the pattern of a number without a sign is no
/// greater than that of 1.0, or it is that of the negative zero.
pub open spec fn is_unit(brightness: Brightness) -> bool {
    brightness.bits <= 0x3F80_0000 || brightness.bits == 0x8000_0000
}

/// The brightnesses of a theme are from 0.0 to 1.0.
pub open spec fn all_unit(theme: StateTreatments) -> bool {
    &&& is_unit(theme.idle.brightness)
    &&& is_unit(theme.working.brightness)
    &&& is_unit(theme.blocked.brightness)
    &&& is_unit(theme.done.brightness)
    &&& is_unit(theme.unknown.brightness)
}

/// The selected theme is one of the user's, or a built-in one that the user has
/// not replaced.
pub open spec fn selects(display: DisplayView, theme: StateTreatments) -> bool {
    if display.themes.contains_key(display.theme) {
        theme == display.themes[display.theme]
    } else {
        (display.theme == "herdr"@ || display.theme == "catppuccin-mocha"@)
            && Some(theme) == theme_named(Map::empty(), "herdr"@)
    }
}

/// A display section is accepted exactly when it has ten keys, every logical
/// key once, and a theme that exists and whose brightnesses are from 0.0 to
/// 1.0.
pub proof fn law_display_accepted_iff(display: DisplayView, fault: Option<DisplayFault>)
    requires
        display_result(display, fault),
    ensures
        fault is None <==> {
            &&& display.keys.len() == 10
            &&& forall|n: int|
                0 <= n < 10 ==> stands_once(display.keys, #[trigger] logical_keys()[n])
            &&& exists|theme: StateTreatments| #[trigger]
                selects(display, theme) && all_unit(theme)
        },
{
    law_accepted_iff_valid(display, fault);
    law_logical_keys(key_ids()[0]);
    assert forall|n: int| 0 <= n < 10 implies once(display.keys, #[trigger] logical_keys()[n])
        == stands_once(display.keys, logical_keys()[n]) by {
        let key = logical_keys()[n];
        if once(display.keys, key) {
            let i = choose|i: int|
                0 <= i < display.keys.len() && (#[trigger] display.keys[i]).id == key && (
                forall|j: int|
                    0 <= j < display.keys.len() && (#[trigger] display.keys[j]).id == key ==> j
                        == i);
            assert(display.keys[i].id == key);
        }
        if stands_once(display.keys, key) {
            let i = choose|i: int|
                0 <= i < display.keys.len() && (#[trigger] display.keys[i]).id == key;
            assert(display.keys[i].id == key);
        }
    }
    if let Some(theme) = theme_named(display.themes, display.theme) {
        assert(selects(display, theme));
        if exists|other: StateTreatments| #[trigger] selects(display, other) && all_unit(other) {
            let other = choose|other: StateTreatments| #[trigger]
                selects(display, other) && all_unit(other);
            assert(other == theme);
        }
    }
    if fault is None {
        assert forall|n: int| 0 <= n < 10 implies stands_once(
            display.keys,
            #[trigger] logical_keys()[n],
        ) by {
            assert(once(display.keys, key_ids()[n]));
        }
    }
    if forall|n: int| 0 <= n < 10 ==> stands_once(display.keys, #[trigger] logical_keys()[n]) {
        assert forall|n: int| 0 <= n < 10 implies once(display.keys, #[trigger] key_ids()[n]) by {
            assert(stands_once(display.keys, logical_keys()[n]));
        }
    }
}

// ---------------------------------------------------------------------------
// Plans
// ---------------------------------------------------------------------------

/// A state is the one that Herdr's word for it says, in any case and with white
/// space around it; any other word is an unknown state.
pub open spec fn is_state_of(state: AgentState, status: Seq<char>) -> bool {
    let word = keyword(status);
    &&& word == "idle"@ <==> state is Idle
    &&& word == "working"@ <==> state is Working
    &&& word == "blocked"@ <==> state is Blocked
    &&& word == "done"@ <==> state is Done
}

/// A key shows one treatment.
pub open spec fn shows_treatment(key: KeyRenderView, treatment: StateTreatment) -> bool {
    &&& key.color == treatment.color
    &&& key.brightness == treatment.brightness
    &&& key.motion == treatment.motion
}

/// A key with a state shows that state's field of the theme.
pub open spec fn shows_its_state(key: KeyRenderView, theme: StateTreatments) -> bool {
    &&& key.state == Some(AgentState::Idle) ==> shows_treatment(key, theme.idle)
    &&& key.state == Some(AgentState::Working) ==> shows_treatment(key, theme.working)
    &&& key.state == Some(AgentState::Blocked) ==> shows_treatment(key, theme.blocked)
    &&& key.state == Some(AgentState::Done) ==> shows_treatment(key, theme.done)
    &&& key.state == Some(AgentState::Unknown) ==> shows_treatment(key, theme.unknown)
}

/// The state behind a status is the one that its word names, and is written
/// under the same name.
pub proof fn law_states_follow_their_words(status: Seq<char>)
    ensures
        is_state_of(herdr_state(status), status),
        ({
            let word = keyword(status);
            let name = state_name_of(Some(herdr_state(status)));
            if word == "idle"@ || word == "working"@ || word == "blocked"@ || word == "done"@ {
                name == word
            } else {
                name == "unknown"@
            }
        }),
{
    reveal_strlit("idle");
    reveal_strlit("working");
    reveal_strlit("blocked");
    reveal_strlit("done");
    assert("idle"@.len() == 4 && "done"@.len() == 4 && "idle"@[0] == 'i' && "done"@[0] == 'd');
    assert("working"@[0] == 'w' && "blocked"@[0] == 'b');
}

/// The last row for a key, if there is one.
pub open spec fn is_last_row(rows: Seq<RowView>, key: Seq<char>, r: int) -> bool {
    &&& 0 <= r < rows.len()
    &&& rows[r].binding.key == key
    &&& forall|later: int| r < later < rows.len() ==> (#[trigger] rows[later]).binding.key != key
}

proof fn lemma_last_row(rows: Seq<RowView>, key: Seq<char>)
    ensures
        match status_of_key(rows, key) {
            Some(status) => exists|r: int| #[trigger]
                is_last_row(rows, key, r) && rows[r].pane.agent_status == status,
            None => forall|r: int|
                0 <= r < rows.len() ==> (#[trigger] rows[r]).binding.key != key,
        },
    decreases rows.len(),
{
    if rows.len() > 0 {
        let last = rows.len() - 1;
        let rest = rows.drop_last();
        if rows[last].binding.key == key {
            assert(is_last_row(rows, key, last));
        } else {
            lemma_last_row(rest, key);
            if let Some(status) = status_of_key(rest, key) {
                let r = choose|r: int| #[trigger]
                    is_last_row(rest, key, r) && rest[r].pane.agent_status == status;
                assert forall|later: int| r < later < rows.len() implies (
                #[trigger] rows[later]).binding.key != key by {
                    if later < last {
                        assert(rest[later] == rows[later]);
                    }
                }
                assert(rows[r] == rest[r]);
                assert(is_last_row(rows, key, r));
            } else {
                assert forall|r: int| 0 <= r < rows.len() implies (
                #[trigger] rows[r]).binding.key != key by {
                    if r < last {
                        assert(rest[r] == rows[r]);
                    }
                }
            }
        }
    }
}

/// A rendered plan shows the keys of the display section, in its order, under
/// the selected theme. A key that no row names is off, in its own colour; any
/// other shows the state of the pane of its last row, as the theme's field for
/// that state says.
pub proof fn law_plan_shows_the_rows(
    display: DisplayView,
    rows: Seq<RowView>,
    plan: PlanView,
    i: int,
)
    requires
        plan_result(display, rows, Ok(plan)),
        0 <= i < plan.keys.len(),
    ensures
        plan.keys.len() == display.keys.len(),
        selects(display, plan.treatments),
        plan.keys[i].key == display.keys[i].id,
        shows_its_state(plan.keys[i], plan.treatments),
        match plan.keys[i].state {
            Some(state) => exists|r: int| #[trigger]
                is_last_row(rows, plan.keys[i].key, r) && is_state_of(
                    state,
                    rows[r].pane.agent_status,
                ),
            None => {
                &&& forall|r: int|
                    0 <= r < rows.len() ==> (#[trigger] rows[r]).binding.key != plan.keys[i].key
                &&& plan.keys[i].color == display.keys[i].color
                &&& plan.keys[i].brightness.bits == 0
                &&& plan.keys[i].motion is Steady
            },
        },
{
    law_accepted_iff_valid(display, None);
    let key = display.keys[i].id;
    lemma_last_row(rows, key);
    if let Some(status) = status_of_key(rows, key) {
        law_states_follow_their_words(status);
        let r = choose|r: int| #[trigger]
            is_last_row(rows, key, r) && rows[r].pane.agent_status == status;
        assert(is_last_row(rows, plan.keys[i].key, r));
    }
}

/// The examples show the five states, in this order, on the first five keys,
/// each as the theme's field for it says.
pub proof fn law_examples_show_every_state(
    display: DisplayView,
    theme: StateTreatments,
    plan: PlanView,
)
    requires
        display.keys.len() == 10,
        plan == example_plan(display, theme),
    ensures
        plan.keys.len() == 5,
        plan.treatments == theme,
        forall|i: int|
            0 <= i < 5 ==> (#[trigger] plan.keys[i]).key == display.keys[i].id && shows_its_state(
                plan.keys[i],
                theme,
            ),
        plan.keys[0].state == Some(AgentState::Idle),
        plan.keys[1].state == Some(AgentState::Working),
        plan.keys[2].state == Some(AgentState::Blocked),
        plan.keys[3].state == Some(AgentState::Done),
        plan.keys[4].state == Some(AgentState::Unknown),
{
}

/// What a key shows of the listed panes that ledger entries bind to it.
pub open spec fn shows_bound_pane(
    key: KeyRenderView,
    configured: KeyDisplayView,
    entries: Seq<BindingView>,
    panes: Seq<PaneView>,
) -> bool {
    match key.state {
        Some(state) => exists|e: int, pane: PaneView|
            {
                &&& 0 <= e < entries.len()
                &&& entries[e].key == key.key
                &&& #[trigger] is_first_listed(panes, (#[trigger] entries[e]).pane_id, pane)
                &&& is_state_of(state, pane.agent_status)
            },
        None => {
            &&& forall|e: int|
                0 <= e < entries.len() && (#[trigger] entries[e]).key == key.key ==> !listed(
                    panes,
                    entries[e].pane_id,
                )
            &&& key.color == configured.color
            &&& key.brightness.bits == 0
            &&& key.motion is Steady
        },
    }
}

/// A plan for paired rows shows, on every key, the state of a listed pane that
/// an entry binds to the key, and nothing exactly where there is none.
pub proof fn law_plan_shows_the_bound_panes(
    display: DisplayView,
    entries: Seq<BindingView>,
    panes: Seq<PaneView>,
    plan: PlanView,
    i: int,
)
    requires
        plan_result(display, paired(entries, panes), Ok(plan)),
        0 <= i < plan.keys.len(),
    ensures
        shows_bound_pane(plan.keys[i], display.keys[i], entries, panes),
{
    let rows = paired(entries, panes);
    law_plan_shows_the_rows(display, rows, plan, i);
    law_pairing(entries, panes);
    match plan.keys[i].state {
        Some(state) => {
            let r = choose|r: int| #[trigger]
                is_last_row(rows, plan.keys[i].key, r) && is_state_of(
                    state,
                    rows[r].pane.agent_status,
                );
            assert(entries.contains(rows[r].binding));
            let e = choose|e: int| 0 <= e < entries.len() && entries[e] == rows[r].binding;
            assert(entries[e].key == plan.keys[i].key);
            assert(is_first_listed(panes, entries[e].pane_id, rows[r].pane));
        },
        None => {
            assert forall|e: int|
                0 <= e < entries.len() && (#[trigger] entries[e]).key
                    == plan.keys[i].key implies !listed(panes, entries[e].pane_id) by {
                if listed(panes, entries[e].pane_id) {
                    let r = choose|r: int|
                        0 <= r < rows.len() && (#[trigger] rows[r]).binding == entries[e];
                    assert(rows[r].binding.key == plan.keys[i].key);
                }
            }
        },
    }
}

/// The entries of a loaded ledger; none where nothing was ever stored.
pub open spec fn entries_of(stored: Option<StateView>) -> Seq<BindingView> {
    match stored {
        Some(state) => state.bindings,
        None => Seq::empty(),
    }
}

/// The plan of the moment shows, on every key, the state of a listed pane that
/// the loaded ledger binds to the key, and nothing exactly where there is none.
/// One load and one listing are made for it, and nothing else.
pub proof fn law_current_plan_shows_the_bound_panes(
    before: World,
    after: World,
    display: DisplayView,
    plan: PlanView,
    i: int,
)
    requires
        plan_run(before, after, display, Ok(plan)),
        0 <= i < plan.keys.len(),
    ensures
        after.store.len() == before.store.len() + 1,
        after.panes.len() == before.panes.len() + 1,
        after.store.last() is Load,
        after.store.last()->Load_0 is Ok,
        after.panes.last() is Panes,
        after.panes.last()->Panes_0 is Ok,
        selects(display, plan.treatments),
        plan.keys[i].key == display.keys[i].id,
        shows_its_state(plan.keys[i], plan.treatments),
        shows_bound_pane(
            plan.keys[i],
            display.keys[i],
            entries_of(after.store.last()->Load_0->Ok_0),
            after.panes.last()->Panes_0->Ok_0,
        ),
{
    let panes = after.panes.last()->Panes_0->Ok_0;
    let entries = entries_of(after.store.last()->Load_0->Ok_0);
    assert(plan_result(display, paired(entries, panes), Ok(plan)));
    law_plan_shows_the_rows(display, paired(entries, panes), plan, i);
    law_plan_shows_the_bound_panes(display, entries, panes, plan, i);
}

// ---------------------------------------------------------------------------
// What is sent to the keyboard
// ---------------------------------------------------------------------------

/// Every state has a name that reads back as the state, and a number of its own
/// below six.
pub proof fn law_status_names_and_numbers(status: Status, other: Status)
    ensures
        status_named(status_name(status)) == Some(status),
        status_code(status) < 6,
        status_code(status) == status_code(other) ==> status == other,
        status is Unbound <==> status_code(status) == 0,
{
    lemma_names_are_keywords();
}

proof fn lemma_names_are_keywords()
    ensures
        keyword("unbound"@) == "unbound"@,
        keyword("idle"@) == "idle"@,
        keyword("working"@) == "working"@,
        keyword("blocked"@) == "blocked"@,
        keyword("done"@) == "done"@,
        keyword("unknown"@) == "unknown"@,
        "unbound"@ != "unknown"@,
        "unbound"@ != "working"@,
        "unbound"@ != "blocked"@,
        "unknown"@ != "working"@,
        "unknown"@ != "blocked"@,
        "working"@ != "blocked"@,
        "idle"@ != "done"@,
        "unbound"@.len() == 7,
        "unknown"@.len() == 7,
        "working"@.len() == 7,
        "blocked"@.len() == 7,
        "idle"@.len() == 4,
        "done"@.len() == 4,
{
    reveal_strlit("unbound");
    reveal_strlit("idle");
    reveal_strlit("working");
    reveal_strlit("blocked");
    reveal_strlit("done");
    reveal_strlit("unknown");
    assert("unbound"@[2] == 'b' && "unknown"@[2] == 'k');
    assert("unbound"@[0] == 'u' && "working"@[0] == 'w' && "blocked"@[0] == 'b' && "unknown"@[0]
        == 'u' && "idle"@[0] == 'i' && "done"@[0] == 'd');
    lemma_plain_word("unbound"@);
    lemma_plain_word("idle"@);
    lemma_plain_word("working"@);
    lemma_plain_word("blocked"@);
    lemma_plain_word("done"@);
    lemma_plain_word("unknown"@);
}

proof fn lemma_plain_word(word: Seq<char>)
    requires
        word.len() > 0,
        forall|i: int| 0 <= i < word.len() ==> 'a' <= #[trigger] word[i] <= 'z',
    ensures
        keyword(word) == word,
{
    assert('a' <= word[0] <= 'z');
    assert('a' <= word[word.len() - 1] <= 'z');
    assert(crate::text::trimmed(word) == word);
    assert(keyword(word) =~= word);
}

/// A state as it is sent is the state that is shown: each names the other.
pub open spec fn is_sent_for(status: Status, state: Option<AgentState>) -> bool {
    &&& status is Unbound <==> state is None
    &&& status is Idle <==> state == Some(AgentState::Idle)
    &&& status is Working <==> state == Some(AgentState::Working)
    &&& status is Blocked <==> state == Some(AgentState::Blocked)
    &&& status is Done <==> state == Some(AgentState::Done)
    &&& status is Unknown <==> state == Some(AgentState::Unknown)
}

/// No key of the plan occurs twice.
pub open spec fn no_key_twice(plan: PlanView) -> bool {
    forall|i: int, j: int|
        0 <= i < plan.keys.len() && 0 <= j < plan.keys.len() && (#[trigger] plan.keys[i]).key == (
        #[trigger] plan.keys[j]).key ==> i == j
}

/// A plan shows something on a key.
pub open spec fn has_key(plan: PlanView, key: Seq<char>) -> bool {
    exists|j: int| 0 <= j < plan.keys.len() && (#[trigger] plan.keys[j]).key == key
}

proof fn lemma_render_found(keys: Seq<KeyRenderView>, key: Seq<char>)
    ensures
        match render_of(keys, key) {
            Some(render) => exists|j: int|
                0 <= j < keys.len() && #[trigger] keys[j] == render && render.key == key,
            None => forall|j: int| 0 <= j < keys.len() ==> (#[trigger] keys[j]).key != key,
        },
    decreases keys.len(),
{
    if keys.len() > 0 {
        if keys[0].key != key {
            let rest = keys.skip(1);
            lemma_render_found(rest, key);
            if let Some(render) = render_of(rest, key) {
                let j = choose|j: int|
                    0 <= j < rest.len() && #[trigger] rest[j] == render && render.key == key;
                assert(keys[j + 1] == render);
            } else {
                assert forall|j: int| 0 <= j < keys.len() implies (
                #[trigger] keys[j]).key != key by {
                    if j > 0 {
                        assert(rest[j - 1] == keys[j]);
                    }
                }
            }
        } else {
            assert(keys[0] == render_of(keys, key)->0);
        }
    }
}

proof fn lemma_omitted(plan: PlanView, start: int)
    requires
        0 <= start <= 10,
    ensures
        match omitted_from(plan.keys, start) {
            Some(key) => !has_key(plan, key) && exists|n: int|
                start <= n < 10 && #[trigger] logical_keys()[n] == key,
            None => forall|n: int|
                start <= n < 10 ==> has_key(plan, #[trigger] logical_keys()[n]),
        },
    decreases 10 - start,
{
    law_logical_keys(key_ids()[0]);
    if start < 10 {
        lemma_omitted(plan, start + 1);
        lemma_render_found(plan.keys, logical_keys()[start]);
        if let Some(render) = render_of(plan.keys, logical_keys()[start]) {
            let j = choose|j: int|
                0 <= j < plan.keys.len() && #[trigger] plan.keys[j] == render && render.key
                    == logical_keys()[start];
            assert(plan.keys[j].key == logical_keys()[start]);
            assert(has_key(plan, logical_keys()[start]));
        }
    }
}

/// A plan gives a snapshot exactly when it shows ten keys, none twice, and all
/// logical keys. The ten slots are the states of the logical keys in order:
/// under the same names, and each state under its own.
pub proof fn law_slots_are_the_states_shown(plan: PlanView)
    ensures
        plan_slots(plan) is Ok <==> {
            &&& plan.keys.len() == 10
            &&& no_key_twice(plan)
            &&& forall|n: int| 0 <= n < 10 ==> has_key(plan, #[trigger] logical_keys()[n])
        },
        match plan_slots(plan) {
            Ok(slots) => {
                &&& slots.len() == 10
                &&& forall|n: int, j: int|
                    0 <= n < 10 && 0 <= j < plan.keys.len() && (#[trigger] plan.keys[j]).key
                        == logical_keys()[n] ==> is_sent_for(
                        #[trigger] slots[n],
                        plan.keys[j].state,
                    ) && status_name(slots[n]) == state_name_of(plan.keys[j].state)
            },
            Err(PlanFault::Count) => plan.keys.len() != 10 || !no_key_twice(plan),
            Err(PlanFault::Omitted(key)) => !has_key(plan, key) && logical_keys().contains(key),
        },
{
    law_logical_keys(key_ids()[0]);
    lemma_omitted(plan, 0);
    if crate::hid::keys_differ(plan.keys) {
        assert(no_key_twice(plan)) by {
            assert forall|i: int, j: int|
                0 <= i < plan.keys.len() && 0 <= j < plan.keys.len() && (
                #[trigger] plan.keys[i]).key == (#[trigger] plan.keys[j]).key implies i == j by {
                if i < j {
                    assert(plan.keys[i].key != plan.keys[j].key);
                } else if j < i {
                    assert(plan.keys[j].key != plan.keys[i].key);
                }
            }
        }
    }
    if no_key_twice(plan) {
        assert(crate::hid::keys_differ(plan.keys));
    }
    if let Ok(slots) = plan_slots(plan) {
        assert forall|n: int, j: int|
            0 <= n < 10 && 0 <= j < plan.keys.len() && (#[trigger] plan.keys[j]).key
                == logical_keys()[n] implies is_sent_for(
            #[trigger] slots[n],
            plan.keys[j].state,
        ) && status_name(slots[n]) == state_name_of(plan.keys[j].state) by {
            lemma_render_found(plan.keys, logical_keys()[n]);
            let render = render_of(plan.keys, logical_keys()[n]);
            assert(has_key(plan, logical_keys()[n]));
            let k = choose|k: int|
                0 <= k < plan.keys.len() && #[trigger] plan.keys[k] == render->0 && render->0.key
                    == logical_keys()[n];
            assert(plan.keys[k].key == plan.keys[j].key);
            assert(k == j);
        }
    }
}

/// The keyboard shows what the plan shows: for a key with a state, the
/// treatment that stands at the number of its slot, counted from one, has the
/// key's colour and motion, and its brightness on a scale to 255.
pub proof fn law_keyboard_shows_the_plan(
    display: DisplayView,
    rows: Seq<RowView>,
    plan: PlanView,
    n: int,
    j: int,
)
    requires
        plan_result(display, rows, Ok(plan)),
        0 <= n < 10,
        0 <= j < plan.keys.len(),
        plan.keys[j].key == logical_keys()[n],
        plan.keys[j].state is Some,
    ensures
        plan_slots(plan) is Ok,
        ({
            let slot = plan_slots(plan)->Ok_0[n];
            let sent = sent_treatments(plan.treatments);
            &&& sent.len() == 5
            &&& 1 <= status_code(slot) <= 5
            &&& sent[status_code(slot) - 1].color == plan.keys[j].color
            &&& sent[status_code(slot) - 1].motion == plan.keys[j].motion
            &&& sent[status_code(slot) - 1].brightness == level_of(plan.keys[j].brightness.bits)
        }),
{
    crate::hid::law_rendered_plan_has_slots(display, rows, plan);
    law_slots_are_the_states_shown(plan);
    law_plan_shows_the_rows(display, rows, plan, j);
    lemma_level_fits(plan.keys[j].brightness.bits);
}

proof fn lemma_level_fits(bits: u32)
    ensures
        0 <= level_of(bits) <= 255,
{
    if 0x3A80_0000 <= bits < 0x3F80_0000 {
        law_level_is_nearest(bits);
    }
}

/// A brightness from 2^-10 up to 1.0 is sent as the nearest whole number to 255
/// times it, up to the error of a single-precision product. More is sent as
/// 255, and less, a negative one, and what is no number, as 0.
pub proof fn law_level_is_nearest(bits: u32)
    ensures
        0x3F80_0000 <= bits <= 0x7F80_0000 ==> level_of(bits) == 255,
        bits < 0x3A80_0000 || bits > 0x7F80_0000 ==> level_of(bits) == 0,
        0x3A80_0000 <= bits < 0x3F80_0000 ==> {
            let significand = 0x80_0000 + bits % 0x80_0000;
            let scale = pow2((150 - bits / 0x80_0000) as nat) as int;
            let level = level_of(bits);
            &&& 0 <= level <= 255
            &&& 2 * (level * scale - 255 * significand) <= scale + 256
            &&& 2 * (255 * significand - level * scale) <= scale + 256
        },
{
    if 0x3A80_0000 <= bits < 0x3F80_0000 {
        let exponent = bits / 0x80_0000;
        let significand = 0x80_0000 + bits % 0x80_0000;
        let scale = pow2((150 - exponent) as nat) as int;
        let product = 255 * significand;
        let scaled = scaled_significand(significand);
        let level = level_of(bits);
        lemma_pow2_pos((150 - exponent) as nat);
        assert(24 <= 150 - exponent <= 33);
        vstd::arithmetic::power2::lemma2_to64();
        if 150 - exponent > 24 {
            vstd::arithmetic::power2::lemma_pow2_strictly_increases(24, (150 - exponent) as nat);
        }
        assert(pow2(24) == 0x100_0000);
        assert(scale >= 0x100_0000);
        lemma_nearest(product, 128);
        lemma_nearest(product, 256);
        assert(-256 <= 2 * (scaled - product) <= 256);
        assert(scaled <= 255 * scale) by {
            assert(product <= 255 * 0x100_0000 - 255);
            assert(scaled <= 255 * 0x100_0000);
            assert(255 * 0x100_0000 <= 255 * scale);
        }
        assert(scaled >= 0);
        let top = 2 * scaled + scale;
        let whole = 2 * scale;
        assert(level == top / whole);
        assert(level * whole <= top < level * whole + whole && 0 <= level <= 255) by (nonlinear_arith)
            requires
                level == top / whole,
                whole > 0,
                whole == 2 * scale,
                top == 2 * scaled + scale,
                0 <= scaled <= 255 * scale,
        ;
        assert(level * whole == 2 * (level * scale)) by (nonlinear_arith)
            requires
                whole == 2 * scale,
        ;
    }
}

proof fn lemma_nearest(number: int, unit: int)
    requires
        unit == 128 || unit == 256,
        number >= 0,
    ensures
        -unit <= 2 * (nearest_even(number, unit) * unit - number) <= unit,
        nearest_even(number, unit) >= 0,
{
    if unit == 128 {
        assert(number == 128 * (number / 128) + number % 128);
    } else {
        assert(number == 256 * (number / 256) + number % 256);
    }
}

/// A pass that writes sends the states that the plan shows, the treatments of
/// its theme, and the next sequence number.
pub proof fn law_sink_writes_the_plan(
    before: SinkView,
    calls: Seq<WriterCall>,
    after: SinkView,
    calls_after: Seq<WriterCall>,
    plan: PlanView,
    now: u128,
    result: Result<bool, WriteFault>,
)
    requires
        sink_run(before, calls, after, calls_after, plan, now, result),
        calls_after.len() > calls.len(),
    ensures
        calls_after.len() == calls.len() + 1,
        ({
            let sent = calls_after.last().snapshot;
            &&& sent.sequence == before.next_sequence
            &&& sent.slots.len() == 10
            &&& forall|n: int, j: int|
                0 <= n < 10 && 0 <= j < plan.keys.len() && (#[trigger] plan.keys[j]).key
                    == logical_keys()[n] ==> is_sent_for(
                    #[trigger] sent.slots[n],
                    plan.keys[j].state,
                )
            &&& sent.treatments.len() == 5
            &&& sent.treatments[0].color == plan.treatments.idle.color
            &&& sent.treatments[1].color == plan.treatments.working.color
            &&& sent.treatments[2].color == plan.treatments.blocked.color
            &&& sent.treatments[3].color == plan.treatments.done.color
            &&& sent.treatments[4].color == plan.treatments.unknown.color
            &&& sent.treatments[0].motion == plan.treatments.idle.motion
            &&& sent.treatments[1].motion == plan.treatments.working.motion
            &&& sent.treatments[2].motion == plan.treatments.blocked.motion
            &&& sent.treatments[3].motion == plan.treatments.done.motion
            &&& sent.treatments[4].motion == plan.treatments.unknown.motion
        }),
{
    law_slots_are_the_states_shown(plan);
}

/// After a write that failed nothing is written for two seconds. From then on
/// the next plan that gives a snapshot other than the one on the keyboard is
/// written, under the number that the failed write had.
pub proof fn law_retry_waits_two_seconds(
    before: SinkView,
    calls: Seq<WriterCall>,
    middle: SinkView,
    calls_middle: Seq<WriterCall>,
    plan: PlanView,
    now: u128,
    fault: WriteFault,
    after: SinkView,
    calls_after: Seq<WriterCall>,
    next: PlanView,
    later: u128,
    result: Result<bool, WriteFault>,
)
    requires
        now + 2_000_000_000 <= u128::MAX,
        sink_run(before, calls, middle, calls_middle, plan, now, Err(fault)),
        calls_middle.len() > calls.len(),
        sink_run(middle, calls_middle, after, calls_after, next, later, result),
        plan_slots(next) is Ok,
        before.last != Some((plan_slots(next)->Ok_0, sent_treatments(next.treatments))),
    ensures
        if later < now + 2_000_000_000 {
            result == Ok::<bool, WriteFault>(false) && calls_after == calls_middle
        } else {
            &&& calls_after.len() == calls_middle.len() + 1
            &&& calls_after.last().snapshot.sequence == calls_middle.last().snapshot.sequence
        },
{
    let slots = plan_slots(next)->Ok_0;
    assert(middle.last == before.last);
    assert(middle.next_sequence == before.next_sequence);
    assert(calls_middle.last().snapshot.sequence == before.next_sequence);
    assert(middle.retry_after == Some((now + 2_000_000_000) as u128));
    assert(sink_step(middle, next, later) == if later < now + 2_000_000_000 {
        SinkStep::Wait
    } else {
        SinkStep::Write(
            SnapshotView {
                sequence: before.next_sequence,
                slots,
                treatments: sent_treatments(next.treatments),
            },
        )
    });
}

/// The numbers that the keyboard's protocol gives the states and the motions.
pub proof fn law_protocol_numbers(status: Status, motion: Motion)
    ensures
        status is Unbound <==> status_code(status) == 0,
        status is Idle <==> status_code(status) == 1,
        status is Working <==> status_code(status) == 2,
        status is Blocked <==> status_code(status) == 3,
        status is Done <==> status_code(status) == 4,
        status is Unknown <==> status_code(status) == 5,
        motion is Steady <==> code_of_motion(motion) == 0,
        motion is Breathe <==> code_of_motion(motion) == 1,
        motion is Pulse <==> code_of_motion(motion) == 2,
        motion is Flicker <==> code_of_motion(motion) == 3,
{
}

/// A text names a colour exactly when it is a hash and six hexadecimal digits
/// of either case, and then the digits spell red, green and blue, in this
/// order.
pub proof fn law_color_texts(text: Seq<char>)
    ensures
        color_named(text) is Some <==> {
            &&& text.len() == 7
            &&& text[0] == '#'
            &&& forall|i: int| 1 <= i < 7 ==> is_hex_digit(#[trigger] text[i])
        },
        color_named(text) is Some ==> {
            let color = color_named(text)->0;
            &&& color.red == 16 * digit_of(text[1]) + digit_of(text[2])
            &&& color.green == 16 * digit_of(text[3]) + digit_of(text[4])
            &&& color.blue == 16 * digit_of(text[5]) + digit_of(text[6])
        },
{
    if text.len() == 7 && text[0] == '#' {
        assert(forall|i: int|
            1 <= i < 7 ==> (hex_value(#[trigger] text[i]) is Some <==> is_hex_digit(text[i])));
        if forall|i: int| 1 <= i < 7 ==> is_hex_digit(#[trigger] text[i]) {
            assert(is_hex_digit(text[1]) && is_hex_digit(text[2]) && is_hex_digit(text[3])
                && is_hex_digit(text[4]) && is_hex_digit(text[5]) && is_hex_digit(text[6]));
        }
        if color_named(text) is Some {
            assert forall|i: int| 1 <= i < 7 implies is_hex_digit(#[trigger] text[i]) by {
                assert(i == 1 || i == 2 || i == 3 || i == 4 || i == 5 || i == 6);
            }
        }
    }
}

/// A hexadecimal digit of either case.
pub open spec fn is_hex_digit(c: char) -> bool {
    let code = c as int;
    48 <= code <= 57 || 65 <= code <= 70 || 97 <= code <= 102
}

/// The value of a hexadecimal digit.
pub open spec fn digit_of(c: char) -> int {
    let code = c as int;
    if code <= 57 {
        code - 48
    } else if code <= 70 {
        code - 65 + 10
    } else {
        code - 97 + 10
    }
}

// ---------------------------------------------------------------------------
// Equal plans
// ---------------------------------------------------------------------------

/// Two brightnesses are equal as numbers: neither is no number, and they have
/// one pattern or are both zero.
pub open spec fn is_same_brightness(left: Brightness, right: Brightness) -> bool {
    let zero = |bits: u32| bits == 0 || bits == 0x8000_0000;
    let number = |bits: u32| bits <= 0x7F80_0000 || 0x8000_0000 <= bits <= 0xFF80_0000;
    &&& number(left.bits)
    &&& number(right.bits)
    &&& left.bits == right.bits || zero(left.bits) && zero(right.bits)
}

/// Two treatments are equal field by field.
pub open spec fn is_same_treatment(left: StateTreatment, right: StateTreatment) -> bool {
    &&& left.color == right.color
    &&& left.motion == right.motion
    &&& is_same_brightness(left.brightness, right.brightness)
}

/// Two plans count as equal exactly when they show the same on the same keys,
/// in the same order, and were made from the same treatments.
pub proof fn law_equal_plans(left: PlanView, right: PlanView)
    ensures
        same_plan(left, right) <==> {
            &&& left.keys.len() == right.keys.len()
            &&& forall|i: int|
                0 <= i < left.keys.len() ==> {
                    let (one, other) = (#[trigger] left.keys[i], right.keys[i]);
                    &&& one.key == other.key
                    &&& one.state == other.state
                    &&& one.color == other.color
                    &&& one.motion == other.motion
                    &&& is_same_brightness(one.brightness, other.brightness)
                }
            &&& is_same_treatment(left.treatments.idle, right.treatments.idle)
            &&& is_same_treatment(left.treatments.working, right.treatments.working)
            &&& is_same_treatment(left.treatments.blocked, right.treatments.blocked)
            &&& is_same_treatment(left.treatments.done, right.treatments.done)
            &&& is_same_treatment(left.treatments.unknown, right.treatments.unknown)
        },
{
}

// ---------------------------------------------------------------------------
// Built-in colours
// ---------------------------------------------------------------------------

/// The colours of the keys and of the built-in theme, by the texts that name
/// them.
pub proof fn law_built_in_colors()
    ensures
        color_text(default_key_views()[0].color) == "#3BA0FF"@,
        color_text(default_key_views()[1].color) == "#00C48C"@,
        color_text(default_key_views()[2].color) == "#B47CFF"@,
        color_text(default_key_views()[3].color) == "#FFB020"@,
        color_text(default_key_views()[4].color) == "#35D0E8"@,
        color_text(default_key_views()[5].color) == "#6172FF"@,
        color_text(default_key_views()[6].color) == "#22C55E"@,
        color_text(default_key_views()[7].color) == "#F59E0B"@,
        color_text(default_key_views()[8].color) == "#E879F9"@,
        color_text(default_key_views()[9].color) == "#14B8A6"@,
        color_text(herdr_treatments().idle.color) == "#3BA0FF"@,
        color_text(herdr_treatments().working.color) == "#F9E2AF"@,
        color_text(herdr_treatments().blocked.color) == "#F38BA8"@,
        color_text(herdr_treatments().done.color) == "#A6E3A1"@,
        color_text(herdr_treatments().unknown.color) == "#6C7086"@,
{
    reveal_strlit("#");
    reveal_strlit("#3BA0FF");
    reveal_strlit("#00C48C");
    reveal_strlit("#B47CFF");
    reveal_strlit("#FFB020");
    reveal_strlit("#35D0E8");
    reveal_strlit("#6172FF");
    reveal_strlit("#22C55E");
    reveal_strlit("#F59E0B");
    reveal_strlit("#E879F9");
    reveal_strlit("#14B8A6");
    reveal_strlit("#F9E2AF");
    reveal_strlit("#F38BA8");
    reveal_strlit("#A6E3A1");
    reveal_strlit("#6C7086");
    let keys = default_key_views();
    assert(color_text(keys[0].color) =~= "#3BA0FF"@);
    assert(color_text(keys[1].color) =~= "#00C48C"@);
    assert(color_text(keys[2].color) =~= "#B47CFF"@);
    assert(color_text(keys[3].color) =~= "#FFB020"@);
    assert(color_text(keys[4].color) =~= "#35D0E8"@);
    assert(color_text(keys[5].color) =~= "#6172FF"@);
    assert(color_text(keys[6].color) =~= "#22C55E"@);
    assert(color_text(keys[7].color) =~= "#F59E0B"@);
    assert(color_text(keys[8].color) =~= "#E879F9"@);
    assert(color_text(keys[9].color) =~= "#14B8A6"@);
    let theme = herdr_treatments();
    assert(color_text(theme.working.color) =~= "#F9E2AF"@);
    assert(color_text(theme.blocked.color) =~= "#F38BA8"@);
    assert(color_text(theme.done.color) =~= "#A6E3A1"@);
    assert(color_text(theme.unknown.color) =~= "#6C7086"@);
}

} // verus!
