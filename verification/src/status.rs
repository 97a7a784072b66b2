//! What the user is shown: the bound panes in key order, and every live pane
//! with its title and binding.

use vstd::prelude::*;

use crate::binding::{binding_views, pane_views, valid_ledger, Binding, BindingView, Pane, PaneView};
use crate::ledger::{bound_key, key_of_pane};
use crate::text::{
    comes_before, lemma_before_irreflexive, lemma_before_total, lemma_before_transitive, same_text,
    text_before,
};

verus! {

broadcast use vstd::string::group_string_axioms;

/// The first pane listed under an identifier.
pub open spec fn pane_named(panes: Seq<PaneView>, pane_id: Seq<char>) -> Option<PaneView>
    decreases panes.len(),
{
    if panes.len() == 0 {
        None
    } else if panes[0].pane_id == pane_id {
        Some(panes[0])
    } else {
        pane_named(panes.drop_first(), pane_id)
    }
}

proof fn lemma_pane_named_skip(panes: Seq<PaneView>, pane_id: Seq<char>, count: int)
    requires
        0 <= count <= panes.len(),
        forall|i: int| 0 <= i < count ==> (#[trigger] panes[i]).pane_id != pane_id,
    ensures
        pane_named(panes, pane_id) == pane_named(panes.skip(count), pane_id),
    decreases count,
{
    if count > 0 {
        let rest = panes.drop_first();
        assert forall|i: int| 0 <= i < count - 1 implies (#[trigger] rest[i]).pane_id != pane_id by {
            assert(rest[i] == panes[i + 1]);
        }
        lemma_pane_named_skip(rest, pane_id, count - 1);
        assert(rest.skip(count - 1) =~= panes.skip(count));
        assert(panes[0].pane_id != pane_id);
    } else {
        assert(panes.skip(0) =~= panes);
    }
}

/// The first pane listed under an identifier.
pub fn find_pane<'a>(panes: &'a [Pane], pane_id: &str) -> (found: Option<&'a Pane>)
    ensures
        match pane_named(pane_views(panes@), pane_id@) {
            Some(pane) => found is Some && found->0@ == pane,
            None => found is None,
        },
{
    let ghost all = pane_views(panes@);
    for i in 0..panes.len()
        invariant
            all == pane_views(panes@),
            forall|j: int| 0 <= j < i ==> (#[trigger] all[j]).pane_id != pane_id@,
    {
        if same_text(panes[i].pane_id.as_str(), pane_id) {
            proof {
                lemma_pane_named_skip(all, pane_id@, i as int);
                assert(all.skip(i as int)[0] == panes@[i as int]@);
            }
            return Some(&panes[i]);
        }
    }
    proof {
        lemma_pane_named_skip(all, pane_id@, all.len() as int);
    }
    None
}

/// A binding together with the pane that it names.
pub struct RowView {
    pub binding: BindingView,
    pub pane: PaneView,
}

/// The views of a sequence of rows.
pub open spec fn row_views(rows: Seq<(Binding, Pane)>) -> Seq<RowView> {
    rows.map_values(|row: (Binding, Pane)| RowView { binding: row.0@, pane: row.1@ })
}

/// Every binding whose pane is listed, with that pane, in ledger order.
pub open spec fn paired(bindings: Seq<BindingView>, panes: Seq<PaneView>) -> Seq<RowView>
    decreases bindings.len(),
{
    if bindings.len() == 0 {
        Seq::empty()
    } else {
        let earlier = paired(bindings.drop_last(), panes);
        match pane_named(panes, bindings.last().pane_id) {
            Some(pane) => earlier.push(RowView { binding: bindings.last(), pane }),
            None => earlier,
        }
    }
}

/// Pairs every binding whose pane is listed with that pane.
pub fn pair_panes(bindings: &[Binding], panes: &[Pane]) -> (rows: Vec<(Binding, Pane)>)
    ensures
        row_views(rows@) == paired(binding_views(bindings@), pane_views(panes@)),
{
    let ghost all = binding_views(bindings@);
    let mut rows: Vec<(Binding, Pane)> = Vec::new();
    assert(row_views(rows@) =~= paired(all.take(0), pane_views(panes@)));
    for i in 0..bindings.len()
        invariant
            all == binding_views(bindings@),
            row_views(rows@) == paired(all.take(i as int), pane_views(panes@)),
    {
        let ghost before = rows@;
        proof {
            assert(all.take(i + 1).drop_last() =~= all.take(i as int));
            assert(all.take(i + 1).last() == bindings@[i as int]@);
        }
        if let Some(pane) = find_pane(panes, bindings[i].pane_id.as_str()) {
            rows.push((bindings[i].clone(), pane.clone()));
            assert(row_views(rows@) =~= row_views(before).push(
                RowView { binding: bindings@[i as int]@, pane: pane@ },
            ));
        }
    }
    assert(all.take(bindings.len() as int) =~= all);
    rows
}

/// `rows` with `row` put behind the rows that it does not come before.
pub open spec fn row_inserted(rows: Seq<RowView>, row: RowView) -> Seq<RowView>
    decreases rows.len(),
{
    if rows.len() > 0 && text_before(row.binding.key, rows.last().binding.key) {
        row_inserted(rows.drop_last(), row).push(rows.last())
    } else {
        rows.push(row)
    }
}

/// `rows` in the lexicographic order of their keys; rows with the same key
/// keep their order.
pub open spec fn in_key_order(rows: Seq<RowView>) -> Seq<RowView>
    decreases rows.len(),
{
    if rows.len() == 0 {
        rows
    } else {
        row_inserted(in_key_order(rows.drop_last()), rows.last())
    }
}

/// No row comes before an earlier one.
pub open spec fn keys_ascend(rows: Seq<RowView>) -> bool {
    forall|i: int, j: int|
        #![trigger rows[i], rows[j]]
        0 <= i < j < rows.len() ==> !text_before(rows[j].binding.key, rows[i].binding.key)
}

proof fn lemma_row_inserted_at(rows: Seq<RowView>, row: RowView, at: int)
    requires
        0 <= at <= rows.len(),
        forall|i: int|
            at <= i < rows.len() ==> text_before(
                row.binding.key,
                (#[trigger] rows[i]).binding.key,
            ),
        at > 0 ==> !text_before(row.binding.key, rows[at - 1].binding.key),
    ensures
        row_inserted(rows, row) == rows.insert(at, row),
    decreases rows.len(),
{
    if at < rows.len() {
        assert(text_before(row.binding.key, rows[rows.len() - 1].binding.key));
        lemma_row_inserted_at(rows.drop_last(), row, at);
        assert(rows.drop_last().insert(at, row).push(rows.last()) =~= rows.insert(at, row));
    } else {
        assert(rows.insert(at, row) =~= rows.push(row));
    }
}

fn sort_rows(rows: Vec<(Binding, Pane)>) -> (sorted: Vec<(Binding, Pane)>)
    ensures
        row_views(sorted@) == in_key_order(row_views(rows@)),
{
    let ghost all = row_views(rows@);
    let mut sorted: Vec<(Binding, Pane)> = Vec::new();
    assert(row_views(sorted@) =~= in_key_order(all.take(0)));
    for i in 0..rows.len()
        invariant
            all == row_views(rows@),
            row_views(sorted@) == in_key_order(all.take(i as int)),
    {
        let ghost before = sorted@;
        let ghost shown = row_views(before);
        let ghost row = all[i as int];
        let mut at: usize = sorted.len();
        while at > 0 && comes_before(rows[i].0.key.as_str(), sorted[at - 1].0.key.as_str())
            invariant
                i < rows.len(),
                at <= sorted.len(),
                sorted@ == before,
                shown == row_views(before),
                row.binding == rows@[i as int].0@,
                forall|j: int|
                    at <= j < shown.len() ==> text_before(
                        row.binding.key,
                        (#[trigger] shown[j]).binding.key,
                    ),
            decreases at,
        {
            assert(shown[at - 1].binding == sorted@[at - 1].0@);
            at = at - 1;
        }
        sorted.insert(at, (rows[i].0.clone(), rows[i].1.clone()));
        proof {
            if at > 0 {
                assert(shown[at - 1].binding == before[at - 1].0@);
            }
            lemma_row_inserted_at(shown, row, at as int);
            assert(row_views(sorted@) =~= shown.insert(at as int, row));
            assert(all.take(i + 1).drop_last() =~= all.take(i as int));
            assert(all.take(i + 1).last() == row);
        }
    }
    assert(all.take(rows.len() as int) =~= all);
    sorted
}

/// The bound panes in the lexicographic order of their keys.
pub fn status_rows(bindings: &[Binding], panes: &[Pane]) -> (rows: Vec<(Binding, Pane)>)
    ensures
        row_views(rows@) == in_key_order(
            paired(binding_views(bindings@), pane_views(panes@)),
        ),
{
    sort_rows(pair_panes(bindings, panes))
}

proof fn lemma_row_inserted(rows: Seq<RowView>, row: RowView)
    requires
        keys_ascend(rows),
    ensures
        keys_ascend(row_inserted(rows, row)),
        row_inserted(rows, row).to_multiset() == rows.to_multiset().insert(row),
    decreases rows.len(),
{
    broadcast use vstd::seq_lib::group_to_multiset_ensures;

    let result = row_inserted(rows, row);
    if rows.len() > 0 && text_before(row.binding.key, rows.last().binding.key) {
        let rest = rows.drop_last();
        let inner = row_inserted(rest, row);
        lemma_row_inserted(rest, row);
        assert(rows =~= rest.push(rows.last()));
        assert(result.to_multiset() =~= rows.to_multiset().insert(row));
        assert forall|i: int, j: int|
            #![trigger result[i], result[j]]
            0 <= i < j < result.len() implies !text_before(
            result[j].binding.key,
            result[i].binding.key,
        ) by {
            if j < inner.len() {
                assert(!text_before(inner[j].binding.key, inner[i].binding.key));
            } else {
                let last = rows.last();
                assert(result[j] == last);
                assert(inner.to_multiset().contains(inner[i]));
                assert(rest.to_multiset().insert(row).contains(inner[i]));
                if inner[i] == row {
                    if text_before(last.binding.key, row.binding.key) {
                        lemma_before_transitive(
                            row.binding.key,
                            last.binding.key,
                            row.binding.key,
                        );
                        lemma_before_irreflexive(row.binding.key);
                    }
                } else {
                    assert(rest.to_multiset().contains(inner[i]));
                    assert(rest.contains(inner[i]));
                    let k = choose|k: int| 0 <= k < rest.len() && rest[k] == inner[i];
                    assert(rows[k] == inner[i]);
                    assert(!text_before(rows[rows.len() - 1].binding.key, rows[k].binding.key));
                }
            }
        }
    } else {
        assert forall|i: int, j: int|
            #![trigger result[i], result[j]]
            0 <= i < j < result.len() implies !text_before(
            result[j].binding.key,
            result[i].binding.key,
        ) by {
            if j < rows.len() {
                assert(!text_before(rows[j].binding.key, rows[i].binding.key));
            } else {
                let last = rows[rows.len() - 1].binding.key;
                assert(!text_before(row.binding.key, last));
                assert(result[j] == row);
                if i < rows.len() - 1 {
                    assert(!text_before(last, rows[i].binding.key));
                    if text_before(row.binding.key, rows[i].binding.key) {
                        lemma_before_total(rows[i].binding.key, last);
                        if rows[i].binding.key != last {
                            lemma_before_transitive(row.binding.key, rows[i].binding.key, last);
                        }
                    }
                }
            }
        }
    }
}

/// Ordering the rows loses none, adds none, and leaves no row before one with
/// a lesser key.
pub proof fn law_key_order(rows: Seq<RowView>)
    ensures
        keys_ascend(in_key_order(rows)),
        in_key_order(rows).to_multiset() == rows.to_multiset(),
    decreases rows.len(),
{
    broadcast use vstd::seq_lib::group_to_multiset_ensures;

    if rows.len() > 0 {
        let rest = rows.drop_last();
        law_key_order(rest);
        lemma_row_inserted(in_key_order(rest), rows.last());
        assert(rows =~= rest.push(rows.last()));
    }
}

// ---------------------------------------------------------------------------
// Pane presentation
// ---------------------------------------------------------------------------

/// How one live pane is presented.
#[derive(Debug, PartialEq, Eq)]
pub struct PanePresentation {
    pub pane_id: String,
    pub title: String,
    pub binding: String,
    pub agent_status: String,
    pub focused: bool,
}

#[verifier::ext_equal]
pub struct PresentationView {
    pub pane_id: Seq<char>,
    pub title: Seq<char>,
    pub binding: Seq<char>,
    pub agent_status: Seq<char>,
    pub focused: bool,
}

impl View for PanePresentation {
    type V = PresentationView;

    open spec fn view(&self) -> PresentationView {
        PresentationView {
            pane_id: self.pane_id@,
            title: self.title@,
            binding: self.binding@,
            agent_status: self.agent_status@,
            focused: self.focused,
        }
    }
}

impl Clone for PanePresentation {
    fn clone(&self) -> (copy: Self)
        ensures
            copy@ == self@,
    {
        PanePresentation {
            pane_id: self.pane_id.clone(),
            title: self.title.clone(),
            binding: self.binding.clone(),
            agent_status: self.agent_status.clone(),
            focused: self.focused,
        }
    }
}

/// The views of a sequence of presentations.
pub open spec fn presentation_views(rows: Seq<PanePresentation>) -> Seq<PresentationView> {
    rows.map_values(|row: PanePresentation| row@)
}

/// The label, or else the stripped terminal title, or else the terminal title,
/// or else the identifier.
pub open spec fn title_of(pane: PaneView) -> Seq<char> {
    match (pane.label, pane.terminal_title_stripped, pane.terminal_title) {
        (Some(label), _, _) => label,
        (None, Some(title), _) => title,
        (None, None, Some(title)) => title,
        (None, None, None) => pane.pane_id,
    }
}

/// `unbound`, or the key with a capital F.
pub open spec fn binding_label(key: Option<Seq<char>>) -> Seq<char> {
    match key {
        Some(key) => "F"@ + key.skip(1),
        None => "unbound"@,
    }
}

/// How one pane is presented under a ledger.
pub open spec fn presented(pane: PaneView, bindings: Seq<BindingView>) -> PresentationView {
    PresentationView {
        pane_id: pane.pane_id,
        title: title_of(pane),
        binding: binding_label(bound_key(bindings, pane.pane_id)),
        agent_status: pane.agent_status,
        focused: pane.focused,
    }
}

fn label_for(key: Option<&str>) -> (label: String)
    requires
        key is Some ==> key->0@.len() > 0,
    ensures
        label@ == binding_label(crate::text::option_str_view(key)),
{
    match key {
        Some(key) => {
            let length = key.unicode_len();
            let rest = key.substring_char(1, length);
            assert(rest@ =~= key@.skip(1));
            "F".to_owned().concat(rest)
        },
        None => "unbound".to_owned(),
    }
}

fn title(pane: &Pane) -> (text: String)
    ensures
        text@ == title_of(pane@),
{
    if let Some(label) = &pane.label {
        return label.clone();
    }
    if let Some(title) = &pane.terminal_title_stripped {
        return title.clone();
    }
    if let Some(title) = &pane.terminal_title {
        return title.clone();
    }
    pane.pane_id.clone()
}

/// How every listed pane is presented under a valid ledger.
pub fn present_panes(bindings: &[Binding], panes: &[Pane]) -> (rows: Vec<PanePresentation>)
    requires
        valid_ledger(binding_views(bindings@)),
    ensures
        presentation_views(rows@) == pane_views(panes@).map_values(
            |pane: PaneView| presented(pane, binding_views(bindings@)),
        ),
{
    let ghost entries = binding_views(bindings@);
    let mut rows: Vec<PanePresentation> = Vec::new();
    for i in 0..panes.len()
        invariant
            entries == binding_views(bindings@),
            valid_ledger(entries),
            rows.len() == i,
            forall|j: int|
                0 <= j < i ==> (#[trigger] rows@[j])@ == presented(panes@[j]@, entries),
    {
        let pane = &panes[i];
        let key = key_of_pane(bindings, pane.pane_id.as_str());
        proof {
            crate::ledger::lemma_bound_key(entries, pane.pane_id@);
            if let Some(key) = key {
                let entry = BindingView { key: key@, pane_id: pane.pane_id@ };
                let k = choose|k: int| 0 <= k < entries.len() && entries[k] == entry;
                assert(crate::binding::is_key(entries[k].key));
                crate::binding::lemma_key_not_empty(key@);
            }
        }
        rows.push(
            PanePresentation {
                pane_id: pane.pane_id.clone(),
                title: title(pane),
                binding: label_for(key),
                agent_status: pane.agent_status.clone(),
                focused: pane.focused,
            },
        );
    }
    assert(presentation_views(rows@) =~= pane_views(panes@).map_values(
        |pane: PaneView| presented(pane, entries),
    ));
    rows
}

} // verus!
