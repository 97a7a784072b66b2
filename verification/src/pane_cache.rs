//! The current pane snapshot, kept up to date from Herdr's pane events.
//!
//! The cache deliberately has no binding policy.

use vstd::prelude::*;

use crate::binding::{pane_views, Pane, PaneView};
use crate::text::same_text;

verus! {

/// A change of one pane.
#[derive(Debug, PartialEq, Eq)]
pub enum PaneEvent {
    /// The pane was created or has changed.
    Upsert(Pane),
    /// The pane with this identifier is gone.
    Remove(String),
}

pub enum PaneEventView {
    Upsert(PaneView),
    Remove(Seq<char>),
}

impl View for PaneEvent {
    type V = PaneEventView;

    open spec fn view(&self) -> PaneEventView {
        match *self {
            PaneEvent::Upsert(pane) => PaneEventView::Upsert(pane@),
            PaneEvent::Remove(pane_id) => PaneEventView::Remove(pane_id@),
        }
    }
}

impl Clone for PaneEvent {
    fn clone(&self) -> (copy: Self)
        ensures
            copy@ == self@,
    {
        match self {
            PaneEvent::Upsert(pane) => PaneEvent::Upsert(pane.clone()),
            PaneEvent::Remove(pane_id) => PaneEvent::Remove(pane_id.clone()),
        }
    }
}

/// Whether a report of a pane is at least as recent as the cached one. Herdr's
/// revision is monotonic per pane; a report without one is taken as recent.
pub open spec fn supersedes(pane: PaneView, cached: PaneView) -> bool {
    pane.revision == 0 || pane.revision >= cached.revision
}

/// The panes after one was created or has changed: it takes the place of the
/// first pane with its identifier unless that one is more recent, and comes
/// last where there is none.
pub open spec fn upserted(panes: Seq<PaneView>, pane: PaneView) -> Seq<PaneView>
    decreases panes.len(),
{
    if panes.len() == 0 {
        seq![pane]
    } else if panes[0].pane_id == pane.pane_id {
        if supersedes(pane, panes[0]) {
            panes.update(0, pane)
        } else {
            panes
        }
    } else {
        seq![panes[0]] + upserted(panes.drop_first(), pane)
    }
}

/// The panes after an event.
pub open spec fn applied(panes: Seq<PaneView>, event: PaneEventView) -> Seq<PaneView> {
    match event {
        PaneEventView::Upsert(pane) => upserted(panes, pane),
        PaneEventView::Remove(pane_id) => panes.filter(
            |pane: PaneView| pane.pane_id != pane_id,
        ),
    }
}

proof fn lemma_upserted_skip(panes: Seq<PaneView>, pane: PaneView, count: int)
    requires
        0 <= count <= panes.len(),
        forall|i: int| 0 <= i < count ==> (#[trigger] panes[i]).pane_id != pane.pane_id,
    ensures
        upserted(panes, pane) == panes.take(count) + upserted(panes.skip(count), pane),
    decreases count,
{
    if count > 0 {
        let rest = panes.drop_first();
        assert forall|i: int| 0 <= i < count - 1 implies (#[trigger] rest[i]).pane_id
            != pane.pane_id by {
            assert(rest[i] == panes[i + 1]);
        }
        lemma_upserted_skip(rest, pane, count - 1);
        assert(rest.skip(count - 1) =~= panes.skip(count));
        assert(panes[0].pane_id != pane.pane_id);
        assert(seq![panes[0]] + (rest.take(count - 1) + upserted(panes.skip(count), pane))
            =~= panes.take(count) + upserted(panes.skip(count), pane));
    } else {
        assert(panes.skip(0) =~= panes);
        assert(panes.take(0) + upserted(panes, pane) =~= upserted(panes, pane));
    }
}

/// The current panes. The daemon's threads share one cache behind a lock.
pub struct PaneCache {
    panes: Vec<Pane>,
}

impl View for PaneCache {
    type V = Seq<PaneView>;

    closed spec fn view(&self) -> Seq<PaneView> {
        pane_views(self.panes@)
    }
}

impl Default for PaneCache {
    /// A cache without panes.
    fn default() -> (cache: Self)
        ensures
            cache@ == Seq::<PaneView>::empty(),
    {
        let cache = PaneCache { panes: Vec::new() };
        assert(cache@ =~= Seq::<PaneView>::empty());
        cache
    }
}

impl PaneCache {
    /// A cache that starts from a complete snapshot.
    pub fn new(initial: Vec<Pane>) -> (cache: Self)
        ensures
            cache@ == pane_views(initial@),
    {
        PaneCache { panes: initial }
    }

    /// The current panes.
    pub fn panes(&self) -> (panes: Vec<Pane>)
        ensures
            pane_views(panes@) == self@,
    {
        let mut panes: Vec<Pane> = Vec::new();
        for i in 0..self.panes.len()
            invariant
                panes.len() == i,
                forall|j: int| 0 <= j < i ==> (#[trigger] panes@[j])@ == self.panes@[j]@,
        {
            panes.push(self.panes[i].clone());
        }
        assert(pane_views(panes@) =~= self@);
        panes
    }

    /// Takes what came of asking for a complete snapshot: it replaces the
    /// current one, and a failure, which is handed back, keeps that.
    pub fn refresh(&mut self, snapshot: Result<Vec<Pane>, String>) -> (failure: Option<String>)
        ensures
            match snapshot {
                Ok(panes) => final(self)@ == pane_views(panes@) && failure is None,
                Err(message) => final(self)@ == old(self)@ && failure is Some && (failure->0)@
                    == message@,
            },
    {
        match snapshot {
            Ok(panes) => {
                self.replace(panes);
                None
            },
            Err(message) => Some(message),
        }
    }

    /// Puts a complete snapshot in place of the current one.
    pub fn replace(&mut self, panes: Vec<Pane>)
        ensures
            final(self)@ == pane_views(panes@),
    {
        self.panes = panes;
    }

    fn upsert(&mut self, pane: Pane)
        ensures
            final(self)@ == upserted(old(self)@, pane@),
    {
        let ghost before = self@;
        let ghost report = pane@;
        let count = self.panes.len();
        for i in 0..count
            invariant
                count == self.panes.len(),
                self@ == before,
                before == old(self)@,
                report == pane@,
                forall|j: int| 0 <= j < i ==> (#[trigger] before[j]).pane_id != report.pane_id,
        {
            assert(before[i as int] == self.panes@[i as int]@);
            if same_text(self.panes[i].pane_id.as_str(), pane.pane_id.as_str()) {
                proof {
                    lemma_upserted_skip(before, report, i as int);
                    assert(before.skip(i as int)[0] == before[i as int]);
                }
                if pane.revision == 0 || pane.revision >= self.panes[i].revision {
                    self.panes.set(i, pane);
                    assert(self@ =~= before.take(i as int) + before.skip(i as int).update(
                        0,
                        report,
                    ));
                } else {
                    assert(self@ =~= before.take(i as int) + before.skip(i as int));
                }
                return ;
            }
        }
        self.panes.push(pane);
        proof {
            let n = before.len() as int;
            lemma_upserted_skip(before, report, n);
            assert(self@ =~= before.take(n) + seq![report]);
        }
    }

    fn remove(&mut self, pane_id: &str)
        ensures
            final(self)@ == old(self)@.filter(|pane: PaneView| pane.pane_id != pane_id@),
    {
        let ghost all = self@;
        let ghost test = |pane: PaneView| pane.pane_id != pane_id@;
        let mut kept: Vec<Pane> = Vec::new();
        proof {
            reveal(Seq::filter);
            assert(pane_views(kept@) =~= all.take(0).filter(test));
        }
        for i in 0..self.panes.len()
            invariant
                all == pane_views(self.panes@),
                test == (|pane: PaneView| pane.pane_id != pane_id@),
                pane_views(kept@) == all.take(i as int).filter(test),
        {
            let ghost before = kept@;
            proof {
                reveal(Seq::filter);
                assert(all.take(i + 1).drop_last() =~= all.take(i as int));
                assert(all.take(i + 1).last() == self.panes@[i as int]@);
            }
            if !same_text(self.panes[i].pane_id.as_str(), pane_id) {
                kept.push(self.panes[i].clone());
                assert(pane_views(kept@) =~= pane_views(before).push(self.panes@[i as int]@));
            }
        }
        assert(all.take(self.panes.len() as int) =~= all);
        self.panes = kept;
    }

    /// Applies one event.
    pub fn apply(&mut self, event: PaneEvent)
        ensures
            final(self)@ == applied(old(self)@, event@),
    {
        match event {
            PaneEvent::Upsert(pane) => self.upsert(pane),
            PaneEvent::Remove(pane_id) => self.remove(pane_id.as_str()),
        }
    }
}

/// Every pane is listed once.
pub open spec fn listed_once(panes: Seq<PaneView>) -> bool {
    forall|i: int, j: int|
        #![trigger panes[i], panes[j]]
        0 <= i < j < panes.len() ==> panes[i].pane_id != panes[j].pane_id
}

/// A delayed report never rolls a pane back, and a report of one pane leaves
/// every other pane as it is.
pub proof fn law_upsert_never_rolls_back(panes: Seq<PaneView>, pane: PaneView, index: int)
    requires
        0 <= index < panes.len(),
    ensures
        upserted(panes, pane).len() >= panes.len(),
        panes[index].pane_id != pane.pane_id ==> upserted(panes, pane)[index] == panes[index],
        pane.revision > 0 ==> upserted(panes, pane)[index].revision >= panes[index].revision,
    decreases panes.len(),
{
    if panes[0].pane_id != pane.pane_id && index > 0 {
        assert(panes.drop_first()[index - 1] == panes[index]);
        law_upsert_never_rolls_back(panes.drop_first(), pane, index - 1);
    } else if panes[0].pane_id != pane.pane_id && panes.len() > 1 {
        law_upsert_never_rolls_back(panes.drop_first(), pane, 0);
    }
}

proof fn lemma_upserted_ids(panes: Seq<PaneView>, pane: PaneView)
    ensures
        forall|i: int|
            0 <= i < panes.len() ==> (#[trigger] upserted(panes, pane)[i]).pane_id
                == panes[i].pane_id,
        upserted(panes, pane).len() == panes.len() || (upserted(panes, pane).len() == panes.len()
            + 1 && upserted(panes, pane).last() == pane && (forall|i: int|
            0 <= i < panes.len() ==> (#[trigger] panes[i]).pane_id != pane.pane_id)),
    decreases panes.len(),
{
    if panes.len() > 0 && panes[0].pane_id != pane.pane_id {
        let rest = panes.drop_first();
        let inner = upserted(rest, pane);
        let result = upserted(panes, pane);
        lemma_upserted_ids(rest, pane);
        assert forall|i: int| 0 <= i < panes.len() implies (#[trigger] result[i]).pane_id
            == panes[i].pane_id by {
            if i > 0 {
                assert(result[i] == inner[i - 1]);
                assert(rest[i - 1] == panes[i]);
            }
        }
        if inner.len() == rest.len() + 1 {
            assert(result.last() == inner.last());
            assert forall|i: int| 0 <= i < panes.len() implies (#[trigger] panes[i]).pane_id
                != pane.pane_id by {
                if i > 0 {
                    assert(rest[i - 1] == panes[i]);
                }
            }
        }
    }
}

proof fn lemma_filter_once(panes: Seq<PaneView>, test: spec_fn(PaneView) -> bool)
    requires
        listed_once(panes),
    ensures
        listed_once(panes.filter(test)),
        forall|i: int|
            0 <= i < panes.filter(test).len() ==> test(#[trigger] panes.filter(test)[i])
                && panes.contains(panes.filter(test)[i]),
    decreases panes.len(),
{
    reveal(Seq::filter);
    if panes.len() > 0 {
        let rest = panes.drop_last();
        assert forall|i: int, j: int|
            #![trigger rest[i], rest[j]]
            0 <= i < j < rest.len() implies rest[i].pane_id != rest[j].pane_id by {
            assert(rest[i] == panes[i] && rest[j] == panes[j]);
        }
        lemma_filter_once(rest, test);
        let inner = rest.filter(test);
        let kept = panes.filter(test);
        assert forall|i: int| 0 <= i < kept.len() implies test(#[trigger] kept[i])
            && panes.contains(kept[i]) by {
            if i < inner.len() {
                assert(kept[i] == inner[i]);
                let k = choose|k: int| 0 <= k < rest.len() && rest[k] == inner[i];
                assert(panes[k] == kept[i]);
            } else {
                assert(kept[i] == panes[panes.len() - 1]);
            }
        }
        assert forall|i: int, j: int|
            #![trigger kept[i], kept[j]]
            0 <= i < j < kept.len() implies kept[i].pane_id != kept[j].pane_id by {
            if j < inner.len() {
                assert(kept[i] == inner[i] && kept[j] == inner[j]);
            } else {
                assert(kept[i] == inner[i]);
                let k = choose|k: int| 0 <= k < rest.len() && rest[k] == inner[i];
                assert(panes[k] == kept[i]);
                assert(kept[j] == panes[panes.len() - 1]);
            }
        }
    }
}

/// Events keep every pane listed once, and a removed pane is gone.
pub proof fn law_events_keep_panes_unique(panes: Seq<PaneView>, event: PaneEventView)
    requires
        listed_once(panes),
    ensures
        listed_once(applied(panes, event)),
        event is Remove ==> forall|i: int|
            0 <= i < applied(panes, event).len() ==> (#[trigger] applied(panes, event)[i]).pane_id
                != event->Remove_0,
{
    match event {
        PaneEventView::Upsert(pane) => {
            lemma_upserted_ids(panes, pane);
            let result = upserted(panes, pane);
            assert forall|i: int, j: int|
                #![trigger result[i], result[j]]
                0 <= i < j < result.len() implies result[i].pane_id != result[j].pane_id by {
                assert(result[i].pane_id == panes[i].pane_id);
                if j < panes.len() {
                    assert(result[j].pane_id == panes[j].pane_id);
                }
            }
        },
        PaneEventView::Remove(pane_id) => {
            lemma_filter_once(panes, |pane: PaneView| pane.pane_id != pane_id);
        },
    }
}

} // verus!
