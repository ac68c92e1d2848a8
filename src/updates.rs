//! The lifecycle of queued index updates: enqueued, then processing, then
//! processed or failed, with at most one update processing per index.
use vstd::prelude::*;

use crate::index_controller::{
    DocumentAdditionResult, Facets, IndexDocumentsMethod, Settings, UpdateFormat,
};

verus! {

/// The kind of mutation an update carries.
#[derive(Clone, Debug)]
pub enum UpdateMeta {
    DocumentsAddition { method: IndexDocumentsMethod, format: UpdateFormat },
    ClearDocuments,
    DeleteDocuments,
    Settings(Settings),
    Facets(Facets),
}

/// What an applied update reports.
#[derive(Clone, Copy, Debug, PartialEq, Eq, Structural)]
pub enum UpdateResult {
    DocumentsAddition(DocumentAdditionResult),
    DocumentDeletion { deleted: usize },
    Other,
}

/// Where an update stands; `Processed` and `Failed` are final.
#[derive(Clone, Debug)]
pub enum UpdateState {
    Enqueued,
    Processing,
    Processed(UpdateResult),
    Failed(String),
}

/// The state of an update without its payload.
#[derive(Clone, Copy, Debug, PartialEq, Eq, Structural)]
pub enum UpdatePhase {
    Enqueued,
    Processing,
    Processed,
    Failed,
}

/// An update queued for an index.
#[derive(Clone, Debug)]
pub struct UpdateRecord {
    pub index: String,
    pub update_id: u64,
    pub meta: UpdateMeta,
}

/// Why an update could not change state.
#[derive(Clone, Copy, Debug, PartialEq, Eq, Structural)]
pub enum UpdateError {
    /// No update has that id.
    UnknownUpdate,
    /// The update is not waiting to be processed.
    NotEnqueued,
    /// Another update of the same index is being processed.
    IndexBusy,
    /// The update is not being processed.
    NotProcessing,
}

pub open spec fn phase_of(s: UpdateState) -> UpdatePhase {
    match s {
        UpdateState::Enqueued => UpdatePhase::Enqueued,
        UpdateState::Processing => UpdatePhase::Processing,
        UpdateState::Processed(_) => UpdatePhase::Processed,
        UpdateState::Failed(_) => UpdatePhase::Failed,
    }
}

/// Whether some update of index `index` is processing.
pub open spec fn index_busy(
    records: Seq<UpdateRecord>,
    states: Seq<UpdateState>,
    index: Seq<char>,
) -> bool {
    exists|j: int|
        0 <= j < records.len() && #[trigger] states[j] is Processing && records[j].index@ == index
}

/// At most one processing update per index.
pub open spec fn processing_exclusive(records: Seq<UpdateRecord>, states: Seq<UpdateState>) -> bool {
    forall|i: int, j: int|
        0 <= i < records.len() && 0 <= j < records.len() && i != j && #[trigger] states[i] is Processing
            && #[trigger] states[j] is Processing ==> records[i].index@ != records[j].index@
}

/// What refuses starting update `id`, if anything.
pub open spec fn start_error(
    records: Seq<UpdateRecord>,
    states: Seq<UpdateState>,
    id: u64,
) -> Option<UpdateError> {
    if id >= records.len() {
        Some(UpdateError::UnknownUpdate)
    } else if !(states[id as int] is Enqueued) {
        Some(UpdateError::NotEnqueued)
    } else if index_busy(records, states, records[id as int].index@) {
        Some(UpdateError::IndexBusy)
    } else {
        None
    }
}

/// What refuses finishing update `id`, if anything.
pub open spec fn finish_error(states: Seq<UpdateState>, id: u64) -> Option<UpdateError> {
    if id >= states.len() {
        Some(UpdateError::UnknownUpdate)
    } else if !(states[id as int] is Processing) {
        Some(UpdateError::NotProcessing)
    } else {
        None
    }
}

/// The final state that an outcome gives.
pub open spec fn outcome_state(outcome: Result<UpdateResult, String>) -> UpdateState {
    match outcome {
        Ok(r) => UpdateState::Processed(r),
        Err(e) => UpdateState::Failed(e),
    }
}

/// The ids, in order, of the updates among the first `n` of `records` that target `index`.
pub open spec fn ids_of(records: Seq<UpdateRecord>, index: Seq<char>, n: int) -> Seq<u64>
    decreases n,
{
    if n <= 0 {
        Seq::empty()
    } else if records[n - 1].index@ == index {
        ids_of(records, index, n - 1).push((n - 1) as u64)
    } else {
        ids_of(records, index, n - 1)
    }
}

impl UpdateState {
    /// A copy of this state.
    pub fn copy(&self) -> (r: UpdateState)
        ensures
            r == *self,
    {
        match self {
            UpdateState::Enqueued => UpdateState::Enqueued,
            UpdateState::Processing => UpdateState::Processing,
            UpdateState::Processed(res) => UpdateState::Processed(*res),
            UpdateState::Failed(e) => UpdateState::Failed(e.clone()),
        }
    }
}

/// Every update ever queued, by id, with its state.
pub struct UpdateStore {
    records: Vec<UpdateRecord>,
    states: Vec<UpdateState>,
}

impl UpdateStore {
    pub closed spec fn records(&self) -> Seq<UpdateRecord> {
        self.records@
    }

    pub closed spec fn states(&self) -> Seq<UpdateState> {
        self.states@
    }

    pub open spec fn wf(&self) -> bool {
        &&& self.records().len() == self.states().len()
        &&& forall|i: int|
            0 <= i < self.records().len() ==> #[trigger] self.records()[i].update_id == i
        &&& processing_exclusive(self.records(), self.states())
    }

    /// A store with no update.
    pub fn new() -> (r: Self)
        ensures
            r.wf(),
            r.records().len() == 0,
    {
        UpdateStore { records: Vec::new(), states: Vec::new() }
    }

    /// Queues an update of `index`, and returns its id.
    pub fn enqueue(&mut self, index: &str, meta: UpdateMeta) -> (r: u64)
        requires
            old(self).wf(),
            old(self).records().len() < u64::MAX,
        ensures
            final(self).wf(),
            r == old(self).records().len(),
            final(self).records() == old(self).records().push(
                UpdateRecord { index: final(self).records()[r as int].index, update_id: r, meta },
            ),
            final(self).records()[r as int].index@ == index@,
            final(self).states() == old(self).states().push(UpdateState::Enqueued),
    {
        let id = self.records.len() as u64;
        self.records.push(UpdateRecord { index: index.to_owned(), update_id: id, meta });
        self.states.push(UpdateState::Enqueued);
        proof {
            let rs = self.records@;
            let st = self.states@;
            assert forall|i: int, j: int|
                0 <= i < rs.len() && 0 <= j < rs.len() && i != j && #[trigger] st[i] is Processing
                    && #[trigger] st[j] is Processing implies rs[i].index@ != rs[j].index@ by {
                assert(st[i] == old(self).states@[i]);
                assert(st[j] == old(self).states@[j]);
                assert(rs[i] == old(self).records@[i]);
                assert(rs[j] == old(self).records@[j]);
            }
            assert forall|i: int| 0 <= i < rs.len() implies #[trigger] rs[i].update_id == i by {
                if i < rs.len() - 1 {
                    assert(rs[i] == old(self).records@[i]);
                }
            }
        }
        id
    }

    /// The phase of update `id`, if there is one.
    pub fn status(&self, id: u64) -> (r: Option<UpdatePhase>)
        requires
            self.wf(),
        ensures
            match r {
                Some(p) => id < self.states().len() && p == phase_of(self.states()[id as int]),
                None => id >= self.states().len(),
            },
    {
        if id >= self.states.len() as u64 {
            return None;
        }
        let p = match &self.states[id as usize] {
            UpdateState::Enqueued => UpdatePhase::Enqueued,
            UpdateState::Processing => UpdatePhase::Processing,
            UpdateState::Processed(_) => UpdatePhase::Processed,
            UpdateState::Failed(_) => UpdatePhase::Failed,
        };
        Some(p)
    }

    /// The full state of update `id`, with its result or failure message.
    pub fn update_state(&self, id: u64) -> (r: Option<UpdateState>)
        requires
            self.wf(),
        ensures
            match r {
                Some(st) => id < self.states().len() && st == self.states()[id as int],
                None => id >= self.states().len(),
            },
    {
        if id >= self.states.len() as u64 {
            return None;
        }
        Some(self.states[id as usize].copy())
    }

    /// The ids of all updates of `index`, in the order they were queued.
    pub fn index_updates(&self, index: &str) -> (r: Vec<u64>)
        requires
            self.wf(),
        ensures
            r@ == ids_of(self.records(), index@, self.records().len() as int),
    {
        let name = index.to_owned();
        let mut out: Vec<u64> = Vec::new();
        let mut i: usize = 0;
        while i < self.records.len()
            invariant
                i <= self.records@.len(),
                name@ == index@,
                out@ == ids_of(self.records@, index@, i as int),
            decreases self.records@.len() - i,
        {
            if self.records[i].index == name {
                out.push(i as u64);
            }
            i = i + 1;
        }
        out
    }

    /// Moves update `id` from enqueued to processing, unless its index is busy.
    pub fn start_processing(&mut self, id: u64) -> (r: Result<(), UpdateError>)
        requires
            old(self).wf(),
        ensures
            final(self).wf(),
            final(self).records() == old(self).records(),
            match r {
                Ok(()) => {
                    &&& start_error(old(self).records(), old(self).states(), id) is None
                    &&& final(self).states() == old(self).states().update(
                        id as int,
                        UpdateState::Processing,
                    )
                },
                Err(e) => {
                    &&& start_error(old(self).records(), old(self).states(), id) == Some(e)
                    &&& final(self).states() == old(self).states()
                },
            },
    {
        if id >= self.records.len() as u64 {
            return Err(UpdateError::UnknownUpdate);
        }
        let i = id as usize;
        match &self.states[i] {
            UpdateState::Enqueued => {},
            _ => {
                return Err(UpdateError::NotEnqueued);
            },
        }
        let mut j: usize = 0;
        while j < self.records.len()
            invariant
                self.wf(),
                self.records@ == old(self).records@,
                self.states@ == old(self).states@,
                i == id,
                i < self.records@.len(),
                self.states@[i as int] is Enqueued,
                j <= self.records@.len(),
                forall|k: int|
                    0 <= k < j ==> !(#[trigger] self.states@[k] is Processing
                        && self.records@[k].index@ == self.records@[i as int].index@),
            decreases self.records@.len() - j,
        {
            let busy = match &self.states[j] {
                UpdateState::Processing => self.records[j].index == self.records[i].index,
                _ => false,
            };
            if busy {
                assert(self.states@[j as int] is Processing && self.records@[j as int].index@
                    == self.records@[i as int].index@);
                assert(index_busy(self.records@, self.states@, self.records@[i as int].index@));
                return Err(UpdateError::IndexBusy);
            }
            j = j + 1;
        }
        self.states.set(i, UpdateState::Processing);
        proof {
            let rs = self.records@;
            let st = self.states@;
            let o = old(self).states@;
            assert forall|a: int, b: int|
                0 <= a < rs.len() && 0 <= b < rs.len() && a != b && #[trigger] st[a] is Processing
                    && #[trigger] st[b] is Processing implies rs[a].index@ != rs[b].index@ by {
                if a != i as int && b != i as int {
                    assert(o[a] == st[a] && o[b] == st[b]);
                } else if a == i as int {
                    assert(o[b] == st[b]);
                    assert(!(o[b] is Processing && rs[b].index@ == rs[i as int].index@));
                } else {
                    assert(o[a] == st[a]);
                    assert(!(o[a] is Processing && rs[a].index@ == rs[i as int].index@));
                }
            }
        }
        Ok(())
    }

    /// Records the outcome of processing update `id`; final states never change again.
    pub fn finish(&mut self, id: u64, outcome: Result<UpdateResult, String>) -> (r: Result<
        (),
        UpdateError,
    >)
        requires
            old(self).wf(),
        ensures
            final(self).wf(),
            final(self).records() == old(self).records(),
            match r {
                Ok(()) => {
                    &&& finish_error(old(self).states(), id) is None
                    &&& final(self).states() == old(self).states().update(
                        id as int,
                        outcome_state(outcome),
                    )
                },
                Err(e) => {
                    &&& finish_error(old(self).states(), id) == Some(e)
                    &&& final(self).states() == old(self).states()
                },
            },
    {
        if id >= self.states.len() as u64 {
            return Err(UpdateError::UnknownUpdate);
        }
        let i = id as usize;
        match &self.states[i] {
            UpdateState::Processing => {},
            _ => {
                return Err(UpdateError::NotProcessing);
            },
        }
        let next = match outcome {
            Ok(res) => UpdateState::Processed(res),
            Err(e) => UpdateState::Failed(e),
        };
        self.states.set(i, next);
        proof {
            let rs = self.records@;
            let st = self.states@;
            let o = old(self).states@;
            assert forall|a: int, b: int|
                0 <= a < rs.len() && 0 <= b < rs.len() && a != b && #[trigger] st[a] is Processing
                    && #[trigger] st[b] is Processing implies rs[a].index@ != rs[b].index@ by {
                assert(o[a] == st[a] && o[b] == st[b]);
            }
        }
        Ok(())
    }
}

/// No two updates of one index are ever processing at once.
pub proof fn lemma_one_processing_per_index(store: UpdateStore, i: int, j: int)
    requires
        store.wf(),
        0 <= i < store.records().len(),
        0 <= j < store.records().len(),
        i != j,
        store.states()[i] is Processing,
        store.states()[j] is Processing,
    ensures
        store.records()[i].index@ != store.records()[j].index@,
{
}

/// An update processing on one index never holds back an update of another
/// index: starting the latter goes exactly as if the former were not processing,
/// so both may be processing at once.
pub proof fn lemma_other_index_never_blocks(store: UpdateStore, running: int, id: u64)
    requires
        store.wf(),
        0 <= running < store.records().len(),
        id < store.records().len(),
        store.states()[running] is Processing,
        store.records()[running].index@ != store.records()[id as int].index@,
    ensures
        start_error(store.records(), store.states(), id) == start_error(
            store.records(),
            store.states().update(running, UpdateState::Enqueued),
            id,
        ),
        start_error(store.records(), store.states(), id) is None ==> store.states().update(
            id as int,
            UpdateState::Processing,
        )[running] is Processing && processing_exclusive(
            store.records(),
            store.states().update(id as int, UpdateState::Processing),
        ),
{
    let rs = store.records();
    let st = store.states();
    let st2 = st.update(running, UpdateState::Enqueued);
    let ix = rs[id as int].index@;
    assert(id as int != running);
    assert(st2[id as int] == st[id as int]);
    if index_busy(rs, st, ix) {
        let k = choose|k: int| 0 <= k < rs.len() && #[trigger] st[k] is Processing && rs[k].index@ == ix;
        assert(k != running);
        assert(st2[k] == st[k]);
        assert(index_busy(rs, st2, ix));
    }
    if index_busy(rs, st2, ix) {
        let k = choose|k: int| 0 <= k < rs.len() && #[trigger] st2[k] is Processing && rs[k].index@ == ix;
        assert(st2[k] == st[k]);
        assert(index_busy(rs, st, ix));
    }
    if start_error(rs, st, id) is None {
        let st3 = st.update(id as int, UpdateState::Processing);
        assert forall|a: int, b: int|
            0 <= a < rs.len() && 0 <= b < rs.len() && a != b && #[trigger] st3[a] is Processing
                && #[trigger] st3[b] is Processing implies rs[a].index@ != rs[b].index@ by {
            if a == id as int {
                assert(st3[b] == st[b]);
                assert(!(st[b] is Processing && rs[b].index@ == ix));
            } else if b == id as int {
                assert(st3[a] == st[a]);
                assert(!(st[a] is Processing && rs[a].index@ == ix));
            } else {
                assert(st3[a] == st[a] && st3[b] == st[b]);
            }
        }
    }
}

/// A final state is never left: whatever `start_processing` or `finish` does to a
/// store (the states each of them may leave), a processed or failed update stays as it was.
pub proof fn lemma_final_states_stay(before: UpdateStore, after: UpdateStore, id: u64, k: int)
    requires
        before.wf(),
        0 <= k < before.states().len(),
        before.states()[k] is Processed || before.states()[k] is Failed,
        after.states() == before.states() || (start_error(before.records(), before.states(), id)
            is None && after.states() == before.states().update(id as int, UpdateState::Processing))
            || (finish_error(before.states(), id) is None && exists|outcome: Result<UpdateResult, String>|
            after.states() == before.states().update(id as int, #[trigger] outcome_state(outcome))),
    ensures
        after.states()[k] == before.states()[k],
{
}

} // verus!
