//! The set of workloads to restart in one pass, filled while secrets change
//! and handed out once at the end.
use vstd::prelude::*;
use crate::selector::{Selector, SelectorView};
use crate::workload::{needs_restart, need_restart, Workload, WorkloadView};

verus! {

pub open spec fn selector_views(s: Seq<Selector>) -> Seq<SelectorView> {
    s.map_values(|x: Selector| x@)
}

pub open spec fn no_duplicates(s: Seq<SelectorView>) -> bool {
    forall|i: int, j: int| 0 <= i < j < s.len() ==> s[i] != s[j]
}

/// The queue after scanning `workloads` for readers of secret `name`: each
/// one that must restart and is not queued yet is appended, in order.
pub open spec fn queued(queue: Seq<SelectorView>, workloads: Seq<WorkloadView>, name: Seq<char>) -> Seq<
    SelectorView,
>
    decreases workloads.len(),
{
    if workloads.len() == 0 {
        queue
    } else {
        let before = queued(queue, workloads.drop_last(), name);
        let w = workloads.last();
        if needs_restart(w, name) && !before.contains(w.id) {
            before.push(w.id)
        } else {
            before
        }
    }
}

/// Collects the workloads to restart during one pass; each at most once.
pub struct RestartManager {
    data: Vec<Selector>,
}

impl View for RestartManager {
    type V = Seq<SelectorView>;

    closed spec fn view(&self) -> Seq<SelectorView> {
        selector_views(self.data@)
    }
}

impl RestartManager {
    pub open spec fn wf(&self) -> bool {
        no_duplicates(self@)
    }

    /// An empty set.
    pub fn new() -> (r: RestartManager)
        ensures
            r.wf(),
            r@ == Seq::<SelectorView>::empty(),
    {
        RestartManager { data: Vec::new() }
    }

    /// Whether `id` is queued.
    pub fn contains(&self, id: &Selector) -> (r: bool)
        ensures
            r == self@.contains(id@),
    {
        let mut i: usize = 0;
        while i < self.data.len()
            invariant
                i <= self.data@.len(),
                forall|j: int| 0 <= j < i ==> self@[j] != id@,
            decreases self.data@.len() - i,
        {
            assert(self@[i as int] == self.data@[i as int]@);
            if self.data[i].same(id) {
                return true;
            }
            i = i + 1;
        }
        false
    }

    /// Queues every workload of `workloads` that reads secret `secret` and is
    /// not queued yet.
    pub fn add_linked_services(&mut self, secret: &Selector, workloads: &Vec<Workload>)
        requires
            old(self).wf(),
        ensures
            final(self).wf(),
            final(self)@ == queued(old(self)@, workloads@.map_values(|w: Workload| w@), secret@.name),
    {
        let name = secret.name();
        let ghost ws = workloads@.map_values(|w: Workload| w@);
        let mut i: usize = 0;
        while i < workloads.len()
            invariant
                ws == workloads@.map_values(|w: Workload| w@),
                name@ == secret@.name,
                i <= workloads@.len(),
                self.wf(),
                self@ == queued(old(self)@, ws.take(i as int), name@),
            decreases workloads@.len() - i,
        {
            let w = &workloads[i];
            proof {
                assert(ws.take(i + 1).drop_last() =~= ws.take(i as int));
                assert(ws.take(i + 1).last() == w@);
            }
            if need_restart(w, &name) && !self.contains(&w.id) {
                let ghost before = self@;
                self.data.push(w.id.copied());
                proof {
                    assert(self@ =~= before.push(w@.id));
                    assert forall|a: int, b: int| 0 <= a < b < self@.len() implies self@[a]
                        != self@[b] by {
                        if b == self@.len() - 1 {
                            assert(before[a] == self@[a]);
                        }
                    }
                }
            }
            i = i + 1;
        }
        assert(ws.take(i as int) =~= ws);
    }

    /// Hands out every queued workload, each once, to be restarted; the set
    /// is spent.
    pub fn restart(self) -> (r: Vec<Selector>)
        requires
            self.wf(),
        ensures
            selector_views(r@) == self@,
            no_duplicates(selector_views(r@)),
    {
        self.data
    }
}

/// Scanning never queues a workload twice.
pub proof fn lemma_queued_no_duplicates(queue: Seq<SelectorView>, workloads: Seq<WorkloadView>, name: Seq<char>)
    requires
        no_duplicates(queue),
    ensures
        no_duplicates(queued(queue, workloads, name)),
    decreases workloads.len(),
{
    if workloads.len() > 0 {
        lemma_queued_no_duplicates(queue, workloads.drop_last(), name);
        let before = queued(queue, workloads.drop_last(), name);
        let w = workloads.last();
        if needs_restart(w, name) && !before.contains(w.id) {
            let after = before.push(w.id);
            assert forall|i: int, j: int| 0 <= i < j < after.len() implies after[i] != after[j] by {
                if j == before.len() {
                    assert(after[i] == before[i]);
                }
            }
        }
    }
}

/// A workload is queued after a scan exactly when it was queued before, or it
/// is among the scanned workloads and must restart for that secret.
pub proof fn lemma_queued_members(queue: Seq<SelectorView>, workloads: Seq<WorkloadView>, name: Seq<char>, id: SelectorView)
    ensures
        queued(queue, workloads, name).contains(id) <==> (queue.contains(id) || exists|i: int|
            0 <= i < workloads.len() && (#[trigger] workloads[i]).id == id && needs_restart(workloads[i], name)),
    decreases workloads.len(),
{
    if workloads.len() > 0 {
        let prev = workloads.drop_last();
        lemma_queued_members(queue, prev, name, id);
        let before = queued(queue, prev, name);
        let w = workloads.last();
        if (exists|i: int| 0 <= i < prev.len() && (#[trigger] prev[i]).id == id && needs_restart(prev[i], name)) {
            let i = choose|i: int| 0 <= i < prev.len() && (#[trigger] prev[i]).id == id && needs_restart(prev[i], name);
            assert(workloads[i] == prev[i]);
        }
        if (exists|i: int| 0 <= i < workloads.len() && (#[trigger] workloads[i]).id == id && needs_restart(workloads[i], name)) {
            let i = choose|i: int| 0 <= i < workloads.len() && (#[trigger] workloads[i]).id == id && needs_restart(workloads[i], name);
            if i < workloads.len() - 1 {
                assert(prev[i] == workloads[i]);
            }
        }
        if needs_restart(w, name) && !before.contains(w.id) {
            if before.contains(id) {
                let k = choose|k: int| 0 <= k < before.len() && before[k] == id;
                assert(before.push(w.id)[k] == id);
            }
            if id == w.id {
                assert(before.push(w.id)[before.len() as int] == id);
            }
            if before.push(w.id).contains(id) && id != w.id {
                let k = choose|k: int| 0 <= k < before.len() + 1 && before.push(w.id)[k] == id;
                assert(before[k] == id);
            }
        }
    }
}

} // verus!
