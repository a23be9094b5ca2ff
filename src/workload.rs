//! Workload objects as the restart logic reads them: for each container, the
//! secrets that its environment variables and bulk imports come from.
use vstd::prelude::*;
use crate::selector::{opt_view, ResourceKind, Selector, SelectorView};

verus! {

/// The secret references of one container.
pub struct Container {
    /// For each environment variable, the secret its value is read from, if any.
    pub env: Vec<Option<String>>,
    /// For each bulk environment import, the secret it imports whole, if any.
    pub env_from: Vec<Option<String>>,
}

pub struct ContainerView {
    pub env: Seq<Option<Seq<char>>>,
    pub env_from: Seq<Option<Seq<char>>>,
}

pub open spec fn opt_views(s: Seq<Option<String>>) -> Seq<Option<Seq<char>>> {
    s.map_values(|o: Option<String>| opt_view(o))
}

impl View for Container {
    type V = ContainerView;

    open spec fn view(&self) -> ContainerView {
        ContainerView { env: opt_views(self.env@), env_from: opt_views(self.env_from@) }
    }
}

/// A workload object: its identity and its pod template's containers.
pub struct Workload {
    pub id: Selector,
    pub containers: Vec<Container>,
}

pub struct WorkloadView {
    pub id: SelectorView,
    pub containers: Seq<ContainerView>,
}

impl View for Workload {
    type V = WorkloadView;

    open spec fn view(&self) -> WorkloadView {
        WorkloadView { id: self.id@, containers: self.containers@.map_values(|c: Container| c@) }
    }
}

/// A container reads secret `name`, through a variable or a bulk import.
pub open spec fn container_references(c: ContainerView, name: Seq<char>) -> bool {
    c.env.contains(Some(name)) || c.env_from.contains(Some(name))
}

/// Some container of the workload reads secret `name`.
pub open spec fn references(w: WorkloadView, name: Seq<char>) -> bool {
    exists|i: int| 0 <= i < w.containers.len() && container_references(#[trigger] w.containers[i], name)
}

/// A workload must be restarted when secret `name` changes: it is of a kind
/// that can be restarted and it reads that secret.
pub open spec fn needs_restart(w: WorkloadView, name: Seq<char>) -> bool {
    match w.id.kind {
        ResourceKind::Deployment => references(w, name),
        ResourceKind::Secret => false,
    }
}

fn refs_contain(refs: &Vec<Option<String>>, name: &String) -> (r: bool)
    ensures
        r == opt_views(refs@).contains(Some(name@)),
{
    let mut i: usize = 0;
    while i < refs.len()
        invariant
            i <= refs@.len(),
            forall|j: int| 0 <= j < i ==> opt_views(refs@)[j] != Some(name@),
        decreases refs@.len() - i,
    {
        assert(opt_views(refs@)[i as int] == opt_view(refs@[i as int]));
        match &refs[i] {
            Some(s) => {
                if s.eq(name) {
                    return true;
                }
            },
            None => {},
        }
        i = i + 1;
    }
    false
}

/// Whether some container of `workload` reads secret `secret_name`, through a
/// variable's secret key reference or through a whole-secret import.
pub fn references_secret(workload: &Workload, secret_name: &String) -> (r: bool)
    ensures
        r == references(workload@, secret_name@),
{
    let mut i: usize = 0;
    while i < workload.containers.len()
        invariant
            i <= workload.containers@.len(),
            forall|j: int|
                0 <= j < i ==> !container_references(#[trigger] workload@.containers[j], secret_name@),
        decreases workload.containers@.len() - i,
    {
        let c = &workload.containers[i];
        assert(workload@.containers[i as int] == c@);
        if refs_contain(&c.env, secret_name) || refs_contain(&c.env_from, secret_name) {
            return true;
        }
        i = i + 1;
    }
    false
}

/// Whether `workload` is to be restarted when secret `secret_name` changes;
/// only deployments are restarted.
pub fn need_restart(workload: &Workload, secret_name: &String) -> (r: bool)
    ensures
        r == needs_restart(workload@, secret_name@),
{
    match workload.id.kind() {
        ResourceKind::Deployment => references_secret(workload, secret_name),
        ResourceKind::Secret => false,
    }
}

} // verus!
