//! One reconciliation pass, as a state machine. The caller lists the
//! annotated objects, then performs each action that the pass asks for and
//! hands back what came of it, until the pass is finished.
//!
//! For every object whose version requirement admits this build the pass
//! decodes its configuration, resolves each entry, reads a change witness,
//! patches the object, reads the witness again and, where it moved, queues
//! the workloads that read the secret. A failure skips that object alone.
//! Last, each queued workload is restarted once.
use vstd::prelude::*;
use vstd::string::StringExecFns;
use crate::config::{normalize_config, normalized, Config, ConfigError, EnvView};
use crate::env::{encoded, env_map, names_of, repeated, resolve_env, views, ResolvedEnv};
use crate::restart::{lemma_queued_no_duplicates, no_duplicates, queued, selector_views, RestartManager};
use crate::selector::{latest, opt_view, ChangeWitness, ResourceKind, Selector, SelectorView, Timestamp};
use crate::version::{
    admitted_by, admitted_config, annotation, lookup, config_if_admitted, requirement_admits_version,
    version_parses,
    VERSION_ANNOTATION,
};
use crate::workload::Workload;

verus! {

/// Why the secret backend gave no value.
#[derive(Clone, Copy, Debug, PartialEq, Eq, Structural)]
pub enum ResolveError {
    NotFound,
    Unauthorized,
    Transport,
}

/// Why a cluster operation failed.
#[derive(Clone, Copy, Debug, PartialEq, Eq, Structural)]
pub enum ClusterError {
    NotFound,
    Transport,
}

/// The value of `field` among the fields of a backend secret; `NotFound`
/// when the secret has no such field.
pub fn secret_field(fields: &Vec<(String, String)>, field: &str) -> (r: Result<String, ResolveError>)
    ensures
        match lookup(fields@, field@) {
            Some(v) => r matches Ok(x) && x@ == v,
            None => r == Err::<String, ResolveError>(ResolveError::NotFound),
        },
{
    match annotation(fields, field) {
        Some(v) => Ok(v.clone()),
        None => Err(ResolveError::NotFound),
    }
}

/// A secret-bearing object as listed: its identity and its annotations.
pub struct AnnotatedObject {
    pub id: Selector,
    pub annotations: Vec<(String, String)>,
}

/// What came of the action that the pass asked for last.
pub enum Event {
    /// The configuration text, decoded; none when it is no configuration.
    ConfigDecoded(Option<Config>),
    /// The value read from the secret backend.
    Resolved(Result<String, ResolveError>),
    /// The times of the object's recorded writes.
    Witnessed(Result<Vec<Option<Timestamp>>, ClusterError>),
    Patched(Result<(), ClusterError>),
    /// The workloads in the secret's namespace.
    WorkloadsListed(Result<Vec<Workload>, ClusterError>),
    Restarted(Result<(), ClusterError>),
}

/// What the pass asks its caller to do next.
pub enum Action {
    /// Decode this configuration text.
    DecodeConfig { text: String },
    /// Read `field` of backend secret `secret` under `engine`.
    Resolve { engine: String, secret: String, field: String },
    /// Read the times of the recorded writes of `target`.
    ReadWitness { target: Selector },
    /// Write `data` as the data of `target`, as its single writer.
    Patch { target: Selector, data: ResolvedEnv },
    /// List the workloads of `kind` in `namespace`.
    ListWorkloads { kind: ResourceKind, namespace: Option<String> },
    Restart { target: Selector },
    /// Nothing more: the pass is over.
    Finished,
}

/// Something that went wrong for one object, and did not stop the pass.
pub enum Warning {
    InvalidConfig { object: Selector, reason: ConfigError },
    DuplicateNames { object: Selector, names: Vec<String> },
    ResolveFailed { object: Selector, cause: ResolveError },
    ClusterFailed { object: Selector, error: ClusterError },
    RestartFailed { target: Selector, error: ClusterError },
}

pub enum ActionView {
    DecodeConfig { text: Seq<char> },
    Resolve { engine: Seq<char>, secret: Seq<char>, field: Seq<char> },
    ReadWitness { target: SelectorView },
    Patch { target: SelectorView, data: Map<Seq<char>, Seq<char>> },
    ListWorkloads { kind: ResourceKind, namespace: Option<Seq<char>> },
    Restart { target: SelectorView },
    Finished,
}

impl View for Action {
    type V = ActionView;

    open spec fn view(&self) -> ActionView {
        match self {
            Action::DecodeConfig { text } => ActionView::DecodeConfig { text: text@ },
            Action::Resolve { engine, secret, field } => ActionView::Resolve {
                engine: engine@,
                secret: secret@,
                field: field@,
            },
            Action::ReadWitness { target } => ActionView::ReadWitness { target: target@ },
            Action::Patch { target, data } => ActionView::Patch { target: target@, data: data@ },
            Action::ListWorkloads { kind, namespace } => ActionView::ListWorkloads {
                kind: *kind,
                namespace: opt_view(*namespace),
            },
            Action::Restart { target } => ActionView::Restart { target: target@ },
            Action::Finished => ActionView::Finished,
        }
    }
}

impl Action {
    pub open spec fn wf(&self) -> bool {
        match self {
            Action::Patch { data, .. } => data.wf(),
            _ => true,
        }
    }
}

pub enum WarningView {
    InvalidConfig { object: SelectorView, reason: ConfigError },
    DuplicateNames { object: SelectorView, names: Seq<Seq<char>> },
    ResolveFailed { object: SelectorView, cause: ResolveError },
    ClusterFailed { object: SelectorView, error: ClusterError },
    RestartFailed { target: SelectorView, error: ClusterError },
}

impl View for Warning {
    type V = WarningView;

    open spec fn view(&self) -> WarningView {
        match self {
            Warning::InvalidConfig { object, reason } => WarningView::InvalidConfig {
                object: object@,
                reason: *reason,
            },
            Warning::DuplicateNames { object, names } => WarningView::DuplicateNames {
                object: object@,
                names: views(names@),
            },
            Warning::ResolveFailed { object, cause } => WarningView::ResolveFailed {
                object: object@,
                cause: *cause,
            },
            Warning::ClusterFailed { object, error } => WarningView::ClusterFailed {
                object: object@,
                error: *error,
            },
            Warning::RestartFailed { target, error } => WarningView::RestartFailed {
                target: target@,
                error: *error,
            },
        }
    }
}

pub open spec fn warning_view(w: Option<Warning>) -> Option<WarningView> {
    match w {
        Some(x) => Some(x@),
        None => None,
    }
}

/// An object of the pass: its identity and, where its version requirement
/// admits this build, its configuration text.
struct Candidate {
    id: Selector,
    config_text: Option<String>,
}

pub struct CandidateView {
    pub id: SelectorView,
    pub config_text: Option<Seq<char>>,
}

impl View for Candidate {
    type V = CandidateView;

    closed spec fn view(&self) -> CandidateView {
        CandidateView { id: self.id@, config_text: opt_view(self.config_text) }
    }
}

/// Where the pass stands with its current object, or with the restarts.
enum Phase {
    Decoding,
    Resolving { config: Config, values: Vec<String> },
    Before { env: ResolvedEnv },
    Patching { before: ChangeWitness },
    After { before: ChangeWitness },
    Listing,
    Restarting { targets: Vec<Selector>, next: usize },
    Done,
}

pub enum PhaseView {
    /// Waiting for the current object's configuration.
    Decoding,
    /// Waiting for the value of entry `values.len()` of `config`.
    Resolving { config: Seq<EnvView>, values: Seq<Seq<char>> },
    /// Waiting for the witness before the patch of `env`.
    Before { env: Map<Seq<char>, Seq<char>> },
    /// Waiting for the patch.
    Patching { before: ChangeWitness },
    /// Waiting for the witness after the patch.
    After { before: ChangeWitness },
    /// Waiting for the workloads that may read the changed secret.
    Listing,
    /// Waiting for the restart of `targets[next]`.
    Restarting { targets: Seq<SelectorView>, next: nat },
    Done,
}

impl View for Phase {
    type V = PhaseView;

    closed spec fn view(&self) -> PhaseView {
        match self {
            Phase::Decoding => PhaseView::Decoding,
            Phase::Resolving { config, values } => PhaseView::Resolving {
                config: config@,
                values: views(values@),
            },
            Phase::Before { env } => PhaseView::Before { env: env@ },
            Phase::Patching { before } => PhaseView::Patching { before: *before },
            Phase::After { before } => PhaseView::After { before: *before },
            Phase::Listing => PhaseView::Listing,
            Phase::Restarting { targets, next } => PhaseView::Restarting {
                targets: selector_views(targets@),
                next: *next as nat,
            },
            Phase::Done => PhaseView::Done,
        }
    }
}

/// The state of a pass: its objects, the one it is at, what it waits for,
/// and the workloads queued for restart.
pub struct PassView {
    pub objects: Seq<CandidateView>,
    pub current: nat,
    pub phase: PhaseView,
    pub queue: Seq<SelectorView>,
}

pub open spec fn object_phase(p: PhaseView) -> bool {
    !(p is Restarting || p is Done)
}

/// What holds of every state that a pass reaches.
pub open spec fn inv(s: PassView) -> bool {
    &&& s.current <= s.objects.len()
    &&& no_duplicates(s.queue)
    &&& object_phase(s.phase) ==> s.current < s.objects.len()
        && s.objects[s.current as int].config_text is Some
    &&& s.phase matches PhaseView::Resolving { config, values } ==> 0 < config.len() && values.len()
        < config.len()
    &&& s.phase matches PhaseView::Restarting { targets, next } ==> next < targets.len()
        && no_duplicates(targets)
}

/// The index of the first object at or after `from` with a configuration.
pub open spec fn first_candidate(objects: Seq<CandidateView>, from: nat) -> nat
    decreases objects.len() - from,
{
    if from >= objects.len() {
        objects.len()
    } else if objects[from as int].config_text is Some {
        from
    } else {
        first_candidate(objects, from + 1)
    }
}

/// Moves on to the first object at or after `from` that has a configuration
/// or, when there is none, to the restarts.
pub open spec fn advance(objects: Seq<CandidateView>, queue: Seq<SelectorView>, from: nat) -> (
    PassView,
    ActionView,
) {
    let j = first_candidate(objects, from);
    if j < objects.len() {
        (
            PassView { objects, current: j, phase: PhaseView::Decoding, queue },
            ActionView::DecodeConfig { text: objects[j as int].config_text->Some_0 },
        )
    } else if queue.len() > 0 {
        (
            PassView {
                objects,
                current: objects.len(),
                phase: PhaseView::Restarting { targets: queue, next: 0 },
                queue: Seq::empty(),
            },
            ActionView::Restart { target: queue[0] },
        )
    } else {
        (
            PassView { objects, current: objects.len(), phase: PhaseView::Done, queue: Seq::empty() },
            ActionView::Finished,
        )
    }
}

/// Leaves the current object and moves on, with a warning or without.
pub open spec fn skip(s: PassView, w: Option<WarningView>) -> (PassView, ActionView, Option<WarningView>) {
    let (t, a) = advance(s.objects, s.queue, s.current + 1);
    (t, a, w)
}

pub open spec fn resolve_action(e: EnvView) -> ActionView {
    ActionView::Resolve { engine: e.engine, secret: e.secret, field: e.field }
}

/// Whether `e` is what the pass waits for in state `s`.
pub open spec fn expects(s: PassView, e: Event) -> bool {
    match s.phase {
        PhaseView::Decoding => e is ConfigDecoded,
        PhaseView::Resolving { .. } => e is Resolved,
        PhaseView::Before { .. } => e is Witnessed,
        PhaseView::Patching { .. } => e is Patched,
        PhaseView::After { .. } => e is Witnessed,
        PhaseView::Listing => e is WorkloadsListed,
        PhaseView::Restarting { .. } => e is Restarted,
        PhaseView::Done => false,
    }
}

/// The step of a pass in state `s` on event `e`: the next state, the next
/// action and the warning to report, if any.
pub open spec fn next(s: PassView, e: Event) -> (PassView, ActionView, Option<WarningView>) {
    let id = s.objects[s.current as int].id;
    match s.phase {
        PhaseView::Decoding => match e {
            Event::ConfigDecoded(Some(raw)) => match normalized(raw@) {
                Ok(entries) => if entries.len() == 0 {
                    skip(s, None)
                } else {
                    (
                        PassView {
                            phase: PhaseView::Resolving { config: entries, values: Seq::empty() },
                            ..s
                        },
                        resolve_action(entries[0]),
                        None,
                    )
                },
                Err(reason) => skip(s, Some(WarningView::InvalidConfig { object: id, reason })),
            },
            _ => skip(
                s,
                Some(WarningView::InvalidConfig { object: id, reason: ConfigError::Malformed }),
            ),
        },
        PhaseView::Resolving { config, values } => match e {
            Event::Resolved(Ok(v)) => {
                let vs = values.push(v@);
                if vs.len() < config.len() {
                    (
                        PassView { phase: PhaseView::Resolving { config, values: vs }, ..s },
                        resolve_action(config[vs.len() as int]),
                        None,
                    )
                } else {
                    let dups = repeated(names_of(config));
                    (
                        PassView {
                            phase: PhaseView::Before { env: env_map(names_of(config), vs) },
                            ..s
                        },
                        ActionView::ReadWitness { target: id },
                        if dups.len() > 0 {
                            Some(WarningView::DuplicateNames { object: id, names: dups })
                        } else {
                            None
                        },
                    )
                }
            },
            Event::Resolved(Err(cause)) => skip(
                s,
                Some(WarningView::ResolveFailed { object: id, cause }),
            ),
            _ => (s, ActionView::Finished, None),
        },
        PhaseView::Before { env } => match e {
            Event::Witnessed(Ok(times)) => (
                PassView { phase: PhaseView::Patching { before: latest(times@) }, ..s },
                ActionView::Patch { target: id, data: encoded(env) },
                None,
            ),
            Event::Witnessed(Err(error)) => skip(
                s,
                Some(WarningView::ClusterFailed { object: id, error }),
            ),
            _ => (s, ActionView::Finished, None),
        },
        PhaseView::Patching { before } => match e {
            Event::Patched(Ok(_)) => (
                PassView { phase: PhaseView::After { before }, ..s },
                ActionView::ReadWitness { target: id },
                None,
            ),
            Event::Patched(Err(error)) => skip(
                s,
                Some(WarningView::ClusterFailed { object: id, error }),
            ),
            _ => (s, ActionView::Finished, None),
        },
        PhaseView::After { before } => match e {
            Event::Witnessed(Ok(times)) => if latest(times@) == before {
                skip(s, None)
            } else {
                (
                    PassView { phase: PhaseView::Listing, ..s },
                    ActionView::ListWorkloads {
                        kind: ResourceKind::Deployment,
                        namespace: id.namespace,
                    },
                    None,
                )
            },
            Event::Witnessed(Err(error)) => skip(
                s,
                Some(WarningView::ClusterFailed { object: id, error }),
            ),
            _ => (s, ActionView::Finished, None),
        },
        PhaseView::Listing => match e {
            Event::WorkloadsListed(Ok(ws)) => {
                let q = queued(s.queue, ws@.map_values(|w: Workload| w@), id.name);
                let (t, a) = advance(s.objects, q, s.current + 1);
                (t, a, None)
            },
            Event::WorkloadsListed(Err(error)) => skip(
                s,
                Some(WarningView::ClusterFailed { object: id, error }),
            ),
            _ => (s, ActionView::Finished, None),
        },
        PhaseView::Restarting { targets, next } => match e {
            Event::Restarted(r) => {
                let w = match r {
                    Ok(_) => None,
                    Err(error) => Some(
                        WarningView::RestartFailed { target: targets[next as int], error },
                    ),
                };
                if next + 1 < targets.len() {
                    (
                        PassView {
                            phase: PhaseView::Restarting { targets, next: next + 1 },
                            ..s
                        },
                        ActionView::Restart { target: targets[next + 1 as int] },
                        w,
                    )
                } else {
                    (PassView { phase: PhaseView::Done, ..s }, ActionView::Finished, w)
                }
            },
            _ => (s, ActionView::Finished, None),
        },
        PhaseView::Done => (s, ActionView::Finished, None),
    }
}

/// How far a pass is from its end: objects left, then steps left with the
/// current object or restarts left, then entries left to resolve.
pub open spec fn objects_left(s: PassView) -> int {
    if object_phase(s.phase) {
        s.objects.len() - s.current
    } else {
        0
    }
}

pub open spec fn steps_left(s: PassView) -> int {
    match s.phase {
        PhaseView::Decoding => 6,
        PhaseView::Resolving { .. } => 5,
        PhaseView::Before { .. } => 4,
        PhaseView::Patching { .. } => 3,
        PhaseView::After { .. } => 2,
        PhaseView::Listing => 1,
        PhaseView::Restarting { targets, next } => targets.len() - next,
        PhaseView::Done => 0,
    }
}

pub open spec fn entries_left(s: PassView) -> int {
    match s.phase {
        PhaseView::Resolving { config, values } => config.len() - values.len(),
        _ => 0,
    }
}

/// `t` is strictly nearer the end of the pass than `s`.
pub open spec fn progressed(t: PassView, s: PassView) -> bool {
    ||| objects_left(t) < objects_left(s)
    ||| objects_left(t) == objects_left(s) && steps_left(t) < steps_left(s)
    ||| objects_left(t) == objects_left(s) && steps_left(t) == steps_left(s) && entries_left(t)
        < entries_left(s)
}

proof fn lemma_first_candidate(objects: Seq<CandidateView>, from: nat)
    requires
        from <= objects.len(),
    ensures
        from <= first_candidate(objects, from) <= objects.len(),
        first_candidate(objects, from) < objects.len() ==> objects[first_candidate(
            objects,
            from,
        ) as int].config_text is Some,
    decreases objects.len() - from,
{
    if from < objects.len() && objects[from as int].config_text is None {
        lemma_first_candidate(objects, from + 1);
    }
}

proof fn lemma_advance(objects: Seq<CandidateView>, queue: Seq<SelectorView>, from: nat)
    requires
        from <= objects.len(),
        no_duplicates(queue),
    ensures
        inv(advance(objects, queue, from).0),
        !(advance(objects, queue, from).0.phase is Restarting) ==> advance(objects, queue, from).0.current
            >= from,
{
    lemma_first_candidate(objects, from);
}

/// The workloads that the pass is still to restart: those queued and, during
/// the restarts, those not restarted yet.
pub open spec fn pending(s: PassView) -> Seq<SelectorView> {
    match s.phase {
        PhaseView::Restarting { targets, next } => targets.skip(next as int),
        PhaseView::Done => Seq::empty(),
        _ => s.queue,
    }
}

/// A failure of the cluster, the backend or the configuration for the
/// object at hand.
pub open spec fn is_failure(e: Event) -> bool {
    match e {
        Event::ConfigDecoded(None) => true,
        Event::Resolved(Err(_)) => true,
        Event::Witnessed(Err(_)) => true,
        Event::Patched(Err(_)) => true,
        Event::WorkloadsListed(Err(_)) => true,
        _ => false,
    }
}

proof fn lemma_advance_pending(objects: Seq<CandidateView>, queue: Seq<SelectorView>, from: nat)
    ensures
        pending(advance(objects, queue, from).0) == queue,
{
    let t = advance(objects, queue, from).0;
    if t.phase is Restarting {
        assert(queue.skip(0) =~= queue);
    }
    if t.phase is Done {
        assert(queue =~= Seq::<SelectorView>::empty());
    }
}

/// A patch that changed nothing restarts nothing: when the witness read
/// after the patch equals the one read before it, the pass lists no
/// workloads for the object and the workloads it is still to restart stay
/// the same; when the witness moved, it lists the workloads of the secret's
/// namespace.
pub proof fn lemma_unchanged_witness_no_restart(s: PassView, times: Vec<Option<Timestamp>>)
    requires
        inv(s),
        s.phase is After,
    ensures
        latest(times@) == s.phase->After_before ==> {
            let (t, a, w) = next(s, Event::Witnessed(Ok(times)));
            &&& !(a is ListWorkloads)
            &&& pending(t) == pending(s)
            &&& w is None
        },
        latest(times@) != s.phase->After_before ==> next(s, Event::Witnessed(Ok(times))).1
            == (ActionView::ListWorkloads {
            kind: ResourceKind::Deployment,
            namespace: s.objects[s.current as int].id.namespace,
        }),
{
    lemma_advance_pending(s.objects, s.queue, s.current + 1);
}

/// Every step keeps what holds of the states of a pass, and brings the pass
/// strictly nearer its end: from any state that a pass reaches, whatever
/// each object's actions come to, the pass finishes.
pub proof fn lemma_step_keeps_invariant(s: PassView, e: Event)
    requires
        inv(s),
        expects(s, e),
    ensures
        inv(next(s, e).0),
        progressed(next(s, e).0, s),
{
    if object_phase(s.phase) {
        lemma_advance(s.objects, s.queue, s.current + 1);
    }
    if let PhaseView::Listing = s.phase {
        if let Event::WorkloadsListed(Ok(ws)) = e {
            let id = s.objects[s.current as int].id;
            let q = queued(s.queue, ws@.map_values(|w: Workload| w@), id.name);
            lemma_queued_no_duplicates(s.queue, ws@.map_values(|w: Workload| w@), id.name);
            lemma_advance(s.objects, q, s.current + 1);
        }
    }
}

/// An object whose version requirement does not admit the build is never
/// the object that a pass works on: it is never read, patched, or the cause
/// of a workload listing, so it queues no restart.
pub proof fn lemma_excluded_object_never_patched(
    s: PassView,
    e: Event,
    i: int,
    annotations: Seq<(String, String)>,
    build: Seq<char>,
)
    requires
        inv(s),
        expects(s, e),
        0 <= i < s.objects.len(),
        s.objects[i].config_text == admitted_config(annotations, admitted_by(annotations, build)),
        !admitted_by(annotations, build),
    ensures
        object_phase(s.phase) ==> s.current != i,
        object_phase(next(s, e).0.phase) ==> next(s, e).0.current != i,
        next(s, e).1 is Patch || next(s, e).1 is ReadWitness || next(s, e).1 is ListWorkloads
            ==> s.current != i,
{
    lemma_step_keeps_invariant(s, e);
}

/// Patching is repeatable: two passes that resolved the same environment for
/// an object send it the same payload, the base64 encoding of each value, so
/// the second write finds nothing to change.
pub proof fn lemma_same_env_same_payload(
    s1: PassView,
    s2: PassView,
    times1: Vec<Option<Timestamp>>,
    times2: Vec<Option<Timestamp>>,
)
    requires
        inv(s1),
        inv(s2),
        s1.phase is Before,
        s2.phase is Before,
        s1.phase->Before_env == s2.phase->Before_env,
        s1.objects[s1.current as int].id == s2.objects[s2.current as int].id,
    ensures
        next(s1, Event::Witnessed(Ok(times1))).1 == next(s2, Event::Witnessed(Ok(times2))).1,
        next(s1, Event::Witnessed(Ok(times1))).1 == (ActionView::Patch {
            target: s1.objects[s1.current as int].id,
            data: encoded(s1.phase->Before_env),
        }),
{
}

/// Version gating: the pass reads the witness of, patches, and lists the
/// workloads for only the object it is at, and only when that object kept
/// its configuration text, which `Injector::begin_pass` leaves only to
/// objects whose version requirement admits this build.
pub proof fn lemma_only_admitted_objects_patched(s: PassView, e: Event)
    requires
        inv(s),
        expects(s, e),
    ensures
        ({
            let (t, a, w) = next(s, e);
            match a {
                ActionView::Patch { target, .. } => target == s.objects[s.current as int].id
                    && s.objects[s.current as int].config_text is Some,
                ActionView::ReadWitness { target } => target == s.objects[s.current as int].id
                    && s.objects[s.current as int].config_text is Some,
                ActionView::ListWorkloads { namespace, .. } => namespace
                    == s.objects[s.current as int].id.namespace
                    && s.objects[s.current as int].config_text is Some,
                _ => true,
            }
        }),
{
}

/// A failing object does not stop the pass: the failure is reported, and the
/// pass moves on to the next object that has a configuration, or to the
/// restarts, with the queue as it was.
pub proof fn lemma_failure_contained(s: PassView, e: Event)
    requires
        inv(s),
        object_phase(s.phase),
        expects(s, e),
        is_failure(e),
    ensures
        (next(s, e).0, next(s, e).1) == advance(s.objects, s.queue, s.current + 1),
        next(s, e).2 is Some,
        pending(next(s, e).0) == s.queue,
{
    lemma_advance_pending(s.objects, s.queue, s.current + 1);
}

/// The immutable context of the controller: the version of this build.
pub struct Injector {
    version: String,
}

impl Injector {
    /// The version of this build, as text.
    pub closed spec fn build(&self) -> Seq<char> {
        self.version@
    }

    /// A controller context for the build version `version`; none when that
    /// is not a version.
    pub fn new(version: &str) -> (r: Option<Injector>)
        ensures
            r is Some <==> version_parses(version@),
            r matches Some(i) ==> i.build() == version@,
    {
        match semver::Version::parse(version) {
            Ok(_) => Some(Injector { version: String::from_str(version) }),
            Err(_) => None,
        }
    }

    /// Whether the object's version annotation is a requirement that admits
    /// this build.
    pub fn admits(&self, annotations: &Vec<(String, String)>) -> (r: bool)
        ensures
            r == admitted_by(annotations@, self.build()),
    {
        let text = match annotation(annotations, VERSION_ANNOTATION) {
            Some(t) => t,
            None => return false,
        };
        requirement_admits_version(text.as_str(), self.version.as_str())
    }

    /// The configuration text of an object whose version requirement admits
    /// this build; none for every other object, and none for an object
    /// without a configuration annotation.
    pub fn get_config_if_available(&self, annotations: &Vec<(String, String)>) -> (r: Option<String>)
        ensures
            opt_view(r) == admitted_config(annotations@, admitted_by(annotations@, self.build())),
    {
        let admitted = self.admits(annotations);
        config_if_admitted(annotations, admitted)
    }

    /// Starts a pass over the listed objects: each keeps its configuration
    /// text where its version requirement admits this build. Returns the pass
    /// and its first action.
    pub fn begin_pass(&self, objects: Vec<AnnotatedObject>) -> (r: (Pass, Action))
        ensures
            r.0.wf(),
            r.1.wf(),
            r.0@.objects.len() == objects@.len(),
            forall|i: int| 0 <= i < objects@.len() ==> (#[trigger] r.0@.objects[i]).id == objects@[i].id@,
            forall|i: int|
                0 <= i < objects@.len() ==> (#[trigger] r.0@.objects[i]).config_text == admitted_config(
                    objects@[i].annotations@,
                    admitted_by(objects@[i].annotations@, self.build()),
                ),
            (r.0@, r.1@) == advance(r.0@.objects, Seq::<SelectorView>::empty(), 0),
    {
        let mut candidates: Vec<Candidate> = Vec::new();
        let mut i: usize = 0;
        while i < objects.len()
            invariant
                i <= objects@.len(),
                candidates@.len() == i,
                forall|j: int| 0 <= j < i ==> (#[trigger] candidates@[j])@.id == objects@[j].id@,
                forall|j: int|
                    0 <= j < i ==> (#[trigger] candidates@[j])@.config_text == admitted_config(
                        objects@[j].annotations@,
                        admitted_by(objects@[j].annotations@, self.build()),
                    ),
            decreases objects@.len() - i,
        {
            let o = &objects[i];
            let config_text = self.get_config_if_available(&o.annotations);
            candidates.push(Candidate { id: o.id.copied(), config_text });
            i = i + 1;
        }
        let mut pass = Pass {
            objects: candidates,
            current: 0,
            phase: Phase::Done,
            restarts: RestartManager::new(),
        };
        let a = pass.advance(0);
        (pass, a)
    }
}

pub struct Pass {
    objects: Vec<Candidate>,
    current: usize,
    phase: Phase,
    restarts: RestartManager,
}

impl View for Pass {
    type V = PassView;

    closed spec fn view(&self) -> PassView {
        PassView {
            objects: self.objects@.map_values(|c: Candidate| c@),
            current: self.current as nat,
            phase: self.phase@,
            queue: self.restarts@,
        }
    }
}

impl Pass {
    pub closed spec fn wf(&self) -> bool {
        &&& self.restarts.wf()
        &&& inv(self@)
        &&& self.phase matches Phase::Before { env } ==> env.wf()
    }

    fn first_candidate_from(&self, from: usize) -> (r: usize)
        requires
            from <= self.objects@.len(),
        ensures
            r == first_candidate(self@.objects, from as nat),
    {
        let mut j: usize = from;
        while j < self.objects.len()
            invariant
                from <= j <= self.objects@.len(),
                first_candidate(self@.objects, from as nat) == first_candidate(self@.objects, j as nat),
            decreases self.objects@.len() - j,
        {
            assert(self@.objects[j as int] == self.objects@[j as int]@);
            if self.objects[j].config_text.is_some() {
                return j;
            }
            j = j + 1;
        }
        j
    }

    fn advance(&mut self, from: usize) -> (r: Action)
        requires
            old(self).restarts.wf(),
            from <= old(self).objects@.len(),
        ensures
            final(self).wf(),
            r.wf(),
            (final(self)@, r@) == advance(old(self)@.objects, old(self)@.queue, from as nat),
    {
        let ghost objects = self@.objects;
        let ghost queue = self@.queue;
        proof {
            lemma_advance(objects, queue, from as nat);
            lemma_first_candidate(objects, from as nat);
        }
        let j = self.first_candidate_from(from);
        if j < self.objects.len() {
            assert(objects[j as int] == self.objects@[j as int]@);
            let text = match &self.objects[j].config_text {
                Some(t) => t.clone(),
                None => String::new(),
            };
            self.current = j;
            self.phase = Phase::Decoding;
            return Action::DecodeConfig { text };
        }
        let mut spent = RestartManager::new();
        std::mem::swap(&mut spent, &mut self.restarts);
        let targets = spent.restart();
        self.current = self.objects.len();
        if targets.len() > 0 {
            let first = targets[0].copied();
            self.phase = Phase::Restarting { targets, next: 0 };
            assert(self@.phase == PhaseView::Restarting { targets: queue, next: 0 });
            Action::Restart { target: first }
        } else {
            self.phase = Phase::Done;
            assert(queue =~= Seq::<SelectorView>::empty());
            Action::Finished
        }
    }

    fn current_id(&self) -> (r: Selector)
        requires
            self.current < self.objects@.len(),
        ensures
            r@ == self@.objects[self.current as int].id,
    {
        self.objects[self.current].id.copied()
    }

    fn skip(&mut self, w: Option<Warning>) -> (r: (Action, Option<Warning>))
        requires
            old(self).restarts.wf(),
            old(self).current < old(self).objects@.len(),
        ensures
            final(self).wf(),
            r.0.wf(),
            (final(self)@, r.0@, warning_view(r.1)) == skip(old(self)@, warning_view(w)),
    {
        let n = self.objects.len();
        assert(self.current < n);
        let a = self.advance(self.current + 1);
        (a, w)
    }

    fn on_decoded(&mut self, event: Event, Ghost(s): Ghost<PassView>) -> (r: (Action, Option<Warning>))
        requires
            old(self).restarts.wf(),
            inv(s),
            s.phase == PhaseView::Decoding,
            s == (PassView { phase: s.phase, ..old(self)@ }),
        ensures
            final(self).wf(),
            r.0.wf(),
            (final(self)@, r.0@, warning_view(r.1)) == next(s, event),
            progressed(final(self)@, s),
    {
        let id = self.current_id();
        proof {
            lemma_advance(s.objects, s.queue, s.current + 1);
        }
        match event {
            Event::ConfigDecoded(Some(raw)) => {
                match normalize_config(raw) {
                    Ok(config) => {
                        if config.env.len() == 0 {
                            return self.skip(None);
                        }
                        let first = &config.env[0];
                        assert(config@[0] == first@);
                        let a = Action::Resolve {
                            engine: first.engine.clone(),
                            secret: first.secret.clone(),
                            field: first.field.clone(),
                        };
                        let values: Vec<String> = Vec::new();
                        assert(views(values@) =~= Seq::<Seq<char>>::empty());
                        self.phase = Phase::Resolving { config, values };
                        (a, None)
                    },
                    Err(reason) => self.skip(Some(Warning::InvalidConfig { object: id, reason })),
                }
            },
            _ => self.skip(Some(Warning::InvalidConfig { object: id, reason: ConfigError::Malformed })),
        }
    }

    fn on_resolved(
        &mut self,
        config: Config,
        values: Vec<String>,
        event: Event,
        Ghost(s): Ghost<PassView>,
    ) -> (r: (Action, Option<Warning>))
        requires
            old(self).restarts.wf(),
            inv(s),
            event is Resolved,
            s.phase == (PhaseView::Resolving { config: config@, values: views(values@) }),
            s == (PassView { phase: s.phase, ..old(self)@ }),
        ensures
            final(self).wf(),
            r.0.wf(),
            (final(self)@, r.0@, warning_view(r.1)) == next(s, event),
            progressed(final(self)@, s),
    {
        let id = self.current_id();
        proof {
            lemma_advance(s.objects, s.queue, s.current + 1);
        }
        match event {
            Event::Resolved(Ok(v)) => {
                let ghost vs = views(values@).push(v@);
                let mut values = values;
                values.push(v);
                assert(views(values@) =~= vs);
                if values.len() < config.env.len() {
                    let e = &config.env[values.len()];
                    assert(config@[values.len() as int] == e@);
                    let a = Action::Resolve {
                        engine: e.engine.clone(),
                        secret: e.secret.clone(),
                        field: e.field.clone(),
                    };
                    self.phase = Phase::Resolving { config, values };
                    (a, None)
                } else {
                    let (env, dups) = resolve_env(&config, &values);
                    let w = if dups.len() > 0 {
                        Some(Warning::DuplicateNames { object: id.copied(), names: dups })
                    } else {
                        None
                    };
                    self.phase = Phase::Before { env };
                    (Action::ReadWitness { target: id }, w)
                }
            },
            Event::Resolved(Err(cause)) => self.skip(Some(Warning::ResolveFailed { object: id, cause })),
            _ => self.skip(None),
        }
    }

    fn on_before(&mut self, env: ResolvedEnv, event: Event, Ghost(s): Ghost<PassView>) -> (r: (
        Action,
        Option<Warning>,
    ))
        requires
            old(self).restarts.wf(),
            inv(s),
            env.wf(),
            event is Witnessed,
            s.phase == (PhaseView::Before { env: env@ }),
            s == (PassView { phase: s.phase, ..old(self)@ }),
        ensures
            final(self).wf(),
            r.0.wf(),
            (final(self)@, r.0@, warning_view(r.1)) == next(s, event),
            progressed(final(self)@, s),
    {
        let id = self.current_id();
        proof {
            lemma_advance(s.objects, s.queue, s.current + 1);
        }
        match event {
            Event::Witnessed(Ok(times)) => {
                let before = Selector::get_last_update(&times);
                let data = env.encoded();
                self.phase = Phase::Patching { before };
                (Action::Patch { target: id, data }, None)
            },
            Event::Witnessed(Err(error)) => self.skip(Some(Warning::ClusterFailed { object: id, error })),
            _ => self.skip(None),
        }
    }

    fn on_patched(&mut self, before: ChangeWitness, event: Event, Ghost(s): Ghost<PassView>) -> (r: (
        Action,
        Option<Warning>,
    ))
        requires
            old(self).restarts.wf(),
            inv(s),
            event is Patched,
            s.phase == (PhaseView::Patching { before }),
            s == (PassView { phase: s.phase, ..old(self)@ }),
        ensures
            final(self).wf(),
            r.0.wf(),
            (final(self)@, r.0@, warning_view(r.1)) == next(s, event),
            progressed(final(self)@, s),
    {
        let id = self.current_id();
        proof {
            lemma_advance(s.objects, s.queue, s.current + 1);
        }
        match event {
            Event::Patched(Ok(_)) => {
                self.phase = Phase::After { before };
                (Action::ReadWitness { target: id }, None)
            },
            Event::Patched(Err(error)) => self.skip(Some(Warning::ClusterFailed { object: id, error })),
            _ => self.skip(None),
        }
    }

    fn on_after(&mut self, before: ChangeWitness, event: Event, Ghost(s): Ghost<PassView>) -> (r: (
        Action,
        Option<Warning>,
    ))
        requires
            old(self).restarts.wf(),
            inv(s),
            event is Witnessed,
            s.phase == (PhaseView::After { before }),
            s == (PassView { phase: s.phase, ..old(self)@ }),
        ensures
            final(self).wf(),
            r.0.wf(),
            (final(self)@, r.0@, warning_view(r.1)) == next(s, event),
            progressed(final(self)@, s),
    {
        let id = self.current_id();
        proof {
            lemma_advance(s.objects, s.queue, s.current + 1);
        }
        match event {
            Event::Witnessed(Ok(times)) => {
                let after = Selector::get_last_update(&times);
                if after == before {
                    return self.skip(None);
                }
                self.phase = Phase::Listing;
                (Action::ListWorkloads { kind: ResourceKind::Deployment, namespace: id.namespace() }, None)
            },
            Event::Witnessed(Err(error)) => self.skip(Some(Warning::ClusterFailed { object: id, error })),
            _ => self.skip(None),
        }
    }

    fn on_listed(&mut self, event: Event, Ghost(s): Ghost<PassView>) -> (r: (Action, Option<Warning>))
        requires
            old(self).restarts.wf(),
            inv(s),
            event is WorkloadsListed,
            s.phase == PhaseView::Listing,
            s == (PassView { phase: s.phase, ..old(self)@ }),
        ensures
            final(self).wf(),
            r.0.wf(),
            (final(self)@, r.0@, warning_view(r.1)) == next(s, event),
            progressed(final(self)@, s),
    {
        let id = self.current_id();
        proof {
            lemma_advance(s.objects, s.queue, s.current + 1);
        }
        match event {
            Event::WorkloadsListed(Ok(workloads)) => {
                self.restarts.add_linked_services(&id, &workloads);
                proof {
                    lemma_advance(s.objects, self@.queue, s.current + 1);
                }
                let n = self.objects.len();
                assert(self.current < n);
                let a = self.advance(self.current + 1);
                (a, None)
            },
            Event::WorkloadsListed(Err(error)) => self.skip(
                Some(Warning::ClusterFailed { object: id, error }),
            ),
            _ => self.skip(None),
        }
    }

    fn on_restarted(
        &mut self,
        targets: Vec<Selector>,
        at: usize,
        event: Event,
        Ghost(s): Ghost<PassView>,
    ) -> (r: (Action, Option<Warning>))
        requires
            old(self).restarts.wf(),
            inv(s),
            event is Restarted,
            s.phase == (PhaseView::Restarting { targets: selector_views(targets@), next: at as nat }),
            s == (PassView { phase: s.phase, ..old(self)@ }),
        ensures
            final(self).wf(),
            r.0.wf(),
            (final(self)@, r.0@, warning_view(r.1)) == next(s, event),
            progressed(final(self)@, s),
    {
        assert(selector_views(targets@)[at as int] == targets@[at as int]@);
        let w = match event {
            Event::Restarted(Err(error)) => Some(
                Warning::RestartFailed { target: targets[at].copied(), error },
            ),
            _ => None,
        };
        let n = targets.len();
        assert(at < n);
        if at + 1 < n {
            let t = targets[at + 1].copied();
            assert(selector_views(targets@)[at + 1] == targets@[at + 1]@);
            self.phase = Phase::Restarting { targets, next: at + 1 };
            (Action::Restart { target: t }, w)
        } else {
            self.phase = Phase::Done;
            (Action::Finished, w)
        }
    }

    /// Takes what came of the last action and returns the next action, with
    /// the warning to report where the object at hand went wrong.
    pub fn step(&mut self, event: Event) -> (r: (Action, Option<Warning>))
        requires
            old(self).wf(),
            expects(old(self)@, event),
        ensures
            final(self).wf(),
            r.0.wf(),
            (final(self)@, r.0@, warning_view(r.1)) == next(old(self)@, event),
            progressed(final(self)@, old(self)@),
    {
        let ghost s = self@;
        let mut phase = Phase::Done;
        std::mem::swap(&mut phase, &mut self.phase);
        assert(s == (PassView { phase: s.phase, ..self@ }));
        match phase {
            Phase::Decoding => self.on_decoded(event, Ghost(s)),
            Phase::Resolving { config, values } => self.on_resolved(config, values, event, Ghost(s)),
            Phase::Before { env } => self.on_before(env, event, Ghost(s)),
            Phase::Patching { before } => self.on_patched(before, event, Ghost(s)),
            Phase::After { before } => self.on_after(before, event, Ghost(s)),
            Phase::Listing => self.on_listed(event, Ghost(s)),
            Phase::Restarting { targets, next } => self.on_restarted(targets, next, event, Ghost(s)),
            Phase::Done => (Action::Finished, None),
        }
    }

    /// Whether `event` is what the pass waits for.
    pub fn expects(&self, event: &Event) -> (r: bool)
        ensures
            r == expects(self@, *event),
    {
        match (&self.phase, event) {
            (Phase::Decoding, Event::ConfigDecoded(_)) => true,
            (Phase::Resolving { .. }, Event::Resolved(_)) => true,
            (Phase::Before { .. }, Event::Witnessed(_)) => true,
            (Phase::Patching { .. }, Event::Patched(_)) => true,
            (Phase::After { .. }, Event::Witnessed(_)) => true,
            (Phase::Listing, Event::WorkloadsListed(_)) => true,
            (Phase::Restarting { .. }, Event::Restarted(_)) => true,
            _ => false,
        }
    }

    /// Whether the pass is over.
    pub fn is_finished(&self) -> (r: bool)
        ensures
            r == (self@.phase is Done),
    {
        match self.phase {
            Phase::Done => true,
            _ => false,
        }
    }
}

} // verus!
