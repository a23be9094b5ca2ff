//! Identity of cluster objects, ordering on it, and change witnesses.
use std::cmp::Ordering;
use vstd::prelude::*;
use vstd::string::StrSliceExecFns;
use vstd::string::StringExecFns;

verus! {

/// The resource kinds that this controller addresses.
#[derive(Clone, Copy, Debug, PartialEq, Eq, Structural, PartialOrd, Ord, Hash)]
pub enum ResourceKind {
    Secret,
    Deployment,
}

impl ResourceKind {
    /// Rank of a kind in the total order on kinds.
    pub open spec fn rank(self) -> int {
        match self {
            ResourceKind::Secret => 0,
            ResourceKind::Deployment => 1,
        }
    }

    pub open spec fn label_spec(self) -> Seq<char> {
        match self {
            ResourceKind::Secret => "Secret"@,
            ResourceKind::Deployment => "Deployment"@,
        }
    }

    /// The kind's name, as the cluster API spells it.
    pub fn label(&self) -> (r: &'static str)
        ensures
            r@ == self.label_spec(),
    {
        match self {
            ResourceKind::Secret => "Secret",
            ResourceKind::Deployment => "Deployment",
        }
    }
}

/// Identity of a cluster object: its kind, its name and its namespace.
///
/// Two selectors are equal iff all three agree; they are ordered by
/// namespace (absent first), then name, then kind.
#[derive(Clone, Debug, Eq, Ord, Hash)]
pub struct Selector {
    namespace: Option<String>,
    name: String,
    kind: ResourceKind,
}

/// The mathematical value of a `Selector`.
pub struct SelectorView {
    pub kind: ResourceKind,
    pub name: Seq<char>,
    pub namespace: Option<Seq<char>>,
}

pub open spec fn opt_view(o: Option<String>) -> Option<Seq<char>> {
    match o {
        Some(s) => Some(s@),
        None => None,
    }
}

impl View for Selector {
    type V = SelectorView;

    closed spec fn view(&self) -> SelectorView {
        SelectorView { kind: self.kind, name: self.name@, namespace: opt_view(self.namespace) }
    }
}

/// Lexicographic order on character sequences.
pub open spec fn seq_cmp(a: Seq<char>, b: Seq<char>) -> Ordering
    decreases a.len(),
{
    if a.len() == 0 {
        if b.len() == 0 { Ordering::Equal } else { Ordering::Less }
    } else if b.len() == 0 {
        Ordering::Greater
    } else if (a[0] as int) < (b[0] as int) {
        Ordering::Less
    } else if (a[0] as int) > (b[0] as int) {
        Ordering::Greater
    } else {
        seq_cmp(a.drop_first(), b.drop_first())
    }
}

/// Order on optional sequences: absent before present.
pub open spec fn opt_cmp(a: Option<Seq<char>>, b: Option<Seq<char>>) -> Ordering {
    match (a, b) {
        (None, None) => Ordering::Equal,
        (None, Some(_)) => Ordering::Less,
        (Some(_), None) => Ordering::Greater,
        (Some(x), Some(y)) => seq_cmp(x, y),
    }
}

pub open spec fn int_cmp(a: int, b: int) -> Ordering {
    if a < b { Ordering::Less } else if a > b { Ordering::Greater } else { Ordering::Equal }
}

/// The order on selectors: namespace, then name, then kind.
pub open spec fn selector_cmp(a: SelectorView, b: SelectorView) -> Ordering {
    let ns = opt_cmp(a.namespace, b.namespace);
    if ns != Ordering::Equal {
        ns
    } else {
        let nm = seq_cmp(a.name, b.name);
        if nm != Ordering::Equal { nm } else { int_cmp(a.kind.rank(), b.kind.rank()) }
    }
}

proof fn lemma_seq_cmp_equal(a: Seq<char>, b: Seq<char>)
    ensures
        (seq_cmp(a, b) == Ordering::Equal) <==> (a == b),
    decreases a.len(),
{
    if a.len() == 0 && b.len() == 0 {
        assert(a =~= b);
    } else if a.len() != 0 && b.len() != 0 {
        lemma_seq_cmp_equal(a.drop_first(), b.drop_first());
        if a == b {
            assert(a.drop_first() =~= b.drop_first());
        }
        if a[0] == b[0] && a.drop_first() == b.drop_first() {
            assert forall|i: int| 0 <= i < a.len() implies a[i] == b[i] by {
                if i > 0 {
                    assert(a[i] == a.drop_first()[i - 1]);
                    assert(b[i] == b.drop_first()[i - 1]);
                }
            }
            assert(a =~= b);
        }
        if a[0] != b[0] {
            assert((a[0] as int) != (b[0] as int));
        }
    }
}

proof fn lemma_seq_cmp_antisymmetric(a: Seq<char>, b: Seq<char>)
    ensures
        seq_cmp(a, b) == Ordering::Less <==> seq_cmp(b, a) == Ordering::Greater,
    decreases a.len(),
{
    if a.len() != 0 && b.len() != 0 {
        lemma_seq_cmp_antisymmetric(a.drop_first(), b.drop_first());
    }
}

/// Selectors are equal exactly when their order calls them equal, and the
/// order is antisymmetric: the order on identities is consistent with their
/// equality, as a total order must be.
pub proof fn lemma_selector_order_consistent(a: SelectorView, b: SelectorView)
    ensures
        (selector_cmp(a, b) == Ordering::Equal) <==> (a == b),
        selector_cmp(a, b) == Ordering::Less <==> selector_cmp(b, a) == Ordering::Greater,
{
    lemma_seq_cmp_equal(a.name, b.name);
    lemma_seq_cmp_antisymmetric(a.name, b.name);
    lemma_seq_cmp_antisymmetric(b.name, a.name);
    match (a.namespace, b.namespace) {
        (Some(x), Some(y)) => {
            lemma_seq_cmp_equal(x, y);
            lemma_seq_cmp_antisymmetric(x, y);
            lemma_seq_cmp_antisymmetric(y, x);
        },
        _ => {},
    }
}

/// A point in time: seconds since the epoch and the nanoseconds past them.
#[derive(Clone, Copy, Debug, PartialEq, Eq, Structural)]
pub struct Timestamp {
    pub secs: i64,
    pub nanos: u32,
}

/// A snapshot of an object's modification state: the time of its latest
/// recorded write, if any write carries a time. Equal witnesses taken before
/// and after a patch mean that the patch changed nothing.
#[derive(Clone, Copy, Debug, PartialEq, Eq, Structural)]
pub enum ChangeWitness {
    Unstamped,
    Stamped { at: Timestamp },
}

/// `a` is strictly later than `b`.
pub open spec fn later(a: Timestamp, b: Timestamp) -> bool {
    a.secs > b.secs || (a.secs == b.secs && a.nanos > b.nanos)
}

/// The latest of the given write times, absent times skipped.
pub open spec fn latest(times: Seq<Option<Timestamp>>) -> ChangeWitness
    decreases times.len(),
{
    if times.len() == 0 {
        ChangeWitness::Unstamped
    } else {
        let w = latest(times.drop_last());
        match times.last() {
            None => w,
            Some(t) => match w {
                ChangeWitness::Unstamped => ChangeWitness::Stamped { at: t },
                ChangeWitness::Stamped { at } => if later(t, at) {
                    ChangeWitness::Stamped { at: t }
                } else {
                    w
                },
            },
        }
    }
}

/// Compares two strings character by character.
fn compare_str(a: &str, b: &str) -> (r: Ordering)
    ensures
        r == seq_cmp(a@, b@),
{
    let la = a.unicode_len();
    let lb = b.unicode_len();
    let mut i: usize = 0;
    assert(a@.skip(0) =~= a@);
    assert(b@.skip(0) =~= b@);
    while i < la && i < lb
        invariant
            la == a@.len(),
            lb == b@.len(),
            i <= la,
            i <= lb,
            seq_cmp(a@, b@) == seq_cmp(a@.skip(i as int), b@.skip(i as int)),
        decreases la - i,
    {
        let ca = a.get_char(i);
        let cb = b.get_char(i);
        if (ca as u32) < (cb as u32) {
            return Ordering::Less;
        }
        if (ca as u32) > (cb as u32) {
            return Ordering::Greater;
        }
        assert(a@.skip(i as int).drop_first() =~= a@.skip(i + 1));
        assert(b@.skip(i as int).drop_first() =~= b@.skip(i + 1));
        i = i + 1;
    }
    if i < lb {
        Ordering::Less
    } else if i < la {
        Ordering::Greater
    } else {
        Ordering::Equal
    }
}

fn compare_opt_str(a: &Option<String>, b: &Option<String>) -> (r: Ordering)
    ensures
        r == opt_cmp(opt_view(*a), opt_view(*b)),
{
    match (a, b) {
        (None, None) => Ordering::Equal,
        (None, Some(_)) => Ordering::Less,
        (Some(_), None) => Ordering::Greater,
        (Some(x), Some(y)) => compare_str(x.as_str(), y.as_str()),
    }
}

fn compare_kind(a: ResourceKind, b: ResourceKind) -> (r: Ordering)
    ensures
        r == int_cmp(a.rank(), b.rank()),
{
    match (a, b) {
        (ResourceKind::Secret, ResourceKind::Deployment) => Ordering::Less,
        (ResourceKind::Deployment, ResourceKind::Secret) => Ordering::Greater,
        _ => Ordering::Equal,
    }
}

fn opt_str_eq(a: &Option<String>, b: &Option<String>) -> (r: bool)
    ensures
        r == (opt_view(*a) == opt_view(*b)),
{
    match (a, b) {
        (None, None) => true,
        (Some(x), Some(y)) => x.eq(y),
        _ => false,
    }
}

impl Selector {
    /// The identity of an object of `kind` named `name` in `namespace`.
    pub fn new(kind: ResourceKind, name: String, namespace: Option<String>) -> (r: Selector)
        ensures
            r@ == (SelectorView { kind, name: name@, namespace: opt_view(namespace) }),
    {
        Selector { namespace, name, kind }
    }

    /// A copy of this selector.
    pub fn copied(&self) -> (r: Selector)
        ensures
            r@ == self@,
    {
        Selector { namespace: self.namespace(), name: self.name(), kind: self.kind }
    }

    pub fn kind(&self) -> (r: ResourceKind)
        ensures
            r == self@.kind,
    {
        self.kind
    }

    pub fn name(&self) -> (r: String)
        ensures
            r@ == self@.name,
    {
        self.name.clone()
    }

    pub fn namespace(&self) -> (r: Option<String>)
        ensures
            opt_view(r) == self@.namespace,
    {
        match &self.namespace {
            Some(ns) => Some(ns.clone()),
            None => None,
        }
    }

    /// The change witness of an object whose recorded writes carry the given
    /// times: the latest of them.
    pub fn get_last_update(times: &Vec<Option<Timestamp>>) -> (r: ChangeWitness)
        ensures
            r == latest(times@),
    {
        let mut w = ChangeWitness::Unstamped;
        let mut i: usize = 0;
        while i < times.len()
            invariant
                i <= times@.len(),
                w == latest(times@.take(i as int)),
            decreases times@.len() - i,
        {
            assert(times@.take(i + 1).drop_last() =~= times@.take(i as int));
            match times[i] {
                None => {},
                Some(t) => {
                    match w {
                        ChangeWitness::Unstamped => {
                            w = ChangeWitness::Stamped { at: t };
                        },
                        ChangeWitness::Stamped { at } => {
                            if t.secs > at.secs || (t.secs == at.secs && t.nanos > at.nanos) {
                                w = ChangeWitness::Stamped { at: t };
                            }
                        },
                    }
                },
            }
            i = i + 1;
        }
        assert(times@.take(i as int) =~= times@);
        w
    }

    /// Whether this selector names the same object as `other`.
    pub fn same(&self, other: &Selector) -> (r: bool)
        ensures
            r == (self@ == other@),
    {
        self.kind == other.kind && self.name == other.name && opt_str_eq(
            &self.namespace,
            &other.namespace,
        )
    }

    /// Compares two selectors: namespace, then name, then kind.
    pub fn compare(&self, other: &Selector) -> (r: Ordering)
        ensures
            r == selector_cmp(self@, other@),
    {
        let ns = compare_opt_str(&self.namespace, &other.namespace);
        match ns {
            Ordering::Equal => {},
            _ => return ns,
        }
        let nm = compare_str(self.name.as_str(), other.name.as_str());
        match nm {
            Ordering::Equal => {},
            _ => return nm,
        }
        compare_kind(self.kind, other.kind)
    }

    /// A human-readable description: `Kind name/namespace`, or `Kind name`
    /// for an object without a namespace.
    pub fn describe(&self) -> (r: String)
        ensures
            r@ == match self@.namespace {
                Some(ns) => self@.kind.label_spec() + " "@ + self@.name + "/"@ + ns,
                None => self@.kind.label_spec() + " "@ + self@.name,
            },
    {
        let mut out = String::from_str(self.kind.label());
        out.append(" ");
        out.append(self.name.as_str());
        match &self.namespace {
            Some(ns) => {
                out.append("/");
                out.append(ns.as_str());
            },
            None => {},
        }
        out
    }
}

impl PartialEq for Selector {
    fn eq(&self, other: &Selector) -> (r: bool) {
        self.same(other)
    }
}

impl vstd::std_specs::cmp::PartialEqSpecImpl for Selector {
    open spec fn obeys_eq_spec() -> bool {
        true
    }

    open spec fn eq_spec(&self, other: &Selector) -> bool {
        self@ == other@
    }
}

impl PartialOrd for Selector {
    fn partial_cmp(&self, other: &Selector) -> (r: Option<Ordering>) {
        Some(self.compare(other))
    }
}

impl vstd::std_specs::cmp::PartialOrdSpecImpl for Selector {
    open spec fn obeys_partial_cmp_spec() -> bool {
        true
    }

    open spec fn partial_cmp_spec(&self, other: &Selector) -> Option<Ordering> {
        Some(selector_cmp(self@, other@))
    }
}

} // verus!
