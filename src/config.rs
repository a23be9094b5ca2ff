//! The per-object configuration carried by the config annotation, and its
//! normalization: an entry names its variable, its backend field, or both.
use vstd::prelude::*;
use crate::selector::opt_view;

verus! {

/// One entry of a configuration: the variable `name` to set, from `field` of
/// the backend secret at `secret` under `engine`.
#[derive(Clone, Debug)]
pub struct Env {
    pub name: String,
    pub field: String,
    pub engine: String,
    pub secret: String,
}

/// The mathematical value of an `Env`.
pub struct EnvView {
    pub name: Seq<char>,
    pub field: Seq<char>,
    pub engine: Seq<char>,
    pub secret: Seq<char>,
}

impl View for Env {
    type V = EnvView;

    open spec fn view(&self) -> EnvView {
        EnvView { name: self.name@, field: self.field@, engine: self.engine@, secret: self.secret@ }
    }
}

impl Env {
    /// A copy of this entry.
    pub fn copied(&self) -> (r: Env)
        ensures
            r@ == self@,
    {
        Env {
            name: self.name.clone(),
            field: self.field.clone(),
            engine: self.engine.clone(),
            secret: self.secret.clone(),
        }
    }
}

/// A configuration: its entries, in the order in which they are resolved,
/// and the schema version its author targeted, if given.
#[derive(Clone, Debug)]
pub struct Config {
    pub env: Vec<Env>,
    pub version: Option<String>,
}

impl View for Config {
    type V = Seq<EnvView>;

    open spec fn view(&self) -> Seq<EnvView> {
        self.env@.map_values(|e: Env| e@)
    }
}

/// Why a configuration was refused.
#[derive(Clone, Copy, Debug, PartialEq, Eq, Structural)]
pub enum ConfigError {
    /// The annotation is not a configuration document.
    Malformed,
    /// The entry at `index` has neither a name nor a field.
    InvalidEntry { index: usize },
}

/// An entry that names neither a variable nor a field.
pub open spec fn is_unnamed(e: EnvView) -> bool {
    e.name.len() == 0 && e.field.len() == 0
}

/// An entry with the missing one of name and field taken from the other.
pub open spec fn inferred(e: EnvView) -> EnvView {
    EnvView {
        name: if e.name.len() == 0 { e.field } else { e.name },
        field: if e.field.len() == 0 { e.name } else { e.field },
        engine: e.engine,
        secret: e.secret,
    }
}

/// The index of the first unnamed entry, if there is one.
pub open spec fn first_unnamed(entries: Seq<EnvView>) -> Option<nat>
    decreases entries.len(),
{
    if entries.len() == 0 {
        None
    } else if is_unnamed(entries[0]) {
        Some(0)
    } else {
        match first_unnamed(entries.drop_first()) {
            Some(i) => Some(i + 1),
            None => None,
        }
    }
}

/// The normal form of a configuration's entries, or the error it gets.
pub open spec fn normalized(entries: Seq<EnvView>) -> Result<Seq<EnvView>, ConfigError> {
    match first_unnamed(entries) {
        Some(i) => Err(ConfigError::InvalidEntry { index: i as usize }),
        None => Ok(entries.map_values(|e: EnvView| inferred(e))),
    }
}

proof fn lemma_first_unnamed(entries: Seq<EnvView>)
    ensures
        first_unnamed(entries) is None <==> (forall|i: int|
            0 <= i < entries.len() ==> !is_unnamed(#[trigger] entries[i])),
        first_unnamed(entries) matches Some(k) ==> k < entries.len() && is_unnamed(entries[k as int])
            && forall|i: int| 0 <= i < k ==> !is_unnamed(#[trigger] entries[i]),
    decreases entries.len(),
{
    if entries.len() > 0 {
        lemma_first_unnamed(entries.drop_first());
        assert forall|i: int| 0 < i < entries.len() implies entries[i] == entries.drop_first()[i
            - 1] by {}
        if first_unnamed(entries.drop_first()) is None && !is_unnamed(entries[0]) {
            assert forall|i: int| 0 <= i < entries.len() implies !is_unnamed(
                #[trigger] entries[i],
            ) by {
                if i > 0 {
                    assert(entries[i] == entries.drop_first()[i - 1]);
                }
            }
        }
    }
}

/// Fills in the missing one of an entry's name and field from the other.
///
/// Refused when both are empty; when both are given they are kept as they are.
pub fn normalize_entry(e: Env) -> (r: Option<Env>)
    ensures
        is_unnamed(e@) <==> r is None,
        r matches Some(n) ==> n@ == inferred(e@),
{
    let name_empty = e.name.as_str().is_empty();
    let field_empty = e.field.as_str().is_empty();
    if name_empty && field_empty {
        return None;
    }
    let name = if name_empty { e.field.clone() } else { e.name.clone() };
    let field = if field_empty { e.name } else { e.field };
    Some(Env { name, field, engine: e.engine, secret: e.secret })
}

/// Normalizes every entry of a decoded configuration, in order.
///
/// Fails with `InvalidEntry` at the first entry that has neither a name nor a
/// field; otherwise every entry ends up with both, each equal to the one that
/// was given where the other was empty.
pub fn normalize_config(raw: Config) -> (r: Result<Config, ConfigError>)
    ensures
        match r {
            Ok(c) => normalized(raw@) == Ok::<Seq<EnvView>, ConfigError>(c@),
            Err(e) => normalized(raw@) == Err::<Seq<EnvView>, ConfigError>(e),
        },
        r matches Ok(c) ==> opt_view(c.version) == opt_view(raw.version),
{
    let ghost entries = raw@;
    proof {
        lemma_first_unnamed(entries);
    }
    let mut env: Vec<Env> = Vec::new();
    let mut i: usize = 0;
    let n = raw.env.len();
    while i < n
        invariant
            n == raw.env.len(),
            entries == raw@,
            i <= n,
            env@.len() == i,
            forall|j: int| 0 <= j < i ==> !is_unnamed(#[trigger] entries[j]),
            forall|j: int| 0 <= j < i ==> (#[trigger] env@[j])@ == inferred(entries[j]),
        decreases n - i,
    {
        let e = raw.env[i].copied();
        assert(e@ == entries[i as int]);
        match normalize_entry(e) {
            Some(ne) => env.push(ne),
            None => {
                proof {
                    lemma_first_unnamed(entries);
                    assert(is_unnamed(entries[i as int]));
                    assert(first_unnamed(entries) is Some);
                    let k = first_unnamed(entries)->Some_0;
                    assert(is_unnamed(entries[k as int]));
                    if k < i {
                        assert(!is_unnamed(entries[k as int]));
                    }
                    assert(k == i);
                }
                return Err(ConfigError::InvalidEntry { index: i });
            },
        }
        i = i + 1;
    }
    let c = Config { env, version: raw.version };
    assert(c@ =~= entries.map_values(|e: EnvView| inferred(e)));
    Ok(c)
}

/// Name and field inference: an entry with exactly one of name and field set
/// normalizes to both equal to it; one with both empty is refused; one with
/// both set is kept unchanged.
pub proof fn lemma_name_field_inference(e: EnvView)
    ensures
        e.name.len() == 0 && e.field.len() != 0 ==> inferred(e).name == e.field
            && inferred(e).field == e.field,
        e.field.len() == 0 && e.name.len() != 0 ==> inferred(e).name == e.name
            && inferred(e).field == e.name,
        e.name.len() != 0 && e.field.len() != 0 ==> inferred(e) == e,
        normalized(seq![e]) is Err <==> is_unnamed(e),
        !is_unnamed(e) ==> normalized(seq![e]) == Ok::<Seq<EnvView>, ConfigError>(seq![inferred(e)]),
{
    let s = seq![e];
    assert(s.drop_first() =~= Seq::<EnvView>::empty());
    assert(first_unnamed(s.drop_first()) is None);
    if !is_unnamed(e) {
        assert(s.map_values(|x: EnvView| inferred(x)) =~= seq![inferred(e)]);
    }
}

} // verus!
