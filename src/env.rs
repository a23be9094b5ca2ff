//! Resolved environments: variable names mapped to secret values, with the
//! last value winning where a configuration repeats a name, and the encoded
//! payload that is written into a secret-bearing object.
use vstd::prelude::*;
use crate::config::{Config, EnvView};

verus! {

/// The views of a sequence of strings.
pub open spec fn views(s: Seq<String>) -> Seq<Seq<char>> {
    s.map_values(|x: String| x@)
}

/// The map that inserting `values[i]` under `keys[i]`, for `i` in order,
/// builds from an empty one: a repeated key keeps its last value.
pub open spec fn env_map(keys: Seq<Seq<char>>, values: Seq<Seq<char>>) -> Map<Seq<char>, Seq<char>>
    decreases keys.len(),
{
    if keys.len() == 0 || values.len() == 0 {
        Map::empty()
    } else {
        env_map(keys.drop_last(), values.drop_last()).insert(keys.last(), values.last())
    }
}

/// The keys that occur earlier in `keys` too, in order of their repetition.
pub open spec fn repeated(keys: Seq<Seq<char>>) -> Seq<Seq<char>>
    decreases keys.len(),
{
    if keys.len() == 0 {
        Seq::empty()
    } else if keys.drop_last().contains(keys.last()) {
        repeated(keys.drop_last()).push(keys.last())
    } else {
        repeated(keys.drop_last())
    }
}

/// The variable names of a configuration, in order.
pub open spec fn names_of(entries: Seq<EnvView>) -> Seq<Seq<char>> {
    entries.map_values(|e: EnvView| e.name)
}

pub open spec fn unique(keys: Seq<Seq<char>>) -> bool {
    forall|i: int, j: int| 0 <= i < j < keys.len() ==> keys[i] != keys[j]
}

proof fn lemma_env_map_dom(keys: Seq<Seq<char>>, values: Seq<Seq<char>>)
    requires
        keys.len() == values.len(),
    ensures
        forall|k: Seq<char>| #[trigger] env_map(keys, values).contains_key(k) <==> keys.contains(k),
    decreases keys.len(),
{
    if keys.len() > 0 {
        lemma_env_map_dom(keys.drop_last(), values.drop_last());
        assert(env_map(keys, values) == env_map(keys.drop_last(), values.drop_last()).insert(
            keys.last(),
            values.last(),
        ));
        assert forall|k: Seq<char>| #[trigger] env_map(keys, values).contains_key(k) <==> keys.contains(k) by {
            assert(env_map(keys.drop_last(), values.drop_last()).contains_key(k)
                <==> keys.drop_last().contains(k));
            if k == keys.last() {
                assert(keys[keys.len() - 1] == k);
            }
            if keys.contains(k) && k != keys.last() {
                let i = choose|i: int| 0 <= i < keys.len() && keys[i] == k;
                assert(keys.drop_last()[i] == k);
            }
            if keys.drop_last().contains(k) {
                let i = choose|i: int| 0 <= i < keys.len() - 1 && keys.drop_last()[i] == k;
                assert(keys[i] == k);
            }
        }
    }
}

proof fn lemma_env_map_update(keys: Seq<Seq<char>>, values: Seq<Seq<char>>, i: int, v: Seq<char>)
    requires
        keys.len() == values.len(),
        unique(keys),
        0 <= i < keys.len(),
    ensures
        env_map(keys, values.update(i, v)) == env_map(keys, values).insert(keys[i], v),
    decreases keys.len(),
{
    let nv = values.update(i, v);
    if i == keys.len() - 1 {
        assert(nv.drop_last() =~= values.drop_last());
        assert(env_map(keys, nv) =~= env_map(keys, values).insert(keys[i], v));
    } else {
        assert(nv.drop_last() =~= values.drop_last().update(i, v));
        lemma_env_map_update(keys.drop_last(), values.drop_last(), i, v);
        assert(keys[i] != keys.last());
        assert(env_map(keys, nv) =~= env_map(keys, values).insert(keys[i], v));
    }
}

proof fn lemma_env_map_index(keys: Seq<Seq<char>>, values: Seq<Seq<char>>, i: int)
    requires
        keys.len() == values.len(),
        unique(keys),
        0 <= i < keys.len(),
    ensures
        env_map(keys, values).contains_key(keys[i]),
        env_map(keys, values)[keys[i]] == values[i],
    decreases keys.len(),
{
    if i < keys.len() - 1 {
        lemma_env_map_index(keys.drop_last(), values.drop_last(), i);
        assert(keys[i] != keys.last());
    }
}

proof fn lemma_env_map_encoded(keys: Seq<Seq<char>>, values: Seq<Seq<char>>)
    requires
        keys.len() == values.len(),
    ensures
        env_map(keys, values.map_values(|v: Seq<char>| base64_of(v))) == encoded(env_map(keys, values)),
    decreases keys.len(),
{
    let ev = values.map_values(|v: Seq<char>| base64_of(v));
    if keys.len() == 0 {
        assert(encoded(env_map(keys, values)) =~= Map::empty());
    } else {
        assert(ev.drop_last() =~= values.drop_last().map_values(|v: Seq<char>| base64_of(v)));
        lemma_env_map_encoded(keys.drop_last(), values.drop_last());
        assert(env_map(keys, ev) =~= encoded(env_map(keys, values)));
    }
}

/// What base64's standard engine makes of a text's UTF-8 bytes: the padded
/// encoding with the standard alphabet.
pub uninterp spec fn base64_of(text: Seq<char>) -> Seq<char>;

/// Relies on base64's `Engine::encode` with the `STANDARD` engine: the result
/// depends on the text alone, and its size computation overflows only for
/// inputs larger than a string in memory can be.
#[verifier::external_body]
fn encode(txt: &str) -> (r: String)
    ensures
        r@ == base64_of(txt@),
{
    base64::Engine::encode(&base64::engine::general_purpose::STANDARD, txt.as_bytes())
}

/// A map with each value replaced by its base64 encoding.
pub open spec fn encoded(m: Map<Seq<char>, Seq<char>>) -> Map<Seq<char>, Seq<char>> {
    Map::new(|k: Seq<char>| m.contains_key(k), |k: Seq<char>| base64_of(m[k]))
}

/// Variable names mapped to values, each name once.
pub struct ResolvedEnv {
    names: Vec<String>,
    values: Vec<String>,
}

impl View for ResolvedEnv {
    type V = Map<Seq<char>, Seq<char>>;

    closed spec fn view(&self) -> Map<Seq<char>, Seq<char>> {
        env_map(views(self.names@), views(self.values@))
    }
}

impl ResolvedEnv {
    /// The names, in the order in which they were first inserted.
    pub closed spec fn keys(&self) -> Seq<Seq<char>> {
        views(self.names@)
    }

    pub closed spec fn wf(&self) -> bool {
        &&& self.names@.len() == self.values@.len()
        &&& unique(self.keys())
    }

    proof fn lemma_view(&self)
        requires
            self.wf(),
        ensures
            forall|k: Seq<char>| #[trigger] self@.contains_key(k) <==> self.keys().contains(k),
            forall|i: int|
                0 <= i < self.keys().len() ==> self@[#[trigger] self.keys()[i]] == self.values@[i]@,
            self@.len() == self.keys().len(),
    {
        lemma_env_map_dom(self.keys(), views(self.values@));
        assert forall|i: int| 0 <= i < self.keys().len() implies self@[#[trigger] self.keys()[i]]
            == self.values@[i]@ by {
            lemma_env_map_index(self.keys(), views(self.values@), i);
        }
        self.keys().unique_seq_to_set();
        assert(self@.dom() =~= self.keys().to_set());
    }

    pub fn new() -> (r: ResolvedEnv)
        ensures
            r.wf(),
            r@ == Map::<Seq<char>, Seq<char>>::empty(),
    {
        ResolvedEnv { names: Vec::new(), values: Vec::new() }
    }

    /// The number of names.
    pub fn len(&self) -> (r: usize)
        requires
            self.wf(),
        ensures
            r == self@.len(),
    {
        proof {
            self.lemma_view();
        }
        self.names.len()
    }

    pub fn is_empty(&self) -> (r: bool)
        requires
            self.wf(),
        ensures
            r == (self@.len() == 0),
    {
        proof {
            self.lemma_view();
        }
        self.names.len() == 0
    }

    /// The `i`th name, in order of first insertion, and its value.
    pub fn entry(&self, i: usize) -> (r: (&String, &String))
        requires
            self.wf(),
            i < self@.len(),
        ensures
            self@.contains_key(r.0@),
            self@[r.0@] == r.1@,
            r.0@ == self.keys()[i as int],
    {
        proof {
            self.lemma_view();
            assert(self.keys()[i as int] == self.names@[i as int]@);
        }
        (&self.names[i], &self.values[i])
    }

    fn position(&self, name: &String) -> (r: Option<usize>)
        requires
            self.wf(),
        ensures
            match r {
                Some(i) => i < self.names@.len() && self.keys()[i as int] == name@,
                None => !self.keys().contains(name@),
            },
    {
        let mut i: usize = 0;
        while i < self.names.len()
            invariant
                self.wf(),
                i <= self.names@.len(),
                forall|j: int| 0 <= j < i ==> self.keys()[j] != name@,
            decreases self.names@.len() - i,
        {
            assert(self.keys()[i as int] == self.names@[i as int]@);
            if self.names[i].eq(name) {
                return Some(i);
            }
            i = i + 1;
        }
        None
    }

    /// The value of `name`, if it has one.
    pub fn get(&self, name: &String) -> (r: Option<&String>)
        requires
            self.wf(),
        ensures
            match r {
                Some(v) => self@.contains_key(name@) && self@[name@] == v@,
                None => !self@.contains_key(name@),
            },
    {
        proof {
            self.lemma_view();
        }
        match self.position(name) {
            Some(i) => Some(&self.values[i]),
            None => None,
        }
    }

    /// Sets `name` to `value`, replacing an earlier value; tells whether
    /// `name` had one.
    pub fn insert(&mut self, name: String, value: String) -> (r: bool)
        requires
            old(self).wf(),
        ensures
            final(self).wf(),
            final(self)@ == old(self)@.insert(name@, value@),
            r == old(self)@.contains_key(name@),
    {
        proof {
            self.lemma_view();
        }
        match self.position(&name) {
            Some(i) => {
                proof {
                    lemma_env_map_update(self.keys(), views(self.values@), i as int, value@);
                }
                self.values.set(i, value);
                assert(views(self.values@) =~= views(old(self).values@).update(i as int, value@));
                true
            },
            None => {
                self.names.push(name);
                self.values.push(value);
                assert(views(self.names@).drop_last() =~= views(old(self).names@));
                assert(views(self.values@).drop_last() =~= views(old(self).values@));
                assert forall|i: int| 0 <= i < old(self).keys().len() implies self.keys()[i]
                    == old(self).keys()[i] by {
                    assert(self.keys().drop_last()[i] == self.keys()[i]);
                }
                assert(self.keys().last() == name@);
                assert(unique(self.keys())) by {
                    assert forall|i: int, j: int| 0 <= i < j < self.keys().len() implies self.keys()[i]
                        != self.keys()[j] by {
                        assert(old(self).keys()[i] == self.keys()[i]);
                        if j < self.keys().len() - 1 {
                            assert(old(self).keys()[j] == self.keys()[j]);
                        } else {
                            assert(!old(self).keys().contains(name@));
                            assert(old(self).keys()[i] != name@);
                        }
                    }
                }
                false
            },
        }
    }

    /// The payload written into a secret-bearing object: the same names, each
    /// value base64-encoded.
    pub fn encoded(&self) -> (r: ResolvedEnv)
        requires
            self.wf(),
        ensures
            r.wf(),
            r@ == encoded(self@),
            r.keys() == self.keys(),
    {
        let mut values: Vec<String> = Vec::new();
        let mut i: usize = 0;
        while i < self.values.len()
            invariant
                self.wf(),
                i <= self.values@.len(),
                values@.len() == i,
                forall|j: int| 0 <= j < i ==> (#[trigger] values@[j])@ == base64_of(self.values@[j]@),
            decreases self.values@.len() - i,
        {
            values.push(encode(self.values[i].as_str()));
            i = i + 1;
        }
        let names = copy_strings(&self.names);
        let r = ResolvedEnv { names, values };
        proof {
            assert(views(values@) =~= views(self.values@).map_values(|v: Seq<char>| base64_of(v)));
            lemma_env_map_encoded(self.keys(), views(self.values@));
        }
        r
    }
}

fn copy_strings(v: &Vec<String>) -> (r: Vec<String>)
    ensures
        views(r@) == views(v@),
{
    let mut r: Vec<String> = Vec::new();
    let mut i: usize = 0;
    while i < v.len()
        invariant
            i <= v@.len(),
            r@.len() == i,
            forall|j: int| 0 <= j < i ==> (#[trigger] r@[j])@ == v@[j]@,
        decreases v@.len() - i,
    {
        r.push(v[i].clone());
        i = i + 1;
    }
    assert(views(r@) =~= views(v@));
    r
}

/// Builds the environment of a configuration from the values resolved for
/// its entries, in the configuration's order.
///
/// A name that occurs more than once keeps the value of its last entry; each
/// repetition is reported in the second result.
pub fn resolve_env(config: &Config, values: &Vec<String>) -> (r: (ResolvedEnv, Vec<String>))
    requires
        values@.len() == config.env@.len(),
    ensures
        r.0.wf(),
        r.0@ == env_map(names_of(config@), views(values@)),
        views(r.1@) == repeated(names_of(config@)),
{
    let ghost keys = names_of(config@);
    let ghost vals = views(values@);
    let mut env = ResolvedEnv::new();
    let mut dups: Vec<String> = Vec::new();
    let mut i: usize = 0;
    while i < config.env.len()
        invariant
            keys == names_of(config@),
            vals == views(values@),
            values@.len() == config.env@.len(),
            i <= config.env@.len(),
            env.wf(),
            env@ == env_map(keys.take(i as int), vals.take(i as int)),
            views(dups@) == repeated(keys.take(i as int)),
        decreases config.env@.len() - i,
    {
        let name = config.env[i].name.clone();
        let value = values[i].clone();
        proof {
            lemma_env_map_dom(keys.take(i as int), vals.take(i as int));
            assert(keys.take(i + 1).drop_last() =~= keys.take(i as int));
            assert(vals.take(i + 1).drop_last() =~= vals.take(i as int));
            assert(keys.take(i + 1).last() == name@);
        }
        let seen = env.insert(name, value);
        if seen {
            dups.push(config.env[i].name.clone());
        }
        assert(views(dups@) =~= repeated(keys.take(i + 1)));
        i = i + 1;
    }
    assert(keys.take(i as int) =~= keys);
    assert(vals.take(i as int) =~= vals);
    (env, dups)
}

/// Duplicate names collapse: when two entries share a name and no later entry
/// has it, the environment holds that name once, with the later entry's value,
/// and the repetition is reported.
pub proof fn lemma_duplicate_names_collapse(
    entries: Seq<EnvView>,
    values: Seq<Seq<char>>,
    i: int,
    j: int,
)
    requires
        values.len() == entries.len(),
        0 <= i < j < entries.len(),
        entries[i].name == entries[j].name,
        forall|k: int| j < k < entries.len() ==> entries[k].name != entries[j].name,
    ensures
        env_map(names_of(entries), values).contains_key(entries[j].name),
        env_map(names_of(entries), values)[entries[j].name] == values[j],
        repeated(names_of(entries)).contains(entries[j].name),
    decreases entries.len(),
{
    let keys = names_of(entries);
    if j < entries.len() - 1 {
        let e2 = entries.drop_last();
        assert(names_of(e2) =~= keys.drop_last());
        assert forall|k: int| j < k < e2.len() implies e2[k].name != e2[j].name by {
            assert(e2[k] == entries[k]);
        }
        lemma_duplicate_names_collapse(e2, values.drop_last(), i, j);
        assert(keys.last() == entries[entries.len() - 1].name);
        let r = repeated(keys.drop_last());
        assert(r.contains(entries[j].name));
        let w = choose|w: int| 0 <= w < r.len() && r[w] == entries[j].name;
        if keys.drop_last().contains(keys.last()) {
            assert(repeated(keys)[w] == entries[j].name);
        }
    } else {
        assert(keys.drop_last()[i] == keys.last());
        assert(repeated(keys).last() == entries[j].name);
    }
}

} // verus!
