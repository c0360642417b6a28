//! The typed view of a configuration schema: environments, sources and
//! variables, with the selection rules that pick a source per environment.
use vstd::prelude::*;

verus! {

/// First-match lookup in an association list keyed by strings, from `i`.
pub open spec fn assoc_get_from<V>(es: Seq<(String, V)>, i: int, key: Seq<char>) -> Option<V>
    decreases es.len() - i,
{
    if i < 0 || i >= es.len() {
        None
    } else if es[i].0@ == key {
        Some(es[i].1)
    } else {
        assoc_get_from(es, i + 1, key)
    }
}

/// First-match lookup in an association list keyed by strings.
pub open spec fn assoc_get<V>(es: Seq<(String, V)>, key: Seq<char>) -> Option<V> {
    assoc_get_from(es, 0, key)
}

/// Whether an association list holds a key.
pub open spec fn assoc_contains<V>(es: Seq<(String, V)>, key: Seq<char>) -> bool {
    assoc_get(es, key) is Some
}

/// First-match lookup over a string list, from `i`.
pub open spec fn list_index_of_from(es: Seq<String>, i: int, x: Seq<char>) -> Option<int>
    decreases es.len() - i,
{
    if i < 0 || i >= es.len() {
        None
    } else if es[i]@ == x {
        Some(i)
    } else {
        list_index_of_from(es, i + 1, x)
    }
}

/// Whether a string list holds an element with these characters.
pub open spec fn list_contains(es: Seq<String>, x: Seq<char>) -> bool {
    list_index_of_from(es, 0, x) is Some
}

/// Looks a key up in an association list, by its first occurrence.
pub fn map_get<'a, V>(es: &'a Vec<(String, V)>, key: &str) -> (r: Option<&'a V>)
    ensures
        match r {
            Option::Some(v) => assoc_get(es@, key@) == Option::Some(*v),
            Option::None => assoc_get(es@, key@) is None,
        },
{
    let n = es.len();
    let mut i: usize = 0;
    while i < n
        invariant
            i <= n,
            n == es@.len(),
            assoc_get(es@, key@) == assoc_get_from(es@, i as int, key@),
        decreases n - i,
    {
        if crate::strutil::str_eq(es[i].0.as_str(), key) {
            return Option::Some(&es[i].1);
        }
        i = i + 1;
    }
    Option::None
}

/// Whether a string list holds an element equal to `x`.
pub fn list_contains_exec(es: &Vec<String>, x: &str) -> (r: bool)
    ensures
        r == list_contains(es@, x@),
{
    let n = es.len();
    let mut i: usize = 0;
    while i < n
        invariant
            i <= n,
            n == es@.len(),
            list_index_of_from(es@, 0, x@) == list_index_of_from(es@, i as int, x@),
        decreases n - i,
    {
        if crate::strutil::str_eq(es[i].as_str(), x) {
            return true;
        }
        i = i + 1;
    }
    false
}

/// A string-to-string mapping kept as an ordered list of entries.
pub struct StrMap {
    pub entries: Vec<(String, String)>,
}

/// The replace-or-append update used by [`StrMap::set`], from index `i`.
pub open spec fn smap_set_from(
    es: Seq<(String, String)>,
    i: int,
    key: String,
    val: String,
) -> Seq<(String, String)>
    decreases es.len() - i,
{
    if i < 0 || i >= es.len() {
        es.push((key, val))
    } else if es[i].0@ == key@ {
        es.update(i, (key, val))
    } else {
        smap_set_from(es, i + 1, key, val)
    }
}

impl StrMap {
    /// An empty mapping.
    pub fn new() -> (r: Self)
        ensures
            r.entries@.len() == 0,
    {
        StrMap { entries: Vec::new() }
    }

    /// The value under `key`, by its first occurrence.
    pub fn get(&self, key: &str) -> (r: Option<&String>)
        ensures
            match r {
                Option::Some(v) => assoc_get(self.entries@, key@) == Option::Some(*v),
                Option::None => assoc_get(self.entries@, key@) is None,
            },
    {
        map_get(&self.entries, key)
    }

    /// Whether the mapping holds `key`.
    pub fn contains_key(&self, key: &str) -> (r: bool)
        ensures
            r == assoc_contains(self.entries@, key@),
    {
        match map_get(&self.entries, key) {
            Option::Some(_) => true,
            Option::None => false,
        }
    }

    /// Binds `key` to `val`: replaces the first entry with that key, or
    /// appends a new one.
    pub fn set(&mut self, key: String, val: String)
        ensures
            final(self).entries@ == smap_set_from(old(self).entries@, 0, key, val),
            assoc_get(final(self).entries@, key@) == Option::Some(val),
    {
        let ghost orig = self.entries@;
        let ghost gkey = key@;
        let n = self.entries.len();
        let mut i: usize = 0;
        while i < n
            invariant
                i <= n,
                n == self.entries@.len(),
                self.entries@ == orig,
                orig == old(self).entries@,
                gkey == key@,
                smap_set_from(orig, 0, key, val) == smap_set_from(orig, i as int, key, val),
                forall|j: int| 0 <= j < i ==> orig[j].0@ != gkey,
            decreases n - i,
        {
            if crate::strutil::str_eq(self.entries[i].0.as_str(), key.as_str()) {
                self.entries.set(i, (key, val));
                proof {
                    assert(orig[i as int].0@ == gkey);
                    assert(smap_set_from(orig, i as int, key, val) == orig.update(
                        i as int,
                        (key, val),
                    ));
                    assert(self.entries@ == orig.update(i as int, (key, val)));
                    assert(self.entries@[i as int] == (key, val));
                    lemma_assoc_get_update(self.entries@, i as int, gkey);
                }
                return ;
            }
            i = i + 1;
        }
        self.entries.push((key, val));
        proof {
            lemma_assoc_get_append(orig, key, val);
        }
    }

    /// The keys, in entry order.
    pub fn keys(&self) -> (r: Vec<String>)
        ensures
            r@.len() == self.entries@.len(),
            forall|j: int| 0 <= j < r@.len() ==> r@[j]@ == #[trigger] self.entries@[j].0@,
    {
        let n = self.entries.len();
        let mut out: Vec<String> = Vec::new();
        let mut i: usize = 0;
        while i < n
            invariant
                i <= n,
                n == self.entries@.len(),
                out@.len() == i,
                forall|j: int| 0 <= j < i ==> out@[j]@ == #[trigger] self.entries@[j].0@,
            decreases n - i,
        {
            out.push(self.entries[i].0.clone());
            i = i + 1;
        }
        out
    }

    /// How many entries the mapping holds.
    pub fn len(&self) -> (r: usize)
        ensures
            r == self.entries@.len(),
    {
        self.entries.len()
    }
}

/// Looking up an updated key finds the new value, when the update hits the
/// first occurrence of that key.
proof fn lemma_assoc_get_update(es: Seq<(String, String)>, i: int, key: Seq<char>)
    requires
        0 <= i < es.len(),
        es[i].0@ == key,
        forall|j: int| 0 <= j < i ==> es[j].0@ != key,
    ensures
        assoc_get(es, key) == Option::Some(es[i].1),
    decreases i,
{
    lemma_assoc_skip(es, 0, i, key);
}

proof fn lemma_assoc_skip(es: Seq<(String, String)>, from: int, i: int, key: Seq<char>)
    requires
        0 <= from <= i < es.len(),
        es[i].0@ == key,
        forall|j: int| 0 <= j < i ==> es[j].0@ != key,
    ensures
        assoc_get_from(es, from, key) == Option::Some(es[i].1),
    decreases i - from,
{
    if from < i {
        lemma_assoc_skip(es, from + 1, i, key);
    }
}

/// Looking up the appended key finds its value when no earlier entry holds
/// the key.
proof fn lemma_assoc_get_append(es: Seq<(String, String)>, key: String, val: String)
    requires
        forall|j: int| 0 <= j < es.len() ==> es[j].0@ != key@,
    ensures
        assoc_get(es.push((key, val)), key@) == Option::Some(val),
{
    lemma_assoc_append_skip(es, 0, key, val);
}

proof fn lemma_assoc_append_skip(es: Seq<(String, String)>, from: int, key: String, val: String)
    requires
        0 <= from <= es.len(),
        forall|j: int| 0 <= j < es.len() ==> es[j].0@ != key@,
    ensures
        assoc_get_from(es.push((key, val)), from, key@) == Option::Some(val),
    decreases es.len() - from,
{
    let full = es.push((key, val));
    if from < es.len() {
        assert(full[from] == es[from]);
        lemma_assoc_append_skip(es, from + 1, key, val);
    } else {
        assert(full[from] == (key, val));
    }
}

/// Descriptive header of a schema: a description and the destination file
/// per environment.
pub struct Metadata {
    pub description: String,
    pub destination: StrMap,
}

/// A command-backed source of variable values.
pub struct Source {
    pub command: String,
    pub label: Option<String>,
    pub url: Option<String>,
    pub description: Option<String>,
}

/// One per-environment resolver binding of a variable.
pub struct VariableResolver {
    pub environments: Vec<String>,
    pub source: String,
    pub label: Option<String>,
    pub url: Option<String>,
    pub description: Option<String>,
    pub source_key: Option<String>,
    pub values: Option<StrMap>,
}

/// One declared variable.
pub struct Variable {
    pub description: String,
    pub sensitive: bool,
    pub source: Option<String>,
    pub source_key: Option<String>,
    pub source_instructions: Option<String>,
    pub environments: Option<Vec<String>>,
    pub values: Option<StrMap>,
    pub resolvers: Option<Vec<VariableResolver>>,
    pub required: bool,
    pub notes: Option<String>,
}

/// A whole schema document in typed form.
pub struct Schema {
    pub schema_version: String,
    pub metadata: Metadata,
    pub environments: Vec<(String, StrMap)>,
    pub sources: Vec<(String, Source)>,
    pub variables: Vec<(String, Variable)>,
}

/// The default for a variable's `sensitive` flag.
pub fn default_sensitive() -> (r: bool)
    ensures
        r == true,
{
    true
}

/// The default for a variable's `required` flag.
pub fn default_required() -> (r: bool)
    ensures
        r == true,
{
    true
}

/// The first resolver whose environments name `env`, from index `i`.
pub open spec fn find_resolver_from(
    rs: Seq<VariableResolver>,
    i: int,
    env: Seq<char>,
) -> Option<VariableResolver>
    decreases rs.len() - i,
{
    if i < 0 || i >= rs.len() {
        None
    } else if list_contains(rs[i].environments@, env) {
        Some(rs[i])
    } else {
        find_resolver_from(rs, i + 1, env)
    }
}

impl Variable {
    /// Whether this variable applies to `env`: always when it limits itself
    /// to no environment list, else exactly when the list names `env`.
    pub open spec fn spec_applies_to(&self, env: Seq<char>) -> bool {
        match self.environments {
            Some(envs) => list_contains(envs@, env),
            None => true,
        }
    }

    /// The resolver that applies to `env`, by declaration order.
    pub open spec fn spec_resolver_for_env(&self, env: Seq<char>) -> Option<VariableResolver> {
        match self.resolvers {
            Some(rs) => find_resolver_from(rs@, 0, env),
            None => None,
        }
    }

    /// The source name in force for `env`: the matching resolver's source,
    /// else the variable's own.
    pub open spec fn spec_effective_source_for_env(&self, env: Seq<char>) -> Option<Seq<char>> {
        match self.spec_resolver_for_env(env) {
            Some(r) => Some(r.source@),
            None => match self.source {
                Some(s) => Some(s@),
                None => None,
            },
        }
    }

    /// The key used in source command templates for `env`: the matching
    /// resolver's key, else the variable's own, else the variable's name.
    pub open spec fn spec_effective_key_for_env(&self, var_name: Seq<char>, env: Seq<char>) -> Seq<
        char,
    > {
        match self.spec_resolver_for_env(env) {
            Some(r) => match r.source_key {
                Some(k) => k@,
                None => match self.source_key {
                    Some(k) => k@,
                    None => var_name,
                },
            },
            None => match self.source_key {
                Some(k) => k@,
                None => var_name,
            },
        }
    }

    /// The static values map in force for `env`: the matching resolver's,
    /// else the variable's own.
    pub open spec fn spec_values_for_env(&self, env: Seq<char>) -> Option<StrMap> {
        match self.spec_resolver_for_env(env) {
            Some(r) => match r.values {
                Some(v) => Some(v),
                None => self.values,
            },
            None => self.values,
        }
    }

    /// Reports whether this variable applies to the given environment.
    pub fn applies_to(&self, env: &str) -> (r: bool)
        ensures
            r == self.spec_applies_to(env@),
    {
        match &self.environments {
            Some(envs) => list_contains_exec(envs, env),
            None => true,
        }
    }

    /// The resolver that applies to the given environment, if any.
    pub fn resolver_for_env(&self, env: &str) -> (r: Option<&VariableResolver>)
        ensures
            match r {
                Some(rv) => self.spec_resolver_for_env(env@) == Some(*rv),
                None => self.spec_resolver_for_env(env@) is None,
            },
    {
        match &self.resolvers {
            Some(rs) => {
                let n = rs.len();
                let mut i: usize = 0;
                while i < n
                    invariant
                        self.resolvers == Some(*rs),
                        i <= n,
                        n == rs@.len(),
                        find_resolver_from(rs@, 0, env@) == find_resolver_from(
                            rs@,
                            i as int,
                            env@,
                        ),
                    decreases n - i,
                {
                    if list_contains_exec(&rs[i].environments, env) {
                        proof {
                            assert(list_contains(rs@[i as int].environments@, env@));
                            assert(find_resolver_from(rs@, i as int, env@) == Some(
                                rs@[i as int],
                            ));
                        }
                        return Some(&rs[i]);
                    }
                    i = i + 1;
                }
                None
            },
            None => None,
        }
    }

    /// The effective source name for the given environment.
    pub fn effective_source_for_env(&self, env: &str) -> (r: Option<&str>)
        ensures
            match r {
                Some(s) => self.spec_effective_source_for_env(env@) == Some(s@),
                None => self.spec_effective_source_for_env(env@) is None,
            },
    {
        match self.resolver_for_env(env) {
            Some(rv) => Some(rv.source.as_str()),
            None => match &self.source {
                Some(s) => Some(s.as_str()),
                None => None,
            },
        }
    }

    /// The key to use in source command templates.
    pub fn effective_key_for_env(&self, var_name: &str, env: &str) -> (r: String)
        ensures
            r@ == self.spec_effective_key_for_env(var_name@, env@),
    {
        match self.resolver_for_env(env) {
            Some(rv) => match &rv.source_key {
                Some(k) => k.clone(),
                None => match &self.source_key {
                    Some(k) => k.clone(),
                    None => var_name.to_owned(),
                },
            },
            None => match &self.source_key {
                Some(k) => k.clone(),
                None => var_name.to_owned(),
            },
        }
    }

    /// The values map to use for the given environment (static source only).
    pub fn values_for_env(&self, env: &str) -> (r: Option<&StrMap>)
        ensures
            match r {
                Some(v) => self.spec_values_for_env(env@) == Some(*v),
                None => self.spec_values_for_env(env@) is None,
            },
    {
        match self.resolver_for_env(env) {
            Some(rv) => match &rv.values {
                Some(v) => Some(v),
                None => match &self.values {
                    Some(v) => Some(v),
                    None => None,
                },
            },
            None => match &self.values {
                Some(v) => Some(v),
                None => None,
            },
        }
    }
}

impl Schema {
    /// The names of the environments the schema defines, in entry order.
    pub fn environment_names(&self) -> (r: Vec<String>)
        ensures
            r@.len() == self.environments@.len(),
            forall|j: int| 0 <= j < r@.len() ==> r@[j]@ == #[trigger] self.environments@[j].0@,
    {
        let n = self.environments.len();
        let mut out: Vec<String> = Vec::new();
        let mut i: usize = 0;
        while i < n
            invariant
                i <= n,
                n == self.environments@.len(),
                out@.len() == i,
                forall|j: int| 0 <= j < i ==> out@[j]@ == #[trigger] self.environments@[j].0@,
            decreases n - i,
        {
            out.push(self.environments[i].0.clone());
            i = i + 1;
        }
        out
    }

    /// The destination path declared for the given environment.
    pub fn destination_for(&self, env: &str) -> (r: Option<&String>)
        ensures
            match r {
                Some(v) => assoc_get(self.metadata.destination.entries@, env@) == Some(*v),
                None => assoc_get(self.metadata.destination.entries@, env@) is None,
            },
    {
        self.metadata.destination.get(env)
    }
}

} // verus!
