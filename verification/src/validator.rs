//! Semantic validation of a typed schema: cross-reference rules that run
//! only after structural validation has passed.
use vstd::prelude::*;
use vstd::string::StrSliceExecFns;
use vstd::string::StringExecFns;

use crate::strutil::{dec_digits, lex_lt};
use crate::template::placeholders_from;
use crate::types::{
    assoc_contains, assoc_get, list_contains, Schema, Source, StrMap, Variable, VariableResolver,
};

verus! {

/// The outcome of loading and validating a schema document.
pub enum SchemaValidation {
    Valid(Schema),
    Invalid(Vec<String>),
}

// ---------------------------------------------------------------------------
// Spec: small pieces
// ---------------------------------------------------------------------------

/// The characters `str::trim` removes: Unicode whitespace.
pub open spec fn is_ws(c: char) -> bool {
    c == ' ' || c == '\u{9}' || c == '\u{a}' || c == '\u{b}' || c == '\u{c}' || c == '\u{d}'
        || c == '\u{85}' || c == '\u{a0}' || c == '\u{1680}' || ('\u{2000}' <= c && c
        <= '\u{200a}') || c == '\u{2028}' || c == '\u{2029}' || c == '\u{202f}' || c == '\u{205f}'
        || c == '\u{3000}'
}

/// Whether every character from `i` on is whitespace; a blank description is
/// one whose characters are all whitespace.
pub open spec fn all_ws_from(s: Seq<char>, i: int) -> bool
    decreases s.len() - i,
{
    if i < 0 || i >= s.len() {
        true
    } else {
        is_ws(s[i]) && all_ws_from(s, i + 1)
    }
}

/// Whether a name stands somewhere in a list of names, from `i` on.
pub open spec fn names_contain_from(names: Seq<Seq<char>>, i: int, x: Seq<char>) -> bool
    decreases names.len() - i,
{
    if i < 0 || i >= names.len() {
        false
    } else {
        names[i] == x || names_contain_from(names, i + 1, x)
    }
}

/// Insertion into a sorted list of unique names.
pub open spec fn insert_name(x: Seq<char>, s: Seq<Seq<char>>) -> Seq<Seq<char>>
    decreases s.len(),
{
    if s.len() == 0 {
        seq![x]
    } else if x == s[0] {
        s
    } else if lex_lt(x, s[0]) {
        seq![x] + s
    } else {
        seq![s[0]] + insert_name(x, s.subrange(1, s.len() as int))
    }
}

/// The sorted set of placeholders from index `i` on that neither are
/// built in (`key`, `environment`) nor bound by the environment's
/// configuration.
pub open spec fn missing_phs_from(
    phs: Seq<Seq<char>>,
    i: int,
    env_cfg: Seq<(String, String)>,
    acc: Seq<Seq<char>>,
) -> Seq<Seq<char>>
    decreases phs.len() - i,
{
    if i < 0 || i >= phs.len() {
        acc
    } else {
        let ph = phs[i];
        if ph == "key"@ || ph == "environment"@ || assoc_contains(env_cfg, ph) {
            missing_phs_from(phs, i + 1, env_cfg, acc)
        } else {
            missing_phs_from(phs, i + 1, env_cfg, insert_name(ph, acc))
        }
    }
}

/// The sorted set of unresolved placeholders of a template value, against
/// an environment's configuration.
pub open spec fn spec_unresolved_placeholders(
    value: Seq<char>,
    env_cfg: Seq<(String, String)>,
) -> Seq<Seq<char>> {
    missing_phs_from(placeholders_from(value, 0), 0, env_cfg, Seq::empty())
}

/// `"{k}"` quoted placeholder forms, joined with `", "`.
pub open spec fn join_braced_from(names: Seq<Seq<char>>, i: int) -> Seq<char>
    decreases names.len() - i,
{
    if i < 0 || i >= names.len() {
        Seq::empty()
    } else {
        let piece = seq!['"', '{'] + names[i] + seq!['}', '"'];
        if i + 1 == names.len() {
            piece
        } else {
            piece + ", "@ + join_braced_from(names, i + 1)
        }
    }
}

/// `environments.{env}.{k}` fix paths, joined with `", "`.
pub open spec fn join_fixes_from(env: Seq<char>, names: Seq<Seq<char>>, i: int) -> Seq<char>
    decreases names.len() - i,
{
    if i < 0 || i >= names.len() {
        Seq::empty()
    } else {
        let piece = "environments."@ + env + "."@ + names[i];
        if i + 1 == names.len() {
            piece
        } else {
            piece + ", "@ + join_fixes_from(env, names, i + 1)
        }
    }
}

pub open spec fn plural_s(n: int) -> Seq<char> {
    if n == 1 {
        ""@
    } else {
        "s"@
    }
}

/// The message reported for a template value with unresolved placeholders.
pub open spec fn unresolved_value_msg(
    yaml_path: Seq<char>,
    value_kind: Seq<char>,
    env: Seq<char>,
    missing: Seq<Seq<char>>,
) -> Seq<char> {
    yaml_path + ": "@ + value_kind + " contains unresolved template placeholder"@ + plural_s(
        missing.len() as int,
    ) + ": "@ + join_braced_from(missing, 0) + ". Fix: add "@ + join_fixes_from(env, missing, 0)
        + " (or remove the placeholder"@ + plural_s(missing.len() as int) + ")."@
}

// ---------------------------------------------------------------------------
// Spec: the error sequence
// ---------------------------------------------------------------------------

pub open spec fn msg_bad_version(v: Seq<char>) -> Seq<char> {
    "Unsupported schema_version: \""@ + v + "\". Expected \"2\"."@
}

pub open spec fn msg_dest_empty() -> Seq<char> {
    "metadata.destination must have at least one environment entry."@
}

pub open spec fn msg_dest_env(env: Seq<char>) -> Seq<char> {
    "metadata.destination references environment \""@ + env
        + "\" which is not defined in environments."@
}

pub open spec fn msg_desc_empty(name: Seq<char>) -> Seq<char> {
    name + ": description must not be empty."@
}

pub open spec fn msg_var_env(name: Seq<char>, env: Seq<char>) -> Seq<char> {
    name + ": references environment \""@ + env + "\" which is not defined in environments."@
}

pub open spec fn msg_both_source_resolvers(name: Seq<char>) -> Seq<char> {
    name + ": cannot set both \"source\" and \"resolvers\". Choose one."@
}

pub open spec fn msg_values_with_resolvers(name: Seq<char>) -> Seq<char> {
    name + ": cannot set variable-level \"values\" when using \"resolvers\"."@
}

pub open spec fn msg_resolver_no_envs(name: Seq<char>, idx: int) -> Seq<char> {
    name + ": resolver #"@ + dec_digits(idx as nat) + " must specify at least one environment."@
}

pub open spec fn msg_resolver_env_undefined(name: Seq<char>, env: Seq<char>) -> Seq<char> {
    name + ": resolver references environment \""@ + env
        + "\" which is not defined in environments."@
}

pub open spec fn msg_resolver_env_inapplicable(name: Seq<char>, env: Seq<char>) -> Seq<char> {
    name + ": resolver references environment \""@ + env
        + "\" which is not applicable to this variable."@
}

pub open spec fn msg_resolver_overlap(name: Seq<char>, env: Seq<char>) -> Seq<char> {
    name + ": resolver environments overlap for environment \""@ + env + "\"."@
}

pub open spec fn msg_resolver_source_undefined(name: Seq<char>, src: Seq<char>) -> Seq<char> {
    name + ": resolver source \""@ + src + "\" is not defined in sources."@
}

pub open spec fn msg_resolver_static_no_values(name: Seq<char>) -> Seq<char> {
    name + ": resolver source is \"static\" but no values map provided."@
}

pub open spec fn msg_resolver_static_no_value(name: Seq<char>, env: Seq<char>) -> Seq<char> {
    name + ": resolver source is \"static\" but no value provided for environment \""@ + env
        + "\"."@
}

pub open spec fn msg_cmd_placeholder(name: Seq<char>, ph: Seq<char>, env: Seq<char>) -> Seq<char> {
    name + ": source command template references placeholder \"{"@ + ph
        + "}\" which cannot be resolved for environment \""@ + env + "\"."@
}

pub open spec fn msg_no_resolver_for_env(name: Seq<char>, env: Seq<char>) -> Seq<char> {
    name + ": no resolver provided for environment \""@ + env + "\"."@
}

pub open spec fn msg_missing_source(name: Seq<char>) -> Seq<char> {
    name + ": missing required field \"source\"."@
}

pub open spec fn msg_source_undefined(name: Seq<char>, src: Seq<char>) -> Seq<char> {
    name + ": source \""@ + src + "\" is not defined in sources."@
}

pub open spec fn msg_static_no_values(name: Seq<char>) -> Seq<char> {
    name + ": source is \"static\" but no values map provided."@
}

pub open spec fn msg_static_no_value(name: Seq<char>, env: Seq<char>) -> Seq<char> {
    name + ": source is \"static\" but no value provided for environment \""@ + env + "\"."@
}

pub open spec fn msg_builtin_static() -> Seq<char> {
    "Source name \"static\" is built-in and must not be redefined."@
}

pub open spec fn msg_builtin_manual() -> Seq<char> {
    "Source name \"manual\" is built-in and must not be redefined."@
}

/// Destination entries referencing undefined environments, from `i`.
pub open spec fn dest_errs_from(
    dest: Seq<(String, String)>,
    i: int,
    envs: Seq<(String, StrMap)>,
) -> Seq<Seq<char>>
    decreases dest.len() - i,
{
    if i < 0 || i >= dest.len() {
        Seq::empty()
    } else {
        (if !assoc_contains(envs, dest[i].0@) {
            seq![msg_dest_env(dest[i].0@)]
        } else {
            Seq::<Seq<char>>::empty()
        }) + dest_errs_from(dest, i + 1, envs)
    }
}

/// Variable environment references to undefined environments, from `i`.
pub open spec fn var_env_errs_from(
    name: Seq<char>,
    var_envs: Seq<String>,
    i: int,
    envs: Seq<(String, StrMap)>,
) -> Seq<Seq<char>>
    decreases var_envs.len() - i,
{
    if i < 0 || i >= var_envs.len() {
        Seq::empty()
    } else {
        (if !assoc_contains(envs, var_envs[i]@) {
            seq![msg_var_env(name, var_envs[i]@)]
        } else {
            Seq::<Seq<char>>::empty()
        }) + var_env_errs_from(name, var_envs, i + 1, envs)
    }
}

/// The names of an association list's entries, in order.
pub open spec fn keys_of<V>(es: Seq<(String, V)>) -> Seq<String> {
    es.map_values(|p: (String, V)| p.0)
}

/// The environments a variable applies to: its own list, or all of them.
pub open spec fn applicable_envs(var: Variable, envs: Seq<(String, StrMap)>) -> Seq<String> {
    match var.environments {
        Some(es) => es@,
        None => keys_of(envs),
    }
}

/// Per-environment bookkeeping of one resolver: reference errors and the
/// set of claimed environments, from environment index `j`.
pub open spec fn renv_errs_from(
    name: Seq<char>,
    renvs: Seq<String>,
    j: int,
    envs: Seq<(String, StrMap)>,
    applicable: Seq<String>,
    seen: Seq<Seq<char>>,
) -> (Seq<Seq<char>>, Seq<Seq<char>>)
    decreases renvs.len() - j,
{
    if j < 0 || j >= renvs.len() {
        (Seq::empty(), seen)
    } else {
        let env = renvs[j]@;
        let e1: Seq<Seq<char>> = if !assoc_contains(envs, env) {
            seq![msg_resolver_env_undefined(name, env)]
        } else {
            Seq::empty()
        };
        let e2: Seq<Seq<char>> = if !list_contains(applicable, env) {
            seq![msg_resolver_env_inapplicable(name, env)]
        } else {
            Seq::empty()
        };
        if names_contain_from(seen, 0, env) {
            let rest = renv_errs_from(name, renvs, j + 1, envs, applicable, seen);
            (e1 + e2 + seq![msg_resolver_overlap(name, env)] + rest.0, rest.1)
        } else {
            let rest = renv_errs_from(name, renvs, j + 1, envs, applicable, seen.push(env));
            (e1 + e2 + rest.0, rest.1)
        }
    }
}

/// Static value errors of one resolver or variable, from environment index
/// `j`: a value must exist for each listed environment, and its placeholders
/// must resolve.
pub open spec fn static_vals_errs_from(
    name: Seq<char>,
    list_envs: Seq<String>,
    j: int,
    values: Seq<(String, String)>,
    envs: Seq<(String, StrMap)>,
    yaml_prefix: Seq<char>,
    value_kind: Seq<char>,
    no_value_msg_is_resolver: bool,
) -> Seq<Seq<char>>
    decreases list_envs.len() - j,
{
    if j < 0 || j >= list_envs.len() {
        Seq::empty()
    } else {
        let env = list_envs[j]@;
        let head: Seq<Seq<char>> = match assoc_get(values, env) {
            None => if no_value_msg_is_resolver {
                seq![msg_resolver_static_no_value(name, env)]
            } else {
                seq![msg_static_no_value(name, env)]
            },
            Some(value) => match assoc_get(envs, env) {
                Some(env_cfg) => {
                    let missing = spec_unresolved_placeholders(value@, env_cfg.entries@);
                    if missing.len() > 0 {
                        seq![
                            unresolved_value_msg(
                                yaml_prefix + env,
                                value_kind,
                                env,
                                missing,
                            ),
                        ]
                    } else {
                        Seq::<Seq<char>>::empty()
                    }
                },
                None => Seq::<Seq<char>>::empty(),
            },
        };
        head + static_vals_errs_from(
            name,
            list_envs,
            j + 1,
            values,
            envs,
            yaml_prefix,
            value_kind,
            no_value_msg_is_resolver,
        )
    }
}

/// Command-template placeholders that no available key resolves, from
/// placeholder index `k`.
pub open spec fn bad_phs_from(
    name: Seq<char>,
    phs: Seq<Seq<char>>,
    k: int,
    env_cfg: Seq<(String, String)>,
    env: Seq<char>,
) -> Seq<Seq<char>>
    decreases phs.len() - k,
{
    if k < 0 || k >= phs.len() {
        Seq::empty()
    } else {
        let ph = phs[k];
        (if !assoc_contains(env_cfg, ph) && ph != "key"@ && ph != "environment"@ {
            seq![msg_cmd_placeholder(name, ph, env)]
        } else {
            Seq::<Seq<char>>::empty()
        }) + bad_phs_from(name, phs, k + 1, env_cfg, env)
    }
}

/// Command-template errors over the listed environments, from index `j`.
pub open spec fn cmd_tpl_errs_from(
    name: Seq<char>,
    list_envs: Seq<String>,
    j: int,
    envs: Seq<(String, StrMap)>,
    command: Seq<char>,
) -> Seq<Seq<char>>
    decreases list_envs.len() - j,
{
    if j < 0 || j >= list_envs.len() {
        Seq::empty()
    } else {
        let env = list_envs[j]@;
        (match assoc_get(envs, env) {
            Some(env_cfg) => bad_phs_from(
                name,
                placeholders_from(command, 0),
                0,
                env_cfg.entries@,
                env,
            ),
            None => Seq::<Seq<char>>::empty(),
        }) + cmd_tpl_errs_from(name, list_envs, j + 1, envs, command)
    }
}

/// All the checks of one resolver entry, at one-based position `idx`.
pub open spec fn resolver_errs(
    name: Seq<char>,
    r: VariableResolver,
    idx: int,
    envs: Seq<(String, StrMap)>,
    sources: Seq<(String, Source)>,
    applicable: Seq<String>,
    seen: Seq<Seq<char>>,
) -> (Seq<Seq<char>>, Seq<Seq<char>>) {
    let e_empty: Seq<Seq<char>> = if r.environments@.len() == 0 {
        seq![msg_resolver_no_envs(name, idx)]
    } else {
        Seq::empty()
    };
    let envres = renv_errs_from(name, r.environments@, 0, envs, applicable, seen);
    let src = r.source@;
    let e_src: Seq<Seq<char>> = if src != "static"@ && src != "manual"@ && !assoc_contains(
        sources,
        src,
    ) {
        seq![msg_resolver_source_undefined(name, src)]
    } else {
        Seq::empty()
    };
    let e_static: Seq<Seq<char>> = if src == "static"@ {
        match r.values {
            None => seq![msg_resolver_static_no_values(name)],
            Some(vals) => static_vals_errs_from(
                name,
                r.environments@,
                0,
                vals.entries@,
                envs,
                "variables."@ + name + ".resolvers["@ + dec_digits(idx as nat) + "].values."@,
                "static resolver value"@,
                true,
            ),
        }
    } else {
        Seq::empty()
    };
    let e_cmd: Seq<Seq<char>> = if src != "static"@ && src != "manual"@ {
        match assoc_get(sources, src) {
            Some(source) => cmd_tpl_errs_from(name, r.environments@, 0, envs, source.command@),
            None => Seq::empty(),
        }
    } else {
        Seq::empty()
    };
    (e_empty + envres.0 + e_src + e_static + e_cmd, envres.1)
}

/// All resolvers of a variable, from index `i`, carrying the claimed
/// environments.
pub open spec fn resolvers_from(
    name: Seq<char>,
    rs: Seq<VariableResolver>,
    i: int,
    envs: Seq<(String, StrMap)>,
    sources: Seq<(String, Source)>,
    applicable: Seq<String>,
    seen: Seq<Seq<char>>,
) -> (Seq<Seq<char>>, Seq<Seq<char>>)
    decreases rs.len() - i,
{
    if i < 0 || i >= rs.len() {
        (Seq::empty(), seen)
    } else {
        let one = resolver_errs(name, rs[i], i + 1, envs, sources, applicable, seen);
        let rest = resolvers_from(name, rs, i + 1, envs, sources, applicable, one.1);
        (one.0 + rest.0, rest.1)
    }
}

/// Applicable environments no resolver claims, from index `i`.
pub open spec fn coverage_errs_from(
    name: Seq<char>,
    applicable: Seq<String>,
    i: int,
    seen: Seq<Seq<char>>,
) -> Seq<Seq<char>>
    decreases applicable.len() - i,
{
    if i < 0 || i >= applicable.len() {
        Seq::empty()
    } else {
        (if !names_contain_from(seen, 0, applicable[i]@) {
            seq![msg_no_resolver_for_env(name, applicable[i]@)]
        } else {
            Seq::<Seq<char>>::empty()
        }) + coverage_errs_from(name, applicable, i + 1, seen)
    }
}

/// The checks of one variable past its description and environment
/// references: either the resolver rules or the single-source rules.
pub open spec fn var_tail_errs(
    name: Seq<char>,
    var: Variable,
    envs: Seq<(String, StrMap)>,
    sources: Seq<(String, Source)>,
) -> Seq<Seq<char>> {
    let applicable = applicable_envs(var, envs);
    let has_resolvers = match var.resolvers {
        Some(rs) => rs@.len() > 0,
        None => false,
    };
    if has_resolvers {
        let e_conflict_src: Seq<Seq<char>> = if var.source is Some {
            seq![msg_both_source_resolvers(name)]
        } else {
            Seq::empty()
        };
        let e_conflict_vals: Seq<Seq<char>> = if var.values is Some {
            seq![msg_values_with_resolvers(name)]
        } else {
            Seq::empty()
        };
        let rres = resolvers_from(
            name,
            var.resolvers->Some_0@,
            0,
            envs,
            sources,
            applicable,
            Seq::empty(),
        );
        let e_cov = coverage_errs_from(name, applicable, 0, rres.1);
        e_conflict_src + e_conflict_vals + rres.0 + e_cov
    } else {
        match var.source {
            None => seq![msg_missing_source(name)],
            Some(src_s) => {
                let src = src_s@;
                let e_src: Seq<Seq<char>> = if src != "static"@ && src != "manual"@
                    && !assoc_contains(sources, src) {
                    seq![msg_source_undefined(name, src)]
                } else {
                    Seq::empty()
                };
                let e_static: Seq<Seq<char>> = if src == "static"@ {
                    match var.values {
                        None => seq![msg_static_no_values(name)],
                        Some(vals) => static_vals_errs_from(
                            name,
                            applicable,
                            0,
                            vals.entries@,
                            envs,
                            "variables."@ + name + ".values."@,
                            "static value"@,
                            false,
                        ),
                    }
                } else {
                    Seq::empty()
                };
                let e_cmd: Seq<Seq<char>> = if src != "static"@ && src != "manual"@ {
                    match assoc_get(sources, src) {
                        Some(source) => cmd_tpl_errs_from(
                            name,
                            applicable,
                            0,
                            envs,
                            source.command@,
                        ),
                        None => Seq::empty(),
                    }
                } else {
                    Seq::empty()
                };
                e_src + e_static + e_cmd
            },
        }
    }
}

/// Every check of one variable.
pub open spec fn var_errs(
    name: Seq<char>,
    var: Variable,
    envs: Seq<(String, StrMap)>,
    sources: Seq<(String, Source)>,
) -> Seq<Seq<char>> {
    let e_desc: Seq<Seq<char>> = if all_ws_from(var.description@, 0) {
        seq![msg_desc_empty(name)]
    } else {
        Seq::empty()
    };
    let e_envs: Seq<Seq<char>> = match var.environments {
        Some(ve) => var_env_errs_from(name, ve@, 0, envs),
        None => Seq::empty(),
    };
    e_desc + e_envs + var_tail_errs(name, var, envs, sources)
}

/// All variables, from index `i`.
pub open spec fn vars_from(
    vars: Seq<(String, Variable)>,
    i: int,
    envs: Seq<(String, StrMap)>,
    sources: Seq<(String, Source)>,
) -> Seq<Seq<char>>
    decreases vars.len() - i,
{
    if i < 0 || i >= vars.len() {
        Seq::empty()
    } else {
        var_errs(vars[i].0@, vars[i].1, envs, sources) + vars_from(vars, i + 1, envs, sources)
    }
}

/// The redefinition checks of the built-in source names.
pub open spec fn builtin_errs(sources: Seq<(String, Source)>) -> Seq<Seq<char>> {
    (if assoc_contains(sources, "static"@) {
        seq![msg_builtin_static()]
    } else {
        Seq::<Seq<char>>::empty()
    }) + (if assoc_contains(sources, "manual"@) {
        seq![msg_builtin_manual()]
    } else {
        Seq::<Seq<char>>::empty()
    })
}

/// Every message the semantic validator reports for a schema, in order.
pub open spec fn schema_errors(s: Schema) -> Seq<Seq<char>> {
    if s.schema_version@ != "2"@ {
        seq![msg_bad_version(s.schema_version@)]
    } else {
        (if s.metadata.destination.entries@.len() == 0 {
            seq![msg_dest_empty()]
        } else {
            Seq::<Seq<char>>::empty()
        }) + dest_errs_from(s.metadata.destination.entries@, 0, s.environments@) + vars_from(
            s.variables@,
            0,
            s.environments@,
            s.sources@,
        ) + builtin_errs(s.sources@)
    }
}


// ---------------------------------------------------------------------------
// Exec
// ---------------------------------------------------------------------------

fn is_ws_exec(c: char) -> (r: bool)
    ensures
        r == is_ws(c),
{
    c == ' ' || c == '\u{9}' || c == '\u{a}' || c == '\u{b}' || c == '\u{c}' || c == '\u{d}'
        || c == '\u{85}' || c == '\u{a0}' || c == '\u{1680}' || (('\u{2000}' as u32) <= (c as u32)
        && (c as u32) <= ('\u{200a}' as u32)) || c == '\u{2028}' || c == '\u{2029}' || c
        == '\u{202f}' || c == '\u{205f}' || c == '\u{3000}'
}

/// Whether a string is all whitespace (so its trimmed form is empty).
fn is_blank(s: &str) -> (r: bool)
    ensures
        r == all_ws_from(s@, 0),
{
    let len = s.unicode_len();
    let mut i: usize = 0;
    while i < len
        invariant
            i <= len,
            len == s@.len(),
            all_ws_from(s@, 0) == all_ws_from(s@, i as int),
        decreases len - i,
    {
        if !is_ws_exec(s.get_char(i)) {
            return false;
        }
        i = i + 1;
    }
    true
}

fn names_contain(seen: &Vec<String>, x: &str) -> (r: bool)
    ensures
        r == names_contain_from(crate::structural::strs_of(seen@), 0, x@),
{
    let ghost gs = crate::structural::strs_of(seen@);
    let n = seen.len();
    let mut i: usize = 0;
    while i < n
        invariant
            i <= n,
            n == seen@.len(),
            gs == crate::structural::strs_of(seen@),
            names_contain_from(gs, 0, x@) == names_contain_from(gs, i as int, x@),
        decreases n - i,
    {
        proof {
            assert(gs[i as int] == seen@[i as int]@);
        }
        if crate::strutil::str_eq(seen[i].as_str(), x) {
            proof {
                assert(names_contain_from(gs, i as int, x@));
            }
            return true;
        }
        i = i + 1;
    }
    false
}

/// Inserts a name into the (sorted, unique) tail `v[i..]`.
fn insert_name_exec(x: String, v: &Vec<String>, i: usize) -> (r: Vec<String>)
    requires
        i <= v@.len(),
    ensures
        crate::structural::strs_of(r@) == insert_name(
            x@,
            crate::structural::strs_of(v@).subrange(i as int, v@.len() as int),
        ),
    decreases v.len() - i,
{
    let ghost tail = crate::structural::strs_of(v@).subrange(i as int, v@.len() as int);
    if i == v.len() {
        let mut r: Vec<String> = Vec::new();
        r.push(x);
        proof {
            assert(tail.len() == 0);
            assert(crate::structural::strs_of(r@) =~= insert_name(x@, tail));
        }
        r
    } else if crate::strutil::str_eq(x.as_str(), v[i].as_str()) {
        // Already present: the tail unchanged.
        let mut r: Vec<String> = Vec::new();
        let mut j: usize = i;
        while j < v.len()
            invariant
                i <= j <= v@.len(),
                crate::structural::strs_of(r@) =~= crate::structural::strs_of(v@).subrange(
                    i as int,
                    j as int,
                ),
            decreases v.len() - j,
        {
            let ghost old_r = r@;
            r.push(v[j].clone());
            proof {
                assert(crate::structural::strs_of(r@) =~= crate::structural::strs_of(
                    old_r,
                ).push(v@[j as int]@));
                assert(crate::structural::strs_of(r@) =~= crate::structural::strs_of(
                    v@,
                ).subrange(i as int, j + 1 as int));
            }
            j = j + 1;
        }
        proof {
            assert(x@ == tail[0]);
            assert(insert_name(x@, tail) == tail);
            assert(crate::structural::strs_of(r@) =~= tail);
        }
        r
    } else if !crate::strutil::str_lt(v[i].as_str(), x.as_str()) {
        let ghost gx = x@;
        let mut r: Vec<String> = Vec::new();
        r.push(x);
        let mut j: usize = i;
        while j < v.len()
            invariant
                i <= j <= v@.len(),
                crate::structural::strs_of(r@) =~= seq![gx] + crate::structural::strs_of(
                    v@,
                ).subrange(i as int, j as int),
            decreases v.len() - j,
        {
            let ghost old_r = r@;
            r.push(v[j].clone());
            proof {
                assert(crate::structural::strs_of(r@) =~= crate::structural::strs_of(
                    old_r,
                ).push(v@[j as int]@));
                assert(crate::structural::strs_of(r@) =~= seq![gx]
                    + crate::structural::strs_of(v@).subrange(i as int, j + 1 as int));
            }
            j = j + 1;
        }
        proof {
            assert(gx != tail[0]);
            crate::strutil::lemma_lex_trichotomy(gx, tail[0]);
            assert(crate::strutil::lex_lt(gx, tail[0]));
            assert(insert_name(gx, tail) == seq![gx] + tail);
            assert(crate::structural::strs_of(r@) =~= seq![gx] + tail);
        }
        r
    } else {
        let ghost gx = x@;
        let head = v[i].clone();
        let mut r = insert_name_exec(x, v, i + 1);
        r.insert(0, head);
        proof {
            let rest = crate::structural::strs_of(v@).subrange(i + 1 as int, v@.len() as int);
            assert(gx != tail[0]);
            crate::strutil::lemma_lex_asym(gx, tail[0]);
            assert(!crate::strutil::lex_lt(gx, tail[0]));
            assert(tail.subrange(1, tail.len() as int) =~= rest);
            assert(insert_name(gx, tail) == seq![tail[0]] + insert_name(gx, rest));
            assert(crate::structural::strs_of(r@) =~= seq![tail[0]] + insert_name(gx, rest));
        }
        r
    }
}

/// The sorted set of placeholders in a template value that the environment's
/// configuration cannot resolve.
pub fn unresolved_template_placeholders(value: &str, env_config: &StrMap) -> (r: Vec<String>)
    ensures
        crate::structural::strs_of(r@) == spec_unresolved_placeholders(
            value@,
            env_config.entries@,
        ),
{
    let phs = crate::template::extract_placeholders(value);
    let ghost gphs = placeholders_from(value@, 0);
    let mut acc: Vec<String> = Vec::new();
    let n = phs.len();
    let mut k: usize = 0;
    proof {
        reveal_strlit("key");
        reveal_strlit("environment");
        assert(crate::structural::strs_of(acc@) =~= Seq::<Seq<char>>::empty());
    }
    while k < n
        invariant
            k <= n,
            n == phs@.len(),
            gphs == crate::structural::strs_of(phs@),
            missing_phs_from(gphs, 0, env_config.entries@, Seq::empty()) == missing_phs_from(
                gphs,
                k as int,
                env_config.entries@,
                crate::structural::strs_of(acc@),
            ),
        decreases n - k,
    {
        proof {
            assert(gphs[k as int] == phs@[k as int]@);
        }
        let ph = &phs[k];
        if crate::strutil::str_eq(ph.as_str(), "key") || crate::strutil::str_eq(
            ph.as_str(),
            "environment",
        ) || env_config.contains_key(ph.as_str()) {
        } else {
            let next = insert_name_exec(ph.clone(), &acc, 0);
            proof {
                assert(crate::structural::strs_of(acc@).subrange(
                    0,
                    crate::structural::strs_of(acc@).len() as int,
                ) =~= crate::structural::strs_of(acc@));
            }
            acc = next;
        }
        k = k + 1;
    }
    acc
}

/// Renders the unresolved-placeholder message, when anything is missing.
pub fn format_unresolved_template_error(
    yaml_path: &str,
    value_kind: &str,
    env_name: &str,
    missing: &Vec<String>,
) -> (r: Option<String>)
    ensures
        match r {
            Some(m) => missing@.len() > 0 && m@ == unresolved_value_msg(
                yaml_path@,
                value_kind@,
                env_name@,
                crate::structural::strs_of(missing@),
            ),
            None => missing@.len() == 0,
        },
{
    if missing.len() == 0 {
        return None;
    }
    proof {
        reveal_strlit(": ");
        reveal_strlit(" contains unresolved template placeholder");
        reveal_strlit("s");
        reveal_strlit("");
        reveal_strlit(". Fix: add ");
        reveal_strlit(" (or remove the placeholder");
        reveal_strlit(").");
        reveal_strlit(", ");
        reveal_strlit("\"{");
        reveal_strlit("}\"");
        reveal_strlit("environments.");
        reveal_strlit(".");
    }
    let ghost gm = crate::structural::strs_of(missing@);
    let n = missing.len();
    let mut msg: String = yaml_path.to_owned();
    msg.append(": ");
    msg.append(value_kind);
    msg.append(" contains unresolved template placeholder");
    if n != 1 {
        msg.append("s");
    }
    msg.append(": ");
    proof {
        assert(msg@ =~= yaml_path@ + ": "@ + value_kind@
            + " contains unresolved template placeholder"@ + plural_s(gm.len() as int) + ": "@);
    }
    // the quoted placeholder list
    let mut i: usize = 0;
    let ghost base1 = msg@;
    while i < n
        invariant
            i <= n,
            n == missing@.len(),
            n > 0,
            gm == crate::structural::strs_of(missing@),
            "\"{"@ =~= seq!['"', '{'],
            "}\""@ =~= seq!['}', '"'],
            ", "@ =~= seq![','] + seq![' '],
            base1 =~= yaml_path@ + ": "@ + value_kind@
                + " contains unresolved template placeholder"@ + plural_s(gm.len() as int)
                + ": "@,
            msg@ + join_braced_from(gm, i as int) =~= base1 + join_braced_from(gm, 0),
        decreases n - i,
    {
        msg.append("\"{");
        msg.append(missing[i].as_str());
        msg.append("}\"");
        if i + 1 < n {
            msg.append(", ");
        }
        proof {
            assert(gm[i as int] == missing@[i as int]@);
            assert(msg@ + join_braced_from(gm, i + 1 as int) =~= base1 + join_braced_from(gm, 0));
        }
        i = i + 1;
    }
    msg.append(". Fix: add ");
    let ghost base2 = msg@;
    let mut j: usize = 0;
    while j < n
        invariant
            j <= n,
            n == missing@.len(),
            n > 0,
            gm == crate::structural::strs_of(missing@),
            "environments."@.len() == 13,
            "."@ =~= seq!['.'],
            ", "@ =~= seq![','] + seq![' '],
            base2 =~= yaml_path@ + ": "@ + value_kind@
                + " contains unresolved template placeholder"@ + plural_s(gm.len() as int)
                + ": "@ + join_braced_from(gm, 0) + ". Fix: add "@,
            msg@ + join_fixes_from(env_name@, gm, j as int) =~= base2 + join_fixes_from(
                env_name@,
                gm,
                0,
            ),
        decreases n - j,
    {
        msg.append("environments.");
        msg.append(env_name);
        msg.append(".");
        msg.append(missing[j].as_str());
        if j + 1 < n {
            msg.append(", ");
        }
        proof {
            assert(gm[j as int] == missing@[j as int]@);
            assert(msg@ + join_fixes_from(env_name@, gm, j + 1 as int) =~= base2 + join_fixes_from(
                env_name@,
                gm,
                0,
            ));
        }
        j = j + 1;
    }
    msg.append(" (or remove the placeholder");
    if n != 1 {
        msg.append("s");
    }
    msg.append(").");
    proof {
        assert(msg@ =~= unresolved_value_msg(
            yaml_path@,
            value_kind@,
            env_name@,
            gm,
        ));
    }
    Some(msg)
}

} // verus!

verus! {

fn b_bad_version(v: &str) -> (r: String)
    ensures
        r@ == msg_bad_version(v@),
{
    proof {
        reveal_strlit("Unsupported schema_version: \"");
        reveal_strlit("\". Expected \"2\".");
    }
    let mut m: String = "Unsupported schema_version: \"".to_owned();
    m.append(v);
    m.append("\". Expected \"2\".");
    proof {
        assert(m@ =~= msg_bad_version(v@));
    }
    m
}

fn b_dest_env(env: &str) -> (r: String)
    ensures
        r@ == msg_dest_env(env@),
{
    proof {
        reveal_strlit("metadata.destination references environment \"");
        reveal_strlit("\" which is not defined in environments.");
    }
    let mut m: String = "metadata.destination references environment \"".to_owned();
    m.append(env);
    m.append("\" which is not defined in environments.");
    proof {
        assert(m@ =~= msg_dest_env(env@));
    }
    m
}

fn b_desc_empty(name: &str) -> (r: String)
    ensures
        r@ == msg_desc_empty(name@),
{
    proof {
        reveal_strlit(": description must not be empty.");
    }
    let mut m: String = name.to_owned();
    m.append(": description must not be empty.");
    proof {
        assert(m@ =~= msg_desc_empty(name@));
    }
    m
}

fn b_var_env(name: &str, env: &str) -> (r: String)
    ensures
        r@ == msg_var_env(name@, env@),
{
    proof {
        reveal_strlit(": references environment \"");
        reveal_strlit("\" which is not defined in environments.");
    }
    let mut m: String = name.to_owned();
    m.append(": references environment \"");
    m.append(env);
    m.append("\" which is not defined in environments.");
    proof {
        assert(m@ =~= msg_var_env(name@, env@));
    }
    m
}

fn b_both_source_resolvers(name: &str) -> (r: String)
    ensures
        r@ == msg_both_source_resolvers(name@),
{
    proof {
        reveal_strlit(": cannot set both \"source\" and \"resolvers\". Choose one.");
    }
    let mut m: String = name.to_owned();
    m.append(": cannot set both \"source\" and \"resolvers\". Choose one.");
    proof {
        assert(m@ =~= msg_both_source_resolvers(name@));
    }
    m
}

fn b_values_with_resolvers(name: &str) -> (r: String)
    ensures
        r@ == msg_values_with_resolvers(name@),
{
    proof {
        reveal_strlit(": cannot set variable-level \"values\" when using \"resolvers\".");
    }
    let mut m: String = name.to_owned();
    m.append(": cannot set variable-level \"values\" when using \"resolvers\".");
    proof {
        assert(m@ =~= msg_values_with_resolvers(name@));
    }
    m
}

fn b_resolver_no_envs(name: &str, idx: u64) -> (r: String)
    ensures
        r@ == msg_resolver_no_envs(name@, idx as int),
{
    proof {
        reveal_strlit(": resolver #");
        reveal_strlit(" must specify at least one environment.");
    }
    let mut m: String = name.to_owned();
    m.append(": resolver #");
    m.append(crate::strutil::dec_string_u64(idx).as_str());
    m.append(" must specify at least one environment.");
    proof {
        assert(m@ =~= msg_resolver_no_envs(name@, idx as int));
    }
    m
}

fn b_resolver_env_undefined(name: &str, env: &str) -> (r: String)
    ensures
        r@ == msg_resolver_env_undefined(name@, env@),
{
    proof {
        reveal_strlit(": resolver references environment \"");
        reveal_strlit("\" which is not defined in environments.");
    }
    let mut m: String = name.to_owned();
    m.append(": resolver references environment \"");
    m.append(env);
    m.append("\" which is not defined in environments.");
    proof {
        assert(m@ =~= msg_resolver_env_undefined(name@, env@));
    }
    m
}

fn b_resolver_env_inapplicable(name: &str, env: &str) -> (r: String)
    ensures
        r@ == msg_resolver_env_inapplicable(name@, env@),
{
    proof {
        reveal_strlit(": resolver references environment \"");
        reveal_strlit("\" which is not applicable to this variable.");
    }
    let mut m: String = name.to_owned();
    m.append(": resolver references environment \"");
    m.append(env);
    m.append("\" which is not applicable to this variable.");
    proof {
        assert(m@ =~= msg_resolver_env_inapplicable(name@, env@));
    }
    m
}

fn b_resolver_overlap(name: &str, env: &str) -> (r: String)
    ensures
        r@ == msg_resolver_overlap(name@, env@),
{
    proof {
        reveal_strlit(": resolver environments overlap for environment \"");
        reveal_strlit("\".");
    }
    let mut m: String = name.to_owned();
    m.append(": resolver environments overlap for environment \"");
    m.append(env);
    m.append("\".");
    proof {
        assert(m@ =~= msg_resolver_overlap(name@, env@));
    }
    m
}

fn b_resolver_source_undefined(name: &str, src: &str) -> (r: String)
    ensures
        r@ == msg_resolver_source_undefined(name@, src@),
{
    proof {
        reveal_strlit(": resolver source \"");
        reveal_strlit("\" is not defined in sources.");
    }
    let mut m: String = name.to_owned();
    m.append(": resolver source \"");
    m.append(src);
    m.append("\" is not defined in sources.");
    proof {
        assert(m@ =~= msg_resolver_source_undefined(name@, src@));
    }
    m
}

fn b_resolver_static_no_values(name: &str) -> (r: String)
    ensures
        r@ == msg_resolver_static_no_values(name@),
{
    proof {
        reveal_strlit(": resolver source is \"static\" but no values map provided.");
    }
    let mut m: String = name.to_owned();
    m.append(": resolver source is \"static\" but no values map provided.");
    proof {
        assert(m@ =~= msg_resolver_static_no_values(name@));
    }
    m
}

fn b_resolver_static_no_value(name: &str, env: &str) -> (r: String)
    ensures
        r@ == msg_resolver_static_no_value(name@, env@),
{
    proof {
        reveal_strlit(": resolver source is \"static\" but no value provided for environment \"");
        reveal_strlit("\".");
    }
    let mut m: String = name.to_owned();
    m.append(": resolver source is \"static\" but no value provided for environment \"");
    m.append(env);
    m.append("\".");
    proof {
        assert(m@ =~= msg_resolver_static_no_value(name@, env@));
    }
    m
}

fn b_cmd_placeholder(name: &str, ph: &str, env: &str) -> (r: String)
    ensures
        r@ == msg_cmd_placeholder(name@, ph@, env@),
{
    proof {
        reveal_strlit(": source command template references placeholder \"{");
        reveal_strlit("}\" which cannot be resolved for environment \"");
        reveal_strlit("\".");
    }
    let mut m: String = name.to_owned();
    m.append(": source command template references placeholder \"{");
    m.append(ph);
    m.append("}\" which cannot be resolved for environment \"");
    m.append(env);
    m.append("\".");
    proof {
        assert(m@ =~= msg_cmd_placeholder(name@, ph@, env@));
    }
    m
}

fn b_no_resolver_for_env(name: &str, env: &str) -> (r: String)
    ensures
        r@ == msg_no_resolver_for_env(name@, env@),
{
    proof {
        reveal_strlit(": no resolver provided for environment \"");
        reveal_strlit("\".");
    }
    let mut m: String = name.to_owned();
    m.append(": no resolver provided for environment \"");
    m.append(env);
    m.append("\".");
    proof {
        assert(m@ =~= msg_no_resolver_for_env(name@, env@));
    }
    m
}

fn b_missing_source(name: &str) -> (r: String)
    ensures
        r@ == msg_missing_source(name@),
{
    proof {
        reveal_strlit(": missing required field \"source\".");
    }
    let mut m: String = name.to_owned();
    m.append(": missing required field \"source\".");
    proof {
        assert(m@ =~= msg_missing_source(name@));
    }
    m
}

fn b_source_undefined(name: &str, src: &str) -> (r: String)
    ensures
        r@ == msg_source_undefined(name@, src@),
{
    proof {
        reveal_strlit(": source \"");
        reveal_strlit("\" is not defined in sources.");
    }
    let mut m: String = name.to_owned();
    m.append(": source \"");
    m.append(src);
    m.append("\" is not defined in sources.");
    proof {
        assert(m@ =~= msg_source_undefined(name@, src@));
    }
    m
}

fn b_static_no_values(name: &str) -> (r: String)
    ensures
        r@ == msg_static_no_values(name@),
{
    proof {
        reveal_strlit(": source is \"static\" but no values map provided.");
    }
    let mut m: String = name.to_owned();
    m.append(": source is \"static\" but no values map provided.");
    proof {
        assert(m@ =~= msg_static_no_values(name@));
    }
    m
}

fn b_static_no_value(name: &str, env: &str) -> (r: String)
    ensures
        r@ == msg_static_no_value(name@, env@),
{
    proof {
        reveal_strlit(": source is \"static\" but no value provided for environment \"");
        reveal_strlit("\".");
    }
    let mut m: String = name.to_owned();
    m.append(": source is \"static\" but no value provided for environment \"");
    m.append(env);
    m.append("\".");
    proof {
        assert(m@ =~= msg_static_no_value(name@, env@));
    }
    m
}

} // verus!

verus! {

use crate::structural::strs_of;
use crate::types::{list_contains_exec, map_get};

fn do_dest_errs(
    dest: &Vec<(String, String)>,
    envs: &Vec<(String, StrMap)>,
    out: &mut Vec<String>,
)
    ensures
        strs_of(final(out)@) == strs_of(old(out)@) + dest_errs_from(dest@, 0, envs@),
{
    let n = dest.len();
    let mut i: usize = 0;
    let ghost mut acc: Seq<Seq<char>> = Seq::empty();
    proof {
        assert(strs_of(out@) =~= strs_of(old(out)@) + acc);
    }
    while i < n
        invariant
            i <= n,
            n == dest@.len(),
            strs_of(out@) == strs_of(old(out)@) + acc,
            dest_errs_from(dest@, 0, envs@) == acc + dest_errs_from(dest@, i as int, envs@),
        decreases n - i,
    {
        let ghost head = (if !assoc_contains(envs@, dest@[i as int].0@) {
            seq![msg_dest_env(dest@[i as int].0@)]
        } else {
            Seq::<Seq<char>>::empty()
        });
        proof {
            assert(dest_errs_from(dest@, i as int, envs@) == head + dest_errs_from(
                dest@,
                i + 1 as int,
                envs@,
            ));
            assert(acc + (head + dest_errs_from(dest@, i + 1 as int, envs@)) =~= (acc + head)
                + dest_errs_from(dest@, i + 1 as int, envs@));
        }
        if map_get(envs, dest[i].0.as_str()).is_none() {
            let ghost old_out = out@;
            out.push(b_dest_env(dest[i].0.as_str()));
            proof {
                assert(strs_of(out@) =~= strs_of(old_out).push(msg_dest_env(dest@[i as int].0@)));
                assert(strs_of(out@) =~= strs_of(old(out)@) + (acc + head));
                acc = acc + head;
            }
        } else {
            proof {
                assert(acc + head =~= acc);
                acc = acc + head;
            }
        }
        i = i + 1;
    }
    proof {
        assert(dest_errs_from(dest@, n as int, envs@) =~= Seq::<Seq<char>>::empty());
        assert(acc + dest_errs_from(dest@, n as int, envs@) =~= acc);
    }
}

fn do_var_env_errs(
    name: &str,
    ve: &Vec<String>,
    envs: &Vec<(String, StrMap)>,
    out: &mut Vec<String>,
)
    ensures
        strs_of(final(out)@) == strs_of(old(out)@) + var_env_errs_from(name@, ve@, 0, envs@),
{
    let n = ve.len();
    let mut i: usize = 0;
    let ghost mut acc: Seq<Seq<char>> = Seq::empty();
    proof {
        assert(strs_of(out@) =~= strs_of(old(out)@) + acc);
    }
    while i < n
        invariant
            i <= n,
            n == ve@.len(),
            strs_of(out@) == strs_of(old(out)@) + acc,
            var_env_errs_from(name@, ve@, 0, envs@) == acc + var_env_errs_from(
                name@,
                ve@,
                i as int,
                envs@,
            ),
        decreases n - i,
    {
        let ghost head = (if !assoc_contains(envs@, ve@[i as int]@) {
            seq![msg_var_env(name@, ve@[i as int]@)]
        } else {
            Seq::<Seq<char>>::empty()
        });
        proof {
            assert(var_env_errs_from(name@, ve@, i as int, envs@) == head + var_env_errs_from(
                name@,
                ve@,
                i + 1 as int,
                envs@,
            ));
            assert(acc + (head + var_env_errs_from(name@, ve@, i + 1 as int, envs@)) =~= (acc
                + head) + var_env_errs_from(name@, ve@, i + 1 as int, envs@));
        }
        if map_get(envs, ve[i].as_str()).is_none() {
            let ghost old_out = out@;
            out.push(b_var_env(name, ve[i].as_str()));
            proof {
                assert(strs_of(out@) =~= strs_of(old_out).push(
                    msg_var_env(name@, ve@[i as int]@),
                ));
                assert(strs_of(out@) =~= strs_of(old(out)@) + (acc + head));
                acc = acc + head;
            }
        } else {
            proof {
                assert(acc + head =~= acc);
                acc = acc + head;
            }
        }
        i = i + 1;
    }
    proof {
        assert(var_env_errs_from(name@, ve@, n as int, envs@) =~= Seq::<Seq<char>>::empty());
        assert(acc + var_env_errs_from(name@, ve@, n as int, envs@) =~= acc);
    }
}

/// The environments a variable applies to, as a fresh list.
fn applicable_exec(var: &Variable, envs: &Vec<(String, StrMap)>) -> (r: Vec<String>)
    ensures
        r@ == applicable_envs(*var, envs@),
{
    match &var.environments {
        Some(ve) => {
            let n = ve.len();
            let mut out: Vec<String> = Vec::new();
            let mut i: usize = 0;
            while i < n
                invariant
                    var.environments == Some(*ve),
                    i <= n,
                    n == ve@.len(),
                    out@ =~= ve@.subrange(0, i as int),
                decreases n - i,
            {
                out.push(ve[i].clone());
                proof {
                    assert(out@ =~= ve@.subrange(0, i + 1 as int));
                }
                i = i + 1;
            }
            proof {
                assert(out@ =~= ve@);
            }
            out
        },
        None => {
            let n = envs.len();
            let mut out: Vec<String> = Vec::new();
            let mut i: usize = 0;
            while i < n
                invariant
                    i <= n,
                    n == envs@.len(),
                    out@.len() == i,
                    forall|j: int| 0 <= j < i ==> out@[j] == #[trigger] envs@[j].0,
                decreases n - i,
            {
                out.push(envs[i].0.clone());
                i = i + 1;
            }
            proof {
                assert(out@ =~= keys_of(envs@));
            }
            out
        },
    }
}

fn do_renv_errs(
    name: &str,
    renvs: &Vec<String>,
    envs: &Vec<(String, StrMap)>,
    applicable: &Vec<String>,
    seen: &mut Vec<String>,
    out: &mut Vec<String>,
)
    ensures
        ({
            let res = renv_errs_from(
                name@,
                renvs@,
                0,
                envs@,
                applicable@,
                strs_of(old(seen)@),
            );
            strs_of(final(out)@) == strs_of(old(out)@) + res.0 && strs_of(final(seen)@) == res.1
        }),
{
    let n = renvs.len();
    let mut j: usize = 0;
    let ghost mut acc: Seq<Seq<char>> = Seq::empty();
    let ghost seen0 = strs_of(seen@);
    proof {
        assert(strs_of(out@) =~= strs_of(old(out)@) + acc);
    }
    while j < n
        invariant
            j <= n,
            n == renvs@.len(),
            strs_of(out@) == strs_of(old(out)@) + acc,
            renv_errs_from(name@, renvs@, 0, envs@, applicable@, seen0) == ({
                let rest = renv_errs_from(
                    name@,
                    renvs@,
                    j as int,
                    envs@,
                    applicable@,
                    strs_of(seen@),
                );
                (acc + rest.0, rest.1)
            }),
        decreases n - j,
    {
        let env = &renvs[j];
        let ghost genv = renvs@[j as int]@;
        let ghost e1 = (if !assoc_contains(envs@, genv) {
            seq![msg_resolver_env_undefined(name@, genv)]
        } else {
            Seq::<Seq<char>>::empty()
        });
        let ghost e2 = (if !list_contains(applicable@, genv) {
            seq![msg_resolver_env_inapplicable(name@, genv)]
        } else {
            Seq::<Seq<char>>::empty()
        });
        if map_get(envs, env.as_str()).is_none() {
            let ghost old_out = out@;
            out.push(b_resolver_env_undefined(name, env.as_str()));
            proof {
                assert(strs_of(out@) =~= strs_of(old_out).push(
                    msg_resolver_env_undefined(name@, genv),
                ));
                assert(strs_of(out@) =~= strs_of(old(out)@) + (acc + e1));
            }
        } else {
            proof {
                assert(acc + e1 =~= acc);
            }
        }
        proof {
            acc = acc + e1;
        }
        if !list_contains_exec(applicable, env.as_str()) {
            let ghost old_out = out@;
            out.push(b_resolver_env_inapplicable(name, env.as_str()));
            proof {
                assert(strs_of(out@) =~= strs_of(old_out).push(
                    msg_resolver_env_inapplicable(name@, genv),
                ));
                assert(strs_of(out@) =~= strs_of(old(out)@) + (acc + e2));
            }
        } else {
            proof {
                assert(acc + e2 =~= acc);
            }
        }
        proof {
            acc = acc + e2;
        }
        if names_contain(seen, env.as_str()) {
            let ghost old_out = out@;
            out.push(b_resolver_overlap(name, env.as_str()));
            proof {
                assert(strs_of(out@) =~= strs_of(old_out).push(
                    msg_resolver_overlap(name@, genv),
                ));
                assert(strs_of(out@) =~= strs_of(old(out)@) + (acc + seq![
                    msg_resolver_overlap(name@, genv),
                ]));
                acc = acc + seq![msg_resolver_overlap(name@, genv)];
            }
        } else {
            let ghost old_seen = strs_of(seen@);
            seen.push(env.clone());
            proof {
                assert(strs_of(seen@) =~= old_seen.push(genv));
            }
        }
        j = j + 1;
    }
    proof {
        let rest = renv_errs_from(name@, renvs@, n as int, envs@, applicable@, strs_of(seen@));
        assert(rest.0 =~= Seq::<Seq<char>>::empty());
        assert(acc + rest.0 =~= acc);
    }
}

} // verus!

verus! {


fn do_static_vals_errs(
    name: &str,
    list_envs: &Vec<String>,
    values: &StrMap,
    envs: &Vec<(String, StrMap)>,
    yaml_prefix: &str,
    value_kind: &str,
    is_resolver: bool,
    out: &mut Vec<String>,
)
    ensures
        strs_of(final(out)@) == strs_of(old(out)@) + static_vals_errs_from(
            name@,
            list_envs@,
            0,
            values.entries@,
            envs@,
            yaml_prefix@,
            value_kind@,
            is_resolver,
        ),
{
    let n = list_envs.len();
    let mut j: usize = 0;
    let ghost mut acc: Seq<Seq<char>> = Seq::empty();
    proof {
        assert(strs_of(out@) =~= strs_of(old(out)@) + acc);
    }
    while j < n
        invariant
            j <= n,
            n == list_envs@.len(),
            strs_of(out@) == strs_of(old(out)@) + acc,
            static_vals_errs_from(
                name@,
                list_envs@,
                0,
                values.entries@,
                envs@,
                yaml_prefix@,
                value_kind@,
                is_resolver,
            ) == acc + static_vals_errs_from(
                name@,
                list_envs@,
                j as int,
                values.entries@,
                envs@,
                yaml_prefix@,
                value_kind@,
                is_resolver,
            ),
        decreases n - j,
    {
        let env = &list_envs[j];
        let ghost genv = list_envs@[j as int]@;
        let ghost head = (match assoc_get(values.entries@, genv) {
            None => if is_resolver {
                seq![msg_resolver_static_no_value(name@, genv)]
            } else {
                seq![msg_static_no_value(name@, genv)]
            },
            Some(value) => match assoc_get(envs@, genv) {
                Some(env_cfg) => {
                    let missing = spec_unresolved_placeholders(value@, env_cfg.entries@);
                    if missing.len() > 0 {
                        seq![
                            unresolved_value_msg(
                                yaml_prefix@ + genv,
                                value_kind@,
                                genv,
                                missing,
                            ),
                        ]
                    } else {
                        Seq::<Seq<char>>::empty()
                    }
                },
                None => Seq::<Seq<char>>::empty(),
            },
        });
        proof {
            assert(static_vals_errs_from(
                name@,
                list_envs@,
                j as int,
                values.entries@,
                envs@,
                yaml_prefix@,
                value_kind@,
                is_resolver,
            ) == head + static_vals_errs_from(
                name@,
                list_envs@,
                j + 1 as int,
                values.entries@,
                envs@,
                yaml_prefix@,
                value_kind@,
                is_resolver,
            ));
            assert(acc + (head + static_vals_errs_from(
                name@,
                list_envs@,
                j + 1 as int,
                values.entries@,
                envs@,
                yaml_prefix@,
                value_kind@,
                is_resolver,
            )) =~= (acc + head) + static_vals_errs_from(
                name@,
                list_envs@,
                j + 1 as int,
                values.entries@,
                envs@,
                yaml_prefix@,
                value_kind@,
                is_resolver,
            ));
        }
        match values.get(env.as_str()) {
            None => {
                let ghost old_out = out@;
                if is_resolver {
                    out.push(b_resolver_static_no_value(name, env.as_str()));
                } else {
                    out.push(b_static_no_value(name, env.as_str()));
                }
                proof {
                    assert(strs_of(out@) =~= strs_of(old_out) + head);
                    assert(strs_of(out@) =~= strs_of(old(out)@) + (acc + head));
                    acc = acc + head;
                }
            },
            Some(value) => {
                match map_get(envs, env.as_str()) {
                    Some(env_cfg) => {
                        let missing = unresolved_template_placeholders(value.as_str(), env_cfg);
                        if missing.len() > 0 {
                            let mut yaml_path: String = yaml_prefix.to_owned();
                            yaml_path.append(env.as_str());
                            proof {
                                assert(yaml_path@ =~= yaml_prefix@ + genv);
                            }
                            match format_unresolved_template_error(
                                yaml_path.as_str(),
                                value_kind,
                                env.as_str(),
                                &missing,
                            ) {
                                Some(m) => {
                                    let ghost old_out = out@;
                                    out.push(m);
                                    proof {
                                        assert(strs_of(out@) =~= strs_of(old_out) + head);
                                        assert(strs_of(out@) =~= strs_of(old(out)@) + (acc
                                            + head));
                                        acc = acc + head;
                                    }
                                },
                                None => {
                                    proof {
                                        assert(false);
                                    }
                                },
                            }
                        } else {
                            proof {
                                assert(head =~= Seq::<Seq<char>>::empty());
                                assert(acc + head =~= acc);
                                acc = acc + head;
                            }
                        }
                    },
                    None => {
                        proof {
                            assert(head =~= Seq::<Seq<char>>::empty());
                            assert(acc + head =~= acc);
                            acc = acc + head;
                        }
                    },
                }
            },
        }
        j = j + 1;
    }
    proof {
        assert(static_vals_errs_from(
            name@,
            list_envs@,
            n as int,
            values.entries@,
            envs@,
            yaml_prefix@,
            value_kind@,
            is_resolver,
        ) =~= Seq::<Seq<char>>::empty());
        assert(acc + static_vals_errs_from(
            name@,
            list_envs@,
            n as int,
            values.entries@,
            envs@,
            yaml_prefix@,
            value_kind@,
            is_resolver,
        ) =~= acc);
    }
}

fn do_cmd_tpl_errs(
    name: &str,
    list_envs: &Vec<String>,
    envs: &Vec<(String, StrMap)>,
    command: &str,
    out: &mut Vec<String>,
)
    ensures
        strs_of(final(out)@) == strs_of(old(out)@) + cmd_tpl_errs_from(
            name@,
            list_envs@,
            0,
            envs@,
            command@,
        ),
{
    let phs = crate::template::extract_placeholders(command);
    let ghost gphs = placeholders_from(command@, 0);
    let n = list_envs.len();
    let mut j: usize = 0;
    let ghost mut acc: Seq<Seq<char>> = Seq::empty();
    proof {
        assert(strs_of(out@) =~= strs_of(old(out)@) + acc);
    }
    while j < n
        invariant
            j <= n,
            n == list_envs@.len(),
            gphs == strs_of(phs@),
            gphs == placeholders_from(command@, 0),
            strs_of(out@) == strs_of(old(out)@) + acc,
            cmd_tpl_errs_from(name@, list_envs@, 0, envs@, command@) == acc + cmd_tpl_errs_from(
                name@,
                list_envs@,
                j as int,
                envs@,
                command@,
            ),
        decreases n - j,
    {
        let env = &list_envs[j];
        let ghost genv = list_envs@[j as int]@;
        let ghost head = (match assoc_get(envs@, genv) {
            Some(env_cfg) => bad_phs_from(name@, gphs, 0, env_cfg.entries@, genv),
            None => Seq::<Seq<char>>::empty(),
        });
        proof {
            assert(cmd_tpl_errs_from(name@, list_envs@, j as int, envs@, command@) == head
                + cmd_tpl_errs_from(name@, list_envs@, j + 1 as int, envs@, command@));
            assert(acc + (head + cmd_tpl_errs_from(
                name@,
                list_envs@,
                j + 1 as int,
                envs@,
                command@,
            )) =~= (acc + head) + cmd_tpl_errs_from(
                name@,
                list_envs@,
                j + 1 as int,
                envs@,
                command@,
            ));
        }
        match map_get(envs, env.as_str()) {
            Some(env_cfg) => {
                proof {
                    reveal_strlit("key");
                    reveal_strlit("environment");
                }
                let m = phs.len();
                let mut k: usize = 0;
                let ghost mut acc2: Seq<Seq<char>> = Seq::empty();
                proof {
                    assert(strs_of(out@) =~= (strs_of(old(out)@) + acc) + acc2);
                }
                while k < m
                    invariant
                        k <= m,
                        m == phs@.len(),
                        gphs == strs_of(phs@),
                        genv == list_envs@[j as int]@,
                        env@ == genv,
                        name@ == name@,
                        assoc_get(envs@, genv) == Some(*env_cfg),
                        strs_of(out@) == (strs_of(old(out)@) + acc) + acc2,
                        bad_phs_from(name@, gphs, 0, env_cfg.entries@, genv) == acc2
                            + bad_phs_from(name@, gphs, k as int, env_cfg.entries@, genv),
                    decreases m - k,
                {
                    let ph = &phs[k];
                    let ghost gph = gphs[k as int];
                    proof {
                        assert(gph == phs@[k as int]@);
                    }
                    let ghost head2 = (if !assoc_contains(env_cfg.entries@, gph) && gph != "key"@
                        && gph != "environment"@ {
                        seq![msg_cmd_placeholder(name@, gph, genv)]
                    } else {
                        Seq::<Seq<char>>::empty()
                    });
                    proof {
                        assert(bad_phs_from(name@, gphs, k as int, env_cfg.entries@, genv) == head2
                            + bad_phs_from(name@, gphs, k + 1 as int, env_cfg.entries@, genv));
                        assert(acc2 + (head2 + bad_phs_from(
                            name@,
                            gphs,
                            k + 1 as int,
                            env_cfg.entries@,
                            genv,
                        )) =~= (acc2 + head2) + bad_phs_from(
                            name@,
                            gphs,
                            k + 1 as int,
                            env_cfg.entries@,
                            genv,
                        ));
                    }
                    if !env_cfg.contains_key(ph.as_str()) && !crate::strutil::str_eq(
                        ph.as_str(),
                        "key",
                    ) && !crate::strutil::str_eq(ph.as_str(), "environment") {
                        let ghost old_out = out@;
                        out.push(b_cmd_placeholder(name, ph.as_str(), env.as_str()));
                        proof {
                            assert(strs_of(out@) =~= strs_of(old_out) + head2);
                            assert(strs_of(out@) =~= (strs_of(old(out)@) + acc) + (acc2 + head2));
                            acc2 = acc2 + head2;
                        }
                    } else {
                        proof {
                            assert(head2 =~= Seq::<Seq<char>>::empty());
                            assert(acc2 + head2 =~= acc2);
                            acc2 = acc2 + head2;
                        }
                    }
                    k = k + 1;
                }
                proof {
                    assert(bad_phs_from(name@, gphs, m as int, env_cfg.entries@, genv)
                        =~= Seq::<Seq<char>>::empty());
                    assert(acc2 + bad_phs_from(name@, gphs, m as int, env_cfg.entries@, genv)
                        =~= acc2);
                    assert(acc2 == head);
                    assert((strs_of(old(out)@) + acc) + head =~= strs_of(old(out)@) + (acc
                        + head));
                    acc = acc + head;
                }
            },
            None => {
                proof {
                    assert(head =~= Seq::<Seq<char>>::empty());
                    assert(acc + head =~= acc);
                    acc = acc + head;
                }
            },
        }
        j = j + 1;
    }
    proof {
        assert(cmd_tpl_errs_from(name@, list_envs@, n as int, envs@, command@)
            =~= Seq::<Seq<char>>::empty());
        assert(acc + cmd_tpl_errs_from(name@, list_envs@, n as int, envs@, command@) =~= acc);
    }
}

} // verus!

verus! {

fn do_resolver_errs(
    name: &str,
    r: &VariableResolver,
    idx: u64,
    envs: &Vec<(String, StrMap)>,
    sources: &Vec<(String, Source)>,
    applicable: &Vec<String>,
    seen: &mut Vec<String>,
    out: &mut Vec<String>,
)
    requires
        idx >= 1,
    ensures
        ({
            let res = resolver_errs(
                name@,
                *r,
                idx as int,
                envs@,
                sources@,
                applicable@,
                strs_of(old(seen)@),
            );
            strs_of(final(out)@) == strs_of(old(out)@) + res.0 && strs_of(final(seen)@) == res.1
        }),
{
    let ghost gname = name@;
    let ghost e_empty = (if r.environments@.len() == 0 {
        seq![msg_resolver_no_envs(gname, idx as int)]
    } else {
        Seq::<Seq<char>>::empty()
    });
    if r.environments.len() == 0 {
        let ghost old_out = out@;
        out.push(b_resolver_no_envs(name, idx));
        proof {
            assert(strs_of(out@) =~= strs_of(old_out) + e_empty);
        }
    } else {
        proof {
            assert(strs_of(out@) =~= strs_of(old(out)@) + e_empty);
        }
    }
    let ghost envres = renv_errs_from(
        gname,
        r.environments@,
        0,
        envs@,
        applicable@,
        strs_of(seen@),
    );
    do_renv_errs(name, &r.environments, envs, applicable, seen, out);
    proof {
        assert(strs_of(out@) =~= strs_of(old(out)@) + (e_empty + envres.0));
        assert(strs_of(seen@) == envres.1);
    }
    let ghost src = r.source@;
    proof {
        reveal_strlit("static");
        reveal_strlit("manual");
    }
    let is_static = crate::strutil::str_eq(r.source.as_str(), "static");
    let is_manual = crate::strutil::str_eq(r.source.as_str(), "manual");
    let ghost e_src = (if src != "static"@ && src != "manual"@ && !assoc_contains(sources@, src) {
        seq![msg_resolver_source_undefined(gname, src)]
    } else {
        Seq::<Seq<char>>::empty()
    });
    if !is_static && !is_manual && map_get(sources, r.source.as_str()).is_none() {
        let ghost old_out = out@;
        out.push(b_resolver_source_undefined(name, r.source.as_str()));
        proof {
            assert(strs_of(out@) =~= strs_of(old_out) + e_src);
            assert(strs_of(out@) =~= strs_of(old(out)@) + ((e_empty + envres.0) + e_src));
        }
    } else {
        proof {
            assert(e_src =~= Seq::<Seq<char>>::empty());
            assert(strs_of(out@) =~= strs_of(old(out)@) + ((e_empty + envres.0) + e_src));
        }
    }
    let ghost e_static = (if src == "static"@ {
        if r.values is None {
            seq![msg_resolver_static_no_values(gname)]
        } else {
            static_vals_errs_from(
                gname,
                r.environments@,
                0,
                r.values->Some_0.entries@,
                envs@,
                "variables."@ + gname + ".resolvers["@ + crate::strutil::dec_digits(
                    idx as nat,
                ) + "].values."@,
                "static resolver value"@,
                true,
            )
        }
    } else {
        Seq::<Seq<char>>::empty()
    });
    if is_static {
        match &r.values {
            None => {
                let ghost old_out = out@;
                out.push(b_resolver_static_no_values(name));
                proof {
                    assert(strs_of(out@) =~= strs_of(old_out) + e_static);
                    assert(strs_of(out@) =~= strs_of(old(out)@) + (((e_empty + envres.0) + e_src)
                        + e_static));
                }
            },
            Some(vals) => {
                proof {
                    reveal_strlit("variables.");
                    reveal_strlit(".resolvers[");
                    reveal_strlit("].values.");
                    reveal_strlit("static resolver value");
                }
                let mut prefix: String = "variables.".to_owned();
                prefix.append(name);
                prefix.append(".resolvers[");
                prefix.append(crate::strutil::dec_string_u64(idx).as_str());
                prefix.append("].values.");
                proof {
                    assert(prefix@ =~= "variables."@ + gname + ".resolvers["@
                        + crate::strutil::dec_digits(idx as nat) + "].values."@);
                }
                do_static_vals_errs(
                    name,
                    &r.environments,
                    vals,
                    envs,
                    prefix.as_str(),
                    "static resolver value",
                    true,
                    out,
                );
                proof {
                    assert(strs_of(out@) =~= strs_of(old(out)@) + (((e_empty + envres.0) + e_src)
                        + e_static));
                }
            },
        }
    } else {
        proof {
            assert(e_static =~= Seq::<Seq<char>>::empty());
            assert(strs_of(out@) =~= strs_of(old(out)@) + (((e_empty + envres.0) + e_src)
                + e_static));
        }
    }
    let ghost e_cmd = (if src != "static"@ && src != "manual"@ {
        match assoc_get(sources@, src) {
            Some(source) => cmd_tpl_errs_from(gname, r.environments@, 0, envs@, source.command@),
            None => Seq::<Seq<char>>::empty(),
        }
    } else {
        Seq::<Seq<char>>::empty()
    });
    if !is_static && !is_manual {
        match map_get(sources, r.source.as_str()) {
            Some(source) => {
                do_cmd_tpl_errs(name, &r.environments, envs, source.command.as_str(), out);
                proof {
                    assert(strs_of(out@) =~= strs_of(old(out)@) + ((((e_empty + envres.0) + e_src)
                        + e_static) + e_cmd));
                }
            },
            None => {
                proof {
                    assert(e_cmd =~= Seq::<Seq<char>>::empty());
                    assert(strs_of(out@) =~= strs_of(old(out)@) + ((((e_empty + envres.0) + e_src)
                        + e_static) + e_cmd));
                }
            },
        }
    } else {
        proof {
            assert(e_cmd =~= Seq::<Seq<char>>::empty());
            assert(strs_of(out@) =~= strs_of(old(out)@) + ((((e_empty + envres.0) + e_src)
                + e_static) + e_cmd));
        }
    }
    proof {
        let res = resolver_errs(
            gname,
            *r,
            idx as int,
            envs@,
            sources@,
            applicable@,
            strs_of(old(seen)@),
        );
        assert(res.0 == e_empty + envres.0 + e_src + e_static + e_cmd);
        assert((((e_empty + envres.0) + e_src) + e_static) + e_cmd =~= e_empty + envres.0 + e_src
            + e_static + e_cmd);
    }
}

} // verus!

verus! {

#[verifier::rlimit(100)]
fn do_var_tail_resolvers(
    name: &str,
    var: &Variable,
    envs: &Vec<(String, StrMap)>,
    sources: &Vec<(String, Source)>,
    applicable: &Vec<String>,
    out: &mut Vec<String>,
)
    requires
        var.resolvers is Some,
        var.resolvers->Some_0@.len() > 0,
        applicable@ == applicable_envs(*var, envs@),
    ensures
        strs_of(final(out)@) == strs_of(old(out)@) + var_tail_errs(name@, *var, envs@, sources@),
{
    let ghost gname = name@;
    let ghost e_conflict_src = (if var.source is Some {
        seq![msg_both_source_resolvers(gname)]
    } else {
        Seq::<Seq<char>>::empty()
    });
    match &var.source {
        Some(_) => {
            let ghost old_out = out@;
            out.push(b_both_source_resolvers(name));
            proof {
                assert(strs_of(out@) =~= strs_of(old_out) + e_conflict_src);
            }
        },
        None => {
            proof {
                assert(strs_of(out@) =~= strs_of(old(out)@) + e_conflict_src);
            }
        },
    }
    let ghost e_conflict_vals = (if var.values is Some {
        seq![msg_values_with_resolvers(gname)]
    } else {
        Seq::<Seq<char>>::empty()
    });
    match &var.values {
        Some(_) => {
            let ghost old_out = out@;
            out.push(b_values_with_resolvers(name));
            proof {
                assert(strs_of(out@) =~= strs_of(old_out) + e_conflict_vals);
                assert(strs_of(out@) =~= strs_of(old(out)@) + (e_conflict_src + e_conflict_vals));
            }
        },
        None => {
            proof {
                assert(strs_of(out@) =~= strs_of(old(out)@) + (e_conflict_src + e_conflict_vals));
            }
        },
    }
    let mut seen: Vec<String> = Vec::new();
    match &var.resolvers {
        Some(rs) => {
            let n = rs.len();
            let mut i: usize = 0;
            let ghost mut acc: Seq<Seq<char>> = Seq::empty();
            proof {
                assert(strs_of(seen@) =~= Seq::<Seq<char>>::empty());
                assert(strs_of(out@) =~= (strs_of(old(out)@) + (e_conflict_src + e_conflict_vals))
                    + acc);
            }
            while i < n
                invariant
                    i <= n,
                    n == rs@.len(),
                    n <= u64::MAX,
                    var.resolvers == Some(*rs),
                    gname == name@,
                    strs_of(out@) == (strs_of(old(out)@) + (e_conflict_src + e_conflict_vals))
                        + acc,
                    resolvers_from(gname, rs@, 0, envs@, sources@, applicable@, Seq::empty())
                        == ({
                        let rest = resolvers_from(
                            gname,
                            rs@,
                            i as int,
                            envs@,
                            sources@,
                            applicable@,
                            strs_of(seen@),
                        );
                        (acc + rest.0, rest.1)
                    }),
                decreases n - i,
            {
                let ghost one = resolver_errs(
                    gname,
                    rs@[i as int],
                    i + 1 as int,
                    envs@,
                    sources@,
                    applicable@,
                    strs_of(seen@),
                );
                do_resolver_errs(
                    name,
                    &rs[i],
                    (i as u64) + 1,
                    envs,
                    sources,
                    applicable,
                    &mut seen,
                    out,
                );
                proof {
                    assert(strs_of(out@) =~= (strs_of(old(out)@) + (e_conflict_src
                        + e_conflict_vals)) + (acc + one.0));
                    acc = acc + one.0;
                }
                i = i + 1;
            }
            proof {
                let rest = resolvers_from(
                    gname,
                    rs@,
                    n as int,
                    envs@,
                    sources@,
                    applicable@,
                    strs_of(seen@),
                );
                assert(rest.0 =~= Seq::<Seq<char>>::empty());
                assert(acc + rest.0 =~= acc);
            }
            let ghost rres = resolvers_from(
                gname,
                rs@,
                0,
                envs@,
                sources@,
                applicable@,
                Seq::empty(),
            );
            let m = applicable.len();
            let mut k: usize = 0;
            let ghost mut acc2: Seq<Seq<char>> = Seq::empty();
            proof {
                assert(strs_of(out@) =~= ((strs_of(old(out)@) + (e_conflict_src
                    + e_conflict_vals)) + rres.0) + acc2);
            }
            while k < m
                invariant
                    k <= m,
                    m == applicable@.len(),
                    gname == name@,
                    strs_of(seen@) == rres.1,
                    strs_of(out@) == ((strs_of(old(out)@) + (e_conflict_src + e_conflict_vals))
                        + rres.0) + acc2,
                    coverage_errs_from(gname, applicable@, 0, rres.1) == acc2
                        + coverage_errs_from(gname, applicable@, k as int, rres.1),
                decreases m - k,
            {
                let ghost head = (if !names_contain_from(rres.1, 0, applicable@[k as int]@) {
                    seq![msg_no_resolver_for_env(gname, applicable@[k as int]@)]
                } else {
                    Seq::<Seq<char>>::empty()
                });
                proof {
                    assert(coverage_errs_from(gname, applicable@, k as int, rres.1) == head
                        + coverage_errs_from(gname, applicable@, k + 1 as int, rres.1));
                    assert(acc2 + (head + coverage_errs_from(
                        gname,
                        applicable@,
                        k + 1 as int,
                        rres.1,
                    )) =~= (acc2 + head) + coverage_errs_from(
                        gname,
                        applicable@,
                        k + 1 as int,
                        rres.1,
                    ));
                }
                if !names_contain(&seen, applicable[k].as_str()) {
                    let ghost old_out = out@;
                    out.push(b_no_resolver_for_env(name, applicable[k].as_str()));
                    proof {
                        assert(strs_of(out@) =~= strs_of(old_out) + head);
                        assert(strs_of(out@) =~= ((strs_of(old(out)@) + (e_conflict_src
                            + e_conflict_vals)) + rres.0) + (acc2 + head));
                        acc2 = acc2 + head;
                    }
                } else {
                    proof {
                        assert(head =~= Seq::<Seq<char>>::empty());
                        assert(acc2 + head =~= acc2);
                        acc2 = acc2 + head;
                    }
                }
                k = k + 1;
            }
            proof {
                assert(coverage_errs_from(gname, applicable@, m as int, rres.1)
                    =~= Seq::<Seq<char>>::empty());
                assert(acc2 + coverage_errs_from(gname, applicable@, m as int, rres.1) =~= acc2);
                assert(var_tail_errs(gname, *var, envs@, sources@) == e_conflict_src
                    + e_conflict_vals + rres.0 + coverage_errs_from(gname, applicable@, 0, rres.1));
                assert(((strs_of(old(out)@) + (e_conflict_src + e_conflict_vals)) + rres.0) + acc2
                    =~= strs_of(old(out)@) + (e_conflict_src + e_conflict_vals + rres.0 + acc2));
            }
        },
        None => {
            proof {
                assert(false);
            }
        },
    }
}

#[verifier::rlimit(100)]
fn do_var_tail_source(
    name: &str,
    var: &Variable,
    envs: &Vec<(String, StrMap)>,
    sources: &Vec<(String, Source)>,
    applicable: &Vec<String>,
    out: &mut Vec<String>,
)
    requires
        !(var.resolvers is Some && var.resolvers->Some_0@.len() > 0),
        applicable@ == applicable_envs(*var, envs@),
    ensures
        strs_of(final(out)@) == strs_of(old(out)@) + var_tail_errs(name@, *var, envs@, sources@),
{
    let ghost gname = name@;
    match &var.source {
        None => {
            let ghost old_out = out@;
            out.push(b_missing_source(name));
            proof {
                assert(strs_of(out@) =~= strs_of(old_out).push(msg_missing_source(gname)));
                assert(var_tail_errs(gname, *var, envs@, sources@) == seq![
                    msg_missing_source(gname),
                ]);
                assert(strs_of(out@) =~= strs_of(old(out)@) + seq![msg_missing_source(gname)]);
            }
        },
        Some(src_s) => {
            let ghost src = src_s@;
            proof {
                reveal_strlit("static");
                reveal_strlit("manual");
            }
            let is_static = crate::strutil::str_eq(src_s.as_str(), "static");
            let is_manual = crate::strutil::str_eq(src_s.as_str(), "manual");
            let ghost e_src = (if src != "static"@ && src != "manual"@ && !assoc_contains(
                sources@,
                src,
            ) {
                seq![msg_source_undefined(gname, src)]
            } else {
                Seq::<Seq<char>>::empty()
            });
            if !is_static && !is_manual && map_get(sources, src_s.as_str()).is_none() {
                let ghost old_out = out@;
                out.push(b_source_undefined(name, src_s.as_str()));
                proof {
                    assert(strs_of(out@) =~= strs_of(old_out) + e_src);
                }
            } else {
                proof {
                    assert(e_src =~= Seq::<Seq<char>>::empty());
                    assert(strs_of(out@) =~= strs_of(old(out)@) + e_src);
                }
            }
            let ghost e_static = (if src == "static"@ {
                if var.values is None {
                    seq![msg_static_no_values(gname)]
                } else {
                    static_vals_errs_from(
                        gname,
                        applicable@,
                        0,
                        var.values->Some_0.entries@,
                        envs@,
                        "variables."@ + gname + ".values."@,
                        "static value"@,
                        false,
                    )
                }
            } else {
                Seq::<Seq<char>>::empty()
            });
            if is_static {
                match &var.values {
                    None => {
                        let ghost old_out = out@;
                        out.push(b_static_no_values(name));
                        proof {
                            assert(strs_of(out@) =~= strs_of(old_out) + e_static);
                            assert(strs_of(out@) =~= strs_of(old(out)@) + (e_src + e_static));
                        }
                    },
                    Some(vals) => {
                        proof {
                            reveal_strlit("variables.");
                            reveal_strlit(".values.");
                            reveal_strlit("static value");
                        }
                        let mut prefix: String = "variables.".to_owned();
                        prefix.append(name);
                        prefix.append(".values.");
                        proof {
                            assert(prefix@ =~= "variables."@ + gname + ".values."@);
                        }
                        do_static_vals_errs(
                            name,
                            applicable,
                            vals,
                            envs,
                            prefix.as_str(),
                            "static value",
                            false,
                            out,
                        );
                        proof {
                            assert(strs_of(out@) =~= strs_of(old(out)@) + (e_src + e_static));
                        }
                    },
                }
            } else {
                proof {
                    assert(e_static =~= Seq::<Seq<char>>::empty());
                    assert(strs_of(out@) =~= strs_of(old(out)@) + (e_src + e_static));
                }
            }
            let ghost e_cmd = (if src != "static"@ && src != "manual"@ {
                match assoc_get(sources@, src) {
                    Some(source) => cmd_tpl_errs_from(gname, applicable@, 0, envs@, source.command@),
                    None => Seq::<Seq<char>>::empty(),
                }
            } else {
                Seq::<Seq<char>>::empty()
            });
            if !is_static && !is_manual {
                match map_get(sources, src_s.as_str()) {
                    Some(source) => {
                        do_cmd_tpl_errs(name, applicable, envs, source.command.as_str(), out);
                        proof {
                            assert(strs_of(out@) =~= strs_of(old(out)@) + ((e_src + e_static)
                                + e_cmd));
                        }
                    },
                    None => {
                        proof {
                            assert(e_cmd =~= Seq::<Seq<char>>::empty());
                            assert(strs_of(out@) =~= strs_of(old(out)@) + ((e_src + e_static)
                                + e_cmd));
                        }
                    },
                }
            } else {
                proof {
                    assert(e_cmd =~= Seq::<Seq<char>>::empty());
                    assert(strs_of(out@) =~= strs_of(old(out)@) + ((e_src + e_static) + e_cmd));
                }
            }
            proof {
                assert(var_tail_errs(gname, *var, envs@, sources@) == e_src + e_static + e_cmd);
                assert((e_src + e_static) + e_cmd =~= e_src + e_static + e_cmd);
            }
        },
    }
}

fn do_var_errs(
    name: &str,
    var: &Variable,
    envs: &Vec<(String, StrMap)>,
    sources: &Vec<(String, Source)>,
    out: &mut Vec<String>,
)
    ensures
        strs_of(final(out)@) == strs_of(old(out)@) + var_errs(name@, *var, envs@, sources@),
{
    let ghost gname = name@;
    let ghost e_desc = (if all_ws_from(var.description@, 0) {
        seq![msg_desc_empty(gname)]
    } else {
        Seq::<Seq<char>>::empty()
    });
    if is_blank(var.description.as_str()) {
        let ghost old_out = out@;
        out.push(b_desc_empty(name));
        proof {
            assert(strs_of(out@) =~= strs_of(old_out) + e_desc);
        }
    } else {
        proof {
            assert(strs_of(out@) =~= strs_of(old(out)@) + e_desc);
        }
    }
    let ghost e_envs = (if var.environments is Some {
        var_env_errs_from(gname, var.environments->Some_0@, 0, envs@)
    } else {
        Seq::<Seq<char>>::empty()
    });
    match &var.environments {
        Some(ve) => {
            do_var_env_errs(name, ve, envs, out);
        },
        None => {},
    }
    proof {
        assert(strs_of(out@) =~= strs_of(old(out)@) + (e_desc + e_envs));
    }
    let applicable = applicable_exec(var, envs);
    let has_resolvers: bool = match &var.resolvers {
        Some(rs) => rs.len() > 0,
        None => false,
    };
    let ghost tail = var_tail_errs(gname, *var, envs@, sources@);
    if has_resolvers {
        do_var_tail_resolvers(name, var, envs, sources, &applicable, out);
    } else {
        do_var_tail_source(name, var, envs, sources, &applicable, out);
    }
    proof {
        assert(strs_of(out@) =~= strs_of(old(out)@) + ((e_desc + e_envs) + tail));
        assert(var_errs(gname, *var, envs@, sources@) == e_desc + e_envs + tail);
        assert((e_desc + e_envs) + tail =~= e_desc + e_envs + tail);
    }
}

/// Validates a schema and reports every semantic error, in order; an empty
/// list means the schema is valid.
pub fn validate_schema(schema: &Schema) -> (r: Vec<String>)
    ensures
        strs_of(r@) == schema_errors(*schema),
{
    proof {
        reveal_strlit("2");
    }
    let mut out: Vec<String> = Vec::new();
    if !crate::strutil::str_eq(schema.schema_version.as_str(), "2") {
        out.push(b_bad_version(schema.schema_version.as_str()));
        proof {
            assert(strs_of(out@) =~= seq![msg_bad_version(schema.schema_version@)]);
        }
        return out;
    }
    let ghost e_dest_empty = (if schema.metadata.destination.entries@.len() == 0 {
        seq![msg_dest_empty()]
    } else {
        Seq::<Seq<char>>::empty()
    });
    if schema.metadata.destination.len() == 0 {
        proof {
            reveal_strlit("metadata.destination must have at least one environment entry.");
        }
        out.push("metadata.destination must have at least one environment entry.".to_owned());
        proof {
            assert(strs_of(out@) =~= e_dest_empty);
        }
    } else {
        proof {
            assert(strs_of(out@) =~= e_dest_empty);
        }
    }
    let ghost e_dest = dest_errs_from(schema.metadata.destination.entries@, 0, schema.environments@);
    do_dest_errs(&schema.metadata.destination.entries, &schema.environments, &mut out);
    proof {
        assert(strs_of(out@) =~= e_dest_empty + e_dest);
    }
    let n = schema.variables.len();
    let mut i: usize = 0;
    let ghost mut acc: Seq<Seq<char>> = Seq::empty();
    proof {
        assert(strs_of(out@) =~= (e_dest_empty + e_dest) + acc);
    }
    while i < n
        invariant
            i <= n,
            n == schema.variables@.len(),
            strs_of(out@) == (e_dest_empty + e_dest) + acc,
            e_dest_empty == (if schema.metadata.destination.entries@.len() == 0 {
                seq![msg_dest_empty()]
            } else {
                Seq::<Seq<char>>::empty()
            }),
            e_dest == dest_errs_from(schema.metadata.destination.entries@, 0, schema.environments@),
            vars_from(schema.variables@, 0, schema.environments@, schema.sources@) == acc
                + vars_from(schema.variables@, i as int, schema.environments@, schema.sources@),
        decreases n - i,
    {
        let ghost one = var_errs(
            schema.variables@[i as int].0@,
            schema.variables@[i as int].1,
            schema.environments@,
            schema.sources@,
        );
        do_var_errs(
            schema.variables[i].0.as_str(),
            &schema.variables[i].1,
            &schema.environments,
            &schema.sources,
            &mut out,
        );
        proof {
            assert(strs_of(out@) =~= (e_dest_empty + e_dest) + (acc + one));
            acc = acc + one;
        }
        i = i + 1;
    }
    proof {
        assert(vars_from(schema.variables@, n as int, schema.environments@, schema.sources@)
            =~= Seq::<Seq<char>>::empty());
        assert(acc + vars_from(schema.variables@, n as int, schema.environments@, schema.sources@)
            =~= acc);
    }
    proof {
        reveal_strlit("static");
        reveal_strlit("manual");
    }
    let ghost e_b1 = (if assoc_contains(schema.sources@, "static"@) {
        seq![msg_builtin_static()]
    } else {
        Seq::<Seq<char>>::empty()
    });
    if map_get(&schema.sources, "static").is_some() {
        proof {
            reveal_strlit("Source name \"static\" is built-in and must not be redefined.");
        }
        out.push("Source name \"static\" is built-in and must not be redefined.".to_owned());
        proof {
            assert(strs_of(out@) =~= ((e_dest_empty + e_dest) + acc) + e_b1);
        }
    } else {
        proof {
            assert(strs_of(out@) =~= ((e_dest_empty + e_dest) + acc) + e_b1);
        }
    }
    let ghost e_b2 = (if assoc_contains(schema.sources@, "manual"@) {
        seq![msg_builtin_manual()]
    } else {
        Seq::<Seq<char>>::empty()
    });
    if map_get(&schema.sources, "manual").is_some() {
        proof {
            reveal_strlit("Source name \"manual\" is built-in and must not be redefined.");
        }
        out.push("Source name \"manual\" is built-in and must not be redefined.".to_owned());
        proof {
            assert(strs_of(out@) =~= (((e_dest_empty + e_dest) + acc) + e_b1) + e_b2);
        }
    } else {
        proof {
            assert(strs_of(out@) =~= (((e_dest_empty + e_dest) + acc) + e_b1) + e_b2);
        }
    }
    proof {
        assert(schema_errors(*schema) == e_dest_empty + e_dest + acc + builtin_errs(
            schema.sources@,
        ));
        assert(builtin_errs(schema.sources@) == e_b1 + e_b2);
        assert((((e_dest_empty + e_dest) + acc) + e_b1) + e_b2 =~= e_dest_empty + e_dest + acc + (
        e_b1 + e_b2));
    }
    out
}

} // verus!
