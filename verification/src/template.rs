//! Template placeholders: `{name}` references expanded from a context of
//! named values, where a name starts with a letter or underscore and goes on
//! with letters, digits or underscores.
use vstd::prelude::*;
use vstd::string::StrSliceExecFns;
use vstd::string::StringExecFns;

use crate::semantics::join_comma_from;
use crate::structural::strs_of;
use crate::types::{assoc_contains, assoc_get, StrMap};

verus! {

pub open spec fn is_word_start(c: char) -> bool {
    ('a' <= c && c <= 'z') || ('A' <= c && c <= 'Z') || c == '_'
}

pub open spec fn is_word_char(c: char) -> bool {
    is_word_start(c) || ('0' <= c && c <= '9')
}

/// The first index at or after `i` holding a non-word character, or the end.
pub open spec fn word_end(s: Seq<char>, i: int) -> int
    decreases s.len() - i,
{
    if i >= s.len() {
        s.len() as int
    } else if !is_word_char(s[i]) {
        i
    } else {
        word_end(s, i + 1)
    }
}

/// The placeholder starting at `p`, if one starts there: its name and the
/// position right after its closing brace.
pub open spec fn match_at(s: Seq<char>, p: int) -> Option<(Seq<char>, int)> {
    if 0 <= p && p + 1 < s.len() && s[p] == '{' && is_word_start(s[p + 1]) {
        let q = word_end(s, p + 2);
        if q < s.len() && s[q] == '}' {
            Some((s.subrange(p + 1, q), q + 1))
        } else {
            None
        }
    } else {
        None
    }
}

/// All placeholder names from position `p` on, leftmost first,
/// non-overlapping.
pub open spec fn placeholders_from(s: Seq<char>, p: int) -> Seq<Seq<char>>
    decreases s.len() - p,
{
    if p >= s.len() {
        Seq::empty()
    } else {
        match match_at(s, p) {
            Some(m) => seq![m.0] + (if m.1 > p {
                placeholders_from(s, m.1)
            } else {
                Seq::<Seq<char>>::empty()
            }),
            None => placeholders_from(s, p + 1),
        }
    }
}

/// The value a context gives a placeholder when it expands: the bound value,
/// or nothing.
pub open spec fn ctx_value(ctx: Seq<(String, String)>, name: Seq<char>) -> Seq<char> {
    match assoc_get(ctx, name) {
        Some(v) => v@,
        None => Seq::empty(),
    }
}

/// A string mapping seen abstractly: its key set and, on it, its values, by
/// first occurrence.
pub open spec fn smap_view(es: Seq<(String, String)>) -> Map<Seq<char>, Seq<char>> {
    Map::new(|k: Seq<char>| assoc_contains(es, k), |k: Seq<char>| ctx_value(es, k))
}

/// The placeholder names from `p` on that the context does not bind.
pub open spec fn unresolved_from(s: Seq<char>, p: int, m: Map<Seq<char>, Seq<char>>) -> Seq<
    Seq<char>,
>
    decreases s.len() - p,
{
    if p >= s.len() {
        Seq::empty()
    } else {
        match match_at(s, p) {
            Some(mm) => (if m.contains_key(mm.0) {
                Seq::<Seq<char>>::empty()
            } else {
                seq![mm.0]
            }) + (if mm.1 > p {
                unresolved_from(s, mm.1, m)
            } else {
                Seq::<Seq<char>>::empty()
            }),
            None => unresolved_from(s, p + 1, m),
        }
    }
}

/// The expansion from position `p` on: every placeholder replaced by its
/// context value, all other characters kept.
pub open spec fn expand_from(s: Seq<char>, p: int, m: Map<Seq<char>, Seq<char>>) -> Seq<char>
    decreases s.len() - p,
{
    if p >= s.len() {
        Seq::empty()
    } else {
        match match_at(s, p) {
            Some(mm) => (if m.contains_key(mm.0) {
                m[mm.0]
            } else {
                Seq::<char>::empty()
            }) + (if mm.1 > p {
                expand_from(s, mm.1, m)
            } else {
                Seq::<char>::empty()
            }),
            None => seq![s[p]] + expand_from(s, p + 1, m),
        }
    }
}

/// The message reported when placeholders cannot be resolved.
pub open spec fn unresolved_msg(names: Seq<Seq<char>>) -> Seq<char> {
    "Unresolved template placeholders: "@ + join_comma_from(names, 0)
}

fn is_word_start_exec(c: char) -> (r: bool)
    ensures
        r == is_word_start(c),
{
    (('a' as u32) <= (c as u32) && (c as u32) <= ('z' as u32)) || (('A' as u32) <= (c as u32) && (c
        as u32) <= ('Z' as u32)) || c == '_'
}

fn is_word_char_exec(c: char) -> (r: bool)
    ensures
        r == is_word_char(c),
{
    is_word_start_exec(c) || (('0' as u32) <= (c as u32) && (c as u32) <= ('9' as u32))
}

/// Scans the maximal word run starting at `start`.
fn word_end_exec(s: &str, start: usize) -> (r: usize)
    requires
        start <= s@.len(),
    ensures
        r as int == word_end(s@, start as int),
        start <= r <= s@.len(),
{
    let len = s.unicode_len();
    let mut q = start;
    while q < len
        invariant
            start <= q <= len,
            len == s@.len(),
            word_end(s@, start as int) == word_end(s@, q as int),
        decreases len - q,
    {
        if !is_word_char_exec(s.get_char(q)) {
            return q;
        }
        q = q + 1;
    }
    q
}

/// Extracts all placeholder names from a template string, in order.
pub fn extract_placeholders(template: &str) -> (r: Vec<String>)
    ensures
        strs_of(r@) == placeholders_from(template@, 0),
{
    let len = template.unicode_len();
    let mut out: Vec<String> = Vec::new();
    let mut p: usize = 0;
    while p < len
        invariant
            p <= len,
            len == template@.len(),
            strs_of(out@) + placeholders_from(template@, p as int) =~= placeholders_from(
                template@,
                0,
            ),
        decreases len - p,
    {
        if p + 1 < len && template.get_char(p) == '{' && is_word_start_exec(
            template.get_char(p + 1),
        ) {
            let q = word_end_exec(template, p + 2);
            if q < len && template.get_char(q) == '}' {
                let name = template.substring_char(p + 1, q);
                let ghost old_out = out@;
                out.push(name.to_owned());
                proof {
                    assert(match_at(template@, p as int) == Some(
                        (template@.subrange(p + 1 as int, q as int), q + 1 as int),
                    ));
                    assert(strs_of(out@) =~= strs_of(old_out).push(name@));
                    assert(strs_of(out@) + placeholders_from(template@, q + 1 as int)
                        =~= placeholders_from(template@, 0));
                }
                p = q + 1;
            } else {
                proof {
                    assert(match_at(template@, p as int) is None);
                }
                p = p + 1;
            }
        } else {
            proof {
                assert(match_at(template@, p as int) is None);
            }
            p = p + 1;
        }
    }
    proof {
        assert(strs_of(out@) =~= placeholders_from(template@, 0));
    }
    out
}

/// Expands every `{placeholder}` in a template from the context; when any
/// placeholder is unbound, reports them all instead.
pub fn expand_template(template: &str, context: &StrMap) -> (r: Result<String, String>)
    ensures
        match r {
            Ok(out) => unresolved_from(template@, 0, smap_view(context.entries@)).len() == 0
                && out@ == expand_from(template@, 0, smap_view(context.entries@)),
            Err(m) => unresolved_from(template@, 0, smap_view(context.entries@)).len() > 0 && m@
                == unresolved_msg(unresolved_from(template@, 0, smap_view(context.entries@))),
        },
{
    let ghost gctx = smap_view(context.entries@);
    let len = template.unicode_len();
    // First pass: collect the placeholders the context does not bind.
    let mut unresolved: Vec<String> = Vec::new();
    let mut p: usize = 0;
    while p < len
        invariant
            p <= len,
            len == template@.len(),
            gctx == smap_view(context.entries@),
            strs_of(unresolved@) + unresolved_from(template@, p as int, gctx) =~= unresolved_from(
                template@,
                0,
                gctx,
            ),
        decreases len - p,
    {
        if p + 1 < len && template.get_char(p) == '{' && is_word_start_exec(
            template.get_char(p + 1),
        ) {
            let q = word_end_exec(template, p + 2);
            if q < len && template.get_char(q) == '}' {
                let name = template.substring_char(p + 1, q);
                proof {
                    assert(match_at(template@, p as int) == Some(
                        (template@.subrange(p + 1 as int, q as int), q + 1 as int),
                    ));
                }
                proof {
                    assert(gctx.contains_key(name@) == assoc_contains(context.entries@, name@));
                }
                if !context.contains_key(name) {
                    let ghost old_u = unresolved@;
                    unresolved.push(name.to_owned());
                    proof {
                        assert(strs_of(unresolved@) =~= strs_of(old_u).push(name@));
                        assert(strs_of(unresolved@) + unresolved_from(template@, q + 1 as int, gctx)
                            =~= unresolved_from(template@, 0, gctx));
                    }
                } else {
                    proof {
                        assert(strs_of(unresolved@) + unresolved_from(template@, q + 1 as int, gctx)
                            =~= unresolved_from(template@, 0, gctx));
                    }
                }
                p = q + 1;
            } else {
                proof {
                    assert(match_at(template@, p as int) is None);
                }
                p = p + 1;
            }
        } else {
            proof {
                assert(match_at(template@, p as int) is None);
            }
            p = p + 1;
        }
    }
    proof {
        assert(strs_of(unresolved@) =~= unresolved_from(template@, 0, gctx));
    }
    if unresolved.len() > 0 {
        proof {
            reveal_strlit("Unresolved template placeholders: ");
        }
        let mut msg: String = "Unresolved template placeholders: ".to_owned();
        let ghost gnames = strs_of(unresolved@);
        let n = unresolved.len();
        let mut i: usize = 0;
        proof {
            reveal_strlit(", ");
        }
        while i < n
            invariant
                i <= n,
                n == unresolved@.len(),
                n > 0,
                gnames == strs_of(unresolved@),
                ", "@ =~= seq![','] + seq![' '],
                msg@ + join_comma_from(gnames, i as int) =~= "Unresolved template placeholders: "@
                    + join_comma_from(gnames, 0),
            decreases n - i,
        {
            msg.append(unresolved[i].as_str());
            if i + 1 < n {
                msg.append(", ");
            }
            proof {
                assert(strs_of(unresolved@)[i as int] == unresolved@[i as int]@);
                assert(msg@ + join_comma_from(gnames, i + 1 as int)
                    =~= "Unresolved template placeholders: "@ + join_comma_from(gnames, 0));
            }
            i = i + 1;
        }
        proof {
            assert(msg@ =~= unresolved_msg(unresolved_from(template@, 0, gctx)));
        }
        return Err(msg);
    }
    // Second pass: expand.
    let mut out = String::new();
    let mut p2: usize = 0;
    while p2 < len
        invariant
            p2 <= len,
            len == template@.len(),
            gctx == smap_view(context.entries@),
            out@ + expand_from(template@, p2 as int, gctx) =~= expand_from(template@, 0, gctx),
        decreases len - p2,
    {
        if p2 + 1 < len && template.get_char(p2) == '{' && is_word_start_exec(
            template.get_char(p2 + 1),
        ) {
            let q = word_end_exec(template, p2 + 2);
            if q < len && template.get_char(q) == '}' {
                let name = template.substring_char(p2 + 1, q);
                proof {
                    assert(match_at(template@, p2 as int) == Some(
                        (template@.subrange(p2 + 1 as int, q as int), q + 1 as int),
                    ));
                }
                match context.get(name) {
                    Some(v) => {
                        out.append(v.as_str());
                        proof {
                            assert(gctx.contains_key(name@));
                            assert(gctx[name@] == v@);
                        }
                    },
                    None => {
                        proof {
                            assert(!gctx.contains_key(name@));
                            assert(out@ + Seq::<char>::empty() =~= out@);
                        }
                    },
                }
                proof {
                    assert(out@ + expand_from(template@, q + 1 as int, gctx) =~= expand_from(
                        template@,
                        0,
                        gctx,
                    ));
                }
                p2 = q + 1;
            } else {
                proof {
                    assert(match_at(template@, p2 as int) is None);
                }
                let piece = template.substring_char(p2, p2 + 1);
                proof {
                    assert(piece@ =~= seq![template@[p2 as int]]);
                }
                out.append(piece);
                proof {
                    assert(out@ + expand_from(template@, p2 + 1 as int, gctx) =~= expand_from(
                        template@,
                        0,
                        gctx,
                    ));
                }
                p2 = p2 + 1;
            }
        } else {
            proof {
                assert(match_at(template@, p2 as int) is None);
            }
            let piece = template.substring_char(p2, p2 + 1);
            proof {
                assert(piece@ =~= seq![template@[p2 as int]]);
            }
            out.append(piece);
            proof {
                assert(out@ + expand_from(template@, p2 + 1 as int, gctx) =~= expand_from(
                    template@,
                    0,
                    gctx,
                ));
            }
            p2 = p2 + 1;
        }
    }
    proof {
        assert(out@ =~= expand_from(template@, 0, gctx));
    }
    Ok(out)
}

/// Builds a template context: the environment's configuration, then the
/// built-in `environment` and `key` values on top.
pub fn build_context(env_name: &str, env_config: &StrMap, key: &str) -> (r: StrMap)
    ensures
        smap_get(r.entries@, "key"@) == Some(key@),
        smap_get(r.entries@, "environment"@) == Some(env_name@),
        forall|k: Seq<char>|
            k != "environment"@ && k != "key"@ ==> #[trigger] smap_get(r.entries@, k) == smap_get(
                env_config.entries@,
                k,
            ),
        smap_view(r.entries@) == smap_view(env_config.entries@).insert(
            "environment"@,
            env_name@,
        ).insert("key"@, key@),
{
    let mut ctx = StrMap::new();
    let ghost gbase = env_config.entries@;
    let n = env_config.entries.len();
    let mut i: usize = 0;
    while i < n
        invariant
            i <= n,
            n == env_config.entries@.len(),
            gbase == env_config.entries@,
            ctx.entries@ =~= gbase.subrange(0, i as int),
        decreases n - i,
    {
        let k = env_config.entries[i].0.clone();
        let v = env_config.entries[i].1.clone();
        ctx.entries.push((k, v));
        proof {
            assert(ctx.entries@ =~= gbase.subrange(0, i + 1 as int));
        }
        i = i + 1;
    }
    proof {
        assert(ctx.entries@ =~= gbase);
        reveal_strlit("environment");
        reveal_strlit("key");
        assert("environment"@.len() == 11);
        assert("key"@.len() == 3);
        assert("environment"@ != "key"@);
    }
    let ghost mid = ctx.entries@;
    let env_key: String = "environment".to_owned();
    let env_val: String = env_name.to_owned();
    let ghost gk1 = env_key;
    let ghost gv1 = env_val;
    ctx.set(env_key, env_val);
    proof {
        lemma_smap_set_get_all(mid, gk1, gv1);
        assert(ctx.entries@ == crate::types::smap_set_from(mid, 0, gk1, gv1));
    }
    let ghost mid2 = ctx.entries@;
    let key_key: String = "key".to_owned();
    let key_val: String = key.to_owned();
    let ghost gk2 = key_key;
    let ghost gv2 = key_val;
    ctx.set(key_key, key_val);
    proof {
        lemma_smap_set_get_all(mid2, gk2, gv2);
        assert(ctx.entries@ == crate::types::smap_set_from(mid2, 0, gk2, gv2));
        assert(smap_get(ctx.entries@, "key"@) == Some(key@));
        assert(smap_get(ctx.entries@, "environment"@) == Some(env_name@));
        let m1 = smap_view(ctx.entries@);
        let m2 = smap_view(gbase).insert("environment"@, env_name@).insert("key"@, key@);
        assert forall|k: Seq<char>| #![auto] m1.contains_key(k) == m2.contains_key(k) by {
            assert(m1.contains_key(k) == assoc_contains(ctx.entries@, k));
            assert(smap_get(ctx.entries@, k) is Some <==> assoc_contains(ctx.entries@, k));
            assert(smap_get(gbase, k) is Some <==> assoc_contains(gbase, k));
        }
        assert forall|k: Seq<char>| #![auto] m1.contains_key(k) implies m1[k] == m2[k] by {
            assert(smap_get(ctx.entries@, k) == Some(m1[k]));
            if k != "key"@ && k != "environment"@ {
                assert(smap_get(gbase, k) == Some(m2[k]));
            }
        }
        assert(m1 =~= m2);
    }
    ctx
}

/// The characters bound under a key, when the key is bound.
pub open spec fn smap_get(es: Seq<(String, String)>, k: Seq<char>) -> Option<Seq<char>> {
    match crate::types::assoc_get(es, k) {
        Some(v) => Some(v@),
        None => None,
    }
}

/// Updating one key changes that key's binding and nothing else.
proof fn lemma_smap_set_get_all(es: Seq<(String, String)>, key: String, val: String)
    ensures
        forall|k2: Seq<char>| #[trigger]
            smap_get(crate::types::smap_set_from(es, 0, key, val), k2) == (if k2 == key@ {
                Some(val@)
            } else {
                smap_get(es, k2)
            }),
{
    assert forall|k2: Seq<char>| #[trigger]
        smap_get(crate::types::smap_set_from(es, 0, key, val), k2) == (if k2 == key@ {
            Some(val@)
        } else {
            smap_get(es, k2)
        }) by {
        lemma_smap_set_get(es, 0, key, val, k2);
    }
}

proof fn lemma_smap_set_get(
    es: Seq<(String, String)>,
    i: int,
    key: String,
    val: String,
    k2: Seq<char>,
)
    requires
        0 <= i <= es.len(),
        forall|j: int| 0 <= j < i ==> es[j].0@ != key@,
    ensures
        crate::types::assoc_get(crate::types::smap_set_from(es, i, key, val), k2) == (if k2 == key@ {
            Some(val)
        } else {
            crate::types::assoc_get(es, k2)
        }),
    decreases es.len() - i,
{
    if i >= es.len() {
        lemma_assoc_absent(es, 0, key@);
        lemma_assoc_push(es, key, val, k2);
    } else if es[i].0@ == key@ {
        lemma_assoc_update(es, i, key, val, k2);
    } else {
        lemma_smap_set_get(es, i + 1, key, val, k2);
    }
}

/// A key held by no entry is not found.
proof fn lemma_assoc_absent(es: Seq<(String, String)>, from: int, k: Seq<char>)
    requires
        0 <= from,
        forall|j: int| 0 <= j < es.len() ==> es[j].0@ != k,
    ensures
        crate::types::assoc_get_from(es, from, k) is None,
    decreases es.len() - from,
{
    if from < es.len() {
        lemma_assoc_absent(es, from + 1, k);
    }
}

proof fn lemma_assoc_push(es: Seq<(String, String)>, key: String, val: String, k2: Seq<char>)
    ensures
        crate::types::assoc_get(es.push((key, val)), k2) == (if k2 == key@ && !crate::types::assoc_contains(
            es,
            k2,
        ) {
            Some(val)
        } else {
            crate::types::assoc_get(es, k2)
        }),
{
    lemma_assoc_push_from(es, 0, key, val, k2);
}

proof fn lemma_assoc_push_from(
    es: Seq<(String, String)>,
    from: int,
    key: String,
    val: String,
    k2: Seq<char>,
)
    requires
        0 <= from <= es.len(),
    ensures
        crate::types::assoc_get_from(es.push((key, val)), from, k2) == (if k2 == key@
            && crate::types::assoc_get_from(es, from, k2) is None {
            Some(val)
        } else {
            crate::types::assoc_get_from(es, from, k2)
        }),
    decreases es.len() - from,
{
    let full = es.push((key, val));
    if from < es.len() {
        assert(full[from] == es[from]);
        lemma_assoc_push_from(es, from + 1, key, val, k2);
    } else {
        assert(full.len() == es.len() + 1);
        assert(full[from] == (key, val));
        assert(crate::types::assoc_get_from(es, from, k2) is None);
        if k2 == key@ {
            assert(crate::types::assoc_get_from(full, from, k2) == Some(val));
        } else {
            assert(crate::types::assoc_get_from(full, from, k2)
                == crate::types::assoc_get_from(full, from + 1, k2));
            assert(crate::types::assoc_get_from(full, from + 1, k2) is None);
        }
    }
}

proof fn lemma_assoc_update(
    es: Seq<(String, String)>,
    i: int,
    key: String,
    val: String,
    k2: Seq<char>,
)
    requires
        0 <= i < es.len(),
        es[i].0@ == key@,
        forall|j: int| 0 <= j < i ==> es[j].0@ != key@,
    ensures
        crate::types::assoc_get(es.update(i, (key, val)), k2) == (if k2 == key@ {
            Some(val)
        } else {
            crate::types::assoc_get(es, k2)
        }),
{
    lemma_assoc_update_from(es, 0, i, key, val, k2);
}

proof fn lemma_assoc_update_from(
    es: Seq<(String, String)>,
    from: int,
    i: int,
    key: String,
    val: String,
    k2: Seq<char>,
)
    requires
        0 <= from <= es.len(),
        0 <= i < es.len(),
        from <= i,
        es[i].0@ == key@,
        forall|j: int| 0 <= j < i ==> es[j].0@ != key@,
    ensures
        crate::types::assoc_get_from(es.update(i, (key, val)), from, k2) == (if k2 == key@ {
            Some(val)
        } else {
            crate::types::assoc_get_from(es, from, k2)
        }),
    decreases es.len() - from,
{
    let upd = es.update(i, (key, val));
    if from < i {
        assert(upd[from] == es[from]);
        lemma_assoc_update_from(es, from + 1, i, key, val, k2);
    } else {
        assert(upd[from] == (key, val));
        if k2 != key@ {
            lemma_assoc_same_after(es, from + 1, i, key, val, k2);
        }
    }
}

proof fn lemma_assoc_same_after(
    es: Seq<(String, String)>,
    from: int,
    i: int,
    key: String,
    val: String,
    k2: Seq<char>,
)
    requires
        0 <= i < es.len(),
        0 <= from <= es.len(),
        i < from,
    ensures
        crate::types::assoc_get_from(es.update(i, (key, val)), from, k2)
            == crate::types::assoc_get_from(es, from, k2),
    decreases es.len() - from,
{
    let upd = es.update(i, (key, val));
    if from < es.len() {
        assert(upd[from] == es[from]);
        lemma_assoc_same_after(es, from + 1, i, key, val, k2);
    }
}

} // verus!
