//! Laws of the evaluator: statements that hold of every schema and
//! instance, proved once and for all against the semantics.
use vstd::prelude::*;

use crate::errors::SpecHard;
use crate::semantics::{
    all_of_part, array_part, chain, eval, eval_list_from, get_u64, has_duplicate, msg_false,
    msg_one_of, msg_unique, obj_get, one_of_part, count_pass_from, resolve_ref_spec, SpecErrs,
};
use crate::value::SpecVal;

verus! {

/// A boolean `false` schema yields exactly one error, at the current
/// pointer; a boolean `true` schema yields none.
pub proof fn law_boolean_schema(
    b: bool,
    inst: SpecVal,
    root: SpecVal,
    path: Seq<char>,
    depth: nat,
)
    requires
        depth >= 1,
    ensures
        eval(SpecVal::Bool(b), inst, root, path, depth) == Ok::<SpecErrs, SpecHard>(
            if b {
                Seq::empty()
            } else {
                seq![(path, msg_false())]
            },
        ),
{
}

/// An empty `allOf` yields no errors.
pub proof fn law_all_of_empty(
    subs: Seq<SpecVal>,
    inst: SpecVal,
    root: SpecVal,
    path: Seq<char>,
    depth: nat,
)
    requires
        depth >= 1,
        subs.len() == 0,
    ensures
        eval_list_from(subs, 0, inst, root, path, depth) == Ok::<SpecErrs, SpecHard>(Seq::empty()),
{
}

/// `allOf` yields the concatenation of its sub-schemas' errors, with no
/// deduplication: the diagnostics of each branch in turn precede the rest.
pub proof fn law_all_of_union(
    subs: Seq<SpecVal>,
    j: int,
    inst: SpecVal,
    root: SpecVal,
    path: Seq<char>,
    depth: nat,
)
    requires
        depth >= 1,
        0 <= j < subs.len(),
    ensures
        eval_list_from(subs, j, inst, root, path, depth) == chain(
            eval(subs[j], inst, root, path, (depth - 1) as nat),
            eval_list_from(subs, j + 1, inst, root, path, depth),
        ),
{
}

/// The `allOf` keyword evaluates exactly its sub-schema list.
pub proof fn law_all_of_part(
    fields: Seq<(Seq<char>, SpecVal)>,
    subs: Seq<SpecVal>,
    inst: SpecVal,
    root: SpecVal,
    path: Seq<char>,
    depth: nat,
)
    requires
        depth >= 1,
        obj_get(fields, "allOf"@) == Some(SpecVal::Arr(subs)),
    ensures
        all_of_part(fields, inst, root, path, depth) == eval_list_from(
            subs,
            0,
            inst,
            root,
            path,
            depth,
        ),
{
}

/// `oneOf` with exactly one passing branch yields no errors; with zero or
/// several passing branches it yields exactly one summary error, never
/// per-branch detail.
pub proof fn law_one_of(
    fields: Seq<(Seq<char>, SpecVal)>,
    subs: Seq<SpecVal>,
    c: int,
    inst: SpecVal,
    root: SpecVal,
    path: Seq<char>,
    depth: nat,
)
    requires
        depth >= 1,
        obj_get(fields, "oneOf"@) == Some(SpecVal::Arr(subs)),
        count_pass_from(subs, 0, inst, root, path, depth) == Ok::<int, SpecHard>(c),
    ensures
        one_of_part(fields, inst, root, path, depth) == Ok::<SpecErrs, SpecHard>(
            if c == 1 {
                Seq::empty()
            } else {
                seq![(path, msg_one_of())]
            },
        ),
{
}

/// Every `required` error is rooted at the object's own pointer.
pub proof fn law_required_at_own_pointer(
    reqs: Seq<SpecVal>,
    i: int,
    ofs: Seq<(Seq<char>, SpecVal)>,
    path: Seq<char>,
)
    ensures
        forall|k: int|
            0 <= k < crate::semantics::required_from(reqs, i, ofs, path).len()
                ==> (#[trigger] crate::semantics::required_from(reqs, i, ofs, path)[k]).0 == path,
    decreases reqs.len() - i,
{
    if 0 <= i && i < reqs.len() {
        law_required_at_own_pointer(reqs, i + 1, ofs, path);
        let head = (match reqs[i] {
            SpecVal::Str(p) => if obj_get(ofs, p) is None {
                seq![(path, crate::semantics::msg_required(p))]
            } else {
                Seq::<(Seq<char>, Seq<char>)>::empty()
            },
            _ => Seq::<(Seq<char>, Seq<char>)>::empty(),
        });
        let rest = crate::semantics::required_from(reqs, i + 1, ofs, path);
        assert(crate::semantics::required_from(reqs, i, ofs, path) == head + rest);
        assert forall|k: int|
            0 <= k < crate::semantics::required_from(reqs, i, ofs, path).len() implies (
        #[trigger] crate::semantics::required_from(reqs, i, ofs, path)[k]).0 == path by {
            if k < head.len() {
            } else {
                assert((head + rest)[k] == rest[k - head.len()]);
            }
        }
    }
}

/// A schema object asking only `uniqueItems` yields exactly one "must be
/// unique" error against an array holding any structurally equal pair, and
/// none otherwise — never one error per duplicate pair.
pub proof fn law_unique_items_single_error(
    fields: Seq<(Seq<char>, SpecVal)>,
    items: Seq<SpecVal>,
    root: SpecVal,
    path: Seq<char>,
    depth: nat,
)
    requires
        depth >= 1,
        get_u64(fields, "minItems"@) is None,
        obj_get(fields, "uniqueItems"@) == Some(SpecVal::Bool(true)),
        obj_get(fields, "items"@) is None,
    ensures
        array_part(fields, SpecVal::Arr(items), root, path, depth) == Ok::<SpecErrs, SpecHard>(
            if has_duplicate(items) {
                seq![(path, msg_unique())]
            } else {
                Seq::empty()
            },
        ),
{
    let e_uniq: SpecErrs = if has_duplicate(items) {
        seq![(path, msg_unique())]
    } else {
        Seq::empty()
    };
    assert(Seq::<(Seq<char>, Seq<char>)>::empty() + e_uniq =~= e_uniq);
    assert(e_uniq + Seq::<(Seq<char>, Seq<char>)>::empty() =~= e_uniq);
}

/// In a one-entry object, every other key is absent.
proof fn single_field_none(fields: Seq<(Seq<char>, SpecVal)>, key: Seq<char>)
    requires
        fields.len() == 1,
        fields[0].0 != key,
    ensures
        obj_get(fields, key) is None,
{
    assert(crate::semantics::obj_get_from(fields, 1, key) is None);
}

/// A schema node holding only a `$ref` validates exactly as the resolved
/// target does, inlined at this location with one level of fuel spent; an
/// unsupported or unresolved reference is a hard error, never a collected
/// diagnostic.
pub proof fn law_ref_inlines_target(
    fields: Seq<(Seq<char>, SpecVal)>,
    r: Seq<char>,
    inst: SpecVal,
    root: SpecVal,
    path: Seq<char>,
    depth: nat,
)
    requires
        depth >= 1,
        fields.len() == 1,
        fields[0].0 == "$ref"@,
        fields[0].1 == SpecVal::Str(r),
    ensures
        match resolve_ref_spec(root, r) {
            Ok(target) => eval(SpecVal::Obj(fields), inst, root, path, depth) == eval(
                target,
                inst,
                root,
                path,
                (depth - 1) as nat,
            ),
            Err(h) => eval(SpecVal::Obj(fields), inst, root, path, depth) == Err::<
                SpecErrs,
                SpecHard,
            >(h),
        },
{
    reveal_strlit("$ref");
    reveal_strlit("allOf");
    reveal_strlit("anyOf");
    reveal_strlit("oneOf");
    reveal_strlit("not");
    reveal_strlit("if");
    reveal_strlit("then");
    reveal_strlit("else");
    reveal_strlit("type");
    reveal_strlit("const");
    reveal_strlit("enum");
    reveal_strlit("minLength");
    reveal_strlit("pattern");
    reveal_strlit("minProperties");
    reveal_strlit("required");
    reveal_strlit("propertyNames");
    reveal_strlit("properties");
    reveal_strlit("additionalProperties");
    reveal_strlit("minItems");
    reveal_strlit("uniqueItems");
    reveal_strlit("items");
    assert("$ref"@.len() == 4 && "allOf"@.len() == 5 && "anyOf"@.len() == 5 && "oneOf"@.len() == 5
        && "not"@.len() == 3 && "if"@.len() == 2 && "const"@.len() == 5 && "minLength"@.len() == 9
        && "pattern"@.len() == 7 && "minProperties"@.len() == 13 && "required"@.len() == 8
        && "propertyNames"@.len() == 13 && "properties"@.len() == 10
        && "additionalProperties"@.len() == 20 && "minItems"@.len() == 8
        && "uniqueItems"@.len() == 11 && "items"@.len() == 5);
    assert("type"@.len() == 4 && "type"@[0] == 't' && "$ref"@[0] == '$');
    assert("enum"@.len() == 4 && "enum"@[0] == 'e');
    assert(obj_get(fields, "$ref"@) == Some(SpecVal::Str(r)));
    single_field_none(fields, "allOf"@);
    single_field_none(fields, "anyOf"@);
    single_field_none(fields, "oneOf"@);
    single_field_none(fields, "not"@);
    single_field_none(fields, "if"@);
    single_field_none(fields, "type"@);
    single_field_none(fields, "const"@);
    single_field_none(fields, "enum"@);
    single_field_none(fields, "minLength"@);
    single_field_none(fields, "pattern"@);
    single_field_none(fields, "minProperties"@);
    single_field_none(fields, "required"@);
    single_field_none(fields, "propertyNames"@);
    single_field_none(fields, "properties"@);
    single_field_none(fields, "additionalProperties"@);
    single_field_none(fields, "minItems"@);
    single_field_none(fields, "uniqueItems"@);
    single_field_none(fields, "items"@);
    match resolve_ref_spec(root, r) {
        Ok(target) => {
            let o = eval(target, inst, root, path, (depth - 1) as nat);
            if o is Ok {
                let es = o->Ok_0;
                assert(crate::semantics::pre_parts(fields, inst, root, path, depth) == Ok::<
                    SpecErrs,
                    SpecHard,
                >(es + (Seq::empty() + (Seq::empty() + (Seq::empty() + (Seq::empty()
                    + Seq::empty()))))));
                assert(es + (Seq::empty() + (Seq::empty() + (Seq::empty() + (Seq::empty()
                    + Seq::<(Seq<char>, Seq<char>)>::empty())))) =~= es);
                assert(crate::semantics::type_error(fields, inst, path) is None);
                let post = crate::semantics::post_parts(fields, inst, root, path, depth);
                assert(crate::semantics::string_part(fields, inst, path) == Ok::<
                    SpecErrs,
                    SpecHard,
                >(match inst {
                    SpecVal::Str(_) => Seq::empty(),
                    _ => Seq::empty(),
                }));
                assert(post == Ok::<SpecErrs, SpecHard>(Seq::empty() + (Seq::empty() + (
                Seq::empty() + Seq::empty()))));
                assert(es + (Seq::empty() + (Seq::empty() + (Seq::<(
                    Seq<char>,
                    Seq<char>,
                )>::empty() + Seq::empty()))) =~= es);
                assert(eval(SpecVal::Obj(fields), inst, root, path, depth) == Ok::<
                    SpecErrs,
                    SpecHard,
                >(es));
            }
        },
        Err(h) => {
        },
    }
}

} // verus!
