//! The meaning of schema evaluation, as one recursive specification: what
//! diagnostics a schema node yields against an instance value. The executable
//! evaluator in `structural` is proved to return exactly this.
use vstd::prelude::*;

use crate::errors::SpecHard;
use crate::pointer::escape_seg;
use crate::strutil::{dec_digits, int_digits, lex_lt};
use crate::value::SpecVal;

verus! {

/// The ordered diagnostics of one evaluation: (pointer, message) pairs.
pub type SpecErrs = Seq<(Seq<char>, Seq<char>)>;

/// The outcome of evaluating one schema node: diagnostics, or a hard error.
pub type SpecOutcome = Result<SpecErrs, SpecHard>;

/// Sequential composition: the diagnostics of `a` followed by those of `b`,
/// or the first hard error.
pub open spec fn chain(a: SpecOutcome, b: SpecOutcome) -> SpecOutcome {
    match a {
        Err(h) => Err(h),
        Ok(e1) => match b {
            Err(h) => Err(h),
            Ok(e2) => Ok(e1 + e2),
        },
    }
}

// ---------------------------------------------------------------------------
// Schema object lookups
// ---------------------------------------------------------------------------

pub open spec fn obj_get_from(
    fields: Seq<(Seq<char>, SpecVal)>,
    i: int,
    key: Seq<char>,
) -> Option<SpecVal>
    decreases fields.len() - i,
{
    if i < 0 || i >= fields.len() {
        None
    } else if fields[i].0 == key {
        Some(fields[i].1)
    } else {
        obj_get_from(fields, i + 1, key)
    }
}

/// The value under `key` in an object, by its first occurrence.
pub open spec fn obj_get(fields: Seq<(Seq<char>, SpecVal)>, key: Seq<char>) -> Option<SpecVal> {
    obj_get_from(fields, 0, key)
}

/// What a keyword value yields when read as an unsigned 64-bit count.
pub open spec fn as_u64(v: SpecVal) -> Option<int> {
    match v {
        SpecVal::Int(n) => if 0 <= n <= u64::MAX as int {
            Some(n)
        } else {
            None
        },
        _ => None,
    }
}

/// The keyword under `key`, read as an unsigned count; absent or of another
/// shape, nothing.
pub open spec fn get_u64(fields: Seq<(Seq<char>, SpecVal)>, key: Seq<char>) -> Option<int> {
    match obj_get(fields, key) {
        Some(v) => as_u64(v),
        None => None,
    }
}

// ---------------------------------------------------------------------------
// Reference resolution
// ---------------------------------------------------------------------------

/// Splits the characters of `s` from index `i` on at every `/`, with `cur`
/// the token read so far.
pub open spec fn split_tokens(s: Seq<char>, i: int, cur: Seq<char>) -> Seq<Seq<char>>
    decreases s.len() - i,
{
    if i < 0 || i >= s.len() {
        seq![cur]
    } else if s[i] == '/' {
        seq![cur] + split_tokens(s, i + 1, Seq::empty())
    } else {
        split_tokens(s, i + 1, cur.push(s[i]))
    }
}

/// Replaces every `~x` pair (for the given second character) by `rep`,
/// scanning left to right.
pub open spec fn replace_pair_from(s: Seq<char>, i: int, c2: char, rep: char) -> Seq<char>
    decreases s.len() - i,
{
    if i < 0 || i >= s.len() {
        Seq::empty()
    } else if i + 1 < s.len() && s[i] == '~' && s[i + 1] == c2 {
        seq![rep] + replace_pair_from(s, i + 2, c2, rep)
    } else {
        seq![s[i]] + replace_pair_from(s, i + 1, c2, rep)
    }
}

/// Unescapes one reference token: `~1` becomes `/`, then `~0` becomes `~`.
pub open spec fn unescape_token(t: Seq<char>) -> Seq<char> {
    replace_pair_from(replace_pair_from(t, 0, '1', '/'), 0, '0', '~')
}

pub open spec fn digit_val(c: char) -> int {
    c as int - '0' as int
}

pub open spec fn is_digit(c: char) -> bool {
    '0' <= c && c <= '9'
}

pub open spec fn all_digits_from(s: Seq<char>, i: int) -> bool
    decreases s.len() - i,
{
    if i < 0 || i >= s.len() {
        true
    } else {
        is_digit(s[i]) && all_digits_from(s, i + 1)
    }
}

pub open spec fn digits_val_from(s: Seq<char>, i: int, acc: int) -> int
    decreases s.len() - i,
{
    if i < 0 || i >= s.len() {
        acc
    } else {
        digits_val_from(s, i + 1, acc * 10 + digit_val(s[i]))
    }
}

/// What an array-index token denotes: digits only, no leading `+` or zero,
/// and within the machine's index range.
pub open spec fn parse_index(s: Seq<char>) -> Option<int> {
    if s.len() == 0 {
        None
    } else if s[0] == '+' {
        None
    } else if s[0] == '0' && s.len() != 1 {
        None
    } else if !all_digits_from(s, 0) {
        None
    } else if digits_val_from(s, 0, 0) > usize::MAX as int {
        None
    } else {
        Some(digits_val_from(s, 0, 0))
    }
}

/// Walks a fragment path: one unescaped token per step, a key into an
/// object or an index into an array.
pub open spec fn ptr_walk(v: SpecVal, tokens: Seq<Seq<char>>, i: int) -> Option<SpecVal>
    decreases tokens.len() - i,
{
    if i < 0 || i >= tokens.len() {
        Some(v)
    } else {
        let tok = unescape_token(tokens[i]);
        match v {
            SpecVal::Obj(fields) => match obj_get(fields, tok) {
                Some(next) => ptr_walk(next, tokens, i + 1),
                None => None,
            },
            SpecVal::Arr(items) => match parse_index(tok) {
                Some(idx) => if 0 <= idx < items.len() {
                    ptr_walk(items[idx], tokens, i + 1)
                } else {
                    None
                },
                None => None,
            },
            _ => None,
        }
    }
}

/// What a `$ref` string resolves to inside the root schema: the whole
/// document for `#`, a fragment path for `#/a/b/...`, and a hard error for
/// every other form.
pub open spec fn resolve_ref_spec(root: SpecVal, reference: Seq<char>) -> Result<SpecVal, SpecHard> {
    if reference.len() == 0 || reference[0] != '#' {
        Err(SpecHard::NonLocalRef(reference))
    } else {
        let pointer = reference.subrange(1, reference.len() as int);
        if pointer.len() == 0 {
            Ok(root)
        } else if pointer[0] != '/' {
            Err(SpecHard::InvalidLocalRef(reference))
        } else {
            match ptr_walk(root, split_tokens(pointer, 1, Seq::empty()), 0) {
                Some(v) => Ok(v),
                None => Err(SpecHard::UnresolvedRef(reference)),
            }
        }
    }
}

// ---------------------------------------------------------------------------
// Type matching and display
// ---------------------------------------------------------------------------

/// Whether an instance has the runtime type named `t`; unknown names match
/// everything.
pub open spec fn type_name_matches(t: Seq<char>, inst: SpecVal) -> bool {
    if t == "object"@ {
        inst is Obj
    } else if t == "array"@ {
        inst is Arr
    } else if t == "string"@ {
        inst is Str
    } else if t == "boolean"@ {
        inst is Bool
    } else if t == "number"@ {
        inst is Int || inst is Dec
    } else if t == "integer"@ {
        inst is Int
    } else if t == "null"@ {
        inst is Null
    } else {
        true
    }
}

pub open spec fn any_type_matches_from(types: Seq<SpecVal>, i: int, inst: SpecVal) -> bool
    decreases types.len() - i,
{
    if i < 0 || i >= types.len() {
        false
    } else {
        (match types[i] {
            SpecVal::Str(t) => type_name_matches(t, inst),
            _ => false,
        }) || any_type_matches_from(types, i + 1, inst)
    }
}

/// Whether an instance matches a `type` keyword: one named type, or any of a
/// list of named types.
pub open spec fn type_matches(expected: SpecVal, inst: SpecVal) -> bool {
    match expected {
        SpecVal::Str(t) => type_name_matches(t, inst),
        SpecVal::Arr(types) => any_type_matches_from(types, 0, inst),
        _ => true,
    }
}

pub open spec fn quote(s: Seq<char>) -> Seq<char> {
    seq!['"'] + s + seq!['"']
}

/// The names in a `type` array, quoted, in array order.
pub open spec fn quoted_type_names_from(types: Seq<SpecVal>, i: int) -> Seq<Seq<char>>
    decreases types.len() - i,
{
    if i < 0 || i >= types.len() {
        Seq::empty()
    } else {
        (match types[i] {
            SpecVal::Str(t) => seq![quote(t)],
            _ => Seq::<Seq<char>>::empty(),
        }) + quoted_type_names_from(types, i + 1)
    }
}

pub open spec fn lex_le(a: Seq<char>, b: Seq<char>) -> bool {
    !lex_lt(b, a)
}

pub open spec fn insert_sorted(x: Seq<char>, s: Seq<Seq<char>>) -> Seq<Seq<char>>
    decreases s.len(),
{
    if s.len() == 0 {
        seq![x]
    } else if lex_le(x, s[0]) {
        seq![x] + s
    } else {
        seq![s[0]] + insert_sorted(x, s.subrange(1, s.len() as int))
    }
}

/// Insertion sort of string sequences, in lexicographic order.
pub open spec fn sort_strs(s: Seq<Seq<char>>) -> Seq<Seq<char>>
    decreases s.len(),
{
    if s.len() == 0 {
        Seq::empty()
    } else {
        insert_sorted(s[0], sort_strs(s.subrange(1, s.len() as int)))
    }
}

/// Joins string sequences with `", "`.
pub open spec fn join_comma_from(parts: Seq<Seq<char>>, i: int) -> Seq<char>
    decreases parts.len() - i,
{
    if i < 0 || i >= parts.len() {
        Seq::empty()
    } else if i + 1 == parts.len() {
        parts[i]
    } else {
        parts[i] + ", "@ + join_comma_from(parts, i + 1)
    }
}

/// How a `type` keyword value is shown in a mismatch message.
pub open spec fn type_display(expected: SpecVal) -> Seq<char> {
    match expected {
        SpecVal::Str(t) => quote(t),
        SpecVal::Arr(types) => seq!['['] + join_comma_from(
            sort_strs(quoted_type_names_from(types, 0)),
            0,
        ) + seq![']'],
        _ => "<unknown>"@,
    }
}

/// The name of an instance's runtime type.
pub open spec fn inst_type_name(inst: SpecVal) -> Seq<char> {
    match inst {
        SpecVal::Null => "null"@,
        SpecVal::Bool(_) => "boolean"@,
        SpecVal::Int(_) => "integer"@,
        SpecVal::Dec(_) => "number"@,
        SpecVal::Str(_) => "string"@,
        SpecVal::Arr(_) => "array"@,
        SpecVal::Obj(_) => "object"@,
    }
}

// ---------------------------------------------------------------------------
// Rendering a value as compact document text (for `const` messages)
// ---------------------------------------------------------------------------

pub open spec fn hex_char(d: int) -> char {
    if d == 10 {
        'a'
    } else if d == 11 {
        'b'
    } else if d == 12 {
        'c'
    } else if d == 13 {
        'd'
    } else if d == 14 {
        'e'
    } else if d == 15 {
        'f'
    } else {
        crate::strutil::digit_char(d)
    }
}

/// How one character is escaped inside a rendered string literal.
pub open spec fn json_esc_char(c: char) -> Seq<char> {
    if c == '"' {
        seq!['\\', '"']
    } else if c == '\\' {
        seq!['\\', '\\']
    } else if c == '\u{8}' {
        seq!['\\', 'b']
    } else if c == '\t' {
        seq!['\\', 't']
    } else if c == '\n' {
        seq!['\\', 'n']
    } else if c == '\u{c}' {
        seq!['\\', 'f']
    } else if c == '\r' {
        seq!['\\', 'r']
    } else if (c as u32) < 0x20 {
        seq!['\\', 'u', '0', '0', hex_char((c as u32 / 16) as int), hex_char(
            (c as u32 % 16) as int,
        )]
    } else {
        seq![c]
    }
}

pub open spec fn json_escape_from(s: Seq<char>, i: int) -> Seq<char>
    decreases s.len() - i,
{
    if i < 0 || i >= s.len() {
        Seq::empty()
    } else {
        json_esc_char(s[i]) + json_escape_from(s, i + 1)
    }
}

/// Compact document text of a value, as a `const` mismatch message shows it.
pub open spec fn json_text(v: SpecVal) -> Seq<char>
    decreases v, 1int, 0int,
{
    match v {
        SpecVal::Null => "null"@,
        SpecVal::Bool(b) => if b {
            "true"@
        } else {
            "false"@
        },
        SpecVal::Int(n) => int_digits(n),
        SpecVal::Dec(s) => s,
        SpecVal::Str(s) => quote(json_escape_from(s, 0)),
        SpecVal::Arr(items) => seq!['['] + json_list_from(items, 0) + seq![']'],
        SpecVal::Obj(fields) => seq!['{'] + json_fields_from(fields, 0) + seq!['}'],
    }
}

pub open spec fn json_list_from(items: Seq<SpecVal>, i: int) -> Seq<char>
    decreases items, 0int, items.len() - i,
{
    if i < 0 || i >= items.len() {
        Seq::empty()
    } else {
        let head = json_text(items[i]);
        if i + 1 == items.len() {
            head
        } else {
            head + seq![','] + json_list_from(items, i + 1)
        }
    }
}

pub open spec fn json_fields_from(fields: Seq<(Seq<char>, SpecVal)>, i: int) -> Seq<char>
    decreases fields, 0int, fields.len() - i,
{
    if i < 0 || i >= fields.len() {
        Seq::empty()
    } else {
        let head = quote(json_escape_from(fields[i].0, 0)) + seq![':'] + json_text(fields[i].1);
        if i + 1 == fields.len() {
            head
        } else {
            head + seq![','] + json_fields_from(fields, i + 1)
        }
    }
}

// ---------------------------------------------------------------------------
// Messages
// ---------------------------------------------------------------------------

pub open spec fn msg_false() -> Seq<char> {
    "does not match schema (false)"@
}

pub open spec fn msg_any_of() -> Seq<char> {
    "must match at least one schema in anyOf"@
}

pub open spec fn msg_one_of() -> Seq<char> {
    "must match exactly one schema in oneOf"@
}

pub open spec fn msg_not() -> Seq<char> {
    "must not match schema in not"@
}

pub open spec fn msg_type(expected: SpecVal, inst: SpecVal) -> Seq<char> {
    "expected type "@ + type_display(expected) + ", got "@ + inst_type_name(inst)
}

pub open spec fn msg_const(c: SpecVal) -> Seq<char> {
    "must be equal to "@ + json_text(c)
}

pub open spec fn msg_enum() -> Seq<char> {
    "must be one of the allowed values"@
}

pub open spec fn msg_min_length(m: int) -> Seq<char> {
    "string must be at least "@ + dec_digits(m as nat) + " characters"@
}

pub open spec fn msg_pattern(p: Seq<char>) -> Seq<char> {
    "string does not match pattern "@ + p
}

pub open spec fn msg_min_properties(m: int) -> Seq<char> {
    "object must have at least "@ + dec_digits(m as nat) + " properties"@
}

pub open spec fn msg_required(prop: Seq<char>) -> Seq<char> {
    "missing required property \""@ + prop + "\""@
}

pub open spec fn msg_unknown_property() -> Seq<char> {
    "unknown property"@
}

pub open spec fn msg_min_items(m: int) -> Seq<char> {
    "array must have at least "@ + dec_digits(m as nat) + " items"@
}

pub open spec fn msg_unique() -> Seq<char> {
    "array items must be unique"@
}

// ---------------------------------------------------------------------------
// Outside results relied on: the regex engine
// ---------------------------------------------------------------------------

/// Whether the regex engine accepts a pattern.
pub uninterp spec fn regex_valid(pattern: Seq<char>) -> bool;

/// Whether a match for the pattern exists anywhere in the text.
pub uninterp spec fn regex_match(pattern: Seq<char>, text: Seq<char>) -> bool;

// ---------------------------------------------------------------------------
// One path descent
// ---------------------------------------------------------------------------

pub open spec fn child_prop(path: Seq<char>, key: Seq<char>) -> Seq<char> {
    path + seq!['/'] + escape_seg(key)
}

pub open spec fn child_index(path: Seq<char>, idx: int) -> Seq<char> {
    path + seq!['/'] + dec_digits(idx as nat)
}

// ---------------------------------------------------------------------------
// The evaluator
// ---------------------------------------------------------------------------

/// Diagnostics of every sub-schema in order (`allOf`).
pub open spec fn eval_list_from(
    subs: Seq<SpecVal>,
    i: int,
    inst: SpecVal,
    root: SpecVal,
    path: Seq<char>,
    depth: nat,
) -> SpecOutcome
    decreases depth, 0int, subs.len() - i,
{
    if depth == 0 {
        Err(SpecHard::DepthExceeded)
    } else if i < 0 || i >= subs.len() {
        Ok(Seq::empty())
    } else {
        chain(
            eval(subs[i], inst, root, path, (depth - 1) as nat),
            eval_list_from(subs, i + 1, inst, root, path, depth),
        )
    }
}

/// Whether some sub-schema from `i` on passes, stopping at the first that
/// does (`anyOf`).
pub open spec fn any_pass_from(
    subs: Seq<SpecVal>,
    i: int,
    inst: SpecVal,
    root: SpecVal,
    path: Seq<char>,
    depth: nat,
) -> Result<bool, SpecHard>
    decreases depth, 0int, subs.len() - i,
{
    if depth == 0 {
        Err(SpecHard::DepthExceeded)
    } else if i < 0 || i >= subs.len() {
        Ok(false)
    } else {
        match eval(subs[i], inst, root, path, (depth - 1) as nat) {
            Err(h) => Err(h),
            Ok(es) => if es.len() == 0 {
                Ok(true)
            } else {
                any_pass_from(subs, i + 1, inst, root, path, depth)
            },
        }
    }
}

/// How many sub-schemas from `i` on pass; every one is evaluated (`oneOf`).
pub open spec fn count_pass_from(
    subs: Seq<SpecVal>,
    i: int,
    inst: SpecVal,
    root: SpecVal,
    path: Seq<char>,
    depth: nat,
) -> Result<int, SpecHard>
    decreases depth, 0int, subs.len() - i,
{
    if depth == 0 {
        Err(SpecHard::DepthExceeded)
    } else if i < 0 || i >= subs.len() {
        Ok(0)
    } else {
        match eval(subs[i], inst, root, path, (depth - 1) as nat) {
            Err(h) => Err(h),
            Ok(es) => match count_pass_from(subs, i + 1, inst, root, path, depth) {
                Err(h) => Err(h),
                Ok(c) => Ok(if es.len() == 0 {
                    c + 1
                } else {
                    c
                }),
            },
        }
    }
}

/// Whether some enum member from `i` on equals the instance.
pub open spec fn contains_val_from(vals: Seq<SpecVal>, i: int, inst: SpecVal) -> bool
    decreases vals.len() - i,
{
    if i < 0 || i >= vals.len() {
        false
    } else {
        vals[i] == inst || contains_val_from(vals, i + 1, inst)
    }
}

/// One error per `required` name missing from the object, all at the
/// object's own pointer; names that are not strings are ignored.
pub open spec fn required_from(
    reqs: Seq<SpecVal>,
    i: int,
    ofs: Seq<(Seq<char>, SpecVal)>,
    path: Seq<char>,
) -> SpecErrs
    decreases reqs.len() - i,
{
    if i < 0 || i >= reqs.len() {
        Seq::empty()
    } else {
        (match reqs[i] {
            SpecVal::Str(p) => if obj_get(ofs, p) is None {
                seq![(path, msg_required(p))]
            } else {
                Seq::empty()
            },
            _ => Seq::empty(),
        }) + required_from(reqs, i + 1, ofs, path)
    }
}

/// Every key of the object validated as a synthetic string instance at the
/// key's own pointer (`propertyNames`).
pub open spec fn prop_names_from(
    ofs: Seq<(Seq<char>, SpecVal)>,
    i: int,
    pn: SpecVal,
    root: SpecVal,
    path: Seq<char>,
    depth: nat,
) -> SpecOutcome
    decreases depth, 0int, ofs.len() - i,
{
    if depth == 0 {
        Err(SpecHard::DepthExceeded)
    } else if i < 0 || i >= ofs.len() {
        Ok(Seq::empty())
    } else {
        chain(
            eval(
                pn,
                SpecVal::Str(ofs[i].0),
                root,
                child_prop(path, ofs[i].0),
                (depth - 1) as nat,
            ),
            prop_names_from(ofs, i + 1, pn, root, path, depth),
        )
    }
}

/// Each named property schema applied to the matching instance key, in the
/// schema's own entry order (`properties`).
pub open spec fn props_from(
    props: Seq<(Seq<char>, SpecVal)>,
    i: int,
    ofs: Seq<(Seq<char>, SpecVal)>,
    root: SpecVal,
    path: Seq<char>,
    depth: nat,
) -> SpecOutcome
    decreases depth, 0int, props.len() - i,
{
    if depth == 0 {
        Err(SpecHard::DepthExceeded)
    } else if i < 0 || i >= props.len() {
        Ok(Seq::empty())
    } else {
        let rest = props_from(props, i + 1, ofs, root, path, depth);
        match obj_get(ofs, props[i].0) {
            Some(v) => chain(
                eval(props[i].1, v, root, child_prop(path, props[i].0), (depth - 1) as nat),
                rest,
            ),
            None => rest,
        }
    }
}

/// One error per instance key not declared under `properties`, at that
/// key's pointer (`additionalProperties: false`).
pub open spec fn extra_false_from(
    ofs: Seq<(Seq<char>, SpecVal)>,
    i: int,
    props: Seq<(Seq<char>, SpecVal)>,
    path: Seq<char>,
) -> SpecErrs
    decreases ofs.len() - i,
{
    if i < 0 || i >= ofs.len() {
        Seq::empty()
    } else {
        (if obj_get(props, ofs[i].0) is None {
            seq![(child_prop(path, ofs[i].0), msg_unknown_property())]
        } else {
            Seq::empty()
        }) + extra_false_from(ofs, i + 1, props, path)
    }
}

/// The `additionalProperties` schema applied to every instance key not
/// declared under `properties`.
pub open spec fn extra_eval_from(
    ofs: Seq<(Seq<char>, SpecVal)>,
    i: int,
    props: Seq<(Seq<char>, SpecVal)>,
    ap: SpecVal,
    root: SpecVal,
    path: Seq<char>,
    depth: nat,
) -> SpecOutcome
    decreases depth, 0int, ofs.len() - i,
{
    if depth == 0 {
        Err(SpecHard::DepthExceeded)
    } else if i < 0 || i >= ofs.len() {
        Ok(Seq::empty())
    } else {
        let rest = extra_eval_from(ofs, i + 1, props, ap, root, path, depth);
        if obj_get(props, ofs[i].0) is None {
            chain(eval(ap, ofs[i].1, root, child_prop(path, ofs[i].0), (depth - 1) as nat), rest)
        } else {
            rest
        }
    }
}

/// The `items` schema applied to every element, at the element's index
/// pointer.
pub open spec fn items_from(
    items: Seq<SpecVal>,
    i: int,
    ischema: SpecVal,
    root: SpecVal,
    path: Seq<char>,
    depth: nat,
) -> SpecOutcome
    decreases depth, 0int, items.len() - i,
{
    if depth == 0 {
        Err(SpecHard::DepthExceeded)
    } else if i < 0 || i >= items.len() {
        Ok(Seq::empty())
    } else {
        chain(
            eval(ischema, items[i], root, child_index(path, i), (depth - 1) as nat),
            items_from(items, i + 1, ischema, root, path, depth),
        )
    }
}

/// Whether the array holds two structurally equal elements.
pub open spec fn has_duplicate(items: Seq<SpecVal>) -> bool {
    exists|i: int, j: int| 0 <= i < j < items.len() && items[i] == items[j]
}

// --- The per-keyword parts of evaluating an object schema, in order. ---

pub open spec fn ref_part(
    fields: Seq<(Seq<char>, SpecVal)>,
    inst: SpecVal,
    root: SpecVal,
    path: Seq<char>,
    depth: nat,
) -> SpecOutcome
    decreases depth, 2int, 0int,
{
    if depth == 0 {
        Err(SpecHard::DepthExceeded)
    } else {
        match obj_get(fields, "$ref"@) {
            Some(SpecVal::Str(r)) => match resolve_ref_spec(root, r) {
                Ok(target) => eval(target, inst, root, path, (depth - 1) as nat),
                Err(h) => Err(h),
            },
            _ => Ok(Seq::empty()),
        }
    }
}

pub open spec fn all_of_part(
    fields: Seq<(Seq<char>, SpecVal)>,
    inst: SpecVal,
    root: SpecVal,
    path: Seq<char>,
    depth: nat,
) -> SpecOutcome
    decreases depth, 2int, 0int,
{
    match obj_get(fields, "allOf"@) {
        Some(SpecVal::Arr(subs)) => eval_list_from(subs, 0, inst, root, path, depth),
        _ => Ok(Seq::empty()),
    }
}

pub open spec fn any_of_part(
    fields: Seq<(Seq<char>, SpecVal)>,
    inst: SpecVal,
    root: SpecVal,
    path: Seq<char>,
    depth: nat,
) -> SpecOutcome
    decreases depth, 2int, 0int,
{
    match obj_get(fields, "anyOf"@) {
        Some(SpecVal::Arr(subs)) => match any_pass_from(subs, 0, inst, root, path, depth) {
            Err(h) => Err(h),
            Ok(true) => Ok(Seq::empty()),
            Ok(false) => Ok(seq![(path, msg_any_of())]),
        },
        _ => Ok(Seq::empty()),
    }
}

pub open spec fn one_of_part(
    fields: Seq<(Seq<char>, SpecVal)>,
    inst: SpecVal,
    root: SpecVal,
    path: Seq<char>,
    depth: nat,
) -> SpecOutcome
    decreases depth, 2int, 0int,
{
    match obj_get(fields, "oneOf"@) {
        Some(SpecVal::Arr(subs)) => match count_pass_from(subs, 0, inst, root, path, depth) {
            Err(h) => Err(h),
            Ok(c) => if c == 1 {
                Ok(Seq::empty())
            } else {
                Ok(seq![(path, msg_one_of())])
            },
        },
        _ => Ok(Seq::empty()),
    }
}

pub open spec fn not_part(
    fields: Seq<(Seq<char>, SpecVal)>,
    inst: SpecVal,
    root: SpecVal,
    path: Seq<char>,
    depth: nat,
) -> SpecOutcome
    decreases depth, 2int, 0int,
{
    if depth == 0 {
        Err(SpecHard::DepthExceeded)
    } else {
        match obj_get(fields, "not"@) {
            Some(sub) => match eval(sub, inst, root, path, (depth - 1) as nat) {
                Err(h) => Err(h),
                Ok(es) => if es.len() == 0 {
                    Ok(seq![(path, msg_not())])
                } else {
                    Ok(Seq::empty())
                },
            },
            None => Ok(Seq::empty()),
        }
    }
}

pub open spec fn if_then_else_part(
    fields: Seq<(Seq<char>, SpecVal)>,
    inst: SpecVal,
    root: SpecVal,
    path: Seq<char>,
    depth: nat,
) -> SpecOutcome
    decreases depth, 2int, 0int,
{
    if depth == 0 {
        Err(SpecHard::DepthExceeded)
    } else {
        match obj_get(fields, "if"@) {
            Some(ifs) => match eval(ifs, inst, root, path, (depth - 1) as nat) {
                Err(h) => Err(h),
                Ok(ife) => if ife.len() == 0 {
                    match obj_get(fields, "then"@) {
                        Some(t) => eval(t, inst, root, path, (depth - 1) as nat),
                        None => Ok(Seq::empty()),
                    }
                } else {
                    match obj_get(fields, "else"@) {
                        Some(e) => eval(e, inst, root, path, (depth - 1) as nat),
                        None => Ok(Seq::empty()),
                    }
                },
            },
            None => Ok(Seq::empty()),
        }
    }
}

/// The `type` mismatch error, if the keyword is present and fails.
pub open spec fn type_error(
    fields: Seq<(Seq<char>, SpecVal)>,
    inst: SpecVal,
    path: Seq<char>,
) -> Option<(Seq<char>, Seq<char>)> {
    match obj_get(fields, "type"@) {
        Some(t) => if !type_matches(t, inst) {
            Some((path, msg_type(t, inst)))
        } else {
            None
        },
        None => None,
    }
}

pub open spec fn const_part(
    fields: Seq<(Seq<char>, SpecVal)>,
    inst: SpecVal,
    path: Seq<char>,
) -> SpecErrs {
    match obj_get(fields, "const"@) {
        Some(c) => if inst != c {
            seq![(path, msg_const(c))]
        } else {
            Seq::empty()
        },
        None => Seq::empty(),
    }
}

pub open spec fn enum_part(
    fields: Seq<(Seq<char>, SpecVal)>,
    inst: SpecVal,
    path: Seq<char>,
) -> SpecErrs {
    match obj_get(fields, "enum"@) {
        Some(SpecVal::Arr(vals)) => if !contains_val_from(vals, 0, inst) {
            seq![(path, msg_enum())]
        } else {
            Seq::empty()
        },
        _ => Seq::empty(),
    }
}

pub open spec fn string_part(
    fields: Seq<(Seq<char>, SpecVal)>,
    inst: SpecVal,
    path: Seq<char>,
) -> SpecOutcome {
    match inst {
        SpecVal::Str(s) => {
            let e1 = match get_u64(fields, "minLength"@) {
                Some(m) => if s.len() < m {
                    seq![(path, msg_min_length(m))]
                } else {
                    Seq::empty()
                },
                None => Seq::empty(),
            };
            match obj_get(fields, "pattern"@) {
                Some(SpecVal::Str(p)) => if !regex_valid(p) {
                    Err(SpecHard::InvalidRegex(p))
                } else if !regex_match(p, s) {
                    Ok(e1 + seq![(path, msg_pattern(p))])
                } else {
                    Ok(e1)
                },
                _ => Ok(e1),
            }
        },
        _ => Ok(Seq::empty()),
    }
}

/// The key set declared under `properties`, when it is an object.
pub open spec fn known_props(fields: Seq<(Seq<char>, SpecVal)>) -> Seq<(Seq<char>, SpecVal)> {
    match obj_get(fields, "properties"@) {
        Some(SpecVal::Obj(props)) => props,
        _ => Seq::empty(),
    }
}

/// The `minProperties` and `required` diagnostics of an object instance.
pub open spec fn obj_min_req_errs(
    fields: Seq<(Seq<char>, SpecVal)>,
    ofs: Seq<(Seq<char>, SpecVal)>,
    path: Seq<char>,
) -> SpecErrs {
    let e_min = match get_u64(fields, "minProperties"@) {
        Some(m) => if ofs.len() < m {
            seq![(path, msg_min_properties(m))]
        } else {
            Seq::<(Seq<char>, Seq<char>)>::empty()
        },
        None => Seq::<(Seq<char>, Seq<char>)>::empty(),
    };
    let e_req = match obj_get(fields, "required"@) {
        Some(SpecVal::Arr(reqs)) => required_from(reqs, 0, ofs, path),
        _ => Seq::<(Seq<char>, Seq<char>)>::empty(),
    };
    e_min + e_req
}

/// The `propertyNames` outcome of an object instance.
pub open spec fn obj_pn_outcome(
    fields: Seq<(Seq<char>, SpecVal)>,
    ofs: Seq<(Seq<char>, SpecVal)>,
    root: SpecVal,
    path: Seq<char>,
    depth: nat,
) -> SpecOutcome
    decreases depth, 1int, 0int,
{
    match obj_get(fields, "propertyNames"@) {
        Some(pn) => prop_names_from(ofs, 0, pn, root, path, depth),
        None => Ok(Seq::empty()),
    }
}

/// The `properties` outcome of an object instance.
pub open spec fn obj_props_outcome(
    fields: Seq<(Seq<char>, SpecVal)>,
    ofs: Seq<(Seq<char>, SpecVal)>,
    root: SpecVal,
    path: Seq<char>,
    depth: nat,
) -> SpecOutcome
    decreases depth, 1int, 0int,
{
    match obj_get(fields, "properties"@) {
        Some(SpecVal::Obj(props)) => props_from(props, 0, ofs, root, path, depth),
        _ => Ok(Seq::empty()),
    }
}

/// The `additionalProperties` outcome of an object instance.
pub open spec fn obj_add_outcome(
    fields: Seq<(Seq<char>, SpecVal)>,
    ofs: Seq<(Seq<char>, SpecVal)>,
    root: SpecVal,
    path: Seq<char>,
    depth: nat,
) -> SpecOutcome
    decreases depth, 1int, 0int,
{
    match obj_get(fields, "additionalProperties"@) {
        Some(ap) => match ap {
            SpecVal::Bool(b) => if b {
                extra_eval_from(ofs, 0, known_props(fields), ap, root, path, depth)
            } else {
                Ok(extra_false_from(ofs, 0, known_props(fields), path))
            },
            SpecVal::Obj(_) => extra_eval_from(ofs, 0, known_props(fields), ap, root, path, depth),
            _ => Err(SpecHard::BadAdditionalProperties),
        },
        None => Ok(Seq::empty()),
    }
}

pub open spec fn object_part(
    fields: Seq<(Seq<char>, SpecVal)>,
    inst: SpecVal,
    root: SpecVal,
    path: Seq<char>,
    depth: nat,
) -> SpecOutcome
    decreases depth, 2int, 0int,
{
    match inst {
        SpecVal::Obj(ofs) => chain(
            Ok(obj_min_req_errs(fields, ofs, path)),
            chain(
                obj_pn_outcome(fields, ofs, root, path, depth),
                chain(
                    obj_props_outcome(fields, ofs, root, path, depth),
                    obj_add_outcome(fields, ofs, root, path, depth),
                ),
            ),
        ),
        _ => Ok(Seq::empty()),
    }
}

pub open spec fn array_part(
    fields: Seq<(Seq<char>, SpecVal)>,
    inst: SpecVal,
    root: SpecVal,
    path: Seq<char>,
    depth: nat,
) -> SpecOutcome
    decreases depth, 2int, 0int,
{
    match inst {
        SpecVal::Arr(items) => {
            let e_min = match get_u64(fields, "minItems"@) {
                Some(m) => if items.len() < m {
                    seq![(path, msg_min_items(m))]
                } else {
                    Seq::empty()
                },
                None => Seq::empty(),
            };
            let e_uniq = if obj_get(fields, "uniqueItems"@) == Some(SpecVal::Bool(true))
                && has_duplicate(items) {
                seq![(path, msg_unique())]
            } else {
                Seq::<(Seq<char>, Seq<char>)>::empty()
            };
            let r_items = match obj_get(fields, "items"@) {
                Some(ischema) => items_from(items, 0, ischema, root, path, depth),
                None => Ok(Seq::empty()),
            };
            chain(Ok(e_min + e_uniq), r_items)
        },
        _ => Ok(Seq::empty()),
    }
}

/// Composition is associative: the grouping of `chain` does not matter.
pub proof fn lemma_chain_assoc(a: SpecOutcome, b: SpecOutcome, c: SpecOutcome)
    ensures
        chain(chain(a, b), c) == chain(a, chain(b, c)),
{
    if a is Ok && b is Ok && c is Ok {
        assert((a->Ok_0 + b->Ok_0) + c->Ok_0 =~= a->Ok_0 + (b->Ok_0 + c->Ok_0));
    }
}

/// The first half of the combinator keywords: `$ref`, `allOf`, `anyOf`.
pub open spec fn pre_a_parts(
    fields: Seq<(Seq<char>, SpecVal)>,
    inst: SpecVal,
    root: SpecVal,
    path: Seq<char>,
    depth: nat,
) -> SpecOutcome
    decreases depth, 2int, 1int,
{
    chain(
        ref_part(fields, inst, root, path, depth),
        chain(
            all_of_part(fields, inst, root, path, depth),
            any_of_part(fields, inst, root, path, depth),
        ),
    )
}

/// The second half of the combinator keywords: `oneOf`, `not`,
/// `if`/`then`/`else`.
pub open spec fn pre_b_parts(
    fields: Seq<(Seq<char>, SpecVal)>,
    inst: SpecVal,
    root: SpecVal,
    path: Seq<char>,
    depth: nat,
) -> SpecOutcome
    decreases depth, 2int, 1int,
{
    chain(
        one_of_part(fields, inst, root, path, depth),
        chain(
            not_part(fields, inst, root, path, depth),
            if_then_else_part(fields, inst, root, path, depth),
        ),
    )
}

/// The combinator keywords split in halves compose to the whole.
pub proof fn lemma_pre_split(
    fields: Seq<(Seq<char>, SpecVal)>,
    inst: SpecVal,
    root: SpecVal,
    path: Seq<char>,
    depth: nat,
)
    ensures
        pre_parts(fields, inst, root, path, depth) == chain(
            pre_a_parts(fields, inst, root, path, depth),
            pre_b_parts(fields, inst, root, path, depth),
        ),
{
    let r = ref_part(fields, inst, root, path, depth);
    let a = all_of_part(fields, inst, root, path, depth);
    let y = any_of_part(fields, inst, root, path, depth);
    let o = one_of_part(fields, inst, root, path, depth);
    let n = not_part(fields, inst, root, path, depth);
    let i = if_then_else_part(fields, inst, root, path, depth);
    let b = chain(o, chain(n, i));
    lemma_chain_assoc(chain(r, chain(a, y)), b, chain(n, i));
    lemma_chain_assoc(r, chain(a, y), b);
    lemma_chain_assoc(a, y, b);
    lemma_chain_assoc(y, o, chain(n, i));
    assert(chain(y, b) == chain(y, chain(o, chain(n, i))));
}

/// The combinator and reference keywords, in order: `$ref`, `allOf`,
/// `anyOf`, `oneOf`, `not`, `if`/`then`/`else`.
pub open spec fn pre_parts(
    fields: Seq<(Seq<char>, SpecVal)>,
    inst: SpecVal,
    root: SpecVal,
    path: Seq<char>,
    depth: nat,
) -> SpecOutcome
    decreases depth, 2int, 1int,
{
    chain(
        ref_part(fields, inst, root, path, depth),
        chain(
            all_of_part(fields, inst, root, path, depth),
            chain(
                any_of_part(fields, inst, root, path, depth),
                chain(
                    one_of_part(fields, inst, root, path, depth),
                    chain(
                        not_part(fields, inst, root, path, depth),
                        if_then_else_part(fields, inst, root, path, depth),
                    ),
                ),
            ),
        ),
    )
}

/// The value keywords, in order: `const`, `enum`, then the string, object
/// and array keyword groups.
pub open spec fn post_parts(
    fields: Seq<(Seq<char>, SpecVal)>,
    inst: SpecVal,
    root: SpecVal,
    path: Seq<char>,
    depth: nat,
) -> SpecOutcome
    decreases depth, 2int, 1int,
{
    chain(
        Ok(const_part(fields, inst, path) + enum_part(fields, inst, path)),
        chain(
            string_part(fields, inst, path),
            chain(
                object_part(fields, inst, root, path, depth),
                array_part(fields, inst, root, path, depth),
            ),
        ),
    )
}

/// The diagnostics of applying one schema node to an instance value at a
/// location, with the fuel still available for recursion. This is the
/// reference semantics of the whole evaluator.
pub open spec fn eval(
    schema: SpecVal,
    inst: SpecVal,
    root: SpecVal,
    path: Seq<char>,
    depth: nat,
) -> SpecOutcome
    decreases depth, 3int, 0int,
{
    if depth == 0 {
        Err(SpecHard::DepthExceeded)
    } else {
        match schema {
            SpecVal::Bool(b) => if b {
                Ok(Seq::empty())
            } else {
                Ok(seq![(path, msg_false())])
            },
            SpecVal::Obj(fields) => {
                match pre_parts(fields, inst, root, path, depth) {
                    Err(h) => Err(h),
                    Ok(e1) => match type_error(fields, inst, path) {
                        Some(te) => Ok(e1.push(te)),
                        None => match post_parts(fields, inst, root, path, depth) {
                            Err(h) => Err(h),
                            Ok(e2) => Ok(e1 + e2),
                        },
                    },
                }
            },
            _ => Ok(Seq::empty()),
        }
    }
}

} // verus!
