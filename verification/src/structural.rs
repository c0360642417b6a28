//! The executable structural validation engine: applies a schema node to an
//! instance value and collects diagnostics, exactly as `semantics::eval`
//! says.
use vstd::prelude::*;
use vstd::string::StrSliceExecFns;
use vstd::string::StringExecFns;

use crate::errors::{HardError, SpecHard, StructuralError};
use crate::pointer::JsonPointer;
use crate::semantics::{
    all_of_part, any_of_part, any_pass_from, array_part, chain, const_part, contains_val_from,
    count_pass_from, child_index, child_prop, enum_part, eval, eval_list_from, extra_eval_from,
    extra_false_from, get_u64, has_duplicate, if_then_else_part, inst_type_name, insert_sorted,
    items_from, join_comma_from, known_props, msg_any_of, msg_const, msg_enum, msg_false,
    msg_min_items, msg_min_length, msg_min_properties, msg_not, msg_one_of, msg_pattern,
    msg_required, msg_type, msg_unique, msg_unknown_property, not_part, obj_get, obj_get_from,
    object_part, one_of_part, parse_index, prop_names_from, props_from, quote,
    quoted_type_names_from, ref_part, regex_match, regex_valid, replace_pair_from,
    any_type_matches_from, obj_add_outcome, pre_a_parts, pre_b_parts, obj_min_req_errs, obj_pn_outcome,
    obj_props_outcome, post_parts, pre_parts, required_from, resolve_ref_spec, sort_strs, split_tokens, string_part, type_display,
    type_error, type_matches, type_name_matches, unescape_token, SpecErrs, SpecOutcome,
    all_digits_from, digits_val_from, digit_val, is_digit, json_text,
    json_escape_from, json_list_from, json_fields_from, hex_char, lex_le, ptr_walk,
};
use crate::strutil::str_eq;
use crate::value::{
    lemma_view_fields_index, lemma_view_fields_len, lemma_view_list_index, lemma_view_list_len,
    value_eq, SpecVal, Value,
};

verus! {

broadcast use crate::value::group_value_views;

/// How deep evaluation may recurse before the schema is treated as broken.
pub const DEFAULT_MAX_DEPTH: u32 = 256;

/// Relies on regex::Regex::new and regex::Regex::is_match: `new` compiles a
/// pattern, failing exactly on the patterns the engine rejects, and
/// `is_match` reports whether a match exists anywhere in the text; both
/// depend on the pattern and the text alone.
#[verifier::external_body]
fn regex_search(pattern: &str, text: &str) -> (r: Option<bool>)
    ensures
        r is Some <==> regex_valid(pattern@),
        r is Some ==> r->0 == regex_match(pattern@, text@),
{
    match regex::Regex::new(pattern) {
        Ok(re) => Some(re.is_match(text)),
        Err(_) => None,
    }
}

/// The value under `key` in an object's entries, by first occurrence.
fn obj_get_exec<'a>(fields: &'a Vec<(String, Value)>, key: &str) -> (r: Option<&'a Value>)
    ensures
        match r {
            Some(v) => obj_get(crate::value::view_fields(fields@), key@) == Some(v@),
            None => obj_get(crate::value::view_fields(fields@), key@) is None,
        },
{
    let ghost gf = crate::value::view_fields(fields@);
    let n = fields.len();
    let mut i: usize = 0;
    while i < n
        invariant
            n == fields@.len(),
            i <= n,
            gf == crate::value::view_fields(fields@),
            obj_get(gf, key@) == obj_get_from(gf, i as int, key@),
        decreases n - i,
    {
        proof {
            lemma_view_fields_index(fields@, i as int);
            lemma_view_fields_len(fields@);
        }
        if str_eq(fields[i].0.as_str(), key) {
            return Some(&fields[i].1);
        }
        i = i + 1;
    }
    proof {
        lemma_view_fields_len(fields@);
    }
    None
}

/// The keyword under `key`, read as an unsigned count.
fn get_u64_exec(fields: &Vec<(String, Value)>, key: &str) -> (r: Option<u64>)
    ensures
        match r {
            Some(m) => get_u64(crate::value::view_fields(fields@), key@) == Some(m as int),
            None => get_u64(crate::value::view_fields(fields@), key@) is None,
        },
{
    match obj_get_exec(fields, key) {
        Some(v) => match v {
            Value::Int(n) => {
                if *n >= 0 && *n <= 0xFFFF_FFFF_FFFF_FFFFi128 {
                    Some(*n as u64)
                } else {
                    None
                }
            },
            _ => None,
        },
        None => None,
    }
}

/// Whether an instance has the runtime type named `t`.
fn type_name_matches_exec(t: &str, inst: &Value) -> (r: bool)
    ensures
        r == type_name_matches(t@, inst@),
{
    if str_eq(t, "object") {
        matches!(inst, Value::Obj(_))
    } else if str_eq(t, "array") {
        matches!(inst, Value::Arr(_))
    } else if str_eq(t, "string") {
        matches!(inst, Value::Str(_))
    } else if str_eq(t, "boolean") {
        matches!(inst, Value::Bool(_))
    } else if str_eq(t, "number") {
        matches!(inst, Value::Int(_)) || matches!(inst, Value::Dec(_))
    } else if str_eq(t, "integer") {
        matches!(inst, Value::Int(_))
    } else if str_eq(t, "null") {
        matches!(inst, Value::Null)
    } else {
        true
    }
}

/// Whether an instance matches a `type` keyword value.
fn type_matches_exec(expected: &Value, inst: &Value) -> (r: bool)
    ensures
        r == type_matches(expected@, inst@),
{
    match expected {
        Value::Str(t) => type_name_matches_exec(t.as_str(), inst),
        Value::Arr(types) => {
            let ghost gt = crate::value::view_list(types@);
            let n = types.len();
            let mut i: usize = 0;
            while i < n
                invariant
                    *expected == Value::Arr(*types),
                    n == types@.len(),
                    i <= n,
                    gt == crate::value::view_list(types@),
                    any_type_matches_from(gt, 0, inst@) == any_type_matches_from(
                        gt,
                        i as int,
                        inst@,
                    ),
                decreases n - i,
            {
                proof {
                    lemma_view_list_index(types@, i as int);
                    lemma_view_list_len(types@);
                }
                match &types[i] {
                    Value::Str(t) => {
                        if type_name_matches_exec(t.as_str(), inst) {
                            proof {
                                assert(expected@ == SpecVal::Arr(gt));
                                assert(gt[i as int] == SpecVal::Str(t@));
                                assert(any_type_matches_from(gt, i as int, inst@));
                            }
                            return true;
                        }
                    },
                    _ => {},
                }
                i = i + 1;
            }
            proof {
                lemma_view_list_len(types@);
            }
            false
        },
        _ => true,
    }
}

/// The name of an instance's runtime type.
fn inst_type_name_exec(inst: &Value) -> (r: &'static str)
    ensures
        r@ == inst_type_name(inst@),
{
    match inst {
        Value::Null => "null",
        Value::Bool(_) => "boolean",
        Value::Int(_) => "integer",
        Value::Dec(_) => "number",
        Value::Str(_) => "string",
        Value::Arr(_) => "array",
        Value::Obj(_) => "object",
    }
}

proof fn lemma_digits_val_lower(s: Seq<char>, i: int, acc: int)
    requires
        0 <= acc,
        all_digits_from(s, i),
    ensures
        digits_val_from(s, i, acc) >= acc,
    decreases s.len() - i,
{
    if 0 <= i && i < s.len() {
        assert(digit_val(s[i]) >= 0);
        lemma_digits_val_lower(s, i + 1, acc * 10 + digit_val(s[i]));
    }
}

/// Reads an array-index token: digits only, no leading `+` or zero, within
/// the machine's index range.
fn parse_index_exec(tok: &str) -> (r: Option<usize>)
    ensures
        match r {
            Some(v) => parse_index(tok@) == Some(v as int),
            None => parse_index(tok@) is None,
        },
{
    let len = tok.unicode_len();
    if len == 0 {
        return None;
    }
    let c0 = tok.get_char(0);
    if c0 == '+' {
        return None;
    }
    if c0 == '0' && len != 1 {
        return None;
    }
    // One pass to check that every character is a digit.
    let mut i: usize = 0;
    while i < len
        invariant
            i <= len,
            len == tok@.len(),
            all_digits_from(tok@, 0) == all_digits_from(tok@, i as int),
        decreases len - i,
    {
        let c = tok.get_char(i);
        if (c as u32) < ('0' as u32) || (c as u32) > ('9' as u32) {
            proof {
                assert(!is_digit(tok@[i as int]));
            }
            return None;
        }
        i = i + 1;
    }
    proof {
        assert(all_digits_from(tok@, 0));
    }
    // A second pass to accumulate the value, guarding the index range.
    let mut acc: usize = 0;
    let mut j: usize = 0;
    while j < len
        invariant
            j <= len,
            len == tok@.len(),
            all_digits_from(tok@, 0),
            all_digits_from(tok@, j as int),
            digits_val_from(tok@, 0, 0) == digits_val_from(tok@, j as int, acc as int),
        decreases len - j,
    {
        let c = tok.get_char(j);
        proof {
            assert(is_digit(tok@[j as int]));
        }
        let d = ((c as u32) - ('0' as u32)) as usize;
        if acc > (usize::MAX - d) / 10 {
            proof {
                vstd::arithmetic::div_mod::lemma_fundamental_div_mod(
                    (usize::MAX - d) as int,
                    10,
                );
                assert(acc as int * 10 + d as int > usize::MAX as int);
                lemma_digits_val_lower(tok@, j + 1 as int, acc as int * 10 + digit_val(tok@[j as int]));
                assert(digits_val_from(tok@, 0, 0) > usize::MAX as int);
            }
            return None;
        }
        proof {
            vstd::arithmetic::div_mod::lemma_fundamental_div_mod((usize::MAX - d) as int, 10);
            assert(acc as int * 10 + d as int <= usize::MAX as int);
        }
        acc = acc * 10 + d;
        j = j + 1;
    }
    proof {
        assert(digits_val_from(tok@, 0, 0) == acc as int);
    }
    Some(acc)
}

/// Replaces every `~x` pair by a one-character replacement, left to right.
fn replace_pair_exec(s: &str, c2: char, rep: &str) -> (r: String)
    requires
        rep@.len() == 1,
    ensures
        r@ == replace_pair_from(s@, 0, c2, rep@[0]),
{
    let len = s.unicode_len();
    let mut out = String::new();
    let mut i: usize = 0;
    while i < len
        invariant
            i <= len,
            len == s@.len(),
            rep@.len() == 1,
            out@ + replace_pair_from(s@, i as int, c2, rep@[0]) =~= replace_pair_from(
                s@,
                0,
                c2,
                rep@[0],
            ),
        decreases len - i,
    {
        let c = s.get_char(i);
        if i + 1 < len && c == '~' && s.get_char(i + 1) == c2 {
            out.append(rep);
            proof {
                assert(out@ + replace_pair_from(s@, i + 2 as int, c2, rep@[0])
                    =~= replace_pair_from(s@, 0, c2, rep@[0]));
            }
            i = i + 2;
        } else {
            let piece = s.substring_char(i, i + 1);
            proof {
                assert(piece@ =~= seq![s@[i as int]]);
            }
            out.append(piece);
            proof {
                assert(out@ + replace_pair_from(s@, i + 1 as int, c2, rep@[0])
                    =~= replace_pair_from(s@, 0, c2, rep@[0]));
            }
            i = i + 1;
        }
    }
    proof {
        assert(out@ =~= replace_pair_from(s@, 0, c2, rep@[0]));
    }
    out
}

/// Unescapes one reference token: `~1` becomes `/`, then `~0` becomes `~`.
fn unescape_token_exec(t: &str) -> (r: String)
    ensures
        r@ == unescape_token(t@),
{
    proof {
        reveal_strlit("/");
        reveal_strlit("~");
    }
    let pass1 = replace_pair_exec(t, '1', "/");
    replace_pair_exec(pass1.as_str(), '0', "~")
}

/// The character sequences of a list of strings.
pub open spec fn strs_of(v: Seq<String>) -> Seq<Seq<char>> {
    v.map_values(|s: String| s@)
}

/// Splits a fragment path (which starts with `/`) into its tokens.
fn split_tokens_exec(pointer: &str) -> (r: Vec<String>)
    requires
        pointer@.len() >= 1,
    ensures
        strs_of(r@) == split_tokens(pointer@, 1, Seq::<char>::empty()),
{
    let len = pointer.unicode_len();
    let mut tokens: Vec<String> = Vec::new();
    let mut cur = String::new();
    let mut i: usize = 1;
    while i < len
        invariant
            1 <= i <= len,
            len == pointer@.len(),
            split_tokens(pointer@, 1, Seq::<char>::empty()) =~= strs_of(tokens@) + split_tokens(
                pointer@,
                i as int,
                cur@,
            ),
        decreases len - i,
    {
        let c = pointer.get_char(i);
        if c == '/' {
            let ghost old_toks = tokens@;
            let ghost old_cur = cur@;
            tokens.push(cur);
            cur = String::new();
            proof {
                assert(strs_of(tokens@) =~~= strs_of(old_toks).push(old_cur));
                assert(strs_of(old_toks).push(old_cur) =~~= strs_of(old_toks) + seq![old_cur]);
                assert(split_tokens(pointer@, i as int, old_cur) == seq![old_cur]
                    + split_tokens(pointer@, i + 1 as int, Seq::<char>::empty()));
                let ghost rest = split_tokens(pointer@, i + 1 as int, Seq::<char>::empty());
                assert(strs_of(old_toks).push(old_cur) =~= strs_of(old_toks) + seq![old_cur]);
                assert((strs_of(old_toks) + seq![old_cur]) + rest =~~= strs_of(old_toks) + (
                seq![old_cur] + rest));
                assert(cur@ == Seq::<char>::empty());
                assert(split_tokens(pointer@, i + 1 as int, cur@) == rest);
                assert(split_tokens(pointer@, 1, Seq::<char>::empty()) =~~= strs_of(tokens@)
                    + split_tokens(pointer@, i + 1 as int, cur@));
            }
        } else {
            let piece = pointer.substring_char(i, i + 1);
            proof {
                assert(piece@ =~= seq![pointer@[i as int]]);
            }
            let ghost old_cur = cur@;
            cur.append(piece);
            proof {
                assert(cur@ =~= old_cur.push(pointer@[i as int]));
                assert(split_tokens(pointer@, i as int, old_cur) == split_tokens(
                    pointer@,
                    i + 1 as int,
                    old_cur.push(pointer@[i as int]),
                ));
                assert(split_tokens(pointer@, 1, Seq::<char>::empty()) =~= strs_of(tokens@)
                    + split_tokens(pointer@, i + 1 as int, cur@));
            }
        }
        i = i + 1;
    }
    let ghost old_toks = tokens@;
    let ghost old_cur = cur@;
    tokens.push(cur);
    proof {
        assert(strs_of(tokens@) =~= strs_of(old_toks).push(old_cur));
        assert(strs_of(tokens@) =~= split_tokens(pointer@, 1, Seq::<char>::empty()));
    }
    tokens
}

/// Resolves a `$ref` string against the root schema: the whole document for
/// `#`, a fragment path for `#/a/b/...`; every other form, and a path that
/// does not resolve, is a hard error.
fn resolve_ref_exec<'a>(root: &'a Value, reference: &str) -> (r: Result<&'a Value, HardError>)
    ensures
        match resolve_ref_spec(root@, reference@) {
            Ok(v) => r is Ok && r->Ok_0@ == v,
            Err(h) => r is Err && r->Err_0@ == h,
        },
{
    let len = reference.unicode_len();
    if len == 0 || reference.get_char(0) != '#' {
        return Err(HardError::NonLocalRef(reference.to_owned()));
    }
    if len == 1 {
        proof {
            assert(reference@.subrange(1, reference@.len() as int).len() == 0);
        }
        return Ok(root);
    }
    let pointer = reference.substring_char(1, len);
    proof {
        assert(pointer@ == reference@.subrange(1, reference@.len() as int));
    }
    if pointer.get_char(0) != '/' {
        return Err(HardError::InvalidLocalRef(reference.to_owned()));
    }
    let tokens = split_tokens_exec(pointer);
    let ghost gtoks = split_tokens(pointer@, 1, Seq::<char>::empty());
    let mut cur: &Value = root;
    let n = tokens.len();
    let mut ti: usize = 0;
    while ti < n
        invariant
            ti <= n,
            n == tokens@.len(),
            strs_of(tokens@) == gtoks,
            ptr_walk(root@, gtoks, 0) == ptr_walk(cur@, gtoks, ti as int),
            resolve_ref_spec(root@, reference@) == (match ptr_walk(root@, gtoks, 0) {
                Some(v) => Ok::<SpecVal, SpecHard>(v),
                None => Err::<SpecVal, SpecHard>(SpecHard::UnresolvedRef(reference@)),
            }),
        decreases n - ti,
    {
        let tok = unescape_token_exec(tokens[ti].as_str());
        proof {
            assert(strs_of(tokens@)[ti as int] == tokens@[ti as int]@);
            assert(tok@ == unescape_token(gtoks[ti as int]));
        }
        match cur {
            Value::Obj(fields) => {
                match obj_get_exec(fields, tok.as_str()) {
                    Some(v) => {
                        proof {
                            assert(cur@ == SpecVal::Obj(crate::value::view_fields(fields@)));
                        }
                        cur = v;
                    },
                    None => {
                        proof {
                            assert(cur@ == SpecVal::Obj(crate::value::view_fields(fields@)));
                            assert(ptr_walk(cur@, gtoks, ti as int) is None);
                        }
                        return Err(HardError::UnresolvedRef(reference.to_owned()));
                    },
                }
            },
            Value::Arr(items) => {
                match parse_index_exec(tok.as_str()) {
                    Some(idx) => {
                        if idx < items.len() {
                            proof {
                                lemma_view_list_index(items@, idx as int);
                                lemma_view_list_len(items@);
                                assert(cur@ == SpecVal::Arr(crate::value::view_list(items@)));
                            }
                            cur = &items[idx];
                        } else {
                            proof {
                                lemma_view_list_len(items@);
                                assert(cur@ == SpecVal::Arr(crate::value::view_list(items@)));
                                assert(ptr_walk(cur@, gtoks, ti as int) is None);
                            }
                            return Err(HardError::UnresolvedRef(reference.to_owned()));
                        }
                    },
                    None => {
                        proof {
                            assert(cur@ == SpecVal::Arr(crate::value::view_list(items@)));
                            assert(ptr_walk(cur@, gtoks, ti as int) is None);
                        }
                        return Err(HardError::UnresolvedRef(reference.to_owned()));
                    },
                }
            },
            _ => {
                proof {
                    assert(ptr_walk(cur@, gtoks, ti as int) is None);
                }
                return Err(HardError::UnresolvedRef(reference.to_owned()));
            },
        }
        ti = ti + 1;
    }
    proof {
        assert(ptr_walk(cur@, gtoks, ti as int) == Some(cur@));
    }
    Ok(cur)
}

} // verus!

verus! {

fn hex_str(d: u32) -> (r: &'static str)
    requires
        d < 16,
    ensures
        r@ =~= seq![hex_char(d as int)],
{
    proof {
        reveal_strlit("a");
        reveal_strlit("b");
        reveal_strlit("c");
        reveal_strlit("d");
        reveal_strlit("e");
        reveal_strlit("f");
    }
    if d == 10 {
        "a"
    } else if d == 11 {
        "b"
    } else if d == 12 {
        "c"
    } else if d == 13 {
        "d"
    } else if d == 14 {
        "e"
    } else if d == 15 {
        "f"
    } else {
        crate::strutil::digit_str_pub(d as u64)
    }
}

/// Escapes the characters of a string for a rendered document literal.
fn json_escape_exec(s: &str) -> (r: String)
    ensures
        r@ == json_escape_from(s@, 0),
{
    let len = s.unicode_len();
    let mut out = String::new();
    let mut i: usize = 0;
    while i < len
        invariant
            i <= len,
            len == s@.len(),
            out@ + json_escape_from(s@, i as int) =~= json_escape_from(s@, 0),
        decreases len - i,
    {
        let c = s.get_char(i);
        if c == '"' {
            proof {
                reveal_strlit("\\\"");
            }
            out.append("\\\"");
        } else if c == '\\' {
            proof {
                reveal_strlit("\\\\");
            }
            out.append("\\\\");
        } else if c == '\u{8}' {
            proof {
                reveal_strlit("\\b");
            }
            out.append("\\b");
        } else if c == '\t' {
            proof {
                reveal_strlit("\\t");
            }
            out.append("\\t");
        } else if c == '\n' {
            proof {
                reveal_strlit("\\n");
            }
            out.append("\\n");
        } else if c == '\u{c}' {
            proof {
                reveal_strlit("\\f");
            }
            out.append("\\f");
        } else if c == '\r' {
            proof {
                reveal_strlit("\\r");
            }
            out.append("\\r");
        } else if (c as u32) < 0x20 {
            proof {
                reveal_strlit("\\u00");
            }
            out.append("\\u00");
            out.append(hex_str((c as u32) / 16));
            out.append(hex_str((c as u32) % 16));
        } else {
            let piece = s.substring_char(i, i + 1);
            proof {
                assert(piece@ =~= seq![s@[i as int]]);
            }
            out.append(piece);
        }
        proof {
            assert(out@ + json_escape_from(s@, i + 1 as int) =~= json_escape_from(s@, 0));
        }
        i = i + 1;
    }
    proof {
        assert(out@ =~= json_escape_from(s@, 0));
    }
    out
}

/// Renders a value as compact document text, as `const` messages show it.
fn render_value(v: &Value) -> (r: String)
    ensures
        r@ == json_text(v@),
    decreases v,
{
    broadcast use crate::value::group_value_views;

    match v {
        Value::Null => {
            proof {
                reveal_strlit("null");
            }
            "null".to_owned()
        },
        Value::Bool(b) => {
            proof {
                reveal_strlit("true");
                reveal_strlit("false");
            }
            if *b {
                "true".to_owned()
            } else {
                "false".to_owned()
            }
        },
        Value::Int(n) => crate::strutil::dec_string_i128(*n),
        Value::Dec(s) => s.clone(),
        Value::Str(s) => {
            proof {
                reveal_strlit("\"");
            }
            let mut out: String = "\"".to_owned();
            out.append(json_escape_exec(s.as_str()).as_str());
            out.append("\"");
            proof {
                assert(out@ =~= json_text(v@));
            }
            out
        },
        Value::Arr(items) => {
            proof {
                reveal_strlit("[");
                reveal_strlit("]");
                reveal_strlit(",");
            }
            let ghost gl = crate::value::view_list(items@);
            let mut out: String = "[".to_owned();
            let n = items.len();
            let mut i: usize = 0;
            while i < n
                invariant
                    *v == Value::Arr(*items),
                    i <= n,
                    n == items@.len(),
                    gl == crate::value::view_list(items@),
                    "["@.len() == 1,
                    ","@ =~= seq![','],
                    out@ + json_list_from(gl, i as int) =~= seq!['['] + json_list_from(gl, 0),
                decreases n - i,
            {
                proof {
                    assert(decreases_to!(*v => (*v)->Arr_0));
                    assert((*v)->Arr_0 == *items);
                    assert(decreases_to!(*items => items@));
                    assert(decreases_to!(items@ => items@[i as int]));
                    lemma_view_list_index(items@, i as int);
                    lemma_view_list_len(items@);
                }
                let piece = render_value(&items[i]);
                out.append(piece.as_str());
                if i + 1 < n {
                    out.append(",");
                }
                proof {
                    assert(out@ + json_list_from(gl, i + 1 as int) =~= seq!['['] + json_list_from(
                        gl,
                        0,
                    ));
                }
                i = i + 1;
            }
            out.append("]");
            proof {
                lemma_view_list_len(items@);
                assert(out@ =~= json_text(v@));
            }
            out
        },
        Value::Obj(fields) => {
            proof {
                reveal_strlit("{");
                reveal_strlit("}");
                reveal_strlit(",");
                reveal_strlit("\"");
                reveal_strlit(":");
            }
            let ghost gf = crate::value::view_fields(fields@);
            let mut out: String = "{".to_owned();
            let n = fields.len();
            let mut i: usize = 0;
            while i < n
                invariant
                    *v == Value::Obj(*fields),
                    i <= n,
                    n == fields@.len(),
                    gf == crate::value::view_fields(fields@),
                    "{"@.len() == 1,
                    ","@ =~= seq![','],
                    "\""@ =~= seq!['"'],
                    ":"@ =~= seq![':'],
                    out@ + json_fields_from(gf, i as int) =~= seq!['{'] + json_fields_from(gf, 0),
                decreases n - i,
            {
                proof {
                    assert(decreases_to!(*v => (*v)->Obj_0));
                    assert((*v)->Obj_0 == *fields);
                    assert(decreases_to!(*fields => fields@));
                    assert(decreases_to!(fields@ => fields@[i as int]));
                    assert(decreases_to!(fields@[i as int] => fields@[i as int].1));
                    lemma_view_fields_index(fields@, i as int);
                    lemma_view_fields_len(fields@);
                }
                out.append("\"");
                out.append(json_escape_exec(fields[i].0.as_str()).as_str());
                out.append("\"");
                out.append(":");
                let piece = render_value(&fields[i].1);
                out.append(piece.as_str());
                if i + 1 < n {
                    out.append(",");
                }
                proof {
                    assert(out@ + json_fields_from(gf, i + 1 as int) =~= seq!['{']
                        + json_fields_from(gf, 0));
                }
                i = i + 1;
            }
            out.append("}");
            proof {
                lemma_view_fields_len(fields@);
                assert(out@ =~= json_text(v@));
            }
            out
        },
    }
}

} // verus!

verus! {

/// Inserts a string into the (sorted) tail `v[i..]`, keeping order.
fn insert_sorted_exec(x: String, v: &Vec<String>, i: usize) -> (r: Vec<String>)
    requires
        i <= v@.len(),
    ensures
        strs_of(r@) == insert_sorted(x@, strs_of(v@).subrange(i as int, v@.len() as int)),
    decreases v.len() - i,
{
    let ghost tail = strs_of(v@).subrange(i as int, v@.len() as int);
    if i == v.len() {
        let mut r: Vec<String> = Vec::new();
        r.push(x);
        proof {
            assert(tail.len() == 0);
            assert(strs_of(r@) =~= seq![x@]);
            assert(strs_of(r@) =~= insert_sorted(x@, tail));
        }
        r
    } else if !crate::strutil::str_lt(v[i].as_str(), x.as_str()) {
        // x <= v[i]: x goes in front of the whole tail.
        let ghost gx = x@;
        let mut r: Vec<String> = Vec::new();
        r.push(x);
        let mut j: usize = i;
        while j < v.len()
            invariant
                i <= j <= v@.len(),
                strs_of(r@) =~= seq![gx] + strs_of(v@).subrange(i as int, j as int),
            decreases v.len() - j,
        {
            let ghost old_r = r@;
            r.push(v[j].clone());
            proof {
                assert(strs_of(r@) =~= strs_of(old_r).push(v@[j as int]@));
                assert(strs_of(r@) =~= seq![gx] + strs_of(v@).subrange(i as int, j + 1 as int));
            }
            j = j + 1;
        }
        proof {
            assert(lex_le(gx, tail[0]));
            assert(insert_sorted(gx, tail) == seq![gx] + tail);
            assert(strs_of(r@) =~= seq![gx] + tail);
        }
        r
    } else {
        let ghost gx = x@;
        let head = v[i].clone();
        let mut r = insert_sorted_exec(x, v, i + 1);
        r.insert(0, head);
        proof {
            let rest = strs_of(v@).subrange(i + 1 as int, v@.len() as int);
            assert(!lex_le(gx, tail[0]));
            assert(tail.subrange(1, tail.len() as int) =~= rest);
            assert(insert_sorted(gx, tail) == seq![tail[0]] + insert_sorted(gx, rest));
            assert(strs_of(r@) =~= seq![tail[0]] + insert_sorted(gx, rest));
        }
        r
    }
}

/// Insertion sort of a list of strings, in lexicographic order.
fn sort_strs_exec(v: &Vec<String>, i: usize) -> (r: Vec<String>)
    requires
        i <= v@.len(),
    ensures
        strs_of(r@) == sort_strs(strs_of(v@).subrange(i as int, v@.len() as int)),
    decreases v.len() - i,
{
    let ghost tail = strs_of(v@).subrange(i as int, v@.len() as int);
    if i == v.len() {
        let r: Vec<String> = Vec::new();
        proof {
            assert(tail.len() == 0);
            assert(strs_of(r@) =~= sort_strs(tail));
        }
        r
    } else {
        let sorted_rest = sort_strs_exec(v, i + 1);
        let r = insert_sorted_exec(v[i].clone(), &sorted_rest, 0);
        proof {
            let rest = strs_of(v@).subrange(i + 1 as int, v@.len() as int);
            assert(tail.subrange(1, tail.len() as int) =~= rest);
            assert(sort_strs(tail) == insert_sorted(tail[0], sort_strs(rest)));
            assert(strs_of(sorted_rest@).subrange(0, strs_of(sorted_rest@).len() as int)
                =~= strs_of(sorted_rest@));
        }
        r
    }
}

/// Shows a `type` keyword value inside a mismatch message.
fn type_display_exec(expected: &Value) -> (r: String)
    ensures
        r@ == type_display(expected@),
{
    match expected {
        Value::Str(t) => {
            proof {
                reveal_strlit("\"");
            }
            let mut out: String = "\"".to_owned();
            out.append(t.as_str());
            out.append("\"");
            proof {
                assert(out@ =~= type_display(expected@));
            }
            out
        },
        Value::Arr(types) => {
            proof {
                reveal_strlit("\"");
                reveal_strlit("[");
                reveal_strlit("]");
                reveal_strlit(", ");
            }
            let ghost gt = crate::value::view_list(types@);
            // Collect the names, each quoted.
            let mut qnames: Vec<String> = Vec::new();
            let n = types.len();
            let mut i: usize = 0;
            while i < n
                invariant
                    *expected == Value::Arr(*types),
                    i <= n,
                    n == types@.len(),
                    gt == crate::value::view_list(types@),
                    "\""@ =~= seq!['"'],
                    strs_of(qnames@) + quoted_type_names_from(gt, i as int)
                        =~= quoted_type_names_from(gt, 0),
                decreases n - i,
            {
                proof {
                    lemma_view_list_index(types@, i as int);
                    lemma_view_list_len(types@);
                }
                match &types[i] {
                    Value::Str(t) => {
                        let mut q: String = "\"".to_owned();
                        q.append(t.as_str());
                        q.append("\"");
                        let ghost old_q = qnames@;
                        proof {
                            assert(q@ =~= quote(t@));
                        }
                        qnames.push(q);
                        proof {
                            assert(strs_of(qnames@) =~= strs_of(old_q).push(quote(t@)));
                            assert(strs_of(qnames@) + quoted_type_names_from(gt, i + 1 as int)
                                =~= quoted_type_names_from(gt, 0));
                        }
                    },
                    _ => {
                        proof {
                            assert(strs_of(qnames@) + quoted_type_names_from(gt, i + 1 as int)
                                =~= quoted_type_names_from(gt, 0));
                        }
                    },
                }
                i = i + 1;
            }
            proof {
                lemma_view_list_len(types@);
                assert(strs_of(qnames@) =~= quoted_type_names_from(gt, 0));
            }
            // Sort and join.
            let sorted = sort_strs_exec(&qnames, 0);
            proof {
                assert(strs_of(qnames@).subrange(0, strs_of(qnames@).len() as int)
                    =~= strs_of(qnames@));
            }
            let ghost gsorted = sort_strs(quoted_type_names_from(gt, 0));
            let mut out: String = "[".to_owned();
            let m = sorted.len();
            let mut j: usize = 0;
            while j < m
                invariant
                    j <= m,
                    m == sorted@.len(),
                    strs_of(sorted@) == gsorted,
                    "["@.len() == 1,
                    ", "@ =~= seq![','] + seq![' '],
                    out@ + join_comma_from(gsorted, j as int) =~= seq!['['] + join_comma_from(
                        gsorted,
                        0,
                    ),
                decreases m - j,
            {
                out.append(sorted[j].as_str());
                if j + 1 < m {
                    out.append(", ");
                }
                proof {
                    assert(strs_of(sorted@)[j as int] == sorted@[j as int]@);
                    assert(out@ + join_comma_from(gsorted, j + 1 as int) =~= seq!['[']
                        + join_comma_from(gsorted, 0));
                }
                j = j + 1;
            }
            out.append("]");
            proof {
                assert(out@ =~= type_display(expected@));
            }
            out
        },
        _ => {
            proof {
                reveal_strlit("<unknown>");
            }
            "<unknown>".to_owned()
        },
    }
}

} // verus!

verus! {

fn m_false() -> (r: String)
    ensures
        r@ == msg_false(),
{
    proof {
        reveal_strlit("does not match schema (false)");
    }
    "does not match schema (false)".to_owned()
}

fn m_any_of() -> (r: String)
    ensures
        r@ == msg_any_of(),
{
    proof {
        reveal_strlit("must match at least one schema in anyOf");
    }
    "must match at least one schema in anyOf".to_owned()
}

fn m_one_of() -> (r: String)
    ensures
        r@ == msg_one_of(),
{
    proof {
        reveal_strlit("must match exactly one schema in oneOf");
    }
    "must match exactly one schema in oneOf".to_owned()
}

fn m_not() -> (r: String)
    ensures
        r@ == msg_not(),
{
    proof {
        reveal_strlit("must not match schema in not");
    }
    "must not match schema in not".to_owned()
}

fn m_enum() -> (r: String)
    ensures
        r@ == msg_enum(),
{
    proof {
        reveal_strlit("must be one of the allowed values");
    }
    "must be one of the allowed values".to_owned()
}

fn m_unknown_property() -> (r: String)
    ensures
        r@ == msg_unknown_property(),
{
    proof {
        reveal_strlit("unknown property");
    }
    "unknown property".to_owned()
}

fn m_unique() -> (r: String)
    ensures
        r@ == msg_unique(),
{
    proof {
        reveal_strlit("array items must be unique");
    }
    "array items must be unique".to_owned()
}

fn m_type(expected: &Value, inst: &Value) -> (r: String)
    ensures
        r@ == msg_type(expected@, inst@),
{
    proof {
        reveal_strlit("expected type ");
        reveal_strlit(", got ");
    }
    let mut m: String = "expected type ".to_owned();
    m.append(type_display_exec(expected).as_str());
    m.append(", got ");
    m.append(inst_type_name_exec(inst));
    proof {
        assert(m@ =~= msg_type(expected@, inst@));
    }
    m
}

fn m_const(c: &Value) -> (r: String)
    ensures
        r@ == msg_const(c@),
{
    proof {
        reveal_strlit("must be equal to ");
    }
    let mut m: String = "must be equal to ".to_owned();
    m.append(render_value(c).as_str());
    proof {
        assert(m@ =~= msg_const(c@));
    }
    m
}

fn m_min_length(m0: u64) -> (r: String)
    ensures
        r@ == msg_min_length(m0 as int),
{
    proof {
        reveal_strlit("string must be at least ");
        reveal_strlit(" characters");
    }
    let mut m: String = "string must be at least ".to_owned();
    m.append(crate::strutil::dec_string_u64(m0).as_str());
    m.append(" characters");
    proof {
        assert(m@ =~= msg_min_length(m0 as int));
    }
    m
}

fn m_min_properties(m0: u64) -> (r: String)
    ensures
        r@ == msg_min_properties(m0 as int),
{
    proof {
        reveal_strlit("object must have at least ");
        reveal_strlit(" properties");
    }
    let mut m: String = "object must have at least ".to_owned();
    m.append(crate::strutil::dec_string_u64(m0).as_str());
    m.append(" properties");
    proof {
        assert(m@ =~= msg_min_properties(m0 as int));
    }
    m
}

fn m_min_items(m0: u64) -> (r: String)
    ensures
        r@ == msg_min_items(m0 as int),
{
    proof {
        reveal_strlit("array must have at least ");
        reveal_strlit(" items");
    }
    let mut m: String = "array must have at least ".to_owned();
    m.append(crate::strutil::dec_string_u64(m0).as_str());
    m.append(" items");
    proof {
        assert(m@ =~= msg_min_items(m0 as int));
    }
    m
}

fn m_required(prop: &str) -> (r: String)
    ensures
        r@ == msg_required(prop@),
{
    proof {
        reveal_strlit("missing required property \"");
        reveal_strlit("\"");
    }
    let mut m: String = "missing required property \"".to_owned();
    m.append(prop);
    m.append("\"");
    proof {
        assert(m@ =~= msg_required(prop@));
    }
    m
}

fn m_pattern(p: &str) -> (r: String)
    ensures
        r@ == msg_pattern(p@),
{
    proof {
        reveal_strlit("string does not match pattern ");
    }
    let mut m: String = "string does not match pattern ".to_owned();
    m.append(p);
    proof {
        assert(m@ =~= msg_pattern(p@));
    }
    m
}

} // verus!

verus! {

/// The models of the collected diagnostics.
pub open spec fn errs_of(v: Seq<StructuralError>) -> SpecErrs {
    v.map_values(|e: StructuralError| e@)
}

proof fn lemma_chain_shift(acc: SpecErrs, es: SpecErrs, rest: SpecOutcome)
    ensures
        chain(Ok(acc), chain(Ok(es), rest)) == chain(Ok(acc + es), rest),
{
    if rest is Ok {
        assert(acc + (es + rest->Ok_0) =~= (acc + es) + rest->Ok_0);
    }
}

fn do_all_of(
    subs: &Vec<Value>,
    inst: &Value,
    root: &Value,
    path: &JsonPointer,
    errors: &mut Vec<StructuralError>,
    depth: u32,
) -> (res: Result<(), HardError>)
    requires
        depth >= 1,
    ensures
        match eval_list_from(
            crate::value::view_list(subs@),
            0,
            inst@,
            root@,
            path@,
            depth as nat,
        ) {
            Ok(es) => res is Ok && errs_of(final(errors)@) == errs_of(old(errors)@) + es,
            Err(h) => res is Err && res->Err_0@ == h,
        },
    decreases depth, 0int,
{
    broadcast use crate::value::group_value_views;

    let ghost gsubs = crate::value::view_list(subs@);
    let ghost gi = inst@;
    let ghost gr = root@;
    let ghost gp = path@;
    let ghost gd = depth as nat;
    let n = subs.len();
    let mut i: usize = 0;
    let ghost mut acc: SpecErrs = Seq::empty();
    proof {
        assert(errs_of(errors@) =~= errs_of(old(errors)@) + acc);
    }
    while i < n
        invariant
            depth >= 1,
            i <= n,
            n == subs@.len(),
            gsubs == crate::value::view_list(subs@),
            gi == inst@ && gr == root@ && gp == path@ && gd == depth as nat,
            errs_of(errors@) == errs_of(old(errors)@) + acc,
            eval_list_from(gsubs, 0, gi, gr, gp, gd) == chain(
                Ok(acc),
                eval_list_from(gsubs, i as int, gi, gr, gp, gd),
            ),
        decreases n - i,
    {
        proof {
            lemma_view_list_index(subs@, i as int);
            lemma_view_list_len(subs@);
        }
        let ghost pre_errs = errs_of(errors@);
        let r = eval_node(&subs[i], inst, root, path, errors, depth - 1);
        proof {
            assert(eval_list_from(gsubs, i as int, gi, gr, gp, gd) == chain(
                eval(gsubs[i as int], gi, gr, gp, (gd - 1) as nat),
                eval_list_from(gsubs, i + 1 as int, gi, gr, gp, gd),
            ));
        }
        match r {
            Err(h) => {
                return Err(h);
            },
            Ok(()) => {
                proof {
                    let o = eval(gsubs[i as int], gi, gr, gp, (gd - 1) as nat);
                    let es = o->Ok_0;
                    lemma_chain_shift(acc, es, eval_list_from(gsubs, i + 1 as int, gi, gr, gp, gd));
                    assert((errs_of(old(errors)@) + acc) + es =~= errs_of(old(errors)@) + (acc
                        + es));
                    acc = acc + es;
                }
            },
        }
        i = i + 1;
    }
    proof {
        assert(eval_list_from(gsubs, n as int, gi, gr, gp, gd) == Ok::<SpecErrs, SpecHard>(
            Seq::empty(),
        ));
        assert(acc + Seq::<(Seq<char>, Seq<char>)>::empty() =~= acc);
    }
    Ok(())
}

fn do_any_of(
    subs: &Vec<Value>,
    inst: &Value,
    root: &Value,
    path: &JsonPointer,
    depth: u32,
) -> (res: Result<bool, HardError>)
    requires
        depth >= 1,
    ensures
        match any_pass_from(crate::value::view_list(subs@), 0, inst@, root@, path@, depth as nat) {
            Ok(b) => res is Ok && res->Ok_0 == b,
            Err(h) => res is Err && res->Err_0@ == h,
        },
    decreases depth, 0int,
{
    broadcast use crate::value::group_value_views;

    let ghost gsubs = crate::value::view_list(subs@);
    let ghost gi = inst@;
    let ghost gr = root@;
    let ghost gp = path@;
    let ghost gd = depth as nat;
    let n = subs.len();
    let mut i: usize = 0;
    while i < n
        invariant
            depth >= 1,
            i <= n,
            n == subs@.len(),
            gsubs == crate::value::view_list(subs@),
            gi == inst@ && gr == root@ && gp == path@ && gd == depth as nat,
            any_pass_from(gsubs, 0, gi, gr, gp, gd) == any_pass_from(
                gsubs,
                i as int,
                gi,
                gr,
                gp,
                gd,
            ),
        decreases n - i,
    {
        proof {
            lemma_view_list_index(subs@, i as int);
            lemma_view_list_len(subs@);
        }
        let mut buf: Vec<StructuralError> = Vec::new();
        let r = eval_node(&subs[i], inst, root, path, &mut buf, depth - 1);
        match r {
            Err(h) => {
                return Err(h);
            },
            Ok(()) => {
                proof {
                    let o = eval(gsubs[i as int], gi, gr, gp, (gd - 1) as nat);
                    assert(errs_of(buf@).len() == buf@.len());
                    assert(errs_of(buf@) == Seq::<(Seq<char>, Seq<char>)>::empty() + o->Ok_0);
                    assert(Seq::<(Seq<char>, Seq<char>)>::empty() + o->Ok_0 =~= o->Ok_0);
                }
                if buf.len() == 0 {
                    return Ok(true);
                }
            },
        }
        i = i + 1;
    }
    Ok(false)
}

spec fn add_cnt(k: int, r: Result<int, SpecHard>) -> Result<int, SpecHard> {
    match r {
        Ok(c) => Ok(k + c),
        Err(h) => Err(h),
    }
}

fn do_one_of(
    subs: &Vec<Value>,
    inst: &Value,
    root: &Value,
    path: &JsonPointer,
    depth: u32,
) -> (res: Result<usize, HardError>)
    requires
        depth >= 1,
    ensures
        match count_pass_from(
            crate::value::view_list(subs@),
            0,
            inst@,
            root@,
            path@,
            depth as nat,
        ) {
            Ok(c) => res is Ok && res->Ok_0 as int == c,
            Err(h) => res is Err && res->Err_0@ == h,
        },
    decreases depth, 0int,
{
    broadcast use crate::value::group_value_views;

    let ghost gsubs = crate::value::view_list(subs@);
    let ghost gi = inst@;
    let ghost gr = root@;
    let ghost gp = path@;
    let ghost gd = depth as nat;
    let n = subs.len();
    let mut i: usize = 0;
    let mut cnt: usize = 0;
    while i < n
        invariant
            depth >= 1,
            i <= n,
            n == subs@.len(),
            cnt <= i,
            gsubs == crate::value::view_list(subs@),
            gi == inst@ && gr == root@ && gp == path@ && gd == depth as nat,
            count_pass_from(gsubs, 0, gi, gr, gp, gd) == add_cnt(
                cnt as int,
                count_pass_from(gsubs, i as int, gi, gr, gp, gd),
            ),
        decreases n - i,
    {
        proof {
            lemma_view_list_index(subs@, i as int);
            lemma_view_list_len(subs@);
        }
        let mut buf: Vec<StructuralError> = Vec::new();
        let r = eval_node(&subs[i], inst, root, path, &mut buf, depth - 1);
        proof {
            assert(count_pass_from(gsubs, i as int, gi, gr, gp, gd) == (match eval(
                gsubs[i as int],
                gi,
                gr,
                gp,
                (gd - 1) as nat,
            ) {
                Err(h) => Err(h),
                Ok(es) => match count_pass_from(gsubs, i + 1 as int, gi, gr, gp, gd) {
                    Err(h) => Err(h),
                    Ok(c) => Ok(if es.len() == 0 {
                        c + 1
                    } else {
                        c
                    }),
                },
            }));
        }
        match r {
            Err(h) => {
                return Err(h);
            },
            Ok(()) => {
                proof {
                    let o = eval(gsubs[i as int], gi, gr, gp, (gd - 1) as nat);
                    assert(errs_of(buf@).len() == buf@.len());
                    assert(errs_of(buf@) == Seq::<(Seq<char>, Seq<char>)>::empty() + o->Ok_0);
                    assert(Seq::<(Seq<char>, Seq<char>)>::empty() + o->Ok_0 =~= o->Ok_0);
                }
                if buf.len() == 0 {
                    cnt = cnt + 1;
                }
            },
        }
        i = i + 1;
    }
    Ok(cnt)
}

} // verus!

verus! {

fn do_required(
    reqs: &Vec<Value>,
    ofs: &Vec<(String, Value)>,
    path: &JsonPointer,
    errors: &mut Vec<StructuralError>,
)
    ensures
        errs_of(final(errors)@) == errs_of(old(errors)@) + required_from(
            crate::value::view_list(reqs@),
            0,
            crate::value::view_fields(ofs@),
            path@,
        ),
{
    broadcast use crate::value::group_value_views;

    let ghost greqs = crate::value::view_list(reqs@);
    let ghost gofs = crate::value::view_fields(ofs@);
    let ghost gp = path@;
    let n = reqs.len();
    let mut i: usize = 0;
    let ghost mut acc: SpecErrs = Seq::empty();
    proof {
        assert(errs_of(errors@) =~= errs_of(old(errors)@) + acc);
    }
    while i < n
        invariant
            i <= n,
            n == reqs@.len(),
            greqs == crate::value::view_list(reqs@),
            gofs == crate::value::view_fields(ofs@),
            gp == path@,
            errs_of(errors@) == errs_of(old(errors)@) + acc,
            required_from(greqs, 0, gofs, gp) == acc + required_from(greqs, i as int, gofs, gp),
        decreases n - i,
    {
        proof {
            lemma_view_list_index(reqs@, i as int);
            lemma_view_list_len(reqs@);
        }
        let ghost head = (match greqs[i as int] {
            SpecVal::Str(p) => if obj_get(gofs, p) is None {
                seq![(gp, msg_required(p))]
            } else {
                Seq::<(Seq<char>, Seq<char>)>::empty()
            },
            _ => Seq::<(Seq<char>, Seq<char>)>::empty(),
        });
        proof {
            assert(required_from(greqs, i as int, gofs, gp) == head + required_from(
                greqs,
                i + 1 as int,
                gofs,
                gp,
            ));
            assert(acc + (head + required_from(greqs, i + 1 as int, gofs, gp)) =~= (acc + head)
                + required_from(greqs, i + 1 as int, gofs, gp));
        }
        match &reqs[i] {
            Value::Str(p) => {
                if obj_get_exec(ofs, p.as_str()).is_none() {
                    let ghost old_errs = errors@;
                    errors.push(StructuralError::new(path.dup(), m_required(p.as_str())));
                    proof {
                        assert(errs_of(errors@) =~= errs_of(old_errs).push((gp, msg_required(p@))));
                        assert(errs_of(errors@) =~= errs_of(old(errors)@) + (acc + head));
                        acc = acc + head;
                    }
                } else {
                    proof {
                        assert(head =~= Seq::<(Seq<char>, Seq<char>)>::empty());
                        assert(acc + head =~= acc);
                        acc = acc + head;
                    }
                }
            },
            _ => {
                proof {
                    assert(head =~= Seq::<(Seq<char>, Seq<char>)>::empty());
                    assert(acc + head =~= acc);
                    acc = acc + head;
                }
            },
        }
        i = i + 1;
    }
    proof {
        assert(required_from(greqs, n as int, gofs, gp)
            =~= Seq::<(Seq<char>, Seq<char>)>::empty());
        assert(acc + required_from(greqs, n as int, gofs, gp) =~= acc);
    }
}

fn do_prop_names(
    ofs: &Vec<(String, Value)>,
    pn: &Value,
    root: &Value,
    path: &JsonPointer,
    errors: &mut Vec<StructuralError>,
    depth: u32,
) -> (res: Result<(), HardError>)
    requires
        depth >= 1,
    ensures
        match prop_names_from(
            crate::value::view_fields(ofs@),
            0,
            pn@,
            root@,
            path@,
            depth as nat,
        ) {
            Ok(es) => res is Ok && errs_of(final(errors)@) == errs_of(old(errors)@) + es,
            Err(h) => res is Err && res->Err_0@ == h,
        },
    decreases depth, 0int,
{
    broadcast use crate::value::group_value_views;

    let ghost gofs = crate::value::view_fields(ofs@);
    let ghost gpn = pn@;
    let ghost gr = root@;
    let ghost gp = path@;
    let ghost gd = depth as nat;
    let n = ofs.len();
    let mut i: usize = 0;
    let ghost mut acc: SpecErrs = Seq::empty();
    proof {
        assert(errs_of(errors@) =~= errs_of(old(errors)@) + acc);
    }
    while i < n
        invariant
            depth >= 1,
            i <= n,
            n == ofs@.len(),
            gofs == crate::value::view_fields(ofs@),
            gpn == pn@ && gr == root@ && gp == path@ && gd == depth as nat,
            errs_of(errors@) == errs_of(old(errors)@) + acc,
            prop_names_from(gofs, 0, gpn, gr, gp, gd) == chain(
                Ok(acc),
                prop_names_from(gofs, i as int, gpn, gr, gp, gd),
            ),
        decreases n - i,
    {
        proof {
            lemma_view_fields_index(ofs@, i as int);
            lemma_view_fields_len(ofs@);
        }
        let key_value = Value::Str(ofs[i].0.clone());
        let key_path = path.push_prop(ofs[i].0.as_str());
        proof {
            assert(key_value@ == SpecVal::Str(gofs[i as int].0));
            assert(key_path@ == child_prop(gp, gofs[i as int].0));
            assert(prop_names_from(gofs, i as int, gpn, gr, gp, gd) == chain(
                eval(gpn, SpecVal::Str(gofs[i as int].0), gr, child_prop(gp, gofs[i as int].0), (gd
                    - 1) as nat),
                prop_names_from(gofs, i + 1 as int, gpn, gr, gp, gd),
            ));
        }
        let r = eval_node(pn, &key_value, root, &key_path, errors, depth - 1);
        match r {
            Err(h) => {
                return Err(h);
            },
            Ok(()) => {
                proof {
                    let o = eval(
                        gpn,
                        SpecVal::Str(gofs[i as int].0),
                        gr,
                        child_prop(gp, gofs[i as int].0),
                        (gd - 1) as nat,
                    );
                    let es = o->Ok_0;
                    lemma_chain_shift(
                        acc,
                        es,
                        prop_names_from(gofs, i + 1 as int, gpn, gr, gp, gd),
                    );
                    assert((errs_of(old(errors)@) + acc) + es =~= errs_of(old(errors)@) + (acc
                        + es));
                    acc = acc + es;
                }
            },
        }
        i = i + 1;
    }
    proof {
        assert(prop_names_from(gofs, n as int, gpn, gr, gp, gd) == Ok::<SpecErrs, SpecHard>(
            Seq::empty(),
        ));
        assert(acc + Seq::<(Seq<char>, Seq<char>)>::empty() =~= acc);
    }
    Ok(())
}

fn do_props(
    props: &Vec<(String, Value)>,
    ofs: &Vec<(String, Value)>,
    root: &Value,
    path: &JsonPointer,
    errors: &mut Vec<StructuralError>,
    depth: u32,
) -> (res: Result<(), HardError>)
    requires
        depth >= 1,
    ensures
        match props_from(
            crate::value::view_fields(props@),
            0,
            crate::value::view_fields(ofs@),
            root@,
            path@,
            depth as nat,
        ) {
            Ok(es) => res is Ok && errs_of(final(errors)@) == errs_of(old(errors)@) + es,
            Err(h) => res is Err && res->Err_0@ == h,
        },
    decreases depth, 0int,
{
    broadcast use crate::value::group_value_views;

    let ghost gprops = crate::value::view_fields(props@);
    let ghost gofs = crate::value::view_fields(ofs@);
    let ghost gr = root@;
    let ghost gp = path@;
    let ghost gd = depth as nat;
    let n = props.len();
    let mut i: usize = 0;
    let ghost mut acc: SpecErrs = Seq::empty();
    proof {
        assert(errs_of(errors@) =~= errs_of(old(errors)@) + acc);
    }
    while i < n
        invariant
            depth >= 1,
            i <= n,
            n == props@.len(),
            gprops == crate::value::view_fields(props@),
            gofs == crate::value::view_fields(ofs@),
            gr == root@ && gp == path@ && gd == depth as nat,
            errs_of(errors@) == errs_of(old(errors)@) + acc,
            props_from(gprops, 0, gofs, gr, gp, gd) == chain(
                Ok(acc),
                props_from(gprops, i as int, gofs, gr, gp, gd),
            ),
        decreases n - i,
    {
        proof {
            lemma_view_fields_index(props@, i as int);
            lemma_view_fields_len(props@);
            assert(props_from(gprops, i as int, gofs, gr, gp, gd) == (match obj_get(
                gofs,
                gprops[i as int].0,
            ) {
                Some(v) => chain(
                    eval(gprops[i as int].1, v, gr, child_prop(gp, gprops[i as int].0), (gd
                        - 1) as nat),
                    props_from(gprops, i + 1 as int, gofs, gr, gp, gd),
                ),
                None => props_from(gprops, i + 1 as int, gofs, gr, gp, gd),
            }));
        }
        match obj_get_exec(ofs, props[i].0.as_str()) {
            Some(v) => {
                let next_path = path.push_prop(props[i].0.as_str());
                proof {
                    assert(next_path@ == child_prop(gp, gprops[i as int].0));
                }
                let r = eval_node(&props[i].1, v, root, &next_path, errors, depth - 1);
                match r {
                    Err(h) => {
                        return Err(h);
                    },
                    Ok(()) => {
                        proof {
                            let o = eval(
                                gprops[i as int].1,
                                v@,
                                gr,
                                child_prop(gp, gprops[i as int].0),
                                (gd - 1) as nat,
                            );
                            let es = o->Ok_0;
                            lemma_chain_shift(
                                acc,
                                es,
                                props_from(gprops, i + 1 as int, gofs, gr, gp, gd),
                            );
                            assert((errs_of(old(errors)@) + acc) + es =~= errs_of(old(errors)@) + (
                            acc + es));
                            acc = acc + es;
                        }
                    },
                }
            },
            None => {},
        }
        i = i + 1;
    }
    proof {
        assert(props_from(gprops, n as int, gofs, gr, gp, gd) == Ok::<SpecErrs, SpecHard>(
            Seq::empty(),
        ));
        assert(acc + Seq::<(Seq<char>, Seq<char>)>::empty() =~= acc);
    }
    Ok(())
}

/// The declared-properties entries that `additionalProperties` is computed
/// against.
pub open spec fn kp_view(kp: Option<&Vec<(String, Value)>>) -> Seq<(Seq<char>, SpecVal)> {
    match kp {
        Some(p) => crate::value::view_fields(p@),
        None => Seq::empty(),
    }
}

fn kp_contains(kp: Option<&Vec<(String, Value)>>, key: &str) -> (r: bool)
    ensures
        r == (obj_get(kp_view(kp), key@) is Some),
{
    match kp {
        Some(p) => obj_get_exec(p, key).is_some(),
        None => false,
    }
}

fn do_extra_false(
    ofs: &Vec<(String, Value)>,
    kp: Option<&Vec<(String, Value)>>,
    path: &JsonPointer,
    errors: &mut Vec<StructuralError>,
)
    ensures
        errs_of(final(errors)@) == errs_of(old(errors)@) + extra_false_from(
            crate::value::view_fields(ofs@),
            0,
            kp_view(kp),
            path@,
        ),
{
    broadcast use crate::value::group_value_views;

    let ghost gofs = crate::value::view_fields(ofs@);
    let ghost gkp = kp_view(kp);
    let ghost gp = path@;
    let n = ofs.len();
    let mut i: usize = 0;
    let ghost mut acc: SpecErrs = Seq::empty();
    proof {
        assert(errs_of(errors@) =~= errs_of(old(errors)@) + acc);
    }
    while i < n
        invariant
            i <= n,
            n == ofs@.len(),
            gofs == crate::value::view_fields(ofs@),
            gkp == kp_view(kp),
            gp == path@,
            errs_of(errors@) == errs_of(old(errors)@) + acc,
            extra_false_from(gofs, 0, gkp, gp) == acc + extra_false_from(gofs, i as int, gkp, gp),
        decreases n - i,
    {
        proof {
            lemma_view_fields_index(ofs@, i as int);
            lemma_view_fields_len(ofs@);
        }
        let ghost head = (if obj_get(gkp, gofs[i as int].0) is None {
            seq![(child_prop(gp, gofs[i as int].0), msg_unknown_property())]
        } else {
            Seq::<(Seq<char>, Seq<char>)>::empty()
        });
        proof {
            assert(extra_false_from(gofs, i as int, gkp, gp) == head + extra_false_from(
                gofs,
                i + 1 as int,
                gkp,
                gp,
            ));
            assert(acc + (head + extra_false_from(gofs, i + 1 as int, gkp, gp)) =~= (acc + head)
                + extra_false_from(gofs, i + 1 as int, gkp, gp));
        }
        if !kp_contains(kp, ofs[i].0.as_str()) {
            let key_path = path.push_prop(ofs[i].0.as_str());
            let ghost old_errs = errors@;
            errors.push(StructuralError::new(key_path, m_unknown_property()));
            proof {
                assert(errs_of(errors@) =~= errs_of(old_errs).push(
                    (child_prop(gp, gofs[i as int].0), msg_unknown_property()),
                ));
                assert(errs_of(errors@) =~= errs_of(old(errors)@) + (acc + head));
                acc = acc + head;
            }
        } else {
            proof {
                assert(acc + head =~= acc);
                acc = acc + head;
            }
        }
        i = i + 1;
    }
    proof {
        assert(extra_false_from(gofs, n as int, gkp, gp)
            =~= Seq::<(Seq<char>, Seq<char>)>::empty());
        assert(acc + extra_false_from(gofs, n as int, gkp, gp) =~= acc);
    }
}

fn do_extra_eval(
    ofs: &Vec<(String, Value)>,
    kp: Option<&Vec<(String, Value)>>,
    ap: &Value,
    root: &Value,
    path: &JsonPointer,
    errors: &mut Vec<StructuralError>,
    depth: u32,
) -> (res: Result<(), HardError>)
    requires
        depth >= 1,
    ensures
        match extra_eval_from(
            crate::value::view_fields(ofs@),
            0,
            kp_view(kp),
            ap@,
            root@,
            path@,
            depth as nat,
        ) {
            Ok(es) => res is Ok && errs_of(final(errors)@) == errs_of(old(errors)@) + es,
            Err(h) => res is Err && res->Err_0@ == h,
        },
    decreases depth, 0int,
{
    broadcast use crate::value::group_value_views;

    let ghost gofs = crate::value::view_fields(ofs@);
    let ghost gkp = kp_view(kp);
    let ghost gap = ap@;
    let ghost gr = root@;
    let ghost gp = path@;
    let ghost gd = depth as nat;
    let n = ofs.len();
    let mut i: usize = 0;
    let ghost mut acc: SpecErrs = Seq::empty();
    proof {
        assert(errs_of(errors@) =~= errs_of(old(errors)@) + acc);
    }
    while i < n
        invariant
            depth >= 1,
            i <= n,
            n == ofs@.len(),
            gofs == crate::value::view_fields(ofs@),
            gkp == kp_view(kp),
            gap == ap@ && gr == root@ && gp == path@ && gd == depth as nat,
            errs_of(errors@) == errs_of(old(errors)@) + acc,
            extra_eval_from(gofs, 0, gkp, gap, gr, gp, gd) == chain(
                Ok(acc),
                extra_eval_from(gofs, i as int, gkp, gap, gr, gp, gd),
            ),
        decreases n - i,
    {
        proof {
            lemma_view_fields_index(ofs@, i as int);
            lemma_view_fields_len(ofs@);
            assert(extra_eval_from(gofs, i as int, gkp, gap, gr, gp, gd) == (if obj_get(
                gkp,
                gofs[i as int].0,
            ) is None {
                chain(
                    eval(gap, gofs[i as int].1, gr, child_prop(gp, gofs[i as int].0), (gd
                        - 1) as nat),
                    extra_eval_from(gofs, i + 1 as int, gkp, gap, gr, gp, gd),
                )
            } else {
                extra_eval_from(gofs, i + 1 as int, gkp, gap, gr, gp, gd)
            }));
        }
        if !kp_contains(kp, ofs[i].0.as_str()) {
            let next_path = path.push_prop(ofs[i].0.as_str());
            proof {
                assert(next_path@ == child_prop(gp, gofs[i as int].0));
            }
            let r = eval_node(ap, &ofs[i].1, root, &next_path, errors, depth - 1);
            match r {
                Err(h) => {
                    return Err(h);
                },
                Ok(()) => {
                    proof {
                        let o = eval(
                            gap,
                            gofs[i as int].1,
                            gr,
                            child_prop(gp, gofs[i as int].0),
                            (gd - 1) as nat,
                        );
                        let es = o->Ok_0;
                        lemma_chain_shift(
                            acc,
                            es,
                            extra_eval_from(gofs, i + 1 as int, gkp, gap, gr, gp, gd),
                        );
                        assert((errs_of(old(errors)@) + acc) + es =~= errs_of(old(errors)@) + (acc
                            + es));
                        acc = acc + es;
                    }
                },
            }
        }
        i = i + 1;
    }
    proof {
        assert(extra_eval_from(gofs, n as int, gkp, gap, gr, gp, gd) == Ok::<SpecErrs, SpecHard>(
            Seq::empty(),
        ));
        assert(acc + Seq::<(Seq<char>, Seq<char>)>::empty() =~= acc);
    }
    Ok(())
}

fn do_items(
    items: &Vec<Value>,
    ischema: &Value,
    root: &Value,
    path: &JsonPointer,
    errors: &mut Vec<StructuralError>,
    depth: u32,
) -> (res: Result<(), HardError>)
    requires
        depth >= 1,
    ensures
        match items_from(
            crate::value::view_list(items@),
            0,
            ischema@,
            root@,
            path@,
            depth as nat,
        ) {
            Ok(es) => res is Ok && errs_of(final(errors)@) == errs_of(old(errors)@) + es,
            Err(h) => res is Err && res->Err_0@ == h,
        },
    decreases depth, 0int,
{
    broadcast use crate::value::group_value_views;

    let ghost gitems = crate::value::view_list(items@);
    let ghost gs = ischema@;
    let ghost gr = root@;
    let ghost gp = path@;
    let ghost gd = depth as nat;
    let n = items.len();
    let mut i: usize = 0;
    let ghost mut acc: SpecErrs = Seq::empty();
    proof {
        assert(errs_of(errors@) =~= errs_of(old(errors)@) + acc);
    }
    while i < n
        invariant
            depth >= 1,
            i <= n,
            n == items@.len(),
            gitems == crate::value::view_list(items@),
            gs == ischema@ && gr == root@ && gp == path@ && gd == depth as nat,
            errs_of(errors@) == errs_of(old(errors)@) + acc,
            items_from(gitems, 0, gs, gr, gp, gd) == chain(
                Ok(acc),
                items_from(gitems, i as int, gs, gr, gp, gd),
            ),
        decreases n - i,
    {
        proof {
            lemma_view_list_index(items@, i as int);
            lemma_view_list_len(items@);
        }
        let next_path = path.push_index(i);
        proof {
            assert(next_path@ == child_index(gp, i as int));
            assert(items_from(gitems, i as int, gs, gr, gp, gd) == chain(
                eval(gs, gitems[i as int], gr, child_index(gp, i as int), (gd - 1) as nat),
                items_from(gitems, i + 1 as int, gs, gr, gp, gd),
            ));
        }
        let r = eval_node(ischema, &items[i], root, &next_path, errors, depth - 1);
        match r {
            Err(h) => {
                return Err(h);
            },
            Ok(()) => {
                proof {
                    let o = eval(gs, gitems[i as int], gr, child_index(gp, i as int), (gd
                        - 1) as nat);
                    let es = o->Ok_0;
                    lemma_chain_shift(acc, es, items_from(gitems, i + 1 as int, gs, gr, gp, gd));
                    assert((errs_of(old(errors)@) + acc) + es =~= errs_of(old(errors)@) + (acc
                        + es));
                    acc = acc + es;
                }
            },
        }
        i = i + 1;
    }
    proof {
        assert(items_from(gitems, n as int, gs, gr, gp, gd) == Ok::<SpecErrs, SpecHard>(
            Seq::empty(),
        ));
        assert(acc + Seq::<(Seq<char>, Seq<char>)>::empty() =~= acc);
    }
    Ok(())
}

/// Whether the array holds two structurally equal elements.
fn do_unique(items: &Vec<Value>) -> (r: bool)
    ensures
        r == has_duplicate(crate::value::view_list(items@)),
{
    broadcast use crate::value::group_value_views;

    let ghost gl = crate::value::view_list(items@);
    let n = items.len();
    let mut i: usize = 0;
    while i < n
        invariant
            i <= n,
            n == items@.len(),
            gl == crate::value::view_list(items@),
            forall|a: int, b: int| 0 <= a < i && a < b < n ==> gl[a] != gl[b],
        decreases n - i,
    {
        let mut j: usize = i + 1;
        while j < n
            invariant
                i < j <= n || (i + 1 > n && j == i + 1),
                i < n,
                n == items@.len(),
                gl == crate::value::view_list(items@),
                forall|b: int| i < b < j ==> gl[i as int] != gl[b],
            decreases n - j,
        {
            proof {
                lemma_view_list_index(items@, i as int);
                lemma_view_list_index(items@, j as int);
                lemma_view_list_len(items@);
            }
            if value_eq(&items[i], &items[j]) {
                proof {
                    assert(gl[i as int] == gl[j as int]);
                    assert(has_duplicate(gl));
                }
                return true;
            }
            j = j + 1;
        }
        i = i + 1;
    }
    proof {
        lemma_view_list_len(items@);
        assert(!has_duplicate(gl)) by {
            if has_duplicate(gl) {
                let (a, b) = choose|a: int, b: int| 0 <= a < b < gl.len() && gl[a] == gl[b];
                assert(gl[a] != gl[b]);
            }
        }
    }
    false
}

} // verus!

verus! {

fn do_string(
    fields: &Vec<(String, Value)>,
    inst: &Value,
    path: &JsonPointer,
    errors: &mut Vec<StructuralError>,
) -> (res: Result<(), HardError>)
    ensures
        match string_part(crate::value::view_fields(fields@), inst@, path@) {
            Ok(es) => res is Ok && errs_of(final(errors)@) == errs_of(old(errors)@) + es,
            Err(h) => res is Err && res->Err_0@ == h,
        },
{
    broadcast use crate::value::group_value_views;

    let ghost gf = crate::value::view_fields(fields@);
    let ghost gi = inst@;
    let ghost gp = path@;
    match inst {
        Value::Str(s) => {
            let ghost mut e1: SpecErrs = Seq::empty();
            match get_u64_exec(fields, "minLength") {
                Some(m) => {
                    if (s.unicode_len() as u64) < m {
                        let ghost old_errs = errors@;
                        errors.push(StructuralError::new(path.dup(), m_min_length(m)));
                        proof {
                            e1 = seq![(gp, msg_min_length(m as int))];
                            assert(errs_of(errors@) =~= errs_of(old_errs).push(
                                (gp, msg_min_length(m as int)),
                            ));
                            assert(errs_of(errors@) =~= errs_of(old(errors)@) + e1);
                        }
                    } else {
                        proof {
                            assert(errs_of(errors@) =~= errs_of(old(errors)@) + e1);
                        }
                    }
                },
                None => {
                    proof {
                        assert(errs_of(errors@) =~= errs_of(old(errors)@) + e1);
                    }
                },
            }
            match obj_get_exec(fields, "pattern") {
                Some(pv) => match pv {
                    Value::Str(p) => {
                        match regex_search(p.as_str(), s.as_str()) {
                            None => {
                                return Err(HardError::InvalidRegex(p.clone()));
                            },
                            Some(matched) => {
                                if !matched {
                                    let ghost old_errs = errors@;
                                    errors.push(
                                        StructuralError::new(path.dup(), m_pattern(p.as_str())),
                                    );
                                    proof {
                                        assert(errs_of(errors@) =~= errs_of(old_errs).push(
                                            (gp, msg_pattern(p@)),
                                        ));
                                        assert(errs_of(errors@) =~= errs_of(old(errors)@) + (e1
                                            + seq![(gp, msg_pattern(p@))]));
                                    }
                                    return Ok(());
                                }
                            },
                        }
                    },
                    _ => {},
                },
                None => {},
            }
            Ok(())
        },
        _ => {
            proof {
                assert(errs_of(errors@) =~= errs_of(old(errors)@)
                    + Seq::<(Seq<char>, Seq<char>)>::empty());
            }
            Ok(())
        },
    }
}

fn do_obj_min_req(
    fields: &Vec<(String, Value)>,
    ofs: &Vec<(String, Value)>,
    path: &JsonPointer,
    errors: &mut Vec<StructuralError>,
)
    ensures
        errs_of(final(errors)@) == errs_of(old(errors)@) + obj_min_req_errs(
            crate::value::view_fields(fields@),
            crate::value::view_fields(ofs@),
            path@,
        ),
{
    broadcast use crate::value::group_value_views;

    let ghost gf = crate::value::view_fields(fields@);
    let ghost gofs = crate::value::view_fields(ofs@);
    let ghost gp = path@;
    let ghost mut e_min: SpecErrs = Seq::empty();
    match get_u64_exec(fields, "minProperties") {
        Some(m) => {
            if (ofs.len() as u64) < m {
                let ghost old_errs = errors@;
                errors.push(StructuralError::new(path.dup(), m_min_properties(m)));
                proof {
                    lemma_view_fields_len(ofs@);
                    e_min = seq![(gp, msg_min_properties(m as int))];
                    assert(errs_of(errors@) =~= errs_of(old_errs).push(
                        (gp, msg_min_properties(m as int)),
                    ));
                    assert(errs_of(errors@) =~= errs_of(old(errors)@) + e_min);
                }
            } else {
                proof {
                    lemma_view_fields_len(ofs@);
                    assert(errs_of(errors@) =~= errs_of(old(errors)@) + e_min);
                }
            }
        },
        None => {
            proof {
                assert(errs_of(errors@) =~= errs_of(old(errors)@) + e_min);
            }
        },
    }
    let ghost mut e_req: SpecErrs = Seq::empty();
    match obj_get_exec(fields, "required") {
        Some(rv) => match rv {
            Value::Arr(reqs) => {
                do_required(reqs, ofs, path, errors);
                proof {
                    e_req = required_from(crate::value::view_list(reqs@), 0, gofs, gp);
                }
            },
            _ => {},
        },
        None => {},
    }
    proof {
        assert(errs_of(errors@) =~= errs_of(old(errors)@) + (e_min + e_req));
        assert(obj_min_req_errs(gf, gofs, gp) == e_min + e_req);
    }
}

fn do_obj_pn(
    fields: &Vec<(String, Value)>,
    ofs: &Vec<(String, Value)>,
    root: &Value,
    path: &JsonPointer,
    errors: &mut Vec<StructuralError>,
    depth: u32,
) -> (res: Result<(), HardError>)
    requires
        depth >= 1,
    ensures
        match obj_pn_outcome(
            crate::value::view_fields(fields@),
            crate::value::view_fields(ofs@),
            root@,
            path@,
            depth as nat,
        ) {
            Ok(es) => res is Ok && errs_of(final(errors)@) == errs_of(old(errors)@) + es,
            Err(h) => res is Err && res->Err_0@ == h,
        },
    decreases depth, 1int,
{
    broadcast use crate::value::group_value_views;

    match obj_get_exec(fields, "propertyNames") {
        Some(pn) => do_prop_names(ofs, pn, root, path, errors, depth),
        None => {
            proof {
                assert(errs_of(errors@) =~= errs_of(old(errors)@)
                    + Seq::<(Seq<char>, Seq<char>)>::empty());
            }
            Ok(())
        },
    }
}

fn do_obj_props(
    fields: &Vec<(String, Value)>,
    ofs: &Vec<(String, Value)>,
    root: &Value,
    path: &JsonPointer,
    errors: &mut Vec<StructuralError>,
    depth: u32,
) -> (res: Result<(), HardError>)
    requires
        depth >= 1,
    ensures
        match obj_props_outcome(
            crate::value::view_fields(fields@),
            crate::value::view_fields(ofs@),
            root@,
            path@,
            depth as nat,
        ) {
            Ok(es) => res is Ok && errs_of(final(errors)@) == errs_of(old(errors)@) + es,
            Err(h) => res is Err && res->Err_0@ == h,
        },
    decreases depth, 1int,
{
    broadcast use crate::value::group_value_views;

    match obj_get_exec(fields, "properties") {
        Some(pv) => match pv {
            Value::Obj(props) => do_props(props, ofs, root, path, errors, depth),
            _ => {
                proof {
                    assert(errs_of(errors@) =~= errs_of(old(errors)@)
                        + Seq::<(Seq<char>, Seq<char>)>::empty());
                }
                Ok(())
            },
        },
        None => {
            proof {
                assert(errs_of(errors@) =~= errs_of(old(errors)@)
                    + Seq::<(Seq<char>, Seq<char>)>::empty());
            }
            Ok(())
        },
    }
}

fn do_obj_add(
    fields: &Vec<(String, Value)>,
    ofs: &Vec<(String, Value)>,
    root: &Value,
    path: &JsonPointer,
    errors: &mut Vec<StructuralError>,
    depth: u32,
) -> (res: Result<(), HardError>)
    requires
        depth >= 1,
    ensures
        match obj_add_outcome(
            crate::value::view_fields(fields@),
            crate::value::view_fields(ofs@),
            root@,
            path@,
            depth as nat,
        ) {
            Ok(es) => res is Ok && errs_of(final(errors)@) == errs_of(old(errors)@) + es,
            Err(h) => res is Err && res->Err_0@ == h,
        },
    decreases depth, 1int,
{
    broadcast use crate::value::group_value_views;

    let ghost gf = crate::value::view_fields(fields@);
    let kp: Option<&Vec<(String, Value)>> = match obj_get_exec(fields, "properties") {
        Some(pv) => match pv {
            Value::Obj(props) => Some(props),
            _ => None,
        },
        None => None,
    };
    proof {
        assert(kp_view(kp) == known_props(gf));
    }
    match obj_get_exec(fields, "additionalProperties") {
        Some(ap) => match ap {
            Value::Bool(b) => {
                if !*b {
                    do_extra_false(ofs, kp, path, errors);
                    Ok(())
                } else {
                    do_extra_eval(ofs, kp, ap, root, path, errors, depth)
                }
            },
            Value::Obj(_) => do_extra_eval(ofs, kp, ap, root, path, errors, depth),
            _ => Err(HardError::BadAdditionalProperties),
        },
        None => {
            proof {
                assert(errs_of(errors@) =~= errs_of(old(errors)@)
                    + Seq::<(Seq<char>, Seq<char>)>::empty());
            }
            Ok(())
        },
    }
}

#[verifier::rlimit(100)]
fn do_object(
    fields: &Vec<(String, Value)>,
    inst: &Value,
    root: &Value,
    path: &JsonPointer,
    errors: &mut Vec<StructuralError>,
    depth: u32,
) -> (res: Result<(), HardError>)
    requires
        depth >= 1,
    ensures
        match object_part(crate::value::view_fields(fields@), inst@, root@, path@, depth as nat) {
            Ok(es) => res is Ok && errs_of(final(errors)@) == errs_of(old(errors)@) + es,
            Err(h) => res is Err && res->Err_0@ == h,
        },
    decreases depth, 2int,
{
    broadcast use crate::value::group_value_views;

    let ghost gf = crate::value::view_fields(fields@);
    let ghost gi = inst@;
    let ghost gr = root@;
    let ghost gp = path@;
    let ghost gd = depth as nat;
    match inst {
        Value::Obj(ofs) => {
            let ghost gofs = crate::value::view_fields(ofs@);
            let ghost e_a = obj_min_req_errs(gf, gofs, gp);
            do_obj_min_req(fields, ofs, path, errors);
            let ghost o_b = obj_pn_outcome(gf, gofs, gr, gp, gd);
            match do_obj_pn(fields, ofs, root, path, errors, depth) {
                Err(h) => {
                    return Err(h);
                },
                Ok(()) => {},
            }
            let ghost es_b = o_b->Ok_0;
            proof {
                assert(errs_of(errors@) =~= errs_of(old(errors)@) + (e_a + es_b));
            }
            let ghost o_c = obj_props_outcome(gf, gofs, gr, gp, gd);
            match do_obj_props(fields, ofs, root, path, errors, depth) {
                Err(h) => {
                    return Err(h);
                },
                Ok(()) => {},
            }
            let ghost es_c = o_c->Ok_0;
            proof {
                assert(errs_of(errors@) =~= errs_of(old(errors)@) + ((e_a + es_b) + es_c));
            }
            let ghost o_d = obj_add_outcome(gf, gofs, gr, gp, gd);
            match do_obj_add(fields, ofs, root, path, errors, depth) {
                Err(h) => {
                    return Err(h);
                },
                Ok(()) => {},
            }
            let ghost es_d = o_d->Ok_0;
            proof {
                assert(errs_of(errors@) =~= errs_of(old(errors)@) + (((e_a + es_b) + es_c)
                    + es_d));
                assert(object_part(gf, gi, gr, gp, gd) == Ok::<SpecErrs, SpecHard>(
                    e_a + (es_b + (es_c + es_d)),
                ));
                assert(e_a + (es_b + (es_c + es_d)) =~= ((e_a + es_b) + es_c) + es_d);
            }
            Ok(())
        },
        _ => {
            proof {
                assert(errs_of(errors@) =~= errs_of(old(errors)@)
                    + Seq::<(Seq<char>, Seq<char>)>::empty());
            }
            Ok(())
        },
    }
}

fn do_array(
    fields: &Vec<(String, Value)>,
    inst: &Value,
    root: &Value,
    path: &JsonPointer,
    errors: &mut Vec<StructuralError>,
    depth: u32,
) -> (res: Result<(), HardError>)
    requires
        depth >= 1,
    ensures
        match array_part(crate::value::view_fields(fields@), inst@, root@, path@, depth as nat) {
            Ok(es) => res is Ok && errs_of(final(errors)@) == errs_of(old(errors)@) + es,
            Err(h) => res is Err && res->Err_0@ == h,
        },
    decreases depth, 2int,
{
    broadcast use crate::value::group_value_views;

    let ghost gf = crate::value::view_fields(fields@);
    let ghost gi = inst@;
    let ghost gr = root@;
    let ghost gp = path@;
    let ghost gd = depth as nat;
    match inst {
        Value::Arr(items) => {
            let ghost gitems = crate::value::view_list(items@);
            // minItems
            let ghost mut e_min: SpecErrs = Seq::empty();
            match get_u64_exec(fields, "minItems") {
                Some(m) => {
                    if (items.len() as u64) < m {
                        let ghost old_errs = errors@;
                        errors.push(StructuralError::new(path.dup(), m_min_items(m)));
                        proof {
                            lemma_view_list_len(items@);
                            e_min = seq![(gp, msg_min_items(m as int))];
                            assert(errs_of(errors@) =~= errs_of(old_errs).push(
                                (gp, msg_min_items(m as int)),
                            ));
                            assert(errs_of(errors@) =~= errs_of(old(errors)@) + e_min);
                        }
                    } else {
                        proof {
                            lemma_view_list_len(items@);
                            assert(errs_of(errors@) =~= errs_of(old(errors)@) + e_min);
                        }
                    }
                },
                None => {
                    proof {
                        assert(errs_of(errors@) =~= errs_of(old(errors)@) + e_min);
                    }
                },
            }
            // uniqueItems
            let ghost mut e_uniq: SpecErrs = Seq::empty();
            let unique_on: bool = match obj_get_exec(fields, "uniqueItems") {
                Some(uv) => match uv {
                    Value::Bool(b) => *b,
                    _ => false,
                },
                None => false,
            };
            proof {
                assert(unique_on == (obj_get(gf, "uniqueItems"@) == Some(SpecVal::Bool(true))));
            }
            if unique_on {
                if do_unique(items) {
                    let ghost old_errs = errors@;
                    errors.push(StructuralError::new(path.dup(), m_unique()));
                    proof {
                        e_uniq = seq![(gp, msg_unique())];
                        assert(errs_of(errors@) =~= errs_of(old_errs).push((gp, msg_unique())));
                        assert(errs_of(errors@) =~= errs_of(old(errors)@) + (e_min + e_uniq));
                    }
                } else {
                    proof {
                        assert(errs_of(errors@) =~= errs_of(old(errors)@) + (e_min + e_uniq));
                    }
                }
            } else {
                proof {
                    assert(errs_of(errors@) =~= errs_of(old(errors)@) + (e_min + e_uniq));
                }
            }
            // items
            let ghost mut es_items: SpecErrs = Seq::empty();
            match obj_get_exec(fields, "items") {
                Some(ischema) => {
                    match do_items(items, ischema, root, path, errors, depth) {
                        Err(h) => {
                            proof {
                                assert(array_part(gf, gi, gr, gp, gd) == Err::<SpecErrs, SpecHard>(
                                    h@,
                                ));
                            }
                            return Err(h);
                        },
                        Ok(()) => {
                            proof {
                                es_items = items_from(gitems, 0, ischema@, gr, gp, gd)->Ok_0;
                                assert(errs_of(errors@) =~= errs_of(old(errors)@) + ((e_min
                                    + e_uniq) + es_items));
                            }
                        },
                    }
                },
                None => {
                    proof {
                        assert(errs_of(errors@) =~= errs_of(old(errors)@) + ((e_min + e_uniq)
                            + es_items));
                    }
                },
            }
            proof {
                assert(array_part(gf, gi, gr, gp, gd) == Ok::<SpecErrs, SpecHard>(
                    (e_min + e_uniq) + es_items,
                ));
            }
            Ok(())
        },
        _ => {
            proof {
                assert(errs_of(errors@) =~= errs_of(old(errors)@)
                    + Seq::<(Seq<char>, Seq<char>)>::empty());
            }
            Ok(())
        },
    }
}

} // verus!

verus! {

fn do_ref(
    fields: &Vec<(String, Value)>,
    inst: &Value,
    root: &Value,
    path: &JsonPointer,
    errors: &mut Vec<StructuralError>,
    depth: u32,
) -> (res: Result<(), HardError>)
    requires
        depth >= 1,
    ensures
        match ref_part(crate::value::view_fields(fields@), inst@, root@, path@, depth as nat) {
            Ok(es) => res is Ok && errs_of(final(errors)@) == errs_of(old(errors)@) + es,
            Err(h) => res is Err && res->Err_0@ == h,
        },
    decreases depth, 0int,
{
    broadcast use crate::value::group_value_views;

    let ghost gf = crate::value::view_fields(fields@);
    match obj_get_exec(fields, "$ref") {
        Some(rv) => match rv {
            Value::Str(r) => {
                match resolve_ref_exec(root, r.as_str()) {
                    Ok(target) => eval_node(target, inst, root, path, errors, depth - 1),
                    Err(h) => Err(h),
                }
            },
            _ => {
                proof {
                    assert(errs_of(errors@) =~= errs_of(old(errors)@)
                        + Seq::<(Seq<char>, Seq<char>)>::empty());
                }
                Ok(())
            },
        },
        None => {
            proof {
                assert(errs_of(errors@) =~= errs_of(old(errors)@)
                    + Seq::<(Seq<char>, Seq<char>)>::empty());
            }
            Ok(())
        },
    }
}

/// The `$ref`, `allOf` and `anyOf` keywords of one object schema node, in
/// order, appending their diagnostics.
fn eval_pre_a(
    fields: &Vec<(String, Value)>,
    inst: &Value,
    root: &Value,
    path: &JsonPointer,
    errors: &mut Vec<StructuralError>,
    depth: u32,
) -> (res: Result<(), HardError>)
    requires
        depth >= 1,
    ensures
        match pre_a_parts(crate::value::view_fields(fields@), inst@, root@, path@, depth as nat) {
            Ok(es) => res is Ok && errs_of(final(errors)@) == errs_of(old(errors)@) + es,
            Err(h) => res is Err && res->Err_0@ == h,
        },
    decreases depth, 2int,
{
    broadcast use crate::value::group_value_views;

    let ghost gf = crate::value::view_fields(fields@);
    let ghost gi = inst@;
    let ghost gr = root@;
    let ghost gp = path@;
    let ghost gd = depth as nat;
    // $ref
    let ghost o1 = ref_part(gf, gi, gr, gp, gd);
    match do_ref(fields, inst, root, path, errors, depth) {
        Err(h) => {
            return Err(h);
        },
        Ok(()) => {},
    }
    let ghost es1 = o1->Ok_0;
    // allOf
    let ghost o2 = all_of_part(gf, gi, gr, gp, gd);
    match obj_get_exec(fields, "allOf") {
        Some(av) => match av {
            Value::Arr(subs) => {
                match do_all_of(subs, inst, root, path, errors, depth) {
                    Err(h) => {
                        return Err(h);
                    },
                    Ok(()) => {},
                }
            },
            _ => {},
        },
        None => {},
    }
    let ghost es2 = o2->Ok_0;
    proof {
        assert(o2 is Ok);
        assert(errs_of(errors@) =~= errs_of(old(errors)@) + (es1 + es2));
    }
    // anyOf
    let ghost o3 = any_of_part(gf, gi, gr, gp, gd);
    match obj_get_exec(fields, "anyOf") {
        Some(av) => match av {
            Value::Arr(subs) => {
                match do_any_of(subs, inst, root, path, depth) {
                    Err(h) => {
                        return Err(h);
                    },
                    Ok(passed) => {
                        if !passed {
                            let ghost old_errs = errors@;
                            errors.push(StructuralError::new(path.dup(), m_any_of()));
                            proof {
                                assert(o3 == Ok::<SpecErrs, SpecHard>(seq![(gp, msg_any_of())]));
                                assert(errs_of(errors@) =~= errs_of(old_errs).push(
                                    (gp, msg_any_of()),
                                ));
                                assert(errs_of(errors@) =~= errs_of(old(errors)@) + ((es1 + es2)
                                    + o3->Ok_0));
                            }
                        } else {
                            proof {
                                assert(o3 == Ok::<SpecErrs, SpecHard>(Seq::empty()));
                                assert(errs_of(errors@) =~= errs_of(old(errors)@) + ((es1 + es2)
                                    + o3->Ok_0));
                            }
                        }
                    },
                }
            },
            _ => {
                proof {
                    assert(errs_of(errors@) =~= errs_of(old(errors)@) + ((es1 + es2) + o3->Ok_0));
                }
            },
        },
        None => {
            proof {
                assert(errs_of(errors@) =~= errs_of(old(errors)@) + ((es1 + es2) + o3->Ok_0));
            }
        },
    }
    let ghost es3 = o3->Ok_0;
    proof {
        assert(pre_a_parts(gf, gi, gr, gp, gd) == Ok::<SpecErrs, SpecHard>(es1 + (es2 + es3)));
        assert(es1 + (es2 + es3) =~= (es1 + es2) + es3);
    }
    Ok(())
}

/// The `oneOf`, `not` and `if`/`then`/`else` keywords of one object schema
/// node, in order, appending their diagnostics.
fn eval_pre_b(
    fields: &Vec<(String, Value)>,
    inst: &Value,
    root: &Value,
    path: &JsonPointer,
    errors: &mut Vec<StructuralError>,
    depth: u32,
) -> (res: Result<(), HardError>)
    requires
        depth >= 1,
    ensures
        match pre_b_parts(crate::value::view_fields(fields@), inst@, root@, path@, depth as nat) {
            Ok(es) => res is Ok && errs_of(final(errors)@) == errs_of(old(errors)@) + es,
            Err(h) => res is Err && res->Err_0@ == h,
        },
    decreases depth, 2int,
{
    broadcast use crate::value::group_value_views;

    let ghost gf = crate::value::view_fields(fields@);
    let ghost gi = inst@;
    let ghost gr = root@;
    let ghost gp = path@;
    let ghost gd = depth as nat;
    // oneOf
    let ghost o4 = one_of_part(gf, gi, gr, gp, gd);
    match obj_get_exec(fields, "oneOf") {
        Some(ov) => match ov {
            Value::Arr(subs) => {
                match do_one_of(subs, inst, root, path, depth) {
                    Err(h) => {
                        return Err(h);
                    },
                    Ok(cnt) => {
                        if cnt != 1 {
                            let ghost old_errs = errors@;
                            errors.push(StructuralError::new(path.dup(), m_one_of()));
                            proof {
                                assert(o4 == Ok::<SpecErrs, SpecHard>(seq![(gp, msg_one_of())]));
                                assert(errs_of(errors@) =~= errs_of(old_errs).push(
                                    (gp, msg_one_of()),
                                ));
                                assert(errs_of(errors@) =~= errs_of(old(errors)@) + o4->Ok_0);
                            }
                        } else {
                            proof {
                                assert(o4 == Ok::<SpecErrs, SpecHard>(Seq::empty()));
                                assert(errs_of(errors@) =~= errs_of(old(errors)@) + o4->Ok_0);
                            }
                        }
                    },
                }
            },
            _ => {
                proof {
                    assert(errs_of(errors@) =~= errs_of(old(errors)@) + o4->Ok_0);
                }
            },
        },
        None => {
            proof {
                assert(errs_of(errors@) =~= errs_of(old(errors)@) + o4->Ok_0);
            }
        },
    }
    let ghost es4 = o4->Ok_0;
    // not
    let ghost o5 = not_part(gf, gi, gr, gp, gd);
    match obj_get_exec(fields, "not") {
        Some(sub) => {
            let mut buf: Vec<StructuralError> = Vec::new();
            match eval_node(sub, inst, root, path, &mut buf, depth - 1) {
                Err(h) => {
                    return Err(h);
                },
                Ok(()) => {
                    proof {
                        let o = eval(sub@, gi, gr, gp, (gd - 1) as nat);
                        assert(errs_of(buf@).len() == buf@.len());
                        assert(errs_of(buf@) == Seq::<(Seq<char>, Seq<char>)>::empty() + o->Ok_0);
                        assert(Seq::<(Seq<char>, Seq<char>)>::empty() + o->Ok_0 =~= o->Ok_0);
                    }
                    if buf.len() == 0 {
                        let ghost old_errs = errors@;
                        errors.push(StructuralError::new(path.dup(), m_not()));
                        proof {
                            assert(o5 == Ok::<SpecErrs, SpecHard>(seq![(gp, msg_not())]));
                            assert(errs_of(errors@) =~= errs_of(old_errs).push((gp, msg_not())));
                            assert(errs_of(errors@) =~= errs_of(old(errors)@) + (es4 + o5->Ok_0));
                        }
                    } else {
                        proof {
                            assert(o5 == Ok::<SpecErrs, SpecHard>(Seq::empty()));
                            assert(errs_of(errors@) =~= errs_of(old(errors)@) + (es4 + o5->Ok_0));
                        }
                    }
                },
            }
        },
        None => {
            proof {
                assert(errs_of(errors@) =~= errs_of(old(errors)@) + (es4 + o5->Ok_0));
            }
        },
    }
    let ghost es5 = o5->Ok_0;
    // if / then / else
    let ghost o6 = if_then_else_part(gf, gi, gr, gp, gd);
    match obj_get_exec(fields, "if") {
        Some(ifs) => {
            let mut buf: Vec<StructuralError> = Vec::new();
            match eval_node(ifs, inst, root, path, &mut buf, depth - 1) {
                Err(h) => {
                    return Err(h);
                },
                Ok(()) => {
                    proof {
                        let o = eval(ifs@, gi, gr, gp, (gd - 1) as nat);
                        assert(errs_of(buf@).len() == buf@.len());
                        assert(errs_of(buf@) == Seq::<(Seq<char>, Seq<char>)>::empty() + o->Ok_0);
                        assert(Seq::<(Seq<char>, Seq<char>)>::empty() + o->Ok_0 =~= o->Ok_0);
                    }
                    if buf.len() == 0 {
                        match obj_get_exec(fields, "then") {
                            Some(t) => {
                                match eval_node(t, inst, root, path, errors, depth - 1) {
                                    Err(h) => {
                                        return Err(h);
                                    },
                                    Ok(()) => {
                                        proof {
                                            assert(o6 == eval(t@, gi, gr, gp, (gd - 1) as nat));
                                            assert(errs_of(errors@) =~= errs_of(old(errors)@) + ((
                                            es4 + es5) + o6->Ok_0));
                                        }
                                    },
                                }
                            },
                            None => {
                                proof {
                                    assert(o6 == Ok::<SpecErrs, SpecHard>(Seq::empty()));
                                    assert(errs_of(errors@) =~= errs_of(old(errors)@) + ((es4
                                        + es5) + o6->Ok_0));
                                }
                            },
                        }
                    } else {
                        match obj_get_exec(fields, "else") {
                            Some(e) => {
                                match eval_node(e, inst, root, path, errors, depth - 1) {
                                    Err(h) => {
                                        return Err(h);
                                    },
                                    Ok(()) => {
                                        proof {
                                            assert(o6 == eval(e@, gi, gr, gp, (gd - 1) as nat));
                                            assert(errs_of(errors@) =~= errs_of(old(errors)@) + ((
                                            es4 + es5) + o6->Ok_0));
                                        }
                                    },
                                }
                            },
                            None => {
                                proof {
                                    assert(o6 == Ok::<SpecErrs, SpecHard>(Seq::empty()));
                                    assert(errs_of(errors@) =~= errs_of(old(errors)@) + ((es4
                                        + es5) + o6->Ok_0));
                                }
                            },
                        }
                    }
                },
            }
        },
        None => {
            proof {
                assert(o6 == Ok::<SpecErrs, SpecHard>(Seq::empty()));
                assert(errs_of(errors@) =~= errs_of(old(errors)@) + ((es4 + es5) + o6->Ok_0));
            }
        },
    }
    let ghost es6 = o6->Ok_0;
    proof {
        assert(pre_b_parts(gf, gi, gr, gp, gd) == Ok::<SpecErrs, SpecHard>(es4 + (es5 + es6)));
        assert(es4 + (es5 + es6) =~= (es4 + es5) + es6);
    }
    Ok(())
}

/// The combinator and reference keywords of one object schema node, in
/// order, appending their diagnostics.
fn eval_pre(
    fields: &Vec<(String, Value)>,
    inst: &Value,
    root: &Value,
    path: &JsonPointer,
    errors: &mut Vec<StructuralError>,
    depth: u32,
) -> (res: Result<(), HardError>)
    requires
        depth >= 1,
    ensures
        match pre_parts(crate::value::view_fields(fields@), inst@, root@, path@, depth as nat) {
            Ok(es) => res is Ok && errs_of(final(errors)@) == errs_of(old(errors)@) + es,
            Err(h) => res is Err && res->Err_0@ == h,
        },
    decreases depth, 3int,
{
    broadcast use crate::value::group_value_views;

    let ghost gf = crate::value::view_fields(fields@);
    let ghost gi = inst@;
    let ghost gr = root@;
    let ghost gp = path@;
    let ghost gd = depth as nat;
    proof {
        crate::semantics::lemma_pre_split(gf, gi, gr, gp, gd);
    }
    let ghost oa = pre_a_parts(gf, gi, gr, gp, gd);
    match eval_pre_a(fields, inst, root, path, errors, depth) {
        Err(h) => {
            return Err(h);
        },
        Ok(()) => {},
    }
    let ghost ob = pre_b_parts(gf, gi, gr, gp, gd);
    match eval_pre_b(fields, inst, root, path, errors, depth) {
        Err(h) => {
            return Err(h);
        },
        Ok(()) => {},
    }
    proof {
        assert(pre_parts(gf, gi, gr, gp, gd) == Ok::<SpecErrs, SpecHard>(oa->Ok_0 + ob->Ok_0));
    }
    Ok(())
}

/// The value keywords of one object schema node, in order, appending their
/// diagnostics.
#[verifier::rlimit(100)]
fn eval_post(
    fields: &Vec<(String, Value)>,
    inst: &Value,
    root: &Value,
    path: &JsonPointer,
    errors: &mut Vec<StructuralError>,
    depth: u32,
) -> (res: Result<(), HardError>)
    requires
        depth >= 1,
    ensures
        match post_parts(crate::value::view_fields(fields@), inst@, root@, path@, depth as nat) {
            Ok(es) => res is Ok && errs_of(final(errors)@) == errs_of(old(errors)@) + es,
            Err(h) => res is Err && res->Err_0@ == h,
        },
    decreases depth, 3int,
{
    broadcast use crate::value::group_value_views;

    let ghost gf = crate::value::view_fields(fields@);
    let ghost gi = inst@;
    let ghost gr = root@;
    let ghost gp = path@;
    let ghost gd = depth as nat;
    // const
    let ghost e7 = const_part(gf, gi, gp);
    match obj_get_exec(fields, "const") {
        Some(c) => {
            if !value_eq(inst, c) {
                let ghost old_errs = errors@;
                errors.push(StructuralError::new(path.dup(), m_const(c)));
                proof {
                    assert(e7 == seq![(gp, msg_const(c@))]);
                    assert(errs_of(errors@) =~= errs_of(old_errs).push((gp, msg_const(c@))));
                    assert(errs_of(errors@) =~= errs_of(old(errors)@) + e7);
                }
            } else {
                proof {
                    assert(errs_of(errors@) =~= errs_of(old(errors)@) + e7);
                }
            }
        },
        None => {
            proof {
                assert(errs_of(errors@) =~= errs_of(old(errors)@) + e7);
            }
        },
    }
    // enum
    let ghost e8 = enum_part(gf, gi, gp);
    match obj_get_exec(fields, "enum") {
        Some(ev) => match ev {
            Value::Arr(vals) => {
                let ghost gvals = crate::value::view_list(vals@);
                let n = vals.len();
                let mut k: usize = 0;
                let mut found = false;
                while k < n && !found
                    invariant
                        k <= n,
                        n == vals@.len(),
                        gvals == crate::value::view_list(vals@),
                        gi == inst@,
                        found ==> contains_val_from(gvals, 0, gi),
                        !found ==> contains_val_from(gvals, 0, gi) == contains_val_from(
                            gvals,
                            k as int,
                            gi,
                        ),
                    decreases n - k, (if found { 0int } else { 1int }),
                {
                    proof {
                        lemma_view_list_index(vals@, k as int);
                        lemma_view_list_len(vals@);
                    }
                    if value_eq(&vals[k], inst) {
                        found = true;
                        proof {
                            assert(contains_val_from(gvals, k as int, gi));
                        }
                    } else {
                        k = k + 1;
                    }
                }
                proof {
                    lemma_view_list_len(vals@);
                    assert(found == contains_val_from(gvals, 0, gi));
                }
                if !found {
                    let ghost old_errs = errors@;
                    errors.push(StructuralError::new(path.dup(), m_enum()));
                    proof {
                        assert(e8 == seq![(gp, msg_enum())]);
                        assert(errs_of(errors@) =~= errs_of(old_errs).push((gp, msg_enum())));
                        assert(errs_of(errors@) =~= errs_of(old(errors)@) + (e7 + e8));
                    }
                } else {
                    proof {
                        assert(errs_of(errors@) =~= errs_of(old(errors)@) + (e7 + e8));
                    }
                }
            },
            _ => {
                proof {
                    assert(errs_of(errors@) =~= errs_of(old(errors)@) + (e7 + e8));
                }
            },
        },
        None => {
            proof {
                assert(errs_of(errors@) =~= errs_of(old(errors)@) + (e7 + e8));
            }
        },
    }
    // string keywords
    let ghost o9 = string_part(gf, gi, gp);
    match do_string(fields, inst, path, errors) {
        Err(h) => {
            return Err(h);
        },
        Ok(()) => {},
    }
    let ghost es9 = o9->Ok_0;
    proof {
        assert(o9 is Ok);
        assert(errs_of(errors@) =~= errs_of(old(errors)@) + ((e7 + e8) + es9));
    }
    // object keywords
    let ghost o10 = object_part(gf, gi, gr, gp, gd);
    match do_object(fields, inst, root, path, errors, depth) {
        Err(h) => {
            return Err(h);
        },
        Ok(()) => {},
    }
    let ghost es10 = o10->Ok_0;
    proof {
        assert(o10 is Ok);
        assert(errs_of(errors@) =~= errs_of(old(errors)@) + (((e7 + e8) + es9) + es10));
    }
    // array keywords
    let ghost o11 = array_part(gf, gi, gr, gp, gd);
    match do_array(fields, inst, root, path, errors, depth) {
        Err(h) => {
            return Err(h);
        },
        Ok(()) => {},
    }
    let ghost es11 = o11->Ok_0;
    proof {
        assert(o11 is Ok);
        assert(errs_of(errors@) =~= errs_of(old(errors)@) + ((((e7 + e8) + es9) + es10) + es11));
        assert(post_parts(gf, gi, gr, gp, gd) == Ok::<SpecErrs, SpecHard>(
            (e7 + e8) + (es9 + (es10 + es11)),
        ));
        assert((e7 + e8) + (es9 + (es10 + es11)) =~= (((e7 + e8) + es9) + es10) + es11);
    }
    Ok(())
}

/// Applies one schema node to an instance value at a location, appending the
/// diagnostics that `semantics::eval` specifies, or returning its hard error.
fn eval_node(
    schema: &Value,
    inst: &Value,
    root: &Value,
    path: &JsonPointer,
    errors: &mut Vec<StructuralError>,
    depth: u32,
) -> (res: Result<(), HardError>)
    ensures
        match eval(schema@, inst@, root@, path@, depth as nat) {
            Ok(es) => res is Ok && errs_of(final(errors)@) == errs_of(old(errors)@) + es,
            Err(h) => res is Err && res->Err_0@ == h,
        },
    decreases depth, 4int,
{
    broadcast use crate::value::group_value_views;

    let ghost gi = inst@;
    let ghost gr = root@;
    let ghost gp = path@;
    let ghost gd = depth as nat;
    if depth == 0 {
        return Err(HardError::DepthExceeded);
    }
    match schema {
        Value::Bool(b) => {
            if *b {
                proof {
                    assert(errs_of(errors@) =~= errs_of(old(errors)@)
                        + Seq::<(Seq<char>, Seq<char>)>::empty());
                }
                Ok(())
            } else {
                let ghost old_errs = errors@;
                errors.push(StructuralError::new(path.dup(), m_false()));
                proof {
                    assert(errs_of(errors@) =~= errs_of(old_errs).push((gp, msg_false())));
                    assert(errs_of(errors@) =~= errs_of(old(errors)@) + seq![(gp, msg_false())]);
                }
                Ok(())
            }
        },
        Value::Obj(fields) => {
            let ghost gf = crate::value::view_fields(fields@);
            let ghost o_pre = pre_parts(gf, gi, gr, gp, gd);
            match eval_pre(fields, inst, root, path, errors, depth) {
                Err(h) => {
                    return Err(h);
                },
                Ok(()) => {},
            }
            let ghost e1 = o_pre->Ok_0;
            // type: on mismatch, stop here.
            let mut type_failed = false;
            match obj_get_exec(fields, "type") {
                Some(t) => {
                    if !type_matches_exec(t, inst) {
                        type_failed = true;
                        let ghost old_errs = errors@;
                        errors.push(StructuralError::new(path.dup(), m_type(t, inst)));
                        proof {
                            assert(type_error(gf, gi, gp) == Some((gp, msg_type(t@, gi))));
                            assert(errs_of(errors@) =~= errs_of(old_errs).push(
                                (gp, msg_type(t@, gi)),
                            ));
                            assert(errs_of(errors@) =~= errs_of(old(errors)@) + e1.push(
                                (gp, msg_type(t@, gi)),
                            ));
                        }
                    }
                },
                None => {},
            }
            if type_failed {
                return Ok(());
            }
            proof {
                assert(type_error(gf, gi, gp) is None);
            }
            let ghost o_post = post_parts(gf, gi, gr, gp, gd);
            match eval_post(fields, inst, root, path, errors, depth) {
                Err(h) => {
                    return Err(h);
                },
                Ok(()) => {},
            }
            let ghost e2 = o_post->Ok_0;
            proof {
                assert(errs_of(errors@) =~= errs_of(old(errors)@) + (e1 + e2));
                assert(eval(schema@, gi, gr, gp, gd) == Ok::<SpecErrs, SpecHard>(e1 + e2));
            }
            Ok(())
        },
        _ => {
            proof {
                assert(errs_of(errors@) =~= errs_of(old(errors)@)
                    + Seq::<(Seq<char>, Seq<char>)>::empty());
            }
            Ok(())
        },
    }
}

/// Validates an instance against a schema, with a caller-chosen recursion
/// bound: the ordered diagnostics (empty exactly when the instance is
/// valid), or the hard error that means the schema itself is broken.
pub fn validate_instance_with_depth(root: &Value, instance: &Value, max_depth: u32) -> (r: Result<
    Vec<String>,
    HardError,
>)
    ensures
        match eval(root@, instance@, root@, Seq::<char>::empty(), max_depth as nat) {
            Ok(es) => r is Ok && r->Ok_0@.map_values(|s: String| s@) == es.map_values(
                |e: (Seq<char>, Seq<char>)| crate::errors::render_err(e),
            ),
            Err(h) => r is Err && r->Err_0@ == h,
        },
{
    let mut errors: Vec<StructuralError> = Vec::new();
    let ptr = JsonPointer::root();
    match eval_node(root, instance, root, &ptr, &mut errors, max_depth) {
        Err(h) => Err(h),
        Ok(()) => {
            let ghost ges = eval(
                root@,
                instance@,
                root@,
                Seq::<char>::empty(),
                max_depth as nat,
            )->Ok_0;
            proof {
                assert(errs_of(errors@) == Seq::<(Seq<char>, Seq<char>)>::empty() + ges);
                assert(Seq::<(Seq<char>, Seq<char>)>::empty() + ges =~= ges);
            }
            let n = errors.len();
            let mut out: Vec<String> = Vec::new();
            let mut i: usize = 0;
            while i < n
                invariant
                    i <= n,
                    n == errors@.len(),
                    errs_of(errors@) == ges,
                    out@.len() == i,
                    forall|j: int|
                        0 <= j < i ==> out@[j]@ == crate::errors::render_err(
                            #[trigger] errs_of(errors@)[j],
                        ),
                decreases n - i,
            {
                let line = errors[i].render();
                out.push(line);
                i = i + 1;
            }
            proof {
                assert(out@.map_values(|s: String| s@) =~= ges.map_values(
                    |e: (Seq<char>, Seq<char>)| crate::errors::render_err(e),
                ));
            }
            Ok(out)
        },
    }
}

/// Validates an instance against a schema with the default recursion bound.
pub fn validate_instance(root: &Value, instance: &Value) -> (r: Result<Vec<String>, HardError>)
    ensures
        match eval(root@, instance@, root@, Seq::<char>::empty(), DEFAULT_MAX_DEPTH as nat) {
            Ok(es) => r is Ok && r->Ok_0@.map_values(|s: String| s@) == es.map_values(
                |e: (Seq<char>, Seq<char>)| crate::errors::render_err(e),
            ),
            Err(h) => r is Err && r->Err_0@ == h,
        },
{
    validate_instance_with_depth(root, instance, DEFAULT_MAX_DEPTH)
}

} // verus!
