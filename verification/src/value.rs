//! The generic document tree: a JSON-like tagged union used both for schema
//! nodes and for instance data.
use vstd::prelude::*;

use crate::strutil::lex_lt;

verus! {

broadcast use vstd::std_specs::vec::axiom_vec_index_decreases, vstd::seq::axiom_seq_index_decreases, vstd::std_specs::vec::axiom_vec_decreases_to_view, vstd::seq::axiom_seq_subrange_decreases;

/// Mathematical model of a document tree node.
pub enum SpecVal {
    Null,
    Bool(bool),
    /// A number with no fractional component.
    Int(int),
    /// A number with a fractional component, kept as its decimal rendering.
    Dec(Seq<char>),
    Str(Seq<char>),
    Arr(Seq<SpecVal>),
    /// An object: ordered key/value pairs; well-formed objects keep their
    /// keys strictly sorted, which makes them unique.
    Obj(Seq<(Seq<char>, SpecVal)>),
}

/// Executable document tree node. Object entries are kept sorted by key
/// (see [`SpecVal::wf`]); producers are expected to insert keys in
/// lexicographic order.
pub enum Value {
    Null,
    Bool(bool),
    /// A number with no fractional component. The range of `i128` covers
    /// both `i64` and `u64` document numbers.
    Int(i128),
    /// A number with a fractional component, kept as its decimal rendering.
    Dec(String),
    Str(String),
    Arr(Vec<Value>),
    Obj(Vec<(String, Value)>),
}

/// Model of a sequence of tree nodes, elementwise.
pub open spec fn view_list(items: Seq<Value>) -> Seq<SpecVal>
    decreases items,
{
    if items.len() == 0 {
        Seq::empty()
    } else {
        seq![items[0]@] + view_list(items.subrange(1, items.len() as int))
    }
}

/// Model of a sequence of object entries, elementwise.
pub open spec fn view_fields(fields: Seq<(String, Value)>) -> Seq<(Seq<char>, SpecVal)>
    decreases fields,
{
    if fields.len() == 0 {
        Seq::empty()
    } else {
        seq![(fields[0].0@, fields[0].1@)] + view_fields(fields.subrange(1, fields.len() as int))
    }
}

impl View for Value {
    type V = SpecVal;

    open spec fn view(&self) -> SpecVal
        decreases self,
    {
        match self {
            Value::Null => SpecVal::Null,
            Value::Bool(b) => SpecVal::Bool(*b),
            Value::Int(n) => SpecVal::Int(*n as int),
            Value::Dec(s) => SpecVal::Dec(s@),
            Value::Str(s) => SpecVal::Str(s@),
            Value::Arr(items) => SpecVal::Arr(view_list(items@)),
            Value::Obj(fields) => SpecVal::Obj(view_fields(fields@)),
        }
    }
}

pub broadcast proof fn lemma_view_list_len(items: Seq<Value>)
    ensures
        #[trigger] view_list(items).len() == items.len(),
    decreases items,
{
    if items.len() == 0 {
        assert(view_list(items) == Seq::<SpecVal>::empty());
    } else {
        let rest = items.subrange(1, items.len() as int);
        lemma_view_list_len(rest);
        assert(view_list(items) == seq![items[0]@] + view_list(rest));
    }
}

pub broadcast proof fn lemma_view_list_index(items: Seq<Value>, i: int)
    requires
        0 <= i < items.len(),
    ensures
        #[trigger] view_list(items)[i] == items[i]@,
    decreases items,
{
    let rest = items.subrange(1, items.len() as int);
    lemma_view_list_len(rest);
    assert(view_list(items) == seq![items[0]@] + view_list(rest));
    if i > 0 {
        lemma_view_list_index(rest, i - 1);
        assert(rest[i - 1] == items[i]);
    }
}

pub broadcast proof fn lemma_view_fields_len(fields: Seq<(String, Value)>)
    ensures
        #[trigger] view_fields(fields).len() == fields.len(),
    decreases fields,
{
    if fields.len() == 0 {
        assert(view_fields(fields) == Seq::<(Seq<char>, SpecVal)>::empty());
    } else {
        let rest = fields.subrange(1, fields.len() as int);
        lemma_view_fields_len(rest);
        assert(view_fields(fields) == seq![(fields[0].0@, fields[0].1@)] + view_fields(rest));
    }
}

pub broadcast proof fn lemma_view_fields_index(fields: Seq<(String, Value)>, i: int)
    requires
        0 <= i < fields.len(),
    ensures
        #[trigger] view_fields(fields)[i] == (fields[i].0@, fields[i].1@),
    decreases fields,
{
    let rest = fields.subrange(1, fields.len() as int);
    lemma_view_fields_len(rest);
    assert(view_fields(fields) == seq![(fields[0].0@, fields[0].1@)] + view_fields(rest));
    if i > 0 {
        lemma_view_fields_index(rest, i - 1);
        assert(rest[i - 1] == fields[i]);
    }
}

pub broadcast group group_value_views {
    lemma_view_list_len,
    lemma_view_list_index,
    lemma_view_fields_len,
    lemma_view_fields_index,
}

/// All elements from index `i` on are well formed.
pub open spec fn wf_list_from(items: Seq<SpecVal>, i: int) -> bool
    decreases items, items.len() - i,
{
    if i < 0 {
        wf_list_from(items, 0)
    } else if i >= items.len() {
        true
    } else {
        items[i].wf() && wf_list_from(items, i + 1)
    }
}

/// All entry values from index `i` on are well formed, and adjacent keys
/// from index `i` on are strictly sorted.
pub open spec fn wf_fields_from(fields: Seq<(Seq<char>, SpecVal)>, i: int) -> bool
    decreases fields, fields.len() - i,
{
    if i < 0 {
        wf_fields_from(fields, 0)
    } else if i >= fields.len() {
        true
    } else {
        fields[i].1.wf() && (i + 1 < fields.len() ==> lex_lt(fields[i].0, fields[i + 1].0))
            && wf_fields_from(fields, i + 1)
    }
}

impl SpecVal {
    /// Well-formedness: every object in the tree keeps its keys strictly
    /// sorted (hence unique).
    pub open spec fn wf(self) -> bool
        decreases self, 0int,
    {
        match self {
            SpecVal::Arr(items) => wf_list_from(items, 0),
            SpecVal::Obj(fields) => wf_fields_from(fields, 0),
            _ => true,
        }
    }
}

/// `wf_list_from` holds exactly when every element from `i` on is well formed.
pub proof fn lemma_wf_list_from_iff(items: Seq<SpecVal>, i: int)
    requires
        0 <= i,
    ensures
        wf_list_from(items, i) <==> (forall|j: int| i <= j < items.len() ==> #[trigger] items[j].wf()),
    decreases items.len() - i,
{
    if i < items.len() {
        lemma_wf_list_from_iff(items, i + 1);
        if wf_list_from(items, i) {
            assert forall|j: int| i <= j < items.len() implies #[trigger] items[j].wf() by {
                if j != i {
                    assert(items[j].wf());
                }
            }
        }
        if forall|j: int| i <= j < items.len() ==> #[trigger] items[j].wf() {
            assert(items[i].wf());
            assert(wf_list_from(items, i + 1));
            assert(wf_list_from(items, i));
        }
    }
}

/// `wf_fields_from` holds exactly when every entry value from `i` on is well
/// formed and adjacent keys from `i` on are strictly sorted.
pub proof fn lemma_wf_fields_from_iff(fields: Seq<(Seq<char>, SpecVal)>, i: int)
    requires
        0 <= i,
    ensures
        wf_fields_from(fields, i) <==> ((forall|j: int|
            i <= j < fields.len() ==> #[trigger] fields[j].1.wf()) && (forall|j: int|
            i <= j < fields.len() - 1 ==> lex_lt(#[trigger] fields[j].0, fields[j + 1].0))),
    decreases fields.len() - i,
{
    if i < fields.len() {
        lemma_wf_fields_from_iff(fields, i + 1);
        if wf_fields_from(fields, i) {
            assert forall|j: int| i <= j < fields.len() implies #[trigger] fields[j].1.wf() by {
                if j != i {
                    assert(fields[j].1.wf());
                }
            }
            assert forall|j: int| i <= j < fields.len() - 1 implies lex_lt(
                #[trigger] fields[j].0,
                fields[j + 1].0,
            ) by {
                if j != i {
                    assert(lex_lt(fields[j].0, fields[j + 1].0));
                }
            }
        }
        if (forall|j: int| i <= j < fields.len() ==> #[trigger] fields[j].1.wf()) && (forall|j: int|
            i <= j < fields.len() - 1 ==> lex_lt(#[trigger] fields[j].0, fields[j + 1].0)) {
            assert(fields[i].1.wf());
            assert(i + 1 < fields.len() ==> lex_lt(fields[i].0, fields[i + 1].0));
            assert(wf_fields_from(fields, i + 1));
            assert(wf_fields_from(fields, i));
        }
    }
}


/// Structural equality of two document trees, the equality used by `const`,
/// `enum` and `uniqueItems`.
pub fn value_eq(a: &Value, b: &Value) -> (r: bool)
    ensures
        r == (a@ == b@),
    decreases a,
{
    broadcast use group_value_views;

    match (a, b) {
        (Value::Null, Value::Null) => true,
        (Value::Bool(x), Value::Bool(y)) => *x == *y,
        (Value::Int(x), Value::Int(y)) => *x == *y,
        (Value::Dec(x), Value::Dec(y)) => crate::strutil::str_eq(x.as_str(), y.as_str()),
        (Value::Str(x), Value::Str(y)) => crate::strutil::str_eq(x.as_str(), y.as_str()),
        (Value::Arr(xs), Value::Arr(ys)) => {
            if xs.len() != ys.len() {
                proof {
                    assert(view_list(xs@).len() != view_list(ys@).len());
                }
                return false;
            }
            let n = xs.len();
            let mut i: usize = 0;
            while i < n
                invariant
                    *a == Value::Arr(*xs),
                    *b == Value::Arr(*ys),
                    n == xs@.len() == ys@.len(),
                    i <= n,
                    forall|j: int| 0 <= j < i ==> view_list(xs@)[j] == view_list(ys@)[j],
                decreases n - i,
            {
                proof {
                    assert(decreases_to!(*a => (*a)->Arr_0));
                    assert((*a)->Arr_0 == *xs);
                    assert(decreases_to!(*xs => xs@));
                    assert(decreases_to!(xs@ => xs@[i as int]));
                }
                if !value_eq(&xs[i], &ys[i]) {
                    proof {
                        lemma_view_list_index(xs@, i as int);
                        lemma_view_list_index(ys@, i as int);
                        assert(xs@[i as int]@ != ys@[i as int]@);
                        assert(view_list(xs@)[i as int] != view_list(ys@)[i as int]);
                        assert(view_list(xs@) != view_list(ys@));
                    }
                    return false;
                }
                proof {
                    lemma_view_list_index(xs@, i as int);
                    lemma_view_list_index(ys@, i as int);
                    assert(view_list(xs@)[i as int] == view_list(ys@)[i as int]);
                }
                i = i + 1;
            }
            proof {
                assert(view_list(xs@) =~= view_list(ys@));
            }
            true
        },
        (Value::Obj(xf), Value::Obj(yf)) => {
            if xf.len() != yf.len() {
                proof {
                    assert(view_fields(xf@).len() != view_fields(yf@).len());
                }
                return false;
            }
            let n = xf.len();
            let mut i: usize = 0;
            while i < n
                invariant
                    *a == Value::Obj(*xf),
                    *b == Value::Obj(*yf),
                    n == xf@.len() == yf@.len(),
                    i <= n,
                    forall|j: int| 0 <= j < i ==> view_fields(xf@)[j] == view_fields(yf@)[j],
                decreases n - i,
            {
                let xe = &xf[i];
                let ye = &yf[i];
                if !crate::strutil::str_eq(xe.0.as_str(), ye.0.as_str()) {
                    proof {
                        lemma_view_fields_index(xf@, i as int);
                        lemma_view_fields_index(yf@, i as int);
                        assert(view_fields(xf@)[i as int].0 != view_fields(yf@)[i as int].0);
                        assert(view_fields(xf@) != view_fields(yf@));
                    }
                    return false;
                }
                proof {
                    assert(decreases_to!(*a => (*a)->Obj_0));
                    assert((*a)->Obj_0 == *xf);
                    assert(decreases_to!(*xf => xf@));
                    assert(decreases_to!(xf@ => xf@[i as int]));
                    assert(decreases_to!(xf@[i as int] => xf@[i as int].1));
                }
                if !value_eq(&xe.1, &ye.1) {
                    proof {
                        lemma_view_fields_index(xf@, i as int);
                        lemma_view_fields_index(yf@, i as int);
                        assert(view_fields(xf@)[i as int].1 != view_fields(yf@)[i as int].1);
                        assert(view_fields(xf@) != view_fields(yf@));
                    }
                    return false;
                }
                proof {
                    lemma_view_fields_index(xf@, i as int);
                    lemma_view_fields_index(yf@, i as int);
                    assert(view_fields(xf@)[i as int] == view_fields(yf@)[i as int]);
                }
                i = i + 1;
            }
            proof {
                assert(view_fields(xf@) =~= view_fields(yf@));
            }
            true
        },
        _ => false,
    }
}

/// Reports whether a document tree is well formed: every object keeps its
/// keys strictly sorted.
pub fn is_well_formed(v: &Value) -> (r: bool)
    ensures
        r == v@.wf(),
    decreases v,
{
    broadcast use group_value_views;

    match v {
        Value::Arr(items) => {
            let n = items.len();
            let mut i: usize = 0;
            while i < n
                invariant
                    *v == Value::Arr(*items),
                    n == items@.len(),
                    i <= n,
                    forall|j: int| 0 <= j < i ==> #[trigger] view_list(items@)[j].wf(),
                decreases n - i,
            {
                proof {
                    assert(decreases_to!(*v => (*v)->Arr_0));
                    assert((*v)->Arr_0 == *items);
                    assert(decreases_to!(*items => items@));
                    assert(decreases_to!(items@ => items@[i as int]));
                }
                if !is_well_formed(&items[i]) {
                    proof {
                        lemma_view_list_index(items@, i as int);
                        lemma_view_list_len(items@);
                        assert(v@ == SpecVal::Arr(view_list(items@)));
                        assert(!view_list(items@)[i as int].wf());
                        lemma_wf_list_from_iff(view_list(items@), 0);
                        assert(!v@.wf());
                    }
                    return false;
                }
                proof {
                    lemma_view_list_index(items@, i as int);
                }
                i = i + 1;
            }
            proof {
                lemma_view_list_len(items@);
                lemma_wf_list_from_iff(view_list(items@), 0);
                assert(v@ == SpecVal::Arr(view_list(items@)));
                assert(v@.wf());
            }
            true
        },
        Value::Obj(fields) => {
            let n = fields.len();
            let mut i: usize = 0;
            while i < n
                invariant
                    *v == Value::Obj(*fields),
                    n == fields@.len(),
                    i <= n,
                    forall|j: int| 0 <= j < i ==> #[trigger] view_fields(fields@)[j].1.wf(),
                    forall|j: int|
                        0 <= j < i && j < n - 1 ==> lex_lt(
                            #[trigger] view_fields(fields@)[j].0,
                            view_fields(fields@)[j + 1].0,
                        ),
                decreases n - i,
            {
                proof {
                    assert(decreases_to!(*v => (*v)->Obj_0));
                    assert((*v)->Obj_0 == *fields);
                    assert(decreases_to!(*fields => fields@));
                    assert(decreases_to!(fields@ => fields@[i as int]));
                    assert(decreases_to!(fields@[i as int] => fields@[i as int].1));
                }
                if !is_well_formed(&fields[i].1) {
                    proof {
                        lemma_view_fields_index(fields@, i as int);
                        lemma_view_fields_len(fields@);
                        assert(v@ == SpecVal::Obj(view_fields(fields@)));
                        assert(!view_fields(fields@)[i as int].1.wf());
                        lemma_wf_fields_from_iff(view_fields(fields@), 0);
                        assert(!v@.wf());
                    }
                    return false;
                }
                proof {
                    lemma_view_fields_index(fields@, i as int);
                }
                if i + 1 < n {
                    if !crate::strutil::str_lt(fields[i].0.as_str(), fields[i + 1].0.as_str()) {
                        proof {
                            lemma_view_fields_index(fields@, i as int);
                            lemma_view_fields_index(fields@, i + 1 as int);
                            lemma_view_fields_len(fields@);
                            assert(v@ == SpecVal::Obj(view_fields(fields@)));
                            assert(!lex_lt(
                                view_fields(fields@)[i as int].0,
                                view_fields(fields@)[i + 1].0,
                            ));
                            lemma_wf_fields_from_iff(view_fields(fields@), 0);
                            assert(!v@.wf());
                        }
                        return false;
                    }
                    proof {
                        lemma_view_fields_index(fields@, i + 1 as int);
                    }
                }
                i = i + 1;
            }
            proof {
                lemma_view_fields_len(fields@);
                lemma_wf_fields_from_iff(view_fields(fields@), 0);
                assert(v@ == SpecVal::Obj(view_fields(fields@)));
                assert(v@.wf());
            }
            true
        },
        _ => true,
    }
}

} // verus!
