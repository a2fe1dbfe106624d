//! The tree-shaped value model: messages, schema documents and field values
//! are all trees of null / boolean / number / string / array / object nodes.

use vstd::prelude::*;

verus! {

broadcast use vstd::std_specs::vec::group_vec_axioms, vstd::seq::group_seq_axioms;

/// A structured value: the tree shape that messages and schema documents
/// share. Numbers appear in two forms: `Int` holds a signed integer read
/// from an integer literal, `Num` holds an IEEE-754 double as its 64-bit
/// pattern, so that the codec's byte-level rules stay exact.
#[derive(Debug, PartialEq)]
pub enum JsonVal {
    Null,
    Bool(bool),
    Int(i64),
    Num(u64),
    Str(String),
    Arr(Vec<JsonVal>),
    Obj(Vec<(String, JsonVal)>),
}

/// The mathematical model of a [`JsonVal`]: the same tree over `Seq` and
/// unbounded integers. Object entries keep their order; a lookup takes the
/// first entry with the given key.
#[verifier::ext_equal]
pub enum ValView {
    Null,
    Bool(bool),
    Int(int),
    Num(u64),
    Str(Seq<char>),
    Arr(Seq<ValView>),
    Obj(Seq<(Seq<char>, ValView)>),
}

impl View for JsonVal {
    type V = ValView;

    open spec fn view(&self) -> ValView {
        val_view(*self)
    }
}

/// The model of a value: [`JsonVal`] mapped into [`ValView`], node by node.
pub open spec fn val_view(v: JsonVal) -> ValView
    decreases v,
{
    {
        match v {
            JsonVal::Null => ValView::Null,
            JsonVal::Bool(b) => ValView::Bool(b),
            JsonVal::Int(i) => ValView::Int(i as int),
            JsonVal::Num(n) => ValView::Num(n),
            JsonVal::Str(s) => ValView::Str(s@),
            JsonVal::Arr(items) => ValView::Arr(
                Seq::new(
                    items@.len(),
                    |i: int|
                        if 0 <= i < items@.len() {
                            val_view(items@[i])
                        } else {
                            ValView::Null
                        },
                ),
            ),
            JsonVal::Obj(entries) => ValView::Obj(
                Seq::new(
                    entries@.len(),
                    |i: int|
                        if 0 <= i < entries@.len() {
                            (entries@[i].0@, val_view(entries@[i].1))
                        } else {
                            (Seq::empty(), ValView::Null)
                        },
                ),
            ),
        }
    }
}

/// First entry of `entries` whose key is `key`, if any.
pub open spec fn obj_get(entries: Seq<(Seq<char>, ValView)>, key: Seq<char>) -> Option<ValView>
    decreases entries.len(),
{
    if entries.len() == 0 {
        None
    } else if entries[0].0 == key {
        Some(entries[0].1)
    } else {
        obj_get(entries.drop_first(), key)
    }
}

/// A successful lookup returns the value of some entry.
pub proof fn lemma_obj_get_witness(entries: Seq<(Seq<char>, ValView)>, key: Seq<char>)
    requires
        obj_get(entries, key) is Some,
    ensures
        exists|j: int| 0 <= j < entries.len() && entries[j].1 == obj_get(entries, key)->Some_0,
    decreases entries.len(),
{
    if entries.len() == 0 {
    } else if entries[0].0 == key {
        assert(entries[0].1 == obj_get(entries, key)->Some_0);
    } else {
        lemma_obj_get_witness(entries.drop_first(), key);
        let j = choose|j: int|
            0 <= j < entries.drop_first().len() && entries.drop_first()[j].1 == obj_get(
                entries.drop_first(),
                key,
            )->Some_0;
        assert(entries[j + 1].1 == obj_get(entries, key)->Some_0);
    }
}

/// Looks `key` up among object entries, returning the first match.
pub fn get_entry<'a>(entries: &'a Vec<(String, JsonVal)>, key: &String) -> (r: Option<
    &'a JsonVal,
>)
    ensures
        match r {
            Some(v) => obj_get(entries_view(entries), key@) == Some(v@) && exists|j: int|
                0 <= j < entries@.len() && entries@[j].1 == *v,
            None => obj_get(entries_view(entries), key@) is None,
        },
{
    let n = entries.len();
    let mut i: usize = 0;
    proof {
        assert(entries_view(entries).skip(0) =~= entries_view(entries));
    }
    while i < n
        invariant
            0 <= i <= n,
            n == entries.len(),
            obj_get(entries_view(entries), key@) == obj_get(
                entries_view(entries).skip(i as int),
                key@,
            ),
        decreases n - i,
    {
        if entries[i].0 == *key {
            proof {
                assert(entries_view(entries).skip(i as int)[0] == (
                    entries@[i as int].0@,
                    entries@[i as int].1@,
                ));
            }
            return Some(&entries[i].1);
        }
        proof {
            assert(entries_view(entries).skip(i as int).drop_first() =~= entries_view(
                entries,
            ).skip(i as int + 1));
            assert(entries_view(entries).skip(i as int)[0] == (
                entries@[i as int].0@,
                entries@[i as int].1@,
            ));
        }
        i = i + 1;
    }
    proof {
        assert(entries_view(entries).skip(n as int) =~= Seq::<(Seq<char>, ValView)>::empty());
    }
    None
}

/// View of a vector of object entries, as used by [`ValView::Obj`].
pub open spec fn entries_view(entries: &Vec<(String, JsonVal)>) -> Seq<(Seq<char>, ValView)> {
    Seq::new(entries@.len(), |i: int| (entries@[i].0@, entries@[i].1@))
}

/// View of a sequence of object entries, as used by [`ValView::Obj`] and by
/// the leaf documents of a compiled schema.
pub open spec fn doc_view(entries: Seq<(String, JsonVal)>) -> Seq<(Seq<char>, ValView)> {
    Seq::new(entries.len(), |i: int| (entries[i].0@, val_view(entries[i].1)))
}

/// View of a vector of values, as used by [`ValView::Arr`].
pub open spec fn items_view(items: &Vec<JsonVal>) -> Seq<ValView> {
    Seq::new(items@.len(), |i: int| items@[i]@)
}

/// Key lookup on an arbitrary value: `None` unless the value is an object
/// holding the key.
pub open spec fn val_get(v: ValView, key: Seq<char>) -> Option<ValView> {
    match v {
        ValView::Obj(entries) => obj_get(entries, key),
        _ => None,
    }
}

/// Looks `key` up in `v`, returning the first matching entry of an object
/// and `None` for every other shape of value.
pub fn get_key<'a>(v: &'a JsonVal, key: &String) -> (r: Option<&'a JsonVal>)
    ensures
        match r {
            Some(x) => val_get(v@, key@) == Some(x@),
            None => val_get(v@, key@) is None,
        },
{
    match v {
        JsonVal::Obj(entries) => {
            proof {
                assert(v@ matches ValView::Obj(s) && s =~= entries_view(entries));
            }
            get_entry(entries, key)
        },
        _ => None,
    }
}

/// Structural equality of two values, decided by walking both trees.
pub fn eq_val(a: &JsonVal, b: &JsonVal) -> (r: bool)
    ensures
        r == (a@ == b@),
    decreases a,
{
    match a {
        JsonVal::Null => match b {
            JsonVal::Null => true,
            _ => false,
        },
        JsonVal::Bool(x) => match b {
            JsonVal::Bool(y) => x == y,
            _ => false,
        },
        JsonVal::Int(x) => match b {
            JsonVal::Int(y) => x == y,
            _ => false,
        },
        JsonVal::Num(x) => match b {
            JsonVal::Num(y) => x == y,
            _ => false,
        },
        JsonVal::Str(x) => match b {
            JsonVal::Str(y) => *x == *y,
            _ => false,
        },
        JsonVal::Arr(xs) => match b {
            JsonVal::Arr(ys) => {
            let ghost sa = a@->Arr_0;
            let ghost sb = b@->Arr_0;
            if xs.len() != ys.len() {
                proof {
                    assert(sa.len() == xs@.len() && sb.len() == ys@.len());
                }
                return false;
            }
            let n = xs.len();
            let mut i: usize = 0;
            while i < n
                invariant
                    0 <= i <= n,
                    n == xs.len() == ys.len(),
                    *a == JsonVal::Arr(*xs) && *b == JsonVal::Arr(*ys),
                    a@ matches ValView::Arr(s) && s == sa,
                    b@ matches ValView::Arr(s) && s == sb,
                    sa.len() == n && sb.len() == n,
                    forall|j: int| 0 <= j < i ==> sa[j] == sb[j],
                decreases n - i,
            {
                if !eq_val(&xs[i], &ys[i]) {
                    proof {
                        assert(sa[i as int] == xs@[i as int]@);
                        assert(sb[i as int] == ys@[i as int]@);
                    }
                    return false;
                }
                i = i + 1;
            }
            proof {
                assert(sa =~= sb);
            }
            true
            },
            _ => false,
        },
        JsonVal::Obj(xs) => match b {
            JsonVal::Obj(ys) => {
            let ghost sa = a@->Obj_0;
            let ghost sb = b@->Obj_0;
            if xs.len() != ys.len() {
                proof {
                    assert(sa.len() == xs@.len() && sb.len() == ys@.len());
                }
                return false;
            }
            let n = xs.len();
            let mut i: usize = 0;
            while i < n
                invariant
                    0 <= i <= n,
                    n == xs.len() == ys.len(),
                    *a == JsonVal::Obj(*xs) && *b == JsonVal::Obj(*ys),
                    a@ matches ValView::Obj(s) && s == sa,
                    b@ matches ValView::Obj(s) && s == sb,
                    sa.len() == n && sb.len() == n,
                    forall|j: int| 0 <= j < i ==> sa[j] == sb[j],
                decreases n - i,
            {
                proof {
                    assert(sa[i as int] == (xs@[i as int].0@, xs@[i as int].1@));
                    assert(sb[i as int] == (ys@[i as int].0@, ys@[i as int].1@));
                }
                if !(xs[i].0 == ys[i].0) {
                    return false;
                }
                if !eq_val(&xs[i].1, &ys[i].1) {
                    return false;
                }
                i = i + 1;
            }
            proof {
                assert(sa =~= sb);
            }
            true
            },
            _ => false,
        },
    }
}

/// A deep copy of a value, equal to the original in the model.
pub fn clone_val(v: &JsonVal) -> (r: JsonVal)
    ensures
        r@ == v@,
    decreases v,
{
    match v {
        JsonVal::Null => JsonVal::Null,
        JsonVal::Bool(b) => JsonVal::Bool(*b),
        JsonVal::Int(i) => JsonVal::Int(*i),
        JsonVal::Num(n) => JsonVal::Num(*n),
        JsonVal::Str(s) => JsonVal::Str(s.clone()),
        JsonVal::Arr(items) => {
            let n = items.len();
            let mut out: Vec<JsonVal> = Vec::new();
            let mut i: usize = 0;
            while i < n
                invariant
                    0 <= i <= n,
                    n == items.len(),
                    v matches JsonVal::Arr(its) && its == items,
                    out@.len() == i,
                    forall|j: int| 0 <= j < i ==> out@[j]@ == items@[j]@,
                decreases n - i,
            {
                out.push(clone_val(&items[i]));
                i = i + 1;
            }
            let r = JsonVal::Arr(out);
            proof {
                assert(r@ matches ValView::Arr(s) && v@ matches ValView::Arr(t) && s =~= t);
            }
            r
        },
        JsonVal::Obj(entries) => {
            let out = clone_entries(entries);
            let r = JsonVal::Obj(out);
            proof {
                assert(r@ matches ValView::Obj(s) && v@ matches ValView::Obj(t) && s =~= t);
            }
            r
        },
    }
}

/// A deep copy of object entries, entry by entry.
pub fn clone_entries(entries: &Vec<(String, JsonVal)>) -> (r: Vec<(String, JsonVal)>)
    ensures
        r@.len() == entries@.len(),
        forall|j: int|
            0 <= j < entries@.len() ==> r@[j].0@ == entries@[j].0@ && r@[j].1@ == entries@[j].1@,
    decreases *entries,
{
    let n = entries.len();
    let mut out: Vec<(String, JsonVal)> = Vec::new();
    let mut i: usize = 0;
    while i < n
        invariant
            0 <= i <= n,
            n == entries.len(),
            out@.len() == i,
            forall|j: int|
                0 <= j < i ==> out@[j].0@ == entries@[j].0@ && out@[j].1@ == entries@[j].1@,
        decreases n - i,
    {
        let key = entries[i].0.clone();
        let val = clone_val(&entries[i].1);
        out.push((key, val));
        i = i + 1;
    }
    out
}

} // verus!
