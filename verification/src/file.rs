//! The structured-document abstraction: an owned tree of configuration
//! values, read through path-stamped entries and mutated by replaying a
//! recorded path from the root.
use vstd::prelude::*;

use crate::GobiError;
use crate::GobiResult;
use crate::merge_spec;

pub mod toml_io;

verus! {

/// The kind of node a document entry holds.
#[derive(Clone, Copy, PartialEq, Eq, Structural, Debug)]
pub enum EntryType {
    String,
    Integer,
    Float,
    Boolean,
    Array,
    Table,
    Unknown,
}

/// One step of a path into a document tree: an array position or a table key.
#[derive(Clone, Debug)]
pub enum EntryIndex {
    Index(usize),
    Key(String),
}

/// Specification-level path step.
pub enum IndexView {
    Idx(int),
    Key(Seq<char>),
}

impl View for EntryIndex {
    type V = IndexView;

    open spec fn view(&self) -> IndexView {
        match self {
            EntryIndex::Index(i) => IndexView::Idx(*i as int),
            EntryIndex::Key(k) => IndexView::Key(k@),
        }
    }
}

/// A document tree node. Tables are association lists that keep their
/// entries in order; a float is carried as its decimal text; `Unknown`
/// carries the textual form of a node kind the tree does not model.
#[derive(Debug)]
pub enum DocValue {
    String(String),
    Integer(i64),
    Float(String),
    Boolean(bool),
    Array(Vec<DocValue>),
    Table(Vec<(String, DocValue)>),
    Unknown(String),
}

/// Specification-level document tree.
pub enum ValView {
    Str(Seq<char>),
    Int(int),
    Float(Seq<char>),
    Bool(bool),
    Arr(Seq<ValView>),
    Tbl(Seq<(Seq<char>, ValView)>),
    Unk(Seq<char>),
}

/// The abstract tree a `DocValue` stands for.
pub open spec fn view_of(v: DocValue) -> ValView
    decreases v,
{
    match v {
        DocValue::String(s) => ValView::Str(s@),
        DocValue::Integer(i) => ValView::Int(i as int),
        DocValue::Float(text) => ValView::Float(text@),
        DocValue::Boolean(b) => ValView::Bool(b),
        DocValue::Array(items) => {
            proof {
                assert(decreases_to!(v => items));
                assert(decreases_to!(items => items@));
            }
            ValView::Arr(views_of(items@))
        },
        DocValue::Table(entries) => {
            proof {
                assert(decreases_to!(v => entries));
                assert(decreases_to!(entries => entries@));
            }
            ValView::Tbl(pair_views_of(entries@))
        },
        DocValue::Unknown(s) => ValView::Unk(s@),
    }
}

/// The abstract trees of a sequence of nodes, in order.
pub open spec fn views_of(s: Seq<DocValue>) -> Seq<ValView>
    decreases s,
{
    if s.len() == 0 {
        Seq::empty()
    } else {
        seq![view_of(s[0])] + views_of(s.drop_first())
    }
}

/// The abstract key/tree pairs of a sequence of table entries, in order.
pub open spec fn pair_views_of(s: Seq<(String, DocValue)>) -> Seq<(Seq<char>, ValView)>
    decreases s,
{
    if s.len() == 0 {
        Seq::empty()
    } else {
        seq![(s[0].0@, view_of(s[0].1))] + pair_views_of(s.drop_first())
    }
}

impl View for DocValue {
    type V = ValView;

    open spec fn view(&self) -> ValView {
        view_of(*self)
    }
}

/// `views_of` maps the sequence element by element.
pub proof fn lemma_views_of(s: Seq<DocValue>)
    ensures
        views_of(s).len() == s.len(),
        forall|i: int| 0 <= i < s.len() ==> views_of(s)[i] == view_of(#[trigger] s[i]),
    decreases s.len(),
{
    if s.len() > 0 {
        lemma_views_of(s.drop_first());
        assert forall|i: int| 0 <= i < s.len() implies views_of(s)[i] == view_of(s[i]) by {
            if i > 0 {
                assert(views_of(s)[i] == views_of(s.drop_first())[i - 1]);
                assert(s.drop_first()[i - 1] == s[i]);
            }
        }
    }
}

/// `pair_views_of` maps the sequence element by element.
pub proof fn lemma_pair_views_of(s: Seq<(String, DocValue)>)
    ensures
        pair_views_of(s).len() == s.len(),
        forall|i: int|
            0 <= i < s.len() ==> pair_views_of(s)[i] == ((#[trigger] s[i]).0@, view_of(s[i].1)),
    decreases s.len(),
{
    if s.len() > 0 {
        lemma_pair_views_of(s.drop_first());
        assert forall|i: int| 0 <= i < s.len() implies pair_views_of(s)[i] == (
        s[i].0@,
        view_of(s[i].1),
        ) by {
            if i > 0 {
                assert(pair_views_of(s)[i] == pair_views_of(s.drop_first())[i - 1]);
                assert(s.drop_first()[i - 1] == s[i]);
            }
        }
    }
}

/// Why a mutation was refused.
pub enum SetFailure {
    /// A recorded path segment no longer resolves in the tree.
    MissingPath,
    /// An array position past the permitted range.
    IndexOutOfBounds,
    /// An array position applied to a node that is not an array.
    NotAnArray,
    /// A key applied to a node that is not a table.
    NotATable,
    /// The supplied value could not become a document value; carries the
    /// aggregated report of the conversion.
    BadValue((int, Seq<char>)),
}

/// What a mutation applies at its target.
pub enum ValueOp {
    Put(ValView),
    Delete,
    Refused((int, Seq<char>)),
}

/// First value stored under `key`, scanning the entries in order.
pub open spec fn tbl_get(entries: Seq<(Seq<char>, ValView)>, key: Seq<char>) -> Option<ValView>
    decreases entries.len(),
{
    if entries.len() == 0 {
        None
    } else if entries[0].0 == key {
        Some(entries[0].1)
    } else {
        tbl_get(entries.drop_first(), key)
    }
}

/// Replace the first entry stored under `key`, or append one.
pub open spec fn tbl_put(
    entries: Seq<(Seq<char>, ValView)>,
    key: Seq<char>,
    v: ValView,
) -> Seq<(Seq<char>, ValView)>
    decreases entries.len(),
{
    if entries.len() == 0 {
        seq![(key, v)]
    } else if entries[0].0 == key {
        seq![(key, v)] + entries.drop_first()
    } else {
        seq![entries[0]] + tbl_put(entries.drop_first(), key, v)
    }
}

/// Remove the first entry stored under `key`, if any.
pub open spec fn tbl_remove(
    entries: Seq<(Seq<char>, ValView)>,
    key: Seq<char>,
) -> Seq<(Seq<char>, ValView)>
    decreases entries.len(),
{
    if entries.len() == 0 {
        entries
    } else if entries[0].0 == key {
        entries.drop_first()
    } else {
        seq![entries[0]] + tbl_remove(entries.drop_first(), key)
    }
}

/// The child a single path step selects.
pub open spec fn doc_child(v: ValView, idx: IndexView) -> Option<ValView> {
    match (v, idx) {
        (ValView::Arr(items), IndexView::Idx(i)) => if 0 <= i < items.len() {
            Some(items[i])
        } else {
            None
        },
        (ValView::Tbl(entries), IndexView::Key(k)) => tbl_get(entries, k),
        _ => None,
    }
}

/// The node a path selects, starting from `v`.
pub open spec fn doc_get(v: ValView, path: Seq<IndexView>) -> Option<ValView>
    decreases path.len(),
{
    if path.len() == 0 {
        Some(v)
    } else {
        match doc_child(v, path[0]) {
            Some(c) => doc_get(c, path.drop_first()),
            None => None,
        }
    }
}

/// `v` with the child that `idx` selects replaced by `c`.
/// Meaningful only where `doc_child(v, idx)` is `Some`.
pub open spec fn replace_child(v: ValView, idx: IndexView, c: ValView) -> ValView {
    match (v, idx) {
        (ValView::Arr(items), IndexView::Idx(i)) => ValView::Arr(items.update(i, c)),
        (ValView::Tbl(entries), IndexView::Key(k)) => ValView::Tbl(tbl_put(entries, k, c)),
        _ => v,
    }
}

/// Apply an operation at a container node. An array position must address
/// an array; a `Put` may also address one place past its end, which appends;
/// a key must address a table, where a `Put` inserts or replaces and a
/// `Delete` removes the key if present. Container and bounds are judged
/// before a refused value is reported.
pub open spec fn apply_op(v: ValView, idx: IndexView, op: ValueOp) -> Result<ValView, SetFailure> {
    match idx {
        IndexView::Idx(i) => match v {
            ValView::Arr(items) => match op {
                ValueOp::Delete => if 0 <= i < items.len() {
                    Ok(ValView::Arr(items.remove(i)))
                } else {
                    Err(SetFailure::IndexOutOfBounds)
                },
                ValueOp::Put(x) => if 0 <= i < items.len() {
                    Ok(ValView::Arr(items.update(i, x)))
                } else if i == items.len() {
                    Ok(ValView::Arr(items.push(x)))
                } else {
                    Err(SetFailure::IndexOutOfBounds)
                },
                ValueOp::Refused(e) => if 0 <= i <= items.len() {
                    Err(SetFailure::BadValue(e))
                } else {
                    Err(SetFailure::IndexOutOfBounds)
                },
            },
            _ => Err(SetFailure::NotAnArray),
        },
        IndexView::Key(k) => match v {
            ValView::Tbl(entries) => match op {
                ValueOp::Delete => Ok(ValView::Tbl(tbl_remove(entries, k))),
                ValueOp::Put(x) => Ok(ValView::Tbl(tbl_put(entries, k, x))),
                ValueOp::Refused(e) => Err(SetFailure::BadValue(e)),
            },
            _ => Err(SetFailure::NotATable),
        },
    }
}

/// Replay `path` from `v`, then apply the operation at its end.
pub open spec fn doc_set(v: ValView, path: Seq<IndexView>, idx: IndexView, op: ValueOp) -> Result<
    ValView,
    SetFailure,
>
    decreases path.len(),
{
    if path.len() == 0 {
        apply_op(v, idx, op)
    } else {
        match doc_child(v, path[0]) {
            None => Err(SetFailure::MissingPath),
            Some(c) => match doc_set(c, path.drop_first(), idx, op) {
                Ok(c2) => Ok(replace_child(v, path[0], c2)),
                Err(f) => Err(f),
            },
        }
    }
}

/// The views of a recorded path's steps, in order.
pub open spec fn path_view(s: Seq<EntryIndex>) -> Seq<IndexView> {
    s.map_values(|e: EntryIndex| e@)
}

/// `j` is the position of the first entry stored under `key`.
pub open spec fn first_key_at(entries: Seq<(Seq<char>, ValView)>, key: Seq<char>, j: int) -> bool {
    &&& 0 <= j < entries.len()
    &&& entries[j].0 == key
    &&& forall|k: int| 0 <= k < j ==> (#[trigger] entries[k]).0 != key
}

/// Where a first match exists, `tbl_get` returns its value.
pub proof fn lemma_tbl_get_at(entries: Seq<(Seq<char>, ValView)>, key: Seq<char>, j: int)
    requires
        first_key_at(entries, key, j),
    ensures
        tbl_get(entries, key) == Some(entries[j].1),
    decreases j,
{
    if j > 0 {
        lemma_tbl_get_at(entries.drop_first(), key, j - 1);
    }
}

/// Where no entry holds the key, `tbl_get` returns nothing.
pub proof fn lemma_tbl_get_none(entries: Seq<(Seq<char>, ValView)>, key: Seq<char>)
    requires
        forall|k: int| 0 <= k < entries.len() ==> (#[trigger] entries[k]).0 != key,
    ensures
        tbl_get(entries, key) is None,
    decreases entries.len(),
{
    if entries.len() > 0 {
        lemma_tbl_get_none(entries.drop_first(), key);
    }
}

/// Where a first match exists, `tbl_put` replaces exactly that entry.
pub proof fn lemma_tbl_put_at(
    entries: Seq<(Seq<char>, ValView)>,
    key: Seq<char>,
    v: ValView,
    j: int,
)
    requires
        first_key_at(entries, key, j),
    ensures
        tbl_put(entries, key, v) =~= entries.update(j, (key, v)),
    decreases j,
{
    if j > 0 {
        lemma_tbl_put_at(entries.drop_first(), key, v, j - 1);
        assert(tbl_put(entries, key, v) =~= seq![entries[0]] + entries.drop_first().update(
            j - 1,
            (key, v),
        ));
    }
}

/// Where no entry holds the key, `tbl_put` appends one.
pub proof fn lemma_tbl_put_absent(entries: Seq<(Seq<char>, ValView)>, key: Seq<char>, v: ValView)
    requires
        forall|k: int| 0 <= k < entries.len() ==> (#[trigger] entries[k]).0 != key,
    ensures
        tbl_put(entries, key, v) =~= entries.push((key, v)),
    decreases entries.len(),
{
    if entries.len() > 0 {
        lemma_tbl_put_absent(entries.drop_first(), key, v);
        assert(tbl_put(entries, key, v) =~= seq![entries[0]] + entries.drop_first().push(
            (key, v),
        ));
    }
}

/// Where a first match exists, `tbl_remove` removes exactly that entry.
pub proof fn lemma_tbl_remove_at(entries: Seq<(Seq<char>, ValView)>, key: Seq<char>, j: int)
    requires
        first_key_at(entries, key, j),
    ensures
        tbl_remove(entries, key) =~= entries.remove(j),
    decreases j,
{
    if j > 0 {
        lemma_tbl_remove_at(entries.drop_first(), key, j - 1);
        assert(tbl_remove(entries, key) =~= seq![entries[0]] + entries.drop_first().remove(j - 1));
    }
}

/// Where no entry holds the key, `tbl_remove` changes nothing.
pub proof fn lemma_tbl_remove_absent(entries: Seq<(Seq<char>, ValView)>, key: Seq<char>)
    requires
        forall|k: int| 0 <= k < entries.len() ==> (#[trigger] entries[k]).0 != key,
    ensures
        tbl_remove(entries, key) =~= entries,
    decreases entries.len(),
{
    if entries.len() > 0 {
        lemma_tbl_remove_absent(entries.drop_first(), key);
        assert(tbl_remove(entries, key) =~= seq![entries[0]] + entries.drop_first());
    }
}

/// A structurally equal copy of each element of an array's backing vector.
#[verifier::loop_isolation(false)]
fn copy_items(items: &Vec<DocValue>) -> (r: Vec<DocValue>)
    ensures
        r@.len() == items@.len(),
        forall|k: int| 0 <= k < items@.len() ==> (#[trigger] r@[k])@ == items@[k]@,
        views_of(r@) == views_of(items@),
    decreases items,
{
    let mut out: Vec<DocValue> = Vec::new();
    let mut i: usize = 0;
    while i < items.len()
        invariant
            i <= items.len(),
            out@.len() == i,
            forall|k: int| 0 <= k < i ==> (#[trigger] out@[k])@ == items@[k]@,
        decreases items.len() - i,
    {
        proof {
            assert(decreases_to!(*items => items@));
            assert(decreases_to!(items@ => items@[i as int]));
        }
        out.push(items[i].deep_copy());
        i = i + 1;
    }
    proof {
        lemma_views_equal(out@, items@);
    }
    out
}

/// A structurally equal copy of each entry of a table's backing vector.
#[verifier::loop_isolation(false)]
fn copy_entries(entries: &Vec<(String, DocValue)>) -> (r: Vec<(String, DocValue)>)
    ensures
        r@.len() == entries@.len(),
        forall|k: int|
            0 <= k < entries@.len() ==> (#[trigger] r@[k]).0@ == entries@[k].0@ && r@[k].1@
                == entries@[k].1@,
        pair_views_of(r@) == pair_views_of(entries@),
    decreases entries,
{
    let mut out: Vec<(String, DocValue)> = Vec::new();
    let mut i: usize = 0;
    while i < entries.len()
        invariant
            i <= entries.len(),
            out@.len() == i,
            forall|k: int|
                0 <= k < i ==> (#[trigger] out@[k]).0@ == entries@[k].0@ && out@[k].1@
                    == entries@[k].1@,
        decreases entries.len() - i,
    {
        proof {
            assert(decreases_to!(*entries => entries@));
            assert(decreases_to!(entries@ => entries@[i as int]));
            assert(decreases_to!(entries@[i as int] => entries@[i as int].1));
        }
        let key = entries[i].0.clone();
        let val = entries[i].1.deep_copy();
        out.push((key, val));
        i = i + 1;
    }
    proof {
        lemma_pair_views_equal(out@, entries@);
    }
    out
}

/// Sequences whose elements agree view by view have the same `views_of`.
pub proof fn lemma_views_equal(a: Seq<DocValue>, b: Seq<DocValue>)
    requires
        a.len() == b.len(),
        forall|k: int| 0 <= k < a.len() ==> (#[trigger] a[k])@ == b[k]@,
    ensures
        views_of(a) == views_of(b),
{
    lemma_views_of(a);
    lemma_views_of(b);
    assert forall|k: int| 0 <= k < views_of(a).len() implies views_of(a)[k] == views_of(b)[k] by {
        assert(view_of(a[k]) == a[k]@);
        assert(view_of(b[k]) == b[k]@);
        assert(a[k]@ == b[k]@);
    }
    assert(views_of(a) =~= views_of(b));
}

/// Entry sequences whose keys and values agree view by view have the same
/// `pair_views_of`.
pub proof fn lemma_pair_views_equal(a: Seq<(String, DocValue)>, b: Seq<(String, DocValue)>)
    requires
        a.len() == b.len(),
        forall|k: int| 0 <= k < a.len() ==> (#[trigger] a[k]).0@ == b[k].0@ && a[k].1@ == b[k].1@,
    ensures
        pair_views_of(a) == pair_views_of(b),
{
    lemma_pair_views_of(a);
    lemma_pair_views_of(b);
    assert forall|k: int|
        0 <= k < pair_views_of(a).len() implies pair_views_of(a)[k] == pair_views_of(b)[k] by {
        assert(view_of(a[k].1) == a[k].1@);
        assert(view_of(b[k].1) == b[k].1@);
        assert(a[k].0@ == b[k].0@ && a[k].1@ == b[k].1@);
    }
    assert(pair_views_of(a) =~= pair_views_of(b));
}

impl DocValue {
    /// A structurally equal copy of the tree.
    pub fn deep_copy(&self) -> (r: DocValue)
        ensures
            r@ == self@,
        decreases self,
    {
        match self {
            DocValue::String(s) => DocValue::String(s.clone()),
            DocValue::Integer(i) => DocValue::Integer(*i),
            DocValue::Float(text) => DocValue::Float(text.clone()),
            DocValue::Boolean(b) => DocValue::Boolean(*b),
            DocValue::Array(items) => {
                proof {
                    assert(decreases_to!(*self => *items));
                }
                DocValue::Array(copy_items(items))
            },
            DocValue::Table(entries) => {
                proof {
                    assert(decreases_to!(*self => *entries));
                }
                DocValue::Table(copy_entries(entries))
            },
            DocValue::Unknown(s) => DocValue::Unknown(s.clone()),
        }
    }
}

/// A read-only, path-stamped view into one node of a document tree. The
/// node's subtree is held as a snapshot; the recorded path locates the node
/// again under the owning file's root when a mutation replays it.
#[derive(Debug)]
pub struct TomlEntry {
    pub data: DocValue,
    pub path: Vec<EntryIndex>,
}

/// A value handed to a mutation: either a plain value, an existing entry
/// (whose snapshot is taken), or `None`, the marker that deletes the target.
#[derive(Debug)]
pub enum EntryValue {
    Entry(TomlEntry),
    String(String),
    Integer(i64),
    Float(String),
    Boolean(bool),
    Array(Vec<EntryValue>),
    Table(Vec<(String, EntryValue)>),
    Remove,
}

/// The message reported when a deletion marker stands where a value is owed.
pub open spec fn none_value_msg() -> Seq<char> {
    "Cannot convert a deletion marker into a document value"@
}

/// What converting an `EntryValue` into a document tree yields: the tree,
/// or an error report aggregated across every failing element.
pub open spec fn conv_spec(ev: EntryValue) -> Result<ValView, (int, Seq<char>)>
    decreases ev,
{
    match ev {
        EntryValue::Entry(e) => Ok(e.data@),
        EntryValue::String(s) => Ok(ValView::Str(s@)),
        EntryValue::Integer(i) => Ok(ValView::Int(i as int)),
        EntryValue::Float(text) => Ok(ValView::Float(text@)),
        EntryValue::Boolean(b) => Ok(ValView::Bool(b)),
        EntryValue::Array(items) => {
            proof {
                assert(decreases_to!(ev => items));
                assert(decreases_to!(items => items@));
            }
            let (vs, err) = conv_seq(items@, Seq::empty(), (0int, Seq::empty()));
            if err.0 != 0 {
                Err(err)
            } else {
                Ok(ValView::Arr(vs))
            }
        },
        EntryValue::Table(entries) => {
            proof {
                assert(decreases_to!(ev => entries));
                assert(decreases_to!(entries => entries@));
            }
            let (vs, err) = conv_tbl(entries@, Seq::empty(), (0int, Seq::empty()));
            if err.0 != 0 {
                Err(err)
            } else {
                Ok(ValView::Tbl(vs))
            }
        },
        EntryValue::Remove => Err((1int, none_value_msg())),
    }
}

/// Left fold of `conv_spec` over array elements: successes are collected in
/// order, failures are merged into one aggregate report.
pub open spec fn conv_seq(
    items: Seq<EntryValue>,
    vs: Seq<ValView>,
    err: (int, Seq<char>),
) -> (Seq<ValView>, (int, Seq<char>))
    decreases items,
{
    if items.len() == 0 {
        (vs, err)
    } else {
        match conv_spec(items[0]) {
            Ok(v) => conv_seq(items.drop_first(), vs.push(v), err),
            Err(e) => conv_seq(items.drop_first(), vs, merge_spec(err, e)),
        }
    }
}

/// Left fold of `conv_spec` over table entries: each success is inserted
/// under its key, failures are merged into one aggregate report.
pub open spec fn conv_tbl(
    entries: Seq<(String, EntryValue)>,
    vs: Seq<(Seq<char>, ValView)>,
    err: (int, Seq<char>),
) -> (Seq<(Seq<char>, ValView)>, (int, Seq<char>))
    decreases entries,
{
    if entries.len() == 0 {
        (vs, err)
    } else {
        proof {
            assert(decreases_to!(entries => entries[0]));
            assert(decreases_to!(entries[0] => entries[0].1));
        }
        match conv_spec(entries[0].1) {
            Ok(v) => conv_tbl(entries.drop_first(), tbl_put(vs, entries[0].0@, v), err),
            Err(e) => conv_tbl(entries.drop_first(), vs, merge_spec(err, e)),
        }
    }
}

/// Appending an element appends its view.
pub proof fn lemma_views_of_push(s: Seq<DocValue>, x: DocValue)
    ensures
        views_of(s.push(x)) == views_of(s).push(view_of(x)),
{
    lemma_views_of(s.push(x));
    lemma_views_of(s);
    assert forall|k: int|
        0 <= k < views_of(s.push(x)).len() implies views_of(s.push(x))[k] == views_of(s).push(
        view_of(x),
    )[k] by {
        assert(views_of(s.push(x))[k] == view_of(s.push(x)[k]));
        if k < s.len() {
            assert(s.push(x)[k] == s[k]);
        }
    }
    assert(views_of(s.push(x)) =~= views_of(s).push(view_of(x)));
}

/// Replacing an element replaces its view.
pub proof fn lemma_views_of_update(s: Seq<DocValue>, i: int, x: DocValue)
    requires
        0 <= i < s.len(),
    ensures
        views_of(s.update(i, x)) == views_of(s).update(i, view_of(x)),
{
    lemma_views_of(s.update(i, x));
    lemma_views_of(s);
    assert forall|k: int|
        0 <= k < views_of(s.update(i, x)).len() implies views_of(s.update(i, x))[k] == views_of(
        s,
    ).update(i, view_of(x))[k] by {
        assert(views_of(s.update(i, x))[k] == view_of(s.update(i, x)[k]));
        if k != i {
            assert(s.update(i, x)[k] == s[k]);
        }
    }
    assert(views_of(s.update(i, x)) =~= views_of(s).update(i, view_of(x)));
}

/// Removing an element removes its view.
pub proof fn lemma_views_of_remove(s: Seq<DocValue>, i: int)
    requires
        0 <= i < s.len(),
    ensures
        views_of(s.remove(i)) == views_of(s).remove(i),
{
    lemma_views_of(s.remove(i));
    lemma_views_of(s);
    assert forall|k: int|
        0 <= k < views_of(s.remove(i)).len() implies views_of(s.remove(i))[k] == views_of(
        s,
    ).remove(i)[k] by {
        assert(views_of(s.remove(i))[k] == view_of(s.remove(i)[k]));
        if k < i {
            assert(s.remove(i)[k] == s[k]);
        } else {
            assert(s.remove(i)[k] == s[k + 1]);
        }
    }
    assert(views_of(s.remove(i)) =~= views_of(s).remove(i));
}

/// Position of the first entry stored under `key`, if any.
#[verifier::loop_isolation(false)]
fn tbl_find_exec(entries: &Vec<(String, DocValue)>, key: &String) -> (r: Option<usize>)
    ensures
        match r {
            Some(j) => first_key_at(pair_views_of(entries@), key@, j as int),
            None => forall|k: int|
                0 <= k < pair_views_of(entries@).len() ==> (#[trigger] pair_views_of(entries@)[k]).0
                    != key@,
        },
{
    proof {
        lemma_pair_views_of(entries@);
    }
    let mut j: usize = 0;
    while j < entries.len()
        invariant
            j <= entries.len(),
            forall|k: int| 0 <= k < j ==> (#[trigger] entries@[k]).0@ != key@,
        decreases entries.len() - j,
    {
        if entries[j].0 == *key {
            proof {
                assert forall|k: int|
                    0 <= k < pair_views_of(entries@).len() implies (#[trigger] pair_views_of(
                    entries@,
                )[k]).0 == entries@[k].0@ by {
                    assert(pair_views_of(entries@)[k] == (entries@[k].0@, view_of(entries@[k].1)));
                }
            }
            return Some(j);
        }
        j = j + 1;
    }
    proof {
        assert forall|k: int|
            0 <= k < pair_views_of(entries@).len() implies (#[trigger] pair_views_of(entries@)[k]).0
            != key@ by {
            assert(pair_views_of(entries@)[k] == (entries@[k].0@, view_of(entries@[k].1)));
        }
    }
    None
}

/// Insert or replace `key` in a table's backing vector, matching `tbl_put`.
#[verifier::loop_isolation(false)]
fn table_put_exec(tbl: &mut Vec<(String, DocValue)>, key: String, v: DocValue)
    ensures
        pair_views_of(final(tbl)@) == tbl_put(pair_views_of(old(tbl)@), key@, v@),
{
    proof {
        lemma_pair_views_of(tbl@);
    }
    let ghost entries0 = pair_views_of(tbl@);
    let mut j: usize = 0;
    while j < tbl.len()
        invariant
            tbl@ == old(tbl)@,
            j <= tbl.len(),
            forall|k: int| 0 <= k < j ==> (#[trigger] tbl@[k]).0@ != key@,
        decreases tbl.len() - j,
    {
        if tbl[j].0 == key {
            proof {
                lemma_pair_views_of(tbl@);
                assert forall|k: int| 0 <= k < entries0.len() implies (#[trigger] entries0[k]).0
                    == tbl@[k].0@ by {
                    assert(entries0[k] == (tbl@[k].0@, view_of(tbl@[k].1)));
                }
                assert(first_key_at(entries0, key@, j as int));
                lemma_tbl_put_at(entries0, key@, v@, j as int);
            }
            let ghost before = tbl@;
            tbl[j] = (key, v);
            proof {
                lemma_pair_views_of(tbl@);
                assert forall|k: int|
                    0 <= k < pair_views_of(tbl@).len() implies pair_views_of(tbl@)[k]
                    == entries0.update(j as int, (key@, v@))[k] by {
                    assert(pair_views_of(tbl@)[k] == (tbl@[k].0@, view_of(tbl@[k].1)));
                    if k != j {
                        assert(tbl@[k] == before[k]);
                        assert(entries0[k] == (before[k].0@, view_of(before[k].1)));
                    }
                }
                assert(pair_views_of(tbl@) =~= entries0.update(j as int, (key@, v@)));
            }
            return ;
        }
        j = j + 1;
    }
    proof {
        lemma_pair_views_of(tbl@);
        assert forall|k: int| 0 <= k < entries0.len() implies (#[trigger] entries0[k]).0
            != key@ by {
            assert(entries0[k] == (tbl@[k].0@, view_of(tbl@[k].1)));
        }
        lemma_tbl_put_absent(entries0, key@, v@);
    }
    let ghost before = tbl@;
    tbl.push((key, v));
    proof {
        lemma_pair_views_of(tbl@);
        assert forall|k: int|
            0 <= k < pair_views_of(tbl@).len() implies pair_views_of(tbl@)[k] == entries0.push(
            (key@, v@),
        )[k] by {
            assert(pair_views_of(tbl@)[k] == (tbl@[k].0@, view_of(tbl@[k].1)));
            if k < before.len() {
                assert(tbl@[k] == before[k]);
                assert(entries0[k] == (before[k].0@, view_of(before[k].1)));
            }
        }
        assert(pair_views_of(tbl@) =~= entries0.push((key@, v@)));
    }
}

/// Remove the first entry under `key` from a table's backing vector,
/// matching `tbl_remove`.
#[verifier::loop_isolation(false)]
fn table_remove_exec(tbl: &mut Vec<(String, DocValue)>, key: &String)
    ensures
        pair_views_of(final(tbl)@) == tbl_remove(pair_views_of(old(tbl)@), key@),
{
    proof {
        lemma_pair_views_of(tbl@);
    }
    let ghost entries0 = pair_views_of(tbl@);
    let mut j: usize = 0;
    while j < tbl.len()
        invariant
            tbl@ == old(tbl)@,
            j <= tbl.len(),
            forall|k: int| 0 <= k < j ==> (#[trigger] tbl@[k]).0@ != key@,
        decreases tbl.len() - j,
    {
        if tbl[j].0 == *key {
            proof {
                lemma_pair_views_of(tbl@);
                assert forall|k: int| 0 <= k < entries0.len() implies (#[trigger] entries0[k]).0
                    == tbl@[k].0@ by {
                    assert(entries0[k] == (tbl@[k].0@, view_of(tbl@[k].1)));
                }
                assert(first_key_at(entries0, key@, j as int));
                lemma_tbl_remove_at(entries0, key@, j as int);
            }
            let ghost before = tbl@;
            tbl.remove(j);
            proof {
                lemma_pair_views_of(tbl@);
                assert forall|k: int|
                    0 <= k < pair_views_of(tbl@).len() implies pair_views_of(tbl@)[k]
                    == entries0.remove(j as int)[k] by {
                    assert(pair_views_of(tbl@)[k] == (tbl@[k].0@, view_of(tbl@[k].1)));
                    if k < j {
                        assert(tbl@[k] == before[k]);
                        assert(entries0[k] == (before[k].0@, view_of(before[k].1)));
                    } else {
                        assert(tbl@[k] == before[k + 1]);
                        assert(entries0[k + 1] == (before[k + 1].0@, view_of(before[k + 1].1)));
                    }
                }
                assert(pair_views_of(tbl@) =~= entries0.remove(j as int));
            }
            return ;
        }
        j = j + 1;
    }
    proof {
        lemma_pair_views_of(tbl@);
        assert forall|k: int| 0 <= k < entries0.len() implies (#[trigger] entries0[k]).0
            != key@ by {
            assert(entries0[k] == (tbl@[k].0@, view_of(tbl@[k].1)));
        }
        lemma_tbl_remove_absent(entries0, key@);
        assert(pair_views_of(tbl@) =~= entries0);
    }
}

/// Convert a supplied value into a document tree, aggregating the reports of
/// all failing elements as `conv_spec` prescribes.
#[verifier::loop_isolation(false)]
fn convert_ref(ev: &EntryValue) -> (r: Result<DocValue, GobiError>)
    ensures
        match (r, conv_spec(*ev)) {
            (Ok(dv), Ok(v)) => dv@ == v,
            (Err(e), Err(f)) => e.code as int == f.0 && e.msg@ == f.1,
            _ => false,
        },
    decreases ev,
{
    match ev {
        EntryValue::Entry(e) => Ok(e.data.deep_copy()),
        EntryValue::String(s) => Ok(DocValue::String(s.clone())),
        EntryValue::Integer(i) => Ok(DocValue::Integer(*i)),
        EntryValue::Float(text) => Ok(DocValue::Float(text.clone())),
        EntryValue::Boolean(b) => Ok(DocValue::Boolean(*b)),
        EntryValue::Array(items) => {
            let mut vs: Vec<DocValue> = Vec::new();
            let mut err = GobiError { code: 0, msg: String::new() };
            let mut i: usize = 0;
            proof {
                assert(items@.skip(0) =~= items@);
                assert(views_of(vs@) =~= Seq::<ValView>::empty());
            }
            while i < items.len()
                invariant
                    i <= items.len(),
                    conv_seq(
                        items@.skip(i as int),
                        views_of(vs@),
                        (err.code as int, err.msg@),
                    ) == conv_seq(items@, Seq::<ValView>::empty(), (0int, Seq::<char>::empty())),
                decreases items.len() - i,
            {
                proof {
                    assert(decreases_to!(*ev => *items));
                    assert(decreases_to!(*items => items@));
                    assert(decreases_to!(items@ => items@[i as int]));
                    assert(items@.skip(i as int)[0] == items@[i as int]);
                    assert(items@.skip(i as int).drop_first() =~= items@.skip(i as int + 1));
                }
                match convert_ref(&items[i]) {
                    Ok(dv) => {
                        proof {
                            lemma_views_of_push(vs@, dv);
                        }
                        vs.push(dv);
                    },
                    Err(e) => {
                        err = err.merge(e);
                    },
                }
                i = i + 1;
            }
            proof {
                assert(items@.skip(i as int) =~= Seq::<EntryValue>::empty());
            }
            if err.code != 0 {
                Err(err)
            } else {
                Ok(DocValue::Array(vs))
            }
        },
        EntryValue::Table(entries) => {
            let mut vs: Vec<(String, DocValue)> = Vec::new();
            let mut err = GobiError { code: 0, msg: String::new() };
            let mut i: usize = 0;
            proof {
                assert(entries@.skip(0) =~= entries@);
                assert(pair_views_of(vs@) =~= Seq::<(Seq<char>, ValView)>::empty());
            }
            while i < entries.len()
                invariant
                    i <= entries.len(),
                    conv_tbl(
                        entries@.skip(i as int),
                        pair_views_of(vs@),
                        (err.code as int, err.msg@),
                    ) == conv_tbl(
                        entries@,
                        Seq::<(Seq<char>, ValView)>::empty(),
                        (0int, Seq::<char>::empty()),
                    ),
                decreases entries.len() - i,
            {
                proof {
                    assert(decreases_to!(*ev => *entries));
                    assert(decreases_to!(*entries => entries@));
                    assert(decreases_to!(entries@ => entries@[i as int]));
                    assert(decreases_to!(entries@[i as int] => entries@[i as int].1));
                    assert(entries@.skip(i as int)[0] == entries@[i as int]);
                    assert(entries@.skip(i as int).drop_first() =~= entries@.skip(i as int + 1));
                }
                match convert_ref(&entries[i].1) {
                    Ok(dv) => {
                        let key = entries[i].0.clone();
                        table_put_exec(&mut vs, key, dv);
                    },
                    Err(e) => {
                        err = err.merge(e);
                    },
                }
                i = i + 1;
            }
            proof {
                assert(entries@.skip(i as int) =~= Seq::<(String, EntryValue)>::empty());
            }
            if err.code != 0 {
                Err(err)
            } else {
                Ok(DocValue::Table(vs))
            }
        },
        EntryValue::Remove => Err(
            GobiError {
                code: 1,
                msg: "Cannot convert a deletion marker into a document value".to_owned(),
            },
        ),
    }
}

/// What a mutation applies at its target, in executable form.
enum DocOp {
    Put(DocValue),
    Delete,
    Refused(GobiError),
}

spec fn op_view(op: DocOp) -> ValueOp {
    match op {
        DocOp::Put(v) => ValueOp::Put(v@),
        DocOp::Delete => ValueOp::Delete,
        DocOp::Refused(e) => ValueOp::Refused((e.code as int, e.msg@)),
    }
}

/// Why a mutation was refused, in executable form.
enum DocSetErr {
    MissingPath,
    IndexOutOfBounds,
    NotAnArray,
    NotATable,
    BadValue(GobiError),
}

spec fn fail_view(e: DocSetErr) -> SetFailure {
    match e {
        DocSetErr::MissingPath => SetFailure::MissingPath,
        DocSetErr::IndexOutOfBounds => SetFailure::IndexOutOfBounds,
        DocSetErr::NotAnArray => SetFailure::NotAnArray,
        DocSetErr::NotATable => SetFailure::NotATable,
        DocSetErr::BadValue(e) => SetFailure::BadValue((e.code as int, e.msg@)),
    }
}

/// Apply an operation at a container node, matching `apply_op`.
fn apply_op_exec(v: &DocValue, idx: &EntryIndex, op: DocOp) -> (r: Result<DocValue, DocSetErr>)
    ensures
        match (r, apply_op(v@, idx@, op_view(op))) {
            (Ok(nv), Ok(sv)) => nv@ == sv,
            (Err(e), Err(f)) => fail_view(e) == f,
            _ => false,
        },
{
    match idx {
        EntryIndex::Index(i) => match v {
            DocValue::Array(items) => {
                proof {
                    lemma_views_of(items@);
                }
                match op {
                    DocOp::Delete => {
                        if *i < items.len() {
                            let mut out = copy_items(items);
                            proof {
                                lemma_views_of_remove(out@, *i as int);
                            }
                            out.remove(*i);
                            Ok(DocValue::Array(out))
                        } else {
                            Err(DocSetErr::IndexOutOfBounds)
                        }
                    },
                    DocOp::Put(x) => {
                        if *i < items.len() {
                            let mut out = copy_items(items);
                            proof {
                                lemma_views_of_update(out@, *i as int, x);
                            }
                            out[*i] = x;
                            Ok(DocValue::Array(out))
                        } else if *i == items.len() {
                            let mut out = copy_items(items);
                            proof {
                                lemma_views_of_push(out@, x);
                            }
                            out.push(x);
                            Ok(DocValue::Array(out))
                        } else {
                            Err(DocSetErr::IndexOutOfBounds)
                        }
                    },
                    DocOp::Refused(e) => {
                        if *i <= items.len() {
                            Err(DocSetErr::BadValue(e))
                        } else {
                            Err(DocSetErr::IndexOutOfBounds)
                        }
                    },
                }
            },
            _ => Err(DocSetErr::NotAnArray),
        },
        EntryIndex::Key(key) => match v {
            DocValue::Table(entries) => match op {
                DocOp::Delete => {
                    let mut out = copy_entries(entries);
                    table_remove_exec(&mut out, key);
                    Ok(DocValue::Table(out))
                },
                DocOp::Put(x) => {
                    let mut out = copy_entries(entries);
                    table_put_exec(&mut out, key.clone(), x);
                    Ok(DocValue::Table(out))
                },
                DocOp::Refused(e) => Err(DocSetErr::BadValue(e)),
            },
            _ => Err(DocSetErr::NotATable),
        },
    }
}

/// Replay the recorded path from `v`, apply the operation at its end, and
/// rebuild the tree along the way, matching `doc_set`.
fn doc_set_exec(
    v: &DocValue,
    path: &Vec<EntryIndex>,
    at: usize,
    idx: &EntryIndex,
    op: DocOp,
) -> (r: Result<DocValue, DocSetErr>)
    requires
        at <= path@.len(),
    ensures
        match (r, doc_set(v@, path_view(path@).skip(at as int), idx@, op_view(op))) {
            (Ok(nv), Ok(sv)) => nv@ == sv,
            (Err(e), Err(f)) => fail_view(e) == f,
            _ => false,
        },
    decreases path@.len() - at,
{
    let ghost p = path_view(path@).skip(at as int);
    if at == path.len() {
        proof {
            assert(p =~= Seq::<IndexView>::empty());
        }
        apply_op_exec(v, idx, op)
    } else {
        proof {
            assert(p[0] == path@[at as int]@);
            assert(p.drop_first() =~= path_view(path@).skip(at as int + 1));
        }
        match &path[at] {
            EntryIndex::Index(i) => match v {
                DocValue::Array(items) => {
                    proof {
                        lemma_views_of(items@);
                    }
                    if *i < items.len() {
                        match doc_set_exec(&items[*i], path, at + 1, idx, op) {
                            Ok(c2) => {
                                let mut out = copy_items(items);
                                proof {
                                    lemma_views_of_update(out@, *i as int, c2);
                                }
                                out[*i] = c2;
                                Ok(DocValue::Array(out))
                            },
                            Err(e) => Err(e),
                        }
                    } else {
                        Err(DocSetErr::MissingPath)
                    }
                },
                _ => Err(DocSetErr::MissingPath),
            },
            EntryIndex::Key(key) => match v {
                DocValue::Table(entries) => {
                    proof {
                        lemma_pair_views_of(entries@);
                    }
                    match tbl_find_exec(entries, key) {
                        Some(j) => {
                            proof {
                                lemma_tbl_get_at(pair_views_of(entries@), key@, j as int);
                            }
                            match doc_set_exec(&entries[j].1, path, at + 1, idx, op) {
                                Ok(c2) => {
                                    let mut out = copy_entries(entries);
                                    proof {
                                        lemma_tbl_put_at(
                                            pair_views_of(entries@),
                                            key@,
                                            c2@,
                                            j as int,
                                        );
                                    }
                                    let stored = entries[j].0.clone();
                                    let ghost before = out@;
                                    out[j] = (stored, c2);
                                    proof {
                                        lemma_pair_views_of(out@);
                                        assert forall|k: int|
                                            0 <= k < pair_views_of(out@).len() implies
                                            pair_views_of(out@)[k] == tbl_put(
                                            pair_views_of(entries@),
                                            key@,
                                            c2@,
                                        )[k] by {
                                            assert(pair_views_of(out@)[k] == (
                                                out@[k].0@,
                                                view_of(out@[k].1),
                                            ));
                                            if k != j {
                                                assert(out@[k] == before[k]);
                                                assert(pair_views_of(entries@)[k] == (
                                                    entries@[k].0@,
                                                    view_of(entries@[k].1),
                                                ));
                                            }
                                        }
                                        assert(pair_views_of(out@) =~= tbl_put(
                                            pair_views_of(entries@),
                                            key@,
                                            c2@,
                                        ));
                                    }
                                    Ok(DocValue::Table(out))
                                },
                                Err(e) => Err(e),
                            }
                        },
                        None => {
                            proof {
                                lemma_tbl_get_none(pair_views_of(entries@), key@);
                            }
                            Err(DocSetErr::MissingPath)
                        },
                    }
                },
                _ => Err(DocSetErr::MissingPath),
            },
        }
    }
}

/// The type tag of an abstract node.
pub open spec fn type_of(v: ValView) -> EntryType {
    match v {
        ValView::Str(_) => EntryType::String,
        ValView::Int(_) => EntryType::Integer,
        ValView::Float(_) => EntryType::Float,
        ValView::Bool(_) => EntryType::Boolean,
        ValView::Arr(_) => EntryType::Array,
        ValView::Tbl(_) => EntryType::Table,
        ValView::Unk(_) => EntryType::Unknown,
    }
}

impl EntryIndex {
    /// A copy of the path step with an equal view.
    pub fn duplicate(&self) -> (r: EntryIndex)
        ensures
            r@ == self@,
    {
        match self {
            EntryIndex::Index(i) => EntryIndex::Index(*i),
            EntryIndex::Key(k) => EntryIndex::Key(k.clone()),
        }
    }
}

/// A copy of a recorded path with equal step views.
#[verifier::loop_isolation(false)]
fn copy_path(path: &Vec<EntryIndex>) -> (r: Vec<EntryIndex>)
    ensures
        r@.len() == path@.len(),
        forall|k: int| 0 <= k < path@.len() ==> (#[trigger] r@[k])@ == path@[k]@,
        path_view(r@) == path_view(path@),
{
    let mut out: Vec<EntryIndex> = Vec::new();
    let mut i: usize = 0;
    while i < path.len()
        invariant
            i <= path.len(),
            out@.len() == i,
            forall|k: int| 0 <= k < i ==> (#[trigger] out@[k])@ == path@[k]@,
        decreases path.len() - i,
    {
        out.push(path[i].duplicate());
        i = i + 1;
    }
    proof {
        assert(path_view(out@) =~= path_view(path@));
    }
    out
}

/// Follow `idxs` from `at` on, resolving each step in the tree.
fn nav<'a>(v: &'a DocValue, idxs: &Vec<EntryIndex>, at: usize) -> (r: Option<&'a DocValue>)
    requires
        at <= idxs@.len(),
    ensures
        match r {
            Some(c) => doc_get(v@, path_view(idxs@).skip(at as int)) == Some(c@),
            None => doc_get(v@, path_view(idxs@).skip(at as int)) is None,
        },
    decreases idxs@.len() - at,
{
    let ghost p = path_view(idxs@).skip(at as int);
    if at == idxs.len() {
        proof {
            assert(p =~= Seq::<IndexView>::empty());
        }
        Some(v)
    } else {
        proof {
            assert(p[0] == idxs@[at as int]@);
            assert(p.drop_first() =~= path_view(idxs@).skip(at as int + 1));
        }
        match &idxs[at] {
            EntryIndex::Index(i) => match v {
                DocValue::Array(items) => {
                    proof {
                        lemma_views_of(items@);
                    }
                    if *i < items.len() {
                        nav(&items[*i], idxs, at + 1)
                    } else {
                        None
                    }
                },
                _ => None,
            },
            EntryIndex::Key(key) => match v {
                DocValue::Table(entries) => {
                    proof {
                        lemma_pair_views_of(entries@);
                    }
                    match tbl_find_exec(entries, key) {
                        Some(j) => {
                            proof {
                                lemma_tbl_get_at(pair_views_of(entries@), key@, j as int);
                            }
                            nav(&entries[j].1, idxs, at + 1)
                        },
                        None => {
                            proof {
                                lemma_tbl_get_none(pair_views_of(entries@), key@);
                            }
                            None
                        },
                    }
                },
                _ => None,
            },
        }
    }
}

impl TomlEntry {
    /// The type tag of the node this entry snapshots.
    pub fn get_type(&self) -> (t: EntryType)
        ensures
            t == type_of(self.data@),
    {
        match &self.data {
            DocValue::String(_) => EntryType::String,
            DocValue::Integer(_) => EntryType::Integer,
            DocValue::Float(_) => EntryType::Float,
            DocValue::Boolean(_) => EntryType::Boolean,
            DocValue::Array(_) => EntryType::Array,
            DocValue::Table(_) => EntryType::Table,
            DocValue::Unknown(_) => EntryType::Unknown,
        }
    }

    /// Whether the node is a string.
    pub fn is_string(&self) -> (r: bool)
        ensures
            r == (self.data@ is Str),
    {
        matches!(self.get_type(), EntryType::String)
    }

    /// Whether the node is an integer.
    pub fn is_integer(&self) -> (r: bool)
        ensures
            r == (self.data@ is Int),
    {
        matches!(self.get_type(), EntryType::Integer)
    }

    /// Whether the node is a float.
    pub fn is_float(&self) -> (r: bool)
        ensures
            r == (self.data@ is Float),
    {
        matches!(self.get_type(), EntryType::Float)
    }

    /// Whether the node is a boolean.
    pub fn is_boolean(&self) -> (r: bool)
        ensures
            r == (self.data@ is Bool),
    {
        matches!(self.get_type(), EntryType::Boolean)
    }

    /// Whether the node is an array.
    pub fn is_array(&self) -> (r: bool)
        ensures
            r == (self.data@ is Arr),
    {
        matches!(self.get_type(), EntryType::Array)
    }

    /// Whether the node is a table.
    pub fn is_table(&self) -> (r: bool)
        ensures
            r == (self.data@ is Tbl),
    {
        matches!(self.get_type(), EntryType::Table)
    }

    /// Whether the node is of a kind the tree does not model.
    pub fn is_unknown(&self) -> (r: bool)
        ensures
            r == (self.data@ is Unk),
    {
        matches!(self.get_type(), EntryType::Unknown)
    }

    /// The string a string node holds.
    pub fn get_string(&self) -> (r: Option<&str>)
        ensures
            match r {
                Some(s) => self.data@ == ValView::Str(s@),
                None => !(self.data@ is Str),
            },
    {
        match &self.data {
            DocValue::String(s) => Some(s.as_str()),
            _ => None,
        }
    }

    /// The integer an integer node holds.
    pub fn get_integer(&self) -> (r: Option<i64>)
        ensures
            match r {
                Some(i) => self.data@ == ValView::Int(i as int),
                None => !(self.data@ is Int),
            },
    {
        match &self.data {
            DocValue::Integer(i) => Some(*i),
            _ => None,
        }
    }

    /// The decimal text a float node holds.
    pub fn get_float(&self) -> (r: Option<&str>)
        ensures
            match r {
                Some(text) => self.data@ == ValView::Float(text@),
                None => !(self.data@ is Float),
            },
    {
        match &self.data {
            DocValue::Float(text) => Some(text.as_str()),
            _ => None,
        }
    }

    /// The boolean a boolean node holds.
    pub fn get_boolean(&self) -> (r: Option<bool>)
        ensures
            match r {
                Some(b) => self.data@ == ValView::Bool(b),
                None => !(self.data@ is Bool),
            },
    {
        match &self.data {
            DocValue::Boolean(b) => Some(*b),
            _ => None,
        }
    }

    /// The number of elements of an array node.
    pub fn len(&self) -> (r: Option<usize>)
        ensures
            match (r, self.data@) {
                (Some(n), ValView::Arr(items)) => n == items.len(),
                (None, v) => !(v is Arr),
                _ => false,
            },
    {
        match &self.data {
            DocValue::Array(items) => {
                proof {
                    lemma_views_of(items@);
                }
                Some(items.len())
            },
            _ => None,
        }
    }

    /// Whether a table node holds the key.
    pub fn contains(&self, key: &str) -> (r: Option<bool>)
        ensures
            match (r, self.data@) {
                (Some(b), ValView::Tbl(entries)) => b == (tbl_get(entries, key@) is Some),
                (None, v) => !(v is Tbl),
                _ => false,
            },
    {
        match &self.data {
            DocValue::Table(entries) => {
                let owned = key.to_owned();
                match tbl_find_exec(entries, &owned) {
                    Some(j) => {
                        proof {
                            lemma_tbl_get_at(pair_views_of(entries@), key@, j as int);
                        }
                        Some(true)
                    },
                    None => {
                        proof {
                            lemma_tbl_get_none(pair_views_of(entries@), key@);
                        }
                        Some(false)
                    },
                }
            },
            _ => None,
        }
    }

    /// The child one step selects, stamped with this entry's path extended
    /// by that step.
    pub fn get(&self, idx: &EntryIndex) -> (r: Option<TomlEntry>)
        ensures
            match r {
                Some(e) => doc_child(self.data@, idx@) == Some(e.data@) && path_view(e.path@)
                    == path_view(self.path@).push(idx@),
                None => doc_child(self.data@, idx@) is None,
            },
    {
        let child: Option<&DocValue> = match idx {
            EntryIndex::Index(i) => match &self.data {
                DocValue::Array(items) => {
                    proof {
                        lemma_views_of(items@);
                    }
                    if *i < items.len() {
                        Some(&items[*i])
                    } else {
                        None
                    }
                },
                _ => None,
            },
            EntryIndex::Key(key) => match &self.data {
                DocValue::Table(entries) => {
                    proof {
                        lemma_pair_views_of(entries@);
                    }
                    match tbl_find_exec(entries, key) {
                        Some(j) => {
                            proof {
                                lemma_tbl_get_at(pair_views_of(entries@), key@, j as int);
                            }
                            Some(&entries[j].1)
                        },
                        None => {
                            proof {
                                lemma_tbl_get_none(pair_views_of(entries@), key@);
                            }
                            None
                        },
                    }
                },
                _ => None,
            },
        };
        match child {
            Some(c) => {
                let mut path = copy_path(&self.path);
                path.push(idx.duplicate());
                proof {
                    assert(path_view(path@) =~= path_view(self.path@).push(idx@));
                }
                Some(TomlEntry { data: c.deep_copy(), path })
            },
            None => None,
        }
    }

    /// The node a non-empty path selects, stamped with this entry's path
    /// extended by that path. An empty path selects nothing.
    pub fn get_nested(&self, idxs: &Vec<EntryIndex>) -> (r: Option<TomlEntry>)
        ensures
            match r {
                Some(e) => idxs@.len() > 0 && doc_get(self.data@, path_view(idxs@)) == Some(e.data@)
                    && path_view(e.path@) == path_view(self.path@) + path_view(idxs@),
                None => idxs@.len() == 0 || doc_get(self.data@, path_view(idxs@)) is None,
            },
    {
        if idxs.len() == 0 {
            return None;
        }
        proof {
            assert(path_view(idxs@).skip(0) =~= path_view(idxs@));
        }
        match nav(&self.data, idxs, 0) {
            Some(c) => {
                let mut path = copy_path(&self.path);
                let mut i: usize = 0;
                while i < idxs.len()
                    invariant
                        i <= idxs.len(),
                        path@.len() == self.path@.len() + i,
                        forall|k: int|
                            0 <= k < self.path@.len() ==> (#[trigger] path@[k])@
                                == self.path@[k]@,
                        forall|k: int|
                            0 <= k < i ==> (#[trigger] path@[self.path@.len() + k])@
                                == idxs@[k]@,
                    decreases idxs.len() - i,
                {
                    path.push(idxs[i].duplicate());
                    i = i + 1;
                }
                proof {
                    assert forall|k: int|
                        0 <= k < path_view(path@).len() implies path_view(path@)[k] == (path_view(
                        self.path@,
                    ) + path_view(idxs@))[k] by {
                        assert(path_view(path@)[k] == path@[k]@);
                        if k < self.path@.len() {
                            assert((path_view(self.path@) + path_view(idxs@))[k] == path_view(
                                self.path@,
                            )[k]);
                            assert(path_view(self.path@)[k] == self.path@[k]@);
                        } else {
                            assert((path_view(self.path@) + path_view(idxs@))[k] == path_view(
                                idxs@,
                            )[k - self.path@.len()]);
                            assert(path_view(idxs@)[k - self.path@.len()] == idxs@[k
                                - self.path@.len()]@);
                            let kk = k - self.path@.len();
                            assert(path@[self.path@.len() + kk]@ == idxs@[kk]@);
                            assert(path@[k]@ == idxs@[kk]@);
                        }
                    }
                    assert(path_view(path@) =~= path_view(self.path@) + path_view(idxs@));
                }
                Some(TomlEntry { data: c.deep_copy(), path })
            },
            None => None,
        }
    }

    /// The elements of an array node, each stamped with its position.
    pub fn get_array(&self) -> (r: Option<Vec<TomlEntry>>)
        ensures
            match (r, self.data@) {
                (Some(out), ValView::Arr(items)) => out@.len() == items.len() && forall|i: int|
                    0 <= i < items.len() ==> (#[trigger] out@[i]).data@ == items[i] && path_view(
                        out@[i].path@,
                    ) == path_view(self.path@).push(IndexView::Idx(i)),
                (None, v) => !(v is Arr),
                _ => false,
            },
    {
        match &self.data {
            DocValue::Array(items) => {
                proof {
                    lemma_views_of(items@);
                }
                let mut out: Vec<TomlEntry> = Vec::new();
                let mut i: usize = 0;
                while i < items.len()
                    invariant
                        i <= items.len(),
                        out@.len() == i,
                        forall|k: int|
                            0 <= k < i ==> (#[trigger] out@[k]).data@ == views_of(items@)[k]
                                && path_view(out@[k].path@) == path_view(self.path@).push(
                                IndexView::Idx(k),
                            ),
                    decreases items.len() - i,
                {
                    let mut path = copy_path(&self.path);
                    path.push(EntryIndex::Index(i));
                    proof {
                        assert(path_view(path@) =~= path_view(self.path@).push(
                            IndexView::Idx(i as int),
                        ));
                        lemma_views_of(items@);
                    }
                    out.push(TomlEntry { data: items[i].deep_copy(), path });
                    i = i + 1;
                }
                Some(out)
            },
            _ => None,
        }
    }

    /// The entries of a table node, each stamped with its key.
    pub fn get_table(&self) -> (r: Option<Vec<(String, TomlEntry)>>)
        ensures
            match (r, self.data@) {
                (Some(out), ValView::Tbl(entries)) => out@.len() == entries.len() && forall|i: int|
                    0 <= i < entries.len() ==> (#[trigger] out@[i]).0@ == entries[i].0
                        && out@[i].1.data@ == entries[i].1 && path_view(out@[i].1.path@)
                        == path_view(self.path@).push(IndexView::Key(entries[i].0)),
                (None, v) => !(v is Tbl),
                _ => false,
            },
    {
        match &self.data {
            DocValue::Table(entries) => {
                proof {
                    lemma_pair_views_of(entries@);
                }
                let mut out: Vec<(String, TomlEntry)> = Vec::new();
                let mut i: usize = 0;
                while i < entries.len()
                    invariant
                        i <= entries.len(),
                        out@.len() == i,
                        forall|k: int|
                            0 <= k < i ==> (#[trigger] out@[k]).0@ == pair_views_of(entries@)[k].0
                                && out@[k].1.data@ == pair_views_of(entries@)[k].1 && path_view(
                                out@[k].1.path@,
                            ) == path_view(self.path@).push(
                                IndexView::Key(pair_views_of(entries@)[k].0),
                            ),
                    decreases entries.len() - i,
                {
                    let mut path = copy_path(&self.path);
                    path.push(EntryIndex::Key(entries[i].0.clone()));
                    proof {
                        assert(path_view(path@) =~= path_view(self.path@).push(
                            IndexView::Key(entries@[i as int].0@),
                        ));
                        lemma_pair_views_of(entries@);
                    }
                    out.push((entries[i].0.clone(), TomlEntry { data: entries[i].1.deep_copy(), path }));
                    i = i + 1;
                }
                Some(out)
            },
            _ => None,
        }
    }
}


/// The error report each mutation failure produces.
pub open spec fn set_fail_report(f: SetFailure) -> (int, Seq<char>) {
    match f {
        SetFailure::MissingPath => (1int, "Tried to set a value through a missing path segment"@),
        SetFailure::IndexOutOfBounds => (1int, "Tried setting out of bounds index into array"@),
        SetFailure::NotAnArray => (1int, "Tried setting an integer index on a non-array type"@),
        SetFailure::NotATable => (1int, "Tried setting a string key on a non-table type"@),
        SetFailure::BadValue(e) => e,
    }
}

/// The operation a supplied value stands for: deletion for the removal
/// marker, otherwise the converted value or the conversion's failure.
pub open spec fn op_of(val: EntryValue) -> ValueOp {
    match val {
        EntryValue::Remove => ValueOp::Delete,
        _ => match conv_spec(val) {
            Ok(v) => ValueOp::Put(v),
            Err(e) => ValueOp::Refused(e),
        },
    }
}

/// The outcome of a whole mutation: the new tree, or its error report.
pub open spec fn set_outcome(
    root: ValView,
    path: Seq<IndexView>,
    idx: IndexView,
    val: EntryValue,
) -> Result<ValView, (int, Seq<char>)> {
    match doc_set(root, path, idx, op_of(val)) {
        Ok(nv) => Ok(nv),
        Err(f) => Err(set_fail_report(f)),
    }
}

/// The error value a mutation failure is reported as.
fn set_err_to_gobi(e: DocSetErr) -> (r: GobiError)
    ensures
        (r.code as int, r.msg@) == set_fail_report(fail_view(e)),
{
    match e {
        DocSetErr::MissingPath => GobiError {
            code: 1,
            msg: "Tried to set a value through a missing path segment".to_owned(),
        },
        DocSetErr::IndexOutOfBounds => GobiError {
            code: 1,
            msg: "Tried setting out of bounds index into array".to_owned(),
        },
        DocSetErr::NotAnArray => GobiError {
            code: 1,
            msg: "Tried setting an integer index on a non-array type".to_owned(),
        },
        DocSetErr::NotATable => GobiError {
            code: 1,
            msg: "Tried setting a string key on a non-table type".to_owned(),
        },
        DocSetErr::BadValue(e) => e,
    }
}

/// A document bound to the path of the file it was read from. `data` is the
/// whole tree; every mutation replays an entry's recorded path from this
/// root, so an entry taken from one file must not be handed to another.
#[derive(Debug)]
pub struct TomlFile {
    pub path: String,
    pub data: DocValue,
}

impl TomlFile {
    /// A document over the given tree, remembering where it came from.
    pub fn new(path: String, data: DocValue) -> (r: TomlFile)
        ensures
            r.path == path,
            r.data == data,
    {
        TomlFile { path, data }
    }

    /// The path of the backing file.
    pub fn path(&self) -> (r: &str)
        ensures
            r@ == self.path@,
    {
        self.path.as_str()
    }

    /// The root of the tree, as an entry with an empty recorded path.
    pub fn get_data(&self) -> (r: TomlEntry)
        ensures
            r.data@ == self.data@,
            r.path@.len() == 0,
    {
        TomlEntry { data: self.data.deep_copy(), path: Vec::new() }
    }

    /// Replay `entry`'s recorded path from the root and apply `val` at
    /// `idx`: assignment, insertion, append at an array's end, or deletion
    /// when `val` is the removal marker. On failure the tree is unchanged
    /// and the report says which step was refused.
    pub fn set(&mut self, entry: &TomlEntry, idx: EntryIndex, val: EntryValue) -> (r: GobiResult<
        (),
    >)
        ensures
            final(self).path == old(self).path,
            match (r, set_outcome(old(self).data@, path_view(entry.path@), idx@, val)) {
                (Ok(_), Ok(nv)) => final(self).data@ == nv,
                (Err(e), Err(f)) => e.code as int == f.0 && e.msg@ == f.1 && final(self).data@
                    == old(self).data@,
                _ => false,
            },
            wf_view(old(self).data@) && wf_entry_value(val) && r is Ok ==> wf_view(
                final(self).data@,
            ),
    {
        proof {
            if wf_view(self.data@) && wf_entry_value(val) && set_outcome(
                self.data@,
                path_view(entry.path@),
                idx@,
                val,
            ) is Ok {
                lemma_set_outcome_wf(self.data@, path_view(entry.path@), idx@, val);
            }
        }
        let op: DocOp = match val {
            EntryValue::Remove => DocOp::Delete,
            v => match convert_ref(&v) {
                Ok(dv) => DocOp::Put(dv),
                Err(e) => DocOp::Refused(e),
            },
        };
        proof {
            assert(path_view(entry.path@).skip(0) =~= path_view(entry.path@));
        }
        match doc_set_exec(&self.data, &entry.path, 0, &idx, op) {
            Ok(nv) => {
                self.data = nv;
                Ok(())
            },
            Err(e) => Err(set_err_to_gobi(e)),
        }
    }

    /// Delete the location `idx` under `entry`: `set` with the removal
    /// marker.
    pub fn drop(&mut self, entry: &TomlEntry, idx: EntryIndex) -> (r: GobiResult<()>)
        ensures
            final(self).path == old(self).path,
            match (r, set_outcome(
                old(self).data@,
                path_view(entry.path@),
                idx@,
                EntryValue::Remove,
            )) {
                (Ok(_), Ok(nv)) => final(self).data@ == nv,
                (Err(e), Err(f)) => e.code as int == f.0 && e.msg@ == f.1 && final(self).data@
                    == old(self).data@,
                _ => false,
            },
    {
        self.set(entry, idx, EntryValue::Remove)
    }

    /// Append `val` at the end of the array `entry` snapshots: `set` at the
    /// snapshot's length. On a non-array entry, a dedicated error.
    pub fn push(&mut self, entry: &TomlEntry, val: EntryValue) -> (r: GobiResult<()>)
        ensures
            final(self).path == old(self).path,
            match entry.data@ {
                ValView::Arr(items) => match (r, set_outcome(
                    old(self).data@,
                    path_view(entry.path@),
                    IndexView::Idx(items.len() as int),
                    val,
                )) {
                    (Ok(_), Ok(nv)) => final(self).data@ == nv,
                    (Err(e), Err(f)) => e.code as int == f.0 && e.msg@ == f.1 && final(self).data@
                        == old(self).data@,
                    _ => false,
                },
                _ => r matches Err(e) && e.code == 1 && e.msg@
                    == "Called push on a non-array type"@ && final(self).data@ == old(self).data@,
            },
    {
        match entry.len() {
            Some(len) => self.set(entry, EntryIndex::Index(len), val),
            None => Err(
                GobiError { code: 1, msg: "Called push on a non-array type".to_owned() },
            ),
        }
    }

    /// Remove and return the last element of the array `entry` snapshots.
    /// Popping an empty array or a non-array fails with a dedicated error.
    pub fn pop(&mut self, entry: &TomlEntry) -> (r: GobiResult<Option<TomlEntry>>)
        ensures
            final(self).path == old(self).path,
            match entry.data@ {
                ValView::Arr(items) => if items.len() == 0 {
                    r matches Err(e) && e.code == 1 && e.msg@ == "Called pop on an empty array"@
                        && final(self).data@ == old(self).data@
                } else {
                    match (r, set_outcome(
                        old(self).data@,
                        path_view(entry.path@),
                        IndexView::Idx(items.len() - 1),
                        EntryValue::Remove,
                    )) {
                        (Ok(popped), Ok(nv)) => final(self).data@ == nv && (popped matches Some(e2)
                            && e2.data@ == items.last() && path_view(e2.path@) == path_view(
                            entry.path@,
                        ).push(IndexView::Idx(items.len() - 1))),
                        (Err(e), Err(f)) => e.code as int == f.0 && e.msg@ == f.1
                            && final(self).data@ == old(self).data@,
                        _ => false,
                    }
                },
                _ => r matches Err(e) && e.code == 1 && e.msg@ == "Called pop on a non-array type"@
                    && final(self).data@ == old(self).data@,
            },
    {
        match entry.len() {
            Some(0) => Err(GobiError { code: 1, msg: "Called pop on an empty array".to_owned() }),
            Some(len) => {
                let last = entry.get(&EntryIndex::Index(len - 1));
                match self.set(entry, EntryIndex::Index(len - 1), EntryValue::Remove) {
                    Ok(_) => Ok(last),
                    Err(e) => Err(e),
                }
            },
            None => Err(GobiError { code: 1, msg: "Called pop on a non-array type".to_owned() }),
        }
    }
}

/// Looking up a key just put into a table finds the new value.
pub proof fn lemma_tbl_get_put(entries: Seq<(Seq<char>, ValView)>, key: Seq<char>, v: ValView)
    ensures
        tbl_get(tbl_put(entries, key, v), key) == Some(v),
    decreases entries.len(),
{
    if entries.len() > 0 && entries[0].0 != key {
        lemma_tbl_get_put(entries.drop_first(), key, v);
        assert((seq![entries[0]] + tbl_put(entries.drop_first(), key, v)).drop_first()
            =~= tbl_put(entries.drop_first(), key, v));
    }
}

/// After replacing the child a step selects, that step selects the new child.
pub proof fn lemma_doc_child_replace(v: ValView, idx: IndexView, c: ValView)
    requires
        doc_child(v, idx) is Some,
    ensures
        doc_child(replace_child(v, idx, c), idx) == Some(c),
{
    match (v, idx) {
        (ValView::Tbl(entries), IndexView::Key(k)) => {
            lemma_tbl_get_put(entries, k, c);
        },
        _ => {},
    }
}

/// Writing a value at a path and reading it back at that path yields a
/// structurally equal tree: the round trip of `set` then `get`.
pub proof fn lemma_set_get_roundtrip(
    root: ValView,
    path: Seq<IndexView>,
    idx: IndexView,
    val: ValView,
    nv: ValView,
)
    requires
        doc_set(root, path, idx, ValueOp::Put(val)) == Ok::<ValView, SetFailure>(nv),
    ensures
        doc_get(nv, path.push(idx)) == Some(val),
    decreases path.len(),
{
    let p1 = path.push(idx);
    if path.len() == 0 {
        assert(p1[0] == idx);
        assert(p1.drop_first() =~= Seq::<IndexView>::empty());
        match (root, idx) {
            (ValView::Tbl(entries), IndexView::Key(k)) => {
                lemma_tbl_get_put(entries, k, val);
                assert(nv == ValView::Tbl(tbl_put(entries, k, val)));
                assert(doc_child(nv, idx) == Some(val));
            },
            (ValView::Arr(items), IndexView::Idx(i)) => {
                if i < items.len() {
                    assert(nv == ValView::Arr(items.update(i, val)));
                    assert(doc_child(nv, idx) == Some(items.update(i, val)[i]));
                } else {
                    assert(nv == ValView::Arr(items.push(val)));
                    assert(doc_child(nv, idx) == Some(items.push(val)[items.len() as int]));
                }
                assert(doc_child(nv, idx) == Some(val));
            },
            _ => {
                assert(false);
            },
        }
        assert(doc_get(val, p1.drop_first()) == Some(val));
        assert(doc_get(nv, p1) == doc_get(val, p1.drop_first()));
    } else {
        let c = doc_child(root, path[0]).unwrap();
        let c2 = doc_set(c, path.drop_first(), idx, ValueOp::Put(val))->Ok_0;
        lemma_set_get_roundtrip(c, path.drop_first(), idx, val, c2);
        lemma_doc_child_replace(root, path[0], c2);
        assert(p1[0] == path[0]);
        assert(nv == replace_child(root, path[0], c2));
        assert(doc_child(nv, p1[0]) == Some(c2));
        assert(p1.drop_first() =~= path.drop_first().push(idx));
        assert(doc_get(c2, path.drop_first().push(idx)) == Some(val));
        assert(doc_get(nv, p1) == doc_get(c2, p1.drop_first()));
    }
}

/// A first match exists wherever `tbl_get` finds a value.
pub proof fn lemma_tbl_get_some_first(entries: Seq<(Seq<char>, ValView)>, key: Seq<char>) -> (j:
    int)
    requires
        tbl_get(entries, key) is Some,
    ensures
        first_key_at(entries, key, j),
        entries[j].1 == tbl_get(entries, key)->Some_0,
    decreases entries.len(),
{
    if entries[0].0 == key {
        0
    } else {
        let j0 = lemma_tbl_get_some_first(entries.drop_first(), key);
        assert(entries.drop_first()[j0] == entries[j0 + 1]);
        assert forall|m: int| 0 <= m < j0 + 1 implies (#[trigger] entries[m]).0 != key by {
            if m > 0 {
                assert(entries.drop_first()[m - 1] == entries[m]);
            }
        }
        j0 + 1
    }
}

/// Replacing a child by what already stands there changes nothing.
pub proof fn lemma_replace_child_undo(v: ValView, idx: IndexView, c: ValView)
    requires
        doc_child(v, idx) == Some(c),
    ensures
        replace_child(v, idx, c) == v,
{
    match (v, idx) {
        (ValView::Arr(items), IndexView::Idx(i)) => {
            assert(items.update(i, c) =~= items);
        },
        (ValView::Tbl(entries), IndexView::Key(k)) => {
            let j = lemma_tbl_get_some_first(entries, k);
            lemma_tbl_put_at(entries, k, c, j);
            assert(entries.update(j, (k, c)) =~= entries);
        },
        _ => {},
    }
}

/// Popping the last element of an array and pushing the popped value back
/// restores the original tree.
pub proof fn lemma_pop_push_restores(root: ValView, path: Seq<IndexView>, items: Seq<ValView>)
    requires
        doc_get(root, path) == Some(ValView::Arr(items)),
        items.len() > 0,
    ensures
        ({
            let at = IndexView::Idx(items.len() - 1);
            let popped = doc_set(root, path, at, ValueOp::Delete);
            popped is Ok && doc_set(popped->Ok_0, path, at, ValueOp::Put(items.last()))
                == Ok::<ValView, SetFailure>(root)
        }),
    decreases path.len(),
{
    let at = IndexView::Idx(items.len() - 1);
    if path.len() == 0 {
        assert(items.remove(items.len() - 1).push(items.last()) =~= items);
    } else {
        let c = doc_child(root, path[0]).unwrap();
        lemma_pop_push_restores(c, path.drop_first(), items);
        let c1 = doc_set(c, path.drop_first(), at, ValueOp::Delete)->Ok_0;
        let r1 = replace_child(root, path[0], c1);
        lemma_doc_child_replace(root, path[0], c1);
        assert(doc_set(c1, path.drop_first(), at, ValueOp::Put(items.last())) == Ok::<
            ValView,
            SetFailure,
        >(c));
        lemma_replace_child_undo_after(root, path[0], c1, c);
    }
}

/// Replacing a child, then replacing it again by the original child,
/// restores the original tree.
pub proof fn lemma_replace_child_undo_after(v: ValView, idx: IndexView, c1: ValView, c: ValView)
    requires
        doc_child(v, idx) == Some(c),
    ensures
        replace_child(replace_child(v, idx, c1), idx, c) == v,
{
    match (v, idx) {
        (ValView::Arr(items), IndexView::Idx(i)) => {
            assert(items.update(i, c1).update(i, c) =~= items);
        },
        (ValView::Tbl(entries), IndexView::Key(k)) => {
            let j = lemma_tbl_get_some_first(entries, k);
            lemma_tbl_put_at(entries, k, c1, j);
            let e1 = entries.update(j, (k, c1));
            assert(first_key_at(e1, k, j)) by {
                assert(forall|m: int| 0 <= m < j ==> e1[m] == entries[m]);
            }
            lemma_tbl_put_at(e1, k, c, j);
            assert(e1.update(j, (k, c)) =~= entries);
        },
        _ => {},
    }
}


/// Unfolding a one-step mutation path.
pub proof fn lemma_doc_set_one(v: ValView, k1: IndexView, idx: IndexView, op: ValueOp)
    requires
        doc_child(v, k1) is Some,
    ensures
        doc_set(v, seq![k1], idx, op) == (match apply_op(doc_child(v, k1)->Some_0, idx, op) {
            Ok(c2) => Ok::<ValView, SetFailure>(replace_child(v, k1, c2)),
            Err(f) => Err(f),
        }),
{
    let p = seq![k1];
    assert(p[0] == k1);
    assert(p.drop_first() =~= Seq::<IndexView>::empty());
    let c = doc_child(v, k1)->Some_0;
    assert(doc_set(c, p.drop_first(), idx, op) == apply_op(c, idx, op));
}

/// Unfolding a two-step mutation path.
pub proof fn lemma_doc_set_two(v: ValView, k1: IndexView, k2: IndexView, idx: IndexView, op: ValueOp)
    requires
        doc_child(v, k1) is Some,
        doc_child(doc_child(v, k1)->Some_0, k2) is Some,
    ensures
        doc_set(v, seq![k1, k2], idx, op) == (match apply_op(
            doc_child(doc_child(v, k1)->Some_0, k2)->Some_0,
            idx,
            op,
        ) {
            Ok(c2) => Ok::<ValView, SetFailure>(
                replace_child(
                    v,
                    k1,
                    replace_child(doc_child(v, k1)->Some_0, k2, c2),
                ),
            ),
            Err(f) => Err(f),
        }),
{
    let p = seq![k1, k2];
    assert(p[0] == k1);
    assert(p.drop_first() =~= seq![k2]);
    let g = doc_child(v, k1)->Some_0;
    lemma_doc_set_one(g, k2, idx, op);
    assert(doc_set(g, p.drop_first(), idx, op) == doc_set(g, seq![k2], idx, op));
}

/// A mutation through a path that does not resolve reports the missing
/// segment and nothing else.
pub proof fn lemma_doc_set_nav_missing(v: ValView, path: Seq<IndexView>, idx: IndexView, op: ValueOp)
    requires
        path.len() > 0,
        doc_get(v, path) is None,
    ensures
        doc_set(v, path, idx, op) == Err::<ValView, SetFailure>(SetFailure::MissingPath),
    decreases path.len(),
{
    match doc_child(v, path[0]) {
        None => {},
        Some(c) => {
            assert(doc_get(c, path.drop_first()) is None);
            if path.drop_first().len() == 0 {
                assert(doc_get(c, path.drop_first()) == Some(c));
                assert(false);
            } else {
                lemma_doc_set_nav_missing(c, path.drop_first(), idx, op);
            }
        },
    }
}


/// Every table in the tree keeps at most one entry per key.
pub open spec fn wf_view(v: ValView) -> bool
    decreases v,
{
    match v {
        ValView::Arr(items) => wf_all(items),
        ValView::Tbl(entries) => keys_unique(entries) && wf_vals(entries),
        _ => true,
    }
}

/// Well-formedness of every element of an array.
pub open spec fn wf_all(items: Seq<ValView>) -> bool
    decreases items,
{
    items.len() == 0 || (wf_view(items[0]) && wf_all(items.drop_first()))
}

/// Well-formedness of every value of a table.
pub open spec fn wf_vals(entries: Seq<(Seq<char>, ValView)>) -> bool
    decreases entries,
{
    entries.len() == 0 || (wf_view(entries[0].1) && wf_vals(entries.drop_first()))
}

/// No two entries of a table share a key.
pub open spec fn keys_unique(entries: Seq<(Seq<char>, ValView)>) -> bool {
    forall|i: int, j: int|
        0 <= i < j < entries.len() ==> (#[trigger] entries[i]).0 != (#[trigger] entries[j]).0
}

/// `wf_all` holds exactly of sequences whose elements are all well-formed.
pub proof fn lemma_wf_all_index(items: Seq<ValView>)
    ensures
        wf_all(items) <==> (forall|i: int| 0 <= i < items.len() ==> wf_view(#[trigger] items[i])),
    decreases items.len(),
{
    if items.len() > 0 {
        lemma_wf_all_index(items.drop_first());
        assert forall|i: int| 0 <= i < items.drop_first().len() implies items.drop_first()[i]
            == items[i + 1] by {}
        if wf_view(items[0]) && wf_all(items.drop_first()) {
            assert forall|i: int| 0 <= i < items.len() implies wf_view(items[i]) by {
                if i > 0 {
                    assert(items.drop_first()[i - 1] == items[i]);
                }
            }
        }
        if forall|i: int| 0 <= i < items.len() ==> wf_view(#[trigger] items[i]) {
            assert forall|i: int|
                0 <= i < items.drop_first().len() implies wf_view(items.drop_first()[i]) by {
                assert(items.drop_first()[i] == items[i + 1]);
            }
        }
    }
}

/// `wf_vals` holds exactly of tables whose values are all well-formed.
pub proof fn lemma_wf_vals_index(entries: Seq<(Seq<char>, ValView)>)
    ensures
        wf_vals(entries) <==> (forall|i: int|
            0 <= i < entries.len() ==> wf_view((#[trigger] entries[i]).1)),
    decreases entries.len(),
{
    if entries.len() > 0 {
        lemma_wf_vals_index(entries.drop_first());
        if wf_view(entries[0].1) && wf_vals(entries.drop_first()) {
            assert forall|i: int| 0 <= i < entries.len() implies wf_view(entries[i].1) by {
                if i > 0 {
                    assert(entries.drop_first()[i - 1] == entries[i]);
                }
            }
        }
        if forall|i: int| 0 <= i < entries.len() ==> wf_view((#[trigger] entries[i]).1) {
            assert forall|i: int|
                0 <= i < entries.drop_first().len() implies wf_view(entries.drop_first()[i].1) by {
                assert(entries.drop_first()[i] == entries[i + 1]);
            }
        }
    }
}

/// Where no entry holds the key, every key differs from it.
pub proof fn lemma_tbl_get_none_keys(entries: Seq<(Seq<char>, ValView)>, key: Seq<char>)
    requires
        tbl_get(entries, key) is None,
    ensures
        forall|i: int| 0 <= i < entries.len() ==> (#[trigger] entries[i]).0 != key,
    decreases entries.len(),
{
    if entries.len() > 0 {
        lemma_tbl_get_none_keys(entries.drop_first(), key);
        assert forall|i: int| 0 <= i < entries.len() implies entries[i].0 != key by {
            if i > 0 {
                assert(entries.drop_first()[i - 1] == entries[i]);
            }
        }
    }
}

/// Storing a well-formed value keeps a table well-formed.
pub proof fn lemma_tbl_put_wf(entries: Seq<(Seq<char>, ValView)>, key: Seq<char>, v: ValView)
    requires
        keys_unique(entries),
        wf_vals(entries),
        wf_view(v),
    ensures
        keys_unique(tbl_put(entries, key, v)),
        wf_vals(tbl_put(entries, key, v)),
{
    lemma_wf_vals_index(entries);
    match tbl_get(entries, key) {
        Some(_) => {
            let j = lemma_tbl_get_some_first(entries, key);
            lemma_tbl_put_at(entries, key, v, j);
            let out = entries.update(j, (key, v));
            assert forall|i: int, m: int|
                0 <= i < m < out.len() implies (#[trigger] out[i]).0 != (#[trigger] out[m]).0 by {
                assert(entries[j].0 == key);
            }
            lemma_wf_vals_index(out);
        },
        None => {
            lemma_tbl_get_none_keys(entries, key);
            lemma_tbl_put_absent(entries, key, v);
            let out = entries.push((key, v));
            assert forall|i: int, m: int|
                0 <= i < m < out.len() implies (#[trigger] out[i]).0 != (#[trigger] out[m]).0 by {
                if m < entries.len() {
                } else {
                    assert(out[i] == entries[i] && out[m] == (key, v));
                }
            }
            lemma_wf_vals_index(out);
        },
    }
}

/// Removing an entry keeps a table well-formed.
pub proof fn lemma_tbl_remove_wf(entries: Seq<(Seq<char>, ValView)>, key: Seq<char>)
    requires
        keys_unique(entries),
        wf_vals(entries),
    ensures
        keys_unique(tbl_remove(entries, key)),
        wf_vals(tbl_remove(entries, key)),
{
    lemma_wf_vals_index(entries);
    match tbl_get(entries, key) {
        Some(_) => {
            let j = lemma_tbl_get_some_first(entries, key);
            lemma_tbl_remove_at(entries, key, j);
            let out = entries.remove(j);
            assert forall|i: int, m: int|
                0 <= i < m < out.len() implies (#[trigger] out[i]).0 != (#[trigger] out[m]).0 by {
                let oi = if i < j {
                    i
                } else {
                    i + 1
                };
                let om = if m < j {
                    m
                } else {
                    m + 1
                };
                assert(out[i] == entries[oi] && out[m] == entries[om]);
            }
            lemma_wf_vals_index(out);
        },
        None => {
            lemma_tbl_get_none_keys(entries, key);
            lemma_tbl_remove_absent(entries, key);
            assert(tbl_remove(entries, key) == entries);
        },
    }
}

/// The child a step selects in a well-formed tree is well-formed.
pub proof fn lemma_doc_child_wf(v: ValView, idx: IndexView)
    requires
        wf_view(v),
        doc_child(v, idx) is Some,
    ensures
        wf_view(doc_child(v, idx)->Some_0),
{
    match (v, idx) {
        (ValView::Arr(items), IndexView::Idx(i)) => {
            lemma_wf_all_index(items);
        },
        (ValView::Tbl(entries), IndexView::Key(k)) => {
            let j = lemma_tbl_get_some_first(entries, k);
            lemma_wf_vals_index(entries);
        },
        _ => {},
    }
}

/// Applying an operation with a well-formed value keeps the node
/// well-formed.
pub proof fn lemma_apply_op_wf(v: ValView, idx: IndexView, op: ValueOp)
    requires
        wf_view(v),
        op matches ValueOp::Put(x) ==> wf_view(x),
        apply_op(v, idx, op) is Ok,
    ensures
        wf_view(apply_op(v, idx, op)->Ok_0),
{
    match (v, idx) {
        (ValView::Arr(items), IndexView::Idx(i)) => {
            lemma_wf_all_index(items);
            match op {
                ValueOp::Delete => {
                    lemma_wf_all_index(items.remove(i));
                    assert forall|m: int|
                        0 <= m < items.remove(i).len() implies wf_view(items.remove(i)[m]) by {
                        if m < i {
                            assert(items.remove(i)[m] == items[m]);
                        } else {
                            assert(items.remove(i)[m] == items[m + 1]);
                        }
                    }
                },
                ValueOp::Put(x) => {
                    if i < items.len() {
                        lemma_wf_all_index(items.update(i, x));
                    } else {
                        lemma_wf_all_index(items.push(x));
                        assert forall|m: int|
                            0 <= m < items.push(x).len() implies wf_view(items.push(x)[m]) by {
                            if m < items.len() {
                                assert(items.push(x)[m] == items[m]);
                            }
                        }
                    }
                },
                ValueOp::Refused(_) => {},
            }
        },
        (ValView::Tbl(entries), IndexView::Key(k)) => {
            match op {
                ValueOp::Delete => {
                    lemma_tbl_remove_wf(entries, k);
                },
                ValueOp::Put(x) => {
                    lemma_tbl_put_wf(entries, k, x);
                },
                ValueOp::Refused(_) => {},
            }
        },
        _ => {},
    }
}

/// Replaying a path and applying a well-formed value keeps the whole tree
/// well-formed: mutation preserves the document's table-key uniqueness.
pub proof fn lemma_doc_set_wf(v: ValView, path: Seq<IndexView>, idx: IndexView, op: ValueOp)
    requires
        wf_view(v),
        op matches ValueOp::Put(x) ==> wf_view(x),
        doc_set(v, path, idx, op) is Ok,
    ensures
        wf_view(doc_set(v, path, idx, op)->Ok_0),
    decreases path.len(),
{
    if path.len() == 0 {
        lemma_apply_op_wf(v, idx, op);
    } else {
        let c = doc_child(v, path[0]).unwrap();
        lemma_doc_child_wf(v, path[0]);
        lemma_doc_set_wf(c, path.drop_first(), idx, op);
        let c2 = doc_set(c, path.drop_first(), idx, op)->Ok_0;
        match (v, path[0]) {
            (ValView::Arr(items), IndexView::Idx(i)) => {
                lemma_wf_all_index(items);
                lemma_wf_all_index(items.update(i, c2));
            },
            (ValView::Tbl(entries), IndexView::Key(k)) => {
                lemma_tbl_put_wf(entries, k, c2);
            },
            _ => {},
        }
    }
}


/// Well-formedness of a supplied value: every entry snapshot embedded in it
/// carries a well-formed tree. Table values need no unique keys here: the
/// conversion inserts key by key, so duplicates collapse.
pub open spec fn wf_entry_value(ev: EntryValue) -> bool
    decreases ev,
{
    match ev {
        EntryValue::Entry(e) => wf_view(e.data@),
        EntryValue::Array(items) => {
            proof {
                assert(decreases_to!(ev => items));
                assert(decreases_to!(items => items@));
            }
            wf_entry_values(items@)
        },
        EntryValue::Table(entries) => {
            proof {
                assert(decreases_to!(ev => entries));
                assert(decreases_to!(entries => entries@));
            }
            wf_entry_pairs(entries@)
        },
        _ => true,
    }
}

pub open spec fn wf_entry_values(items: Seq<EntryValue>) -> bool
    decreases items,
{
    items.len() == 0 || (wf_entry_value(items[0]) && wf_entry_values(items.drop_first()))
}

pub open spec fn wf_entry_pairs(entries: Seq<(String, EntryValue)>) -> bool
    decreases entries,
{
    entries.len() == 0 || ({
        proof {
            assert(decreases_to!(entries => entries[0]));
            assert(decreases_to!(entries[0] => entries[0].1));
        }
        wf_entry_value(entries[0].1) && wf_entry_pairs(entries.drop_first())
    })
}

/// Converting a well-formed supplied value yields a well-formed tree.
pub proof fn lemma_conv_wf(ev: EntryValue)
    requires
        wf_entry_value(ev),
        conv_spec(ev) is Ok,
    ensures
        wf_view(conv_spec(ev)->Ok_0),
    decreases ev,
{
    match ev {
        EntryValue::Array(items) => {
            lemma_conv_seq_wf(items@, Seq::empty(), (0int, Seq::<char>::empty()));
        },
        EntryValue::Table(entries) => {
            lemma_conv_tbl_wf(entries@, Seq::empty(), (0int, Seq::<char>::empty()));
        },
        _ => {},
    }
}

/// The array fold keeps every accumulated element well-formed.
proof fn lemma_conv_seq_wf(items: Seq<EntryValue>, vs: Seq<ValView>, err: (int, Seq<char>))
    requires
        wf_entry_values(items),
        wf_all(vs),
    ensures
        wf_all(conv_seq(items, vs, err).0),
    decreases items,
{
    if items.len() > 0 {
        match conv_spec(items[0]) {
            Ok(v) => {
                lemma_conv_wf(items[0]);
                lemma_wf_all_index(vs);
                lemma_wf_all_index(vs.push(v));
                assert forall|i: int| 0 <= i < vs.push(v).len() implies wf_view(vs.push(v)[i]) by {
                    if i < vs.len() {
                        assert(vs.push(v)[i] == vs[i]);
                    }
                }
                lemma_conv_seq_wf(items.drop_first(), vs.push(v), err);
            },
            Err(e) => {
                lemma_conv_seq_wf(items.drop_first(), vs, merge_spec(err, e));
            },
        }
    }
}

/// The table fold keeps the accumulated table well-formed.
proof fn lemma_conv_tbl_wf(
    entries: Seq<(String, EntryValue)>,
    vs: Seq<(Seq<char>, ValView)>,
    err: (int, Seq<char>),
)
    requires
        wf_entry_pairs(entries),
        keys_unique(vs),
        wf_vals(vs),
    ensures
        keys_unique(conv_tbl(entries, vs, err).0),
        wf_vals(conv_tbl(entries, vs, err).0),
    decreases entries,
{
    if entries.len() > 0 {
        match conv_spec(entries[0].1) {
            Ok(v) => {
                lemma_conv_wf(entries[0].1);
                lemma_tbl_put_wf(vs, entries[0].0@, v);
                lemma_conv_tbl_wf(entries.drop_first(), tbl_put(vs, entries[0].0@, v), err);
            },
            Err(e) => {
                lemma_conv_tbl_wf(entries.drop_first(), vs, merge_spec(err, e));
            },
        }
    }
}

/// A mutation over a well-formed tree with a well-formed supplied value
/// leaves the tree well-formed.
pub proof fn lemma_set_outcome_wf(
    root: ValView,
    path: Seq<IndexView>,
    idx: IndexView,
    val: EntryValue,
)
    requires
        wf_view(root),
        wf_entry_value(val),
        set_outcome(root, path, idx, val) is Ok,
    ensures
        wf_view(set_outcome(root, path, idx, val)->Ok_0),
{
    match op_of(val) {
        ValueOp::Put(x) => {
            lemma_conv_wf(val);
        },
        _ => {},
    }
    lemma_doc_set_wf(root, path, idx, op_of(val));
}

} // verus!
