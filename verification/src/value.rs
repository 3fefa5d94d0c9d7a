//! Typed view of a parsed configuration document: nested tables, arrays and
//! scalars. Resolution and generation work on this model only.

use vstd::prelude::*;

use crate::text::str_eq;

verus! {

/// One value of a parsed schema document. Float values carry their decimal
/// rendering as text: the core only ever threads such values through into
/// generated literals, so it keeps them deliberately textual.
#[derive(Debug, PartialEq)]
pub enum DocValue {
    Str(String),
    Int(i64),
    Float(String),
    Bool(bool),
    Datetime(String),
    Array(Vec<DocValue>),
    Table(Vec<(String, DocValue)>),
}

/// A document table: an ordered list of key/value entries.
pub type DocTable = Vec<(String, DocValue)>;

/// Mathematical model of a document value.
pub enum ValueV {
    Str(Seq<char>),
    Int(int),
    Float(Seq<char>),
    Bool(bool),
    Datetime(Seq<char>),
    Array(Seq<ValueV>),
    Table(Seq<(Seq<char>, ValueV)>),
}

/// Mathematical model of a document table.
pub type TableV = Seq<(Seq<char>, ValueV)>;

impl DocValue {
    /// The mathematical model of this value.
    pub open spec fn deep(self) -> ValueV
        decreases self,
        via Self::deep_decreases
    {
        match self {
            DocValue::Str(s) => ValueV::Str(s@),
            DocValue::Int(i) => ValueV::Int(i as int),
            DocValue::Float(t) => ValueV::Float(t@),
            DocValue::Bool(b) => ValueV::Bool(b),
            DocValue::Datetime(t) => ValueV::Datetime(t@),
            DocValue::Array(items) => ValueV::Array(deep_seq(items@)),
            DocValue::Table(entries) => ValueV::Table(table_deep(entries@)),
        }
    }

    #[via_fn]
    proof fn deep_decreases(self) {
        match self {
            DocValue::Array(items) => {
                assert(decreases_to!(self => items));
                assert(decreases_to!(items => items@));
            },
            DocValue::Table(entries) => {
                assert(decreases_to!(self => entries));
                assert(decreases_to!(entries => entries@));
            },
            _ => {},
        }
    }
}

impl View for DocValue {
    type V = ValueV;

    open spec fn view(&self) -> ValueV {
        self.deep()
    }
}

/// The models of a sequence of values, element by element.
pub open spec fn deep_seq(items: Seq<DocValue>) -> Seq<ValueV>
    decreases items,
{
    if items.len() == 0 {
        Seq::empty()
    } else {
        seq![items[0].deep()] + deep_seq(items.drop_first())
    }
}

/// The model of an executable table, entry by entry.
pub open spec fn table_deep(entries: Seq<(String, DocValue)>) -> TableV
    decreases entries,
    via table_deep_decreases
{
    if entries.len() == 0 {
        Seq::empty()
    } else {
        seq![(entries[0].0@, entries[0].1.deep())] + table_deep(entries.drop_first())
    }
}

#[via_fn]
proof fn table_deep_decreases(entries: Seq<(String, DocValue)>) {
    if entries.len() != 0 {
        assert(decreases_to!(entries => entries[0]));
        assert(decreases_to!(entries[0] => entries[0].1));
    }
}

/// `deep_seq` maps the model over the elements.
pub broadcast proof fn lemma_deep_seq(items: Seq<DocValue>)
    ensures
        (#[trigger] deep_seq(items)).len() == items.len(),
        forall|i: int| 0 <= i < items.len() ==> deep_seq(items)[i] == (#[trigger] items[i]).deep(),
    decreases items,
{
    if items.len() != 0 {
        lemma_deep_seq(items.drop_first());
        assert forall|i: int| 0 <= i < items.len() implies deep_seq(items)[i] == (
        #[trigger] items[i]).deep() by {
            if i > 0 {
                assert(items.drop_first()[i - 1] == items[i]);
                assert(deep_seq(items)[i] == deep_seq(items.drop_first())[i - 1]);
            }
        }
    }
}

/// `table_deep` maps the model over the entries.
pub broadcast proof fn lemma_table_deep(entries: Seq<(String, DocValue)>)
    ensures
        (#[trigger] table_deep(entries)).len() == entries.len(),
        forall|i: int| 0 <= i < entries.len() ==> table_deep(entries)[i] == ((#[trigger] entries[i]).0@,
        entries[i].1.deep()),
    decreases entries,
{
    if entries.len() != 0 {
        lemma_table_deep(entries.drop_first());
        assert forall|i: int| 0 <= i < entries.len() implies table_deep(entries)[i] == ((
        #[trigger] entries[i]).0@, entries[i].1.deep()) by {
            if i > 0 {
                assert(entries.drop_first()[i - 1] == entries[i]);
                assert(table_deep(entries)[i] == table_deep(entries.drop_first())[i - 1]);
            }
        }
    }
}

/// First value bound to `key` at or after position `i`.
pub open spec fn tbl_get_from(t: TableV, key: Seq<char>, i: int) -> Option<ValueV>
    decreases t.len() - i,
{
    if i < 0 || i >= t.len() {
        None
    } else if t[i].0 == key {
        Some(t[i].1)
    } else {
        tbl_get_from(t, key, i + 1)
    }
}

/// First value bound to `key` in the table, if any.
pub open spec fn tbl_get(t: TableV, key: Seq<char>) -> Option<ValueV> {
    tbl_get_from(t, key, 0)
}

/// The string bound to `key`, if the key is present and holds a string.
pub open spec fn tbl_get_str(t: TableV, key: Seq<char>) -> Option<Seq<char>> {
    match tbl_get(t, key) {
        Some(ValueV::Str(s)) => Some(s),
        _ => None,
    }
}

/// The boolean bound to `key`, if the key is present and holds a boolean.
pub open spec fn tbl_get_bool(t: TableV, key: Seq<char>) -> Option<bool> {
    match tbl_get(t, key) {
        Some(ValueV::Bool(b)) => Some(b),
        _ => None,
    }
}

impl DocValue {
    /// The string held by this value, if it is a string.
    pub fn as_str(&self) -> (r: Option<&String>)
        ensures
            match r {
                Some(s) => self.deep() == ValueV::Str(s@),
                None => !(self.deep() is Str),
            },
    {
        match self {
            DocValue::Str(s) => Some(s),
            _ => None,
        }
    }

    /// The boolean held by this value, if it is a boolean.
    pub fn as_bool(&self) -> (r: Option<bool>)
        ensures
            match r {
                Some(b) => self.deep() == ValueV::Bool(b),
                None => !(self.deep() is Bool),
            },
    {
        match self {
            DocValue::Bool(b) => Some(*b),
            _ => None,
        }
    }
}

/// A copy of a document value, equal to the original in the model.
#[verifier::loop_isolation(false)]
pub fn clone_value(v: &DocValue) -> (r: DocValue)
    ensures
        r.deep() == v.deep(),
    decreases v,
{
    match v {
        DocValue::Str(s) => DocValue::Str(s.clone()),
        DocValue::Int(i) => DocValue::Int(*i),
        DocValue::Float(t) => DocValue::Float(t.clone()),
        DocValue::Bool(b) => DocValue::Bool(*b),
        DocValue::Datetime(t) => DocValue::Datetime(t.clone()),
        DocValue::Array(items) => {
            let n = items.len();
            let mut out: Vec<DocValue> = Vec::new();
            let mut i: usize = 0;
            while i < n
                invariant
                    0 <= i <= n,
                    n == items@.len(),
                    out@.len() == i,
                    forall|j: int| 0 <= j < i ==> (#[trigger] out@[j]).deep() == items@[j].deep(),
                decreases n - i,
            {
                proof {
                    assert(decreases_to!(v => items));
                    assert(decreases_to!(items => items@));
                    assert(decreases_to!(items@ => items@[i as int]));
                }
                let c = clone_value(&items[i]);
                out.push(c);
                i += 1;
            }
            proof {
                lemma_deep_seq(items@);
                lemma_deep_seq(out@);
                assert forall|j: int| 0 <= j < items@.len() implies deep_seq(out@)[j] == deep_seq(
                    items@,
                )[j] by {
                    assert(out@[j].deep() == items@[j].deep());
                }
                assert(deep_seq(out@) =~= deep_seq(items@));
            }
            DocValue::Array(out)
        },
        DocValue::Table(entries) => {
            let n = entries.len();
            let mut out: Vec<(String, DocValue)> = Vec::new();
            let mut i: usize = 0;
            while i < n
                invariant
                    0 <= i <= n,
                    n == entries@.len(),
                    out@.len() == i,
                    forall|j: int|
                        0 <= j < i ==> (#[trigger] out@[j]).0@ == entries@[j].0@ && out@[j].1.deep()
                            == entries@[j].1.deep(),
                decreases n - i,
            {
                proof {
                    assert(decreases_to!(v => entries));
                    assert(decreases_to!(entries => entries@));
                    assert(decreases_to!(entries@ => entries@[i as int]));
                    assert(decreases_to!(entries@[i as int] => entries@[i as int].1));
                }
                let k = entries[i].0.clone();
                let c = clone_value(&entries[i].1);
                out.push((k, c));
                i += 1;
            }
            proof {
                lemma_table_deep(entries@);
                lemma_table_deep(out@);
                assert forall|j: int| 0 <= j < entries@.len() implies table_deep(out@)[j]
                    == table_deep(entries@)[j] by {
                    assert(out@[j].0@ == entries@[j].0@);
                    assert(out@[j].1.deep() == entries@[j].1.deep());
                }
                assert(table_deep(out@) =~= table_deep(entries@));
            }
            DocValue::Table(out)
        },
    }
}

/// First value bound to `key` in the table, if any.
pub fn table_get<'a>(t: &'a DocTable, key: &str) -> (r: Option<&'a DocValue>)
    ensures
        match r {
            Some(v) => tbl_get(table_deep(t@), key@) == Some(v.deep()),
            None => tbl_get(table_deep(t@), key@) is None,
        },
{
    broadcast use lemma_table_deep;

    let ghost d = table_deep(t@);
    let n = t.len();
    let mut i: usize = 0;
    while i < n
        invariant
            0 <= i <= n,
            n == t@.len(),
            d == table_deep(t@),
            d.len() == n,
            tbl_get_from(d, key@, 0) == tbl_get_from(d, key@, i as int),
        decreases n - i,
    {
        proof {
            lemma_table_deep(t@);
            assert(d[i as int] == (t@[i as int].0@, t@[i as int].1.deep()));
        }
        if str_eq(t[i].0.as_str(), key) {
            assert(d[i as int].0 == key@);
            assert(tbl_get_from(d, key@, i as int) == Some(d[i as int].1));
            return Some(&t[i].1);
        }
        assert(d[i as int].0 != key@);
        assert(tbl_get_from(d, key@, i as int) == tbl_get_from(d, key@, i + 1));
        i += 1;
    }
    None
}

/// The string bound to `key`, cloned, if the key holds a string.
pub fn table_get_str(t: &DocTable, key: &str) -> (r: Option<String>)
    ensures
        match r {
            Some(s) => tbl_get_str(table_deep(t@), key@) == Some(s@),
            None => tbl_get_str(table_deep(t@), key@) is None,
        },
{
    match table_get(t, key) {
        Some(v) => match v.as_str() {
            Some(s) => Some(s.clone()),
            None => None,
        },
        None => None,
    }
}

/// The boolean bound to `key`, if the key holds a boolean.
pub fn table_get_bool(t: &DocTable, key: &str) -> (r: Option<bool>)
    ensures
        match r {
            Some(b) => tbl_get_bool(table_deep(t@), key@) == Some(b),
            None => tbl_get_bool(table_deep(t@), key@) is None,
        },
{
    match table_get(t, key) {
        Some(v) => v.as_bool(),
        None => None,
    }
}

/// Well-formedness of a document value: within any table, keys are distinct.
pub open spec fn value_wf(v: ValueV) -> bool
    decreases v,
{
    match v {
        ValueV::Array(items) => forall|i: int| 0 <= i < items.len() ==> value_wf(#[trigger] items[i]),
        ValueV::Table(entries) => table_wf(entries),
        _ => true,
    }
}

/// Well-formedness of a document table: keys distinct, entries well-formed.
pub open spec fn table_wf(t: TableV) -> bool
    decreases t,
{
    &&& forall|i: int, j: int| 0 <= i < j < t.len() ==> (#[trigger] t[i].0) != (#[trigger] t[j].0)
    &&& forall|i: int| 0 <= i < t.len() ==> value_wf(#[trigger] t[i].1)
}

} // verus!
