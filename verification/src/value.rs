//! Parsed data and the name/value store.
//!
//! A `Value` is a number, a text, a list, or a nested object; a `Store` maps
//! normalized names to values. The store is held as a vector of entries with
//! pairwise distinct keys, and its mathematical content is a `Map`.
use vstd::prelude::*;

use crate::number::{Num, NumV};

verus! {

/// The mathematical content of a value.
#[verifier::ext_equal]
pub enum ValueV {
    Number(NumV),
    Text(Seq<char>),
    List(Seq<ValueV>),
    Object(Map<Seq<char>, ValueV>),
}

/// A parsed datum.
#[derive(Debug, PartialEq)]
pub enum Value {
    Number(Num),
    Text(String),
    List(Vec<Value>),
    Object(Store),
}

/// One store entry: a normalized name and its value.
#[derive(Debug, PartialEq)]
pub struct Entry {
    pub key: String,
    pub val: Value,
}

/// A mapping from names to values.
#[derive(Debug, PartialEq)]
pub struct Store {
    pub entries: Vec<Entry>,
}

pub open spec fn value_model(v: Value) -> ValueV
    decreases v,
{
    match v {
        Value::Number(n) => ValueV::Number(n@),
        Value::Text(s) => ValueV::Text(s@),
        Value::List(items) => ValueV::List(list_model(items@)),
        Value::Object(st) => ValueV::Object(entries_model(st.entries@)),
    }
}

pub open spec fn list_model(s: Seq<Value>) -> Seq<ValueV>
    decreases s,
{
    if s.len() == 0 {
        Seq::empty()
    } else {
        list_model(s.drop_last()).push(value_model(s.last()))
    }
}

pub open spec fn entries_model(s: Seq<Entry>) -> Map<Seq<char>, ValueV>
    decreases s,
{
    if s.len() == 0 {
        Map::empty()
    } else {
        entries_model(s.drop_last()).insert(s.last().key@, value_model(s.last().val))
    }
}

impl View for Value {
    type V = ValueV;

    open spec fn view(&self) -> ValueV {
        value_model(*self)
    }
}

impl View for Store {
    type V = Map<Seq<char>, ValueV>;

    open spec fn view(&self) -> Map<Seq<char>, ValueV> {
        entries_model(self.entries@)
    }
}

/// A value is well formed when every nested object has pairwise distinct keys.
pub open spec fn value_wf(v: Value) -> bool
    decreases v,
{
    match v {
        Value::Number(_) => true,
        Value::Text(_) => true,
        Value::List(items) => forall|i: int|
            0 <= i < items@.len() ==> value_wf(#[trigger] items@[i]),
        Value::Object(st) => entries_wf(st.entries@),
    }
}

pub open spec fn entries_wf(s: Seq<Entry>) -> bool
    decreases s,
{
    &&& forall|i: int, j: int| 0 <= i < j < s.len() ==> s[i].key@ != s[j].key@
    &&& forall|i: int| 0 <= i < s.len() ==> value_wf(#[trigger] s[i].val)
}

pub proof fn lemma_list_model(s: Seq<Value>)
    ensures
        list_model(s).len() == s.len(),
        forall|i: int| 0 <= i < s.len() ==> list_model(s)[i] == value_model(#[trigger] s[i]),
    decreases s.len(),
{
    if s.len() > 0 {
        lemma_list_model(s.drop_last());
        assert forall|i: int| 0 <= i < s.len() implies list_model(s)[i] == value_model(
            #[trigger] s[i],
        ) by {
            if i < s.len() - 1 {
                assert(s.drop_last()[i] == s[i]);
                assert(list_model(s)[i] == list_model(s.drop_last())[i]);
            }
        }
    }
}

/// Which keys the model holds: exactly the keys of the entries.
pub proof fn lemma_entries_model_dom(s: Seq<Entry>, k: Seq<char>)
    ensures
        entries_model(s).contains_key(k) <==> exists|i: int|
            0 <= i < s.len() && #[trigger] s[i].key@ == k,
    decreases s.len(),
{
    if s.len() > 0 {
        lemma_entries_model_dom(s.drop_last(), k);
        if entries_model(s).contains_key(k) && s.last().key@ != k {
            let i = choose|i: int| 0 <= i < s.drop_last().len() && #[trigger] s.drop_last()[i].key@
                == k;
            assert(s[i].key@ == k);
        }
        if exists|i: int| 0 <= i < s.len() && #[trigger] s[i].key@ == k {
            let i = choose|i: int| 0 <= i < s.len() && #[trigger] s[i].key@ == k;
            if i < s.len() - 1 {
                assert(s.drop_last()[i].key@ == k);
            }
        }
    }
}

/// With distinct keys, the model maps each entry's key to that entry's value.
pub proof fn lemma_entries_model_at(s: Seq<Entry>, i: int)
    requires
        0 <= i < s.len(),
        forall|x: int, y: int| 0 <= x < y < s.len() ==> s[x].key@ != s[y].key@,
    ensures
        entries_model(s).contains_key(s[i].key@),
        entries_model(s)[s[i].key@] == value_model(s[i].val),
    decreases s.len(),
{
    lemma_entries_model_dom(s, s[i].key@);
    if i < s.len() - 1 {
        assert(s[i].key@ != s.last().key@);
        assert(s.drop_last()[i] == s[i]);
        lemma_entries_model_at(s.drop_last(), i);
    }
}

/// Appending a fresh entry inserts its pair into the model.
pub proof fn lemma_entries_model_push(s: Seq<Entry>, e: Entry)
    ensures
        entries_model(s.push(e)) == entries_model(s).insert(e.key@, value_model(e.val)),
{
    assert(s.push(e).drop_last() =~= s);
    assert(s.push(e).last() == e);
}

/// Replacing the value at an existing key updates its pair in the model.
pub proof fn lemma_entries_model_update(s: Seq<Entry>, i: int, e: Entry)
    requires
        0 <= i < s.len(),
        e.key@ == s[i].key@,
        forall|x: int, y: int| 0 <= x < y < s.len() ==> s[x].key@ != s[y].key@,
    ensures
        entries_model(s.update(i, e)) == entries_model(s).insert(e.key@, value_model(e.val)),
    decreases s.len(),
{
    let t = s.update(i, e);
    if i == s.len() - 1 {
        assert(t.drop_last() =~= s.drop_last());
        assert(t.last() == e);
        assert(entries_model(t) =~= entries_model(s).insert(e.key@, value_model(e.val)));
    } else {
        assert(t.drop_last() =~= s.drop_last().update(i, e));
        assert(t.last() == s.last());
        lemma_entries_model_update(s.drop_last(), i, e);
        assert(s.last().key@ != e.key@);
        assert(entries_model(t) =~= entries_model(s).insert(e.key@, value_model(e.val)));
    }
}

impl Store {
    /// Pairwise distinct keys, and every nested object likewise.
    pub open spec fn wf(self) -> bool {
        entries_wf(self.entries@)
    }

    /// An empty store.
    pub fn new() -> (r: Store)
        ensures
            r@ == Map::<Seq<char>, ValueV>::empty(),
            r.wf(),
    {
        Store { entries: Vec::new() }
    }

    fn find(&self, key: &String) -> (r: Option<usize>)
        ensures
            match r {
                Some(i) => i < self.entries@.len() && self.entries@[i as int].key@ == key@,
                None => forall|i: int| 0 <= i < self.entries@.len() ==> self.entries@[i].key@ != key@,
            },
    {
        let mut i: usize = 0;
        while i < self.entries.len()
            invariant
                i <= self.entries@.len(),
                forall|k: int| 0 <= k < i ==> self.entries@[k].key@ != key@,
            decreases self.entries@.len() - i,
        {
            if self.entries[i].key == *key {
                return Some(i);
            }
            i = i + 1;
        }
        None
    }

    /// The value under a key, if the key is bound.
    pub fn get(&self, key: &String) -> (r: Option<&Value>)
        requires
            self.wf(),
        ensures
            match r {
                Some(v) => self@.contains_key(key@) && v@ == self@[key@] && value_wf(*v),
                None => !self@.contains_key(key@),
            },
    {
        proof {
            lemma_entries_model_dom(self.entries@, key@);
        }
        match self.find(key) {
            Some(i) => {
                proof {
                    lemma_entries_model_at(self.entries@, i as int);
                }
                Some(&self.entries[i].val)
            },
            None => None,
        }
    }

    /// A copy of the value under a key, if the key is bound.
    pub fn get_cloned(&self, key: &String) -> (r: Option<Value>)
        requires
            self.wf(),
        ensures
            match r {
                Some(v) => self@.contains_key(key@) && v@ == self@[key@] && value_wf(v),
                None => !self@.contains_key(key@),
            },
    {
        match self.get(key) {
            Some(v) => Some(clone_value(v)),
            None => None,
        }
    }

    /// Binds a key to a value; an existing binding is replaced.
    pub fn insert(&mut self, key: String, val: Value)
        requires
            old(self).wf(),
            value_wf(val),
        ensures
            final(self)@ == old(self)@.insert(key@, val@),
            final(self).wf(),
    {
        match self.find(&key) {
            Some(i) => {
                proof {
                    lemma_entries_model_update(self.entries@, i as int, Entry { key, val });
                }
                self.entries.set(i, Entry { key, val });
            },
            None => {
                proof {
                    lemma_entries_model_push(self.entries@, Entry { key, val });
                }
                self.entries.push(Entry { key, val });
            },
        }
    }

    /// How many keys are bound.
    pub fn len(&self) -> (r: usize)
        ensures
            r == self.entries@.len(),
    {
        self.entries.len()
    }
}

/// A deep copy: the copy has the same mathematical content, and shares
/// nothing with the original.
#[verifier::loop_isolation(false)]
pub fn clone_value(v: &Value) -> (r: Value)
    ensures
        r@ == v@,
        value_wf(*v) ==> value_wf(r),
    decreases *v,
{
    match v {
        Value::Number(n) => Value::Number(*n),
        Value::Text(s) => Value::Text(s.clone()),
        Value::List(items) => {
            let mut out: Vec<Value> = Vec::new();
            let mut i: usize = 0;
            while i < items.len()
                invariant
                    i <= items@.len(),
                    out@.len() == i,
                    list_model(out@) == list_model(items@.subrange(0, i as int)),
                    value_wf(*v) ==> forall|k: int|
                        0 <= k < out@.len() ==> value_wf(#[trigger] out@[k]),
                decreases items@.len() - i,
            {
                let c = clone_value(&items[i]);
                proof {
                    let pre = items@.subrange(0, i as int);
                    let pre1 = items@.subrange(0, i + 1);
                    assert(pre1.drop_last() =~= pre);
                    assert(pre1.last() == items@[i as int]);
                    assert(out@.push(c).drop_last() =~= out@);
                    assert(out@.push(c).last() == c);
                }
                out.push(c);
                i = i + 1;
            }
            proof {
                assert(items@.subrange(0, items@.len() as int) =~= items@);
            }
            Value::List(out)
        },
        Value::Object(st) => Value::Object(clone_store(st)),
    }
}

/// A deep copy of a store.
#[verifier::loop_isolation(false)]
pub fn clone_store(st: &Store) -> (r: Store)
    ensures
        r@ == st@,
        st.wf() ==> r.wf(),
    decreases *st,
{
    let mut out: Vec<Entry> = Vec::new();
    let mut i: usize = 0;
    while i < st.entries.len()
        invariant
            i <= st.entries@.len(),
            out@.len() == i,
            entries_model(out@) == entries_model(st.entries@.subrange(0, i as int)),
            forall|k: int| 0 <= k < i ==> #[trigger] out@[k].key@ == st.entries@[k].key@,
            st.wf() ==> forall|k: int| 0 <= k < i ==> value_wf(#[trigger] out@[k].val),
        decreases st.entries@.len() - i,
    {
        let e = &st.entries[i];
        let c = Entry { key: e.key.clone(), val: clone_value(&e.val) };
        proof {
            let pre = st.entries@.subrange(0, i as int);
            let pre1 = st.entries@.subrange(0, i + 1);
            assert(pre1.drop_last() =~= pre);
            assert(pre1.last() == st.entries@[i as int]);
            lemma_entries_model_push(out@, c);
            lemma_entries_model_push(pre, st.entries@[i as int]);
        }
        out.push(c);
        i = i + 1;
    }
    proof {
        assert(st.entries@.subrange(0, st.entries@.len() as int) =~= st.entries@);
    }
    Store { entries: out }
}

} // verus!
