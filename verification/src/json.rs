//! JSON payloads as plain values: a top-level object of fields whose
//! values are scalars (anything else is kept as its JSON text).
use vstd::prelude::*;
use crate::text::str_eq;

verus! {

/// A JSON value as the library reads it. Numbers keep the distinction
/// JSON parsers make between non-negative and negative integers; any other
/// value (a fractional number, an array, a nested object) is kept as its
/// JSON text.
#[derive(Debug)]
pub enum JsonScalar {
    Null,
    Bool(bool),
    PosInt(u64),
    NegInt(i64),
    Str(String),
    Raw(String),
}

impl Clone for JsonScalar {
    fn clone(&self) -> (r: Self)
        ensures
            r == *self,
    {
        match self {
            JsonScalar::Null => JsonScalar::Null,
            JsonScalar::Bool(b) => JsonScalar::Bool(*b),
            JsonScalar::PosInt(n) => JsonScalar::PosInt(*n),
            JsonScalar::NegInt(n) => JsonScalar::NegInt(*n),
            JsonScalar::Str(s) => JsonScalar::Str(s.clone()),
            JsonScalar::Raw(s) => JsonScalar::Raw(s.clone()),
        }
    }
}

/// The value as a signed 64-bit integer, when it is an integer that fits.
pub open spec fn scalar_as_i64(v: JsonScalar) -> Option<i64> {
    match v {
        JsonScalar::PosInt(n) => if n <= i64::MAX {
            Some(n as i64)
        } else {
            None
        },
        JsonScalar::NegInt(n) => Some(n),
        _ => None,
    }
}

/// The value as an unsigned 64-bit integer, when it is a non-negative
/// integer.
pub open spec fn scalar_as_u64(v: JsonScalar) -> Option<u64> {
    match v {
        JsonScalar::PosInt(n) => Some(n),
        _ => None,
    }
}

/// The value as a string, when it is one.
pub open spec fn scalar_as_str(v: JsonScalar) -> Option<Seq<char>> {
    match v {
        JsonScalar::Str(s) => Some(s@),
        _ => None,
    }
}

impl JsonScalar {
    /// `Value::as_i64`.
    pub fn as_i64(&self) -> (r: Option<i64>)
        ensures
            r == scalar_as_i64(*self),
    {
        match self {
            JsonScalar::PosInt(n) => if *n <= 0x7fff_ffff_ffff_ffffu64 {
                Some(*n as i64)
            } else {
                None
            },
            JsonScalar::NegInt(n) => Some(*n),
            _ => None,
        }
    }

    /// `Value::as_u64`.
    pub fn as_u64(&self) -> (r: Option<u64>)
        ensures
            r == scalar_as_u64(*self),
    {
        match self {
            JsonScalar::PosInt(n) => Some(*n),
            _ => None,
        }
    }

    /// `Value::as_str`.
    pub fn as_str(&self) -> (r: Option<&str>)
        ensures
            match r {
                Some(s) => scalar_as_str(*self) == Some(s@),
                None => scalar_as_str(*self) is None,
            },
    {
        match self {
            JsonScalar::Str(s) => Some(s.as_str()),
            _ => None,
        }
    }
}

/// A JSON object: fields with distinct keys, in insertion order.
#[derive(Debug)]
pub struct JsonObject {
    entries: Vec<(String, JsonScalar)>,
}

impl View for JsonObject {
    type V = Map<Seq<char>, JsonScalar>;

    closed spec fn view(&self) -> Map<Seq<char>, JsonScalar> {
        Map::new(
            |k: Seq<char>| exists|i: int| 0 <= i < self.entries@.len() && #[trigger] self.entries@[i].0@ == k,
            |k: Seq<char>|
                self.entries@[choose|i: int| 0 <= i < self.entries@.len() && #[trigger] self.entries@[i].0@ == k].1,
        )
    }
}

impl JsonObject {
    /// No two fields share a key.
    pub closed spec fn wf(&self) -> bool {
        forall|i: int, j: int|
            0 <= i < self.entries@.len() && 0 <= j < self.entries@.len() && i != j
                ==> #[trigger] self.entries@[i].0@ != #[trigger] self.entries@[j].0@
    }

    /// The keys in insertion order.
    pub closed spec fn keys(&self) -> Seq<Seq<char>> {
        self.entries@.map_values(|e: (String, JsonScalar)| e.0@)
    }

    proof fn lemma_view_at(&self, i: int)
        requires
            self.wf(),
            0 <= i < self.entries@.len(),
        ensures
            self@.contains_key(self.entries@[i].0@),
            self@[self.entries@[i].0@] == self.entries@[i].1,
    {
        let k = self.entries@[i].0@;
        assert(exists|j: int| 0 <= j < self.entries@.len() && #[trigger] self.entries@[j].0@ == k);
        let c = choose|j: int| 0 <= j < self.entries@.len() && #[trigger] self.entries@[j].0@ == k;
        if c != i {
            assert(self.entries@[c].0@ != self.entries@[i].0@);
        }
    }

    /// An empty object.
    pub fn new() -> (o: Self)
        ensures
            o.wf(),
            o@ == Map::<Seq<char>, JsonScalar>::empty(),
    {
        let o = JsonObject { entries: Vec::new() };
        proof {
            assert(o@ =~= Map::<Seq<char>, JsonScalar>::empty());
        }
        o
    }

    fn find(&self, key: &str) -> (r: Option<usize>)
        requires
            self.wf(),
        ensures
            match r {
                Some(i) => i < self.entries@.len() && self.entries@[i as int].0@ == key@,
                None => !self@.contains_key(key@),
            },
    {
        let mut i: usize = 0;
        while i < self.entries.len()
            invariant
                i <= self.entries@.len(),
                forall|j: int| 0 <= j < i ==> #[trigger] self.entries@[j].0@ != key@,
            decreases self.entries@.len() - i,
        {
            if str_eq(self.entries[i].0.as_str(), key) {
                return Some(i);
            }
            i += 1;
        }
        None
    }

    /// `Map::get`: the value stored under `key`.
    pub fn get(&self, key: &str) -> (r: Option<&JsonScalar>)
        requires
            self.wf(),
        ensures
            match r {
                Some(v) => self@.contains_key(key@) && *v == self@[key@],
                None => !self@.contains_key(key@),
            },
    {
        match self.find(key) {
            Some(i) => {
                proof {
                    self.lemma_view_at(i as int);
                }
                Some(&self.entries[i].1)
            },
            None => None,
        }
    }

    /// `Map::remove`: takes the value stored under `key` out of the object.
    pub fn remove(&mut self, key: &str) -> (r: Option<JsonScalar>)
        requires
            old(self).wf(),
        ensures
            final(self).wf(),
            final(self)@ == old(self)@.remove(key@),
            match r {
                Some(v) => old(self)@.contains_key(key@) && v == old(self)@[key@],
                None => !old(self)@.contains_key(key@),
            },
    {
        match self.find(key) {
            Some(i) => {
                proof {
                    self.lemma_view_at(i as int);
                }
                let ghost before = self.entries@;
                let (_, v) = self.entries.remove(i);
                proof {
                    assert forall|a: int, b: int|
                        0 <= a < self.entries@.len() && 0 <= b < self.entries@.len() && a != b
                            implies #[trigger] self.entries@[a].0@
                        != #[trigger] self.entries@[b].0@ by {
                        let a2 = if a < i { a } else { a + 1 };
                        let b2 = if b < i { b } else { b + 1 };
                        assert(before[a2].0@ != before[b2].0@);
                    }
                    assert forall|k: Seq<char>| #[trigger] self@.contains_key(k)
                        == old(self)@.remove(key@).contains_key(k) by {
                        if self@.contains_key(k) {
                            let j = choose|j: int| 0 <= j < self.entries@.len() && #[trigger] self.entries@[j].0@ == k;
                            let j2 = if j < i { j } else { j + 1 };
                            assert(before[j2].0@ == k);
                            if k == key@ {
                                assert(before[i as int].0@ != before[j2].0@);
                            }
                        }
                        if old(self)@.remove(key@).contains_key(k) {
                            let j = choose|j: int| 0 <= j < before.len() && #[trigger] before[j].0@ == k;
                            assert(j != i);
                            let j2 = if j < i { j } else { j - 1 };
                            assert(self.entries@[j2].0@ == k);
                        }
                    }
                    assert forall|k: Seq<char>| #[trigger] self@.contains_key(k) implies self@[k]
                        == old(self)@[k] by {
                        let j = choose|j: int| 0 <= j < self.entries@.len() && #[trigger] self.entries@[j].0@ == k;
                        let j2 = if j < i { j } else { j + 1 };
                        self.lemma_view_at(j);
                        old(self).lemma_view_at(j2);
                    }
                    assert(self@ =~= old(self)@.remove(key@));
                }
                Some(v)
            },
            None => {
                proof {
                    assert(self@ =~= old(self)@.remove(key@));
                }
                None
            },
        }
    }

    /// `Map::insert`: stores `value` under `key`, replacing any value
    /// stored there.
    pub fn insert(&mut self, key: String, value: JsonScalar)
        requires
            old(self).wf(),
        ensures
            final(self).wf(),
            final(self)@ == old(self)@.insert(key@, value),
    {
        let ghost k = key@;
        let ghost v = value;
        match self.find(key.as_str()) {
            Some(i) => {
                let ghost before = self.entries@;
                self.entries.set(i, (key, value));
                proof {
                    assert forall|a: int, b: int|
                        0 <= a < self.entries@.len() && 0 <= b < self.entries@.len() && a != b
                            implies #[trigger] self.entries@[a].0@
                        != #[trigger] self.entries@[b].0@ by {
                        assert(before[a].0@ != before[b].0@);
                    }
                    assert forall|q: Seq<char>| #[trigger] self@.contains_key(q)
                        == old(self)@.insert(k, v).contains_key(q) by {
                        if self@.contains_key(q) {
                            let j = choose|j: int| 0 <= j < self.entries@.len() && #[trigger] self.entries@[j].0@ == q;
                            assert(before[j].0@ == q || j == i);
                        }
                        if old(self)@.contains_key(q) {
                            let j = choose|j: int| 0 <= j < before.len() && #[trigger] before[j].0@ == q;
                            assert(self.entries@[j].0@ == q);
                        }
                        if q == k {
                            assert(self.entries@[i as int].0@ == q);
                        }
                    }
                    assert forall|q: Seq<char>| #[trigger] self@.contains_key(q) implies self@[q]
                        == old(self)@.insert(k, v)[q] by {
                        let j = choose|j: int| 0 <= j < self.entries@.len() && #[trigger] self.entries@[j].0@ == q;
                        self.lemma_view_at(j);
                        if j != i {
                            old(self).lemma_view_at(j);
                        }
                    }
                    assert(self@ =~= old(self)@.insert(k, v));
                }
            },
            None => {
                let ghost before = self.entries@;
                self.entries.push((key, value));
                proof {
                    let n = before.len() as int;
                    assert forall|a: int, b: int|
                        0 <= a < self.entries@.len() && 0 <= b < self.entries@.len() && a != b
                            implies #[trigger] self.entries@[a].0@
                        != #[trigger] self.entries@[b].0@ by {
                        if a < n && b < n {
                            assert(before[a].0@ != before[b].0@);
                        } else if a < n {
                            assert(old(self)@.contains_key(before[a].0@));
                        } else {
                            assert(old(self)@.contains_key(before[b].0@));
                        }
                    }
                    assert forall|q: Seq<char>| #[trigger] self@.contains_key(q)
                        == old(self)@.insert(k, v).contains_key(q) by {
                        if self@.contains_key(q) {
                            let j = choose|j: int| 0 <= j < self.entries@.len() && #[trigger] self.entries@[j].0@ == q;
                            if j < n {
                                assert(before[j].0@ == q);
                            }
                        }
                        if old(self)@.contains_key(q) {
                            let j = choose|j: int| 0 <= j < before.len() && #[trigger] before[j].0@ == q;
                            assert(self.entries@[j].0@ == q);
                        }
                        if q == k {
                            assert(self.entries@[n].0@ == q);
                        }
                    }
                    assert forall|q: Seq<char>| #[trigger] self@.contains_key(q) implies self@[q]
                        == old(self)@.insert(k, v)[q] by {
                        let j = choose|j: int| 0 <= j < self.entries@.len() && #[trigger] self.entries@[j].0@ == q;
                        self.lemma_view_at(j);
                        if j < n {
                            old(self).lemma_view_at(j);
                        }
                    }
                    assert(self@ =~= old(self)@.insert(k, v));
                }
            },
        }
    }

    /// The fields in insertion order (for conversion to other JSON types).
    pub fn entries(&self) -> (r: &[(String, JsonScalar)])
        ensures
            r@.map_values(|e: (String, JsonScalar)| e.0@) == self.keys(),
    {
        self.entries.as_slice()
    }
}

impl Clone for JsonObject {
    fn clone(&self) -> (r: Self)
        ensures
            r@ == self@,
            r.wf() == self.wf(),
    {
        let mut entries: Vec<(String, JsonScalar)> = Vec::new();
        let mut i: usize = 0;
        while i < self.entries.len()
            invariant
                i <= self.entries@.len(),
                entries@ =~= self.entries@.take(i as int),
            decreases self.entries@.len() - i,
        {
            let e = (self.entries[i].0.clone(), self.entries[i].1.clone());
            entries.push(e);
            i += 1;
            proof {
                assert(entries@ =~= self.entries@.take(i as int));
            }
        }
        proof {
            assert(self.entries@.take(self.entries@.len() as int) =~= self.entries@);
        }
        let r = JsonObject { entries };
        proof {
            assert(r@ =~= self@);
        }
        r
    }
}

} // verus!
