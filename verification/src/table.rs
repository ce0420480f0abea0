//! A table from names to small values, in the order of insertion.

use vstd::prelude::*;
use vstd::string::*;

use crate::text::str_eq;

verus! {

/// The value under a name.
pub open spec fn lookup<V>(s: Seq<(Seq<char>, V)>, key: Seq<char>) -> Option<V>
    decreases s.len(),
{
    if s.len() == 0 {
        None
    } else if s[0].0 == key {
        Some(s[0].1)
    } else {
        lookup(s.skip(1), key)
    }
}

/// A value put under a name: in place where the name is there, else at the end.
pub open spec fn put<V>(s: Seq<(Seq<char>, V)>, key: Seq<char>, value: V) -> Seq<(Seq<char>, V)>
    decreases s.len(),
{
    if s.len() == 0 {
        seq![(key, value)]
    } else if s[0].0 == key {
        seq![(key, value)] + s.skip(1)
    } else {
        seq![s[0]] + put(s.skip(1), key, value)
    }
}

/// A name taken out.
pub open spec fn cut<V>(s: Seq<(Seq<char>, V)>, key: Seq<char>) -> Seq<(Seq<char>, V)>
    decreases s.len(),
{
    if s.len() == 0 {
        s
    } else if s[0].0 == key {
        s.skip(1)
    } else {
        seq![s[0]] + cut(s.skip(1), key)
    }
}

/// No name occurs twice.
pub open spec fn distinct<V>(s: Seq<(Seq<char>, V)>) -> bool {
    forall|i: int, j: int| 0 <= i < j < s.len() ==> (#[trigger] s[i]).0 != (#[trigger] s[j]).0
}

/// A table from names to values.
#[derive(Debug)]
pub struct Table<V> {
    pub entries: Vec<(String, V)>,
}

impl<V> Table<V> {
    /// The entries.
    pub open spec fn view(self) -> Seq<(Seq<char>, V)> {
        Seq::new(self.entries@.len(), |i: int| (self.entries@[i].0@, self.entries@[i].1))
    }

    /// No name occurs twice.
    pub open spec fn wf(self) -> bool {
        distinct(self.view())
    }
}

/// No entry before `i` has the name.
pub open spec fn absent_before<V>(s: Seq<(Seq<char>, V)>, key: Seq<char>, i: int) -> bool {
    forall|k: int| 0 <= k < i ==> (#[trigger] s[k]).0 != key
}

proof fn lemma_at<V>(s: Seq<(Seq<char>, V)>, key: Seq<char>, value: V, i: int)
    requires
        0 <= i <= s.len(),
        absent_before(s, key, i),
    ensures
        i == s.len() ==> lookup(s, key) is None && put(s, key, value) == s.push((key, value))
            && cut(s, key) == s,
        i < s.len() && s[i].0 == key ==> lookup(s, key) == Some(s[i].1) && put(s, key, value)
            == s.update(i, (key, value)) && cut(s, key) == s.remove(i),
    decreases s.len(),
{
    if s.len() == 0 {
        assert(put(s, key, value) =~= s.push((key, value)));
    } else if i > 0 {
        let rest = s.skip(1);
        assert(s[0].0 != key);
        assert forall|k: int| 0 <= k < i - 1 implies (#[trigger] rest[k]).0 != key by {
            assert(rest[k] == s[k + 1]);
        }
        lemma_at(rest, key, value, i - 1);
        if i == s.len() {
            assert(put(s, key, value) =~= s.push((key, value)));
            assert(cut(s, key) =~= s);
        } else if s[i].0 == key {
            assert(rest[i - 1] == s[i]);
            assert(put(s, key, value) =~= s.update(i, (key, value)));
            assert(cut(s, key) =~= s.remove(i));
        }
    } else if s[0].0 == key {
        assert(put(s, key, value) =~= s.update(0, (key, value)));
        assert(cut(s, key) =~= s.remove(0));
    }
}

impl<V: Copy> Table<V> {
    /// An empty table.
    pub fn new() -> (r: Table<V>)
        ensures
            r.wf(),
            r.view() == Seq::<(Seq<char>, V)>::empty(),
    {
        let r = Table { entries: Vec::new() };
        assert(r.view() =~= Seq::<(Seq<char>, V)>::empty());
        r
    }

    /// Number of entries.
    pub fn len(&self) -> (r: usize)
        ensures
            r == self.view().len(),
    {
        self.entries.len()
    }

    fn position(&self, key: &str) -> (r: usize)
        ensures
            r <= self.entries@.len(),
            absent_before(self.view(), key@, r as int),
            r < self.entries@.len() ==> self.view()[r as int].0 == key@,
    {
        let mut i: usize = 0;
        while i < self.entries.len()
            invariant
                i <= self.entries@.len(),
                absent_before(self.view(), key@, i as int),
            decreases self.entries@.len() - i,
        {
            if str_eq(self.entries[i].0.as_str(), key) {
                return i;
            }
            i += 1;
        }
        i
    }

    /// The value under a name.
    pub fn get(&self, key: &str) -> (r: Option<V>)
        ensures
            r == lookup(self.view(), key@),
    {
        let i: usize = self.position(key);
        if i < self.entries.len() {
            let value: V = self.entries[i].1;
            proof {
                lemma_at(self.view(), key@, value, i as int);
            }
            Some(value)
        } else {
            proof {
                if self.view().len() > 0 {
                    lemma_at(self.view(), key@, self.view()[0].1, i as int);
                }
            }
            None
        }
    }

    /// Whether a name is there.
    pub fn contains_key(&self, key: &str) -> (r: bool)
        ensures
            r == (lookup(self.view(), key@) is Some),
    {
        self.get(key).is_some()
    }

    /// Puts a value under a name.
    pub fn insert(&mut self, key: String, value: V)
        requires
            old(self).wf(),
        ensures
            final(self).wf(),
            final(self).view() == put(old(self).view(), key@, value),
    {
        let ghost before = self.view();
        let i: usize = self.position(key.as_str());
        proof {
            lemma_at(before, key@, value, i as int);
        }
        if i < self.entries.len() {
            let ghost name = key@;
            self.entries.set(i, (key, value));
            assert(self.view() =~= before.update(i as int, (name, value)));
        } else {
            let ghost name = key@;
            self.entries.push((key, value));
            assert(self.view() =~= before.push((name, value)));
        }
    }

    /// Takes a name out; gives its value.
    pub fn remove(&mut self, key: &str) -> (r: Option<V>)
        requires
            old(self).wf(),
        ensures
            final(self).wf(),
            final(self).view() == cut(old(self).view(), key@),
            r == lookup(old(self).view(), key@),
    {
        let ghost before = self.view();
        let i: usize = self.position(key);
        if i < self.entries.len() {
            let value: V = self.entries[i].1;
            proof {
                lemma_at(before, key@, value, i as int);
            }
            self.entries.remove(i);
            assert(self.view() =~= before.remove(i as int));
            Some(value)
        } else {
            proof {
                if before.len() > 0 {
                    lemma_at(before, key@, before[0].1, i as int);
                }
            }
            None
        }
    }
}

/// What is found after a value is put under a name.
pub proof fn law_lookup_put<V>(s: Seq<(Seq<char>, V)>, key: Seq<char>, value: V, other: Seq<char>)
    ensures
        lookup(put(s, key, value), other) == if other == key {
            Some(value)
        } else {
            lookup(s, other)
        },
    decreases s.len(),
{
    let out = put(s, key, value);
    if s.len() == 0 {
        assert(out.skip(1) =~= s);
    } else if s[0].0 == key {
        assert(out.skip(1) =~= s.skip(1));
    } else {
        assert(out.skip(1) =~= put(s.skip(1), key, value));
        law_lookup_put(s.skip(1), key, value, other);
    }
}

/// What is found after a name is taken out.
pub proof fn law_lookup_cut<V>(s: Seq<(Seq<char>, V)>, key: Seq<char>, other: Seq<char>)
    requires
        distinct(s),
    ensures
        lookup(cut(s, key), other) == if other == key {
            None
        } else {
            lookup(s, other)
        },
    decreases s.len(),
{
    if s.len() > 0 {
        let rest = s.skip(1);
        assert(distinct(rest));
        if s[0].0 == key {
            if other == key {
                lemma_absent(rest, key);
            }
        } else {
            assert(cut(s, key).skip(1) =~= cut(rest, key));
            law_lookup_cut(rest, key, other);
        }
    }
}

/// Taking a name out keeps names distinct.
pub proof fn law_cut_keeps_distinct<V>(s: Seq<(Seq<char>, V)>, key: Seq<char>)
    requires
        distinct(s),
    ensures
        distinct(cut(s, key)),
        forall|i: int|
            0 <= i < cut(s, key).len() ==> exists|j: int|
                0 <= j < s.len() && #[trigger] s[j] == #[trigger] cut(s, key)[i],
    decreases s.len(),
{
    if s.len() > 0 {
        let rest = s.skip(1);
        assert forall|i: int, j: int| 0 <= i < j < rest.len() implies (#[trigger] rest[i]).0 != (
        #[trigger] rest[j]).0 by {
            assert(s[i + 1].0 != s[j + 1].0);
        }
        let out = cut(s, key);
        if s[0].0 == key {
            assert forall|i: int| 0 <= i < out.len() implies exists|j: int|
                0 <= j < s.len() && #[trigger] s[j] == #[trigger] out[i] by {
                assert(s[i + 1] == out[i]);
            }
        } else {
            law_cut_keeps_distinct(rest, key);
            let tail = cut(rest, key);
            assert forall|i: int| 0 <= i < out.len() implies exists|j: int|
                0 <= j < s.len() && #[trigger] s[j] == #[trigger] out[i] by {
                if i == 0 {
                    assert(s[0] == out[0]);
                } else {
                    let j = choose|j: int|
                        0 <= j < rest.len() && #[trigger] rest[j] == tail[i - 1];
                    assert(s[j + 1] == out[i]);
                }
            }
            assert forall|i: int, j: int| 0 <= i < j < out.len() implies (#[trigger] out[i]).0 != (
            #[trigger] out[j]).0 by {
                assert(out[j] == tail[j - 1]);
                if i > 0 {
                    assert(out[i] == tail[i - 1]);
                } else {
                    let m = choose|m: int|
                        0 <= m < rest.len() && #[trigger] rest[m] == tail[j - 1];
                    assert(s[0].0 != s[m + 1].0);
                }
            }
        }
    }
}

proof fn lemma_absent<V>(s: Seq<(Seq<char>, V)>, key: Seq<char>)
    requires
        forall|k: int| 0 <= k < s.len() ==> (#[trigger] s[k]).0 != key,
    ensures
        lookup(s, key) is None,
    decreases s.len(),
{
    if s.len() > 0 {
        assert forall|k: int| 0 <= k < s.skip(1).len() implies (#[trigger] s.skip(1)[k]).0 != key by {
            assert(s.skip(1)[k] == s[k + 1]);
        }
        assert(s[0].0 != key);
        lemma_absent(s.skip(1), key);
    }
}

/// An entry is found by its name, and a name without an entry is not found.
pub proof fn law_entry_is_found<V>(s: Seq<(Seq<char>, V)>, key: Seq<char>, i: int)
    requires
        distinct(s),
    ensures
        0 <= i < s.len() && s[i].0 == key ==> lookup(s, key) == Some(s[i].1),
        lookup(s, key) is Some <==> exists|k: int| 0 <= k < s.len() && (#[trigger] s[k]).0 == key,
    decreases s.len(),
{
    if s.len() > 0 {
        let rest = s.skip(1);
        assert forall|a: int, b: int| 0 <= a < b < rest.len() implies (#[trigger] rest[a]).0 != (
        #[trigger] rest[b]).0 by {
            assert(s[a + 1].0 != s[b + 1].0);
        }
        law_entry_is_found(rest, key, i - 1);
        if 0 <= i < s.len() && s[i].0 == key && i > 0 {
            assert(s[0].0 != s[i].0);
            assert(rest[i - 1] == s[i]);
        }
        if s[0].0 != key {
            if lookup(rest, key) is Some {
                let k = choose|k: int| 0 <= k < rest.len() && (#[trigger] rest[k]).0 == key;
                assert(s[k + 1].0 == key);
            }
            if exists|k: int| 0 <= k < s.len() && (#[trigger] s[k]).0 == key {
                let k = choose|k: int| 0 <= k < s.len() && (#[trigger] s[k]).0 == key;
                assert(rest[k - 1].0 == key);
            }
        } else {
            assert(s[0].0 == key);
        }
    }
}

/// A new name goes to the end, and a known one keeps its place.
pub proof fn law_put_keeps_order<V>(s: Seq<(Seq<char>, V)>, key: Seq<char>, value: V, i: int)
    requires
        0 <= i < s.len(),
    ensures
        put(s, key, value).len() == s.len() + if lookup(s, key) is Some {
            0int
        } else {
            1
        },
        put(s, key, value)[i].0 == s[i].0,
        s[i].0 != key ==> put(s, key, value)[i].1 == s[i].1,
        lookup(s, key) is None ==> put(s, key, value).last() == (key, value),
    decreases s.len(),
{
    if s[0].0 != key {
        let rest = s.skip(1);
        if rest.len() > 0 {
            law_put_keeps_order(
                rest,
                key,
                value,
                if i > 0 {
                    i - 1
                } else {
                    0
                },
            );
        } else {
            assert(put(rest, key, value) == seq![(key, value)]);
        }
        assert(put(s, key, value)[i] == if i == 0 {
            s[0]
        } else {
            put(rest, key, value)[i - 1]
        });
    }
}

} // verus!
