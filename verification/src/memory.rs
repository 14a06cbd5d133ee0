//! The in-memory backend: a flat list of (table, key, value) entries
//! with at most one entry per (table, key). Tables come into being on
//! first write; a table never written reads as the empty table.

use vstd::prelude::*;
use crate::error::KVError;
use crate::pb::{KvPair, Value, ValueModel};
use crate::storage::{pairs_match, Storage};

verus! {

/// One stored entry: which table, which key, which value.
pub struct MemEntry {
    pub table: String,
    pub key: String,
    pub value: Value,
}

/// Entry `i` of `s` is table `t`'s entry for key `k`.
pub open spec fn matches_at(s: Seq<MemEntry>, i: int, t: Seq<char>, k: Seq<char>) -> bool {
    s[i].table@ == t && s[i].key@ == k
}

/// Some entry of `s` is table `t`'s entry for key `k`.
pub open spec fn has_entry(s: Seq<MemEntry>, t: Seq<char>, k: Seq<char>) -> bool {
    exists|i: int| 0 <= i < s.len() && #[trigger] matches_at(s, i, t, k)
}

/// The value of table `t`'s entry for key `k` (meaningful when such an
/// entry exists and entries are unique).
pub open spec fn entry_value(s: Seq<MemEntry>, t: Seq<char>, k: Seq<char>) -> ValueModel {
    let i = choose|i: int| 0 <= i < s.len() && #[trigger] matches_at(s, i, t, k);
    s[i].value@
}

/// No two entries name the same (table, key).
pub open spec fn entries_distinct(s: Seq<MemEntry>) -> bool {
    forall|i: int, j: int| 0 <= i < j < s.len()
        ==> !((#[trigger] s[i]).table@ == (#[trigger] s[j]).table@ && s[i].key@ == s[j].key@)
}

/// The table named `t`, as a mapping, read off the entry list.
pub open spec fn table_of(s: Seq<MemEntry>, t: Seq<char>) -> Map<Seq<char>, ValueModel> {
    Map::new(|k: Seq<char>| has_entry(s, t, k), |k: Seq<char>| entry_value(s, t, k))
}

/// Every match of a unique entry list carries the entry's value.
proof fn lemma_match_value(s: Seq<MemEntry>, t: Seq<char>, k: Seq<char>, i: int)
    requires
        entries_distinct(s),
        0 <= i < s.len(),
        matches_at(s, i, t, k),
    ensures
        has_entry(s, t, k),
        entry_value(s, t, k) == s[i].value@,
{
    assert(has_entry(s, t, k));
    let j = choose|j: int| 0 <= j < s.len() && #[trigger] matches_at(s, j, t, k);
    if i < j {
        assert(false);
    } else if j < i {
        assert(false);
    }
}

/// Removing the unique entry for (t, k) takes exactly that key out and
/// leaves every other entry in place.
proof fn lemma_remove_entry(s: Seq<MemEntry>, idx: int, t: Seq<char>, k: Seq<char>)
    requires
        entries_distinct(s),
        0 <= idx < s.len(),
        matches_at(s, idx, t, k),
    ensures
        entries_distinct(s.remove(idx)),
        forall|t2: Seq<char>, k2: Seq<char>| #[trigger] has_entry(s.remove(idx), t2, k2)
            <==> (has_entry(s, t2, k2) && !(t2 == t && k2 == k)),
        forall|t2: Seq<char>, k2: Seq<char>| has_entry(s.remove(idx), t2, k2)
            ==> #[trigger] entry_value(s.remove(idx), t2, k2) == entry_value(s, t2, k2),
{
    let s2 = s.remove(idx);
    assert forall|i: int| 0 <= i < s2.len() implies s2[i] == s[if i < idx { i } else { i + 1 }] by {}
    assert forall|t2: Seq<char>, k2: Seq<char>| #[trigger] has_entry(s2, t2, k2) implies (
        has_entry(s, t2, k2) && !(t2 == t && k2 == k)) by {
        let i = choose|i: int| 0 <= i < s2.len() && #[trigger] matches_at(s2, i, t2, k2);
        let i0 = if i < idx { i } else { i + 1 };
        assert(matches_at(s, i0, t2, k2));
        if t2 == t && k2 == k {
            if i0 < idx {
                assert(false);
            } else {
                assert(false);
            }
        }
    }
    assert forall|t2: Seq<char>, k2: Seq<char>| has_entry(s, t2, k2) && !(t2 == t && k2 == k)
        implies #[trigger] has_entry(s2, t2, k2) by {
        let i0 = choose|i: int| 0 <= i < s.len() && #[trigger] matches_at(s, i, t2, k2);
        let i = if i0 < idx { i0 } else { i0 - 1 };
        assert(i0 != idx);
        assert(matches_at(s2, i, t2, k2));
    }
    assert forall|t2: Seq<char>, k2: Seq<char>| has_entry(s2, t2, k2)
        implies #[trigger] entry_value(s2, t2, k2) == entry_value(s, t2, k2) by {
        let i = choose|i: int| 0 <= i < s2.len() && #[trigger] matches_at(s2, i, t2, k2);
        let i0 = if i < idx { i } else { i + 1 };
        assert(matches_at(s, i0, t2, k2));
        lemma_match_value(s, t2, k2, i0);
        assert(entries_distinct(s2));
        lemma_match_value(s2, t2, k2, i);
        assert(s2[i].value@ == s[i0].value@);
    }
}

/// Appending an entry for a fresh (table, key) adds exactly that key
/// and leaves every other entry in place.
proof fn lemma_push_entry(s: Seq<MemEntry>, e: MemEntry)
    requires
        entries_distinct(s),
        !has_entry(s, e.table@, e.key@),
    ensures
        entries_distinct(s.push(e)),
        forall|t2: Seq<char>, k2: Seq<char>| #[trigger] has_entry(s.push(e), t2, k2)
            <==> (has_entry(s, t2, k2) || (t2 == e.table@ && k2 == e.key@)),
        entry_value(s.push(e), e.table@, e.key@) == e.value@,
        forall|t2: Seq<char>, k2: Seq<char>|
            has_entry(s, t2, k2) && !(t2 == e.table@ && k2 == e.key@)
                ==> #[trigger] entry_value(s.push(e), t2, k2) == entry_value(s, t2, k2),
{
    let s2 = s.push(e);
    assert forall|i: int, j: int| 0 <= i < j < s2.len() implies !((#[trigger] s2[i]).table@
        == (#[trigger] s2[j]).table@ && s2[i].key@ == s2[j].key@) by {
        if j == s.len() {
            if s2[i].table@ == e.table@ && s2[i].key@ == e.key@ {
                assert(matches_at(s, i, e.table@, e.key@));
            }
        }
    }
    assert forall|t2: Seq<char>, k2: Seq<char>| #[trigger] has_entry(s2, t2, k2) implies (
        has_entry(s, t2, k2) || (t2 == e.table@ && k2 == e.key@)) by {
        let i = choose|i: int| 0 <= i < s2.len() && #[trigger] matches_at(s2, i, t2, k2);
        if i < s.len() {
            assert(matches_at(s, i, t2, k2));
        }
    }
    assert forall|t2: Seq<char>, k2: Seq<char>| has_entry(s, t2, k2) || (t2 == e.table@ && k2
        == e.key@) implies #[trigger] has_entry(s2, t2, k2) by {
        if has_entry(s, t2, k2) {
            let i = choose|i: int| 0 <= i < s.len() && #[trigger] matches_at(s, i, t2, k2);
            assert(matches_at(s2, i, t2, k2));
        } else {
            assert(matches_at(s2, s.len() as int, t2, k2));
        }
    }
    assert(matches_at(s2, s.len() as int, e.table@, e.key@));
    lemma_match_value(s2, e.table@, e.key@, s.len() as int);
    assert forall|t2: Seq<char>, k2: Seq<char>|
        has_entry(s, t2, k2) && !(t2 == e.table@ && k2 == e.key@)
            implies #[trigger] entry_value(s2, t2, k2) == entry_value(s, t2, k2) by {
        let i = choose|i: int| 0 <= i < s.len() && #[trigger] matches_at(s, i, t2, k2);
        lemma_match_value(s, t2, k2, i);
        assert(matches_at(s2, i, t2, k2));
        lemma_match_value(s2, t2, k2, i);
    }
}

/// When the entry lists relate by an insertion of (t, k, v), the tables
/// relate by a map insertion, and the other tables agree.
proof fn lemma_insert_maps(
    s_old: Seq<MemEntry>,
    s_new: Seq<MemEntry>,
    t: Seq<char>,
    k: Seq<char>,
    v: ValueModel,
)
    requires
        forall|t2: Seq<char>, k2: Seq<char>| #[trigger] has_entry(s_new, t2, k2)
            <==> (has_entry(s_old, t2, k2) || (t2 == t && k2 == k)),
        entry_value(s_new, t, k) == v,
        forall|t2: Seq<char>, k2: Seq<char>|
            has_entry(s_old, t2, k2) && !(t2 == t && k2 == k)
                ==> #[trigger] entry_value(s_new, t2, k2) == entry_value(s_old, t2, k2),
    ensures
        table_of(s_new, t) == table_of(s_old, t).insert(k, v),
        forall|t2: Seq<char>| t2 != t ==> #[trigger] table_of(s_new, t2) == table_of(s_old, t2),
{
    assert(table_of(s_new, t) =~= table_of(s_old, t).insert(k, v));
    assert forall|t2: Seq<char>| t2 != t implies #[trigger] table_of(s_new, t2) == table_of(
        s_old, t2) by {
        assert(table_of(s_new, t2) =~= table_of(s_old, t2));
    }
}

/// When the entry lists relate by a removal of (t, k), the tables relate
/// by a map removal, and the other tables agree.
proof fn lemma_remove_maps(s_old: Seq<MemEntry>, s_new: Seq<MemEntry>, t: Seq<char>, k: Seq<char>)
    requires
        forall|t2: Seq<char>, k2: Seq<char>| #[trigger] has_entry(s_new, t2, k2)
            <==> (has_entry(s_old, t2, k2) && !(t2 == t && k2 == k)),
        forall|t2: Seq<char>, k2: Seq<char>| has_entry(s_new, t2, k2)
            ==> #[trigger] entry_value(s_new, t2, k2) == entry_value(s_old, t2, k2),
    ensures
        table_of(s_new, t) == table_of(s_old, t).remove(k),
        forall|t2: Seq<char>| t2 != t ==> #[trigger] table_of(s_new, t2) == table_of(s_old, t2),
{
    assert(table_of(s_new, t) =~= table_of(s_old, t).remove(k));
    assert forall|t2: Seq<char>| t2 != t implies #[trigger] table_of(s_new, t2) == table_of(
        s_old, t2) by {
        assert(table_of(s_new, t2) =~= table_of(s_old, t2));
    }
}

/// Reading `contents()` at any table name gives the table read off the
/// entry list.
proof fn lemma_contents_at(mt: &MemTable, t: Seq<char>)
    ensures
        mt.contents()[t] == table_of(mt.entries@, t),
{
}

/// The in-memory backend.
pub struct MemTable {
    entries: Vec<MemEntry>,
}

impl MemTable {
    /// An empty store: every table reads as the empty table.
    pub fn new() -> (r: Self)
        ensures
            r.inv(),
            r.exact(),
            forall|t: Seq<char>| (#[trigger] r.contents()[t]) == Map::<Seq<char>, ValueModel>::empty(),
    {
        let r = MemTable { entries: Vec::new() };
        proof {
            assert forall|t: Seq<char>| (#[trigger] r.contents()[t]) == Map::<Seq<char>,
                ValueModel>::empty() by {
                assert(table_of(r.entries@, t) =~= Map::<Seq<char>, ValueModel>::empty());
            }
        }
        r
    }
}

impl Default for MemTable {
    /// Same as [`MemTable::new`].
    fn default() -> (r: Self)
        ensures
            r.inv(),
            r.exact(),
            forall|t: Seq<char>| (#[trigger] r.contents()[t]) == Map::<Seq<char>, ValueModel>::empty(),
    {
        MemTable::new()
    }
}

impl Storage for MemTable {
    closed spec fn inv(&self) -> bool {
        entries_distinct(self.entries@)
    }

    closed spec fn contents(&self) -> Map<Seq<char>, Map<Seq<char>, ValueModel>> {
        Map::new(|t: Seq<char>| true, |t: Seq<char>| table_of(self.entries@, t))
    }

    closed spec fn exact(&self) -> bool {
        true
    }

    closed spec fn key_present(&self, table: Seq<char>, key: Seq<char>) -> bool {
        has_entry(self.entries@, table, key)
    }

    fn get(&self, table: &str, key: &str) -> (r: Result<Option<Value>, KVError>) {
        let ghost s = self.entries@;
        let t_owned = table.to_owned();
        let k_owned = key.to_owned();
        let n = self.entries.len();
        let mut i: usize = 0;
        while i < n
            invariant
                n == s.len(),
                self.entries@ == s,
                entries_distinct(s),
                t_owned@ == table@,
                k_owned@ == key@,
                0 <= i <= n,
                forall|j: int| 0 <= j < i ==> !matches_at(s, j, table@, key@),
            decreases n - i,
        {
            let e = &self.entries[i];
            if e.table == t_owned && e.key == k_owned {
                proof {
                    lemma_match_value(s, table@, key@, i as int);
                    lemma_contents_at(self, table@);
                }
                return Ok(Some(e.value.clone()));
            }
            i += 1;
        }
        assert(!has_entry(s, table@, key@));
        proof {
            lemma_contents_at(self, table@);
        }
        Ok(None)
    }

    fn set(&mut self, table: &str, key: String, value: Value) -> (r: Result<
        Option<Value>,
        KVError,
    >) {
        let ghost s0 = self.entries@;
        let t_owned = table.to_owned();
        let n = self.entries.len();
        let mut i: usize = 0;
        while i < n
            invariant
                n == s0.len(),
                self.entries@ == s0,
                old(self).entries@ == s0,
                entries_distinct(s0),
                t_owned@ == table@,
                0 <= i <= n,
                forall|j: int| 0 <= j < i ==> !matches_at(s0, j, table@, key@),
            decreases n - i,
        {
            let e = &self.entries[i];
            if e.table == t_owned && e.key == key {
                proof {
                    lemma_match_value(s0, table@, key@, i as int);
                    lemma_remove_entry(s0, i as int, table@, key@);
                }
                let old_entry = self.entries.remove(i);
                let ghost s1 = self.entries@;
                let fresh = MemEntry { table: t_owned, key, value };
                proof {
                    lemma_push_entry(s1, fresh);
                }
                self.entries.push(fresh);
                proof {
                    lemma_insert_maps(s0, self.entries@, table@, key@, value@);
                    lemma_contents_at(self, table@);
                    lemma_contents_at(old(self), table@);
                    assert(table_of(s0, table@).contains_key(key@));
                    assert forall|t2: Seq<char>| t2 != table@ implies self.contents()[t2]
                        == old(self).contents()[t2] by {
                        lemma_contents_at(self, t2);
                        lemma_contents_at(old(self), t2);
                    }
                }
                return Ok(Some(old_entry.value));
            }
            i += 1;
        }
        assert(!has_entry(s0, table@, key@));
        let fresh = MemEntry { table: t_owned, key, value };
        proof {
            lemma_push_entry(s0, fresh);
        }
        self.entries.push(fresh);
        proof {
            lemma_insert_maps(s0, self.entries@, table@, key@, value@);
            lemma_contents_at(self, table@);
            lemma_contents_at(old(self), table@);
            assert(!table_of(s0, table@).contains_key(key@));
            assert forall|t2: Seq<char>| t2 != table@ implies self.contents()[t2]
                == old(self).contents()[t2] by {
                lemma_contents_at(self, t2);
                lemma_contents_at(old(self), t2);
            }
        }
        Ok(None)
    }

    fn contains(&self, table: &str, key: &str) -> (r: Result<bool, KVError>) {
        let ghost s = self.entries@;
        let t_owned = table.to_owned();
        let k_owned = key.to_owned();
        let n = self.entries.len();
        let mut i: usize = 0;
        while i < n
            invariant
                n == s.len(),
                self.entries@ == s,
                t_owned@ == table@,
                k_owned@ == key@,
                0 <= i <= n,
                forall|j: int| 0 <= j < i ==> !matches_at(s, j, table@, key@),
            decreases n - i,
        {
            let e = &self.entries[i];
            if e.table == t_owned && e.key == k_owned {
                assert(matches_at(s, i as int, table@, key@));
                return Ok(true);
            }
            i += 1;
        }
        assert(!has_entry(s, table@, key@));
        Ok(false)
    }

    fn del(&mut self, table: &str, key: &str) -> (r: Result<Option<Value>, KVError>) {
        let ghost s0 = self.entries@;
        let t_owned = table.to_owned();
        let k_owned = key.to_owned();
        let n = self.entries.len();
        let mut i: usize = 0;
        while i < n
            invariant
                n == s0.len(),
                self.entries@ == s0,
                old(self).entries@ == s0,
                entries_distinct(s0),
                t_owned@ == table@,
                k_owned@ == key@,
                0 <= i <= n,
                forall|j: int| 0 <= j < i ==> !matches_at(s0, j, table@, key@),
            decreases n - i,
        {
            let e = &self.entries[i];
            if e.table == t_owned && e.key == k_owned {
                proof {
                    lemma_match_value(s0, table@, key@, i as int);
                    lemma_remove_entry(s0, i as int, table@, key@);
                }
                let old_entry = self.entries.remove(i);
                proof {
                    lemma_remove_maps(s0, self.entries@, table@, key@);
                    lemma_contents_at(self, table@);
                    lemma_contents_at(old(self), table@);
                    assert(table_of(s0, table@).contains_key(key@));
                    assert forall|t2: Seq<char>| t2 != table@ implies self.contents()[t2]
                        == old(self).contents()[t2] by {
                        lemma_contents_at(self, t2);
                        lemma_contents_at(old(self), t2);
                    }
                }
                return Ok(Some(old_entry.value));
            }
            i += 1;
        }
        assert(!has_entry(s0, table@, key@));
        proof {
            lemma_contents_at(self, table@);
            assert(table_of(s0, table@) =~= table_of(s0, table@).remove(key@));
        }
        Ok(None)
    }

    #[verifier::rlimit(50)]
    fn get_all(&self, table: &str) -> (r: Result<Vec<KvPair>, KVError>) {
        let ghost s = self.entries@;
        let t_owned = table.to_owned();
        let mut out: Vec<KvPair> = Vec::new();
        let n = self.entries.len();
        let mut i: usize = 0;
        while i < n
            invariant
                n == s.len(),
                self.entries@ == s,
                entries_distinct(s),
                t_owned@ == table@,
                0 <= i <= n,
                forall|a: int| 0 <= a < out@.len() ==> exists|j: int|
                    0 <= j < i && matches_at(s, j, table@, (#[trigger] out@[a])@.key)
                        && s[j].value@ == out@[a]@.value,
                forall|j: int| 0 <= j < i && (#[trigger] s[j]).table@ == table@
                    ==> exists|a: int|
                    0 <= a < out@.len() && (#[trigger] out@[a])@.key == s[j].key@,
                forall|a: int, b: int| 0 <= a < b < out@.len()
                    ==> (#[trigger] out@[a])@.key != (#[trigger] out@[b])@.key,
            decreases n - i,
        {
            let e = &self.entries[i];
            if e.table == t_owned {
                let ghost out0 = out@;
                out.push(KvPair::new(e.key.as_str(), e.value.clone()));
                proof {
                    let newlen = out@.len() as int;
                    assert(out@[newlen - 1]@.key == s[i as int].key@);
                    assert(out@[newlen - 1]@.value == s[i as int].value@);
                    assert(matches_at(s, i as int, table@, s[i as int].key@));
                    assert forall|a: int| 0 <= a < out@.len() implies exists|j: int|
                        0 <= j < i + 1 && matches_at(s, j, table@, (#[trigger] out@[a])@.key)
                            && s[j].value@ == out@[a]@.value by {
                        if a < newlen - 1 {
                            assert(out@[a] == out0[a]);
                            let j = choose|j: int| 0 <= j < i && matches_at(s, j, table@,
                                (#[trigger] out0[a])@.key) && s[j].value@ == out0[a]@.value;
                            assert(0 <= j < i + 1 && matches_at(s, j, table@, out@[a]@.key)
                                && s[j].value@ == out@[a]@.value);
                        } else {
                            assert(0 <= i < i + 1 && matches_at(s, i as int, table@,
                                out@[a]@.key) && s[i as int].value@ == out@[a]@.value);
                        }
                    }
                    assert forall|j: int| 0 <= j < i + 1 && (#[trigger] s[j]).table@ == table@
                        implies exists|a: int| 0 <= a < out@.len()
                            && (#[trigger] out@[a])@.key == s[j].key@ by {
                        if j < i {
                            let a = choose|a: int| 0 <= a < out0.len()
                                && (#[trigger] out0[a])@.key == s[j].key@;
                            assert(out@[a] == out0[a]);
                            assert(0 <= a < out@.len() && out@[a]@.key == s[j].key@);
                        } else {
                            assert(0 <= newlen - 1 < out@.len()
                                && out@[newlen - 1]@.key == s[j].key@);
                        }
                    }
                    assert forall|a: int, b: int| 0 <= a < b < out@.len() implies (
                        #[trigger] out@[a])@.key != (#[trigger] out@[b])@.key by {
                        if b == newlen - 1 {
                            assert(out@[a] == out0[a]);
                            if out@[a]@.key == out@[b]@.key {
                                let j = choose|j: int| 0 <= j < i && matches_at(s, j, table@,
                                    (#[trigger] out0[a])@.key) && s[j].value@ == out0[a]@.value;
                                assert(matches_at(s, j, table@, s[i as int].key@));
                                assert(false);
                            }
                        } else {
                            assert(out@[a] == out0[a] && out@[b] == out0[b]);
                        }
                    }
                }
            }
            i += 1;
        }
        let ghost m = self.contents()[table@];
        let ghost ps = out@.map_values(|p: KvPair| p@);
        proof {
            lemma_contents_at(self, table@);
            assert forall|a: int| 0 <= a < ps.len() implies m.contains_key(
                #[trigger] ps[a].key) && m[ps[a].key] == ps[a].value by {
                let j = choose|j: int| 0 <= j < i && matches_at(s, j, table@,
                    (#[trigger] out@[a])@.key) && s[j].value@ == out@[a]@.value;
                lemma_match_value(s, table@, out@[a]@.key, j);
            }
            assert forall|k: Seq<char>| #[trigger] m.contains_key(k) implies exists|a: int|
                0 <= a < ps.len() && (#[trigger] ps[a]).key == k by {
                let j = choose|j: int| 0 <= j < s.len() && #[trigger] matches_at(s, j, table@, k);
                let a = choose|a: int| 0 <= a < out@.len() && (#[trigger] out@[a])@.key
                    == s[j].key@;
                assert(0 <= a < ps.len() && ps[a].key == k);
            }
            assert(pairs_match(m, ps));
        }
        Ok(out)
    }
}

} // verus!
