//! The storage capability: get / set / contains / delete / get-all over
//! named tables, shared by the in-memory and the persistent backend.
//!
//! A backend's logical contents are a total mapping from table name to
//! table, where a table never written is the empty table: reading a
//! nonexistent table behaves as an empty one, never as an error.

use vstd::prelude::*;
use crate::error::{is_backend_error, KVError};
use crate::pb::{KvPair, KvPairModel, Value, ValueModel};

verus! {

/// `ps` is a snapshot of table `m`: every pair holds an entry of `m`,
/// no key repeats, and every entry of `m` appears.
pub open spec fn pairs_match(m: Map<Seq<char>, ValueModel>, ps: Seq<KvPairModel>) -> bool {
    &&& forall|i: int| 0 <= i < ps.len()
        ==> m.contains_key(#[trigger] ps[i].key) && m[ps[i].key] == ps[i].value
    &&& forall|i: int, j: int| 0 <= i < j < ps.len()
        ==> (#[trigger] ps[i]).key != (#[trigger] ps[j]).key
    &&& forall|k: Seq<char>| #[trigger] m.contains_key(k)
        ==> exists|i: int| 0 <= i < ps.len() && (#[trigger] ps[i]).key == k
}

/// What an optional result says of a table's entry at `k`: `Some`
/// carries exactly the entry, `None` means the key is absent.
pub open spec fn opt_is_entry(
    m: Map<Seq<char>, ValueModel>,
    k: Seq<char>,
    opt: Option<Value>,
) -> bool {
    match opt {
        Some(v) => m.contains_key(k) && m[k] == v@,
        None => !m.contains_key(k),
    }
}

/// A pluggable backend. Each implementation carries its own invariant
/// and its own logical contents; an `exact` backend (the in-memory one)
/// is infallible and keeps tables fully independent, while a persistent
/// backend may fail on I/O and only promises the per-table effects.
pub trait Storage: Sized {
    /// The backend's internal well-formedness.
    spec fn inv(&self) -> bool;

    /// The logical contents: every table name maps to a table, the empty
    /// table if never written.
    spec fn contents(&self) -> Map<Seq<char>, Map<Seq<char>, ValueModel>>;

    /// True of a backend whose operations never fail and touch nothing
    /// beyond the named table.
    spec fn exact(&self) -> bool;

    /// Whether `key` is present in `table`, as this backend tests it.
    spec fn key_present(&self, table: Seq<char>, key: Seq<char>) -> bool;

    /// Reads one key of one table.
    fn get(&self, table: &str, key: &str) -> (r: Result<Option<Value>, KVError>)
        requires
            self.inv(),
        ensures
            match r {
                Ok(opt) => opt_is_entry(self.contents()[table@], key@, opt),
                Err(e) => !self.exact() && is_backend_error(e),
            },
            self.exact() ==> r is Ok,
    ;

    /// Writes one pair, returning the prior value if any.
    fn set(&mut self, table: &str, key: String, value: Value) -> (r: Result<
        Option<Value>,
        KVError,
    >)
        requires
            old(self).inv(),
        ensures
            final(self).inv(),
            final(self).exact() == old(self).exact(),
            match r {
                Ok(opt) => {
                    &&& final(self).contents()[table@]
                        == old(self).contents()[table@].insert(key@, value@)
                    &&& opt_is_entry(old(self).contents()[table@], key@, opt)
                    &&& old(self).exact() ==> forall|t: Seq<char>| t != table@
                        ==> final(self).contents()[t] == old(self).contents()[t]
                },
                Err(e) => !old(self).exact() && is_backend_error(e),
            },
            old(self).exact() ==> r is Ok,
    ;

    /// Tests one key of one table.
    fn contains(&self, table: &str, key: &str) -> (r: Result<bool, KVError>)
        requires
            self.inv(),
        ensures
            match r {
                Ok(b) => b == self.key_present(table@, key@),
                Err(e) => !self.exact() && is_backend_error(e),
            },
            self.exact() ==> r is Ok,
            self.exact() ==> self.key_present(table@, key@)
                == self.contents()[table@].contains_key(key@),
    ;

    /// Removes one key, returning the removed value if any.
    fn del(&mut self, table: &str, key: &str) -> (r: Result<Option<Value>, KVError>)
        requires
            old(self).inv(),
        ensures
            final(self).inv(),
            final(self).exact() == old(self).exact(),
            match r {
                Ok(opt) => {
                    &&& final(self).contents()[table@]
                        == old(self).contents()[table@].remove(key@)
                    &&& opt_is_entry(old(self).contents()[table@], key@, opt)
                    &&& old(self).exact() ==> forall|t: Seq<char>| t != table@
                        ==> final(self).contents()[t] == old(self).contents()[t]
                },
                Err(e) => !old(self).exact() && is_backend_error(e),
            },
            old(self).exact() ==> r is Ok,
    ;

    /// A snapshot of one whole table, in no promised order.
    fn get_all(&self, table: &str) -> (r: Result<Vec<KvPair>, KVError>)
        requires
            self.inv(),
        ensures
            match r {
                Ok(pairs) => pairs_match(
                    self.contents()[table@],
                    pairs@.map_values(|p: KvPair| p@),
                ),
                Err(e) => !self.exact() && is_backend_error(e),
            },
            self.exact() ==> r is Ok,
    ;
}

} // verus!
