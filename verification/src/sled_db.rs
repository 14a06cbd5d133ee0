//! The persistent backend: a single sorted keyspace, with tables
//! simulated by prefixing every stored key with `"<table>:"` and values
//! held as encoded bytes.
//!
//! The separator is a legal character inside table names and keys; a
//! table name that contains it can alias another table's keys (a
//! documented constraint of the layout, not enforced here). The
//! contracts therefore promise per-table effects only.

use vstd::prelude::*;
use vstd::string::StringExecFns;
use vstd::string::StrSliceExecFns;
use crate::codec::{decode_value, encode_value, lemma_value_round_trip, value_fits,
    value_parse};
use crate::error::KVError;
use crate::pb::{KvPair, Value, ValueModel};
use crate::storage::{pairs_match, Storage};

verus! {

#[verifier::external_type_specification]
#[verifier::external_body]
pub struct ExDb(sled::Db);

#[verifier::external_type_specification]
#[verifier::external_body]
pub struct ExSledError(sled::Error);

/// What the sled keyspace holds, as a mapping from the stored key,
/// read as characters, to the stored bytes. Every key this library
/// writes is a character string.
pub uninterp spec fn sled_tree_map(db: sled::Db) -> Map<Seq<char>, Seq<u8>>;

/// Relies on `sled::Tree::get`: returns the value stored at the key,
/// or nothing when the key is absent.
#[verifier::external_body]
fn sled_get(db: &sled::Db, key: &str) -> (r: Result<Option<Vec<u8>>, sled::Error>)
    ensures
        match r {
            Ok(opt) => match opt {
                Some(v) => sled_tree_map(*db).contains_key(key@)
                    && sled_tree_map(*db)[key@] == v@,
                None => !sled_tree_map(*db).contains_key(key@),
            },
            Err(_) => true,
        },
{
    match db.get(key.as_bytes()) {
        Ok(Some(ivec)) => Ok(Some(ivec.to_vec())),
        Ok(None) => Ok(None),
        Err(e) => Err(e),
    }
}

/// Relies on `sled::Tree::insert`: stores the value at the key and
/// returns the last value if one was set.
#[verifier::external_body]
fn sled_insert(db: &mut sled::Db, key: &str, value: Vec<u8>) -> (r: Result<
    Option<Vec<u8>>,
    sled::Error,
>)
    ensures
        match r {
            Ok(opt) => {
                &&& sled_tree_map(*final(db))
                    == sled_tree_map(*old(db)).insert(key@, value@)
                &&& match opt {
                    Some(p) => sled_tree_map(*old(db)).contains_key(key@)
                        && sled_tree_map(*old(db))[key@] == p@,
                    None => !sled_tree_map(*old(db)).contains_key(key@),
                }
            },
            Err(_) => true,
        },
{
    match db.insert(key.as_bytes(), value) {
        Ok(Some(ivec)) => Ok(Some(ivec.to_vec())),
        Ok(None) => Ok(None),
        Err(e) => Err(e),
    }
}

/// Relies on `sled::Tree::remove`: removes the key and returns the
/// removed value if one was set.
#[verifier::external_body]
fn sled_remove(db: &mut sled::Db, key: &str) -> (r: Result<Option<Vec<u8>>, sled::Error>)
    ensures
        match r {
            Ok(opt) => {
                &&& sled_tree_map(*final(db)) == sled_tree_map(*old(db)).remove(key@)
                &&& match opt {
                    Some(p) => sled_tree_map(*old(db)).contains_key(key@)
                        && sled_tree_map(*old(db))[key@] == p@,
                    None => !sled_tree_map(*old(db)).contains_key(key@),
                }
            },
            Err(_) => true,
        },
{
    match db.remove(key.as_bytes()) {
        Ok(Some(ivec)) => Ok(Some(ivec.to_vec())),
        Ok(None) => Ok(None),
        Err(e) => Err(e),
    }
}

/// Relies on `sled::Tree::contains_key`.
#[verifier::external_body]
fn sled_contains(db: &sled::Db, key: &str) -> (r: Result<bool, sled::Error>)
    ensures
        match r {
            Ok(b) => b == sled_tree_map(*db).contains_key(key@),
            Err(_) => true,
        },
{
    db.contains_key(key.as_bytes())
}

/// Relies on `sled::Tree::scan_prefix`: iterates every entry whose key
/// starts with the prefix, each exactly once. A stored key that is not
/// a character string cannot have been written through this library and
/// is left out.
#[verifier::external_body]
fn sled_scan_prefix(db: &sled::Db, prefix: &str) -> (r: Result<
    Vec<(String, Vec<u8>)>,
    sled::Error,
>)
    ensures
        match r {
            Ok(entries) => {
                &&& forall|i: int| 0 <= i < entries@.len() ==> {
                    &&& prefix@.is_prefix_of((#[trigger] entries@[i]).0@)
                    &&& sled_tree_map(*db).contains_key(entries@[i].0@)
                    &&& sled_tree_map(*db)[entries@[i].0@] == entries@[i].1@
                }
                &&& forall|i: int, j: int| 0 <= i < j < entries@.len()
                    ==> (#[trigger] entries@[i]).0@ != (#[trigger] entries@[j]).0@
                &&& forall|k: Seq<char>| sled_tree_map(*db).contains_key(k)
                    && prefix@.is_prefix_of(k) ==> exists|i: int|
                        0 <= i < entries@.len() && (#[trigger] entries@[i]).0@ == k
            },
            Err(_) => true,
        },
{
    let mut out = Vec::new();
    for item in db.scan_prefix(prefix.as_bytes()) {
        let (k, v) = item?;
        match String::from_utf8(k.to_vec()) {
            Ok(key) => out.push((key, v.to_vec())),
            Err(_) => {},
        }
    }
    Ok(out)
}

/// Relies on `sled::open`: opens (creating if absent) the database at
/// the given path.
#[verifier::external_body]
fn sled_open(path: &str) -> (r: Result<sled::Db, sled::Error>) {
    sled::open(path)
}

/// Relies on the error's `Display` implementation for its text.
#[verifier::external_body]
fn sled_error_text(e: &sled::Error) -> (r: String) {
    e.to_string()
}

/// The physical key under which table `t`'s entry for `k` is stored.
pub open spec fn full_key_view(t: Seq<char>, k: Seq<char>) -> Seq<char> {
    t + ":"@ + k
}

/// The physical prefix shared by every key of table `t`.
pub open spec fn table_prefix_view(t: Seq<char>) -> Seq<char> {
    t + ":"@
}

/// Within one table, distinct logical keys get distinct physical keys.
proof fn lemma_full_key_injective(t: Seq<char>, k1: Seq<char>, k2: Seq<char>)
    requires
        full_key_view(t, k1) == full_key_view(t, k2),
    ensures
        k1 == k2,
{
    let p = table_prefix_view(t);
    assert(full_key_view(t, k1) =~= p + k1);
    assert(full_key_view(t, k2) =~= p + k2);
    assert(k1.len() == k2.len());
    assert forall|i: int| 0 <= i < k1.len() implies k1[i] == k2[i] by {
        assert((p + k1)[p.len() + i] == k1[i]);
        assert((p + k2)[p.len() + i] == k2[i]);
    }
    assert(k1 =~= k2);
}

/// The value a raw entry decodes to; meaningful when it parses.
pub open spec fn decoded_at(raw: Map<Seq<char>, Seq<u8>>, fk: Seq<char>) -> ValueModel {
    match value_parse(raw[fk]) {
        Some(v) => v,
        None => ValueModel::Empty,
    }
}

/// The logical table `t` held by the raw keyspace: the keys whose
/// physical form is present and decodes.
pub open spec fn derived_table(raw: Map<Seq<char>, Seq<u8>>, t: Seq<char>) -> Map<
    Seq<char>,
    ValueModel,
> {
    Map::new(
        |k: Seq<char>|
            raw.contains_key(full_key_view(t, k)) && value_parse(
                raw[full_key_view(t, k)],
            ) is Some,
        |k: Seq<char>| decoded_at(raw, full_key_view(t, k)),
    )
}

/// The persistent backend: one sled keyspace.
pub struct SledDb(sled::Db);

impl SledDb {
    /// The raw keyspace under the logical view.
    pub closed spec fn raw(&self) -> Map<Seq<char>, Seq<u8>> {
        sled_tree_map(self.0)
    }

    /// Opens (creating if absent) the database stored at `path`.
    pub fn new(path: &str) -> (r: Result<SledDb, KVError>)
        ensures
            r matches Ok(db) ==> db.inv(),
    {
        match sled_open(path) {
            Ok(db) => Ok(SledDb(db)),
            Err(e) => Err(KVError::StorageError(
                "OPEN",
                path.to_owned(),
                String::new(),
                sled_error_text(&e),
            )),
        }
    }
}

/// Builds the physical key `"<table>:<key>"`.
fn full_key(table: &str, key: &str) -> (r: String)
    ensures
        r@ == full_key_view(table@, key@),
{
    let mut s = String::new();
    s.append(table);
    s.append(":");
    s.append(key);
    proof {
        assert(s@ =~= full_key_view(table@, key@));
    }
    s
}

/// Builds the physical prefix `"<table>:"`.
fn table_prefix(table: &str) -> (r: String)
    ensures
        r@ == table_prefix_view(table@),
{
    let mut s = String::new();
    s.append(table);
    s.append(":");
    proof {
        assert(s@ =~= table_prefix_view(table@));
    }
    s
}

/// Reading `contents()` at any table name gives the derived table.
proof fn lemma_sled_contents_at(db: &SledDb, t: Seq<char>)
    ensures
        db.contents()[t] == derived_table(db.raw(), t),
{
}

impl Storage for SledDb {
    closed spec fn inv(&self) -> bool {
        true
    }

    closed spec fn contents(&self) -> Map<Seq<char>, Map<Seq<char>, ValueModel>> {
        Map::new(|t: Seq<char>| true, |t: Seq<char>| derived_table(self.raw(), t))
    }

    closed spec fn exact(&self) -> bool {
        false
    }

    closed spec fn key_present(&self, table: Seq<char>, key: Seq<char>) -> bool {
        self.raw().contains_key(full_key_view(table, key))
    }

    fn get(&self, table: &str, key: &str) -> (r: Result<Option<Value>, KVError>) {
        let name = full_key(table, key);
        proof {
            lemma_sled_contents_at(self, table@);
        }
        match sled_get(&self.0, name.as_str()) {
            Ok(Some(bytes)) => match decode_value(&bytes) {
                Ok(v) => Ok(Some(v)),
                Err(e) => Err(e),
            },
            Ok(None) => Ok(None),
            Err(e) => Err(KVError::StorageError(
                "GET",
                table.to_owned(),
                key.to_owned(),
                sled_error_text(&e),
            )),
        }
    }

    fn set(&mut self, table: &str, key: String, value: Value) -> (r: Result<
        Option<Value>,
        KVError,
    >) {
        let ghost raw0 = self.raw();
        let name = full_key(table, key.as_str());
        let data = encode_value(&value);
        proof {
            vstd::std_specs::vec::axiom_spec_len(&data);
            lemma_value_round_trip(value@);
        }
        match sled_insert(&mut self.0, name.as_str(), data) {
            Ok(opt) => {
                proof {
                    lemma_sled_contents_at(self, table@);
                    lemma_sled_contents_at(old(self), table@);
                    assert forall|k2: Seq<char>| k2 != key@ implies #[trigger]
                        full_key_view(table@, k2) != full_key_view(table@, key@) by {
                        if full_key_view(table@, k2) == full_key_view(table@, key@) {
                            lemma_full_key_injective(table@, k2, key@);
                        }
                    }
                    assert(derived_table(self.raw(), table@) =~= derived_table(
                        raw0, table@).insert(key@, value@));
                }
                match opt {
                    Some(prior_bytes) => match decode_value(&prior_bytes) {
                        Ok(v) => Ok(Some(v)),
                        Err(e) => Err(e),
                    },
                    None => Ok(None),
                }
            },
            Err(e) => Err(KVError::StorageError(
                "SET",
                table.to_owned(),
                key,
                sled_error_text(&e),
            )),
        }
    }

    fn contains(&self, table: &str, key: &str) -> (r: Result<bool, KVError>) {
        let name = full_key(table, key);
        match sled_contains(&self.0, name.as_str()) {
            Ok(b) => Ok(b),
            Err(e) => Err(KVError::StorageError(
                "CONTAINS",
                table.to_owned(),
                key.to_owned(),
                sled_error_text(&e),
            )),
        }
    }

    fn del(&mut self, table: &str, key: &str) -> (r: Result<Option<Value>, KVError>) {
        let ghost raw0 = self.raw();
        let name = full_key(table, key);
        match sled_remove(&mut self.0, name.as_str()) {
            Ok(opt) => {
                proof {
                    lemma_sled_contents_at(self, table@);
                    lemma_sled_contents_at(old(self), table@);
                    assert forall|k2: Seq<char>| k2 != key@ implies #[trigger]
                        full_key_view(table@, k2) != full_key_view(table@, key@) by {
                        if full_key_view(table@, k2) == full_key_view(table@, key@) {
                            lemma_full_key_injective(table@, k2, key@);
                        }
                    }
                    assert(derived_table(self.raw(), table@) =~= derived_table(
                        raw0, table@).remove(key@));
                }
                match opt {
                    Some(prior_bytes) => match decode_value(&prior_bytes) {
                        Ok(v) => Ok(Some(v)),
                        Err(e) => Err(e),
                    },
                    None => Ok(None),
                }
            },
            Err(e) => Err(KVError::StorageError(
                "DEL",
                table.to_owned(),
                key.to_owned(),
                sled_error_text(&e),
            )),
        }
    }

    #[verifier::rlimit(50)]
    fn get_all(&self, table: &str) -> (r: Result<Vec<KvPair>, KVError>) {
        let ghost raw = self.raw();
        let ghost t = table@;
        let prefix = table_prefix(table);
        let plen = prefix.as_str().unicode_len();
        proof {
            lemma_sled_contents_at(self, t);
        }
        match sled_scan_prefix(&self.0, prefix.as_str()) {
            Ok(entries) => {
                let ghost es = entries@;
                let mut out: Vec<KvPair> = Vec::new();
                let n = entries.len();
                let mut i: usize = 0;
                while i < n
                    invariant
                        n == es.len(),
                        entries@ == es,
                        plen == table_prefix_view(t).len(),
                        out@.len() == i,
                        0 <= i <= n,
                        forall|a: int| 0 <= a < es.len() ==> {
                            &&& table_prefix_view(t).is_prefix_of((#[trigger] es[a]).0@)
                            &&& raw.contains_key(es[a].0@)
                            &&& raw[es[a].0@] == es[a].1@
                        },
                        forall|a: int, b: int| 0 <= a < b < es.len()
                            ==> (#[trigger] es[a]).0@ != (#[trigger] es[b]).0@,
                        forall|a: int| 0 <= a < i ==> {
                            &&& (#[trigger] out@[a])@.key
                                == es[a].0@.skip(table_prefix_view(t).len() as int)
                            &&& es[a].0@ == full_key_view(t, out@[a]@.key)
                            &&& value_parse(es[a].1@) == Some(out@[a]@.value)
                        },
                    decreases n - i,
                {
                    let entry_key = &entries[i].0;
                    let flen = entry_key.as_str().unicode_len();
                    assert(table_prefix_view(t).is_prefix_of(es[i as int].0@));
                    let stripped = entry_key.as_str().substring_char(plen, flen);
                    match decode_value(&entries[i].1) {
                        Ok(v) => {
                            out.push(KvPair::new(stripped, v));
                            proof {
                                assert(es[i as int].0@ =~= full_key_view(t,
                                    es[i as int].0@.skip(table_prefix_view(t).len() as int)));
                            }
                        },
                        Err(e) => {
                            return Err(e);
                        },
                    }
                    i += 1;
                }
                let ghost m = self.contents()[t];
                let ghost ps = out@.map_values(|p: KvPair| p@);
                proof {
                    assert forall|a: int| 0 <= a < ps.len() implies m.contains_key(
                        #[trigger] ps[a].key) && m[ps[a].key] == ps[a].value by {
                        assert(es[a].0@ == full_key_view(t, out@[a]@.key));
                    }
                    assert forall|a: int, b: int| 0 <= a < b < ps.len() implies (
                        #[trigger] ps[a]).key != (#[trigger] ps[b]).key by {
                        if ps[a].key == ps[b].key {
                            assert(es[a].0@ == full_key_view(t, out@[a]@.key));
                            assert(es[b].0@ == full_key_view(t, out@[b]@.key));
                        }
                    }
                    assert forall|k: Seq<char>| #[trigger] m.contains_key(k) implies exists|
                        a: int| 0 <= a < ps.len() && (#[trigger] ps[a]).key == k by {
                        assert(raw.contains_key(full_key_view(t, k)));
                        assert(table_prefix_view(t).is_prefix_of(full_key_view(t, k))) by {
                            assert(full_key_view(t, k).take(table_prefix_view(t).len() as int)
                                =~= table_prefix_view(t));
                        }
                        let a = choose|a: int| 0 <= a < es.len() && (#[trigger] es[a]).0@
                            == full_key_view(t, k);
                        assert(es[a].0@ == full_key_view(t, out@[a]@.key));
                        lemma_full_key_injective(t, k, out@[a]@.key);
                        assert(ps[a].key == k);
                    }
                    assert(pairs_match(m, ps));
                }
                Ok(out)
            },
            Err(e) => Err(KVError::StorageError(
                "SCAN",
                table.to_owned(),
                String::new(),
                sled_error_text(&e),
            )),
        }
    }
}

} // verus!
