//! The service's cross-cutting guarantees, stated once over the command
//! semantics and proved from the contracts of the handlers and the
//! storage interface.

use vstd::prelude::*;
use vstd::seq_lib::group_to_multiset_ensures;
use crate::pb::{Hdel, Hget, Hgetall, Hset, KvPairModel, ValueModel, resp_ok_value};
use crate::service::{hdel_post, hget_post, hgetall_post, hset_post, resp_not_found};
use crate::storage::pairs_match;

verus! {

/// Under `pairs_match`, a snapshot holds exactly the table's entries.
proof fn lemma_pairs_match_contains(
    m: Map<Seq<char>, ValueModel>,
    ps: Seq<KvPairModel>,
    x: KvPairModel,
)
    requires
        pairs_match(m, ps),
    ensures
        ps.contains(x) <==> (m.contains_key(x.key) && m[x.key] == x.value),
{
    if ps.contains(x) {
        let i = choose|i: int| 0 <= i < ps.len() && ps[i] == x;
        assert(m.contains_key(ps[i].key) && m[ps[i].key] == ps[i].value);
    }
    if m.contains_key(x.key) && m[x.key] == x.value {
        let a = choose|a: int| 0 <= a < ps.len() && (#[trigger] ps[a]).key == x.key;
        assert(ps[a].value == m[x.key]);
        assert(ps[a] == x);
        assert(ps.contains(x));
    }
}

/// A snapshot with no repeated key has no repeated element.
proof fn lemma_pairs_no_duplicates(m: Map<Seq<char>, ValueModel>, ps: Seq<KvPairModel>)
    requires
        pairs_match(m, ps),
    ensures
        ps.no_duplicates(),
{
    assert forall|i: int, j: int| 0 <= i < ps.len() && 0 <= j < ps.len() && i != j implies
        ps[i] != ps[j] by {
        if i < j {
            assert(ps[i].key != ps[j].key);
        } else {
            assert(ps[j].key != ps[i].key);
        }
    }
}

/// Two snapshots of one table hold the same pairs, as multisets.
pub proof fn lemma_snapshots_agree(
    m: Map<Seq<char>, ValueModel>,
    ps1: Seq<KvPairModel>,
    ps2: Seq<KvPairModel>,
)
    requires
        pairs_match(m, ps1),
        pairs_match(m, ps2),
    ensures
        ps1.to_multiset() == ps2.to_multiset(),
{
    broadcast use group_to_multiset_ensures;

    lemma_pairs_no_duplicates(m, ps1);
    lemma_pairs_no_duplicates(m, ps2);
    ps1.lemma_multiset_has_no_duplicates();
    ps2.lemma_multiset_has_no_duplicates();
    assert forall|x: KvPairModel| ps1.to_multiset().count(x) == (#[trigger] ps2.to_multiset()
        .count(x)) by {
        lemma_pairs_match_contains(m, ps1, x);
        lemma_pairs_match_contains(m, ps2, x);
        if ps1.contains(x) {
            assert(ps1.to_multiset().count(x) == 1);
            assert(ps2.contains(x));
            assert(ps2.to_multiset().count(x) == 1);
        } else {
            assert(ps1.to_multiset().count(x) == 0);
            assert(!ps2.contains(x));
            assert(ps2.to_multiset().count(x) == 0);
        }
    }
    assert(ps1.to_multiset() =~= ps2.to_multiset());
}

/// Read-only idempotence: reading a whole table twice, with no write in
/// between, answers the same pairs up to order.
pub proof fn lemma_hgetall_idempotent(
    h: Hgetall,
    before: Map<Seq<char>, Map<Seq<char>, ValueModel>>,
    r1: crate::pb::CommandResponseModel,
    r2: crate::pb::CommandResponseModel,
)
    requires
        hgetall_post(h, before, r1, true),
        hgetall_post(h, before, r2, true),
    ensures
        r1.pairs.to_multiset() == r2.pairs.to_multiset(),
{
    lemma_snapshots_agree(before[h.table@], r1.pairs, r2.pairs);
}

/// A key never written reads as absent: the read of such a key answers
/// the not-found response.
pub proof fn lemma_never_written_get(
    h: Hget,
    before: Map<Seq<char>, Map<Seq<char>, ValueModel>>,
    resp: crate::pb::CommandResponseModel,
)
    requires
        hget_post(h, before, resp, true),
        !before[h.table@].contains_key(h.key@),
    ensures
        resp == resp_not_found(h.table@, h.key@),
{
}

/// A key never written deletes as absent: the delete answers the
/// not-found response and the table is left as it was.
pub proof fn lemma_never_written_del(
    h: Hdel,
    before: Map<Seq<char>, Map<Seq<char>, ValueModel>>,
    after: Map<Seq<char>, Map<Seq<char>, ValueModel>>,
    resp: crate::pb::CommandResponseModel,
)
    requires
        hdel_post(h, before, after, resp, true),
        !before[h.table@].contains_key(h.key@),
    ensures
        resp == resp_not_found(h.table@, h.key@),
        after[h.table@] == before[h.table@],
{
    assert(before[h.table@].remove(h.key@) =~= before[h.table@]);
}

/// Write-then-read: a write followed by a read of the same key answers
/// exactly the written value.
pub proof fn lemma_write_then_read(
    hs: Hset,
    hg: Hget,
    m0: Map<Seq<char>, Map<Seq<char>, ValueModel>>,
    m1: Map<Seq<char>, Map<Seq<char>, ValueModel>>,
    r1: crate::pb::CommandResponseModel,
    r2: crate::pb::CommandResponseModel,
)
    requires
        hset_post(hs, m0, m1, r1, true),
        hget_post(hg, m1, r2, true),
        hg.table@ == hs.table@,
        hg.key@ == hs.pair.key@,
    ensures
        r2 == resp_ok_value(hs.pair.value@),
{
}

/// A second write of the same key answers the first written value as
/// the prior one, and a read after it answers the second value.
pub proof fn lemma_second_write_returns_prior(
    h1: Hset,
    h2: Hset,
    hg: Hget,
    m0: Map<Seq<char>, Map<Seq<char>, ValueModel>>,
    m1: Map<Seq<char>, Map<Seq<char>, ValueModel>>,
    m2: Map<Seq<char>, Map<Seq<char>, ValueModel>>,
    r1: crate::pb::CommandResponseModel,
    r2: crate::pb::CommandResponseModel,
    r3: crate::pb::CommandResponseModel,
)
    requires
        hset_post(h1, m0, m1, r1, true),
        hset_post(h2, m1, m2, r2, true),
        hget_post(hg, m2, r3, true),
        h2.table@ == h1.table@,
        h2.pair.key@ == h1.pair.key@,
        hg.table@ == h1.table@,
        hg.key@ == h1.pair.key@,
    ensures
        r2 == resp_ok_value(h1.pair.value@),
        r3 == resp_ok_value(h2.pair.value@),
{
}

/// Delete-then-read: after a write, a delete of the same key answers the
/// written value, and a read after it answers not-found.
pub proof fn lemma_delete_then_read(
    hs: Hset,
    hd: Hdel,
    hg: Hget,
    m0: Map<Seq<char>, Map<Seq<char>, ValueModel>>,
    m1: Map<Seq<char>, Map<Seq<char>, ValueModel>>,
    m2: Map<Seq<char>, Map<Seq<char>, ValueModel>>,
    r1: crate::pb::CommandResponseModel,
    r2: crate::pb::CommandResponseModel,
    r3: crate::pb::CommandResponseModel,
)
    requires
        hset_post(hs, m0, m1, r1, true),
        hdel_post(hd, m1, m2, r2, true),
        hget_post(hg, m2, r3, true),
        hd.table@ == hs.table@,
        hd.key@ == hs.pair.key@,
        hg.table@ == hs.table@,
        hg.key@ == hs.pair.key@,
    ensures
        r2 == resp_ok_value(hs.pair.value@),
        r3 == resp_not_found(hs.table@, hs.pair.key@),
{
}

} // verus!
