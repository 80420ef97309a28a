//! Engine-wide laws: the ordering of listings, the behaviour of repeated
//! unconditional writes, and the exclusion between two compare-and-set
//! writes that expect the same version.

use vstd::prelude::*;

use crate::get::{get_outcome, listing, GetOrListParams};
use crate::lex::{lex_lt, lemma_lex_lt_irreflexive};
use crate::post::{next_version, write_refusal, WriteParams};
use crate::store::{lb, lemma_lb_bounds, ItemView, KvError, Store};

verus! {

/// A write that carries no preconditions at all.
pub open spec fn unconditional() -> WriteParams {
    WriteParams { if_exists: false, not_exists: false, version: None }
}

/// Every listing comes out in key order: strictly ascending forward,
/// strictly descending in reverse — whatever the prefix and the cap.
pub proof fn lemma_listing_sorted(
    s: Store,
    prefix: Option<Seq<u8>>,
    limit: int,
    with_vals: bool,
)
    requires
        s.wf(),
    ensures
        ({
            let fwd = listing(s, prefix, limit, with_vals, false);
            forall|p: int, q: int|
                0 <= p < q < fwd.len() ==> lex_lt((#[trigger] fwd[p]).0, (#[trigger] fwd[q]).0)
        }),
        ({
            let rev = listing(s, prefix, limit, with_vals, true);
            forall|p: int, q: int|
                0 <= p < q < rev.len() ==> lex_lt((#[trigger] rev[q]).0, (#[trigger] rev[p]).0)
        }),
{
    let ks = s.key_seq();
    match prefix {
        Some(p) => lemma_lb_bounds(ks, p),
        None => lemma_lb_bounds(ks, Seq::<u8>::empty()),
    }
}

/// Ordering law: a listing of the whole store returns the keys in strictly
/// ascending byte order, and the reverse listing returns exactly the
/// reverse of that sequence.
pub proof fn lemma_list_ordering(s: Store, limit: int, with_vals: bool)
    requires
        s.wf(),
        limit >= s.key_seq().len(),
    ensures
        ({
            let fwd = listing(s, None, limit, with_vals, false);
            let rev = listing(s, None, limit, with_vals, true);
            &&& fwd.len() == s.key_seq().len()
            &&& forall|t: int| 0 <= t < fwd.len() ==> (#[trigger] fwd[t]).0 == s.key_seq()[t]
            &&& forall|p: int, q: int|
                0 <= p < q < fwd.len() ==> lex_lt((#[trigger] fwd[p]).0, (#[trigger] fwd[q]).0)
            &&& rev.len() == fwd.len()
            &&& forall|t: int| 0 <= t < rev.len() ==> (#[trigger] rev[t]) == fwd[rev.len() - 1 - t]
        }),
{
    let ks = s.key_seq();
    lemma_lb_bounds(ks, Seq::<u8>::empty());
    assert(lb(ks, Seq::<u8>::empty()) == 0) by {
        if ks.len() > 0 {
            assert(!lex_lt(ks[0], Seq::<u8>::empty()));
        }
    }
    lemma_listing_sorted(s, None, limit, with_vals);
}

/// Idempotent overwrite: an unconditional write is never refused; after one
/// write of `body` under `k`, a second unconditional write is again not
/// refused and is stamped strictly later, and in between a get of `k` (with
/// no byte range) returns `body` at the version the write reported.
pub proof fn lemma_idempotent_overwrite(
    s0: Store,
    s1: Store,
    k: Seq<u8>,
    body: Seq<u8>,
    now1: i64,
    now2: i64,
    gp: GetOrListParams,
)
    requires
        s0.wf(),
        s1.wf(),
        s1.contents() == s0.contents().insert(
            k,
            ItemView { version: next_version(s0, now1), data: body },
        ),
        s1.version_clock() == next_version(s0, now1),
        gp.start is None,
        gp.end is None,
    ensures
        write_refusal(s0, unconditional(), k) is None,
        write_refusal(s1, unconditional(), k) is None,
        next_version(s1, now2) > next_version(s0, now1),
        get_outcome(s1, gp, k) matches Ok(iv) && iv.data == body && iv.version == next_version(
            s0,
            now1,
        ),
{
    let iv = s1.contents()[k];
    assert(iv.data =~= iv.data.subrange(0, iv.data.len() as int));
}

/// Compare-and-set exclusion: of two writes that expect the same version of
/// the same key, whichever is applied first succeeds and leaves the other
/// refused with `VersionMismatch`; the two can never both succeed.
pub proof fn lemma_cas_exclusive(
    s0: Store,
    s1: Store,
    k: Seq<u8>,
    first_body: Seq<u8>,
    v: i64,
    now1: i64,
    p1: WriteParams,
    p2: WriteParams,
)
    requires
        s0.wf(),
        s1.wf(),
        s0.contents().contains_key(k),
        s0.contents()[k].version == v as int,
        !p1.if_exists && !p1.not_exists && p1.version == Some(v),
        !p2.if_exists && !p2.not_exists && p2.version == Some(v),
        s1.contents() == s0.contents().insert(
            k,
            ItemView { version: next_version(s0, now1), data: first_body },
        ),
    ensures
        write_refusal(s0, p1, k) is None,
        write_refusal(s1, p2, k) == Some(KvError::VersionMismatch),
{
    // the stored version is never ahead of the clock, so the fresh stamp
    // cannot collide with the expected one
    let w = choose|w: int| 0 <= w < s0.key_seq().len() && s0.key_seq()[w] == k;
    s0.lemma_contents_at(w);
    assert(s0.contents()[k].version <= s0.version_clock());
    assert(next_version(s0, now1) > s0.version_clock());
}

} // verus!
