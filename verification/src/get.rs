//! The read path: point get with optional byte-range slicing, prefix-bounded
//! listing in both directions, and the dispatch between them.

use vstd::prelude::*;

use crate::store::{lb, lemma_lb_bounds, Item, ItemView, KvError, Store};

verus! {

/// Query parameters shared by point get and listing.
#[derive(Clone, Copy, Debug)]
pub struct GetOrListParams {
    /// Listing mode rather than a point get.
    pub list: bool,
    /// Cap on listed entries; one hundred when absent, nothing below zero.
    pub limit: Option<i64>,
    /// Include stored values in the listing.
    pub with_vals: bool,
    /// List in descending key order.
    pub reverse: bool,
    /// First byte of a range read (point get only).
    pub start: Option<i64>,
    /// One past the last byte of a range read (point get only).
    pub end: Option<i64>,
}

/// The entry cap a listing honours.
pub open spec fn spec_limit(p: GetOrListParams) -> int {
    match p.limit {
        Some(l) => if l < 0 {
            0
        } else {
            l as int
        },
        None => 100,
    }
}

/// What a point get must return: the stored item, sliced to the requested
/// byte range (whole value by default); `NotFound` for an absent key, and
/// `InvalidRange` for bounds that do not satisfy `0 <= start <= end <= len`.
pub open spec fn get_outcome(s: Store, params: GetOrListParams, key: Seq<u8>) -> Result<
    ItemView,
    KvError,
> {
    if !s.contents().contains_key(key) {
        Err(KvError::NotFound)
    } else {
        let it = s.contents()[key];
        let lo = match params.start {
            Some(b) => b as int,
            None => 0,
        };
        let hi = match params.end {
            Some(b) => b as int,
            None => it.data.len() as int,
        };
        if 0 <= lo <= hi <= it.data.len() {
            Ok(ItemView { version: it.version, data: it.data.subrange(lo, hi) })
        } else {
            Err(KvError::InvalidRange)
        }
    }
}

/// Point get.
pub fn get_item(store: &Store, params: &GetOrListParams, key: &Vec<u8>) -> (r: Result<
    Item,
    KvError,
>)
    requires
        store.wf(),
    ensures
        match get_outcome(*store, *params, key@) {
            Ok(iv) => r matches Ok(item) && item@ == iv,
            Err(e) => r == Err::<Item, KvError>(e),
        },
{
    let cur = store.lookup(key);
    match cur {
        None => Err(KvError::NotFound),
        Some(item) => {
            let data_len = item.data.len();
            let lo_ok: bool = match params.start {
                Some(b) => 0 <= b && b as u64 <= data_len as u64,
                None => true,
            };
            // any explicit bound must lie inside the value
            let lo: usize = match params.start {
                Some(b) => if lo_ok {
                    b as usize
                } else {
                    0
                },
                None => 0,
            };
            let hi_ok: bool = match params.end {
                Some(b) => 0 <= b && b as u64 <= data_len as u64,
                None => true,
            };
            let hi: usize = match params.end {
                Some(b) => if hi_ok {
                    b as usize
                } else {
                    0
                },
                None => data_len,
            };
            if !lo_ok || !hi_ok || lo > hi {
                return Err(KvError::InvalidRange);
            }
            let mut sliced: Vec<u8> = Vec::new();
            let mut i = lo;
            while i < hi
                invariant
                    lo <= i <= hi <= item.data.len(),
                    sliced@ == item.data@.subrange(lo as int, i as int),
                decreases hi - i,
            {
                sliced.push(item.data[i]);
                proof {
                    assert(item.data@.subrange(lo as int, i as int).push(item.data@[i as int])
                        =~= item.data@.subrange(lo as int, i as int + 1));
                }
                i = i + 1;
            }
            proof {
                assert(sliced@ =~= item.data@.subrange(lo as int, hi as int));
            }
            Ok(Item { version: item.version, data: sliced })
        },
    }
}

/// The pairs a listing yields, in order: ascending from the prefix (or from
/// the first key) up to `limit` entries, or descending from just below the
/// prefix (or from the last key, there being no bound above it).
pub open spec fn listing(
    s: Store,
    prefix: Option<Seq<u8>>,
    limit: int,
    with_vals: bool,
    reverse: bool,
) -> Seq<(Seq<u8>, Option<Seq<u8>>)> {
    let ks = s.key_seq();
    if !reverse {
        let lo = lb(
            ks,
            match prefix {
                Some(p) => p,
                None => Seq::<u8>::empty(),
            },
        );
        let hi = if lo + limit <= ks.len() {
            lo + limit
        } else {
            ks.len() as int
        };
        if hi >= lo {
            Seq::new(
                (hi - lo) as nat,
                |t: int|
                    (
                        ks[lo + t],
                        if with_vals {
                            Some(s.item_seq()[lo + t].data)
                        } else {
                            None
                        },
                    ),
            )
        } else {
            Seq::empty()
        }
    } else {
        let hi = match prefix {
            Some(p) => lb(ks, p),
            None => ks.len() as int,
        };
        let lo = if hi - limit >= 0 {
            hi - limit
        } else {
            0
        };
        if hi >= lo {
            Seq::new(
                (hi - lo) as nat,
                |t: int|
                    (
                        ks[hi - 1 - t],
                        if with_vals {
                            Some(s.item_seq()[hi - 1 - t].data)
                        } else {
                            None
                        },
                    ),
            )
        } else {
            Seq::empty()
        }
    }
}

/// The bytes one listed pair contributes: the key, a newline, and — when the
/// value rides along — the value followed by a blank line.
pub open spec fn chunk(p: (Seq<u8>, Option<Seq<u8>>)) -> Seq<u8> {
    match p.1 {
        None => p.0 + seq![10u8],
        Some(d) => p.0 + seq![10u8] + d + seq![10u8, 10u8],
    }
}

/// All pairs, rendered back to back.
pub open spec fn rendered(ps: Seq<(Seq<u8>, Option<Seq<u8>>)>) -> Seq<u8>
    decreases ps.len(),
{
    if ps.len() == 0 {
        Seq::empty()
    } else {
        chunk(ps[0]) + rendered(ps.skip(1))
    }
}

/// The rendered listing with the final separator stripped: one byte after a
/// bare key, two after a value.
pub open spec fn trimmed(ps: Seq<(Seq<u8>, Option<Seq<u8>>)>, with_vals: bool) -> Seq<u8> {
    let full = rendered(ps);
    let sep: int = if with_vals {
        2
    } else {
        1
    };
    if full.len() == 0 {
        full
    } else {
        full.take(full.len() - sep)
    }
}

proof fn lemma_rendered_push(ps: Seq<(Seq<u8>, Option<Seq<u8>>)>, p: (Seq<u8>, Option<Seq<u8>>))
    ensures
        rendered(ps.push(p)) == rendered(ps) + chunk(p),
    decreases ps.len(),
{
    let q = ps.push(p);
    assert(q.len() == ps.len() + 1);
    if ps.len() == 0 {
        assert(q[0] == p);
        assert(q.skip(1) =~= Seq::<(Seq<u8>, Option<Seq<u8>>)>::empty());
        assert(rendered(q) == chunk(p) + rendered(Seq::<(Seq<u8>, Option<Seq<u8>>)>::empty()));
        assert(rendered(q) =~= rendered(ps) + chunk(p));
    } else {
        assert(q[0] == ps[0]);
        assert(q.skip(1) =~= ps.skip(1).push(p));
        lemma_rendered_push(ps.skip(1), p);
        assert(rendered(q) == chunk(ps[0]) + (rendered(ps.skip(1)) + chunk(p)));
        assert(rendered(q) =~= rendered(ps) + chunk(p));
    }
}

/// Prefix-bounded listing, rendered to the newline-separated wire shape.
pub fn list_items(store: &Store, params: &GetOrListParams, prefix: Option<Vec<u8>>) -> (out: Vec<
    u8,
>)
    requires
        store.wf(),
    ensures
        out@ == trimmed(
            listing(
                *store,
                match prefix {
                    Some(p) => Some(p@),
                    None => None,
                },
                spec_limit(*params),
                params.with_vals,
                params.reverse,
            ),
            params.with_vals,
        ),
{
    let ghost pview: Option<Seq<u8>> = match &prefix {
        Some(p) => Some(p@),
        None => None,
    };
    let with_vals = params.with_vals;
    let n = store.count();
    // a cap past the store's size lists no further than the store itself,
    // so it may be clamped there
    let limit: usize = match params.limit {
        Some(l) => if l < 0 {
            0
        } else if (l as u64) < (n as u64) {
            l as usize
        } else {
            n
        },
        None => 100,
    };
    let pairs: Vec<(Vec<u8>, Option<Vec<u8>>)> = if !params.reverse {
        match &prefix {
            Some(p) => store.range_forward(p, limit, with_vals),
            None => {
                let empty: Vec<u8> = Vec::new();
                store.range_forward(&empty, limit, with_vals)
            },
        }
    } else {
        match &prefix {
            Some(p) => store.range_reverse(Some(p), limit, with_vals),
            None => store.range_reverse(None, limit, with_vals),
        }
    };
    let ghost goal = listing(*store, pview, spec_limit(*params), with_vals, params.reverse);
    proof {
        let ks = store.key_seq();
        match pview {
            Some(p) => lemma_lb_bounds(ks, p),
            None => lemma_lb_bounds(ks, Seq::<u8>::empty()),
        }
        assert(goal.len() == pairs@.len());
        assert forall|t: int| 0 <= t < goal.len() implies goal[t].0 == (#[trigger] pairs@[t]).0@
            && (pairs@[t].1 is Some <==> goal[t].1 is Some) && (pairs@[t].1 matches Some(v)
            ==> goal[t].1 matches Some(g) && v@ == g) by {}
    }
    let mut out: Vec<u8> = Vec::new();
    let sep: usize = if with_vals {
        2
    } else {
        1
    };
    let mut t: usize = 0;
    proof {
        assert(goal.take(0) =~= Seq::<(Seq<u8>, Option<Seq<u8>>)>::empty());
    }
    while t < pairs.len()
        invariant
            t <= pairs.len(),
            goal.len() == pairs@.len(),
            forall|u: int| 0 <= u < goal.len() ==> goal[u].0 == (#[trigger] pairs@[u]).0@
                && (pairs@[u].1 is Some <==> goal[u].1 is Some) && (pairs@[u].1 matches Some(v)
                ==> goal[u].1 matches Some(g) && v@ == g),
            forall|u: int| 0 <= u < pairs@.len() ==> ((#[trigger] pairs@[u]).1 is Some <==> with_vals),
            sep == if with_vals { 2int } else { 1int },
            out@ == rendered(goal.take(t as int)),
            t > 0 ==> out@.len() >= sep,
        decreases pairs.len() - t,
    {
        let ghost out0 = out@;
        out.extend_from_slice(pairs[t].0.as_slice());
        out.push(10);
        match &pairs[t].1 {
            Some(d) => {
                out.extend_from_slice(d.as_slice());
                out.push(10);
                out.push(10);
            },
            None => {},
        }
        proof {
            assert(out@ =~= out0 + chunk(goal[t as int]));
            lemma_rendered_push(goal.take(t as int), goal[t as int]);
            assert(goal.take(t as int).push(goal[t as int]) =~= goal.take(t as int + 1));
        }
        t = t + 1;
    }
    proof {
        assert(goal.take(goal.len() as int) =~= goal);
    }
    if out.len() > 0 {
        let keep = out.len() - sep;
        out.truncate(keep);
        proof {
            assert(out@ =~= rendered(goal).take(rendered(goal).len() - sep));
        }
    }
    out
}

/// A reply from the read side of the interface.
pub enum Reply {
    /// The health-check answer when neither a key nor listing mode is given.
    Alive,
    /// A point read: the stored version and the requested bytes.
    Value(Item),
    /// A listing, rendered as newline-separated bytes.
    Listing(Vec<u8>),
}

/// Dispatch for the read side: listing mode lists under the given prefix,
/// a key without listing mode is a point get, and neither is a health check.
pub fn get_or_list_prefix(
    store: &Store,
    key_prefix: Option<Vec<u8>>,
    params: &GetOrListParams,
) -> (r: Result<Reply, KvError>)
    requires
        store.wf(),
    ensures
        params.list ==> (r matches Ok(rep) && rep matches Reply::Listing(b) && b@ == trimmed(
            listing(
                *store,
                match key_prefix {
                    Some(p) => Some(p@),
                    None => None,
                },
                spec_limit(*params),
                params.with_vals,
                params.reverse,
            ),
            params.with_vals,
        )),
        !params.list && key_prefix is Some ==> match get_outcome(
            *store,
            *params,
            key_prefix->0@,
        ) {
            Ok(iv) => r matches Ok(rep) && rep matches Reply::Value(item) && item@ == iv,
            Err(e) => r == Err::<Reply, KvError>(e),
        },
        !params.list && key_prefix is None ==> (r matches Ok(rep) && rep is Alive),
{
    if params.list {
        let body = list_items(store, params, key_prefix);
        Ok(Reply::Listing(body))
    } else {
        match key_prefix {
            Some(key) => {
                match get_item(store, params, &key) {
                    Ok(item) => Ok(Reply::Value(item)),
                    Err(e) => Err(e),
                }
            },
            None => Ok(Reply::Alive),
        }
    }
}

} // verus!
