//! The ordered key-value store: an ordered container from byte-string keys to
//! versioned items, with point lookup, unconditional set, and bounded range
//! iteration in both directions.

use vstd::prelude::*;

use crate::lex::{
    lex_lt, lemma_lex_lt_irreflexive, lemma_lex_lt_neq, lemma_lex_lt_total,
    lemma_lex_lt_transitive,
};

verus! {

/// A stored value together with the version stamp it was written at.
#[derive(Debug)]
pub struct Item {
    pub version: i64,
    pub data: Vec<u8>,
}

/// Mathematical model of a stored item.
pub struct ItemView {
    pub version: int,
    pub data: Seq<u8>,
}

impl View for Item {
    type V = ItemView;

    open spec fn view(&self) -> ItemView {
        ItemView { version: self.version as int, data: self.data@ }
    }
}

/// Why a store operation was refused.
#[derive(Clone, Copy, Debug, PartialEq, Eq, Structural)]
pub enum KvError {
    /// Get on a key that is not present.
    NotFound,
    /// A byte range that does not satisfy `0 <= start <= end <= len`.
    InvalidRange,
    /// A write asked for `not_exists` but the key is present.
    AlreadyExists,
    /// A write asked for `if_exists` but the key is absent.
    DoesNotExist,
    /// A write carried an expected version that differs from the stored one.
    VersionMismatch,
    /// A write asked for `not_exists` and `if_exists` at once.
    InvalidPreconditions,
}

/// The number of keys in `s` that come strictly before `k`; on a sorted
/// sequence this is the position at which `k` belongs.
pub open spec fn lb(s: Seq<Seq<u8>>, k: Seq<u8>) -> int
    decreases s.len(),
{
    if s.len() == 0 {
        0
    } else if lex_lt(s[0], k) {
        1 + lb(s.skip(1), k)
    } else {
        0
    }
}

pub proof fn lemma_lb_bounds(s: Seq<Seq<u8>>, k: Seq<u8>)
    ensures
        0 <= lb(s, k) <= s.len(),
        forall|j: int| 0 <= j < lb(s, k) ==> lex_lt(#[trigger] s[j], k),
        lb(s, k) < s.len() ==> !lex_lt(s[lb(s, k)], k),
    decreases s.len(),
{
    if s.len() > 0 && lex_lt(s[0], k) {
        lemma_lb_bounds(s.skip(1), k);
        assert forall|j: int| 0 <= j < lb(s, k) implies lex_lt(#[trigger] s[j], k) by {
            if j > 0 {
                assert(s[j] == s.skip(1)[j - 1]);
            }
        }
        if lb(s, k) < s.len() {
            assert(s[lb(s, k)] == s.skip(1)[lb(s.skip(1), k)]);
        }
    }
}

/// The ordered key-value store.  Keys are opaque byte strings, unique, and
/// kept in byte-lexicographic order; each key maps to a versioned item.
pub struct Store {
    entries: Vec<(Vec<u8>, Item)>,
    clock: i64,
}

impl Store {
    /// The keys currently present, in storage order.
    pub closed spec fn key_seq(self) -> Seq<Seq<u8>> {
        self.entries@.map_values(|e: (Vec<u8>, Item)| e.0@)
    }

    /// The stored items, in the same order as `key_seq`.
    pub closed spec fn item_seq(self) -> Seq<ItemView> {
        self.entries@.map_values(|e: (Vec<u8>, Item)| e.1@)
    }

    /// The greatest version stamp assigned so far (zero for a fresh store).
    pub closed spec fn version_clock(self) -> int {
        self.clock as int
    }

    /// The current mapping from key to stored item.
    pub open spec fn contents(self) -> Map<Seq<u8>, ItemView> {
        Map::new(
            |k: Seq<u8>| self.key_seq().contains(k),
            |k: Seq<u8>| self.item_seq()[self.key_seq().index_of(k)],
        )
    }

    /// Well-formedness: keys strictly ascending (hence unique), the clock
    /// nonnegative, and no item stamped past the clock.
    pub open spec fn wf(self) -> bool {
        &&& self.key_seq().len() == self.item_seq().len()
        &&& forall|i: int, j: int|
            0 <= i < j < self.key_seq().len() ==> lex_lt(
                #[trigger] self.key_seq()[i],
                #[trigger] self.key_seq()[j],
            )
        &&& 0 <= self.version_clock()
        &&& forall|i: int|
            0 <= i < self.item_seq().len() ==> 0 <= (#[trigger] self.item_seq()[i]).version
                <= self.version_clock()
    }

    /// Distinct positions hold distinct keys.
    pub proof fn lemma_keys_unique(self)
        requires
            self.wf(),
        ensures
            forall|i: int, j: int|
                0 <= i < self.key_seq().len() && 0 <= j < self.key_seq().len() && i != j
                    ==> #[trigger] self.key_seq()[i] != #[trigger] self.key_seq()[j],
    {
        assert forall|i: int, j: int|
            0 <= i < self.key_seq().len() && 0 <= j < self.key_seq().len() && i != j
            implies #[trigger] self.key_seq()[i] != #[trigger] self.key_seq()[j] by {
            if i < j {
                lemma_lex_lt_neq(self.key_seq()[i], self.key_seq()[j]);
            } else {
                lemma_lex_lt_neq(self.key_seq()[j], self.key_seq()[i]);
            }
        }
    }

    /// A present key is stored at exactly one position, and `contents`
    /// returns the item at that position.
    pub proof fn lemma_contents_at(self, i: int)
        requires
            self.wf(),
            0 <= i < self.key_seq().len(),
        ensures
            self.contents().contains_key(self.key_seq()[i]),
            self.contents()[self.key_seq()[i]] == self.item_seq()[i],
    {
        self.lemma_keys_unique();
        let k = self.key_seq()[i];
        assert(self.key_seq().contains(k));
        let j = self.key_seq().index_of(k);
        assert(self.key_seq()[j] == k);
        assert(j == i);
    }

    /// A fresh, empty store.
    pub fn new() -> (s: Store)
        ensures
            s.wf(),
            s.contents() == Map::<Seq<u8>, ItemView>::empty(),
            s.key_seq() == Seq::<Seq<u8>>::empty(),
            s.version_clock() == 0,
    {
        let s = Store { entries: Vec::new(), clock: 0 };
        proof {
            assert(s.key_seq() =~= Seq::<Seq<u8>>::empty());
            assert(s.item_seq() =~= Seq::<ItemView>::empty());
            assert(s.contents() =~= Map::<Seq<u8>, ItemView>::empty());
        }
        s
    }

    /// How many keys the store holds.
    pub fn count(&self) -> (n: usize)
        ensures
            n as int == self.key_seq().len(),
    {
        self.entries.len()
    }

    /// An executable read of the version clock, for callers that must stay
    /// clear of its ceiling.
    pub fn clock_now(&self) -> (c: i64)
        ensures
            c as int == self.version_clock(),
    {
        self.clock
    }

    /// The position at which `key` is stored, or at which it would be
    /// inserted: the index of the first stored key not before `key`.
    fn lower_bound(&self, key: &Vec<u8>) -> (i: usize)
        requires
            self.wf(),
        ensures
            i as int == lb(self.key_seq(), key@),
    {
        let ghost ks = self.key_seq();
        let mut i: usize = 0;
        proof {
            assert(ks.skip(0) =~= ks);
        }
        loop
            invariant
                i <= self.entries.len(),
                self.wf(),
                ks == self.key_seq(),
                lb(ks, key@) == i + lb(ks.skip(i as int), key@),
            ensures
                i as int == lb(self.key_seq(), key@),
            decreases self.entries.len() - i,
        {
            if i == self.entries.len() {
                proof {
                    assert(ks.skip(i as int).len() == 0);
                }
                break;
            }
            proof {
                assert(ks.skip(i as int)[0] == ks[i as int]);
            }
            if !crate::lex::lt(&self.entries[i].0, key) {
                break;
            }
            proof {
                assert(ks.skip(i as int).skip(1) =~= ks.skip(i as int + 1));
                lemma_lb_bounds(ks.skip(i as int + 1), key@);
            }
            i = i + 1;
        }
        i
    }

    /// Unconditional insert-or-overwrite: afterwards `key` maps to `item`,
    /// no other key is touched, and the clock absorbs the item's version.
    /// Callers that need conditional semantics check their preconditions
    /// first, under the same exclusive borrow.
    pub fn set(&mut self, key: Vec<u8>, item: Item)
        requires
            old(self).wf(),
            0 <= item.version,
        ensures
            final(self).wf(),
            final(self).contents() == old(self).contents().insert(key@, item@),
            final(self).version_clock() == if item.version as int > old(self).version_clock() {
                item.version as int
            } else {
                old(self).version_clock()
            },
            final(self).key_seq() == if old(self).key_seq().contains(key@) {
                old(self).key_seq()
            } else {
                old(self).key_seq().insert(lb(old(self).key_seq(), key@), key@)
            },
    {
        let ghost pre = *old(self);
        let ghost k = key@;
        let ghost iv = item@;
        let ghost ks = pre.key_seq();
        let ghost n = ks.len() as int;
        let i = self.lower_bound(&key);
        let ghost ii = i as int;
        proof {
            lemma_lb_bounds(ks, k);
            pre.lemma_keys_unique();
        }
        if item.version > self.clock {
            self.clock = item.version;
        }
        proof {
            assert(self.key_seq() == ks);
            assert(self.item_seq() == pre.item_seq());
        }
        let present = i < self.entries.len() && bytes_eq(&self.entries[i].0, &key);
        if present {
            proof {
                assert(ks[ii] == k);
            }
            self.entries[i] = (key, item);
            proof {
                assert(self.key_seq() =~= ks);
                assert(self.item_seq() =~= pre.item_seq().update(ii, iv));
                assert(self.wf());
                assert(ks.contains(k)) by {
                    assert(ks[ii] == k);
                }
                assert(self.contents() =~= pre.contents().insert(k, iv)) by {
                    assert forall|x: Seq<u8>| #[trigger]
                        self.contents().contains_key(x)
                            == pre.contents().insert(k, iv).contains_key(x) by {}
                    assert forall|x: Seq<u8>| self.contents().contains_key(x) implies self
                        .contents()[x] == pre.contents().insert(k, iv)[x] by {
                        let j = choose|j: int| 0 <= j < n && ks[j] == x;
                        self.lemma_contents_at(j);
                        if x == k {
                            assert(j == ii);
                        } else {
                            assert(j != ii);
                            pre.lemma_contents_at(j);
                        }
                    }
                }
            }
        } else {
            proof {
                // `key` is nowhere in the store
                assert(!ks.contains(k)) by {
                    if ks.contains(k) {
                        let w = choose|w: int| 0 <= w < n && ks[w] == k;
                        if w < ii {
                            lemma_lex_lt_irreflexive(k);
                        } else if w > ii {
                            // then ks[ii] precedes ks[w] == k, against the lower bound
                            assert(lex_lt(ks[ii], ks[w]));
                        }
                    }
                }
                ks.insert_ensures(ii, k);
                pre.item_seq().insert_ensures(ii, iv);
            }
            let ghost e = (key, item);
            self.entries.insert(i, (key, item));
            proof {
                pre.entries@.insert_ensures(ii, e);
                assert(self.key_seq() =~= ks.insert(ii, k)) by {
                    assert forall|j: int| 0 <= j < n + 1 implies self.key_seq()[j] == ks.insert(
                        ii,
                        k,
                    )[j] by {
                        if j < ii {
                            assert(self.entries@[j] == pre.entries@[j]);
                        } else if j > ii {
                            assert(self.entries@[j] == pre.entries@[j - 1]);
                        }
                    }
                }
                assert(self.item_seq() =~= pre.item_seq().insert(ii, iv)) by {
                    assert forall|j: int| 0 <= j < n + 1 implies self.item_seq()[j] == pre
                        .item_seq()
                        .insert(ii, iv)[j] by {
                        if j < ii {
                            assert(self.entries@[j] == pre.entries@[j]);
                        } else if j > ii {
                            assert(self.entries@[j] == pre.entries@[j - 1]);
                        }
                    }
                }
                let ksn = self.key_seq();
                assert forall|p: int, q: int| 0 <= p < q < ksn.len() implies lex_lt(
                    #[trigger] ksn[p],
                    #[trigger] ksn[q],
                ) by {
                    if q < ii {
                        // both below the insertion point: the old order
                    } else if p < ii && q == ii {
                        // below the lower bound everything precedes `key`
                    } else if p == ii {
                        lemma_lex_lt_total(k, ks[ii]);
                        if q - 1 > ii {
                            lemma_lex_lt_transitive(k, ks[ii], ks[q - 1]);
                        }
                    } else if p < ii && q > ii {
                        // old order between ks[p] and ks[q - 1]
                    } else {
                        // both above: the old order, shifted by one
                    }
                }
                assert(self.wf());
                assert(self.contents() =~= pre.contents().insert(k, iv)) by {
                    assert forall|x: Seq<u8>| #[trigger]
                        self.contents().contains_key(x) == pre.contents().insert(
                            k,
                            iv,
                        ).contains_key(x) by {
                        if x == k {
                            assert(ksn[ii] == k);
                            assert(ksn.contains(x));
                        } else {
                            if ks.contains(x) {
                                let w = choose|w: int| 0 <= w < n && ks[w] == x;
                                if w < ii {
                                    assert(ksn[w] == x);
                                } else {
                                    assert(ksn[w + 1] == x);
                                }
                                assert(ksn.contains(x));
                            }
                            if ksn.contains(x) {
                                let w = choose|w: int| 0 <= w < n + 1 && ksn[w] == x;
                                if w < ii {
                                    assert(ks[w] == x);
                                } else if w > ii {
                                    assert(ks[w - 1] == x);
                                }
                                assert(ks.contains(x) || x == k);
                            }
                        }
                    }
                    assert forall|x: Seq<u8>| self.contents().contains_key(x) implies self
                        .contents()[x] == pre.contents().insert(k, iv)[x] by {
                        let j = choose|j: int| 0 <= j < n + 1 && ksn[j] == x;
                        self.lemma_contents_at(j);
                        if x == k {
                            self.lemma_keys_unique();
                            assert(ksn[ii] == k);
                            assert(j == ii);
                        } else {
                            assert(j != ii);
                            if j < ii {
                                pre.lemma_contents_at(j);
                                assert(ks[j] == x);
                            } else {
                                pre.lemma_contents_at(j - 1);
                                assert(ks[j - 1] == x);
                            }
                        }
                    }
                }
            }
        }
    }

    /// Point lookup: the current item under `key`, if any.
    pub fn lookup(&self, key: &Vec<u8>) -> (r: Option<Item>)
        requires
            self.wf(),
        ensures
            match r {
                Some(item) => self.contents().contains_key(key@) && item@ == self.contents()[key@],
                None => !self.contents().contains_key(key@),
            },
    {
        let i = self.lower_bound(key);
        proof {
            lemma_lb_bounds(self.key_seq(), key@);
        }
        if i < self.entries.len() && bytes_eq(&self.entries[i].0, key) {
            proof {
                self.lemma_contents_at(i as int);
            }
            Some(self.entries[i].1.clone())
        } else {
            proof {
                if self.key_seq().contains(key@) {
                    let w = choose|w: int|
                        0 <= w < self.key_seq().len() && self.key_seq()[w] == key@;
                    lemma_lex_lt_irreflexive(key@);
                    if w < i as int {
                        // every key below the lower bound is strictly before `key`
                        assert(lex_lt(self.key_seq()[w], key@));
                    } else {
                        if i < self.entries.len() {
                            lemma_lex_lt_total(self.key_seq()[i as int], key@);
                            if w > i as int {
                                assert(lex_lt(self.key_seq()[i as int], self.key_seq()[w]));
                            }
                        }
                    }
                }
            }
            None
        }
    }
    /// Ascending scan: up to `limit` entries whose key is at least `start`,
    /// in key order.  Values ride along only when `with_vals` asks for them.
    pub fn range_forward(&self, start: &Vec<u8>, limit: usize, with_vals: bool) -> (r: Vec<
        (Vec<u8>, Option<Vec<u8>>),
    >)
        requires
            self.wf(),
        ensures
            ({
                let lo = lb(self.key_seq(), start@);
                let hi = if lo + limit <= self.key_seq().len() {
                    lo + limit
                } else {
                    self.key_seq().len() as int
                };
                &&& r@.len() == hi - lo
                &&& forall|t: int|
                    0 <= t < r@.len() ==> (#[trigger] r@[t]).0@ == self.key_seq()[lo + t]
                &&& forall|t: int| 0 <= t < r@.len() ==> ((#[trigger] r@[t]).1 is Some <==> with_vals)
                &&& forall|t: int|
                    0 <= t < r@.len() ==> ((#[trigger] r@[t]).1 matches Some(v) ==> v@
                        == self.item_seq()[lo + t].data)
            }),
    {
        let lo = self.lower_bound(start);
        proof {
            lemma_lb_bounds(self.key_seq(), start@);
        }
        let mut out: Vec<(Vec<u8>, Option<Vec<u8>>)> = Vec::new();
        let mut j = lo;
        while j < self.entries.len() && out.len() < limit
            invariant
                self.wf(),
                lo as int == lb(self.key_seq(), start@),
                lo <= j <= self.entries.len(),
                j as int == lo + out@.len(),
                out@.len() <= limit,
                forall|t: int|
                    0 <= t < out@.len() ==> (#[trigger] out@[t]).0@ == self.key_seq()[lo + t],
                forall|t: int| 0 <= t < out@.len() ==> ((#[trigger] out@[t]).1 is Some <==> with_vals),
                forall|t: int|
                    0 <= t < out@.len() ==> ((#[trigger] out@[t]).1 matches Some(v) ==> v@
                        == self.item_seq()[lo + t].data),
            decreases self.entries.len() - j,
        {
            let key_c = clone_bytes(&self.entries[j].0);
            let val = if with_vals {
                Some(clone_bytes(&self.entries[j].1.data))
            } else {
                None
            };
            out.push((key_c, val));
            j = j + 1;
        }
        out
    }

    /// Descending scan: up to `limit` entries whose key is strictly below
    /// `upper`, in reverse key order.  No bound means "above every stored
    /// key", so the scan starts at the greatest key, inclusive.
    pub fn range_reverse(&self, upper: Option<&Vec<u8>>, limit: usize, with_vals: bool) -> (r: Vec<
        (Vec<u8>, Option<Vec<u8>>),
    >)
        requires
            self.wf(),
        ensures
            ({
                let hi = match upper {
                    Some(u) => lb(self.key_seq(), u@),
                    None => self.key_seq().len() as int,
                };
                let lo = if hi - limit >= 0 {
                    hi - limit
                } else {
                    0
                };
                &&& r@.len() == hi - lo
                &&& forall|t: int|
                    0 <= t < r@.len() ==> (#[trigger] r@[t]).0@ == self.key_seq()[hi - 1 - t]
                &&& forall|t: int| 0 <= t < r@.len() ==> ((#[trigger] r@[t]).1 is Some <==> with_vals)
                &&& forall|t: int|
                    0 <= t < r@.len() ==> ((#[trigger] r@[t]).1 matches Some(v) ==> v@
                        == self.item_seq()[hi - 1 - t].data)
            }),
    {
        let hi = match upper {
            Some(u) => {
                let h = self.lower_bound(u);
                proof {
                    lemma_lb_bounds(self.key_seq(), u@);
                }
                h
            },
            None => self.entries.len(),
        };
        let mut out: Vec<(Vec<u8>, Option<Vec<u8>>)> = Vec::new();
        let mut j = hi;
        while j > 0 && out.len() < limit
            invariant
                self.wf(),
                hi <= self.entries.len(),
                0 <= j <= hi,
                j as int == hi - out@.len(),
                out@.len() <= limit,
                forall|t: int|
                    0 <= t < out@.len() ==> (#[trigger] out@[t]).0@ == self.key_seq()[hi - 1 - t],
                forall|t: int| 0 <= t < out@.len() ==> ((#[trigger] out@[t]).1 is Some <==> with_vals),
                forall|t: int|
                    0 <= t < out@.len() ==> ((#[trigger] out@[t]).1 matches Some(v) ==> v@
                        == self.item_seq()[hi - 1 - t].data),
            decreases j,
        {
            j = j - 1;
            let key_c = clone_bytes(&self.entries[j].0);
            let val = if with_vals {
                Some(clone_bytes(&self.entries[j].1.data))
            } else {
                None
            };
            out.push((key_c, val));
        }
        out
    }
}

/// Executable byte-string equality.
pub fn bytes_eq(a: &Vec<u8>, b: &Vec<u8>) -> (r: bool)
    ensures
        r == (a@ == b@),
{
    if a.len() != b.len() {
        return false;
    }
    let mut i: usize = 0;
    while i < a.len()
        invariant
            i <= a.len(),
            a.len() == b.len(),
            forall|j: int| 0 <= j < i ==> a@[j] == b@[j],
        decreases a.len() - i,
    {
        if a[i] != b[i] {
            return false;
        }
        i = i + 1;
    }
    proof {
        assert(a@ =~= b@);
    }
    true
}

impl Clone for Item {
    /// A clone carries the same version and the same bytes.
    fn clone(&self) -> (r: Item)
        ensures
            r@ == self@,
    {
        Item { version: self.version, data: clone_bytes(&self.data) }
    }
}

/// Executable byte-string copy.
pub fn clone_bytes(v: &Vec<u8>) -> (r: Vec<u8>)
    ensures
        r@ == v@,
{
    let mut out: Vec<u8> = Vec::new();
    let mut i: usize = 0;
    while i < v.len()
        invariant
            i <= v.len(),
            out@ == v@.take(i as int),
        decreases v.len() - i,
    {
        out.push(v[i]);
        proof {
            assert(v@.take(i as int).push(v@[i as int]) =~= v@.take(i as int + 1));
        }
        i = i + 1;
    }
    proof {
        assert(v@.take(v@.len() as int) =~= v@);
    }
    out
}

} // verus!
