//! The write path: a conditional put.  Preconditions (existence checks and
//! an expected version) are evaluated and the new item written under one
//! exclusive borrow of the store, so no other writer can slip in between
//! check and set.

use vstd::prelude::*;

use crate::store::{lb, Item, ItemView, KvError, Store};

verus! {

/// Preconditions a write may carry.
#[derive(Clone, Copy, Debug)]
pub struct WriteParams {
    /// Write only if the key is already present.
    pub if_exists: bool,
    /// Write only if the key is absent.
    pub not_exists: bool,
    /// Write only if the stored version equals this one.
    pub version: Option<i64>,
}

/// The exact refusal a write is owed, or `None` when it must go through:
/// mutually exclusive existence flags are a caller error; then the existence
/// flags are judged against the current entry; then the expected version, if
/// any, must match the stored one.
pub open spec fn write_refusal(s: Store, params: WriteParams, key: Seq<u8>) -> Option<KvError> {
    let had = s.contents().contains_key(key);
    if params.not_exists && params.if_exists {
        Some(KvError::InvalidPreconditions)
    } else if had && params.not_exists {
        Some(KvError::AlreadyExists)
    } else if !had && params.if_exists {
        Some(KvError::DoesNotExist)
    } else if had && (params.version matches Some(v) && v as int != s.contents()[key].version) {
        Some(KvError::VersionMismatch)
    } else {
        None
    }
}

/// The version stamp a successful write receives: the caller's clock reading
/// when it is ahead of the store, else one past the store's own clock — in
/// either case strictly greater than every version stamped so far.
pub open spec fn next_version(s: Store, now: i64) -> int {
    if now as int > s.version_clock() {
        now as int
    } else {
        s.version_clock() + 1
    }
}

/// Conditional put.  On refusal the store is left untouched; on success
/// exactly `key` is mapped to `body` under a version strictly greater than
/// any stamped before, and that version is returned.
pub fn write_key(
    store: &mut Store,
    key: Vec<u8>,
    params: &WriteParams,
    body: Vec<u8>,
    now: i64,
) -> (r: Result<i64, KvError>)
    requires
        old(store).wf(),
        old(store).version_clock() < i64::MAX as int,
    ensures
        final(store).wf(),
        match write_refusal(*old(store), *params, key@) {
            Some(e) => r == Err::<i64, KvError>(e) && *final(store) == *old(store),
            None => {
                let nv = next_version(*old(store), now);
                &&& r matches Ok(v) && v as int == nv
                &&& final(store).contents() == old(store).contents().insert(
                    key@,
                    ItemView { version: nv, data: body@ },
                )
                &&& final(store).version_clock() == nv
                &&& final(store).key_seq() == if old(store).contents().contains_key(key@) {
                    old(store).key_seq()
                } else {
                    old(store).key_seq().insert(lb(old(store).key_seq(), key@), key@)
                }
            },
        },
{
    if params.not_exists && params.if_exists {
        return Err(KvError::InvalidPreconditions);
    }
    let cur = store.lookup(&key);
    match &cur {
        Some(item) => {
            if params.not_exists {
                return Err(KvError::AlreadyExists);
            }
            match params.version {
                Some(v) => {
                    if v != item.version {
                        return Err(KvError::VersionMismatch);
                    }
                },
                None => {},
            }
        },
        None => {
            if params.if_exists {
                return Err(KvError::DoesNotExist);
            }
        },
    }
    let clock = store.clock_now();
    let nv = if now > clock {
        now
    } else {
        clock + 1
    };
    store.set(key, Item { version: nv, data: body });
    Ok(nv)
}

} // verus!
