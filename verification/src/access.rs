//! The draft buffer, commit protocol and retrieval protocol.
//!
//! A save operation drafts properties into an in-memory buffer, writing each
//! through the codec, and then commits some or all of them; only a commit
//! hands a property to the storage backend.  Dropping the buffer with
//! pending drafts silently discards them.  A restore operation asks the
//! backend for one key at a time and decodes the payload only when the
//! stored type tag matches the expected one.

use crate::backend::{
    RawAtom, StorageBackend, StoreRequest, STATE_IS_POD, STATE_IS_PORTABLE, STATE_SUCCESS,
};
use crate::codec::{
    decode_payload, encode_atom_wire, encode_payload, kind_of, lemma_concat_i32_push,
    lemma_concat_u32_push, lemma_payload_round_trip, opt_data, parse_atom_wire, spec_atom_wire,
    spec_concat_i32, spec_concat_u32, spec_decode, spec_payload, spec_wire_payload, spec_wire_tag,
    spec_wire_wf, AtomData, AtomKind, AtomValue,
};
use crate::keyed::{
    find_key, keys_of, lemma_map_of_absent, lemma_map_of_index, lemma_map_of_push,
    lemma_map_of_remove, lemma_map_of_update, lemma_remove_value_absent, lemma_remove_value_at,
    map_of, unique_keys,
};
use vstd::bytes::u32_to_le_bytes;
use vstd::prelude::*;

verus! {

/// Why a commit failed.
#[derive(Clone, Copy, Debug, PartialEq, Eq, Structural)]
pub enum CommitError {
    /// The backend's store entry point is absent.
    BackendUnavailable,
    /// The drafted atom failed structural validation.
    MalformedAtom,
    /// The backend refused the call; carries the status word it returned.
    BackendRejected(u32),
}

/// The flags every committed property is stored with: the payload is plain
/// old data and safe to persist and relocate verbatim.
pub const COMMIT_FLAGS: u32 = STATE_IS_POD | STATE_IS_PORTABLE;

/// What an optional backend holds.
pub open spec fn opt_stored<B: StorageBackend>(b: Option<B>) -> Map<u32, RawAtom> {
    match b {
        Option::Some(bk) => bk.stored(),
        Option::None => Map::empty(),
    }
}

/// The store invocations an optional backend has received.
pub open spec fn opt_log<B: StorageBackend>(b: Option<B>) -> Seq<StoreRequest> {
    match b {
        Option::Some(bk) => bk.store_log(),
        Option::None => Seq::empty(),
    }
}

/// Whether an optional backend promises to accept every store call.
pub open spec fn opt_reliable<B: StorageBackend>(b: Option<B>) -> bool {
    match b {
        Option::Some(bk) => bk.reliable(),
        Option::None => false,
    }
}

/// Every draft still pending after a commit run was pending before it, with
/// unchanged content.
pub open spec fn pending_preserved(
    pre_pending: Map<u32, Seq<u8>>,
    post_pending: Map<u32, Seq<u8>>,
) -> bool {
    forall|k: u32| #![trigger post_pending.contains_key(k)]
        post_pending.contains_key(k) ==> pre_pending.contains_key(k) && post_pending[k]
            == pre_pending[k]
}

/// A store request a commit run may issue: it is for a then-pending,
/// structurally sound draft, and carries the draft's declared type tag and
/// payload and the commit flags.
pub open spec fn commit_request_for(pending: Map<u32, Seq<u8>>, rq: StoreRequest) -> bool {
    &&& pending.contains_key(rq.key)
    &&& spec_wire_wf(pending[rq.key])
    &&& rq == (StoreRequest {
        key: rq.key,
        type_tag: spec_wire_tag(pending[rq.key]),
        payload: spec_wire_payload(pending[rq.key]),
        flags: COMMIT_FLAGS,
    })
}

/// A commit run only appends to the backend's log, and every appended
/// request is a commit request for a then-pending draft.
pub open spec fn log_extended_by_commits(
    pending: Map<u32, Seq<u8>>,
    pre_log: Seq<StoreRequest>,
    post_log: Seq<StoreRequest>,
) -> bool {
    &&& pre_log.len() <= post_log.len()
    &&& forall|i: int| #![trigger post_log[i]]
        0 <= i < pre_log.len() ==> post_log[i] == pre_log[i]
    &&& forall|i: int| #![trigger post_log[i]]
        pre_log.len() <= i < post_log.len() ==> commit_request_for(pending, post_log[i])
}

/// What the backend holds at keys that were not pending is untouched by a
/// commit run.
pub open spec fn unpended_stored_unchanged(
    pending: Map<u32, Seq<u8>>,
    pre_stored: Map<u32, RawAtom>,
    post_stored: Map<u32, RawAtom>,
) -> bool {
    forall|k: u32| #![trigger post_stored.contains_key(k)]
        !pending.contains_key(k) ==> post_stored.contains_key(k) == pre_stored.contains_key(k) && (
        pre_stored.contains_key(k) ==> post_stored[k] == pre_stored[k])
}

/// The backend's log grew by exactly one commit request per given key, in
/// the given order, and by nothing else.
pub open spec fn logged_in_order(
    pending: Map<u32, Seq<u8>>,
    keys: Seq<u32>,
    pre_log: Seq<StoreRequest>,
    post_log: Seq<StoreRequest>,
) -> bool {
    &&& post_log.len() == pre_log.len() + keys.len()
    &&& forall|i: int| #![trigger post_log[i]]
        0 <= i < pre_log.len() ==> post_log[i] == pre_log[i]
    &&& forall|i: int| #![trigger keys[i]]
        0 <= i < keys.len() ==> post_log[pre_log.len() + i] == (StoreRequest {
            key: keys[i],
            type_tag: spec_wire_tag(pending[keys[i]]),
            payload: spec_wire_payload(pending[keys[i]]),
            flags: COMMIT_FLAGS,
        })
}

/// The exact account of one commit run over a buffer with drafts `pending`
/// in draft order `order`: the run consumed the first `n` drafts and
/// stopped; drafts not yet attempted stay pending, unchanged.
///
/// The first `m` of them — all `n` on success, all but the failed last one
/// on an error — were handed to the backend, accepted, and are persisted
/// under their keys; drafts at and beyond the failure point left the
/// backend untouched.  The log grew by exactly one request per draft handed
/// over, in draft order: none for a run that found no backend, none for the
/// draft that failed validation, one even for the draft the backend
/// rejected.  The result is the outcome of the `n`-th hand-over.
pub open spec fn commit_run_outcome(
    pending: Map<u32, Seq<u8>>,
    order: Seq<u32>,
    pre_log: Seq<StoreRequest>,
    pre_stored: Map<u32, RawAtom>,
    post_pending: Map<u32, Seq<u8>>,
    post_order: Seq<u32>,
    post_log: Seq<StoreRequest>,
    post_stored: Map<u32, RawAtom>,
    r: Result<(), CommitError>,
    n: int,
) -> bool {
    let m = if r is Ok {
        n
    } else {
        n - 1
    };
    &&& 0 <= n <= order.len()
    &&& post_order == order.skip(n)
    &&& (r is Ok ==> n == order.len())
    &&& (r is Err ==> n >= 1)
    &&& forall|i: int| #![trigger order[i]]
        n <= i < order.len() ==> post_pending.contains_key(order[i]) && post_pending[order[i]]
            == pending[order[i]]
    &&& forall|i: int| #![trigger order[i]]
        0 <= i < m ==> post_stored.contains_key(order[i]) && post_stored[order[i]] == (RawAtom {
            type_tag: spec_wire_tag(pending[order[i]]),
            payload: spec_wire_payload(pending[order[i]]),
        })
    &&& forall|i: int| #![trigger order[i]]
        m <= i < order.len() ==> post_stored.contains_key(order[i]) == pre_stored.contains_key(
            order[i],
        ) && (pre_stored.contains_key(order[i]) ==> post_stored[order[i]] == pre_stored[order[i]])
    &&& match r {
        Result::Ok(()) => logged_in_order(pending, order.take(n), pre_log, post_log),
        Result::Err(e) => match e {
            CommitError::BackendUnavailable => n == 1 && post_log == pre_log,
            CommitError::MalformedAtom => logged_in_order(pending, order.take(n - 1), pre_log, post_log)
                && !spec_wire_wf(pending[order[n - 1]]),
            CommitError::BackendRejected(st) => logged_in_order(pending, order.take(n), pre_log, post_log)
                && st != STATE_SUCCESS,
        },
    }
}

/// Every draft a successful commit run consumed has been persisted under
/// its key, with its declared type tag and payload.
pub open spec fn consumed_drafts_persisted(
    pre_pending: Map<u32, Seq<u8>>,
    post_pending: Map<u32, Seq<u8>>,
    post_stored: Map<u32, RawAtom>,
) -> bool {
    forall|k: u32| #![trigger pre_pending.contains_key(k)]
        pre_pending.contains_key(k) && !post_pending.contains_key(k) ==> spec_wire_wf(
            pre_pending[k],
        ) && post_stored.contains_key(k) && post_stored[k] == (RawAtom {
            type_tag: spec_wire_tag(pre_pending[k]),
            payload: spec_wire_payload(pre_pending[k]),
        })
}

/// A handle to abstract state storage.
///
/// The handle buffers written properties and hands them to the backend on
/// commit.  Create new properties by calling [`draft`](StoreHandle::draft)
/// and write them through the returned [`StateProperty`].  Only
/// [`commit`](StoreHandle::commit) or [`commit_all`](StoreHandle::commit_all)
/// persists a draft: a handle dropped with pending drafts discards them.
///
/// The backend is optional because a host need not provide one; committing
/// without a backend fails with [`CommitError::BackendUnavailable`].
pub struct StoreHandle<B: StorageBackend> {
    entries: Vec<(u32, Vec<u8>)>,
    backend: Option<B>,
}

impl<B: StorageBackend> StoreHandle<B> {
    #[verifier::type_invariant]
    closed spec fn wf(&self) -> bool {
        unique_keys(self.entries@)
    }

    /// The pending drafts: each key's serialized atom in progress.
    pub closed spec fn pending(&self) -> Map<u32, Seq<u8>> {
        map_of(self.entries@)
    }

    /// The pending keys, in draft order.
    pub closed spec fn pending_order(&self) -> Seq<u32> {
        keys_of(self.entries@)
    }

    /// Whether a backend is attached.
    pub closed spec fn has_backend(&self) -> bool {
        self.backend is Some
    }

    /// What the attached backend holds.
    pub closed spec fn backend_stored(&self) -> Map<u32, RawAtom> {
        opt_stored(self.backend)
    }

    /// The store invocations the attached backend has received.
    pub closed spec fn backend_log(&self) -> Seq<StoreRequest> {
        opt_log(self.backend)
    }

    /// Whether the attached backend promises to accept every store call.
    pub closed spec fn backend_reliable(&self) -> bool {
        opt_reliable(self.backend)
    }

    /// Whether a draft is pending for the key.
    pub fn is_drafted(&self, key: u32) -> (r: bool)
        ensures
            r == self.pending().contains_key(key),
    {
        let ghost s0 = self.entries@;
        match find_key(&self.entries, key) {
            Some(i) => {
                proof {
                    use_type_invariant(self);
                    lemma_map_of_index(s0, i as int);
                }
                true
            },
            None => {
                proof {
                    lemma_map_of_absent(s0, key);
                }
                false
            },
        }
    }

    /// How many drafts are pending.
    pub fn pending_count(&self) -> (r: usize)
        ensures
            r == self.pending_order().len(),
    {
        self.entries.len()
    }

    /// Create a new store handle with an empty draft buffer.
    pub fn new(backend: Option<B>) -> (r: Self)
        ensures
            r.pending() == Map::<u32, Seq<u8>>::empty(),
            r.pending_order() == Seq::<u32>::empty(),
            r.has_backend() == backend is Some,
            r.backend_stored() == opt_stored(backend),
            r.backend_log() == opt_log(backend),
            r.backend_reliable() == opt_reliable(backend),
    {
        let r = StoreHandle { entries: Vec::new(), backend };
        proof {
            assert(r.pending_order() =~= Seq::<u32>::empty());
        }
        r
    }

    /// Draft a new property.
    ///
    /// Inserts an empty pending entry for the key — replacing, and thereby
    /// discarding, any partial content drafted for that key before — and
    /// returns a writer scoped to it.  The draft is persisted only by a
    /// later [`commit`](StoreHandle::commit) or
    /// [`commit_all`](StoreHandle::commit_all); it can be dropped with
    /// [`discard`](StoreHandle::discard) or
    /// [`discard_all`](StoreHandle::discard_all).
    pub fn draft(&mut self, property_key: u32) -> (r: StateProperty)
        ensures
            r.key_id() == property_key,
            final(self).pending() == old(self).pending().insert(
                property_key,
                Seq::<u8>::empty(),
            ),
            old(self).pending().contains_key(property_key) ==> final(self).pending_order()
                == old(self).pending_order(),
            !old(self).pending().contains_key(property_key) ==> final(self).pending_order()
                == old(self).pending_order().push(property_key),
            final(self).has_backend() == old(self).has_backend(),
            final(self).backend_stored() == old(self).backend_stored(),
            final(self).backend_log() == old(self).backend_log(),
            final(self).backend_reliable() == old(self).backend_reliable(),
    {
        proof {
            use_type_invariant(&*self);
        }
        let ghost s0 = self.entries@;
        match find_key(&self.entries, property_key) {
            Some(i) => {
                let empty_entry: Vec<u8> = Vec::new();
                proof {
                    lemma_map_of_index(s0, i as int);
                    lemma_map_of_update(s0, i as int, empty_entry);
                }
                let mut entries: Vec<(u32, Vec<u8>)> = Vec::new();
                core::mem::swap(&mut entries, &mut self.entries);
                entries[i] = (property_key, empty_entry);
                self.entries = entries;
            },
            None => {
                let empty_entry: Vec<u8> = Vec::new();
                let mut entries: Vec<(u32, Vec<u8>)> = Vec::new();
                core::mem::swap(&mut entries, &mut self.entries);
                proof {
                    lemma_map_of_push(s0, property_key, empty_entry);
                    lemma_map_of_absent(s0, property_key);
                    assert(unique_keys(s0.push((property_key, empty_entry))));
                    assert(keys_of(s0.push((property_key, empty_entry))) =~= keys_of(s0).push(
                        property_key,
                    ));
                }
                entries.push((property_key, empty_entry));
                self.entries = entries;
            },
        }
        StateProperty { key: property_key }
    }

    /// Hand one drafted property to the backend: the internal helper both
    /// commit operations share.
    ///
    /// The draft is validated structurally, then the backend is invoked
    /// exactly once with the declared type tag, the declared payload and the
    /// plain-old-data and portability flags.
    fn commit_pair(backend: &mut Option<B>, key: u32, draft: Vec<u8>) -> (r: Result<
        (),
        CommitError,
    >)
        ensures
            ({
                let d = draft@;
                if (*old(backend)) is None {
                    &&& r == Result::<(), CommitError>::Err(CommitError::BackendUnavailable)
                    &&& *final(backend) == *old(backend)
                } else if !spec_wire_wf(d) {
                    &&& r == Result::<(), CommitError>::Err(CommitError::MalformedAtom)
                    &&& *final(backend) == *old(backend)
                } else {
                    &&& (*final(backend)) is Some
                    &&& opt_log(*final(backend)) == opt_log(*old(backend)).push(
                        (StoreRequest {
                            key,
                            type_tag: spec_wire_tag(d),
                            payload: spec_wire_payload(d),
                            flags: COMMIT_FLAGS,
                        }),
                    )
                    &&& (r is Ok ==> opt_stored(*final(backend)) == opt_stored(
                        *old(backend),
                    ).insert(
                        key,
                        (RawAtom { type_tag: spec_wire_tag(d), payload: spec_wire_payload(d) }),
                    ))
                    &&& (r is Ok || r matches Result::Err(CommitError::BackendRejected(_)))
                    &&& (r matches Result::Err(CommitError::BackendRejected(st)) ==> st
                        != STATE_SUCCESS && opt_stored(*final(backend)) == opt_stored(
                        *old(backend),
                    ))
                    &&& (opt_reliable(*old(backend)) ==> r == Result::<(), CommitError>::Ok(())
                        && opt_reliable(*final(backend)))
                }
            }),
    {
        let mut bk: Option<B> = None;
        core::mem::swap(&mut bk, backend);
        match bk {
            None => Err(CommitError::BackendUnavailable),
            Some(mut b) => {
                let r = match parse_atom_wire(draft.as_slice()) {
                    None => Err(CommitError::MalformedAtom),
                    Some((tag, payload)) => {
                        let status = b.store(key, tag, payload.as_slice(), COMMIT_FLAGS);
                        if status == STATE_SUCCESS {
                            Ok(())
                        } else {
                            Err(CommitError::BackendRejected(status))
                        }
                    },
                };
                *backend = Some(b);
                r
            },
        }
    }

    /// Commit one specific property.
    ///
    /// Returns `None` if the key has no pending draft — asking is not an
    /// error — and otherwise `Some` of the outcome of handing the draft to
    /// the backend.  On any outcome the entry is removed from the buffer:
    /// commit consumes, it does not peek.
    pub fn commit(&mut self, key: u32) -> (r: Option<Result<(), CommitError>>)
        ensures
            final(self).pending() == old(self).pending().remove(key),
            final(self).pending_order() == old(self).pending_order().remove_value(key),
            r is Some <==> old(self).pending().contains_key(key),
            final(self).has_backend() == old(self).has_backend(),
            old(self).backend_reliable() ==> final(self).backend_reliable(),
            !old(self).pending().contains_key(key) ==> *final(self) == *old(self),
            old(self).pending().contains_key(key) ==> ({
                let d = old(self).pending()[key];
                if !old(self).has_backend() {
                    r == Option::Some(
                        Result::<(), CommitError>::Err(CommitError::BackendUnavailable),
                    ) && final(self).backend_log() == old(self).backend_log() && final(self).backend_stored() == old(self).backend_stored()
                } else if !spec_wire_wf(d) {
                    r == Option::Some(Result::<(), CommitError>::Err(CommitError::MalformedAtom))
                        && final(self).backend_log() == old(self).backend_log() && final(self).backend_stored() == old(self).backend_stored()
                } else {
                    &&& final(self).backend_log() == old(self).backend_log().push(
                        (StoreRequest {
                            key,
                            type_tag: spec_wire_tag(d),
                            payload: spec_wire_payload(d),
                            flags: COMMIT_FLAGS,
                        }),
                    )
                    &&& (r == Option::Some(Result::<(), CommitError>::Ok(())) ==> final(self).backend_stored() == old(self).backend_stored().insert(
                        key,
                        (RawAtom { type_tag: spec_wire_tag(d), payload: spec_wire_payload(d) }),
                    ))
                    &&& (r matches Option::Some(Result::Err(CommitError::BackendRejected(st)))
                        ==> st != STATE_SUCCESS && final(self).backend_stored() == old(self).backend_stored())
                    &&& (r matches Option::Some(res) && (res is Ok || res matches Result::Err(
                        CommitError::BackendRejected(_),
                    )))
                    &&& (old(self).backend_reliable() ==> r == Option::Some(
                        Result::<(), CommitError>::Ok(()),
                    ))
                }
            }),
    {
        proof {
            use_type_invariant(&*self);
        }
        let ghost s0 = self.entries@;
        match find_key(&self.entries, key) {
            None => {
                proof {
                    lemma_map_of_absent(s0, key);
                    assert(map_of(s0).remove(key) =~= map_of(s0));
                    assert forall|j: int| 0 <= j < keys_of(s0).len() implies keys_of(s0)[j]
                        != key by {
                        assert(s0[j].0 != key);
                    }
                    lemma_remove_value_absent(keys_of(s0), key);
                }
                None
            },
            Some(i) => {
                proof {
                    lemma_map_of_index(s0, i as int);
                    lemma_map_of_remove(s0, i as int);
                    assert forall|j: int| 0 <= j < i as int implies keys_of(s0)[j] != key by {
                        assert(s0[j].0 != key);
                    }
                    lemma_remove_value_at(keys_of(s0), i as int, key);
                }
                let mut entries: Vec<(u32, Vec<u8>)> = Vec::new();
                core::mem::swap(&mut entries, &mut self.entries);
                let (_, draft) = entries.remove(i);
                self.entries = entries;
                let mut bk: Option<B> = None;
                core::mem::swap(&mut bk, &mut self.backend);
                let res = Self::commit_pair(&mut bk, key, draft);
                self.backend = bk;
                Some(res)
            },
        }
    }

    /// Commit all drafted properties, in draft order, stopping at the first
    /// error.
    ///
    /// The backend is invoked exactly once per draft handed over, in draft
    /// order — see [`commit_run_outcome`] for the exact account.  On success
    /// the buffer is left empty and every draft has been persisted; a later
    /// `commit_all` on the empty buffer is a no-op success.  On an error the
    /// failed draft has been consumed, drafts already committed stay
    /// persisted, and drafts not yet attempted stay pending.
    pub fn commit_all(&mut self) -> (r: Result<(), CommitError>)
        ensures
            final(self).has_backend() == old(self).has_backend(),
            old(self).backend_reliable() ==> final(self).backend_reliable(),
            // the draft order never repeats a key, so one logged request per
            // consumed draft is one request per committed key
            forall|i: int, j: int|
                0 <= i < j < old(self).pending_order().len() ==> old(self).pending_order()[i]
                    != old(self).pending_order()[j],
            // the exact account of the run: it consumed the first n drafts in
            // draft order, persisted the accepted ones, logged exactly one
            // request per draft handed to the backend, and stopped at the
            // first error
            exists|n: int|
                #[trigger] commit_run_outcome(
                    old(self).pending(),
                    old(self).pending_order(),
                    old(self).backend_log(),
                    old(self).backend_stored(),
                    final(self).pending(),
                    final(self).pending_order(),
                    final(self).backend_log(),
                    final(self).backend_stored(),
                    r,
                    n,
                ),
            // drafts still pending afterwards were pending before, unchanged
            pending_preserved(old(self).pending(), final(self).pending()),
            // the log grows only by commit requests for then-pending drafts
            log_extended_by_commits(
                old(self).pending(),
                old(self).backend_log(),
                final(self).backend_log(),
            ),
            // what the backend holds at keys that were not pending is untouched
            unpended_stored_unchanged(
                old(self).pending(),
                old(self).backend_stored(),
                final(self).backend_stored(),
            ),
            // every consumed draft has been persisted with its declared tag and payload
            r is Ok ==> consumed_drafts_persisted(
                old(self).pending(),
                final(self).pending(),
                final(self).backend_stored(),
            ),
            // success clears the buffer
            r is Ok ==> final(self).pending() == Map::<u32, Seq<u8>>::empty() && final(self).pending_order() == Seq::<u32>::empty(),
            // an empty buffer commits as a no-op success
            old(self).pending_order().len() == 0 ==> r is Ok && *final(self) == *old(self),
            // the backend is reported missing exactly when it is missing
            !old(self).has_backend() && old(self).pending_order().len() > 0 ==> r == Result::<
                (),
                CommitError,
            >::Err(CommitError::BackendUnavailable),
            r == Result::<(), CommitError>::Err(CommitError::BackendUnavailable) ==> !old(self).has_backend(),
            // a reliable backend accepts every structurally sound draft
            old(self).has_backend() && old(self).backend_reliable() && (forall|k: u32|
                old(self).pending().contains_key(k) ==> spec_wire_wf(old(self).pending()[k]))
                ==> r is Ok,
    {
        proof {
            use_type_invariant(&*self);
            assert forall|i: int|
                0 <= i < self.pending_order().len() implies self.pending().contains_key(
                self.pending_order()[i],
            ) && self.pending()[self.pending_order()[i]] == self.pending()[self.pending_order()[i]] by {
                lemma_map_of_index(self.entries@, i);
                assert(keys_of(self.entries@)[i] == self.entries@[i].0);
            }
        }
        let ghost pre = *self;
        let ghost mut n: int = 0;
        loop
            invariant
                pre == *old(self),
                0 <= n <= pre.pending_order().len(),
                self.pending_order() == pre.pending_order().skip(n),
                forall|i: int, j: int|
                    0 <= i < j < pre.pending_order().len() ==> pre.pending_order()[i]
                        != pre.pending_order()[j],
                self.has_backend() == pre.has_backend(),
                pre.backend_reliable() ==> self.backend_reliable(),
                pending_preserved(pre.pending(), self.pending()),
                forall|i: int| #![trigger pre.pending_order()[i]]
                    n <= i < pre.pending_order().len() ==> self.pending().contains_key(
                        pre.pending_order()[i],
                    ) && self.pending()[pre.pending_order()[i]]
                        == pre.pending()[pre.pending_order()[i]],
                logged_in_order(
                    pre.pending(),
                    pre.pending_order().take(n),
                    pre.backend_log(),
                    self.backend_log(),
                ),
                log_extended_by_commits(pre.pending(), pre.backend_log(), self.backend_log()),
                unpended_stored_unchanged(
                    pre.pending(),
                    pre.backend_stored(),
                    self.backend_stored(),
                ),
                forall|i: int| #![trigger pre.pending_order()[i]]
                    0 <= i < n ==> self.backend_stored().contains_key(pre.pending_order()[i])
                        && self.backend_stored()[pre.pending_order()[i]] == (RawAtom {
                        type_tag: spec_wire_tag(pre.pending()[pre.pending_order()[i]]),
                        payload: spec_wire_payload(pre.pending()[pre.pending_order()[i]]),
                    }),
                forall|i: int| #![trigger pre.pending_order()[i]]
                    n <= i < pre.pending_order().len() ==> self.backend_stored().contains_key(
                        pre.pending_order()[i],
                    ) == pre.backend_stored().contains_key(pre.pending_order()[i]) && (
                    pre.backend_stored().contains_key(pre.pending_order()[i])
                        ==> self.backend_stored()[pre.pending_order()[i]]
                        == pre.backend_stored()[pre.pending_order()[i]]),
                consumed_drafts_persisted(pre.pending(), self.pending(), self.backend_stored()),
                pre.pending_order().len() == 0 ==> *self == pre,
                !pre.has_backend() ==> n == 0 && *self == pre,
            decreases self.entries@.len(),
        {
            proof {
                use_type_invariant(&*self);
            }
            let ghost order = pre.pending_order();
            if self.entries.len() == 0 {
                proof {
                    assert(self.pending() =~= Map::<u32, Seq<u8>>::empty());
                    assert(self.pending_order() =~= Seq::<u32>::empty());
                    // the whole order was consumed
                    assert(n == order.len());
                    assert(order.take(n) =~= order);
                    assert(commit_run_outcome(
                        pre.pending(),
                        order,
                        pre.backend_log(),
                        pre.backend_stored(),
                        self.pending(),
                        self.pending_order(),
                        self.backend_log(),
                        self.backend_stored(),
                        Result::<(), CommitError>::Ok(()),
                        n,
                    ));
                }
                return Ok(());
            }
            let ghost scur = self.entries@;
            let ghost log_mid = self.backend_log();
            proof {
                lemma_map_of_index(scur, 0);
                lemma_map_of_remove(scur, 0);
                assert(keys_of(scur)[0] == order[n]);
            }
            let mut entries: Vec<(u32, Vec<u8>)> = Vec::new();
            core::mem::swap(&mut entries, &mut self.entries);
            let (key, draft) = entries.remove(0);
            self.entries = entries;
            proof {
                assert(key == order[n]);
                assert(pre.pending().contains_key(key) && pre.pending()[key] == draft@);
                assert(self.pending_order() =~= order.skip(n + 1));
            }
            let mut bk: Option<B> = None;
            core::mem::swap(&mut bk, &mut self.backend);
            let res = Self::commit_pair(&mut bk, key, draft);
            self.backend = bk;
            proof {
                n = n + 1;
                if res is Ok || (res matches Result::Err(CommitError::BackendRejected(_))) {
                    // exactly one request was logged for this draft
                    assert(order.take(n) =~= order.take(n - 1).push(key));
                    assert(logged_in_order(
                        pre.pending(),
                        order.take(n),
                        pre.backend_log(),
                        self.backend_log(),
                    )) by {
                        assert(self.backend_log() == log_mid.push(
                            (StoreRequest {
                                key,
                                type_tag: spec_wire_tag(draft@),
                                payload: spec_wire_payload(draft@),
                                flags: COMMIT_FLAGS,
                            }),
                        ));
                        assert forall|i: int|
                            0 <= i < order.take(n).len() implies self.backend_log()[pre.backend_log().len() + i] == (StoreRequest {
                            key: order.take(n)[i],
                            type_tag: spec_wire_tag(pre.pending()[order.take(n)[i]]),
                            payload: spec_wire_payload(pre.pending()[order.take(n)[i]]),
                            flags: COMMIT_FLAGS,
                        }) by {
                            if i < n - 1 {
                                assert(order.take(n - 1)[i] == order.take(n)[i]);
                                assert(log_mid[pre.backend_log().len() + i] == (StoreRequest {
                                    key: order.take(n - 1)[i],
                                    type_tag: spec_wire_tag(
                                        pre.pending()[order.take(n - 1)[i]],
                                    ),
                                    payload: spec_wire_payload(
                                        pre.pending()[order.take(n - 1)[i]],
                                    ),
                                    flags: COMMIT_FLAGS,
                                }));
                            }
                        }
                    }
                }
            }
            match res {
                Ok(()) => {},
                Err(e) => {
                    proof {
                        if e is BackendUnavailable {
                            assert(self.backend_log() =~= pre.backend_log());
                        }
                        assert(commit_run_outcome(
                            pre.pending(),
                            order,
                            pre.backend_log(),
                            pre.backend_stored(),
                            self.pending(),
                            self.pending_order(),
                            self.backend_log(),
                            self.backend_stored(),
                            Result::<(), CommitError>::Err(e),
                            n,
                        )) by {
                            assert(order.take(n - 1) =~= order.take(n - 1));
                        }
                    }
                    return Err(e);
                },
            }
        }
    }

    /// Discard a drafted property without involving the backend.
    ///
    /// If no property with the given key was drafted before, this is a
    /// no-op.
    pub fn discard(&mut self, key: u32)
        ensures
            final(self).pending() == old(self).pending().remove(key),
            final(self).pending_order() == old(self).pending_order().remove_value(key),
            !old(self).pending().contains_key(key) ==> *final(self) == *old(self),
            final(self).has_backend() == old(self).has_backend(),
            final(self).backend_stored() == old(self).backend_stored(),
            final(self).backend_log() == old(self).backend_log(),
            final(self).backend_reliable() == old(self).backend_reliable(),
    {
        proof {
            use_type_invariant(&*self);
        }
        let ghost s0 = self.entries@;
        match find_key(&self.entries, key) {
            Some(i) => {
                proof {
                    lemma_map_of_index(s0, i as int);
                    lemma_map_of_remove(s0, i as int);
                    assert forall|j: int| 0 <= j < i as int implies keys_of(s0)[j] != key by {
                        assert(s0[j].0 != key);
                    }
                    lemma_remove_value_at(keys_of(s0), i as int, key);
                }
                let mut entries: Vec<(u32, Vec<u8>)> = Vec::new();
                core::mem::swap(&mut entries, &mut self.entries);
                entries.remove(i);
                self.entries = entries;
            },
            None => {
                proof {
                    lemma_map_of_absent(s0, key);
                    assert(map_of(s0).remove(key) =~= map_of(s0));
                    assert forall|j: int| 0 <= j < keys_of(s0).len() implies keys_of(s0)[j]
                        != key by {
                        assert(s0[j].0 != key);
                    }
                    lemma_remove_value_absent(keys_of(s0), key);
                }
            },
        }
    }

    /// Discard all drafted properties without involving the backend.
    pub fn discard_all(&mut self)
        ensures
            final(self).pending() == Map::<u32, Seq<u8>>::empty(),
            final(self).pending_order() == Seq::<u32>::empty(),
            final(self).has_backend() == old(self).has_backend(),
            final(self).backend_stored() == old(self).backend_stored(),
            final(self).backend_log() == old(self).backend_log(),
            final(self).backend_reliable() == old(self).backend_reliable(),
    {
        proof {
            use_type_invariant(&*self);
        }
        let mut entries: Vec<(u32, Vec<u8>)> = Vec::new();
        core::mem::swap(&mut entries, &mut self.entries);
        proof {
            assert(self.pending_order() =~= Seq::<u32>::empty());
        }
    }

    /// Give the backend back, dropping — and thereby silently discarding —
    /// every pending draft.
    pub fn into_backend(self) -> (r: Option<B>)
        ensures
            r is Some <==> self.has_backend(),
            opt_stored(r) == self.backend_stored(),
            opt_log(r) == self.backend_log(),
            opt_reliable(r) == self.backend_reliable(),
    {
        let StoreHandle { entries: _, backend } = self;
        backend
    }
}

/// A writer scoped to one drafted property.
///
/// Obtained from [`StoreHandle::draft`]; writing goes back through the
/// originating handle, into the pending entry for this writer's key.
pub struct StateProperty {
    key: u32,
}

impl StateProperty {
    /// The key this writer drafts.
    pub closed spec fn key_id(&self) -> u32 {
        self.key
    }

    /// The key this writer drafts.
    pub fn key(&self) -> (r: u32)
        ensures
            r == self.key_id(),
    {
        self.key
    }

    /// Initialize the drafted property as the complete serialized form of a
    /// value.
    ///
    /// Writes the atom header and the full payload of `value`, under
    /// `type_tag`, into the pending entry for this writer's key, replacing
    /// whatever that entry held.  Returns false — and changes nothing — when
    /// the key is no longer pending (it was discarded or committed meanwhile)
    /// or when the payload would overflow the header's 32-bit length field.
    pub fn init<B: StorageBackend>(
        &self,
        store: &mut StoreHandle<B>,
        type_tag: u32,
        value: &AtomValue,
    ) -> (ok: bool)
        ensures
            ok <==> old(store).pending().contains_key(self.key_id()) && spec_payload(value@).len()
                <= u32::MAX,
            ok ==> final(store).pending() == old(store).pending().insert(
                self.key_id(),
                spec_atom_wire(type_tag, spec_payload(value@)),
            ),
            !ok ==> *final(store) == *old(store),
            final(store).pending_order() == old(store).pending_order(),
            final(store).has_backend() == old(store).has_backend(),
            final(store).backend_stored() == old(store).backend_stored(),
            final(store).backend_log() == old(store).backend_log(),
            final(store).backend_reliable() == old(store).backend_reliable(),
    {
        proof {
            use_type_invariant(&*store);
        }
        let ghost s0 = store.entries@;
        let idx = match find_key(&store.entries, self.key) {
            Some(i) => i,
            None => {
                proof {
                    lemma_map_of_absent(s0, self.key);
                }
                return false;
            },
        };
        proof {
            lemma_map_of_index(s0, idx as int);
        }
        let payload = encode_payload(value);
        if payload.len() > (u32::MAX as usize) {
            return false;
        }
        let wire = encode_atom_wire(type_tag, payload);
        proof {
            lemma_map_of_update(s0, idx as int, wire);
        }
        let mut entries: Vec<(u32, Vec<u8>)> = Vec::new();
        core::mem::swap(&mut entries, &mut store.entries);
        entries[idx] = (self.key, wire);
        store.entries = entries;
        true
    }

    /// Append further elements to a drafted vector of 32-bit signed words.
    ///
    /// The pending entry must already hold a structurally sound atom — as
    /// written by [`init`](StateProperty::init) — whose payload the element
    /// encodings are appended to, with the header's length field updated.
    /// Returns false — and changes nothing — when the key is not pending,
    /// the entry is not a sound atom, or the grown payload would overflow
    /// the header's 32-bit length field.
    pub fn append_int32<B: StorageBackend>(
        &self,
        store: &mut StoreHandle<B>,
        elems: &[i32],
    ) -> (ok: bool)
        ensures
            ok <==> ({
                let d = old(store).pending()[self.key_id()];
                old(store).pending().contains_key(self.key_id()) && spec_wire_wf(d)
                    && spec_wire_payload(d).len() + 4 * elems@.len() <= u32::MAX
            }),
            ok ==> ({
                let d = old(store).pending()[self.key_id()];
                final(store).pending() == old(store).pending().insert(
                    self.key_id(),
                    spec_atom_wire(
                        spec_wire_tag(d),
                        spec_wire_payload(d) + spec_concat_i32(elems@),
                    ),
                )
            }),
            !ok ==> *final(store) == *old(store),
            final(store).pending_order() == old(store).pending_order(),
            final(store).has_backend() == old(store).has_backend(),
            final(store).backend_stored() == old(store).backend_stored(),
            final(store).backend_log() == old(store).backend_log(),
            final(store).backend_reliable() == old(store).backend_reliable(),
    {
        proof {
            use_type_invariant(&*store);
        }
        let ghost s0 = store.entries@;
        let idx = match find_key(&store.entries, self.key) {
            Some(i) => i,
            None => {
                proof {
                    lemma_map_of_absent(s0, self.key);
                }
                return false;
            },
        };
        proof {
            lemma_map_of_index(s0, idx as int);
        }
        let (tag, mut payload) = match parse_atom_wire(store.entries[idx].1.as_slice()) {
            Some(p) => p,
            None => {
                return false;
            },
        };
        if elems.len() > (u32::MAX as usize) / 4 {
            return false;
        }
        let byte_len = 4 * elems.len();
        if payload.len() > (u32::MAX as usize) - byte_len {
            return false;
        }
        let ghost p0 = payload@;
        let n = elems.len();
        let mut i: usize = 0;
        while i < n
            invariant
                n == elems@.len(),
                i <= n,
                payload@ == p0 + spec_concat_i32(elems@.take(i as int)),
                payload@.len() == p0.len() + 4 * i,
            decreases n - i,
        {
            let mut eb = u32_to_le_bytes(elems[i] as u32);
            payload.append(&mut eb);
            proof {
                lemma_concat_i32_push(elems@.take(i as int), elems@[i as int]);
                assert(elems@.take(i + 1) =~= elems@.take(i as int).push(elems@[i as int]));
                assert(payload@ =~= p0 + spec_concat_i32(elems@.take(i + 1)));
            }
            i = i + 1;
        }
        proof {
            assert(elems@.take(n as int) =~= elems@);
        }
        let wire = encode_atom_wire(tag, payload);
        proof {
            lemma_map_of_update(s0, idx as int, wire);
        }
        let mut entries: Vec<(u32, Vec<u8>)> = Vec::new();
        core::mem::swap(&mut entries, &mut store.entries);
        entries[idx] = (self.key, wire);
        store.entries = entries;
        true
    }

    /// Append further elements to a drafted vector of 32-bit floating-point
    /// bit patterns, as [`append_int32`](StateProperty::append_int32) does
    /// for signed words.
    pub fn append_float32_bits<B: StorageBackend>(
        &self,
        store: &mut StoreHandle<B>,
        elems: &[u32],
    ) -> (ok: bool)
        ensures
            ok <==> ({
                let d = old(store).pending()[self.key_id()];
                old(store).pending().contains_key(self.key_id()) && spec_wire_wf(d)
                    && spec_wire_payload(d).len() + 4 * elems@.len() <= u32::MAX
            }),
            ok ==> ({
                let d = old(store).pending()[self.key_id()];
                final(store).pending() == old(store).pending().insert(
                    self.key_id(),
                    spec_atom_wire(
                        spec_wire_tag(d),
                        spec_wire_payload(d) + spec_concat_u32(elems@),
                    ),
                )
            }),
            !ok ==> *final(store) == *old(store),
            final(store).pending_order() == old(store).pending_order(),
            final(store).has_backend() == old(store).has_backend(),
            final(store).backend_stored() == old(store).backend_stored(),
            final(store).backend_log() == old(store).backend_log(),
            final(store).backend_reliable() == old(store).backend_reliable(),
    {
        proof {
            use_type_invariant(&*store);
        }
        let ghost s0 = store.entries@;
        let idx = match find_key(&store.entries, self.key) {
            Some(i) => i,
            None => {
                proof {
                    lemma_map_of_absent(s0, self.key);
                }
                return false;
            },
        };
        proof {
            lemma_map_of_index(s0, idx as int);
        }
        let (tag, mut payload) = match parse_atom_wire(store.entries[idx].1.as_slice()) {
            Some(p) => p,
            None => {
                return false;
            },
        };
        if elems.len() > (u32::MAX as usize) / 4 {
            return false;
        }
        let byte_len = 4 * elems.len();
        if payload.len() > (u32::MAX as usize) - byte_len {
            return false;
        }
        let ghost p0 = payload@;
        let n = elems.len();
        let mut i: usize = 0;
        while i < n
            invariant
                n == elems@.len(),
                i <= n,
                payload@ == p0 + spec_concat_u32(elems@.take(i as int)),
                payload@.len() == p0.len() + 4 * i,
            decreases n - i,
        {
            let mut eb = u32_to_le_bytes(elems[i]);
            payload.append(&mut eb);
            proof {
                lemma_concat_u32_push(elems@.take(i as int), elems@[i as int]);
                assert(elems@.take(i + 1) =~= elems@.take(i as int).push(elems@[i as int]));
                assert(payload@ =~= p0 + spec_concat_u32(elems@.take(i + 1)));
            }
            i = i + 1;
        }
        proof {
            assert(elems@.take(n as int) =~= elems@);
        }
        let wire = encode_atom_wire(tag, payload);
        proof {
            lemma_map_of_update(s0, idx as int, wire);
        }
        let mut entries: Vec<(u32, Vec<u8>)> = Vec::new();
        core::mem::swap(&mut entries, &mut store.entries);
        entries[idx] = (self.key, wire);
        store.entries = entries;
        true
    }
}

/// What a retrieval yields, given what the backend holds: nothing when the
/// key is absent, nothing when the stored type tag differs from the expected
/// one, nothing when the payload is malformed for the expected shape, and
/// otherwise the decoded value.  The three kinds of absence are deliberately
/// unified: a key may be reused by callers expecting different types across
/// format versions, and a mismatch is "absent for this request", not an
/// error.
pub open spec fn spec_retrieve(
    stored: Map<u32, RawAtom>,
    key: u32,
    expected_type: u32,
    kind: AtomKind,
) -> Option<AtomData> {
    if !stored.contains_key(key) {
        Option::None
    } else if stored[key].type_tag != expected_type {
        Option::None
    } else {
        spec_decode(kind, stored[key].payload)
    }
}

/// A handle to restore properties from the storage backend.
///
/// The backend is optional because a host need not provide one; every
/// retrieval through an absent backend yields nothing.
pub struct RetrieveHandle<B: StorageBackend> {
    backend: Option<B>,
}

impl<B: StorageBackend> RetrieveHandle<B> {
    /// Whether a backend is attached.
    pub closed spec fn has_backend(&self) -> bool {
        self.backend is Some
    }

    /// What the attached backend holds.
    pub closed spec fn backend_stored(&self) -> Map<u32, RawAtom> {
        opt_stored(self.backend)
    }

    /// Create a new retrieve handle.
    pub fn new(backend: Option<B>) -> (r: Self)
        ensures
            r.has_backend() == backend is Some,
            r.backend_stored() == opt_stored(backend),
    {
        RetrieveHandle { backend }
    }

    /// Retrieve one property: ask the backend for the bytes and type tag
    /// stored under the key, and decode the payload in the expected shape
    /// only when the stored type tag equals the expected one.
    ///
    /// `None` covers "no such key", "key stored under another type" and
    /// "payload malformed for the expected shape" alike, as well as the
    /// backend being absent.
    pub fn retrieve(&self, key: u32, expected_type: u32, kind: AtomKind) -> (r: Option<AtomValue>)
        ensures
            opt_data(r) == (if self.has_backend() {
                spec_retrieve(self.backend_stored(), key, expected_type, kind)
            } else {
                Option::<AtomData>::None
            }),
    {
        let backend = match &self.backend {
            Some(b) => b,
            None => {
                return None;
            },
        };
        match backend.retrieve(key) {
            None => None,
            Some((stored_type, bytes)) => {
                if stored_type != expected_type {
                    None
                } else {
                    decode_payload(kind, bytes.as_slice())
                }
            },
        }
    }

    /// Give the backend back.
    pub fn into_backend(self) -> (r: Option<B>)
        ensures
            r is Some <==> self.has_backend(),
            opt_stored(r) == self.backend_stored(),
    {
        self.backend
    }
}

// ---------------------------------------------------------------------------
// Laws relating drafting, committing and retrieving
// ---------------------------------------------------------------------------

/// Law (discard before commit): a commit run issues store requests only for
/// drafts that are pending when it starts.  A key that is not pending — for
/// example one that was drafted and then discarded, since
/// [`StoreHandle::discard`] removes it from the pending map and leaves the
/// log unchanged — therefore never reaches the backend: every request for it
/// in the log after the run was already there before.
pub proof fn lemma_unpended_key_never_stored(
    pending: Map<u32, Seq<u8>>,
    pre_log: Seq<StoreRequest>,
    post_log: Seq<StoreRequest>,
    key: u32,
)
    requires
        log_extended_by_commits(pending, pre_log, post_log),
        !pending.contains_key(key),
    ensures
        forall|i: int|
            0 <= i < post_log.len() && (#[trigger] post_log[i]).key == key ==> i < pre_log.len()
                && post_log[i] == pre_log[i],
{
}

/// Law (type mismatch reads as absent): retrieving a key under a different
/// type tag than the one it is stored with yields nothing, whatever shape
/// was expected.
pub proof fn lemma_type_mismatch_retrieve(
    stored: Map<u32, RawAtom>,
    key: u32,
    expected_type: u32,
    kind: AtomKind,
)
    requires
        stored.contains_key(key) ==> stored[key].type_tag != expected_type,
    ensures
        spec_retrieve(stored, key, expected_type, kind) is None,
{
}

/// Law (save/restore round trip): a property persisted as the encoding of a
/// value — as a successful commit persists every draft — is retrieved back
/// as exactly that value when asked for under the tag it was written with
/// and the shape it encodes.
pub proof fn lemma_store_retrieve_round_trip(
    stored: Map<u32, RawAtom>,
    key: u32,
    tag: u32,
    d: AtomData,
)
    requires
        stored.contains_key(key),
        stored[key] == (RawAtom { type_tag: tag, payload: spec_payload(d) }),
    ensures
        spec_retrieve(stored, key, tag, kind_of(d)) == Option::Some(d),
{
    lemma_payload_round_trip(d);
}

} // verus!
