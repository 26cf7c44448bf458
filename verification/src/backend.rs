//! The storage backend interface and an in-memory reference backend.
//!
//! The host owns physical persistence.  The commit protocol hands it, per
//! property, the raw payload, its type tag and the portability flags, and the
//! retrieval protocol asks it for the payload and type tag of one key.  The
//! interface is captured as a trait whose contract states exactly how each
//! call changes what the backend holds; [`MemoryBackend`] is a verified
//! in-process implementation of it.

use crate::keyed::{
    find_key, keys_of, lemma_map_of_contains, lemma_map_of_index, lemma_map_of_push,
    lemma_map_of_update, map_of, unique_keys,
};
use vstd::prelude::*;

verus! {

/// Backend status word: the store call succeeded.
pub const STATE_SUCCESS: u32 = 0;

/// Backend status word: the store call failed for an unknown reason.
pub const STATE_ERR_UNKNOWN: u32 = 1;

/// Property flag: the payload is plain old data, free of embedded pointers.
pub const STATE_IS_POD: u32 = 1;

/// Property flag: the payload can be persisted and moved across hosts
/// verbatim.
pub const STATE_IS_PORTABLE: u32 = 2;

/// A persisted property as the backend holds it: its type tag and its raw
/// payload bytes.
#[verifier::ext_equal]
pub struct RawAtom {
    pub type_tag: u32,
    pub payload: Seq<u8>,
}

/// One invocation of the backend's store entry point, as the commit
/// protocol issued it.
#[verifier::ext_equal]
pub struct StoreRequest {
    pub key: u32,
    pub type_tag: u32,
    pub payload: Seq<u8>,
    pub flags: u32,
}

/// The host-provided storage backend.
///
/// `stored` is the mapping the backend currently holds, `store_log` the
/// full sequence of store invocations it has received, and `reliable`
/// whether it promises to accept every store call.  A host may refuse any
/// call (`reliable` is then false), but a refused call must leave the held
/// mapping unchanged, and every call is appended to the log.
pub trait StorageBackend: Sized {
    /// The properties the backend currently holds.
    ///
    /// The default readings exist so that an unverified host adapter outside
    /// this crate can implement the two executable methods alone; a verified
    /// implementation gives all three their real definitions.
    open spec fn stored(&self) -> Map<u32, RawAtom> {
        Map::empty()
    }

    /// Every store invocation the backend has received, in order.
    open spec fn store_log(&self) -> Seq<StoreRequest> {
        Seq::empty()
    }

    /// Whether the backend promises to accept every store call.
    open spec fn reliable(&self) -> bool {
        false
    }

    /// Persist one property: on a success status the property is held under
    /// its key, replacing any previous value there; on any other status
    /// nothing changes.  Either way the invocation is logged.
    fn store(&mut self, key: u32, type_tag: u32, value: &[u8], flags: u32) -> (status: u32)
        ensures
            final(self).store_log() == old(self).store_log().push(
                (StoreRequest { key, type_tag, payload: value@, flags }),
            ),
            status == STATE_SUCCESS ==> final(self).stored() == old(self).stored().insert(
                key,
                (RawAtom { type_tag, payload: value@ }),
            ),
            status != STATE_SUCCESS ==> final(self).stored() == old(self).stored(),
            old(self).reliable() ==> status == STATE_SUCCESS && final(self).reliable(),
    ;

    /// Fetch one property: the type tag and a copy of the payload bytes of
    /// the value held under the key, or nothing when no value is held there.
    fn retrieve(&self, key: u32) -> (r: Option<(u32, Vec<u8>)>)
        ensures
            match r {
                Some(p) => self.stored().contains_key(key) && self.stored()[key] == (RawAtom {
                    type_tag: p.0,
                    payload: p.1@,
                }),
                None => !self.stored().contains_key(key),
            },
    ;
}

/// A stored property with owned payload bytes.
pub struct StoredAtom {
    pub type_tag: u32,
    pub bytes: Vec<u8>,
}

impl View for StoredAtom {
    type V = RawAtom;

    open spec fn view(&self) -> RawAtom {
        RawAtom { type_tag: self.type_tag, payload: self.bytes@ }
    }
}

/// An in-memory storage backend: the reference implementation of
/// [`StorageBackend`], also useful as the store of record in tests.
///
/// It holds its properties as an association vector with pairwise-distinct
/// keys, in first-store order.  A backend created with [`MemoryBackend::new`]
/// accepts every store call; one created with [`MemoryBackend::rejecting`]
/// refuses them all with an error status, which is how a host that denies
/// persistence behaves.
pub struct MemoryBackend {
    entries: Vec<(u32, StoredAtom)>,
    accept: bool,
    log: Ghost<Seq<StoreRequest>>,
}

impl MemoryBackend {
    #[verifier::type_invariant]
    closed spec fn wf(&self) -> bool {
        unique_keys(self.entries@)
    }

    /// The held keys in first-store order.
    pub closed spec fn key_order(&self) -> Seq<u32> {
        keys_of(self.entries@)
    }

    /// A backend that accepts every store call.
    pub fn new() -> (r: Self)
        ensures
            r.stored() == Map::<u32, RawAtom>::empty(),
            r.store_log() == Seq::<StoreRequest>::empty(),
            r.key_order() == Seq::<u32>::empty(),
            r.reliable(),
    {
        let r = MemoryBackend { entries: Vec::new(), accept: true, log: Ghost(Seq::empty()) };
        proof {
            assert(r.key_order() =~= Seq::<u32>::empty());
        }
        r
    }

    /// A backend that refuses every store call with an error status.
    pub fn rejecting() -> (r: Self)
        ensures
            r.stored() == Map::<u32, RawAtom>::empty(),
            r.store_log() == Seq::<StoreRequest>::empty(),
            r.key_order() == Seq::<u32>::empty(),
            !r.reliable(),
    {
        let r = MemoryBackend { entries: Vec::new(), accept: false, log: Ghost(Seq::empty()) };
        proof {
            assert(r.key_order() =~= Seq::<u32>::empty());
        }
        r
    }

    /// How many properties are held.
    pub fn entry_count(&self) -> (r: usize)
        ensures
            r == self.key_order().len(),
    {
        self.entries.len()
    }

    /// The held keys, in first-store order: exactly the keys of the held
    /// mapping, each once.
    pub fn keys(&self) -> (r: Vec<u32>)
        ensures
            r@ == self.key_order(),
            forall|i: int, j: int| 0 <= i < j < r@.len() ==> r@[i] != r@[j],
            forall|k: u32| #![trigger r@.contains(k)]
                r@.contains(k) <==> self.stored().contains_key(k),
    {
        proof {
            use_type_invariant(self);
        }
        let n = self.entries.len();
        let mut out: Vec<u32> = Vec::new();
        let mut i: usize = 0;
        while i < n
            invariant
                n == self.entries@.len(),
                i <= n,
                out@.len() == i,
                forall|j: int| 0 <= j < i ==> out@[j] == self.entries@[j].0,
            decreases n - i,
        {
            out.push(self.entries[i].0);
            i = i + 1;
        }
        proof {
            assert(out@ =~= self.key_order());
            assert forall|k: u32| #[trigger] out@.contains(k) implies self.stored().contains_key(
                k,
            ) by {
                lemma_map_of_contains(self.entries@, k);
            }
            assert forall|k: u32| self.stored().contains_key(k) implies #[trigger] out@.contains(
                k,
            ) by {
                lemma_map_of_contains(self.entries@, k);
            }
            assert forall|p: int, q: int| 0 <= p < q < out@.len() implies out@[p] != out@[q] by {
                assert(self.entries@[p].0 != self.entries@[q].0);
            }
        }
        out
    }
}

impl StorageBackend for MemoryBackend {
    closed spec fn stored(&self) -> Map<u32, RawAtom> {
        map_of(self.entries@)
    }

    closed spec fn store_log(&self) -> Seq<StoreRequest> {
        self.log@
    }

    closed spec fn reliable(&self) -> bool {
        self.accept
    }

    fn store(&mut self, key: u32, type_tag: u32, value: &[u8], flags: u32) -> (status: u32) {
        proof {
            use_type_invariant(&*self);
        }
        self.log = Ghost(self.log@.push(StoreRequest { key, type_tag, payload: value@, flags }));
        if !self.accept {
            return STATE_ERR_UNKNOWN;
        }
        let atom = StoredAtom { type_tag, bytes: vstd::slice::slice_to_vec(value) };
        let mut entries: Vec<(u32, StoredAtom)> = Vec::new();
        core::mem::swap(&mut entries, &mut self.entries);
        let ghost s0 = entries@;
        match find_key(&entries, key) {
            Some(i) => {
                proof {
                    lemma_map_of_update(s0, i as int, atom);
                }
                entries[i] = (key, atom);
            },
            None => {
                proof {
                    lemma_map_of_push(s0, key, atom);
                    assert(unique_keys(s0.push((key, atom))));
                }
                entries.push((key, atom));
            },
        }
        self.entries = entries;
        STATE_SUCCESS
    }

    fn retrieve(&self, key: u32) -> (r: Option<(u32, Vec<u8>)>) {
        proof {
            use_type_invariant(self);
        }
        match find_key(&self.entries, key) {
            Some(i) => {
                proof {
                    lemma_map_of_index(self.entries@, i as int);
                }
                let atom = &self.entries[i].1;
                Some((atom.type_tag, vstd::slice::slice_to_vec(atom.bytes.as_slice())))
            },
            None => {
                proof {
                    assert forall|j: int| 0 <= j < self.entries@.len() implies keys_of(
                        self.entries@,
                    )[j] != key by {
                        assert(self.entries@[j].0 != key);
                    }
                    lemma_map_of_contains(self.entries@, key);
                    if keys_of(self.entries@).contains(key) {
                        let j = choose|j: int|
                            0 <= j < keys_of(self.entries@).len() && keys_of(self.entries@)[j]
                                == key;
                        assert(false);
                    }
                }
                None
            },
        }
    }
}

} // verus!
