//! The identifier cache: a bidirectional mapping between byte-string
//! identifiers and small stable integers.
//!
//! Property keys and type tags are small nonzero integers obtained by
//! mapping a human-readable identifier once and reusing the integer for the
//! lifetime of the process.  Zero is reserved as "invalid / unmapped"; it is
//! returned only when the cache cannot assign another identifier.

use vstd::prelude::*;

verus! {

/// The reserved identifier meaning "invalid / unmapped".
pub const INVALID_ID: u32 = 0;

/// Compare two byte strings.
fn bytes_eq(a: &[u8], b: &[u8]) -> (r: bool)
    ensures
        r <==> a@ == b@,
{
    let n = a.len();
    if n != b.len() {
        proof {
            assert(a@ != b@) by {
                if a@ == b@ {
                    assert(a@.len() == b@.len());
                }
            }
        }
        return false;
    }
    let mut i: usize = 0;
    while i < n
        invariant
            n == a@.len() && n == b@.len(),
            i <= n,
            forall|j: int| 0 <= j < i ==> a@[j] == b@[j],
        decreases n - i,
    {
        if a[i] != b[i] {
            proof {
                assert(a@ != b@) by {
                    if a@ == b@ {
                        assert(a@[i as int] == b@[i as int]);
                    }
                }
            }
            return false;
        }
        i = i + 1;
    }
    proof {
        assert(a@ =~= b@);
    }
    true
}

/// A process-wide cache assigning each identifier string a small nonzero
/// integer, in first-come order: the identifier mapped first gets 1, the
/// next new one 2, and so on.  Mapping the same string again returns the
/// same integer.
pub struct IdentifierCache {
    uris: Vec<Vec<u8>>,
}

impl IdentifierCache {
    #[verifier::type_invariant]
    closed spec fn wf(&self) -> bool {
        &&& self.uris@.len() <= u32::MAX
        &&& forall|i: int, j: int|
            0 <= i < j < self.uris@.len() ==> self.uris@[i]@ != self.uris@[j]@
    }

    /// The identifier strings mapped so far, in assignment order: the
    /// integer for `self.mapped()[i]` is `i + 1`.
    pub closed spec fn mapped(&self) -> Seq<Seq<u8>> {
        self.uris@.map_values(|u: Vec<u8>| u@)
    }

    /// Create an empty cache.
    pub fn new() -> (r: Self)
        ensures
            r.mapped() == Seq::<Seq<u8>>::empty(),
    {
        let r = IdentifierCache { uris: Vec::new() };
        proof {
            assert(r.mapped() =~= Seq::<Seq<u8>>::empty());
        }
        r
    }

    /// Map an identifier string to its integer, assigning the next free
    /// integer on first sight.
    ///
    /// The mapping is stable: a string already mapped gets its old integer
    /// back and the cache does not change.  The invalid identifier comes
    /// back only when every 32-bit integer is taken.
    pub fn map_uri(&mut self, uri: &[u8]) -> (id: u32)
        ensures
            old(self).mapped().contains(uri@) ==> final(self).mapped() == old(self).mapped() && id
                != INVALID_ID,
            !old(self).mapped().contains(uri@) && old(self).mapped().len() < u32::MAX ==> final(self).mapped() == old(self).mapped().push(uri@) && id == old(self).mapped().len() + 1,
            !old(self).mapped().contains(uri@) && old(self).mapped().len() >= u32::MAX ==> final(self).mapped() == old(self).mapped() && id == INVALID_ID,
            id != INVALID_ID ==> 0 < id <= final(self).mapped().len() && final(self).mapped()[id
                - 1] == uri@,
            // no identifier string carries two integers
            forall|i: int, j: int|
                0 <= i < j < final(self).mapped().len() ==> final(self).mapped()[i] != final(self).mapped()[j],
    {
        proof {
            use_type_invariant(&*self);
        }
        let n = self.uris.len();
        let mut i: usize = 0;
        while i < n
            invariant
                n == self.uris@.len(),
                n <= u32::MAX,
                i <= n,
                forall|j: int| 0 <= j < i ==> self.uris@[j]@ != uri@,
            decreases n - i,
        {
            if bytes_eq(self.uris[i].as_slice(), uri) {
                proof {
                    use_type_invariant(&*self);
                    assert(self.mapped().contains(uri@)) by {
                        assert(self.mapped()[i as int] == uri@);
                    }
                    assert forall|p: int, q: int|
                        0 <= p < q < self.mapped().len() implies self.mapped()[p]
                        != self.mapped()[q] by {
                        assert(self.uris@[p]@ != self.uris@[q]@);
                    }
                }
                return (i as u32) + 1;
            }
            i = i + 1;
        }
        proof {
            assert(!self.mapped().contains(uri@)) by {
                if self.mapped().contains(uri@) {
                    let j = choose|j: int|
                        0 <= j < self.mapped().len() && self.mapped()[j] == uri@;
                    assert(self.uris@[j]@ == uri@);
                }
            }
        }
        if n >= (u32::MAX as usize) {
            proof {
                assert forall|p: int, q: int|
                    0 <= p < q < self.mapped().len() implies self.mapped()[p]
                    != self.mapped()[q] by {
                    assert(self.uris@[p]@ != self.uris@[q]@);
                }
            }
            return INVALID_ID;
        }
        let owned = vstd::slice::slice_to_vec(uri);
        let mut uris: Vec<Vec<u8>> = Vec::new();
        core::mem::swap(&mut uris, &mut self.uris);
        uris.push(owned);
        self.uris = uris;
        proof {
            assert(self.mapped() =~= old(self).mapped().push(uri@));
            assert forall|p: int, q: int|
                0 <= p < q < self.mapped().len() implies self.mapped()[p] != self.mapped()[q] by {
                assert(self.uris@[p]@ != self.uris@[q]@);
            }
        }
        (n as u32) + 1
    }

    /// Map an integer back to its identifier string, or nothing for the
    /// invalid identifier and for integers never assigned.
    pub fn unmap(&self, id: u32) -> (r: Option<Vec<u8>>)
        ensures
            match r {
                Some(u) => 0 < id <= self.mapped().len() && u@ == self.mapped()[id - 1],
                None => id == INVALID_ID || id > self.mapped().len(),
            },
    {
        if id == INVALID_ID {
            return None;
        }
        let idx = (id - 1) as usize;
        if idx >= self.uris.len() {
            return None;
        }
        Some(vstd::slice::slice_to_vec(self.uris[idx].as_slice()))
    }
}

} // verus!
