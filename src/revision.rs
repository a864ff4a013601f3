use vstd::prelude::*;

verus! {

/// Content-derived identifier of a tree or a blob, held as its raw bytes.
/// Equality of identifiers is the only signal used to decide "unchanged".
#[derive(Clone, Debug)]
pub struct RevisionId {
    pub bytes: Vec<u8>,
}

impl View for RevisionId {
    type V = Seq<u8>;

    open spec fn view(&self) -> Seq<u8> {
        self.bytes@
    }
}

/// Whether two byte strings are equal.
pub fn bytes_equal(a: &Vec<u8>, b: &Vec<u8>) -> (r: bool)
    ensures
        r == (a@ == b@),
{
    let n = a.len();
    if n != b.len() {
        return false;
    }
    let mut i: usize = 0;
    while i < n
        invariant
            n == a@.len(),
            n == b@.len(),
            0 <= i <= n,
            forall|j: int| 0 <= j < i ==> a@[j] == b@[j],
        decreases n - i,
    {
        if a[i] != b[i] {
            return false;
        }
        i = i + 1;
    }
    assert(a@ =~= b@);
    true
}

impl RevisionId {
    pub fn from_bytes(bytes: Vec<u8>) -> (r: RevisionId)
        ensures
            r@ == bytes@,
    {
        RevisionId { bytes }
    }

    /// Byte-wise equality of two identifiers.
    pub fn same_as(&self, other: &RevisionId) -> (r: bool)
        ensures
            r == (self@ == other@),
    {
        bytes_equal(&self.bytes, &other.bytes)
    }

    pub fn copy(&self) -> (r: RevisionId)
        ensures
            r@ == self@,
    {
        RevisionId { bytes: self.bytes.clone() }
    }
}

} // verus!
