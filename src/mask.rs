//! Per-byte overlays of unstable (weak) or destroyed (hole) bits.

use vstd::prelude::*;
use vstd::slice::slice_to_vec;

verus! {

/// Whether some byte of `s` has a bit set.
pub open spec fn any_nonzero(s: Seq<u8>) -> bool {
    exists|i: int| 0 <= i < s.len() && #[trigger] s[i] != 0
}

/// The bytes of `a` or-ed with those of `b`, position by position.
pub open spec fn or_bytes(a: Seq<u8>, b: Seq<u8>) -> Seq<u8> {
    Seq::new(a.len(), |i: int| a[i] | b[i])
}

/// A byte mask laid over a sector's data: each set bit marks that bit of the
/// data as weak, or as a hole.
pub struct MetaMask {
    has_bits: bool,
    mask: Vec<u8>,
}

impl View for MetaMask {
    type V = Seq<u8>;

    closed spec fn view(&self) -> Seq<u8> {
        self.mask@
    }
}

/// Whether some byte of `v` has a bit set, by a scan from the front.
fn scan_nonzero(v: &Vec<u8>) -> (r: bool)
    ensures
        r == any_nonzero(v@),
{
    let mut i: usize = 0;
    while i < v.len()
        invariant
            i <= v@.len(),
            forall|j: int| 0 <= j < i ==> v@[j] == 0,
        decreases v@.len() - i,
    {
        if v[i] != 0 {
            return true;
        }
        i = i + 1;
    }
    false
}

impl MetaMask {
    /// The cached flag agrees with the bytes.
    pub closed spec fn wf(&self) -> bool {
        self.has_bits == any_nonzero(self.mask@)
    }

    /// A mask of `len` zero bytes.
    pub fn empty(len: usize) -> (r: MetaMask)
        ensures
            r.wf(),
            r@ == Seq::new(len as nat, |i: int| 0u8),
            !r.has_bits_spec(),
    {
        let r = MetaMask { has_bits: false, mask: vec![0; len] };
        assert(r.mask@ =~= Seq::new(len as nat, |i: int| 0u8));
        r
    }

    /// A mask holding a copy of `mask`.
    pub fn from(mask: &[u8]) -> (r: MetaMask)
        ensures
            r.wf(),
            r@ == mask@,
    {
        let mut m = MetaMask { has_bits: false, mask: Vec::new() };
        m.set_mask(mask);
        m
    }

    /// Replaces the bytes of the mask by a copy of `mask`.
    pub fn set_mask(&mut self, mask: &[u8])
        ensures
            final(self).wf(),
            final(self)@ == mask@,
    {
        self.mask = slice_to_vec(mask);
        self.has_bits = scan_nonzero(&self.mask);
    }

    /// Ors the bytes of another mask of the same length into this one.
    pub fn or_mask(&mut self, source_mask: &MetaMask)
        requires
            source_mask@.len() == old(self)@.len(),
        ensures
            final(self).wf(),
            final(self)@ == or_bytes(old(self)@, source_mask@),
    {
        self.or_slice(source_mask.mask.as_slice());
    }

    /// Ors a byte slice of the same length into the mask.
    pub fn or_slice(&mut self, source_mask: &[u8])
        requires
            source_mask@.len() == old(self)@.len(),
        ensures
            final(self).wf(),
            final(self)@ == or_bytes(old(self)@, source_mask@),
    {
        let ghost start = self.mask@;
        let mut i: usize = 0;
        while i < source_mask.len()
            invariant
                i <= source_mask@.len(),
                source_mask@.len() == start.len(),
                self.mask@.len() == start.len(),
                forall|j: int| 0 <= j < i ==> self.mask@[j] == start[j] | source_mask@[j],
                forall|j: int| i <= j < start.len() ==> self.mask@[j] == start[j],
            decreases source_mask@.len() - i,
        {
            let m = self.mask[i] | source_mask[i];
            self.mask.set(i, m);
            i = i + 1;
        }
        assert(self.mask@ =~= or_bytes(start, source_mask@));
        self.has_bits = scan_nonzero(&self.mask);
    }

    /// Sets every byte of the mask to zero.
    pub fn clear(&mut self)
        ensures
            final(self).wf(),
            final(self)@ == Seq::new(old(self)@.len(), |i: int| 0u8),
            !final(self).has_bits_spec(),
    {
        let mut i: usize = 0;
        while i < self.mask.len()
            invariant
                i <= self.mask@.len(),
                self.mask@.len() == old(self).mask@.len(),
                forall|j: int| 0 <= j < i ==> self.mask@[j] == 0,
            decreases self.mask@.len() - i,
        {
            self.mask.set(i, 0);
            i = i + 1;
        }
        assert(self.mask@ =~= Seq::new(old(self)@.len(), |i: int| 0u8));
        self.has_bits = false;
    }

    /// The mask's bytes.
    pub fn mask(&self) -> (r: &[u8])
        ensures
            r@ == self@,
    {
        self.mask.as_slice()
    }

    /// Whether some bit of the mask is set.
    pub open spec fn has_bits_spec(&self) -> bool {
        any_nonzero(self@)
    }

    /// Whether some bit of the mask is set.
    pub fn has_bits(&self) -> (r: bool)
        requires
            self.wf(),
        ensures
            r == self.has_bits_spec(),
    {
        self.has_bits
    }

    /// An iterator over the mask's bytes.
    pub fn iter(&self) -> (r: std::slice::Iter<'_, u8>)
        ensures
            vstd::std_specs::iter::IteratorSpec::remaining(&r) == self@.as_ref(),
    {
        broadcast use vstd::std_specs::slice::axiom_spec_slice_iter;

        self.mask.as_slice().iter()
    }

    /// The number of bytes in the mask.
    pub fn len(&self) -> (r: usize)
        ensures
            r == self@.len(),
    {
        self.mask.len()
    }
}

} // verus!
