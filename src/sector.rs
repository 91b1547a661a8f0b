//! A single sector record: its ID, status flags, data and bit masks.

use vstd::prelude::*;

use crate::chs::{sector_size, DiskChsn};
use crate::mask::{any_nonzero, MetaMask};

verus! {

/// Relies on rand::random: it returns a value of the requested type drawn from
/// the thread-local generator. Nothing is promised of the value.
pub assume_specification<T>[ rand::random::<T> ]() -> (r: T)
    where
        rand::distributions::Standard: rand::distributions::Distribution<T>,
;

/// A sector as a format parser hands it over.
pub struct SectorDescriptor {
    pub id_chsn: DiskChsn,
    pub address_crc_error: bool,
    pub data_crc_error: bool,
    pub deleted_mark: bool,
    pub missing_data: bool,
    pub data: Vec<u8>,
    pub weak_mask: Option<Vec<u8>>,
    pub hole_mask: Option<Vec<u8>>,
}

/// The mask a descriptor gives, or zeros where it gives none.
pub open spec fn mask_or_zeros(m: Option<Vec<u8>>, len: nat) -> Seq<u8> {
    match m {
        Some(v) => v@,
        None => Seq::new(len, |i: int| 0u8),
    }
}

impl SectorDescriptor {
    /// The data is as long as the size code says, and each mask given is as
    /// long as the data.
    pub open spec fn valid(&self) -> bool {
        &&& self.data@.len() == sector_size(self.id_chsn.n as nat)
        &&& (self.weak_mask matches Some(w) ==> w@.len() == self.data@.len())
        &&& (self.hole_mask matches Some(h) ==> h@.len() == self.data@.len())
    }

    /// The sector that this descriptor describes.
    pub open spec fn sector_view(&self) -> SectorView {
        SectorView {
            id: self.id_chsn,
            address_crc_error: self.address_crc_error,
            data_crc_error: self.data_crc_error,
            deleted_mark: self.deleted_mark,
            missing_data: self.missing_data,
            data: self.data@,
            weak: mask_or_zeros(self.weak_mask, self.data@.len()),
            hole: mask_or_zeros(self.hole_mask, self.data@.len()),
        }
    }
}

/// The mathematical model of a sector.
pub ghost struct SectorView {
    pub id: DiskChsn,
    pub address_crc_error: bool,
    pub data_crc_error: bool,
    pub deleted_mark: bool,
    pub missing_data: bool,
    pub data: Seq<u8>,
    pub weak: Seq<u8>,
    pub hole: Seq<u8>,
}

impl SectorView {
    /// Data and both masks are as long as the size code says.
    pub open spec fn wf(self) -> bool {
        &&& self.data.len() == sector_size(self.id.n as nat)
        &&& self.weak.len() == self.data.len()
        &&& self.hole.len() == self.data.len()
    }

    /// The weak and hole bits of byte `i`, merged.
    pub open spec fn mask_at(self, i: int) -> u8 {
        self.weak[i] | self.hole[i]
    }

    /// Whether any weak or hole bit is set.
    pub open spec fn has_mask_bits(self) -> bool {
        any_nonzero(self.weak) || any_nonzero(self.hole)
    }

    /// What a read shows when the masked bits take the values of `noise`.
    pub open spec fn effective(self, noise: Seq<u8>) -> Seq<u8> {
        if self.missing_data {
            Seq::empty()
        } else {
            Seq::new(
                self.data.len(),
                |i: int| (self.data[i] & !self.mask_at(i)) | (noise[i] & self.mask_at(i)),
            )
        }
    }

    /// `r` is a possible result of reading the sector: empty without a data
    /// mark, else the data with only masked bits free to differ.
    pub open spec fn reads_as(self, r: Seq<u8>) -> bool {
        if self.missing_data {
            r.len() == 0
        } else {
            &&& r.len() == self.data.len()
            &&& forall|i: int|
                0 <= i < r.len() ==> #[trigger] r[i] & !self.mask_at(i) == self.data[i]
                    & !self.mask_at(i)
        }
    }
}

proof fn lemma_mix_keeps_unmasked(d: u8, n: u8, m: u8)
    ensures
        ((d & !m) | (n & m)) & !m == d & !m,
{
    assert(((d & !m) | (n & m)) & !m == d & !m) by (bit_vector);
}

/// A sector record of a track.
pub struct MetaSector {
    id_chsn: DiskChsn,
    address_crc_error: bool,
    data_crc_error: bool,
    deleted_mark: bool,
    missing_data: bool,
    data: Vec<u8>,
    weak_mask: MetaMask,
    hole_mask: MetaMask,
}

impl View for MetaSector {
    type V = SectorView;

    closed spec fn view(&self) -> SectorView {
        SectorView {
            id: self.id_chsn,
            address_crc_error: self.address_crc_error,
            data_crc_error: self.data_crc_error,
            deleted_mark: self.deleted_mark,
            missing_data: self.missing_data,
            data: self.data@,
            weak: self.weak_mask@,
            hole: self.hole_mask@,
        }
    }
}

impl MetaSector {
    /// The masks' cached flags agree with their bytes.
    pub closed spec fn masks_wf(&self) -> bool {
        self.weak_mask.wf() && self.hole_mask.wf()
    }

    pub open spec fn wf(&self) -> bool {
        self.masks_wf() && self@.wf()
    }

    /// A sector built from its parts.
    pub(crate) fn from_parts(
        id_chsn: DiskChsn,
        address_crc_error: bool,
        data_crc_error: bool,
        deleted_mark: bool,
        missing_data: bool,
        data: Vec<u8>,
        weak_mask: MetaMask,
        hole_mask: MetaMask,
    ) -> (r: MetaSector)
        requires
            weak_mask.wf(),
            hole_mask.wf(),
        ensures
            r.masks_wf(),
            r@ == (SectorView {
                id: id_chsn,
                address_crc_error,
                data_crc_error,
                deleted_mark,
                missing_data,
                data: data@,
                weak: weak_mask@,
                hole: hole_mask@,
            }),
    {
        MetaSector {
            id_chsn,
            address_crc_error,
            data_crc_error,
            deleted_mark,
            missing_data,
            data,
            weak_mask,
            hole_mask,
        }
    }

    pub fn id_chsn(&self) -> (r: DiskChsn)
        ensures
            r == self@.id,
    {
        self.id_chsn
    }

    pub fn address_crc_error(&self) -> (r: bool)
        ensures
            r == self@.address_crc_error,
    {
        self.address_crc_error
    }

    pub fn data_crc_error(&self) -> (r: bool)
        ensures
            r == self@.data_crc_error,
    {
        self.data_crc_error
    }

    pub fn deleted_mark(&self) -> (r: bool)
        ensures
            r == self@.deleted_mark,
    {
        self.deleted_mark
    }

    pub fn missing_data(&self) -> (r: bool)
        ensures
            r == self@.missing_data,
    {
        self.missing_data
    }

    /// The stored data, masks not applied.
    pub fn data(&self) -> (r: &[u8])
        ensures
            r@ == self@.data,
    {
        self.data.as_slice()
    }

    pub fn weak_mask(&self) -> (r: &MetaMask)
        ensures
            r@ == self@.weak,
            self.wf() ==> r.wf(),
    {
        &self.weak_mask
    }

    pub fn hole_mask(&self) -> (r: &MetaMask)
        ensures
            r@ == self@.hole,
            self.wf() ==> r.wf(),
    {
        &self.hole_mask
    }

    /// Ors `bits` into the weak mask.
    pub(crate) fn or_weak_mask(&mut self, bits: &[u8])
        requires
            old(self).wf(),
            bits@.len() == old(self)@.data.len(),
        ensures
            final(self).wf(),
            final(self)@ == (SectorView {
                weak: crate::mask::or_bytes(old(self)@.weak, bits@),
                ..old(self)@
            }),
    {
        self.weak_mask.or_slice(bits);
    }

    /// Replaces the data and the deleted mark, masks kept.
    pub(crate) fn overwrite(&mut self, data: &[u8], deleted: bool)
        requires
            old(self).wf(),
            data@.len() == old(self)@.data.len(),
        ensures
            final(self).wf(),
            final(self)@ == (SectorView { data: data@, deleted_mark: deleted, ..old(self)@ }),
    {
        let mut i: usize = 0;
        while i < data.len()
            invariant
                i <= data@.len(),
                self.data@.len() == data@.len(),
                forall|j: int| 0 <= j < i ==> self.data@[j] == data@[j],
                forall|j: int| i <= j < data@.len() ==> self.data@[j] == old(self).data@[j],
                self.weak_mask == old(self).weak_mask,
                self.hole_mask == old(self).hole_mask,
                self.id_chsn == old(self).id_chsn,
                self.address_crc_error == old(self).address_crc_error,
                self.data_crc_error == old(self).data_crc_error,
                self.deleted_mark == old(self).deleted_mark,
                self.missing_data == old(self).missing_data,
            decreases data@.len() - i,
        {
            self.data.set(i, data[i]);
            i = i + 1;
        }
        assert(self.data@ =~= data@);
        self.deleted_mark = deleted;
    }

    /// The sector as a controller would read it if every masked bit took its
    /// value from `noise`: empty without a data mark.
    pub fn read_data_with(&self, noise: &[u8]) -> (r: Vec<u8>)
        requires
            self.wf(),
            self@.missing_data || noise@.len() == self@.data.len(),
        ensures
            r@ == self@.effective(noise@),
    {
        if self.missing_data {
            return Vec::new();
        }
        let weak = self.weak_mask.mask();
        let hole = self.hole_mask.mask();
        let mut out: Vec<u8> = Vec::with_capacity(self.data.len());
        let mut i: usize = 0;
        while i < self.data.len()
            invariant
                i <= self.data@.len(),
                weak@ == self@.weak,
                hole@ == self@.hole,
                self.wf(),
                !self@.missing_data,
                noise@.len() == self@.data.len(),
                out@.len() == i,
                forall|j: int| 0 <= j < i ==> out@[j] == self@.effective(noise@)[j],
            decreases self.data@.len() - i,
        {
            let m = weak[i] | hole[i];
            out.push((self.data[i] & !m) | (noise[i] & m));
            i = i + 1;
        }
        assert(out@ =~= self@.effective(noise@));
        out
    }

    /// The sector as a controller would read it now: empty without a data
    /// mark, else the data with each weak or hole bit replaced by a random one.
    pub fn read_data(&self) -> (r: Vec<u8>)
        requires
            self.wf(),
        ensures
            self@.reads_as(r@),
    {
        if self.missing_data {
            return Vec::new();
        }
        let weak = self.weak_mask.mask();
        let hole = self.hole_mask.mask();
        let mut noise: Vec<u8> = Vec::with_capacity(self.data.len());
        let mut i: usize = 0;
        while i < self.data.len()
            invariant
                i <= self.data@.len(),
                weak@ == self@.weak,
                hole@ == self@.hole,
                self.wf(),
                noise@.len() == i,
            decreases self.data@.len() - i,
        {
            if weak[i] | hole[i] == 0 {
                noise.push(0);
            } else {
                noise.push(rand::random::<u8>());
            }
            i = i + 1;
        }
        let r = self.read_data_with(noise.as_slice());
        assert forall|j: int| 0 <= j < r@.len() implies #[trigger] r@[j] & !self@.mask_at(j)
            == self@.data[j] & !self@.mask_at(j) by {
            lemma_mix_keeps_unmasked(self@.data[j], noise@[j], self@.mask_at(j));
        }
        r
    }
}

} // verus!
