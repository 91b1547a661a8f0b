//! A track made of sector records in physical order, and the controller's
//! sector matching, read, scan and write operations over it.

use vstd::prelude::*;

use crate::chs::{DiskCh, DiskChs, DiskChsn};
use crate::error::DiskImageError;
use crate::mask::{any_nonzero, MetaMask};
use crate::model::{
    added, any_address_crc_error, any_bad_cylinder, any_data_crc_error, any_deleted_mark,
    any_wrong_cylinder, any_wrong_head, common_size, first_with_id, first_with_s, id_matches,
    lemma_matching_indices, lemma_size_codes_push, lemma_track_flags_extend,
    lemma_track_reads_as_extend, matching, matching_indices, next_id_spec, read_result_spec,
    read_track_result_spec, scan_result_spec, sectors_to_read, size_codes, track_reads_as,
    write_result_spec, written, xor_bytes,
};
use crate::sector::{MetaSector, SectorDescriptor, SectorView};

verus! {

/// How bits are laid on the track.
#[derive(Clone, Copy, Debug, PartialEq, Eq, Structural, Hash)]
pub enum DiskDataEncoding {
    Fm,
    Mfm,
    Gcr,
}

/// The rate at which the track's bits pass under the head.
#[derive(Clone, Copy, Debug, PartialEq, Eq, Structural, Hash)]
pub enum DiskDataRate {
    Rate125Kbps,
    Rate250Kbps,
    Rate300Kbps,
    Rate500Kbps,
    Rate1000Kbps,
    RateOther(u32),
}

/// Which part of a sector a read or write covers.
#[derive(Clone, Copy, Debug, PartialEq, Eq, Structural, Hash)]
pub enum RwSectorScope {
    /// The data alone.
    DataOnly,
    /// The data with its address mark and CRC.
    DataBlock,
}

/// The address-mark layout family that a format request follows.
#[derive(Clone, Copy, Debug, PartialEq, Eq, Structural, Hash)]
pub enum System34Standard {
    Ibm,
    Perpendicular,
    Iso,
}

/// A summary of a track.
#[derive(Clone, Copy, Debug, PartialEq, Eq, Structural)]
pub struct TrackInfo {
    pub encoding: DiskDataEncoding,
    pub data_rate: DiskDataRate,
    pub bit_length: usize,
    pub sector_ct: usize,
}

/// One line of a track's sector list.
#[derive(Clone, Copy, Debug, PartialEq, Eq, Structural)]
pub struct SectorMapEntry {
    pub chsn: DiskChsn,
    pub address_crc_valid: bool,
    pub data_crc_valid: bool,
    pub deleted_mark: bool,
    pub no_dam: bool,
}

/// Track-wide properties gathered in one pass over the sectors.
#[derive(Clone, Copy, Debug, PartialEq, Eq, Structural)]
pub struct TrackConsistency {
    pub sector_ct: usize,
    pub nonconsecutive_sectors: bool,
    pub bad_data_crc: bool,
    pub bad_address_crc: bool,
    pub deleted_data: bool,
    pub consistent_sector_size: Option<u8>,
}

/// What a sector read returns.
pub struct ReadSectorResult {
    pub id_chsn: Option<DiskChsn>,
    pub data_idx: usize,
    pub data_len: usize,
    pub read_buf: Vec<u8>,
    pub deleted_mark: bool,
    pub not_found: bool,
    pub no_dam: bool,
    pub address_crc_error: bool,
    pub data_crc_error: bool,
    pub wrong_cylinder: bool,
    pub bad_cylinder: bool,
    pub wrong_head: bool,
}

impl ReadSectorResult {
    /// The sector's bytes within the read buffer: `data_len` bytes from
    /// `data_idx`, cut at the end of the buffer (a sector without a data mark
    /// reads as nothing).
    pub fn data(&self) -> (r: &[u8])
        ensures
            ({
                let len = self.read_buf@.len();
                let start = if self.data_idx <= len {
                    self.data_idx as int
                } else {
                    len as int
                };
                let end = if self.data_len <= len - start {
                    start + self.data_len
                } else {
                    len as int
                };
                r@ == self.read_buf@.subrange(start, end)
            }),
    {
        let len = self.read_buf.len();
        let start = if self.data_idx <= len {
            self.data_idx
        } else {
            len
        };
        let end = if self.data_len <= len - start {
            start + self.data_len
        } else {
            len
        };
        vstd::slice::slice_subrange(self.read_buf.as_slice(), start, end)
    }
}

/// What a sector scan returns: the status of a read, without the data.
#[derive(Clone, Copy, Debug, PartialEq, Eq, Structural)]
pub struct ScanSectorResult {
    pub not_found: bool,
    pub no_dam: bool,
    pub deleted_mark: bool,
    pub address_crc_error: bool,
    pub data_crc_error: bool,
    pub wrong_cylinder: bool,
    pub bad_cylinder: bool,
    pub wrong_head: bool,
}

/// What a sector write returns.
#[derive(Clone, Copy, Debug, PartialEq, Eq, Structural)]
pub struct WriteSectorResult {
    pub not_found: bool,
    pub no_dam: bool,
    pub address_crc_error: bool,
    pub wrong_cylinder: bool,
    pub bad_cylinder: bool,
    pub wrong_head: bool,
}

/// What a read of a whole track returns.
pub struct ReadTrackResult {
    pub not_found: bool,
    pub sectors_read: u16,
    pub read_buf: Vec<u8>,
    pub deleted_mark: bool,
    pub address_crc_error: bool,
    pub data_crc_error: bool,
    pub read_len_bits: usize,
    pub read_len_bytes: usize,
}

/// The sectors of a track that answer a request, borrowed from the track,
/// with what was seen on the way.
pub struct SectorMatch<'a> {
    pub sectors: Vec<&'a MetaSector>,
    pub sizes: Vec<u8>,
    pub wrong_cylinder: bool,
    pub bad_cylinder: bool,
    pub wrong_head: bool,
}

impl<'a> SectorMatch<'a> {
    pub fn len(&self) -> (r: usize)
        ensures
            r == self.sectors@.len(),
    {
        self.sectors.len()
    }

    pub fn iter(&self) -> (r: std::slice::Iter<'_, &'a MetaSector>)
        ensures
            vstd::std_specs::iter::IteratorSpec::remaining(&r) == self.sectors@.as_ref(),
    {
        broadcast use vstd::std_specs::slice::axiom_spec_slice_iter;

        self.sectors.as_slice().iter()
    }
}

/// The positions of the sectors of a track that answer a request, for callers
/// that go on to change them, with what was seen on the way.
pub struct SectorMatchMut {
    pub sectors: Vec<usize>,
    pub sizes: Vec<u8>,
    pub wrong_cylinder: bool,
    pub bad_cylinder: bool,
    pub wrong_head: bool,
}

impl SectorMatchMut {
    pub fn len(&self) -> (r: usize)
        ensures
            r == self.sectors@.len(),
    {
        self.sectors.len()
    }

    /// The positions of the matching sectors, in physical order.
    pub fn iter(&self) -> (r: std::slice::Iter<'_, usize>)
        ensures
            vstd::std_specs::iter::IteratorSpec::remaining(&r) == self.sectors@.as_ref(),
    {
        broadcast use vstd::std_specs::slice::axiom_spec_slice_iter;

        self.sectors.as_slice().iter()
    }
}

/// Whether `x` occurs in `v`.
fn contains_byte(v: &Vec<u8>, x: u8) -> (r: bool)
    ensures
        r == v@.contains(x),
{
    let mut i: usize = 0;
    while i < v.len()
        invariant
            i <= v@.len(),
            forall|j: int| 0 <= j < i ==> v@[j] != x,
        decreases v@.len() - i,
    {
        if v[i] == x {
            return true;
        }
        i = i + 1;
    }
    false
}

/// The SHA-1 digest of a byte sequence.
pub uninterp spec fn sha1_of(data: Seq<u8>) -> Seq<u8>;

/// Relies on sha1_smol::Sha1::from, Sha1::digest and Digest::bytes: the SHA-1
/// digest of `data`, which depends on the bytes alone.
#[verifier::external_body]
fn sha1_digest(data: &[u8]) -> (r: [u8; 20])
    ensures
        r@ == sha1_of(data@),
{
    sha1_smol::Sha1::from(data).digest().bytes()
}

/// A track of sector records in physical order.
pub struct MetaSectorTrack {
    ch: DiskCh,
    encoding: DiskDataEncoding,
    data_rate: DiskDataRate,
    sectors: Vec<MetaSector>,
}

impl MetaSectorTrack {
    /// The track's sectors, in physical order.
    pub closed spec fn sector_views(&self) -> Seq<SectorView> {
        self.sectors@.map_values(|s: MetaSector| s@)
    }

    /// The masks of every sector keep their cached flags.
    pub closed spec fn masks_wf(&self) -> bool {
        forall|i: int| 0 <= i < self.sectors@.len() ==> (#[trigger] self.sectors@[i]).masks_wf()
    }

    pub open spec fn wf(&self) -> bool {
        &&& self.masks_wf()
        &&& forall|i: int| 0 <= i < self.sector_views().len() ==> (#[trigger] self.sector_views()[i]).wf()
    }

    pub closed spec fn ch_spec(&self) -> DiskCh {
        self.ch
    }

    pub closed spec fn encoding_spec(&self) -> DiskDataEncoding {
        self.encoding
    }

    pub closed spec fn data_rate_spec(&self) -> DiskDataRate {
        self.data_rate
    }

    proof fn lemma_sector_wf(&self, i: int)
        requires
            self.wf(),
            0 <= i < self.sectors@.len(),
        ensures
            self.sectors@[i].wf(),
            self.sectors@[i]@ == self.sector_views()[i],
            self.sector_views().len() == self.sectors@.len(),
    {
        assert(self.sector_views()[i] == self.sectors@[i]@);
    }

    /// An empty track at `ch`.
    pub fn new(ch: DiskCh, encoding: DiskDataEncoding, data_rate: DiskDataRate) -> (r: MetaSectorTrack)
        ensures
            r.wf(),
            r.ch_spec() == ch,
            r.encoding_spec() == encoding,
            r.data_rate_spec() == data_rate,
            r.sector_views() == Seq::<SectorView>::empty(),
    {
        let r = MetaSectorTrack { ch, encoding, data_rate, sectors: Vec::new() };
        assert(r.sector_views() =~= Seq::<SectorView>::empty());
        r
    }

    /// The positions of the sectors that answer a request for `chs` with
    /// optional size code `n`, the size codes among them, and whether any
    /// sector of the track claims another cylinder, the bad cylinder 0xFF, or
    /// another head.
    pub fn match_sectors_mut(&self, chs: DiskChs, n: Option<u8>, debug: bool) -> (r: SectorMatchMut)
        requires
            self.wf(),
        ensures
            r.sectors@.len() == matching_indices(self.sector_views(), chs, n, debug).len(),
            forall|k: int|
                0 <= k < r.sectors@.len() ==> r.sectors@[k] as int == #[trigger] matching_indices(
                    self.sector_views(),
                    chs,
                    n,
                    debug,
                )[k],
            r.sizes@.no_duplicates(),
            forall|x: u8|
                r.sizes@.contains(x) <==> #[trigger] size_codes(
                    matching(self.sector_views(), chs, n, debug),
                ).contains(x),
            r.wrong_cylinder == any_wrong_cylinder(self.sector_views(), chs.c),
            r.bad_cylinder == any_bad_cylinder(self.sector_views()),
            r.wrong_head == any_wrong_head(self.sector_views(), chs.h),
    {
        let ghost secs = self.sector_views();
        let mut wrong_cylinder = false;
        let mut bad_cylinder = false;
        let mut wrong_head = false;
        let mut positions: Vec<usize> = Vec::new();
        let mut sizes: Vec<u8> = Vec::new();
        let mut i: usize = 0;
        while i < self.sectors.len()
            invariant
                self.wf(),
                secs == self.sector_views(),
                secs.len() == self.sectors@.len(),
                i <= secs.len(),
                positions@.len() == matching_indices(secs.subrange(0, i as int), chs, n, debug).len(),
                forall|k: int|
                    0 <= k < positions@.len() ==> positions@[k] as int
                        == #[trigger] matching_indices(secs.subrange(0, i as int), chs, n, debug)[k],
                sizes@.no_duplicates(),
                forall|x: u8|
                    #[trigger] sizes@.contains(x) <==> size_codes(
                        matching(secs.subrange(0, i as int), chs, n, debug),
                    ).contains(x),
                wrong_cylinder == any_wrong_cylinder(secs.subrange(0, i as int), chs.c),
                bad_cylinder == any_bad_cylinder(secs.subrange(0, i as int)),
                wrong_head == any_wrong_head(secs.subrange(0, i as int), chs.h),
            decreases secs.len() - i,
        {
            let ghost pre = secs.subrange(0, i as int);
            let ghost post = secs.subrange(0, i + 1);
            assert(post.drop_last() =~= pre);
            assert(post.last() == secs[i as int]);
            proof {
                self.lemma_sector_wf(i as int);
            }
            let id = self.sectors[i].id_chsn();
            if id.c != chs.c {
                wrong_cylinder = true;
            }
            if id.c == 0xFF {
                bad_cylinder = true;
            }
            if id.h != chs.h {
                wrong_head = true;
            }
            let matched = (debug && id.s == chs.s) || (id.c == chs.c && id.h == chs.h && id.s
                == chs.s && (n.is_none() || Some(id.n) == n));
            assert(matched == id_matches(id, chs, n, debug));
            proof {
                lemma_matching_indices(pre, chs, n, debug);
                lemma_matching_indices(post, chs, n, debug);
                let mpre = matching(pre, chs, n, debug);
                let mpost = matching(post, chs, n, debug);
                if matched {
                    assert(mpost =~= mpre.push(secs[i as int]));
                    lemma_size_codes_push(mpre, secs[i as int]);
                } else {
                    assert(mpost =~= mpre);
                }
            }
            if matched {
                positions.push(i);
                let ghost before = sizes@;
                if !contains_byte(&sizes, id.n) {
                    sizes.push(id.n);
                    assert forall|x: u8| #[trigger] sizes@.contains(x) <==> (before.contains(x) || x == id.n) by {
                        if before.contains(x) {
                            let k = choose|k: int| 0 <= k < before.len() && before[k] == x;
                            assert(sizes@[k] == x);
                        }
                        if x == id.n {
                            assert(sizes@[before.len() as int] == x);
                        }
                    }
                }
            }
            assert(wrong_cylinder == any_wrong_cylinder(post, chs.c)) by {
                if any_wrong_cylinder(pre, chs.c) {
                    let j = choose|j: int| 0 <= j < pre.len() && #[trigger] pre[j].id.c != chs.c;
                    assert(post[j] == pre[j]);
                }
                if any_wrong_cylinder(post, chs.c) {
                    let j = choose|j: int| 0 <= j < post.len() && #[trigger] post[j].id.c != chs.c;
                    if j < pre.len() {
                        assert(post[j] == pre[j]);
                    }
                }
            }
            assert(bad_cylinder == any_bad_cylinder(post)) by {
                if any_bad_cylinder(pre) {
                    let j = choose|j: int| 0 <= j < pre.len() && #[trigger] pre[j].id.c == 0xFF;
                    assert(post[j] == pre[j]);
                }
                if any_bad_cylinder(post) {
                    let j = choose|j: int| 0 <= j < post.len() && #[trigger] post[j].id.c == 0xFF;
                    if j < pre.len() {
                        assert(post[j] == pre[j]);
                    }
                }
            }
            assert(wrong_head == any_wrong_head(post, chs.h)) by {
                if any_wrong_head(pre, chs.h) {
                    let j = choose|j: int| 0 <= j < pre.len() && #[trigger] pre[j].id.h != chs.h;
                    assert(post[j] == pre[j]);
                }
                if any_wrong_head(post, chs.h) {
                    let j = choose|j: int| 0 <= j < post.len() && #[trigger] post[j].id.h != chs.h;
                    if j < pre.len() {
                        assert(post[j] == pre[j]);
                    }
                }
            }
            i = i + 1;
        }
        assert(secs.subrange(0, secs.len() as int) =~= secs);
        SectorMatchMut { sectors: positions, sizes, wrong_cylinder, bad_cylinder, wrong_head }
    }

    /// The sectors that answer a request for `chs` with optional size code
    /// `n`, borrowed in physical order, with what `match_sectors_mut` reports.
    pub fn match_sectors(&self, chs: DiskChs, n: Option<u8>, debug: bool) -> (r: SectorMatch<'_>)
        requires
            self.wf(),
        ensures
            r.sectors@.len() == matching(self.sector_views(), chs, n, debug).len(),
            forall|k: int|
                0 <= k < r.sectors@.len() ==> (#[trigger] r.sectors@[k])@ == matching(
                    self.sector_views(),
                    chs,
                    n,
                    debug,
                )[k] && r.sectors@[k].wf(),
            r.sizes@.no_duplicates(),
            forall|x: u8|
                r.sizes@.contains(x) <==> #[trigger] size_codes(
                    matching(self.sector_views(), chs, n, debug),
                ).contains(x),
            r.wrong_cylinder == any_wrong_cylinder(self.sector_views(), chs.c),
            r.bad_cylinder == any_bad_cylinder(self.sector_views()),
            r.wrong_head == any_wrong_head(self.sector_views(), chs.h),
    {
        let ghost m = matching(self.sector_views(), chs, n, debug);
        let sm = self.match_sectors_mut(chs, n, debug);
        proof {
            lemma_matching_indices(self.sector_views(), chs, n, debug);
        }
        let mut sectors: Vec<&MetaSector> = Vec::with_capacity(sm.sectors.len());
        let mut k: usize = 0;
        while k < sm.sectors.len()
            invariant
                self.wf(),
                k <= sm.sectors@.len(),
                sm.sectors@.len() == m.len(),
                m == matching(self.sector_views(), chs, n, debug),
                forall|q: int|
                    0 <= q < sm.sectors@.len() ==> sm.sectors@[q] as int == #[trigger] matching_indices(
                        self.sector_views(),
                        chs,
                        n,
                        debug,
                    )[q],
                forall|q: int|
                    0 <= q < m.len() ==> 0 <= #[trigger] matching_indices(
                        self.sector_views(),
                        chs,
                        n,
                        debug,
                    )[q] < self.sector_views().len(),
                sectors@.len() == k,
                forall|q: int| 0 <= q < k ==> (#[trigger] sectors@[q])@ == m[q] && sectors@[q].wf(),
            decreases sm.sectors@.len() - k,
        {
            let j = sm.sectors[k];
            proof {
                assert(matching_indices(self.sector_views(), chs, n, debug)[k as int] == j as int);
                self.lemma_sector_wf(j as int);
            }
            sectors.push(&self.sectors[j]);
            k = k + 1;
        }
        SectorMatch {
            sectors,
            sizes: sm.sizes,
            wrong_cylinder: sm.wrong_cylinder,
            bad_cylinder: sm.bad_cylinder,
            wrong_head: sm.wrong_head,
        }
    }

    /// Reads the first sector, in physical order, that answers `chs` / `n`,
    /// with its masks applied. Only the data-only scope is offered.
    pub fn read_sector(&mut self, chs: DiskChs, n: Option<u8>, scope: RwSectorScope, debug: bool) -> (r:
        Result<ReadSectorResult, DiskImageError>)
        requires
            old(self).wf(),
        ensures
            *final(self) == *old(self),
            scope == RwSectorScope::DataBlock ==> r == Err::<ReadSectorResult, DiskImageError>(
                DiskImageError::ParameterError,
            ),
            scope == RwSectorScope::DataOnly ==> r is Ok && read_result_spec(
                old(self).sector_views(),
                chs,
                n,
                debug,
                r->Ok_0,
            ),
    {
        match scope {
            RwSectorScope::DataBlock => {
                return Err(DiskImageError::ParameterError);
            },
            RwSectorScope::DataOnly => {},
        }
        let sm = self.match_sectors(chs, n, debug);
        proof {
            lemma_matching_indices(self.sector_views(), chs, n, debug);
        }
        if sm.len() == 0 {
            Ok(
                ReadSectorResult {
                    id_chsn: None,
                    data_idx: 0,
                    data_len: 0,
                    read_buf: Vec::new(),
                    deleted_mark: false,
                    not_found: true,
                    no_dam: false,
                    address_crc_error: false,
                    data_crc_error: false,
                    wrong_cylinder: sm.wrong_cylinder,
                    bad_cylinder: sm.bad_cylinder,
                    wrong_head: sm.wrong_head,
                },
            )
        } else {
            let s = sm.sectors[0];
            Ok(
                ReadSectorResult {
                    id_chsn: Some(s.id_chsn()),
                    data_idx: 0,
                    data_len: s.data().len(),
                    read_buf: s.read_data(),
                    deleted_mark: s.deleted_mark(),
                    not_found: false,
                    no_dam: s.missing_data(),
                    address_crc_error: s.address_crc_error(),
                    data_crc_error: s.data_crc_error(),
                    wrong_cylinder: sm.wrong_cylinder,
                    bad_cylinder: sm.bad_cylinder,
                    wrong_head: sm.wrong_head,
                },
            )
        }
    }

    /// Adds a sector. With `alternate`, a sector with the same ID already on
    /// the track takes the bits in which the two differ as weak bits, and
    /// nothing is appended. A descriptor whose data does not have the length
    /// of its size code, or whose masks differ in length from its data, is
    /// refused.
    pub fn add_sector(&mut self, sd: &SectorDescriptor, alternate: bool) -> (r: Result<
        (),
        DiskImageError,
    >)
        requires
            old(self).wf(),
        ensures
            final(self).wf(),
            final(self).ch_spec() == old(self).ch_spec(),
            final(self).encoding_spec() == old(self).encoding_spec(),
            final(self).data_rate_spec() == old(self).data_rate_spec(),
            !sd.valid() ==> r == Err::<(), DiskImageError>(DiskImageError::ParameterError)
                && final(self).sector_views() == old(self).sector_views(),
            sd.valid() ==> r == Ok::<(), DiskImageError>(()) && final(self).sector_views() == added(
                old(self).sector_views(),
                sd.sector_view(),
                alternate,
            ),
    {
        let len = sd.data.len();
        let mut masks_ok = true;
        match &sd.weak_mask {
            Some(w) => {
                if w.len() != len {
                    masks_ok = false;
                }
            },
            None => {},
        }
        match &sd.hole_mask {
            Some(h) => {
                if h.len() != len {
                    masks_ok = false;
                }
            },
            None => {},
        }
        if !masks_ok || !DiskChsn::size_matches(sd.id_chsn.n, len) {
            return Err(DiskImageError::ParameterError);
        }
        let ghost secs = self.sector_views();
        let ghost sv = sd.sector_view();
        if alternate {
            let mut i: usize = 0;
            while i < self.sectors.len()
                invariant
                    self.wf(),
                    *self == *old(self),
                    secs == self.sector_views(),
                    secs.len() == self.sectors@.len(),
                    sd.valid(),
                    len == sd.data@.len(),
                    sv == sd.sector_view(),
                    alternate,
                    i <= secs.len(),
                    forall|j: int| 0 <= j < i ==> (#[trigger] secs[j]).id != sd.id_chsn,
                decreases secs.len() - i,
            {
                proof {
                    self.lemma_sector_wf(i as int);
                }
                if self.sectors[i].id_chsn() == sd.id_chsn {
                    let old_data = self.sectors[i].data();
                    assert(old_data@.len() == len);
                    let mut xor: Vec<u8> = Vec::with_capacity(len);
                    let mut k: usize = 0;
                    while k < len
                        invariant
                            k <= len,
                            len == sd.data@.len(),
                            old_data@ == secs[i as int].data,
                            old_data@.len() == len,
                            xor@.len() == k,
                            forall|q: int| 0 <= q < k ==> xor@[q] == old_data@[q] ^ sd.data@[q],
                        decreases len - k,
                    {
                        xor.push(old_data[k] ^ sd.data[k]);
                        k = k + 1;
                    }
                    let ghost before = self.sectors@;
                    self.sectors[i].or_weak_mask(xor.as_slice());
                    proof {
                        assert(sv.id == sd.id_chsn);
                        assert(first_with_id(secs, sv.id, i as int));
                        assert(exists|f: int| first_with_id(secs, sv.id, f));
                        let f = choose|f: int| first_with_id(secs, sv.id, f);
                        assert(f == i as int) by {
                            if f < i {
                                assert(secs[f].id != sd.id_chsn);
                            }
                            if f > i {
                                assert(secs[i as int].id != sd.id_chsn);
                            }
                        }
                        assert(xor@ =~= xor_bytes(secs[i as int].data, sv.data));
                        assert(self.sector_views() =~= added(secs, sv, alternate));
                        assert forall|q: int| 0 <= q < self.sectors@.len() implies (#[trigger] self.sectors@[q]).masks_wf() by {
                            if q != i {
                                assert(self.sectors@[q] == before[q]);
                                old(self).lemma_sector_wf(q);
                            }
                        }
                    }
                    return Ok(());
                }
                i = i + 1;
            }
            proof {
                assert(!exists|f: int| first_with_id(secs, sd.id_chsn, f));
            }
        }
        let weak_mask = match &sd.weak_mask {
            Some(w) => MetaMask::from(w.as_slice()),
            None => MetaMask::empty(len),
        };
        let hole_mask = match &sd.hole_mask {
            Some(h) => MetaMask::from(h.as_slice()),
            None => MetaMask::empty(len),
        };
        let sector = MetaSector::from_parts(
            sd.id_chsn,
            sd.address_crc_error,
            sd.data_crc_error,
            sd.deleted_mark,
            sd.missing_data,
            vstd::slice::slice_to_vec(sd.data.as_slice()),
            weak_mask,
            hole_mask,
        );
        proof {
            assert(sector@.weak =~= sv.weak);
            assert(sector@.hole =~= sv.hole);
        }
        let ghost before = self.sectors@;
        self.sectors.push(sector);
        proof {
            assert(self.sector_views() =~= secs.push(sv));
            assert forall|q: int| 0 <= q < self.sectors@.len() implies (#[trigger] self.sectors@[q]).masks_wf() by {
                if q < before.len() {
                    assert(self.sectors@[q] == before[q]);
                    old(self).lemma_sector_wf(q);
                }
            }
        }
        Ok(())
    }

    /// Reads the sectors one after another in physical order, masks applied,
    /// stopping before the sector that follows the `track_len`-th. The flags
    /// are or-ed over the sectors read; `not_found` holds on an empty track.
    /// The cylinder / head and the size code do not change what a
    /// sector-granular track reads.
    pub fn read_all_sectors(&mut self, ch: DiskCh, n: u8, track_len: u8) -> (r: Result<
        ReadTrackResult,
        DiskImageError,
    >)
        requires
            old(self).wf(),
        ensures
            *final(self) == *old(self),
            r is Ok,
            read_track_result_spec(old(self).sector_views(), track_len, r->Ok_0),
    {
        let ghost secs = self.sector_views();
        let mut buf: Vec<u8> = Vec::new();
        let mut address_crc_error = false;
        let mut data_crc_error = false;
        let mut deleted_mark = false;
        let not_found = self.sectors.len() == 0;
        let mut sectors_read: u16 = 0;
        let mut i: usize = 0;
        while i < self.sectors.len()
            invariant
                self.wf(),
                secs == self.sector_views(),
                secs.len() == self.sectors@.len(),
                i <= secs.len(),
                i <= track_len,
                sectors_read as int == i,
                track_reads_as(secs, i as int, buf@),
                address_crc_error == any_address_crc_error(secs, i as int),
                data_crc_error == any_data_crc_error(secs, i as int),
                deleted_mark == any_deleted_mark(secs, i as int),
            ensures
                i as int == sectors_to_read(secs, track_len),
                track_reads_as(secs, i as int, buf@),
                address_crc_error == any_address_crc_error(secs, i as int),
                data_crc_error == any_data_crc_error(secs, i as int),
                deleted_mark == any_deleted_mark(secs, i as int),
                sectors_read as int == i,
            decreases secs.len() - i,
        {
            if sectors_read >= track_len as u16 {
                break;
            }
            proof {
                self.lemma_sector_wf(i as int);
            }
            let mut data = self.sectors[i].read_data();
            let ghost old_buf = buf@;
            let ghost piece = data@;
            buf.append(&mut data);
            proof {
                lemma_track_reads_as_extend(secs, i as int, old_buf, piece);
                assert(buf@ == old_buf + piece);
            }
            sectors_read = sectors_read + 1;
            proof {
                lemma_track_flags_extend(secs, i as int);
            }
            address_crc_error = address_crc_error || self.sectors[i].address_crc_error();
            data_crc_error = data_crc_error || self.sectors[i].data_crc_error();
            deleted_mark = deleted_mark || self.sectors[i].deleted_mark();
            i = i + 1;
        }
        let read_len = buf.len();
        let read_len_bits = if read_len <= usize::MAX / 16 {
            assert(read_len * 16 <= usize::MAX) by (nonlinear_arith)
                requires
                    read_len <= usize::MAX / 16,
            ;
            read_len * 16
        } else {
            assert(read_len * 16 > usize::MAX) by (nonlinear_arith)
                requires
                    read_len > usize::MAX / 16,
            ;
            usize::MAX
        };
        Ok(
            ReadTrackResult {
                not_found,
                sectors_read,
                read_buf: buf,
                deleted_mark,
                address_crc_error,
                data_crc_error,
                read_len_bits,
                read_len_bytes: read_len,
            },
        )
    }

    /// The SHA-1 digest of everything the track reads, as `read_all_sectors`
    /// reads it. Stable only where no sector has mask bits.
    pub fn get_hash(&mut self) -> (r: [u8; 20])
        requires
            old(self).wf(),
        ensures
            *final(self) == *old(self),
            exists|b: Seq<u8>|
                track_reads_as(
                    old(self).sector_views(),
                    if old(self).sector_views().len() < 255 {
                        old(self).sector_views().len() as int
                    } else {
                        255
                    },
                    b,
                ) && r@ == sha1_of(b),
    {
        let ch = self.ch;
        let rtr = self.read_all_sectors(ch, 0xFF, 0xFF);
        match rtr {
            Ok(res) => sha1_digest(res.read_buf.as_slice()),
            Err(_) => sha1_digest(&[]),
        }
    }

    /// The ID of the sector that physically follows the first one numbered
    /// `chs.s`, wrapping from the last to the first; none if no sector has
    /// that number.
    pub fn get_next_id(&self, chs: DiskChs) -> (r: Option<DiskChsn>)
        requires
            self.wf(),
        ensures
            r == next_id_spec(self.sector_views(), chs),
    {
        let ghost secs = self.sector_views();
        let len = self.sectors.len();
        let mut i: usize = 0;
        while i < len
            invariant
                secs == self.sector_views(),
                secs.len() == self.sectors@.len(),
                len == secs.len(),
                i <= len,
                forall|j: int| 0 <= j < i ==> (#[trigger] secs[j]).id.s != chs.s,
            decreases len - i,
        {
            assert(secs[i as int] == self.sectors@[i as int]@);
            if self.sectors[i].id_chsn().s == chs.s {
                let next = if i + 1 < len {
                    i + 1
                } else {
                    0
                };
                assert(secs[next as int] == self.sectors@[next as int]@);
                let t = self.sectors[next].id_chsn();
                proof {
                    assert(first_with_s(secs, chs.s, i as int));
                    let f = choose|f: int| first_with_s(secs, chs.s, f);
                    assert(f == i as int) by {
                        if f < i {
                            assert(secs[f].id.s != chs.s);
                        }
                        if f > i {
                            assert(secs[i as int].id.s != chs.s);
                        }
                    }
                    if i + 1 < len {
                        assert((i + 1) as int % (len as int) == i + 1) by (nonlinear_arith)
                            requires
                                i + 1 < len,
                        ;
                    } else {
                        assert((i + 1) as int % (len as int) == 0) by (nonlinear_arith)
                            requires
                                i + 1 == len,
                        ;
                    }
                }
                return Some(t);
            }
            i = i + 1;
        }
        None
    }

    /// Whether any sector carries weak bits.
    pub fn has_weak_bits(&self) -> (r: bool)
        requires
            self.wf(),
        ensures
            r == exists|i: int|
                0 <= i < self.sector_views().len() && any_nonzero(
                    (#[trigger] self.sector_views()[i]).weak,
                ),
    {
        let ghost secs = self.sector_views();
        let mut i: usize = 0;
        while i < self.sectors.len()
            invariant
                self.wf(),
                secs == self.sector_views(),
                secs.len() == self.sectors@.len(),
                i <= secs.len(),
                forall|j: int| 0 <= j < i ==> !any_nonzero((#[trigger] secs[j]).weak),
            decreases secs.len() - i,
        {
            proof {
                self.lemma_sector_wf(i as int);
            }
            if self.sectors[i].weak_mask().has_bits() {
                return true;
            }
            i = i + 1;
        }
        false
    }

    /// Whether a sector numbered `sid` is on the track (`id_chsn` absent), or
    /// a sector with the ID `id_chsn`.
    pub fn has_sector_id(&self, sid: u8, id_chsn: Option<DiskChsn>) -> (r: bool)
        ensures
            r == exists|i: int|
                0 <= i < self.sector_views().len() && match id_chsn {
                    None => (#[trigger] self.sector_views()[i]).id.s == sid,
                    Some(c) => self.sector_views()[i].id == c,
                },
    {
        let ghost secs = self.sector_views();
        let mut i: usize = 0;
        while i < self.sectors.len()
            invariant
                secs == self.sector_views(),
                secs.len() == self.sectors@.len(),
                i <= secs.len(),
                forall|j: int|
                    0 <= j < i ==> !match id_chsn {
                        None => (#[trigger] secs[j]).id.s == sid,
                        Some(c) => secs[j].id == c,
                    },
            decreases secs.len() - i,
        {
            assert(secs[i as int] == self.sectors@[i as int]@);
            let id = self.sectors[i].id_chsn();
            let found = match id_chsn {
                None => id.s == sid,
                Some(c) => id == c,
            };
            if found {
                return true;
            }
            i = i + 1;
        }
        false
    }

    /// One entry per sector, in physical order.
    pub fn get_sector_list(&self) -> (r: Vec<SectorMapEntry>)
        ensures
            r@.len() == self.sector_views().len(),
            forall|i: int|
                0 <= i < r@.len() ==> #[trigger] r@[i] == (SectorMapEntry {
                    chsn: self.sector_views()[i].id,
                    address_crc_valid: !self.sector_views()[i].address_crc_error,
                    data_crc_valid: !self.sector_views()[i].data_crc_error,
                    deleted_mark: self.sector_views()[i].deleted_mark,
                    no_dam: self.sector_views()[i].missing_data,
                }),
    {
        let ghost secs = self.sector_views();
        let mut list: Vec<SectorMapEntry> = Vec::with_capacity(self.sectors.len());
        let mut i: usize = 0;
        while i < self.sectors.len()
            invariant
                secs == self.sector_views(),
                secs.len() == self.sectors@.len(),
                i <= secs.len(),
                list@.len() == i,
                forall|j: int|
                    0 <= j < i ==> #[trigger] list@[j] == (SectorMapEntry {
                        chsn: secs[j].id,
                        address_crc_valid: !secs[j].address_crc_error,
                        data_crc_valid: !secs[j].data_crc_error,
                        deleted_mark: secs[j].deleted_mark,
                        no_dam: secs[j].missing_data,
                    }),
            decreases secs.len() - i,
        {
            assert(secs[i as int] == self.sectors@[i as int]@);
            let s = &self.sectors[i];
            list.push(
                SectorMapEntry {
                    chsn: s.id_chsn(),
                    address_crc_valid: !s.address_crc_error(),
                    data_crc_valid: !s.data_crc_error(),
                    deleted_mark: s.deleted_mark(),
                    no_dam: s.missing_data(),
                },
            );
            i = i + 1;
        }
        list
    }

    /// Sector count, sector numbering, CRC and deleted-data flags, and the
    /// size code shared by all sectors, in one pass.
    pub fn get_track_consistency(&self) -> (r: TrackConsistency)
        ensures
            ({
                let secs = self.sector_views();
                &&& r.sector_ct == secs.len()
                &&& r.nonconsecutive_sectors == exists|i: int|
                    0 <= i < secs.len() && (#[trigger] secs[i]).id.s as int != i + 1
                &&& r.bad_data_crc == exists|i: int|
                    0 <= i < secs.len() && (#[trigger] secs[i]).data_crc_error
                &&& r.bad_address_crc == exists|i: int|
                    0 <= i < secs.len() && (#[trigger] secs[i]).address_crc_error
                &&& r.deleted_data == exists|i: int|
                    0 <= i < secs.len() && (#[trigger] secs[i]).deleted_mark
                &&& r.consistent_sector_size == common_size(secs)
            }),
    {
        let ghost secs = self.sector_views();
        let mut nonconsecutive_sectors = false;
        let mut bad_data_crc = false;
        let mut bad_address_crc = false;
        let mut deleted_data = false;
        let mut first_n: u8 = 0;
        let mut same_n = true;
        let mut i: usize = 0;
        while i < self.sectors.len()
            invariant
                secs == self.sector_views(),
                secs.len() == self.sectors@.len(),
                i <= secs.len(),
                nonconsecutive_sectors == exists|j: int|
                    0 <= j < i && (#[trigger] secs[j]).id.s as int != j + 1,
                bad_data_crc == exists|j: int| 0 <= j < i && (#[trigger] secs[j]).data_crc_error,
                bad_address_crc == exists|j: int|
                    0 <= j < i && (#[trigger] secs[j]).address_crc_error,
                deleted_data == exists|j: int| 0 <= j < i && (#[trigger] secs[j]).deleted_mark,
                i > 0 ==> first_n == secs[0].id.n,
                i == 0 ==> first_n == 0,
                same_n == forall|j: int| 0 <= j < i ==> (#[trigger] secs[j]).id.n == first_n,
            decreases secs.len() - i,
        {
            assert(secs[i as int] == self.sectors@[i as int]@);
            let s = &self.sectors[i];
            let id = s.id_chsn();
            if id.s as usize != i + 1 {
                nonconsecutive_sectors = true;
            }
            if s.data_crc_error() {
                bad_data_crc = true;
            }
            if s.address_crc_error() {
                bad_address_crc = true;
            }
            if s.deleted_mark() {
                deleted_data = true;
            }
            if i == 0 {
                first_n = id.n;
            } else if id.n != first_n {
                same_n = false;
            }
            i = i + 1;
        }
        TrackConsistency {
            sector_ct: self.sectors.len(),
            nonconsecutive_sectors,
            bad_data_crc,
            bad_address_crc,
            deleted_data,
            consistent_sector_size: if same_n {
                Some(first_n)
            } else {
                None
            },
        }
    }

    /// A sector-granular track holds no bit stream to read.
    pub fn read_track(&mut self, overdump: Option<usize>) -> (r: Result<ReadTrackResult, DiskImageError>)
        ensures
            *final(self) == *old(self),
            r matches Err(DiskImageError::UnsupportedFormat),
    {
        Err(DiskImageError::UnsupportedFormat)
    }

    /// Formatting is not offered on a sector-granular track.
    pub fn format(
        &mut self,
        standard: System34Standard,
        format_buffer: Vec<DiskChsn>,
        fill_pattern: &[u8],
        gap3: usize,
    ) -> (r: Result<(), DiskImageError>)
        ensures
            *final(self) == *old(self),
            r == Err::<(), DiskImageError>(DiskImageError::UnsupportedFormat),
    {
        Err(DiskImageError::UnsupportedFormat)
    }

    pub fn ch(&self) -> (r: DiskCh)
        ensures
            r == self.ch_spec(),
    {
        self.ch
    }

    /// Moves the track to another physical cylinder and head.
    pub fn set_ch(&mut self, new_ch: DiskCh)
        ensures
            final(self).ch_spec() == new_ch,
            final(self).encoding_spec() == old(self).encoding_spec(),
            final(self).data_rate_spec() == old(self).data_rate_spec(),
            final(self).sector_views() == old(self).sector_views(),
            old(self).wf() ==> final(self).wf(),
    {
        self.ch = new_ch;
        assert(self.sectors@ == old(self).sectors@);
        assert(self.masks_wf() == old(self).masks_wf());
        assert(self.sector_views() == old(self).sector_views());
        assert(old(self).wf() ==> self.wf());
    }

    pub fn info(&self) -> (r: TrackInfo)
        ensures
            r == (TrackInfo {
                encoding: self.encoding_spec(),
                data_rate: self.data_rate_spec(),
                bit_length: 0,
                sector_ct: self.sector_views().len() as usize,
            }),
    {
        TrackInfo {
            encoding: self.encoding,
            data_rate: self.data_rate,
            bit_length: 0,
            sector_ct: self.sectors.len(),
        }
    }

    pub fn get_sector_ct(&self) -> (r: usize)
        ensures
            r == self.sector_views().len(),
    {
        self.sectors.len()
    }

    /// The sector at physical position `i`.
    pub fn sector(&self, i: usize) -> (r: &MetaSector)
        requires
            i < self.sector_views().len(),
        ensures
            r@ == self.sector_views()[i as int],
            self.wf() ==> r.wf(),
    {
        assert(self.sector_views()[i as int] == self.sectors@[i as int]@);
        &self.sectors[i]
    }

    /// The status that a read of `chs` / `n` would report, without the data.
    pub fn scan_sector(&self, chs: DiskChs, n: Option<u8>) -> (r: Result<
        ScanSectorResult,
        DiskImageError,
    >)
        requires
            self.wf(),
        ensures
            r is Ok && scan_result_spec(self.sector_views(), chs, n, r->Ok_0),
    {
        let sm = self.match_sectors(chs, n, false);
        if sm.len() == 0 {
            Ok(
                ScanSectorResult {
                    not_found: true,
                    no_dam: false,
                    deleted_mark: false,
                    address_crc_error: false,
                    data_crc_error: false,
                    wrong_cylinder: sm.wrong_cylinder,
                    bad_cylinder: sm.bad_cylinder,
                    wrong_head: sm.wrong_head,
                },
            )
        } else {
            let s = sm.sectors[0];
            Ok(
                ScanSectorResult {
                    deleted_mark: s.deleted_mark(),
                    not_found: false,
                    no_dam: s.missing_data(),
                    address_crc_error: s.address_crc_error(),
                    data_crc_error: s.data_crc_error(),
                    wrong_cylinder: sm.wrong_cylinder,
                    bad_cylinder: sm.bad_cylinder,
                    wrong_head: sm.wrong_head,
                },
            )
        }
    }

    /// Writes `write_data` to the one sector that answers `chs` / `n`. More
    /// than one answer is refused; none is reported as a success that changed
    /// nothing; a sector without a data mark or with a bad address CRC keeps
    /// its content. The scope does not change what a sector-granular track
    /// writes.
    pub fn write_sector(
        &mut self,
        chs: DiskChs,
        n: Option<u8>,
        write_data: &[u8],
        scope: RwSectorScope,
        write_deleted: bool,
        debug: bool,
    ) -> (r: Result<WriteSectorResult, DiskImageError>)
        requires
            old(self).wf(),
        ensures
            final(self).wf(),
            final(self).ch_spec() == old(self).ch_spec(),
            final(self).encoding_spec() == old(self).encoding_spec(),
            final(self).data_rate_spec() == old(self).data_rate_spec(),
            write_result_spec(
                old(self).sector_views(),
                chs,
                n,
                write_data@,
                write_deleted,
                debug,
                r,
                final(self).sector_views(),
            ),
    {
        let sm = self.match_sectors_mut(chs, n, debug);
        proof {
            lemma_matching_indices(self.sector_views(), chs, n, debug);
        }
        if sm.len() > 1 {
            return Err(DiskImageError::UniqueIdError);
        } else if sm.len() == 0 {
            return Ok(
                WriteSectorResult {
                    not_found: false,
                    no_dam: false,
                    address_crc_error: false,
                    wrong_cylinder: false,
                    bad_cylinder: false,
                    wrong_head: false,
                },
            );
        }
        let j = sm.sectors[0];
        proof {
            assert(self.sector_views().len() == self.sectors@.len());
            assert(matching_indices(self.sector_views(), chs, n, debug)[0] == j as int);
            self.lemma_sector_wf(j as int);
        }
        if write_data.len() != self.sectors[j].data().len() {
            return Err(DiskImageError::ParameterError);
        }
        let no_dam = self.sectors[j].missing_data();
        let address_crc_error = self.sectors[j].address_crc_error();
        let ghost before = self.sectors@;
        if !(no_dam || address_crc_error) {
            self.sectors[j].overwrite(write_data, write_deleted);
            proof {
                assert(self.sector_views() =~= written(
                    old(self).sector_views(),
                    j as int,
                    write_data@,
                    write_deleted,
                ));
                assert forall|i: int| 0 <= i < self.sectors@.len() implies (#[trigger] self.sectors@[i]).masks_wf() by {
                    if i != j {
                        assert(self.sectors@[i] == before[i]);
                        old(self).lemma_sector_wf(i);
                    }
                }
            }
        }
        Ok(
            WriteSectorResult {
                not_found: false,
                no_dam,
                address_crc_error,
                wrong_cylinder: sm.wrong_cylinder,
                bad_cylinder: sm.bad_cylinder,
                wrong_head: sm.wrong_head,
            },
        )
    }
}

} // verus!
