//! The mathematical model of sector matching and of what each track
//! operation owes, over sequences of sector views, with the lemmas that the
//! operations' proofs share.

use vstd::prelude::*;

use crate::chs::{sector_size, DiskChs, DiskChsn};
use crate::error::DiskImageError;
use crate::mask::or_bytes;
use crate::sector::SectorView;
use crate::track::{ReadSectorResult, ReadTrackResult, ScanSectorResult, WriteSectorResult};

verus! {

/// Whether a sector with ID `id` answers a request for `chs` with optional size
/// code `n`. In debug mode the sector number alone decides.
pub open spec fn id_matches(id: DiskChsn, chs: DiskChs, n: Option<u8>, debug: bool) -> bool {
    ||| (debug && id.s == chs.s)
    ||| (id.c == chs.c && id.h == chs.h && id.s == chs.s && (n is None || id.n == n->Some_0))
}

/// The positions of the sectors of `secs` that answer the request, in
/// physical order.
pub open spec fn matching_indices(
    secs: Seq<SectorView>,
    chs: DiskChs,
    n: Option<u8>,
    debug: bool,
) -> Seq<int>
    decreases secs.len(),
{
    if secs.len() == 0 {
        Seq::empty()
    } else {
        let prev = matching_indices(secs.drop_last(), chs, n, debug);
        if id_matches(secs.last().id, chs, n, debug) {
            prev.push(secs.len() - 1)
        } else {
            prev
        }
    }
}

/// The sectors of `secs` that answer the request, in physical order.
pub open spec fn matching(secs: Seq<SectorView>, chs: DiskChs, n: Option<u8>, debug: bool) -> Seq<
    SectorView,
> {
    matching_indices(secs, chs, n, debug).map_values(|j: int| secs[j])
}

/// Some sector claims another cylinder than `c`.
pub open spec fn any_wrong_cylinder(secs: Seq<SectorView>, c: u16) -> bool {
    exists|i: int| 0 <= i < secs.len() && #[trigger] secs[i].id.c != c
}

/// Some sector claims the cylinder 0xFF, the mark of a deliberately bad ID.
pub open spec fn any_bad_cylinder(secs: Seq<SectorView>) -> bool {
    exists|i: int| 0 <= i < secs.len() && #[trigger] secs[i].id.c == 0xFF
}

/// Some sector claims another head than `h`.
pub open spec fn any_wrong_head(secs: Seq<SectorView>, h: u8) -> bool {
    exists|i: int| 0 <= i < secs.len() && #[trigger] secs[i].id.h != h
}

/// The size codes that occur among `secs`.
pub open spec fn size_codes(secs: Seq<SectorView>) -> Set<u8> {
    Set::new(|n: u8| exists|i: int| 0 <= i < secs.len() && #[trigger] secs[i].id.n == n)
}

/// The status that a read of `chs` / `n` owes on a track whose sectors are
/// `secs`: not found when no sector answers, else the first that answers, with
/// its flags and a buffer that `reads_as` admits.
pub open spec fn read_result_spec(
    secs: Seq<SectorView>,
    chs: DiskChs,
    n: Option<u8>,
    debug: bool,
    res: ReadSectorResult,
) -> bool {
    let idx = matching_indices(secs, chs, n, debug);
    &&& res.wrong_cylinder == any_wrong_cylinder(secs, chs.c)
    &&& res.bad_cylinder == any_bad_cylinder(secs)
    &&& res.wrong_head == any_wrong_head(secs, chs.h)
    &&& res.data_idx == 0
    &&& if idx.len() == 0 {
        &&& res.id_chsn is None
        &&& res.data_len == 0
        &&& res.read_buf@.len() == 0
        &&& !res.deleted_mark
        &&& res.not_found
        &&& !res.no_dam
        &&& !res.address_crc_error
        &&& !res.data_crc_error
    } else {
        let v = secs[idx[0]];
        &&& res.id_chsn == Some(v.id)
        &&& res.data_len == v.data.len()
        &&& v.reads_as(res.read_buf@)
        &&& res.deleted_mark == v.deleted_mark
        &&& !res.not_found
        &&& res.no_dam == v.missing_data
        &&& res.address_crc_error == v.address_crc_error
        &&& res.data_crc_error == v.data_crc_error
    }
}

/// The status that a scan of `chs` / `n` owes: that of a read, without data.
pub open spec fn scan_result_spec(
    secs: Seq<SectorView>,
    chs: DiskChs,
    n: Option<u8>,
    res: ScanSectorResult,
) -> bool {
    let idx = matching_indices(secs, chs, n, false);
    &&& res.wrong_cylinder == any_wrong_cylinder(secs, chs.c)
    &&& res.bad_cylinder == any_bad_cylinder(secs)
    &&& res.wrong_head == any_wrong_head(secs, chs.h)
    &&& if idx.len() == 0 {
        &&& res.not_found
        &&& !res.no_dam
        &&& !res.deleted_mark
        &&& !res.address_crc_error
        &&& !res.data_crc_error
    } else {
        let v = secs[idx[0]];
        &&& !res.not_found
        &&& res.no_dam == v.missing_data
        &&& res.deleted_mark == v.deleted_mark
        &&& res.address_crc_error == v.address_crc_error
        &&& res.data_crc_error == v.data_crc_error
    }
}

/// The sectors after a write of `buf` to position `j`: unchanged where the
/// sector has no data mark or a bad address CRC, else with the new data and
/// deleted mark.
pub open spec fn written(secs: Seq<SectorView>, j: int, buf: Seq<u8>, deleted: bool) -> Seq<
    SectorView,
> {
    let v = secs[j];
    if v.missing_data || v.address_crc_error {
        secs
    } else {
        secs.update(j, SectorView { data: buf, deleted_mark: deleted, ..v })
    }
}

/// What a write of `buf` to `chs` / `n` owes: the result `r`, and `after`, the
/// sectors once it is done. A write that no sector answers succeeds with
/// every flag false.
pub open spec fn write_result_spec(
    secs: Seq<SectorView>,
    chs: DiskChs,
    n: Option<u8>,
    buf: Seq<u8>,
    deleted: bool,
    debug: bool,
    r: Result<WriteSectorResult, DiskImageError>,
    after: Seq<SectorView>,
) -> bool {
    let idx = matching_indices(secs, chs, n, debug);
    let wrong_cylinder = any_wrong_cylinder(secs, chs.c);
    let bad_cylinder = any_bad_cylinder(secs);
    let wrong_head = any_wrong_head(secs, chs.h);
    if idx.len() > 1 {
        r == Err::<WriteSectorResult, DiskImageError>(DiskImageError::UniqueIdError) && after == secs
    } else if idx.len() == 0 {
        &&& r == Ok::<WriteSectorResult, DiskImageError>(
            WriteSectorResult {
                not_found: false,
                no_dam: false,
                address_crc_error: false,
                wrong_cylinder: false,
                bad_cylinder: false,
                wrong_head: false,
            },
        )
        &&& after == secs
    } else {
        let v = secs[idx[0]];
        if buf.len() != sector_size(v.id.n as nat) {
            r == Err::<WriteSectorResult, DiskImageError>(DiskImageError::ParameterError) && after
                == secs
        } else {
            &&& r == Ok::<WriteSectorResult, DiskImageError>(
                WriteSectorResult {
                    not_found: false,
                    no_dam: v.missing_data,
                    address_crc_error: v.address_crc_error,
                    wrong_cylinder,
                    bad_cylinder,
                    wrong_head,
                },
            )
            &&& after == written(secs, idx[0], buf, deleted)
        }
    }
}

/// The bits in which `a` and `b` differ, position by position.
pub open spec fn xor_bytes(a: Seq<u8>, b: Seq<u8>) -> Seq<u8> {
    Seq::new(a.len(), |i: int| a[i] ^ b[i])
}

/// `f` is the first position of `secs` whose ID is `id`.
pub open spec fn first_with_id(secs: Seq<SectorView>, id: DiskChsn, f: int) -> bool {
    &&& 0 <= f < secs.len()
    &&& secs[f].id == id
    &&& forall|j: int| 0 <= j < f ==> (#[trigger] secs[j]).id != id
}

/// The sectors after `sd` is added: folded into the first sector with the same
/// ID, as weak bits where the two differ, if `alternate` asks for it and
/// there is one; else appended.
pub open spec fn added(secs: Seq<SectorView>, sd: SectorView, alternate: bool) -> Seq<SectorView> {
    if alternate && exists|f: int| first_with_id(secs, sd.id, f) {
        let f = choose|f: int| first_with_id(secs, sd.id, f);
        secs.update(
            f,
            SectorView { weak: or_bytes(secs[f].weak, xor_bytes(secs[f].data, sd.data)), ..secs[f] },
        )
    } else {
        secs.push(sd)
    }
}

/// How many bytes a read of `v` yields.
pub open spec fn read_len(v: SectorView) -> nat {
    if v.missing_data {
        0
    } else {
        v.data.len()
    }
}

/// How many bytes a read of the first `k` sectors yields.
pub open spec fn prefix_len(secs: Seq<SectorView>, k: int) -> nat
    decreases k,
{
    if k <= 0 {
        0
    } else {
        prefix_len(secs, k - 1) + read_len(secs[k - 1])
    }
}

/// `buf` is a possible result of reading the first `k` sectors one after
/// another.
pub open spec fn track_reads_as(secs: Seq<SectorView>, k: int, buf: Seq<u8>) -> bool {
    &&& buf.len() == prefix_len(secs, k)
    &&& forall|j: int|
        0 <= j < k ==> (#[trigger] secs[j]).reads_as(
            buf.subrange(prefix_len(secs, j) as int, prefix_len(secs, j + 1) as int),
        )
}

proof fn lemma_prefix_len_grows(secs: Seq<SectorView>, j: int, k: int)
    requires
        j <= k,
    ensures
        prefix_len(secs, j) <= prefix_len(secs, k),
    decreases k - j,
{
    if j < k {
        lemma_prefix_len_grows(secs, j, k - 1);
    }
}

pub(crate) proof fn lemma_track_reads_as_extend(secs: Seq<SectorView>, i: int, buf: Seq<u8>, piece: Seq<u8>)
    requires
        0 <= i < secs.len(),
        track_reads_as(secs, i, buf),
        secs[i].reads_as(piece),
    ensures
        track_reads_as(secs, i + 1, buf + piece),
{
    let nb = buf + piece;
    assert(prefix_len(secs, i + 1) == prefix_len(secs, i) + read_len(secs[i]));
    assert(nb.subrange(prefix_len(secs, i) as int, prefix_len(secs, i + 1) as int) =~= piece);
    assert forall|j: int| 0 <= j < i + 1 implies (#[trigger] secs[j]).reads_as(
        nb.subrange(prefix_len(secs, j) as int, prefix_len(secs, j + 1) as int),
    ) by {
        if j < i {
            lemma_prefix_len_grows(secs, j + 1, i);
            lemma_prefix_len_grows(secs, j, j + 1);
            assert(nb.subrange(prefix_len(secs, j) as int, prefix_len(secs, j + 1) as int)
                =~= buf.subrange(prefix_len(secs, j) as int, prefix_len(secs, j + 1) as int));
        }
    }
}

/// How many sectors a read of the whole track takes: `track_len`, or all of
/// them if there are fewer.
pub open spec fn sectors_to_read(secs: Seq<SectorView>, track_len: u8) -> int {
    if secs.len() < track_len as int {
        secs.len() as int
    } else {
        track_len as int
    }
}

/// Some sector among the first `k` has a bad address CRC.
pub open spec fn any_address_crc_error(secs: Seq<SectorView>, k: int) -> bool {
    exists|j: int| 0 <= j < k && (#[trigger] secs[j]).address_crc_error
}

/// Some sector among the first `k` has a bad data CRC.
pub open spec fn any_data_crc_error(secs: Seq<SectorView>, k: int) -> bool {
    exists|j: int| 0 <= j < k && (#[trigger] secs[j]).data_crc_error
}

/// Some sector among the first `k` has a deleted-data mark.
pub open spec fn any_deleted_mark(secs: Seq<SectorView>, k: int) -> bool {
    exists|j: int| 0 <= j < k && (#[trigger] secs[j]).deleted_mark
}

pub(crate) proof fn lemma_track_flags_extend(secs: Seq<SectorView>, i: int)
    requires
        0 <= i < secs.len(),
    ensures
        any_address_crc_error(secs, i + 1) == (any_address_crc_error(secs, i)
            || secs[i].address_crc_error),
        any_data_crc_error(secs, i + 1) == (any_data_crc_error(secs, i) || secs[i].data_crc_error),
        any_deleted_mark(secs, i + 1) == (any_deleted_mark(secs, i) || secs[i].deleted_mark),
{
}

/// What a read of the whole track owes.
pub open spec fn read_track_result_spec(
    secs: Seq<SectorView>,
    track_len: u8,
    res: ReadTrackResult,
) -> bool {
    let k = sectors_to_read(secs, track_len);
    &&& res.not_found == (secs.len() == 0)
    &&& res.sectors_read as int == k
    &&& track_reads_as(secs, k, res.read_buf@)
    &&& res.read_len_bytes == res.read_buf@.len()
    &&& res.read_len_bits as int == if res.read_buf@.len() * 16 <= usize::MAX {
        (res.read_buf@.len() * 16) as int
    } else {
        usize::MAX as int
    }
    &&& res.address_crc_error == any_address_crc_error(secs, k)
    &&& res.data_crc_error == any_data_crc_error(secs, k)
    &&& res.deleted_mark == any_deleted_mark(secs, k)
}

/// `f` is the first position of `secs` whose sector number is `s`.
pub open spec fn first_with_s(secs: Seq<SectorView>, s: u8, f: int) -> bool {
    &&& 0 <= f < secs.len()
    &&& secs[f].id.s == s
    &&& forall|j: int| 0 <= j < f ==> (#[trigger] secs[j]).id.s != s
}

/// The ID of the sector that follows, on the track, the first sector numbered
/// `chs.s`, wrapping from the last sector to the first.
pub open spec fn next_id_spec(secs: Seq<SectorView>, chs: DiskChs) -> Option<DiskChsn> {
    if exists|f: int| first_with_s(secs, chs.s, f) {
        let f = choose|f: int| first_with_s(secs, chs.s, f);
        let t = secs[(f + 1) % (secs.len() as int)];
        Some(t.id)
    } else {
        None
    }
}

/// The size code that every sector shares (0 on an empty track), if they
/// share one.
pub open spec fn common_size(secs: Seq<SectorView>) -> Option<u8> {
    if secs.len() == 0 {
        Some(0u8)
    } else if forall|i: int| 0 <= i < secs.len() ==> (#[trigger] secs[i]).id.n == secs[0].id.n {
        Some(secs[0].id.n)
    } else {
        None
    }
}

/// The positions that `matching_indices` lists lie in range, rise strictly,
/// and are exactly those of the sectors that answer the request.
pub proof fn lemma_matching_indices(secs: Seq<SectorView>, chs: DiskChs, n: Option<u8>, debug: bool)
    ensures
        ({
            let idx = matching_indices(secs, chs, n, debug);
            &&& forall|k: int| 0 <= k < idx.len() ==> 0 <= #[trigger] idx[k] < secs.len()
            &&& forall|k: int|
                0 <= k < idx.len() ==> id_matches(secs[#[trigger] idx[k]].id, chs, n, debug)
            &&& forall|k1: int, k2: int| 0 <= k1 < k2 < idx.len() ==> idx[k1] < idx[k2]
            &&& forall|j: int|
                0 <= j < secs.len() && id_matches(#[trigger] secs[j].id, chs, n, debug)
                    ==> idx.contains(j)
        }),
    decreases secs.len(),
{
    if secs.len() > 0 {
        let pre = secs.drop_last();
        lemma_matching_indices(pre, chs, n, debug);
        let idx = matching_indices(secs, chs, n, debug);
        let pidx = matching_indices(pre, chs, n, debug);
        assert forall|j: int|
            0 <= j < secs.len() && id_matches(#[trigger] secs[j].id, chs, n, debug) implies idx.contains(j) by {
            if j < secs.len() - 1 {
                assert(pre[j] == secs[j]);
                let k = choose|k: int| 0 <= k < pidx.len() && pidx[k] == j;
                assert(idx[k] == j);
            } else {
                assert(idx[idx.len() - 1] == j);
            }
        }
        assert forall|k: int| 0 <= k < idx.len() implies id_matches(secs[#[trigger] idx[k]].id, chs, n, debug) by {
            if k < pidx.len() {
                assert(idx[k] == pidx[k]);
                assert(pre[pidx[k]] == secs[pidx[k]]);
            }
        }
    }
}

pub(crate) proof fn lemma_size_codes_push(m: Seq<SectorView>, v: SectorView)
    ensures
        forall|x: u8|
            #[trigger] size_codes(m.push(v)).contains(x) <==> (size_codes(m).contains(x) || v.id.n
                == x),
{
    assert forall|x: u8| #[trigger] size_codes(m.push(v)).contains(x) <==> (size_codes(m).contains(x) || v.id.n == x) by {
        let mp = m.push(v);
        if size_codes(m).contains(x) {
            let i = choose|i: int| 0 <= i < m.len() && #[trigger] m[i].id.n == x;
            assert(mp[i] == m[i]);
        }
        if v.id.n == x {
            assert(mp[m.len() as int] == v);
        }
        if size_codes(mp).contains(x) {
            let i = choose|i: int| 0 <= i < mp.len() && #[trigger] mp[i].id.n == x;
            if i < m.len() {
                assert(mp[i] == m[i]);
            }
        }
    }
}

} // verus!
