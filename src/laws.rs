//! Properties that hold across operations, stated over the models that the
//! operations' contracts use, and proved.

use vstd::prelude::*;

use crate::chs::{sector_size, DiskChs, DiskChsn};
use crate::sector::SectorView;
use crate::model::{
    added, any_bad_cylinder, any_wrong_cylinder, any_wrong_head, common_size, first_with_s,
    id_matches, lemma_matching_indices, matching_indices, next_id_spec, read_result_spec,
    write_result_spec, written,
};
use crate::track::{MetaSectorTrack, ReadSectorResult, WriteSectorResult};
use crate::error::DiskImageError;

verus! {

/// Every sector of a well-formed track holds data, weak mask and hole mask of
/// exactly the length that its size code gives: 128 * 2^n bytes.
pub proof fn sector_lengths_follow_size_code(track: &MetaSectorTrack, i: int)
    requires
        track.wf(),
        0 <= i < track.sector_views().len(),
    ensures
        ({
            let v = track.sector_views()[i];
            &&& v.data.len() == sector_size(v.id.n as nat)
            &&& v.weak.len() == v.data.len()
            &&& v.hole.len() == v.data.len()
        }),
{
    assert(track.sector_views()[i].wf());
}

proof fn lemma_no_mask_bits(v: SectorView, i: int)
    requires
        v.wf(),
        !v.has_mask_bits(),
        0 <= i < v.data.len(),
    ensures
        v.mask_at(i) == 0,
{
    assert(v.weak[i] == 0);
    assert(v.hole[i] == 0);
    let w = v.weak[i];
    let h = v.hole[i];
    assert(w | h == 0) by (bit_vector)
        requires
            w == 0,
            h == 0,
    ;
}

/// A sector with a data mark and no weak or hole bit reads back exactly as
/// its data, whatever the random source gives.
pub proof fn unmasked_read_is_exact(v: SectorView, r: Seq<u8>)
    requires
        v.wf(),
        !v.missing_data,
        !v.has_mask_bits(),
        v.reads_as(r),
    ensures
        r == v.data,
{
    assert forall|i: int| 0 <= i < r.len() implies r[i] == v.data[i] by {
        lemma_no_mask_bits(v, i);
        let x = r[i];
        let y = v.data[i];
        let m = v.mask_at(i);
        assert(x & !m == y & !m);
        assert(x == y) by (bit_vector)
            requires
                x & !m == y & !m,
                m == 0,
        ;
    }
    assert(r =~= v.data);
}

/// Two reads of one sector agree on every bit that no weak or hole bit
/// covers; only masked bits may differ.
pub proof fn reads_agree_off_mask(v: SectorView, r1: Seq<u8>, r2: Seq<u8>)
    requires
        v.reads_as(r1),
        v.reads_as(r2),
    ensures
        r1.len() == r2.len(),
        forall|i: int|
            0 <= i < r1.len() ==> #[trigger] (r1[i] & !v.mask_at(i)) == r2[i] & !v.mask_at(i),
{
    if !v.missing_data {
        assert forall|i: int| 0 <= i < r1.len() implies #[trigger] (r1[i] & !v.mask_at(i)) == r2[i]
            & !v.mask_at(i) by {
            assert(r1[i] & !v.mask_at(i) == v.data[i] & !v.mask_at(i));
            assert(r2[i] & !v.mask_at(i) == v.data[i] & !v.mask_at(i));
        }
    }
}

proof fn lemma_draw_of_read(d: u8, x: u8, m: u8)
    ensures
        x & !m == d & !m ==> (d & !m) | (x & m) == x,
        ((d & !m) | (x & m)) & !m == d & !m,
{
    assert(x & !m == d & !m ==> (d & !m) | (x & m) == x) by (bit_vector);
    assert(((d & !m) | (x & m)) & !m == d & !m) by (bit_vector);
}

/// The possible reads of a sector are exactly the results of `read_data_with`
/// on draws of noise bytes as long as the data: every draw gives a possible
/// read, and every possible read is the result of a draw (the read itself).
pub proof fn reads_are_draws(v: SectorView, r: Seq<u8>, noise: Seq<u8>)
    requires
        v.wf(),
    ensures
        v.reads_as(r) ==> r == v.effective(r),
        v.missing_data || noise.len() == v.data.len() ==> v.reads_as(v.effective(noise)),
{
    if v.reads_as(r) {
        if !v.missing_data {
            assert forall|i: int| 0 <= i < r.len() implies r[i] == v.effective(r)[i] by {
                lemma_draw_of_read(v.data[i], r[i], v.mask_at(i));
            }
        }
        assert(r =~= v.effective(r));
    }
    if !v.missing_data && noise.len() == v.data.len() {
        let e = v.effective(noise);
        assert forall|i: int| 0 <= i < e.len() implies #[trigger] e[i] & !v.mask_at(i) == v.data[i]
            & !v.mask_at(i) by {
            lemma_draw_of_read(v.data[i], noise[i], v.mask_at(i));
        }
    }
}

/// A sector appended (not as an alternate) to a track on which no sector yet
/// answers a request, and which itself answers it, is what a read of that
/// request then finds; without mask bits the read returns its data.
pub proof fn added_sector_reads_back(
    secs: Seq<SectorView>,
    sd: SectorView,
    chs: DiskChs,
    n: Option<u8>,
    debug: bool,
    res: ReadSectorResult,
)
    requires
        sd.wf(),
        !sd.missing_data,
        !sd.has_mask_bits(),
        id_matches(sd.id, chs, n, debug),
        forall|j: int| 0 <= j < secs.len() ==> !id_matches(#[trigger] secs[j].id, chs, n, debug),
        read_result_spec(added(secs, sd, false), chs, n, debug, res),
    ensures
        !res.not_found,
        res.id_chsn == Some(sd.id),
        res.read_buf@ == sd.data,
{
    let after = added(secs, sd, false);
    assert(after == secs.push(sd));
    lemma_matching_indices(secs, chs, n, debug);
    let pidx = matching_indices(secs, chs, n, debug);
    if pidx.len() > 0 {
        assert(id_matches(secs[pidx[0]].id, chs, n, debug));
    }
    assert(after.drop_last() =~= secs);
    let idx = matching_indices(after, chs, n, debug);
    assert(idx =~= seq![secs.len() as int]);
    assert(after[secs.len() as int] == sd);
    unmasked_read_is_exact(sd, res.read_buf@);
}

proof fn lemma_same_ids_same_matches(
    a: Seq<SectorView>,
    b: Seq<SectorView>,
    chs: DiskChs,
    n: Option<u8>,
    debug: bool,
)
    requires
        a.len() == b.len(),
        forall|j: int| 0 <= j < a.len() ==> (#[trigger] a[j]).id == b[j].id,
    ensures
        matching_indices(a, chs, n, debug) == matching_indices(b, chs, n, debug),
    decreases a.len(),
{
    if a.len() > 0 {
        assert forall|j: int| 0 <= j < a.drop_last().len() implies (#[trigger] a.drop_last()[j]).id
            == b.drop_last()[j].id by {
            assert(a[j].id == b[j].id);
        }
        lemma_same_ids_same_matches(a.drop_last(), b.drop_last(), chs, n, debug);
        assert(a.last().id == b.last().id);
    }
}

/// After a write of `buf` to a writable sector that alone answers the
/// request, the same request finds that sector, and a read returns `buf` but
/// for the bits that its masks cover (exactly `buf` where it has none).
pub proof fn written_sector_reads_back(
    secs: Seq<SectorView>,
    chs: DiskChs,
    n: Option<u8>,
    buf: Seq<u8>,
    deleted: bool,
    debug: bool,
    r: Result<WriteSectorResult, DiskImageError>,
    after: Seq<SectorView>,
    res: ReadSectorResult,
)
    requires
        forall|j: int| 0 <= j < secs.len() ==> (#[trigger] secs[j]).wf(),
        matching_indices(secs, chs, n, debug).len() == 1,
        !secs[matching_indices(secs, chs, n, debug)[0]].missing_data,
        !secs[matching_indices(secs, chs, n, debug)[0]].address_crc_error,
        write_result_spec(secs, chs, n, buf, deleted, debug, r, after),
        r is Ok,
        read_result_spec(after, chs, n, debug, res),
    ensures
        matching_indices(after, chs, n, debug) == matching_indices(secs, chs, n, debug),
        res.read_buf@.len() == buf.len(),
        forall|i: int|
            0 <= i < buf.len() ==> #[trigger] (res.read_buf@[i] & !after[matching_indices(
                secs,
                chs,
                n,
                debug,
            )[0]].mask_at(i)) == buf[i] & !after[matching_indices(secs, chs, n, debug)[0]].mask_at(
                i,
            ),
        !secs[matching_indices(secs, chs, n, debug)[0]].has_mask_bits() ==> res.read_buf@ == buf,
{
    lemma_matching_indices(secs, chs, n, debug);
    let j = matching_indices(secs, chs, n, debug)[0];
    assert(after == written(secs, j, buf, deleted));
    assert forall|q: int| 0 <= q < secs.len() implies (#[trigger] secs[q]).id == after[q].id by {}
    lemma_same_ids_same_matches(secs, after, chs, n, debug);
    let v = after[j];
    assert(v.data == buf);
    if !secs[j].has_mask_bits() {
        assert(v.weak == secs[j].weak);
        assert(v.hole == secs[j].hole);
        assert(v.wf());
        unmasked_read_is_exact(v, res.read_buf@);
    }
}

/// Writing the same buffer twice leaves the sectors as the first write left
/// them.
pub proof fn second_write_changes_nothing(
    secs: Seq<SectorView>,
    chs: DiskChs,
    n: Option<u8>,
    buf: Seq<u8>,
    deleted: bool,
    debug: bool,
    r1: Result<WriteSectorResult, DiskImageError>,
    after1: Seq<SectorView>,
    r2: Result<WriteSectorResult, DiskImageError>,
    after2: Seq<SectorView>,
)
    requires
        forall|j: int| 0 <= j < secs.len() ==> (#[trigger] secs[j]).wf(),
        write_result_spec(secs, chs, n, buf, deleted, debug, r1, after1),
        write_result_spec(after1, chs, n, buf, deleted, debug, r2, after2),
    ensures
        after2 == after1,
        r2 == r1 || r1 is Err,
{
    lemma_matching_indices(secs, chs, n, debug);
    let idx = matching_indices(secs, chs, n, debug);
    if idx.len() == 1 && buf.len() == sector_size(secs[idx[0]].id.n as nat) {
        let j = idx[0];
        assert forall|q: int| 0 <= q < secs.len() implies (#[trigger] secs[q]).id == after1[q].id by {}
        lemma_same_ids_same_matches(secs, after1, chs, n, debug);
        if !(secs[j].missing_data || secs[j].address_crc_error) {
            assert(after1[j] == SectorView { data: buf, deleted_mark: deleted, ..secs[j] });
            assert(after1.update(j, SectorView { data: buf, deleted_mark: deleted, ..after1[j] }) =~= after1);
        }
    }
}

/// A write to a sector without a data mark, or with a bad address CRC,
/// succeeds, reports the flag that stopped it, and changes nothing.
pub proof fn write_to_damaged_sector_is_suppressed(
    secs: Seq<SectorView>,
    chs: DiskChs,
    n: Option<u8>,
    buf: Seq<u8>,
    deleted: bool,
    debug: bool,
    r: Result<WriteSectorResult, DiskImageError>,
    after: Seq<SectorView>,
)
    requires
        matching_indices(secs, chs, n, debug).len() == 1,
        buf.len() == sector_size(secs[matching_indices(secs, chs, n, debug)[0]].id.n as nat),
        secs[matching_indices(secs, chs, n, debug)[0]].missing_data
            || secs[matching_indices(secs, chs, n, debug)[0]].address_crc_error,
        write_result_spec(secs, chs, n, buf, deleted, debug, r, after),
    ensures
        after == secs,
        r is Ok,
        r->Ok_0.no_dam == secs[matching_indices(secs, chs, n, debug)[0]].missing_data,
        r->Ok_0.address_crc_error == secs[matching_indices(
            secs,
            chs,
            n,
            debug,
        )[0]].address_crc_error,
{
}

/// The wrong-cylinder, bad-cylinder and wrong-head flags depend on which
/// sectors a track holds, not on their order.
pub proof fn diagnostics_ignore_order(s1: Seq<SectorView>, s2: Seq<SectorView>, chs: DiskChs)
    requires
        s1.to_multiset() == s2.to_multiset(),
    ensures
        any_wrong_cylinder(s1, chs.c) == any_wrong_cylinder(s2, chs.c),
        any_bad_cylinder(s1) == any_bad_cylinder(s2),
        any_wrong_head(s1, chs.h) == any_wrong_head(s2, chs.h),
{
    broadcast use vstd::seq_lib::to_multiset_contains;

    assert forall|x: SectorView| #[trigger] s1.contains(x) implies s2.contains(x) by {
        assert(s1.to_multiset().count(x) > 0);
        assert(s2.to_multiset().count(x) > 0);
    }
    assert forall|x: SectorView| #[trigger] s2.contains(x) implies s1.contains(x) by {
        assert(s2.to_multiset().count(x) > 0);
        assert(s1.to_multiset().count(x) > 0);
    }
    if any_wrong_cylinder(s1, chs.c) {
        let i = choose|i: int| 0 <= i < s1.len() && #[trigger] s1[i].id.c != chs.c;
        assert(s1.contains(s1[i]));
        let j = choose|j: int| 0 <= j < s2.len() && s2[j] == s1[i];
        assert(s2[j].id.c != chs.c);
    }
    if any_wrong_cylinder(s2, chs.c) {
        let i = choose|i: int| 0 <= i < s2.len() && #[trigger] s2[i].id.c != chs.c;
        assert(s2.contains(s2[i]));
        let j = choose|j: int| 0 <= j < s1.len() && s1[j] == s2[i];
        assert(s1[j].id.c != chs.c);
    }
    if any_bad_cylinder(s1) {
        let i = choose|i: int| 0 <= i < s1.len() && #[trigger] s1[i].id.c == 0xFF;
        assert(s1.contains(s1[i]));
        let j = choose|j: int| 0 <= j < s2.len() && s2[j] == s1[i];
        assert(s2[j].id.c == 0xFF);
    }
    if any_bad_cylinder(s2) {
        let i = choose|i: int| 0 <= i < s2.len() && #[trigger] s2[i].id.c == 0xFF;
        assert(s2.contains(s2[i]));
        let j = choose|j: int| 0 <= j < s1.len() && s1[j] == s2[i];
        assert(s1[j].id.c == 0xFF);
    }
    if any_wrong_head(s1, chs.h) {
        let i = choose|i: int| 0 <= i < s1.len() && #[trigger] s1[i].id.h != chs.h;
        assert(s1.contains(s1[i]));
        let j = choose|j: int| 0 <= j < s2.len() && s2[j] == s1[i];
        assert(s2[j].id.h != chs.h);
    }
    if any_wrong_head(s2, chs.h) {
        let i = choose|i: int| 0 <= i < s2.len() && #[trigger] s2[i].id.h != chs.h;
        assert(s2.contains(s2[i]));
        let j = choose|j: int| 0 <= j < s1.len() && s1[j] == s2[i];
        assert(s1[j].id.h != chs.h);
    }
}

/// No two sectors of `secs` share a sector number.
pub open spec fn distinct_sector_numbers(secs: Seq<SectorView>) -> bool {
    forall|a: int, b: int|
        0 <= a < secs.len() && 0 <= b < secs.len() && a != b ==> #[trigger] secs[a].id.s
            != #[trigger] secs[b].id.s
}

/// The sector number reached from `s` after `k` steps of `next_id_spec` on a
/// track at cylinder `c`, head `h`.
pub open spec fn walk(secs: Seq<SectorView>, c: u16, h: u8, s: u8, k: nat) -> u8
    decreases k,
{
    if k == 0 {
        s
    } else {
        let prev = walk(secs, c, h, s, (k - 1) as nat);
        match next_id_spec(secs, DiskChs { c, h, s: prev }) {
            Some(id) => id.s,
            None => prev,
        }
    }
}

proof fn lemma_next_of_position(secs: Seq<SectorView>, c: u16, h: u8, i: int)
    requires
        distinct_sector_numbers(secs),
        0 <= i < secs.len(),
    ensures
        next_id_spec(secs, (DiskChs { c, h, s: secs[i].id.s })) == Some(
            secs[(i + 1) % (secs.len() as int)].id,
        ),
{
    let s = secs[i].id.s;
    let chs = DiskChs { c, h, s };
    assert forall|j: int| 0 <= j < i implies (#[trigger] secs[j]).id.s != s by {
        assert(secs[j].id.s != secs[i].id.s);
    }
    assert(first_with_s(secs, chs.s, i));
    let f = choose|f: int| first_with_s(secs, chs.s, f);
    assert(f == i) by {
        if f != i {
            assert(secs[f].id.s != secs[i].id.s);
        }
    }
}

proof fn lemma_mod_step(i: int, k: int, len: int)
    requires
        0 <= i < len,
        0 <= k,
    ensures
        ((i + k) % len + 1) % len == (i + k + 1) % len,
{
    vstd::arithmetic::div_mod::lemma_add_mod_noop(i + k, 1, len);
    if len == 1 {
        assert(1int % 1 == 0);
        assert((i + k) % len == 0) by {
            vstd::arithmetic::div_mod::lemma_mod_pos_bound(i + k, len);
        }
        vstd::arithmetic::div_mod::lemma_mod_pos_bound(i + k + 1, len);
    } else {
        vstd::arithmetic::div_mod::lemma_small_mod(1, len as nat);
        vstd::arithmetic::div_mod::lemma_mod_pos_bound(i + k, len);
    }
}

proof fn lemma_mod_in_range(i: int, k: int, len: int)
    requires
        0 <= i < len,
        0 <= k < len,
    ensures
        (i + k) % len == if i + k < len {
            i + k
        } else {
            i + k - len
        },
{
    if i + k < len {
        vstd::arithmetic::div_mod::lemma_small_mod((i + k) as nat, len as nat);
    } else {
        vstd::arithmetic::div_mod::lemma_small_mod((i + k - len) as nat, len as nat);
        vstd::arithmetic::div_mod::lemma_mod_add_multiples_vanish(i + k - len, len);
    }
}

/// On a track whose sectors have distinct numbers, repeated `get_next_id`
/// steps from any sector visit the sectors in physical order, each exactly
/// once per revolution, and return to the start after one revolution.
pub proof fn next_id_visits_each_sector_once(secs: Seq<SectorView>, c: u16, h: u8, i: int)
    requires
        distinct_sector_numbers(secs),
        0 <= i < secs.len(),
    ensures
        forall|k: nat|
            #[trigger] walk(secs, c, h, secs[i].id.s, k) == secs[(i + k) % (secs.len() as int)].id.s,
        forall|k1: nat, k2: nat|
            k1 < secs.len() && k2 < secs.len() && k1 != k2 ==> #[trigger] walk(
                secs,
                c,
                h,
                secs[i].id.s,
                k1,
            ) != #[trigger] walk(secs, c, h, secs[i].id.s, k2),
        forall|j: int|
            0 <= j < secs.len() ==> exists|k: nat|
                k < secs.len() && #[trigger] walk(secs, c, h, secs[i].id.s, k) == #[trigger] secs[j].id.s,
        walk(secs, c, h, secs[i].id.s, secs.len()) == secs[i].id.s,
{
    let len = secs.len() as int;
    let s0 = secs[i].id.s;
    assert forall|k: nat| #[trigger] walk(secs, c, h, s0, k) == secs[(i + k) % len].id.s by {
        lemma_walk_position(secs, c, h, i, k);
    }
    assert forall|k1: nat, k2: nat|
        k1 < len && k2 < len && k1 != k2 implies #[trigger] walk(secs, c, h, s0, k1)
        != #[trigger] walk(secs, c, h, s0, k2) by {
        lemma_mod_in_range(i, k1 as int, len);
        lemma_mod_in_range(i, k2 as int, len);
        assert(secs[(i + k1) % len].id.s != secs[(i + k2) % len].id.s);
    }
    assert forall|j: int| 0 <= j < len implies exists|k: nat|
        k < len && #[trigger] walk(secs, c, h, s0, k) == #[trigger] secs[j].id.s by {
        let k: nat = if j >= i {
            (j - i) as nat
        } else {
            (j - i + len) as nat
        };
        lemma_mod_in_range(i, k as int, len);
        assert(walk(secs, c, h, s0, k) == secs[j].id.s);
    }
    vstd::arithmetic::div_mod::lemma_mod_add_multiples_vanish(i, len);
    vstd::arithmetic::div_mod::lemma_small_mod(i as nat, len as nat);
}

proof fn lemma_walk_position(secs: Seq<SectorView>, c: u16, h: u8, i: int, k: nat)
    requires
        distinct_sector_numbers(secs),
        0 <= i < secs.len(),
    ensures
        walk(secs, c, h, secs[i].id.s, k) == secs[(i + k) % (secs.len() as int)].id.s,
    decreases k,
{
    let len = secs.len() as int;
    if k == 0 {
        vstd::arithmetic::div_mod::lemma_small_mod(i as nat, len as nat);
    } else {
        let k1 = (k - 1) as nat;
        lemma_walk_position(secs, c, h, i, k1);
        let p = (i + k1) % len;
        vstd::arithmetic::div_mod::lemma_mod_pos_bound(i + k1, len);
        lemma_next_of_position(secs, c, h, p);
        lemma_mod_step(i, k1 as int, len);
    }
}

/// On a track with sectors, the consistent size is `n` exactly when every
/// sector has size code `n`.
pub proof fn consistent_size_iff_all_share(secs: Seq<SectorView>, n: u8)
    requires
        secs.len() > 0,
    ensures
        common_size(secs) == Some(n) <==> forall|i: int|
            0 <= i < secs.len() ==> (#[trigger] secs[i]).id.n == n,
{
}

} // verus!
