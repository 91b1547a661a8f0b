//! A disk image: its tracks, keyed by physical cylinder and head, and the
//! sector operations dispatched to them.

use vstd::prelude::*;

use crate::chs::{DiskCh, DiskChs, DiskChsnQuery};
use crate::error::DiskImageError;
use crate::model::{read_result_spec, write_result_spec};
use crate::track::{MetaSectorTrack, ReadSectorResult, RwSectorScope, WriteSectorResult};

verus! {

/// `t` is the first track of `tracks` at `ch`.
pub open spec fn first_track_at(tracks: Seq<MetaSectorTrack>, ch: DiskCh, t: int) -> bool {
    &&& 0 <= t < tracks.len()
    &&& tracks[t].ch_spec() == ch
    &&& forall|u: int| 0 <= u < t ==> (#[trigger] tracks[u]).ch_spec() != ch
}

/// No track of `tracks` stands at `ch`.
pub open spec fn no_track_at(tracks: Seq<MetaSectorTrack>, ch: DiskCh) -> bool {
    forall|u: int| 0 <= u < tracks.len() ==> (#[trigger] tracks[u]).ch_spec() != ch
}

/// The size code that a request asks for: the query's own, else `n`.
pub open spec fn requested_size(query: DiskChsnQuery, n: Option<u8>) -> Option<u8> {
    match query.n {
        Some(x) => Some(x),
        None => n,
    }
}

/// A disk image: the tracks it owns.
pub struct DiskImage {
    tracks: Vec<MetaSectorTrack>,
}

impl DiskImage {
    pub closed spec fn tracks_spec(&self) -> Seq<MetaSectorTrack> {
        self.tracks@
    }

    pub open spec fn wf(&self) -> bool {
        forall|t: int| 0 <= t < self.tracks_spec().len() ==> (#[trigger] self.tracks_spec()[t]).wf()
    }

    /// An image without tracks.
    pub fn new() -> (r: DiskImage)
        ensures
            r.wf(),
            r.tracks_spec() == Seq::<MetaSectorTrack>::empty(),
    {
        DiskImage { tracks: Vec::new() }
    }

    /// Adds a track after the others.
    pub fn add_track(&mut self, track: MetaSectorTrack)
        requires
            old(self).wf(),
            track.wf(),
        ensures
            final(self).wf(),
            final(self).tracks_spec() == old(self).tracks_spec().push(track),
    {
        self.tracks.push(track);
    }

    /// The number of tracks.
    pub fn track_ct(&self) -> (r: usize)
        ensures
            r == self.tracks_spec().len(),
    {
        self.tracks.len()
    }

    /// The position of the first track at `ch`, if any.
    pub fn track_index(&self, ch: DiskCh) -> (r: Option<usize>)
        ensures
            r matches Some(t) ==> first_track_at(self.tracks_spec(), ch, t as int),
            r is None ==> no_track_at(self.tracks_spec(), ch),
    {
        let mut t: usize = 0;
        while t < self.tracks.len()
            invariant
                t <= self.tracks@.len(),
                forall|u: int| 0 <= u < t ==> (#[trigger] self.tracks@[u]).ch_spec() != ch,
            decreases self.tracks@.len() - t,
        {
            if self.tracks[t].ch() == ch {
                return Some(t);
            }
            t = t + 1;
        }
        None
    }

    /// The first track at `ch`, if any.
    pub fn track(&self, ch: DiskCh) -> (r: Option<&MetaSectorTrack>)
        ensures
            r matches Some(tr) ==> exists|t: int|
                first_track_at(self.tracks_spec(), ch, t) && *tr == self.tracks_spec()[t],
            r is None ==> no_track_at(self.tracks_spec(), ch),
    {
        match self.track_index(ch) {
            Some(t) => Some(&self.tracks[t]),
            None => None,
        }
    }

    /// Reads a sector from the track at `phys_ch`. The query's size code, if
    /// it has one, is the one asked for, else `n`. `offset` does not change
    /// what a sector-granular track reads.
    pub fn read_sector(
        &mut self,
        phys_ch: DiskCh,
        query: DiskChsnQuery,
        n: Option<u8>,
        offset: Option<usize>,
        scope: RwSectorScope,
        debug: bool,
    ) -> (r: Result<ReadSectorResult, DiskImageError>)
        requires
            old(self).wf(),
        ensures
            final(self).tracks_spec() == old(self).tracks_spec(),
            no_track_at(old(self).tracks_spec(), phys_ch) ==> r == Err::<
                ReadSectorResult,
                DiskImageError,
            >(DiskImageError::SeekError),
            forall|t: int|
                #[trigger] first_track_at(old(self).tracks_spec(), phys_ch, t) ==> {
                    &&& scope == RwSectorScope::DataBlock ==> r == Err::<
                        ReadSectorResult,
                        DiskImageError,
                    >(DiskImageError::ParameterError)
                    &&& scope == RwSectorScope::DataOnly ==> r is Ok && read_result_spec(
                        old(self).tracks_spec()[t].sector_views(),
                        (DiskChs { c: query.c, h: query.h, s: query.s }),
                        requested_size(query, n),
                        debug,
                        r->Ok_0,
                    )
                },
    {
        let size = match query.n {
            Some(x) => Some(x),
            None => n,
        };
        match self.track_index(phys_ch) {
            None => Err(DiskImageError::SeekError),
            Some(t) => {
                proof {
                    assert forall|u: int| #[trigger]
                        first_track_at(self.tracks@, phys_ch, u) implies u == t as int by {
                        if u < t {
                            assert(self.tracks@[u].ch_spec() != phys_ch);
                        }
                        if u > t {
                            assert(self.tracks@[t as int].ch_spec() != phys_ch);
                        }
                    }
                }
                let ghost before = self.tracks@;
                let r = self.tracks[t].read_sector(query.chs(), size, scope, debug);
                proof {
                    assert(self.tracks@ =~= before);
                }
                r
            },
        }
    }

    /// Writes a sector on the track at `phys_ch`, as `read_sector` chooses
    /// the size code. The other tracks are not touched.
    pub fn write_sector(
        &mut self,
        phys_ch: DiskCh,
        query: DiskChsnQuery,
        n: Option<u8>,
        write_data: &[u8],
        scope: RwSectorScope,
        write_deleted: bool,
        debug: bool,
    ) -> (r: Result<WriteSectorResult, DiskImageError>)
        requires
            old(self).wf(),
        ensures
            final(self).wf(),
            no_track_at(old(self).tracks_spec(), phys_ch) ==> r == Err::<
                WriteSectorResult,
                DiskImageError,
            >(DiskImageError::SeekError) && *final(self) == *old(self),
            forall|t: int|
                #[trigger] first_track_at(old(self).tracks_spec(), phys_ch, t) ==> {
                    &&& final(self).tracks_spec().len() == old(self).tracks_spec().len()
                    &&& forall|u: int|
                        0 <= u < old(self).tracks_spec().len() && u != t
                            ==> #[trigger] final(self).tracks_spec()[u]
                            == old(self).tracks_spec()[u]
                    &&& final(self).tracks_spec()[t].ch_spec() == phys_ch
                    &&& write_result_spec(
                        old(self).tracks_spec()[t].sector_views(),
                        (DiskChs { c: query.c, h: query.h, s: query.s }),
                        requested_size(query, n),
                        write_data@,
                        write_deleted,
                        debug,
                        r,
                        final(self).tracks_spec()[t].sector_views(),
                    )
                },
    {
        let size = match query.n {
            Some(x) => Some(x),
            None => n,
        };
        match self.track_index(phys_ch) {
            None => Err(DiskImageError::SeekError),
            Some(t) => {
                proof {
                    assert forall|u: int| #[trigger]
                        first_track_at(self.tracks@, phys_ch, u) implies u == t as int by {
                        if u < t {
                            assert(self.tracks@[u].ch_spec() != phys_ch);
                        }
                        if u > t {
                            assert(self.tracks@[t as int].ch_spec() != phys_ch);
                        }
                    }
                }
                let ghost before = self.tracks@;
                let r = self.tracks[t].write_sector(
                    query.chs(),
                    size,
                    write_data,
                    scope,
                    write_deleted,
                    debug,
                );
                proof {
                    assert forall|u: int| 0 <= u < self.tracks@.len() implies (#[trigger] self.tracks@[u]).wf() by {
                        if u != t {
                            assert(self.tracks@[u] == before[u]);
                        }
                    }
                }
                r
            },
        }
    }
}

} // verus!
