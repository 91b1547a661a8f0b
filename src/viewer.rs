//! The state behind a sector viewer window: which sector it shows, the bytes
//! it shows, and why it shows none.

use vstd::prelude::*;

use crate::chs::{DiskCh, DiskChs, DiskChsn, DiskChsnQuery};
use crate::error::DiskImageError;
use crate::image::{first_track_at, no_track_at, DiskImage};
use crate::model::matching_indices;
use crate::track::{ReadSectorResult, RwSectorScope};

verus! {

/// The sector a user picked: the physical track and the ID to look for.
#[derive(Clone, Copy, Debug, PartialEq, Eq, Structural)]
pub struct SectorSelection {
    pub phys_ch: DiskCh,
    pub sector_id: DiskChsn,
}

/// Why a viewer shows no sector.
#[derive(Clone, Debug, PartialEq, Eq)]
pub enum SectorViewerError {
    /// The read itself failed.
    Read(DiskImageError),
    /// No sector on the track answers the selected ID.
    NotFound(DiskChsn),
    /// The read returned data but no ID to show it under.
    NoSectorId,
    /// The disk could not be locked for reading.
    LockUnavailable,
}

/// The number of zero bytes a viewer shows in place of a sector it could not
/// read.
pub const BLANK_SECTOR_LEN: usize = 512;

/// A sector viewer.
pub struct SectorViewer {
    pub phys_ch: DiskCh,
    pub sector_id: DiskChsn,
    pub data: Vec<u8>,
    pub open: bool,
    pub valid: bool,
    pub error: Option<SectorViewerError>,
}

impl SectorViewer {
    /// A closed viewer of `sector_id` on `phys_ch`, with nothing read yet.
    pub fn new(phys_ch: DiskCh, sector_id: DiskChsn) -> (r: SectorViewer)
        ensures
            r.phys_ch == phys_ch,
            r.sector_id == sector_id,
            r.data@.len() == 0,
            !r.open,
            !r.valid,
            r.error is None,
    {
        SectorViewer { phys_ch, sector_id, data: Vec::new(), open: false, valid: false, error: None }
    }

    pub fn set_open(&mut self, open: bool)
        ensures
            final(self).open == open,
            final(self).phys_ch == old(self).phys_ch,
            final(self).sector_id == old(self).sector_id,
            final(self).data == old(self).data,
            final(self).valid == old(self).valid,
            final(self).error == old(self).error,
    {
        self.open = open;
    }

    /// Records that the disk could not be locked: nothing valid is shown.
    pub fn lock_failed(&mut self)
        ensures
            final(self).error == Some(SectorViewerError::LockUnavailable),
            !final(self).valid,
            final(self).open == old(self).open,
            final(self).phys_ch == old(self).phys_ch,
            final(self).sector_id == old(self).sector_id,
            final(self).data == old(self).data,
    {
        self.error = Some(SectorViewerError::LockUnavailable);
        self.valid = false;
    }

    /// Takes in the result of reading `selection`: the sector's bytes and ID
    /// when it was found with an ID; else the reason, with a blank sector
    /// shown where the read returned a result.
    pub fn apply_read(
        &mut self,
        selection: SectorSelection,
        result: Result<ReadSectorResult, DiskImageError>,
    )
        ensures
            final(self).phys_ch == selection.phys_ch,
            final(self).open == old(self).open,
            match result {
                Err(e) => {
                    &&& final(self).error == Some(SectorViewerError::Read(e))
                    &&& !final(self).valid
                    &&& final(self).sector_id == old(self).sector_id
                    &&& final(self).data == old(self).data
                },
                Ok(rsr) => if rsr.not_found {
                    &&& final(self).error == Some(SectorViewerError::NotFound(selection.sector_id))
                    &&& !final(self).valid
                    &&& final(self).sector_id == old(self).sector_id
                    &&& final(self).data@ == Seq::new(BLANK_SECTOR_LEN as nat, |i: int| 0u8)
                } else {
                    match rsr.id_chsn {
                        Some(id) => {
                            &&& final(self).error is None
                            &&& final(self).valid
                            &&& final(self).sector_id == id
                            &&& final(self).data@ == rsr.read_buf@.subrange(
                                if rsr.data_idx <= rsr.read_buf@.len() {
                                    rsr.data_idx as int
                                } else {
                                    rsr.read_buf@.len() as int
                                },
                                if rsr.data_idx <= rsr.read_buf@.len() && rsr.data_len
                                    <= rsr.read_buf@.len() - rsr.data_idx {
                                    rsr.data_idx + rsr.data_len
                                } else {
                                    rsr.read_buf@.len() as int
                                },
                            )
                        },
                        None => {
                            &&& final(self).error == Some(SectorViewerError::NoSectorId)
                            &&& !final(self).valid
                            &&& final(self).sector_id == old(self).sector_id
                            &&& final(self).data@ == Seq::new(
                                BLANK_SECTOR_LEN as nat,
                                |i: int| 0u8,
                            )
                        },
                    }
                },
            },
    {
        let ghost res = result;
        self.phys_ch = selection.phys_ch;
        match result {
            Err(e) => {
                self.error = Some(SectorViewerError::Read(e));
                self.valid = false;
            },
            Ok(rsr) => {
                if rsr.not_found {
                    self.error = Some(SectorViewerError::NotFound(selection.sector_id));
                    self.data = vec![0; BLANK_SECTOR_LEN];
                    self.valid = false;
                } else {
                    match rsr.id_chsn {
                        Some(id) => {
                            self.sector_id = id;
                            self.data = vstd::slice::slice_to_vec(rsr.data());
                            self.error = None;
                            self.valid = true;
                        },
                        None => {
                            self.error = Some(SectorViewerError::NoSectorId);
                            self.data = vec![0; BLANK_SECTOR_LEN];
                            self.valid = false;
                        },
                    }
                }
            },
        }
        proof {
            if let Ok(rsr) = res {
                if rsr.not_found || rsr.id_chsn is None {
                    assert(self.data@ =~= Seq::new(BLANK_SECTOR_LEN as nat, |i: int| 0u8));
                }
            }
        }
    }

    /// Reads `selection` from `disk` and takes in the result: the first
    /// sector on the track that answers the selected ID, masks applied.
    pub fn update(&mut self, disk: &mut DiskImage, selection: SectorSelection)
        requires
            old(disk).wf(),
        ensures
            final(disk).tracks_spec() == old(disk).tracks_spec(),
            final(self).phys_ch == selection.phys_ch,
            final(self).open == old(self).open,
            no_track_at(old(disk).tracks_spec(), selection.phys_ch) ==> final(self).error == Some(
                SectorViewerError::Read(DiskImageError::SeekError),
            ) && !final(self).valid,
            forall|t: int|
                #[trigger] first_track_at(old(disk).tracks_spec(), selection.phys_ch, t) ==> {
                    let secs = old(disk).tracks_spec()[t].sector_views();
                    let chs = (DiskChs {
                        c: selection.sector_id.c,
                        h: selection.sector_id.h,
                        s: selection.sector_id.s,
                    });
                    let idx = matching_indices(secs, chs, Some(selection.sector_id.n), false);
                    if idx.len() == 0 {
                        &&& final(self).error == Some(
                            SectorViewerError::NotFound(selection.sector_id),
                        )
                        &&& !final(self).valid
                    } else {
                        &&& final(self).error is None
                        &&& final(self).valid
                        &&& final(self).sector_id == secs[idx[0]].id
                        &&& secs[idx[0]].reads_as(final(self).data@)
                    }
                },
    {
        let id = selection.sector_id;
        let query = DiskChsnQuery::new(id.c, id.h, id.s, Some(id.n));
        let result = disk.read_sector(selection.phys_ch, query, None, None, RwSectorScope::DataOnly, false);
        let ghost r = result;
        self.apply_read(selection, result);
        proof {
            if let Ok(rsr) = r {
                if !rsr.not_found {
                    assert(rsr.read_buf@.subrange(0, rsr.read_buf@.len() as int) =~= rsr.read_buf@);
                }
            }
        }
    }
}

} // verus!
