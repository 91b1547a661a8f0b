//! In-memory floppy track model: sector-granular tracks, weak-bit and hole
//! masks, and the sector read / scan / write engine of a floppy controller.

mod banner;
mod chs;
mod error;
mod image;
mod laws;
mod mask;
mod model;
mod sector;
mod track;
mod viewer;
mod writer;

pub use banner::{ErrorBanner, ErrorBannerSize};
pub use chs::{sector_size, DiskCh, DiskChs, DiskChsn, DiskChsnQuery};
pub use error::DiskImageError;
pub use image::{first_track_at, no_track_at, requested_size, DiskImage};
pub use laws::{
    added_sector_reads_back, consistent_size_iff_all_share, diagnostics_ignore_order,
    distinct_sector_numbers, next_id_visits_each_sector_once, reads_agree_off_mask, reads_are_draws,
    second_write_changes_nothing, sector_lengths_follow_size_code, unmasked_read_is_exact, walk,
    write_to_damaged_sector_is_suppressed, written_sector_reads_back,
};
pub use mask::{any_nonzero, or_bytes, MetaMask};
pub use sector::{mask_or_zeros, MetaSector, SectorDescriptor, SectorView};
pub use model::{
    added, any_address_crc_error, any_bad_cylinder, any_data_crc_error, any_deleted_mark,
    any_wrong_cylinder, any_wrong_head, common_size, first_with_id, first_with_s, id_matches,
    lemma_matching_indices, matching, matching_indices, next_id_spec, prefix_len, read_len,
    read_result_spec, read_track_result_spec, scan_result_spec, sectors_to_read, size_codes,
    track_reads_as, write_result_spec, written, xor_bytes,
};
pub use track::{
    sha1_of, DiskDataEncoding, DiskDataRate, MetaSectorTrack, ReadSectorResult, ReadTrackResult,
    RwSectorScope, ScanSectorResult, SectorMapEntry, SectorMatch, SectorMatchMut,
    System34Standard, TrackConsistency, TrackInfo, WriteSectorResult,
};
pub use viewer::{SectorSelection, SectorViewer, SectorViewerError, BLANK_SECTOR_LEN};
pub use writer::{DiskImageFormat, ImageWriter};
