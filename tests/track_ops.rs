use fluxfox::{
    DiskCh, DiskChs, DiskChsn, DiskChsnQuery, DiskDataEncoding, DiskDataRate, DiskImage,
    DiskImageError, MetaSectorTrack, RwSectorScope, SectorDescriptor, SectorSelection,
    SectorViewer, SectorViewerError, System34Standard,
};

fn descriptor(id: DiskChsn, data: Vec<u8>) -> SectorDescriptor {
    SectorDescriptor {
        id_chsn: id,
        address_crc_error: false,
        data_crc_error: false,
        deleted_mark: false,
        missing_data: false,
        data,
        weak_mask: None,
        hole_mask: None,
    }
}

fn new_track(c: u16, h: u8) -> MetaSectorTrack {
    MetaSectorTrack::new(DiskCh::new(c, h), DiskDataEncoding::Mfm, DiskDataRate::Rate250Kbps)
}

fn pattern(len: usize) -> Vec<u8> {
    (0..len).map(|i| (i % 256) as u8).collect()
}

fn image_with(track: MetaSectorTrack) -> DiskImage {
    let mut image = DiskImage::new();
    image.add_track(track);
    image
}

#[test]
fn normal_read_returns_pattern() {
    let mut track = new_track(10, 0);
    track.add_sector(&descriptor(DiskChsn::new(10, 0, 1, 2), pattern(512)), false).unwrap();
    let mut image = image_with(track);
    let rsr = image
        .read_sector(
            DiskCh::new(10, 0),
            DiskChsnQuery::new(10, 0, 1, None),
            None,
            None,
            RwSectorScope::DataOnly,
            false,
        )
        .unwrap();
    assert_eq!(rsr.read_buf, pattern(512));
    assert_eq!(rsr.data(), &pattern(512)[..]);
    assert_eq!(rsr.data_len, 512);
    assert_eq!(rsr.data_idx, 0);
    assert_eq!(rsr.id_chsn, Some(DiskChsn::new(10, 0, 1, 2)));
    assert!(!rsr.not_found);
    assert!(!rsr.no_dam);
    assert!(!rsr.address_crc_error);
    assert!(!rsr.data_crc_error);
    assert!(!rsr.deleted_mark);
    assert!(!rsr.wrong_cylinder);
    assert!(!rsr.bad_cylinder);
    assert!(!rsr.wrong_head);
}

#[test]
fn wrong_cylinder_is_flagged() {
    let mut track = new_track(10, 0);
    track.add_sector(&descriptor(DiskChsn::new(11, 0, 1, 2), pattern(512)), false).unwrap();
    let mut image = image_with(track);
    let miss = image
        .read_sector(
            DiskCh::new(10, 0),
            DiskChsnQuery::new(10, 0, 1, None),
            None,
            None,
            RwSectorScope::DataOnly,
            false,
        )
        .unwrap();
    assert!(miss.not_found);
    assert!(miss.wrong_cylinder);
    assert!(miss.read_buf.is_empty());
    assert_eq!(miss.id_chsn, None);

    let hit = image
        .read_sector(
            DiskCh::new(10, 0),
            DiskChsnQuery::new(11, 0, 1, None),
            None,
            None,
            RwSectorScope::DataOnly,
            false,
        )
        .unwrap();
    assert!(!hit.not_found);
    assert!(!hit.wrong_cylinder);
    assert_eq!(hit.read_buf, pattern(512));
}

#[test]
fn test_prolok() {
    let mut track = new_track(39, 0);
    let mut hole = vec![0u8; 512];
    for b in hole.iter_mut().take(8) {
        *b = 0xFF;
    }
    let mut sd = descriptor(DiskChsn::new(39, 0, 5, 2), pattern(512));
    sd.hole_mask = Some(hole);
    track.add_sector(&sd, false).unwrap();
    let mut disk = image_with(track);

    let rsr = disk
        .read_sector(
            DiskCh::new(39, 0),
            DiskChsnQuery::new(39, 0, 5, None),
            None,
            None,
            RwSectorScope::DataOnly,
            false,
        )
        .unwrap();
    let original_data = rsr.data().to_vec();
    assert_eq!(original_data.len(), 512);

    disk.write_sector(
        DiskCh::new(39, 0),
        DiskChsnQuery::new(39, 0, 5, Some(2)),
        None,
        &original_data,
        RwSectorScope::DataOnly,
        false,
        false,
    )
    .unwrap();

    let rsr = disk
        .read_sector(
            DiskCh::new(39, 0),
            DiskChsnQuery::new(39, 0, 5, Some(2)),
            None,
            None,
            RwSectorScope::DataOnly,
            false,
        )
        .unwrap();
    let sector_data = rsr.data().to_vec();
    assert_eq!(sector_data.len(), 512);
    assert_ne!(sector_data, original_data, "no hole detected");
    assert_eq!(sector_data[8..], original_data[8..]);
}

#[test]
fn alternate_merge_marks_weak_bits() {
    let mut track = new_track(0, 0);
    let id = DiskChsn::new(0, 0, 1, 0);
    track.add_sector(&descriptor(id, vec![0xAA; 128]), false).unwrap();
    assert!(!track.has_weak_bits());
    track.add_sector(&descriptor(id, vec![0xAB; 128]), true).unwrap();
    assert_eq!(track.get_sector_ct(), 1);
    assert!(track.has_weak_bits());
    let s = track.sector(0);
    assert_eq!(s.weak_mask().mask(), &[0x01u8; 128][..]);
    assert!(s.weak_mask().has_bits());
    assert_eq!(s.data(), &[0xAAu8; 128][..]);
}

#[test]
fn alternate_without_match_appends() {
    let mut track = new_track(0, 0);
    track.add_sector(&descriptor(DiskChsn::new(0, 0, 1, 0), vec![1; 128]), true).unwrap();
    track.add_sector(&descriptor(DiskChsn::new(0, 0, 2, 0), vec![2; 128]), true).unwrap();
    assert_eq!(track.get_sector_ct(), 2);
    assert!(!track.has_weak_bits());
}

#[test]
fn write_size_mismatch_is_parameter_error() {
    let mut track = new_track(0, 0);
    track.add_sector(&descriptor(DiskChsn::new(0, 0, 1, 2), pattern(512)), false).unwrap();
    let r = track.write_sector(
        DiskChs::new(0, 0, 1),
        None,
        &[0u8; 256],
        RwSectorScope::DataOnly,
        false,
        false,
    );
    assert_eq!(r, Err(DiskImageError::ParameterError));
    assert_eq!(track.sector(0).data(), &pattern(512)[..]);
    assert!(!track.sector(0).deleted_mark());
}

#[test]
fn duplicate_id_refuses_write() {
    let mut track = new_track(0, 0);
    track.add_sector(&descriptor(DiskChsn::new(0, 0, 1, 2), vec![1; 512]), false).unwrap();
    track.add_sector(&descriptor(DiskChsn::new(0, 0, 1, 2), vec![2; 512]), false).unwrap();
    let mut image = image_with(track);
    let r = image.write_sector(
        DiskCh::new(0, 0),
        DiskChsnQuery::new(0, 0, 1, Some(2)),
        None,
        &[0u8; 512],
        RwSectorScope::DataOnly,
        false,
        false,
    );
    assert_eq!(r, Err(DiskImageError::UniqueIdError));
}

#[test]
fn duplicate_id_read_uses_first() {
    let mut track = new_track(0, 0);
    track.add_sector(&descriptor(DiskChsn::new(0, 0, 1, 0), vec![1; 128]), false).unwrap();
    track.add_sector(&descriptor(DiskChsn::new(0, 0, 1, 0), vec![2; 128]), false).unwrap();
    let r = track.read_sector(DiskChs::new(0, 0, 1), None, RwSectorScope::DataOnly, false).unwrap();
    assert_eq!(r.read_buf, vec![1u8; 128]);
    let m = track.match_sectors(DiskChs::new(0, 0, 1), None, false);
    assert_eq!(m.len(), 2);
    assert_eq!(m.sizes, vec![0u8]);
}

#[test]
fn unmasked_read_is_deterministic() {
    let mut track = new_track(3, 1);
    track.add_sector(&descriptor(DiskChsn::new(3, 1, 7, 1), pattern(256)), false).unwrap();
    for _ in 0..5 {
        assert_eq!(track.sector(0).read_data(), pattern(256));
    }
}

#[test]
fn masked_reads_agree_off_mask() {
    let mut track = new_track(0, 0);
    let mut sd = descriptor(DiskChsn::new(0, 0, 1, 0), vec![0x5A; 128]);
    let mut weak = vec![0u8; 128];
    weak[3] = 0xF0;
    let mut hole = vec![0u8; 128];
    hole[3] = 0x0C;
    hole[100] = 0xFF;
    sd.weak_mask = Some(weak.clone());
    sd.hole_mask = Some(hole.clone());
    track.add_sector(&sd, false).unwrap();
    let r1 = track.sector(0).read_data();
    let r2 = track.sector(0).read_data();
    assert_eq!(r1.len(), 128);
    assert_eq!(r2.len(), 128);
    for i in 0..128 {
        let m = weak[i] | hole[i];
        assert_eq!(r1[i] & !m, r2[i] & !m);
        assert_eq!(r1[i] & !m, 0x5A & !m);
    }
}

#[test]
fn read_data_with_noise_is_exact() {
    let mut track = new_track(0, 0);
    let mut sd = descriptor(DiskChsn::new(0, 0, 1, 0), vec![0x0F; 128]);
    let mut weak = vec![0u8; 128];
    weak[0] = 0xFF;
    weak[1] = 0x81;
    sd.weak_mask = Some(weak);
    track.add_sector(&sd, false).unwrap();
    let r = track.sector(0).read_data_with(&[0xF0; 128]);
    assert_eq!(r[0], 0xF0);
    assert_eq!(r[1], 0x8E);
    assert_eq!(r[2], 0x0F);
}

#[test]
fn missing_data_reads_empty_and_is_not_written() {
    let mut track = new_track(0, 0);
    let mut sd = descriptor(DiskChsn::new(0, 0, 1, 0), vec![7; 128]);
    sd.missing_data = true;
    track.add_sector(&sd, false).unwrap();
    let r = track.read_sector(DiskChs::new(0, 0, 1), None, RwSectorScope::DataOnly, false).unwrap();
    assert!(r.read_buf.is_empty());
    assert!(r.data().is_empty());
    assert!(r.no_dam);
    assert!(!r.not_found);
    let w = track
        .write_sector(DiskChs::new(0, 0, 1), None, &[9; 128], RwSectorScope::DataOnly, true, false)
        .unwrap();
    assert!(w.no_dam);
    assert!(!w.address_crc_error);
    assert_eq!(track.sector(0).data(), &[7u8; 128][..]);
    assert!(!track.sector(0).deleted_mark());
}

#[test]
fn bad_address_crc_sector_is_not_written() {
    let mut track = new_track(0, 0);
    let mut sd = descriptor(DiskChsn::new(0, 0, 1, 0), vec![7; 128]);
    sd.address_crc_error = true;
    track.add_sector(&sd, false).unwrap();
    let w = track
        .write_sector(DiskChs::new(0, 0, 1), Some(0), &[9; 128], RwSectorScope::DataOnly, true, false)
        .unwrap();
    assert!(w.address_crc_error);
    assert!(!w.no_dam);
    assert_eq!(track.sector(0).data(), &[7u8; 128][..]);
    assert!(!track.sector(0).deleted_mark());
}

#[test]
fn add_then_read_round_trip() {
    let mut track = new_track(2, 1);
    track.add_sector(&descriptor(DiskChsn::new(2, 1, 1, 1), vec![3; 256]), false).unwrap();
    track.add_sector(&descriptor(DiskChsn::new(2, 1, 2, 1), pattern(256)), false).unwrap();
    let r = track.read_sector(DiskChs::new(2, 1, 2), Some(1), RwSectorScope::DataOnly, false).unwrap();
    assert_eq!(r.read_buf, pattern(256));
    assert_eq!(r.id_chsn, Some(DiskChsn::new(2, 1, 2, 1)));
}

#[test]
fn write_then_read_and_write_again() {
    let mut track = new_track(0, 0);
    track.add_sector(&descriptor(DiskChsn::new(0, 0, 1, 0), vec![0; 128]), false).unwrap();
    let w = track
        .write_sector(DiskChs::new(0, 0, 1), None, &pattern(128), RwSectorScope::DataOnly, true, false)
        .unwrap();
    assert!(!w.not_found && !w.no_dam && !w.address_crc_error);
    let r = track.read_sector(DiskChs::new(0, 0, 1), None, RwSectorScope::DataOnly, false).unwrap();
    assert_eq!(r.read_buf, pattern(128));
    assert!(r.deleted_mark);
    let w2 = track
        .write_sector(DiskChs::new(0, 0, 1), None, &pattern(128), RwSectorScope::DataOnly, true, false)
        .unwrap();
    assert_eq!(w, w2);
    assert_eq!(track.sector(0).data(), &pattern(128)[..]);
    assert!(track.sector(0).deleted_mark());
}

#[test]
fn write_without_match_succeeds_unchanged() {
    let mut track = new_track(5, 0);
    track.add_sector(&descriptor(DiskChsn::new(6, 1, 1, 0), vec![4; 128]), false).unwrap();
    let w = track
        .write_sector(DiskChs::new(5, 0, 9), None, &[0; 128], RwSectorScope::DataOnly, false, false)
        .unwrap();
    assert!(!w.not_found);
    assert!(!w.no_dam);
    assert!(!w.address_crc_error);
    assert!(!w.wrong_cylinder);
    assert!(!w.wrong_head);
    assert!(!w.bad_cylinder);
    assert_eq!(track.sector(0).data(), &[4u8; 128][..]);
}

#[test]
fn flags_do_not_depend_on_order() {
    let ids = [DiskChsn::new(0xFF, 0, 1, 0), DiskChsn::new(4, 1, 2, 0), DiskChsn::new(4, 0, 3, 0)];
    let mut forward = new_track(4, 0);
    let mut backward = new_track(4, 0);
    for id in ids.iter() {
        forward.add_sector(&descriptor(*id, vec![0; 128]), false).unwrap();
    }
    for id in ids.iter().rev() {
        backward.add_sector(&descriptor(*id, vec![0; 128]), false).unwrap();
    }
    let a = forward.scan_sector(DiskChs::new(4, 0, 3), None).unwrap();
    let b = backward.scan_sector(DiskChs::new(4, 0, 3), None).unwrap();
    assert_eq!(a, b);
    assert!(a.wrong_cylinder && a.bad_cylinder && a.wrong_head && !a.not_found);
}

#[test]
fn next_id_wraps_around_track() {
    let mut track = new_track(1, 0);
    for s in 1..=3u8 {
        track.add_sector(&descriptor(DiskChsn::new(1, 0, s, 0), vec![s; 128]), false).unwrap();
    }
    assert_eq!(track.get_next_id(DiskChs::new(1, 0, 1)), Some(DiskChsn::new(1, 0, 2, 0)));
    assert_eq!(track.get_next_id(DiskChs::new(1, 0, 3)), Some(DiskChsn::new(1, 0, 1, 0)));
    assert_eq!(track.get_next_id(DiskChs::new(1, 0, 9)), None);
    let mut seen = Vec::new();
    let mut s = 2u8;
    for _ in 0..3 {
        s = track.get_next_id(DiskChs::new(1, 0, s)).unwrap().s();
        seen.push(s);
    }
    assert_eq!(seen, vec![3, 1, 2]);
    assert_eq!(new_track(0, 0).get_next_id(DiskChs::new(0, 0, 1)), None);
}

#[test]
fn next_id_is_the_following_sectors_own_id() {
    let mut track = new_track(1, 0);
    track.add_sector(&descriptor(DiskChsn::new(1, 0, 1, 0), vec![0; 128]), false).unwrap();
    track.add_sector(&descriptor(DiskChsn::new(7, 1, 2, 1), vec![0; 256]), false).unwrap();
    assert_eq!(track.get_next_id(DiskChs::new(1, 0, 1)), Some(DiskChsn::new(7, 1, 2, 1)));
    assert_eq!(track.get_next_id(DiskChs::new(9, 9, 2)), Some(DiskChsn::new(1, 0, 1, 0)));
}

#[test]
fn consistency_reports_common_size() {
    let mut track = new_track(0, 0);
    for s in 1..=3u8 {
        track.add_sector(&descriptor(DiskChsn::new(0, 0, s, 2), vec![0; 512]), false).unwrap();
    }
    let c = track.get_track_consistency();
    assert_eq!(c.consistent_sector_size, Some(2));
    assert_eq!(c.sector_ct, 3);
    assert!(!c.nonconsecutive_sectors);
    track.add_sector(&descriptor(DiskChsn::new(0, 0, 9, 1), vec![0; 256]), false).unwrap();
    let c = track.get_track_consistency();
    assert_eq!(c.consistent_sector_size, None);
    assert!(c.nonconsecutive_sectors);
    assert_eq!(new_track(0, 0).get_track_consistency().consistent_sector_size, Some(0));
}

#[test]
fn consistency_flags() {
    let mut track = new_track(0, 0);
    let mut a = descriptor(DiskChsn::new(0, 0, 1, 0), vec![0; 128]);
    a.data_crc_error = true;
    let mut b = descriptor(DiskChsn::new(0, 0, 2, 0), vec![0; 128]);
    b.deleted_mark = true;
    track.add_sector(&a, false).unwrap();
    track.add_sector(&b, false).unwrap();
    let c = track.get_track_consistency();
    assert!(c.bad_data_crc);
    assert!(!c.bad_address_crc);
    assert!(c.deleted_data);
}

#[test]
fn read_all_sectors_stops_after_track_len() {
    let mut track = new_track(0, 0);
    for s in 1..=3u8 {
        let mut sd = descriptor(DiskChsn::new(0, 0, s, 0), vec![s; 128]);
        sd.address_crc_error = s == 3;
        sd.deleted_mark = s == 2;
        track.add_sector(&sd, false).unwrap();
    }
    let r = track.read_all_sectors(DiskCh::new(0, 0), 0, 2).unwrap();
    assert_eq!(r.sectors_read, 2);
    let mut expected = vec![1u8; 128];
    expected.extend(vec![2u8; 128]);
    assert_eq!(r.read_buf, expected);
    assert_eq!(r.read_len_bytes, 256);
    assert_eq!(r.read_len_bits, 4096);
    assert!(r.deleted_mark);
    assert!(!r.address_crc_error);
    assert!(!r.data_crc_error);
    assert!(!r.not_found);

    let all = track.read_all_sectors(DiskCh::new(0, 0), 0xFF, 0xFF).unwrap();
    assert_eq!(all.sectors_read, 3);
    assert_eq!(all.read_len_bytes, 384);
    assert!(all.address_crc_error);

    let none = track.read_all_sectors(DiskCh::new(0, 0), 0, 0).unwrap();
    assert_eq!(none.sectors_read, 0);
    assert!(none.read_buf.is_empty());
    assert!(!none.not_found);

    let empty = new_track(0, 0).read_all_sectors(DiskCh::new(0, 0), 0, 10).unwrap();
    assert!(empty.not_found);
    assert_eq!(empty.read_len_bits, 0);
}

#[test]
fn hash_of_tracks() {
    let empty = new_track(0, 0).get_hash();
    assert_eq!(
        empty,
        [
            0xda, 0x39, 0xa3, 0xee, 0x5e, 0x6b, 0x4b, 0x0d, 0x32, 0x55, 0xbf, 0xef, 0x95, 0x60,
            0x18, 0x90, 0xaf, 0xd8, 0x07, 0x09
        ]
    );
    let mut a = new_track(0, 0);
    a.add_sector(&descriptor(DiskChsn::new(0, 0, 1, 0), vec![1; 128]), false).unwrap();
    let mut b = new_track(0, 0);
    b.add_sector(&descriptor(DiskChsn::new(0, 0, 1, 0), vec![1; 128]), false).unwrap();
    let mut c = new_track(0, 0);
    c.add_sector(&descriptor(DiskChsn::new(0, 0, 1, 0), vec![2; 128]), false).unwrap();
    assert_eq!(a.get_hash(), b.get_hash());
    assert_ne!(a.get_hash(), c.get_hash());
    assert_ne!(a.get_hash(), empty);
}

#[test]
fn seek_error_for_missing_track() {
    let mut image = image_with(new_track(0, 0));
    let r = image.read_sector(
        DiskCh::new(1, 0),
        DiskChsnQuery::new(1, 0, 1, None),
        None,
        None,
        RwSectorScope::DataOnly,
        false,
    );
    assert!(matches!(r, Err(DiskImageError::SeekError)));
    let w = image.write_sector(
        DiskCh::new(0, 1),
        DiskChsnQuery::new(0, 1, 1, None),
        None,
        &[0; 128],
        RwSectorScope::DataOnly,
        false,
        false,
    );
    assert_eq!(w, Err(DiskImageError::SeekError));
}

#[test]
fn data_block_scope_is_refused() {
    let mut track = new_track(0, 0);
    track.add_sector(&descriptor(DiskChsn::new(0, 0, 1, 0), vec![0; 128]), false).unwrap();
    let r = track.read_sector(DiskChs::new(0, 0, 1), None, RwSectorScope::DataBlock, false);
    assert!(matches!(r, Err(DiskImageError::ParameterError)));
}

#[test]
fn bit_stream_operations_are_unsupported() {
    let mut track = new_track(0, 0);
    assert!(matches!(track.read_track(None), Err(DiskImageError::UnsupportedFormat)));
    let f = track.format(System34Standard::Ibm, vec![DiskChsn::new(0, 0, 1, 2)], &[0xF6], 84);
    assert_eq!(f, Err(DiskImageError::UnsupportedFormat));
}

#[test]
fn invalid_descriptor_is_refused() {
    let mut track = new_track(0, 0);
    let r = track.add_sector(&descriptor(DiskChsn::new(0, 0, 1, 2), vec![0; 511]), false);
    assert_eq!(r, Err(DiskImageError::ParameterError));
    let mut sd = descriptor(DiskChsn::new(0, 0, 1, 0), vec![0; 128]);
    sd.weak_mask = Some(vec![0; 64]);
    assert_eq!(track.add_sector(&sd, false), Err(DiskImageError::ParameterError));
    assert_eq!(track.get_sector_ct(), 0);
}

#[test]
fn debug_mode_matches_on_sector_number() {
    let mut track = new_track(0, 0);
    track.add_sector(&descriptor(DiskChsn::new(7, 1, 4, 0), vec![8; 128]), false).unwrap();
    let strict = track.read_sector(DiskChs::new(0, 0, 4), None, RwSectorScope::DataOnly, false).unwrap();
    assert!(strict.not_found);
    let loose = track.read_sector(DiskChs::new(0, 0, 4), None, RwSectorScope::DataOnly, true).unwrap();
    assert!(!loose.not_found);
    assert_eq!(loose.read_buf, vec![8u8; 128]);
}

#[test]
fn size_code_filters_matches() {
    let mut track = new_track(0, 0);
    track.add_sector(&descriptor(DiskChsn::new(0, 0, 1, 0), vec![1; 128]), false).unwrap();
    track.add_sector(&descriptor(DiskChsn::new(0, 0, 1, 1), vec![2; 256]), false).unwrap();
    let r = track.read_sector(DiskChs::new(0, 0, 1), Some(1), RwSectorScope::DataOnly, false).unwrap();
    assert_eq!(r.read_buf, vec![2u8; 256]);
    let m = track.match_sectors_mut(DiskChs::new(0, 0, 1), None, false);
    assert_eq!(m.sectors, vec![0usize, 1]);
    let mut sizes = m.sizes.clone();
    sizes.sort();
    assert_eq!(sizes, vec![0u8, 1]);
    let none = track.match_sectors(DiskChs::new(0, 0, 1), Some(3), false);
    assert_eq!(none.len(), 0);
    assert!(none.sizes.is_empty());
}

#[test]
fn image_query_size_takes_precedence() {
    let mut track = new_track(0, 0);
    track.add_sector(&descriptor(DiskChsn::new(0, 0, 1, 0), vec![1; 128]), false).unwrap();
    track.add_sector(&descriptor(DiskChsn::new(0, 0, 1, 1), vec![2; 256]), false).unwrap();
    let mut image = image_with(track);
    let r = image
        .read_sector(
            DiskCh::new(0, 0),
            DiskChsnQuery::new(0, 0, 1, Some(1)),
            Some(0),
            None,
            RwSectorScope::DataOnly,
            false,
        )
        .unwrap();
    assert_eq!(r.read_buf, vec![2u8; 256]);
    let r = image
        .read_sector(
            DiskCh::new(0, 0),
            DiskChsnQuery::new(0, 0, 1, None),
            Some(1),
            None,
            RwSectorScope::DataOnly,
            false,
        )
        .unwrap();
    assert_eq!(r.read_buf, vec![2u8; 256]);
}

#[test]
fn sector_list_and_lookup() {
    let mut track = new_track(0, 0);
    let mut sd = descriptor(DiskChsn::new(0, 0, 1, 0), vec![1; 128]);
    sd.data_crc_error = true;
    sd.missing_data = true;
    track.add_sector(&sd, false).unwrap();
    track.add_sector(&descriptor(DiskChsn::new(0, 0, 2, 0), vec![2; 128]), false).unwrap();
    let list = track.get_sector_list();
    assert_eq!(list.len(), 2);
    assert_eq!(list[0].chsn, DiskChsn::new(0, 0, 1, 0));
    assert!(!list[0].data_crc_valid);
    assert!(list[0].address_crc_valid);
    assert!(list[0].no_dam);
    assert!(list[1].data_crc_valid);
    assert!(track.has_sector_id(2, None));
    assert!(!track.has_sector_id(3, None));
    assert!(track.has_sector_id(9, Some(DiskChsn::new(0, 0, 2, 0))));
    assert!(!track.has_sector_id(2, Some(DiskChsn::new(0, 0, 2, 1))));
    let info = track.info();
    assert_eq!(info.sector_ct, 2);
    assert_eq!(info.bit_length, 0);
    assert_eq!(info.encoding, DiskDataEncoding::Mfm);
}

#[test]
fn track_can_move() {
    let mut track = new_track(0, 0);
    track.set_ch(DiskCh::new(3, 1));
    assert_eq!(track.ch(), DiskCh::new(3, 1));
    let image = image_with(track);
    assert!(image.track(DiskCh::new(3, 1)).is_some());
    assert!(image.track(DiskCh::new(0, 0)).is_none());
    assert_eq!(image.track_index(DiskCh::new(3, 1)), Some(0));
    assert_eq!(image.track_ct(), 1);
}

#[test]
fn viewer_shows_sector_or_reason() {
    let mut track = new_track(10, 0);
    track.add_sector(&descriptor(DiskChsn::new(10, 0, 1, 2), pattern(512)), false).unwrap();
    let mut image = image_with(track);
    let mut viewer = SectorViewer::new(DiskCh::new(0, 0), DiskChsn::new(0, 0, 1, 2));
    viewer.set_open(true);
    viewer.update(
        &mut image,
        SectorSelection { phys_ch: DiskCh::new(10, 0), sector_id: DiskChsn::new(10, 0, 1, 2) },
    );
    assert!(viewer.valid);
    assert!(viewer.open);
    assert_eq!(viewer.error, None);
    assert_eq!(viewer.data, pattern(512));
    assert_eq!(viewer.phys_ch, DiskCh::new(10, 0));

    viewer.update(
        &mut image,
        SectorSelection { phys_ch: DiskCh::new(10, 0), sector_id: DiskChsn::new(10, 0, 2, 2) },
    );
    assert!(!viewer.valid);
    assert_eq!(viewer.error, Some(SectorViewerError::NotFound(DiskChsn::new(10, 0, 2, 2))));
    assert_eq!(viewer.data, vec![0u8; 512]);

    viewer.update(
        &mut image,
        SectorSelection { phys_ch: DiskCh::new(11, 0), sector_id: DiskChsn::new(11, 0, 1, 2) },
    );
    assert_eq!(viewer.error, Some(SectorViewerError::Read(DiskImageError::SeekError)));

    viewer.lock_failed();
    assert_eq!(viewer.error, Some(SectorViewerError::LockUnavailable));
    assert!(!viewer.valid);
}
