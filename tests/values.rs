use fluxfox::{
    DiskChsn, DiskImageError, DiskImageFormat, ErrorBanner, ErrorBannerSize, ImageWriter, MetaMask,
};

#[test]
fn mask_has_bits_follows_bytes() {
    let m = MetaMask::empty(16);
    assert!(!m.has_bits());
    assert_eq!(m.len(), 16);
    let mut m = MetaMask::from(&[0, 0, 4]);
    assert!(m.has_bits());
    m.clear();
    assert!(!m.has_bits());
    assert_eq!(m.mask(), &[0u8, 0, 0][..]);
    m.or_slice(&[0, 1, 0]);
    assert!(m.has_bits());
    assert_eq!(m.mask(), &[0u8, 1, 0][..]);
    m.set_mask(&[0, 0, 0]);
    assert!(!m.has_bits());
    let other = MetaMask::from(&[8, 0, 2]);
    m.or_mask(&other);
    assert_eq!(m.mask(), &[8u8, 0, 2][..]);
    assert_eq!(m.iter().copied().collect::<Vec<u8>>(), vec![8u8, 0, 2]);
    let empty = MetaMask::from(&[]);
    assert!(!empty.has_bits());
}

#[test]
fn size_codes_give_lengths() {
    assert!(DiskChsn::size_matches(0, 128));
    assert!(DiskChsn::size_matches(2, 512));
    assert!(DiskChsn::size_matches(7, 16384));
    assert!(!DiskChsn::size_matches(2, 256));
    assert!(!DiskChsn::size_matches(0xFF, 512));
    assert!(!DiskChsn::size_matches(1, 0));
}

#[test]
fn banner_builders() {
    let b = ErrorBanner::new("disk on fire");
    assert_eq!(b.message(), Some("disk on fire"));
    assert_eq!(b.size(), ErrorBannerSize::Medium);
    assert!(!b.is_dismissable());
    let b = b.small().dismissable();
    assert_eq!(b.size(), ErrorBannerSize::Small);
    assert!(b.is_dismissable());
    let mut b = b.large();
    assert_eq!(b.size(), ErrorBannerSize::Large);
    b.set_message("other");
    assert_eq!(b.message(), Some("other"));
    b.dismiss();
    assert_eq!(b.message(), None);
    assert_eq!(b.medium().size(), ErrorBannerSize::Medium);
}

#[test]
fn writer_needs_path_and_format() {
    let w = ImageWriter::new();
    assert!(w.path.is_none() && w.format.is_none());
    assert!(matches!(ImageWriter::new().target(), Err(DiskImageError::ParameterError)));
    let only_format = ImageWriter::new().with_format(DiskImageFormat::ImageDisk);
    assert!(matches!(only_format.target(), Err(DiskImageError::ParameterError)));
    let only_path = ImageWriter::new().with_path(std::path::PathBuf::from("a.img"));
    assert!(matches!(only_path.target(), Err(DiskImageError::ParameterError)));
    let both = ImageWriter::default()
        .with_path(std::path::PathBuf::from("a.img"))
        .with_format(DiskImageFormat::RawSectorImage);
    let (p, f) = both.target().unwrap();
    assert_eq!(p, std::path::PathBuf::from("a.img"));
    assert_eq!(f, DiskImageFormat::RawSectorImage);
}
