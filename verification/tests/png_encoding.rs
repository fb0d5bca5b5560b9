use goes_abi::png::{
    encode_rgba_png, Color, encoder_settings, PngCompressionMode, PngDeflateLevel, PngScanlineFilter,
    PngWriteOptions, RgbaPixels,
};

const PNG_SIGNATURE: [u8; 8] = [0x89, b'P', b'N', b'G', 0x0D, 0x0A, 0x1A, 0x0A];

#[test]
fn default_options_use_default_compression() {
    assert_eq!(PngWriteOptions::default().compression, PngCompressionMode::Default);
    assert_eq!(PngCompressionMode::default(), PngCompressionMode::Default);
}

#[test]
fn compression_modes_select_level_and_filter() {
    assert_eq!(
        encoder_settings(PngCompressionMode::Default),
        (PngDeflateLevel::Default, PngScanlineFilter::Up)
    );
    assert_eq!(
        encoder_settings(PngCompressionMode::Fast),
        (PngDeflateLevel::Fast, PngScanlineFilter::Up)
    );
    assert_eq!(
        encoder_settings(PngCompressionMode::Fastest),
        (PngDeflateLevel::Fast, PngScanlineFilter::NoFilter)
    );
}

#[test]
fn pixel_buffer_must_match_its_size() {
    assert!(RgbaPixels::new(2, 2, vec![0; 15]).is_none());
    assert!(RgbaPixels::new(2, 2, vec![0; 17]).is_none());
    let img = RgbaPixels::new(2, 3, vec![7; 24]).unwrap();
    assert_eq!((img.width(), img.height(), img.data().len()), (2, 3, 24));
}

#[test]
fn encodes_a_png_file() {
    let data: Vec<u8> = (0..4 * 4 * 4).map(|i| i as u8).collect();
    let img = RgbaPixels::new(4, 4, data.clone()).unwrap();
    for mode in [PngCompressionMode::Default, PngCompressionMode::Fast, PngCompressionMode::Fastest] {
        let bytes = encode_rgba_png(&img, &PngWriteOptions { compression: mode })
            .unwrap_or_else(|_| panic!("encoding failed"));
        assert_eq!(&bytes[..8], &PNG_SIGNATURE);
        assert_ne!(bytes, data);
        assert_eq!(&bytes[12..16], b"IHDR");
        assert_eq!(&bytes[16..20], &4u32.to_be_bytes());
        assert_eq!(&bytes[20..24], &4u32.to_be_bytes());
        assert_eq!(bytes[24], 8);
        assert_eq!(bytes[25], 6);
    }
}

#[test]
fn empty_image_is_refused_by_the_encoder() {
    let img = RgbaPixels::new(0, 0, Vec::new()).unwrap();
    assert!(encode_rgba_png(&img, &PngWriteOptions::default()).is_err());
}

#[test]
fn named_colors() {
    assert_eq!(Color::transparent(), Color::rgba(0, 0, 0, 0));
    assert_eq!(Color::white(), Color::rgba(255, 255, 255, 255));
    assert_eq!(Color::black(), Color::rgba(0, 0, 0, 255));
    assert_eq!(Color::black().a, 255);
    assert_eq!(Color::transparent().a, 0);
}
