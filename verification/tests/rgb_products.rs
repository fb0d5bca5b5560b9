use goes_abi::png::Color;
use goes_abi::satellite::rgb::{color_or_transparent, GoesAbiRgbCompositeStyle};

#[test]
fn rgb_styles_declare_required_channels() {
    assert_eq!(
        GoesAbiRgbCompositeStyle::GeoColor.required_channels(),
        &[1, 2, 3]
    );
    assert_eq!(GoesAbiRgbCompositeStyle::AirMass.base_channel(), 8);
    assert_eq!(
        GoesAbiRgbCompositeStyle::Dust.required_channels(),
        &[11, 13, 14, 15]
    );
}

const ALL_STYLES: [GoesAbiRgbCompositeStyle; 8] = [
    GoesAbiRgbCompositeStyle::GeoColor,
    GoesAbiRgbCompositeStyle::FireTemperature,
    GoesAbiRgbCompositeStyle::AirMass,
    GoesAbiRgbCompositeStyle::Dust,
    GoesAbiRgbCompositeStyle::Sandwich,
    GoesAbiRgbCompositeStyle::DayCloudPhase,
    GoesAbiRgbCompositeStyle::DayNightCloudMicroCombo,
    GoesAbiRgbCompositeStyle::NaturalColor,
];

#[test]
fn product_slugs_and_titles() {
    assert_eq!(GoesAbiRgbCompositeStyle::GeoColor.product_slug(), "goes_geocolor");
    assert_eq!(
        GoesAbiRgbCompositeStyle::DayNightCloudMicroCombo.product_slug(),
        "goes_day_night_cloud_micro_combo_rgb"
    );
    assert_eq!(GoesAbiRgbCompositeStyle::NaturalColor.title(), "GeoColor");
    assert_eq!(GoesAbiRgbCompositeStyle::DayCloudPhase.title(), "GOES Day Cloud Phase RGB");
    assert_eq!(GoesAbiRgbCompositeStyle::FireTemperature.base_channel(), 7);
    assert_eq!(GoesAbiRgbCompositeStyle::Sandwich.required_channels(), &[3, 13]);
}

#[test]
fn every_style_reads_its_base_channel_and_has_a_unique_slug() {
    for (i, a) in ALL_STYLES.iter().enumerate() {
        assert!(a.required_channels().contains(&a.base_channel()));
        let chans = a.required_channels();
        assert!(chans.windows(2).all(|w| w[0] < w[1]));
        assert!(chans.iter().all(|&c| (1..=16).contains(&c)));
        for b in ALL_STYLES.iter().skip(i + 1) {
            assert_ne!(a.product_slug(), b.product_slug());
        }
    }
}

#[test]
fn color_is_opaque_only_with_all_channels() {
    assert_eq!(
        color_or_transparent([Some(10), Some(20), Some(30)]),
        Color::rgba(10, 20, 30, 255)
    );
    assert_eq!(color_or_transparent([Some(10), None, Some(30)]), Color::rgba(0, 0, 0, 0));
    assert_eq!(color_or_transparent([None, None, None]).a, 0);
}

#[test]
fn composites_read_each_required_channel_once() {
    assert_eq!(GoesAbiRgbCompositeStyle::FireTemperature.channel_read_order(), &[7, 6, 5]);
    assert_eq!(GoesAbiRgbCompositeStyle::DayCloudPhase.channel_read_order(), &[13, 2, 5]);
    assert_eq!(GoesAbiRgbCompositeStyle::GeoColor.channel_read_order(), &[1, 2, 3]);
    for style in ALL_STYLES {
        let mut order = style.channel_read_order().to_vec();
        order.sort();
        assert_eq!(order, style.required_channels());
    }
}
