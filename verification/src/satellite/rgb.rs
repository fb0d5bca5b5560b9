//! GOES ABI RGB composite products: their names, their ABI channels, and the
//! rule that turns three optional channel bytes into one pixel colour.
use vstd::prelude::*;
use crate::png::Color;

verus! {

/// The RGB composites that the renderer can build from ABI channels.
#[derive(Debug, Clone, Copy, PartialEq, Eq, Structural)]
pub enum GoesAbiRgbCompositeStyle {
    GeoColor,
    FireTemperature,
    AirMass,
    Dust,
    Sandwich,
    DayCloudPhase,
    DayNightCloudMicroCombo,
    NaturalColor,
}

impl GoesAbiRgbCompositeStyle {
    pub open spec fn spec_product_slug(self) -> Seq<char> {
        match self {
            Self::GeoColor => "goes_geocolor"@,
            Self::FireTemperature => "goes_fire_temperature_rgb"@,
            Self::AirMass => "goes_airmass_rgb"@,
            Self::Dust => "goes_dust_rgb"@,
            Self::Sandwich => "goes_sandwich_rgb"@,
            Self::DayCloudPhase => "goes_day_cloud_phase_rgb"@,
            Self::DayNightCloudMicroCombo => "goes_day_night_cloud_micro_combo_rgb"@,
            Self::NaturalColor => "goes_natural_color_rgb"@,
        }
    }

    pub open spec fn spec_title(self) -> Seq<char> {
        match self {
            Self::GeoColor | Self::NaturalColor => "GeoColor"@,
            Self::FireTemperature => "Fire Temperature"@,
            Self::AirMass => "AirMass RGB"@,
            Self::Dust => "Dust RGB"@,
            Self::Sandwich => "Sandwich RGB"@,
            Self::DayCloudPhase => "GOES Day Cloud Phase RGB"@,
            Self::DayNightCloudMicroCombo => "Day Night Cloud Micro Combo RGB"@,
        }
    }

    pub open spec fn spec_base_channel(self) -> u8 {
        match self {
            Self::GeoColor | Self::NaturalColor => 2,
            Self::FireTemperature => 7,
            Self::AirMass => 8,
            Self::Dust | Self::Sandwich | Self::DayCloudPhase | Self::DayNightCloudMicroCombo => 13,
        }
    }

    pub open spec fn spec_required_channels(self) -> Seq<u8> {
        match self {
            Self::GeoColor | Self::NaturalColor => seq![1u8, 2, 3],
            Self::FireTemperature => seq![5u8, 6, 7],
            Self::AirMass => seq![8u8, 10, 12, 13],
            Self::Dust => seq![11u8, 13, 14, 15],
            Self::Sandwich => seq![3u8, 13],
            Self::DayCloudPhase => seq![2u8, 5, 13],
            Self::DayNightCloudMicroCombo => seq![2u8, 5, 7, 13, 15],
        }
    }

    pub open spec fn spec_channel_read_order(self) -> Seq<u8> {
        match self {
            Self::GeoColor | Self::NaturalColor => seq![1u8, 2, 3],
            Self::FireTemperature => seq![7u8, 6, 5],
            Self::AirMass => seq![8u8, 10, 12, 13],
            Self::Dust => seq![11u8, 13, 14, 15],
            Self::Sandwich => seq![3u8, 13],
            Self::DayCloudPhase => seq![13u8, 2, 5],
            Self::DayNightCloudMicroCombo => seq![2u8, 5, 7, 13, 15],
        }
    }

    /// The order in which the composite reads its channels; the reading stops
    /// at the first channel that cannot be read.
    pub fn channel_read_order(self) -> (c: &'static [u8])
        ensures
            c@ == self.spec_channel_read_order(),
    {
        match self {
            Self::GeoColor | Self::NaturalColor => &[1, 2, 3],
            Self::FireTemperature => &[7, 6, 5],
            Self::AirMass => &[8, 10, 12, 13],
            Self::Dust => &[11, 13, 14, 15],
            Self::Sandwich => &[3, 13],
            Self::DayCloudPhase => &[13, 2, 5],
            Self::DayNightCloudMicroCombo => &[2, 5, 7, 13, 15],
        }
    }

    /// The product name under which renders of this composite are filed.
    pub fn product_slug(self) -> (s: &'static str)
        ensures
            s@ == self.spec_product_slug(),
    {
        match self {
            Self::GeoColor => "goes_geocolor",
            Self::FireTemperature => "goes_fire_temperature_rgb",
            Self::AirMass => "goes_airmass_rgb",
            Self::Dust => "goes_dust_rgb",
            Self::Sandwich => "goes_sandwich_rgb",
            Self::DayCloudPhase => "goes_day_cloud_phase_rgb",
            Self::DayNightCloudMicroCombo => "goes_day_night_cloud_micro_combo_rgb",
            Self::NaturalColor => "goes_natural_color_rgb",
        }
    }

    /// The human-readable title of this composite.
    pub fn title(self) -> (s: &'static str)
        ensures
            s@ == self.spec_title(),
    {
        match self {
            Self::GeoColor | Self::NaturalColor => "GeoColor",
            Self::FireTemperature => "Fire Temperature",
            Self::AirMass => "AirMass RGB",
            Self::Dust => "Dust RGB",
            Self::Sandwich => "Sandwich RGB",
            Self::DayCloudPhase => "GOES Day Cloud Phase RGB",
            Self::DayNightCloudMicroCombo => "Day Night Cloud Micro Combo RGB",
        }
    }

    /// The ABI channel whose grid the composite is rendered on.
    pub fn base_channel(self) -> (c: u8)
        ensures
            c == self.spec_base_channel(),
    {
        match self {
            Self::GeoColor | Self::NaturalColor => 2,
            Self::FireTemperature => 7,
            Self::AirMass => 8,
            Self::Dust | Self::Sandwich | Self::DayCloudPhase | Self::DayNightCloudMicroCombo => 13,
        }
    }

    /// The ABI channels the composite reads, in ascending order.
    pub fn required_channels(self) -> (c: &'static [u8])
        ensures
            c@ == self.spec_required_channels(),
    {
        match self {
            Self::GeoColor | Self::NaturalColor => &[1, 2, 3],
            Self::FireTemperature => &[5, 6, 7],
            Self::AirMass => &[8, 10, 12, 13],
            Self::Dust => &[11, 13, 14, 15],
            Self::Sandwich => &[3, 13],
            Self::DayCloudPhase => &[2, 5, 13],
            Self::DayNightCloudMicroCombo => &[2, 5, 7, 13, 15],
        }
    }
}

/// The ABI bands each colour component of a composite is computed from, as
/// (red, green, blue):
/// - GeoColor and natural colour: red from C02, green from a blend of C02, C03
///   and C01, blue from C01;
/// - fire temperature: red from C07, green from C06, blue from C05;
/// - AirMass: red from C08 - C10, green from C12 - C13, blue from C08;
/// - dust: red from C15 - C13, green from C14 - C11, blue from C13;
/// - sandwich: every component from the C03 reflectance tinted by the C13 temperature;
/// - day cloud phase: red from C13, green from C02, blue from C05;
/// - day/night cloud micro combo: red from C13; green blends C15 - C13 at night
///   with C02 by day, blue blends C07 at night with C05 by day, the daylight
///   weight coming from C02.
pub open spec fn component_bands(style: GoesAbiRgbCompositeStyle) -> (Seq<u8>, Seq<u8>, Seq<u8>) {
    match style {
        GoesAbiRgbCompositeStyle::GeoColor | GoesAbiRgbCompositeStyle::NaturalColor => (
            seq![2u8],
            seq![2u8, 3, 1],
            seq![1u8],
        ),
        GoesAbiRgbCompositeStyle::FireTemperature => (seq![7u8], seq![6u8], seq![5u8]),
        GoesAbiRgbCompositeStyle::AirMass => (seq![8u8, 10], seq![12u8, 13], seq![8u8]),
        GoesAbiRgbCompositeStyle::Dust => (seq![15u8, 13], seq![14u8, 11], seq![13u8]),
        GoesAbiRgbCompositeStyle::Sandwich => (seq![3u8, 13], seq![3u8, 13], seq![3u8, 13]),
        GoesAbiRgbCompositeStyle::DayCloudPhase => (seq![13u8], seq![2u8], seq![5u8]),
        GoesAbiRgbCompositeStyle::DayNightCloudMicroCombo => (
            seq![13u8],
            seq![15u8, 13, 2],
            seq![7u8, 5, 2],
        ),
    }
}

/// Whether some colour component of the composite is computed from `band`.
pub open spec fn feeds_a_component(style: GoesAbiRgbCompositeStyle, band: u8) -> bool {
    let (r, g, b) = component_bands(style);
    r.contains(band) || g.contains(band) || b.contains(band)
}

/// A composite declares, and reads, exactly the bands its colour formula uses:
/// a band is among its required channels, and among the channels it reads,
/// exactly when some colour component is computed from it.
pub proof fn lemma_channels_are_the_bands_of_the_formula(style: GoesAbiRgbCompositeStyle, band: u8)
    ensures
        style.spec_required_channels().contains(band) <==> feeds_a_component(style, band),
        style.spec_channel_read_order().contains(band) <==> feeds_a_component(style, band),
{
    let req = style.spec_required_channels();
    let read = style.spec_channel_read_order();
    let (r, g, b) = component_bands(style);
    if req.contains(band) {
        let i = choose|i: int| 0 <= i < req.len() && req[i] == band;
        assert(r.contains(band) || g.contains(band) || b.contains(band)) by {
            match style {
                GoesAbiRgbCompositeStyle::GeoColor | GoesAbiRgbCompositeStyle::NaturalColor => {
                    assert(g[2] == 1 && g[0] == 2 && g[1] == 3);
                },
                GoesAbiRgbCompositeStyle::FireTemperature => {
                    assert(r[0] == 7 && g[0] == 6 && b[0] == 5);
                },
                GoesAbiRgbCompositeStyle::AirMass => {
                    assert(r[0] == 8 && r[1] == 10 && g[0] == 12 && g[1] == 13);
                },
                GoesAbiRgbCompositeStyle::Dust => {
                    assert(r[0] == 15 && r[1] == 13 && g[0] == 14 && g[1] == 11);
                },
                GoesAbiRgbCompositeStyle::Sandwich => {
                    assert(r[0] == 3 && r[1] == 13);
                },
                GoesAbiRgbCompositeStyle::DayCloudPhase => {
                    assert(r[0] == 13 && g[0] == 2 && b[0] == 5);
                },
                GoesAbiRgbCompositeStyle::DayNightCloudMicroCombo => {
                    assert(r[0] == 13 && g[0] == 15 && g[2] == 2 && b[0] == 7 && b[1] == 5);
                },
            }
        }
    }
    if feeds_a_component(style, band) {
        let i = if r.contains(band) {
            choose|i: int| 0 <= i < r.len() && r[i] == band
        } else if g.contains(band) {
            choose|i: int| 0 <= i < g.len() && g[i] == band
        } else {
            choose|i: int| 0 <= i < b.len() && b[i] == band
        };
        assert(req.contains(band)) by {
            match style {
                GoesAbiRgbCompositeStyle::GeoColor | GoesAbiRgbCompositeStyle::NaturalColor => {
                    assert(req[0] == 1 && req[1] == 2 && req[2] == 3);
                },
                GoesAbiRgbCompositeStyle::FireTemperature => {
                    assert(req[0] == 5 && req[1] == 6 && req[2] == 7);
                },
                GoesAbiRgbCompositeStyle::AirMass => {
                    assert(req[0] == 8 && req[1] == 10 && req[2] == 12 && req[3] == 13);
                },
                GoesAbiRgbCompositeStyle::Dust => {
                    assert(req[0] == 11 && req[1] == 13 && req[2] == 14 && req[3] == 15);
                },
                GoesAbiRgbCompositeStyle::Sandwich => {
                    assert(req[0] == 3 && req[1] == 13);
                },
                GoesAbiRgbCompositeStyle::DayCloudPhase => {
                    assert(req[0] == 2 && req[1] == 5 && req[2] == 13);
                },
                GoesAbiRgbCompositeStyle::DayNightCloudMicroCombo => {
                    assert(req[0] == 2 && req[1] == 5 && req[2] == 7 && req[3] == 13 && req[4] == 15);
                },
            }
        }
    }
    lemma_read_order_is_a_permutation_of_required(style);
    if req.contains(band) {
        let j = choose|j: int| 0 <= j < req.len() && req[j] == band;
        assert(read.contains(req[j]));
    }
    if read.contains(band) {
        let i = choose|i: int| 0 <= i < read.len() && read[i] == band;
        assert(req.contains(read[i]));
    }
}

/// The colour for three optional channel bytes: opaque when all three are
/// present, transparent black otherwise.
pub open spec fn spec_color_or_transparent(channels: [Option<u8>; 3]) -> Color {
    match (channels[0], channels[1], channels[2]) {
        (Some(r), Some(g), Some(b)) => Color { r, g, b, a: 255 },
        _ => Color { r: 0, g: 0, b: 0, a: 0 },
    }
}

pub fn color_or_transparent(channels: [Option<u8>; 3]) -> (c: Color)
    ensures
        c == spec_color_or_transparent(channels),
{
    match (channels[0], channels[1], channels[2]) {
        (Some(r), Some(g), Some(b)) => Color::rgba(r, g, b, 255),
        _ => Color::transparent(),
    }
}

/// Every composite is rendered on the grid of one of the channels it reads.
pub proof fn lemma_base_channel_is_required(style: GoesAbiRgbCompositeStyle)
    ensures
        style.spec_required_channels().contains(style.spec_base_channel()),
{
    let chans = style.spec_required_channels();
    match style {
        GoesAbiRgbCompositeStyle::GeoColor | GoesAbiRgbCompositeStyle::NaturalColor => {
            assert(chans[1] == 2);
        },
        GoesAbiRgbCompositeStyle::FireTemperature => {
            assert(chans[2] == 7);
        },
        GoesAbiRgbCompositeStyle::AirMass => {
            assert(chans[0] == 8);
        },
        GoesAbiRgbCompositeStyle::Dust => {
            assert(chans[1] == 13);
        },
        GoesAbiRgbCompositeStyle::Sandwich => {
            assert(chans[1] == 13);
        },
        GoesAbiRgbCompositeStyle::DayCloudPhase => {
            assert(chans[2] == 13);
        },
        GoesAbiRgbCompositeStyle::DayNightCloudMicroCombo => {
            assert(chans[3] == 13);
        },
    }
}

/// The channels of every composite are ABI bands (1 through 16), listed in
/// strictly ascending order, so no band is read twice.
pub proof fn lemma_required_channels_are_ascending_abi_bands(style: GoesAbiRgbCompositeStyle)
    ensures
        ({
            let chans = style.spec_required_channels();
            &&& chans.len() > 0
            &&& forall|i: int| 0 <= i < chans.len() ==> 1 <= #[trigger] chans[i] <= 16
            &&& forall|i: int, j: int| 0 <= i < j < chans.len() ==> chans[i] < chans[j]
        }),
{
}

/// A composite reads each of its required channels exactly once: the read
/// order is a rearrangement of the required channels, with no channel twice.
pub proof fn lemma_read_order_is_a_permutation_of_required(style: GoesAbiRgbCompositeStyle)
    ensures
        ({
            let read = style.spec_channel_read_order();
            let req = style.spec_required_channels();
            &&& read.len() == req.len()
            &&& forall|i: int, j: int| 0 <= i < j < read.len() ==> read[i] != read[j]
            &&& forall|i: int| 0 <= i < read.len() ==> req.contains(#[trigger] read[i])
            &&& forall|j: int| 0 <= j < req.len() ==> read.contains(#[trigger] req[j])
        }),
{
}

/// Distinct composites are filed under distinct product names.
pub proof fn lemma_product_slugs_are_distinct(a: GoesAbiRgbCompositeStyle, b: GoesAbiRgbCompositeStyle)
    requires
        a != b,
    ensures
        a.spec_product_slug() != b.spec_product_slug(),
{
    reveal_strlit("goes_geocolor");
    reveal_strlit("goes_fire_temperature_rgb");
    reveal_strlit("goes_airmass_rgb");
    reveal_strlit("goes_dust_rgb");
    reveal_strlit("goes_sandwich_rgb");
    reveal_strlit("goes_day_cloud_phase_rgb");
    reveal_strlit("goes_day_night_cloud_micro_combo_rgb");
    reveal_strlit("goes_natural_color_rgb");
    let sa = a.spec_product_slug();
    let sb = b.spec_product_slug();
    if sa.len() == sb.len() {
        assert(sa[5] != sb[5] || sa[6] != sb[6] || sa[7] != sb[7]);
    }
}

/// A pixel is opaque exactly when all three channel bytes are present, and then
/// it carries those bytes unchanged.
pub proof fn lemma_color_or_transparent_opacity(channels: [Option<u8>; 3])
    ensures
        ({
            let c = spec_color_or_transparent(channels);
            &&& (c.a == 255) <==> (channels[0] is Some && channels[1] is Some && channels[2] is Some)
            &&& c.a == 255 ==> c.r == channels[0]->0 && c.g == channels[1]->0 && c.b == channels[2]->0
            &&& c.a != 255 ==> c == (Color { r: 0, g: 0, b: 0, a: 0 })
        }),
{
}

} // verus!
