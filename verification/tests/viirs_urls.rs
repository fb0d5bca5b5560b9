use goes_abi::viirs::url::{firms_area_url, url_path_encode, FIRMS_AREA_BASE_URL};

#[test]
fn builds_firms_area_url_with_bbox_order() {
    let url = firms_area_url(
        FIRMS_AREA_BASE_URL,
        "abc 123",
        "VIIRS_NOAA20_NRT",
        false,
        "-127",
        "-111",
        "30",
        "44.5",
        2,
        Some("2026-05-12"),
    );
    assert_eq!(
        url,
        "https://firms.modaps.eosdis.nasa.gov/api/area/csv/abc%20123/VIIRS_NOAA20_NRT/-127,30,-111,44.5/2/2026-05-12"
    );
}

#[test]
fn world_area_and_trailing_slashes() {
    let url = firms_area_url(
        "https://example.test/csv//",
        "MAP_KEY",
        "VIIRS_SNPP_SP",
        true,
        "1",
        "2",
        "3",
        "4",
        10,
        None,
    );
    assert_eq!(url, "https://example.test/csv/MAP_KEY/VIIRS_SNPP_SP/world/10");
    let url = firms_area_url("b", "k", "s", true, "", "", "", "", 255, None);
    assert_eq!(url, "b/k/s/world/255");
}

#[test]
fn percent_encodes_map_keys() {
    assert_eq!(url_path_encode("abc 123"), "abc%20123");
    assert_eq!(url_path_encode("A-z_0.9~"), "A-z_0.9~");
    assert_eq!(url_path_encode("a/b?c"), "a%2Fb%3Fc");
    assert_eq!(url_path_encode("é"), "%C3%A9");
    assert_eq!(url_path_encode(""), "");
}

#[test]
fn encoding_is_unchanged_only_for_unreserved_text() {
    for value in ["abc", "A-z_0.9~", ""] {
        assert_eq!(url_path_encode(value), value);
    }
    for value in ["a b", "é", "50%"] {
        let encoded = url_path_encode(value);
        assert_ne!(encoded, value);
        let reserved = value.bytes().filter(|b| !(b.is_ascii_alphanumeric() || b"-_.~".contains(b))).count();
        assert_eq!(encoded.len(), value.len() + 2 * reserved);
    }
    assert_eq!(url_path_encode("50%"), "50%25");
}
