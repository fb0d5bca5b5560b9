use goes_abi::viirs::request::{
    detection_matches_request, plan_csv_source, retain_and_limit, select_detections,
    validate_request, CsvSourcePlan, ViirsError,
};
use goes_abi::viirs::source::{
    confidence_rank, default_day_range, default_source, default_true, normalize_source,
};

#[test]
fn normalizes_source_aliases() {
    assert_eq!(normalize_source("VIIRS_NOAA20_NRT").unwrap(), "VIIRS_NOAA20_NRT");
    assert_eq!(normalize_source("  noaa-20 nrt ").unwrap(), "VIIRS_NOAA20_NRT");
    assert_eq!(normalize_source("n21_nrt").unwrap(), "VIIRS_NOAA21_NRT");
    assert_eq!(normalize_source("Suomi NPP SP").unwrap(), "VIIRS_SNPP_SP");
    assert_eq!(normalize_source("s-npp-nrt").unwrap(), "VIIRS_SNPP_NRT");
    assert_eq!(normalize_source("noaa20_sp").unwrap(), "VIIRS_NOAA20_SP");
    match normalize_source("MODIS_NRT") {
        Err(ViirsError::UnsupportedSource(s)) => assert_eq!(s, "MODIS_NRT"),
        other => panic!("unexpected {other:?}"),
    }
}

#[test]
fn normalized_sources_are_fixed_points() {
    for s in ["n20_nrt", "NOAA_20_SP", "n21-nrt", "snpp nrt", "suomi_npp_sp"] {
        let once = normalize_source(s).unwrap();
        assert_eq!(normalize_source(&once).unwrap(), once);
    }
}

#[test]
fn defaults() {
    assert_eq!(default_source(), "VIIRS_NOAA20_NRT");
    assert_eq!(default_day_range(), 1);
    assert!(default_true());
}

#[test]
fn ranks_confidence_levels() {
    assert_eq!(confidence_rank("low"), Some(0));
    assert_eq!(confidence_rank(" L "), Some(0));
    assert_eq!(confidence_rank("Nominal"), Some(1));
    assert_eq!(confidence_rank("n"), Some(1));
    assert_eq!(confidence_rank("HIGH"), Some(2));
    assert_eq!(confidence_rank("h"), Some(2));
    assert_eq!(confidence_rank("medium"), None);
    assert_eq!(confidence_rank(""), None);
}

#[test]
fn validates_requests_in_order() {
    let none: Option<String> = None;
    assert!(validate_request("VIIRS_NOAA20_NRT", 1, false, true, &none).is_ok());
    assert!(matches!(
        validate_request("nope", 0, false, false, &Some("x".to_string())),
        Err(ViirsError::UnsupportedSource(_))
    ));
    assert!(matches!(
        validate_request("N20_NRT", 0, false, false, &none),
        Err(ViirsError::DayRange)
    ));
    assert!(matches!(
        validate_request("N20_NRT", 6, true, true, &none),
        Err(ViirsError::DayRange)
    ));
    assert!(matches!(
        validate_request("N20_NRT", 5, false, false, &none),
        Err(ViirsError::Bounds)
    ));
    assert!(validate_request("N20_NRT", 5, true, false, &none).is_ok());
    assert!(matches!(
        validate_request("N20_NRT", 2, true, false, &Some("medium".to_string())),
        Err(ViirsError::MinConfidence)
    ));
    assert!(validate_request("N20_NRT", 2, true, false, &Some("nominal".to_string())).is_ok());
}

#[test]
fn filters_by_confidence_frp_and_bounds_flags() {
    let nominal = Some("nominal".to_string());
    assert!(detection_matches_request(false, true, true, &nominal, "high"));
    assert!(!detection_matches_request(false, true, true, &nominal, "low"));
    assert!(!detection_matches_request(false, false, true, &nominal, "high"));
    assert!(detection_matches_request(true, false, true, &nominal, "high"));
    assert!(!detection_matches_request(true, true, false, &None, "high"));
    assert!(!detection_matches_request(true, true, true, &nominal, "unknown"));
    assert!(detection_matches_request(true, true, true, &None, "unknown"));
    assert!(!detection_matches_request(true, true, true, &Some("bogus".to_string()), "high"));
}

#[test]
fn keeps_flagged_items_up_to_the_limit() {
    let items = vec!["a", "b", "c", "d"];
    let keep = vec![true, false, true, true];
    assert_eq!(retain_and_limit(items.clone(), &keep, None), vec!["a", "c", "d"]);
    assert_eq!(retain_and_limit(items.clone(), &keep, Some(2)), vec!["a", "c"]);
    assert_eq!(retain_and_limit(items.clone(), &keep, Some(10)), vec!["a", "c", "d"]);
    assert_eq!(retain_and_limit(items, &keep, Some(0)), Vec::<&str>::new());
}

#[test]
fn chooses_the_csv_source() {
    let env = vec![None, Some("env-key".to_string()), Some("later".to_string())];
    match plan_csv_source(&Some("a,b\n".to_string()), true, &None, &env) {
        CsvSourcePlan::Text(t) => assert_eq!(t, "a,b\n"),
        other => panic!("unexpected {other:?}"),
    }
    assert!(matches!(
        plan_csv_source(&Some("   ".to_string()), true, &None, &env),
        CsvSourcePlan::Path
    ));
    match plan_csv_source(&None, false, &Some("key".to_string()), &env) {
        CsvSourcePlan::Fetch(k) => assert_eq!(k, "key"),
        other => panic!("unexpected {other:?}"),
    }
    match plan_csv_source(&None, false, &Some(" ".to_string()), &env) {
        CsvSourcePlan::Fetch(k) => assert_eq!(k, "env-key"),
        other => panic!("unexpected {other:?}"),
    }
    assert!(matches!(
        plan_csv_source(&None, false, &None, &vec![None, None, None]),
        CsvSourcePlan::MissingMapKey
    ));
}

#[test]
fn selects_matching_detections_then_applies_the_limit() {
    let ids = vec![10u32, 11, 12, 13, 14, 15];
    let inside = vec![true, false, true, true, true, true];
    let frp_ok = vec![true, true, false, true, true, true];
    let confidences: Vec<String> = ["high", "high", "high", "low", "nominal", "h"]
        .iter()
        .map(|s| s.to_string())
        .collect();
    let floor = Some("nominal".to_string());
    let all = select_detections(ids.clone(), &inside, &frp_ok, &confidences, false, &floor, None);
    assert_eq!(all, vec![10, 14, 15]);
    let capped = select_detections(ids.clone(), &inside, &frp_ok, &confidences, false, &floor, Some(2));
    assert_eq!(capped, vec![10, 14]);
    let world = select_detections(ids.clone(), &inside, &frp_ok, &confidences, true, &None, Some(4));
    assert_eq!(world, vec![10, 11, 13, 14]);
    let none = select_detections(ids, &inside, &frp_ok, &confidences, false, &floor, Some(0));
    assert!(none.is_empty());
}
