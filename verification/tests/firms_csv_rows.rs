use goes_abi::viirs::firms_csv::{
    firms_rows, normalize_acquisition_time, parse_firms_rows, required_column_missing,
    rows_failure, DateFieldError, FirmsCsvError, FirmsDate, RowProblem, RowsFailure,
};

const SAMPLE_CSV: &str = "latitude,longitude,bright_ti4,scan,track,acq_date,acq_time,satellite,instrument,confidence,version,bright_ti5,frp,daynight\n\
34.25,-118.42,356.1,0.41,0.45,2026-05-12,0530,N20,VIIRS,high,2.0NRT,291.2,42.5,N\n\
35.10,-120.00,320.0,0.50,0.52,2026-05-12,45,N21,VIIRS,low,2.0NRT,284.1,2.0,D\n";

#[test]
fn normalizes_acquisition_times() {
    assert_eq!(normalize_acquisition_time("0530").unwrap(), "0530");
    assert_eq!(normalize_acquisition_time("45").unwrap(), "0045");
    assert_eq!(normalize_acquisition_time(" 7 ").unwrap(), "0007");
    assert_eq!(normalize_acquisition_time("2359").unwrap(), "2359");
    assert_eq!(normalize_acquisition_time("2400").unwrap_err().raw, "2400");
    assert!(normalize_acquisition_time("0160").is_err());
    assert!(normalize_acquisition_time("12345").is_err());
    assert!(normalize_acquisition_time("").is_err());
    assert!(normalize_acquisition_time("1a").is_err());
    assert!(normalize_acquisition_time("+12").is_err());
    let once = normalize_acquisition_time("5").unwrap();
    assert_eq!(normalize_acquisition_time(&once).unwrap(), once);
}

#[test]
fn parses_firms_rows() {
    let table = parse_firms_rows(SAMPLE_CSV, "VIIRS_NOAA20_NRT").unwrap();
    assert!(table.read_error.is_none());
    assert_eq!(table.rows.len(), 2);
    let r0 = &table.rows[0];
    let r1 = &table.rows[1];
    assert_eq!(r0.acq_time.as_ref().unwrap(), "0530");
    assert_eq!(r1.acq_time.as_ref().unwrap(), "0045");
    assert_eq!(r0.frp.as_deref(), Some("42.5"));
    assert_eq!(r0.latitude.as_deref(), Some("34.25"));
    assert_eq!(r1.longitude.as_deref(), Some("-120.00"));
    assert_eq!(
        *r0.acq_date.as_ref().unwrap(),
        FirmsDate { year: 2026, month: 5, day: 12 }
    );
    assert_eq!(r0.acq_timestamp, Some(1778563800));
    assert_eq!(r1.acq_timestamp, Some(1778546700));
    assert_eq!(r0.confidence, "high");
    assert_eq!(r1.satellite, "N21");
    assert_eq!(r0.day_night.as_deref(), Some("N"));
    assert_eq!(r0.source, "VIIRS_NOAA20_NRT");
    assert_eq!(r0.raw.len(), 14);
    assert_eq!(r0.raw[12], ("frp".to_string(), "42.5".to_string()));
}

#[test]
fn defaults_for_absent_columns() {
    let csv = "Latitude , LONGITUDE,acq_date,acq_time,confidence\n1,2,2026-01-02,1200,\n";
    let table = parse_firms_rows(csv, "S").unwrap();
    let r = &table.rows[0];
    assert_eq!(r.satellite, "unknown");
    assert_eq!(r.instrument, "VIIRS");
    assert_eq!(r.confidence, "unknown");
    assert_eq!(r.version, "unknown");
    assert_eq!(r.day_night, None);
    assert_eq!(r.frp, None);
    assert_eq!(r.latitude.as_deref(), Some("1"));
}

#[test]
fn reports_missing_columns_in_order() {
    match parse_firms_rows("longitude,acq_time\n1,2\n", "S") {
        Err(FirmsCsvError::MissingColumn(c)) => assert_eq!(c, "latitude"),
        other => panic!("unexpected {other:?}"),
    }
    let headers: Vec<String> = ["latitude", "longitude", "acq_date"].iter().map(|s| s.to_string()).collect();
    assert_eq!(required_column_missing(&headers), Some("acq_time".to_string()));
    match parse_firms_rows("", "S") {
        Err(FirmsCsvError::MissingColumn(c)) => assert_eq!(c, "latitude"),
        other => panic!("unexpected {other:?}"),
    }
}

#[test]
fn keeps_row_level_problems_for_the_caller() {
    let csv = "latitude,longitude,acq_date,acq_time\n1,2,2026/05/12,930\n3,4,,\n";
    let table = parse_firms_rows(csv, "S").unwrap();
    match &table.rows[0].acq_date {
        Err(DateFieldError::Invalid { raw, .. }) => assert_eq!(raw, "2026/05/12"),
        other => panic!("unexpected {other:?}"),
    }
    assert_eq!(table.rows[0].acq_time.as_ref().unwrap(), "0930");
    assert!(table.rows[0].acq_timestamp.is_none());
    assert!(matches!(table.rows[1].acq_date, Err(DateFieldError::Missing)));
    assert_eq!(table.rows[1].acq_time.as_ref().unwrap_err().raw, "");
}

#[test]
fn stops_at_the_first_unreadable_record() {
    let csv = "latitude,longitude,acq_date,acq_time\n1,2,2026-05-12,0100\n1,2\n5,6,2026-05-12,0200\n";
    let table = parse_firms_rows(csv, "S").unwrap();
    assert_eq!(table.rows.len(), 1);
    assert!(table.read_error.is_some());
}

#[test]
fn builds_rows_from_given_fields() {
    let headers: Vec<String> = ["latitude", "longitude", "acq_date", "acq_time", "latitude"]
        .iter()
        .map(|s| s.to_string())
        .collect();
    let records = vec![vec!["1".to_string(), "2".to_string(), "2026-05-12".to_string(), "5".to_string(), " 9 ".to_string()]];
    let rows = firms_rows(&headers, &records, "SRC");
    assert_eq!(rows.len(), 1);
    assert_eq!(rows[0].latitude.as_deref(), Some("9"));
    assert_eq!(rows[0].acq_time.as_ref().unwrap(), "0005");
    assert_eq!(rows[0].source, "SRC");
}

#[test]
fn epoch_and_leap_day_timestamps() {
    let csv = "latitude,longitude,acq_date,acq_time\n0,0,1970-01-01,0\n0,0,2024-02-29,2359\n0,0,1969-12-31,2359\n0,0,2000-03-01,0001\n";
    let table = parse_firms_rows(csv, "S").unwrap();
    assert_eq!(table.rows[0].acq_timestamp, Some(0));
    assert_eq!(table.rows[1].acq_timestamp, Some(1709251140));
    assert_eq!(table.rows[2].acq_timestamp, Some(-60));
    assert_eq!(table.rows[3].acq_timestamp, Some(951868860));
}

#[test]
fn first_bad_row_fails_the_whole_csv() {
    let csv = "latitude,longitude,acq_date,acq_time\n1,2,2026-05-12,0100\n3,4,2026-05-12,2460\n5,6,,0100\n";
    let table = parse_firms_rows(csv, "S").unwrap();
    let sound = vec![(true, true); 3];
    assert_eq!(
        rows_failure(&table.rows, &sound, false),
        Some(RowsFailure::BadRow { index: 1, problem: RowProblem::AcqTime })
    );
    let bad_lon = vec![(true, true), (true, true), (true, false)];
    assert_eq!(
        rows_failure(&table.rows, &bad_lon, true),
        Some(RowsFailure::BadRow { index: 1, problem: RowProblem::AcqTime })
    );
    let bad_lat_first = vec![(false, false), (true, true), (true, true)];
    assert_eq!(
        rows_failure(&table.rows, &bad_lat_first, false),
        Some(RowsFailure::BadRow { index: 0, problem: RowProblem::Latitude })
    );
}

#[test]
fn sound_rows_fail_only_on_a_read_error() {
    let csv = "latitude,longitude,acq_date,acq_time\n1,2,2026-05-12,0100\n1,2\n";
    let table = parse_firms_rows(csv, "S").unwrap();
    let coords = vec![(true, true); table.rows.len()];
    assert_eq!(
        rows_failure(&table.rows, &coords, table.read_error.is_some()),
        Some(RowsFailure::ReadError)
    );
    assert_eq!(rows_failure(&table.rows, &coords, false), None);
    let lon = vec![(true, false)];
    assert_eq!(
        rows_failure(&table.rows, &lon, true),
        Some(RowsFailure::BadRow { index: 0, problem: RowProblem::Longitude })
    );
    let dated = "latitude,longitude,acq_date,acq_time\n1,2,,0100\n";
    let table = parse_firms_rows(dated, "S").unwrap();
    assert_eq!(
        rows_failure(&table.rows, &[(true, true)].to_vec(), false),
        Some(RowsFailure::BadRow { index: 0, problem: RowProblem::AcqDate })
    );
}
