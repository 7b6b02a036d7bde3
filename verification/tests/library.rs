use georename::coords::{canonical_key, dms_to_microdeg};
use georename::executor::{new_file_name, rename_actions};
use georename::planner::plan;
use georename::record::{build_record, earliest_stamp, normalize_timestamp};
use georename::resolver::{decode_outcome, encode_outcome, finish_lookup, resolve_step};
use georename::{
    AddressComponent, CaptureRecord, CoordinatePair, GeoResponse, GeoResult, GeocodeCache,
    PlaceOutcome, PlanEntry, RenameAction, ResolveStep,
};

fn pair(lat: u64, lon: u64) -> CoordinatePair {
    CoordinatePair { lat, lon }
}

fn component(long: Option<&str>, short: Option<&str>, types: &[&str]) -> AddressComponent {
    AddressComponent {
        long_name: long.map(|s| s.to_string()),
        short_name: short.map(|s| s.to_string()),
        types: types.iter().map(|s| s.to_string()).collect(),
    }
}

fn response_of(components: Vec<AddressComponent>) -> GeoResponse {
    GeoResponse {
        results: vec![GeoResult {
            address_components: components,
        }],
    }
}

#[test]
fn dms_conversion_matches_formula() {
    // 50 deg 3' 43" = 50.0619444... deg -> 50061944 microdegrees
    let triple = vec![(50u32, 1u32), (3, 1), (43, 1)];
    assert_eq!(dms_to_microdeg(&triple), Some(50061944));
    // 19 deg 56' 14.928" = 19.937480 deg exactly
    let lon = vec![(19u32, 1u32), (56, 1), (14928, 1000)];
    assert_eq!(dms_to_microdeg(&lon), Some(19937480));
    // whole degrees only
    assert_eq!(dms_to_microdeg(&vec![(50, 1), (30, 1), (0, 1)]), Some(50500000));
}

#[test]
fn dms_rejects_malformed_triples() {
    assert_eq!(dms_to_microdeg(&vec![]), None);
    assert_eq!(dms_to_microdeg(&vec![(50, 1), (3, 1)]), None);
    assert_eq!(dms_to_microdeg(&vec![(50, 1), (3, 1), (43, 1), (9, 1)]), None);
    assert_eq!(dms_to_microdeg(&vec![(50, 1), (3, 0), (43, 1)]), None);
}

#[test]
fn canonical_key_is_six_decimal_fixed_point() {
    assert_eq!(canonical_key(&pair(50061947, 19937480)), "50.061947,19.937480");
    assert_eq!(canonical_key(&pair(50500000, 0)), "50.500000,0.000000");
    assert_eq!(canonical_key(&pair(7, 180000000)), "0.000007,180.000000");
}

#[test]
fn canonical_key_is_deterministic() {
    let p = pair(50061947, 19937480);
    assert_eq!(canonical_key(&p), canonical_key(&p));
    let q = pair(50061947, 19937480);
    assert_eq!(canonical_key(&p), canonical_key(&q));
}

#[test]
fn cache_round_trip_reproduces_every_entry() {
    let mut cache = GeocodeCache::new();
    cache.put(&"50.061947,19.937480".to_string(), "Kraków".to_string());
    cache.put(&"1.000000,2.000000".to_string(), "NIEZNALEZIONE".to_string());
    cache.put(&"3.500000,4.250000".to_string(), "NIEZNANE".to_string());
    let text = cache.to_json();
    let reloaded = GeocodeCache::from_json(&text);
    assert_eq!(
        reloaded.get(&"50.061947,19.937480".to_string()),
        Some(&"Kraków".to_string())
    );
    assert_eq!(
        reloaded.get(&"1.000000,2.000000".to_string()),
        Some(&"NIEZNALEZIONE".to_string())
    );
    assert_eq!(
        reloaded.get(&"3.500000,4.250000".to_string()),
        Some(&"NIEZNANE".to_string())
    );
    assert_eq!(reloaded.get(&"9.000000,9.000000".to_string()), None);
}

#[test]
fn cache_round_trip_escapes_quotes_and_backslashes() {
    let mut cache = GeocodeCache::new();
    cache.put(&"k".to_string(), "a\"b\\c".to_string());
    let reloaded = GeocodeCache::from_json(&cache.to_json());
    assert_eq!(reloaded.get(&"k".to_string()), Some(&"a\"b\\c".to_string()));
}

#[test]
fn empty_cache_serializes_to_empty_object() {
    let cache = GeocodeCache::new();
    assert_eq!(cache.to_json(), "{\"latlon\":{}}");
    let reloaded = GeocodeCache::from_json("{\"latlon\":{}}");
    assert_eq!(reloaded.get(&"x".to_string()), None);
}

#[test]
fn unreadable_cache_text_loads_as_empty() {
    for text in ["", "garbage", "{\"latlon\":{", "{\"latlon\":{}}}", "[1,2,3]"] {
        let cache = GeocodeCache::from_json(text);
        assert_eq!(cache.get(&"50.061947,19.937480".to_string()), None);
        assert_eq!(cache.to_json(), "{\"latlon\":{}}");
    }
}

#[test]
fn later_puts_overwrite_earlier_ones() {
    let mut cache = GeocodeCache::new();
    let key = "50.061947,19.937480".to_string();
    cache.put(&key, "NIEZNALEZIONE".to_string());
    cache.put(&key, "Kraków".to_string());
    assert_eq!(cache.get(&key), Some(&"Kraków".to_string()));
}

#[test]
fn cached_key_is_answered_without_lookup() {
    // Scenario: key pre-populated with a place name resolves from the
    // cache alone; resolve_step never yields a lookup for a cached key.
    let mut cache = GeocodeCache::new();
    let key = "50.061947,19.937480".to_string();
    cache.put(&key, "Kraków".to_string());
    match resolve_step(&cache, &key, &"unused-key".to_string()) {
        ResolveStep::Cached(PlaceOutcome::Name(name)) => assert_eq!(name, "Kraków"),
        _ => panic!("a cached key must resolve without a lookup"),
    }
}

#[test]
fn cached_failure_markers_are_not_retried() {
    let mut cache = GeocodeCache::new();
    let key = "1.000000,2.000000".to_string();
    cache.put(&key, "NIEZNALEZIONE".to_string());
    match resolve_step(&cache, &key, &"k".to_string()) {
        ResolveStep::Cached(PlaceOutcome::NotFound) => {}
        _ => panic!("a cached failure must resolve without a lookup"),
    }
    cache.put(&key, "NIEZNANE".to_string());
    match resolve_step(&cache, &key, &"k".to_string()) {
        ResolveStep::Cached(PlaceOutcome::UnknownStructure) => {}
        _ => panic!("a cached failure must resolve without a lookup"),
    }
}

#[test]
fn missing_key_yields_the_lookup_url() {
    let cache = GeocodeCache::new();
    let key = "50.061947,19.937480".to_string();
    match resolve_step(&cache, &key, &"APIKEY".to_string()) {
        ResolveStep::Lookup(url) => assert_eq!(
            url,
            "https://maps.googleapis.com/maps/api/geocode/json?latlng=50.061947,19.937480\
             &language=pl&result_type=administrative_area_level_3&key=APIKEY"
        ),
        _ => panic!("a missing key must ask for a lookup"),
    }
}

#[test]
fn finish_lookup_records_the_outcome() {
    let mut cache = GeocodeCache::new();
    let key = "50.061947,19.937480".to_string();
    let resp = response_of(vec![
        component(Some("Polska"), None, &["country", "political"]),
        component(
            Some("Kraków"),
            Some("Kraków"),
            &["political", "administrative_area_level_3"],
        ),
    ]);
    let outcome = finish_lookup(&mut cache, &key, &Some(resp));
    match outcome {
        PlaceOutcome::Name(name) => assert_eq!(name, "Kraków"),
        _ => panic!("expected a resolved name"),
    }
    assert_eq!(cache.get(&key), Some(&"Kraków".to_string()));
}

#[test]
fn finish_lookup_records_not_found_for_unparseable_response() {
    let mut cache = GeocodeCache::new();
    let key = "1.000000,2.000000".to_string();
    let outcome = finish_lookup(&mut cache, &key, &None);
    assert!(matches!(outcome, PlaceOutcome::NotFound));
    assert_eq!(cache.get(&key), Some(&"NIEZNALEZIONE".to_string()));
}

#[test]
fn find_city_falls_back_to_short_name() {
    let mut cache = GeocodeCache::new();
    let resp = response_of(vec![component(
        None,
        Some("Krk"),
        &["political", "administrative_area_level_3"],
    )]);
    let outcome = finish_lookup(&mut cache, &"k".to_string(), &Some(resp));
    match outcome {
        PlaceOutcome::Name(name) => assert_eq!(name, "Krk"),
        _ => panic!("expected the short-name fallback"),
    }
}

#[test]
fn find_city_reports_unknown_structure_for_nameless_component() {
    let mut cache = GeocodeCache::new();
    let resp = response_of(vec![component(
        None,
        None,
        &["political", "administrative_area_level_3"],
    )]);
    let outcome = finish_lookup(&mut cache, &"k".to_string(), &Some(resp));
    assert!(matches!(outcome, PlaceOutcome::UnknownStructure));
    assert_eq!(cache.get(&"k".to_string()), Some(&"NIEZNANE".to_string()));
}

#[test]
fn find_city_reports_not_found_without_matching_component() {
    let mut cache = GeocodeCache::new();
    let resp = response_of(vec![
        component(Some("Polska"), None, &["country", "political"]),
        component(Some("X"), None, &["administrative_area_level_3"]),
    ]);
    let outcome = finish_lookup(&mut cache, &"k".to_string(), &Some(resp));
    assert!(matches!(outcome, PlaceOutcome::NotFound));
}

#[test]
fn outcome_encoding_round_trips() {
    for o in [
        PlaceOutcome::Name("Kraków".to_string()),
        PlaceOutcome::NotFound,
        PlaceOutcome::UnknownStructure,
    ] {
        let text = encode_outcome(&o);
        let back = decode_outcome(&text);
        assert_eq!(encode_outcome(&back), text);
    }
}

#[test]
fn timestamps_normalize_colons_to_dots() {
    assert_eq!(normalize_timestamp("2023:08:14 12:30:00"), "2023.08.14 12.30.00");
    assert_eq!(normalize_timestamp(""), "");
    assert_eq!(normalize_timestamp("no-colons"), "no-colons");
}

#[test]
fn earliest_stamp_is_lexicographically_smallest() {
    let stamps = vec![
        "2023:08:14 12:30:00".to_string(),
        "".to_string(),
        "2023:08:14 09:15:00".to_string(),
    ];
    assert_eq!(earliest_stamp(&stamps), Some("2023.08.14 09.15.00".to_string()));
    assert_eq!(earliest_stamp(&vec![]), None);
    assert_eq!(earliest_stamp(&vec!["".to_string()]), None);
}

#[test]
fn build_record_requires_both_coordinates() {
    let lat = Some(vec![(50u32, 1u32), (3, 1), (43, 1)]);
    let lon = Some(vec![(19u32, 1u32), (56, 1), (14928, 1000)]);
    let r = build_record(&lat, &lon, &vec![]);
    let p = r.coords.expect("both triples are well formed");
    assert_eq!(p.lat, 50061944);
    assert_eq!(p.lon, 19937480);

    let r = build_record(&lat, &None, &vec![]);
    assert!(r.coords.is_none());
    let r = build_record(&None, &lon, &vec![]);
    assert!(r.coords.is_none());
    let r = build_record(&lat, &Some(vec![(19, 0), (56, 1), (14, 1)]), &vec![]);
    assert!(r.coords.is_none());
}

#[test]
fn stem_with_date_and_place() {
    // Scenario: coordinates resolving to a place and a date present.
    let record = CaptureRecord {
        coords: Some(pair(50061947, 19937480)),
        date: Some("2023.08.14 12.30.00".to_string()),
    };
    let place = Some(PlaceOutcome::Name("Kraków".to_string()));
    assert_eq!(plan(1, &record, &place), "0001_2023.08.14 12.30.00_Kraków");
}

#[test]
fn stem_without_coordinates_keeps_the_date() {
    let record = CaptureRecord {
        coords: None,
        date: Some("2023.08.14 12.30.00".to_string()),
    };
    assert_eq!(plan(2, &record, &None), "0002_2023.08.14 12.30.00");
}

#[test]
fn stem_with_failure_marker_and_no_date_is_the_sequence_alone() {
    let record = CaptureRecord {
        coords: Some(pair(1000000, 2000000)),
        date: None,
    };
    let place = Some(PlaceOutcome::NotFound);
    assert_eq!(plan(3, &record, &place), "0003");
    let place = Some(PlaceOutcome::UnknownStructure);
    assert_eq!(plan(3, &record, &place), "0003");
}

#[test]
fn stem_sequence_number_is_four_digits() {
    let record = CaptureRecord { coords: None, date: None };
    assert_eq!(plan(1, &record, &None), "0001");
    assert_eq!(plan(42, &record, &None), "0042");
    assert_eq!(plan(9999, &record, &None), "9999");
    assert_eq!(plan(10000, &record, &None), "10000");
}

#[test]
fn planning_is_deterministic() {
    let record = CaptureRecord {
        coords: Some(pair(50061947, 19937480)),
        date: Some("2023.08.14 12.30.00".to_string()),
    };
    let place = Some(PlaceOutcome::Name("Kraków".to_string()));
    assert_eq!(plan(7, &record, &place), plan(7, &record, &place));
}

#[test]
fn preview_schedules_no_rename() {
    let entries = vec![
        PlanEntry {
            old_path: "a.jpg".to_string(),
            new_path: "0001_x.jpg".to_string(),
        },
        PlanEntry {
            old_path: "b.jpg".to_string(),
            new_path: "0002.jpg".to_string(),
        },
    ];
    let actions = rename_actions(&entries, false);
    assert_eq!(actions.len(), 2);
    for a in &actions {
        assert!(matches!(a, RenameAction::Announce { .. }));
    }
}

#[test]
fn apply_renames_every_entry_exactly_once() {
    let entries = vec![
        PlanEntry {
            old_path: "a.jpg".to_string(),
            new_path: "0001_x.jpg".to_string(),
        },
        PlanEntry {
            old_path: "b.jpg".to_string(),
            new_path: "0002.jpg".to_string(),
        },
    ];
    let actions = rename_actions(&entries, true);
    assert_eq!(actions.len(), 4);
    match (&actions[0], &actions[1]) {
        (
            RenameAction::Announce { old_path: ao, new_path: an },
            RenameAction::Rename { old_path: ro, new_path: rn },
        ) => {
            assert_eq!(ao, "a.jpg");
            assert_eq!(an, "0001_x.jpg");
            assert_eq!(ro, "a.jpg");
            assert_eq!(rn, "0001_x.jpg");
        }
        _ => panic!("entry must be announced, then renamed"),
    }
    let renames = actions
        .iter()
        .filter(|a| matches!(a, RenameAction::Rename { .. }))
        .count();
    assert_eq!(renames, 2);
}

#[test]
fn new_file_name_keeps_the_extension() {
    assert_eq!(
        new_file_name(&"0001_2023.08.14 12.30.00_Kraków".to_string(), &"jpg".to_string()),
        "0001_2023.08.14 12.30.00_Kraków.jpg"
    );
}
