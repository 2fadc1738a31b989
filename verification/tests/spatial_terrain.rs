use bbr_enrich::geo::{GeoBBox, GeoPoint};
use bbr_enrich::reconcile::{
    enrich_with_bbr, find_nearest_record, global_extent, PlanarPoint, RenderEntity,
};
use bbr_enrich::records::BbrBuilding;
use bbr_enrich::terrain::{
    build_dhm_url, cap_request_dim, classify_status, dhm_gaussian_blur, grid_dims,
    is_error_payload, map_to_vertical, resample_grid, retry_next, AttemptOutcome, RetryAction,
    RetryState,
};

fn test_bbox() -> GeoBBox {
    GeoBBox {
        min: GeoPoint {
            lat: 556700000,
            lon: 125600000,
        },
        max: GeoPoint {
            lat: 556800000,
            lon: 125800000,
        },
    }
}

fn record_at(lat: i64, lon: i64) -> BbrBuilding {
    BbrBuilding {
        lat,
        lon,
        antal_etager: Some(3),
        ydervaegs_materiale: Some(1),
        tagdaekning: None,
        anvendelse: None,
    }
}

fn square_building_entity() -> RenderEntity {
    RenderEntity {
        nodes: vec![
            PlanarPoint { x: 0, z: 0 },
            PlanarPoint { x: 10, z: 0 },
            PlanarPoint { x: 10, z: 10 },
            PlanarPoint { x: 0, z: 10 },
        ],
        tags: vec![("building".to_string(), "yes".to_string())],
    }
}

fn get_tag<'a>(tags: &'a [(String, String)], key: &str) -> Option<&'a str> {
    tags.iter().find(|p| p.0 == key).map(|p| p.1.as_str())
}

#[test]
fn extent_covers_building_vertices() {
    let entities = vec![square_building_entity()];
    let ext = global_extent(&entities).unwrap();
    assert_eq!((ext.min_x, ext.max_x, ext.min_z, ext.max_z), (0, 10, 0, 10));
}

#[test]
fn extent_absent_without_buildings() {
    let entities = vec![RenderEntity {
        nodes: vec![PlanarPoint { x: 1, z: 2 }],
        tags: vec![("highway".to_string(), "residential".to_string())],
    }];
    assert!(global_extent(&entities).is_none());
}

#[test]
fn record_at_centroid_is_matched() {
    // The entity's planar centroid normalizes exactly onto the record.
    let records = vec![record_at(556750000, 125700000)];
    let p = GeoPoint {
        lat: 556750000,
        lon: 125700000,
    };
    assert_eq!(find_nearest_record(&records, p), Some(0));
}

#[test]
fn record_beyond_threshold_is_never_matched() {
    // 2800 ten-millionths of a degree is past the threshold of 2700, so
    // even the globally nearest record is rejected.
    let records = vec![record_at(556750000 + 2800, 125700000)];
    let p = GeoPoint {
        lat: 556750000,
        lon: 125700000,
    };
    assert_eq!(find_nearest_record(&records, p), None);
    // Just inside the threshold it is matched.
    let records = vec![record_at(556750000 + 2699, 125700000)];
    assert_eq!(find_nearest_record(&records, p), Some(0));
}

#[test]
fn nearest_record_wins_and_first_of_equals() {
    let p = GeoPoint {
        lat: 556750000,
        lon: 125700000,
    };
    let records = vec![
        record_at(556750000 + 100, 125700000),
        record_at(556750000 + 10, 125700000),
        record_at(556750000 - 10, 125700000),
    ];
    assert_eq!(find_nearest_record(&records, p), Some(1));
}

#[test]
fn enrichment_scenario_sets_tags_and_counts() {
    // Bounding box (55.670, 12.560) to (55.680, 12.580); one record at
    // (55.675, 12.570) with three floors and brick walls; one entity whose
    // planar centroid normalizes exactly onto the record.
    let bbox = test_bbox();
    let records = vec![record_at(556750000, 125700000)];
    let mut entities = vec![square_building_entity()];
    let stats = enrich_with_bbr(&mut entities, &records, &bbox);
    assert_eq!(stats.matched, 1);
    assert_eq!(stats.enriched, 1);
    assert_eq!(get_tag(&entities[0].tags, "building:levels"), Some("3"));
    assert_eq!(get_tag(&entities[0].tags, "building:colour"), Some("#b5451b"));
}

#[test]
fn enrichment_leaves_unmatched_entities_untouched() {
    let bbox = test_bbox();
    // The record sits near the bounding box corner, far from the entity's
    // approximate centroid.
    let records = vec![record_at(556700100, 125600100)];
    let mut entities = vec![square_building_entity()];
    let stats = enrich_with_bbr(&mut entities, &records, &bbox);
    assert_eq!(stats.matched, 0);
    assert_eq!(stats.enriched, 0);
    assert_eq!(entities[0].tags, vec![("building".to_string(), "yes".to_string())]);
}

#[test]
fn enrichment_counts_match_without_contribution() {
    // A matched record whose attributes contribute nothing counts as
    // matched but not as enriched.
    let bbox = test_bbox();
    let records = vec![BbrBuilding {
        lat: 556750000,
        lon: 125700000,
        antal_etager: Some(0),
        ydervaegs_materiale: Some(9),
        tagdaekning: None,
        anvendelse: Some(200),
    }];
    let mut entities = vec![square_building_entity()];
    let stats = enrich_with_bbr(&mut entities, &records, &bbox);
    assert_eq!(stats.matched, 1);
    assert_eq!(stats.enriched, 0);
}

#[test]
fn enrichment_without_building_entities_is_a_no_op() {
    let bbox = test_bbox();
    let records = vec![record_at(556750000, 125700000)];
    let mut entities = vec![RenderEntity {
        nodes: vec![PlanarPoint { x: 0, z: 0 }],
        tags: vec![("waterway".to_string(), "river".to_string())],
    }];
    let stats = enrich_with_bbr(&mut entities, &records, &bbox);
    assert_eq!(stats.matched, 0);
    assert_eq!(stats.enriched, 0);
    assert_eq!(entities[0].tags.len(), 1);
}

#[test]
fn grid_dimensions_reject_zero() {
    assert_eq!(grid_dims(0, 500, 1000), None);
    assert_eq!(grid_dims(500, 0, 1000), None);
    assert_eq!(grid_dims(500, 400, 0), None);
    assert_eq!(grid_dims(500, 400, 1000), Some((500, 400)));
    // A half scale halves the grid.
    assert_eq!(grid_dims(500, 400, 500), Some((250, 200)));
}

#[test]
fn request_dimensions_are_capped() {
    assert_eq!(cap_request_dim(100), 100);
    assert_eq!(cap_request_dim(2048), 2048);
    assert_eq!(cap_request_dim(5000), 2048);
}

#[test]
fn builds_coverage_url() {
    let url = build_dhm_url("725000", "6175000", "726000", "6176000", 500, 400, "tok");
    assert_eq!(
        url,
        "https://api.dataforsyningen.dk/dhm_wcs_DAF?SERVICE=WCS&REQUEST=GetCoverage&VERSION=1.0.0&COVERAGE=dhm_terraen&CRS=EPSG:25832&RESPONSE_CRS=EPSG:25832&BBOX=725000,6175000,726000,6176000&WIDTH=500&HEIGHT=400&FORMAT=GTiff&token=tok"
    );
}

#[test]
fn classifies_statuses() {
    assert_eq!(classify_status(200), AttemptOutcome::Success);
    assert_eq!(classify_status(204), AttemptOutcome::Success);
    assert_eq!(classify_status(429), AttemptOutcome::Transient);
    assert_eq!(classify_status(500), AttemptOutcome::Transient);
    assert_eq!(classify_status(503), AttemptOutcome::Transient);
    assert_eq!(classify_status(400), AttemptOutcome::Fatal);
    assert_eq!(classify_status(401), AttemptOutcome::Fatal);
    assert_eq!(classify_status(404), AttemptOutcome::Fatal);
}

#[test]
fn retry_schedule_backs_off_and_gives_up() {
    let s = RetryState { round: 1, attempt: 1 };
    let (s, a) = retry_next(s);
    assert_eq!(a, RetryAction::Backoff(2));
    assert_eq!((s.round, s.attempt), (1, 2));
    let (s, a) = retry_next(s);
    assert_eq!(a, RetryAction::Backoff(4));
    assert_eq!((s.round, s.attempt), (1, 3));
    let (s, a) = retry_next(s);
    assert_eq!(a, RetryAction::RoundWait);
    assert_eq!((s.round, s.attempt), (2, 1));
    // Exhaust the whole schedule: 15 attempts in all.
    let mut s = RetryState { round: 1, attempt: 1 };
    let mut attempts = 1;
    loop {
        let (next, action) = retry_next(s);
        if action == RetryAction::GiveUp {
            break;
        }
        s = next;
        attempts += 1;
        assert!(attempts <= 15);
    }
    assert_eq!(attempts, 15);
}

#[test]
fn detects_disguised_error_payloads() {
    assert!(is_error_payload("text/xml; charset=utf-8", &vec![0u8; 10]));
    assert!(is_error_payload("application/xml", &vec![0u8; 10]));
    let markup = b"<ServiceException>bad</ServiceException>".to_vec();
    assert!(is_error_payload("application/octet-stream", &markup));
    let tiff = vec![0x49, 0x49, 0x2a, 0x00, 0x08, 0x00, 0x00, 0x00];
    assert!(!is_error_payload("image/tiff", &tiff));
    // A short body is never judged by its first byte.
    assert!(!is_error_payload("image/tiff", &vec![b'<'; 5]));
}

#[test]
fn resampling_same_size_is_identity() {
    let samples = vec![100, 200, 300, 400];
    let grid = resample_grid(&samples, 2, 2, 2, 2);
    assert_eq!(grid, vec![vec![100, 200], vec![300, 400]]);
}

#[test]
fn resampling_substitutes_nodata() {
    // The nodata sentinel (-9999 m and below) maps to sea level.
    let samples = vec![-999900, 200, -1000000, 400];
    let grid = resample_grid(&samples, 2, 2, 2, 2);
    assert_eq!(grid, vec![vec![0, 200], vec![0, 400]]);
}

#[test]
fn resampling_downscales_by_nearest_pixel() {
    let samples = vec![10, 20, 30, 40, 50, 60, 70, 80, 90, 100, 110, 120, 130, 140, 150, 160];
    let grid = resample_grid(&samples, 4, 4, 2, 2);
    assert_eq!(grid, vec![vec![10, 30], vec![90, 110]]);
}

#[test]
fn blur_with_unit_kernel_is_identity() {
    let grid = vec![vec![100, 200, 300], vec![400, 500, 600]];
    let out = dhm_gaussian_blur(&grid, &vec![65536]);
    assert_eq!(out, grid);
}

#[test]
fn blur_preserves_constant_terrain() {
    // The kernel's weights sum to one, so flat terrain stays flat.
    let grid = vec![vec![700i64; 5]; 4];
    let kernel = vec![6554, 16384, 19660, 16384, 6554];
    let kernel_sum: i64 = kernel.iter().sum();
    assert_eq!(kernel_sum, 65536);
    let out = dhm_gaussian_blur(&grid, &kernel);
    assert_eq!(out, grid);
}

#[test]
fn blur_averages_with_edge_clamping() {
    let grid = vec![vec![0, 100, 200]];
    // A quarter-half-quarter kernel in fixed point.
    let kernel = vec![16384, 32768, 16384];
    let out = dhm_gaussian_blur(&grid, &kernel);
    assert_eq!(out, vec![vec![25, 100, 175]]);
}

#[test]
fn vertical_mapping_applies_requested_scale() {
    // Elevations 0 m and 10 m, scale 1.0, base level 60: one vertical step
    // per meter of elevation above the minimum.
    let grid = vec![vec![0i64, 1000]];
    let e = map_to_vertical(&grid, 1000, 60);
    assert_eq!(e.heights, vec![vec![60, 70]]);
    assert_eq!((e.width, e.height), (2, 1));
    // The minimum is at 0 m, so the sea-level coordinate is present.
    assert_eq!(e.sea_level_y, Some(60));
}

#[test]
fn vertical_mapping_compresses_to_budget() {
    // Elevations 0 m to 1000 m at scale 1.0 exceed the available vertical
    // budget above base level 0 (304), so the output spans exactly the
    // budget, not the requested 1000.
    let grid = vec![vec![0i64, 100000]];
    let e = map_to_vertical(&grid, 1000, 0);
    let lo = *e.heights[0].iter().min().unwrap();
    let hi = *e.heights[0].iter().max().unwrap();
    assert_eq!(hi - lo, 304);
    assert_eq!(e.heights, vec![vec![0, 304]]);
}

#[test]
fn sea_level_absent_for_high_terrain() {
    // Elevations from 5 m up: no near-sea-level terrain, no sea-level row.
    let grid = vec![vec![500i64, 1500]];
    let e = map_to_vertical(&grid, 1000, 60);
    assert_eq!(e.sea_level_y, None);
}
