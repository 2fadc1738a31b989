use bbr_enrich::numfmt::{i64_to_string, parse_i32, u64_to_string, u64_to_string_padded};
use bbr_enrich::query::{build_bbr_query, days_to_ymd, format_bbr_timestamp};
use bbr_enrich::records::{
    join_messages, pagination_decision, record_from_fields, PageDecision, PageHeader,
};
use bbr_enrich::tags::{
    bbr_anvendelse_to_building_type, bbr_roof_to_tags, bbr_wall_material_to_colour, insert_tag,
    tags_contain_key,
};
use bbr_enrich::wkt::parse_point_coordinate;

#[test]
fn renders_decimals() {
    assert_eq!(u64_to_string(0), "0");
    assert_eq!(u64_to_string(7), "7");
    assert_eq!(u64_to_string(500), "500");
    assert_eq!(u64_to_string(18446744073709551615), "18446744073709551615");
    assert_eq!(i64_to_string(-1), "-1");
    assert_eq!(i64_to_string(725000), "725000");
    assert_eq!(i64_to_string(i64::MIN), "-9223372036854775808");
}

#[test]
fn renders_padded_decimals() {
    assert_eq!(u64_to_string_padded(7, 2), "07");
    assert_eq!(u64_to_string_padded(12, 2), "12");
    assert_eq!(u64_to_string_padded(3, 4), "0003");
    assert_eq!(u64_to_string_padded(1970, 4), "1970");
    assert_eq!(u64_to_string_padded(12345, 4), "12345");
}

#[test]
fn parses_integers() {
    assert_eq!(parse_i32("123"), Some(123));
    assert_eq!(parse_i32("-5"), Some(-5));
    assert_eq!(parse_i32("+7"), Some(7));
    assert_eq!(parse_i32("007"), Some(7));
    assert_eq!(parse_i32("2147483647"), Some(2147483647));
    assert_eq!(parse_i32("2147483648"), None);
    assert_eq!(parse_i32("-2147483648"), Some(i32::MIN));
    assert_eq!(parse_i32("-2147483649"), None);
    assert_eq!(parse_i32(""), None);
    assert_eq!(parse_i32("abc"), None);
    assert_eq!(parse_i32("12x"), None);
    assert_eq!(parse_i32("-"), None);
}

#[test]
fn computes_calendar_dates() {
    assert_eq!(days_to_ymd(0), (1970, 1, 1));
    assert_eq!(days_to_ymd(31), (1970, 2, 1));
    assert_eq!(days_to_ymd(365), (1971, 1, 1));
    // 2024 is a leap year: the 29th of February exists.
    assert_eq!(days_to_ymd(19723), (2024, 1, 1));
    assert_eq!(days_to_ymd(19723 + 31 + 28), (2024, 2, 29));
    assert_eq!(days_to_ymd(19723 + 31 + 29), (2024, 3, 1));
    // 2000 was a leap year (divisible by 400), 1900-style rules apply.
    assert_eq!(days_to_ymd(11016), (2000, 2, 29));
    // 2100 is not a leap year.
    assert_eq!(days_to_ymd(47540), (2100, 2, 28));
    assert_eq!(days_to_ymd(47541), (2100, 3, 1));
}

#[test]
fn formats_timestamps() {
    assert_eq!(format_bbr_timestamp(0), "1970-01-01T00:00:00Z");
    assert_eq!(format_bbr_timestamp(19723 + 31 + 28), "2024-02-29T00:00:00Z");
}

#[test]
fn builds_first_page_query() {
    let q = build_bbr_query(725000, 6175000, 726000, 6176000, 19723, None);
    let now = "2024-01-01T00:00:00Z";
    let expected = format!(
        "{{\n\
         \x20 BBR_Bygning(\n\
         \x20   first: 500{after}\n\
         \x20   registreringstid: \"{now}\"\n\
         \x20   virkningstid: \"{now}\"\n\
         \x20   where: {{\n\
         \x20     status: {{ eq: \"6\" }}\n\
         \x20     byg404Koordinat: {{\n\
         \x20       within: {{ wkt: \"POLYGON(({min_e} {min_n}, {max_e} {min_n}, {max_e} {max_n}, {min_e} {max_n}, {min_e} {min_n}))\", crs: 25832 }}\n\
         \x20     }}\n\
         \x20   }}\n\
         \x20 ) {{\n\
         \x20   pageInfo {{ hasNextPage endCursor }}\n\
         \x20   nodes {{\n\
         \x20     byg021BygningensAnvendelse\n\
         \x20     byg032YdervaeggensMateriale\n\
         \x20     byg033Tagdaekningsmateriale\n\
         \x20     byg054AntalEtager\n\
         \x20     byg404Koordinat {{ wkt }}\n\
         \x20   }}\n\
         \x20 }}\n\
         }}",
        now = now,
        after = "",
        min_e = 725000,
        min_n = 6175000,
        max_e = 726000,
        max_n = 6176000,
    );
    assert_eq!(q, expected);
}

#[test]
fn builds_continuation_query() {
    let q = build_bbr_query(725000, 6175000, 726000, 6176000, 19723, Some("abc123"));
    assert!(q.contains(", after: \"abc123\""));
    assert!(q.contains("first: 500, after: \"abc123\"\n"));
}

#[test]
fn parses_wkt_points() {
    assert_eq!(
        parse_point_coordinate("POINT (725000 6175000)"),
        Some((72500000, 617500000))
    );
    assert_eq!(
        parse_point_coordinate("POINT(725000 6175000)"),
        Some((72500000, 617500000))
    );
    assert_eq!(
        parse_point_coordinate("POINT (725000.5 6175000.25)"),
        Some((72500050, 617500025))
    );
    assert_eq!(
        parse_point_coordinate("POINT (725000.123 6175000)"),
        Some((72500012, 617500000))
    );
    assert_eq!(parse_point_coordinate("POINT (-1.5 2)"), Some((-150, 200)));
    assert_eq!(parse_point_coordinate("POINT ()"), None);
    assert_eq!(parse_point_coordinate("725000 6175000"), None);
    assert_eq!(parse_point_coordinate("POINT (1 2 3)"), None);
    assert_eq!(parse_point_coordinate("POINT (1)"), None);
    assert_eq!(parse_point_coordinate("POINT (a b)"), None);
    // Whole parts beyond the accepted projected range are refused.
    assert_eq!(parse_point_coordinate("POINT (99999999999999999 1)"), None);
    assert_eq!(
        parse_point_coordinate("  POINT (1 2)"),
        None,
        "leading text before the keyword is malformed"
    );
}

#[test]
fn pagination_stops_without_next_page() {
    let h = PageHeader {
        has_next_page: false,
        end_cursor: Some("c".to_string()),
    };
    assert!(matches!(pagination_decision(1, &h), PageDecision::Done));
}

#[test]
fn pagination_stops_without_cursor() {
    let h = PageHeader {
        has_next_page: true,
        end_cursor: None,
    };
    assert!(matches!(pagination_decision(1, &h), PageDecision::Done));
}

#[test]
fn pagination_continues_with_cursor() {
    let h = PageHeader {
        has_next_page: true,
        end_cursor: Some("next".to_string()),
    };
    match pagination_decision(5, &h) {
        PageDecision::Continue(c) => assert_eq!(c, "next"),
        _ => panic!("expected a continuation"),
    }
}

#[test]
fn pagination_terminates_at_cap_against_adversarial_server() {
    // A server that always reports another page and always issues a cursor
    // drives the loop to exactly 100 pages, then the cap decision.
    let mut page = 1u32;
    let mut pages_fetched = 0u32;
    loop {
        pages_fetched += 1;
        let h = PageHeader {
            has_next_page: true,
            end_cursor: Some(format!("cursor{page}")),
        };
        match pagination_decision(page, &h) {
            PageDecision::Continue(_) => page += 1,
            PageDecision::CapReached => break,
            PageDecision::Done => panic!("server signalled more pages"),
        }
        assert!(pages_fetched < 1000, "no cap reached");
    }
    assert_eq!(pages_fetched, 100);
}

#[test]
fn joins_error_messages() {
    assert_eq!(join_messages(&vec![]), "");
    assert_eq!(join_messages(&vec!["a".to_string()]), "a");
    assert_eq!(
        join_messages(&vec!["bad field".to_string(), "no access".to_string()]),
        "bad field; no access"
    );
}

#[test]
fn builds_records_with_degraded_fields() {
    let r = record_from_fields(
        556750000,
        125700000,
        Some(3),
        Some("1"),
        Some("oops"),
        None,
    );
    assert_eq!(r.lat, 556750000);
    assert_eq!(r.lon, 125700000);
    assert_eq!(r.antal_etager, Some(3));
    assert_eq!(r.ydervaegs_materiale, Some(1));
    assert_eq!(r.tagdaekning, None);
    assert_eq!(r.anvendelse, None);
}

#[test]
fn translates_wall_materials() {
    assert_eq!(bbr_wall_material_to_colour(1), Some("#b5451b"));
    assert_eq!(bbr_wall_material_to_colour(2), Some("#c8c0b8"));
    assert_eq!(bbr_wall_material_to_colour(5), Some("#a07040"));
    assert_eq!(bbr_wall_material_to_colour(10), Some("#d0e8f0"));
    assert_eq!(bbr_wall_material_to_colour(12), Some("#f0e8d0"));
    assert_eq!(bbr_wall_material_to_colour(9), None);
    assert_eq!(bbr_wall_material_to_colour(0), None);
    assert_eq!(bbr_wall_material_to_colour(-3), None);
}

#[test]
fn translates_roof_codes() {
    let r = bbr_roof_to_tags(5);
    assert_eq!(r.shape, Some("gabled"));
    assert_eq!(r.material, Some("tile"));
    let r = bbr_roof_to_tags(1);
    assert_eq!(r.shape, Some("flat"));
    assert_eq!(r.material, None);
    let r = bbr_roof_to_tags(7);
    assert_eq!(r.shape, Some("hipped"));
    assert_eq!(r.material, Some("thatch"));
    let r = bbr_roof_to_tags(10);
    assert_eq!(r.shape, None);
    assert_eq!(r.material, Some("glass"));
    let r = bbr_roof_to_tags(99);
    assert_eq!(r.shape, None);
    assert_eq!(r.material, None);
}

#[test]
fn translates_use_codes() {
    assert_eq!(bbr_anvendelse_to_building_type(120), Some("house"));
    assert_eq!(bbr_anvendelse_to_building_type(121), Some("semidetached_house"));
    assert_eq!(bbr_anvendelse_to_building_type(140), Some("apartments"));
    assert_eq!(bbr_anvendelse_to_building_type(188), Some("residential"));
    assert_eq!(bbr_anvendelse_to_building_type(315), Some("commercial"));
    assert_eq!(bbr_anvendelse_to_building_type(325), Some("office"));
    assert_eq!(bbr_anvendelse_to_building_type(355), Some("retail"));
    assert_eq!(bbr_anvendelse_to_building_type(435), Some("warehouse"));
    assert_eq!(bbr_anvendelse_to_building_type(515), Some("school"));
    assert_eq!(bbr_anvendelse_to_building_type(585), Some("church"));
    assert_eq!(bbr_anvendelse_to_building_type(915), Some("farm"));
    assert_eq!(bbr_anvendelse_to_building_type(930), Some("shed"));
    assert_eq!(bbr_anvendelse_to_building_type(940), Some("garage"));
    assert_eq!(bbr_anvendelse_to_building_type(200), None);
    assert_eq!(bbr_anvendelse_to_building_type(0), None);
}

#[test]
fn tag_insertion_replaces_and_appends() {
    let mut tags: Vec<(String, String)> = vec![("building".to_string(), "yes".to_string())];
    insert_tag(&mut tags, "building".to_string(), "house".to_string());
    assert_eq!(tags, vec![("building".to_string(), "house".to_string())]);
    insert_tag(&mut tags, "building:levels".to_string(), "3".to_string());
    assert_eq!(tags.len(), 2);
    assert_eq!(tags[1], ("building:levels".to_string(), "3".to_string()));
    assert!(tags_contain_key(&tags, &"building".to_string()));
    assert!(!tags_contain_key(&tags, &"roof:shape".to_string()));
}
