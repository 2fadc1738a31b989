//! Construction of the paginated building query.
//!
//! The query carries two identical point-in-time filters set to the current
//! date, derived arithmetically from elapsed days since the Unix epoch, and a
//! spatial polygon filter whose corners are the bounding box reprojected to
//! the remote projected system, serialized as integer meters.

use vstd::prelude::*;

verus! {

use crate::numfmt::{dec_rep_padded, dec_rep_signed, u64_to_string_padded, i64_to_string};

/// Gregorian leap year.
pub open spec fn is_leap_year(y: int) -> bool {
    y % 4 == 0 && (y % 100 != 0 || y % 400 == 0)
}

/// Number of days in year `y`.
pub open spec fn days_in_year(y: int) -> int {
    if is_leap_year(y) { 366 } else { 365 }
}

/// Walk years forward from `y`, consuming `rem` whole years of days.
/// Returns the final year and the days remaining within it.
pub open spec fn resolve_year(y: int, rem: int) -> (int, int)
    decreases rem,
{
    if rem < 0 || rem < days_in_year(y) {
        (y, rem)
    } else {
        resolve_year(y + 1, rem - days_in_year(y))
    }
}

/// Number of days in month `m` (1-based) of a common or leap year.
pub open spec fn month_len(m: int, leap: bool) -> int {
    if m == 1 { 31 }
    else if m == 2 { if leap { 29 } else { 28 } }
    else if m == 3 { 31 }
    else if m == 4 { 30 }
    else if m == 5 { 31 }
    else if m == 6 { 30 }
    else if m == 7 { 31 }
    else if m == 8 { 31 }
    else if m == 9 { 30 }
    else if m == 10 { 31 }
    else if m == 11 { 30 }
    else { 31 }
}

/// Walk months forward from `m`, consuming `rem` whole months of days.
/// Returns the final month and the zero-based day within it.
pub open spec fn resolve_month(m: int, rem: int, leap: bool) -> (int, int)
    decreases 12 - m,
{
    if m >= 12 || rem < month_len(m, leap) {
        (m, rem)
    } else {
        resolve_month(m + 1, rem - month_len(m, leap), leap)
    }
}

/// Days in months `m ..= 12`.
pub open spec fn rest_of_year(m: int, leap: bool) -> int
    decreases 13 - m,
{
    if m > 12 {
        0
    } else {
        month_len(m, leap) + rest_of_year(m + 1, leap)
    }
}

/// The months of a year account for all of its days.
proof fn lemma_rest_of_year_total(leap: bool)
    ensures
        rest_of_year(1, leap) == if leap { 366int } else { 365int },
{
    assert(rest_of_year(13, leap) == 0);
    assert(rest_of_year(12, leap) == 31);
    assert(rest_of_year(11, leap) == 61);
    assert(rest_of_year(10, leap) == 92);
    assert(rest_of_year(9, leap) == 122);
    assert(rest_of_year(8, leap) == 153);
    assert(rest_of_year(7, leap) == 184);
    assert(rest_of_year(6, leap) == 214);
    assert(rest_of_year(5, leap) == 245);
    assert(rest_of_year(4, leap) == 275);
    assert(rest_of_year(3, leap) == 306);
    assert(rest_of_year(2, leap) == if leap { 335int } else { 334int });
}

/// Resolving a month within a year yields a valid month and day.
proof fn lemma_resolve_month_bounds(m: int, rem: int, leap: bool)
    requires
        1 <= m <= 12,
        0 <= rem < rest_of_year(m, leap),
    ensures
        ({
            let r = resolve_month(m, rem, leap);
            &&& m <= r.0 <= 12
            &&& 0 <= r.1 < month_len(r.0, leap)
        }),
    decreases 12 - m,
{
    assert(rest_of_year(13, leap) == 0);
    if m >= 12 || rem < month_len(m, leap) {
    } else {
        lemma_resolve_month_bounds(m + 1, rem - month_len(m, leap), leap);
    }
}

/// Convert days since 1970-01-01 to a calendar date (year, month, day).
pub fn days_to_ymd(days: u32) -> (r: (u32, u32, u32))
    requires
        days < 2_900_000,
    ensures
        ({
            let yr = resolve_year(1970, days as int);
            let mo = resolve_month(1, yr.1, is_leap_year(yr.0));
            &&& r.0 == yr.0
            &&& r.1 == mo.0
            &&& r.2 == mo.1 + 1
        }),
        1970 <= r.0 <= 9999,
        1 <= r.1 <= 12,
        1 <= r.2 <= 31,
{
    let mut y: u32 = 1970;
    let mut rem: u32 = days;
    loop
        invariant
            1970 <= y,
            rem <= days,
            days < 2_900_000,
            (y - 1970) * 365 <= days - rem,
            resolve_year(1970, days as int) == resolve_year(y as int, rem as int),
        ensures
            1970 <= y <= 9999,
            resolve_year(1970, days as int) == (y as int, rem as int),
            rem < days_in_year(y as int),
        decreases rem,
    {
        let leap: bool = y % 4 == 0 && (y % 100 != 0 || y % 400 == 0);
        let len: u32 = if leap { 366 } else { 365 };
        if rem < len {
            break;
        }
        rem = rem - len;
        y = y + 1;
    }
    let leap: bool = y % 4 == 0 && (y % 100 != 0 || y % 400 == 0);
    proof {
        lemma_rest_of_year_total(leap);
        lemma_resolve_month_bounds(1, rem as int, leap);
    }
    let ghost rem0 = rem;
    let mut m: u32 = 1;
    loop
        invariant
            1 <= m <= 12,
            0 <= rem < rest_of_year(m as int, leap),
            resolve_month(1, rem0 as int, leap) == resolve_month(m as int, rem as int, leap),
        ensures
            1 <= m <= 12,
            resolve_month(1, rem0 as int, leap) == (m as int, rem as int),
            0 <= rem < month_len(m as int, leap),
        decreases 12 - m,
    {
        let len: u32 = if m == 1 { 31 }
            else if m == 2 { if leap { 29 } else { 28 } }
            else if m == 3 { 31 }
            else if m == 4 { 30 }
            else if m == 5 { 31 }
            else if m == 6 { 30 }
            else if m == 7 { 31 }
            else if m == 8 { 31 }
            else if m == 9 { 30 }
            else if m == 10 { 31 }
            else if m == 11 { 30 }
            else { 31 };
        if m >= 12 || rem < len {
            proof {
                assert(rest_of_year(13, leap) == 0);
            }
            break;
        }
        rem = rem - len;
        m = m + 1;
    }
    (y, m, rem + 1)
}

/// The bitemporal timestamp text for a day count: an ISO date at midnight.
pub open spec fn timestamp_text(days: int) -> Seq<char> {
    let yr = resolve_year(1970, days);
    let mo = resolve_month(1, yr.1, is_leap_year(yr.0));
    dec_rep_padded(yr.0 as nat, 4) + "-"@ + dec_rep_padded(mo.0 as nat, 2) + "-"@
        + dec_rep_padded((mo.1 + 1) as nat, 2) + "T00:00:00Z"@
}

/// Format the point-in-time filter value for a given number of days since
/// the Unix epoch.
pub fn format_bbr_timestamp(days: u32) -> (s: String)
    requires
        days < 2_900_000,
    ensures
        s@ == timestamp_text(days as int),
{
    let (y, m, d) = days_to_ymd(days);
    let mut s = u64_to_string_padded(y as u64, 4);
    s.append("-");
    s.append(u64_to_string_padded(m as u64, 2).as_str());
    s.append("-");
    s.append(u64_to_string_padded(d as u64, 2).as_str());
    s.append("T00:00:00Z");
    proof {
        assert(s@ =~= timestamp_text(days as int));
    }
    s
}

/// The continuation clause: empty on the first page, an `after` argument
/// carrying the cursor otherwise.
pub open spec fn after_clause_text(cursor: Option<Seq<char>>) -> Seq<char> {
    match cursor {
        Some(c) => ", after: \""@ + c + "\""@,
        None => Seq::<char>::empty(),
    }
}

/// The whole query text for one page: a page-size cap, the optional
/// continuation cursor, two identical point-in-time filters, a filter for
/// current records, and a polygon filter over the four corners in integer
/// projected meters.
pub open spec fn bbr_query_text(
    min_e: int,
    min_n: int,
    max_e: int,
    max_n: int,
    days: int,
    cursor: Option<Seq<char>>,
) -> Seq<char> {
    "{\n  BBR_Bygning(\n    first: 500"@ + after_clause_text(cursor)
        + "\n    registreringstid: \""@ + timestamp_text(days)
        + "\"\n    virkningstid: \""@ + timestamp_text(days)
        + "\"\n    where: {\n      status: { eq: \"6\" }\n      byg404Koordinat: {\n        within: { wkt: \"POLYGON(("@
        + dec_rep_signed(min_e) + " "@ + dec_rep_signed(min_n) + ", "@
        + dec_rep_signed(max_e) + " "@ + dec_rep_signed(min_n) + ", "@
        + dec_rep_signed(max_e) + " "@ + dec_rep_signed(max_n) + ", "@
        + dec_rep_signed(min_e) + " "@ + dec_rep_signed(max_n) + ", "@
        + dec_rep_signed(min_e) + " "@ + dec_rep_signed(min_n)
        + "))\", crs: 25832 }\n      }\n    }\n  ) {\n    pageInfo { hasNextPage endCursor }\n    nodes {\n      byg021BygningensAnvendelse\n      byg032YdervaeggensMateriale\n      byg033Tagdaekningsmateriale\n      byg054AntalEtager\n      byg404Koordinat { wkt }\n    }\n  }\n}"@
}

/// Build the query for one page of buildings within a bounding box whose
/// corners stand in integer projected meters, at the date given by days
/// since the Unix epoch, continuing from `cursor` where one is given.
pub fn build_bbr_query(
    min_e: i64,
    min_n: i64,
    max_e: i64,
    max_n: i64,
    epoch_days: u32,
    cursor: Option<&str>,
) -> (s: String)
    requires
        epoch_days < 2_900_000,
    ensures
        s@ == bbr_query_text(
            min_e as int,
            min_n as int,
            max_e as int,
            max_n as int,
            epoch_days as int,
            match cursor {
                Some(c) => Some(c@),
                None => None,
            },
        ),
{
    let now = format_bbr_timestamp(epoch_days);
    let mut s = "{\n  BBR_Bygning(\n    first: 500".to_owned();
    match cursor {
        Some(c) => {
            s.append(", after: \"");
            s.append(c);
            s.append("\"");
        },
        None => {},
    }
    s.append("\n    registreringstid: \"");
    s.append(now.as_str());
    s.append("\"\n    virkningstid: \"");
    s.append(now.as_str());
    s.append("\"\n    where: {\n      status: { eq: \"6\" }\n      byg404Koordinat: {\n        within: { wkt: \"POLYGON((");
    s.append(i64_to_string(min_e).as_str());
    s.append(" ");
    s.append(i64_to_string(min_n).as_str());
    s.append(", ");
    s.append(i64_to_string(max_e).as_str());
    s.append(" ");
    s.append(i64_to_string(min_n).as_str());
    s.append(", ");
    s.append(i64_to_string(max_e).as_str());
    s.append(" ");
    s.append(i64_to_string(max_n).as_str());
    s.append(", ");
    s.append(i64_to_string(min_e).as_str());
    s.append(" ");
    s.append(i64_to_string(max_n).as_str());
    s.append(", ");
    s.append(i64_to_string(min_e).as_str());
    s.append(" ");
    s.append(i64_to_string(min_n).as_str());
    s.append("))\", crs: 25832 }\n      }\n    }\n  ) {\n    pageInfo { hasNextPage endCursor }\n    nodes {\n      byg021BygningensAnvendelse\n      byg032YdervaeggensMateriale\n      byg033Tagdaekningsmateriale\n      byg054AntalEtager\n      byg404Koordinat { wkt }\n    }\n  }\n}");
    proof {
        assert(s@ =~= bbr_query_text(
            min_e as int,
            min_n as int,
            max_e as int,
            max_n as int,
            epoch_days as int,
            match cursor {
                Some(c) => Some(c@),
                None => None,
            },
        ));
    }
    s
}

} // verus!
