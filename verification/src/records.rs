//! Building records fetched from the remote registry, and the pagination
//! control for the paged query protocol.
//!
//! A fetch makes one query per page. The response carries the page's records
//! and a pagination header; the decision whether to continue is pure logic
//! over that header and the page count, with a hard safety cap so that a
//! misbehaving server claiming further pages forever cannot cause an
//! unbounded loop.

use vstd::prelude::*;

verus! {

use vstd::string::StringSliceAdditionalSpecFns;
use crate::geo::{GeoPoint, geo_point_valid};
use crate::numfmt::int_literal_value;

/// A building record: its geodetic centroid in ten-millionths of a degree,
/// and its optional numeric attributes (floor count, wall material code,
/// roof covering code, use code).
#[derive(Debug)]
pub struct BbrBuilding {
    pub lat: i64,
    pub lon: i64,
    pub antal_etager: Option<i32>,
    pub ydervaegs_materiale: Option<i32>,
    pub tagdaekning: Option<i32>,
    pub anvendelse: Option<i32>,
}

/// The record's centroid lies in the valid geodetic range.
pub open spec fn record_valid(b: BbrBuilding) -> bool {
    geo_point_valid(GeoPoint { lat: b.lat, lon: b.lon })
}

/// The geodetic centroid of a record.
pub open spec fn record_point(b: BbrBuilding) -> GeoPoint {
    GeoPoint { lat: b.lat, lon: b.lon }
}

/// What an optional nullable attribute string parses to: the integer value
/// where the text is a decimal literal in 32-bit range, `None` otherwise.
pub open spec fn parsed_code(s: Option<Seq<u8>>) -> Option<i32> {
    match s {
        None => None,
        Some(b) => match int_literal_value(b) {
            Some(v) => if i32::MIN <= v <= i32::MAX {
                Some(v as i32)
            } else {
                None
            },
            None => None,
        },
    }
}

/// Assemble a record from a reprojected centroid and the raw nullable
/// attribute fields. A field that fails to parse degrades to "unknown"
/// rather than failing the record.
pub fn record_from_fields(
    lat: i64,
    lon: i64,
    antal_etager: Option<i32>,
    ydervaegs_materiale: Option<&str>,
    tagdaekning: Option<&str>,
    anvendelse: Option<&str>,
) -> (r: BbrBuilding)
    ensures
        r.lat == lat,
        r.lon == lon,
        r.antal_etager == antal_etager,
        r.ydervaegs_materiale == parsed_code(opt_str_bytes(ydervaegs_materiale)),
        r.tagdaekning == parsed_code(opt_str_bytes(tagdaekning)),
        r.anvendelse == parsed_code(opt_str_bytes(anvendelse)),
{
    BbrBuilding {
        lat,
        lon,
        antal_etager,
        ydervaegs_materiale: parse_opt_code(ydervaegs_materiale),
        tagdaekning: parse_opt_code(tagdaekning),
        anvendelse: parse_opt_code(anvendelse),
    }
}

/// The bytes of an optional string.
pub open spec fn opt_str_bytes(s: Option<&str>) -> Option<Seq<u8>> {
    match s {
        Some(t) => Some(t.spec_bytes()),
        None => None,
    }
}

/// Parse an optional attribute string to its integer code.
fn parse_opt_code(s: Option<&str>) -> (r: Option<i32>)
    ensures
        r == parsed_code(opt_str_bytes(s)),
{
    match s {
        Some(t) => crate::numfmt::parse_i32(t),
        None => None,
    }
}

/// The pagination header of one response page.
pub struct PageHeader {
    pub has_next_page: bool,
    pub end_cursor: Option<String>,
}

/// What the fetch loop does after one page.
pub enum PageDecision {
    /// Fetch another page, continuing from this cursor.
    Continue(String),
    /// The server reported no further pages, or signalled more pages but
    /// issued no cursor: the fetch is complete.
    Done,
    /// The safety cap was reached while the server still reported more
    /// pages: stop with a warning; the partial result stands.
    CapReached,
}

/// Hard safety cap on the number of pages fetched in one run.
pub const PAGE_CAP: u32 = 100;

/// The decision kind for a page number and pagination header.
pub enum PageStep {
    Continue,
    Done,
    CapReached,
}

/// The decision the fetch loop takes after fetching page `page` (1-based),
/// given whether the server signals more pages and whether it issued a
/// cursor.
pub open spec fn spec_page_step(page: int, has_next: bool, has_cursor: bool) -> PageStep {
    if !has_next {
        PageStep::Done
    } else if !has_cursor {
        PageStep::Done
    } else if page >= PAGE_CAP {
        PageStep::CapReached
    } else {
        PageStep::Continue
    }
}

/// Decide whether to fetch another page after page `page` returned the
/// header `h`.
pub fn pagination_decision(page: u32, h: &PageHeader) -> (d: PageDecision)
    requires
        1 <= page,
    ensures
        (d is Continue) <==> spec_page_step(page as int, h.has_next_page, h.end_cursor is Some)
            is Continue,
        (d is Done) <==> spec_page_step(page as int, h.has_next_page, h.end_cursor is Some)
            is Done,
        (d is CapReached) <==> spec_page_step(page as int, h.has_next_page, h.end_cursor is Some)
            is CapReached,
        d is Continue ==> d->0@ == h.end_cursor->0@,
{
    if !h.has_next_page {
        return PageDecision::Done;
    }
    match &h.end_cursor {
        None => PageDecision::Done,
        Some(c) => {
            if page >= PAGE_CAP {
                PageDecision::CapReached
            } else {
                PageDecision::Continue(c.clone())
            }
        },
    }
}

/// Pagination terminates under an adversarial server.
///
/// Against a server that always signals a further page and always issues a
/// cursor, the fetch loop, which numbers its pages from 1 and continues
/// only on a `Continue` decision, takes the `Continue` decision on every
/// page before the cap and stops with the cap warning on page `PAGE_CAP`
/// exactly: no run fetches more than `PAGE_CAP` pages.
pub proof fn lemma_pagination_terminates()
    ensures
        forall|page: int| 1 <= page < PAGE_CAP ==> spec_page_step(page, true, true) is Continue,
        spec_page_step(PAGE_CAP as int, true, true) is CapReached,
        forall|page: int| page >= PAGE_CAP ==> spec_page_step(page, true, true) is CapReached,
{
}

/// Join server-reported error messages with a separator, as the protocol
/// failure text.
pub open spec fn joined_messages(msgs: Seq<Seq<char>>) -> Seq<char>
    decreases msgs.len(),
{
    if msgs.len() == 0 {
        Seq::<char>::empty()
    } else if msgs.len() == 1 {
        msgs[0]
    } else {
        joined_messages(msgs.drop_last()) + "; "@ + msgs.last()
    }
}

/// Join error messages with `"; "` between them.
pub fn join_messages(msgs: &Vec<String>) -> (r: String)
    ensures
        r@ == joined_messages(msgs@.map_values(|m: String| m@)),
{
    let ghost views = msgs@.map_values(|m: String| m@);
    let mut r = String::new();
    let mut i: usize = 0;
    while i < msgs.len()
        invariant
            i <= msgs@.len(),
            views == msgs@.map_values(|m: String| m@),
            r@ == joined_messages(views.take(i as int)),
        decreases msgs@.len() - i,
    {
        if i > 0 {
            r.append("; ");
        }
        r.append(msgs[i].as_str());
        proof {
            assert(views.take(i + 1).drop_last() =~= views.take(i as int));
            assert(views.take(i + 1).last() == views[i as int]);
            assert(r@ =~= joined_messages(views.take(i + 1)));
        }
        i = i + 1;
    }
    proof {
        assert(views.take(msgs@.len() as int) =~= views);
    }
    r
}

} // verus!
