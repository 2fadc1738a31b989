//! Spatial reconciliation of fetched records against a renderer's planar
//! coordinates.
//!
//! The renderer's planar coordinates have no geodetic origin, so each
//! entity's geographic position is approximated: the planar bounding box of
//! all building entities is computed once, each entity's own planar centroid
//! is normalized against it, and the normalized position is mapped onto the
//! input geodetic bounding box (with the vertical planar axis inverted:
//! increasing planar depth maps to decreasing latitude). Records are matched
//! by nearest squared geodetic distance within a fixed threshold, and a
//! matched record's attributes override the entity's tags.

use vstd::prelude::*;

verus! {

use crate::geo::{GeoPoint, GeoBBox, geo_point_valid, bbox_valid};
use crate::records::{BbrBuilding, record_valid, record_point};
use crate::tags::{
    tags_view,
    tag_has_key,
    overrides_applied,
    spec_did_enrich,
    tags_contain_key,
    apply_overrides,
};

/// A vertex in the renderer's planar coordinate system.
#[derive(Clone, Copy, PartialEq, Eq, Structural, Debug)]
pub struct PlanarPoint {
    pub x: i32,
    pub z: i32,
}

/// A polygonal entity of the renderer: its vertices and its tag mapping.
/// Only the tag mapping is ever changed.
pub struct RenderEntity {
    pub nodes: Vec<PlanarPoint>,
    pub tags: Vec<(String, String)>,
}

/// The planar bounding box of all building entities' vertices.
#[derive(Clone, Copy, PartialEq, Eq, Structural, Debug)]
pub struct PlanarExtent {
    pub min_x: i32,
    pub max_x: i32,
    pub min_z: i32,
    pub max_z: i32,
}

/// Counts reported by one enrichment pass: entities that matched a record,
/// and entities that actually received a tag.
#[derive(Clone, Copy, PartialEq, Eq, Structural, Debug)]
pub struct EnrichStats {
    pub matched: u32,
    pub enriched: u32,
}

/// The entity bears a building classification tag.
pub open spec fn is_building_tagged(tv: Seq<(Seq<char>, Seq<char>)>) -> bool {
    tag_has_key(tv, "building"@) || tag_has_key(tv, "building:part"@)
}

/// The entity takes part in matching: it bears a building tag and has at
/// least one vertex.
pub open spec fn entity_eligible(e: RenderEntity) -> bool {
    is_building_tagged(tags_view(e.tags@)) && e.nodes@.len() > 0
}

/// Index `j` is a vertex of building entity `i`.
pub open spec fn building_node_at(entities: Seq<RenderEntity>, i: int, j: int) -> bool {
    0 <= i < entities.len() && is_building_tagged(tags_view(entities[i].tags@)) && 0 <= j
        < entities[i].nodes@.len()
}

/// Some building entity has at least one vertex.
pub open spec fn has_building_nodes(entities: Seq<RenderEntity>) -> bool {
    exists|i: int, j: int| #[trigger] building_node_at(entities, i, j)
}

/// Every vertex of every building entity lies within the extent.
pub open spec fn extent_bounds(entities: Seq<RenderEntity>, ext: PlanarExtent) -> bool {
    forall|i: int, j: int|
        #[trigger] building_node_at(entities, i, j) ==> {
            let p = entities[i].nodes@[j];
            ext.min_x <= p.x <= ext.max_x && ext.min_z <= p.z <= ext.max_z
        }
}

/// Each side of the extent is attained by some building entity's vertex.
pub open spec fn extent_attained(entities: Seq<RenderEntity>, ext: PlanarExtent) -> bool {
    &&& exists|i: int, j: int| #[trigger] building_node_at(entities, i, j)
        && entities[i].nodes@[j].x == ext.min_x
    &&& exists|i: int, j: int| #[trigger] building_node_at(entities, i, j)
        && entities[i].nodes@[j].x == ext.max_x
    &&& exists|i: int, j: int| #[trigger] building_node_at(entities, i, j)
        && entities[i].nodes@[j].z == ext.min_z
    &&& exists|i: int, j: int| #[trigger] building_node_at(entities, i, j)
        && entities[i].nodes@[j].z == ext.max_z
}

/// Compute the planar bounding box of all building entities' vertices, or
/// `None` where no building entity has a vertex.
pub fn global_extent(entities: &Vec<RenderEntity>) -> (r: Option<PlanarExtent>)
    ensures
        r is Some <==> has_building_nodes(entities@),
        r matches Some(ext) ==> extent_bounds(entities@, ext) && extent_attained(entities@, ext),
{
    let mut found = false;
    let mut min_x: i32 = 0;
    let mut max_x: i32 = 0;
    let mut min_z: i32 = 0;
    let mut max_z: i32 = 0;
    let key_building = "building".to_owned();
    let key_part = "building:part".to_owned();
    let mut i: usize = 0;
    while i < entities.len()
        invariant
            i <= entities@.len(),
            key_building@ == "building"@,
            key_part@ == "building:part"@,
            !found ==> forall|a: int, b: int| !(#[trigger] building_node_at(entities@, a, b) && a < i),
            found ==> exists|a: int, b: int| #[trigger] building_node_at(entities@, a, b) && a < i,
            found ==> forall|a: int, b: int|
                #[trigger] building_node_at(entities@, a, b) && a < i ==> {
                    let p = entities@[a].nodes@[b];
                    min_x <= p.x <= max_x && min_z <= p.z <= max_z
                },
            found ==> (exists|a: int, b: int|
                #[trigger] building_node_at(entities@, a, b) && a < i
                    && entities@[a].nodes@[b].x == min_x),
            found ==> (exists|a: int, b: int|
                #[trigger] building_node_at(entities@, a, b) && a < i
                    && entities@[a].nodes@[b].x == max_x),
            found ==> (exists|a: int, b: int|
                #[trigger] building_node_at(entities@, a, b) && a < i
                    && entities@[a].nodes@[b].z == min_z),
            found ==> (exists|a: int, b: int|
                #[trigger] building_node_at(entities@, a, b) && a < i
                    && entities@[a].nodes@[b].z == max_z),
        decreases entities@.len() - i,
    {
        let e = &entities[i];
        let tagged = tags_contain_key(&e.tags, &key_building) || tags_contain_key(
            &e.tags,
            &key_part,
        );
        if tagged {
            let mut j: usize = 0;
            while j < e.nodes.len()
                invariant
                    i < entities@.len(),
                    j <= e.nodes@.len(),
                    e == &entities@[i as int],
                    is_building_tagged(tags_view(entities@[i as int].tags@)),
                    !found ==> forall|a: int, b: int|
                        !(#[trigger] building_node_at(entities@, a, b) && (a < i || (a == i && b < j))),
                    found ==> exists|a: int, b: int|
                        #[trigger] building_node_at(entities@, a, b) && (a < i || (a == i && b < j)),
                    found ==> forall|a: int, b: int|
                        #[trigger] building_node_at(entities@, a, b) && (a < i || (a == i && b < j)) ==> {
                            let p = entities@[a].nodes@[b];
                            min_x <= p.x <= max_x && min_z <= p.z <= max_z
                        },
                    found ==> (exists|a: int, b: int|
                        #[trigger] building_node_at(entities@, a, b) && (a < i || (a == i && b < j))
                            && entities@[a].nodes@[b].x == min_x),
                    found ==> (exists|a: int, b: int|
                        #[trigger] building_node_at(entities@, a, b) && (a < i || (a == i && b < j))
                            && entities@[a].nodes@[b].x == max_x),
                    found ==> (exists|a: int, b: int|
                        #[trigger] building_node_at(entities@, a, b) && (a < i || (a == i && b < j))
                            && entities@[a].nodes@[b].z == min_z),
                    found ==> (exists|a: int, b: int|
                        #[trigger] building_node_at(entities@, a, b) && (a < i || (a == i && b < j))
                            && entities@[a].nodes@[b].z == max_z),
                decreases e.nodes@.len() - j,
            {
                let p = e.nodes[j];
                proof {
                    assert(building_node_at(entities@, i as int, j as int));
                    assert(entities@[i as int].nodes@[j as int] == p);
                }
                if !found {
                    found = true;
                    min_x = p.x;
                    max_x = p.x;
                    min_z = p.z;
                    max_z = p.z;
                } else {
                    if p.x < min_x {
                        min_x = p.x;
                    }
                    if p.x > max_x {
                        max_x = p.x;
                    }
                    if p.z < min_z {
                        min_z = p.z;
                    }
                    if p.z > max_z {
                        max_z = p.z;
                    }
                }
                j = j + 1;
            }
        }
        i = i + 1;
    }
    if found {
        Some(PlanarExtent { min_x, max_x, min_z, max_z })
    } else {
        assert(!has_building_nodes(entities@));
        None
    }
}

/// Least x coordinate of a nonempty vertex list.
pub open spec fn pts_min_x(pts: Seq<PlanarPoint>) -> int
    decreases pts.len(),
{
    if pts.len() <= 1 {
        pts[0].x as int
    } else if pts.last().x < pts_min_x(pts.drop_last()) {
        pts.last().x as int
    } else {
        pts_min_x(pts.drop_last())
    }
}

/// Greatest x coordinate of a nonempty vertex list.
pub open spec fn pts_max_x(pts: Seq<PlanarPoint>) -> int
    decreases pts.len(),
{
    if pts.len() <= 1 {
        pts[0].x as int
    } else if pts.last().x > pts_max_x(pts.drop_last()) {
        pts.last().x as int
    } else {
        pts_max_x(pts.drop_last())
    }
}

/// Least z coordinate of a nonempty vertex list.
pub open spec fn pts_min_z(pts: Seq<PlanarPoint>) -> int
    decreases pts.len(),
{
    if pts.len() <= 1 {
        pts[0].z as int
    } else if pts.last().z < pts_min_z(pts.drop_last()) {
        pts.last().z as int
    } else {
        pts_min_z(pts.drop_last())
    }
}

/// Greatest z coordinate of a nonempty vertex list.
pub open spec fn pts_max_z(pts: Seq<PlanarPoint>) -> int
    decreases pts.len(),
{
    if pts.len() <= 1 {
        pts[0].z as int
    } else if pts.last().z > pts_max_z(pts.drop_last()) {
        pts.last().z as int
    } else {
        pts_max_z(pts.drop_last())
    }
}

/// The bounds of a nonempty vertex list are attained and bounding.
pub proof fn lemma_pts_bounds(pts: Seq<PlanarPoint>)
    requires
        pts.len() > 0,
    ensures
        forall|k: int| 0 <= k < pts.len() ==> pts_min_x(pts) <= (#[trigger] pts[k]).x <= pts_max_x(pts),
        forall|k: int| 0 <= k < pts.len() ==> pts_min_z(pts) <= (#[trigger] pts[k]).z <= pts_max_z(pts),
        exists|k: int| 0 <= k < pts.len() && (#[trigger] pts[k]).x == pts_min_x(pts),
        exists|k: int| 0 <= k < pts.len() && (#[trigger] pts[k]).x == pts_max_x(pts),
        exists|k: int| 0 <= k < pts.len() && (#[trigger] pts[k]).z == pts_min_z(pts),
        exists|k: int| 0 <= k < pts.len() && (#[trigger] pts[k]).z == pts_max_z(pts),
    decreases pts.len(),
{
    let n = pts.len() as int;
    if pts.len() == 1 {
        assert(pts[0].x == pts_min_x(pts));
        assert(pts[0].x == pts_max_x(pts));
        assert(pts[0].z == pts_min_z(pts));
        assert(pts[0].z == pts_max_z(pts));
    } else {
        let pre = pts.drop_last();
        lemma_pts_bounds(pre);
        assert(forall|k: int| 0 <= k < n - 1 ==> pts[k] == #[trigger] pre[k]);
        assert(pts[n - 1] == pts.last());
        assert forall|k: int| 0 <= k < n implies pts_min_x(pts) <= (#[trigger] pts[k]).x
            <= pts_max_x(pts) by {
            if k < n - 1 {
                assert(pre[k] == pts[k]);
                assert(pts_min_x(pre) <= pre[k].x <= pts_max_x(pre));
            }
        };
        assert forall|k: int| 0 <= k < n implies pts_min_z(pts) <= (#[trigger] pts[k]).z
            <= pts_max_z(pts) by {
            if k < n - 1 {
                assert(pre[k] == pts[k]);
                assert(pts_min_z(pre) <= pre[k].z <= pts_max_z(pre));
            }
        };
        if pts.last().x < pts_min_x(pre) {
            assert(pts[n - 1].x == pts_min_x(pts));
        } else {
            let k = choose|k: int| 0 <= k < pre.len() && (#[trigger] pre[k]).x == pts_min_x(pre);
            assert(pts[k].x == pts_min_x(pts));
        }
        if pts.last().x > pts_max_x(pre) {
            assert(pts[n - 1].x == pts_max_x(pts));
        } else {
            let k = choose|k: int| 0 <= k < pre.len() && (#[trigger] pre[k]).x == pts_max_x(pre);
            assert(pts[k].x == pts_max_x(pts));
        }
        if pts.last().z < pts_min_z(pre) {
            assert(pts[n - 1].z == pts_min_z(pts));
        } else {
            let k = choose|k: int| 0 <= k < pre.len() && (#[trigger] pre[k]).z == pts_min_z(pre);
            assert(pts[k].z == pts_min_z(pts));
        }
        if pts.last().z > pts_max_z(pre) {
            assert(pts[n - 1].z == pts_max_z(pts));
        } else {
            let k = choose|k: int| 0 <= k < pre.len() && (#[trigger] pre[k]).z == pts_max_z(pre);
            assert(pts[k].z == pts_max_z(pts));
        }
    }
}

/// Compute the planar bounding box of a nonempty vertex list.
pub fn node_bounds(nodes: &Vec<PlanarPoint>) -> (r: (i32, i32, i32, i32))
    requires
        nodes@.len() > 0,
    ensures
        r.0 == pts_min_x(nodes@),
        r.1 == pts_max_x(nodes@),
        r.2 == pts_min_z(nodes@),
        r.3 == pts_max_z(nodes@),
{
    let first = nodes[0];
    let mut min_x = first.x;
    let mut max_x = first.x;
    let mut min_z = first.z;
    let mut max_z = first.z;
    let mut k: usize = 1;
    proof {
        assert(nodes@.take(1) =~= seq![nodes@[0]]);
    }
    while k < nodes.len()
        invariant
            1 <= k <= nodes@.len(),
            min_x == pts_min_x(nodes@.take(k as int)),
            max_x == pts_max_x(nodes@.take(k as int)),
            min_z == pts_min_z(nodes@.take(k as int)),
            max_z == pts_max_z(nodes@.take(k as int)),
        decreases nodes@.len() - k,
    {
        let p = nodes[k];
        proof {
            assert(nodes@.take(k + 1).drop_last() =~= nodes@.take(k as int));
            assert(nodes@.take(k + 1).last() == nodes@[k as int]);
        }
        if p.x < min_x {
            min_x = p.x;
        }
        if p.x > max_x {
            max_x = p.x;
        }
        if p.z < min_z {
            min_z = p.z;
        }
        if p.z > max_z {
            max_z = p.z;
        }
        k = k + 1;
    }
    proof {
        assert(nodes@.take(nodes@.len() as int) =~= nodes@);
    }
    (min_x, max_x, min_z, max_z)
}

/// The approximate geodetic position of a planar centroid, by linear
/// normalization of the doubled centroid coordinates (`cx2`, `cz2`, each
/// twice the true centroid, so that halving never loses precision) against
/// the global extent, mapped onto the geodetic bounding box. The planar
/// z axis is inverted: increasing planar depth maps to decreasing latitude.
pub open spec fn spec_approx_point(cx2: int, cz2: int, ext: PlanarExtent, bbox: GeoBBox) -> GeoPoint {
    let xr: int = if ext.max_x - ext.min_x < 1 { 1 } else { ext.max_x - ext.min_x };
    let zr: int = if ext.max_z - ext.min_z < 1 { 1 } else { ext.max_z - ext.min_z };
    GeoPoint {
        lat: (bbox.max.lat - ((cz2 - 2 * ext.min_z) * (bbox.max.lat - bbox.min.lat)) / (2 * zr)) as i64,
        lon: (bbox.min.lon + ((cx2 - 2 * ext.min_x) * (bbox.max.lon - bbox.min.lon)) / (2 * xr)) as i64,
    }
}

/// Map a doubled planar centroid onto the geodetic bounding box.
pub fn approx_geo(cx2: i64, cz2: i64, ext: &PlanarExtent, bbox: &GeoBBox) -> (p: GeoPoint)
    requires
        bbox_valid(*bbox),
        ext.min_x <= ext.max_x,
        ext.min_z <= ext.max_z,
        2 * ext.min_x <= cx2 <= 2 * ext.max_x,
        2 * ext.min_z <= cz2 <= 2 * ext.max_z,
    ensures
        p == spec_approx_point(cx2 as int, cz2 as int, *ext, *bbox),
        geo_point_valid(p),
{
    let xr: i64 = if (ext.max_x as i64) - (ext.min_x as i64) < 1 {
        1
    } else {
        (ext.max_x as i64) - (ext.min_x as i64)
    };
    let zr: i64 = if (ext.max_z as i64) - (ext.min_z as i64) < 1 {
        1
    } else {
        (ext.max_z as i64) - (ext.min_z as i64)
    };
    let dlon: i64 = bbox.max.lon - bbox.min.lon;
    let dlat: i64 = bbox.max.lat - bbox.min.lat;
    let ax: i128 = (cx2 - 2 * (ext.min_x as i64)) as i128;
    let az: i128 = (cz2 - 2 * (ext.min_z as i64)) as i128;
    proof {
        assert(0 <= ax * (dlon as i128) <= 0x7fff_ffff_ffff_ffff_ffff) by (nonlinear_arith)
            requires
                0 <= ax <= 0x2_0000_0000,
                0 <= dlon <= 3_600_000_000,
        ;
        assert(0 <= az * (dlat as i128) <= 0x7fff_ffff_ffff_ffff_ffff) by (nonlinear_arith)
            requires
                0 <= az <= 0x2_0000_0000,
                0 <= dlat <= 1_800_000_000,
        ;
    }
    let num_x: i128 = ax * (dlon as i128);
    let den_x: i128 = 2 * (xr as i128);
    let qx: i128 = num_x / den_x;
    let num_z: i128 = az * (dlat as i128);
    let den_z: i128 = 2 * (zr as i128);
    let qz: i128 = num_z / den_z;
    proof {
        assert(num_x <= den_x * (dlon as i128)) by (nonlinear_arith)
            requires
                num_x == ax * (dlon as i128),
                ax == (cx2 - 2 * (ext.min_x as i64)) as i128,
                den_x == 2 * (xr as i128),
                0 <= (cx2 - 2 * (ext.min_x as i64)) as i128 <= 2 * (xr as i128),
                dlon >= 0,
        ;
        assert(0 <= qx <= dlon) by (nonlinear_arith)
            requires
                qx == num_x / den_x,
                0 <= num_x <= den_x * (dlon as i128),
                den_x >= 2,
                dlon >= 0,
        ;
        assert(num_z <= den_z * (dlat as i128)) by (nonlinear_arith)
            requires
                num_z == az * (dlat as i128),
                az == (cz2 - 2 * (ext.min_z as i64)) as i128,
                den_z == 2 * (zr as i128),
                0 <= (cz2 - 2 * (ext.min_z as i64)) as i128 <= 2 * (zr as i128),
                dlat >= 0,
        ;
        assert(0 <= qz <= dlat) by (nonlinear_arith)
            requires
                qz == num_z / den_z,
                0 <= num_z <= den_z * (dlat as i128),
                den_z >= 2,
                dlat >= 0,
        ;
    }
    let p = GeoPoint { lat: bbox.max.lat - (qz as i64), lon: bbox.min.lon + (qx as i64) };
    p
}

/// Squared geodetic distance, in squared ten-millionths of a degree.
pub open spec fn dist_sq(a: GeoPoint, b: GeoPoint) -> int {
    (a.lat - b.lat) * (a.lat - b.lat) + (a.lon - b.lon) * (a.lon - b.lon)
}

/// Matching threshold: about 30 m, in ten-millionths of a degree. The
/// margin allows for the approximation error of the reverse projection.
pub const MATCH_THRESHOLD: i64 = 2700;

/// The squared matching threshold.
pub const MATCH_THRESHOLD_SQ: i64 = MATCH_THRESHOLD * MATCH_THRESHOLD;

/// The record the matching step picks for a query point: the first record
/// at minimal squared distance, where that distance is below the threshold.
pub open spec fn spec_nearest(records: Seq<BbrBuilding>, p: GeoPoint) -> Option<int>
    decreases records.len(),
{
    if records.len() == 0 {
        None
    } else {
        let k = records.len() - 1;
        let dk = dist_sq(record_point(records[k]), p);
        match spec_nearest(records.drop_last(), p) {
            None => if dk < MATCH_THRESHOLD_SQ {
                Some(k)
            } else {
                None
            },
            Some(b) => if dk < dist_sq(record_point(records[b]), p) {
                Some(k)
            } else {
                Some(b)
            },
        }
    }
}

/// What the matching step guarantees: a matched record lies strictly within
/// the threshold and no record lies nearer (no earlier record equally
/// near); no record is within the threshold only where nothing matched.
pub open spec fn nearest_match_ok(records: Seq<BbrBuilding>, p: GeoPoint, r: Option<int>) -> bool {
    match r {
        None => forall|j: int|
            0 <= j < records.len() ==> #[trigger] dist_sq(record_point(records[j]), p)
                >= MATCH_THRESHOLD_SQ,
        Some(i) => {
            &&& 0 <= i < records.len()
            &&& dist_sq(record_point(records[i]), p) < MATCH_THRESHOLD_SQ
            &&& forall|j: int|
                0 <= j < records.len() ==> #[trigger] dist_sq(record_point(records[j]), p)
                    >= dist_sq(record_point(records[i]), p)
            &&& forall|j: int|
                0 <= j < i ==> #[trigger] dist_sq(record_point(records[j]), p) > dist_sq(
                    record_point(records[i]),
                    p,
                )
        },
    }
}

/// The matching step's pick satisfies its guarantees.
pub proof fn lemma_nearest_ok(records: Seq<BbrBuilding>, p: GeoPoint)
    ensures
        nearest_match_ok(records, p, spec_nearest(records, p)),
    decreases records.len(),
{
    if records.len() > 0 {
        let pre = records.drop_last();
        lemma_nearest_ok(pre, p);
        assert(forall|k: int| 0 <= k < pre.len() ==> #[trigger] pre[k] == records[k]);
        let n = records.len() as int;
        let dk = dist_sq(record_point(records[n - 1]), p);
        match spec_nearest(pre, p) {
            None => {
                assert forall|j: int| 0 <= j < n - 1 implies #[trigger] dist_sq(
                    record_point(records[j]),
                    p,
                ) >= MATCH_THRESHOLD_SQ by {
                    assert(pre[j] == records[j]);
                    assert(dist_sq(record_point(pre[j]), p) >= MATCH_THRESHOLD_SQ);
                };
                if dk < MATCH_THRESHOLD_SQ {
                    assert(spec_nearest(records, p) == Some(n - 1));
                } else {
                    assert(spec_nearest(records, p) is None);
                }
            },
            Some(b) => {
                assert(0 <= b < n - 1);
                let db = dist_sq(record_point(records[b]), p);
                assert forall|j: int| 0 <= j < n - 1 implies #[trigger] dist_sq(
                    record_point(records[j]),
                    p,
                ) >= db by {
                    assert(pre[j] == records[j]);
                    assert(dist_sq(record_point(pre[j]), p) >= db);
                };
                assert forall|j: int| 0 <= j < b implies #[trigger] dist_sq(
                    record_point(records[j]),
                    p,
                ) > db by {
                    assert(pre[j] == records[j]);
                    assert(dist_sq(record_point(pre[j]), p) > db);
                };
                if dk < db {
                    assert(spec_nearest(records, p) == Some(n - 1));
                } else {
                    assert(spec_nearest(records, p) == Some(b));
                }
            },
        }
    }
}

/// Find the fetched record nearest to a query point, restricted to the
/// matching threshold: the first record at minimal squared geodetic
/// distance, where that distance is below the threshold.
pub fn find_nearest_record(records: &Vec<BbrBuilding>, p: GeoPoint) -> (r: Option<usize>)
    requires
        geo_point_valid(p),
        forall|k: int| 0 <= k < records@.len() ==> record_valid(#[trigger] records@[k]),
    ensures
        (match r {
            Some(i) => Some(i as int),
            None => None::<int>,
        }) == spec_nearest(records@, p),
        nearest_match_ok(
            records@,
            p,
            match r {
                Some(i) => Some(i as int),
                None => None,
            },
        ),
{
    let mut best: Option<usize> = None;
    let mut best_d: i128 = 0;
    let mut i: usize = 0;
    while i < records.len()
        invariant
            i <= records@.len(),
            geo_point_valid(p),
            forall|k: int| 0 <= k < records@.len() ==> record_valid(#[trigger] records@[k]),
            (match best {
                Some(b) => Some(b as int),
                None => None::<int>,
            }) == spec_nearest(records@.take(i as int), p),
            best matches Some(b) ==> b < i && best_d == dist_sq(record_point(records@[b as int]), p),
        decreases records@.len() - i,
    {
        let rec = &records[i];
        let dlat: i64 = rec.lat - p.lat;
        let dlon: i64 = rec.lon - p.lon;
        proof {
            assert(0 <= (dlat as i128) * (dlat as i128) <= 0x10000_0000_0000_0000_0000) by (
            nonlinear_arith)
                requires
                    -3_600_000_000 <= dlat <= 3_600_000_000,
            ;
            assert(0 <= (dlon as i128) * (dlon as i128) <= 0x10000_0000_0000_0000_0000) by (
            nonlinear_arith)
                requires
                    -3_600_000_000 <= dlon <= 3_600_000_000,
            ;
        }
        let d: i128 = (dlat as i128) * (dlat as i128) + (dlon as i128) * (dlon as i128);
        proof {
            assert(d == dist_sq(record_point(records@[i as int]), p));
            assert(records@.take(i + 1).drop_last() =~= records@.take(i as int));
            assert(records@.take(i + 1).last() == records@[i as int]);
            assert(forall|k: int|
                0 <= k < i ==> records@.take(i as int)[k] == #[trigger] records@[k]);
        }
        let improve = match best {
            None => d < (MATCH_THRESHOLD_SQ as i128),
            Some(_) => d < best_d,
        };
        if improve {
            best = Some(i);
            best_d = d;
        }
        i = i + 1;
    }
    proof {
        assert(records@.take(records@.len() as int) =~= records@);
        lemma_nearest_ok(records@, p);
    }
    best
}

/// A record exactly at the query point is always matched.
///
/// Where some record lies at squared distance zero from the query point,
/// the matching step picks a record, and the picked record also lies at
/// distance zero.
pub proof fn lemma_record_at_point_matched(records: Seq<BbrBuilding>, p: GeoPoint, i: int)
    requires
        0 <= i < records.len(),
        dist_sq(record_point(records[i]), p) == 0,
    ensures
        spec_nearest(records, p) is Some,
        dist_sq(record_point(records[spec_nearest(records, p)->0]), p) == 0,
{
    lemma_nearest_ok(records, p);
    match spec_nearest(records, p) {
        None => {
            assert(dist_sq(record_point(records[i]), p) >= MATCH_THRESHOLD_SQ);
        },
        Some(m) => {
            let a = record_point(records[m]).lat - p.lat;
            let b = record_point(records[m]).lon - p.lon;
            assert(a * a >= 0 && b * b >= 0) by (nonlinear_arith);
            assert(dist_sq(record_point(records[m]), p) <= 0);
        },
    }
}

/// A record farther than the threshold, by any margin, is never matched,
/// even where it is the globally nearest record.
pub proof fn lemma_far_record_never_matched(records: Seq<BbrBuilding>, p: GeoPoint, j: int)
    requires
        0 <= j < records.len(),
        dist_sq(record_point(records[j]), p) >= MATCH_THRESHOLD_SQ,
    ensures
        spec_nearest(records, p) != Some(j),
{
    lemma_nearest_ok(records, p);
}

/// The approximate geodetic position of an entity: its doubled planar
/// centroid mapped onto the geodetic bounding box.
pub open spec fn entity_approx_point(e: RenderEntity, ext: PlanarExtent, bbox: GeoBBox) -> GeoPoint {
    spec_approx_point(
        pts_min_x(e.nodes@) + pts_max_x(e.nodes@),
        pts_min_z(e.nodes@) + pts_max_z(e.nodes@),
        ext,
        bbox,
    )
}

/// The record an eligible entity matches, or `None` for an ineligible
/// entity or where no record is within the threshold.
pub open spec fn entity_match(
    e: RenderEntity,
    records: Seq<BbrBuilding>,
    ext: PlanarExtent,
    bbox: GeoBBox,
) -> Option<int> {
    if entity_eligible(e) {
        spec_nearest(records, entity_approx_point(e, ext, bbox))
    } else {
        None
    }
}

/// What one enrichment pass does to one entity: geometry untouched; tags
/// unchanged without a match, overridden from the matched record with one.
pub open spec fn entity_outcome(
    old_e: RenderEntity,
    new_e: RenderEntity,
    records: Seq<BbrBuilding>,
    ext: PlanarExtent,
    bbox: GeoBBox,
) -> bool {
    &&& new_e.nodes@ == old_e.nodes@
    &&& match entity_match(old_e, records, ext, bbox) {
        None => tags_view(new_e.tags@) == tags_view(old_e.tags@),
        Some(ri) => overrides_applied(tags_view(old_e.tags@), tags_view(new_e.tags@), records[ri]),
    }
}

/// The entity matches a record that contributes at least one tag.
pub open spec fn entity_enrich_flag(
    e: RenderEntity,
    records: Seq<BbrBuilding>,
    ext: PlanarExtent,
    bbox: GeoBBox,
) -> bool {
    entity_match(e, records, ext, bbox) matches Some(ri) && spec_did_enrich(records[ri])
}

/// Number of entities that match a record.
pub open spec fn count_matched(
    entities: Seq<RenderEntity>,
    records: Seq<BbrBuilding>,
    ext: PlanarExtent,
    bbox: GeoBBox,
) -> int
    decreases entities.len(),
{
    if entities.len() == 0 {
        0
    } else {
        count_matched(entities.drop_last(), records, ext, bbox) + if entity_match(
            entities.last(),
            records,
            ext,
            bbox,
        ) is Some {
            1int
        } else {
            0int
        }
    }
}

/// Number of entities that match a record and receive at least one tag.
pub open spec fn count_enriched(
    entities: Seq<RenderEntity>,
    records: Seq<BbrBuilding>,
    ext: PlanarExtent,
    bbox: GeoBBox,
) -> int
    decreases entities.len(),
{
    if entities.len() == 0 {
        0
    } else {
        count_enriched(entities.drop_last(), records, ext, bbox) + if entity_enrich_flag(
            entities.last(),
            records,
            ext,
            bbox,
        ) {
            1int
        } else {
            0int
        }
    }
}

/// Copy a vertex list.
fn clone_nodes(nodes: &Vec<PlanarPoint>) -> (r: Vec<PlanarPoint>)
    ensures
        r@ == nodes@,
{
    let mut r: Vec<PlanarPoint> = Vec::new();
    let mut i: usize = 0;
    while i < nodes.len()
        invariant
            i <= nodes@.len(),
            r@ == nodes@.take(i as int),
        decreases nodes@.len() - i,
    {
        r.push(nodes[i]);
        proof {
            assert(nodes@.take(i + 1).drop_last() =~= nodes@.take(i as int));
            assert(r@ =~= nodes@.take(i + 1));
        }
        i = i + 1;
    }
    proof {
        assert(nodes@.take(nodes@.len() as int) =~= nodes@);
    }
    r
}

/// Copy a tag list.
fn clone_tags(tags: &Vec<(String, String)>) -> (r: Vec<(String, String)>)
    ensures
        r@ == tags@,
{
    let mut r: Vec<(String, String)> = Vec::new();
    let mut i: usize = 0;
    while i < tags.len()
        invariant
            i <= tags@.len(),
            r@ == tags@.take(i as int),
        decreases tags@.len() - i,
    {
        let p = &tags[i];
        r.push((p.0.clone(), p.1.clone()));
        proof {
            assert(tags@.take(i + 1).drop_last() =~= tags@.take(i as int));
            assert(r@ =~= tags@.take(i + 1));
        }
        i = i + 1;
    }
    proof {
        assert(tags@.take(tags@.len() as int) =~= tags@);
    }
    r
}

/// One enrichment pass: reverse-map each building entity's planar centroid
/// to an approximate geodetic position, match it to the nearest fetched
/// record within the threshold, and apply the matched record's overrides to
/// the entity's tags. Geometry is never changed. Returns how many entities
/// matched and how many actually received a tag.
pub fn enrich_with_bbr(
    entities: &mut Vec<RenderEntity>,
    records: &Vec<BbrBuilding>,
    bbox: &GeoBBox,
) -> (stats: EnrichStats)
    requires
        bbox_valid(*bbox),
        forall|k: int| 0 <= k < records@.len() ==> record_valid(#[trigger] records@[k]),
        old(entities)@.len() < 0x1_0000_0000,
    ensures
        final(entities)@.len() == old(entities)@.len(),
        !has_building_nodes(old(entities)@) ==> final(entities)@ == old(entities)@
            && stats.matched == 0 && stats.enriched == 0,
        has_building_nodes(old(entities)@) ==> exists|ext: PlanarExtent|
            {
                &&& #[trigger] extent_bounds(old(entities)@, ext)
                &&& extent_attained(old(entities)@, ext)
                &&& forall|k: int|
                    0 <= k < old(entities)@.len() ==> entity_outcome(
                        old(entities)@[k],
                        final(entities)@[k],
                        records@,
                        ext,
                        *bbox,
                    )
                &&& stats.matched == count_matched(old(entities)@, records@, ext, *bbox)
                &&& stats.enriched == count_enriched(old(entities)@, records@, ext, *bbox)
            },
{
    let ext = match global_extent(entities) {
        Some(e) => e,
        None => {
            return EnrichStats { matched: 0, enriched: 0 };
        },
    };
    let ghost entities0 = entities@;
    let key_building = "building".to_owned();
    let key_part = "building:part".to_owned();
    let mut out: Vec<RenderEntity> = Vec::new();
    let mut matched: u32 = 0;
    let mut enriched: u32 = 0;
    let mut i: usize = 0;
    while i < entities.len()
        invariant
            i <= entities@.len(),
            entities@ == entities0,
            entities0 == old(entities)@,
            entities@.len() < 0x1_0000_0000,
            bbox_valid(*bbox),
            forall|k: int| 0 <= k < records@.len() ==> record_valid(#[trigger] records@[k]),
            extent_bounds(entities@, ext),
            extent_attained(entities@, ext),
            key_building@ == "building"@,
            key_part@ == "building:part"@,
            out@.len() == i,
            forall|k: int|
                0 <= k < i ==> entity_outcome(entities@[k], #[trigger] out@[k], records@, ext, *bbox),
            matched == count_matched(entities@.take(i as int), records@, ext, *bbox),
            enriched == count_enriched(entities@.take(i as int), records@, ext, *bbox),
            matched <= i,
            enriched <= i,
        decreases entities@.len() - i,
    {
        let e = &entities[i];
        let tagged = tags_contain_key(&e.tags, &key_building) || tags_contain_key(
            &e.tags,
            &key_part,
        );
        let mut new_tags = clone_tags(&e.tags);
        let mut this_matched = false;
        let mut this_enriched = false;
        if tagged && e.nodes.len() > 0 {
            proof {
                assert(entity_eligible(entities@[i as int]));
                lemma_pts_bounds(e.nodes@);
                let kmin = choose|k: int|
                    0 <= k < e.nodes@.len() && (#[trigger] e.nodes@[k]).x == pts_min_x(e.nodes@);
                assert(building_node_at(entities@, i as int, kmin));
                let kmax = choose|k: int|
                    0 <= k < e.nodes@.len() && (#[trigger] e.nodes@[k]).x == pts_max_x(e.nodes@);
                assert(building_node_at(entities@, i as int, kmax));
                let kminz = choose|k: int|
                    0 <= k < e.nodes@.len() && (#[trigger] e.nodes@[k]).z == pts_min_z(e.nodes@);
                assert(building_node_at(entities@, i as int, kminz));
                let kmaxz = choose|k: int|
                    0 <= k < e.nodes@.len() && (#[trigger] e.nodes@[k]).z == pts_max_z(e.nodes@);
                assert(building_node_at(entities@, i as int, kmaxz));
            }
            let (min_x, max_x, min_z, max_z) = node_bounds(&e.nodes);
            let cx2: i64 = (min_x as i64) + (max_x as i64);
            let cz2: i64 = (min_z as i64) + (max_z as i64);
            let p = approx_geo(cx2, cz2, &ext, bbox);
            proof {
                assert(p == entity_approx_point(entities@[i as int], ext, *bbox));
            }
            match find_nearest_record(records, p) {
                Some(ri) => {
                    this_matched = true;
                    let did = apply_overrides(&mut new_tags, &records[ri]);
                    this_enriched = did;
                },
                None => {},
            }
        }
        if this_matched {
            matched = matched + 1;
        }
        if this_enriched {
            enriched = enriched + 1;
        }
        out.push(RenderEntity { nodes: clone_nodes(&e.nodes), tags: new_tags });
        proof {
            assert(entities@.take(i + 1).drop_last() =~= entities@.take(i as int));
            assert(entities@.take(i + 1).last() == entities@[i as int]);
            assert(entity_outcome(entities@[i as int], out@[i as int], records@, ext, *bbox));
        }
        i = i + 1;
    }
    proof {
        assert(entities@.take(entities@.len() as int) =~= entities@);
    }
    *entities = out;
    EnrichStats { matched, enriched }
}

} // verus!
