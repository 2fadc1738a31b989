//! Terrain raster handling: grid sizing, the coverage request, the retry
//! schedule, response validation, resampling, smoothing and vertical
//! mapping into the renderer's height units.
//!
//! Elevations are carried as centimeters in signed integers. The raster is
//! fetched and decoded outside the library; the library decides the grid
//! dimensions and the retry schedule, builds the request, validates the
//! response shape, and computes the output grid.

use vstd::prelude::*;

verus! {

use vstd::string::StringSliceAdditionalSpecFns;
use crate::numfmt::dec_rep;
use crate::numfmt::u64_to_string;

/// A renderer-ready elevation grid: `heights[row][col]` is a renderer
/// vertical coordinate; `sea_level_y` is the vertical coordinate of real
/// 0 m elevation, present only where the area holds near-sea-level terrain.
pub struct ElevationData {
    pub heights: Vec<Vec<i32>>,
    pub width: usize,
    pub height: usize,
    pub sea_level_y: Option<i32>,
}

/// Hard cap on either requested raster dimension, in pixels.
pub const RASTER_REQUEST_CAP: usize = 2048;

/// Derive the target grid dimensions from the bounding box extent in whole
/// meters and the horizontal scale in thousandths. `None` where either
/// dimension comes out zero: such a request is refused up front.
pub fn grid_dims(extent_x_m: u64, extent_z_m: u64, scale_milli: u64) -> (r: Option<(u64, u64)>)
    requires
        extent_x_m <= 100_000_000,
        extent_z_m <= 100_000_000,
        scale_milli <= 1_000_000,
    ensures
        r is Some <==> extent_x_m * scale_milli / 1000 > 0 && extent_z_m * scale_milli / 1000 > 0,
        r matches Some(d) ==> d.0 == extent_x_m * scale_milli / 1000 && d.1 == extent_z_m
            * scale_milli / 1000,
{
    proof {
        assert(extent_x_m * scale_milli <= 100_000_000 * 1_000_000) by (nonlinear_arith)
            requires
                extent_x_m <= 100_000_000,
                scale_milli <= 1_000_000,
        ;
        assert(extent_z_m * scale_milli <= 100_000_000 * 1_000_000) by (nonlinear_arith)
            requires
                extent_z_m <= 100_000_000,
                scale_milli <= 1_000_000,
        ;
    }
    let w = extent_x_m * scale_milli / 1000;
    let h = extent_z_m * scale_milli / 1000;
    if w == 0 || h == 0 {
        None
    } else {
        Some((w, h))
    }
}

/// Cap a requested raster dimension to the download limit.
pub fn cap_request_dim(d: usize) -> (r: usize)
    ensures
        r == if d < RASTER_REQUEST_CAP {
            d as int
        } else {
            RASTER_REQUEST_CAP as int
        },
{
    if d < RASTER_REQUEST_CAP {
        d
    } else {
        RASTER_REQUEST_CAP
    }
}

/// The coverage request URL for the given corner coordinates (already
/// rendered as text), pixel dimensions and credential.
pub open spec fn dhm_url_text(
    min_e: Seq<char>,
    min_n: Seq<char>,
    max_e: Seq<char>,
    max_n: Seq<char>,
    req_w: int,
    req_h: int,
    token: Seq<char>,
) -> Seq<char> {
    "https://api.dataforsyningen.dk/dhm_wcs_DAF?SERVICE=WCS&REQUEST=GetCoverage&VERSION=1.0.0&COVERAGE=dhm_terraen&CRS=EPSG:25832&RESPONSE_CRS=EPSG:25832&BBOX="@
        + min_e + ","@ + min_n + ","@ + max_e + ","@ + max_n + "&WIDTH="@ + dec_rep(req_w as nat)
        + "&HEIGHT="@ + dec_rep(req_h as nat) + "&FORMAT=GTiff&token="@ + token
}

/// Build the coverage request URL. The corner coordinates arrive as text
/// so that the caller's numeric formatting is carried through verbatim.
pub fn build_dhm_url(
    min_e: &str,
    min_n: &str,
    max_e: &str,
    max_n: &str,
    req_w: usize,
    req_h: usize,
    token: &str,
) -> (s: String)
    ensures
        s@ == dhm_url_text(min_e@, min_n@, max_e@, max_n@, req_w as int, req_h as int, token@),
{
    let mut s =
        "https://api.dataforsyningen.dk/dhm_wcs_DAF?SERVICE=WCS&REQUEST=GetCoverage&VERSION=1.0.0&COVERAGE=dhm_terraen&CRS=EPSG:25832&RESPONSE_CRS=EPSG:25832&BBOX=".to_owned();
    s.append(min_e);
    s.append(",");
    s.append(min_n);
    s.append(",");
    s.append(max_e);
    s.append(",");
    s.append(max_n);
    s.append("&WIDTH=");
    s.append(u64_to_string(req_w as u64).as_str());
    s.append("&HEIGHT=");
    s.append(u64_to_string(req_h as u64).as_str());
    s.append("&FORMAT=GTiff&token=");
    s.append(token);
    proof {
        assert(s@ =~= dhm_url_text(
            min_e@,
            min_n@,
            max_e@,
            max_n@,
            req_w as int,
            req_h as int,
            token@,
        ));
    }
    s
}

/// How one raster request attempt ended, judged from its HTTP status.
#[derive(Clone, Copy, PartialEq, Eq, Structural, Debug)]
pub enum AttemptOutcome {
    /// A success status: the payload may be used.
    Success,
    /// A transient failure (server error or throttling): retry.
    Transient,
    /// Any other non-success status: fail immediately, without retry.
    Fatal,
}

/// Judge an HTTP status: 2xx succeeds, 5xx and 429 are transient, anything
/// else is non-transient and fails immediately.
pub fn classify_status(status: u16) -> (r: AttemptOutcome)
    ensures
        r is Success <==> 200 <= status < 300,
        r is Transient <==> (500 <= status < 600) || status == 429,
        r is Fatal <==> !(200 <= status < 300) && !(500 <= status < 600) && status != 429,
{
    if (500 <= status && status < 600) || status == 429 {
        AttemptOutcome::Transient
    } else if 200 <= status && status < 300 {
        AttemptOutcome::Success
    } else {
        AttemptOutcome::Fatal
    }
}

/// Quick attempts per retry round.
pub const QUICK_ATTEMPTS: u8 = 3;

/// Retry rounds before giving up.
pub const MAX_ROUNDS: u8 = 5;

/// Wait between rounds, in seconds.
pub const ROUND_WAIT_SECS: u64 = 60;

/// Where the retry schedule stands: the current round and the current
/// attempt within it, both starting at 1.
#[derive(Clone, Copy, PartialEq, Eq, Structural, Debug)]
pub struct RetryState {
    pub round: u8,
    pub attempt: u8,
}

/// What to do after a transient failure.
#[derive(Clone, Copy, PartialEq, Eq, Structural, Debug)]
pub enum RetryAction {
    /// Back off for this many seconds, then retry within the round.
    Backoff(u64),
    /// Wait the fixed between-rounds pause, then start the next round.
    RoundWait,
    /// The schedule is exhausted: fail with the last observed error.
    GiveUp,
}

/// The state is within the schedule.
pub open spec fn retry_state_valid(s: RetryState) -> bool {
    1 <= s.round <= MAX_ROUNDS && 1 <= s.attempt <= QUICK_ATTEMPTS
}

/// Attempts that remain after this state's own attempt.
pub open spec fn attempts_left(s: RetryState) -> int {
    (MAX_ROUNDS - s.round) * QUICK_ATTEMPTS + (QUICK_ATTEMPTS - s.attempt)
}

/// The successor of a state whose attempt failed transiently.
pub open spec fn spec_retry_next(s: RetryState) -> (RetryState, RetryAction) {
    if s.attempt < QUICK_ATTEMPTS {
        (
            RetryState { round: s.round, attempt: (s.attempt + 1) as u8 },
            RetryAction::Backoff(if s.attempt == 1 {
                2
            } else {
                4
            }),
        )
    } else if s.round < MAX_ROUNDS {
        (RetryState { round: (s.round + 1) as u8, attempt: 1 }, RetryAction::RoundWait)
    } else {
        (s, RetryAction::GiveUp)
    }
}

/// Advance the retry schedule after a transient failure: the next quick
/// attempt within the round with exponential backoff, the next round after
/// the fixed wait, or giving up once all rounds are exhausted.
pub fn retry_next(s: RetryState) -> (r: (RetryState, RetryAction))
    requires
        retry_state_valid(s),
    ensures
        r == spec_retry_next(s),
        retry_state_valid(r.0),
{
    if s.attempt < QUICK_ATTEMPTS {
        let backoff: u64 = if s.attempt == 1 {
            2
        } else {
            4
        };
        (RetryState { round: s.round, attempt: s.attempt + 1 }, RetryAction::Backoff(backoff))
    } else if s.round < MAX_ROUNDS {
        (RetryState { round: s.round + 1, attempt: 1 }, RetryAction::RoundWait)
    } else {
        (s, RetryAction::GiveUp)
    }
}

/// The retry schedule terminates.
///
/// From any valid state, a transient failure either exhausts the schedule
/// or strictly decreases the number of attempts left, which never exceeds
/// the schedule's size: no sequence of failures drives more than
/// `MAX_ROUNDS * QUICK_ATTEMPTS` attempts in one fetch.
pub proof fn lemma_retry_terminates(s: RetryState)
    requires
        retry_state_valid(s),
    ensures
        0 <= attempts_left(s) <= MAX_ROUNDS * QUICK_ATTEMPTS - 1,
        spec_retry_next(s).1 is GiveUp <==> attempts_left(s) == 0,
        !(spec_retry_next(s).1 is GiveUp) ==> attempts_left(spec_retry_next(s).0) < attempts_left(
            s,
        ),
{
}

/// The response body opens like markup rather than binary raster data.
pub open spec fn body_looks_like_markup(body: Seq<u8>) -> bool {
    body.len() > 5 && body[0] == 60
}

/// `sub` occurs as a contiguous run within `s`.
pub open spec fn contains_bytes(s: Seq<u8>, sub: Seq<u8>) -> bool {
    exists|k: int|
        0 <= k && k + sub.len() <= s.len() && #[trigger] s.subrange(k, k + sub.len()) == sub
}

/// Do the bytes of `s` hold `sub` starting at `k`?
fn match_at(s: &[u8], k: usize, sub: &[u8]) -> (r: bool)
    requires
        k + sub@.len() <= s@.len(),
    ensures
        r == (s@.subrange(k as int, k + sub@.len()) == sub@),
{
    let n = s.len();
    let mut t: usize = 0;
    while t < sub.len()
        invariant
            t <= sub@.len(),
            k + sub@.len() <= s@.len(),
            s@.len() == n,
            forall|u: int| 0 <= u < t ==> s@[k + u] == #[trigger] sub@[u],
        decreases sub@.len() - t,
    {
        if s[k + t] != sub[t] {
            proof {
                assert(s@.subrange(k as int, k + sub@.len())[t as int] == s@[k + t]);
            }
            return false;
        }
        t = t + 1;
    }
    proof {
        assert(s@.subrange(k as int, k + sub@.len()) =~= sub@);
    }
    true
}

/// Is `sub` a contiguous run within `s`?
fn contains_sub(s: &[u8], sub: &[u8]) -> (r: bool)
    requires
        sub@.len() >= 1,
    ensures
        r == contains_bytes(s@, sub@),
{
    if sub.len() > s.len() {
        return false;
    }
    let n = s.len();
    let last = n - sub.len();
    let mut k: usize = 0;
    while k <= last
        invariant
            sub@.len() >= 1,
            s@.len() == n,
            last == s@.len() - sub@.len(),
            k <= last + 1,
            forall|m: int|
                0 <= m < k ==> #[trigger] s@.subrange(m, m + sub@.len()) != sub@,
        decreases last + 1 - k,
    {
        if match_at(s, k, sub) {
            return true;
        }
        k = k + 1;
    }
    false
}

/// A transport-level success may still be an error payload in disguise: an
/// XML body in place of the binary raster. Detect it by the content type
/// or by the body's opening byte.
pub fn is_error_payload(content_type: &str, body: &Vec<u8>) -> (r: bool)
    ensures
        r == (contains_bytes(content_type.spec_bytes(), "xml"@.map_values(|c: char| c as u8))
            || body_looks_like_markup(body@)),
{
    let ct = content_type.as_bytes();
    let pat: [u8; 3] = [120, 109, 108];
    proof {
        assert("xml"@.map_values(|c: char| c as u8) =~= pat@) by {
            reveal_strlit("xml");
        }
    }
    if contains_sub(ct, pat.as_slice()) {
        return true;
    }
    body.len() > 5 && body[0] == 60
}

/// The nodata sentinel, in centimeters: raster cells at or below it carry
/// no measurement and map to sea level.
pub const NODATA_CM: i64 = -999_900;

/// A raster sample with the nodata sentinel mapped to sea level.
pub open spec fn nodata_substituted(v: int) -> int {
    if v <= NODATA_CM {
        0
    } else {
        v
    }
}

/// The source pixel index for a target cell: proportional index scaling,
/// clamped to the valid range.
pub open spec fn source_index(g: int, gsize: int, ssize: int) -> int {
    let t = g * ssize / gsize;
    if t < ssize - 1 {
        t
    } else {
        ssize - 1
    }
}

/// The value a resampled target cell takes from the source raster.
pub open spec fn resampled_cell(
    samples: Seq<i64>,
    sw: int,
    sh: int,
    gw: int,
    gh: int,
    gx: int,
    gz: int,
) -> int {
    let tx = source_index(gx, gw, sw);
    let tz = source_index(gz, gh, sh);
    let idx = tz * sw + tx;
    if 0 <= idx < samples.len() {
        nodata_substituted(samples[idx] as int)
    } else {
        0
    }
}

/// Resample a source raster (row-major, `sw` by `sh`) to a `gw` by `gh`
/// grid by nearest source pixel, substituting sea level for nodata cells
/// and for cells outside the delivered data.
pub fn resample_grid(samples: &Vec<i64>, sw: usize, sh: usize, gw: usize, gh: usize) -> (r: Vec<
    Vec<i64>,
>)
    requires
        0 < sw <= 0x1000_0000,
        0 < sh <= 0x1000_0000,
        0 < gw <= 0x1000_0000,
        0 < gh <= 0x1000_0000,
    ensures
        r@.len() == gh,
        forall|z: int| 0 <= z < gh ==> (#[trigger] r@[z])@.len() == gw,
        forall|z: int, x: int|
            #![trigger r@[z]@[x]]
            0 <= z < gh && 0 <= x < gw ==> r@[z]@[x] == resampled_cell(
                samples@,
                sw as int,
                sh as int,
                gw as int,
                gh as int,
                x,
                z,
            ),
{
    let mut r: Vec<Vec<i64>> = Vec::new();
    let mut gz: usize = 0;
    while gz < gh
        invariant
            gz <= gh,
            0 < sw <= 0x1000_0000,
            0 < sh <= 0x1000_0000,
            0 < gw <= 0x1000_0000,
            0 < gh <= 0x1000_0000,
            r@.len() == gz,
            forall|z: int| 0 <= z < gz ==> (#[trigger] r@[z])@.len() == gw,
            forall|z: int, x: int|
                #![trigger r@[z]@[x]]
                0 <= z < gz && 0 <= x < gw ==> r@[z]@[x] == resampled_cell(
                    samples@,
                    sw as int,
                    sh as int,
                    gw as int,
                    gh as int,
                    x,
                    z,
                ),
        decreases gh - gz,
    {
        let mut row: Vec<i64> = Vec::new();
        let mut gx: usize = 0;
        proof {
            assert((gz as u64) * (sh as u64) <= 0x1000_0000 * 0x1000_0000) by (nonlinear_arith)
                requires
                    0 <= gz <= 0x1000_0000,
                    0 < (sh as u64) <= 0x1000_0000,
            ;
        }
        let tz_raw: u64 = (gz as u64) * (sh as u64) / (gh as u64);
        let tz: u64 = if tz_raw < (sh as u64) - 1 {
            tz_raw
        } else {
            (sh as u64) - 1
        };
        while gx < gw
            invariant
                gx <= gw,
                gz < gh,
                0 < sw <= 0x1000_0000,
                0 < sh <= 0x1000_0000,
                0 < gw <= 0x1000_0000,
                0 < gh <= 0x1000_0000,
                tz == source_index(gz as int, gh as int, sh as int),
                tz < sh,
                row@.len() == gx,
                forall|x: int|
                    0 <= x < gx ==> row@[x] == resampled_cell(
                        samples@,
                        sw as int,
                        sh as int,
                        gw as int,
                        gh as int,
                        x,
                        gz as int,
                    ),
            decreases gw - gx,
        {
            proof {
                assert((gx as u64) * (sw as u64) <= 0x1000_0000 * 0x1000_0000) by (nonlinear_arith)
                    requires
                        0 <= gx <= 0x1000_0000,
                        0 < (sw as u64) <= 0x1000_0000,
                ;
                assert(tz * (sw as u64) + (sw as u64) <= 0x1000_0000 * 0x1000_0000 + 0x1000_0000)
                    by (nonlinear_arith)
                    requires
                        0 <= tz < (sh as u64),
                        0 < (sw as u64) <= 0x1000_0000,
                        (sh as u64) <= 0x1000_0000,
                ;
            }
            let tx_raw: u64 = (gx as u64) * (sw as u64) / (gw as u64);
            let tx: u64 = if tx_raw < (sw as u64) - 1 {
                tx_raw
            } else {
                (sw as u64) - 1
            };
            let idx: u64 = tz * (sw as u64) + tx;
            let v: i64 = if idx < (samples.len() as u64) {
                let h = samples[idx as usize];
                if h <= NODATA_CM {
                    0
                } else {
                    h
                }
            } else {
                0
            };
            row.push(v);
            gx = gx + 1;
        }
        r.push(row);
        gz = gz + 1;
    }
    r
}

/// Resampling to the source's own dimensions is the identity mapping:
/// every cell equals its source pixel, nodata substitution aside.
pub proof fn lemma_resample_identity(samples: Seq<i64>, sw: int, sh: int, gx: int, gz: int)
    requires
        0 < sw,
        0 < sh,
        0 <= gx < sw,
        0 <= gz < sh,
        samples.len() == sw * sh,
    ensures
        resampled_cell(samples, sw, sh, sw, sh, gx, gz) == nodata_substituted(
            samples[gz * sw + gx] as int,
        ),
{
    assert(gx * sw / sw == gx) by (nonlinear_arith)
        requires
            0 < sw,
            0 <= gx,
    ;
    assert(gz * sh / sh == gz) by (nonlinear_arith)
        requires
            0 < sh,
            0 <= gz,
    ;
    assert(source_index(gx, sw, sw) == gx);
    assert(source_index(gz, sh, sh) == gz);
    assert(0 <= gz * sw + gx < sw * sh) by (nonlinear_arith)
        requires
            0 <= gx < sw,
            0 <= gz < sh,
    ;
}


/// Least value of a nonempty row.
pub open spec fn row_min(row: Seq<i64>) -> int
    decreases row.len(),
{
    if row.len() <= 1 {
        row[0] as int
    } else if (row.last() as int) < row_min(row.drop_last()) {
        row.last() as int
    } else {
        row_min(row.drop_last())
    }
}

/// Greatest value of a nonempty row.
pub open spec fn row_max(row: Seq<i64>) -> int
    decreases row.len(),
{
    if row.len() <= 1 {
        row[0] as int
    } else if (row.last() as int) > row_max(row.drop_last()) {
        row.last() as int
    } else {
        row_max(row.drop_last())
    }
}

/// The rows of a grid as sequences.
pub open spec fn grid_view(g: Seq<Vec<i64>>) -> Seq<Seq<i64>> {
    g.map_values(|r: Vec<i64>| r@)
}

/// Least value of a nonempty grid of nonempty rows.
pub open spec fn grid_min(g: Seq<Seq<i64>>) -> int
    decreases g.len(),
{
    if g.len() <= 1 {
        row_min(g[0])
    } else if row_min(g.last()) < grid_min(g.drop_last()) {
        row_min(g.last())
    } else {
        grid_min(g.drop_last())
    }
}

/// Greatest value of a nonempty grid of nonempty rows.
pub open spec fn grid_max(g: Seq<Seq<i64>>) -> int
    decreases g.len(),
{
    if g.len() <= 1 {
        row_max(g[0])
    } else if row_max(g.last()) > grid_max(g.drop_last()) {
        row_max(g.last())
    } else {
        grid_max(g.drop_last())
    }
}

/// The bounds of a nonempty row are attained and bounding.
pub proof fn lemma_row_bounds(row: Seq<i64>)
    requires
        row.len() > 0,
    ensures
        forall|x: int| 0 <= x < row.len() ==> row_min(row) <= (#[trigger] row[x]) <= row_max(row),
        exists|x: int| 0 <= x < row.len() && (#[trigger] row[x]) == row_min(row),
        exists|x: int| 0 <= x < row.len() && (#[trigger] row[x]) == row_max(row),
    decreases row.len(),
{
    let n = row.len() as int;
    if row.len() == 1 {
        assert(row[0] == row_min(row));
        assert(row[0] == row_max(row));
    }
    if row.len() > 1 {
        let pre = row.drop_last();
        lemma_row_bounds(pre);
        assert(forall|x: int| 0 <= x < n - 1 ==> row[x] == #[trigger] pre[x]);
        assert(row[n - 1] == row.last());
        assert forall|x: int| 0 <= x < n implies row_min(row) <= (#[trigger] row[x]) <= row_max(
            row,
        ) by {
            if x < n - 1 {
                assert(pre[x] == row[x]);
                assert(row_min(pre) <= pre[x] <= row_max(pre));
            }
        };
        if (row.last() as int) < row_min(pre) {
            assert(row[n - 1] == row_min(row));
        } else {
            let x = choose|x: int| 0 <= x < pre.len() && (#[trigger] pre[x]) == row_min(pre);
            assert(row[x] == row_min(row));
        }
        if (row.last() as int) > row_max(pre) {
            assert(row[n - 1] == row_max(row));
        } else {
            let x = choose|x: int| 0 <= x < pre.len() && (#[trigger] pre[x]) == row_max(pre);
            assert(row[x] == row_max(row));
        }
    }
}

/// The bounds of a nonempty grid of nonempty rows are attained and
/// bounding.
pub proof fn lemma_grid_bounds(g: Seq<Seq<i64>>)
    requires
        g.len() > 0,
        forall|z: int| 0 <= z < g.len() ==> (#[trigger] g[z]).len() > 0,
    ensures
        forall|z: int, x: int|
            #![trigger g[z][x]]
            0 <= z < g.len() && 0 <= x < g[z].len() ==> grid_min(g) <= g[z][x] <= grid_max(g),
        exists|z: int, x: int|
            #![trigger g[z][x]]
            0 <= z < g.len() && 0 <= x < g[z].len() && g[z][x] == grid_min(g),
        exists|z: int, x: int|
            #![trigger g[z][x]]
            0 <= z < g.len() && 0 <= x < g[z].len() && g[z][x] == grid_max(g),
    decreases g.len(),
{
    let n = g.len() as int;
    lemma_row_bounds(g[n - 1]);
    if g.len() == 1 {
        let x1 = choose|x: int| 0 <= x < g[0].len() && (#[trigger] g[0][x]) == row_min(g[0]);
        assert(g[0][x1] == grid_min(g));
        let x2 = choose|x: int| 0 <= x < g[0].len() && (#[trigger] g[0][x]) == row_max(g[0]);
        assert(g[0][x2] == grid_max(g));
    } else {
        let pre = g.drop_last();
        lemma_grid_bounds(pre);
        assert(forall|z: int| 0 <= z < n - 1 ==> g[z] == #[trigger] pre[z]);
        assert(g[n - 1] == g.last());
        assert forall|z: int, x: int|
            #![trigger g[z][x]]
            0 <= z < n && 0 <= x < g[z].len() implies grid_min(g) <= g[z][x] <= grid_max(g) by {
            if z < n - 1 {
                assert(pre[z] == g[z]);
                assert(grid_min(pre) <= pre[z][x] <= grid_max(pre));
            } else {
                assert(row_min(g[n - 1]) <= g[n - 1][x] <= row_max(g[n - 1]));
            }
        };
        if row_min(g.last()) < grid_min(pre) {
            let x = choose|x: int|
                0 <= x < g[n - 1].len() && (#[trigger] g[n - 1][x]) == row_min(g[n - 1]);
            assert(g[n - 1][x] == grid_min(g));
        } else {
            let (z, x) = choose|z: int, x: int|
                #![trigger pre[z][x]]
                0 <= z < pre.len() && 0 <= x < pre[z].len() && pre[z][x] == grid_min(pre);
            assert(g[z][x] == grid_min(g));
        }
        if row_max(g.last()) > grid_max(pre) {
            let x = choose|x: int|
                0 <= x < g[n - 1].len() && (#[trigger] g[n - 1][x]) == row_max(g[n - 1]);
            assert(g[n - 1][x] == grid_max(g));
        } else {
            let (z, x) = choose|z: int, x: int|
                #![trigger pre[z][x]]
                0 <= z < pre.len() && 0 <= x < pre[z].len() && pre[z][x] == grid_max(pre);
            assert(g[z][x] == grid_max(g));
        }
    }
}

/// Compute the least and greatest value of a nonempty row.
fn row_bounds(row: &Vec<i64>) -> (r: (i64, i64))
    requires
        row@.len() > 0,
    ensures
        r.0 == row_min(row@),
        r.1 == row_max(row@),
{
    let mut lo = row[0];
    let mut hi = row[0];
    let mut x: usize = 1;
    proof {
        assert(row@.take(1) =~= seq![row@[0]]);
    }
    while x < row.len()
        invariant
            1 <= x <= row@.len(),
            lo == row_min(row@.take(x as int)),
            hi == row_max(row@.take(x as int)),
        decreases row@.len() - x,
    {
        let v = row[x];
        proof {
            assert(row@.take(x + 1).drop_last() =~= row@.take(x as int));
            assert(row@.take(x + 1).last() == row@[x as int]);
        }
        if v < lo {
            lo = v;
        }
        if v > hi {
            hi = v;
        }
        x = x + 1;
    }
    proof {
        assert(row@.take(row@.len() as int) =~= row@);
    }
    (lo, hi)
}

/// Compute the least and greatest value of a nonempty grid of nonempty
/// rows.
fn grid_bounds(grid: &Vec<Vec<i64>>) -> (r: (i64, i64))
    requires
        grid@.len() > 0,
        forall|z: int| 0 <= z < grid@.len() ==> (#[trigger] grid@[z])@.len() > 0,
    ensures
        r.0 == grid_min(grid_view(grid@)),
        r.1 == grid_max(grid_view(grid@)),
{
    let p0 = row_bounds(&grid[0]);
    let mut lo = p0.0;
    let mut hi = p0.1;
    let mut z: usize = 1;
    proof {
        assert(grid_view(grid@).take(1) =~= seq![grid@[0]@]);
    }
    while z < grid.len()
        invariant
            1 <= z <= grid@.len(),
            forall|y: int| 0 <= y < grid@.len() ==> (#[trigger] grid@[y])@.len() > 0,
            lo == grid_min(grid_view(grid@).take(z as int)),
            hi == grid_max(grid_view(grid@).take(z as int)),
        decreases grid@.len() - z,
    {
        let p = row_bounds(&grid[z]);
        proof {
            assert(grid_view(grid@).take(z + 1).drop_last() =~= grid_view(grid@).take(z as int));
            assert(grid_view(grid@).take(z + 1).last() == grid@[z as int]@);
        }
        if p.0 < lo {
            lo = p.0;
        }
        if p.1 > hi {
            hi = p.1;
        }
        z = z + 1;
    }
    proof {
        assert(grid_view(grid@).take(grid@.len() as int) =~= grid_view(grid@));
    }
    (lo, hi)
}

/// Division rounded to the nearest integer, halves away from zero.
pub open spec fn spec_round_div(n: int, d: int) -> int {
    if n >= 0 {
        (n + d / 2) / d
    } else {
        -(((-n) + d / 2) / d)
    }
}

/// Divide and round to the nearest integer, halves away from zero.
fn round_div(n: i64, d: i64) -> (r: i64)
    requires
        0 < d <= 0x1_0000_0000_0000,
        -0x1000_0000_0000_0000 < n < 0x1000_0000_0000_0000,
    ensures
        r == spec_round_div(n as int, d as int),
{
    if n >= 0 {
        (n + d / 2) / d
    } else {
        -((-n + d / 2) / d)
    }
}

/// The renderer's vertical ceiling.
pub const MAX_Y: i32 = 319;

/// Safety buffer kept free below the ceiling.
pub const TERRAIN_HEIGHT_BUFFER: i32 = 15;

/// The vertical room available above the base level.
pub open spec fn vertical_budget(ground: int) -> int {
    MAX_Y - TERRAIN_HEIGHT_BUFFER - ground
}

/// The scaled range exceeds the available vertical budget, so the scale is
/// compressed to make the full range fit exactly.
pub open spec fn compressed(range: int, scale_milli: int, ground: int) -> bool {
    range * scale_milli > vertical_budget(ground) * 100_000
}

/// Clamp a vertical coordinate to the valid renderer range.
pub open spec fn clamp_y(v: int, ground: int) -> int {
    if v < ground {
        ground
    } else if v > MAX_Y - TERRAIN_HEIGHT_BUFFER {
        MAX_Y - TERRAIN_HEIGHT_BUFFER
    } else {
        v
    }
}

/// The vertical offset above the base level for an elevation `rel`
/// centimeters above the grid minimum: the requested scale where the range
/// fits, the compressed scale where it does not.
pub open spec fn spec_scaled_offset(rel: int, range: int, scale_milli: int, ground: int) -> int {
    if range <= 0 {
        0
    } else if !compressed(range, scale_milli, ground) {
        spec_round_div(rel * scale_milli, 100_000)
    } else {
        spec_round_div(rel * vertical_budget(ground), range)
    }
}

/// The vertical coordinate of a cell at elevation `h` centimeters, for a
/// grid whose elevations span from `min_h` over `range` centimeters.
pub open spec fn spec_map_cell(h: int, min_h: int, range: int, scale_milli: int, ground: int) -> int {
    clamp_y(ground + spec_scaled_offset(h - min_h, range, scale_milli, ground), ground)
}

/// The vertical coordinate of real sea level (0 m), present only where the
/// grid's elevations span below half a meter.
pub open spec fn spec_sea_level(min_h: int, range: int, scale_milli: int, ground: int) -> Option<
    int,
> {
    if range > 0 && min_h < 50 {
        Some(clamp_y(ground + spec_scaled_offset(0 - min_h, range, scale_milli, ground), ground))
    } else {
        None
    }
}


/// Map a smoothed elevation grid linearly into the renderer's vertical
/// range: the grid's span `[min, max]` maps to `[ground, ground + range']`
/// where `range'` is the scaled range, compressed to the available budget
/// where the requested scale would overflow it, and every cell is clamped
/// to the valid vertical range. The sea-level coordinate is reported only
/// where the grid spans below half a meter of real elevation.
pub fn map_to_vertical(grid: &Vec<Vec<i64>>, scale_milli: u64, ground_level: i32) -> (r:
    ElevationData)
    requires
        grid@.len() > 0,
        grid@[0]@.len() > 0,
        forall|z: int| 0 <= z < grid@.len() ==> (#[trigger] grid@[z])@.len() == grid@[0]@.len(),
        forall|z: int, x: int|
            #![trigger grid@[z]@[x]]
            0 <= z < grid@.len() && 0 <= x < grid@[z]@.len() ==> -1_000_000_000 <= grid@[z]@[x]
                <= 1_000_000_000,
        scale_milli <= 1_000_000,
        -16384 <= ground_level <= 304,
    ensures
        r.height == grid@.len(),
        r.width == grid@[0]@.len(),
        r.heights@.len() == grid@.len(),
        forall|z: int| 0 <= z < grid@.len() ==> (#[trigger] r.heights@[z])@.len() == grid@[0]@.len(),
        forall|z: int, x: int|
            #![trigger r.heights@[z]@[x]]
            0 <= z < grid@.len() && 0 <= x < grid@[0]@.len() ==> r.heights@[z]@[x] == spec_map_cell(
                grid@[z]@[x] as int,
                grid_min(grid_view(grid@)),
                grid_max(grid_view(grid@)) - grid_min(grid_view(grid@)),
                scale_milli as int,
                ground_level as int,
            ),
        ({
            let gmin = grid_min(grid_view(grid@));
            let range = grid_max(grid_view(grid@)) - gmin;
            match r.sea_level_y {
                Some(y) => spec_sea_level(gmin, range, scale_milli as int, ground_level as int)
                    == Some(y as int),
                None => spec_sea_level(gmin, range, scale_milli as int, ground_level as int)
                    is None,
            }
        }),
{
    let (min_h, max_h) = grid_bounds(grid);
    proof {
        lemma_grid_bounds(grid_view(grid@));
        assert(grid_view(grid@)[0] == grid@[0]@);
        assert(grid_view(grid@)[0][0] == grid@[0]@[0]);
        assert(-1_000_000_000 <= grid@[0]@[0] <= 1_000_000_000);
        let (z0, x0) = choose|z: int, x: int|
            #![trigger grid_view(grid@)[z][x]]
            0 <= z < grid_view(grid@).len() && 0 <= x < grid_view(grid@)[z].len()
                && grid_view(grid@)[z][x] == grid_min(grid_view(grid@));
        assert(grid_view(grid@)[z0][x0] == grid@[z0]@[x0]);
        let (z1, x1) = choose|z: int, x: int|
            #![trigger grid_view(grid@)[z][x]]
            0 <= z < grid_view(grid@).len() && 0 <= x < grid_view(grid@)[z].len()
                && grid_view(grid@)[z][x] == grid_max(grid_view(grid@));
        assert(grid_view(grid@)[z1][x1] == grid@[z1]@[x1]);
    }
    let range: i64 = max_h - min_h;
    let budget: i64 = (MAX_Y as i64) - (TERRAIN_HEIGHT_BUFFER as i64) - (ground_level as i64);
    let use_compressed: bool = range > 0 && {
        proof {
            assert(range * (scale_milli as i64) <= 2_000_000_000 * 1_000_000) by (nonlinear_arith)
                requires
                    0 <= range <= 2_000_000_000,
                    0 <= (scale_milli as i64) <= 1_000_000,
            ;
        }
        range * (scale_milli as i64) > budget * 100_000
    };
    let width = grid[0].len();
    let height = grid.len();
    let mut heights: Vec<Vec<i32>> = Vec::new();
    let mut z: usize = 0;
    while z < height
        invariant
            z <= grid@.len(),
            height == grid@.len(),
            width == grid@[0]@.len(),
            width > 0,
            forall|y: int| 0 <= y < grid@.len() ==> (#[trigger] grid@[y])@.len() == grid@[0]@.len(),
            forall|y: int, x: int|
                #![trigger grid@[y]@[x]]
                0 <= y < grid@.len() && 0 <= x < grid@[y]@.len() ==> -1_000_000_000 <= grid@[y]@[x]
                    <= 1_000_000_000,
            scale_milli <= 1_000_000,
            -16384 <= ground_level <= 304,
            min_h == grid_min(grid_view(grid@)),
            max_h == grid_max(grid_view(grid@)),
            -1_000_000_000 <= min_h <= 1_000_000_000,
            -1_000_000_000 <= max_h <= 1_000_000_000,
            range == max_h - min_h,
            budget == vertical_budget(ground_level as int),
            use_compressed == (range > 0 && compressed(
                range as int,
                scale_milli as int,
                ground_level as int,
            )),
            heights@.len() == z,
            forall|y: int| 0 <= y < z ==> (#[trigger] heights@[y])@.len() == grid@[0]@.len(),
            forall|y: int, x: int|
                #![trigger heights@[y]@[x]]
                0 <= y < z && 0 <= x < grid@[0]@.len() ==> heights@[y]@[x] == spec_map_cell(
                    grid@[y]@[x] as int,
                    min_h as int,
                    range as int,
                    scale_milli as int,
                    ground_level as int,
                ),
        decreases grid@.len() - z,
    {
        let row = &grid[z];
        let mut out_row: Vec<i32> = Vec::new();
        let mut x: usize = 0;
        while x < width
            invariant
                x <= width,
                z < grid@.len(),
                height == grid@.len(),
                width == grid@[0]@.len(),
                forall|y: int| 0 <= y < grid@.len() ==> (#[trigger] grid@[y])@.len()
                    == grid@[0]@.len(),
                row == &grid@[z as int],
                forall|y: int, w: int|
                    #![trigger grid@[y]@[w]]
                    0 <= y < grid@.len() && 0 <= w < grid@[y]@.len() ==> -1_000_000_000
                        <= grid@[y]@[w] <= 1_000_000_000,
                scale_milli <= 1_000_000,
                -16384 <= ground_level <= 304,
                min_h == grid_min(grid_view(grid@)),
                max_h == grid_max(grid_view(grid@)),
                -1_000_000_000 <= min_h <= 1_000_000_000,
                -1_000_000_000 <= max_h <= 1_000_000_000,
                range == max_h - min_h,
                budget == vertical_budget(ground_level as int),
                use_compressed == (range > 0 && compressed(
                    range as int,
                    scale_milli as int,
                    ground_level as int,
                )),
                out_row@.len() == x,
                forall|w: int|
                    0 <= w < x ==> out_row@[w] == spec_map_cell(
                        grid@[z as int]@[w] as int,
                        min_h as int,
                        range as int,
                        scale_milli as int,
                        ground_level as int,
                    ),
            decreases width - x,
        {
            let h = row[x];
            proof {
                assert(grid@[z as int]@[x as int] == h);
                lemma_grid_bounds(grid_view(grid@));
                assert(grid_view(grid@)[z as int][x as int] == grid@[z as int]@[x as int]);
                assert(min_h <= h <= max_h);
            }
            let rel: i64 = h - min_h;
            let offset: i64 = if range <= 0 {
                0
            } else if !use_compressed {
                proof {
                    assert(0 <= rel * (scale_milli as i64) <= 2_000_000_000 * 1_000_000) by (
                    nonlinear_arith)
                        requires
                            0 <= rel <= 2_000_000_000,
                            0 <= (scale_milli as i64) <= 1_000_000,
                    ;
                }
                round_div(rel * (scale_milli as i64), 100_000)
            } else {
                proof {
                    assert(0 <= rel * budget <= 2_000_000_000 * 16688) by (nonlinear_arith)
                        requires
                            0 <= rel <= 2_000_000_000,
                            0 <= budget <= 16688,
                    ;
                }
                round_div(rel * budget, range)
            };
            proof {
                assert(offset == spec_scaled_offset(
                    rel as int,
                    range as int,
                    scale_milli as int,
                    ground_level as int,
                ));
            }
            let y_raw: i64 = (ground_level as i64) + offset;
            let y: i32 = if y_raw < (ground_level as i64) {
                ground_level
            } else if y_raw > 304 {
                304
            } else {
                y_raw as i32
            };
            out_row.push(y);
            x = x + 1;
        }
        heights.push(out_row);
        z = z + 1;
    }
    let sea_level_y: Option<i32> = if range > 0 && min_h < 50 {
        let rel0: i64 = 0 - min_h;
        let offset0: i64 = if !use_compressed {
            proof {
                assert(-2_000_000_000_000_000 <= rel0 * (scale_milli as i64)
                    <= 2_000_000_000_000_000) by (nonlinear_arith)
                    requires
                        -1_000_000_000 <= rel0 <= 1_000_000_000,
                        0 <= (scale_milli as i64) <= 1_000_000,
                ;
            }
            round_div(rel0 * (scale_milli as i64), 100_000)
        } else {
            proof {
                assert(-40_000_000_000_000 <= rel0 * budget <= 40_000_000_000_000) by (
                nonlinear_arith)
                    requires
                        -1_000_000_000 <= rel0 <= 1_000_000_000,
                        0 <= budget <= 16688,
                ;
            }
            round_div(rel0 * budget, range)
        };
        let y_raw: i64 = (ground_level as i64) + offset0;
        let y: i32 = if y_raw < (ground_level as i64) {
            ground_level
        } else if y_raw > 304 {
            304
        } else {
            y_raw as i32
        };
        Some(y)
    } else {
        None
    };
    ElevationData { heights, width, height, sea_level_y }
}

/// Vertical compression makes the output span the budget exactly.
///
/// Where the grid's elevation range times the requested scale exceeds the
/// available vertical budget, the cell at the maximum elevation maps
/// exactly `vertical_budget` above the cell at the minimum elevation, and
/// every cell maps between the two: the output's maximum minus minimum
/// vertical coordinate equals the budget, not the requested scaled range.
pub proof fn lemma_vertical_compression(
    h: int,
    min_h: int,
    max_h: int,
    scale_milli: int,
    ground: int,
)
    requires
        min_h <= h <= max_h,
        min_h < max_h,
        0 <= scale_milli,
        -16384 <= ground <= 304,
        compressed(max_h - min_h, scale_milli, ground),
    ensures
        spec_map_cell(min_h, min_h, max_h - min_h, scale_milli, ground) == ground,
        spec_map_cell(max_h, min_h, max_h - min_h, scale_milli, ground) == ground
            + vertical_budget(ground),
        ground <= spec_map_cell(h, min_h, max_h - min_h, scale_milli, ground) <= ground
            + vertical_budget(ground),
{
    let range = max_h - min_h;
    let b = vertical_budget(ground);
    assert(b >= 0) by {
        if b < 0 {
            assert(range * scale_milli >= 0) by (nonlinear_arith)
                requires
                    range >= 0,
                    scale_milli >= 0,
            ;
            assert(b * 100_000 < 0);
        }
    };
    // the minimum cell maps to the base level
    assert(spec_round_div(0 * b, range) == 0) by {
        assert(0 * b == 0) by (nonlinear_arith);
        assert((0 + range / 2) / range == 0) by (nonlinear_arith)
            requires
                range > 0,
        ;
    };
    // the maximum cell maps exactly one budget above it
    assert(spec_round_div(range * b, range) == b) by {
        assert((range * b + range / 2) / range == b) by (nonlinear_arith)
            requires
                range > 0,
                b >= 0,
        ;
    };
    // intermediate cells map within the budget
    let rel = h - min_h;
    assert(0 <= spec_round_div(rel * b, range) <= b) by {
        assert(0 <= rel * b <= range * b) by (nonlinear_arith)
            requires
                0 <= rel <= range,
                b >= 0,
        ;
        assert(0 <= (rel * b + range / 2) / range) by (nonlinear_arith)
            requires
                range > 0,
                rel * b >= 0,
        ;
        assert((rel * b + range / 2) / range <= (range * b + range / 2) / range) by (
        nonlinear_arith)
            requires
                range > 0,
                rel * b <= range * b,
        ;
        assert((range * b + range / 2) / range == b) by (nonlinear_arith)
            requires
                range > 0,
                b >= 0,
        ;
    };
    assert(clamp_y(ground + 0, ground) == ground);
    assert(clamp_y(ground + b, ground) == ground + b);
}


/// Fixed-point one: the value kernel weights sum to.
pub const KERNEL_ONE: i64 = 65536;

/// An index clamped to `[0, n-1]`: convolution samples the edge value
/// beyond either edge.
pub open spec fn clamp_idx(k: int, n: int) -> int {
    if k < 0 {
        0
    } else if k > n - 1 {
        n - 1
    } else {
        k
    }
}

/// Sum of the first `t` kernel weights.
pub open spec fn ksum(kernel: Seq<i64>, t: int) -> int
    decreases t,
{
    if t <= 0 {
        0
    } else {
        ksum(kernel, t - 1) + kernel[t - 1]
    }
}

/// The kernel is fit for smoothing: odd length, each weight within
/// `[0, KERNEL_ONE]`, and the weights summing to exactly `KERNEL_ONE`.
pub open spec fn kernel_ok(kernel: Seq<i64>) -> bool {
    &&& 1 <= kernel.len() <= 100_001
    &&& kernel.len() % 2 == 1
    &&& forall|t: int| 0 <= t < kernel.len() ==> 0 <= #[trigger] kernel[t] <= KERNEL_ONE
    &&& ksum(kernel, kernel.len() as int) == KERNEL_ONE
}

/// Prefix sums of a nonnegative kernel grow monotonically.
proof fn lemma_ksum_mono(kernel: Seq<i64>, a: int, b: int)
    requires
        0 <= a <= b <= kernel.len(),
        forall|t: int| 0 <= t < kernel.len() ==> 0 <= #[trigger] kernel[t] <= KERNEL_ONE,
    ensures
        ksum(kernel, a) <= ksum(kernel, b),
    decreases b - a,
{
    if a < b {
        lemma_ksum_mono(kernel, a, b - 1);
    }
}

/// The edge-clamped weighted sum of the first `t` kernel taps around `x`.
pub open spec fn conv_partial(row: Seq<i64>, kernel: Seq<i64>, x: int, t: int) -> int
    decreases t,
{
    let radius = (kernel.len() - 1) / 2;
    if t <= 0 {
        0
    } else {
        conv_partial(row, kernel, x, t - 1) + row[clamp_idx(x + (t - 1) - radius, row.len() as int)]
            * kernel[t - 1]
    }
}

/// The edge-clamped convolution of the row with the kernel at `x`, rounded
/// back to sample units.
pub open spec fn conv_at(row: Seq<i64>, kernel: Seq<i64>, x: int) -> int {
    spec_round_div(conv_partial(row, kernel, x, kernel.len() as int), KERNEL_ONE as int)
}

/// Every sample of the row is within raster bounds.
pub open spec fn row_bounded(row: Seq<i64>) -> bool {
    forall|x: int| 0 <= x < row.len() ==> -1_000_000_000 <= #[trigger] row[x] <= 1_000_000_000
}

/// Convolve one row position with the kernel, sampling edge-clamped.
fn conv_row(row: &Vec<i64>, kernel: &Vec<i64>, x: usize) -> (v: i64)
    requires
        0 < row@.len() <= 0x1000_0000,
        x < row@.len(),
        kernel_ok(kernel@),
        row_bounded(row@),
    ensures
        v == conv_at(row@, kernel@, x as int),
        -1_000_000_000 <= v <= 1_000_000_000,
{
    let radius = (kernel.len() - 1) / 2;
    let n = row.len();
    let mut acc: i64 = 0;
    let mut t: usize = 0;
    while t < kernel.len()
        invariant
            t <= kernel@.len(),
            radius == (kernel@.len() - 1) / 2,
            n == row@.len(),
            0 < n <= 0x1000_0000,
            x < n,
            kernel_ok(kernel@),
            row_bounded(row@),
            acc == conv_partial(row@, kernel@, x as int, t as int),
            -ksum(kernel@, t as int) * 1_000_000_000 <= acc <= ksum(kernel@, t as int)
                * 1_000_000_000,
        decreases kernel@.len() - t,
    {
        let pos: i64 = (x as i64) + (t as i64) - (radius as i64);
        let sx: usize = if pos < 0 {
            0
        } else if pos > (n as i64) - 1 {
            n - 1
        } else {
            pos as usize
        };
        proof {
            assert(sx as int == clamp_idx(x + t - radius, n as int));
        }
        let v = row[sx];
        let w = kernel[t];
        proof {
            let ks = ksum(kernel@, t as int);
            lemma_ksum_mono(kernel@, 0, t as int);
            lemma_ksum_mono(kernel@, t + 1, kernel@.len() as int);
            assert(ksum(kernel@, t + 1) == ks + w);
            assert(-w * 1_000_000_000 <= v * w <= w * 1_000_000_000) by (nonlinear_arith)
                requires
                    0 <= w,
                    -1_000_000_000 <= v <= 1_000_000_000,
            ;
            assert((ks + w) * 1_000_000_000 == ks * 1_000_000_000 + w * 1_000_000_000) by (
            nonlinear_arith);
            assert(ksum(kernel@, t + 1) * 1_000_000_000 <= KERNEL_ONE * 1_000_000_000) by (
            nonlinear_arith)
                requires
                    ksum(kernel@, t + 1) <= KERNEL_ONE,
            ;
            assert(0 <= ksum(kernel@, t + 1) * 1_000_000_000) by (nonlinear_arith)
                requires
                    0 <= ksum(kernel@, t + 1),
            ;
        }
        acc = acc + v * w;
        t = t + 1;
    }
    proof {
        lemma_ksum_mono(kernel@, kernel@.len() as int, kernel@.len() as int);
        assert(-KERNEL_ONE * 1_000_000_000 <= acc <= KERNEL_ONE * 1_000_000_000);
        assert(-1_000_000_000 <= spec_round_div(acc as int, KERNEL_ONE as int)
            <= 1_000_000_000) by (nonlinear_arith)
            requires
                -KERNEL_ONE * 1_000_000_000 <= acc <= KERNEL_ONE * 1_000_000_000,
                spec_round_div(acc as int, KERNEL_ONE as int) == if acc >= 0 {
                    (acc + KERNEL_ONE / 2) / (KERNEL_ONE as int)
                } else {
                    -(((-acc) + KERNEL_ONE / 2) / (KERNEL_ONE as int))
                },
        ;
    }
    round_div(acc, KERNEL_ONE)
}

/// The column of a grid at `x`.
pub open spec fn grid_col(g: Seq<Seq<i64>>, x: int) -> Seq<i64> {
    Seq::new(g.len(), |y: int| g[y][x])
}

/// Convolve one column position with the kernel, sampling edge-clamped.
fn conv_col(grid: &Vec<Vec<i64>>, kernel: &Vec<i64>, x: usize, y: usize) -> (v: i64)
    requires
        0 < grid@.len() <= 0x1000_0000,
        y < grid@.len(),
        forall|z: int| 0 <= z < grid@.len() ==> x < (#[trigger] grid@[z])@.len(),
        kernel_ok(kernel@),
        forall|z: int| 0 <= z < grid@.len() ==> -1_000_000_000 <= (#[trigger] grid@[z])@[x as int]
            <= 1_000_000_000,
    ensures
        v == conv_at(grid_col(grid_view(grid@), x as int), kernel@, y as int),
        -1_000_000_000 <= v <= 1_000_000_000,
{
    let ghost colseq = grid_col(grid_view(grid@), x as int);
    proof {
        assert(colseq.len() == grid@.len());
        assert(forall|z: int| 0 <= z < grid@.len() ==> colseq[z] == (#[trigger] grid@[z])@[
            x as int]);
        assert(row_bounded(colseq));
    }
    let radius = (kernel.len() - 1) / 2;
    let n = grid.len();
    let mut acc: i64 = 0;
    let mut t: usize = 0;
    while t < kernel.len()
        invariant
            t <= kernel@.len(),
            radius == (kernel@.len() - 1) / 2,
            n == grid@.len(),
            0 < n <= 0x1000_0000,
            y < n,
            forall|z: int| 0 <= z < grid@.len() ==> x < (#[trigger] grid@[z])@.len(),
            kernel_ok(kernel@),
            colseq == grid_col(grid_view(grid@), x as int),
            colseq.len() == n,
            row_bounded(colseq),
            forall|z: int| 0 <= z < grid@.len() ==> colseq[z] == (#[trigger] grid@[z])@[x as int],
            acc == conv_partial(colseq, kernel@, y as int, t as int),
            -ksum(kernel@, t as int) * 1_000_000_000 <= acc <= ksum(kernel@, t as int)
                * 1_000_000_000,
        decreases kernel@.len() - t,
    {
        let pos: i64 = (y as i64) + (t as i64) - (radius as i64);
        let sy: usize = if pos < 0 {
            0
        } else if pos > (n as i64) - 1 {
            n - 1
        } else {
            pos as usize
        };
        proof {
            assert(sy as int == clamp_idx(y + t - radius, n as int));
        }
        let v = grid[sy][x];
        let w = kernel[t];
        proof {
            assert(v == colseq[sy as int]);
            let ks = ksum(kernel@, t as int);
            lemma_ksum_mono(kernel@, 0, t as int);
            lemma_ksum_mono(kernel@, t + 1, kernel@.len() as int);
            assert(ksum(kernel@, t + 1) == ks + w);
            assert(-w * 1_000_000_000 <= v * w <= w * 1_000_000_000) by (nonlinear_arith)
                requires
                    0 <= w,
                    -1_000_000_000 <= v <= 1_000_000_000,
            ;
            assert((ks + w) * 1_000_000_000 == ks * 1_000_000_000 + w * 1_000_000_000) by (
            nonlinear_arith);
            assert(ksum(kernel@, t + 1) * 1_000_000_000 <= KERNEL_ONE * 1_000_000_000) by (
            nonlinear_arith)
                requires
                    ksum(kernel@, t + 1) <= KERNEL_ONE,
            ;
            assert(0 <= ksum(kernel@, t + 1) * 1_000_000_000) by (nonlinear_arith)
                requires
                    0 <= ksum(kernel@, t + 1),
            ;
        }
        acc = acc + v * w;
        t = t + 1;
    }
    proof {
        assert(-KERNEL_ONE * 1_000_000_000 <= acc <= KERNEL_ONE * 1_000_000_000);
        assert(-1_000_000_000 <= spec_round_div(acc as int, KERNEL_ONE as int)
            <= 1_000_000_000) by (nonlinear_arith)
            requires
                -KERNEL_ONE * 1_000_000_000 <= acc <= KERNEL_ONE * 1_000_000_000,
                spec_round_div(acc as int, KERNEL_ONE as int) == if acc >= 0 {
                    (acc + KERNEL_ONE / 2) / (KERNEL_ONE as int)
                } else {
                    -(((-acc) + KERNEL_ONE / 2) / (KERNEL_ONE as int))
                },
        ;
    }
    round_div(acc, KERNEL_ONE)
}

/// The horizontal blur pass at one cell.
pub open spec fn hpass_cell(g: Seq<Seq<i64>>, kernel: Seq<i64>, y: int, x: int) -> int {
    conv_at(g[y], kernel, x)
}

/// Both blur passes at one cell: the vertical convolution of the
/// horizontally convolved grid.
pub open spec fn blur_cell(g: Seq<Seq<i64>>, kernel: Seq<i64>, y: int, x: int) -> int {
    conv_at(Seq::new(g.len(), |yy: int| hpass_cell(g, kernel, yy, x) as i64), kernel, y)
}

/// Smooth a height grid with a separable edge-clamped convolution: a
/// horizontal pass, then a vertical pass, each with the same fixed-point
/// kernel. The kernel's weights sum to one, so the result stays within the
/// samples' bounds.
pub fn dhm_gaussian_blur(grid: &Vec<Vec<i64>>, kernel: &Vec<i64>) -> (r: Vec<Vec<i64>>)
    requires
        grid@.len() <= 0x1000_0000,
        grid@[0]@.len() <= 0x1000_0000,
        forall|z: int| 0 <= z < grid@.len() ==> (#[trigger] grid@[z])@.len() == grid@[0]@.len(),
        grid@.len() > 0 ==> grid@[0]@.len() > 0,
        kernel_ok(kernel@),
        forall|z: int, x: int|
            #![trigger grid@[z]@[x]]
            0 <= z < grid@.len() && 0 <= x < grid@[z]@.len() ==> -1_000_000_000 <= grid@[z]@[x]
                <= 1_000_000_000,
    ensures
        r@.len() == grid@.len(),
        forall|z: int| 0 <= z < grid@.len() ==> (#[trigger] r@[z])@.len() == grid@[0]@.len(),
        forall|z: int, x: int|
            #![trigger r@[z]@[x]]
            0 <= z < grid@.len() && 0 <= x < grid@[0]@.len() ==> r@[z]@[x] == blur_cell(
                grid_view(grid@),
                kernel@,
                z,
                x,
            ),
        forall|z: int, x: int|
            #![trigger r@[z]@[x]]
            0 <= z < grid@.len() && 0 <= x < grid@[0]@.len() ==> -1_000_000_000 <= r@[z]@[x]
                <= 1_000_000_000,
{
    let h = grid.len();
    if h == 0 {
        let r: Vec<Vec<i64>> = Vec::new();
        return r;
    }
    let w = grid[0].len();
    let mut temp: Vec<Vec<i64>> = Vec::new();
    let mut y: usize = 0;
    while y < h
        invariant
            y <= h,
            h == grid@.len(),
            w == grid@[0]@.len(),
            0 < w <= 0x1000_0000,
            h <= 0x1000_0000,
            forall|z: int| 0 <= z < grid@.len() ==> (#[trigger] grid@[z])@.len() == grid@[0]@.len(),
            kernel_ok(kernel@),
            forall|z: int, x: int|
                #![trigger grid@[z]@[x]]
                0 <= z < grid@.len() && 0 <= x < grid@[z]@.len() ==> -1_000_000_000 <= grid@[z]@[x]
                    <= 1_000_000_000,
            temp@.len() == y,
            forall|z: int| 0 <= z < y ==> (#[trigger] temp@[z])@.len() == w,
            forall|z: int, x: int|
                #![trigger temp@[z]@[x]]
                0 <= z < y && 0 <= x < w ==> temp@[z]@[x] == hpass_cell(
                    grid_view(grid@),
                    kernel@,
                    z,
                    x,
                ),
            forall|z: int, x: int|
                #![trigger temp@[z]@[x]]
                0 <= z < y && 0 <= x < w ==> -1_000_000_000 <= temp@[z]@[x] <= 1_000_000_000,
        decreases h - y,
    {
        let row = &grid[y];
        let mut out_row: Vec<i64> = Vec::new();
        let mut x: usize = 0;
        while x < w
            invariant
                x <= w,
                y < h,
                h == grid@.len(),
                w == grid@[0]@.len(),
                row == &grid@[y as int],
                row@.len() == w,
                0 < w <= 0x1000_0000,
                kernel_ok(kernel@),
                row_bounded(row@),
                out_row@.len() == x,
                forall|u: int|
                    0 <= u < x ==> out_row@[u] == conv_at(grid@[y as int]@, kernel@, u),
                forall|u: int|
                    0 <= u < x ==> -1_000_000_000 <= #[trigger] out_row@[u] <= 1_000_000_000,
            decreases w - x,
        {
            let v = conv_row(row, kernel, x);
            out_row.push(v);
            x = x + 1;
        }
        temp.push(out_row);
        proof {
            assert(grid_view(grid@)[y as int] == grid@[y as int]@);
        }
        y = y + 1;
    }
    let mut result: Vec<Vec<i64>> = Vec::new();
    let mut y2: usize = 0;
    while y2 < h
        invariant
            y2 <= h,
            h == grid@.len(),
            w == grid@[0]@.len(),
            0 < w <= 0x1000_0000,
            0 < h <= 0x1000_0000,
            temp@.len() == h,
            kernel_ok(kernel@),
            forall|z: int| 0 <= z < h ==> (#[trigger] temp@[z])@.len() == w,
            forall|z: int, x: int|
                #![trigger temp@[z]@[x]]
                0 <= z < h && 0 <= x < w ==> temp@[z]@[x] == hpass_cell(
                    grid_view(grid@),
                    kernel@,
                    z,
                    x,
                ),
            forall|z: int, x: int|
                #![trigger temp@[z]@[x]]
                0 <= z < h && 0 <= x < w ==> -1_000_000_000 <= temp@[z]@[x] <= 1_000_000_000,
            result@.len() == y2,
            forall|z: int| 0 <= z < y2 ==> (#[trigger] result@[z])@.len() == w,
            forall|z: int, x: int|
                #![trigger result@[z]@[x]]
                0 <= z < y2 && 0 <= x < w ==> result@[z]@[x] == blur_cell(
                    grid_view(grid@),
                    kernel@,
                    z,
                    x,
                ),
            forall|z: int, x: int|
                #![trigger result@[z]@[x]]
                0 <= z < y2 && 0 <= x < w ==> -1_000_000_000 <= result@[z]@[x] <= 1_000_000_000,
        decreases h - y2,
    {
        let mut out_row: Vec<i64> = Vec::new();
        let mut x: usize = 0;
        while x < w
            invariant
                x <= w,
                y2 < h,
                h == grid@.len(),
                w == grid@[0]@.len(),
                0 < w <= 0x1000_0000,
                0 < h <= 0x1000_0000,
                temp@.len() == h,
                kernel_ok(kernel@),
                forall|z: int| 0 <= z < h ==> (#[trigger] temp@[z])@.len() == w,
                forall|z: int, xx: int|
                    #![trigger temp@[z]@[xx]]
                    0 <= z < h && 0 <= xx < w ==> temp@[z]@[xx] == hpass_cell(
                        grid_view(grid@),
                        kernel@,
                        z,
                        xx,
                    ),
                forall|z: int, xx: int|
                    #![trigger temp@[z]@[xx]]
                    0 <= z < h && 0 <= xx < w ==> -1_000_000_000 <= temp@[z]@[xx] <= 1_000_000_000,
                out_row@.len() == x,
                forall|u: int|
                    0 <= u < x ==> out_row@[u] == blur_cell(grid_view(grid@), kernel@, y2 as int, u),
                forall|u: int|
                    0 <= u < x ==> -1_000_000_000 <= #[trigger] out_row@[u] <= 1_000_000_000,
            decreases w - x,
        {
            let v = conv_col(&temp, kernel, x, y2);
            proof {
                assert(grid_col(grid_view(temp@), x as int) =~= Seq::new(
                    grid_view(grid@).len(),
                    |yy: int| hpass_cell(grid_view(grid@), kernel@, yy, x as int) as i64,
                ));
            }
            out_row.push(v);
            x = x + 1;
        }
        result.push(out_row);
        y2 = y2 + 1;
    }
    result
}


/// Vertical compression at grid level.
///
/// For a grid whose elevation range times the requested scale exceeds the
/// available vertical budget, some cell maps to the base level, some cell
/// maps exactly one budget above it, and every cell maps between the two:
/// the mapped grid's maximum minus minimum vertical coordinate equals the
/// budget exactly.
pub proof fn lemma_vertical_compression_grid(g: Seq<Seq<i64>>, scale_milli: int, ground: int)
    requires
        g.len() > 0,
        forall|z: int| 0 <= z < g.len() ==> (#[trigger] g[z]).len() > 0,
        0 <= scale_milli,
        -16384 <= ground <= 304,
        grid_min(g) < grid_max(g),
        compressed(grid_max(g) - grid_min(g), scale_milli, ground),
    ensures
        exists|z: int, x: int|
            #![trigger g[z][x]]
            0 <= z < g.len() && 0 <= x < g[z].len() && spec_map_cell(
                g[z][x] as int,
                grid_min(g),
                grid_max(g) - grid_min(g),
                scale_milli,
                ground,
            ) == ground,
        exists|z: int, x: int|
            #![trigger g[z][x]]
            0 <= z < g.len() && 0 <= x < g[z].len() && spec_map_cell(
                g[z][x] as int,
                grid_min(g),
                grid_max(g) - grid_min(g),
                scale_milli,
                ground,
            ) == ground + vertical_budget(ground),
        forall|z: int, x: int|
            #![trigger g[z][x]]
            0 <= z < g.len() && 0 <= x < g[z].len() ==> ground <= spec_map_cell(
                g[z][x] as int,
                grid_min(g),
                grid_max(g) - grid_min(g),
                scale_milli,
                ground,
            ) <= ground + vertical_budget(ground),
{
    let lo = grid_min(g);
    let hi = grid_max(g);
    lemma_grid_bounds(g);
    let (zl, xl) = choose|z: int, x: int|
        #![trigger g[z][x]]
        0 <= z < g.len() && 0 <= x < g[z].len() && g[z][x] == lo;
    lemma_vertical_compression(g[zl][xl] as int, lo, hi, scale_milli, ground);
    let (zh, xh) = choose|z: int, x: int|
        #![trigger g[z][x]]
        0 <= z < g.len() && 0 <= x < g[z].len() && g[z][x] == hi;
    lemma_vertical_compression(g[zh][xh] as int, lo, hi, scale_milli, ground);
    assert forall|z: int, x: int|
        #![trigger g[z][x]]
        0 <= z < g.len() && 0 <= x < g[z].len() implies ground <= spec_map_cell(
        g[z][x] as int,
        lo,
        hi - lo,
        scale_milli,
        ground,
    ) <= ground + vertical_budget(ground) by {
        lemma_vertical_compression(g[z][x] as int, lo, hi, scale_milli, ground);
    };
}

} // verus!
