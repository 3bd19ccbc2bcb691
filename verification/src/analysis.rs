//! Performance analysis: where consecutive frames differ and which stretches
//! of the recording change unusually much.
//!
//! The ratios, averages and thresholds of the performance report are
//! floating-point values computed by the application; what is decided here
//! is integral: which pixels changed between two frames and the box around
//! them, the box around several boxes, the stretches of consecutive elevated
//! frame pairs, and the assessment chosen for a stretch.

use vstd::prelude::*;
use vstd::string::*;
use vstd::arithmetic::div_mod::lemma_fundamental_div_mod_converse;

verus! {

/// Analysis flavour.
#[derive(Debug, Clone, Copy, PartialEq, Eq, Structural)]
pub enum AnalysisMode {
    /// Frame extraction only.
    Overview,
    /// Frame extraction plus jank-oriented insights.
    Performance,
}

impl Default for AnalysisMode {
    /// Overview, the mode used unless performance insights are asked for.
    fn default() -> (r: AnalysisMode)
        ensures
            r == AnalysisMode::Overview,
    {
        AnalysisMode::Overview
    }
}

/// A rectangle of pixels.
#[derive(Debug, Clone, Copy, PartialEq, Eq, Structural)]
pub struct Region {
    pub x: u32,
    pub y: u32,
    pub width: u32,
    pub height: u32,
}

/// The least difference in luma for a pixel to count as changed.
pub const PIXEL_DIFF_THRESHOLD: u8 = 18;

/// Whether pixel `i` differs between the two frames by at least the
/// threshold.
pub open spec fn pixel_changed(prev: Seq<u8>, cur: Seq<u8>, i: int) -> bool {
    (if prev[i] >= cur[i] {
        prev[i] - cur[i]
    } else {
        cur[i] - prev[i]
    }) >= PIXEL_DIFF_THRESHOLD
}

/// The number of changed pixels among the first `n`.
pub open spec fn changed_pixel_count(prev: Seq<u8>, cur: Seq<u8>, n: int) -> nat
    decreases n,
{
    if n <= 0 {
        0
    } else {
        changed_pixel_count(prev, cur, n - 1) + if pixel_changed(prev, cur, n - 1) {
            1nat
        } else {
            0nat
        }
    }
}

/// The positions among the first `n` whose pixel changed.
pub open spec fn changed_positions(prev: Seq<u8>, cur: Seq<u8>, n: int) -> Set<int> {
    Set::new(|i: int| 0 <= i < n && pixel_changed(prev, cur, i))
}

/// A pixel changed when its luma went up or down by at least 18, and the
/// count of changed pixels is the number of positions whose pixel changed,
/// each counted once.
pub proof fn lemma_changed_pixel_count(prev: Seq<u8>, cur: Seq<u8>, n: int)
    requires
        0 <= n,
    ensures
        forall|i: int|
            #[trigger] pixel_changed(prev, cur, i) <==> (prev[i] as int - cur[i] as int >= 18 || cur[i]
                as int - prev[i] as int >= 18),
        changed_positions(prev, cur, n).finite(),
        changed_pixel_count(prev, cur, n) == changed_positions(prev, cur, n).len(),
    decreases n,
{
    if n == 0 {
        assert(changed_positions(prev, cur, 0) =~= Set::<int>::empty());
    } else {
        lemma_changed_pixel_count(prev, cur, n - 1);
        let before = changed_positions(prev, cur, n - 1);
        if pixel_changed(prev, cur, n - 1) {
            assert(changed_positions(prev, cur, n) =~= before.insert(n - 1));
        } else {
            assert(changed_positions(prev, cur, n) =~= before);
        }
    }
}

/// Whether `r` is the smallest box, in pixel coordinates of a frame `width`
/// pixels wide stored row by row, that holds every changed pixel; its edges
/// each touch a changed pixel.
pub open spec fn is_change_box(prev: Seq<u8>, cur: Seq<u8>, width: int, r: Region) -> bool {
    let n = prev.len() as int;
    &&& r.width >= 1 && r.height >= 1
    &&& forall|i: int|
        0 <= i < n && #[trigger] pixel_changed(prev, cur, i) ==> r.x <= i % width < r.x + r.width
            && r.y <= i / width < r.y + r.height
    &&& exists|i: int| 0 <= i < n && #[trigger] pixel_changed(prev, cur, i) && i % width == r.x
    &&& exists|i: int|
        0 <= i < n && #[trigger] pixel_changed(prev, cur, i) && i % width == r.x + r.width - 1
    &&& exists|i: int| 0 <= i < n && #[trigger] pixel_changed(prev, cur, i) && i / width == r.y
    &&& exists|i: int|
        0 <= i < n && #[trigger] pixel_changed(prev, cur, i) && i / width == r.y + r.height - 1
}

/// The pixels that changed between two frames.
pub struct PixelDiff {
    /// How many pixels changed.
    pub changed_pixels: u64,
    /// The box around the changed pixels, when some pixel changed.
    pub hotspot: Option<Region>,
}

/// Compares two luma frames of `width` x `height` pixels, stored row by row:
/// counts the pixels whose luma differs by at least the threshold and finds
/// the box around them.
pub fn measure_visual_diff(previous: &[u8], current: &[u8], width: u32, height: u32) -> (r:
    PixelDiff)
    requires
        previous@.len() == current@.len(),
        previous@.len() == width * height,
    ensures
        r.changed_pixels == changed_pixel_count(previous@, current@, previous@.len() as int),
        r.changed_pixels == changed_positions(previous@, current@, previous@.len() as int).len(),
        r.hotspot is None <==> forall|i: int|
            0 <= i < previous@.len() ==> !#[trigger] pixel_changed(previous@, current@, i),
        r.hotspot matches Some(b) ==> is_change_box(previous@, current@, width as int, b),
{
    let n = previous.len();
    let ghost p = previous@;
    let ghost c = current@;
    let ghost w = width as int;
    let mut changed: u64 = 0;
    let mut min_x: u32 = u32::MAX;
    let mut min_y: u32 = u32::MAX;
    let mut max_x: u32 = 0;
    let mut max_y: u32 = 0;
    let mut found = false;
    let ghost mut wit: (int, int, int, int) = (0, 0, 0, 0);
    let mut idx: usize = 0;
    let mut x: u32 = 0;
    let mut y: u32 = 0;
    while idx < n
        invariant
            n == previous@.len() == current@.len() == width * height,
            p == previous@,
            c == current@,
            w == width,
            idx <= n,
            idx < n ==> x < width,
            idx == y * width + x,
            changed <= idx,
            changed == changed_pixel_count(p, c, idx as int),
            found <==> exists|i: int| 0 <= i < idx && #[trigger] pixel_changed(p, c, i),
            found ==> {
                &&& min_x <= max_x && min_y <= max_y
                &&& forall|i: int|
                    0 <= i < idx && #[trigger] pixel_changed(p, c, i) ==> min_x <= i % w <= max_x
                        && min_y <= i / w <= max_y
                &&& 0 <= wit.0 < idx && pixel_changed(p, c, wit.0) && wit.0 % w == min_x
                &&& 0 <= wit.1 < idx && pixel_changed(p, c, wit.1) && wit.1 % w == max_x
                &&& 0 <= wit.2 < idx && pixel_changed(p, c, wit.2) && wit.2 / w == min_y
                &&& 0 <= wit.3 < idx && pixel_changed(p, c, wit.3) && wit.3 / w == max_y
            },
        decreases n - idx,
    {
        assert(width > 0) by {
            if width == 0 {
                assert(width * height == 0) by (nonlinear_arith)
                    requires
                        width == 0,
                ;
            }
        }
        proof {
            lemma_fundamental_div_mod_converse(idx as int, w, y as int, x as int);
        }
        assert(y < height) by {
            if y >= height {
                assert(y * width + x >= height * width) by (nonlinear_arith)
                    requires
                        y >= height,
                        x >= 0,
                ;
            }
        }
        let a = previous[idx];
        let b = current[idx];
        let diff = if a >= b {
            a - b
        } else {
            b - a
        };
        if diff >= PIXEL_DIFF_THRESHOLD {
            assert(pixel_changed(p, c, idx as int));
            changed = changed + 1;
            if !found || x < min_x {
                min_x = x;
                proof {
                    wit.0 = idx as int;
                }
            }
            if !found || y < min_y {
                min_y = y;
                proof {
                    wit.2 = idx as int;
                }
            }
            if !found || x > max_x {
                max_x = x;
                proof {
                    wit.1 = idx as int;
                }
            }
            if !found || y > max_y {
                max_y = y;
                proof {
                    wit.3 = idx as int;
                }
            }
            found = true;
        }
        let ghost old_idx = idx as int;
        idx = idx + 1;
        if x + 1 == width {
            assert(idx == (y + 1) * width) by (nonlinear_arith)
                requires
                    idx == y * width + x + 1,
                    x + 1 == width,
            ;
            x = 0;
            if idx < n {
                y = y + 1;
            } else {
                assert(idx == y * width + x + width);
                assert(y * width + width == (y + 1) * width) by (nonlinear_arith);
                y = y + 1;
            }
        } else {
            x = x + 1;
        }
        assert forall|i: int| 0 <= i < idx && #[trigger] pixel_changed(p, c, i) implies (found
            && min_x <= i % w <= max_x && min_y <= i / w <= max_y) by {
            if i == old_idx {
            }
        }
    }
    if found {
        assert(w > 0) by {
            if w == 0 {
                assert(width * height == 0) by (nonlinear_arith)
                    requires
                        width == 0,
                ;
            }
        }
        assert(max_x < width);
        assert(max_y < height) by {
            assert(wit.3 < width * height);
            assert(wit.3 / w < height) by (nonlinear_arith)
                requires
                    0 <= wit.3 < width * height,
                    w == width,
                    w > 0,
            ;
        }
        let ghost r = Region {
            x: min_x,
            y: min_y,
            width: (max_x - min_x + 1) as u32,
            height: (max_y - min_y + 1) as u32,
        };
        assert(pixel_changed(p, c, wit.0));
        assert(pixel_changed(p, c, wit.1));
        assert(pixel_changed(p, c, wit.2));
        assert(pixel_changed(p, c, wit.3));
        assert(is_change_box(p, c, w, r));
    }
    let hotspot = if found {
        Some(
            Region {
                x: min_x,
                y: min_y,
                width: max_x.saturating_sub(min_x).saturating_add(1),
                height: max_y.saturating_sub(min_y).saturating_add(1),
            },
        )
    } else {
        None
    };
    proof {
        lemma_changed_pixel_count(p, c, n as int);
    }
    PixelDiff { changed_pixels: changed, hotspot }
}

/// Whether `r` is the smallest box holding every box of `spots`: each edge
/// of `r` is the edge of some box.
pub open spec fn is_union_box(spots: Seq<Option<Region>>, r: Region) -> bool {
    &&& forall|i: int|
        0 <= i < spots.len() && (#[trigger] spots[i]) is Some ==> {
            let s = spots[i]->0;
            r.x <= s.x && r.y <= s.y && s.x + s.width <= r.x + r.width && s.y + s.height <= r.y
                + r.height
        }
    &&& exists|i: int| 0 <= i < spots.len() && (#[trigger] spots[i]) is Some && spots[i]->0.x == r.x
    &&& exists|i: int| 0 <= i < spots.len() && (#[trigger] spots[i]) is Some && spots[i]->0.y == r.y
    &&& exists|i: int|
        0 <= i < spots.len() && (#[trigger] spots[i]) is Some && spots[i]->0.x + spots[i]->0.width == r.x
            + r.width
    &&& exists|i: int|
        0 <= i < spots.len() && (#[trigger] spots[i]) is Some && spots[i]->0.y + spots[i]->0.height == r.y
            + r.height
}

/// The box around the hotspots of several frame pairs, when any of them has
/// one.
pub fn union_hotspots(spots: &[Option<Region>]) -> (r: Option<Region>)
    requires
        forall|i: int|
            0 <= i < spots@.len() ==> (#[trigger] spots@[i] matches Some(s) ==> s.x + s.width
                <= u32::MAX && s.y + s.height <= u32::MAX),
    ensures
        r is None <==> forall|i: int| 0 <= i < spots@.len() ==> (#[trigger] spots@[i]) is None,
        r matches Some(b) ==> is_union_box(spots@, b),
{
    let ghost sp = spots@;
    let mut min_x: u32 = u32::MAX;
    let mut min_y: u32 = u32::MAX;
    let mut max_x: u32 = 0;
    let mut max_y: u32 = 0;
    let mut found = false;
    let ghost mut wit: (int, int, int, int) = (0, 0, 0, 0);
    let mut k: usize = 0;
    while k < spots.len()
        invariant
            sp == spots@,
            k <= spots.len(),
            forall|i: int|
                0 <= i < sp.len() ==> (#[trigger] sp[i] matches Some(s) ==> s.x + s.width
                    <= u32::MAX && s.y + s.height <= u32::MAX),
            found <==> exists|i: int| 0 <= i < k && (#[trigger] sp[i]) is Some,
            found ==> {
                &&& forall|i: int|
                    0 <= i < k && (#[trigger] sp[i]) is Some ==> {
                        let s = sp[i]->0;
                        min_x <= s.x && min_y <= s.y && s.x + s.width <= max_x && s.y + s.height
                            <= max_y
                    }
                &&& 0 <= wit.0 < k && sp[wit.0] is Some && sp[wit.0]->0.x == min_x
                &&& 0 <= wit.1 < k && sp[wit.1] is Some && sp[wit.1]->0.y == min_y
                &&& 0 <= wit.2 < k && sp[wit.2] is Some && sp[wit.2]->0.x + sp[wit.2]->0.width == max_x
                &&& 0 <= wit.3 < k && sp[wit.3] is Some && sp[wit.3]->0.y + sp[wit.3]->0.height == max_y
            },
        decreases spots.len() - k,
    {
        if let Some(s) = spots[k] {
            assert(sp[k as int] matches Some(t) && t == s);
            if !found || s.x < min_x {
                min_x = s.x;
                proof {
                    wit.0 = k as int;
                }
            }
            if !found || s.y < min_y {
                min_y = s.y;
                proof {
                    wit.1 = k as int;
                }
            }
            if !found || s.x + s.width > max_x {
                max_x = s.x + s.width;
                proof {
                    wit.2 = k as int;
                }
            }
            if !found || s.y + s.height > max_y {
                max_y = s.y + s.height;
                proof {
                    wit.3 = k as int;
                }
            }
            found = true;
        }
        k = k + 1;
    }
    if !found {
        return None;
    }
    let width = max_x.saturating_sub(min_x);
    let height = max_y.saturating_sub(min_y);
    assert(sp[wit.0] is Some);
    assert(max_x >= min_x);
    assert(max_y >= min_y);
    let r = Region { x: min_x, y: min_y, width, height };
    assert(sp[wit.0] is Some && sp[wit.1] is Some && sp[wit.2] is Some && sp[wit.3] is Some);
    assert(is_union_box(sp, r));
    Some(r)
}

/// Whether `[r.0, r.1)` is a maximal stretch of elevated frame pairs.
pub open spec fn is_elevated_run(flags: Seq<bool>, r: (usize, usize)) -> bool {
    &&& r.0 < r.1 <= flags.len()
    &&& forall|i: int| r.0 <= i < r.1 ==> #[trigger] flags[i]
    &&& r.0 == 0 || !flags[r.0 - 1]
    &&& r.1 == flags.len() || !flags[r.1 as int]
}

/// Groups consecutive elevated frame pairs into windows: the result lists
/// every maximal stretch of `true` flags, as half-open ranges, in order.
pub fn elevated_runs(flags: &[bool]) -> (runs: Vec<(usize, usize)>)
    ensures
        forall|k: int| 0 <= k < runs.len() ==> is_elevated_run(flags@, #[trigger] runs@[k]),
        forall|k: int| 0 <= k < runs.len() - 1 ==> (#[trigger] runs@[k]).1 < runs@[k + 1].0,
        forall|i: int|
            0 <= i < flags.len() && #[trigger] flags@[i] ==> exists|k: int|
                0 <= k < runs.len() && (#[trigger] runs@[k]).0 <= i < runs@[k].1,
{
    let ghost f = flags@;
    let n = flags.len();
    let mut runs: Vec<(usize, usize)> = Vec::new();
    let mut start: Option<usize> = None;
    let mut i: usize = 0;
    while i < n
        invariant
            f == flags@,
            n == flags.len(),
            i <= n,
            forall|k: int| 0 <= k < runs.len() ==> is_elevated_run(f, #[trigger] runs@[k]),
            forall|k: int| 0 <= k < runs.len() ==> (#[trigger] runs@[k]).1 < i,
            forall|k: int| 0 <= k < runs.len() - 1 ==> (#[trigger] runs@[k]).1 < runs@[k + 1].0,
            start matches Some(s) ==> {
                &&& s < i
                &&& forall|j: int| s <= j < i ==> #[trigger] f[j]
                &&& s == 0 || !f[s - 1]
                &&& runs.len() > 0 ==> runs@[runs.len() - 1].1 < s
            },
            start is None ==> i == 0 || !f[i - 1],
            forall|j: int|
                0 <= j < i && #[trigger] f[j] ==> (exists|k: int|
                    0 <= k < runs.len() && (#[trigger] runs@[k]).0 <= j < runs@[k].1) || (start matches Some(
                    s) && s <= j),
        decreases n - i,
    {
        let elevated = flags[i];
        match start {
            None => {
                if elevated {
                    start = Some(i);
                }
            },
            Some(s) => {
                if !elevated {
                    let ghost before = runs@;
                    runs.push((s, i));
                    start = None;
                    assert(is_elevated_run(f, (s, i)));
                    assert forall|j: int|
                        0 <= j < i + 1 && #[trigger] f[j] implies exists|k: int|
                        0 <= k < runs.len() && (#[trigger] runs@[k]).0 <= j < runs@[k].1 by {
                        if s <= j {
                            assert(runs@[runs.len() - 1] == (s, i));
                        } else {
                            let k = choose|k: int|
                                0 <= k < runs.len() - 1 && (#[trigger] before[k]).0 <= j < before[k].1;
                            assert(runs@[k] == before[k]);
                        }
                    }
                }
            },
        }
        i = i + 1;
    }
    let ghost before = runs@;
    if let Some(s) = start {
        runs.push((s, n));
        assert(is_elevated_run(f, (s, n)));
    }
    assert forall|j: int| 0 <= j < flags.len() && #[trigger] flags@[j] implies exists|k: int|
        0 <= k < runs.len() && (#[trigger] runs@[k]).0 <= j < runs@[k].1 by {
        assert(f[j]);
        if exists|k: int| 0 <= k < before.len() && (#[trigger] before[k]).0 <= j < before[k].1 {
            let k = choose|k: int| 0 <= k < before.len() && (#[trigger] before[k]).0 <= j < before[k].1;
            assert(runs@[k] == before[k]);
        } else {
            assert(runs@[runs.len() - 1].0 <= j);
        }
    }
    runs
}

/// How much of the frame a hotspot covers, as classified by the application
/// from the coverage ratio: at most a quarter, at most 60%, or more.
#[derive(Debug, Clone, Copy, PartialEq, Eq, Structural)]
pub enum Coverage {
    Localized,
    Sectional,
    Broad,
}

/// The assessment of a suspicious window.
pub open spec fn assessment_text(sample_count: nat, hotspot: Option<Coverage>, mostly_changed: bool) -> Seq<char> {
    match hotspot {
        None => "Elevated change without a stable hotspot; this looks like a broad transition or a sampling artifact."@,
        Some(Coverage::Localized) => if sample_count >= 3 {
            "Sustained localized churn. If the UI felt sticky here, inspect rerenders or layout work in this region."@
        } else {
            "A short localized jump between samples. Check the interacted control or layout in this region."@
        },
        Some(Coverage::Sectional) => "Repeated updates inside a section of the screen. This points to section-level work more than a full-page redraw."@,
        Some(Coverage::Broad) => if mostly_changed {
            "Most of the frame changed together, which looks more like navigation or a large layout shift."@
        } else {
            "Large regions changed together; this is broader than a single control repaint."@
        },
    }
}

/// A localized window of three or more samples is sustained churn and a
/// shorter one a short jump; a sectional window is assessed the same
/// whatever its length; a broad one by whether most of the frame changed;
/// a window without a hotspot always the same way.
pub proof fn lemma_assessment_thresholds(sample_count: nat, mostly_changed: bool)
    ensures
        sample_count >= 3 ==> assessment_text(sample_count, Some(Coverage::Localized), mostly_changed)
            == "Sustained localized churn. If the UI felt sticky here, inspect rerenders or layout work in this region."@,
        sample_count < 3 ==> assessment_text(sample_count, Some(Coverage::Localized), mostly_changed)
            == "A short localized jump between samples. Check the interacted control or layout in this region."@,
        assessment_text(sample_count, Some(Coverage::Sectional), mostly_changed)
            == "Repeated updates inside a section of the screen. This points to section-level work more than a full-page redraw."@,
        mostly_changed ==> assessment_text(sample_count, Some(Coverage::Broad), mostly_changed)
            == "Most of the frame changed together, which looks more like navigation or a large layout shift."@,
        !mostly_changed ==> assessment_text(sample_count, Some(Coverage::Broad), mostly_changed)
            == "Large regions changed together; this is broader than a single control repaint."@,
        assessment_text(sample_count, None, mostly_changed)
            == "Elevated change without a stable hotspot; this looks like a broad transition or a sampling artifact."@,
{
}

/// A window that is sustained churn stays so when it has more samples.
pub proof fn lemma_sustained_is_monotone(shorter: nat, longer: nat, mostly_changed: bool)
    requires
        shorter <= longer,
        assessment_text(shorter, Some(Coverage::Localized), mostly_changed)
            == "Sustained localized churn. If the UI felt sticky here, inspect rerenders or layout work in this region."@,
    ensures
        assessment_text(longer, Some(Coverage::Localized), mostly_changed)
            == "Sustained localized churn. If the UI felt sticky here, inspect rerenders or layout work in this region."@,
{
    lemma_assessment_thresholds(shorter, mostly_changed);
    lemma_assessment_thresholds(longer, mostly_changed);
    if shorter < 3 {
        reveal_strlit("Sustained localized churn. If the UI felt sticky here, inspect rerenders or layout work in this region.");
        reveal_strlit("A short localized jump between samples. Check the interacted control or layout in this region.");
        assert("Sustained localized churn. If the UI felt sticky here, inspect rerenders or layout work in this region."@[0]
            != "A short localized jump between samples. Check the interacted control or layout in this region."@[0]);
    }
}

/// Assesses a suspicious window from its number of samples, the coverage
/// class of its hotspot, and whether on average most of the frame changed.
pub fn classify_window(sample_count: usize, hotspot: Option<Coverage>, mostly_changed: bool) -> (r:
    &'static str)
    ensures
        r@ == assessment_text(sample_count as nat, hotspot, mostly_changed),
{
    match hotspot {
        None => "Elevated change without a stable hotspot; this looks like a broad transition or a sampling artifact.",
        Some(Coverage::Localized) => if sample_count >= 3 {
            "Sustained localized churn. If the UI felt sticky here, inspect rerenders or layout work in this region."
        } else {
            "A short localized jump between samples. Check the interacted control or layout in this region."
        },
        Some(Coverage::Sectional) => "Repeated updates inside a section of the screen. This points to section-level work more than a full-page redraw.",
        Some(Coverage::Broad) => if mostly_changed {
            "Most of the frame changed together, which looks more like navigation or a large layout shift."
        } else {
            "Large regions changed together; this is broader than a single control repaint."
        },
    }
}

/// The kind of summary of a performance report.
#[derive(Debug, Clone, Copy, PartialEq, Eq, Structural)]
pub enum SummaryKind {
    /// No window and hardly any change.
    Quiet,
    /// Change that did not cluster into a window.
    Diffuse,
    /// A single localized jump.
    SharpLocalized,
    /// Repeated localized churn.
    SustainedLocalized,
    /// Updates of a mid-sized region.
    Sectional,
    /// Changes across most of the frame.
    Broad,
}

/// Chooses the summary of a performance report from its strongest window
/// (its number of samples and the coverage class of its hotspot), or from
/// whether the peak change stayed below the floor when there is no window.
pub fn summary_kind(strongest: Option<(usize, Option<Coverage>)>, peak_below_floor: bool) -> (k:
    SummaryKind)
    ensures
        strongest is None ==> k == if peak_below_floor {
            SummaryKind::Quiet
        } else {
            SummaryKind::Diffuse
        },
        strongest matches Some((n, c)) ==> k == match c {
            Some(Coverage::Localized) => if n == 1 {
                SummaryKind::SharpLocalized
            } else {
                SummaryKind::SustainedLocalized
            },
            Some(Coverage::Sectional) => SummaryKind::Sectional,
            _ => SummaryKind::Broad,
        },
{
    match strongest {
        None => if peak_below_floor {
            SummaryKind::Quiet
        } else {
            SummaryKind::Diffuse
        },
        Some((sample_count, coverage)) => match coverage {
            Some(Coverage::Localized) => if sample_count == 1 {
                SummaryKind::SharpLocalized
            } else {
                SummaryKind::SustainedLocalized
            },
            Some(Coverage::Sectional) => SummaryKind::Sectional,
            _ => SummaryKind::Broad,
        },
    }
}

} // verus!
