//! Scroll planning for the view of one file.
//!
//! A file line may occupy several screen rows when it is wrapped.  A view
//! position is a pair of a line and a portion (the wrap row within that
//! line).  Every line occupies at least one row, so a position also names an
//! absolute row of the whole wrapped file: the rows of all lines before it
//! plus its portion.  Scrolling is planned on absolute rows and converted
//! back to positions.
use vstd::prelude::*;

use crate::bindings::Binding;
use crate::refresh::{rotated_down, rotated_up, Refresh};
use crate::ruler::decimal;
use vstd::string::*;
use crate::search::{MatchMotion, SearchKind};

verus! {

/// The rows occupied by the lines before line `l`.
#[verifier::opaque]
pub open spec fn rows_before(heights: Seq<usize>, l: int) -> int
    decreases l,
{
    if l <= 0 || heights.len() == 0 {
        0
    } else if l > heights.len() {
        rows_before(heights, heights.len() as int)
    } else {
        rows_before(heights, l - 1) + heights[l - 1]
    }
}

/// The rows occupied by the whole file.
pub open spec fn total_rows(heights: Seq<usize>) -> int {
    rows_before(heights, heights.len() as int)
}

/// Every line occupies at least one row.
pub open spec fn heights_ok(heights: Seq<usize>) -> bool {
    forall|i: int| 0 <= i < heights.len() ==> #[trigger] heights[i] >= 1
}

/// `(line, portion)` is a position in the file: a row of a line, or the end.
pub open spec fn valid_position(heights: Seq<usize>, line: int, portion: int) -> bool {
    &&& 0 <= line <= heights.len()
    &&& line < heights.len() ==> 0 <= portion < heights[line]
    &&& line == heights.len() ==> portion == 0
}

/// The absolute row of a position.
pub open spec fn row_of(heights: Seq<usize>, line: int, portion: int) -> int {
    rows_before(heights, line) + portion
}

/// The topmost row that still fills a view of `view_height` rows: the end
/// anchor, as a row.
pub open spec fn end_anchor_row(heights: Seq<usize>, view_height: int) -> int {
    if total_rows(heights) > view_height { total_rows(heights) - view_height } else { 0 }
}

/// The largest row the top of the view may reach by scrolling down.
pub open spec fn max_top_row(heights: Seq<usize>, view_height: int, scroll_past_eof: bool) -> int {
    if scroll_past_eof {
        if total_rows(heights) > 0 { total_rows(heights) - 1 } else { 0 }
    } else {
        end_anchor_row(heights, view_height)
    }
}

proof fn lemma_rows_before_step(heights: Seq<usize>, l: int)
    requires
        0 <= l < heights.len(),
    ensures
        rows_before(heights, l + 1) == rows_before(heights, l) + heights[l],
{
    reveal(rows_before);
}

proof fn lemma_rows_before_zero(heights: Seq<usize>)
    ensures
        rows_before(heights, 0) == 0,
{
    reveal(rows_before);
}

proof fn lemma_rows_before_mono(heights: Seq<usize>, a: int, b: int)
    requires
        0 <= a <= b <= heights.len(),
        heights_ok(heights),
    ensures
        rows_before(heights, a) + (b - a) <= rows_before(heights, b),
        rows_before(heights, a) >= 0,
    decreases b - a,
{
    if a < b {
        lemma_rows_before_mono(heights, a, b - 1);
        lemma_rows_before_step(heights, b - 1);
    } else {
        lemma_rows_before_nonneg(heights, a);
    }
}

proof fn lemma_rows_before_nonneg(heights: Seq<usize>, l: int)
    ensures
        rows_before(heights, l) >= 0,
    decreases l,
{
    reveal(rows_before);
    if l <= 0 || heights.len() == 0 {
    } else if l > heights.len() {
        lemma_rows_before_nonneg(heights, heights.len() as int);
    } else {
        lemma_rows_before_nonneg(heights, l - 1);
    }
}

/// The absolute row of a position.
fn row_of_position(heights: &[usize], line: usize, portion: usize) -> (r: usize)
    requires
        heights_ok(heights@),
        valid_position(heights@, line as int, portion as int),
        total_rows(heights@) <= usize::MAX,
    ensures
        r == row_of(heights@, line as int, portion as int),
        r <= total_rows(heights@),
{
    let mut sum: usize = 0;
    let mut l: usize = 0;
    proof {
        lemma_rows_before_zero(heights@);
    }
    while l < line
        invariant
            l <= line <= heights@.len(),
            sum == rows_before(heights@, l as int),
            heights_ok(heights@),
            total_rows(heights@) <= usize::MAX,
        decreases line - l,
    {
        proof {
            lemma_rows_before_step(heights@, l as int);
            lemma_rows_before_mono(heights@, l + 1, heights@.len() as int);
        }
        sum = sum + heights[l];
        l = l + 1;
    }
    proof {
        if line < heights@.len() {
            lemma_rows_before_step(heights@, line as int);
            lemma_rows_before_mono(heights@, line + 1, heights@.len() as int);
        }
    }
    sum + portion
}

/// The position whose absolute row is `row`.
fn position_of_row(heights: &[usize], row: usize) -> (r: (usize, usize))
    requires
        heights_ok(heights@),
        row <= total_rows(heights@),
        total_rows(heights@) <= usize::MAX,
    ensures
        valid_position(heights@, r.0 as int, r.1 as int),
        row_of(heights@, r.0 as int, r.1 as int) == row,
{
    let mut sum: usize = 0;
    let mut l: usize = 0;
    proof {
        lemma_rows_before_zero(heights@);
    }
    let mut done = false;
    while !done && l < heights.len()
        invariant
            l <= heights@.len(),
            sum == rows_before(heights@, l as int),
            sum <= row,
            done ==> l < heights@.len() && row < sum + heights@[l as int],
            heights_ok(heights@),
            row <= total_rows(heights@),
            total_rows(heights@) <= usize::MAX,
        decreases heights@.len() - l, if done { 0int } else { 1int },
    {
        proof {
            lemma_rows_before_step(heights@, l as int);
            lemma_rows_before_mono(heights@, l + 1, heights@.len() as int);
        }
        if sum + heights[l] > row {
            done = true;
        } else {
            sum = sum + heights[l];
            l = l + 1;
        }
    }
    proof {
        if l < heights@.len() {
            lemma_rows_before_step(heights@, l as int);
        }
    }
    (l, row - sum)
}

/// The position of the end anchor: the topmost position whose rows fill a
/// view of `view_height` rows to the end of the file, or the start of the
/// file when the whole file fits.
pub fn end_anchor(heights: &[usize], view_height: usize) -> (r: (usize, usize))
    requires
        heights_ok(heights@),
        total_rows(heights@) <= usize::MAX,
    ensures
        valid_position(heights@, r.0 as int, r.1 as int),
        row_of(heights@, r.0 as int, r.1 as int) == end_anchor_row(heights@, view_height as int),
{
    let total = row_of_position(heights, heights.len(), 0);
    let row = if total > view_height { total - view_height } else { 0 };
    position_of_row(heights, row)
}

/// Which way the view moved.
#[derive(Clone, Copy, Debug, PartialEq, Eq, Structural)]
pub enum ScrollDirection {
    /// The view did not move by a relative scroll.
    Still,
    /// The view moved towards the start of the file.
    Up,
    /// The view moved towards the end of the file.
    Down,
}

/// The scroll requests that a view has gathered since its last render.
#[derive(Clone, Copy, Debug)]
pub struct ScrollRequest {
    /// The line at the top of the view.
    pub top_line: usize,
    /// The portion of that line at the top of the view.
    pub top_line_portion: usize,
    /// A line to jump to, which is then centred in the view.
    pub absolute: Option<usize>,
    /// Rows to scroll by: down when positive, up when negative.
    pub relative: isize,
    /// Whether the view follows the end of the file.
    pub following_end: bool,
    /// Whether scrolling down may go past the end anchor.
    pub scroll_past_eof: bool,
}

/// Where a view ends up after a render, and how it got there.
#[derive(Clone, Copy, Debug)]
pub struct ScrollPlan {
    /// The new line at the top of the view.
    pub top_line: usize,
    /// The new portion of that line at the top of the view.
    pub top_line_portion: usize,
    /// The direction of the relative scroll.
    pub direction: ScrollDirection,
    /// The number of rows the relative scroll moved.
    pub distance: usize,
    /// Whether the whole view must be redrawn because it jumped.
    pub jumped: bool,
}

/// The absolute row that a relative scroll by `delta` rows from `from` reaches:
/// never above the first row, and when going down never past `limit` (nor
/// back up, when the view is already past it).
pub open spec fn scrolled_row(from: int, delta: int, limit: int) -> int {
    if delta < 0 {
        if from + delta > 0 { from + delta } else { 0 }
    } else if from >= limit {
        from
    } else if from + delta < limit {
        from + delta
    } else {
        limit
    }
}

/// Whether a view that follows the end can reach the end anchor by a
/// relative scroll of at most one view.
pub open spec fn anchor_near(heights: Seq<usize>, view_height: int, req: ScrollRequest) -> bool {
    let top = row_of(heights, req.top_line as int, req.top_line_portion as int);
    let anchor = end_anchor_row(heights, view_height);
    anchor >= top && anchor - top <= view_height
}

/// Scroll from row `from` by `delta` rows, bounded by `limit` going down.
fn scroll_rows(from: usize, delta: isize, limit: usize) -> (r: usize)
    ensures
        r == scrolled_row(from as int, delta as int, limit as int),
{
    if delta < 0 {
        let up: usize = if delta == isize::MIN { (isize::MAX as usize) + 1 } else { (-delta) as usize };
        if from > up { from - up } else { 0 }
    } else if from >= limit {
        from
    } else {
        let down = delta as usize;
        if down < limit - from { from + down } else { limit }
    }
}

/// The row at which the relative scroll of a plan starts, after following
/// the end and jumping to a line.
pub open spec fn start_row(heights: Seq<usize>, view_height: int, req: ScrollRequest) -> int {
    let top = row_of(heights, req.top_line as int, req.top_line_portion as int);
    let anchor = end_anchor_row(heights, view_height);
    let followed = if req.following_end && !anchor_near(heights, view_height, req) { anchor } else { top };
    match req.absolute {
        Some(line) => rows_before(heights, if line > heights.len() { heights.len() as int } else { line as int }),
        None => followed,
    }
}

/// The relative scroll of a plan, in rows.
pub open spec fn relative_rows(heights: Seq<usize>, view_height: int, req: ScrollRequest) -> int {
    let top = row_of(heights, req.top_line as int, req.top_line_portion as int);
    let anchor = end_anchor_row(heights, view_height);
    let follow_delta = if req.following_end && anchor_near(heights, view_height, req) { anchor - top } else { 0 };
    match req.absolute {
        Some(_) => follow_delta + req.relative - view_height / 2,
        None => follow_delta + req.relative,
    }
}

/// The start row, relative scroll and jump flag of a plan, with the total
/// rows and the end anchor row.
fn plan_start(heights: &[usize], view_height: usize, req: ScrollRequest) -> (r: (usize, isize, bool, usize, usize))
    requires
        heights_ok(heights@),
        total_rows(heights@) <= usize::MAX / 4,
        view_height <= usize::MAX / 4,
        valid_position(heights@, req.top_line as int, req.top_line_portion as int),
        -(isize::MAX / 4) <= req.relative <= isize::MAX / 4,
    ensures
        r.0 == start_row(heights@, view_height as int, req),
        r.1 == relative_rows(heights@, view_height as int, req),
        r.2 == (req.absolute is Some || (req.following_end && !anchor_near(heights@, view_height as int, req))),
        r.3 == total_rows(heights@),
        r.4 == end_anchor_row(heights@, view_height as int),
        r.0 <= r.3,
{
    let total = row_of_position(heights, heights.len(), 0);
    let top = row_of_position(heights, req.top_line, req.top_line_portion);
    proof {
        lemma_rows_before_nonneg(heights@, req.top_line as int);
    }
    let anchor = if total > view_height { total - view_height } else { 0 };
    let near = anchor >= top && anchor - top <= view_height;
    assert(anchor == end_anchor_row(heights@, view_height as int));
    assert(near == anchor_near(heights@, view_height as int, req));
    let follow_delta: usize = if req.following_end && near { anchor - top } else { 0 };
    let follow_row: usize = if req.following_end && !near { anchor } else { top };
    let (row, jumped, base): (usize, bool, isize) = match req.absolute {
        Some(line) => {
            let line = if line > heights.len() { heights.len() } else { line };
            let row = row_of_position(heights, line, 0);
            (row, true, follow_delta as isize - (view_height / 2) as isize)
        },
        None => (follow_row, req.following_end && !near, follow_delta as isize),
    };
    let delta: isize = base + req.relative;
    (row, delta, jumped, total, anchor)
}

/// Plan the scrolling of a view of `view_height` rows over lines of the
/// given heights.
///
/// When following the end, the view moves to the end anchor: by a relative
/// scroll when the anchor is at most a view below, else by a jump.  A
/// requested jump to a line puts that line at the top and then scrolls up
/// by half a view so that it ends up in the middle.  The relative scroll
/// then moves the top row, never above the first row and, going down, never
/// past the end anchor unless scrolling past the end is allowed.
pub fn plan_scroll(heights: &[usize], view_height: usize, req: ScrollRequest) -> (r: ScrollPlan)
    requires
        heights_ok(heights@),
        total_rows(heights@) <= usize::MAX / 4,
        view_height <= usize::MAX / 4,
        valid_position(heights@, req.top_line as int, req.top_line_portion as int),
        -(isize::MAX / 4) <= req.relative <= isize::MAX / 4,
    ensures
        plan_of(heights@, view_height as int, req, r),
        valid_position(heights@, r.top_line as int, r.top_line_portion as int),
        row_of(heights@, r.top_line as int, r.top_line_portion as int) == scrolled_row(
            start_row(heights@, view_height as int, req),
            relative_rows(heights@, view_height as int, req),
            max_top_row(heights@, view_height as int, req.scroll_past_eof),
        ),
        r.jumped == (req.absolute is Some || (req.following_end && !anchor_near(heights@, view_height as int, req))),
        r.direction == ScrollDirection::Still ==> relative_rows(heights@, view_height as int, req) == 0 && r.distance == 0,
        r.direction == ScrollDirection::Up ==> relative_rows(heights@, view_height as int, req) < 0
            && r.distance == start_row(heights@, view_height as int, req) - row_of(heights@, r.top_line as int, r.top_line_portion as int),
        r.direction == ScrollDirection::Down ==> relative_rows(heights@, view_height as int, req) > 0
            && r.distance == row_of(heights@, r.top_line as int, r.top_line_portion as int) - start_row(heights@, view_height as int, req),
{
    let (row, delta, jumped, total, anchor) = plan_start(heights, view_height, req);
    let limit = if req.scroll_past_eof {
        if total > 0 { total - 1 } else { 0 }
    } else {
        anchor
    };

    let new_row = scroll_rows(row, delta, limit);
    let direction = if delta < 0 {
        ScrollDirection::Up
    } else if delta > 0 {
        ScrollDirection::Down
    } else {
        ScrollDirection::Still
    };
    let distance: usize = if new_row < row { row - new_row } else { new_row - row };
    assert(new_row <= total);
    let (top_line, top_line_portion) = position_of_row(heights, new_row);
    ScrollPlan { top_line, top_line_portion, direction, distance, jumped }
}

/// The rows that the lines from `top_line` occupy in a view of
/// `view_height` rows whose top is the absolute row `top_row`: line `l`
/// covers the view rows from `rows_before(l) - top_row` up to
/// `rows_before(l + 1) - top_row`, clipped to the view.
pub open spec fn clip_row(x: int, view_height: int) -> int {
    if x < 0 { 0 } else if x > view_height { view_height } else { x }
}

/// Assign the lines of the file to the rows of a view of `view_height`
/// rows whose top is at `(top_line, top_line_portion)`.  Entry `j` holds the
/// first and past-the-last view row of line `top_line + j`; the entries run
/// from the top line to the last line that is at least partly in view.
pub fn assign_rows(heights: &[usize], top_line: usize, top_line_portion: usize, view_height: usize) -> (r: Vec<(usize, usize)>)
    requires
        heights_ok(heights@),
        total_rows(heights@) <= usize::MAX / 4,
        view_height <= usize::MAX / 4,
        valid_position(heights@, top_line as int, top_line_portion as int),
    ensures
        top_line + r@.len() <= heights@.len(),
        forall|j: int| 0 <= j < r@.len() ==> {
            let top = row_of(heights@, top_line as int, top_line_portion as int);
            &&& (#[trigger] r@[j]).0 < view_height
            &&& r@[j].0 == clip_row(rows_before(heights@, top_line + j) - top, view_height as int)
            &&& r@[j].1 == clip_row(rows_before(heights@, top_line + j + 1) - top, view_height as int)
        },
        top_line + r@.len() == heights@.len()
            || clip_row(rows_before(heights@, top_line + r@.len()) - row_of(heights@, top_line as int, top_line_portion as int), view_height as int) == view_height,
{
    let top = row_of_position(heights, top_line, top_line_portion);
    let ghost top_s = top as int;
    let mut rows: Vec<(usize, usize)> = Vec::new();
    let mut row: usize = 0;
    let mut l: usize = top_line;
    let mut portion: usize = top_line_portion;
    proof {
        lemma_rows_before_nonneg(heights@, top_line as int);
        if top_line < heights@.len() {
            lemma_rows_before_step(heights@, top_line as int);
        }
    }
    while l < heights.len() && row < view_height
        invariant
            top_line <= l <= heights@.len(),
            rows@.len() == l - top_line,
            heights_ok(heights@),
            total_rows(heights@) <= usize::MAX / 4,
            view_height <= usize::MAX / 4,
            top_s == row_of(heights@, top_line as int, top_line_portion as int),
            l == top_line ==> portion == top_line_portion,
            l > top_line ==> portion == 0 && rows_before(heights@, l as int) >= top_s,
            row == clip_row(rows_before(heights@, l as int) - top_s, view_height as int),
            l < heights@.len() ==> portion < heights@[l as int],
            forall|j: int| 0 <= j < rows@.len() ==> {
                &&& (#[trigger] rows@[j]).0 < view_height
                &&& rows@[j].0 == clip_row(rows_before(heights@, top_line + j) - top_s, view_height as int)
                &&& rows@[j].1 == clip_row(rows_before(heights@, top_line + j + 1) - top_s, view_height as int)
            },
        decreases heights@.len() - l,
    {
        proof {
            lemma_rows_before_step(heights@, l as int);
            lemma_rows_before_mono(heights@, l + 1, heights@.len() as int);
        }
        let h = heights[l] - portion;
        let visible = if h < view_height - row { h } else { view_height - row };
        let ghost rows0 = rows@;
        rows.push((row, row + visible));
        proof {
            if l == top_line {
                assert(rows_before(heights@, l as int) - top_s == -(portion as int));
            }
            assert(row + visible == clip_row(rows_before(heights@, l + 1) - top_s, view_height as int));
            assert(rows_before(heights@, l as int) < top_s + view_height);
            assert forall|j: int| 0 <= j < rows@.len() implies {
                &&& (#[trigger] rows@[j]).0 < view_height
                &&& rows@[j].0 == clip_row(rows_before(heights@, top_line + j) - top_s, view_height as int)
                &&& rows@[j].1 == clip_row(rows_before(heights@, top_line + j + 1) - top_s, view_height as int)
            } by {
                if j < rows0.len() {
                    assert(rows@[j] == rows0[j]);
                } else {
                    assert(j == l - top_line);
                    assert(top_line + j == l);
                    assert(rows@[j] == (row, (row + visible) as usize));
                }
            }
        }
        row = row + visible;
        l = l + 1;
        portion = 0;
    }
    rows
}

/// Where the parts of the overlay go on a screen.
#[derive(Clone, Copy, Debug)]
pub struct OverlayLayout {
    /// Rows taken by the overlay at the bottom of the screen.
    pub overlay_height: usize,
    /// Rows of the progress block, at the very bottom.
    pub progress_height: usize,
    /// Rows of the error file tail, above the progress block.
    pub error_file_height: usize,
    /// The row of the ruler.
    pub ruler_row: Option<usize>,
    /// The row of the search status.
    pub search_row: Option<usize>,
    /// The row of the prompt.
    pub prompt_row: Option<usize>,
    /// The row of the error message.
    pub error_row: Option<usize>,
}

/// The number of rows an overlay part takes.
pub open spec fn flag_rows(b: bool) -> int {
    if b { 1 } else { 0 }
}

/// Lay out the overlay of a screen of `height` rows, bottom up: the
/// progress block, the tail of the error file, the ruler, then the search
/// status, the prompt and the error message, each where present.  When that
/// does not fit, only the prompt is shown, on the last row.
pub fn layout_overlay(height: usize, progress_height: usize, error_file_height: usize, search: bool, prompt: bool, error: bool) -> (r: OverlayLayout)
    ensures
        ({
            let full = progress_height + error_file_height + 1 + flag_rows(search) + flag_rows(prompt) + flag_rows(error);
            if full < height {
                let ruler = height - progress_height - error_file_height - 1;
                let search_row = ruler - flag_rows(search);
                let prompt_row = search_row - flag_rows(prompt);
                let error_row = prompt_row - flag_rows(error);
                &&& r.overlay_height == full
                &&& r.progress_height == progress_height
                &&& r.error_file_height == error_file_height
                &&& r.ruler_row == Some(ruler as usize)
                &&& r.search_row == if search { Some(search_row as usize) } else { None::<usize> }
                &&& r.prompt_row == if prompt { Some(prompt_row as usize) } else { None::<usize> }
                &&& r.error_row == if error { Some(error_row as usize) } else { None::<usize> }
            } else {
                &&& r.overlay_height == if prompt && height > 0 { 1int } else { 0 }
                &&& r.progress_height == 0
                &&& r.error_file_height == 0
                &&& r.ruler_row is None
                &&& r.search_row is None
                &&& r.prompt_row == if prompt && height > 0 { Some((height - 1) as usize) } else { None::<usize> }
                &&& r.error_row is None
            }
        }),
        r.overlay_height <= height,
{
    let extra: usize = (if search { 1usize } else { 0 }) + (if prompt { 1usize } else { 0 }) + (if error { 1usize } else { 0 });
    if progress_height < height && error_file_height < height - progress_height
        && extra < height - progress_height - error_file_height - 1 + 1
        && 1 + extra < height - progress_height - error_file_height {
        let mut row = height - progress_height - error_file_height - 1;
        let ruler_row = Some(row);
        let mut search_row = None;
        if search {
            row = row - 1;
            search_row = Some(row);
        }
        let mut prompt_row = None;
        if prompt {
            row = row - 1;
            prompt_row = Some(row);
        }
        let mut error_row = None;
        if error {
            row = row - 1;
            error_row = Some(row);
        }
        OverlayLayout {
            overlay_height: progress_height + error_file_height + 1 + extra,
            progress_height,
            error_file_height,
            ruler_row,
            search_row,
            prompt_row,
            error_row,
        }
    } else {
        let shown = prompt && height > 0;
        OverlayLayout {
            overlay_height: if shown { 1 } else { 0 },
            progress_height: 0,
            error_file_height: 0,
            ruler_row: None,
            search_row: None,
            prompt_row: if shown { Some(height - 1) } else { None },
            error_row: None,
        }
    }
}

/// How long lines are shown.
#[derive(Clone, Copy, Debug, PartialEq, Eq, Structural)]
pub enum WrappingMode {
    /// Lines are cut at the edge; the view scrolls sideways.
    Unwrapped,
    /// Lines wrap at any grapheme.
    GraphemeBoundary,
    /// Lines wrap at word boundaries where one fits.
    WordBoundary,
}

/// The mode that follows `m` when wrapping is toggled.
pub open spec fn following_mode(m: WrappingMode) -> WrappingMode {
    match m {
        WrappingMode::Unwrapped => WrappingMode::GraphemeBoundary,
        WrappingMode::GraphemeBoundary => WrappingMode::WordBoundary,
        WrappingMode::WordBoundary => WrappingMode::Unwrapped,
    }
}

impl WrappingMode {
    /// The mode that toggling wrapping moves to: unwrapped, then grapheme,
    /// then word wrapping, then back.
    pub fn next_mode(&self) -> (r: WrappingMode)
        ensures
            r == following_mode(*self),
    {
        match self {
            WrappingMode::Unwrapped => WrappingMode::GraphemeBoundary,
            WrappingMode::GraphemeBoundary => WrappingMode::WordBoundary,
            WrappingMode::WordBoundary => WrappingMode::Unwrapped,
        }
    }
}

/// What remains for the screen to do after a key binding has acted on the
/// view.
#[derive(Clone, Copy, Debug, PartialEq, Eq, Structural)]
pub enum KeyAction {
    /// Quit the pager.
    Quit,
    /// Redraw the whole screen.
    Refresh,
    /// Show the help screen.
    ShowHelp,
    /// Drop the error file, the search and the error message, and the
    /// overlay screen if any.
    ClearOverlay,
    /// Switch to the previous file.
    PreviousFile,
    /// Switch to the next file.
    NextFile,
    /// Open the go-to-line prompt.
    PromptGoToLine,
    /// Open the search prompt for a search of this kind.
    PromptSearch(SearchKind),
    /// Move the current search match.
    MoveMatch(MatchMotion),
    /// Render what changed.
    Render,
}

/// Rows to scroll for a fraction `1/n` of `size` rows or columns; none for
/// a zero fraction.
pub open spec fn fraction_of(size: usize, n: usize) -> usize {
    if n == 0 { 0 } else { (size / n) as usize }
}

/// The number of lines a file must have loaded for the view: the lines up
/// to the bottom of the view, one more screen, and the read-ahead.
pub fn needed_lines(bottom_line: usize, height: usize, read_ahead_lines: usize) -> (r: usize)
    ensures
        r == if bottom_line + height + read_ahead_lines > usize::MAX { usize::MAX as int } else { bottom_line + height + read_ahead_lines },
{
    let a = bottom_line.saturating_add(height);
    a.saturating_add(read_ahead_lines)
}

/// Whether a screen needs a timed redraw: an error file is shown, the file
/// is loading and not paused, the view follows the end, or a search is
/// running.
pub fn animating(has_error_file: bool, loaded: bool, paused: bool, following_end: bool, searching: bool) -> (r: bool)
    ensures
        r == (has_error_file || (!loaded && !paused) || following_end || searching),
{
    has_error_file || (!loaded && !paused) || following_end || searching
}

/// The position and geometry of the view of one file, with the scroll
/// requests that it has gathered since its last render.
pub struct Viewport {
    /// Columns on screen.
    pub width: usize,
    /// Rows on screen.
    pub height: usize,
    /// The line at the top of the view.
    pub top_line: usize,
    /// The portion of that line at the top of the view.
    pub top_line_portion: usize,
    /// The column at the left of the view.
    pub left: usize,
    /// How lines are wrapped.
    pub wrapping: WrappingMode,
    /// Whether line numbers are shown.
    pub line_numbers: bool,
    /// Whether the view follows the end of the file.
    pub following_end: bool,
    /// A requested jump to a line.
    pub pending_absolute_scroll: Option<usize>,
    /// Requested rows to scroll: down when positive, up when negative.
    pub pending_relative_scroll: isize,
    /// The rows to redraw at the next render.
    pub pending_refresh: Refresh,
}

impl Viewport {
    /// A view of `width` by `height` at the start of the file.
    pub fn new(width: usize, height: usize) -> (r: Viewport)
        ensures
            r.width == width,
            r.height == height,
            r.top_line == 0,
            r.top_line_portion == 0,
            r.left == 0,
            r.wrapping == WrappingMode::WordBoundary,
            !r.line_numbers,
            !r.following_end,
            r.pending_absolute_scroll is None,
            r.pending_relative_scroll == 0,
            r.pending_refresh is All,
    {
        Viewport {
            width,
            height,
            top_line: 0,
            top_line_portion: 0,
            left: 0,
            wrapping: WrappingMode::WordBoundary,
            line_numbers: false,
            following_end: false,
            pending_absolute_scroll: None,
            pending_relative_scroll: 0,
            pending_refresh: Refresh::All,
        }
    }

    /// Change the size of the screen.  A new size redraws everything; the
    /// same size changes nothing.
    pub fn resize(&mut self, width: usize, height: usize)
        ensures
            resized(*old(self), *final(self), width, height),
            (old(self).width == width && old(self).height == height) ==> *final(self) == *old(self),
            (old(self).width != width || old(self).height != height) ==> final(self).pending_refresh is All,
    {
        if self.width != width || self.height != height {
            self.width = width;
            self.height = height;
            self.pending_refresh.set_all();
        }
    }

    /// Redraw everything at the next render.
    pub fn refresh(&mut self)
        ensures
            final(self).pending_refresh is All,
            final(self).width == old(self).width,
            final(self).height == old(self).height,
            final(self).top_line == old(self).top_line,
            final(self).top_line_portion == old(self).top_line_portion,
            final(self).left == old(self).left,
            final(self).wrapping == old(self).wrapping,
            final(self).line_numbers == old(self).line_numbers,
            final(self).following_end == old(self).following_end,
            final(self).pending_absolute_scroll == old(self).pending_absolute_scroll,
            final(self).pending_relative_scroll == old(self).pending_relative_scroll,
    {
        self.pending_refresh.set_all();
    }

    /// Jump to a line at the next render, and stop following the end.
    pub fn scroll_to(&mut self, line: usize)
        ensures
            final(self).pending_absolute_scroll == Some(line),
            final(self).pending_relative_scroll == 0,
            !final(self).following_end,
            final(self).top_line == old(self).top_line,
    {
        self.pending_absolute_scroll = Some(line);
        self.pending_relative_scroll = 0;
        self.following_end = false;
    }

    /// Scroll `step` rows up at the next render, and stop following the end.
    pub fn scroll_up(&mut self, step: usize)
        ensures
            final(self).pending_relative_scroll == clamp_isize(old(self).pending_relative_scroll - step),
            !final(self).following_end,
            final(self).pending_absolute_scroll == old(self).pending_absolute_scroll,
            final(self).top_line == old(self).top_line,
    {
        let v: i128 = self.pending_relative_scroll as i128 - step as i128;
        self.pending_relative_scroll = clamp_to_isize(v);
        self.following_end = false;
    }

    /// Scroll `step` rows down at the next render, and stop following the
    /// end.
    pub fn scroll_down(&mut self, step: usize)
        ensures
            final(self).pending_relative_scroll == clamp_isize(old(self).pending_relative_scroll + step),
            !final(self).following_end,
            final(self).pending_absolute_scroll == old(self).pending_absolute_scroll,
            final(self).top_line == old(self).top_line,
    {
        let v: i128 = self.pending_relative_scroll as i128 + step as i128;
        self.pending_relative_scroll = clamp_to_isize(v);
        self.following_end = false;
    }

    /// Scroll `step` columns left, when lines are not wrapped.
    pub fn scroll_left(&mut self, step: usize)
        ensures
            (old(self).wrapping == WrappingMode::Unwrapped && old(self).left > 0 && step > 0) ==> final(self).left == (if old(self).left > step { old(self).left - step } else { 0 })
                && final(self).pending_refresh is All,
            !(old(self).wrapping == WrappingMode::Unwrapped && old(self).left > 0 && step > 0) ==> *final(self) == *old(self),
    {
        if self.wrapping == WrappingMode::Unwrapped && self.left > 0 && step > 0 {
            self.left = if self.left > step { self.left - step } else { 0 };
            self.refresh();
        }
    }

    /// Scroll `step` columns right, when lines are not wrapped.
    pub fn scroll_right(&mut self, step: usize)
        ensures
            (old(self).wrapping == WrappingMode::Unwrapped && step > 0) ==> final(self).left == (if old(self).left + step > usize::MAX { usize::MAX as int } else { old(self).left + step })
                && final(self).pending_refresh is All,
            !(old(self).wrapping == WrappingMode::Unwrapped && step > 0) ==> *final(self) == *old(self),
    {
        if self.wrapping == WrappingMode::Unwrapped && step != 0 {
            self.left = if self.left > usize::MAX - step { usize::MAX } else { self.left + step };
            self.refresh();
        }
    }

    /// Follow the end of the file from the next render on.
    pub fn follow_end(&mut self)
        ensures
            final(self).following_end,
            final(self).pending_absolute_scroll == old(self).pending_absolute_scroll,
            final(self).pending_relative_scroll == old(self).pending_relative_scroll,
    {
        self.following_end = true;
    }

    /// Plan the next render over lines of the given heights in a file view
    /// of `view_height` rows, and move the view there.  The requests are
    /// consumed.
    pub fn apply_scroll(&mut self, heights: &[usize], view_height: usize, scroll_past_eof: bool) -> (r: ScrollPlan)
        requires
            heights_ok(heights@),
            total_rows(heights@) <= usize::MAX / 4,
            view_height <= usize::MAX / 4,
            valid_position(heights@, old(self).top_line as int, old(self).top_line_portion as int),
            -(isize::MAX / 4) <= old(self).pending_relative_scroll <= isize::MAX / 4,
        ensures
            plan_of(heights@, view_height as int, ScrollRequest {
                top_line: old(self).top_line,
                top_line_portion: old(self).top_line_portion,
                absolute: old(self).pending_absolute_scroll,
                relative: old(self).pending_relative_scroll,
                following_end: old(self).following_end,
                scroll_past_eof,
            }, r),
            final(self).top_line == r.top_line,
            final(self).top_line_portion == r.top_line_portion,
            final(self).pending_absolute_scroll is None,
            final(self).pending_relative_scroll == 0,
            final(self).following_end == old(self).following_end,
            r.jumped ==> forall|row: int| 0 <= row < view_height ==> final(self).pending_refresh.marks(row),
    {
        let req = ScrollRequest {
            top_line: self.top_line,
            top_line_portion: self.top_line_portion,
            absolute: self.pending_absolute_scroll,
            relative: self.pending_relative_scroll,
            following_end: self.following_end,
            scroll_past_eof,
        };
        let plan = plan_scroll(heights, view_height, req);
        self.top_line = plan.top_line;
        self.top_line_portion = plan.top_line_portion;
        self.pending_absolute_scroll = None;
        self.pending_relative_scroll = 0;
        if plan.jumped {
            self.pending_refresh.add_range(0, view_height);
        }
        plan
    }
}

impl Viewport {
    /// Keep the view on a file whose lines have the given heights, after
    /// the file changed: a view whose top is beyond the end of the file goes
    /// back to the top, and a portion past its line goes to the line's
    /// first row.
    pub fn fit_to(&mut self, heights: &[usize])
        requires
            heights_ok(heights@),
        ensures
            valid_position(heights@, final(self).top_line as int, final(self).top_line_portion as int),
            old(self).top_line > heights@.len() ==> final(self).top_line == 0 && final(self).top_line_portion == 0
                && final(self).pending_refresh is All,
            valid_position(heights@, old(self).top_line as int, old(self).top_line_portion as int) ==> *final(self) == *old(self),
    {
        let n = heights.len();
        if self.top_line > n {
            self.top_line = 0;
            self.top_line_portion = 0;
            self.refresh();
        } else if self.top_line == n {
            if self.top_line_portion != 0 {
                self.top_line_portion = 0;
                self.refresh();
            }
        } else if self.top_line_portion >= heights[self.top_line] {
            self.top_line_portion = 0;
            self.refresh();
        }
    }

    /// Act on a key binding: scroll, jump or toggle as it says, and return
    /// what remains for the screen to do.  `view_height` and `top_line`,
    /// `bottom_line` are those of the last render.
    pub fn dispatch_binding(&mut self, binding: &Binding, view_height: usize, top_line: usize, bottom_line: usize) -> (r: KeyAction)
        ensures
            *binding == Binding::Quit ==> r == KeyAction::Quit,
            *binding == Binding::Refresh ==> r == KeyAction::Refresh,
            *binding == Binding::Help ==> r == KeyAction::ShowHelp,
            *binding == Binding::Cancel ==> r == KeyAction::ClearOverlay && final(self).pending_refresh is All,
            *binding == Binding::PreviousFile ==> r == KeyAction::PreviousFile,
            *binding == Binding::NextFile ==> r == KeyAction::NextFile,
            *binding matches Binding::ScrollUpLines(n) ==> r == KeyAction::Render && !final(self).following_end
                && final(self).pending_relative_scroll == clamp_isize(old(self).pending_relative_scroll - n),
            *binding matches Binding::ScrollDownLines(n) ==> r == KeyAction::Render && !final(self).following_end
                && final(self).pending_relative_scroll == clamp_isize(old(self).pending_relative_scroll + n),
            *binding matches Binding::ScrollUpScreenFraction(n) ==> r == KeyAction::Render
                && final(self).pending_relative_scroll == clamp_isize(old(self).pending_relative_scroll - fraction_of(view_height, n)),
            *binding matches Binding::ScrollDownScreenFraction(n) ==> r == KeyAction::Render
                && final(self).pending_relative_scroll == clamp_isize(old(self).pending_relative_scroll + fraction_of(view_height, n)),
            *binding == Binding::ScrollToTop ==> r == KeyAction::Render && final(self).pending_absolute_scroll == Some(0usize)
                && !final(self).following_end,
            *binding == Binding::ScrollToBottom ==> r == KeyAction::Render && final(self).following_end,
            *binding matches Binding::ScrollLeftColumns(n) ==> r == KeyAction::Render
                && final(self).left == (if old(self).wrapping == WrappingMode::Unwrapped && old(self).left > 0 && n > 0 {
                    if old(self).left > n { (old(self).left - n) as usize } else { 0usize } } else { old(self).left }),
            *binding matches Binding::ScrollRightColumns(n) ==> r == KeyAction::Render
                && final(self).left == (if old(self).wrapping == WrappingMode::Unwrapped && n > 0 {
                    if old(self).left + n > usize::MAX { usize::MAX } else { (old(self).left + n) as usize } } else { old(self).left }),
            *binding matches Binding::ScrollLeftScreenFraction(n) ==> r == KeyAction::Render && ({
                let k = fraction_of(old(self).width, n);
                final(self).left == (if old(self).wrapping == WrappingMode::Unwrapped && old(self).left > 0 && k > 0 {
                    if old(self).left > k { (old(self).left - k) as usize } else { 0usize } } else { old(self).left })
            }),
            *binding matches Binding::ScrollRightScreenFraction(n) ==> r == KeyAction::Render && ({
                let k = fraction_of(old(self).width, n);
                final(self).left == (if old(self).wrapping == WrappingMode::Unwrapped && k > 0 {
                    if old(self).left + k > usize::MAX { usize::MAX } else { (old(self).left + k) as usize } } else { old(self).left })
            }),
            *binding == Binding::ToggleLineNumbers ==> r == KeyAction::Refresh && final(self).line_numbers == !old(self).line_numbers,
            *binding == Binding::ToggleLineWrapping ==> r == KeyAction::Refresh
                && final(self).wrapping == following_mode(old(self).wrapping),
            *binding == Binding::PromptGoToLine ==> r == KeyAction::PromptGoToLine,
            *binding == Binding::PromptSearchFromStart ==> r == KeyAction::PromptSearch(SearchKind::First),
            *binding == Binding::PromptSearchForwards ==> r == KeyAction::PromptSearch(SearchKind::FirstAfter(top_line)),
            *binding == Binding::PromptSearchBackwards ==> r == KeyAction::PromptSearch(SearchKind::FirstBefore(bottom_line)),
            *binding == Binding::PreviousMatch ==> r == KeyAction::MoveMatch(MatchMotion::Previous),
            *binding == Binding::NextMatch ==> r == KeyAction::MoveMatch(MatchMotion::Next),
            *binding == Binding::PreviousMatchLine ==> r == KeyAction::MoveMatch(MatchMotion::PreviousLine),
            *binding == Binding::NextMatchLine ==> r == KeyAction::MoveMatch(MatchMotion::NextLine),
            *binding == Binding::FirstMatch ==> r == KeyAction::MoveMatch(MatchMotion::First),
            *binding == Binding::LastMatch ==> r == KeyAction::MoveMatch(MatchMotion::Last),
            *binding is Unrecognized ==> r == KeyAction::Render,
    {
        match binding {
            Binding::Quit => KeyAction::Quit,
            Binding::Refresh => KeyAction::Refresh,
            Binding::Help => KeyAction::ShowHelp,
            Binding::Cancel => {
                self.refresh();
                KeyAction::ClearOverlay
            },
            Binding::PreviousFile => KeyAction::PreviousFile,
            Binding::NextFile => KeyAction::NextFile,
            Binding::ScrollUpLines(n) => {
                self.scroll_up(*n);
                KeyAction::Render
            },
            Binding::ScrollDownLines(n) => {
                self.scroll_down(*n);
                KeyAction::Render
            },
            Binding::ScrollUpScreenFraction(n) => {
                let rows = if *n == 0 { 0 } else { view_height / *n };
                self.scroll_up(rows);
                KeyAction::Render
            },
            Binding::ScrollDownScreenFraction(n) => {
                let rows = if *n == 0 { 0 } else { view_height / *n };
                self.scroll_down(rows);
                KeyAction::Render
            },
            Binding::ScrollToTop => {
                self.scroll_to(0);
                KeyAction::Render
            },
            Binding::ScrollToBottom => {
                self.follow_end();
                KeyAction::Render
            },
            Binding::ScrollLeftColumns(n) => {
                self.scroll_left(*n);
                KeyAction::Render
            },
            Binding::ScrollRightColumns(n) => {
                self.scroll_right(*n);
                KeyAction::Render
            },
            Binding::ScrollLeftScreenFraction(n) => {
                let columns = if *n == 0 { 0 } else { self.width / *n };
                self.scroll_left(columns);
                KeyAction::Render
            },
            Binding::ScrollRightScreenFraction(n) => {
                let columns = if *n == 0 { 0 } else { self.width / *n };
                self.scroll_right(columns);
                KeyAction::Render
            },
            Binding::ToggleLineNumbers => {
                self.line_numbers = !self.line_numbers;
                KeyAction::Refresh
            },
            Binding::ToggleLineWrapping => {
                self.wrapping = self.wrapping.next_mode();
                KeyAction::Refresh
            },
            Binding::PromptGoToLine => KeyAction::PromptGoToLine,
            Binding::PromptSearchFromStart => KeyAction::PromptSearch(SearchKind::First),
            Binding::PromptSearchForwards => KeyAction::PromptSearch(SearchKind::FirstAfter(top_line)),
            Binding::PromptSearchBackwards => KeyAction::PromptSearch(SearchKind::FirstBefore(bottom_line)),
            Binding::PreviousMatch => KeyAction::MoveMatch(MatchMotion::Previous),
            Binding::NextMatch => KeyAction::MoveMatch(MatchMotion::Next),
            Binding::PreviousMatchLine => KeyAction::MoveMatch(MatchMotion::PreviousLine),
            Binding::NextMatchLine => KeyAction::MoveMatch(MatchMotion::NextLine),
            Binding::FirstMatch => KeyAction::MoveMatch(MatchMotion::First),
            Binding::LastMatch => KeyAction::MoveMatch(MatchMotion::Last),
            Binding::Unrecognized(_) => KeyAction::Render,
        }
    }
}

/// `plan` is the plan that `plan_scroll` makes for `req`.
pub open spec fn plan_of(heights: Seq<usize>, view_height: int, req: ScrollRequest, plan: ScrollPlan) -> bool {
    &&& valid_position(heights, plan.top_line as int, plan.top_line_portion as int)
    &&& row_of(heights, plan.top_line as int, plan.top_line_portion as int) == scrolled_row(
        start_row(heights, view_height, req),
        relative_rows(heights, view_height, req),
        max_top_row(heights, view_height, req.scroll_past_eof),
    )
    &&& plan.jumped == (req.absolute is Some || (req.following_end && !anchor_near(heights, view_height, req)))
}

/// Hold an integer within the range of `isize`.
fn clamp_to_isize(v: i128) -> (r: isize)
    ensures
        r == clamp_isize(v as int),
{
    if v < isize::MIN as i128 {
        isize::MIN
    } else if v > isize::MAX as i128 {
        isize::MAX
    } else {
        v as isize
    }
}

/// An integer held within the range of `isize`.
pub open spec fn clamp_isize(x: int) -> int {
    if x < isize::MIN { isize::MIN as int } else if x > isize::MAX { isize::MAX as int } else { x }
}

/// What a render showed, to tell what the next one must redraw.
#[derive(Clone, Debug)]
pub struct RenderState {
    /// Columns on screen.
    pub width: usize,
    /// Rows on screen.
    pub height: usize,
    /// The file line at the top of the view.
    pub top_line: usize,
    /// The portion of that line at the top of the view.
    pub top_line_portion: usize,
    /// The file line after the last one in view.
    pub bottom_line: usize,
    /// The column at the left of the view.
    pub left: usize,
    /// Rows taken by the overlay.
    pub overlay_height: usize,
    /// Lines in the file.
    pub file_lines: usize,
    /// Lines searched.
    pub searched_lines: usize,
    /// Lines in the error file.
    pub error_file_lines: usize,
    /// The last line and portion of the error file shown.
    pub error_file_last_line_portion: Option<(usize, usize)>,
    /// Rows of the progress block.
    pub progress_height: usize,
    /// Rows of the error file tail.
    pub error_file_height: usize,
    /// The row of the ruler.
    pub ruler_row: Option<usize>,
    /// The row of the prompt.
    pub prompt_row: Option<usize>,
    /// The row of the error message.
    pub error_row: Option<usize>,
    /// The row of the search status.
    pub search_row: Option<usize>,
    /// The first and past-the-last row of each file line in view, from the
    /// top line on.
    pub file_line_rows: Vec<(usize, usize)>,
}

/// The rows of file line `i` in a render, if it was in view.
pub open spec fn spec_file_line_rows(r: RenderState, i: int) -> Option<(usize, usize)> {
    if r.top_line <= i < r.bottom_line && i - r.top_line < r.file_line_rows@.len() {
        Some(r.file_line_rows@[i - r.top_line])
    } else {
        None
    }
}

/// Whether `row` lies in the rows of file line `i` of a render.
pub open spec fn in_line_rows(r: RenderState, i: int, row: int) -> bool {
    match spec_file_line_rows(r, i) {
        Some((s, e)) => s <= row < e,
        None => false,
    }
}

/// The overlay and its parts fit the screen of a render.
pub open spec fn layout_fits(r: RenderState) -> bool {
    &&& r.overlay_height <= r.height
    &&& r.progress_height + r.error_file_height <= r.height
    &&& (r.ruler_row matches Some(row) ==> row < r.height)
    &&& (r.prompt_row matches Some(row) ==> row < r.height)
    &&& (r.error_row matches Some(row) ==> row < r.height)
}

/// Whether the next render must redraw `row` because of what changed from
/// the render `prev` to the one planned in `now`: the last line while the
/// file loads, lines that arrived, lines with new search matches, rows the
/// overlay no longer covers, the error file tail when it changed, and the
/// ruler, prompt and error rows when they moved.
pub open spec fn changed_row(prev: RenderState, now: RenderState, loaded: bool, matching: Seq<usize>, row: int) -> bool {
    let view = now.height - now.overlay_height;
    let prev_view = prev.height - prev.overlay_height;
    let bottom_row = now.height - now.progress_height;
    let last = if prev.file_lines > 0 { prev.file_lines - 1 } else { 0 };
    ||| !loaded && in_line_rows(now, last, row)
    ||| new_line_row(prev, now, row)
    ||| new_match_row(prev, now, matching, row)
    ||| (view > prev_view && prev_view <= row < view)
    ||| (!loaded && prev.error_file_lines > 0 && bottom_row > 0 && bottom_row - 1 <= row < bottom_row)
    ||| ((prev.error_file_lines != now.error_file_lines || prev.progress_height != now.progress_height
            || prev.error_file_last_line_portion != now.error_file_last_line_portion)
            && bottom_row - now.error_file_height <= row < bottom_row)
    ||| (now.ruler_row matches Some(r) && (prev.ruler_row != Some(r) || now.top_line != prev.top_line
            || now.bottom_line != prev.bottom_line || now.left != prev.left) && row == r)
    ||| (now.prompt_row matches Some(r) && prev.prompt_row != Some(r) && row == r)
    ||| (now.error_row matches Some(r) && prev.error_row != Some(r) && row == r)
}

impl RenderState {
    /// The rows of file line `file_line_index`, if it is in view.
    pub fn file_line_rows(&self, file_line_index: usize) -> (r: Option<(usize, usize)>)
        ensures
            r == spec_file_line_rows(*self, file_line_index as int),
    {
        if file_line_index >= self.top_line && file_line_index < self.bottom_line {
            let k = file_line_index - self.top_line;
            if k < self.file_line_rows.len() {
                Some(self.file_line_rows[k])
            } else {
                None
            }
        } else {
            None
        }
    }
}

/// Mark the rows of file line `i` of a render, if it is in view.
fn mark_line(refresh: &mut Refresh, now: &RenderState, i: usize)
    ensures
        forall|row: int| #[trigger] final(refresh).marks(row) == (old(refresh).marks(row) || in_line_rows(*now, i as int, row)),
        (*old(refresh) is All) == (*final(refresh) is All),
{
    if let Some((s, e)) = now.file_line_rows(i) {
        refresh.add_range(s, e);
    }
}

/// Whether `row` holds a line that arrived since the render `prev`.
pub open spec fn new_line_row(prev: RenderState, now: RenderState, row: int) -> bool {
    now.file_lines > prev.file_lines && exists|l: int| #![trigger in_line_rows(now, l, row)]
        l >= prev.file_lines && l >= now.top_line && l < now.file_lines && l < now.bottom_line && in_line_rows(now, l, row)
}

/// Whether `row` holds a line with matches the search found since the
/// render `prev`.
pub open spec fn new_match_row(prev: RenderState, now: RenderState, matching: Seq<usize>, row: int) -> bool {
    now.searched_lines > prev.searched_lines && exists|k: int| #![trigger matching[k]]
        0 <= k < matching.len() && matching[k] >= prev.searched_lines && matching[k] >= now.top_line
        && matching[k] < now.searched_lines && matching[k] < now.bottom_line && in_line_rows(now, matching[k] as int, row)
}

fn mark_new_lines(refresh: &mut Refresh, prev: &RenderState, now: &RenderState)
    ensures
        forall|row: int| #[trigger] final(refresh).marks(row) == (old(refresh).marks(row) || new_line_row(*prev, *now, row)),
{
    let ghost start = *refresh;
    if now.file_lines > prev.file_lines {
        let from = if prev.file_lines > now.top_line { prev.file_lines } else { now.top_line };
        let to = if now.file_lines < now.bottom_line { now.file_lines } else { now.bottom_line };
        let mut l = from;
        while l < to
            invariant
                from <= l,
                l <= to || l == from,
                now.file_lines > prev.file_lines,
                from == (if prev.file_lines > now.top_line { prev.file_lines } else { now.top_line }),
                to == (if now.file_lines < now.bottom_line { now.file_lines } else { now.bottom_line }),
                forall|row: int| #[trigger] refresh.marks(row) == (start.marks(row)
                    || exists|k: int| #![trigger in_line_rows(*now, k, row)] from <= k < l && in_line_rows(*now, k, row)),
            decreases to - l,
        {
            let ghost before = *refresh;
            mark_line(refresh, now, l);
            proof {
                assert forall|row: int| #[trigger] refresh.marks(row) == (start.marks(row)
                    || exists|k: int| #![trigger in_line_rows(*now, k, row)] from <= k < l + 1 && in_line_rows(*now, k, row)) by {
                    if in_line_rows(*now, l as int, row) {
                        assert(from <= l < l + 1);
                    }
                    if exists|k: int| #![trigger in_line_rows(*now, k, row)] from <= k < l + 1 && in_line_rows(*now, k, row) {
                        let k = choose|k: int| #![trigger in_line_rows(*now, k, row)] from <= k < l + 1 && in_line_rows(*now, k, row);
                        if k < l {
                            assert(before.marks(row));
                        }
                    }
                }
            }
            l = l + 1;
        }
        proof {
            assert forall|row: int| #[trigger] refresh.marks(row) == (start.marks(row) || new_line_row(*prev, *now, row)) by {
                if exists|k: int| #![trigger in_line_rows(*now, k, row)] from <= k < l && in_line_rows(*now, k, row) {
                    let k = choose|k: int| #![trigger in_line_rows(*now, k, row)] from <= k < l && in_line_rows(*now, k, row);
                    assert(k >= prev.file_lines && k >= now.top_line && k < now.file_lines && k < now.bottom_line && in_line_rows(*now, k, row));
                }
                if new_line_row(*prev, *now, row) {
                    let k = choose|k: int| #![trigger in_line_rows(*now, k, row)]
                        k >= prev.file_lines && k >= now.top_line && k < now.file_lines && k < now.bottom_line && in_line_rows(*now, k, row);
                    assert(from <= k < l);
                }
            }
        }
    }
}

fn mark_matching_lines(refresh: &mut Refresh, prev: &RenderState, now: &RenderState, matching: &Vec<usize>)
    ensures
        forall|row: int| #[trigger] final(refresh).marks(row) == (old(refresh).marks(row) || new_match_row(*prev, *now, matching@, row)),
{
    let ghost start = *refresh;
    if now.searched_lines > prev.searched_lines {
        let mut k: usize = 0;
        while k < matching.len()
            invariant
                k <= matching@.len(),
                now.searched_lines > prev.searched_lines,
                forall|row: int| #[trigger] refresh.marks(row) == (start.marks(row)
                    || exists|j: int| #![trigger matching@[j]] 0 <= j < k && matching@[j] >= prev.searched_lines && matching@[j] >= now.top_line
                        && matching@[j] < now.searched_lines && matching@[j] < now.bottom_line && in_line_rows(*now, matching@[j] as int, row)),
            decreases matching@.len() - k,
        {
            let line = matching[k];
            let ghost before = *refresh;
            let wanted = line >= prev.searched_lines && line >= now.top_line && line < now.searched_lines && line < now.bottom_line;
            if wanted {
                mark_line(refresh, now, line);
            }
            proof {
                assert forall|row: int| #[trigger] refresh.marks(row) == (start.marks(row)
                    || exists|j: int| #![trigger matching@[j]] 0 <= j < k + 1 && matching@[j] >= prev.searched_lines && matching@[j] >= now.top_line
                        && matching@[j] < now.searched_lines && matching@[j] < now.bottom_line && in_line_rows(*now, matching@[j] as int, row)) by {
                    if wanted && in_line_rows(*now, line as int, row) {
                        assert(matching@[k as int] == line);
                    }
                    if exists|j: int| #![trigger matching@[j]] 0 <= j < k + 1 && matching@[j] >= prev.searched_lines && matching@[j] >= now.top_line
                        && matching@[j] < now.searched_lines && matching@[j] < now.bottom_line && in_line_rows(*now, matching@[j] as int, row) {
                        let j = choose|j: int| #![trigger matching@[j]] 0 <= j < k + 1 && matching@[j] >= prev.searched_lines && matching@[j] >= now.top_line
                            && matching@[j] < now.searched_lines && matching@[j] < now.bottom_line && in_line_rows(*now, matching@[j] as int, row);
                        if j < k {
                            assert(before.marks(row));
                        }
                    }
                }
            }
            k = k + 1;
        }
    }
}

/// Mark the rows the next render must redraw because of what changed since
/// the last one.  `matching` lists the lines with search matches.
pub fn add_changed_rows(refresh: &mut Refresh, prev: &RenderState, now: &RenderState, loaded: bool, matching: &Vec<usize>)
    requires
        layout_fits(*prev),
        layout_fits(*now),
    ensures
        forall|row: int| #[trigger] final(refresh).marks(row) == (old(refresh).marks(row) || changed_row(*prev, *now, loaded, matching@, row)),
{
    let ghost start = *refresh;
    if !loaded {
        let last = if prev.file_lines > 0 { prev.file_lines - 1 } else { 0 };
        mark_line(refresh, now, last);
    }
    let ghost after_last = *refresh;
    mark_new_lines(refresh, prev, now);
    let ghost after_growth = *refresh;
    mark_matching_lines(refresh, prev, now, matching);
    let ghost after_search = *refresh;
    let view = now.height - now.overlay_height;
    let prev_view = prev.height - prev.overlay_height;
    if view > prev_view {
        refresh.add_range(prev_view, view);
    }
    let ghost after_overlay = *refresh;
    let bottom_row = now.height - now.progress_height;
    if !loaded && prev.error_file_lines > 0 && bottom_row > 0 {
        refresh.add_range(bottom_row - 1, bottom_row);
    }
    let ghost after_loading_tail = *refresh;
    if prev.error_file_lines != now.error_file_lines || prev.progress_height != now.progress_height
        || prev.error_file_last_line_portion != now.error_file_last_line_portion {
        refresh.add_range(bottom_row - now.error_file_height, bottom_row);
    }
    let ghost after_tail = *refresh;
    if let Some(r) = now.ruler_row {
        if prev.ruler_row != Some(r) || now.top_line != prev.top_line || now.bottom_line != prev.bottom_line || now.left != prev.left {
            refresh.add_range(r, r + 1);
        }
    }
    let ghost after_ruler = *refresh;
    if let Some(r) = now.prompt_row {
        if prev.prompt_row != Some(r) {
            refresh.add_range(r, r + 1);
        }
    }
    let ghost after_prompt = *refresh;
    if let Some(r) = now.error_row {
        if prev.error_row != Some(r) {
            refresh.add_range(r, r + 1);
        }
    }
    proof {
        assert forall|row: int| #[trigger] refresh.marks(row) == (start.marks(row) || changed_row(*prev, *now, loaded, matching@, row)) by {
            let last = if prev.file_lines > 0 { prev.file_lines - 1 } else { 0 };
            assert(after_last.marks(row) == (start.marks(row) || (!loaded && in_line_rows(*now, last as int, row))));
            assert(after_growth.marks(row) == (after_last.marks(row) || new_line_row(*prev, *now, row)));
            assert(after_search.marks(row) == (after_growth.marks(row) || new_match_row(*prev, *now, matching@, row)));
            assert(after_overlay.marks(row) == (after_search.marks(row) || (view > prev_view && prev_view <= row < view)));
            assert(after_loading_tail.marks(row) == (after_overlay.marks(row)
                || (!loaded && prev.error_file_lines > 0 && bottom_row > 0 && bottom_row - 1 <= row < bottom_row)));
            assert(after_tail.marks(row) == (after_loading_tail.marks(row) || ((prev.error_file_lines != now.error_file_lines
                || prev.progress_height != now.progress_height || prev.error_file_last_line_portion != now.error_file_last_line_portion)
                && bottom_row - now.error_file_height <= row < bottom_row)));
            assert(after_ruler.marks(row) == (after_tail.marks(row) || (now.ruler_row matches Some(r) && (prev.ruler_row != Some(r)
                || now.top_line != prev.top_line || now.bottom_line != prev.bottom_line || now.left != prev.left) && row == r)));
            assert(after_prompt.marks(row) == (after_ruler.marks(row) || (now.prompt_row matches Some(r) && prev.prompt_row != Some(r) && row == r)));
            assert(refresh.marks(row) == (after_prompt.marks(row) || (now.error_row matches Some(r) && prev.error_row != Some(r) && row == r)));

        }
    }
}

/// Whether the terminal can move the rows of the file view by a scroll
/// region after a relative scroll: the view is not redrawn whole anyway and
/// the scroll moved by less than a view.  Gives the direction and the rows.
pub fn plan_region(plan: &ScrollPlan, view_height: usize, refresh_all: bool) -> (r: Option<(ScrollDirection, usize)>)
    ensures
        r is Some <==> (!refresh_all && 0 < plan.distance < view_height && !(plan.direction is Still)),
        r is Some ==> r == Some((plan.direction, plan.distance)),
{
    if !refresh_all && plan.distance > 0 && plan.distance < view_height && plan.direction != ScrollDirection::Still {
        Some((plan.direction, plan.distance))
    } else {
        None
    }
}

/// Mark what a relative scroll leaves to redraw in a file view of
/// `view_height` rows.  When a scroll region moves the rows, the marks move
/// with them and the rows it uncovers are marked; else a scroll redraws the
/// whole view.  Returns the scroll region to emit, if any.
pub fn scroll_refresh(refresh: &mut Refresh, plan: &ScrollPlan, view_height: usize) -> (r: Option<(ScrollDirection, usize)>)
    ensures
        r is Some <==> (!(*old(refresh) is All) && 0 < plan.distance < view_height && !(plan.direction is Still)),
        r is Some ==> r == Some((plan.direction, plan.distance)),
        r == Some((ScrollDirection::Up, plan.distance)) ==> !(*old(refresh) is All) && forall|row: int| #[trigger] final(refresh).marks(row)
            == rotated_down(old(refresh).marked(), 0, view_height as int, plan.distance as int, true, row),
        r == Some((ScrollDirection::Down, plan.distance)) ==> !(*old(refresh) is All) && forall|row: int| #[trigger] final(refresh).marks(row)
            == rotated_up(old(refresh).marked(), 0, view_height as int, plan.distance as int, true, row),
        r is None && plan.distance > 0 ==> forall|row: int| #[trigger] final(refresh).marks(row) == (old(refresh).marks(row) || 0 <= row < view_height),
        r is None && plan.distance == 0 ==> *final(refresh) == *old(refresh),
{
    let region = plan_region(plan, view_height, refresh.is_all());
    match region {
        Some((ScrollDirection::Up, k)) => refresh.rotate_range_down(0, view_height, k, true),
        Some((ScrollDirection::Down, k)) => refresh.rotate_range_up(0, view_height, k, true),
        _ => {
            if plan.distance > 0 {
                refresh.add_range(0, view_height);
            }
        },
    }
    region
}

/// The spaces `n` columns wide.
pub open spec fn blanks(n: int) -> Seq<char> {
    Seq::new(if n > 0 { n as nat } else { 0 }, |i: int| ' ')
}

/// The line number gutter of a row: the 1-based number of the line
/// right-aligned in `lw` columns between spaces on its first row, blanks on
/// its other rows.
pub open spec fn gutter_text(line_index: nat, lw: int, portion: nat) -> Seq<char> {
    if portion == 0 {
        seq![' '] + blanks(lw - decimal(line_index + 1).len()) + decimal(line_index + 1) + seq![' ']
    } else {
        blanks(lw + 2)
    }
}

/// How a row that shows a portion of a file line is drawn.
pub struct LineRowPlan {
    /// The line number gutter, when line numbers are shown and fit.
    pub gutter: Option<String>,
    /// The first column of the line to show.
    pub start: usize,
    /// The column after the last one to show.
    pub end: usize,
}

fn blank_string(n: usize) -> (r: String)
    ensures
        r@ == blanks(n as int),
{
    let mut out = String::new();
    let mut i: usize = 0;
    while i < n
        invariant
            i <= n,
            out@ == blanks(i as int),
        decreases n - i,
    {
        crate::text::push_char(&mut out, ' ');
        i = i + 1;
        proof {
            assert(out@ =~= blanks(i as int));
        }
    }
    out
}

/// Plan a row that shows portion `portion` of file line `line_index` in a
/// view `width` columns wide: with line numbers on, a gutter as wide as the
/// largest line number plus two takes the left of the row when it fits;
/// the rest shows the line from column `left` when unwrapped, or the
/// portion's share of the line when wrapped.
pub fn plan_line_row(line_index: usize, portion: usize, left: usize, width: usize, wrapped: bool,
    line_numbers: bool, file_lines: usize) -> (r: LineRowPlan)
    requires
        line_index < usize::MAX,
        left + width <= usize::MAX,
        (portion + 1) * width <= usize::MAX,
    ensures
        ({
            let lw = decimal(file_lines as nat).len() as int;
            let gutter = line_numbers && lw + 2 < width;
            let text_width = if gutter { width - (lw + 2) } else { width as int };
            &&& gutter == r.gutter is Some
            &&& gutter ==> r.gutter->0@ == gutter_text(line_index as nat, lw, portion as nat)
            &&& wrapped ==> r.start == portion * text_width && r.end == r.start + text_width
            &&& !wrapped ==> r.start == left && r.end == left + text_width
        }),
{
    let lw = crate::ruler::number_width(file_lines);
    let gutter = line_numbers && lw < width && width - lw > 2;
    let text_width = if gutter { width - (lw + 2) } else { width };
    let g = if gutter {
        if portion == 0 {
            proof {
                reveal_strlit(" ");
                assert(" "@ =~= seq![' ']);
            }
            let digits = crate::ruler::number_width(line_index + 1);
            let mut out = String::from_str(" ");
            out.append(blank_string(if lw > digits { lw - digits } else { 0 }).as_str());
            out.append(crate::ruler::decimal_string(line_index + 1).as_str());
            out.append(" ");
            proof {
                assert(blanks((if lw > digits { lw - digits } else { 0 }) as int) == blanks(lw - digits));
            }
            Some(out)
        } else {
            Some(blank_string(lw + 2))
        }
    } else {
        None
    };
    proof {
        assert(portion * text_width <= (portion + 1) * width) by (nonlinear_arith)
            requires text_width <= width;
        assert((portion + 1) * width == portion * width + width) by (nonlinear_arith);
        assert(portion * text_width <= portion * width) by (nonlinear_arith)
            requires text_width <= width;
    }
    let (start, end) = if wrapped {
        (portion * text_width, portion * text_width + text_width)
    } else {
        (left, left + text_width)
    };
    LineRowPlan { gutter: g, start, end }
}

/// `after` is `before` resized to `width` by `height`, as `resize` leaves it.
pub open spec fn resized(before: Viewport, after: Viewport, width: usize, height: usize) -> bool {
    &&& after.width == width
    &&& after.height == height
    &&& after.top_line == before.top_line
    &&& after.top_line_portion == before.top_line_portion
    &&& after.left == before.left
    &&& after.wrapping == before.wrapping
    &&& after.line_numbers == before.line_numbers
    &&& after.following_end == before.following_end
    &&& after.pending_absolute_scroll == before.pending_absolute_scroll
    &&& after.pending_relative_scroll == before.pending_relative_scroll
}

/// Resizing to a new size and back again leaves the view where it was,
/// with the same requests, so the next render plans the same rows.
pub proof fn lemma_resize_round_trip(a: Viewport, b: Viewport, c: Viewport, width: usize, height: usize)
    requires
        resized(a, b, width, height),
        resized(b, c, a.width, a.height),
    ensures
        c.width == a.width && c.height == a.height,
        c.top_line == a.top_line && c.top_line_portion == a.top_line_portion && c.left == a.left,
        c.wrapping == a.wrapping && c.line_numbers == a.line_numbers && c.following_end == a.following_end,
        c.pending_absolute_scroll == a.pending_absolute_scroll && c.pending_relative_scroll == a.pending_relative_scroll,
{
}

/// A plan never puts the top of the view past the end anchor, unless
/// scrolling past the end is allowed or the view was already past it.
pub proof fn lemma_scroll_stays_above_anchor(heights: Seq<usize>, view_height: int, req: ScrollRequest, plan_row: int)
    requires
        !req.scroll_past_eof,
        plan_row == scrolled_row(start_row(heights, view_height, req), relative_rows(heights, view_height, req), max_top_row(heights, view_height, false)),
        start_row(heights, view_height, req) <= end_anchor_row(heights, view_height),
    ensures
        plan_row <= end_anchor_row(heights, view_height),
{
}

} // verus!
