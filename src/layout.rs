//! Pane rectangles and the tiling they must form.
//!
//! A layout of `vc` by `vr` cells is tiled when the pane interiors and the
//! one-cell borders between them cover it exactly. Extending each pane by its
//! border column on the right and its border row below turns this into an
//! exact cover of `(vc + 1) x (vr + 1)` by the extended rectangles: they lie
//! inside it, do not overlap, and their areas add up to its area.

use vstd::prelude::*;

verus! {

/// A pane's place: top-left cell and interior size.
#[derive(Clone, Copy, Debug, PartialEq, Eq, Structural)]
pub struct Rect {
    pub x: i64,
    pub y: i64,
    pub cols: i64,
    pub rows: i64,
}

/// The extended rectangles of `a` and `b` do not overlap.
pub open spec fn ext_disjoint(a: Rect, b: Rect) -> bool {
    a.x + a.cols + 1 <= b.x || b.x + b.cols + 1 <= a.x || a.y + a.rows + 1 <= b.y || b.y + b.rows + 1 <= a.y
}

/// `r` has an interior of at least one cell and lies inside the viewport.
pub open spec fn inside(r: Rect, vc: int, vr: int) -> bool {
    &&& 0 <= r.x
    &&& 0 <= r.y
    &&& 1 <= r.cols
    &&& 1 <= r.rows
    &&& r.x + r.cols <= vc
    &&& r.y + r.rows <= vr
}

pub open spec fn ext_area(r: Rect) -> int {
    (r.cols + 1) * (r.rows + 1)
}

/// The extended areas of the first `n` rectangles.
pub open spec fn area_sum(rs: Seq<Rect>, n: int) -> int
    decreases n,
{
    if n <= 0 { 0 } else { area_sum(rs, n - 1) + ext_area(rs[n - 1]) }
}

/// The interior cells of all rectangles.
pub open spec fn interior_sum(rs: Seq<Rect>, n: int) -> int
    decreases n,
{
    if n <= 0 { 0 } else { interior_sum(rs, n - 1) + rs[n - 1].cols * rs[n - 1].rows }
}

pub open spec fn all_inside(rs: Seq<Rect>, vc: int, vr: int) -> bool {
    forall|i: int| 0 <= i < rs.len() ==> inside(#[trigger] rs[i], vc, vr)
}

pub open spec fn pairwise_disjoint(rs: Seq<Rect>) -> bool {
    forall|i: int, j: int| 0 <= i < j < rs.len() ==> ext_disjoint(#[trigger] rs[i], #[trigger] rs[j])
}

/// Pane interiors and single-cell borders cover the `vc` by `vr` viewport
/// exactly: no two panes overlap or touch without a border, every pane has
/// an interior, and no cell is left over.
pub open spec fn tiles(rs: Seq<Rect>, vc: int, vr: int) -> bool {
    &&& all_inside(rs, vc, vr)
    &&& pairwise_disjoint(rs)
    &&& area_sum(rs, rs.len() as int) == (vc + 1) * (vr + 1)
}

/// Each field of each rectangle lies within `-b..=b`.
pub open spec fn bounded(rs: Seq<Rect>, b: int) -> bool {
    forall|i: int| 0 <= i < rs.len() ==> fields_within(#[trigger] rs[i], b)
}

pub open spec fn fields_within(r: Rect, b: int) -> bool {
    &&& -b <= r.x <= b
    &&& -b <= r.y <= b
    &&& -b <= r.cols <= b
    &&& -b <= r.rows <= b
}

pub proof fn lemma_area_sum_monotone(rs: Seq<Rect>, k: int, n: int)
    requires
        0 <= k <= n <= rs.len(),
        forall|i: int| 0 <= i < rs.len() ==> ext_area(#[trigger] rs[i]) >= 0,
    ensures
        area_sum(rs, k) <= area_sum(rs, n),
    decreases n - k,
{
    if k < n {
        lemma_area_sum_monotone(rs, k, n - 1);
    }
}

/// Whether `rs` tiles the `vc` by `vr` viewport.
pub fn tiles_exec(rs: &Vec<Rect>, vc: i64, vr: i64) -> (r: bool)
    requires
        1 <= vc <= 65535,
        1 <= vr <= 65535,
    ensures
        r == tiles(rs@, vc as int, vr as int),
{
    let n = rs.len();
    let mut i: usize = 0;
    while i < n
        invariant
            n == rs@.len(),
            i <= n,
            1 <= vc <= 65535,
            1 <= vr <= 65535,
            forall|k: int| 0 <= k < i ==> inside(#[trigger] rs@[k], vc as int, vr as int),
        decreases n - i,
    {
        let r = rs[i];
        if !(0 <= r.x && 0 <= r.y && 1 <= r.cols && 1 <= r.rows && r.x <= vc - r.cols && r.y <= vr - r.rows) {
            return false;
        }
        i = i + 1;
    }
    let mut i: usize = 0;
    while i < n
        invariant
            n == rs@.len(),
            i <= n,
            1 <= vc <= 65535,
            1 <= vr <= 65535,
            all_inside(rs@, vc as int, vr as int),
            forall|a: int, b: int| 0 <= a < i && a < b < n ==> ext_disjoint(#[trigger] rs@[a], #[trigger] rs@[b]),
        decreases n - i,
    {
        let mut j: usize = i + 1;
        while j < n
            invariant
                n == rs@.len(),
                i < n,
                i + 1 <= j <= n,
                1 <= vc <= 65535,
                1 <= vr <= 65535,
                all_inside(rs@, vc as int, vr as int),
                forall|a: int, b: int| 0 <= a < i && a < b < n ==> ext_disjoint(#[trigger] rs@[a], #[trigger] rs@[b]),
                forall|b: int| i < b < j ==> ext_disjoint(rs@[i as int], #[trigger] rs@[b]),
            decreases n - j,
        {
            let a = rs[i];
            let b = rs[j];
            assert(inside(rs@[i as int], vc as int, vr as int));
            assert(inside(rs@[j as int], vc as int, vr as int));
            if !(a.x + a.cols + 1 <= b.x || b.x + b.cols + 1 <= a.x || a.y + a.rows + 1 <= b.y || b.y + b.rows + 1 <= a.y) {
                return false;
            }
            j = j + 1;
        }
        i = i + 1;
    }
    assert(0 <= (vc + 1) * (vr + 1) <= 65536 * 65536) by (nonlinear_arith)
        requires
            1 <= vc <= 65535,
            1 <= vr <= 65535,
    ;
    let total: i64 = (vc + 1) * (vr + 1);
    assert(total == (vc + 1) * (vr + 1));
    let mut sum: i64 = 0;
    let mut i: usize = 0;
    while i < n
        invariant
            n == rs@.len(),
            i <= n,
            1 <= vc <= 65535,
            1 <= vr <= 65535,
            total == (vc + 1) * (vr + 1),
            all_inside(rs@, vc as int, vr as int),
            pairwise_disjoint(rs@),
            sum == area_sum(rs@, i as int),
            0 <= sum <= total,
        decreases n - i,
    {
        let r = rs[i];
        assert(inside(rs@[i as int], vc as int, vr as int));
        assert(0 <= (r.cols + 1) * (r.rows + 1) <= total) by (nonlinear_arith)
            requires
                1 <= r.cols <= vc,
                1 <= r.rows <= vr,
                total == (vc + 1) * (vr + 1),
        ;
        let a: i64 = (r.cols + 1) * (r.rows + 1);
        if a > total - sum {
            proof {
                assert forall|k: int| 0 <= k < rs@.len() implies ext_area(#[trigger] rs@[k]) >= 0 by {
                    assert(inside(rs@[k], vc as int, vr as int));
                    assert(ext_area(rs@[k]) >= 0) by (nonlinear_arith)
                        requires
                            rs@[k].cols >= 1,
                            rs@[k].rows >= 1,
                            ext_area(rs@[k]) == (rs@[k].cols + 1) * (rs@[k].rows + 1),
                    ;
                }
                lemma_area_sum_monotone(rs@, i + 1, n as int);
            }
            return false;
        }
        sum = sum + a;
        i = i + 1;
    }
    sum == total
}


/// A view of the layout in which one direction becomes "right": mirrored
/// frames swap left and right, transposed frames swap rows and columns.
#[derive(Clone, Copy, Debug, PartialEq, Eq, Structural)]
pub enum Frame {
    Identity,
    Mirror,
    Transpose,
    TransposeMirror,
}

pub open spec fn is_transposed(f: Frame) -> bool {
    f == Frame::Transpose || f == Frame::TransposeMirror
}

pub open spec fn is_mirrored(f: Frame) -> bool {
    f == Frame::Mirror || f == Frame::TransposeMirror
}

/// The viewport width seen in frame `f`.
pub open spec fn frame_width(f: Frame, vc: int, vr: int) -> int {
    if is_transposed(f) { vr } else { vc }
}

/// The viewport height seen in frame `f`.
pub open spec fn frame_height(f: Frame, vc: int, vr: int) -> int {
    if is_transposed(f) { vc } else { vr }
}

pub open spec fn transpose(r: Rect) -> Rect {
    Rect { x: r.y, y: r.x, cols: r.rows, rows: r.cols }
}

pub open spec fn mirror(r: Rect, width: int) -> Rect {
    Rect { x: (width - r.x - r.cols) as i64, ..r }
}

/// `r` seen in frame `f`.
pub open spec fn to_frame(r: Rect, f: Frame, vc: int, vr: int) -> Rect {
    let t = if is_transposed(f) { transpose(r) } else { r };
    if is_mirrored(f) { mirror(t, frame_width(f, vc, vr)) } else { t }
}

/// `r`, seen in frame `f`, brought back to the viewport.
pub open spec fn from_frame(r: Rect, f: Frame, vc: int, vr: int) -> Rect {
    let t = if is_mirrored(f) { mirror(r, frame_width(f, vc, vr)) } else { r };
    if is_transposed(f) { transpose(t) } else { t }
}

/// `r` stretched sideways to span `p` as well.
pub open spec fn widened(r: Rect, p: Rect) -> Rect {
    let left = if r.x <= p.x { r.x } else { p.x };
    let right = if r.x + r.cols >= p.x + p.cols { r.x + r.cols } else { p.x + p.cols };
    Rect { x: left, cols: (right - left) as i64, ..r }
}

/// `r` stretched up or down to span `p` as well.
pub open spec fn heightened(r: Rect, p: Rect) -> Rect {
    let top = if r.y <= p.y { r.y } else { p.y };
    let bottom = if r.y + r.rows >= p.y + p.rows { r.y + r.rows } else { p.y + p.rows };
    Rect { y: top, rows: (bottom - top) as i64, ..r }
}

/// A pane at `a` that is at `b` once pane `p` has closed kept its place or
/// took over `p`'s cells beside or above or below it.
pub open spec fn kept_or_absorbed(a: Rect, b: Rect, p: Rect) -> bool {
    b == a || b == widened(a, p) || b == heightened(a, p)
}

/// What `absorb_from_left` does to a rectangle in frame `f`, seen outside
/// the frame: it keeps its place or takes over the closed rectangle `p`.
pub proof fn lemma_absorbed_in_frame(a: Rect, p: Rect, out: Rect, f: Frame, vc: int, vr: int)
    requires
        inside(a, vc, vr),
        inside(p, vc, vr),
        1 <= vc <= 65535,
        1 <= vr <= 65535,
        ({
            let fa = to_frame(a, f, vc, vr);
            let fp = to_frame(p, f, vc, vr);
            out == if left_within(fa, fp) {
                Rect { cols: (fa.cols + fp.cols + 1) as i64, ..fa }
            } else {
                fa
            }
        }),
    ensures
        kept_or_absorbed(a, from_frame(out, f, vc, vr), p),
{
    lemma_frame_round_trip(a, f, vc, vr);
    match f {
        Frame::Identity => {},
        Frame::Mirror => {},
        Frame::Transpose => {},
        Frame::TransposeMirror => {},
    }
}

/// Closing rectangle `k` through frame `f`: `out` is `absorb_from_left`'s
/// result on the framed rectangles, `back` brings it out of the frame and
/// `cand` drops `k`. Each rectangle of `cand` kept its place or took over
/// rectangle `k`.
pub proof fn lemma_close_candidate(
    g: Seq<Rect>,
    t: Seq<Rect>,
    out: Seq<Rect>,
    back: Seq<Rect>,
    cand: Seq<Rect>,
    k: int,
    f: Frame,
    vc: int,
    vr: int,
)
    requires
        tiles(g, vc, vr),
        1 <= vc <= 65535,
        1 <= vr <= 65535,
        0 <= k < g.len(),
        t.len() == g.len(),
        out.len() == g.len(),
        back.len() == g.len(),
        forall|j: int| 0 <= j < g.len() ==> #[trigger] t[j] == to_frame(g[j], f, vc, vr),
        forall|j: int| 0 <= j < g.len() ==> #[trigger] out[j] == if in_left_strip(t, k, j) {
            Rect { cols: (t[j].cols + t[k].cols + 1) as i64, ..t[j] }
        } else {
            t[j]
        },
        forall|j: int| 0 <= j < g.len() ==> #[trigger] back[j] == from_frame(out[j], f, vc, vr),
        cand == back.remove(k),
    ensures
        forall|m: int| 0 <= m < cand.len() ==> kept_or_absorbed(
            g[if m < k { m } else { m + 1 }],
            #[trigger] cand[m],
            g[k],
        ),
{
    assert forall|m: int| 0 <= m < cand.len() implies kept_or_absorbed(
        g[if m < k { m } else { m + 1 }], #[trigger] cand[m], g[k]) by {
        let j = if m < k { m } else { m + 1 };
        assert(cand[m] == back[j]);
        assert(inside(g[j], vc, vr));
        assert(inside(g[k], vc, vr));
        assert(t[j] == to_frame(g[j], f, vc, vr));
        assert(t[k] == to_frame(g[k], f, vc, vr));
        lemma_absorbed_in_frame(g[j], g[k], out[j], f, vc, vr);
    }
}

/// Every rectangle of `rs` seen in frame `f`.
pub open spec fn framed(rs: Seq<Rect>, f: Frame, vc: int, vr: int) -> Seq<Rect> {
    rs.map_values(|r: Rect| to_frame(r, f, vc, vr))
}

/// Moving into a frame and back gives the rectangle back.
pub proof fn lemma_frame_round_trip(r: Rect, f: Frame, vc: int, vr: int)
    requires
        -0x100000 <= r.x <= 0x100000,
        -0x100000 <= r.y <= 0x100000,
        -0x100000 <= r.cols <= 0x100000,
        -0x100000 <= r.rows <= 0x100000,
        0 <= vc <= 65535,
        0 <= vr <= 65535,
    ensures
        from_frame(to_frame(r, f, vc, vr), f, vc, vr) == r,
{
}

/// Fields within `b` stay within `2 * b + 65535` in or out of any frame.
pub proof fn lemma_frame_bounds(r: Rect, f: Frame, vc: int, vr: int, b: int)
    requires
        -b <= r.x <= b,
        -b <= r.y <= b,
        -b <= r.cols <= b,
        -b <= r.rows <= b,
        0 <= b <= 0x100000,
        0 <= vc <= 65535,
        0 <= vr <= 65535,
    ensures
        -(2 * b + 65535) <= to_frame(r, f, vc, vr).x <= 2 * b + 65535,
        -b <= to_frame(r, f, vc, vr).y <= b,
        -b <= to_frame(r, f, vc, vr).cols <= b,
        -b <= to_frame(r, f, vc, vr).rows <= b,
        -(2 * b + 65535) <= from_frame(r, f, vc, vr).x <= 2 * b + 65535,
        -(2 * b + 65535) <= from_frame(r, f, vc, vr).y <= 2 * b + 65535,
        -b <= from_frame(r, f, vc, vr).cols <= b,
        -b <= from_frame(r, f, vc, vr).rows <= b,
{
}

/// Applies `to_frame` (or, with `back`, `from_frame`) to every rectangle.
pub fn reframe(rs: &Vec<Rect>, f: Frame, vc: i64, vr: i64, back: bool) -> (out: Vec<Rect>)
    requires
        0 <= vc <= 65535,
        0 <= vr <= 65535,
        bounded(rs@, 0x100000),
    ensures
        out@.len() == rs@.len(),
        bounded(out@, 0x300000),
        forall|i: int| 0 <= i < rs@.len() ==> #[trigger] out@[i] == if back {
            from_frame(rs@[i], f, vc as int, vr as int)
        } else {
            to_frame(rs@[i], f, vc as int, vr as int)
        },
{
    let transposed = f == Frame::Transpose || f == Frame::TransposeMirror;
    let mirrored = f == Frame::Mirror || f == Frame::TransposeMirror;
    let width = if transposed { vr } else { vc };
    let mut out: Vec<Rect> = Vec::new();
    let mut i: usize = 0;
    while i < rs.len()
        invariant
            0 <= vc <= 65535,
            0 <= vr <= 65535,
            transposed == is_transposed(f),
            mirrored == is_mirrored(f),
            width == frame_width(f, vc as int, vr as int),
            bounded(rs@, 0x100000),
            i <= rs@.len(),
            out@.len() == i,
            bounded(out@, 0x300000),
            forall|k: int| 0 <= k < i ==> #[trigger] out@[k] == if back {
                from_frame(rs@[k], f, vc as int, vr as int)
            } else {
                to_frame(rs@[k], f, vc as int, vr as int)
            },
        decreases rs@.len() - i,
    {
        let r = rs[i];
        assert(fields_within(rs@[i as int], 0x100000));
        let t = if back {
            let m = if mirrored { Rect { x: width - r.x - r.cols, ..r } } else { r };
            if transposed { Rect { x: m.y, y: m.x, cols: m.rows, rows: m.cols } } else { m }
        } else {
            let m = if transposed { Rect { x: r.y, y: r.x, cols: r.rows, rows: r.cols } } else { r };
            if mirrored { Rect { x: width - m.x - m.cols, ..m } } else { m }
        };
        assert(fields_within(t, 0x300000));
        out.push(t);
        assert(out@[i as int] == t);
        i = i + 1;
    }
    out
}

pub proof fn lemma_push_contains<T>(s: Seq<T>, x: T, y: T)
    ensures
        s.push(x).contains(y) <==> (s.contains(y) || y == x),
{
    if s.contains(y) {
        let k = choose|k: int| 0 <= k < s.len() && s[k] == y;
        assert(s.push(x)[k] == y);
    }
    if y == x {
        assert(s.push(x)[s.len() as int] == y);
    }
    if s.push(x).contains(y) {
        let k = choose|k: int| 0 <= k < s.len() + 1 && s.push(x)[k] == y;
        if k < s.len() {
            assert(s[k] == y);
        }
    }
}

/// Indices of the rectangles whose right edge lies one border column left of
/// rectangle `i`.
pub fn directly_left_of(rs: &Vec<Rect>, i: usize) -> (r: Vec<usize>)
    requires
        i < rs@.len(),
        bounded(rs@, 0x300000),
    ensures
        forall|k: int| 0 <= k < r@.len() ==> #[trigger] r@[k] < rs@.len(),
        forall|j: int| 0 <= j < rs@.len() ==> (r@.contains(j as usize) <==> rs@[j].x + rs@[j].cols + 1 == rs@[i as int].x),
{
    let p = rs[i];
    let mut r: Vec<usize> = Vec::new();
    let mut j: usize = 0;
    while j < rs.len()
        invariant
            j <= rs@.len(),
            p == rs@[i as int],
            bounded(rs@, 0x300000),
            forall|k: int| 0 <= k < r@.len() ==> #[trigger] r@[k] < j,
            forall|m: int| 0 <= m < rs@.len() ==> (r@.contains(m as usize) <==> (m < j && rs@[m].x + rs@[m].cols + 1 == p.x)),
        decreases rs@.len() - j,
    {
        let q = rs[j];
        let ghost prev = r@;
        if q.x + q.cols + 1 == p.x {
            r.push(j);
        }
        proof {
            assert forall|m: int| 0 <= m < rs@.len() implies (r@.contains(m as usize) <==> (m < j + 1 && rs@[m].x + rs@[m].cols + 1 == p.x)) by {
                lemma_push_contains(prev, j, m as usize);
            }
        }
        j = j + 1;
    }
    r
}


/// A vector of `n` copies of `false`.
fn no_flags(n: usize) -> (r: Vec<bool>)
    ensures
        r@.len() == n,
        forall|k: int| 0 <= k < n ==> !#[trigger] r@[k],
{
    let mut r: Vec<bool> = Vec::new();
    let mut k: usize = 0;
    while k < n
        invariant
            k <= n,
            r@.len() == k,
            forall|m: int| 0 <= m < k ==> !#[trigger] r@[m],
        decreases n - k,
    {
        r.push(false);
        k = k + 1;
    }
    r
}

/// The first rectangle from index `j` on whose right edge is aligned with
/// that of rectangle `i` and which lies directly above (`upward`) or below
/// `last`; `rs.len()` when there is none.
pub open spec fn aligned_next(rs: Seq<Rect>, i: int, upward: bool, last: Rect, j: int) -> int
    decreases rs.len() - j,
{
    if j >= rs.len() {
        rs.len() as int
    } else if j != i && rs[j].x + rs[j].cols == rs[i].x + rs[i].cols && (if upward {
        rs[j].y + rs[j].rows + 1 == last.y
    } else {
        rs[j].y == last.y + last.rows + 1
    }) {
        j
    } else {
        aligned_next(rs, i, upward, last, j + 1)
    }
}

/// The strip of rectangles aligned with rectangle `i` on the right, walked
/// from `last` upward (or downward), each directly next to the one before,
/// at most `fuel` of them.
pub open spec fn strip_walk(rs: Seq<Rect>, i: int, upward: bool, last: Rect, fuel: nat) -> Seq<int>
    decreases fuel,
{
    if fuel == 0 {
        Seq::empty()
    } else {
        let j = aligned_next(rs, i, upward, last, 0);
        if j >= rs.len() {
            Seq::empty()
        } else {
            seq![j] + strip_walk(rs, i, upward, rs[j], (fuel - 1) as nat)
        }
    }
}

pub open spec fn up_strip(rs: Seq<Rect>, i: int) -> Seq<int> {
    strip_walk(rs, i, true, rs[i], rs.len() as nat)
}

pub open spec fn down_strip(rs: Seq<Rect>, i: int) -> Seq<int> {
    strip_walk(rs, i, false, rs[i], rs.len() as nat)
}

/// Among the first `m` rectangles, one lies directly right of rectangle `i`
/// with its top edge at row `v`: the neighbours on the right have a border
/// there.
pub open spec fn right_border_row(rs: Seq<Rect>, i: int, v: int, m: int) -> bool
    decreases m,
{
    if m <= 0 {
        false
    } else {
        (rs[m - 1].x == rs[i].x + rs[i].cols + 1 && rs[m - 1].y == v) || right_border_row(rs, i, v, m - 1)
    }
}

/// The highest row, under the first `m` rectangles of the upward strip, at
/// which the neighbours on the right have a border.
pub open spec fn top_fold(rs: Seq<Rect>, i: int, up: Seq<int>, m: int) -> int
    decreases m,
{
    if m <= 0 {
        0
    } else {
        let t = top_fold(rs, i, up, m - 1);
        let b = rs[up[m - 1]].y + rs[up[m - 1]].rows;
        if right_border_row(rs, i, b + 1, rs.len() as int) && t < b { b + 1 } else { t }
    }
}

/// The lowest such row over the first `m` rectangles of the downward strip.
pub open spec fn bottom_fold(rs: Seq<Rect>, i: int, down: Seq<int>, m: int, height: int) -> int
    decreases m,
{
    if m <= 0 {
        height
    } else {
        let t = bottom_fold(rs, i, down, m - 1, height);
        let y = rs[down[m - 1]].y as int;
        if right_border_row(rs, i, y, rs.len() as int) && y < t { y } else { t }
    }
}

/// Rectangle `j` is one of the first `m` of `strip` and passes `keep`.
pub open spec fn kept_in(strip: Seq<int>, m: int, j: int, keep: spec_fn(int) -> bool) -> bool
    decreases m,
{
    if m <= 0 { false } else { (strip[m - 1] == j && keep(j)) || kept_in(strip, m - 1, j, keep) }
}

/// Some of the first `m` rectangles of `strip` passes `keep`.
pub open spec fn any_kept(strip: Seq<int>, m: int, keep: spec_fn(int) -> bool) -> bool
    decreases m,
{
    if m <= 0 { false } else { keep(strip[m - 1]) || any_kept(strip, m - 1, keep) }
}

pub open spec fn top_cut(rs: Seq<Rect>, i: int) -> int {
    let up = up_strip(rs, i);
    top_fold(rs, i, up, up.len() as int)
}

pub open spec fn bottom_cut(rs: Seq<Rect>, i: int, height: int) -> int {
    let down = down_strip(rs, i);
    bottom_fold(rs, i, down, down.len() as int, height)
}

/// The upward strip's rectangles at or below the top cut row move along.
pub open spec fn keep_up(rs: Seq<Rect>, i: int) -> spec_fn(int) -> bool {
    |j: int| rs[j].y >= top_cut(rs, i)
}

/// The downward strip's rectangles at or above the bottom cut row move along.
pub open spec fn keep_down(rs: Seq<Rect>, i: int, height: int) -> spec_fn(int) -> bool {
    |j: int| rs[j].y + rs[j].rows <= bottom_cut(rs, i, height)
}

/// The rows between which neighbours on the right give or take columns: the
/// cut rows when a strip moves along, else the rectangle's own edges.
pub open spec fn shift_top(rs: Seq<Rect>, i: int) -> int {
    let up = up_strip(rs, i);
    if any_kept(up, up.len() as int, keep_up(rs, i)) { top_cut(rs, i) } else { rs[i].y as int }
}

pub open spec fn shift_bottom(rs: Seq<Rect>, i: int, height: int) -> int {
    let down = down_strip(rs, i);
    if any_kept(down, down.len() as int, keep_down(rs, i, height)) {
        bottom_cut(rs, i, height)
    } else {
        rs[i].y + rs[i].rows
    }
}

/// Rectangle `j` moves its right edge with rectangle `i`.
pub open spec fn grows_with(rs: Seq<Rect>, i: int, j: int, height: int) -> bool {
    let up = up_strip(rs, i);
    let down = down_strip(rs, i);
    j == i || kept_in(up, up.len() as int, j, keep_up(rs, i))
        || kept_in(down, down.len() as int, j, keep_down(rs, i, height))
}

/// Rectangle `j` lies directly right of rectangle `i`, between the shift rows,
/// and moves its left edge with it.
pub open spec fn shifts_with(rs: Seq<Rect>, i: int, j: int, height: int) -> bool {
    &&& j != i
    &&& rs[j].x == rs[i].x + rs[i].cols + 1
    &&& rs[j].y >= shift_top(rs, i)
    &&& rs[j].y + rs[j].rows <= shift_bottom(rs, i, height)
}

/// The rectangles after the right border of rectangle `i` moved by `delta`.
pub open spec fn resized(rs: Seq<Rect>, i: int, delta: int, height: int) -> Seq<Rect> {
    Seq::new(rs.len(), |j: int| {
        let r = rs[j];
        let s = if shifts_with(rs, i, j, height) {
            Rect { x: (r.x + delta) as i64, cols: (r.cols - delta) as i64, ..r }
        } else {
            r
        };
        if grows_with(rs, i, j, height) { Rect { cols: (s.cols + delta) as i64, ..s } } else { s }
    })
}

/// The upward (or downward) strip of rectangle `i`.
fn aligned_strip(rs: &Vec<Rect>, i: usize, upward: bool) -> (r: Vec<usize>)
    requires
        i < rs@.len(),
        bounded(rs@, 0x40000),
    ensures
        r@.len() == strip_walk(rs@, i as int, upward, rs@[i as int], rs@.len() as nat).len(),
        forall|k: int| 0 <= k < r@.len() ==> #[trigger] r@[k] as int
            == strip_walk(rs@, i as int, upward, rs@[i as int], rs@.len() as nat)[k],
        forall|k: int| 0 <= k < r@.len() ==> #[trigger] r@[k] < rs@.len(),
{
    let n = rs.len();
    let ghost full = strip_walk(rs@, i as int, upward, rs@[i as int], n as nat);
    let p = rs[i];
    let right_edge = p.x + p.cols;
    let mut strip: Vec<usize> = Vec::new();
    let mut last = p;
    let mut steps: usize = 0;
    let mut more = true;
    while more && steps < n
        invariant
            n == rs@.len(),
            i < n,
            bounded(rs@, 0x40000),
            p == rs@[i as int],
            right_edge == p.x + p.cols,
            steps <= n,
            fields_within(last, 0x40000),
            full == strip_walk(rs@, i as int, upward, rs@[i as int], n as nat),
            more ==> full == strip@.map_values(|u: usize| u as int) + strip_walk(rs@, i as int, upward, last, (n - steps) as nat),
            !more ==> full == strip@.map_values(|u: usize| u as int),
            forall|k: int| 0 <= k < strip@.len() ==> #[trigger] strip@[k] < n,
        decreases (n - steps) as int + if more { 1int } else { 0int },
    {
        let mut found = false;
        let mut j: usize = 0;
        while j < n && !found
            invariant
                n == rs@.len(),
                i < n,
                bounded(rs@, 0x40000),
                right_edge == p.x + p.cols,
                p == rs@[i as int],
                j <= n,
                fields_within(last, 0x40000),
                !found ==> aligned_next(rs@, i as int, upward, last, 0) == aligned_next(rs@, i as int, upward, last, j as int),
                found ==> j >= 1 && aligned_next(rs@, i as int, upward, last, 0) == j - 1,
            decreases n - j,
        {
            let q = rs[j];
            assert(fields_within(rs@[j as int], 0x40000));
            let adjacent = if upward { q.y + q.rows + 1 == last.y } else { q.y == last.y + last.rows + 1 };
            if j != i && q.x + q.cols == right_edge && adjacent {
                found = true;
            }
            j = j + 1;
        }
        let ghost before = strip@.map_values(|u: usize| u as int);
        let ghost fuel = (n - steps) as nat;
        if found {
            let q = rs[j - 1];
            assert(fields_within(rs@[j - 1], 0x40000));
            strip.push(j - 1);
            assert(strip@.map_values(|u: usize| u as int) =~= before.push((j - 1) as int));
            assert(strip_walk(rs@, i as int, upward, last, fuel)
                == seq![(j - 1) as int] + strip_walk(rs@, i as int, upward, q, (fuel - 1) as nat));
            assert(before.push((j - 1) as int) + strip_walk(rs@, i as int, upward, q, (fuel - 1) as nat)
                =~= before + (seq![(j - 1) as int] + strip_walk(rs@, i as int, upward, q, (fuel - 1) as nat)));
            last = q;
            steps = steps + 1;
        } else {
            assert(strip_walk(rs@, i as int, upward, last, fuel) =~= Seq::<int>::empty());
            assert(before + Seq::<int>::empty() =~= before);
            more = false;
        }
    }
    proof {
        if more {
            assert(strip_walk(rs@, i as int, upward, last, 0) =~= Seq::<int>::empty());
            assert(strip@.map_values(|u: usize| u as int) + Seq::<int>::empty() =~= strip@.map_values(|u: usize| u as int));
        }
    }
    strip
}

/// Whether the neighbours right of rectangle `i` have a border at row `v`.
fn right_border_row_exec(rs: &Vec<Rect>, i: usize, v: i64) -> (r: bool)
    requires
        i < rs@.len(),
        bounded(rs@, 0x40000),
    ensures
        r == right_border_row(rs@, i as int, v as int, rs@.len() as int),
{
    let p = rs[i];
    let mut j: usize = 0;
    let mut r = false;
    while j < rs.len()
        invariant
            i < rs@.len(),
            j <= rs@.len(),
            p == rs@[i as int],
            bounded(rs@, 0x40000),
            r == right_border_row(rs@, i as int, v as int, j as int),
        decreases rs@.len() - j,
    {
        let q = rs[j];
        assert(fields_within(rs@[j as int], 0x40000));
        assert(fields_within(rs@[i as int], 0x40000));
        if q.x == p.x + p.cols + 1 && q.y == v {
            r = true;
        }
        j = j + 1;
    }
    r
}

/// In the canonical frame, moves the right border of rectangle `i` by
/// `delta` columns (growing it when positive, shrinking it when negative).
/// The rectangles directly to its right give up or take the columns; those
/// stacked above and below it with the same right edge move along until a
/// row where the neighbours on the right have a border of their own, so that
/// the moved border stays straight. `height` is the viewport height.
pub fn move_right_border(rs: &Vec<Rect>, i: usize, delta: i64, height: i64) -> (out: Vec<Rect>)
    requires
        i < rs@.len(),
        bounded(rs@, 0x40000),
        -65536 <= delta <= 65536,
        0 <= height <= 65535,
    ensures
        out@ == resized(rs@, i as int, delta as int, height as int),
        bounded(out@, 0x60000),
{
    let n = rs.len();
    let ghost g = rs@;
    let p = rs[i];
    assert(fields_within(rs@[i as int], 0x40000));
    let up = aligned_strip(rs, i, true);
    let ghost ups = up_strip(rs@, i as int);
    let mut top: i64 = 0;
    let mut k: usize = 0;
    while k < up.len()
        invariant
            n == rs@.len(),
            i < n,
            bounded(rs@, 0x40000),
            k <= up@.len(),
            up@.len() == ups.len(),
            forall|m: int| 0 <= m < up@.len() ==> #[trigger] up@[m] as int == ups[m],
            forall|m: int| 0 <= m < up@.len() ==> #[trigger] up@[m] < n,
            top == top_fold(rs@, i as int, ups, k as int),
            -0x40000 <= top <= 0x80001,
        decreases up@.len() - k,
    {
        let q = rs[up[k]];
        assert(fields_within(rs@[up@[k as int] as int], 0x40000));
        let b = q.y + q.rows;
        if right_border_row_exec(rs, i, b + 1) && top < b {
            top = b + 1;
        }
        k = k + 1;
    }
    let down = aligned_strip(rs, i, false);
    let ghost downs = down_strip(rs@, i as int);
    let mut bottom: i64 = height;
    let mut k: usize = 0;
    while k < down.len()
        invariant
            n == rs@.len(),
            i < n,
            bounded(rs@, 0x40000),
            k <= down@.len(),
            down@.len() == downs.len(),
            forall|m: int| 0 <= m < down@.len() ==> #[trigger] down@[m] as int == downs[m],
            forall|m: int| 0 <= m < down@.len() ==> #[trigger] down@[m] < n,
            bottom == bottom_fold(rs@, i as int, downs, k as int, height as int),
            -0x40000 <= bottom <= 0x40000,
        decreases down@.len() - k,
    {
        let q = rs[down[k]];
        assert(fields_within(rs@[down@[k as int] as int], 0x40000));
        if right_border_row_exec(rs, i, q.y) && q.y < bottom {
            bottom = q.y;
        }
        k = k + 1;
    }
    assert(top == top_cut(rs@, i as int));
    assert(bottom == bottom_cut(rs@, i as int, height as int));
    let mut grow = no_flags(n);
    grow.set(i, true);
    let mut any_up = false;
    let mut k: usize = 0;
    while k < up.len()
        invariant
            n == rs@.len(),
            i < n,
            grow@.len() == n,
            k <= up@.len(),
            up@.len() == ups.len(),
            ups == up_strip(rs@, i as int),
            top == top_cut(rs@, i as int),
            forall|m: int| 0 <= m < up@.len() ==> #[trigger] up@[m] as int == ups[m],
            forall|m: int| 0 <= m < up@.len() ==> #[trigger] up@[m] < n,
            forall|j: int| 0 <= j < n ==> #[trigger] grow@[j] == (j == i || kept_in(ups, k as int, j, keep_up(rs@, i as int))),
            any_up == any_kept(ups, k as int, keep_up(rs@, i as int)),
        decreases up@.len() - k,
    {
        let j = up[k];
        if rs[j].y >= top {
            grow.set(j, true);
            any_up = true;
        }
        k = k + 1;
    }
    let top = if any_up { top } else { p.y };
    assert(top == shift_top(rs@, i as int));
    let mut any_down = false;
    let mut k: usize = 0;
    while k < down.len()
        invariant
            n == rs@.len(),
            i < n,
            bounded(rs@, 0x40000),
            grow@.len() == n,
            k <= down@.len(),
            down@.len() == downs.len(),
            ups == up_strip(rs@, i as int),
            downs == down_strip(rs@, i as int),
            bottom == bottom_cut(rs@, i as int, height as int),
            forall|m: int| 0 <= m < down@.len() ==> #[trigger] down@[m] as int == downs[m],
            forall|m: int| 0 <= m < down@.len() ==> #[trigger] down@[m] < n,
            forall|j: int| 0 <= j < n ==> #[trigger] grow@[j] == (j == i || kept_in(ups, ups.len() as int, j, keep_up(rs@, i as int))
                || kept_in(downs, k as int, j, keep_down(rs@, i as int, height as int))),
            any_down == any_kept(downs, k as int, keep_down(rs@, i as int, height as int)),
        decreases down@.len() - k,
    {
        let j = down[k];
        let q = rs[j];
        assert(fields_within(rs@[j as int], 0x40000));
        if q.y + q.rows <= bottom {
            grow.set(j, true);
            any_down = true;
        }
        k = k + 1;
    }
    let bottom = if any_down { bottom } else { p.y + p.rows };
    assert(bottom == shift_bottom(rs@, i as int, height as int));
    let mut out: Vec<Rect> = Vec::new();
    let mut j: usize = 0;
    while j < n
        invariant
            n == rs@.len(),
            i < n,
            bounded(rs@, 0x40000),
            -65536 <= delta <= 65536,
            grow@.len() == n,
            forall|m: int| 0 <= m < n ==> #[trigger] grow@[m] == grows_with(rs@, i as int, m, height as int),
            top == shift_top(rs@, i as int),
            bottom == shift_bottom(rs@, i as int, height as int),
            -0x80001 <= top <= 0x80001,
            -0x80001 <= bottom <= 0x80001,
            p == rs@[i as int],
            j <= n,
            out@.len() == j,
            bounded(out@, 0x60000),
            forall|m: int| 0 <= m < j ==> #[trigger] out@[m] == resized(rs@, i as int, delta as int, height as int)[m],
        decreases n - j,
    {
        let q = rs[j];
        assert(fields_within(rs@[j as int], 0x40000));
        let mut r = q;
        if j != i && q.x == p.x + p.cols + 1 && q.y >= top && q.y + q.rows <= bottom {
            r.x = r.x + delta;
            r.cols = r.cols - delta;
        }
        if grow[j] {
            r.cols = r.cols + delta;
        }
        out.push(r);
        assert(out@[j as int] == r);
        j = j + 1;
    }
    assert(out@ =~= resized(rs@, i as int, delta as int, height as int));
    out
}

/// Whether some rectangle directly left of rectangle `i` has its top edge,
/// or the row below its bottom border, at row `v`.
pub open spec fn left_border_at(rs: Seq<Rect>, i: int, v: int) -> bool {
    exists|j: int| 0 <= j < rs.len() && rs[j].x + rs[j].cols + 1 == rs[i].x
        && (rs[j].y == v || rs[j].y + rs[j].rows + 1 == v)
}

/// `a` lies directly left of `p`, within its rows.
pub open spec fn left_within(a: Rect, p: Rect) -> bool {
    &&& a.x + a.cols + 1 == p.x
    &&& a.y >= p.y
    &&& a.y + a.rows <= p.y + p.rows + 1
}

/// Rectangle `j` lies directly left of rectangle `i`, within its rows.
pub open spec fn in_left_strip(rs: Seq<Rect>, i: int, j: int) -> bool {
    left_within(rs[j], rs[i])
}

/// In the canonical frame, hands the area of rectangle `i` and its left
/// border column to the rectangles directly left of it, when their borders
/// meet its top and bottom edges: each of them within its rows grows right by
/// `cols + 1`. Rectangle `i` itself is left in place. Returns the new
/// rectangles and the indices of those that grew, in order.
pub fn absorb_from_left(rs: &Vec<Rect>, i: usize) -> (r: Option<Vec<Rect>>)
    requires
        i < rs@.len(),
        bounded(rs@, 0x40000),
    ensures
        r.is_some() <==> absorbs(rs@, i as int),
        r.is_some() ==> r.unwrap()@ == absorbed(rs@, i as int) && bounded(r.unwrap()@, 0x90000),
{
    let n = rs.len();
    let p = rs[i];
    let left = directly_left_of(rs, i);
    let upper = p.y;
    let lower = p.y + p.rows + 1;
    let mut has_upper = false;
    let mut has_lower = false;
    let mut k: usize = 0;
    while k < left.len()
        invariant
            n == rs@.len(),
            i < n,
            p == rs@[i as int],
            bounded(rs@, 0x40000),
            upper == p.y,
            lower == p.y + p.rows + 1,
            forall|m: int| 0 <= m < left@.len() ==> #[trigger] left@[m] < n,
            forall|j: int| 0 <= j < n ==> (left@.contains(j as usize) <==> rs@[j].x + rs@[j].cols + 1 == p.x),
            has_upper ==> left_border_at(rs@, i as int, upper as int),
            has_lower ==> left_border_at(rs@, i as int, lower as int),
            !has_upper ==> forall|m: int| 0 <= m < k ==> !(rs@[#[trigger] left@[m] as int].y == upper
                || rs@[left@[m] as int].y + rs@[left@[m] as int].rows + 1 == upper),
            !has_lower ==> forall|m: int| 0 <= m < k ==> !(rs@[#[trigger] left@[m] as int].y == lower
                || rs@[left@[m] as int].y + rs@[left@[m] as int].rows + 1 == lower),
            k <= left@.len(),
        decreases left@.len() - k,
    {
        let j = left[k];
        let q = rs[j];
        assert(left@.contains(j));
        if q.y == upper || q.y + q.rows + 1 == upper {
            has_upper = true;
        }
        if q.y == lower || q.y + q.rows + 1 == lower {
            has_lower = true;
        }
        k = k + 1;
    }
    if !has_upper || !has_lower {
        proof {
            if left_border_at(rs@, i as int, upper as int) && left_border_at(rs@, i as int, lower as int) {
                let ju = choose|j: int| 0 <= j < rs@.len() && rs@[j].x + rs@[j].cols + 1 == rs@[i as int].x
                    && (rs@[j].y == upper || rs@[j].y + rs@[j].rows + 1 == upper);
                let jl = choose|j: int| 0 <= j < rs@.len() && rs@[j].x + rs@[j].cols + 1 == rs@[i as int].x
                    && (rs@[j].y == lower || rs@[j].y + rs@[j].rows + 1 == lower);
                assert(left@.contains(ju as usize));
                assert(left@.contains(jl as usize));
            }
        }
        return None;
    }
    let mut member = no_flags(n);
    let mut k: usize = 0;
    while k < n
        invariant
            n == rs@.len(),
            i < n,
            p == rs@[i as int],
            bounded(rs@, 0x40000),
            upper == p.y,
            lower == p.y + p.rows + 1,
            member@.len() == n,
            k <= n,
            forall|j: int| 0 <= j < k ==> (#[trigger] member@[j] <==> in_left_strip(rs@, i as int, j)),
            forall|j: int| k <= j < n ==> !#[trigger] member@[j],
        decreases n - k,
    {
        let q = rs[k];
        assert(fields_within(rs@[k as int], 0x40000));
        assert(fields_within(p, 0x40000));
        let ghost prev = member@;
        if q.x + q.cols + 1 == p.x && q.y >= upper && q.y + q.rows <= lower {
            member.set(k, true);
        }
        assert(member@[k as int] <==> in_left_strip(rs@, i as int, k as int));
        assert forall|j: int| 0 <= j < n && j != k implies member@[j] == prev[j] by {}
        k = k + 1;
    }
    let mut out: Vec<Rect> = Vec::new();
    let mut j: usize = 0;
    while j < n
        invariant
            n == rs@.len(),
            i < n,
            p == rs@[i as int],
            bounded(rs@, 0x40000),
            member@.len() == n,
            forall|m: int| 0 <= m < n ==> (#[trigger] member@[m] <==> in_left_strip(rs@, i as int, m)),
            j <= n,
            out@.len() == j,
            bounded(out@, 0x90000),
            forall|m: int| 0 <= m < j ==> #[trigger] out@[m] == if in_left_strip(rs@, i as int, m) {
                Rect { cols: (rs@[m].cols + rs@[i as int].cols + 1) as i64, ..rs@[m] }
            } else {
                rs@[m]
            },
        decreases n - j,
    {
        let q = rs[j];
        assert(-0x40000 <= rs@[j as int].x <= 0x40000);
        let mut r = q;
        if member[j] {
            r.cols = r.cols + p.cols + 1;
        }
        out.push(r);
        assert(out@[j as int] == r);
        j = j + 1;
    }
    assert(out@ =~= absorbed(rs@, i as int));
    Some(out)
}


/// The border cells each rectangle owns: the column right of it, the row
/// below it and their corner.
pub open spec fn border_sum(rs: Seq<Rect>, n: int) -> int
    decreases n,
{
    if n <= 0 { 0 } else { border_sum(rs, n - 1) + rs[n - 1].cols + rs[n - 1].rows + 1 }
}

proof fn lemma_area_split(rs: Seq<Rect>, n: int)
    requires
        0 <= n <= rs.len(),
    ensures
        area_sum(rs, n) == interior_sum(rs, n) + border_sum(rs, n),
    decreases n,
{
    if n > 0 {
        lemma_area_split(rs, n - 1);
        let r = rs[n - 1];
        assert((r.cols + 1) * (r.rows + 1) == r.cols * r.rows + r.cols + r.rows + 1) by (nonlinear_arith);
    }
}

/// Every cell of a tiled viewport is counted once: the pane interiors plus
/// the border cells between panes make up the viewport. (The border cells
/// that panes own on the viewport's right and bottom edge lie outside it;
/// there are `vc + vr + 1` of them.)
pub proof fn lemma_cells_accounted(rs: Seq<Rect>, vc: int, vr: int)
    requires
        tiles(rs, vc, vr),
    ensures
        interior_sum(rs, rs.len() as int) + (border_sum(rs, rs.len() as int) - (vc + vr + 1)) == vc * vr,
{
    lemma_area_split(rs, rs.len() as int);
    assert((vc + 1) * (vr + 1) == vc * vr + vc + vr + 1) by (nonlinear_arith);
}

/// Extended areas of those of the first `n` rectangles of `xs` whose index
/// is in the left strip of rectangle `i` of `rs`.
pub open spec fn strip_area(xs: Seq<Rect>, rs: Seq<Rect>, i: int, n: int) -> int
    decreases n,
{
    if n <= 0 {
        0
    } else {
        strip_area(xs, rs, i, n - 1) + if in_left_strip(rs, i, n - 1) { ext_area(xs[n - 1]) } else { 0 }
    }
}

proof fn lemma_area_remove(s: Seq<Rect>, i: int, n: int)
    requires
        0 <= i < s.len(),
        0 <= n <= s.len(),
    ensures
        n <= i ==> area_sum(s.remove(i), n) == area_sum(s, n),
        n > i ==> area_sum(s.remove(i), n - 1) == area_sum(s, n) - ext_area(s[i]),
    decreases n,
{
    if n > 0 {
        lemma_area_remove(s, i, n - 1);
        if n - 1 > i {
            assert(s.remove(i)[n - 2] == s[n - 1]);
        } else if n - 1 < i {
            assert(s.remove(i)[n - 1] == s[n - 1]);
        }
    }
}

/// The extended rectangle of `a` lies within that of `t`.
pub open spec fn ext_within(a: Rect, t: Rect) -> bool {
    &&& t.x <= a.x
    &&& a.x + a.cols <= t.x + t.cols
    &&& t.y <= a.y
    &&& a.y + a.rows <= t.y + t.rows
}

proof fn lemma_area_update(s: Seq<Rect>, i: int, v: Rect, n: int)
    requires
        0 <= i < s.len(),
        0 <= n <= s.len(),
    ensures
        n <= i ==> area_sum(s.update(i, v), n) == area_sum(s, n),
        n > i ==> area_sum(s.update(i, v), n) == area_sum(s, n) - ext_area(s[i]) + ext_area(v),
    decreases n,
{
    if n > 0 {
        lemma_area_update(s, i, v, n - 1);
    }
}

proof fn lemma_area_insert(s: Seq<Rect>, p: int, v: Rect, n: int)
    requires
        0 <= p <= s.len(),
        0 <= n <= s.len(),
    ensures
        n < p ==> area_sum(s.insert(p, v), n) == area_sum(s, n),
        n >= p ==> area_sum(s.insert(p, v), n + 1) == area_sum(s, n) + ext_area(v),
    decreases n,
{
    let ins = s.insert(p, v);
    if n == 0 {
        assert(area_sum(ins, 0) == 0);
        if p == 0 {
            assert(ins[0] == v);
            assert(area_sum(ins, 1) == area_sum(ins, 0) + ext_area(ins[0]));
        }
    } else {
        lemma_area_insert(s, p, v, n - 1);
        if n > p {
            assert(ins[n] == s[n - 1]);
            assert(area_sum(ins, n + 1) == area_sum(ins, n) + ext_area(ins[n]));
            assert(area_sum(s, n) == area_sum(s, n - 1) + ext_area(s[n - 1]));
        } else if n == p {
            assert(ins[n - 1] == s[n - 1]);
            assert(ins[n] == v);
            assert(area_sum(ins, n) == area_sum(ins, n - 1) + ext_area(ins[n - 1]));
            assert(area_sum(ins, n + 1) == area_sum(ins, n) + ext_area(ins[n]));
            assert(area_sum(s, n) == area_sum(s, n - 1) + ext_area(s[n - 1]));
        } else {
            assert(ins[n - 1] == s[n - 1]);
            assert(area_sum(ins, n) == area_sum(ins, n - 1) + ext_area(ins[n - 1]));
            assert(area_sum(s, n) == area_sum(s, n - 1) + ext_area(s[n - 1]));
        }
    }
}

/// Replacing one rectangle of a tiling by two non-empty rectangles that
/// share out its extended area keeps the tiling, wherever the second one
/// is inserted.
pub proof fn lemma_replace_by_two(rs: Seq<Rect>, t: int, a: Rect, b: Rect, pos: int, vc: int, vr: int)
    requires
        tiles(rs, vc, vr),
        0 <= t < rs.len(),
        0 <= pos <= rs.len(),
        ext_within(a, rs[t]),
        ext_within(b, rs[t]),
        a.cols >= 1 && a.rows >= 1,
        b.cols >= 1 && b.rows >= 1,
        ext_disjoint(a, b),
        ext_area(a) + ext_area(b) == ext_area(rs[t]),
    ensures
        tiles(rs.update(t, a).insert(pos, b), vc, vr),
{
    let u = rs.update(t, a);
    let out = u.insert(pos, b);
    assert(inside(rs[t], vc, vr));
    assert forall|m: int| 0 <= m < out.len() implies inside(#[trigger] out[m], vc, vr) by {
        if m < pos {
            assert(out[m] == u[m]);
        } else if m > pos {
            assert(out[m] == u[m - 1]);
        }
    }
    assert forall|o: Rect| #[trigger] ext_disjoint(rs[t], o) implies ext_disjoint(a, o) && ext_disjoint(b, o) by {}
    assert forall|m1: int, m2: int| 0 <= m1 < m2 < out.len() implies ext_disjoint(#[trigger] out[m1], #[trigger] out[m2]) by {
        let j1 = if m1 < pos { m1 } else { m1 - 1 };
        let j2 = if m2 < pos { m2 } else { m2 - 1 };
        if m1 == pos {
            assert(out[m1] == b);
            assert(out[m2] == u[j2]);
            if j2 == t {
            } else {
                assert(u[j2] == rs[j2]);
                if j2 < t {
                    assert(ext_disjoint(rs[j2], rs[t]));
                } else {
                    assert(ext_disjoint(rs[t], rs[j2]));
                }
            }
        } else if m2 == pos {
            assert(out[m2] == b);
            assert(out[m1] == u[j1]);
            if j1 == t {
            } else {
                assert(u[j1] == rs[j1]);
                if j1 < t {
                    assert(ext_disjoint(rs[j1], rs[t]));
                } else {
                    assert(ext_disjoint(rs[t], rs[j1]));
                }
            }
        } else {
            assert(out[m1] == u[j1]);
            assert(out[m2] == u[j2]);
            assert(j1 < j2);
            if j1 == t {
                assert(ext_disjoint(rs[t], rs[j2]));
            } else if j2 == t {
                assert(ext_disjoint(rs[j1], rs[t]));
            } else {
                assert(ext_disjoint(rs[j1], rs[j2]));
            }
        }
    }
    lemma_area_update(rs, t, a, rs.len() as int);
    lemma_area_insert(u, pos, b, u.len() as int);
}


/// In a tiling no two pane interiors overlap, and two panes whose rows
/// overlap have at least one border column between them (two whose
/// columns overlap, at least one border row).
pub proof fn lemma_panes_apart(rs: Seq<Rect>, vc: int, vr: int, i: int, j: int)
    requires
        tiles(rs, vc, vr),
        0 <= i < rs.len(),
        0 <= j < rs.len(),
        i != j,
    ensures
        ({
            let a = rs[i];
            let b = rs[j];
            &&& a.x + a.cols <= b.x || b.x + b.cols <= a.x || a.y + a.rows <= b.y || b.y + b.rows <= a.y
            &&& (a.y < b.y + b.rows && b.y < a.y + a.rows) ==> (a.x + a.cols + 1 <= b.x || b.x + b.cols + 1 <= a.x)
            &&& (a.x < b.x + b.cols && b.x < a.x + a.cols) ==> (a.y + a.rows + 1 <= b.y || b.y + b.rows + 1 <= a.y)
        }),
{
    if i < j {
        assert(ext_disjoint(rs[i], rs[j]));
    } else {
        assert(ext_disjoint(rs[j], rs[i]));
    }
}


/// The frame in which the neighbours on side `side` (left, right, above,
/// below) of a rectangle appear on its left.
pub open spec fn side_frame_spec(side: int) -> Frame {
    if side == 0 {
        Frame::Identity
    } else if side == 1 {
        Frame::Mirror
    } else if side == 2 {
        Frame::Transpose
    } else {
        Frame::TransposeMirror
    }
}

/// The rectangles directly left of rectangle `k` have borders meeting its
/// top and bottom edges: together they can take over its area.
pub open spec fn absorbs(t: Seq<Rect>, k: int) -> bool {
    left_border_at(t, k, t[k].y as int) && left_border_at(t, k, t[k].y + t[k].rows + 1)
}

/// Each rectangle of the left strip of `k` grown over `k` and its border.
pub open spec fn absorbed(t: Seq<Rect>, k: int) -> Seq<Rect> {
    Seq::new(t.len(), |j: int| if in_left_strip(t, k, j) {
        Rect { cols: (t[j].cols + t[k].cols + 1) as i64, ..t[j] }
    } else {
        t[j]
    })
}

/// Every rectangle of `rs`, seen in frame `f`, brought back to the viewport.
pub open spec fn unframed(rs: Seq<Rect>, f: Frame, vc: int, vr: int) -> Seq<Rect> {
    rs.map_values(|r: Rect| from_frame(r, f, vc, vr))
}

/// The first side, from `side` on, whose neighbours can take over
/// rectangle `k`; 4 when none can.
pub open spec fn first_side(g: Seq<Rect>, k: int, vc: int, vr: int, side: int) -> int
    decreases 4 - side,
{
    if side >= 4 {
        4
    } else if absorbs(framed(g, side_frame_spec(side), vc, vr), k) {
        side
    } else {
        first_side(g, k, vc, vr, side + 1)
    }
}

/// The layout after rectangle `k` is closed into its neighbours on `side`.
pub open spec fn closed_layout(g: Seq<Rect>, k: int, side: int, vc: int, vr: int) -> Seq<Rect> {
    let f = side_frame_spec(side);
    unframed(absorbed(framed(g, f, vc, vr), k), f, vc, vr).remove(k)
}

/// Index of the last of the first `n` rectangles in the left strip of `k`,
/// or -1.
pub open spec fn last_in_strip(t: Seq<Rect>, k: int, n: int) -> int
    decreases n,
{
    if n <= 0 {
        -1
    } else if in_left_strip(t, k, n - 1) {
        n - 1
    } else {
        last_in_strip(t, k, n - 1)
    }
}

pub proof fn lemma_last_in_strip(t: Seq<Rect>, k: int, n: int)
    requires
        0 <= n <= t.len(),
    ensures
        last_in_strip(t, k, n) == -1 ==> forall|j: int| 0 <= j < n ==> !in_left_strip(t, k, j),
        last_in_strip(t, k, n) != -1 ==> 0 <= last_in_strip(t, k, n) < n
            && in_left_strip(t, k, last_in_strip(t, k, n)),
    decreases n,
{
    if n > 0 {
        lemma_last_in_strip(t, k, n - 1);
    }
}

pub proof fn lemma_first_side(g: Seq<Rect>, k: int, vc: int, vr: int, from: int, side: int)
    requires
        0 <= from <= side <= 4,
        forall|q: int| from <= q < side ==> !absorbs(#[trigger] framed(g, side_frame_spec(q), vc, vr), k),
        side < 4 ==> absorbs(framed(g, side_frame_spec(side), vc, vr), k),
    ensures
        first_side(g, k, vc, vr, from) == side,
    decreases side - from,
{
    if from < side {
        assert(!absorbs(framed(g, side_frame_spec(from), vc, vr), k));
        lemma_first_side(g, k, vc, vr, from + 1, side);
    }
}

/// Closing into an empty strip leaves the closed area uncovered.
pub proof fn lemma_empty_strip_leaves_gap(g: Seq<Rect>, k: int, side: int, vc: int, vr: int)
    requires
        tiles(g, vc, vr),
        0 <= k < g.len(),
        1 <= vc <= 65535,
        1 <= vr <= 65535,
        forall|j: int| 0 <= j < g.len() ==> !in_left_strip(framed(g, side_frame_spec(side), vc, vr), k, j),
    ensures
        !tiles(closed_layout(g, k, side, vc, vr), vc, vr),
{
    let f = side_frame_spec(side);
    let t = framed(g, f, vc, vr);
    let back = unframed(absorbed(t, k), f, vc, vr);
    assert forall|j: int| 0 <= j < g.len() implies #[trigger] back[j] == g[j] by {
        assert(inside(g[j], vc, vr));
        assert(!in_left_strip(t, k, j));
        lemma_frame_round_trip(g[j], f, vc, vr);
    }
    assert(back =~= g);
    lemma_area_remove(g, k, g.len() as int);
    assert(inside(g[k], vc, vr));
    assert(ext_area(g[k]) > 0) by (nonlinear_arith)
        requires
            g[k].cols >= 1,
            g[k].rows >= 1,
            ext_area(g[k]) == (g[k].cols + 1) * (g[k].rows + 1),
    ;
}


/// Index of the last rectangle in the left strip of `k`, if any.
pub fn last_in_left_strip(t: &Vec<Rect>, k: usize) -> (r: Option<usize>)
    requires
        k < t@.len(),
        bounded(t@, 0x40000),
    ensures
        match r {
            Some(l) => l as int == last_in_strip(t@, k as int, t@.len() as int),
            None => last_in_strip(t@, k as int, t@.len() as int) == -1,
        },
{
    let p = t[k];
    let mut j: usize = t.len();
    while j > 0
        invariant
            j <= t@.len(),
            k < t@.len(),
            p == t@[k as int],
            bounded(t@, 0x40000),
            last_in_strip(t@, k as int, t@.len() as int) == last_in_strip(t@, k as int, j as int),
        decreases j,
    {
        let q = t[j - 1];
        assert(fields_within(t@[j - 1], 0x40000));
        if q.x + q.cols + 1 == p.x && q.y >= p.y && q.y + q.rows <= p.y + p.rows + 1 {
            return Some(j - 1);
        }
        j = j - 1;
    }
    None
}


proof fn lemma_area_outside_members(out: Seq<Rect>, base: Seq<Rect>, t: Seq<Rect>, i: int, n: int)
    requires
        0 <= n <= base.len(),
        out.len() == base.len(),
        t.len() == base.len(),
        forall|j: int| 0 <= j < base.len() && !in_left_strip(t, i, j) ==> #[trigger] out[j] == base[j],
    ensures
        area_sum(out, n) - strip_area(out, t, i, n) == area_sum(base, n) - strip_area(base, t, i, n),
    decreases n,
{
    if n > 0 {
        lemma_area_outside_members(out, base, t, i, n - 1);
        if !in_left_strip(t, i, n - 1) {
            assert(out[n - 1] == base[n - 1]);
        }
    }
}

/// Closing rectangle `k` of a tiling hands its whole area to the panes that
/// take it over: when the layout after the close tiles the viewport, those
/// panes (the left strip of `k` seen in the side's frame) together have the
/// extended area they had before plus that of `k`, its interior and the
/// border cells it owned.
pub proof fn lemma_close_hands_over_area(g: Seq<Rect>, k: int, side: int, vc: int, vr: int)
    requires
        tiles(g, vc, vr),
        0 <= k < g.len(),
        1 <= vc <= 65535,
        1 <= vr <= 65535,
        tiles(closed_layout(g, k, side, vc, vr), vc, vr),
    ensures
        ({
            let f = side_frame_spec(side);
            let t = framed(g, f, vc, vr);
            let u = unframed(absorbed(t, k), f, vc, vr);
            &&& closed_layout(g, k, side, vc, vr) == u.remove(k)
            &&& strip_area(u, t, k, g.len() as int) == strip_area(g, t, k, g.len() as int) + ext_area(g[k])
        }),
{
    let f = side_frame_spec(side);
    let t = framed(g, f, vc, vr);
    let u = unframed(absorbed(t, k), f, vc, vr);
    let n = g.len() as int;
    assert forall|j: int| 0 <= j < n && !in_left_strip(t, k, j) implies #[trigger] u[j] == g[j] by {
        assert(inside(g[j], vc, vr));
        lemma_frame_round_trip(g[j], f, vc, vr);
    }
    assert(inside(g[k], vc, vr));
    assert(!in_left_strip(t, k, k));
    lemma_area_outside_members(u, g, t, k, n);
    lemma_area_remove(u, k, n);
}

}
