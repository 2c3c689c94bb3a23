//! Renders a percentage map as markup: a proportional segmented bar, a
//! sorted bar with a three-column legend (as SVG and as HTML), a single
//! badge for the top language, and a placeholder style.
//!
//! Markup is built over integer coordinates in tenths of a pixel, so the
//! geometry stays exact; the exact byte shape of the markup is
//! presentation, not contract.

use vstd::prelude::*;
use vstd::string::*;
use vstd::seq_lib::group_to_multiset_ensures;
use crate::stats::Stats;
use crate::config::{get_color, spec_default_color};
use crate::strutil::spec_lookup;
use crate::strutil::{u64_to_string, digit_char_str, spec_u64_digits, spec_digit_char, str_eq};

verus! {

broadcast use group_to_multiset_ensures;

pub open spec fn is_other(p: (String, u64)) -> bool {
    p.0@ == "Other"@
}

/// The display order: "Other" always last, otherwise descending
/// percentage; equal entries may come in either order.
pub open spec fn comes_before(a: (String, u64), b: (String, u64)) -> bool {
    if is_other(a) != is_other(b) {
        is_other(b)
    } else {
        a.1 >= b.1
    }
}

fn comes_before_exec(a: &(String, u64), b: &(String, u64)) -> (r: bool)
    ensures
        r == comes_before(*a, *b),
{
    let ao = str_eq(a.0.as_str(), "Other");
    let bo = str_eq(b.0.as_str(), "Other");
    if ao != bo {
        bo
    } else {
        a.1 >= b.1
    }
}

/// The color a language displays in: its table entry or the neutral
/// default.
pub open spec fn spec_color_of(colors: Seq<(String, String)>, lang: Seq<char>) -> Seq<char> {
    match spec_lookup(colors, lang) {
        Some(c) => c,
        None => spec_default_color(),
    }
}

/// A sorted display order: a permutation of the entries in which "Other"
/// comes last and percentages descend.
pub open spec fn display_sorted(sorted: Seq<(String, u64)>, orig: Seq<(String, u64)>) -> bool {
    &&& sorted.to_multiset() == orig.to_multiset()
    &&& sorted.len() == orig.len()
    &&& forall|x: int, y: int| 0 <= x < y < sorted.len() ==> comes_before(sorted[x], sorted[y])
    &&& forall|x: int| 0 <= x < sorted.len() ==> orig.contains(#[trigger] sorted[x])
}

/// Sorts the entries for display: descending percentage, with the "Other"
/// bucket always last whatever its value. The result is a permutation of
/// the input.
pub fn sort_langs(v: &Vec<(String, u64)>) -> (r: Vec<(String, u64)>)
    ensures
        r@.to_multiset() == v@.to_multiset(),
        r@.len() == v@.len(),
        forall|x: int, y: int| 0 <= x < y < r@.len() ==> comes_before(r@[x], r@[y]),
        forall|x: int| 0 <= x < r@.len() ==> v@.contains(#[trigger] r@[x]),
        display_sorted(r@, v@),
{
    let mut work: Vec<(String, u64)> = Vec::new();
    let mut i: usize = 0;
    while i < v.len()
        invariant
            i <= v@.len(),
            work@.len() == i,
            forall|k: int| 0 <= k < i ==> work@[k] == v@[k],
        decreases v@.len() - i,
    {
        let key = v[i].0.clone();
        let val = v[i].1;
        work.push((key, val));
        i += 1;
    }
    proof {
        assert(work@ =~= v@);
    }
    let mut r: Vec<(String, u64)> = Vec::new();
    proof {
        assert forall|x: (String, u64)| #[trigger] r@.to_multiset().count(x) == 0 by {
            assert(!r@.contains(x));
        }
        assert(r@.to_multiset().add(work@.to_multiset()) =~= v@.to_multiset());
    }
    while work.len() > 0
        invariant
            r@.len() + work@.len() == v@.len(),
            r@.to_multiset().add(work@.to_multiset()) == v@.to_multiset(),
            forall|x: int, y: int| 0 <= x < y < r@.len() ==> comes_before(r@[x], r@[y]),
            forall|x: int, y: int|
                0 <= x < r@.len() && 0 <= y < work@.len() ==> comes_before(r@[x], work@[y]),
        decreases work@.len(),
    {
        let mut m: usize = 0;
        let mut k: usize = 1;
        while k < work.len()
            invariant
                work@.len() > 0,
                m < work@.len(),
                k <= work@.len(),
                forall|y: int| 0 <= y < k ==> comes_before(work@[m as int], work@[y]),
            decreases work@.len() - k,
        {
            if !comes_before_exec(&work[m], &work[k]) {
                let ghost m0 = m as int;
                m = k;
                proof {
                    assert forall|y: int|
                        0 <= y < k + 1 implies comes_before(work@[m as int], work@[y]) by {
                        if y < k {
                            assert(comes_before(work@[m0], work@[y]));
                        }
                    }
                }
            }
            k += 1;
        }
        let ghost w0 = work@;
        let ghost r0 = r@;
        let e = work.remove(m);
        r.push(e);
        proof {
            assert(w0[m as int] == e);
            assert(work@ == w0.remove(m as int));
            assert(r@ == r0.push(e));
            assert(w0.contains(e)) by {
                assert(0 <= (m as int) && (m as int) < w0.len() && w0[m as int] == e);
            }
            assert(w0.to_multiset().count(e) > 0);
            assert(r@.to_multiset() =~= r0.to_multiset().insert(e));
            assert(work@.to_multiset() =~= w0.to_multiset().remove(e));
            assert(r@.to_multiset().add(work@.to_multiset()) =~= r0.to_multiset().add(
                w0.to_multiset(),
            ));
            assert forall|x: int, y: int|
                0 <= x < r@.len() && 0 <= y < work@.len() implies comes_before(
                r@[x],
                work@[y],
            ) by {
                let wy = work@[y];
                if y < m {
                    assert(wy == w0[y]);
                } else {
                    assert(wy == w0[y + 1]);
                }
                if x < r0.len() {
                    assert(r@[x] == r0[x]);
                } else {
                    assert(r@[x] == e);
                }
            }
            assert forall|x: int, y: int|
                0 <= x < y < r@.len() implies comes_before(r@[x], r@[y]) by {
                if y < r0.len() {
                    assert(r@[x] == r0[x] && r@[y] == r0[y]);
                } else {
                    assert(r@[y] == e);
                    assert(comes_before(r0[x], w0[m as int]));
                }
            }
        }
    }
    proof {
        assert forall|x: (String, u64)| #[trigger] work@.to_multiset().count(x) == 0 by {
            assert(!work@.contains(x));
        }
        assert(r@.to_multiset() =~= v@.to_multiset());
        assert(r@.to_multiset().len() == v@.to_multiset().len());
        assert forall|x: int| 0 <= x < r@.len() implies v@.contains(#[trigger] r@[x]) by {
            assert(r@.contains(r@[x]));
            assert(r@.to_multiset().count(r@[x]) > 0);
            assert(v@.to_multiset().count(r@[x]) > 0);
        }
    }
    r
}

/// The entry with the highest percentage, or `None` for an empty map.
/// Between equal percentages the pick is unspecified.
pub fn top_language(s: &Stats) -> (r: Option<(String, u64)>)
    ensures
        (s.entries@.len() == 0) == (r is None),
        (match r {
            Some(p) => (exists|j: int|
                0 <= j < s.entries@.len() && s.entries@[j].0@ == p.0@ && s.entries@[j].1
                    == p.1) && (forall|j: int|
                0 <= j < s.entries@.len() ==> s.entries@[j].1 <= p.1),
            None => true,
        }),
{
    if s.entries.len() == 0 {
        return None;
    }
    let mut m: usize = 0;
    let mut k: usize = 1;
    while k < s.entries.len()
        invariant
            m < s.entries@.len(),
            k <= s.entries@.len(),
            forall|y: int| 0 <= y < k ==> s.entries@[y].1 <= s.entries@[m as int].1,
        decreases s.entries@.len() - k,
    {
        if s.entries[k].1 > s.entries[m].1 {
            m = k;
        }
        k += 1;
    }
    Some((s.entries[m].0.clone(), s.entries[m].1))
}

/// `t` tenths rendered as a decimal with one fractional digit.
pub open spec fn spec_fmt_tenths(t: int) -> Seq<char> {
    spec_u64_digits(t / 10) + seq!['.'] + seq![spec_digit_char(t % 10)]
}

pub fn fmt_tenths(t: u64) -> (r: String)
    ensures
        r@ == spec_fmt_tenths(t as int),
{
    let mut s = u64_to_string(t / 10);
    s.append(".");
    let d = digit_char_str(t % 10);
    s.append(d);
    proof {
        reveal_strlit(".");
        assert(s@ =~= spec_fmt_tenths(t as int));
    }
    s
}

/// A percentage in hundredths of a percent, rendered with one decimal,
/// rounded to the nearest tenth.
pub fn fmt_pct(v: u64) -> (r: String)
    requires
        v <= 10000,
    ensures
        r@ == spec_fmt_tenths(((v + 5) / 10) as int),
{
    fmt_tenths((v + 5) / 10)
}

/// The width in tenths of a pixel that a percentage in hundredths of a
/// percent takes of the 320-pixel bar.
pub open spec fn spec_seg_width(pct: int) -> int {
    3200 * pct / 10000
}

/// The markup of one bar segment, `x` and `w` in tenths of a pixel.
pub open spec fn spec_segment_text(x: int, w: int, color: Seq<char>) -> Seq<char> {
    "<rect x='"@ + spec_fmt_tenths(x) + "' y='0' width='"@ + spec_fmt_tenths(w)
        + "' height='8' fill='"@ + color + "' />"@
}

/// The markup of the bar segments from entry `i` on, starting at offset
/// `x`: each entry one segment of its proportional width, placed at the
/// sum of the widths before it, in its display color.
pub open spec fn spec_segments(
    entries: Seq<(String, u64)>,
    colors: Seq<(String, String)>,
    i: int,
    x: int,
) -> Seq<char>
    decreases entries.len() - i,
{
    if i < 0 || i >= entries.len() {
        Seq::empty()
    } else {
        let w = spec_seg_width(entries[i].1 as int);
        spec_segment_text(x, w, spec_color_of(colors, entries[i].0@)) + spec_segments(
            entries,
            colors,
            i + 1,
            x + w,
        )
    }
}

/// One colored proportional segment of the bar, `x` and `w` in tenths of
/// a pixel.
fn push_segment(out: &mut String, x: u64, w: u64, color: &str)
    ensures
        final(out)@ == old(out)@ + spec_segment_text(x as int, w as int, color@),
{
    out.append("<rect x='");
    let xs = fmt_tenths(x);
    out.append(xs.as_str());
    out.append("' y='0' width='");
    let ws = fmt_tenths(w);
    out.append(ws.as_str());
    out.append("' height='8' fill='");
    out.append(color);
    out.append("' />");
    proof {
        assert(out@ =~= old(out)@ + spec_segment_text(x as int, w as int, color@));
    }
}

/// The segment width in tenths of a pixel of a 320-pixel bar for a
/// percentage in hundredths of a percent.
fn seg_width(pct: u64) -> (w: u64)
    requires
        pct <= 10000,
    ensures
        w <= 3200,
        w == spec_seg_width(pct as int),
{
    let w = 3200 * pct / 10000;
    proof {
        vstd::arithmetic::div_mod::lemma_div_is_ordered(
            3200 * (pct as int),
            32000000,
            10000,
        );
    }
    w
}

/// The fixed frame of the plain bar: the document header and the
/// background rectangle.
pub open spec fn spec_bar_shell() -> Seq<char> {
    "<svg xmlns='http://www.w3.org/2000/svg' width='320' height='8' viewBox='0 0 320 8'>"@
        + "<rect x='0' y='0' width='320' height='8' rx='4' ry='4' fill='#21262d' />"@
}

/// The plain segmented bar: the shell, then exactly one segment per
/// language, in map order, each of its proportional width at the sum of
/// the widths before it, in its display color. An empty map yields
/// exactly the empty bar, background only and zero segments: valid
/// output, never an error.
pub fn render_bar_svg(s: &Stats, colors: &Vec<(String, String)>) -> (r: String)
    requires
        forall|j: int| 0 <= j < s.entries@.len() ==> s.entries@[j].1 <= 10000,
        s.entries@.len() <= 1000000000000000,
    ensures
        r@ == spec_bar_shell() + spec_segments(s.entries@, colors@, 0, 0) + "</svg>"@,
        r@.len() >= 6,
        r@.subrange(0, 4) == "<svg"@,
        r@.subrange(r@.len() - 6, r@.len() as int) == "</svg>"@,
        s.entries@.len() == 0 ==> r@ == spec_bar_shell() + "</svg>"@,
{
    let mut out = String::new();
    out.append(
        "<svg xmlns='http://www.w3.org/2000/svg' width='320' height='8' viewBox='0 0 320 8'>",
    );
    out.append("<rect x='0' y='0' width='320' height='8' rx='4' ry='4' fill='#21262d' />");
    proof {
        assert(out@ =~= spec_bar_shell());
    }
    let mut x: u64 = 0;
    let mut i: usize = 0;
    while i < s.entries.len()
        invariant
            forall|j: int| 0 <= j < s.entries@.len() ==> s.entries@[j].1 <= 10000,
            s.entries@.len() <= 1000000000000000,
            i <= s.entries@.len(),
            x <= 3200 * i,
            out@ + spec_segments(s.entries@, colors@, i as int, x as int) == spec_bar_shell()
                + spec_segments(s.entries@, colors@, 0, 0),
        decreases s.entries@.len() - i,
    {
        let pct = s.entries[i].1;
        let w = seg_width(pct);
        let color = get_color(colors, s.entries[i].0.as_str());
        let ghost o0 = out@;
        let ghost gx = x as int;
        push_segment(&mut out, x, w, color.as_str());
        x = x + w;
        proof {
            assert(color@ == spec_color_of(colors@, s.entries@[i as int].0@));
            assert(spec_segments(s.entries@, colors@, i as int, gx) == spec_segment_text(
                gx,
                w as int,
                color@,
            ) + spec_segments(s.entries@, colors@, i as int + 1, gx + w));
            assert(out@ + spec_segments(s.entries@, colors@, i as int + 1, gx + w) =~= o0
                + spec_segments(s.entries@, colors@, i as int, gx));
        }
        i += 1;
    }
    out.append("</svg>");
    proof {
        assert(spec_segments(s.entries@, colors@, s.entries@.len() as int, x as int)
            == Seq::<char>::empty());
        assert(out@ =~= spec_bar_shell() + spec_segments(s.entries@, colors@, 0, 0)
            + "</svg>"@);
        reveal_strlit(
            "<svg xmlns='http://www.w3.org/2000/svg' width='320' height='8' viewBox='0 0 320 8'>",
        );
        reveal_strlit("<svg");
        reveal_strlit("</svg>");
        assert(out@.subrange(0, 4) =~= "<svg"@);
        assert(out@.subrange(out@.len() - 6, out@.len() as int) =~= "</svg>"@);
        if s.entries@.len() == 0 {
            assert(out@ =~= spec_bar_shell() + "</svg>"@);
        }
    }
    out
}

/// The SVG style block and background bar shared by every legend
/// document.
pub open spec fn spec_ui_style_and_bg() -> Seq<char> {
    "<style>.text { font-family:-apple-system,BlinkMacSystemFont,Helvetica,Arial,sans-serif; font-size:12px; fill:#c9d1d9; } .percent { fill:#8b949e; font-size:12px; }</style>"@
        + "<rect x='0' y='0' width='320' height='8' rx='4' ry='4' fill='#21262d' />"@
}

/// The document height for `n` legend entries: the bar plus one row of
/// 18 pixels per three entries.
pub open spec fn spec_ui_height(n: int) -> int {
    40 + 18 * ((n + 2) / 3)
}

/// The fixed head of the legend SVG for `n` entries.
pub open spec fn spec_ui_head(n: int) -> Seq<char> {
    "<svg xmlns='http://www.w3.org/2000/svg' width='320' height='"@ + spec_u64_digits(
        spec_ui_height(n),
    ) + "' viewBox='0 0 320 "@ + spec_u64_digits(spec_ui_height(n)) + "'>"@
        + spec_ui_style_and_bg()
}

/// One legend entry at column `i % 3` and baseline `y`: colored dot,
/// name, and percentage to one decimal.
pub open spec fn spec_legend_item(
    e: (String, u64),
    colors: Seq<(String, String)>,
    i: int,
    y: int,
) -> Seq<char> {
    let colx = (i % 3) * 3200 / 3;
    "<circle cx='"@ + spec_fmt_tenths(colx + 60) + "' cy='"@ + spec_fmt_tenths(y * 10 - 50)
        + "' r='4' fill='"@ + spec_color_of(colors, e.0@) + "' />"@ + "<text class='text' x='"@
        + spec_fmt_tenths(colx + 160) + "' y='"@ + spec_u64_digits(y) + "'>"@ + e.0@
        + "</text>"@ + "<text class='percent' x='"@ + spec_fmt_tenths(
        colx + 160 + e.0@.len() * 60,
    ) + "' y='"@ + spec_u64_digits(y) + "'>"@ + spec_fmt_tenths((e.1 as int + 5) / 10)
        + "%</text>"@
}

/// The legend from entry `i` on, three entries per row, the baseline
/// moving down one 18-pixel row at each wrap.
pub open spec fn spec_legend(
    entries: Seq<(String, u64)>,
    colors: Seq<(String, String)>,
    i: int,
    y: int,
) -> Seq<char>
    decreases entries.len() - i,
{
    if i < 0 || i >= entries.len() {
        Seq::empty()
    } else {
        let y2 = if i % 3 == 0 && i > 0 {
            y + 18
        } else {
            y
        };
        spec_legend_item(entries[i], colors, i, y2) + spec_legend(entries, colors, i + 1, y2)
    }
}

/// The whole legend SVG for one display order: head, one proportional
/// segment per language, one legend entry per language, in that order.
pub open spec fn spec_svg_ui_doc(
    sorted: Seq<(String, u64)>,
    colors: Seq<(String, String)>,
) -> Seq<char> {
    spec_ui_head(sorted.len() as int) + spec_segments(sorted, colors, 0, 0) + spec_legend(
        sorted,
        colors,
        0,
        22,
    ) + "</svg>"@
}

/// Emits one legend entry: dot, name, percentage.
#[verifier::rlimit(100)]
#[verifier::spinoff_prover]
fn push_legend_item(
    out: &mut String,
    e: &(String, u64),
    i: usize,
    y: u64,
    colors: &Vec<(String, String)>,
)
    requires
        e.1 <= 10000,
        e.0@.len() <= 1000000000000000,
        22 <= y <= 18000000000000100,
    ensures
        final(out)@ == old(out)@ + spec_legend_item(*e, colors@, i as int, y as int),
{
    let colx: u64 = ((i % 3) as u64) * 3200 / 3;
    let color = get_color(colors, e.0.as_str());
    let ys = u64_to_string(y);
    out.append("<circle cx='");
    let cx = fmt_tenths(colx + 60);
    out.append(cx.as_str());
    out.append("' cy='");
    let cy = fmt_tenths(y * 10 - 50);
    out.append(cy.as_str());
    out.append("' r='4' fill='");
    out.append(color.as_str());
    out.append("' />");
    out.append("<text class='text' x='");
    let tx = fmt_tenths(colx + 160);
    out.append(tx.as_str());
    out.append("' y='");
    out.append(ys.as_str());
    out.append("'>");
    out.append(e.0.as_str());
    out.append("</text>");
    let name_len = e.0.as_str().unicode_len();
    out.append("<text class='percent' x='");
    let px = fmt_tenths(colx + 160 + (name_len as u64) * 60);
    out.append(px.as_str());
    out.append("' y='");
    out.append(ys.as_str());
    out.append("'>");
    let ps = fmt_pct(e.1);
    out.append(ps.as_str());
    out.append("%</text>");
    proof {
        assert(color@ == spec_color_of(colors@, e.0@));
        assert(out@ =~= old(out)@ + spec_legend_item(*e, colors@, i as int, y as int));
    }
}

/// The sorted bar plus a wrapped three-column legend, as one SVG
/// document: exactly the head for the entry count, the proportional
/// segments and the legend entries in display order. An empty map yields
/// the bare bar and an empty legend, never an error. The length bounds
/// keep the coordinate arithmetic inside the machine word; they are far
/// above anything a real tree produces.
#[verifier::rlimit(100)]
#[verifier::spinoff_prover]
pub fn render_svg_ui(s: &Stats, colors: &Vec<(String, String)>) -> (r: String)
    requires
        forall|j: int| 0 <= j < s.entries@.len() ==> s.entries@[j].1 <= 10000,
        forall|j: int| 0 <= j < s.entries@.len() ==> s.entries@[j].0@.len()
            <= 1000000000000000,
        s.entries@.len() <= 1000000000000000,
    ensures
        exists|sorted: Seq<(String, u64)>|
            #[trigger] display_sorted(sorted, s.entries@) && r@ == spec_svg_ui_doc(
                sorted,
                colors@,
            ),
        r@.len() >= 6,
        r@.subrange(0, 4) == "<svg"@,
        r@.subrange(r@.len() - 6, r@.len() as int) == "</svg>"@,
{
    let sorted = sort_langs(&s.entries);
    proof {
        assert forall|j: int|
            0 <= j < sorted@.len() implies sorted@[j].1 <= 10000 && sorted@[j].0@.len()
            <= 1000000000000000 by {
            assert(s.entries@.contains(sorted@[j]));
            let k = choose|k: int| 0 <= k < s.entries@.len() && s.entries@[k] == sorted@[j];
        }
    }
    let n = sorted.len();
    let rows: u64 = (n as u64 + 2) / 3;
    let h: u64 = 40 + rows * 18;
    let hs = u64_to_string(h);
    let mut out = String::new();
    out.append("<svg xmlns='http://www.w3.org/2000/svg' width='320' height='");
    out.append(hs.as_str());
    out.append("' viewBox='0 0 320 ");
    out.append(hs.as_str());
    out.append("'>");
    out.append(
        "<style>.text { font-family:-apple-system,BlinkMacSystemFont,Helvetica,Arial,sans-serif; font-size:12px; fill:#c9d1d9; } .percent { fill:#8b949e; font-size:12px; }</style>",
    );
    out.append("<rect x='0' y='0' width='320' height='8' rx='4' ry='4' fill='#21262d' />");
    proof {
        assert(h == spec_ui_height(n as int));
        assert(out@ =~= spec_ui_head(n as int));
    }
    let ghost base1 = out@;
    let mut x: u64 = 0;
    let mut i: usize = 0;
    while i < n
        invariant
            n == sorted@.len(),
            n <= 1000000000000000,
            forall|j: int| 0 <= j < sorted@.len() ==> sorted@[j].1 <= 10000,
            i <= n,
            x <= 3200 * i,
            out@ + spec_segments(sorted@, colors@, i as int, x as int) == base1
                + spec_segments(sorted@, colors@, 0, 0),
        decreases n - i,
    {
        let pct = sorted[i].1;
        let w = seg_width(pct);
        let color = get_color(colors, sorted[i].0.as_str());
        let ghost o0 = out@;
        let ghost gx = x as int;
        push_segment(&mut out, x, w, color.as_str());
        x = x + w;
        proof {
            assert(color@ == spec_color_of(colors@, sorted@[i as int].0@));
            assert(spec_segments(sorted@, colors@, i as int, gx) == spec_segment_text(
                gx,
                w as int,
                color@,
            ) + spec_segments(sorted@, colors@, i as int + 1, gx + w));
            assert(out@ + spec_segments(sorted@, colors@, i as int + 1, gx + w) =~= o0
                + spec_segments(sorted@, colors@, i as int, gx));
        }
        i += 1;
    }
    proof {
        assert(spec_segments(sorted@, colors@, n as int, x as int) == Seq::<char>::empty());
        assert(out@ =~= base1 + spec_segments(sorted@, colors@, 0, 0));
    }
    let ghost base2 = out@;
    let mut y: u64 = 22;
    let mut i2: usize = 0;
    while i2 < n
        invariant
            n == sorted@.len(),
            n <= 1000000000000000,
            forall|j: int| 0 <= j < sorted@.len() ==> sorted@[j].1 <= 10000,
            forall|j: int|
                0 <= j < sorted@.len() ==> sorted@[j].0@.len() <= 1000000000000000,
            i2 <= n,
            22 <= y <= 22 + 18 * i2,
            out@ + spec_legend(sorted@, colors@, i2 as int, y as int) == base2 + spec_legend(
                sorted@,
                colors@,
                0,
                22,
            ),
        decreases n - i2,
    {
        let ghost y_in = y as int;
        if i2 % 3 == 0 && i2 > 0 {
            y = y + 18;
        }
        let ghost o0 = out@;
        push_legend_item(&mut out, &sorted[i2], i2, y, colors);
        proof {
            assert(spec_legend(sorted@, colors@, i2 as int, y_in) == spec_legend_item(
                sorted@[i2 as int],
                colors@,
                i2 as int,
                y as int,
            ) + spec_legend(sorted@, colors@, i2 as int + 1, y as int));
            assert(out@ + spec_legend(sorted@, colors@, i2 as int + 1, y as int) =~= o0
                + spec_legend(sorted@, colors@, i2 as int, y_in));
        }
        i2 += 1;
    }
    out.append("</svg>");
    proof {
        assert(spec_legend(sorted@, colors@, n as int, y as int) == Seq::<char>::empty());
        assert(out@ =~= spec_svg_ui_doc(sorted@, colors@));
        assert(display_sorted(sorted@, s.entries@) && out@ == spec_svg_ui_doc(
            sorted@,
            colors@,
        ));
        reveal_strlit("<svg xmlns='http://www.w3.org/2000/svg' width='320' height='");
        reveal_strlit("<svg");
        reveal_strlit("</svg>");
        assert(out@.subrange(0, 4) =~= "<svg"@);
        assert(out@.subrange(out@.len() - 6, out@.len() as int) =~= "</svg>"@);
    }
    out
}

/// The sorted bar plus legend as an HTML document with proportional-width
/// flex boxes. An empty map yields a bar with zero segments.
/// One proportional flex segment of the HTML bar.
pub open spec fn spec_html_seg(e: (String, u64), colors: Seq<(String, String)>) -> Seq<char> {
    "  <div class='lang' style='width:"@ + spec_fmt_tenths((e.1 as int + 5) / 10)
        + "%; background:"@ + spec_color_of(colors, e.0@) + "'></div>\n"@
}

pub open spec fn spec_html_segs(
    entries: Seq<(String, u64)>,
    colors: Seq<(String, String)>,
    i: int,
) -> Seq<char>
    decreases entries.len() - i,
{
    if i < 0 || i >= entries.len() {
        Seq::empty()
    } else {
        spec_html_seg(entries[i], colors) + spec_html_segs(entries, colors, i + 1)
    }
}

/// One legend item of the HTML document: dot, name, percentage.
pub open spec fn spec_html_item(e: (String, u64), colors: Seq<(String, String)>) -> Seq<char> {
    "  <div class='lang-item'><span class='lang-dot' style='background:"@ + spec_color_of(
        colors,
        e.0@,
    ) + "'></span>"@ + e.0@ + " <span class='lang-percent'>"@ + spec_fmt_tenths(
        (e.1 as int + 5) / 10,
    ) + "%</span></div>\n"@
}

pub open spec fn spec_html_items(
    entries: Seq<(String, u64)>,
    colors: Seq<(String, String)>,
    i: int,
) -> Seq<char>
    decreases entries.len() - i,
{
    if i < 0 || i >= entries.len() {
        Seq::empty()
    } else {
        spec_html_item(entries[i], colors) + spec_html_items(entries, colors, i + 1)
    }
}

/// The whole HTML document for one display order: the fixed head, one
/// flex segment per language, then one legend item per language, in the
/// same order.
pub open spec fn spec_html_doc(
    sorted: Seq<(String, u64)>,
    colors: Seq<(String, String)>,
) -> Seq<char> {
    "<!DOCTYPE html>\n<html lang='en'>\n<head>\n<meta charset='UTF-8'>\n<title>Languages</title>\n<style>\nbody { font-family: -apple-system, BlinkMacSystemFont, Helvetica, Arial, sans-serif; background-color: #0d1117; color: #c9d1d9; margin: 0; padding: 20px; }\n.lang-bar { display: flex; height: 8px; border-radius: 6px; overflow: hidden; background-color: #21262d; width: 100%; max-width: 320px; margin-bottom: 8px; }\n.lang { height: 100%; }\n.lang-line { display: flex; flex-wrap: wrap; max-width: 320px; gap: 8px 16px; font-size: 12px; color: #c9d1d9; }\n.lang-item { display: flex; align-items: center; gap: 6px; line-height: 1.6; }\n.lang-dot { width: 10px; height: 10px; border-radius: 50%; }\n.lang-percent { color: #8b949e; }\n</style>\n</head>\n<body>\n"@ + "<div class='lang-bar'>\n"@ + spec_html_segs(sorted, colors, 0)
        + "</div>\n<div class='lang-line'>\n"@ + spec_html_items(sorted, colors, 0)
        + "</div>\n</body>\n</html>"@
}

pub fn render_html_ui(s: &Stats, colors: &Vec<(String, String)>) -> (r: String)
    requires
        forall|j: int| 0 <= j < s.entries@.len() ==> s.entries@[j].1 <= 10000,
    ensures
        exists|sorted: Seq<(String, u64)>|
            #[trigger] display_sorted(sorted, s.entries@) && r@ == spec_html_doc(
                sorted,
                colors@,
            ),
        r@.len() >= 15,
        r@.subrange(0, 15) == "<!DOCTYPE html>"@,
        r@.subrange(r@.len() - 7, r@.len() as int) == "</html>"@,
{
    let sorted = sort_langs(&s.entries);
    proof {
        assert forall|j: int| 0 <= j < sorted@.len() implies sorted@[j].1 <= 10000 by {
            assert(s.entries@.contains(sorted@[j]));
            let k = choose|k: int| 0 <= k < s.entries@.len() && s.entries@[k] == sorted@[j];
        }
    }
    let mut out = String::new();
    out.append(
        "<!DOCTYPE html>\n<html lang='en'>\n<head>\n<meta charset='UTF-8'>\n<title>Languages</title>\n<style>\nbody { font-family: -apple-system, BlinkMacSystemFont, Helvetica, Arial, sans-serif; background-color: #0d1117; color: #c9d1d9; margin: 0; padding: 20px; }\n.lang-bar { display: flex; height: 8px; border-radius: 6px; overflow: hidden; background-color: #21262d; width: 100%; max-width: 320px; margin-bottom: 8px; }\n.lang { height: 100%; }\n.lang-line { display: flex; flex-wrap: wrap; max-width: 320px; gap: 8px 16px; font-size: 12px; color: #c9d1d9; }\n.lang-item { display: flex; align-items: center; gap: 6px; line-height: 1.6; }\n.lang-dot { width: 10px; height: 10px; border-radius: 50%; }\n.lang-percent { color: #8b949e; }\n</style>\n</head>\n<body>\n",
    );
    proof {
        reveal_strlit("<!DOCTYPE html>\n<html lang='en'>\n<head>\n<meta charset='UTF-8'>\n<title>Languages</title>\n<style>\nbody { font-family: -apple-system, BlinkMacSystemFont, Helvetica, Arial, sans-serif; background-color: #0d1117; color: #c9d1d9; margin: 0; padding: 20px; }\n.lang-bar { display: flex; height: 8px; border-radius: 6px; overflow: hidden; background-color: #21262d; width: 100%; max-width: 320px; margin-bottom: 8px; }\n.lang { height: 100%; }\n.lang-line { display: flex; flex-wrap: wrap; max-width: 320px; gap: 8px 16px; font-size: 12px; color: #c9d1d9; }\n.lang-item { display: flex; align-items: center; gap: 6px; line-height: 1.6; }\n.lang-dot { width: 10px; height: 10px; border-radius: 50%; }\n.lang-percent { color: #8b949e; }\n</style>\n</head>\n<body>\n");
        reveal_strlit("<!DOCTYPE html>");
        assert(("<!DOCTYPE html>"@).is_prefix_of(out@)) by {
            assert(out@.subrange(0, 15) =~= "<!DOCTYPE html>"@);
        }
    }
    out.append("<div class='lang-bar'>\n");
    let ghost base1 = out@;
    let n = sorted.len();
    let mut i: usize = 0;
    while i < n
        invariant
            n == sorted@.len(),
            forall|j: int| 0 <= j < sorted@.len() ==> sorted@[j].1 <= 10000,
            i <= n,
            out@ + spec_html_segs(sorted@, colors@, i as int) == base1 + spec_html_segs(
                sorted@,
                colors@,
                0,
            ),
        decreases n - i,
    {
        let color = get_color(colors, sorted[i].0.as_str());
        let ghost o0 = out@;
        out.append("  <div class='lang' style='width:");
        let ps = fmt_pct(sorted[i].1);
        out.append(ps.as_str());
        out.append("%; background:");
        out.append(color.as_str());
        out.append("'></div>\n");
        proof {
            assert(color@ == spec_color_of(colors@, sorted@[i as int].0@));
            assert(out@ =~= o0 + spec_html_seg(sorted@[i as int], colors@));
            assert(out@ + spec_html_segs(sorted@, colors@, i as int + 1) =~= o0
                + spec_html_segs(sorted@, colors@, i as int));
        }
        i += 1;
    }
    proof {
        assert(spec_html_segs(sorted@, colors@, n as int) == Seq::<char>::empty());
        assert(out@ =~= base1 + spec_html_segs(sorted@, colors@, 0));
    }
    out.append("</div>\n<div class='lang-line'>\n");
    let ghost base2 = out@;
    let mut i2: usize = 0;
    while i2 < n
        invariant
            n == sorted@.len(),
            forall|j: int| 0 <= j < sorted@.len() ==> sorted@[j].1 <= 10000,
            i2 <= n,
            out@ + spec_html_items(sorted@, colors@, i2 as int) == base2 + spec_html_items(
                sorted@,
                colors@,
                0,
            ),
        decreases n - i2,
    {
        let color = get_color(colors, sorted[i2].0.as_str());
        let ghost o0 = out@;
        out.append("  <div class='lang-item'><span class='lang-dot' style='background:");
        out.append(color.as_str());
        out.append("'></span>");
        out.append(sorted[i2].0.as_str());
        out.append(" <span class='lang-percent'>");
        let ps = fmt_pct(sorted[i2].1);
        out.append(ps.as_str());
        out.append("%</span></div>\n");
        proof {
            assert(color@ == spec_color_of(colors@, sorted@[i2 as int].0@));
            assert(out@ =~= o0 + spec_html_item(sorted@[i2 as int], colors@));
            assert(out@ + spec_html_items(sorted@, colors@, i2 as int + 1) =~= o0
                + spec_html_items(sorted@, colors@, i2 as int));
        }
        i2 += 1;
    }
    out.append("</div>\n</body>\n</html>");
    proof {
        assert(spec_html_items(sorted@, colors@, n as int) == Seq::<char>::empty());
        assert(out@ =~= spec_html_doc(sorted@, colors@));
        assert(display_sorted(sorted@, s.entries@) && out@ == spec_html_doc(
            sorted@,
            colors@,
        ));
        reveal_strlit("</div>\n</body>\n</html>");
        reveal_strlit("</html>");
        reveal_strlit("<!DOCTYPE html>");
        reveal_strlit("<!DOCTYPE html>\n<html lang='en'>\n<head>\n<meta charset='UTF-8'>\n<title>Languages</title>\n<style>\nbody { font-family: -apple-system, BlinkMacSystemFont, Helvetica, Arial, sans-serif; background-color: #0d1117; color: #c9d1d9; margin: 0; padding: 20px; }\n.lang-bar { display: flex; height: 8px; border-radius: 6px; overflow: hidden; background-color: #21262d; width: 100%; max-width: 320px; margin-bottom: 8px; }\n.lang { height: 100%; }\n.lang-line { display: flex; flex-wrap: wrap; max-width: 320px; gap: 8px 16px; font-size: 12px; color: #c9d1d9; }\n.lang-item { display: flex; align-items: center; gap: 6px; line-height: 1.6; }\n.lang-dot { width: 10px; height: 10px; border-radius: 50%; }\n.lang-percent { color: #8b949e; }\n</style>\n</head>\n<body>\n");
        assert(out@.subrange(0, 15) =~= "<!DOCTYPE html>"@);
        assert(out@.subrange(out@.len() - 7, out@.len() as int) =~= "</html>"@);
    }
    out
}

/// The fixed header of the badge document.
pub open spec fn spec_badge_head() -> Seq<char> {
    "<svg xmlns='http://www.w3.org/2000/svg' width='200' height='20' viewBox='0 0 200 20'>"@
}

/// The badge for one language: color block, name, and percentage to one
/// decimal.
pub open spec fn spec_badge_doc(name: Seq<char>, color: Seq<char>, pct: int) -> Seq<char> {
    spec_badge_head() + "<rect x='0' y='0' width='60' height='20' fill='"@ + color
        + "' /><text x='5' y='14' font-size='11'>"@ + name
        + "</text><text x='65' y='14' font-size='11'>"@ + spec_fmt_tenths((pct + 5) / 10)
        + "%</text>"@ + "</svg>"@
}

/// The badge for the empty map: neutral block, no name, zero percent.
pub open spec fn spec_badge_empty() -> Seq<char> {
    spec_badge_head() + "<rect x='0' y='0' width='60' height='20' fill='#cccccc' />"@
        + "<text x='65' y='14' font-size='11'>0.0%</text>"@ + "</svg>"@
}

/// The narrow badge: a fixed-width color block for the top language, its
/// name in its display color block, and its percentage. An empty map
/// yields the fixed neutral badge, never an error.
pub fn render_badge_svg(s: &Stats, colors: &Vec<(String, String)>) -> (r: String)
    requires
        forall|j: int| 0 <= j < s.entries@.len() ==> s.entries@[j].1 <= 10000,
    ensures
        s.entries@.len() == 0 ==> r@ == spec_badge_empty(),
        s.entries@.len() > 0 ==> exists|p: (Seq<char>, u64)|
            (exists|j: int|
                0 <= j < s.entries@.len() && s.entries@[j].0@ == p.0 && s.entries@[j].1 == p.1)
                && (forall|j: int| 0 <= j < s.entries@.len() ==> s.entries@[j].1 <= p.1)
                && r@ == spec_badge_doc(p.0, spec_color_of(colors@, p.0), p.1 as int),
        r@.len() >= 6,
        r@.subrange(0, 4) == "<svg"@,
        r@.subrange(r@.len() - 6, r@.len() as int) == "</svg>"@,
{
    let top = top_language(s);
    let mut out = String::new();
    out.append(
        "<svg xmlns='http://www.w3.org/2000/svg' width='200' height='20' viewBox='0 0 200 20'>",
    );
    match top {
        Some(p) => {
            let color = get_color(colors, p.0.as_str());
            out.append("<rect x='0' y='0' width='60' height='20' fill='");
            out.append(color.as_str());
            out.append("' /><text x='5' y='14' font-size='11'>");
            out.append(p.0.as_str());
            out.append("</text><text x='65' y='14' font-size='11'>");
            let ps = fmt_pct(p.1);
            out.append(ps.as_str());
            out.append("%</text>");
            proof {
                assert(color@ == spec_color_of(colors@, p.0@));
                let ghost gp = (p.0@, p.1);
                assert(out@ + "</svg>"@ =~= spec_badge_doc(
                    gp.0,
                    spec_color_of(colors@, gp.0),
                    gp.1 as int,
                ));
            }
        },
        None => {
            out.append("<rect x='0' y='0' width='60' height='20' fill='#cccccc' />");
            out.append("<text x='65' y='14' font-size='11'>0.0%</text>");
            proof {
                assert(out@ + "</svg>"@ =~= spec_badge_empty());
            }
        },
    }
    out.append("</svg>");
    proof {
        reveal_strlit(
            "<svg xmlns='http://www.w3.org/2000/svg' width='200' height='20' viewBox='0 0 200 20'>",
        );
        reveal_strlit("<svg");
        reveal_strlit("</svg>");
        assert(out@.subrange(0, 4) =~= "<svg"@);
        assert(out@.subrange(out@.len() - 6, out@.len() as int) =~= "</svg>"@);
    }
    out
}

/// The placeholder style: a static marker, not a real rendering mode.
pub fn render_pie() -> (r: String)
    ensures
        r@ == "pie view is not implemented"@,
{
    "pie view is not implemented".to_owned()
}

/// The output styles a caller can pick.
#[derive(Clone, Copy, PartialEq, Eq, Debug)]
pub enum Style {
    /// plain segmented bar, map order
    Github,
    /// sorted bar with legend
    GithubUi,
    /// single badge for the top language
    Badge,
    /// placeholder
    Pie,
}

/// Renders one style: each arm returns exactly what its family renderer
/// returns. Every style yields some output, also for an empty map;
/// unknown styles do not exist, the enumeration is closed.
pub fn render(s: &Stats, colors: &Vec<(String, String)>, style: Style) -> (r: String)
    requires
        forall|j: int| 0 <= j < s.entries@.len() ==> s.entries@[j].1 <= 10000,
        forall|j: int| 0 <= j < s.entries@.len() ==> s.entries@[j].0@.len()
            <= 1000000000000000,
        s.entries@.len() <= 1000000000000000,
    ensures
        r@.len() > 0,
        style == Style::Github ==> r@ == spec_bar_shell() + spec_segments(
            s.entries@,
            colors@,
            0,
            0,
        ) + "</svg>"@,
        style == Style::GithubUi ==> exists|sorted: Seq<(String, u64)>|
            #[trigger] display_sorted(sorted, s.entries@) && r@ == spec_svg_ui_doc(
                sorted,
                colors@,
            ),
        style == Style::Badge && s.entries@.len() == 0 ==> r@ == spec_badge_empty(),
        style == Style::Badge && s.entries@.len() > 0 ==> exists|p: (Seq<char>, u64)|
            (exists|j: int|
                0 <= j < s.entries@.len() && s.entries@[j].0@ == p.0 && s.entries@[j].1 == p.1)
                && (forall|j: int| 0 <= j < s.entries@.len() ==> s.entries@[j].1 <= p.1)
                && r@ == spec_badge_doc(p.0, spec_color_of(colors@, p.0), p.1 as int),
        style == Style::Pie ==> r@ == "pie view is not implemented"@,
{
    match style {
        Style::Github => render_bar_svg(s, colors),
        Style::GithubUi => render_svg_ui(s, colors),
        Style::Badge => render_badge_svg(s, colors),
        Style::Pie => {
            let r = render_pie();
            proof {
                reveal_strlit("pie view is not implemented");
            }
            r
        },
    }
}

} // verus!
