//! Graph building: the configuration holder, the per-style renderers, and
//! the axis drawer.

use vstd::prelude::*;

use crate::graph_canvas::CanvasModel;
use crate::graph_canvas::GraphCanvas;
use crate::graph_canvas::GraphPixel;

verus! {

/// Horizontal line segment.
pub const ASCII_0: char = '\u{2500}';

/// Vertical line segment.
pub const ASCII_1: char = '\u{2502}';

/// Top-left rounded corner.
pub const ASCII_2: char = '\u{256d}';

/// Bottom-left rounded corner.
pub const ASCII_3: char = '\u{2570}';

/// Top-right rounded corner.
pub const ASCII_4: char = '\u{256e}';

/// Bottom-right rounded corner.
pub const ASCII_7: char = '\u{256f}';

/// Which braille variant is drawn: six dots (2 columns of 3) or eight dots
/// (2 columns of 4) per character cell.
#[derive(PartialEq, Eq, Structural, Clone, Copy, Debug)]
pub enum BrailleType {
    Dot6,
    Dot8,
}

/// Available options for how the graph should look.
#[derive(PartialEq, Eq, Structural, Clone, Copy, Debug)]
pub enum GraphType {
    /// Use only `*` symbols.
    Star,
    /// Use pretty line-drawing characters.
    Ascii,
    /// Draw using braille unicode characters.
    Braille(BrailleType),
}

impl Default for GraphType {
    fn default() -> (r: Self)
        ensures
            r == GraphType::Star,
    {
        GraphType::Star
    }
}

impl GraphType {
    /// Whether this is one of the braille styles.
    pub open spec fn is_braille(self) -> bool {
        match self {
            GraphType::Braille(_) => true,
            _ => false,
        }
    }

    /// The braille variant of a braille graph type.
    pub fn btype(&self) -> (b: BrailleType)
        requires
            self.is_braille(),
        ensures
            *self == GraphType::Braille(b),
    {
        match self {
            GraphType::Braille(b) => *b,
            _ => BrailleType::Dot6,
        }
    }

    /// The braille variant of a braille style.
    pub open spec fn spec_btype(self) -> BrailleType {
        match self {
            GraphType::Braille(b) => b,
            _ => BrailleType::Dot6,
        }
    }

    /// How many sub-rows one character row holds in this style.
    pub open spec fn spec_y_scale(self) -> int {
        match self {
            GraphType::Braille(BrailleType::Dot6) => 3,
            GraphType::Braille(BrailleType::Dot8) => 4,
            _ => 1,
        }
    }

    /// How many samples one displayed column holds in this style.
    pub open spec fn spec_x_scale(self) -> int {
        if self.is_braille() {
            2
        } else {
            1
        }
    }
}

/// The braille character for a dot bit pattern.  Pattern 0 renders as a
/// plain space (no ink) rather than the blank braille glyph, and patterns
/// from 255 up render as a space as well (no pair of samples sets that many
/// dots).
pub open spec fn brc_spec(i: u32) -> char {
    if i == 0 {
        ' '
    } else if i < 255 {
        ((0x2800 + i) as u32) as char
    } else {
        ' '
    }
}

/// Relies on `char::from_u32`: for a valid unicode scalar value it returns
/// the character with that code point.  `0x2801..=0x28FE` are braille
/// pattern code points, all valid.
#[verifier::external_body]
fn braille_char_of(i: u32) -> (c: char)
    requires
        0 < i < 255,
    ensures
        c == ((0x2800 + i) as u32) as char,
{
    match char::from_u32(0x2800 + i) {
        Some(c) => c,
        None => ' ',
    }
}

/// Convert a dot bit pattern to a braille unicode character (brc: braille
/// char).  The bits represent the dots as below:
///
/// ```text
/// 1  4 | 1  4
/// 2  5 | 2  5
/// 3  6 | 3  6
///      | 7  8
/// ```
///
/// The [`brr`] function maps a sensible ordering of the 8-dot variant onto
/// this layout.
pub fn brc(i: u32) -> (c: char)
    ensures
        c == brc_spec(i),
{
    if i == 0 {
        ' '
    } else if i < 255 {
        braille_char_of(i)
    } else {
        ' '
    }
}

/// The dot-position remapping of [`brr`].
pub open spec fn brr_spec(i: int, btype: BrailleType) -> int {
    match btype {
        BrailleType::Dot6 => i,
        BrailleType::Dot8 => if i == 3 {
            6
        } else if i == 4 {
            3
        } else if i == 5 {
            4
        } else if i == 6 {
            5
        } else {
            i
        },
    }
}

/// Map a sensible braille dot numbering to the legacy bit layout of the
/// unicode braille block (brr: braille real).  The 6-dot variant needs no
/// remapping; in the 8-dot variant dot positions 7 and 8 are not contiguous
/// with 1..6 in the encoding.
pub fn brr(i: usize, btype: &BrailleType) -> (r: usize)
    ensures
        r as int == brr_spec(i as int, *btype),
{
    match btype {
        BrailleType::Dot6 => i,
        BrailleType::Dot8 => match i {
            3 => 6,
            4 => 3,
            5 => 4,
            6 => 5,
            _ => i,
        },
    }
}

/// The value of the single bit at dot position `k`.
pub open spec fn dot_bit(k: int) -> u32 {
    if k == 0 {
        1
    } else if k == 1 {
        2
    } else if k == 2 {
        4
    } else if k == 3 {
        8
    } else if k == 4 {
        16
    } else if k == 5 {
        32
    } else if k == 6 {
        64
    } else if k == 7 {
        128
    } else {
        0
    }
}

fn dot_bit_exec(k: usize) -> (b: u32)
    ensures
        b == dot_bit(k as int),
{
    match k {
        0 => 1,
        1 => 2,
        2 => 4,
        3 => 8,
        4 => 16,
        5 => 32,
        6 => 64,
        7 => 128,
        _ => 0,
    }
}

/// The pixel a renderer writes: the glyph in the accent color when color is
/// enabled, plain otherwise.
pub open spec fn color_pixel_spec(color: bool, c: char) -> GraphPixel {
    if color {
        GraphPixel::Green(c)
    } else {
        GraphPixel::Normal(c)
    }
}

/// The absolute cell index of drawable-relative position `(x, y)`.
pub open spec fn rel_pos(m: CanvasModel, x: int, y: int) -> int {
    (y + m.ro) * m.w + (x + m.co)
}

/// The two models agree on all dimensions and offsets.
pub open spec fn same_geometry(a: CanvasModel, b: CanvasModel) -> bool {
    &&& a.w == b.w
    &&& a.h == b.h
    &&& a.dw == b.dw
    &&& a.dh == b.dh
    &&& a.co == b.co
    &&& a.ro == b.ro
}

/// The drawable row a scaled value occupies: the vertical axis is inverted,
/// row 0 is the top.
pub open spec fn value_row(dh: int, v: int) -> int {
    dh - v - 1
}

/// The cells after the point-style renderer has drawn the first `n` samples:
/// one `*` marker per sample.
pub open spec fn star_cells(m: CanvasModel, values: Seq<i64>, color: bool, n: int) -> Seq<
    GraphPixel,
>
    decreases n,
{
    if n <= 0 {
        m.cells
    } else {
        star_cells(m, values, color, n - 1).update(
            rel_pos(m, n - 1, value_row(m.dh, values[n - 1] as int)),
            color_pixel_spec(color, '*'),
        )
    }
}

/// Left anchor tee glyph, stamped onto the axis where the line starts.
pub const TEE_LEFT: char = '\u{251c}';

/// Right anchor tee glyph, stamped onto the axis where the line ends.
pub const TEE_RIGHT: char = '\u{2524}';

/// The cells after vertical bar glyphs have been drawn at column `i`, rows
/// `lo..hi`.
pub open spec fn vbar_cells(
    cells: Seq<GraphPixel>,
    m: CanvasModel,
    color: bool,
    i: int,
    lo: int,
    hi: int,
) -> Seq<GraphPixel>
    decreases hi - lo,
{
    if hi <= lo {
        cells
    } else {
        vbar_cells(cells, m, color, i, lo, hi - 1).update(
            rel_pos(m, i, hi - 1),
            color_pixel_spec(color, ASCII_1),
        )
    }
}

/// The cells after the line segment of one adjacent pair has been drawn at
/// column `i`: a horizontal glyph for a flat pair, otherwise a corner at each
/// of the two rows with vertical bars strictly between them.
pub open spec fn ascii_pair_cells(
    cells: Seq<GraphPixel>,
    m: CanvasModel,
    color: bool,
    i: int,
    y1: int,
    y2: int,
) -> Seq<GraphPixel> {
    if y1 == y2 {
        cells.update(rel_pos(m, i, y1), color_pixel_spec(color, ASCII_0))
    } else if y1 > y2 {
        vbar_cells(
            cells.update(rel_pos(m, i, y1), color_pixel_spec(color, ASCII_7)).update(
                rel_pos(m, i, y2),
                color_pixel_spec(color, ASCII_2),
            ),
            m,
            color,
            i,
            y2 + 1,
            y1,
        )
    } else {
        vbar_cells(
            cells.update(rel_pos(m, i, y1), color_pixel_spec(color, ASCII_4)).update(
                rel_pos(m, i, y2),
                color_pixel_spec(color, ASCII_3),
            ),
            m,
            color,
            i,
            y1 + 1,
            y2,
        )
    }
}

/// The row of the second sample of the pair starting at `i`; the last pair
/// repeats its own row.
pub open spec fn pair_y2(m: CanvasModel, values: Seq<i64>, i: int) -> int {
    if i < values.len() - 1 {
        value_row(m.dh, values[i + 1] as int)
    } else {
        value_row(m.dh, values[i] as int)
    }
}

/// The cells after the line-style renderer has drawn the segments of the
/// first `n` adjacent pairs.
pub open spec fn ascii_pairs_cells(
    m: CanvasModel,
    values: Seq<i64>,
    color: bool,
    n: int,
) -> Seq<GraphPixel>
    decreases n,
{
    if n <= 0 {
        m.cells
    } else {
        ascii_pair_cells(
            ascii_pairs_cells(m, values, color, n - 1),
            m,
            color,
            n - 1,
            value_row(m.dh, values[n - 1] as int),
            pair_y2(m, values, n - 1),
        )
    }
}

/// The cells after the axis anchor tees have been stamped: with the axis
/// enabled (and its offsets in place), a left tee on the axis at the first
/// value's row and a right tee on the right border at the last value's row.
pub open spec fn tee_cells(m: CanvasModel, values: Seq<i64>, color: bool, axis: bool) -> Seq<
    GraphPixel,
> {
    if axis && m.co >= 1 && m.ro >= 1 && values.len() >= 1 {
        m.cells.update(
            (m.dh - values[0] as int) * m.w + (m.co - 1),
            color_pixel_spec(color, TEE_LEFT),
        ).update(
            (m.dh - values[values.len() - 1] as int) * m.w + (m.w - 1),
            color_pixel_spec(color, TEE_RIGHT),
        )
    } else {
        m.cells
    }
}

/// The cells after the whole line-style render: anchor tees first, then one
/// segment per adjacent pair.
pub open spec fn ascii_render_cells(
    m: CanvasModel,
    values: Seq<i64>,
    color: bool,
    axis: bool,
) -> Seq<GraphPixel> {
    ascii_pairs_cells(
        CanvasModel { cells: tee_cells(m, values, color, axis), ..m },
        values,
        color,
        values.len() as int,
    )
}

/// The dot bit pattern of the first sample of a pair: its sub-row within
/// its display row, remapped to the encoding's bit layout.
pub open spec fn braille_bit1(ys: int, bt: BrailleType, y1: int) -> u32 {
    dot_bit(brr_spec(y1 % ys, bt))
}

/// The dot bit pattern of the second sample of a pair: its sub-row, in the
/// right dot column (`+ ys`), remapped to the encoding's bit layout.
pub open spec fn braille_bit2(ys: int, bt: BrailleType, y2: int) -> u32 {
    dot_bit(brr_spec(y2 % ys + ys, bt))
}

/// The cells after one pair of adjacent samples (indices `i`, `i+1`, scaled
/// sub-row values `v1`, `v2`) has been drawn into displayed column `i/2`.
/// When both samples land in the same display row their bits combine into
/// one cell; otherwise each sample's bit is set in its own row's cell.
pub open spec fn braille_pair_cells(
    cells: Seq<GraphPixel>,
    m: CanvasModel,
    color: bool,
    ys: int,
    bt: BrailleType,
    i: int,
    v1: int,
    v2: int,
) -> Seq<GraphPixel> {
    let y1 = m.dh * ys - v1 - 1;
    let y2 = m.dh * ys - v2 - 1;
    let y1a = y1 / ys;
    let y2a = y2 / ys;
    let b1 = braille_bit1(ys, bt, y1);
    let b2 = braille_bit2(ys, bt, y2);
    if y1a == y2a {
        cells.update(rel_pos(m, i / 2, y1a), color_pixel_spec(color, brc_spec((b1 + b2) as u32)))
    } else {
        cells.update(rel_pos(m, i / 2, y1a), color_pixel_spec(color, brc_spec(b1))).update(
            rel_pos(m, i / 2, y2a),
            color_pixel_spec(color, brc_spec(b2)),
        )
    }
}

/// The cells after the braille renderer has drawn the first `k` pairs of
/// adjacent samples (pair `j` covers sample indices `2j` and `2j+1`).
pub open spec fn braille_cells(
    m: CanvasModel,
    values: Seq<i64>,
    color: bool,
    ys: int,
    bt: BrailleType,
    k: int,
) -> Seq<GraphPixel>
    decreases k,
{
    if k <= 0 {
        m.cells
    } else {
        braille_pair_cells(
            braille_cells(m, values, color, ys, bt, k - 1),
            m,
            color,
            ys,
            bt,
            2 * (k - 1),
            values[2 * (k - 1)] as int,
            values[2 * (k - 1) + 1] as int,
        )
    }
}

/// How many pairs the braille renderer draws from a series of this length:
/// every sample index `i` with `i` even and `i + 1` in range starts a pair;
/// a trailing lone sample is not drawn.
pub open spec fn braille_pair_count(len: int) -> int {
    if len < 2 {
        0
    } else {
        len / 2
    }
}

/// Every tick label fits within the margin that the widest one sets.
proof fn lemma_max_label_len_ge(min: int, max: int, h: int, i: int, j: int)
    requires
        0 <= j < i,
    ensures
        tick_label(min, max, h, j).len() <= max_label_len(min, max, h, i),
    decreases i,
{
    if j < i - 1 {
        lemma_max_label_len_ge(min, max, h, i - 1, j);
    }
}

/// Top-left axis corner.
pub const CORNER_TL: char = '\u{250c}';

/// Top-right axis corner.
pub const CORNER_TR: char = '\u{2510}';

/// Bottom-left axis corner.
pub const CORNER_BL: char = '\u{2514}';

/// Bottom-right axis corner.
pub const CORNER_BR: char = '\u{2518}';

/// The `i`-th of `h` evenly spaced tick values spanning `[min, max]`
/// inclusive, rounded to the nearest integer (index 0 at the bottom).  A
/// single row or a constant range pins every tick to `min`.
pub open spec fn tick_value(min: int, max: int, h: int, i: int) -> int {
    if max == min || h <= 1 {
        min
    } else {
        min + crate::sampling::round_ratio((max - min) * i, h - 1)
    }
}

/// The decimal label of the `i`-th tick.
pub open spec fn tick_label(min: int, max: int, h: int, i: int) -> Seq<char> {
    crate::numfmt::int_chars(tick_value(min, max, h, i))
}

/// The width of the widest of the first `i` tick labels.
pub open spec fn max_label_len(min: int, max: int, h: int, i: int) -> int
    decreases i,
{
    if i <= 0 {
        0
    } else {
        let l = tick_label(min, max, h, i - 1).len() as int;
        let m = max_label_len(min, max, h, i - 1);
        if l > m {
            l
        } else {
            m
        }
    }
}

/// The left margin the axis reserves for its tick labels.
pub open spec fn axis_margin(min: int, max: int, h: int) -> int {
    max_label_len(min, max, h, h)
}

/// What a cell of the canvas shows once the full axis (border box plus tick
/// labels) has been drawn over it, with label margin `xo`: corner glyphs
/// where the box corners fall, vertical bars along the margin column and the
/// right edge, horizontal bars along the top and bottom between them, tick
/// label text in the margin (largest value in the top row), everything else
/// untouched.
pub open spec fn axis_full_cell(
    old_px: GraphPixel,
    w: int,
    h: int,
    xo: int,
    min: int,
    max: int,
    r: int,
    c: int,
) -> GraphPixel {
    if r == 0 && c == xo {
        GraphPixel::Normal(CORNER_TL)
    } else if r == 0 && c == w - 1 {
        GraphPixel::Normal(CORNER_TR)
    } else if r == h - 1 && c == xo {
        GraphPixel::Normal(CORNER_BL)
    } else if r == h - 1 && c == w - 1 {
        GraphPixel::Normal(CORNER_BR)
    } else if c == xo || c == w - 1 {
        GraphPixel::Normal(ASCII_1)
    } else if (r == 0 || r == h - 1) && xo < c < w - 1 {
        GraphPixel::Normal(ASCII_0)
    } else if c < tick_label(min, max, h, h - 1 - r).len() {
        GraphPixel::Normal(tick_label(min, max, h, h - 1 - r)[c])
    } else {
        old_px
    }
}

/// The whole cell array once the full axis has been drawn.
pub open spec fn axis_cells_full(
    cells: Seq<GraphPixel>,
    w: int,
    h: int,
    xo: int,
    min: int,
    max: int,
) -> Seq<GraphPixel> {
    Seq::new(
        cells.len(),
        |i: int| axis_full_cell(cells[i], w, h, xo, min, max, i / w, i % w),
    )
}

/// The canvas model once the axis drawer has run: on a canvas with room for
/// the border and the label margin it draws the axis and shrinks the
/// drawable region inside it (each dimension only if more than 2 cells are
/// available in it); on a degenerate canvas it is a no-op.
pub open spec fn axis_model(m: CanvasModel, min: int, max: int) -> CanvasModel {
    let xo = axis_margin(min, max, m.h);
    if m.h < 2 || m.w < xo + 2 {
        m
    } else {
        CanvasModel {
            cells: axis_cells_full(m.cells, m.w, m.h, xo, min, max),
            w: m.w,
            h: m.h,
            dh: if m.dh > 2 {
                m.h - 2
            } else {
                m.dh
            },
            ro: if m.dh > 2 {
                1
            } else {
                m.ro
            },
            dw: if m.dw > 2 && m.w >= xo + 3 {
                m.w - 2 - xo
            } else {
                m.dw
            },
            co: if m.dw > 2 && m.w >= xo + 3 {
                xo + 1
            } else {
                m.co
            },
        }
    }
}

/// The `i`-th tick value, by exact integer rounding.
fn tick_exec(min: i64, max: i64, h: usize, i: usize) -> (t: i64)
    requires
        min <= max,
        h <= 0x1_0000_0000,
        i < h,
    ensures
        t as int == tick_value(min as int, max as int, h as int, i as int),
        min <= t <= max,
{
    if max == min || h <= 1 {
        min
    } else {
        let q: i128 = (max as i128) - (min as i128);
        let ii: i128 = i as i128;
        proof {
            vstd::arithmetic::mul::lemma_mul_nonnegative(q as int, i as int);
            vstd::arithmetic::mul::lemma_mul_upper_bound(
                q as int,
                0x1_0000_0000_0000_0000,
                i as int,
                0x1_0000_0000,
            );
        }
        let p: i128 = q * ii;
        let num: i128 = 2 * p + ((h - 1) as i128);
        let den: i128 = 2 * ((h - 1) as i128);
        let rr: i128 = num / den;
        proof {
            assert(q as int * (i as int) == (max - min) as int * (i as int));
            assert((max as int - min as int) * (i as int) <= (h as int - 1) * (max as int
                - min as int)) by (nonlinear_arith)
                requires
                    0 <= i as int <= h as int - 1,
                    min as int <= max as int,
            ;
            crate::sampling::lemma_round_ratio_range(
                p as int,
                h as int - 1,
                (max as int - min as int) + 1,
            );
            assert(rr == crate::sampling::round_ratio(
                (max as int - min as int) * (i as int),
                h as int - 1,
            ));
        }
        (min as i128 + rr) as i64
    }
}

/// The cells the configured renderer produces from the scaled series.
pub open spec fn render_style_cells(
    m: CanvasModel,
    gt: GraphType,
    values: Seq<i64>,
    color: bool,
    axis: bool,
) -> Seq<GraphPixel> {
    match gt {
        GraphType::Star => star_cells(m, values, color, values.len() as int),
        GraphType::Ascii => ascii_render_cells(m, values, color, axis),
        GraphType::Braille(bt) => braille_cells(
            m,
            values,
            color,
            gt.spec_y_scale(),
            bt,
            braille_pair_count(values.len() as int),
        ),
    }
}

/// The string [`GraphBuilder::build`] produces: the whole pipeline.  With
/// cut-overflow windowing on, the series is first truncated to the current
/// drawable width (approximately, since the axis margin is not known yet).
/// The value range of what survives fixes the scaling and the axis ticks.
/// After optional axis drawing has settled the drawable geometry, the series
/// is truncated once more to the now-exact width, downsampled to it, scaled
/// onto the drawable rows (or braille sub-rows), drawn in the configured
/// style, and the canvas is serialized.
pub open spec fn build_pipeline(
    m0: CanvasModel,
    gt: GraphType,
    cut: bool,
    axis: bool,
    color: bool,
    ys: Seq<i64>,
) -> Seq<char> {
    let xs = gt.spec_x_scale();
    let y1 = if cut {
        crate::sampling::window_spec(ys, m0.dw * xs)
    } else {
        ys
    };
    let min = crate::sampling::seq_min(y1) as int;
    let max = crate::sampling::seq_max(y1) as int;
    let m1 = if axis {
        axis_model(m0, min, max)
    } else {
        m0
    };
    let y2 = if cut {
        crate::sampling::window_spec(y1, m1.dw * xs)
    } else {
        y1
    };
    let y3 = crate::sampling::resample_spec(y2, m1.dw * xs);
    let y4 = crate::sampling::scale_spec(y3, min, max, m1.dh * gt.spec_y_scale());
    let cells = render_style_cells(m1, gt, y4, color, axis);
    crate::graph_canvas::render_chars(cells, m1.w, m1.h)
}

/// The string [`GraphBuilder::build`] produces from the builder's state.
pub open spec fn build_chars(b: GraphBuilder) -> Seq<char> {
    build_pipeline(
        b.spec_canvas().model(),
        b.spec_graph_type(),
        b.spec_cut_overflow(),
        b.spec_axis(),
        b.spec_color(),
        b.spec_y_values(),
    )
}


/// The model of a freshly allocated blank canvas.
pub open spec fn blank_model(w: int, h: int) -> CanvasModel {
    CanvasModel {
        cells: Seq::new((w * h) as nat, |i: int| GraphPixel::Blank),
        w: w,
        h: h,
        dw: w,
        dh: h,
        co: 0,
        ro: 0,
    }
}

/// The series after the pre-build windowing that the configuration asks
/// for: cut-overflow windowing happens inside the build itself; otherwise an
/// explicit last-N window is applied once, and without one the series stays
/// whole.
pub open spec fn configured_tail(y: Seq<i64>, o: crate::parseopts::Opts) -> Seq<i64> {
    if o.cut {
        y
    } else {
        match o.last_n {
            Some(n) => crate::sampling::window_spec(y, n as int),
            None => y,
        }
    }
}

/// Build a graph string from a series and a resolved option record: a
/// canvas of the configured size, the configured style, the axis unless
/// silent, color as configured, and the configured windowing.
pub fn build_graph(x_values: &Vec<i64>, y_values: &Vec<i64>, opts: &crate::parseopts::Opts) -> (r:
    String)
    requires
        x_values@.len() == y_values@.len(),
        y_values@.len() >= 1,
        1 <= opts.width,
        1 <= opts.height,
        opts.width * opts.height <= usize::MAX,
        opts.height * 4 <= 0x1_0000_0000,
        opts.height * 4 <= usize::MAX,
        opts.width * 2 <= usize::MAX,
        !opts.cut && opts.last_n is Some ==> opts.last_n->0 >= 1,
    ensures
        r@ == build_pipeline(
            blank_model(opts.width as int, opts.height as int),
            opts.graph_type,
            opts.cut,
            !opts.silent,
            opts.color,
            configured_tail(y_values@, *opts),
        ),
{
    let yl: usize = y_values.len();
    let mut gb = GraphBuilder::new(x_values, y_values, opts.width, opts.height);
    gb.color(opts.color);
    gb.axis(!opts.silent);
    gb.graph_type(opts.graph_type);
    if opts.cut {
        gb.cut_overflow(true);
    } else {
        match opts.last_n {
            Some(n) => {
                if n <= usize::MAX as u64 {
                    gb.keep_tail(n as usize);
                } else {
                    proof {
                        assert(crate::sampling::window_spec(y_values@, n as int) =~= y_values@);
                    }
                }
            },
            None => {},
        }
    }
    proof {
        assert(gb.spec_y_values() == configured_tail(y_values@, *opts));
        assert(gb.spec_canvas().model() == blank_model(opts.width as int, opts.height as int));
    }
    gb.build()
}

/// Temporary variables used while building a graph.
pub struct GraphBuilder {
    /// The canvas the graph is drawn into.
    canvas: GraphCanvas,
    /// The values of the x-axis of the graph, used only for count and order.
    x_values: Vec<i64>,
    /// The values of the y-axis of the graph.
    y_values: Vec<i64>,
    /// Whether an axis is drawn on the resulting graph.
    enable_axis: bool,
    /// Which style the graph is drawn in.
    graph_type: GraphType,
    /// Continuously truncate the series to what fits the drawable width.
    cut_overflow: bool,
    /// Whether to use color pixels.
    enable_color: bool,
}

impl GraphBuilder {
    /// The canvas model.
    pub closed spec fn spec_canvas(&self) -> GraphCanvas {
        self.canvas
    }

    /// The stored x-values.
    pub closed spec fn spec_x_values(&self) -> Seq<i64> {
        self.x_values@
    }

    /// The stored y-values.
    pub closed spec fn spec_y_values(&self) -> Seq<i64> {
        self.y_values@
    }

    /// Whether an axis will be drawn.
    pub closed spec fn spec_axis(&self) -> bool {
        self.enable_axis
    }

    /// The configured graph style.
    pub closed spec fn spec_graph_type(&self) -> GraphType {
        self.graph_type
    }

    /// Whether cut-overflow windowing is enabled.
    pub closed spec fn spec_cut_overflow(&self) -> bool {
        self.cut_overflow
    }

    /// Whether color is enabled.
    pub closed spec fn spec_color(&self) -> bool {
        self.enable_color
    }

    /// Well-formedness: the canvas is well-formed.
    pub open spec fn wf(&self) -> bool {
        self.spec_canvas().wf()
    }

    /// The two builders hold the same canvas and the same series.
    pub open spec fn same_canvas_series(a: Self, b: Self) -> bool {
        &&& a.spec_canvas() == b.spec_canvas()
        &&& a.spec_x_values() == b.spec_x_values()
        &&& a.spec_y_values() == b.spec_y_values()
    }

    /// The two builders hold the same configuration flags.
    pub open spec fn same_config(a: Self, b: Self) -> bool {
        &&& a.spec_axis() == b.spec_axis()
        &&& a.spec_graph_type() == b.spec_graph_type()
        &&& a.spec_cut_overflow() == b.spec_cut_overflow()
        &&& a.spec_color() == b.spec_color()
    }

    /// Create a new builder over the given series with the desired canvas
    /// width and height.  Axis drawing starts out disabled, color enabled,
    /// and the style is the default point style.
    pub fn new(x_values: &Vec<i64>, y_values: &Vec<i64>, width: usize, height: usize) -> (b: Self)
        requires
            x_values@.len() == y_values@.len(),
            1 <= width,
            1 <= height,
            width * height <= usize::MAX,
        ensures
            b.wf(),
            b.spec_x_values() == x_values@,
            b.spec_y_values() == y_values@,
            b.spec_canvas().model() == (CanvasModel {
                cells: Seq::new((width * height) as nat, |i: int| GraphPixel::Blank),
                w: width as int,
                h: height as int,
                dw: width as int,
                dh: height as int,
                co: 0,
                ro: 0,
            }),
            b.spec_axis() == false,
            b.spec_graph_type() == GraphType::Star,
            b.spec_cut_overflow() == false,
            b.spec_color() == true,
    {
        let canvas = GraphCanvas::new(width, height);
        let mut xs: Vec<i64> = Vec::new();
        let mut ys: Vec<i64> = Vec::new();
        let mut i: usize = 0;
        let n = x_values.len();
        while i < n
            invariant
                i <= n,
                n == x_values@.len(),
                n == y_values@.len(),
                xs@ =~= x_values@.take(i as int),
                ys@ =~= y_values@.take(i as int),
            decreases n - i,
        {
            xs.push(x_values[i]);
            ys.push(y_values[i]);
            i = i + 1;
        }
        proof {
            assert(x_values@.take(n as int) =~= x_values@);
            assert(y_values@.take(n as int) =~= y_values@);
        }
        GraphBuilder {
            canvas,
            x_values: xs,
            y_values: ys,
            enable_axis: false,
            graph_type: GraphType::Star,
            cut_overflow: false,
            enable_color: true,
        }
    }

    /// Enable or disable the axis in the output.
    pub fn axis(&mut self, enable_axis: bool)
        ensures
            Self::same_canvas_series(*old(self), *final(self)),
            final(self).spec_axis() == enable_axis,
            final(self).spec_graph_type() == old(self).spec_graph_type(),
            final(self).spec_cut_overflow() == old(self).spec_cut_overflow(),
            final(self).spec_color() == old(self).spec_color(),
    {
        self.enable_axis = enable_axis;
    }

    /// Set the graph style.
    pub fn graph_type(&mut self, graph_type: GraphType)
        ensures
            Self::same_canvas_series(*old(self), *final(self)),
            final(self).spec_graph_type() == graph_type,
            final(self).spec_axis() == old(self).spec_axis(),
            final(self).spec_cut_overflow() == old(self).spec_cut_overflow(),
            final(self).spec_color() == old(self).spec_color(),
    {
        self.graph_type = graph_type;
    }

    /// Enable or disable color.
    pub fn color(&mut self, enable_color: bool)
        ensures
            Self::same_canvas_series(*old(self), *final(self)),
            final(self).spec_color() == enable_color,
            final(self).spec_axis() == old(self).spec_axis(),
            final(self).spec_graph_type() == old(self).spec_graph_type(),
            final(self).spec_cut_overflow() == old(self).spec_cut_overflow(),
    {
        self.enable_color = enable_color;
    }

    /// Enable cut-overflow windowing.  This works differently from calling
    /// [`GraphBuilder::keep_tail`] directly: the axis margin must be computed
    /// first, so during [`GraphBuilder::build`] the tail is kept once ahead
    /// of axis drawing with an approximate target and once after it with the
    /// exact drawable width.
    pub fn cut_overflow(&mut self, enable: bool)
        ensures
            Self::same_canvas_series(*old(self), *final(self)),
            final(self).spec_cut_overflow() == enable,
            final(self).spec_axis() == old(self).spec_axis(),
            final(self).spec_graph_type() == old(self).spec_graph_type(),
            final(self).spec_color() == old(self).spec_color(),
    {
        self.cut_overflow = enable;
    }

    /// Delete all saved samples before the last `n`, in both the x and the
    /// y array.
    pub fn keep_tail(&mut self, n: usize)
        ensures
            final(self).spec_canvas() == old(self).spec_canvas(),
            Self::same_config(*old(self), *final(self)),
            final(self).spec_x_values() == crate::sampling::window_spec(
                old(self).spec_x_values(),
                n as int,
            ),
            final(self).spec_y_values() == crate::sampling::window_spec(
                old(self).spec_y_values(),
                n as int,
            ),
    {
        let ys = crate::sampling::keep_last(&self.y_values, n);
        let xs = crate::sampling::keep_last(&self.x_values, n);
        self.y_values = ys;
        self.x_values = xs;
    }

    /// The pixel a renderer writes: the glyph in the green accent color
    /// when color is enabled, plain otherwise.
    fn color_pixel(&self, px: char) -> (p: GraphPixel)
        ensures
            p == color_pixel_spec(self.spec_color(), px),
    {
        if self.enable_color {
            GraphPixel::Green(px)
        } else {
            GraphPixel::Normal(px)
        }
    }

    /// Set a pixel at an absolute position in the canvas.
    fn draw_exact(&mut self, x: usize, y: usize, px: GraphPixel)
        requires
            old(self).wf(),
            x < old(self).spec_canvas().spec_full_width(),
            y < old(self).spec_canvas().spec_full_height(),
        ensures
            final(self).wf(),
            same_geometry(old(self).spec_canvas().model(), final(self).spec_canvas().model()),
            final(self).spec_canvas().model().cells == old(
                self,
            ).spec_canvas().model().cells.update(
                y * old(self).spec_canvas().model().w + x,
                px,
            ),
            final(self).spec_x_values() == old(self).spec_x_values(),
            final(self).spec_y_values() == old(self).spec_y_values(),
            Self::same_config(*old(self), *final(self)),
    {
        self.canvas.set(x, y, px);
    }

    /// Set a pixel in the drawable part of the canvas.
    fn draw(&mut self, x: usize, y: usize, px: GraphPixel)
        requires
            old(self).wf(),
            x < old(self).spec_canvas().spec_width(),
            y < old(self).spec_canvas().spec_height(),
        ensures
            final(self).wf(),
            same_geometry(old(self).spec_canvas().model(), final(self).spec_canvas().model()),
            final(self).spec_canvas().model().cells == old(
                self,
            ).spec_canvas().model().cells.update(
                rel_pos(old(self).spec_canvas().model(), x as int, y as int),
                px,
            ),
            final(self).spec_x_values() == old(self).spec_x_values(),
            final(self).spec_y_values() == old(self).spec_y_values(),
            Self::same_config(*old(self), *final(self)),
    {
        let ax: usize = x + self.canvas.col_offset();
        let ay: usize = y + self.canvas.row_offset();
        self.canvas.set(ax, ay, px);
    }

    /// Draw a graph using `*` for the pixels of the graph.  Every sample `i`
    /// at scaled value `v` puts exactly one marker at drawable position
    /// `(col i, row dh - v - 1)`.
    pub fn draw_star(&mut self)
        requires
            old(self).wf(),
            old(self).spec_y_values().len() <= old(self).spec_canvas().spec_width(),
            forall|i: int|
                0 <= i < old(self).spec_y_values().len() ==> 0 <= #[trigger] old(
                    self,
                ).spec_y_values()[i] < old(self).spec_canvas().spec_height(),
        ensures
            final(self).wf(),
            same_geometry(old(self).spec_canvas().model(), final(self).spec_canvas().model()),
            final(self).spec_canvas().model().cells == star_cells(
                old(self).spec_canvas().model(),
                old(self).spec_y_values(),
                old(self).spec_color(),
                old(self).spec_y_values().len() as int,
            ),
            final(self).spec_x_values() == old(self).spec_x_values(),
            final(self).spec_y_values() == old(self).spec_y_values(),
            Self::same_config(*old(self), *final(self)),
    {
        let ghost b0 = *self;
        let ghost m0 = self.spec_canvas().model();
        let ghost values = self.spec_y_values();
        let ghost color = self.spec_color();
        let n = self.y_values.len();
        let mut i: usize = 0;
        while i < n
            invariant
                i <= n,
                self.wf(),
                n == self.spec_y_values().len(),
                self.spec_y_values() == values,
                self.spec_x_values() == b0.spec_x_values(),
                Self::same_config(b0, *self),
                self.spec_color() == color,
                values.len() <= self.spec_canvas().spec_width(),
                forall|j: int|
                    0 <= j < values.len() ==> 0 <= #[trigger] values[j] < self.spec_canvas().spec_height(),
                same_geometry(m0, self.spec_canvas().model()),
                self.spec_canvas().model().cells == star_cells(m0, values, color, i as int),
            decreases n - i,
        {
            let v: i64 = self.y_values[i];
            let y: usize = self.canvas.height() - (v as usize) - 1;
            let px = self.color_pixel('*');
            self.draw(i, y, px);
            i = i + 1;
        }
    }

    /// Draw a graph using somewhat pretty line-drawing characters: one
    /// segment per adjacent pair of samples, with corner glyphs and vertical
    /// bars where the line rises or falls, and, when the axis is enabled,
    /// anchor tees where the line meets the borders.
    pub fn draw_ascii(&mut self)
        requires
            old(self).wf(),
            1 <= old(self).spec_y_values().len() <= old(self).spec_canvas().spec_width(),
            forall|i: int|
                0 <= i < old(self).spec_y_values().len() ==> 0 <= #[trigger] old(
                    self,
                ).spec_y_values()[i] < old(self).spec_canvas().spec_height(),
        ensures
            final(self).wf(),
            same_geometry(old(self).spec_canvas().model(), final(self).spec_canvas().model()),
            final(self).spec_canvas().model().cells == ascii_render_cells(
                old(self).spec_canvas().model(),
                old(self).spec_y_values(),
                old(self).spec_color(),
                old(self).spec_axis(),
            ),
            final(self).spec_x_values() == old(self).spec_x_values(),
            final(self).spec_y_values() == old(self).spec_y_values(),
            Self::same_config(*old(self), *final(self)),
    {
        let ghost b0 = *self;
        let ghost m0 = self.spec_canvas().model();
        let ghost values = self.spec_y_values();
        let ghost color = self.spec_color();
        let ghost axis0 = self.spec_axis();
        let n = self.y_values.len();
        let dh = self.canvas.height();
        if self.enable_axis {
            let co = self.canvas.col_offset();
            let ro = self.canvas.row_offset();
            if co >= 1 && ro >= 1 {
                let v0 = self.y_values[0];
                let p = self.color_pixel(TEE_LEFT);
                self.draw_exact(co - 1, dh - (v0 as usize), p);
                let vl = self.y_values[n - 1];
                let p2 = self.color_pixel(TEE_RIGHT);
                let w = self.canvas.full_width();
                self.draw_exact(w - 1, dh - (vl as usize), p2);
            }
        }
        proof {
            assert(self.spec_canvas().model().cells == tee_cells(m0, values, color, axis0));
        }
        let ghost mt = CanvasModel { cells: tee_cells(m0, values, color, axis0), ..m0 };
        let mut i: usize = 0;
        while i < n
            invariant
                i <= n,
                self.wf(),
                n == values.len(),
                self.spec_y_values() == values,
                self.spec_x_values() == b0.spec_x_values(),
                Self::same_config(b0, *self),
                self.spec_color() == color,
                dh == m0.dh,
                values.len() <= self.spec_canvas().spec_width(),
                forall|j: int|
                    0 <= j < values.len() ==> 0 <= #[trigger] values[j] < self.spec_canvas().spec_height(),
                same_geometry(m0, self.spec_canvas().model()),
                same_geometry(mt, m0),
                self.spec_canvas().model().cells == ascii_pairs_cells(mt, values, color, i as int),
            decreases n - i,
        {
            let v1 = self.y_values[i];
            let y1: usize = dh - (v1 as usize) - 1;
            let y2: usize = if i + 1 < n {
                dh - (self.y_values[i + 1] as usize) - 1
            } else {
                y1
            };
            proof {
                assert(y1 as int == value_row(mt.dh, values[i as int] as int));
                assert(y2 as int == pair_y2(mt, values, i as int));
            }
            let ghost cells_pre = self.spec_canvas().model().cells;
            if y1 == y2 {
                let p = self.color_pixel(ASCII_0);
                self.draw(i, y1, p);
            } else if y1 > y2 {
                let p = self.color_pixel(ASCII_7);
                self.draw(i, y1, p);
                let p2 = self.color_pixel(ASCII_2);
                self.draw(i, y2, p2);
                let ghost cells_c = self.spec_canvas().model().cells;
                let mut j: usize = y2 + 1;
                while j < y1
                    invariant
                        y2 + 1 <= j <= y1,
                        y1 < dh,
                        i < n,
                        n == values.len(),
                        self.wf(),
                        self.spec_y_values() == values,
                        self.spec_x_values() == b0.spec_x_values(),
                        Self::same_config(b0, *self),
                        self.spec_color() == color,
                        dh == m0.dh,
                        values.len() <= self.spec_canvas().spec_width(),
                        same_geometry(m0, self.spec_canvas().model()),
                        same_geometry(mt, m0),
                        self.spec_canvas().model().cells == vbar_cells(
                            cells_c,
                            mt,
                            color,
                            i as int,
                            y2 as int + 1,
                            j as int,
                        ),
                    decreases y1 - j,
                {
                    let p3 = self.color_pixel(ASCII_1);
                    self.draw(i, j, p3);
                    j = j + 1;
                }
                proof {
                    assert(self.spec_canvas().model().cells == ascii_pair_cells(
                        cells_pre,
                        mt,
                        color,
                        i as int,
                        y1 as int,
                        y2 as int,
                    ));
                }
            } else {
                let p = self.color_pixel(ASCII_4);
                self.draw(i, y1, p);
                let p2 = self.color_pixel(ASCII_3);
                self.draw(i, y2, p2);
                let ghost cells_c = self.spec_canvas().model().cells;
                let mut j: usize = y1 + 1;
                while j < y2
                    invariant
                        y1 + 1 <= j <= y2,
                        y2 < dh,
                        i < n,
                        n == values.len(),
                        self.wf(),
                        self.spec_y_values() == values,
                        self.spec_x_values() == b0.spec_x_values(),
                        Self::same_config(b0, *self),
                        self.spec_color() == color,
                        dh == m0.dh,
                        values.len() <= self.spec_canvas().spec_width(),
                        same_geometry(m0, self.spec_canvas().model()),
                        same_geometry(mt, m0),
                        self.spec_canvas().model().cells == vbar_cells(
                            cells_c,
                            mt,
                            color,
                            i as int,
                            y1 as int + 1,
                            j as int,
                        ),
                    decreases y2 - j,
                {
                    let p3 = self.color_pixel(ASCII_1);
                    self.draw(i, j, p3);
                    j = j + 1;
                }
                proof {
                    assert(self.spec_canvas().model().cells == ascii_pair_cells(
                        cells_pre,
                        mt,
                        color,
                        i as int,
                        y1 as int,
                        y2 as int,
                    ));
                }
            }
            i = i + 1;
        }
    }

    /// Draw a graph using braille characters: two adjacent samples pack into
    /// one displayed column, and each character cell stacks several sub-rows
    /// as dot bits.
    pub fn draw_braille(&mut self)
        requires
            old(self).wf(),
            old(self).spec_graph_type().is_braille(),
            old(self).spec_canvas().spec_height() * old(self).spec_graph_type().spec_y_scale()
                <= usize::MAX,
            old(self).spec_y_values().len() <= 2 * old(self).spec_canvas().spec_width(),
            forall|i: int|
                0 <= i < old(self).spec_y_values().len() ==> 0 <= #[trigger] old(
                    self,
                ).spec_y_values()[i] < old(self).spec_canvas().spec_height() * old(
                    self,
                ).spec_graph_type().spec_y_scale(),
        ensures
            final(self).wf(),
            same_geometry(old(self).spec_canvas().model(), final(self).spec_canvas().model()),
            final(self).spec_canvas().model().cells == braille_cells(
                old(self).spec_canvas().model(),
                old(self).spec_y_values(),
                old(self).spec_color(),
                old(self).spec_graph_type().spec_y_scale(),
                old(self).spec_graph_type().spec_btype(),
                braille_pair_count(old(self).spec_y_values().len() as int),
            ),
            final(self).spec_x_values() == old(self).spec_x_values(),
            final(self).spec_y_values() == old(self).spec_y_values(),
            Self::same_config(*old(self), *final(self)),
    {
        let ghost b0 = *self;
        let ghost m0 = self.spec_canvas().model();
        let ghost values = self.spec_y_values();
        let ghost color = self.spec_color();
        let gt = self.graph_type;
        let bt = gt.btype();
        let ys: usize = match bt {
            BrailleType::Dot6 => 3,
            BrailleType::Dot8 => 4,
        };
        let dh = self.canvas.height();
        let n = self.y_values.len();
        let np: usize = n / 2;
        proof {
            if n >= 2 {
                assert(np as int == braille_pair_count(n as int));
            } else {
                assert(n / 2 == 0) by {
                    vstd::arithmetic::div_mod::lemma_basic_div(n as int, 2);
                }
            }
        }
        let mut k: usize = 0;
        while k < np
            invariant
                k <= np,
                np == n / 2,
                2 * np <= n,
                n == values.len(),
                self.wf(),
                self.spec_y_values() == values,
                self.spec_x_values() == b0.spec_x_values(),
                Self::same_config(b0, *self),
                self.spec_color() == color,
                self.spec_graph_type() == b0.spec_graph_type(),
                ys as int == b0.spec_graph_type().spec_y_scale(),
                b0.spec_graph_type() == GraphType::Braille(bt),
                dh == m0.dh,
                m0.dh * ys <= usize::MAX,
                values.len() <= 2 * self.spec_canvas().spec_width(),
                forall|j: int|
                    0 <= j < values.len() ==> 0 <= #[trigger] values[j] < m0.dh * ys,
                same_geometry(m0, self.spec_canvas().model()),
                self.spec_canvas().model().cells == braille_cells(
                    m0,
                    values,
                    color,
                    ys as int,
                    bt,
                    k as int,
                ),
            decreases np - k,
        {
            proof {
                vstd::arithmetic::div_mod::lemma_mod_division_less_than_divisor(n as int, 2);
                vstd::arithmetic::div_mod::lemma_fundamental_div_mod(n as int, 2);
            }
            let i: usize = 2 * k;
            let v1 = self.y_values[i];
            let v2 = self.y_values[i + 1];
            let scale_h: usize = dh * ys;
            let y1: usize = scale_h - (v1 as usize) - 1;
            let y2: usize = scale_h - (v2 as usize) - 1;
            let y1a: usize = y1 / ys;
            let y2a: usize = y2 / ys;
            proof {
                assert(dh as int * ys as int == ys as int * dh as int) by (nonlinear_arith);
                vstd::arithmetic::div_mod::lemma_multiply_divide_lt(y1 as int, ys as int, dh as int);
                vstd::arithmetic::div_mod::lemma_multiply_divide_lt(y2 as int, ys as int, dh as int);
                vstd::arithmetic::div_mod::lemma_div_pos_is_pos(y1 as int, ys as int);
                vstd::arithmetic::div_mod::lemma_div_pos_is_pos(y2 as int, ys as int);
                vstd::arithmetic::div_mod::lemma_multiply_divide_lt(
                    i as int,
                    2,
                    self.spec_canvas().spec_width() as int,
                );
                vstd::arithmetic::div_mod::lemma_mod_division_less_than_divisor(
                    y1 as int,
                    ys as int,
                );
                vstd::arithmetic::div_mod::lemma_mod_division_less_than_divisor(
                    y2 as int,
                    ys as int,
                );
            }
            let pxx1: u32 = dot_bit_exec(brr(y1 % ys, &bt));
            let pxx2: u32 = dot_bit_exec(brr((y2 % ys) + ys, &bt));
            proof {
                assert(pxx1 == braille_bit1(ys as int, bt, y1 as int));
                assert(pxx2 == braille_bit2(ys as int, bt, y2 as int));
                assert(1 <= pxx1 <= 64);
                assert(8 <= pxx2 <= 128);
            }
            let ghost cells_pre = self.spec_canvas().model().cells;
            if y1a == y2a {
                let c = brc(pxx1 + pxx2);
                let p = self.color_pixel(c);
                self.draw(i / 2, y1a, p);
            } else {
                let c1 = brc(pxx1);
                let p1 = self.color_pixel(c1);
                self.draw(i / 2, y1a, p1);
                let c2 = brc(pxx2);
                let p2 = self.color_pixel(c2);
                self.draw(i / 2, y2a, p2);
            }
            proof {
                assert(2 * ((k as int + 1) - 1) == i as int);
                assert(self.spec_canvas().model().cells == braille_pair_cells(
                    cells_pre,
                    m0,
                    color,
                    ys as int,
                    bt,
                    i as int,
                    v1 as int,
                    v2 as int,
                ));
                assert(self.spec_canvas().model().cells == braille_cells(
                    m0,
                    values,
                    color,
                    ys as int,
                    bt,
                    k as int + 1,
                ));
            }
            k = k + 1;
        }
    }

    /// Add the axis to the canvas and move the graph drawing area inside
    /// it: compute the tick labels for the value range, reserve the margin
    /// their widest one needs, and draw the border box with the labels.
    fn draw_axis(&mut self, min: i64, max: i64)
        requires
            old(self).wf(),
            min <= max,
            old(self).spec_canvas().spec_full_height() <= 0x1_0000_0000,
        ensures
            final(self).wf(),
            final(self).spec_canvas().model() == axis_model(
                old(self).spec_canvas().model(),
                min as int,
                max as int,
            ),
            final(self).spec_x_values() == old(self).spec_x_values(),
            final(self).spec_y_values() == old(self).spec_y_values(),
            Self::same_config(*old(self), *final(self)),
    {
        let ghost b0 = *self;
        let ghost m0 = self.spec_canvas().model();
        let h = self.canvas.full_height();
        let w = self.canvas.full_width();
        let mut labels: Vec<String> = Vec::new();
        let mut xo: usize = 0;
        let mut i: usize = 0;
        while i < h
            invariant
                i <= h,
                min <= max,
                h <= 0x1_0000_0000,
                labels@.len() == i,
                forall|j: int|
                    0 <= j < i ==> #[trigger] labels@[j]@ == tick_label(
                        min as int,
                        max as int,
                        h as int,
                        j,
                    ),
                xo as int == max_label_len(min as int, max as int, h as int, i as int),
            decreases h - i,
        {
            let t = tick_exec(min, max, h, i);
            let s = crate::numfmt::fmt_i64(t);
            let l = s.as_str().unicode_len();
            if l > xo {
                xo = l;
            }
            labels.push(s);
            i = i + 1;
        }
        if h < 2 || w < 2 || w - 2 < xo {
            proof {
                assert(m0.h < 2 || m0.w < axis_margin(min as int, max as int, m0.h) + 2);
            }
            return ;
        }
        proof {
            self.canvas.lemma_cells_len_bound();
            assert forall|j: int| 0 <= j < h implies (#[trigger] labels@[j]@).len() <= xo as int by {
                lemma_max_label_len_ge(min as int, max as int, h as int, h as int, j);
            }
        }
        let ghost oc = m0.cells;
        let ghost xoi = xo as int;
        let ghost mini = min as int;
        let ghost maxi = max as int;
        let mut r: usize = 0;
        while r < h
            invariant
                r <= h,
                2 <= h,
                xo + 2 <= w,
                self.wf(),
                self.spec_x_values() == b0.spec_x_values(),
                self.spec_y_values() == b0.spec_y_values(),
                Self::same_config(b0, *self),
                same_geometry(m0, self.spec_canvas().model()),
                h as int == m0.h,
                w as int == m0.w,
                oc.len() == m0.w * m0.h,
                oc.len() <= usize::MAX,
                self.spec_canvas().model().cells.len() == oc.len(),
                labels@.len() == h,
                forall|j: int|
                    0 <= j < h ==> #[trigger] labels@[j]@ == tick_label(mini, maxi, h as int, j),
                forall|j: int| 0 <= j < h ==> (#[trigger] labels@[j]@).len() <= xoi,
                xoi == xo,
                forall|rr: int, cc: int|
                    0 <= rr < h && 0 <= cc < w ==> #[trigger] self.spec_canvas().model().cells[rr
                        * m0.w + cc] == (if rr < r {
                        axis_full_cell(oc[rr * m0.w + cc], m0.w, m0.h, xoi, mini, maxi, rr, cc)
                    } else {
                        oc[rr * m0.w + cc]
                    }),
            decreases h - r,
        {
            let mut c: usize = 0;
            while c < w
                invariant
                    r < h,
                    c <= w,
                    2 <= h,
                    xo + 2 <= w,
                    self.wf(),
                    self.spec_x_values() == b0.spec_x_values(),
                    self.spec_y_values() == b0.spec_y_values(),
                    Self::same_config(b0, *self),
                    same_geometry(m0, self.spec_canvas().model()),
                    h as int == m0.h,
                    w as int == m0.w,
                    oc.len() == m0.w * m0.h,
                    oc.len() <= usize::MAX,
                    self.spec_canvas().model().cells.len() == oc.len(),
                    labels@.len() == h,
                    forall|j: int|
                        0 <= j < h ==> #[trigger] labels@[j]@ == tick_label(
                            mini,
                            maxi,
                            h as int,
                            j,
                        ),
                    forall|j: int| 0 <= j < h ==> (#[trigger] labels@[j]@).len() <= xoi,
                    xoi == xo,
                    forall|rr: int, cc: int|
                        0 <= rr < h && 0 <= cc < w ==> #[trigger] self.spec_canvas().model().cells[
                            rr * m0.w + cc] == (if rr < r || (rr == r && cc < c) {
                            axis_full_cell(oc[rr * m0.w + cc], m0.w, m0.h, xoi, mini, maxi, rr, cc)
                        } else {
                            oc[rr * m0.w + cc]
                        }),
                decreases w - c,
            {
                let ghost cells_pre = self.spec_canvas().model().cells;
                if r == 0 && c == xo {
                    self.canvas.set(c, r, GraphPixel::Normal(CORNER_TL));
                } else if r == 0 && c == w - 1 {
                    self.canvas.set(c, r, GraphPixel::Normal(CORNER_TR));
                } else if r == h - 1 && c == xo {
                    self.canvas.set(c, r, GraphPixel::Normal(CORNER_BL));
                } else if r == h - 1 && c == w - 1 {
                    self.canvas.set(c, r, GraphPixel::Normal(CORNER_BR));
                } else if c == xo || c == w - 1 {
                    self.canvas.set(c, r, GraphPixel::Normal(ASCII_1));
                } else if (r == 0 || r == h - 1) && xo < c && c < w - 1 {
                    self.canvas.set(c, r, GraphPixel::Normal(ASCII_0));
                } else {
                    let lab = &labels[h - 1 - r];
                    let ll = lab.as_str().unicode_len();
                    if c < ll {
                        let ch = lab.as_str().get_char(c);
                        self.canvas.set(c, r, GraphPixel::Normal(ch));
                    }
                }
                proof {
                    assert forall|rr: int, cc: int| 0 <= rr < h && 0 <= cc < w implies #[trigger] self.spec_canvas().model().cells[rr * m0.w + cc] == (if rr < r || (rr == r && cc
                        < c + 1) {
                        axis_full_cell(oc[rr * m0.w + cc], m0.w, m0.h, xoi, mini, maxi, rr, cc)
                    } else {
                        oc[rr * m0.w + cc]
                    }) by {
                        crate::graph_canvas::lemma_rowcol_unique(rr, cc, m0.w);
                        crate::graph_canvas::lemma_rowcol_unique(r as int, c as int, m0.w);
                        crate::graph_canvas::lemma_grid_index_bound(rr, cc, m0.w, m0.h);
                        crate::graph_canvas::lemma_grid_index_bound(r as int, c as int, m0.w, m0.h);
                    }
                }
                c = c + 1;
            }
            r = r + 1;
        }
        proof {
            let target = axis_cells_full(oc, m0.w, m0.h, xoi, mini, maxi);
            assert forall|k: int| 0 <= k < oc.len() implies self.spec_canvas().model().cells[k]
                == target[k] by {
                crate::graph_canvas::lemma_index_rowcol(k, m0.w, m0.h);
                crate::graph_canvas::lemma_rowcol_unique(k / m0.w, k % m0.w, m0.w);
            }
            assert(self.spec_canvas().model().cells =~= target);
        }
        let dh = self.canvas.height();
        let dw = self.canvas.width();
        let co = self.canvas.col_offset();
        let ro = self.canvas.row_offset();
        let mut ndh = dh;
        let mut nro = ro;
        if dh > 2 {
            ndh = h - 2;
            nro = 1;
        }
        let mut ndw = dw;
        let mut nco = co;
        if dw > 2 && w - 2 > xo {
            ndw = w - 2 - xo;
            nco = xo + 1;
        }
        self.canvas.set_drawable(nco, nro, ndw, ndh);
    }

    /// Turn the canvas into a string.
    pub fn to_string(&self) -> (out: String)
        requires
            self.wf(),
        ensures
            out@ == crate::graph_canvas::render_chars(
                self.spec_canvas().model().cells,
                self.spec_canvas().model().w,
                self.spec_canvas().model().h,
            ),
    {
        self.canvas.to_string()
    }

    /// Build the actual graph.  This is potentially a heavy operation, and
    /// it mutates the stored series in place; to keep the pre-build state,
    /// clone first.
    #[verifier::rlimit(100)]
    pub fn build(&mut self) -> (out: String)
        requires
            old(self).wf(),
            old(self).spec_y_values().len() >= 1,
            old(self).spec_canvas().spec_full_height() * 4 <= 0x1_0000_0000,
            old(self).spec_canvas().spec_full_height() * 4 <= usize::MAX,
            old(self).spec_canvas().spec_full_width() * 2 <= usize::MAX,
        ensures
            final(self).wf(),
            out@ == build_chars(*old(self)),
    {
        let ghost b0 = *self;
        let ghost m0 = self.spec_canvas().model();
        let ghost xsi = b0.spec_graph_type().spec_x_scale();
        let xs: usize = match self.graph_type {
            GraphType::Braille(_) => 2,
            _ => 1,
        };
        if self.cut_overflow {
            let target: usize = self.canvas.width() * xs;
            self.keep_tail(target);
        }
        let ghost y1 = (if b0.spec_cut_overflow() {
            crate::sampling::window_spec(b0.spec_y_values(), m0.dw * xsi)
        } else {
            b0.spec_y_values()
        });
        proof {
            assert(self.spec_y_values() == y1);
            assert(y1.len() >= 1);
        }
        let min = crate::sampling::series_min(&self.y_values);
        let max = crate::sampling::series_max(&self.y_values);
        proof {
            crate::sampling::lemma_min_max_bound(y1);
        }
        if self.enable_axis {
            self.draw_axis(min, max);
        }
        let ghost m1 = (if b0.spec_axis() {
            axis_model(m0, min as int, max as int)
        } else {
            m0
        });
        proof {
            assert(self.spec_canvas().model() == m1);
        }
        if self.cut_overflow {
            let target2: usize = self.canvas.width() * xs;
            self.keep_tail(target2);
        }
        let ghost y2 = (if b0.spec_cut_overflow() {
            crate::sampling::window_spec(y1, m1.dw * xsi)
        } else {
            y1
        });
        proof {
            assert(self.spec_y_values() == y2);
        }
        let target: usize = self.canvas.width() * xs;
        let resampled = crate::sampling::resample(&self.y_values, target);
        self.y_values = resampled;
        let ghost y3 = crate::sampling::resample_spec(y2, m1.dw * xsi);
        proof {
            assert(self.spec_y_values() == y3);
            assert forall|i: int| 0 <= i < y2.len() implies min <= #[trigger] y2[i] <= max by {
                if y1.len() > m1.dw * xsi {
                }
            }
            if y2.len() >= target {
                crate::sampling::lemma_resample_properties(y2, target as int);
            }
            assert forall|i: int| 0 <= i < y3.len() implies min <= #[trigger] y3[i] <= max by {
                if y2.len() >= target {
                    crate::sampling::lemma_resample_properties(y2, target as int);
                }
            }
        }
        let ysc: usize = match self.graph_type {
            GraphType::Braille(BrailleType::Dot6) => 3,
            GraphType::Braille(BrailleType::Dot8) => 4,
            _ => 1,
        };
        proof {
            assert(m1.h == m0.h);
            assert(self.spec_canvas().spec_height() as int == m1.dh);
            assert(m1.dh + self.spec_canvas().spec_row_offset() as int <= m1.h);
            assert(m1.dh <= m0.h);
            assert(ysc as int == b0.spec_graph_type().spec_y_scale());
            vstd::arithmetic::mul::lemma_mul_upper_bound(m1.dh, m0.h, ysc as int, 4);
            assert(m0.h * 4 <= 0x1_0000_0000);
            assert(m1.dh * ysc as int <= 0x1_0000_0000);
        }
        let r: u64 = (self.canvas.height() as u64) * (ysc as u64);
        proof {
            assert(r as int == m1.dh * b0.spec_graph_type().spec_y_scale());
            assert(1 <= r as int);
            assert(r as int <= 0x1_0000_0000);
        }
        let scaled = crate::sampling::scale(&self.y_values, min, max, r);
        self.y_values = scaled;
        let ghost y4 = crate::sampling::scale_spec(y3, min as int, max as int, r as int);
        proof {
            assert(self.spec_y_values() == y4);
            assert(y4.len() == y3.len());
        }
        match self.graph_type {
            GraphType::Star => self.draw_star(),
            GraphType::Ascii => self.draw_ascii(),
            GraphType::Braille(_) => self.draw_braille(),
        }
        proof {
            assert(self.spec_canvas().model().cells == render_style_cells(
                m1,
                b0.spec_graph_type(),
                y4,
                b0.spec_color(),
                b0.spec_axis(),
            ));
        }
        let out = self.canvas.to_string();
        proof {
            assert(out@ == build_chars(b0));
        }
        out
    }

    /// The stored x-values.
    pub fn x_values(&self) -> (v: &Vec<i64>)
        ensures
            v@ == self.spec_x_values(),
    {
        &self.x_values
    }

    /// The stored y-values.
    pub fn y_values(&self) -> (v: &Vec<i64>)
        ensures
            v@ == self.spec_y_values(),
    {
        &self.y_values
    }
}

} // verus!
