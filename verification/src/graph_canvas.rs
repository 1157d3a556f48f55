//! The character canvas: a grid of colorable cells with an inset drawable
//! region, serialized row-major to a newline-separated string.

use vstd::prelude::*;

verus! {

/// One cell of the canvas: a character together with an optional color tag.
/// `Blank` is the background value and serializes to a single space with no
/// color escape.
#[derive(Clone, Copy, PartialEq, Eq, Structural, Debug)]
pub enum GraphPixel {
    Normal(char),
    Green(char),
    Blue(char),
    Red(char),
    Yellow(char),
    Magenta(char),
    Cyan(char),
    Blank,
}

impl Default for GraphPixel {
    fn default() -> (r: Self)
        ensures
            r == GraphPixel::Blank,
    {
        GraphPixel::Blank
    }
}

/// The character a pixel puts on the screen, color aside.
pub open spec fn pixel_payload(p: GraphPixel) -> char {
    match p {
        GraphPixel::Normal(c) => c,
        GraphPixel::Green(c) => c,
        GraphPixel::Blue(c) => c,
        GraphPixel::Red(c) => c,
        GraphPixel::Yellow(c) => c,
        GraphPixel::Magenta(c) => c,
        GraphPixel::Cyan(c) => c,
        GraphPixel::Blank => ' ',
    }
}

/// The second digit of the ANSI foreground color code of a colored pixel.
pub open spec fn pixel_color_digit(p: GraphPixel) -> char {
    match p {
        GraphPixel::Green(_) => '2',
        GraphPixel::Blue(_) => '4',
        GraphPixel::Red(_) => '1',
        GraphPixel::Yellow(_) => '3',
        GraphPixel::Magenta(_) => '5',
        GraphPixel::Cyan(_) => '6',
        _ => ' ',
    }
}

/// Whether serializing the pixel wraps it in a color escape.
pub open spec fn pixel_colored(p: GraphPixel) -> bool {
    match p {
        GraphPixel::Normal(_) => false,
        GraphPixel::Blank => false,
        _ => true,
    }
}

/// The exact character sequence a pixel serializes to: the payload character,
/// wrapped in `ESC[3<digit>m ... ESC[0m` for colored pixels.
pub open spec fn pixel_chars(p: GraphPixel) -> Seq<char> {
    if pixel_colored(p) {
        seq!['\x1b', '[', '3', pixel_color_digit(p), 'm', pixel_payload(p), '\x1b', '[', '0', 'm']
    } else {
        seq![pixel_payload(p)]
    }
}

/// Relies on `String::push`: appends the given character to the end of the
/// string.
#[verifier::external_body]
pub(crate) fn push_char(out: &mut String, c: char)
    ensures
        final(out)@ == old(out)@.push(c),
{
    out.push(c);
}

fn push_pixel(out: &mut String, p: GraphPixel)
    ensures
        final(out)@ == old(out)@ + pixel_chars(p),
{
    let (colored, digit, payload): (bool, char, char) = match p {
        GraphPixel::Normal(c) => (false, ' ', c),
        GraphPixel::Green(c) => (true, '2', c),
        GraphPixel::Blue(c) => (true, '4', c),
        GraphPixel::Red(c) => (true, '1', c),
        GraphPixel::Yellow(c) => (true, '3', c),
        GraphPixel::Magenta(c) => (true, '5', c),
        GraphPixel::Cyan(c) => (true, '6', c),
        GraphPixel::Blank => (false, ' ', ' '),
    };
    if colored {
        push_char(out, '\x1b');
        push_char(out, '[');
        push_char(out, '3');
        push_char(out, digit);
        push_char(out, 'm');
        push_char(out, payload);
        push_char(out, '\x1b');
        push_char(out, '[');
        push_char(out, '0');
        push_char(out, 'm');
        assert(out@ =~= old(out)@ + pixel_chars(p));
    } else {
        push_char(out, payload);
        assert(out@ =~= old(out)@ + pixel_chars(p));
    }
}

/// The serialization of one row of cells, concatenated left to right.
pub open spec fn pixel_row_chars(cells: Seq<GraphPixel>) -> Seq<char>
    decreases cells.len(),
{
    if cells.len() == 0 {
        Seq::empty()
    } else {
        pixel_chars(cells[0]) + pixel_row_chars(cells.drop_first())
    }
}

/// The cells of row `row` of a row-major grid of width `width`.
pub open spec fn row_cells(cells: Seq<GraphPixel>, width: int, row: int) -> Seq<GraphPixel> {
    cells.subrange(row * width, (row + 1) * width)
}

/// The serialization of rows `row..height`, with a newline after every row
/// except the last.
pub open spec fn render_rows(cells: Seq<GraphPixel>, width: int, height: int, row: int) -> Seq<
    char,
>
    decreases height - row,
{
    if row < 0 || row >= height {
        Seq::empty()
    } else {
        pixel_row_chars(row_cells(cells, width, row)) + (if row + 1 < height {
            seq!['\n']
        } else {
            Seq::<char>::empty()
        }) + render_rows(cells, width, height, row + 1)
    }
}

/// The full serialization of a `width` x `height` grid of cells: rows
/// row-major, a newline after every row but the last.
pub open spec fn render_chars(cells: Seq<GraphPixel>, width: int, height: int) -> Seq<char> {
    render_rows(cells, width, height, 0)
}

proof fn lemma_pixel_row_chars_push(cells: Seq<GraphPixel>, p: GraphPixel)
    ensures
        pixel_row_chars(cells.push(p)) == pixel_row_chars(cells) + pixel_chars(p),
    decreases cells.len(),
{
    if cells.len() == 0 {
        assert(cells.push(p).len() == 1);
        assert(cells.push(p)[0] == p);
        assert(cells.push(p).drop_first() =~= Seq::<GraphPixel>::empty());
        assert(pixel_row_chars(Seq::<GraphPixel>::empty()) =~= Seq::<char>::empty());
        assert(pixel_row_chars(cells) =~= Seq::<char>::empty());
        assert(pixel_row_chars(cells.push(p)) =~= pixel_chars(p) + Seq::<char>::empty());
        assert(pixel_row_chars(cells.push(p)) =~= pixel_row_chars(cells) + pixel_chars(p));
    } else {
        assert(cells.push(p)[0] == cells[0]);
        assert(cells.push(p).drop_first() =~= cells.drop_first().push(p));
        lemma_pixel_row_chars_push(cells.drop_first(), p);
        assert(pixel_row_chars(cells.push(p)) =~= pixel_row_chars(cells) + pixel_chars(p));
    }
}

/// How many times `c` occurs in `s` from position `i` on.
pub open spec fn count_from(s: Seq<char>, i: int, c: char) -> nat
    decreases s.len() - i,
{
    if i < 0 || i >= s.len() {
        0
    } else {
        (if s[i] == c {
            1nat
        } else {
            0nat
        }) + count_from(s, i + 1, c)
    }
}

/// How many times `c` occurs in `s`.
pub open spec fn count_char(s: Seq<char>, c: char) -> nat {
    count_from(s, 0, c)
}

/// The characters of `s` from position `i` on that are actually shown: the
/// ANSI color escapes (`ESC` up to the closing `m`) are skipped.
pub open spec fn visible_from(s: Seq<char>, i: int, in_esc: bool) -> Seq<char>
    decreases s.len() - i,
{
    if i < 0 || i >= s.len() {
        Seq::empty()
    } else if in_esc {
        visible_from(s, i + 1, s[i] != 'm')
    } else if s[i] == '\x1b' {
        visible_from(s, i + 1, true)
    } else {
        seq![s[i]] + visible_from(s, i + 1, false)
    }
}

/// The shown characters of a serialized row: everything except the color
/// escapes.
pub open spec fn visible_chars(s: Seq<char>) -> Seq<char> {
    visible_from(s, 0, false)
}

/// Counting past a prefix counts the suffix.
proof fn lemma_count_shift(a: Seq<char>, b: Seq<char>, j: int, c: char)
    requires
        0 <= j <= b.len(),
    ensures
        count_from(a + b, a.len() + j, c) == count_from(b, j, c),
    decreases b.len() - j,
{
    if j < b.len() {
        assert((a + b)[a.len() + j] == b[j]);
        lemma_count_shift(a, b, j + 1, c);
    }
}

/// Character counting distributes over concatenation.
proof fn lemma_count_prefix(a: Seq<char>, b: Seq<char>, i: int, c: char)
    requires
        0 <= i <= a.len(),
    ensures
        count_from(a + b, i, c) == count_from(a, i, c) + count_from(b, 0, c),
    decreases a.len() - i,
{
    if i == a.len() {
        lemma_count_shift(a, b, 0, c);
    } else {
        assert((a + b)[i] == a[i]);
        lemma_count_prefix(a, b, i + 1, c);
    }
}

/// Character counting distributes over concatenation.
proof fn lemma_count_concat(a: Seq<char>, b: Seq<char>, c: char)
    ensures
        count_char(a + b, c) == count_char(a, c) + count_char(b, c),
{
    lemma_count_prefix(a, b, 0, c);
}

/// A pixel's serialization holds no occurrence of `c` when neither its
/// payload nor an escape character is `c`.
proof fn lemma_count_pixel(p: GraphPixel, c: char)
    requires
        pixel_payload(p) != c,
        c != '\x1b',
        c != '[',
        c != 'm',
        c != '0',
        c != '1',
        c != '2',
        c != '3',
        c != '4',
        c != '5',
        c != '6',
    ensures
        count_char(pixel_chars(p), c) == 0,
{
    let s = pixel_chars(p);
    if pixel_colored(p) {
        assert(s.len() == 10);
        assert(count_from(s, 10, c) == 0);
        assert(s[9] == 'm' && s[8] == '0' && s[7] == '[' && s[6] == '\x1b');
        assert(s[5] == pixel_payload(p));
        assert(s[4] == 'm' && s[2] == '3' && s[1] == '[' && s[0] == '\x1b');
        assert(s[3] == pixel_color_digit(p));
        assert(count_from(s, 9, c) == 0);
        assert(count_from(s, 8, c) == 0);
        assert(count_from(s, 7, c) == 0);
        assert(count_from(s, 6, c) == 0);
        assert(count_from(s, 5, c) == 0);
        assert(count_from(s, 4, c) == 0);
        assert(count_from(s, 3, c) == 0);
        assert(count_from(s, 2, c) == 0);
        assert(count_from(s, 1, c) == 0);
        assert(count_from(s, 0, c) == 0);
    } else {
        assert(s.len() == 1);
        assert(s[0] == pixel_payload(p));
        assert(count_from(s, 1, c) == 0);
        assert(count_from(s, 0, c) == 0);
    }
}

/// Reading past a prefix reads the suffix.
proof fn lemma_visible_from_shift(a: Seq<char>, b: Seq<char>, j: int, st: bool)
    requires
        0 <= j <= b.len(),
    ensures
        visible_from(a + b, a.len() + j, st) == visible_from(b, j, st),
    decreases b.len() - j,
{
    if j == b.len() {
    } else {
        assert((a + b)[a.len() + j] == b[j]);
        if st {
            lemma_visible_from_shift(a, b, j + 1, b[j] != 'm');
        } else if b[j] == '\x1b' {
            lemma_visible_from_shift(a, b, j + 1, true);
        } else {
            lemma_visible_from_shift(a, b, j + 1, false);
        }
    }
}

/// The payload characters of a row of cells, one per cell.
pub open spec fn payload_seq(cells: Seq<GraphPixel>) -> Seq<char> {
    Seq::new(cells.len(), |i: int| pixel_payload(cells[i]))
}

/// What one pixel's serialization shows: its payload character; the color
/// escape around it is skipped.
proof fn lemma_visible_pixel(p: GraphPixel, rest: Seq<char>)
    requires
        pixel_payload(p) != '\x1b',
    ensures
        visible_from(pixel_chars(p) + rest, 0, false) == seq![pixel_payload(p)] + visible_from(
            rest,
            0,
            false,
        ),
{
    let a = pixel_chars(p);
    let s = a + rest;
    assert(forall|i: int| 0 <= i < a.len() ==> s[i] == a[i]);
    if pixel_colored(p) {
        assert(a.len() == 10);
        assert(a[9] == 'm' && a[8] == '0' && a[7] == '[' && a[6] == '\x1b');
        assert(a[5] == pixel_payload(p));
        assert(a[4] == 'm' && a[2] == '3' && a[1] == '[' && a[0] == '\x1b');
        assert(a[3] == pixel_color_digit(p));
        assert(a[3] != 'm');
        lemma_visible_from_shift(a, rest, 0, false);
        assert(visible_from(s, 10, false) == visible_from(rest, 0, false));
        assert(visible_from(s, 9, true) == visible_from(rest, 0, false));
        assert(visible_from(s, 8, true) == visible_from(rest, 0, false));
        assert(visible_from(s, 7, true) == visible_from(rest, 0, false));
        assert(visible_from(s, 6, false) == visible_from(rest, 0, false));
        assert(visible_from(s, 5, false) == seq![pixel_payload(p)] + visible_from(rest, 0, false));
        assert(visible_from(s, 4, true) == visible_from(s, 5, false));
        assert(visible_from(s, 3, true) == visible_from(s, 5, false));
        assert(visible_from(s, 2, true) == visible_from(s, 5, false));
        assert(visible_from(s, 1, true) == visible_from(s, 5, false));
        assert(visible_from(s, 0, false) == visible_from(s, 5, false));
    } else {
        assert(a.len() == 1);
        assert(a[0] == pixel_payload(p));
        lemma_visible_from_shift(a, rest, 0, false);
        assert(visible_from(s, 1, false) == visible_from(rest, 0, false));
        assert(visible_from(s, 0, false) == seq![pixel_payload(p)] + visible_from(rest, 0, false));
    }
}

/// What a serialized row shows, color escapes skipped: exactly one payload
/// character per cell, in order.
proof fn lemma_visible_row(cells: Seq<GraphPixel>)
    requires
        forall|i: int| 0 <= i < cells.len() ==> pixel_payload(#[trigger] cells[i]) != '\x1b',
    ensures
        visible_chars(pixel_row_chars(cells)) == payload_seq(cells),
    decreases cells.len(),
{
    if cells.len() == 0 {
        assert(visible_chars(pixel_row_chars(cells)) =~= payload_seq(cells));
    } else {
        lemma_visible_row(cells.drop_first());
        lemma_visible_pixel(cells[0], pixel_row_chars(cells.drop_first()));
        assert(visible_chars(pixel_row_chars(cells)) == seq![pixel_payload(cells[0])]
            + payload_seq(cells.drop_first()));
        assert(seq![pixel_payload(cells[0])] + payload_seq(cells.drop_first()) =~= payload_seq(
            cells,
        ));
    }
}

/// A serialized row holds no occurrence of `c` when no payload in it is `c`
/// and `c` is no escape character.
proof fn lemma_count_row(cells: Seq<GraphPixel>, c: char)
    requires
        forall|i: int| 0 <= i < cells.len() ==> pixel_payload(#[trigger] cells[i]) != c,
        c != '\x1b',
        c != '[',
        c != 'm',
        c != '0',
        c != '1',
        c != '2',
        c != '3',
        c != '4',
        c != '5',
        c != '6',
    ensures
        count_char(pixel_row_chars(cells), c) == 0,
    decreases cells.len(),
{
    if cells.len() > 0 {
        lemma_count_row(cells.drop_first(), c);
        lemma_count_pixel(cells[0], c);
        lemma_count_concat(pixel_chars(cells[0]), pixel_row_chars(cells.drop_first()), c);
    }
}

/// Rows `r..h` of the render hold exactly `h - r - 1` newlines when no
/// payload is a newline.
proof fn lemma_count_render_rows(cells: Seq<GraphPixel>, w: int, h: int, r: int)
    requires
        1 <= w,
        0 <= r < h,
        cells.len() == w * h,
        forall|i: int| 0 <= i < cells.len() ==> pixel_payload(#[trigger] cells[i]) != '\n',
    ensures
        count_char(render_rows(cells, w, h, r), '\n') == h - r - 1,
    decreases h - r,
{
    lemma_row_start_bounds(r, w, h);
    let row = pixel_row_chars(row_cells(cells, w, r));
    assert forall|i: int| 0 <= i < row_cells(cells, w, r).len() implies pixel_payload(
        #[trigger] row_cells(cells, w, r)[i],
    ) != '\n' by {
        assert((r + 1) * w == r * w + w) by (nonlinear_arith);
        assert(row_cells(cells, w, r)[i] == cells[r * w + i]);
    }
    lemma_count_row(row_cells(cells, w, r), '\n');
    let sep: Seq<char> = if r + 1 < h {
        seq!['\n']
    } else {
        Seq::<char>::empty()
    };
    assert(count_from(sep, 1, '\n') == 0);
    assert(count_char(sep, '\n') == (if r + 1 < h {
        1nat
    } else {
        0nat
    }));
    if r + 1 < h {
        lemma_count_render_rows(cells, w, h, r + 1);
    } else {
        assert(count_char(render_rows(cells, w, h, r + 1), '\n') == 0);
    }
    lemma_count_concat(sep, render_rows(cells, w, h, r + 1), '\n');
    lemma_count_concat(row, sep + render_rows(cells, w, h, r + 1), '\n');
    assert(render_rows(cells, w, h, r) == row + (sep + render_rows(cells, w, h, r + 1)));
}

/// The shape of the rendered string of an `h` x `w` canvas: it holds exactly
/// `h - 1` newline characters, and each of its `h` lines, which serializes
/// one row of cells, shows exactly `w` characters once the color escapes are
/// skipped -- the payload of each of that row's cells, in order.  This holds
/// whenever no cell shows a newline or an escape character itself.
pub proof fn lemma_render_shape(cells: Seq<GraphPixel>, w: int, h: int)
    requires
        1 <= w,
        1 <= h,
        cells.len() == w * h,
        forall|i: int|
            0 <= i < cells.len() ==> pixel_payload(#[trigger] cells[i]) != '\n' && pixel_payload(
                cells[i],
            ) != '\x1b',
    ensures
        count_char(render_chars(cells, w, h), '\n') == h - 1,
        forall|r: int|
            0 <= r < h ==> visible_chars(pixel_row_chars(#[trigger] row_cells(cells, w, r)))
                == payload_seq(row_cells(cells, w, r)),
        forall|r: int|
            0 <= r < h ==> visible_chars(pixel_row_chars(#[trigger] row_cells(cells, w, r))).len()
                == w,
{
    lemma_count_render_rows(cells, w, h, 0);
    assert forall|r: int| 0 <= r < h implies visible_chars(
        pixel_row_chars(#[trigger] row_cells(cells, w, r)),
    ) == payload_seq(row_cells(cells, w, r)) && visible_chars(
        pixel_row_chars(row_cells(cells, w, r)),
    ).len() == w by {
        lemma_row_start_bounds(r, w, h);
        assert((r + 1) * w == r * w + w) by (nonlinear_arith);
        assert forall|i: int| 0 <= i < row_cells(cells, w, r).len() implies pixel_payload(
            #[trigger] row_cells(cells, w, r)[i],
        ) != '\x1b' by {
            assert(row_cells(cells, w, r)[i] == cells[r * w + i]);
        }
        lemma_visible_row(row_cells(cells, w, r));
        assert(payload_seq(row_cells(cells, w, r)).len() == w);
    }
}

/// A mathematical view of a canvas: its cells and its geometry, used to
/// state what the drawing pipeline produces.
pub ghost struct CanvasModel {
    /// All cells, row-major.
    pub cells: Seq<GraphPixel>,
    /// Total width.
    pub w: int,
    /// Total height.
    pub h: int,
    /// Drawable width.
    pub dw: int,
    /// Drawable height.
    pub dh: int,
    /// Column offset of the drawable region.
    pub co: int,
    /// Row offset of the drawable region.
    pub ro: int,
}

/// The grid of character cells that a graph is drawn into.  The `draw_*`
/// fields describe the drawable sub-rectangle left for the plotted data once
/// an axis border has claimed its share; it starts out as the whole canvas.
pub struct GraphCanvas {
    /// All cells, row-major, `width * height` of them.
    elements: Vec<GraphPixel>,
    /// Total width of the canvas.
    width: usize,
    /// Total height of the canvas.
    height: usize,
    /// Width of the drawable sub-rectangle.
    draw_width: usize,
    /// Height of the drawable sub-rectangle.
    draw_height: usize,
    /// Column where the drawable sub-rectangle begins.
    col_offset: usize,
    /// Row where the drawable sub-rectangle begins.
    row_offset: usize,
}

impl GraphCanvas {
    /// The cells of the canvas, row-major.
    pub closed spec fn cells(&self) -> Seq<GraphPixel> {
        self.elements@
    }

    /// Total width.
    pub closed spec fn spec_full_width(&self) -> usize {
        self.width
    }

    /// Total height.
    pub closed spec fn spec_full_height(&self) -> usize {
        self.height
    }

    /// Drawable width.
    pub closed spec fn spec_width(&self) -> usize {
        self.draw_width
    }

    /// Drawable height.
    pub closed spec fn spec_height(&self) -> usize {
        self.draw_height
    }

    /// Column offset of the drawable region.
    pub closed spec fn spec_col_offset(&self) -> usize {
        self.col_offset
    }

    /// Row offset of the drawable region.
    pub closed spec fn spec_row_offset(&self) -> usize {
        self.row_offset
    }

    /// The mathematical view of this canvas.
    pub open spec fn model(&self) -> CanvasModel {
        CanvasModel {
            cells: self.cells(),
            w: self.spec_full_width() as int,
            h: self.spec_full_height() as int,
            dw: self.spec_width() as int,
            dh: self.spec_height() as int,
            co: self.spec_col_offset() as int,
            ro: self.spec_row_offset() as int,
        }
    }

    /// The cell array of a canvas fits in a `usize` count.
    pub proof fn lemma_cells_len_bound(&self)
        ensures
            self.cells().len() <= usize::MAX,
    {
        vstd::std_specs::vec::axiom_spec_len(&self.elements);
    }

    /// Well-formedness: the cell vector matches the dimensions, both
    /// dimensions are positive, and the drawable rectangle lies inside the
    /// canvas.
    pub open spec fn wf(&self) -> bool {
        &&& 1 <= self.spec_full_width()
        &&& 1 <= self.spec_full_height()
        &&& self.cells().len() == self.spec_full_width() * self.spec_full_height()
        &&& 1 <= self.spec_width()
        &&& 1 <= self.spec_height()
        &&& self.spec_col_offset() + self.spec_width() <= self.spec_full_width()
        &&& self.spec_row_offset() + self.spec_height() <= self.spec_full_height()
    }

    /// Create a new canvas with the desired width and height, every cell
    /// blank.
    pub fn new(width: usize, height: usize) -> (c: Self)
        requires
            1 <= width,
            1 <= height,
            width * height <= usize::MAX,
        ensures
            c.wf(),
            c.spec_full_width() == width,
            c.spec_full_height() == height,
            c.spec_width() == width,
            c.spec_height() == height,
            c.spec_col_offset() == 0,
            c.spec_row_offset() == 0,
            c.cells() == Seq::new((width * height) as nat, |i: int| GraphPixel::Blank),
    {
        GraphCanvas::new_default(GraphPixel::default(), width, height)
    }

    /// Create a new canvas with the desired width, height, and background
    /// pixel.
    pub fn new_default(default: GraphPixel, width: usize, height: usize) -> (c: Self)
        requires
            1 <= width,
            1 <= height,
            width * height <= usize::MAX,
        ensures
            c.wf(),
            c.spec_full_width() == width,
            c.spec_full_height() == height,
            c.spec_width() == width,
            c.spec_height() == height,
            c.spec_col_offset() == 0,
            c.spec_row_offset() == 0,
            c.cells() == Seq::new((width * height) as nat, |i: int| default),
    {
        let n: usize = width * height;
        let mut elements: Vec<GraphPixel> = Vec::new();
        let mut i: usize = 0;
        while i < n
            invariant
                i <= n,
                elements@.len() == i,
                forall|j: int| 0 <= j < i ==> elements@[j] == default,
            decreases n - i,
        {
            elements.push(default);
            i = i + 1;
        }
        assert(elements@ =~= Seq::new(n as nat, |j: int| default));
        GraphCanvas {
            elements,
            width,
            height,
            draw_width: width,
            draw_height: height,
            col_offset: 0,
            row_offset: 0,
        }
    }

    /// Width of the drawable area of the graph.
    pub fn width(&self) -> (w: usize)
        ensures
            w == self.spec_width(),
    {
        self.draw_width
    }

    /// Total width of the graph canvas.
    pub fn full_width(&self) -> (w: usize)
        ensures
            w == self.spec_full_width(),
    {
        self.width
    }

    /// Height of the drawable area of the graph.
    pub fn height(&self) -> (h: usize)
        ensures
            h == self.spec_height(),
    {
        self.draw_height
    }

    /// Total height of the graph canvas.
    pub fn full_height(&self) -> (h: usize)
        ensures
            h == self.spec_full_height(),
    {
        self.height
    }

    /// Move the drawable region: used by axis drawing to reserve the border
    /// rows and the label margin.
    pub(crate) fn set_drawable(
        &mut self,
        col_offset: usize,
        row_offset: usize,
        draw_width: usize,
        draw_height: usize,
    )
        requires
            old(self).wf(),
            1 <= draw_width,
            1 <= draw_height,
            col_offset + draw_width <= old(self).spec_full_width(),
            row_offset + draw_height <= old(self).spec_full_height(),
        ensures
            final(self).wf(),
            final(self).cells() == old(self).cells(),
            final(self).spec_full_width() == old(self).spec_full_width(),
            final(self).spec_full_height() == old(self).spec_full_height(),
            final(self).spec_width() == draw_width,
            final(self).spec_height() == draw_height,
            final(self).spec_col_offset() == col_offset,
            final(self).spec_row_offset() == row_offset,
    {
        self.col_offset = col_offset;
        self.row_offset = row_offset;
        self.draw_width = draw_width;
        self.draw_height = draw_height;
    }

    /// Column offset of the drawable area.
    pub fn col_offset(&self) -> (c: usize)
        ensures
            c == self.spec_col_offset(),
    {
        self.col_offset
    }

    /// Row offset of the drawable area.
    pub fn row_offset(&self) -> (r: usize)
        ensures
            r == self.spec_row_offset(),
    {
        self.row_offset
    }

    /// Set the pixel at an absolute position in the canvas.
    pub fn set(&mut self, x: usize, y: usize, px: GraphPixel)
        requires
            old(self).wf(),
            x < old(self).spec_full_width(),
            y < old(self).spec_full_height(),
        ensures
            final(self).wf(),
            final(self).spec_full_width() == old(self).spec_full_width(),
            final(self).spec_full_height() == old(self).spec_full_height(),
            final(self).spec_width() == old(self).spec_width(),
            final(self).spec_height() == old(self).spec_height(),
            final(self).spec_col_offset() == old(self).spec_col_offset(),
            final(self).spec_row_offset() == old(self).spec_row_offset(),
            final(self).cells() == old(self).cells().update(
                y * old(self).spec_full_width() + x,
                px,
            ),
    {
        let _n: usize = self.elements.len();
        proof {
            lemma_grid_index_bound(
                y as int,
                x as int,
                self.spec_full_width() as int,
                self.spec_full_height() as int,
            );
        }
        let pos: usize = y * self.width + x;
        self.elements.set(pos, px);
    }

    /// The absolute cell index of a drawable-region-relative coordinate.
    pub fn element_position(&self, row: usize, col: usize) -> (pos: usize)
        requires
            self.wf(),
            row < self.spec_height(),
            col < self.spec_width(),
        ensures
            pos == (row + self.spec_row_offset()) * self.spec_full_width() + (col
                + self.spec_col_offset()),
            pos < self.cells().len(),
    {
        let _n: usize = self.elements.len();
        proof {
            lemma_grid_index_bound(
                (row + self.spec_row_offset()) as int,
                (col + self.spec_col_offset()) as int,
                self.spec_full_width() as int,
                self.spec_full_height() as int,
            );
        }
        (row + self.row_offset) * self.width + (col + self.col_offset)
    }

    /// Turn the canvas into a string: cells row-major, a newline after every
    /// full row except the last.
    pub fn to_string(&self) -> (out: String)
        requires
            self.wf(),
        ensures
            out@ == render_chars(
                self.cells(),
                self.spec_full_width() as int,
                self.spec_full_height() as int,
            ),
    {
        let ghost cells = self.cells();
        let ghost w = self.spec_full_width() as int;
        let ghost h = self.spec_full_height() as int;
        let mut out = String::new();
        let mut r: usize = 0;
        while r < self.height
            invariant
                self.wf(),
                r <= h,
                cells == self.cells(),
                w == self.spec_full_width() as int,
                h == self.spec_full_height() as int,
                out@ + render_rows(cells, w, h, r as int) == render_chars(cells, w, h),
            decreases h - r,
        {
            let ghost out_row = out@;
            proof {
                lemma_row_start_bounds(r as int, w, h);
                assert(cells.subrange(r as int * w, r as int * w + 0) =~= Seq::<
                    GraphPixel,
                >::empty());
                assert(out@ =~= out_row + pixel_row_chars(Seq::<GraphPixel>::empty()));
            }
            let mut c: usize = 0;
            while c < self.width
                invariant
                    self.wf(),
                    r < h,
                    c <= w,
                    cells == self.cells(),
                    w == self.spec_full_width() as int,
                    h == self.spec_full_height() as int,
                    out@ == out_row + pixel_row_chars(
                        cells.subrange(r as int * w, r as int * w + c as int),
                    ),
                decreases w - c,
            {
                let _n: usize = self.elements.len();
                proof {
                    lemma_grid_index_bound(r as int, c as int, w, h);
                    lemma_row_start_bounds(r as int, w, h);
                }
                let pos: usize = r * self.width + c;
                let px = self.elements[pos];
                push_pixel(&mut out, px);
                proof {
                    let pre = cells.subrange(r as int * w, r as int * w + c as int);
                    assert(cells.subrange(r as int * w, r as int * w + c as int + 1) =~= pre.push(
                        px,
                    ));
                    lemma_pixel_row_chars_push(pre, px);
                }
                c = c + 1;
            }
            proof {
                lemma_row_start_bounds(r as int, w, h);
                assert((r as int + 1) * w == r as int * w + w) by (nonlinear_arith);
                assert(cells.subrange(r as int * w, r as int * w + w) =~= row_cells(
                    cells,
                    w,
                    r as int,
                ));
            }
            if r + 1 < self.height {
                push_char(&mut out, '\n');
                assert(out@ =~= out_row + (pixel_row_chars(row_cells(cells, w, r as int)) + seq![
                    '\n',
                ]));
            }
            proof {
                if r as int + 1 < h {
                    assert(out@ + render_rows(cells, w, h, r as int + 1) =~= out_row + render_rows(
                        cells,
                        w,
                        h,
                        r as int,
                    ));
                } else {
                    assert(out@ + render_rows(cells, w, h, r as int + 1) =~= out_row + render_rows(
                        cells,
                        w,
                        h,
                        r as int,
                    ));
                }
            }
            r = r + 1;
        }
        assert(out@ =~= render_chars(cells, w, h));
        out
    }

    /// Draw an axis border box along the edges of the canvas and move the
    /// drawable region inside it.  `c1` is the vertical line glyph, `c2` the
    /// horizontal one, `c3`..`c6` the bottom-left, top-left, bottom-right and
    /// top-right corners.  On a canvas smaller than 2 x 2 this is a no-op,
    /// and each drawable dimension only shrinks (claiming its border cells
    /// and offset) when more than 2 cells are available in it.
    pub fn axis(
        &mut self,
        c1: GraphPixel,
        c2: GraphPixel,
        c3: GraphPixel,
        c4: GraphPixel,
        c5: GraphPixel,
        c6: GraphPixel,
    )
        requires
            old(self).wf(),
        ensures
            final(self).wf(),
            final(self).spec_full_width() == old(self).spec_full_width(),
            final(self).spec_full_height() == old(self).spec_full_height(),
            (old(self).spec_full_width() < 2 || old(self).spec_full_height() < 2) ==> ({
                &&& final(self).cells() == old(self).cells()
                &&& final(self).spec_width() == old(self).spec_width()
                &&& final(self).spec_height() == old(self).spec_height()
                &&& final(self).spec_col_offset() == old(self).spec_col_offset()
                &&& final(self).spec_row_offset() == old(self).spec_row_offset()
            }),
            (old(self).spec_full_width() >= 2 && old(self).spec_full_height() >= 2) ==> ({
                &&& final(self).cells() == axis_cells(
                    old(self).cells(),
                    old(self).spec_full_width() as int,
                    old(self).spec_full_height() as int,
                    c1,
                    c2,
                    c3,
                    c4,
                    c5,
                    c6,
                )
                &&& final(self).spec_height() == (if old(self).spec_height() > 2 {
                    (old(self).spec_full_height() - 2) as usize
                } else {
                    old(self).spec_height()
                })
                &&& final(self).spec_row_offset() == (if old(self).spec_height() > 2 {
                    1 as usize
                } else {
                    old(self).spec_row_offset()
                })
                &&& final(self).spec_width() == (if old(self).spec_width() > 2 {
                    (old(self).spec_full_width() - 2) as usize
                } else {
                    old(self).spec_width()
                })
                &&& final(self).spec_col_offset() == (if old(self).spec_width() > 2 {
                    1 as usize
                } else {
                    old(self).spec_col_offset()
                })
            }),
    {
        if self.height < 2 || self.width < 2 {
            return ;
        }
        let w: usize = self.width;
        let h: usize = self.height;
        let _n: usize = self.elements.len();
        let ghost oc = self.cells();
        let ghost odw = self.draw_width;
        let ghost odh = self.draw_height;
        let ghost oco = self.col_offset;
        let ghost oro = self.row_offset;

        let mut i: usize = 0;
        while i < h
            invariant
                2 <= w,
                2 <= h,
                i <= h,
                self.width == w,
                self.height == h,
                self.draw_width == odw,
                self.draw_height == odh,
                self.col_offset == oco,
                self.row_offset == oro,
                self.elements@.len() == oc.len(),
                oc.len() == w * h,
                oc.len() <= usize::MAX,
                forall|r: int, c: int|
                    0 <= r < h && 0 <= c < w ==> #[trigger] self.elements@[r * w + c] == (if (c
                        == 0 || c == w - 1) && r < i {
                        c1
                    } else {
                        oc[r * w + c]
                    }),
            decreases h - i,
        {
            proof {
                lemma_grid_index_bound(i as int, 0, w as int, h as int);
                lemma_grid_index_bound(i as int, w as int - 1, w as int, h as int);
                lemma_row_start_bounds(i as int, w as int, h as int);
            }
            let p1: usize = i * w;
            self.elements.set(p1, c1);
            let p2: usize = i * w + w - 1;
            self.elements.set(p2, c1);
            proof {
                assert forall|r: int, c: int| 0 <= r < h && 0 <= c < w implies #[trigger] self
                    .elements@[r * w + c] == (if (c == 0 || c == w - 1) && r < i + 1 {
                    c1
                } else {
                    oc[r * w + c]
                }) by {
                    lemma_rowcol_unique(r, c, w as int);
                    lemma_rowcol_unique(i as int, 0, w as int);
                    lemma_rowcol_unique(i as int, w as int - 1, w as int);
                    lemma_grid_index_bound(r, c, w as int, h as int);
                }
            }
            i = i + 1;
        }

        let mut j: usize = 1;
        while j + 1 < w
            invariant
                2 <= w,
                2 <= h,
                1 <= j <= w - 1,
                self.width == w,
                self.height == h,
                self.draw_width == odw,
                self.draw_height == odh,
                self.col_offset == oco,
                self.row_offset == oro,
                self.elements@.len() == oc.len(),
                oc.len() == w * h,
                oc.len() <= usize::MAX,
                forall|r: int, c: int|
                    0 <= r < h && 0 <= c < w ==> #[trigger] self.elements@[r * w + c] == (if (r
                        == 0 || r == h - 1) && 1 <= c < j {
                        c2
                    } else if c == 0 || c == w - 1 {
                        c1
                    } else {
                        oc[r * w + c]
                    }),
            decreases w - j,
        {
            proof {
                lemma_grid_index_bound(0, j as int, w as int, h as int);
                lemma_grid_index_bound(h as int - 1, j as int, w as int, h as int);
                assert((h - 1) as int * w as int + j as int == (h as int - 1) * w as int
                    + j as int);
                lemma_row_start_bounds(h as int - 1, w as int, h as int);
            }
            let p1: usize = j;
            assert(p1 as int == 0 * w as int + j as int);
            self.elements.set(p1, c2);
            let p2: usize = (h - 1) * w + j;
            self.elements.set(p2, c2);
            proof {
                assert forall|r: int, c: int| 0 <= r < h && 0 <= c < w implies #[trigger] self
                    .elements@[r * w + c] == (if (r == 0 || r == h - 1) && 1 <= c < j + 1 {
                    c2
                } else if c == 0 || c == w - 1 {
                    c1
                } else {
                    oc[r * w + c]
                }) by {
                    lemma_rowcol_unique(r, c, w as int);
                    lemma_rowcol_unique(0, j as int, w as int);
                    lemma_rowcol_unique(h as int - 1, j as int, w as int);
                    lemma_grid_index_bound(r, c, w as int, h as int);
                }
            }
            j = j + 1;
        }

        proof {
            lemma_grid_index_bound(0, 0, w as int, h as int);
            lemma_grid_index_bound(0, w as int - 1, w as int, h as int);
            lemma_grid_index_bound(h as int - 1, 0, w as int, h as int);
            lemma_grid_index_bound(h as int - 1, w as int - 1, w as int, h as int);
        }
        self.elements.set(0, c4);
        let pw: usize = w - 1;
        self.elements.set(pw, c6);
        let pbl: usize = (h - 1) * w;
        self.elements.set(pbl, c3);
        proof {
            assert(h as int * w as int == w as int * h as int && h as int * w as int >= 4) by (nonlinear_arith)
                requires
                    2 <= w,
                    2 <= h,
            ;
            assert(oc.len() <= usize::MAX);
        }
        let pbr: usize = h * w - 1;
        assert(pbr as int == (h as int - 1) * w as int + (w as int - 1)) by (nonlinear_arith)
            requires
                2 <= w,
                2 <= h,
                pbr as int == h as int * w as int - 1,
        ;
        self.elements.set(pbr, c5);

        proof {
            let wi = w as int;
            let hi = h as int;
            assert forall|k: int| 0 <= k < oc.len() implies self.elements@[k] == axis_cells(
                oc,
                wi,
                hi,
                c1,
                c2,
                c3,
                c4,
                c5,
                c6,
            )[k] by {
                lemma_index_rowcol(k, wi, hi);
                let r = k / wi;
                let c = k % wi;
                lemma_rowcol_unique(r, c, wi);
                lemma_rowcol_unique(0, 0, wi);
                lemma_rowcol_unique(0, wi - 1, wi);
                lemma_rowcol_unique(hi - 1, 0, wi);
                lemma_rowcol_unique(hi - 1, wi - 1, wi);
                assert(self.elements@[r * wi + c] == axis_frame_cell(
                    oc[r * wi + c],
                    wi,
                    hi,
                    r,
                    c,
                    c1,
                    c2,
                    c3,
                    c4,
                    c5,
                    c6,
                ));
            }
            assert(self.elements@ =~= axis_cells(oc, wi, hi, c1, c2, c3, c4, c5, c6));
        }

        if self.draw_height > 2 {
            self.draw_height = h - 2;
            self.row_offset = 1;
        }
        if self.draw_width > 2 {
            self.draw_width = w - 2;
            self.col_offset = 1;
        }
    }
}

/// What a cell of the canvas shows after the axis border has been drawn over
/// it: corner glyphs in the four corners, `c1` along the left and right
/// edges, `c2` along the top and bottom edges, everything else untouched.
pub open spec fn axis_frame_cell(
    old_px: GraphPixel,
    w: int,
    h: int,
    r: int,
    c: int,
    c1: GraphPixel,
    c2: GraphPixel,
    c3: GraphPixel,
    c4: GraphPixel,
    c5: GraphPixel,
    c6: GraphPixel,
) -> GraphPixel {
    if r == 0 && c == 0 {
        c4
    } else if r == 0 && c == w - 1 {
        c6
    } else if r == h - 1 && c == 0 {
        c3
    } else if r == h - 1 && c == w - 1 {
        c5
    } else if c == 0 || c == w - 1 {
        c1
    } else if r == 0 || r == h - 1 {
        c2
    } else {
        old_px
    }
}

/// The whole cell array after the axis border has been drawn.
pub open spec fn axis_cells(
    cells: Seq<GraphPixel>,
    w: int,
    h: int,
    c1: GraphPixel,
    c2: GraphPixel,
    c3: GraphPixel,
    c4: GraphPixel,
    c5: GraphPixel,
    c6: GraphPixel,
) -> Seq<GraphPixel> {
    Seq::new(cells.len(), |i: int| axis_frame_cell(cells[i], w, h, i / w, i % w, c1, c2, c3, c4, c5, c6))
}

/// Splitting an in-range cell index into its row and column.
pub(crate) proof fn lemma_index_rowcol(i: int, w: int, h: int)
    requires
        1 <= w,
        0 <= i < w * h,
    ensures
        0 <= i / w < h,
        0 <= i % w < w,
        i == (i / w) * w + (i % w),
{
    vstd::arithmetic::div_mod::lemma_fundamental_div_mod(i, w);
    vstd::arithmetic::div_mod::lemma_mod_division_less_than_divisor(i, w);
    vstd::arithmetic::div_mod::lemma_div_pos_is_pos(i, w);
    vstd::arithmetic::mul::lemma_mul_is_commutative(i / w, w);
    assert(i / w < h) by (nonlinear_arith)
        requires
            1 <= w,
            i < w * h,
            i == w * (i / w) + (i % w),
            0 <= i % w,
            0 <= i / w,
    ;
}

/// A row and column determine the cell index uniquely.
pub(crate) proof fn lemma_rowcol_unique(r: int, c: int, w: int)
    requires
        1 <= w,
        0 <= r,
        0 <= c < w,
    ensures
        (r * w + c) / w == r,
        (r * w + c) % w == c,
{
    vstd::arithmetic::div_mod::lemma_fundamental_div_mod_converse(r * w + c, w, r, c);
}

/// The cell range of one grid row lies inside the cell array.
pub(crate) proof fn lemma_row_start_bounds(r: int, w: int, h: int)
    requires
        0 <= r < h,
        1 <= w,
    ensures
        0 <= r * w,
        r * w + w <= w * h,
{
    assert(0 <= r * w && r * w + w <= w * h) by (nonlinear_arith)
        requires
            0 <= r < h,
            1 <= w,
    ;
}

/// Row-major grid indexing stays inside the cell array.
pub(crate) proof fn lemma_grid_index_bound(r: int, c: int, w: int, h: int)
    requires
        0 <= r < h,
        0 <= c < w,
    ensures
        0 <= r * w + c < w * h,
        r * w + c <= (h - 1) * w + (w - 1),
{
    assert(r * w + c < w * h) by (nonlinear_arith)
        requires
            0 <= r < h,
            0 <= c < w,
    ;
    assert(r * w <= (h - 1) * w) by (nonlinear_arith)
        requires
            r <= h - 1,
            0 <= w,
    ;
}

} // verus!
