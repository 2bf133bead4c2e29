//! A two-dimensional grid of cells, each holding a single grapheme cluster and
//! optionally a foreground and background color, that renders to text with
//! terminal color codes.

use vstd::prelude::*;

verus! {

/// Terminal colors that a cell can be painted with.
#[derive(Clone, Copy, Debug, PartialEq, Eq, Structural)]
pub enum Color {
    Black,
    Red,
    Green,
    Yellow,
    Blue,
    Purple,
    Cyan,
    White,
    Fixed(u8),
    RGB(u8, u8, u8),
}

/// What a cell shows: its glyph, foreground and background.
pub type CellView = (Seq<char>, Option<Color>, Option<Color>);

/// The text that ansi_term produces for `glyph` painted with the given
/// foreground and background: the glyph wrapped in color codes.
pub uninterp spec fn painted(glyph: Seq<char>, foreground: Option<Color>, background: Option<Color>) -> Seq<char>;

/// The extended grapheme clusters of `text`, in order, as unicode-segmentation
/// splits it.
pub uninterp spec fn graphemes_of(text: Seq<char>) -> Seq<Seq<char>>;

/// Relies on unicode-segmentation's `UnicodeSegmentation::graphemes` with
/// extended clusters: the clusters of the text in order, none of them empty.
#[verifier::external_body]
fn split_graphemes(text: &str) -> (r: Vec<String>)
    ensures
        r@.len() == graphemes_of(text@).len(),
        forall|k: int| 0 <= k < r@.len() ==> (#[trigger] r@[k])@ == graphemes_of(text@)[k],
        forall|k: int| 0 <= k < r@.len() ==> (#[trigger] r@[k])@.len() > 0,
{
    unicode_segmentation::UnicodeSegmentation::graphemes(text, true).map(String::from).collect()
}

/// Whether `text` is a single grapheme cluster.
pub open spec fn is_grapheme(text: Seq<char>) -> bool {
    text.len() > 0 && graphemes_of(text) == seq![text]
}

#[verifier::external_type_specification]
#[verifier::external_body]
pub struct ExColour(ansi_term::Colour);

/// Relies on ansi_term's `Colour` enum: picks the variant of the same name.
#[verifier::external_body]
fn ansi_colour(c: Color) -> ansi_term::Colour {
    match c {
        Color::Black => ansi_term::Colour::Black,
        Color::Red => ansi_term::Colour::Red,
        Color::Green => ansi_term::Colour::Green,
        Color::Yellow => ansi_term::Colour::Yellow,
        Color::Blue => ansi_term::Colour::Blue,
        Color::Purple => ansi_term::Colour::Purple,
        Color::Cyan => ansi_term::Colour::Cyan,
        Color::White => ansi_term::Colour::White,
        Color::Fixed(n) => ansi_term::Colour::Fixed(n),
        Color::RGB(r, g, b) => ansi_term::Colour::RGB(r, g, b),
    }
}

/// Relies on ansi_term's `Style::paint` and the `Display` of the painted
/// string: the text wrapped in the style's codes, and no codes at all for a
/// style without colors.
#[verifier::external_body]
fn paint(glyph: &String, foreground: Option<Color>, background: Option<Color>) -> (r: String)
    ensures
        r@ == painted(glyph@, foreground, background),
        foreground is None && background is None ==> r@ == glyph@,
{
    let style = ansi_term::Style {
        foreground: foreground.map(ansi_colour),
        background: background.map(ansi_colour),
        ..ansi_term::Style::default()
    };
    style.paint(glyph.as_str()).to_string()
}

/// One slot of a [`Buffer`]: a single grapheme cluster, and optional colors.
pub struct Cell {
    render: String,
    background: Option<Color>,
    foreground: Option<Color>,
}

impl View for Cell {
    type V = CellView;

    closed spec fn view(&self) -> CellView {
        (self.render@, self.foreground, self.background)
    }
}

/// A blank cell: a space without colors.
pub open spec fn blank() -> CellView {
    (seq![' '], None, None)
}

/// The text of one rendered cell.
pub open spec fn cell_text(c: CellView) -> Seq<char> {
    painted(c.0, c.1, c.2)
}

impl Cell {
    /// A cell always shows a glyph.
    pub open spec fn wf(&self) -> bool {
        self@.0.len() > 0
    }

    /// Creates a new empty cell.
    pub fn new() -> (r: Cell)
        ensures
            r@ == blank(),
            r.wf(),
    {
        proof {
            reveal_strlit(" ");
        }
        Cell { render: String::from_str(" "), background: None, foreground: None }
    }

    /// Sets the background color of the cell.
    pub fn bg(&mut self, color: Color)
        ensures
            final(self)@ == (old(self)@.0, old(self)@.1, Some(color)),
    {
        self.background = Some(color);
    }

    /// Sets the foreground color of the cell.
    pub fn fg(&mut self, color: Color)
        ensures
            final(self)@ == (old(self)@.0, Some(color), old(self)@.2),
    {
        self.foreground = Some(color);
    }

    /// Sets the glyph the cell shows; `render` is a single grapheme cluster.
    pub fn render(&mut self, render: String)
        requires
            is_grapheme(render@),
        ensures
            final(self)@ == (render@, old(self)@.1, old(self)@.2),
            final(self).wf(),
    {
        self.render = render;
    }

    /// Sets the glyph the cell shows when `render` is a single grapheme
    /// cluster, and tells whether it was; otherwise the cell is unchanged.
    pub fn try_render(&mut self, render: String) -> (r: bool)
        ensures
            r == is_grapheme(render@),
            r ==> final(self)@ == (render@, old(self)@.1, old(self)@.2),
            !r ==> final(self)@ == old(self)@,
            old(self).wf() ==> final(self).wf(),
    {
        let pieces = split_graphemes(render.as_str());
        if pieces.len() == 1 && pieces[0] == render {
            proof {
                assert(graphemes_of(render@) =~= seq![render@]);
            }
            self.render(render);
            true
        } else {
            proof {
                if is_grapheme(render@) {
                    assert(pieces@[0]@ == render@);
                }
            }
            false
        }
    }

    /// Sets a glyph that the library itself has chosen.
    pub(crate) fn put_glyph(&mut self, glyph: String)
        requires
            glyph@.len() > 0,
        ensures
            final(self)@ == (glyph@, old(self)@.1, old(self)@.2),
            final(self).wf(),
    {
        self.render = glyph;
    }

    /// The cell's glyph wrapped in its color codes.
    pub fn to_string(&self) -> (r: String)
        ensures
            r@ == cell_text(self@),
            self@.1 is None && self@.2 is None ==> r@ == self@.0,
    {
        paint(&self.render, self.foreground, self.background)
    }
}


/// The text of one rendered row: its cells' texts, left to right.
pub open spec fn row_text(row: Seq<CellView>) -> Seq<char>
    decreases row.len(),
{
    if row.len() == 0 {
        Seq::empty()
    } else {
        row_text(row.drop_last()) + cell_text(row.last())
    }
}

/// The text of a rendered grid: each row's text followed by a line break,
/// top to bottom.
pub open spec fn grid_text(rows: Seq<Seq<CellView>>) -> Seq<char>
    decreases rows.len(),
{
    if rows.len() == 0 {
        Seq::empty()
    } else {
        grid_text(rows.drop_last()) + row_text(rows.last()) + seq!['\n']
    }
}

/// No cell of the grid has a color.
pub open spec fn uncolored(rows: Seq<Seq<CellView>>) -> bool {
    forall|y: int, x: int|
        0 <= y < rows.len() && 0 <= x < rows[y].len() ==> (#[trigger] rows[y][x]).1 is None && rows[y][x].2 is None
}

/// The glyphs of a row, left to right.
pub open spec fn row_glyphs(row: Seq<CellView>) -> Seq<char>
    decreases row.len(),
{
    if row.len() == 0 {
        Seq::empty()
    } else {
        row_glyphs(row.drop_last()) + row.last().0
    }
}

/// The glyphs of a grid, each row followed by a line break.
pub open spec fn grid_glyphs(rows: Seq<Seq<CellView>>) -> Seq<char>
    decreases rows.len(),
{
    if rows.len() == 0 {
        Seq::empty()
    } else {
        grid_glyphs(rows.drop_last()) + row_glyphs(rows.last()) + seq!['\n']
    }
}

/// `height` lines of `width` spaces, each followed by a line break.
pub open spec fn blank_lines(width: nat, height: nat) -> Seq<char>
    decreases height,
{
    if height == 0 {
        Seq::empty()
    } else {
        blank_lines(width, (height - 1) as nat) + Seq::new(width, |i: int| ' ') + seq!['\n']
    }
}

/// A row of blank cells shows as spaces.
proof fn lemma_blank_row(row: Seq<CellView>)
    requires
        forall|x: int| 0 <= x < row.len() ==> #[trigger] row[x] == blank(),
    ensures
        row_glyphs(row) == Seq::new(row.len(), |i: int| ' '),
    decreases row.len(),
{
    if row.len() > 0 {
        lemma_blank_row(row.drop_last());
        assert(row_glyphs(row) =~= Seq::new(row.len(), |i: int| ' '));
    }
}

/// A grid of `height` rows of `width` blank cells shows as `height` lines
/// of `width` spaces.
pub proof fn lemma_blank_grid(rows: Seq<Seq<CellView>>, width: nat)
    requires
        forall|y: int| 0 <= y < rows.len() ==> (#[trigger] rows[y]).len() == width,
        forall|y: int, x: int| 0 <= y < rows.len() && 0 <= x < width ==> #[trigger] rows[y][x] == blank(),
    ensures
        uncolored(rows),
        grid_glyphs(rows) == blank_lines(width, rows.len()),
    decreases rows.len(),
{
    if rows.len() > 0 {
        lemma_blank_grid(rows.drop_last(), width);
        lemma_blank_row(rows.last());
    }
}

/// Whether a grapheme cluster breaks a line: a line feed, or a carriage
/// return followed by one.
pub open spec fn is_break(g: Seq<char>) -> bool {
    g == seq!['\n'] || g == seq!['\r', '\n']
}

/// The line, counted from zero, that cluster `k` of `text` lies on.
pub open spec fn line_at(text: Seq<Seq<char>>, k: int) -> int
    decreases k,
{
    if k <= 0 {
        0
    } else if is_break(text[k - 1]) {
        line_at(text, k - 1) + 1
    } else {
        line_at(text, k - 1)
    }
}

/// The offset of cluster `k` of `text` from the start of its line.
pub open spec fn offset_at(text: Seq<Seq<char>>, k: int) -> int
    decreases k,
{
    if k <= 0 {
        0
    } else if is_break(text[k - 1]) {
        0
    } else {
        offset_at(text, k - 1) + 1
    }
}

/// Cluster `j` of `text` is a visible cluster that lies `dx` columns right
/// of and `dy` lines below the start of the text.
pub open spec fn placed_at(text: Seq<Seq<char>>, j: int, dx: int, dy: int) -> bool {
    &&& 0 <= j < text.len()
    &&& !is_break(text[j])
    &&& offset_at(text, j) == dx
    &&& line_at(text, j) == dy
}

/// Whether `g` breaks a line.
fn is_line_break(g: &String) -> (r: bool)
    ensures
        r == is_break(g@),
{
    let s = g.as_str();
    let n: usize = s.unicode_len();
    if n == 1 {
        let r = s.get_char(0) == '\n';
        proof {
            if r {
                assert(g@ =~= seq!['\n']);
            }
        }
        r
    } else if n == 2 {
        let r = s.get_char(0) == '\r' && s.get_char(1) == '\n';
        proof {
            if is_break(g@) {
                assert(g@ == seq!['\r', '\n']);
            }
            if r {
                assert(g@ =~= seq!['\r', '\n']);
            }
        }
        r
    } else {
        false
    }
}

/// Lines and offsets are counted from zero and never exceed the number of
/// clusters before them.
proof fn lemma_position_bounds(text: Seq<Seq<char>>, k: int)
    requires
        0 <= k <= text.len(),
    ensures
        0 <= line_at(text, k) <= k,
        0 <= offset_at(text, k) <= k,
    decreases k,
{
    if k > 0 {
        lemma_position_bounds(text, k - 1);
    }
}

/// A later visible cluster of a text lies on a later line, or further
/// right on the same line, than an earlier one.
proof fn lemma_positions_advance(text: Seq<Seq<char>>, j: int, k: int)
    requires
        0 <= j < k <= text.len(),
        !is_break(text[j]),
    ensures
        line_at(text, k) > line_at(text, j) || (line_at(text, k) == line_at(text, j)
            && offset_at(text, k) > offset_at(text, j)),
    decreases k - j,
{
    if k > j + 1 {
        lemma_positions_advance(text, j, k - 1);
    }
}

/// Stores a 2D buffer of cells.
pub struct Buffer {
    cells: Vec<Vec<Cell>>,
    width: usize,
    height: usize,
}

impl View for Buffer {
    type V = Seq<Seq<CellView>>;

    /// The rows of cells, top to bottom, each left to right.
    closed spec fn view(&self) -> Seq<Seq<CellView>> {
        self.cells@.map_values(|row: Vec<Cell>| row@.map_values(|c: Cell| c@))
    }
}

impl Buffer {
    pub closed spec fn spec_width(&self) -> nat {
        self.width as nat
    }

    pub closed spec fn spec_height(&self) -> nat {
        self.height as nat
    }

    /// The buffer is a non-empty rectangle of cells that each hold one
    /// glyph.
    pub closed spec fn wf(&self) -> bool {
        &&& self.width >= 1
        &&& self.height >= 1
        &&& self.cells@.len() == self.height
        &&& forall|y: int| 0 <= y < self.height ==> (#[trigger] self.cells@[y])@.len() == self.width
        &&& forall|y: int, x: int|
            0 <= y < self.height && 0 <= x < self.width ==> (#[trigger] self.cells@[y]@[x]).wf()
    }

    /// The view has `height` rows of `width` cells, each holding a glyph.
    pub proof fn lemma_shape(&self)
        requires
            self.wf(),
        ensures
            self@.len() == self.spec_height(),
            forall|y: int| 0 <= y < self.spec_height() ==> (#[trigger] self@[y]).len() == self.spec_width(),
            forall|y: int, x: int|
                0 <= y < self.spec_height() && 0 <= x < self.spec_width() ==> (#[trigger] self@[y][x]).0.len() > 0,
    {
    }

    /// Creates a new buffer of empty cells of the provided dimensions, both
    /// at least 1.
    pub fn new(width: usize, height: usize) -> (r: Buffer)
        requires
            width >= 1,
            height >= 1,
        ensures
            r.wf(),
            r.spec_width() == width,
            r.spec_height() == height,
            r@.len() == height,
            forall|y: int| 0 <= y < height ==> (#[trigger] r@[y]).len() == width,
            forall|y: int, x: int| 0 <= y < height && 0 <= x < width ==> #[trigger] r@[y][x] == blank(),
    {
        let mut rows: Vec<Vec<Cell>> = Vec::with_capacity(height);
        let mut y: usize = 0;
        while y < height
            invariant
                y <= height,
                rows@.len() == y,
                forall|j: int| 0 <= j < y ==> (#[trigger] rows@[j])@.len() == width,
                forall|j: int, x: int|
                    0 <= j < y && 0 <= x < width ==> (#[trigger] rows@[j]@[x])@ == blank(),
            decreases height - y,
        {
            let mut row: Vec<Cell> = Vec::with_capacity(width);
            let mut x: usize = 0;
            while x < width
                invariant
                    x <= width,
                    row@.len() == x,
                    forall|i: int| 0 <= i < x ==> (#[trigger] row@[i])@ == blank(),
                decreases width - x,
            {
                row.push(Cell::new());
                x = x + 1;
            }
            rows.push(row);
            y = y + 1;
        }
        Buffer { cells: rows, width, height }
    }

    /// Replaces the cell at `column` and `row`, which must lie in the buffer.
    pub fn set(&mut self, column: usize, row: usize, cell: Cell)
        requires
            old(self).wf(),
            column < old(self).spec_width(),
            row < old(self).spec_height(),
            cell.wf(),
        ensures
            final(self).wf(),
            final(self).spec_width() == old(self).spec_width(),
            final(self).spec_height() == old(self).spec_height(),
            final(self)@ == old(self)@.update(row as int, old(self)@[row as int].update(column as int, cell@)),
    {
        let ghost before = self@;
        self.cells[row][column] = cell;
        assert(self@[row as int] =~= before[row as int].update(column as int, cell@));
        assert(self@ =~= before.update(row as int, before[row as int].update(column as int, cell@)));
    }

    /// Writes `text` with its top-left grapheme cluster at `column` and
    /// `row`: line `i` of the text, as split at line feeds and carriage
    /// return line feeds, starts at `row + i`, each cluster in a cell of its
    /// own with the given colors. Clusters that would fall outside of the
    /// buffer are left out.
    pub fn print(
        &mut self,
        text: &String,
        column: usize,
        row: usize,
        foreground: Option<Color>,
        background: Option<Color>,
    )
        requires
            old(self).wf(),
        ensures
            final(self).wf(),
            final(self).spec_width() == old(self).spec_width(),
            final(self).spec_height() == old(self).spec_height(),
            final(self)@.len() == old(self)@.len() == old(self).spec_height(),
            forall|y: int|
                0 <= y < old(self).spec_height() ==> (#[trigger] final(self)@[y]).len() == old(self)@[y].len()
                    == old(self).spec_width(),
            forall|j: int|
                0 <= j < graphemes_of(text@).len() && !is_break(graphemes_of(text@)[j]) && column
                    + offset_at(graphemes_of(text@), j) < old(self).spec_width() && row + line_at(
                    graphemes_of(text@),
                    j,
                ) < old(self).spec_height() ==> #[trigger] final(self)@[row + line_at(
                    graphemes_of(text@),
                    j,
                )][column + offset_at(graphemes_of(text@), j)] == (
                    graphemes_of(text@)[j],
                    foreground,
                    background,
                ),
            forall|y: int, x: int|
                0 <= y < old(self).spec_height() && 0 <= x < old(self).spec_width() && (forall|j: int|
                    !#[trigger] placed_at(graphemes_of(text@), j, x - column, y - row))
                    ==> #[trigger] final(self)@[y][x] == old(self)@[y][x],
    {
        let pieces = split_graphemes(text.as_str());
        let ghost t = graphemes_of(text@);
        let ghost before = self@;
        assert forall|i: int| 0 <= i < pieces@.len() implies (#[trigger] pieces@[i])@ == t[i] && t[i].len() > 0 by {
            assert(pieces@[i]@.len() > 0);
        }
        let n: usize = pieces.len();
        let mut k: usize = 0;
        let mut line: usize = 0;
        let mut offset: usize = 0;
        while k < n
            invariant
                self.wf(),
                self.width == old(self).width,
                self.height == old(self).height,
                n == t.len(),
                n == pieces@.len(),
                forall|i: int| 0 <= i < n ==> (#[trigger] pieces@[i])@ == t[i] && t[i].len() > 0,
                k <= n,
                line == line_at(t, k as int),
                offset == offset_at(t, k as int),
                line <= k,
                offset <= k,
                forall|j: int|
                    0 <= j < k && !is_break(t[j]) && column + offset_at(t, j) < self.width && row
                        + line_at(t, j) < self.height ==> #[trigger] self@[row + line_at(t, j)][column
                        + offset_at(t, j)] == (t[j], foreground, background),
                forall|y: int, x: int|
                    0 <= y < self.height && 0 <= x < self.width && (forall|j: int|
                        0 <= j < k ==> !#[trigger] placed_at(t, j, x - column, y - row))
                        ==> #[trigger] self@[y][x] == before[y][x],
            decreases n - k,
        {
            let piece = &pieces[k];
            if is_line_break(piece) {
                line = line + 1;
                offset = 0;
            } else {
                if column < self.width && offset < self.width - column && row < self.height && line
                    < self.height - row {
                    let mut cell = Cell::new();
                    cell.put_glyph(piece.clone());
                    if let Some(f) = foreground {
                        cell.fg(f);
                    }
                    if let Some(b) = background {
                        cell.bg(b);
                    }
                    proof {
                        self.lemma_shape();
                    }
                    let ghost prev = self@;
                    self.set(column + offset, row + line, cell);
                    assert forall|j: int|
                        0 <= j < k + 1 && !is_break(t[j]) && column + offset_at(t, j) < self.width && row
                            + line_at(t, j) < self.height implies #[trigger] self@[row + line_at(t, j)][column
                            + offset_at(t, j)] == (t[j], foreground, background) by {
                        self.lemma_shape();
                        if j < k {
                            lemma_positions_advance(t, j, k as int);
                            lemma_position_bounds(t, j);
                            let yj = row + line_at(t, j);
                            let xj = column + offset_at(t, j);
                            assert(0 <= xj < prev[yj].len());
                            if yj == row + line {
                                assert(self@[yj] == prev[yj].update(column + offset, cell@));
                            } else {
                                assert(self@[yj] == prev[yj]);
                            }
                        } else {
                            lemma_position_bounds(t, j);
                            assert(self@[(row + line) as int][(column + offset) as int] == cell@);
                        }
                    }
                    assert forall|y: int, x: int|
                        0 <= y < self.height && 0 <= x < self.width && (forall|j: int|
                            0 <= j < k + 1 ==> !#[trigger] placed_at(t, j, x - column, y - row))
                            implies #[trigger] self@[y][x] == before[y][x] by {
                        self.lemma_shape();
                        assert(!placed_at(t, k as int, x - column, y - row));
                        assert(self@[y][x] == prev[y][x]);
                    }
                }
                offset = offset + 1;
            }
            k = k + 1;
        }
        proof {
            self.lemma_shape();
            old(self).lemma_shape();
        }
    }

    /// The buffer as text: each row's cells in their color codes, followed
    /// by a line break, top to bottom.
    pub fn to_string(&self) -> (r: String)
        requires
            self.wf(),
        ensures
            r@ == grid_text(self@),
            uncolored(self@) ==> r@ == grid_glyphs(self@),
    {
        let mut out = String::new();
        let mut y: usize = 0;
        while y < self.height
            invariant
                self.wf(),
                y <= self.height,
                out@ == grid_text(self@.subrange(0, y as int)),
                uncolored(self@) ==> out@ == grid_glyphs(self@.subrange(0, y as int)),
            decreases self.height - y,
        {
            let row = &self.cells[y];
            let mut x: usize = 0;
            while x < self.width
                invariant
                    self.wf(),
                    y < self.height,
                    row == self.cells@[y as int],
                    x <= self.width,
                    out@ == grid_text(self@.subrange(0, y as int)) + row_text(self@[y as int].subrange(0, x as int)),
                    uncolored(self@) ==> out@ == grid_glyphs(self@.subrange(0, y as int)) + row_glyphs(
                        self@[y as int].subrange(0, x as int),
                    ),
                decreases self.width - x,
            {
                proof {
                    self.lemma_shape();
                    if uncolored(self@) {
                        assert(self@[y as int][x as int].1 is None);
                    }
                }
                let painted = row[x].to_string();
                out.append(painted.as_str());
                assert(self@[y as int].subrange(0, x + 1).drop_last() =~= self@[y as int].subrange(0, x as int));
                x = x + 1;
            }
            proof {
                reveal_strlit("\n");
            }
            out.append("\n");
            assert(self@[y as int].subrange(0, x as int) =~= self@[y as int]);
            assert(self@.subrange(0, y + 1).drop_last() =~= self@.subrange(0, y as int));
            y = y + 1;
        }
        assert(self@.subrange(0, y as int) =~= self@);
        out
    }
}

} // verus!
