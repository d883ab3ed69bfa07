use crate::term::{addressable, renders, write_changes};
use vstd::prelude::*;

verus! {

/// A terminal colour: one of the 256 indexed colours, or a 24-bit RGB value.
#[derive(Clone, Copy, Debug, PartialEq, Eq, Structural)]
pub enum Color {
    Ansi(u8),
    Rgb { r: u8, g: u8, b: u8 },
}

/// How a cell is drawn. `None` for a colour means the terminal's default.
#[derive(Clone, Copy, Debug, PartialEq, Eq, Structural)]
pub struct Style {
    pub fg: Option<Color>,
    pub bg: Option<Color>,
    pub bold: bool,
    pub italic: bool,
}

pub open spec fn default_style() -> Style {
    Style { fg: None, bg: None, bold: false, italic: false }
}

impl Default for Style {
    fn default() -> (r: Style)
        ensures
            r == default_style(),
    {
        Style { fg: None, bg: None, bold: false, italic: false }
    }
}

/// One displayed character with its style.
#[derive(Clone, Copy, Debug, PartialEq, Eq, Structural)]
pub struct Cell {
    pub ch: char,
    pub style: Style,
}

pub open spec fn blank_cell() -> Cell {
    Cell { ch: ' ', style: default_style() }
}

impl Default for Cell {
    fn default() -> (r: Cell)
        ensures
            r == blank_cell(),
    {
        Cell { ch: ' ', style: Style { fg: None, bg: None, bold: false, italic: false } }
    }
}

/// The style a write uses when the caller gives none.
pub open spec fn style_or_default(style: Option<&Style>) -> Style {
    match style {
        Some(s) => *s,
        None => default_style(),
    }
}

/// An error that a write into a buffer reports without touching it.
#[derive(Clone, Copy, Debug, PartialEq, Eq, Structural)]
pub enum CanvasError {
    /// The text does not fit between its column and the right edge.
    TextTooLong,
    /// The bordered rectangle is empty or does not fit inside the buffer.
    AreaExceedsBounds,
}

/// A cell that differs between two snapshots, with its coordinates.
#[derive(Clone, Copy, Debug, PartialEq, Eq, Structural)]
pub struct BufferChange {
    pub cell: Cell,
    pub x: usize,
    pub y: usize,
}

/// A `width` by `height` grid of cells, stored row by row.
pub struct RenderBuffer {
    data: Vec<Cell>,
    width: usize,
    height: usize,
}

pub proof fn lemma_index_in_grid(x: int, y: int, w: int, h: int)
    requires
        0 <= x < w,
        0 <= y < h,
    ensures
        0 <= y * w + x < w * h,
{
    assert(0 <= y * w) by (nonlinear_arith)
        requires
            0 <= y,
            0 <= w,
    ;
    assert(y * w + x < w * h) by (nonlinear_arith)
        requires
            0 <= x < w,
            0 <= y < h,
    ;
}

pub proof fn lemma_index_injective(x1: int, y1: int, x2: int, y2: int, w: int)
    requires
        0 <= x1 < w,
        0 <= x2 < w,
        0 <= y1,
        0 <= y2,
        x1 != x2 || y1 != y2,
    ensures
        y1 * w + x1 != y2 * w + x2,
{
    if y1 == y2 {
    } else if y1 < y2 {
        assert(y1 * w + w <= y2 * w) by (nonlinear_arith)
            requires
                y1 < y2,
                0 <= w,
        ;
    } else {
        assert(y2 * w + w <= y1 * w) by (nonlinear_arith)
            requires
                y2 < y1,
                0 <= w,
        ;
    }
}

/// The change at flat position `k` (column `k % w`, row `k / w`), if the
/// two buffers differ there.
pub open spec fn change_at(new: &RenderBuffer, prev: &RenderBuffer, k: int) -> Seq<BufferChange> {
    if new.cells()[k] != prev.cells()[k] {
        seq![
            BufferChange {
                cell: new.cells()[k],
                x: (k % (new.w() as int)) as usize,
                y: (k / (new.w() as int)) as usize,
            },
        ]
    } else {
        seq![]
    }
}

/// The changes among the first `k` cells, in row-major order.
pub open spec fn changes_before(new: &RenderBuffer, prev: &RenderBuffer, k: nat) -> Seq<
    BufferChange,
>
    decreases k,
{
    if k == 0 {
        seq![]
    } else {
        changes_before(new, prev, (k - 1) as nat) + change_at(new, prev, k - 1)
    }
}

/// Every cell of `new` that differs from `prev`, row by row, left to right.
pub open spec fn diff_of(new: &RenderBuffer, prev: &RenderBuffer) -> Seq<BufferChange> {
    changes_before(new, prev, new.cells().len())
}

/// The cells after writing `text` with `style` from flat position `start` on.
pub open spec fn with_text(cells: Seq<Cell>, start: int, text: Seq<char>, style: Style) -> Seq<
    Cell,
> {
    Seq::new(cells.len(), |k: int| written_cell(cells, start, text, style, k))
}

/// Position `k` of `cells` after `text` is written from `start` on.
pub open spec fn written_cell(cells: Seq<Cell>, start: int, text: Seq<char>, style: Style, k: int) -> Cell {
    if start <= k < start + text.len() {
        Cell { ch: text[k - start], style }
    } else {
        cells[k]
    }
}

/// The rectangle is at least one cell wide and high and lies inside `b`.
pub open spec fn border_fits(x: int, y: int, w: int, h: int, b: &RenderBuffer) -> bool {
    w >= 1 && h >= 1 && x + w <= b.w() && y + h <= b.h()
}

/// The glyph that a border of the given rectangle puts at `(i, j)`, if any.
/// Where edges coincide (a rectangle one cell wide or high), the corner
/// written last wins: bottom-left, then bottom-right, top-right, top-left.
pub open spec fn border_glyph(x: int, y: int, w: int, h: int, i: int, j: int) -> Option<char> {
    let right = x + w - 1;
    let bottom = y + h - 1;
    if i == x && j == bottom {
        Some('└')
    } else if i == right && j == bottom {
        Some('┘')
    } else if i == right && j == y {
        Some('┐')
    } else if i == x && j == y {
        Some('┌')
    } else if (i == x || i == right) && y < j < bottom {
        Some('│')
    } else if (j == y || j == bottom) && x < i < right {
        Some('─')
    } else {
        None
    }
}

/// The characters of row `y`, left to right.
pub open spec fn row_text(b: &RenderBuffer, y: int) -> Seq<char> {
    Seq::new(b.w(), |x: int| cell_char(b, x, y))
}

pub open spec fn cell_char(b: &RenderBuffer, x: int, y: int) -> char {
    b.at(x, y).ch
}

/// The first `n` rows, each followed by a line break.
pub open spec fn rows_text(b: &RenderBuffer, n: nat) -> Seq<char>
    decreases n,
{
    if n == 0 {
        seq![]
    } else {
        rows_text(b, (n - 1) as nat) + row_text(b, n - 1).push('\n')
    }
}

/// Relies on `String::push`: appends one character.
#[verifier::external_body]
fn push_char(s: &mut String, c: char)
    ensures
        final(s)@ == old(s)@.push(c),
{
    s.push(c);
}

/// Writing a cell and then reading the same coordinates gives back the
/// written character and style.
pub proof fn lemma_read_after_write(before: RenderBuffer, after: RenderBuffer, x: int, y: int, c: Cell)
    requires
        before.wf(),
        before.in_bounds(x, y),
        after.same_shape(&before),
        after.cells() == before.cells().update(before.index(x, y), c),
    ensures
        after.at(x, y) == c,
{
    lemma_index_in_grid(x, y, before.w() as int, before.h() as int);
}

/// A buffer compared with an identical copy has no changes.
pub proof fn lemma_diff_identical(b: RenderBuffer, copy: RenderBuffer)
    requires
        b.wf(),
        copy.same_shape(&b),
        copy.cells() == b.cells(),
    ensures
        diff_of(&b, &copy) == Seq::<BufferChange>::empty(),
{
    lemma_no_changes_before(b, copy, b.cells().len());
}

proof fn lemma_no_changes_before(b: RenderBuffer, copy: RenderBuffer, k: nat)
    requires
        k <= b.cells().len(),
        copy.cells() == b.cells(),
    ensures
        changes_before(&b, &copy, k) == Seq::<BufferChange>::empty(),
    decreases k,
{
    if k > 0 {
        lemma_no_changes_before(b, copy, (k - 1) as nat);
        assert(change_at(&b, &copy, k - 1) =~= Seq::<BufferChange>::empty());
        assert(changes_before(&b, &copy, k) =~= Seq::<BufferChange>::empty());
    }
}

impl RenderBuffer {
    pub closed spec fn w(&self) -> nat {
        self.width as nat
    }

    pub closed spec fn h(&self) -> nat {
        self.height as nat
    }

    /// The cells in row-major order.
    pub closed spec fn cells(&self) -> Seq<Cell> {
        self.data@
    }

    pub open spec fn wf(&self) -> bool {
        &&& self.cells().len() == self.w() * self.h()
        &&& self.w() * self.h() <= usize::MAX
    }

    pub open spec fn in_bounds(&self, x: int, y: int) -> bool {
        0 <= x < self.w() && 0 <= y < self.h()
    }

    pub open spec fn index(&self, x: int, y: int) -> int {
        y * self.w() + x
    }

    /// The cell at column `x` of row `y`.
    pub open spec fn at(&self, x: int, y: int) -> Cell {
        self.cells()[self.index(x, y)]
    }

    pub open spec fn same_shape(&self, other: &RenderBuffer) -> bool {
        self.w() == other.w() && self.h() == other.h()
    }

    /// A buffer of the given size with every cell blank.
    pub fn new(width: usize, height: usize) -> (r: RenderBuffer)
        requires
            width * height <= usize::MAX,
        ensures
            r.wf(),
            r.w() == width,
            r.h() == height,
            r.cells() == Seq::new((width * height) as nat, |i: int| blank_cell()),
    {
        let n: usize = width * height;
        let mut data: Vec<Cell> = Vec::new();
        let mut i: usize = 0;
        while i < n
            invariant
                i <= n,
                data@ == Seq::new(i as nat, |k: int| blank_cell()),
            decreases n - i,
        {
            data.push(Cell::default());
            i = i + 1;
        }
        RenderBuffer { data, width, height }
    }

    pub fn width(&self) -> (r: usize)
        ensures
            r == self.w(),
    {
        self.width
    }

    pub fn height(&self) -> (r: usize)
        ensures
            r == self.h(),
    {
        self.height
    }

    fn coord_to_idx(&self, x: usize, y: usize) -> (r: usize)
        requires
            self.wf(),
            self.in_bounds(x as int, y as int),
        ensures
            r == self.index(x as int, y as int),
            r < self.cells().len(),
    {
        proof {
            lemma_index_in_grid(x as int, y as int, self.width as int, self.height as int);
        }
        y * self.width + x
    }

    /// Writes one cell. The coordinates must lie inside the buffer.
    pub fn set_char(&mut self, ch: char, style: Option<&Style>, x: usize, y: usize)
        requires
            old(self).wf(),
            old(self).in_bounds(x as int, y as int),
        ensures
            final(self).wf(),
            final(self).same_shape(old(self)),
            final(self).cells() == old(self).cells().update(
                old(self).index(x as int, y as int),
                Cell { ch, style: style_or_default(style) },
            ),
            final(self).at(x as int, y as int) == (Cell { ch, style: style_or_default(style) }),
            forall|i: int, j: int|
                #![trigger final(self).at(i, j)]
                old(self).in_bounds(i, j) && (i != x || j != y) ==> final(self).at(i, j)
                    == old(self).at(i, j),
    {
        proof {
            assert forall|i: int, j: int|
                #![trigger self.index(i, j)]
                self.in_bounds(i, j) && (i != x || j != y) implies self.index(i, j) != self.index(
                    x as int,
                    y as int,
                ) && 0 <= self.index(i, j) < self.cells().len() by {
                lemma_index_injective(i, j, x as int, y as int, self.w() as int);
                lemma_index_in_grid(i, j, self.w() as int, self.h() as int);
            }
        }
        let idx = self.coord_to_idx(x, y);
        let s = match style {
            Some(s) => *s,
            None => Style::default(),
        };
        self.data.set(idx, Cell { ch, style: s });
    }

    /// Writes `text` left to right from `(x, y)`; fails without writing
    /// anything when it would run past the right edge.
    pub fn set_text(&mut self, text: &str, style: Option<&Style>, x: usize, y: usize) -> (r: Result<
        (),
        CanvasError,
    >)
        requires
            old(self).wf(),
            x + text@.len() <= old(self).w() && text@.len() > 0 ==> y < old(self).h(),
        ensures
            final(self).wf(),
            final(self).same_shape(old(self)),
            x + text@.len() > old(self).w() ==> r == Err::<(), CanvasError>(
                CanvasError::TextTooLong,
            ) && final(self).cells() == old(self).cells(),
            x + text@.len() <= old(self).w() ==> r is Ok && final(self).cells() == with_text(
                old(self).cells(),
                old(self).index(x as int, y as int),
                text@,
                style_or_default(style),
            ),
    {
        let n = text.unicode_len();
        if n > self.width || x > self.width - n {
            return Err(CanvasError::TextTooLong);
        }
        let ghost start = self.index(x as int, y as int);
        let ghost before = self.cells();
        let mut i: usize = 0;
        while i < n
            invariant
                self.wf(),
                self.w() == old(self).w(),
                self.h() == old(self).h(),
                i <= n,
                n == text@.len(),
                x + n <= self.w(),
                n > 0 ==> y < self.h(),
                start == self.index(x as int, y as int),
                before == old(self).cells(),
                before.len() == self.cells().len(),
                self.cells() == with_text(before, start, text@.subrange(0, i as int), style_or_default(style)),
            decreases n - i,
        {
            let ch = text.get_char(i);
            proof {
                lemma_index_in_grid((x + i) as int, y as int, self.w() as int, self.h() as int);
            }
            self.set_char(ch, style, x + i, y);
            assert(self.cells() =~= with_text(
                before,
                start,
                text@.subrange(0, i + 1),
                style_or_default(style),
            ));
            i = i + 1;
        }
        assert(text@.subrange(0, n as int) =~= text@);
        Ok(())
    }

    /// Draws the frame of the `width` by `height` rectangle whose top-left
    /// corner is `(x, y)`; fails without writing anything when it is empty or
    /// does not fit.
    pub fn draw_border(
        &mut self,
        x: usize,
        y: usize,
        width: usize,
        height: usize,
        style: Option<&Style>,
    ) -> (r: Result<(), CanvasError>)
        requires
            old(self).wf(),
        ensures
            final(self).wf(),
            final(self).same_shape(old(self)),
            !border_fits(x as int, y as int, width as int, height as int, old(self)) ==> r == Err::<
                (),
                CanvasError,
            >(CanvasError::AreaExceedsBounds) && final(self).cells() == old(self).cells(),
            border_fits(x as int, y as int, width as int, height as int, old(self)) ==> r is Ok,
            border_fits(x as int, y as int, width as int, height as int, old(self)) ==> forall|
                i: int,
                j: int,
            |
                #![trigger final(self).at(i, j)]
                old(self).in_bounds(i, j) ==> final(self).at(i, j) == match border_glyph(
                    x as int,
                    y as int,
                    width as int,
                    height as int,
                    i,
                    j,
                ) {
                    Some(c) => Cell { ch: c, style: style_or_default(style) },
                    None => old(self).at(i, j),
                },
    {
        if width == 0 || height == 0 {
            return Err(CanvasError::AreaExceedsBounds);
        }
        if width > self.width || x > self.width - width {
            return Err(CanvasError::AreaExceedsBounds);
        }
        if height > self.height || y > self.height - height {
            return Err(CanvasError::AreaExceedsBounds);
        }
        let ghost sty = style_or_default(style);
        let ghost start = *self;
        let right = x + width - 1;
        let bottom = y + height - 1;
        let mut i: usize = x + 1;
        while i < right
            invariant
                self.wf(),
                self.same_shape(&start),
                start.wf(),
                start == *old(self),
                sty == style_or_default(style),
                right == x + width - 1,
                bottom == y + height - 1,
                x <= right < self.w(),
                y <= bottom < self.h(),
                x + 1 <= i,
                i <= right || i == x + 1,
                forall|a: int, b: int|
                    #![trigger self.at(a, b)]
                    self.in_bounds(a, b) ==> self.at(a, b) == if (b == y || b == bottom) && x < a
                        < i {
                        Cell { ch: '─', style: sty }
                    } else {
                        start.at(a, b)
                    },
            decreases right - i,
        {
            let ghost s0 = *self;
            self.set_char('─', style, i, y);
            let ghost s1 = *self;
            self.set_char('─', style, i, bottom);
            assert forall|a: int, b: int| #![trigger self.at(a, b)]
                self.in_bounds(a, b) implies self.at(a, b) == if (b == y || b == bottom) && x < a < i + 1 {
                    Cell { ch: '─', style: sty }
                } else {
                    start.at(a, b)
                } by {
                if a == i && b == bottom {
                } else {
                    assert(self.at(a, b) == s1.at(a, b));
                    if a == i && b == y {
                    } else {
                        assert(s1.at(a, b) == s0.at(a, b));
                    }
                }
            }
            i = i + 1;
        }
        let mut j: usize = y + 1;
        while j < bottom
            invariant
                self.wf(),
                self.same_shape(&start),
                start.wf(),
                start == *old(self),
                sty == style_or_default(style),
                right == x + width - 1,
                bottom == y + height - 1,
                x <= right < self.w(),
                y <= bottom < self.h(),
                y + 1 <= j,
                j <= bottom || j == y + 1,
                forall|a: int, b: int|
                    #![trigger self.at(a, b)]
                    self.in_bounds(a, b) ==> self.at(a, b) == if (a == x || a == right) && y < b
                        < j {
                        Cell { ch: '│', style: sty }
                    } else if (b == y || b == bottom) && x < a < right {
                        Cell { ch: '─', style: sty }
                    } else {
                        start.at(a, b)
                    },
            decreases bottom - j,
        {
            let ghost s0 = *self;
            self.set_char('│', style, x, j);
            let ghost s1 = *self;
            self.set_char('│', style, right, j);
            assert forall|a: int, b: int| #![trigger self.at(a, b)]
                self.in_bounds(a, b) implies self.at(a, b) == if (a == x || a == right) && y < b < j + 1 {
                    Cell { ch: '│', style: sty }
                } else if (b == y || b == bottom) && x < a < right {
                    Cell { ch: '─', style: sty }
                } else {
                    start.at(a, b)
                } by {
                if a == right && b == j {
                } else {
                    assert(self.at(a, b) == s1.at(a, b));
                    if a == x && b == j {
                    } else {
                        assert(s1.at(a, b) == s0.at(a, b));
                    }
                }
            }
            j = j + 1;
        }
        let ghost s0 = *self;
        self.set_char('┌', style, x, y);
        let ghost s1 = *self;
        self.set_char('┐', style, right, y);
        let ghost s2 = *self;
        self.set_char('┘', style, right, bottom);
        let ghost s3 = *self;
        self.set_char('└', style, x, bottom);
        assert forall|a: int, b: int| #![trigger self.at(a, b)]
            start.in_bounds(a, b) implies self.at(a, b) == match border_glyph(
                x as int,
                y as int,
                width as int,
                height as int,
                a,
                b,
            ) {
                Some(c) => Cell { ch: c, style: sty },
                None => start.at(a, b),
            } by {
            if !(a == x && b == bottom) {
                assert(self.at(a, b) == s3.at(a, b));
                if !(a == right && b == bottom) {
                    assert(s3.at(a, b) == s2.at(a, b));
                    if !(a == right && b == y) {
                        assert(s2.at(a, b) == s1.at(a, b));
                        if !(a == x && b == y) {
                            assert(s1.at(a, b) == s0.at(a, b));
                        }
                    }
                }
            }
        }
        Ok(())
    }

    /// Resets every cell to a blank.
    pub fn clear(&mut self)
        requires
            old(self).wf(),
        ensures
            final(self).wf(),
            final(self).same_shape(old(self)),
            forall|k: int| 0 <= k < final(self).cells().len() ==> final(self).cells()[k] == blank_cell(),
    {
        let n: usize = self.width * self.height;
        let mut data: Vec<Cell> = Vec::new();
        let mut i: usize = 0;
        while i < n
            invariant
                i <= n,
                data@ == Seq::new(i as nat, |k: int| blank_cell()),
            decreases n - i,
        {
            data.push(Cell::default());
            i = i + 1;
        }
        self.data = data;
    }

    /// Every cell of `self` that differs from the snapshot `prev`, row by row.
    pub fn diff(&self, prev: &RenderBuffer) -> (r: Vec<BufferChange>)
        requires
            self.wf(),
            prev.wf(),
            self.same_shape(prev),
        ensures
            r@ == diff_of(self, prev),
    {
        let n: usize = self.data.len();
        let mut changes: Vec<BufferChange> = Vec::new();
        let mut k: usize = 0;
        while k < n
            invariant
                self.wf(),
                prev.wf(),
                self.same_shape(prev),
                n == self.cells().len(),
                k <= n,
                changes@ == changes_before(self, prev, k as nat),
            decreases n - k,
        {
            proof {
                if self.w() == 0 {
                    assert(self.w() * self.h() == 0) by (nonlinear_arith)
                        requires
                            self.w() == 0,
                    ;
                }
            }
            let cell = self.data[k];
            if cell != prev.data[k] {
                changes.push(BufferChange { cell, x: k % self.width, y: k / self.width });
            }
            k = k + 1;
        }
        changes
    }

    /// The characters of the buffer, one line per row.
    pub fn to_text(&self) -> (r: String)
        requires
            self.wf(),
        ensures
            r@ == rows_text(self, self.h()),
    {
        let mut s = String::new();
        let mut y: usize = 0;
        while y < self.height
            invariant
                self.wf(),
                y <= self.h(),
                s@ == rows_text(self, y as nat),
            decreases self.h() - y,
        {
            let ghost done = s@;
            let mut x: usize = 0;
            while x < self.width
                invariant
                    self.wf(),
                    y < self.h(),
                    x <= self.w(),
                    s@ == done + row_text(self, y as int).take(x as int),
                decreases self.w() - x,
            {
                let c = self.cell_at(x, y).ch;
                push_char(&mut s, c);
                assert(row_text(self, y as int).take(x + 1) =~= row_text(self, y as int).take(
                    x as int,
                ).push(c));
                x = x + 1;
            }
            push_char(&mut s, '\n');
            assert(row_text(self, y as int).take(self.w() as int) =~= row_text(self, y as int));
            assert(s@ =~= rows_text(self, (y + 1) as nat));
            y = y + 1;
        }
        s
    }

    /// The cell at `(x, y)`. The coordinates must lie inside the buffer.
    pub fn cell_at(&self, x: usize, y: usize) -> (r: &Cell)
        requires
            self.wf(),
            self.in_bounds(x as int, y as int),
        ensures
            *r == self.at(x as int, y as int),
    {
        let idx = self.coord_to_idx(x, y);
        &self.data[idx]
    }
}


/// Every change between two buffers of one shape lies inside the grid.
pub proof fn lemma_changes_in_grid(new: &RenderBuffer, prev: &RenderBuffer, k: nat)
    requires
        new.wf(),
        k <= new.cells().len(),
    ensures
        forall|i: int|
            0 <= i < changes_before(new, prev, k).len() ==> #[trigger] changes_before(
                new,
                prev,
                k,
            )[i].x < new.w() && changes_before(new, prev, k)[i].y < new.h(),
    decreases k,
{
    if k > 0 {
        lemma_changes_in_grid(new, prev, (k - 1) as nat);
        let w = new.w() as int;
        let h = new.h() as int;
        let p = k - 1;
        assert(w > 0) by (nonlinear_arith)
            requires
                0 <= p < w * h,
                0 <= h,
        ;
        assert(0 <= p % w < w && 0 <= p / w < h) by (nonlinear_arith)
            requires
                0 <= p < w * h,
                w > 0,
        ;
    }
}

/// The frame last sent to a terminal, against which the next one is diffed.
pub struct Canvas {
    buffer: RenderBuffer,
    width: usize,
    height: usize,
}

impl Canvas {
    /// What the terminal shows now.
    pub closed spec fn snapshot(&self) -> RenderBuffer {
        self.buffer
    }

    /// The buffer is as large as the canvas, and every cell can be addressed.
    pub closed spec fn wf(&self) -> bool {
        &&& self.buffer.wf()
        &&& self.buffer.w() == self.width
        &&& self.buffer.h() == self.height
        &&& self.width <= 65535
        &&& self.height <= 65535
    }

    pub fn new(width: usize, height: usize) -> (r: Canvas)
        requires
            width <= 65535,
            height <= 65535,
        ensures
            r.wf(),
            r.snapshot().w() == width,
            r.snapshot().h() == height,
            r.snapshot().cells() == Seq::new((width * height) as nat, |i: int| blank_cell()),
    {
        assert(width * height <= usize::MAX) by (nonlinear_arith)
            requires
                width <= 65535,
                height <= 65535,
        ;
        Canvas { buffer: RenderBuffer::new(width, height), width, height }
    }

    pub fn width(&self) -> (r: usize)
        requires
            self.wf(),
        ensures
            r == self.snapshot().w(),
            self.snapshot().wf(),
    {
        self.width
    }

    pub fn height(&self) -> (r: usize)
        requires
            self.wf(),
        ensures
            r == self.snapshot().h(),
    {
        self.height
    }

    /// Appends to `writer` the bytes that turn the shown snapshot into
    /// `frame`, then keeps `frame` as the new snapshot.
    pub fn redraw(&mut self, writer: &mut Vec<u8>, frame: RenderBuffer)
        requires
            old(self).wf(),
            frame.wf(),
            frame.same_shape(&old(self).snapshot()),
        ensures
            final(self).wf(),
            final(self).snapshot() == frame,
            final(writer)@.len() >= old(writer)@.len(),
            final(writer)@ == old(writer)@ + final(writer)@.subrange(
                old(writer)@.len() as int,
                final(writer)@.len() as int,
            ),
            renders(
                final(writer)@.subrange(old(writer)@.len() as int, final(writer)@.len() as int),
                diff_of(&frame, &old(self).snapshot()),
            ),
            frame.cells() == old(self).snapshot().cells() ==> final(writer)@ == old(writer)@,
    {
        let changes = frame.diff(&self.buffer);
        proof {
            lemma_changes_in_grid(&frame, &self.buffer, frame.cells().len());
        }
        proof {
            if frame.cells() == self.buffer.cells() {
                lemma_diff_identical(frame, self.buffer);
            }
        }
        write_changes(writer, &changes);
        self.buffer = frame;
    }
}

} // verus!
