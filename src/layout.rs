//! How a font description places its characters on the font image, and the
//! map from each character to its region that a description yields.

use vstd::prelude::*;

use crate::char_map::{keys_unique, lemma_map_of_domain, map_of, CharMap};
use crate::font::Rect;

verus! {

/// Where the characters of a font are on its image.
#[derive(Debug)]
pub enum ImageFontLayout {
    /// The string is a grid of the characters, one text line per row of the
    /// image; every cell has the same size. Leading and trailing line breaks
    /// are ignored, spaces are not.
    Automatic(String),
    /// Every character has the given size; the map gives each one's top-left
    /// corner.
    ManualMonospace { size_x: u32, size_y: u32, coords: CharMap<(u32, u32)> },
    /// The region of every character, given directly.
    Manual(CharMap<Rect>),
}

/// Why a layout does not fit its image.
#[derive(Debug, PartialEq, Eq, Structural)]
pub enum ImageFontLayoutValidationError {
    /// The image width is not a multiple of the longest row's length.
    InvalidImageWidth { width: u32, per_line_character_count: u32 },
    /// The image height is not a multiple of the number of rows.
    InvalidImageHeight { height: u32, line_count: u32 },
    /// A character occurs a second time, at this row and column.
    AutomaticRepeatedCharacter { row: usize, column: usize, character: char },
}

pub open spec fn is_line_break(c: char) -> bool {
    c == '\r' || c == '\n'
}

/// `s` without its leading line-break characters.
pub open spec fn trim_start_breaks(s: Seq<char>) -> Seq<char>
    decreases s.len(),
{
    if s.len() > 0 && is_line_break(s[0]) {
        trim_start_breaks(s.drop_first())
    } else {
        s
    }
}

/// `s` without its trailing line-break characters.
pub open spec fn trim_end_breaks(s: Seq<char>) -> Seq<char>
    decreases s.len(),
{
    if s.len() > 0 && is_line_break(s.last()) {
        trim_end_breaks(s.drop_last())
    } else {
        s
    }
}

/// The pieces of `t` between its `'\n'` characters.
pub open spec fn split_newlines(t: Seq<char>) -> Seq<Seq<char>>
    decreases t.len(),
{
    if t.len() == 0 {
        seq![Seq::empty()]
    } else {
        let prev = split_newlines(t.drop_last());
        if t.last() == '\n' {
            prev.push(Seq::empty())
        } else {
            prev.update(prev.len() - 1, prev.last().push(t.last()))
        }
    }
}

/// A line without the `'\r'` of a `"\r\n"` ending.
pub open spec fn strip_cr(l: Seq<char>) -> Seq<char> {
    if l.len() > 0 && l.last() == '\r' {
        l.drop_last()
    } else {
        l
    }
}

/// The text of a grid layout without its surrounding line breaks.
pub open spec fn grid_text(s: Seq<char>) -> Seq<char> {
    trim_end_breaks(trim_start_breaks(s))
}

/// The rows of a grid layout.
pub open spec fn grid_rows(s: Seq<char>) -> Seq<Seq<char>> {
    split_newlines(grid_text(s)).map_values(|l: Seq<char>| strip_cr(l))
}

/// The length of the longest row.
pub open spec fn max_row_len(rows: Seq<Seq<char>>) -> nat
    decreases rows.len(),
{
    if rows.len() == 0 {
        0
    } else {
        let m = max_row_len(rows.drop_last());
        if rows.last().len() > m {
            rows.last().len()
        } else {
            m
        }
    }
}

/// The cells of one row: row index, column index and character.
pub open spec fn row_cells(row: int, line: Seq<char>) -> Seq<(int, int, char)> {
    Seq::new(line.len(), |c: int| (row, c, line[c]))
}

/// The cells of all rows, in reading order.
pub open spec fn grid_cells(rows: Seq<Seq<char>>) -> Seq<(int, int, char)>
    decreases rows.len(),
{
    if rows.len() == 0 {
        Seq::empty()
    } else {
        grid_cells(rows.drop_last()) + row_cells(rows.len() - 1, rows.last())
    }
}

/// The region of a cell in a grid of `w` by `h` pixel cells.
pub open spec fn cell_rect(w: int, h: int, cell: (int, int, char)) -> Rect {
    Rect {
        min_x: (w * cell.1) as u32,
        min_y: (h * cell.0) as u32,
        max_x: (w * (cell.1 + 1)) as u32,
        max_y: (h * (cell.0 + 1)) as u32,
    }
}

pub open spec fn cell_entries(cells: Seq<(int, int, char)>, w: int, h: int) -> Seq<(char, Rect)> {
    cells.map_values(|x: (int, int, char)| (x.2, cell_rect(w, h, x)))
}

pub open spec fn chars_distinct(cells: Seq<(int, int, char)>) -> bool {
    forall|i: int, j: int| 0 <= i < j < cells.len() ==> cells[i].2 != cells[j].2
}

/// Cell `k` holds the first character that occurs for the second time.
pub open spec fn is_first_repeat(cells: Seq<(int, int, char)>, k: int) -> bool {
    &&& 0 <= k < cells.len()
    &&& chars_distinct(cells.take(k))
    &&& exists|j: int| 0 <= j < k && cells[j].2 == cells[k].2
}

/// The region of a character of a monospace layout.
pub open spec fn monospace_rect(size_x: u32, size_y: u32, corner: (u32, u32)) -> Rect {
    Rect {
        min_x: corner.0,
        min_y: corner.1,
        max_x: (corner.0 + size_x) as u32,
        max_y: (corner.1 + size_y) as u32,
    }
}

/// What a layout yields on an image of the given size.
pub open spec fn spec_rect_map(
    layout: &ImageFontLayout,
    size_x: u32,
    size_y: u32,
    r: Result<Map<char, Rect>, ImageFontLayoutValidationError>,
) -> bool {
    match layout {
        ImageFontLayout::Automatic(s) => {
            let rows = grid_rows(s@);
            let m = max_row_len(rows);
            let n = rows.len();
            let cells = grid_cells(rows);
            if size_x % (m as u32) != 0 {
                r == Err::<Map<char, Rect>, _>(
                    ImageFontLayoutValidationError::InvalidImageWidth {
                        width: size_x,
                        per_line_character_count: m as u32,
                    },
                )
            } else if size_y % (n as u32) != 0 {
                r == Err::<Map<char, Rect>, _>(
                    ImageFontLayoutValidationError::InvalidImageHeight {
                        height: size_y,
                        line_count: n as u32,
                    },
                )
            } else if chars_distinct(cells) {
                r == Ok::<_, ImageFontLayoutValidationError>(
                    map_of(cell_entries(cells, (size_x / (m as u32)) as int, (size_y / (n as u32)) as int)),
                )
            } else {
                exists|k: int|
                    is_first_repeat(cells, k) && r == Err::<Map<char, Rect>, _>(
                        ImageFontLayoutValidationError::AutomaticRepeatedCharacter {
                            row: cells[k].0 as usize,
                            column: cells[k].1 as usize,
                            character: cells[k].2,
                        },
                    )
            }
        },
        ImageFontLayout::ManualMonospace { size_x: w, size_y: h, coords } => r == Ok::<
            _,
            ImageFontLayoutValidationError,
        >(coords@.map_values(|p: (u32, u32)| monospace_rect(*w, *h, p))),
        ImageFontLayout::Manual(rects) => r == Ok::<_, ImageFontLayoutValidationError>(rects@),
    }
}

/// The rows as character sequences.
pub open spec fn rows_view(rows: Seq<Vec<char>>) -> Seq<Seq<char>> {
    rows.map_values(|l: Vec<char>| l@)
}

proof fn lemma_trim_start(s: Seq<char>)
    ensures
        trim_start_breaks(s).len() <= s.len(),
        trim_start_breaks(s).len() > 0 ==> !is_line_break(trim_start_breaks(s)[0]),
    decreases s.len(),
{
    if s.len() > 0 && is_line_break(s[0]) {
        lemma_trim_start(s.drop_first());
    }
}

proof fn lemma_trim_end(s: Seq<char>)
    ensures
        trim_end_breaks(s).len() <= s.len(),
        trim_end_breaks(s) == s.take(trim_end_breaks(s).len() as int),
    decreases s.len(),
{
    if s.len() > 0 && is_line_break(s.last()) {
        lemma_trim_end(s.drop_last());
        let t = trim_end_breaks(s.drop_last());
        assert(s.drop_last().take(t.len() as int) == s.take(t.len() as int));
    } else {
        assert(s.take(s.len() as int) == s);
    }
}

proof fn lemma_grid_text(s: Seq<char>)
    ensures
        grid_text(s).len() <= s.len(),
        grid_text(s).len() > 0 ==> !is_line_break(grid_text(s)[0]),
{
    lemma_trim_start(s);
    lemma_trim_end(trim_start_breaks(s));
}

proof fn lemma_split_bounds(t: Seq<char>)
    ensures
        1 <= split_newlines(t).len() <= t.len() + 1,
        forall|i: int| 0 <= i < split_newlines(t).len() ==> #[trigger] split_newlines(t)[i].len() <= t.len(),
        t.len() > 0 && t[0] != '\n' ==> split_newlines(t)[0].len() >= 1 && split_newlines(t)[0][0] == t[0],
    decreases t.len(),
{
    if t.len() > 0 {
        lemma_split_bounds(t.drop_last());
        if t.len() > 1 {
            assert(t.drop_last()[0] == t[0]);
        }
    }
}

proof fn lemma_max_row_len(rows: Seq<Seq<char>>)
    ensures
        forall|i: int| 0 <= i < rows.len() ==> #[trigger] rows[i].len() <= max_row_len(rows),
        rows.len() > 0 ==> exists|j: int| 0 <= j < rows.len() && rows[j].len() == max_row_len(rows),
    decreases rows.len(),
{
    if rows.len() > 0 {
        lemma_max_row_len(rows.drop_last());
        assert forall|i: int| 0 <= i < rows.len() implies #[trigger] rows[i].len() <= max_row_len(rows) by {
            if i < rows.len() - 1 {
                assert(rows.drop_last()[i] == rows[i]);
            }
        }
        if rows.last().len() <= max_row_len(rows.drop_last()) && rows.len() > 1 {
            let j = choose|j: int| 0 <= j < rows.len() - 1 && rows.drop_last()[j].len() == max_row_len(rows.drop_last());
            assert(rows[j] == rows.drop_last()[j]);
        }
        if rows.len() == 1 {
            assert(rows[0] == rows.last());
        }
    }
}

/// The rows of a grid layout are not empty, nor too long to count in `u32`.
proof fn lemma_grid_rows(s: Seq<char>)
    requires
        s.len() < u32::MAX,
        grid_text(s).len() > 0,
    ensures
        1 <= grid_rows(s).len() <= u32::MAX,
        1 <= max_row_len(grid_rows(s)) < u32::MAX,
{
    let t = grid_text(s);
    lemma_grid_text(s);
    lemma_split_bounds(t);
    let rows = grid_rows(s);
    lemma_max_row_len(rows);
    let j = choose|j: int| 0 <= j < rows.len() && rows[j].len() == max_row_len(rows);
    assert(rows[j].len() <= split_newlines(t)[j].len());
    let first = split_newlines(t)[0];
    if first.len() == 1 {
        assert(first.last() == first[0]);
    }
    assert(rows[0].len() >= 1);
}

proof fn lemma_grid_cells_prefix(rows: Seq<Seq<char>>, r1: int, r2: int)
    requires
        0 <= r1 <= r2 <= rows.len(),
    ensures
        grid_cells(rows.take(r1)).len() <= grid_cells(rows.take(r2)).len(),
        grid_cells(rows.take(r2)).take(grid_cells(rows.take(r1)).len() as int) == grid_cells(
            rows.take(r1),
        ),
    decreases r2 - r1,
{
    if r1 < r2 {
        lemma_grid_cells_prefix(rows, r1, r2 - 1);
        assert(rows.take(r2).drop_last() == rows.take(r2 - 1));
        let a = grid_cells(rows.take(r1));
        let b = grid_cells(rows.take(r2 - 1));
        let c = grid_cells(rows.take(r2));
        assert(c == b + row_cells(r2 - 1, rows.take(r2).last()));
        assert(c.take(a.len() as int) =~= b.take(a.len() as int));
    } else {
        assert(grid_cells(rows.take(r2)).take(grid_cells(rows.take(r2)).len() as int) =~= grid_cells(
            rows.take(r2),
        ));
    }
}

/// The characters of `s` without leading and trailing line breaks.
fn grid_text_chars(s: &Vec<char>) -> (r: Vec<char>)
    ensures
        r@ == grid_text(s@),
{
    let n = s.len();
    let mut a: usize = 0;
    assert(s@.subrange(0, n as int) == s@);
    while a < n && (s[a] == '\r' || s[a] == '\n')
        invariant
            a <= n,
            n == s@.len(),
            trim_start_breaks(s@) == trim_start_breaks(s@.subrange(a as int, n as int)),
        decreases n - a,
    {
        proof {
            assert(s@.subrange(a as int, n as int).drop_first() == s@.subrange(a + 1, n as int));
        }
        a += 1;
    }
    let ghost u = s@.subrange(a as int, n as int);
    assert(trim_start_breaks(s@) == u);
    let mut b: usize = n;
    while b > a && (s[b - 1] == '\r' || s[b - 1] == '\n')
        invariant
            a <= b <= n,
            n == s@.len(),
            u == s@.subrange(a as int, n as int),
            trim_end_breaks(u) == trim_end_breaks(s@.subrange(a as int, b as int)),
        decreases b - a,
    {
        proof {
            assert(s@.subrange(a as int, b as int).drop_last() == s@.subrange(a as int, b - 1));
        }
        b -= 1;
    }
    assert(trim_end_breaks(u) == s@.subrange(a as int, b as int));
    let mut r: Vec<char> = Vec::new();
    let mut i: usize = a;
    while i < b
        invariant
            a <= i <= b <= n,
            n == s@.len(),
            r@ == s@.subrange(a as int, i as int),
        decreases b - i,
    {
        r.push(s[i]);
        proof {
            assert(s@.subrange(a as int, i + 1) == s@.subrange(a as int, i as int).push(s@[i as int]));
        }
        i += 1;
    }
    r
}

/// `l` without a trailing `'\r'`.
fn strip_cr_vec(l: Vec<char>) -> (r: Vec<char>)
    ensures
        r@ == strip_cr(l@),
{
    let mut l = l;
    if l.len() > 0 && l[l.len() - 1] == '\r' {
        l.pop();
    }
    l
}

/// The rows of the grid text `t`.
fn split_rows(t: &Vec<char>) -> (r: Vec<Vec<char>>)
    ensures
        rows_view(r@) == split_newlines(t@).map_values(|l: Seq<char>| strip_cr(l)),
{
    let mut done: Vec<Vec<char>> = Vec::new();
    let mut cur: Vec<char> = Vec::new();
    let mut i: usize = 0;
    proof {
        assert(t@.take(0) =~= Seq::<char>::empty());
    }
    while i < t.len()
        invariant
            i <= t@.len(),
            split_newlines(t@.take(i as int)).len() == done@.len() + 1,
            forall|j: int|
                0 <= j < done@.len() ==> #[trigger] done@[j]@ == strip_cr(
                    split_newlines(t@.take(i as int))[j],
                ),
            cur@ == split_newlines(t@.take(i as int)).last(),
        decreases t@.len() - i,
    {
        let c = t[i];
        proof {
            assert(t@.take(i + 1).drop_last() == t@.take(i as int));
            assert(t@.take(i + 1).last() == c);
        }
        if c == '\n' {
            let line = strip_cr_vec(cur);
            done.push(line);
            cur = Vec::new();
        } else {
            cur.push(c);
        }
        i += 1;
    }
    proof {
        assert(t@.take(t@.len() as int) == t@);
    }
    let line = strip_cr_vec(cur);
    done.push(line);
    proof {
        assert(rows_view(done@) =~= split_newlines(t@).map_values(|l: Seq<char>| strip_cr(l)));
    }
    done
}

/// The length of the longest row.
fn longest_row(rows: &Vec<Vec<char>>) -> (m: usize)
    ensures
        m == max_row_len(rows_view(rows@)),
{
    let mut m: usize = 0;
    let mut i: usize = 0;
    while i < rows.len()
        invariant
            i <= rows@.len(),
            m == max_row_len(rows_view(rows@).take(i as int)),
        decreases rows@.len() - i,
    {
        proof {
            assert(rows_view(rows@).take(i + 1).drop_last() == rows_view(rows@).take(i as int));
        }
        if rows[i].len() > m {
            m = rows[i].len();
        }
        i += 1;
    }
    proof {
        assert(rows_view(rows@).take(rows@.len() as int) == rows_view(rows@));
    }
    m
}

/// The regions of the cells of `rows`, each `w` by `h` pixels; fails at the
/// first character that occurs twice.
fn grid_rect_map(rows: &Vec<Vec<char>>, w: u32, h: u32, Ghost(m): Ghost<nat>) -> (r: Result<
    CharMap<Rect>,
    ImageFontLayoutValidationError,
>)
    requires
        m == max_row_len(rows_view(rows@)),
        w * m <= u32::MAX,
        h * rows@.len() <= u32::MAX,
        m <= u32::MAX,
        rows@.len() <= u32::MAX,
    ensures
        ({
            let cells = grid_cells(rows_view(rows@));
            if chars_distinct(cells) {
                r is Ok && r->Ok_0.wf() && r->Ok_0@ == map_of(cell_entries(cells, w as int, h as int))
            } else {
                exists|k: int|
                    is_first_repeat(cells, k) && r == Err::<CharMap<Rect>, _>(
                        ImageFontLayoutValidationError::AutomaticRepeatedCharacter {
                            row: cells[k].0 as usize,
                            column: cells[k].1 as usize,
                            character: cells[k].2,
                        },
                    )
            }
        }),
{
    let ghost ls = rows_view(rows@);
    let ghost cells = grid_cells(ls);
    proof {
        lemma_max_row_len(ls);
        assert(ls.take(0) =~= Seq::<Seq<char>>::empty());
    }
    let mut map: CharMap<Rect> = CharMap::new();
    let ghost mut done: Seq<(int, int, char)> = Seq::empty();
    let mut row: usize = 0;
    while row < rows.len()
        invariant
            ls == rows_view(rows@),
            cells == grid_cells(ls),
            m == max_row_len(ls),
            forall|i: int| 0 <= i < ls.len() ==> #[trigger] ls[i].len() <= m,
            w * m <= u32::MAX,
            h * rows@.len() <= u32::MAX,
            m <= u32::MAX,
            rows@.len() <= u32::MAX,
            row <= rows@.len(),
            done == grid_cells(ls.take(row as int)),
            chars_distinct(done),
            map.wf(),
            map@ == map_of(cell_entries(done, w as int, h as int)),
        decreases rows@.len() - row,
    {
        let line = &rows[row];
        let ghost base = done;
        proof {
            assert(line@ == ls[row as int]);
            assert(row_cells(row as int, ls[row as int]).take(0) =~= Seq::<(int, int, char)>::empty());
            assert(done =~= base + row_cells(row as int, ls[row as int]).take(0));
        }
        let mut column: usize = 0;
        while column < line.len()
            invariant
                ls == rows_view(rows@),
                cells == grid_cells(ls),
                m == max_row_len(ls),
                forall|i: int| 0 <= i < ls.len() ==> #[trigger] ls[i].len() <= m,
                w * m <= u32::MAX,
                h * rows@.len() <= u32::MAX,
                m <= u32::MAX,
                rows@.len() <= u32::MAX,
                row < rows@.len(),
                line@ == ls[row as int],
                base == grid_cells(ls.take(row as int)),
                column <= line@.len(),
                done == base + row_cells(row as int, ls[row as int]).take(column as int),
                chars_distinct(done),
                map.wf(),
                map@ == map_of(cell_entries(done, w as int, h as int)),
            decreases line@.len() - column,
        {
            let character = line[column];
            proof {
                assert(ls[row as int].len() <= m);
                assert(w * (column + 1) <= w * m) by (nonlinear_arith)
                    requires
                        column + 1 <= m,
                ;
                assert(h * (row + 1) <= h * rows@.len()) by (nonlinear_arith)
                    requires
                        row + 1 <= rows@.len(),
                ;
                assert(w * column <= w * (column + 1)) by (nonlinear_arith);
                assert(h * row <= h * (row + 1)) by (nonlinear_arith);
            }
            let c32 = column as u32;
            let r32 = row as u32;
            let cell = Rect {
                min_x: w * c32,
                min_y: h * r32,
                max_x: w * (c32 + 1),
                max_y: h * (r32 + 1),
            };
            let ghost entry = (row as int, column as int, character);
            let ghost k = done.len() as int;
            proof {
                assert(cell == cell_rect(w as int, h as int, entry));
                lemma_map_of_domain(cell_entries(done, w as int, h as int), character);
            }
            let previous = map.insert(character, cell);
            if previous.is_some() {
                proof {
                    let es = cell_entries(done, w as int, h as int);
                    let j = choose|j: int| 0 <= j < es.len() && es[j].0 == character;
                    assert(done[j].2 == character);
                    lemma_grid_cells_prefix(ls, row + 1, ls.len() as int);
                    assert(ls.take(ls.len() as int) == ls);
                    assert(ls.take(row + 1).drop_last() == ls.take(row as int));
                    let full = grid_cells(ls.take(row + 1));
                    assert(full == base + row_cells(row as int, ls[row as int]));
                    assert(full.take(k) =~= done);
                    assert(full[k] == entry);
                    assert(cells.take(full.len() as int) == full);
                    assert(cells.take(k) =~= full.take(k));
                    assert(cells[k] == full[k]);
                    assert(is_first_repeat(cells, k));
                }
                return Err(
                    ImageFontLayoutValidationError::AutomaticRepeatedCharacter {
                        row,
                        column,
                        character,
                    },
                );
            }
            proof {
                let es = cell_entries(done, w as int, h as int);
                assert(forall|j: int| 0 <= j < done.len() ==> done[j].2 == es[j].0);
                let next = done.push(entry);
                assert(cell_entries(next, w as int, h as int) =~= es.push((character, cell)));
                assert(cell_entries(next, w as int, h as int).drop_last() =~= es);
                assert(row_cells(row as int, ls[row as int]).take(column + 1) =~= row_cells(
                    row as int,
                    ls[row as int],
                ).take(column as int).push(entry));
                done = next;
            }
            column += 1;
        }
        proof {
            assert(row_cells(row as int, ls[row as int]).take(column as int) =~= row_cells(
                row as int,
                ls[row as int],
            ));
            assert(ls.take(row + 1).drop_last() == ls.take(row as int));
        }
        row += 1;
    }
    proof {
        assert(ls.take(ls.len() as int) == ls);
    }
    Ok(map)
}

impl ImageFontLayout {
    /// The layout can be applied: a grid has a row, and its text is short
    /// enough to count in `u32`; a monospace corner plus the size stays in
    /// `u32`.
    pub open spec fn can_map(&self) -> bool {
        match self {
            ImageFontLayout::Automatic(s) => s@.len() < u32::MAX && grid_text(s@).len() > 0,
            ImageFontLayout::ManualMonospace { size_x, size_y, coords } => coords.wf() && forall|
                c: char,
            |
                #[trigger] coords@.contains_key(c) ==> coords@[c].0 + *size_x <= u32::MAX
                    && coords@[c].1 + *size_y <= u32::MAX,
            ImageFontLayout::Manual(rects) => rects.wf(),
        }
    }

    /// Given the image size, returns the map from each character to its
    /// region.
    pub fn into_character_rect_map(self, size_x: u32, size_y: u32) -> (r: Result<
        CharMap<Rect>,
        ImageFontLayoutValidationError,
    >)
        requires
            self.can_map(),
        ensures
            match r {
                Ok(map) => map.wf() && spec_rect_map(&self, size_x, size_y, Ok(map@)),
                Err(e) => spec_rect_map(&self, size_x, size_y, Err(e)),
            },
    {
        match self {
            ImageFontLayout::Automatic(s) => {
                let chars = crate::text::chars_of(s.as_str());
                let text = grid_text_chars(&chars);
                let rows = split_rows(&text);
                let ghost ls = grid_rows(s@);
                proof {
                    assert(rows_view(rows@) == ls);
                    lemma_grid_rows(s@);
                }
                let max_chars_per_line = longest_row(&rows) as u32;
                if size_x % max_chars_per_line != 0 {
                    return Err(
                        ImageFontLayoutValidationError::InvalidImageWidth {
                            width: size_x,
                            per_line_character_count: max_chars_per_line,
                        },
                    );
                }
                let line_count = rows.len() as u32;
                if size_y % line_count != 0 {
                    return Err(
                        ImageFontLayoutValidationError::InvalidImageHeight {
                            height: size_y,
                            line_count,
                        },
                    );
                }
                let rect_width = size_x / max_chars_per_line;
                let rect_height = size_y / line_count;
                proof {
                    vstd::arithmetic::div_mod::lemma_fundamental_div_mod(
                        size_x as int,
                        max_chars_per_line as int,
                    );
                    vstd::arithmetic::div_mod::lemma_fundamental_div_mod(
                        size_y as int,
                        line_count as int,
                    );
                    assert(rect_width * max_chars_per_line == max_chars_per_line * rect_width)
                        by (nonlinear_arith);
                    assert(rect_height * line_count == line_count * rect_height)
                        by (nonlinear_arith);
                }
                grid_rect_map(&rows, rect_width, rect_height, Ghost(max_row_len(ls)))
            },
            ImageFontLayout::ManualMonospace { size_x: w, size_y: h, coords } => {
                Ok(monospace_rect_map(w, h, &coords))
            },
            ImageFontLayout::Manual(rects) => Ok(rects),
        }
    }
}

/// The regions of a monospace layout: each corner with the common size.
fn monospace_rect_map(w: u32, h: u32, coords: &CharMap<(u32, u32)>) -> (r: CharMap<Rect>)
    requires
        coords.wf(),
        forall|c: char|
            #[trigger] coords@.contains_key(c) ==> coords@[c].0 + w <= u32::MAX && coords@[c].1
                + h <= u32::MAX,
    ensures
        r.wf(),
        r@ == coords@.map_values(|p: (u32, u32)| monospace_rect(w, h, p)),
{
    let mut map: CharMap<Rect> = CharMap::new();
    let n = coords.len();
    let ghost es = coords.entries_view();
    proof {
        coords.lemma_entries();
        assert(es.take(0) =~= Seq::<(char, (u32, u32))>::empty());
        assert(map@ =~= map_of(es.take(0)).map_values(|p: (u32, u32)| monospace_rect(w, h, p)));
    }
    let mut i: usize = 0;
    while i < n
        invariant
            coords.wf(),
            es == coords.entries_view(),
            n == es.len(),
            keys_unique(es),
            i <= n,
            map.wf(),
            forall|c: char|
                #[trigger] coords@.contains_key(c) ==> coords@[c].0 + w <= u32::MAX && coords@[c].1
                    + h <= u32::MAX,
            forall|j: int|
                0 <= j < es.len() ==> #[trigger] coords@.contains_key(es[j].0) && coords@[es[j].0]
                    == es[j].1,
            map@ == map_of(es.take(i as int)).map_values(|p: (u32, u32)| monospace_rect(w, h, p)),
        decreases n - i,
    {
        let c = coords.key_at(i);
        let p = coords.value_at(i);
        proof {
            assert(coords@.contains_key(es[i as int].0));
        }
        let rect = Rect { min_x: p.0, min_y: p.1, max_x: p.0 + w, max_y: p.1 + h };
        map.insert(c, rect);
        proof {
            assert(es.take(i + 1).drop_last() == es.take(i as int));
            assert(map@ =~= map_of(es.take(i + 1)).map_values(
                |p: (u32, u32)| monospace_rect(w, h, p),
            ));
        }
        i += 1;
    }
    proof {
        assert(es.take(n as int) == es);
    }
    map
}

} // verus!
