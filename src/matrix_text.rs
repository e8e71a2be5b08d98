//! A square matrix with a result column whose entries are written out as
//! text, and its two layouts: as boxed text, and as a drawing.

use vstd::prelude::*;
use crate::excalidraw::{
    drawn_first, in_i32, label_fits, lemma_draw_next, pairs, shape_fits, stroke_fits, wide_pairs,
    Drawable, Element, ExcalidrawFile, Shape,
};
use crate::number_text::{tidy, tidy_number};

verus! {

/// Each of `rows` has `n` entries, and there are `n` of them.
pub open spec fn is_square_of<T>(rows: Seq<Seq<T>>, n: nat) -> bool {
    &&& rows.len() == n
    &&& forall|r: int| 0 <= r < n ==> (#[trigger] rows[r]).len() == n
}

/// Length of the longest of `texts`, 0 when there is none.
pub open spec fn longest(texts: Seq<Seq<char>>) -> nat
    decreases texts.len(),
{
    if texts.len() == 0 {
        0
    } else {
        let m = longest(texts.drop_last());
        if texts.last().len() > m {
            texts.last().len()
        } else {
            m
        }
    }
}

/// Entry `c` of each row.
pub open spec fn column(cells: Seq<Seq<Seq<char>>>, c: int) -> Seq<Seq<char>> {
    cells.map_values(|row: Seq<Seq<char>>| row[c])
}

/// The width of each of the first `n` columns: that of its longest entry.
pub open spec fn widths(cells: Seq<Seq<Seq<char>>>, n: nat) -> Seq<nat> {
    Seq::new(n, |c: int| longest(column(cells, c)))
}

/// Sum of `ws`.
pub open spec fn total(ws: Seq<nat>) -> nat
    decreases ws.len(),
{
    if ws.len() == 0 {
        0
    } else {
        total(ws.drop_last()) + ws.last()
    }
}

/// Sum of the values of `arr`.
pub open spec fn total_of(arr: Seq<usize>) -> nat {
    total(arr.map_values(|v: usize| v as nat))
}

/// `k` spaces.
pub open spec fn spaces(k: nat) -> Seq<char> {
    Seq::new(k, |i: int| ' ')
}

/// `s` right-aligned in a field of `w` characters.
pub open spec fn pad_left(s: Seq<char>, w: nat) -> Seq<char> {
    if s.len() < w {
        spaces((w - s.len()) as nat) + s
    } else {
        s
    }
}

/// The first `k` entries of a row, each after a space and right-aligned
/// to the width of its column.
pub open spec fn cells_line(row: Seq<Seq<char>>, ws: Seq<nat>, k: nat) -> Seq<char>
    decreases k,
{
    if k == 0 {
        Seq::empty()
    } else {
        cells_line(row, ws, (k - 1) as nat) + seq![' '] + pad_left(row[k - 1], ws[k - 1])
    }
}

/// One row of the boxed text: the entries, a bar, then the result.
pub open spec fn row_line(row: Seq<Seq<char>>, result: Seq<char>, ws: Seq<nat>, rw: nat) -> Seq<
    char,
> {
    seq!['\u{2502}'] + cells_line(row, ws, ws.len()) + seq!['\u{2502}'] + pad_left(result, rw)
        + seq![' ', '\u{2502}', '\n']
}

/// The first `k` rows of the boxed text.
pub open spec fn rows_text(
    cells: Seq<Seq<Seq<char>>>,
    results: Seq<Seq<char>>,
    ws: Seq<nat>,
    rw: nat,
    k: nat,
) -> Seq<char>
    decreases k,
{
    if k == 0 {
        Seq::empty()
    } else {
        rows_text(cells, results, ws, rw, (k - 1) as nat) + row_line(
            cells[k - 1],
            results[k - 1],
            ws,
            rw,
        )
    }
}

/// Width of the blank run in the top and bottom edges of the box, which
/// makes them as wide as the rows.
pub open spec fn edge_width(cells: Seq<Seq<Seq<char>>>, results: Seq<Seq<char>>) -> nat {
    total(widths(cells, results.len())) + results.len() + longest(results)
}

/// The matrix as boxed text: a line break, the top edge, one line per row
/// with the columns right-aligned, and the bottom edge.
pub open spec fn boxed_text(cells: Seq<Seq<Seq<char>>>, results: Seq<Seq<char>>) -> Seq<char> {
    let w = edge_width(cells, results);
    seq!['\n', '\u{250c}', '\u{2574}'] + spaces(w) + seq!['\u{2576}', '\u{2510}', '\n']
        + rows_text(cells, results, widths(cells, results.len()), longest(results), results.len())
        + seq!['\u{2514}', '\u{2574}'] + spaces(w) + seq!['\u{2576}', '\u{2518}']
}

/// Sum of the values of `arr`.
pub fn sum(arr: &[usize]) -> (r: usize)
    requires
        total_of(arr@) <= usize::MAX,
    ensures
        r == total_of(arr@),
{
    let mut acc: usize = 0;
    let mut i: usize = 0;
    while i < arr.len()
        invariant
            i <= arr@.len(),
            acc == total_of(arr@.take(i as int)),
            total_of(arr@) <= usize::MAX,
        decreases arr@.len() - i,
    {
        proof {
            lemma_total_of_prefix(arr@, i as int);
        }
        acc = acc + arr[i];
        i = i + 1;
    }
    assert(arr@.take(arr@.len() as int) =~= arr@);
    acc
}

/// Sums of prefixes grow by the next value and stay under the whole sum.
proof fn lemma_total_of_prefix(arr: Seq<usize>, i: int)
    requires
        0 <= i < arr.len(),
    ensures
        total_of(arr.take(i + 1)) == total_of(arr.take(i)) + arr[i],
        total_of(arr.take(i + 1)) <= total_of(arr),
{
    let f = |v: usize| v as nat;
    assert(arr.take(i + 1).map_values(f).drop_last() =~= arr.take(i).map_values(f));
    lemma_total_prefix_le(arr.map_values(f), i + 1);
    assert(arr.map_values(f).take(i + 1) =~= arr.take(i + 1).map_values(f));
}

/// A prefix sums to no more than the whole.
proof fn lemma_total_prefix_le(ws: Seq<nat>, k: int)
    requires
        0 <= k <= ws.len(),
    ensures
        total(ws.take(k)) <= total(ws),
    decreases ws.len(),
{
    if k < ws.len() {
        assert(ws.drop_last().take(k) =~= ws.take(k));
        lemma_total_prefix_le(ws.drop_last(), k);
    } else {
        assert(ws.take(k) =~= ws);
    }
}

/// The view of rows of strings.
pub open spec fn texts_of(v: Seq<String>) -> Seq<Seq<char>> {
    v.map_values(|t: String| t@)
}

/// The view of a table of strings.
pub open spec fn table_of(v: Seq<Vec<String>>) -> Seq<Seq<Seq<char>>> {
    v.map_values(|row: Vec<String>| texts_of(row@))
}

/// A square matrix with a result column, each entry written out as text.
pub struct MatrixText {
    cells: Vec<Vec<String>>,
    results: Vec<String>,
}

impl MatrixText {
    /// The entries, row by row.
    pub closed spec fn cells(&self) -> Seq<Seq<Seq<char>>> {
        table_of(self.cells@)
    }

    /// The result column.
    pub closed spec fn results(&self) -> Seq<Seq<char>> {
        texts_of(self.results@)
    }

    /// Number of rows, which is also the number of columns.
    pub open spec fn size(&self) -> nat {
        self.results().len()
    }

    /// The entries form a square with one result per row.
    pub open spec fn is_square(&self) -> bool {
        is_square_of(self.cells(), self.size())
    }

    /// Every matrix is square.
    #[verifier::type_invariant]
    spec fn square(&self) -> bool {
        is_square_of(table_of(self.cells@), self.results@.len() as nat)
    }

    /// The matrix whose entries and results are written with fixed
    /// decimals in `cells` and `results`, each taken to its short form;
    /// `None` when `cells` is not a square with one row per result.
    pub fn new(cells: Vec<Vec<String>>, results: Vec<String>) -> (r: Option<Self>)
        ensures
            r is Some <==> is_square_of(table_of(cells@), results@.len() as nat),
            r matches Some(m) ==> {
                &&& m.is_square()
                &&& m.size() == results@.len()
                &&& forall|i: int| 0 <= i < m.size() ==> #[trigger] m.results()[i] == tidy(results@[i]@)
                &&& forall|i: int, j: int|
                    0 <= i < m.size() && 0 <= j < m.size() ==> #[trigger] m.cells()[i][j] == tidy(
                        cells@[i]@[j]@,
                    )
            },
    {
        let n = results.len();
        if cells.len() != n {
            return None;
        }
        let mut i: usize = 0;
        while i < n
            invariant
                n == results@.len(),
                cells@.len() == n,
                i <= n,
                forall|k: int| 0 <= k < i ==> (#[trigger] cells@[k])@.len() == n,
            decreases n - i,
        {
            if cells[i].len() != n {
                assert(table_of(cells@)[i as int].len() != n);
                return None;
            }
            i = i + 1;
        }
        assert(is_square_of(table_of(cells@), n as nat));
        let mut short_results: Vec<String> = Vec::new();
        let mut k: usize = 0;
        while k < n
            invariant
                n == results@.len(),
                k <= n,
                short_results@.len() == k,
                forall|j: int| 0 <= j < k ==> #[trigger] short_results@[j]@ == tidy(results@[j]@),
            decreases n - k,
        {
            short_results.push(tidy_number(results[k].as_str()));
            k = k + 1;
        }
        let mut short_cells: Vec<Vec<String>> = Vec::new();
        let mut r: usize = 0;
        while r < n
            invariant
                n == results@.len(),
                cells@.len() == n,
                forall|a: int| 0 <= a < n ==> (#[trigger] cells@[a])@.len() == n,
                r <= n,
                short_cells@.len() == r,
                forall|a: int| 0 <= a < r ==> (#[trigger] short_cells@[a])@.len() == n,
                forall|a: int, b: int|
                    0 <= a < r && 0 <= b < n ==> (#[trigger] short_cells@[a]@[b])@ == tidy(
                        cells@[a]@[b]@,
                    ),
            decreases n - r,
        {
            let mut row: Vec<String> = Vec::new();
            let mut c: usize = 0;
            while c < n
                invariant
                    n == results@.len(),
                    cells@.len() == n,
                    r < n,
                    cells@[r as int]@.len() == n,
                    c <= n,
                    row@.len() == c,
                    forall|b: int| 0 <= b < c ==> (#[trigger] row@[b])@ == tidy(cells@[r as int]@[b]@),
                decreases n - c,
            {
                row.push(tidy_number(cells[r][c].as_str()));
                c = c + 1;
            }
            short_cells.push(row);
            r = r + 1;
        }
        let m = MatrixText { cells: short_cells, results: short_results };
        assert(m.is_square());
        Some(m)
    }
}

/// Appends `k` spaces to `out`.
fn push_spaces(out: &mut String, k: usize)
    ensures
        final(out)@ == old(out)@ + spaces(k as nat),
{
    let mut i: usize = 0;
    while i < k
        invariant
            i <= k,
            out@ == old(out)@ + spaces(i as nat),
        decreases k - i,
    {
        proof {
            reveal_strlit(" ");
        }
        out.append(" ");
        assert(old(out)@ + spaces(i as nat) + seq![' '] =~= old(out)@ + spaces((i + 1) as nat));
        i = i + 1;
    }
}

/// Appends `s` right-aligned in a field of `w` characters to `out`.
fn push_padded(out: &mut String, s: &str, w: usize)
    ensures
        final(out)@ == old(out)@ + pad_left(s@, w as nat),
{
    let len = s.unicode_len();
    if len < w {
        push_spaces(out, w - len);
    }
    out.append(s);
    assert(old(out)@ + pad_left(s@, w as nat) =~= if len < w {
        old(out)@ + spaces((w - len) as nat) + s@
    } else {
        old(out)@ + s@
    });
}

/// Length of the longest of `texts`.
fn longest_of(texts: &Vec<String>) -> (m: usize)
    ensures
        m == longest(texts_of(texts@)),
{
    let ghost ts = texts_of(texts@);
    let mut m: usize = 0;
    let mut i: usize = 0;
    while i < texts.len()
        invariant
            ts == texts_of(texts@),
            i <= texts@.len(),
            m == longest(ts.take(i as int)),
        decreases texts@.len() - i,
    {
        let len = texts[i].as_str().unicode_len();
        assert(ts.take(i + 1).drop_last() =~= ts.take(i as int));
        if len > m {
            m = len;
        }
        i = i + 1;
    }
    assert(ts.take(texts@.len() as int) =~= ts);
    m
}

impl MatrixText {
    /// The boxed text fits in memory.
    pub open spec fn text_fits(&self) -> bool {
        edge_width(self.cells(), self.results()) <= usize::MAX
    }

    /// The width of each column: that of its longest entry.
    fn column_widths(&self) -> (ws: Vec<usize>)
        ensures
            ws@.len() == self.size(),
            forall|c: int| 0 <= c < self.size() ==> #[trigger] ws@[c] == widths(self.cells(), self.size())[c],
    {
        proof {
            use_type_invariant(self);
        }
        let n = self.results.len();
        let ghost cells = self.cells();
        let mut ws: Vec<usize> = Vec::new();
        let mut c: usize = 0;
        while c < n
            invariant
                cells == self.cells(),
                n == self.size(),
                is_square_of(cells, n as nat),
                c <= n,
                ws@.len() == c,
                forall|b: int| 0 <= b < c ==> #[trigger] ws@[b] == widths(cells, n as nat)[b],
            decreases n - c,
        {
            let ghost col = column(cells, c as int);
            let mut w: usize = 0;
            let mut r: usize = 0;
            while r < n
                invariant
                    cells == self.cells(),
                    n == self.size(),
                    is_square_of(cells, n as nat),
                    c < n,
                    col == column(cells, c as int),
                    r <= n,
                    w == longest(col.take(r as int)),
                decreases n - r,
            {
                assert(cells[r as int].len() == n);
                let len = self.cells[r][c].as_str().unicode_len();
                assert(len == col[r as int].len());
                assert(col.take(r + 1).drop_last() =~= col.take(r as int));
                if len > w {
                    w = len;
                }
                r = r + 1;
            }
            assert(col.take(n as int) =~= col);
            ws.push(w);
            c = c + 1;
        }
        ws
    }
}

impl MatrixText {
    /// The matrix as boxed text, one line per row between a top and a
    /// bottom edge, every column right-aligned to its longest entry.
    pub fn to_text(&self) -> (r: String)
        requires
            self.text_fits(),
        ensures
            r@ == boxed_text(self.cells(), self.results()),
    {
        proof {
            use_type_invariant(self);
        }
        let ghost cells = self.cells();
        let ghost results = self.results();
        let n = self.results.len();
        let ws = self.column_widths();
        let ghost wsv = widths(cells, n as nat);
        let rw = longest_of(&self.results);
        assert(ws@.map_values(|v: usize| v as nat) =~= wsv);
        let w = sum(ws.as_slice()) + n + rw;
        let mut out = String::new();
        proof {
            reveal_strlit("\n\u{250c}\u{2574}");
            reveal_strlit("\u{2576}\u{2510}\n");
            reveal_strlit("\u{2502}");
            reveal_strlit(" ");
            reveal_strlit(" \u{2502}\n");
            reveal_strlit("\u{2514}\u{2574}");
            reveal_strlit("\u{2576}\u{2518}");
        }
        out.append("\n\u{250c}\u{2574}");
        push_spaces(&mut out, w);
        out.append("\u{2576}\u{2510}\n");
        let ghost head = out@;
        let mut r: usize = 0;
        while r < n
            invariant
                cells == self.cells(),
                results == self.results(),
                n == self.size(),
                is_square_of(cells, n as nat),
                wsv == widths(cells, n as nat),
                ws@.len() == n,
                forall|c: int| 0 <= c < n ==> #[trigger] ws@[c] == wsv[c],
                rw == longest(results),
                r <= n,
                out@ == head + rows_text(cells, results, wsv, rw as nat, r as nat),
            decreases n - r,
        {
            let ghost before = out@;
            proof {
                reveal_strlit("\u{2502}");
                reveal_strlit(" \u{2502}\n");
            }
            out.append("\u{2502}");
            assert(cells[r as int].len() == n);
            assert(cells_line(cells[r as int], wsv, 0) =~= Seq::<char>::empty());
            assert(out@ =~= before + seq!['\u{2502}'] + cells_line(cells[r as int], wsv, 0));
            let mut c: usize = 0;
            while c < n
                invariant
                    cells == self.cells(),
                    n == self.size(),
                    is_square_of(cells, n as nat),
                    wsv == widths(cells, n as nat),
                    ws@.len() == n,
                    forall|k: int| 0 <= k < n ==> #[trigger] ws@[k] == wsv[k],
                    r < n,
                    c <= n,
                    out@ == before + seq!['\u{2502}'] + cells_line(cells[r as int], wsv, c as nat),
                decreases n - c,
            {
                assert(cells[r as int].len() == n);
                assert(self.cells@[r as int]@[c as int]@ == cells[r as int][c as int]);
                let ghost mid = out@;
                proof {
                    reveal_strlit(" ");
                }
                out.append(" ");
                push_padded(&mut out, self.cells[r][c].as_str(), ws[c]);
                assert(out@ =~= mid + seq![' '] + pad_left(cells[r as int][c as int], wsv[c as int]));
                assert(before + seq!['\u{2502}'] + cells_line(cells[r as int], wsv, (c + 1) as nat)
                    =~= before + seq!['\u{2502}'] + cells_line(cells[r as int], wsv, c as nat)
                    + seq![' '] + pad_left(cells[r as int][c as int], wsv[c as int]));
                c = c + 1;
            }
            let ghost line_start = out@;
            out.append("\u{2502}");
            push_padded(&mut out, self.results[r].as_str(), rw);
            out.append(" \u{2502}\n");
            assert(self.results@[r as int]@ == results[r as int]);
            assert(out@ =~= line_start + seq!['\u{2502}'] + pad_left(results[r as int], rw as nat)
                + seq![' ', '\u{2502}', '\n']);
            assert(out@ =~= before + row_line(cells[r as int], results[r as int], wsv, rw as nat));
            assert(out@ =~= head + rows_text(cells, results, wsv, rw as nat, (r + 1) as nat));
            r = r + 1;
        }
        out.append("\u{2514}\u{2574}");
        push_spaces(&mut out, w);
        out.append("\u{2576}\u{2518}");
        assert(out@ =~= boxed_text(cells, results));
        out
    }
}

/// Distance from the first column to column `c`: ten units per character of
/// the columns before it, and one grid step after each of them.
pub open spec fn column_offset(ws: Seq<nat>, c: int, s: int) -> int {
    10 * total(ws.take(c)) + c * s
}

/// Width that the columns of entries take together.
pub open spec fn columns_span(ws: Seq<nat>, s: int) -> int {
    10 * total(ws) + (ws.len() - 1) * s
}

/// Shape `k` of the drawing of a matrix at `(x, y)` on a grid of `s`: the
/// left bracket; the entries, column by column; the bar before the result
/// column; the results; the right bracket.
pub open spec fn matrix_shape(
    cells: Seq<Seq<Seq<char>>>,
    results: Seq<Seq<char>>,
    s: int,
    x: int,
    y: int,
    k: int,
) -> Shape {
    let n = results.len() as int;
    let ws = widths(cells, n as nat);
    let span = columns_span(ws, s);
    let h = s * (2 * n + 1);
    if k == 0 {
        Shape::Stroke { x, y, points: seq![(s, 0), (0, 0), (0, h), (s, h)] }
    } else if k <= n * n {
        let c = (k - 1) / n;
        let r = (k - 1) % n;
        Shape::Label { x: x + s + column_offset(ws, c, s), y: y + s + 2 * s * r, text: cells[r][c] }
    } else if k == n * n + 1 {
        Shape::Stroke { x: x + 2 * s + span, y: y + s, points: seq![(0, 0), (0, s * (2 * n - 1))] }
    } else if k <= n * n + n + 1 {
        let i = k - n * n - 2;
        Shape::Label { x: x + 3 * s + span, y: y + s + 2 * s * i, text: results[i] }
    } else {
        Shape::Stroke {
            x: x + 3 * s + span + 10 * longest(results),
            y,
            points: seq![(0, 0), (s, 0), (s, h), (0, h)],
        }
    }
}

/// All the shapes of the drawing of a matrix, in drawing order.
pub open spec fn matrix_shapes(
    cells: Seq<Seq<Seq<char>>>,
    results: Seq<Seq<char>>,
    s: int,
    x: int,
    y: int,
) -> Seq<Shape> {
    let n = results.len();
    Seq::new(n * n + n + 3, |k: int| matrix_shape(cells, results, s, x, y, k))
}

/// Width and height of the drawing of a matrix on a grid of `s`.
pub open spec fn matrix_size(cells: Seq<Seq<Seq<char>>>, results: Seq<Seq<char>>, s: int) -> (
    int,
    int,
) {
    let n = results.len() as int;
    let ws = widths(cells, n as nat);
    (4 * s + columns_span(ws, s) + 10 * longest(results), s * (2 * n + 1))
}

/// A grid step times a count stays far inside what an `i128` holds.
proof fn lemma_step_times_count(s: int, k: int)
    requires
        -0x1_0000_0000 <= s <= 0x1_0000_0000,
        0 <= k <= 0x4_0000_0000_0000_0000,
    ensures
        -0x4_0000_0000_0000_0000_0000_0000 <= s * k <= 0x4_0000_0000_0000_0000_0000_0000,
        s * k == k * s,
{
    assert(s * k == k * s) by (nonlinear_arith);
    assert(-0x4_0000_0000_0000_0000_0000_0000 <= s * k <= 0x4_0000_0000_0000_0000_0000_0000)
        by (nonlinear_arith)
        requires
            -0x1_0000_0000 <= s <= 0x1_0000_0000,
            0 <= k <= 0x4_0000_0000_0000_0000,
    ;
}

/// `s * (2 * k + 1)` and `s * (2 * k - 1)` as `i128`.
fn odd_steps(s: i32, k: usize) -> (r: (i128, i128))
    ensures
        r.0 == s * (2 * k + 1),
        r.1 == s * (2 * k - 1),
{
    proof {
        lemma_step_times_count(s as int, 2 * k + 1);
        lemma_step_times_count(s as int, 2 * k);
        assert(s * (2 * k - 1) == s * (2 * k) - s) by (nonlinear_arith);
    }
    let k2 = 2 * (k as i128);
    ((s as i128) * (k2 + 1), (s as i128) * k2 - (s as i128))
}

/// `y + s + 2 * s * r`, the top of row `r`, as `i128`.
fn row_top(y: i32, s: i32, r: usize) -> (v: i128)
    ensures
        v == y + s + 2 * s * r,
{
    proof {
        lemma_step_times_count(s as int, 2 * r);
        assert(2 * s * r == s * (2 * r)) by (nonlinear_arith);
    }
    (y as i128) + (s as i128) + (s as i128) * (2 * (r as i128))
}

impl MatrixText {
    /// What the loops that walk the drawing at `(x, y)` on a grid of `g`
    /// know throughout: the matrix is square, the shapes are counted, `ws`
    /// holds the column widths and `span` the width of the entries.
    spec fn walking(&self, g: int, x: int, y: int, ws: Seq<usize>, span: int) -> bool {
        let n = self.size();
        let wsv = widths(self.cells(), n);
        &&& is_square_of(self.cells(), n)
        &&& self.shapes(g, x, y).len() == n * n + n + 3
        &&& ws.len() == n
        &&& forall|b: int| 0 <= b < n ==> #[trigger] ws[b] == wsv[b]
        &&& total(wsv) <= i32::MAX / 10
        &&& span == columns_span(wsv, g)
        &&& -0x8_0000_0000_0000_0000_0000_0000 <= span <= 0x8_0000_0000_0000_0000_0000_0000
    }
}

impl Drawable for MatrixText {
    open spec fn shapes(&self, grid_size: int, x: int, y: int) -> Seq<Shape> {
        matrix_shapes(self.cells(), self.results(), grid_size, x, y)
    }

    open spec fn drawn_size(&self, grid_size: int) -> (int, int) {
        matrix_size(self.cells(), self.results(), grid_size)
    }

    open spec fn fits(&self, grid_size: int, x: int, y: int) -> bool {
        let shapes = self.shapes(grid_size, x, y);
        &&& 10 * total(widths(self.cells(), self.size())) <= i32::MAX
        &&& 10 * longest(self.results()) <= i32::MAX
        &&& forall|k: int| 0 <= k < shapes.len() ==> shape_fits(#[trigger] shapes[k])
        &&& in_i32(self.drawn_size(grid_size).0)
        &&& in_i32(self.drawn_size(grid_size).1)
    }

    fn draw(&self, file: &mut ExcalidrawFile, x: i32, y: i32, locked: bool) -> (r: (i32, i32)) {
        proof {
            use_type_invariant(self);
        }
        let g = file.app_state.grid_size;
        let ghost before = *file;
        let ghost cells = self.cells();
        let ghost results = self.results();
        let ghost shapes = self.shapes(g as int, x as int, y as int);
        let n = self.results.len();
        let s = g as i128;
        let (h, bar) = odd_steps(g, n);
        assert(before.elements@.take(before.elements@.len() as int) =~= before.elements@);

        // The left bracket.
        assert(shape_fits(shapes[0]));
        let ghost left = seq![(g as int, 0int), (0int, 0int), (0int, h as int), (g as int, h as int)];
        assert(in_i32(left[2].1));
        let h32 = h as i32;
        let pts = vec![[g, 0], [0, 0], [0, h32], [g, h32]];
        assert(pairs(pts@) =~= left);
        let e = Element::simple_line(x, y, locked, pts);
        let ghost prev = *file;
        file.elements.push(e);
        proof {
            lemma_draw_next(before, prev, *file, shapes, locked, 0, file.elements@.last());
        }

        let ws = self.column_widths();
        let ghost wsv = widths(cells, n as nat);
        assert(ws@.map_values(|v: usize| v as nat) =~= wsv);
        let t = sum(ws.as_slice());
        let rw = longest_of(&self.results);
        proof {
            lemma_step_times_count(g as int, n as int);
            assert((n - 1) * g == n * g - g) by (nonlinear_arith);
        }
        let span: i128 = 10 * (t as i128) + (n as i128) * s - s;

        // The entries, column by column.
        let mut off: i128 = 0;
        let mut c: usize = 0;
        while c < n
            invariant
                g == before.app_state.grid_size,
                s == g,
                n == self.size(),
                cells == self.cells(),
                results == self.results(),
                shapes == self.shapes(g as int, x as int, y as int),
                wsv == widths(cells, n as nat),
                self.walking(g as int, x as int, y as int, ws@, span as int),
                self.fits(g as int, x as int, y as int),
                c <= n,
                off == column_offset(wsv, c as int, g as int),
                drawn_first(before, *file, shapes, locked, 1 + c * n),
            decreases n - c,
        {
            let mut r: usize = 0;
            while r < n
                invariant
                    g == before.app_state.grid_size,
                    s == g,
                    n == self.size(),
                    cells == self.cells(),
                    results == self.results(),
                    shapes == self.shapes(g as int, x as int, y as int),
                    wsv == widths(cells, n as nat),
                    self.walking(g as int, x as int, y as int, ws@, span as int),
                    self.fits(g as int, x as int, y as int),
                    c < n,
                    off == column_offset(wsv, c as int, g as int),
                    r <= n,
                    drawn_first(before, *file, shapes, locked, 1 + c * n + r),
                decreases n - r,
            {
                let ghost k = 1 + c * n + r;
                proof {
                    assert(c * n + r < n * n) by (nonlinear_arith)
                        requires
                            c < n,
                            r < n,
                    ;
                    vstd::arithmetic::div_mod::lemma_fundamental_div_mod_converse(
                        k - 1,
                        n as int,
                        c as int,
                        r as int,
                    );
                    assert(shape_fits(shapes[k]));
                    assert(cells[r as int].len() == n);
                    assert(self.cells@[r as int]@[c as int]@ == cells[r as int][c as int]);
                }
                let cx = (x as i128) + s + off;
                let cy = row_top(y, g, r);
                let text = self.cells[r][c].clone();
                let e = Element::draw_small_monospaced_text(cx as i32, cy as i32, locked, text);
                let ghost prev = *file;
                file.elements.push(e);
                proof {
                    lemma_draw_next(before, prev, *file, shapes, locked, k, file.elements@.last());
                }
                r = r + 1;
            }
            proof {
                assert(1 + c * n + n == 1 + (c + 1) * n) by (nonlinear_arith);
                assert(wsv.take(c + 1).drop_last() =~= wsv.take(c as int));
                lemma_total_prefix_le(wsv, c + 1);
                lemma_step_times_count(g as int, c + 1);
                assert((c + 1) * g == c * g + g) by (nonlinear_arith);
            }
            off = off + 10 * (ws[c] as i128) + s;
            c = c + 1;
        }

        // The bar before the result column.
        let ghost k = n * n + 1;
        assert(shape_fits(shapes[k]));
        let ghost mid = seq![(0int, 0int), (0int, bar as int)];
        assert(in_i32(mid[1].1));
        let pts = vec![[0, 0], [0, bar as i32]];
        assert(pairs(pts@) =~= mid);
        let e = Element::simple_line(((x as i128) + 2 * s + span) as i32, (y as i128 + s) as i32, locked, pts);
        let ghost prev = *file;
        file.elements.push(e);
        proof {
            lemma_draw_next(before, prev, *file, shapes, locked, k, file.elements@.last());
        }

        // The results.
        let mut i: usize = 0;
        while i < n
            invariant
                g == before.app_state.grid_size,
                s == g,
                n == self.size(),
                cells == self.cells(),
                results == self.results(),
                shapes == self.shapes(g as int, x as int, y as int),
                wsv == widths(cells, n as nat),
                self.walking(g as int, x as int, y as int, ws@, span as int),
                self.fits(g as int, x as int, y as int),
                rw == longest(results),
                i <= n,
                drawn_first(before, *file, shapes, locked, n * n + 2 + i),
            decreases n - i,
        {
            let ghost k = n * n + 2 + i;
            assert(shape_fits(shapes[k]));
            assert(self.results@[i as int]@ == results[i as int]);
            let cy = row_top(y, g, i);
            let text = self.results[i].clone();
            let e = Element::draw_small_monospaced_text(
                ((x as i128) + 3 * s + span) as i32,
                cy as i32,
                locked,
                text,
            );
            let ghost prev = *file;
            file.elements.push(e);
            proof {
                lemma_draw_next(before, prev, *file, shapes, locked, k, file.elements@.last());
            }
            i = i + 1;
        }

        // The right bracket.
        let ghost k = n * n + n + 2;
        assert(shape_fits(shapes[k]));
        let ghost right = seq![(0int, 0int), (g as int, 0int), (g as int, h as int), (0int, h as int)];
        let pts = vec![[0, 0], [g, 0], [g, h32], [0, h32]];
        assert(pairs(pts@) =~= right);
        let rx = (x as i128) + 3 * s + span + 10 * (rw as i128);
        let e = Element::simple_line(rx as i32, y, locked, pts);
        let ghost prev = *file;
        file.elements.push(e);
        proof {
            lemma_draw_next(before, prev, *file, shapes, locked, k, file.elements@.last());
        }
        ((4 * s + span + 10 * (rw as i128)) as i32, h32)
    }
}

/// The sum of `arr`, or `None` when it is more than a `usize` holds.
fn checked_sum(arr: &[usize]) -> (r: Option<usize>)
    ensures
        r is Some <==> total_of(arr@) <= usize::MAX,
        r matches Some(v) ==> v == total_of(arr@),
{
    let mut acc: usize = 0;
    let mut i: usize = 0;
    while i < arr.len()
        invariant
            i <= arr@.len(),
            acc == total_of(arr@.take(i as int)),
        decreases arr@.len() - i,
    {
        proof {
            lemma_total_of_prefix(arr@, i as int);
        }
        if arr[i] > usize::MAX - acc {
            return None;
        }
        acc = acc + arr[i];
        i = i + 1;
    }
    assert(arr@.take(arr@.len() as int) =~= arr@);
    Some(acc)
}

impl MatrixText {
    /// Whether the boxed text can be built: the width of its edges fits in
    /// a `usize`.
    pub fn check_text_fits(&self) -> (b: bool)
        ensures
            b == self.text_fits(),
    {
        let n = self.results.len();
        let ws = self.column_widths();
        let rw = longest_of(&self.results);
        assert(ws@.map_values(|v: usize| v as nat) =~= widths(self.cells(), n as nat));
        match checked_sum(ws.as_slice()) {
            None => false,
            Some(t) => t <= usize::MAX - n && t + n <= usize::MAX - rw,
        }
    }

    /// Whether the matrix can be drawn at `(x, y)` on a grid of
    /// `grid_size`: every number of the drawing fits in an `i32`.
    pub fn check_fits(&self, grid_size: i32, x: i32, y: i32) -> (b: bool)
        ensures
            b == self.fits(grid_size as int, x as int, y as int),
    {
        proof {
            use_type_invariant(self);
        }
        let g = grid_size;
        let ghost cells = self.cells();
        let ghost results = self.results();
        let ghost shapes = self.shapes(g as int, x as int, y as int);
        let n = self.results.len();
        let s = g as i128;
        let ws = self.column_widths();
        let ghost wsv = widths(cells, n as nat);
        assert(ws@.map_values(|v: usize| v as nat) =~= wsv);
        let t = match checked_sum(ws.as_slice()) {
            None => {
                return false;
            },
            Some(t) => t,
        };
        // i32::MAX / 10: ten units are drawn per character
        if t > 214748364 {
            return false;
        }
        let rw = longest_of(&self.results);
        if rw > 214748364 {
            return false;
        }
        let (h, bar) = odd_steps(g, n);
        proof {
            lemma_step_times_count(g as int, n as int);
            assert((n - 1) * g == n * g - g) by (nonlinear_arith);
        }
        let span: i128 = 10 * (t as i128) + (n as i128) * s - s;
        assert(t == total(wsv));
        let xi = x as i128;
        let yi = y as i128;

        let pts = vec![(s, 0), (0, 0), (0, h), (s, h)];
        assert(wide_pairs(pts@) =~= seq![(g as int, 0int), (0int, 0int), (0int, h as int), (g as int, h as int)]);
        if !stroke_fits(xi, yi, &pts) {
            assert(!shape_fits(shapes[0]));
            return false;
        }
        let mut off: i128 = 0;
        let mut c: usize = 0;
        while c < n
            invariant
                g == grid_size,
                xi == x,
                yi == y,
                s == g,
                n == self.size(),
                cells == self.cells(),
                results == self.results(),
                shapes == self.shapes(g as int, x as int, y as int),
                wsv == widths(cells, n as nat),
                self.walking(g as int, x as int, y as int, ws@, span as int),
                longest(results) <= i32::MAX / 10,
                h == g * (2 * n + 1),
                bar == g * (2 * n - 1),
                c <= n,
                off == column_offset(wsv, c as int, g as int),
                forall|j: int| 0 <= j < 1 + c * n ==> shape_fits(#[trigger] shapes[j]),
            decreases n - c,
        {
            let mut r: usize = 0;
            while r < n
                invariant
                    g == grid_size,
                    xi == x,
                    yi == y,
                    s == g,
                    n == self.size(),
                    cells == self.cells(),
                    results == self.results(),
                    shapes == self.shapes(g as int, x as int, y as int),
                    wsv == widths(cells, n as nat),
                    self.walking(g as int, x as int, y as int, ws@, span as int),
                    longest(results) <= i32::MAX / 10,
                    h == g * (2 * n + 1),
                    bar == g * (2 * n - 1),
                    c < n,
                    off == column_offset(wsv, c as int, g as int),
                    r <= n,
                    forall|j: int| 0 <= j < 1 + c * n + r ==> shape_fits(#[trigger] shapes[j]),
                decreases n - r,
            {
                let ghost k = 1 + c * n + r;
                proof {
                    assert(c * n + r < n * n) by (nonlinear_arith)
                        requires
                            c < n,
                            r < n,
                    ;
                    vstd::arithmetic::div_mod::lemma_fundamental_div_mod_converse(
                        k - 1,
                        n as int,
                        c as int,
                        r as int,
                    );
                    assert(cells[r as int].len() == n);
                    assert(self.cells@[r as int]@[c as int]@ == cells[r as int][c as int]);
                    lemma_total_prefix_le(wsv, c as int);
                    lemma_step_times_count(g as int, c as int);
                }
                let cy = row_top(y, g, r);
                if !label_fits(xi + s + off, cy, self.cells[r][c].as_str()) {
                    assert(!shape_fits(shapes[k]));
                    return false;
                }
                r = r + 1;
            }
            proof {
                assert(1 + c * n + n == 1 + (c + 1) * n) by (nonlinear_arith);
                assert(wsv.take(c + 1).drop_last() =~= wsv.take(c as int));
                lemma_total_prefix_le(wsv, c + 1);
                lemma_step_times_count(g as int, c + 1);
                assert((c + 1) * g == c * g + g) by (nonlinear_arith);
            }
            off = off + 10 * (ws[c] as i128) + s;
            c = c + 1;
        }
        let ghost k = n * n + 1;
        let pts = vec![(0, 0), (0, bar)];
        assert(wide_pairs(pts@) =~= seq![(0int, 0int), (0int, bar as int)]);
        if !stroke_fits(xi + 2 * s + span, yi + s, &pts) {
            assert(!shape_fits(shapes[k]));
            return false;
        }
        let mut i: usize = 0;
        while i < n
            invariant
                g == grid_size,
                xi == x,
                yi == y,
                s == g,
                n == self.size(),
                cells == self.cells(),
                results == self.results(),
                shapes == self.shapes(g as int, x as int, y as int),
                wsv == widths(cells, n as nat),
                self.walking(g as int, x as int, y as int, ws@, span as int),
                longest(results) <= i32::MAX / 10,
                h == g * (2 * n + 1),
                bar == g * (2 * n - 1),
                rw == longest(results),
                i <= n,
                forall|j: int| 0 <= j < n * n + 2 + i ==> shape_fits(#[trigger] shapes[j]),
            decreases n - i,
        {
            let ghost k = n * n + 2 + i;
            assert(self.results@[i as int]@ == results[i as int]);
            let cy = row_top(y, g, i);
            if !label_fits(xi + 3 * s + span, cy, self.results[i].as_str()) {
                assert(!shape_fits(shapes[k]));
                return false;
            }
            i = i + 1;
        }
        let ghost k = n * n + n + 2;
        let pts = vec![(0, 0), (s, 0), (s, h), (0, h)];
        assert(wide_pairs(pts@) =~= seq![(0int, 0int), (g as int, 0int), (g as int, h as int), (0int, h as int)]);
        if !stroke_fits(xi + 3 * s + span + 10 * (rw as i128), yi, &pts) {
            assert(!shape_fits(shapes[k]));
            return false;
        }
        assert(forall|j: int| 0 <= j < shapes.len() ==> shape_fits(#[trigger] shapes[j]));
        let w = 4 * s + span + 10 * (rw as i128);
        i32::MIN as i128 <= w && w <= i32::MAX as i128 && i32::MIN as i128 <= h && h <= i32::MAX as i128
    }
}

} // verus!
