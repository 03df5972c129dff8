//! Text tables for the terminal: their contents, column widths and cells.
use vstd::prelude::*;
use vstd::utf8::encode_utf8;
use crate::ast::string_views;
use crate::project::str_views;
use crate::text::push_str;

verus! {

/// The length of a string in UTF-8 bytes.
pub open spec fn byte_len(s: Seq<char>) -> nat {
    encode_utf8(s).len()
}

/// The larger of two naturals.
pub open spec fn max_nat(a: nat, b: nat) -> nat {
    if a >= b {
        a
    } else {
        b
    }
}

/// The width of column `i`: the longest of its header and of the cells the
/// rows have in that column, in bytes.
pub open spec fn column_width(headers: Seq<Seq<char>>, rows: Seq<Seq<Seq<char>>>, i: int) -> nat
    decreases rows.len(),
{
    if rows.len() == 0 {
        byte_len(headers[i])
    } else {
        let last = rows.last();
        max_nat(
            column_width(headers, rows.drop_last(), i),
            if i < last.len() {
                byte_len(last[i])
            } else {
                0
            },
        )
    }
}

/// A cell as printed: a space, the text, spaces up to `width` characters,
/// and a closing space.
pub open spec fn padded_cell(text: Seq<char>, width: nat) -> Seq<char> {
    let fill = if text.len() < width {
        width - text.len()
    } else {
        0
    };
    seq![' '] + text + Seq::new(fill as nat, |_i: int| ' ') + seq![' ']
}

/// A simple text table printed with box-drawing characters.
/// Columns widths are auto-calculated.
pub struct Table {
    headers: Vec<String>,
    rows: Vec<Vec<String>>,
}

/// The byte length of a string.
fn utf8_len(s: &String) -> (n: usize)
    ensures
        n == byte_len(s@),
{
    s.as_str().as_bytes().len()
}

impl Table {
    /// The column headers.
    pub closed spec fn header_views(&self) -> Seq<Seq<char>> {
        string_views(self.headers@)
    }

    /// The rows added so far, each a list of cells.
    pub closed spec fn row_views(&self) -> Seq<Seq<Seq<char>>> {
        self.rows@.map_values(|r: Vec<String>| string_views(r@))
    }

    pub fn new(headers: Vec<&str>) -> (t: Self)
        ensures
            t.header_views() == str_views(headers@),
            t.row_views() == Seq::<Seq<Seq<char>>>::empty(),
    {
        let mut hs: Vec<String> = Vec::new();
        let mut i: usize = 0;
        while i < headers.len()
            invariant
                i <= headers.len(),
                string_views(hs@) == str_views(headers@.take(i as int)),
            decreases headers.len() - i,
        {
            let ghost prev = string_views(hs@);
            let h = headers[i].to_string();
            hs.push(h);
            assert(string_views(hs@) =~= prev.push(headers@[i as int]@));
            assert(str_views(headers@.take(i + 1)) =~= str_views(headers@.take(i as int)).push(headers@[i as int]@));
            i = i + 1;
        }
        assert(headers@.take(headers.len() as int) =~= headers@);
        let t = Self { headers: hs, rows: Vec::new() };
        assert(t.row_views() =~= Seq::<Seq<Seq<char>>>::empty());
        t
    }

    pub fn row(&mut self, cols: Vec<String>)
        ensures
            final(self).header_views() == old(self).header_views(),
            final(self).row_views() == old(self).row_views().push(string_views(cols@)),
    {
        let ghost prev = self.row_views();
        self.rows.push(cols);
        assert(self.row_views() =~= prev.push(string_views(cols@)));
    }

    /// Whether no row has been added.
    pub fn is_empty(&self) -> (b: bool)
        ensures
            b == (self.row_views().len() == 0),
    {
        self.rows.len() == 0
    }

    /// The number of rows added.
    pub fn row_count(&self) -> (n: usize)
        ensures
            n == self.row_views().len(),
    {
        self.rows.len()
    }

    /// The width of each column: the longest of its header and its cells,
    /// in bytes. Cells past the last header are not counted.
    pub fn column_widths(&self) -> (w: Vec<usize>)
        ensures
            w@.len() == self.header_views().len(),
            forall|i: int|
                0 <= i < w@.len() ==> w@[i] == column_width(self.header_views(), self.row_views(), i),
    {
        let ncols = self.headers.len();
        let ghost hv = self.header_views();
        let ghost rv = self.row_views();
        let mut widths: Vec<usize> = Vec::new();
        let mut i: usize = 0;
        while i < ncols
            invariant
                i <= ncols,
                ncols == self.headers@.len(),
                hv == string_views(self.headers@),
                widths@.len() == i,
                forall|j: int| 0 <= j < i ==> widths@[j] == column_width(hv, rv.take(0), j),
            decreases ncols - i,
        {
            let n = utf8_len(&self.headers[i]);
            assert(hv[i as int] == self.headers@[i as int]@);
            widths.push(n);
            i = i + 1;
        }
        let mut r: usize = 0;
        while r < self.rows.len()
            invariant
                r <= self.rows.len(),
                ncols == self.headers@.len(),
                hv == string_views(self.headers@),
                rv == self.rows@.map_values(|x: Vec<String>| string_views(x@)),
                widths@.len() == ncols,
                forall|j: int| 0 <= j < ncols ==> widths@[j] == column_width(hv, rv.take(r as int), j),
            decreases self.rows.len() - r,
        {
            let row = &self.rows[r];
            let ghost before = widths@;
            assert(rv.take(r + 1).drop_last() =~= rv.take(r as int));
            assert(rv.take(r + 1).last() == string_views(row@));
            let mut i: usize = 0;
            while i < ncols
                invariant
                    i <= ncols,
                    widths@.len() == ncols,
                    row == &self.rows@[r as int],
                    forall|j: int| i <= j < ncols ==> widths@[j] == before[j],
                    forall|j: int|
                        0 <= j < i ==> widths@[j] == max_nat(
                            before[j] as nat,
                            if j < row@.len() {
                                byte_len(row@[j]@)
                            } else {
                                0
                            },
                        ),
                decreases ncols - i,
            {
                if i < row.len() {
                    let n = utf8_len(&row[i]);
                    if n > widths[i] {
                        widths.set(i, n);
                    }
                }
                i = i + 1;
            }
            proof {
                assert forall|j: int| 0 <= j < ncols implies widths@[j] == column_width(hv, rv.take(r + 1), j) by {
                    if j < row@.len() {
                        assert(string_views(row@)[j] == row@[j]@);
                    }
                }
            }
            r = r + 1;
        }
        assert(rv.take(self.rows.len() as int) =~= rv);
        widths
    }

    /// The header cells as printed, each padded to its column's width.
    pub fn header_cells(&self, widths: &Vec<usize>) -> (cells: Vec<String>)
        requires
            widths@.len() == self.header_views().len(),
        ensures
            cells@.len() == widths@.len(),
            forall|i: int|
                0 <= i < cells@.len() ==> #[trigger] cells@[i]@ == padded_cell(self.header_views()[i], widths@[i] as nat),
    {
        let mut cells: Vec<String> = Vec::new();
        let mut i: usize = 0;
        while i < widths.len()
            invariant
                i <= widths@.len(),
                widths@.len() == self.headers@.len(),
                cells@.len() == i,
                forall|j: int|
                    0 <= j < i ==> #[trigger] cells@[j]@ == padded_cell(self.header_views()[j], widths@[j] as nat),
            decreases widths.len() - i,
        {
            assert(self.header_views()[i as int] == self.headers@[i as int]@);
            cells.push(padded(self.headers[i].as_str(), widths[i]));
            i = i + 1;
        }
        cells
    }

    /// The cells of row `r` as printed: one per column, each padded to the
    /// column's width, a missing cell printed empty.
    pub fn row_cells(&self, r: usize, widths: &Vec<usize>) -> (cells: Vec<String>)
        requires
            r < self.row_views().len(),
        ensures
            cells@.len() == widths@.len(),
            forall|i: int|
                0 <= i < cells@.len() ==> #[trigger] cells@[i]@ == padded_cell(
                    if i < self.row_views()[r as int].len() {
                        self.row_views()[r as int][i]
                    } else {
                        Seq::<char>::empty()
                    },
                    widths@[i] as nat,
                ),
    {
        let row = &self.rows[r];
        assert(self.row_views()[r as int] == string_views(row@));
        let mut cells: Vec<String> = Vec::new();
        let mut i: usize = 0;
        while i < widths.len()
            invariant
                i <= widths@.len(),
                cells@.len() == i,
                self.row_views()[r as int] == string_views(row@),
                forall|j: int|
                    0 <= j < i ==> #[trigger] cells@[j]@ == padded_cell(
                        if j < row@.len() {
                            row@[j]@
                        } else {
                            Seq::<char>::empty()
                        },
                        widths@[j] as nat,
                    ),
            decreases widths.len() - i,
        {
            if i < row.len() {
                cells.push(padded(row[i].as_str(), widths[i]));
            } else {
                proof {
                    reveal_strlit("");
                }
                cells.push(padded("", widths[i]));
            }
            i = i + 1;
        }
        proof {
            assert forall|j: int| 0 <= j < cells@.len() && j < row@.len() implies string_views(row@)[j] == row@[j]@ by {}
        }
        cells
    }
}

/// A horizontal rule: two spaces, `left`, then for each column `fill`
/// repeated to the column's width plus two, separated by `mid`, and `right`.
pub open spec fn rule(widths: Seq<usize>, left: Seq<char>, mid: Seq<char>, right: Seq<char>, fill: char) -> Seq<
    char,
> {
    seq![' ', ' '] + left + rule_inner(widths, mid, fill) + right
}

/// The column fills of a rule, separated by `mid`.
pub open spec fn rule_inner(widths: Seq<usize>, mid: Seq<char>, fill: char) -> Seq<char>
    decreases widths.len(),
{
    if widths.len() == 0 {
        Seq::empty()
    } else if widths.len() == 1 {
        Seq::new((widths[0] + 2) as nat, |_i: int| fill)
    } else {
        rule_inner(widths.drop_last(), mid, fill) + mid + Seq::new((widths.last() + 2) as nat, |_i: int| fill)
    }
}

/// The horizontal rule of a table with these column widths.
pub fn separator(widths: &Vec<usize>, left: &str, mid: &str, right: &str, fill: char) -> (s: String)
    requires
        forall|i: int| 0 <= i < widths@.len() ==> widths@[i] + 2 <= usize::MAX,
    ensures
        s@ == rule(widths@, left@, mid@, right@, fill),
{
    let mut out: Vec<char> = Vec::new();
    out.push(' ');
    out.push(' ');
    push_str(&mut out, left);
    let ghost head = out@;
    assert(head =~= seq![' ', ' '] + left@);
    let mut i: usize = 0;
    while i < widths.len()
        invariant
            i <= widths@.len(),
            forall|j: int| 0 <= j < widths@.len() ==> widths@[j] + 2 <= usize::MAX,
            out@ == head + rule_inner(widths@.take(i as int), mid@, fill),
        decreases widths.len() - i,
    {
        let ghost before = out@;
        if i > 0 {
            push_str(&mut out, mid);
        }
        let n = widths[i] + 2;
        let mut k: usize = 0;
        let ghost mid_point = out@;
        while k < n
            invariant
                k <= n,
                out@ == mid_point + Seq::new(k as nat, |_j: int| fill),
            decreases n - k,
        {
            out.push(fill);
            assert(out@ =~= mid_point + Seq::new((k + 1) as nat, |_j: int| fill));
            k = k + 1;
        }
        assert(widths@.take(i + 1).drop_last() =~= widths@.take(i as int));
        if i == 0 {
            assert(widths@.take(1)[0] == widths@[0]);
            assert(out@ =~= head + rule_inner(widths@.take(i + 1), mid@, fill));
        } else {
            assert(out@ =~= head + rule_inner(widths@.take(i + 1), mid@, fill));
        }
        i = i + 1;
    }
    assert(widths@.take(widths.len() as int) =~= widths@);
    push_str(&mut out, right);
    assert(out@ =~= rule(widths@, left@, mid@, right@, fill));
    crate::text::string_from_chars(out.as_slice())
}


/// The text of a cell as printed: a space, the text left-aligned and padded
/// with spaces to `width` characters, and a space.
pub fn padded(text: &str, width: usize) -> (s: String)
    ensures
        s@ == padded_cell(text@, width as nat),
{
    let mut out: Vec<char> = Vec::new();
    out.push(' ');
    let cs = crate::text::chars_vec(text);
    let mut i: usize = 0;
    while i < cs.len()
        invariant
            i <= cs.len(),
            out@ == seq![' '] + cs@.take(i as int),
        decreases cs.len() - i,
    {
        out.push(cs[i]);
        assert(out@ =~= seq![' '] + cs@.take(i + 1));
        i = i + 1;
    }
    assert(cs@.take(cs.len() as int) =~= cs@);
    let n = cs.len();
    let fill: usize = if n < width {
        width - n
    } else {
        0
    };
    let mut k: usize = 0;
    while k < fill
        invariant
            k <= fill,
            out@ == seq![' '] + cs@ + Seq::new(k as nat, |_i: int| ' '),
        decreases fill - k,
    {
        out.push(' ');
        assert(out@ =~= seq![' '] + cs@ + Seq::new((k + 1) as nat, |_i: int| ' '));
        k = k + 1;
    }
    out.push(' ');
    assert(out@ =~= padded_cell(text@, width as nat));
    crate::text::string_from_chars(out.as_slice())
}


/// A column is as wide as its header and as each of its cells.
pub proof fn lemma_column_width_bounds(headers: Seq<Seq<char>>, rows: Seq<Seq<Seq<char>>>, i: int, r: int)
    requires
        0 <= i < headers.len(),
    ensures
        byte_len(headers[i]) <= column_width(headers, rows, i),
        0 <= r < rows.len() && i < rows[r].len() ==> byte_len(rows[r][i]) <= column_width(headers, rows, i),
    decreases rows.len(),
{
    if rows.len() > 0 {
        lemma_column_width_bounds(headers, rows.drop_last(), i, r);
        if 0 <= r < rows.len() - 1 {
            assert(rows.drop_last()[r] == rows[r]);
        }
    }
}

} // verus!
