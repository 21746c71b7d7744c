use vstd::prelude::*;
use crate::table::{Cell, Row};

verus! {

/// One line of the human-readable grid.
pub struct GridRow {
    pub cells: Vec<String>,
    /// Drawn in bold: marks the grand total.
    pub emphasized: bool,
}

/// A grid line as texts and its emphasis.
pub type Line = (Seq<Seq<char>>, bool);

impl GridRow {
    pub open spec fn line(self) -> Line {
        (self.cells@.map_values(|s: String| s@), self.emphasized)
    }
}

pub open spec fn lines(rows: Seq<GridRow>) -> Seq<Line> {
    rows.map_values(|g: GridRow| g.line())
}

/// How a cell reads in the grid: a string as it is, `null` as nothing, else its JSON text.
pub open spec fn cell_text(c: Cell) -> Seq<char> {
    match c {
        Cell::Null => Seq::empty(),
        Cell::Text(s) => s@,
        Cell::Value(t) => t@,
    }
}

pub open spec fn cell_texts(cs: Seq<Cell>) -> Seq<Seq<char>> {
    cs.map_values(|c: Cell| cell_text(c))
}

/// The lines of the rows that are arrays, in order; others are skipped. The row at
/// position `bold` (if any) is emphasized.
pub open spec fn array_lines(rows: Seq<Row>, bold: int) -> Seq<Line>
    decreases rows.len(),
{
    if rows.len() == 0 {
        Seq::empty()
    } else {
        let prev = array_lines(rows.drop_last(), bold);
        match rows.last() {
            Row::Cells(cs) => prev.push((cell_texts(cs@), rows.len() - 1 == bold)),
            Row::Single(_) => prev,
        }
    }
}

/// A line of `n` empty cells.
pub open spec fn blank_line(n: nat) -> Line {
    (Seq::new(n, |i: int| Seq::<char>::empty()), false)
}

/// The body of the grid below its titles: the data rows, or one blank line when there are
/// none; then, if there is a summary, a separator and the summary rows, the last one
/// emphasized.
pub open spec fn layout(n_columns: nat, values: Seq<Row>, summary: Seq<Row>) -> Seq<Line> {
    let body = if values.len() == 0 {
        seq![blank_line(n_columns)]
    } else {
        array_lines(values, -1)
    };
    if summary.len() == 0 {
        body
    } else {
        body + seq![(Seq::<Seq<char>>::empty(), false)] + array_lines(summary, summary.len() - 1)
    }
}

fn cell_string(c: &Cell) -> (r: String)
    ensures
        r@ == cell_text(*c),
{
    match c {
        Cell::Null => String::new(),
        Cell::Text(s) => s.clone(),
        Cell::Value(t) => t.clone(),
    }
}

fn cell_strings(cs: &Vec<Cell>) -> (r: Vec<String>)
    ensures
        r@.map_values(|s: String| s@) == cell_texts(cs@),
{
    let mut out: Vec<String> = Vec::new();
    let mut i: usize = 0;
    while i < cs.len()
        invariant
            i <= cs@.len(),
            out@.len() == i,
            forall|j: int| 0 <= j < i ==> (#[trigger] out@[j])@ == cell_text(cs@[j]),
        decreases cs@.len() - i,
    {
        out.push(cell_string(&cs[i]));
        i = i + 1;
    }
    assert(out@.map_values(|s: String| s@) =~= cell_texts(cs@));
    out
}

/// Appends the lines of the array rows of `rows` to `out`, emphasizing the row at `bold`.
fn push_array_rows(out: &mut Vec<GridRow>, rows: &Vec<Row>, bold: Option<usize>)
    ensures
        lines(final(out)@) == lines(old(out)@) + array_lines(
            rows@,
            match bold {
                Some(b) => b as int,
                None => -1,
            },
        ),
{
    let ghost b: int = match bold {
        Some(b) => b as int,
        None => -1,
    };
    let ghost start = lines(out@);
    let mut i: usize = 0;
    assert(rows@.take(0) =~= Seq::<Row>::empty());
    assert(lines(out@) =~= start + array_lines(rows@.take(0), b));
    while i < rows.len()
        invariant
            i <= rows@.len(),
            lines(out@) == start + array_lines(rows@.take(i as int), b),
            b == match bold {
                Some(k) => k as int,
                None => -1,
            },
        decreases rows@.len() - i,
    {
        let ghost before = out@;
        assert(rows@.take(i + 1).drop_last() =~= rows@.take(i as int));
        match &rows[i] {
            Row::Cells(cs) => {
                let emphasized = match bold {
                    Some(k) => k == i,
                    None => false,
                };
                let cells = cell_strings(cs);
                let row = GridRow { cells, emphasized };
                assert(row.line() == (cell_texts(cs@), i as int == b));
                out.push(row);
                assert(out@.drop_last() == before);
                assert(lines(out@) =~= lines(before).push((cell_texts(cs@), i as int == b)));
            },
            Row::Single(_) => {},
        }
        i = i + 1;
    }
    assert(rows@.take(rows@.len() as int) =~= rows@);
}

/// The grid lines below the titles for a table with these columns, rows and summary.
pub fn grid_rows(columns: &Vec<String>, values: &Vec<Row>, summary: &Vec<Row>) -> (r: Vec<GridRow>)
    ensures
        lines(r@) == layout(columns@.len(), values@, summary@),
{
    let mut out: Vec<GridRow> = Vec::new();
    if values.len() == 0 {
        let mut blank: Vec<String> = Vec::new();
        let mut i: usize = 0;
        while i < columns.len()
            invariant
                i <= columns@.len(),
                blank@.len() == i,
                forall|j: int| 0 <= j < i ==> (#[trigger] blank@[j])@ == Seq::<char>::empty(),
            decreases columns@.len() - i,
        {
            blank.push(String::new());
            i = i + 1;
        }
        assert(blank@.map_values(|s: String| s@) =~= blank_line(columns@.len()).0);
        let row = GridRow { cells: blank, emphasized: false };
        assert(row.line() == blank_line(columns@.len()));
        out.push(row);
        assert(lines(out@) =~= seq![blank_line(columns@.len())]);
    } else {
        push_array_rows(&mut out, values, None);
        assert(lines(out@) =~= array_lines(values@, -1));
    }
    if summary.len() > 0 {
        let ghost body = lines(out@);
        let sep = GridRow { cells: Vec::new(), emphasized: false };
        assert(sep.cells@.map_values(|s: String| s@) =~= Seq::<Seq<char>>::empty());
        out.push(sep);
        assert(lines(out@) =~= body + seq![(Seq::<Seq<char>>::empty(), false)]);
        push_array_rows(&mut out, summary, Some(summary.len() - 1));
    }
    out
}

proof fn lemma_plain_lines(rows: Seq<Row>, bold: int)
    requires
        bold < 0 || bold >= rows.len(),
    ensures
        forall|i: int| 0 <= i < array_lines(rows, bold).len() ==> !(#[trigger] array_lines(rows, bold)[i]).1,
    decreases rows.len(),
{
    if rows.len() > 0 {
        lemma_plain_lines(rows.drop_last(), bold);
        let prev = array_lines(rows.drop_last(), bold);
        let cur = array_lines(rows, bold);
        assert forall|i: int| 0 <= i < cur.len() implies !(#[trigger] cur[i]).1 by {
            if i < prev.len() {
                assert(cur[i] == prev[i]);
            }
        }
    }
}

/// A table without rows still shows one line of empty cells, one per column, before
/// anything else; with no summary that line is all there is.
pub proof fn lemma_empty_table_shows_blank_line(n_columns: nat, summary: Seq<Row>)
    ensures
        layout(n_columns, Seq::empty(), summary)[0] == blank_line(n_columns),
        blank_line(n_columns).0.len() == n_columns,
        forall|i: int| 0 <= i < n_columns ==> (#[trigger] blank_line(n_columns).0[i]).len() == 0,
        summary.len() == 0 ==> layout(n_columns, Seq::empty(), summary) == seq![blank_line(n_columns)],
{
}

/// With a summary whose last row is an array, the last line of the grid is emphasized
/// and no other line is.
pub proof fn lemma_only_total_emphasized(n_columns: nat, values: Seq<Row>, summary: Seq<Row>)
    requires
        summary.len() > 0,
        summary.last() is Cells,
    ensures
        ({
            let g = layout(n_columns, values, summary);
            &&& g.len() > 0
            &&& g.last().1
            &&& forall|i: int| 0 <= i < g.len() - 1 ==> !(#[trigger] g[i]).1
        }),
{
    let g = layout(n_columns, values, summary);
    let body = if values.len() == 0 {
        seq![blank_line(n_columns)]
    } else {
        array_lines(values, -1)
    };
    if values.len() > 0 {
        lemma_plain_lines(values, -1);
    }
    let last = summary.len() - 1;
    let front = summary.drop_last();
    lemma_plain_lines(front, last);
    let tail = array_lines(summary, last);
    assert(tail == array_lines(front, last).push((cell_texts(summary.last()->Cells_0@), true)));
    assert(g == body + seq![(Seq::<Seq<char>>::empty(), false)] + tail);
    assert forall|i: int| 0 <= i < g.len() - 1 implies !(#[trigger] g[i]).1 by {
        let k = body.len() + 1;
        if i >= k {
            assert(g[i] == tail[i - k]);
            assert(tail[i - k] == array_lines(front, last)[i - k]);
        } else if i < body.len() {
            assert(g[i] == body[i]);
        }
    }
}

} // verus!
