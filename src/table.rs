use vstd::prelude::*;
use vstd::multiset::Multiset;
use crate::order::{
    key_le, key_less_eq, lemma_key_le_refl, lemma_key_le_total, lemma_key_le_trans, lemma_text_le_antisym,
    lemma_text_le_total, opt_text, text_less_eq,
};

verus! {

broadcast use vstd::seq_lib::group_to_multiset_ensures;

/// One cell of a table row.
pub enum Cell {
    /// A JSON `null`.
    Null,
    /// A JSON string, holding its characters.
    Text(String),
    /// Any other JSON value (number, boolean, array, object), holding its compact JSON text.
    Value(String),
}

/// One row of a table: a JSON array of cells, or some other JSON value.
pub enum Row {
    Cells(Vec<Cell>),
    Single(Cell),
}

/// A table result before a summary is attached.
pub struct ResponseTable {
    pub columns: Vec<String>,
    pub values: Vec<Row>,
}

/// A lower-case hexadecimal digit.
pub open spec fn hex_digit(n: int) -> char {
    seq!['0', '1', '2', '3', '4', '5', '6', '7', '8', '9', 'a', 'b', 'c', 'd', 'e', 'f'][n]
}

/// How one character stands inside a JSON string: quote and backslash escaped, the usual
/// short escapes for backspace, tab, line feed, form feed and carriage return, `\u00xx`
/// for the other control characters, every other character as it is.
pub open spec fn escape_char(c: char) -> Seq<char> {
    let n = c as u32;
    if c == '"' {
        seq!['\\', '"']
    } else if c == '\\' {
        seq!['\\', '\\']
    } else if n == 8 {
        seq!['\\', 'b']
    } else if n == 9 {
        seq!['\\', 't']
    } else if n == 10 {
        seq!['\\', 'n']
    } else if n == 12 {
        seq!['\\', 'f']
    } else if n == 13 {
        seq!['\\', 'r']
    } else if n < 32 {
        seq!['\\', 'u', '0', '0', hex_digit((n / 16) as int), hex_digit((n % 16) as int)]
    } else {
        seq![c]
    }
}

pub open spec fn escaped(s: Seq<char>) -> Seq<char>
    decreases s.len(),
{
    if s.len() == 0 {
        Seq::empty()
    } else {
        escaped(s.drop_last()) + escape_char(s.last())
    }
}

/// The compact JSON string literal of `s`: its escaped characters between double quotes.
pub open spec fn json_string_literal(s: Seq<char>) -> Seq<char> {
    seq!['"'] + escaped(s) + seq!['"']
}

/// Relies on the `Display` impl of `serde_json::Value`: for a string value it writes the
/// compact JSON string literal (`format_escaped_str`).
#[verifier::external_body]
fn json_quote(s: &String) -> (r: String)
    ensures
        r@ == json_string_literal(s@),
{
    serde_json::Value::String(s.clone()).to_string()
}

/// The compact JSON text of a cell, which is what rows are sorted by.
pub open spec fn cell_json(c: Cell) -> Seq<char> {
    match c {
        Cell::Null => seq!['n', 'u', 'l', 'l'],
        Cell::Text(s) => json_string_literal(s@),
        Cell::Value(t) => t@,
    }
}

/// The sort key of a row for column `idx`: absent where the row is no array or too short.
pub open spec fn row_key(r: Row, idx: int) -> Option<Seq<char>> {
    match r {
        Row::Cells(cs) => if 0 <= idx < cs@.len() {
            Some(cell_json(cs@[idx]))
        } else {
            None
        },
        Row::Single(_) => None,
    }
}

/// Rows in ascending order of their keys for column `idx`.
pub open spec fn sorted_on(rows: Seq<Row>, idx: int) -> bool {
    forall|i: int, j: int|
        0 <= i < j < rows.len() ==> key_le(#[trigger] row_key(rows[i], idx), #[trigger] row_key(rows[j], idx))
}

/// Whether a row has key `k` for column `idx`.
pub open spec fn has_key(idx: int, k: Option<Seq<char>>) -> spec_fn(Row) -> bool {
    |r: Row| row_key(r, idx) == k
}

/// `after` lists the rows of `before` with equal keys in their former order.
pub open spec fn keeps_ties(before: Seq<Row>, after: Seq<Row>, idx: int) -> bool {
    forall|k: Option<Seq<char>>| #[trigger] after.filter(has_key(idx, k)) == before.filter(has_key(idx, k))
}

/// `idx` is the first column whose name is `name`.
pub open spec fn first_column(columns: Seq<String>, name: Seq<char>, idx: int) -> bool {
    &&& 0 <= idx < columns.len()
    &&& columns[idx]@ == name
    &&& forall|j: int| 0 <= j < idx ==> columns[j]@ != name
}

pub open spec fn has_column(columns: Seq<String>, name: Seq<char>) -> bool {
    exists|j: int| 0 <= j < columns.len() && columns[j]@ == name
}

fn text_equal(a: &str, b: &str) -> (r: bool)
    ensures
        r == (a@ == b@),
{
    let ab = text_less_eq(a, b);
    let ba = text_less_eq(b, a);
    proof {
        if ab && ba {
            lemma_text_le_antisym(a@, b@);
        }
        if a@ == b@ {
            lemma_text_le_total(a@, b@);
        }
    }
    ab && ba
}

/// The sort key of `row` for column `idx`.
pub fn sort_key(row: &Row, idx: usize) -> (r: Option<String>)
    ensures
        opt_text(r) == row_key(*row, idx as int),
{
    match row {
        Row::Cells(cs) => {
            if idx < cs.len() {
                match &cs[idx] {
                    Cell::Null => {
                        let s = String::from_str("null");
                        proof {
                            reveal_strlit("null");
                        }
                        assert(s@ =~= seq!['n', 'u', 'l', 'l']);
                        Some(s)
                    },
                    Cell::Text(t) => Some(json_quote(t)),
                    Cell::Value(t) => Some(t.clone()),
                }
            } else {
                None
            }
        },
        Row::Single(_) => None,
    }
}

proof fn lemma_filter_single(x: Row, pred: spec_fn(Row) -> bool)
    ensures
        seq![x].filter(pred) == (if pred(x) { seq![x] } else { Seq::<Row>::empty() }),
{
    reveal_with_fuel(Seq::filter, 2);
    assert(seq![x].drop_last() =~= Seq::<Row>::empty());
    assert(Seq::<Row>::empty().push(x) =~= seq![x]);
}

/// Placing `x` at `p`, after the rows with keys up to its own and before the rows with
/// greater keys, keeps the rows sorted and appends `x` to the rows with its key.
proof fn lemma_place(out: Seq<Row>, p: int, x: Row, idx: int)
    requires
        sorted_on(out, idx),
        0 <= p <= out.len(),
        p == 0 || key_le(row_key(out[p - 1], idx), row_key(x, idx)),
        forall|j: int| p <= j < out.len() ==> !key_le(#[trigger] row_key(out[j], idx), row_key(x, idx)),
    ensures
        sorted_on(out.insert(p, x), idx),
        forall|k: Option<Seq<char>>|
            #[trigger] out.insert(p, x).filter(has_key(idx, k)) == out.filter(has_key(idx, k))
                + seq![x].filter(has_key(idx, k)),
{
    let s = out.insert(p, x);
    let kx = row_key(x, idx);
    assert forall|i: int, j: int| 0 <= i < j < s.len() implies key_le(
        #[trigger] row_key(s[i], idx),
        #[trigger] row_key(s[j], idx),
    ) by {
        if j == p {
            if p > 0 {
                assert(key_le(row_key(out[i], idx), row_key(out[p - 1], idx)) || i == p - 1);
                if i < p - 1 {
                    lemma_key_le_trans(row_key(out[i], idx), row_key(out[p - 1], idx), kx);
                }
            }
        } else if i == p {
            lemma_key_le_total(row_key(out[j - 1], idx), kx);
        } else if i < p && j > p {
            lemma_key_le_total(row_key(out[j - 1], idx), kx);
            if p > 0 {
                if i < p - 1 {
                    lemma_key_le_trans(row_key(out[i], idx), row_key(out[p - 1], idx), kx);
                }
                lemma_key_le_trans(row_key(out[i], idx), kx, row_key(out[j - 1], idx));
            } else {
                lemma_key_le_trans(row_key(out[i], idx), kx, row_key(out[j - 1], idx));
            }
        } else if j < p {
            assert(s[i] == out[i] && s[j] == out[j]);
        } else {
            assert(s[i] == out[i - 1] && s[j] == out[j - 1]);
        }
    }
    assert forall|k: Option<Seq<char>>|
        #[trigger] out.insert(p, x).filter(has_key(idx, k)) == out.filter(has_key(idx, k))
            + seq![x].filter(has_key(idx, k)) by {
        let pred = has_key(idx, k);
        let a = out.take(p);
        let b = out.skip(p);
        assert(s =~= a + seq![x] + b);
        assert(out =~= a + b);
        Seq::filter_distributes_over_add(a + seq![x], b, pred);
        Seq::filter_distributes_over_add(a, seq![x], pred);
        Seq::filter_distributes_over_add(a, b, pred);
        lemma_filter_single(x, pred);
        if k == kx {
            assert forall|j: int| 0 <= j < b.len() implies !pred(#[trigger] b[j]) by {
                assert(b[j] == out[p + j]);
                lemma_key_le_refl(kx);
            }
            b.lemma_all_neg_filter_empty(pred);
            assert(b.filter(pred) =~= Seq::<Row>::empty());
            assert(a.filter(pred) + seq![x] + Seq::<Row>::empty() =~= a.filter(pred) + seq![x]);
        } else {
            assert(a.filter(pred) + Seq::<Row>::empty() =~= a.filter(pred));
            assert(a.filter(pred) + b.filter(pred) + Seq::<Row>::empty() =~= a.filter(pred) + b.filter(pred));
        }
    }
}

/// Sorts rows by their keys for column `idx`, keeping rows with equal keys in order.
pub fn sort_rows(rows: Vec<Row>, idx: usize) -> (r: Vec<Row>)
    ensures
        sorted_on(r@, idx as int),
        keeps_ties(rows@, r@, idx as int),
        r@.to_multiset() == rows@.to_multiset(),
{
    let ghost all = rows@;
    let mut rest = rows;
    let mut out: Vec<Row> = Vec::new();
    let mut keys: Vec<Option<String>> = Vec::new();
    proof {
        assert forall|k: Option<Seq<char>>|
            #[trigger] out@.filter(has_key(idx as int, k)) + rest@.filter(has_key(idx as int, k))
                == all.filter(has_key(idx as int, k)) by {
            reveal_with_fuel(Seq::filter, 1);
            assert(out@.filter(has_key(idx as int, k)) =~= Seq::<Row>::empty());
            assert(Seq::<Row>::empty() + all.filter(has_key(idx as int, k)) =~= all.filter(has_key(idx as int, k)));
        }
    }
    while rest.len() > 0
        invariant
            keys@.len() == out@.len(),
            forall|i: int| 0 <= i < out@.len() ==> opt_text(#[trigger] keys@[i]) == row_key(out@[i], idx as int),
            sorted_on(out@, idx as int),
            out@.to_multiset().add(rest@.to_multiset()) == all.to_multiset(),
            forall|k: Option<Seq<char>>|
                #[trigger] out@.filter(has_key(idx as int, k)) + rest@.filter(has_key(idx as int, k))
                    == all.filter(has_key(idx as int, k)),
        decreases rest.len(),
    {
        let ghost rest0 = rest@;
        let ghost out0 = out@;
        let x = rest.remove(0);
        let kx = sort_key(&x, idx);
        let mut p: usize = out.len();
        loop
            invariant
                p <= out@.len(),
                keys@.len() == out@.len(),
                forall|i: int| 0 <= i < out@.len() ==> opt_text(#[trigger] keys@[i]) == row_key(out@[i], idx as int),
                forall|j: int| p <= j < out@.len() ==> !key_le(#[trigger] row_key(out@[j], idx as int), opt_text(kx)),
            ensures
                p <= out@.len(),
                p == 0 || key_le(row_key(out@[p - 1], idx as int), opt_text(kx)),
                forall|j: int| p <= j < out@.len() ==> !key_le(#[trigger] row_key(out@[j], idx as int), opt_text(kx)),
            decreases p,
        {
            if p == 0 {
                break;
            }
            if key_less_eq(&keys[p - 1], &kx) {
                break;
            }
            p = p - 1;
        }
        proof {
            lemma_place(out0, p as int, x, idx as int);
            assert(rest0 =~= seq![x] + rest@);
            assert forall|k: Option<Seq<char>>|
                #[trigger] out0.insert(p as int, x).filter(has_key(idx as int, k)) + rest@.filter(has_key(idx as int, k))
                    == all.filter(has_key(idx as int, k)) by {
                Seq::filter_distributes_over_add(seq![x], rest@, has_key(idx as int, k));
                let f = out0.filter(has_key(idx as int, k));
                let g = seq![x].filter(has_key(idx as int, k));
                let h = rest@.filter(has_key(idx as int, k));
                assert(f + g + h =~= f + (g + h));
            }
        }
        out.insert(p, x);
        keys.insert(p, kx);
        proof {
            assert(out@.to_multiset().add(rest@.to_multiset()) =~= all.to_multiset());
        }
    }
    proof {
        assert forall|k: Option<Seq<char>>| #[trigger] out@.filter(has_key(idx as int, k)) == all.filter(has_key(idx as int, k)) by {
            reveal_with_fuel(Seq::filter, 1);
            assert(rest@.filter(has_key(idx as int, k)) =~= Seq::<Row>::empty());
            assert(out@.filter(has_key(idx as int, k)) + Seq::<Row>::empty() =~= out@.filter(has_key(idx as int, k)));
        }
        assert(rest@.to_multiset() =~= Multiset::empty());
        assert(out@.to_multiset().add(Multiset::empty()) =~= out@.to_multiset());
    }
    out
}

impl ResponseTable {
    /// Sorts the rows by the first column named `key`; unchanged without a key or a match.
    pub fn sort_by(self, key: &Option<String>) -> (r: Self)
        ensures
            r.columns@ == self.columns@,
            (key is None || !has_column(self.columns@, (key->0)@)) ==> r.values@ == self.values@,
            key is Some ==> forall|idx: int| #[trigger] first_column(self.columns@, (key->0)@, idx) ==> {
                &&& sorted_on(r.values@, idx)
                &&& keeps_ties(self.values@, r.values@, idx)
                &&& r.values@.to_multiset() == self.values@.to_multiset()
            },
    {
        let name = match key {
            None => return self,
            Some(k) => k,
        };
        let ResponseTable { columns, values } = self;
        let mut i: usize = 0;
        while i < columns.len()
            invariant
                i <= columns@.len(),
                columns@ == self.columns@,
                values@ == self.values@,
                key is Some,
                key->0 == *name,
                forall|j: int| 0 <= j < i ==> columns@[j]@ != name@,
            decreases columns@.len() - i,
        {
            if text_equal(columns[i].as_str(), name.as_str()) {
                proof {
                    assert(self.columns@[i as int]@ == (key->0)@);
                    assert(has_column(self.columns@, (key->0)@));
                    assert forall|idx: int| #[trigger] first_column(columns@, name@, idx) implies idx == i by {
                        if idx > i {
                            assert(columns@[i as int]@ == name@);
                        }
                    }
                }
                let values = sort_rows(values, i);
                return ResponseTable { columns, values };
            }
            i = i + 1;
        }
        ResponseTable { columns, values }
    }

    /// Attaches summary rows, making a table response.
    pub fn with_summary(self, summary: Vec<Row>) -> (r: CommandResponse)
        ensures
            r == (CommandResponse::Table { columns: self.columns, values: self.values, summary }),
    {
        CommandResponse::Table { columns: self.columns, values: self.values, summary }
    }
}

/// Renders itself as a structured value and as text for people.
pub trait FormattedObject {
    fn to_json(&self) -> Result<serde_json::Value, String>;

    fn print(&self) -> Result<(), String>;
}

#[verifier::external_type_specification]
#[verifier::external_body]
pub struct ExJsonValue(serde_json::Value);

/// A single value that a command returns.
pub enum Scalar {
    /// A plain string, written for people as it is.
    Text(String),
    /// Any other JSON value, written for people as YAML.
    Structured(serde_json::Value),
}

/// Relies on matching `serde_json::Value::String`: hands out the text of a string value, or
/// else the value itself, unchanged.
#[verifier::external_body]
fn string_or_value(v: serde_json::Value) -> (r: Result<String, serde_json::Value>)
    ensures
        r matches Err(w) ==> w == v,
{
    match v {
        serde_json::Value::String(s) => Ok(s),
        other => Err(other),
    }
}

impl Scalar {
    /// Sorts a JSON value: a string becomes its text, any other value stays as it is.
    pub fn from_json(v: serde_json::Value) -> (r: Scalar)
        ensures
            r matches Scalar::Structured(w) ==> w == v,
    {
        match string_or_value(v) {
            Ok(s) => Scalar::Text(s),
            Err(w) => Scalar::Structured(w),
        }
    }
}

/// What a command returns, to be rendered for people or for machines.
pub enum CommandResponse {
    NoOutput,
    Object(Scalar),
    Table { columns: Vec<String>, values: Vec<Row>, summary: Vec<Row> },
    FormattedObject(Box<dyn FormattedObject>),
}

impl From<ResponseTable> for CommandResponse {
    fn from(table: ResponseTable) -> (r: Self)
        ensures
            is_table_of(r, table),
    {
        CommandResponse::Table { columns: table.columns, values: table.values, summary: Vec::new() }
    }
}

/// `r` is the table response with the columns and rows of `table` and no summary.
pub open spec fn is_table_of(r: CommandResponse, table: ResponseTable) -> bool {
    r matches CommandResponse::Table { columns, values, summary } && columns == table.columns
        && values == table.values && summary@.len() == 0
}

impl vstd::std_specs::convert::FromSpecImpl<ResponseTable> for CommandResponse {
    open spec fn obeys_from_spec() -> bool {
        false
    }

    /// The table response with the same columns and rows and no summary.
    open spec fn from_spec(table: ResponseTable) -> CommandResponse {
        choose|r: CommandResponse| #[trigger] is_table_of(r, table)
    }
}

} // verus!
