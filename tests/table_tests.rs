use golemcli::order::{key_less_eq, text_less_eq};
use golemcli::table::{sort_key, sort_rows, Cell, CommandResponse, ResponseTable, Row};

fn text(s: &str) -> Cell {
    Cell::Text(s.to_string())
}

fn num(s: &str) -> Cell {
    Cell::Value(s.to_string())
}

fn texts_of(rows: &[Row]) -> Vec<Vec<String>> {
    rows.iter()
        .map(|r| match r {
            Row::Cells(cs) => cs
                .iter()
                .map(|c| match c {
                    Cell::Null => "null".to_string(),
                    Cell::Text(s) => format!("t:{}", s),
                    Cell::Value(v) => format!("v:{}", v),
                })
                .collect(),
            Row::Single(_) => vec!["single".to_string()],
        })
        .collect()
}

fn name_table() -> ResponseTable {
    ResponseTable {
        columns: vec!["name".to_string(), "n".to_string()],
        values: vec![
            Row::Cells(vec![text("b"), num("2")]),
            Row::Cells(vec![text("a"), num("1")]),
        ],
    }
}

#[test]
fn sort_by_name_orders_rows() {
    let t = name_table().sort_by(&Some("name".to_string()));
    assert_eq!(t.columns, vec!["name".to_string(), "n".to_string()]);
    assert_eq!(texts_of(&t.values), vec![vec!["t:a", "v:1"], vec!["t:b", "v:2"]]);
}

#[test]
fn sort_by_without_key_is_identity() {
    let t = name_table().sort_by(&None);
    assert_eq!(texts_of(&t.values), vec![vec!["t:b", "v:2"], vec!["t:a", "v:1"]]);
}

#[test]
fn sort_by_unknown_column_is_identity() {
    let t = name_table().sort_by(&Some("missing".to_string()));
    assert_eq!(texts_of(&t.values), vec![vec!["t:b", "v:2"], vec!["t:a", "v:1"]]);
    let t = name_table().sort_by(&Some("Name".to_string()));
    assert_eq!(texts_of(&t.values), vec![vec!["t:b", "v:2"], vec!["t:a", "v:1"]]);
}

#[test]
fn sort_is_stable_and_puts_keyless_rows_first() {
    let t = ResponseTable {
        columns: vec!["k".to_string(), "i".to_string()],
        values: vec![
            Row::Cells(vec![num("2"), num("10")]),
            Row::Cells(vec![num("1"), num("11")]),
            Row::Single(Cell::Null),
            Row::Cells(vec![num("2"), num("12")]),
            Row::Cells(vec![]),
            Row::Cells(vec![num("1"), num("13")]),
        ],
    };
    let t = t.sort_by(&Some("i".to_string())).sort_by(&Some("k".to_string()));
    assert_eq!(
        texts_of(&t.values),
        vec![
            vec!["single".to_string()],
            vec![],
            vec!["v:1".to_string(), "v:11".to_string()],
            vec!["v:1".to_string(), "v:13".to_string()],
            vec!["v:2".to_string(), "v:10".to_string()],
            vec!["v:2".to_string(), "v:12".to_string()],
        ]
    );
}

#[test]
fn sort_compares_json_text() {
    // "10" sorts before "9" as text; a string sorts by its quoted form.
    let rows = vec![
        Row::Cells(vec![num("9")]),
        Row::Cells(vec![num("10")]),
        Row::Cells(vec![text("a")]),
        Row::Cells(vec![Cell::Null]),
    ];
    let sorted = sort_rows(rows, 0);
    assert_eq!(
        texts_of(&sorted),
        vec![vec!["t:a"], vec!["v:10"], vec!["v:9"], vec!["null"]]
    );
}

#[test]
fn sort_key_quotes_strings() {
    let r = Row::Cells(vec![text("a\"b"), Cell::Null, num("3.5")]);
    assert_eq!(sort_key(&r, 0), Some("\"a\\\"b\"".to_string()));
    assert_eq!(sort_key(&r, 1), Some("null".to_string()));
    assert_eq!(sort_key(&r, 2), Some("3.5".to_string()));
    assert_eq!(sort_key(&r, 3), None);
    assert_eq!(sort_key(&Row::Single(text("x")), 0), None);
    let ctl = Row::Cells(vec![text("\u{1}\n\\/")]);
    assert_eq!(sort_key(&ctl, 0), Some("\"\\u0001\\n\\\\/\"".to_string()));
}

#[test]
fn sort_of_empty_table() {
    let t = ResponseTable { columns: vec!["a".to_string()], values: vec![] }.sort_by(&Some("a".to_string()));
    assert!(t.values.is_empty());
}

#[test]
fn text_order() {
    assert!(text_less_eq("", ""));
    assert!(text_less_eq("a", "ab"));
    assert!(!text_less_eq("ab", "a"));
    assert!(text_less_eq("B", "a"));
    assert!(!text_less_eq("é", "z"));
    assert!(key_less_eq(&None, &Some("".to_string())));
    assert!(!key_less_eq(&Some("".to_string()), &None));
    assert!(key_less_eq(&None, &None));
}

#[test]
fn table_to_response() {
    let r: CommandResponse = name_table().into();
    match r {
        CommandResponse::Table { columns, values, summary } => {
            assert_eq!(columns.len(), 2);
            assert_eq!(values.len(), 2);
            assert!(summary.is_empty());
        }
        _ => panic!("not a table"),
    }
    let r = name_table().with_summary(vec![Row::Cells(vec![text("total"), num("3")])]);
    match r {
        CommandResponse::Table { summary, .. } => assert_eq!(texts_of(&summary), vec![vec!["t:total", "v:3"]]),
        _ => panic!("not a table"),
    }
}
