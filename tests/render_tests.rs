use golemcli::context::{CliCtx, Net, Rendering};
use golemcli::render::{grid_rows, GridRow};
use golemcli::table::{Cell, CommandResponse, Row, Scalar};

fn cells(v: &[&str]) -> Row {
    Row::Cells(v.iter().map(|s| Cell::Text(s.to_string())).collect())
}

fn shown(rows: &[GridRow]) -> Vec<(Vec<String>, bool)> {
    rows.iter().map(|r| (r.cells.clone(), r.emphasized)).collect()
}

fn ctx(json: bool) -> CliCtx {
    CliCtx::new(("127.0.0.1".to_string(), 61000), std::path::PathBuf::from("/tmp/golem"), json, false, Some(Net::Testnet), false)
}

#[test]
fn empty_table_shows_one_blank_line() {
    let cols = vec!["a".to_string(), "b".to_string(), "c".to_string()];
    let g = grid_rows(&cols, &vec![], &vec![]);
    assert_eq!(shown(&g), vec![(vec!["".to_string(), "".to_string(), "".to_string()], false)]);
}

#[test]
fn cells_render_as_text() {
    let cols = vec!["a".to_string(), "b".to_string(), "c".to_string()];
    let rows = vec![
        Row::Cells(vec![Cell::Text("x".to_string()), Cell::Null, Cell::Value("true".to_string())]),
        Row::Single(Cell::Value("{}".to_string())),
    ];
    let g = grid_rows(&cols, &rows, &vec![]);
    assert_eq!(shown(&g), vec![(vec!["x".to_string(), "".to_string(), "true".to_string()], false)]);
}

#[test]
fn last_summary_row_is_emphasized() {
    let cols = vec!["a".to_string()];
    let g = grid_rows(&cols, &vec![cells(&["1"])], &vec![cells(&["s1"]), cells(&["s2"]), cells(&["total"])]);
    assert_eq!(
        shown(&g),
        vec![
            (vec!["1".to_string()], false),
            (vec![], false),
            (vec!["s1".to_string()], false),
            (vec!["s2".to_string()], false),
            (vec!["total".to_string()], true),
        ]
    );
}

#[test]
fn machine_table_keeps_headers_and_values() {
    let resp = CommandResponse::Table {
        columns: vec!["name".to_string(), "n".to_string()],
        values: vec![cells(&["b", "2"]), cells(&["a", "1"])],
        summary: vec![cells(&["t", "3"])],
    };
    match ctx(true).plan_output(resp) {
        Rendering::JsonTable { headers, values } => {
            assert_eq!(headers, vec!["name".to_string(), "n".to_string()]);
            assert_eq!(values.len(), 2);
        }
        _ => panic!("expected a JSON table"),
    }
}

#[test]
fn human_table_is_a_grid() {
    let resp = CommandResponse::Table { columns: vec!["a".to_string()], values: vec![], summary: vec![] };
    match ctx(false).plan_output(resp) {
        Rendering::Grid { titles, rows } => {
            assert_eq!(titles, vec!["a".to_string()]);
            assert_eq!(shown(&rows), vec![(vec!["".to_string()], false)]);
        }
        _ => panic!("expected a grid"),
    }
}

#[test]
fn objects_render_by_mode() {
    let s = Scalar::from_json(serde_json::Value::String("hello".to_string()));
    match ctx(false).plan_output(CommandResponse::Object(s)) {
        Rendering::Text(t) => assert_eq!(t, "hello"),
        _ => panic!("expected text"),
    }
    let s = Scalar::from_json(serde_json::Value::String("hello".to_string()));
    match ctx(true).plan_output(CommandResponse::Object(s)) {
        Rendering::Json(Scalar::Text(t)) => assert_eq!(t, "hello"),
        _ => panic!("expected JSON of the text"),
    }
    let n = Scalar::from_json(serde_json::Value::Bool(true));
    assert!(matches!(ctx(false).plan_output(CommandResponse::Object(n)), Rendering::Yaml(serde_json::Value::Bool(true))));
    assert!(matches!(ctx(false).plan_output(CommandResponse::NoOutput), Rendering::Nothing));
}

struct Fixed;

impl golemcli::table::FormattedObject for Fixed {
    fn to_json(&self) -> Result<serde_json::Value, String> {
        Ok(serde_json::Value::Bool(false))
    }

    fn print(&self) -> Result<(), String> {
        Ok(())
    }
}

#[test]
fn custom_objects_carry_their_response() {
    match ctx(true).plan_output(CommandResponse::FormattedObject(Box::new(Fixed))) {
        Rendering::CustomJson(CommandResponse::FormattedObject(o)) => {
            assert_eq!(o.to_json(), Ok(serde_json::Value::Bool(false)))
        }
        _ => panic!("expected the custom JSON form"),
    }
    assert!(matches!(
        ctx(false).plan_output(CommandResponse::FormattedObject(Box::new(Fixed))),
        Rendering::CustomText(CommandResponse::FormattedObject(_))
    ));
}

#[test]
fn non_string_object_goes_to_yaml_unchanged() {
    let v = serde_json::Value::Array(vec![serde_json::Value::Null, serde_json::Value::Bool(true)]);
    match ctx(false).plan_output(CommandResponse::Object(Scalar::from_json(v.clone()))) {
        Rendering::Yaml(w) => assert_eq!(w, v),
        _ => panic!("expected YAML"),
    }
    match ctx(false).plan_output(CommandResponse::Object(Scalar::Text("plain".to_string()))) {
        Rendering::Text(t) => assert_eq!(t, "plain"),
        _ => panic!("expected text"),
    }
}
