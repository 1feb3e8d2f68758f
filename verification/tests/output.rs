use awl::cli::{Globals, OutputFormat};
use awl::error::AwlError;
use awl::json::{self, Fields, Json};
use awl::output::{emit, plain_value, tsv_row, Output};

fn globals(output: Option<OutputFormat>, field: Option<&str>) -> Globals {
    Globals {
        profile: None,
        region: None,
        endpoint_url: None,
        output,
        field: field.map(str::to_owned),
        no_color: false,
        quiet: false,
        verbose: 0,
        role_arn: None,
        role_session_name: None,
        mfa_token: None,
        retry_mode: None,
        max_attempts: None,
    }
}

fn object(fields: Vec<(&str, Json)>) -> Json {
    let mut out = Fields::new();
    for (name, value) in fields {
        out.insert(name, value);
    }
    Json::Object(out)
}

fn sample() -> Json {
    object(vec![
        ("name", Json::text("a b")),
        ("count", Json::signed(-3)),
        ("on", Json::Bool(true)),
        ("none", Json::Null),
    ])
}

fn written(format: OutputFormat, output: Output) -> Result<String, AwlError> {
    emit(&globals(Some(format), None), false, output)
}

#[test]
fn json_is_indented() {
    assert_eq!(
        written(OutputFormat::Json, Output::one(sample())).unwrap(),
        "{\n  \"count\": -3,\n  \"name\": \"a b\",\n  \"none\": null,\n  \"on\": true\n}\n"
    );
    assert_eq!(
        written(OutputFormat::Json, Output::many(vec![Json::unsigned(1)])).unwrap(),
        "[\n  1\n]\n"
    );
    assert_eq!(written(OutputFormat::Json, Output::Empty).unwrap(), "null\n");
    assert_eq!(
        written(OutputFormat::Json, Output::Plain("a\nb".to_owned())).unwrap(),
        "\"a\\nb\"\n"
    );
}

#[test]
fn jsonl_has_a_line_for_each_record() {
    assert_eq!(
        written(
            OutputFormat::Jsonl,
            Output::many(vec![sample(), Json::text("x")])
        )
        .unwrap(),
        "{\"count\":-3,\"name\":\"a b\",\"none\":null,\"on\":true}\n\"x\"\n"
    );
    assert_eq!(written(OutputFormat::Jsonl, Output::Empty).unwrap(), "");
    assert_eq!(
        written(OutputFormat::Jsonl, Output::Plain("p".to_owned())).unwrap(),
        "\"p\"\n"
    );
}

#[test]
fn toml_is_written_where_it_can_be() {
    let row = object(vec![("name", Json::text("a")), ("n", Json::signed(2))]);
    assert_eq!(
        written(OutputFormat::Toml, Output::one(row)).unwrap(),
        "n = 2\nname = \"a\"\n\n"
    );
    let error = written(OutputFormat::Toml, Output::one(Json::Null)).unwrap_err();
    assert!(matches!(error, AwlError::Toml(_)));
    assert_eq!(error.exit_code(), 1);
    assert_eq!(written(OutputFormat::Toml, Output::Empty).unwrap(), "");
}

#[test]
fn yaml_is_written() {
    assert_eq!(
        written(OutputFormat::Yaml, Output::one(sample())).unwrap(),
        "count: -3\nname: a b\nnone: null\non: true\n\n"
    );
    assert_eq!(
        written(OutputFormat::Yaml, Output::many(vec![Json::unsigned(7)])).unwrap(),
        "- 7\n\n"
    );
    assert_eq!(written(OutputFormat::Yaml, Output::Empty).unwrap(), "");
}

#[test]
fn tsv_has_the_values_in_the_order_of_their_names() {
    assert_eq!(tsv_row(&sample()), "-3\ta b\t\ttrue");
    assert_eq!(
        written(
            OutputFormat::Tsv,
            Output::many(vec![sample(), Json::signed(4)])
        )
        .unwrap(),
        "-3\ta b\t\ttrue\n4\n"
    );
    assert_eq!(
        written(OutputFormat::Tsv, Output::Plain("x".to_owned())).unwrap(),
        "x\n"
    );
}

#[test]
fn plain_values_stand_on_lines() {
    assert_eq!(plain_value(&Json::Null), "");
    assert_eq!(plain_value(&Json::Bool(false)), "false");
    assert_eq!(plain_value(&Json::unsigned(u64::MAX)), "18446744073709551615");
    assert_eq!(plain_value(&Json::text("é")), "é");
    assert_eq!(
        plain_value(&Json::list(vec![Json::signed(1), Json::text("a")])),
        "[1,\"a\"]"
    );
    assert_eq!(plain_value(&object(vec![("k", Json::Null)])), "{\"k\":null}");
    assert_eq!(
        written(
            OutputFormat::Plain,
            Output::many(vec![Json::text("a"), Json::Null])
        )
        .unwrap(),
        "a\n\n"
    );
}

#[test]
fn a_table_has_aligned_columns() {
    let rows = vec![
        object(vec![("id", Json::text("long-value")), ("n", Json::signed(1))]),
        object(vec![("id", Json::text("x")), ("zone", Json::text("b"))]),
    ];
    let table = written(OutputFormat::Table, Output::many(rows)).unwrap();
    assert_eq!(
        table,
        "id          n  zone\nlong-value  1      \nx              b   \n"
    );
    let lengths: Vec<usize> = table.lines().map(|line| line.chars().count()).collect();
    assert_eq!(lengths, vec![19, 19, 19]);
}

#[test]
fn a_column_is_as_wide_as_its_bytes() {
    let rows = vec![object(vec![("id", Json::text("éé"))])];
    let table = written(OutputFormat::Table, Output::many(rows)).unwrap();
    assert_eq!(table, "id  \néé  \n");
}

#[test]
fn a_table_without_columns_has_plain_lines() {
    assert_eq!(
        written(
            OutputFormat::Table,
            Output::many(vec![Json::text("a"), Json::signed(2)])
        )
        .unwrap(),
        "a\n2\n"
    );
    assert_eq!(written(OutputFormat::Table, Output::Empty).unwrap(), "");
    assert_eq!(
        written(OutputFormat::Table, Output::Plain("t".to_owned())).unwrap(),
        "t\n"
    );
    assert_eq!(
        written(OutputFormat::Table, Output::many(Vec::new())).unwrap(),
        ""
    );
}

#[test]
fn the_format_depends_on_the_terminal() {
    let given = globals(None, None);
    assert_eq!(
        emit(&given, true, Output::one(object(vec![("a", Json::signed(1))]))).unwrap(),
        "a\n1\n"
    );
    assert_eq!(
        emit(&given, false, Output::one(object(vec![("a", Json::signed(1))]))).unwrap(),
        "{\"a\":1}\n"
    );
}

#[test]
fn quiet_writes_nothing() {
    let mut given = globals(Some(OutputFormat::Json), Some("missing"));
    given.quiet = true;
    assert_eq!(emit(&given, true, Output::one(sample())).unwrap(), "");
}

#[test]
fn a_field_is_selected_from_one_record() {
    let given = globals(Some(OutputFormat::Plain), Some("name"));
    assert_eq!(emit(&given, false, Output::one(sample())).unwrap(), "a b\n");
    assert_eq!(
        emit(&given, false, Output::many(vec![sample()])).unwrap(),
        "a b\n"
    );
}

#[test]
fn a_field_that_cannot_be_selected_is_an_error() {
    let given = globals(Some(OutputFormat::Plain), Some("x\"y"));
    let cases = [
        (Output::one(sample()), "field \"x\\\"y\" does not exist"),
        (
            Output::one(Json::Null),
            "--field requires an object output",
        ),
        (
            Output::many(vec![sample(), sample()]),
            "--field cannot select from multiple output records",
        ),
        (
            Output::many(Vec::new()),
            "--field cannot select from multiple output records",
        ),
        (Output::Empty, "--field requires structured output"),
        (
            Output::Plain("p".to_owned()),
            "--field requires structured output",
        ),
    ];
    for (output, line) in cases {
        let error = emit(&given, false, output).unwrap_err();
        assert_eq!(error.line(), line);
        assert_eq!(error.exit_code(), 2);
    }
}

#[test]
fn json_text_is_read() {
    let value = json::parse("{\"b\": [1, 2.5, -3, null], \"a\": {\"x\": true}, \"b\": \"later\"}");
    assert_eq!(
        value.unwrap().compact(),
        "{\"a\":{\"x\":true},\"b\":\"later\"}"
    );
    assert_eq!(json::parse("[1, 2.5, 1e3]").unwrap().compact(), "[1,2.5,1000.0]");
    assert!(json::parse("{").is_err());
    assert_eq!(json::parse_bytes(b" [ ] ").unwrap().compact(), "[]");
    assert!(json::parse_bytes(&[0xff]).is_err());
}

#[test]
fn fields_are_kept_in_order() {
    let mut fields = Fields::new();
    fields.insert("b", Json::signed(1));
    fields.insert("a", Json::signed(2));
    fields.insert("b", Json::signed(3));
    fields.insert("", Json::Null);
    assert_eq!(fields.len(), 3);
    let names: Vec<&str> = (0..3).map(|i| fields.entry(i).0).collect();
    assert_eq!(names, vec!["", "a", "b"]);
    assert_eq!(fields.get("b").unwrap().compact(), "3");
    assert!(fields.get("c").is_none());
}
