use awl::cli::{Globals, OutputFormat};
use awl::json;
use awl::output::{emit, Output};
use awl::services::ddb::{
    attr_to_json, decode_base64, desc_plan, get_plan, get_row, item_rows, item_to_json,
    json_to_attr, option_attribute_map, option_string_map, parse_item_json, put_plan, put_row,
    query_plan, require_bool, require_string, require_string_array, rm_plan, rm_row, scan_plan,
    table_row, table_rows, typed_attr, AttributeValue, TableInfo,
};

fn words(values: &[&str]) -> Vec<String> {
    values.iter().map(|value| (*value).to_owned()).collect()
}

fn text(value: &str) -> Option<String> {
    Some(value.to_owned())
}

fn shown(output: Output) -> String {
    let globals = Globals {
        profile: None,
        region: None,
        endpoint_url: None,
        output: Some(OutputFormat::Jsonl),
        field: None,
        no_color: false,
        quiet: false,
        verbose: 0,
        role_arn: None,
        role_session_name: None,
        mfa_token: None,
        retry_mode: None,
        max_attempts: None,
    };
    emit(&globals, false, output).unwrap()
}

fn attr(value: &str) -> AttributeValue {
    json_to_attr(&json::parse(value).unwrap()).unwrap()
}

fn refusal(value: &str) -> String {
    let error = json_to_attr(&json::parse(value).unwrap()).unwrap_err();
    assert_eq!(error.exit_code(), 2);
    error.line()
}

fn back(value: &str) -> String {
    attr_to_json(&attr(value)).compact()
}

#[test]
fn untyped_values_become_attributes() {
    assert!(matches!(attr("null"), AttributeValue::Null(true)));
    assert!(matches!(attr("false"), AttributeValue::Bool(false)));
    assert!(matches!(attr("1.50"), AttributeValue::N(n) if n == "1.5"));
    assert!(matches!(attr("\"x\""), AttributeValue::S(s) if s == "x"));
    assert!(matches!(attr("[1, \"a\"]"), AttributeValue::L(values) if values.len() == 2));
    assert!(matches!(
        attr("{\"a\": 1, \"S\": \"x\"}"),
        AttributeValue::M(entries) if entries.len() == 2
    ));
    assert!(matches!(
        attr("{\"name\": {\"N\": \"5\"}}"),
        AttributeValue::M(entries)
            if matches!(&entries[0], (name, AttributeValue::N(n)) if name == "name" && n == "5")
    ));
    assert!(matches!(attr("{}"), AttributeValue::M(entries) if entries.is_empty()));
}

#[test]
fn typed_values_become_attributes() {
    assert!(matches!(attr("{\"S\": \"x\"}"), AttributeValue::S(s) if s == "x"));
    assert!(matches!(attr("{\"N\": \"007\"}"), AttributeValue::N(n) if n == "007"));
    assert!(matches!(attr("{\"N\": 7}"), AttributeValue::N(n) if n == "7"));
    assert!(matches!(attr("{\"BOOL\": true}"), AttributeValue::Bool(true)));
    assert!(matches!(attr("{\"NULL\": false}"), AttributeValue::Null(false)));
    assert!(matches!(
        attr("{\"SS\": [\"b\", \"a\"]}"),
        AttributeValue::Ss(values) if values == words(&["b", "a"])
    ));
    assert!(matches!(
        attr("{\"NS\": [\"1\"]}"),
        AttributeValue::Ns(values) if values == words(&["1"])
    ));
    assert!(matches!(attr("{\"B\": \"AQID\"}"), AttributeValue::B(bytes) if bytes == [1, 2, 3]));
    assert!(matches!(
        attr("{\"BS\": [\"AQ==\", \"\"]}"),
        AttributeValue::Bs(values) if values == vec![vec![1], Vec::new()]
    ));
    assert!(matches!(
        attr("{\"L\": [{\"S\": \"x\"}]}"),
        AttributeValue::L(values) if matches!(&values[0], AttributeValue::S(s) if s == "x")
    ));
    assert!(matches!(
        attr("{\"M\": {\"S\": \"x\"}}"),
        AttributeValue::M(entries)
            if matches!(&entries[0], (name, AttributeValue::S(s)) if name == "S" && s == "x")
    ));
    let value = json::parse("true").unwrap();
    assert!(matches!(
        typed_attr("BOOL", &value).unwrap(),
        AttributeValue::Bool(true)
    ));
}

#[test]
fn values_of_the_wrong_kind_are_refused() {
    for (value, line) in [
        ("{\"S\": 1}", "DynamoDB S value must be a string"),
        ("{\"N\": true}", "DynamoDB N value must be a string"),
        ("{\"BOOL\": \"true\"}", "DynamoDB BOOL value must be a bool"),
        ("{\"NULL\": null}", "DynamoDB NULL value must be a bool"),
        ("{\"SS\": \"x\"}", "DynamoDB SS value must be an array of strings"),
        ("{\"NS\": [\"1\", 2]}", "DynamoDB NS value must be a string"),
        ("{\"L\": {}}", "DynamoDB L value must be an array"),
        ("{\"M\": []}", "DynamoDB M value must be an object"),
        ("[{\"S\": 1}, {\"L\": 1}]", "DynamoDB S value must be a string"),
    ] {
        assert_eq!(refusal(value), line);
    }
    assert!(refusal("{\"B\": \"%\"}").starts_with("invalid base64 value: "));
    assert!(refusal("{\"BS\": [\"AQ==\", \"A\"]}").starts_with("invalid base64 value: "));
}

#[test]
fn requirements_are_checked() {
    let value = json::parse("[\"a\", \"b\"]").unwrap();
    assert_eq!(
        require_string_array(&value, "X").unwrap(),
        words(&["a", "b"])
    );
    assert!(require_string(&value, "X").is_err());
    assert!(require_bool(&value, "X").is_err());
    assert_eq!(decode_base64("aGk=").unwrap(), b"hi");
}

#[test]
fn untyped_values_are_read_back() {
    for value in [
        "null",
        "true",
        "-12",
        "2.5",
        "0",
        "9223372036854775808",
        "18446744073709551615",
        "-9223372036854775808",
        "[-9223372036854775808,{\"n\":18446744073709551615}]",
        "\"text\"",
        "[1,[null,\"x\"],{}]",
        "{\"a\":1,\"b\":{\"c\":[],\"d\":false}}",
    ] {
        assert_eq!(back(value), value);
    }
}

#[test]
fn typed_values_are_shown_plainly() {
    assert_eq!(back("{\"N\": \"1e2\"}"), "100.0");
    assert_eq!(back("{\"N\": \"abc\"}"), "\"abc\"");
    assert_eq!(back("{\"NS\": [\"1\", \"x\"]}"), "[1,\"x\"]");
    assert_eq!(back("{\"SS\": [\"1\"]}"), "[\"1\"]");
    assert_eq!(back("{\"B\": \"AQID\"}"), "\"AQID\"");
    assert_eq!(back("{\"BS\": [\"AQ==\"]}"), "[\"AQ==\"]");
    assert_eq!(back("{\"NULL\": false}"), "null");
}

#[test]
fn an_item_is_an_object() {
    let item = parse_item_json("{\"b\": 1, \"a\": {\"S\": \"x\"}}").unwrap();
    assert_eq!(item_to_json(&item).compact(), "{\"a\":\"x\",\"b\":1}");
    let error = parse_item_json("[]").unwrap_err();
    assert_eq!(error.line(), "expected a JSON object");
    let error = parse_item_json("{").unwrap_err();
    assert!(error.line().starts_with("json error: EOF while parsing"));
    assert_eq!(error.exit_code(), 1);
    let item = parse_item_json("{\"S\": \"x\"}").unwrap();
    assert_eq!(item_to_json(&item).compact(), "{\"S\":\"x\"}");
}

#[test]
fn options_give_names_and_values() {
    let args = words(&["--names", "{\"#a\": \"x\"}", "--values={\":v\": {\"N\": \"1\"}}"]);
    assert_eq!(
        option_string_map(&args, "--names").unwrap(),
        Some(vec![("#a".to_owned(), "x".to_owned())])
    );
    assert_eq!(option_string_map(&args, "--other").unwrap(), None);
    let values = option_attribute_map(&args, "--values").unwrap().unwrap();
    assert!(matches!(&values[0], (name, AttributeValue::N(n)) if name == ":v" && n == "1"));
    let bad = words(&["--names", "{\"#a\": 1}"]);
    let error = option_string_map(&bad, "--names").unwrap_err();
    assert!(error.line().starts_with("json error: invalid type: integer `1`"));
}

#[test]
fn plans_name_a_table() {
    let args = words(&["t", "{\"k\": 1}", "--projection", "p", "--names", "{}"]);
    let plan = get_plan(&args).unwrap();
    assert_eq!(plan.table, "t");
    assert_eq!(plan.projection, text("p"));
    assert_eq!(plan.names, Some(Vec::new()));
    assert_eq!(
        get_plan(&words(&["t"])).unwrap_err().line(),
        "missing required argument <key-json>"
    );
    assert_eq!(
        put_plan(&words(&["t"])).unwrap_err().line(),
        "missing required argument <item-json>"
    );
    assert_eq!(
        rm_plan(&Vec::new()).unwrap_err().line(),
        "missing required argument <table>"
    );
    assert_eq!(desc_plan(&words(&["t"])).unwrap(), "t");
}

#[test]
fn searches_have_conditions() {
    let plan = query_plan(&words(&["t", "k = :v", "--filter", "f", "--limit", "5"])).unwrap();
    assert_eq!(plan.key_condition, text("k = :v"));
    assert_eq!(plan.filter, text("f"));
    assert_eq!(plan.limit, Some(5));
    let plan = query_plan(&words(&["t", "other", "--key-condition", "k"])).unwrap();
    assert_eq!(plan.key_condition, text("k"));
    assert_eq!(
        query_plan(&words(&["t"])).unwrap_err().line(),
        "ddb query requires --key-condition <expr>"
    );
    let plan = scan_plan(&words(&["t", "--limit", "x", "--values", "{\":v\": 1}"])).unwrap();
    assert_eq!(plan.key_condition, None);
    assert_eq!(plan.limit, None);
    assert_eq!(plan.values.unwrap().len(), 1);
}

#[test]
fn tables_and_items_are_shown() {
    assert_eq!(
        shown(table_rows(&words(&["a", "b"]))),
        "{\"table_name\":\"a\"}\n{\"table_name\":\"b\"}\n"
    );
    assert_eq!(
        shown(table_row(&None)),
        "{\"item_count\":null,\"key_schema\":[],\"size_bytes\":null,\"status\":null,\
         \"table_arn\":null,\"table_name\":null}\n"
    );
    let info = TableInfo {
        table_name: text("t"),
        table_arn: text("arn"),
        status: text("ACTIVE"),
        item_count: Some(2),
        size_bytes: None,
        key_schema: vec![("id".to_owned(), "HASH".to_owned())],
    };
    assert_eq!(
        shown(table_row(&Some(info))),
        "{\"item_count\":2,\"key_schema\":[{\"attribute_name\":\"id\",\"key_type\":\"HASH\"}],\
         \"size_bytes\":null,\"status\":\"ACTIVE\",\"table_arn\":\"arn\",\"table_name\":\"t\"}\n"
    );
    assert_eq!(shown(get_row(&None)), "{\"item\":null}\n");
    let item = || vec![("k".to_owned(), AttributeValue::N("1".to_owned()))];
    assert_eq!(shown(get_row(&Some(item()))), "{\"item\":{\"k\":1}}\n");
    assert_eq!(
        shown(item_rows(&vec![item(), Vec::new()])),
        "{\"k\":1}\n{}\n"
    );
    let plan = put_plan(&words(&["t", "{\"k\": [1]}"])).unwrap();
    assert_eq!(
        shown(put_row(&plan)),
        "{\"action\":\"put\",\"item\":{\"k\":[1]},\"table\":\"t\"}\n"
    );
    let plan = rm_plan(&words(&["t", "{\"k\": 1}"])).unwrap();
    assert_eq!(
        shown(rm_row(&plan)),
        "{\"deleted\":true,\"key\":{\"k\":1},\"table\":\"t\"}\n"
    );
}
