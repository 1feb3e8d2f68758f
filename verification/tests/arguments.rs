use awl::cli::{self, Command, Globals, PresignMethod, StsCommand, StsCommandSubcommand, StubArgs};
use awl::client::{self, RegionSource, RetryMode};
use awl::error::AwlError;
use awl::number::{i64_text, parse_i32, parse_i64};
use awl::services::common;

fn words(values: &[&str]) -> Vec<String> {
    values.iter().map(|value| (*value).to_owned()).collect()
}

fn globals() -> Globals {
    Globals {
        profile: None,
        region: None,
        endpoint_url: None,
        output: None,
        field: None,
        no_color: false,
        quiet: false,
        verbose: 0,
        role_arn: None,
        role_session_name: None,
        mfa_token: None,
        retry_mode: None,
        max_attempts: None,
    }
}

fn sts() -> Command {
    Command::Sts(StsCommand {
        command: StsCommandSubcommand::Whoami(StubArgs { args: Vec::new() }),
    })
}

fn logs() -> Command {
    Command::Logs(cli::LogsCommand {
        command: cli::LogsCommandSubcommand::Ls(StubArgs { args: Vec::new() }),
    })
}

#[test]
fn positional_keeps_values_after_boolean_dryrun_aliases() {
    let args = vec!["--dryrun".to_owned(), "i-123".to_owned()];
    assert_eq!(common::positional(&args), vec!["i-123".to_owned()]);

    let args = vec!["--dry-run".to_owned(), "i-456".to_owned()];
    assert_eq!(common::positional(&args), vec!["i-456".to_owned()]);
}

#[test]
fn option_value_accepts_equals_and_space_forms() {
    let args = vec![
        "--limit=10".to_owned(),
        "--prefix".to_owned(),
        "/app".to_owned(),
    ];
    assert_eq!(
        common::option_value(&args, "--limit"),
        Some("10".to_owned())
    );
    assert_eq!(
        common::option_value(&args, "--prefix"),
        Some("/app".to_owned())
    );
}

#[test]
fn an_option_takes_the_word_after_it() {
    let args = words(&["table", "--limit", "5", "key", "--values"]);
    assert_eq!(common::positional(&args), words(&["table", "key"]));
}

#[test]
fn an_option_before_another_takes_nothing() {
    let args = words(&["--limit", "--tail", "group"]);
    assert_eq!(common::positional(&args), words(&["group"]));
    assert_eq!(
        common::option_value(&args, "--limit"),
        Some("--tail".to_owned())
    );
}

#[test]
fn an_option_at_the_end_has_no_value() {
    let args = words(&["name", "--type"]);
    assert_eq!(common::option_value(&args, "--type"), None);
    assert_eq!(common::option_value(&args, "--other"), None);
    assert!(common::has_flag(&args, "--type"));
    assert!(!common::has_flag(&args, "--typ"));
}

#[test]
fn numbers_in_options_are_read_where_they_are_numbers() {
    let args = words(&["--limit", "-5", "--big=4294967296", "--bad=5x"]);
    assert_eq!(common::option_i32(&args, "--limit"), Some(-5));
    assert_eq!(common::option_i32(&args, "--big"), None);
    assert_eq!(common::option_i64(&args, "--big"), Some(4294967296));
    assert_eq!(common::option_i64(&args, "--bad"), None);
}

#[test]
fn a_missing_argument_is_named() {
    let args = words(&["one"]);
    assert_eq!(common::required(&args, 0, "first").unwrap(), "one");
    let error = common::required(&args, 1, "second").unwrap_err();
    assert_eq!(error.line(), "missing required argument <second>");
    assert_eq!(error.exit_code(), 2);
}

#[test]
fn key_values_are_taken_in_order() {
    let args = words(&["--context", "a=1", "key", "--context", "b=x=y"]);
    assert_eq!(
        common::key_values(&args, "--context").unwrap(),
        vec![
            ("a".to_owned(), "1".to_owned()),
            ("b".to_owned(), "x=y".to_owned())
        ]
    );
}

#[test]
fn key_values_need_a_pair() {
    let error = common::key_values(&words(&["--context"]), "--context").unwrap_err();
    assert_eq!(error.line(), "--context requires KEY=VALUE");
    let error = common::key_values(&words(&["--context", "a\tb"]), "--context").unwrap_err();
    assert_eq!(error.line(), "--context requires KEY=VALUE, got \"a\\tb\"");
}

#[test]
fn a_pair_on_the_command_line_has_a_key() {
    assert_eq!(
        cli::parse_key_value("a=b=c"),
        Ok(("a".to_owned(), "b=c".to_owned()))
    );
    assert_eq!(
        cli::parse_key_value("a="),
        Ok(("a".to_owned(), String::new()))
    );
    assert_eq!(
        cli::parse_key_value("=b"),
        Err("key cannot be empty".to_owned())
    );
    assert_eq!(
        cli::parse_key_value("ab"),
        Err("expected KEY=VALUE, got \"ab\"; value must contain '='".to_owned())
    );
}

#[test]
fn the_file_name_is_the_last_part_of_a_path() {
    assert_eq!(cli::filename("a/b.txt"), Some("b.txt".to_owned()));
    assert_eq!(cli::filename("a/b/"), Some("b".to_owned()));
    assert_eq!(cli::filename("a/b/."), Some("b".to_owned()));
    assert_eq!(cli::filename("b"), Some("b".to_owned()));
    assert_eq!(cli::filename("a/.."), None);
    assert_eq!(cli::filename(""), None);
    assert_eq!(cli::filename("/"), None);
    assert_eq!(cli::filename("."), None);
    assert_eq!(cli::filename("a/..."), Some("...".to_owned()));
    assert_eq!(
        cli::filename("logs/12:30:00.txt"),
        Some("12:30:00.txt".to_owned())
    );
    assert_eq!(cli::filename("12:30:00"), Some("12:30:00".to_owned()));
}

#[test]
fn an_empty_name_is_no_name() {
    assert_eq!(cli::usable_name(Some(String::new())), None);
    assert_eq!(cli::usable_name(Some("a".to_owned())), Some("a".to_owned()));
    assert_eq!(cli::usable_name(None), None);
}

#[test]
fn verbosity_selects_the_log_filter() {
    let mut given = globals();
    for (verbose, filter) in [(0, "warn"), (1, "info"), (2, "debug"), (3, "trace"), (9, "trace")] {
        given.verbose = verbose;
        assert_eq!(given.log_filter(), filter);
    }
}

#[test]
fn commands_and_methods_have_names() {
    assert_eq!(sts().name(), "sts");
    assert_eq!(logs().name(), "logs");
    assert_eq!(PresignMethod::Get.as_str(), "GET");
    assert_eq!(PresignMethod::Put.as_str(), "PUT");
}

#[test]
fn the_endpoint_of_the_command_line_comes_first() {
    let service = Some("http://service".to_owned());
    let general = Some("http://general".to_owned());
    let mut given = globals();
    assert_eq!(client::endpoint_key("S3"), "AWS_ENDPOINT_URL_S3");
    assert_eq!(client::endpoint_for(&given, None, None), None);
    assert_eq!(
        client::endpoint_for(&given, None, general.clone()),
        general
    );
    assert_eq!(
        client::endpoint_for(&given, service.clone(), general.clone()),
        service
    );
    given.endpoint_url = Some("http://given".to_owned());
    assert_eq!(
        client::endpoint_for(&given, service, general),
        Some("http://given".to_owned())
    );
}

#[test]
fn a_role_is_assumed_under_a_session_name() {
    let mut given = globals();
    assert!(client::role_plan(&given, 5).unwrap().is_none());
    given.role_arn = Some("arn:role".to_owned());
    let plan = client::role_plan(&given, 1700000000).unwrap().unwrap();
    assert_eq!(plan.role_arn, "arn:role");
    assert_eq!(plan.session_name, "awl-1700000000");
    let plan = client::role_plan(&given, -7).unwrap().unwrap();
    assert_eq!(plan.session_name, "awl--7");
    given.role_session_name = Some("mine".to_owned());
    let plan = client::role_plan(&given, 0).unwrap().unwrap();
    assert_eq!(plan.session_name, "mine");
    given.mfa_token = Some("123456".to_owned());
    let error = client::role_plan(&given, 0).unwrap_err();
    assert_eq!(
        error.line(),
        "global --mfa-token is only supported by `awl sts assume` for now"
    );
    assert_eq!(error.exit_code(), 2);
}

#[test]
fn identity_commands_do_not_ask_the_metadata_service() {
    assert!(!client::asks_metadata(&sts()));
    assert!(client::asks_metadata(&logs()));
    let sources = client::region_sources(&globals(), false);
    assert!(!sources
        .iter()
        .any(|source| matches!(source, RegionSource::DefaultChain(_))));
    assert_eq!(sources.len(), 3);
}

#[test]
fn a_region_is_always_found() {
    let mut given = globals();
    given.profile = Some("work".to_owned());
    let sources = client::region_sources(&given, true);
    assert!(matches!(&sources[0], RegionSource::DefaultChain(Some(profile)) if profile == "work"));
    assert!(matches!(sources.last(), Some(RegionSource::Given(region)) if region == "us-east-1"));
    given.region = Some("eu-west-1".to_owned());
    let sources = client::region_sources(&given, false);
    assert!(matches!(&sources[0], RegionSource::Given(region) if region == "eu-west-1"));
    assert!(matches!(&sources[1], RegionSource::Environment));
    assert!(matches!(&sources[2], RegionSource::ProfileFiles(Some(profile)) if profile == "work"));
}

#[test]
fn each_failure_has_its_line_and_status() {
    let text = || "x".to_owned();
    let cases = [
        (AwlError::usage("x"), "x", 2),
        (
            AwlError::Unsupported { command: text() },
            "unsupported command in this implementation slice: x",
            1,
        ),
        (AwlError::NotFound { message: text() }, "not found: x", 5),
        (
            AwlError::Authentication { message: text() },
            "authentication failed: x",
            3,
        ),
        (
            AwlError::Authorization { message: text() },
            "authorization failed: x",
            4,
        ),
        (AwlError::Endpoint { message: text() }, "endpoint error: x", 8),
        (AwlError::Io(text()), "io error: x", 1),
        (AwlError::Json(text()), "json error: x", 1),
        (AwlError::Yaml(text()), "yaml error: x", 1),
        (AwlError::Toml(text()), "toml error: x", 1),
        (AwlError::aws("x"), "aws error: x", 1),
    ];
    for (error, line, status) in cases {
        assert_eq!(error.line(), line);
        assert_eq!(error.exit_code(), status);
    }
}

#[test]
fn decimal_text_is_read_back() {
    for n in [0, 7, 10, 305, -1, -90, i64::MAX, i64::MIN] {
        assert_eq!(i64_text(n), n.to_string());
        assert_eq!(parse_i64(&i64_text(n)), Some(n));
    }
    assert_eq!(parse_i32("+12"), Some(12));
    assert_eq!(parse_i32("2147483648"), None);
    assert_eq!(parse_i32("-2147483648"), Some(i32::MIN));
    assert_eq!(parse_i32(""), None);
    assert_eq!(parse_i32("-"), None);
    assert_eq!(parse_i32(" 1"), None);
}

#[test]
fn requests_are_tried_again_as_asked_for() {
    let mut given = globals();
    let plan = client::retry_plan(&given);
    assert_eq!((plan.mode, plan.max_attempts), (None, None));
    given.max_attempts = Some(5);
    let plan = client::retry_plan(&given);
    assert_eq!(
        (plan.mode, plan.max_attempts),
        (Some(RetryMode::Standard), Some(5))
    );
    given.retry_mode = Some(" Adaptive\n".to_owned());
    let plan = client::retry_plan(&given);
    assert_eq!(
        (plan.mode, plan.max_attempts),
        (Some(RetryMode::Adaptive), Some(5))
    );
    given.max_attempts = None;
    given.retry_mode = Some("STANDARD".to_owned());
    let plan = client::retry_plan(&given);
    assert_eq!(
        (plan.mode, plan.max_attempts),
        (Some(RetryMode::Standard), None)
    );
    for name in ["legacy", "", "standard adaptive", "adaptiv\u{c9}"] {
        given.retry_mode = Some(name.to_owned());
        given.max_attempts = None;
        let plan = client::retry_plan(&given);
        assert_eq!((plan.mode, plan.max_attempts), (None, None));
        given.max_attempts = Some(2);
        let plan = client::retry_plan(&given);
        assert_eq!(
            (plan.mode, plan.max_attempts),
            (Some(RetryMode::Standard), Some(2))
        );
    }
}
