use awl::cli::{Globals, OutputFormat};
use awl::output::{emit, Output};
use awl::services::{ecr, kms, lambda, logs, route53, secrets, ssm, sso, sts};

fn words(values: &[&str]) -> Vec<String> {
    values.iter().map(|value| (*value).to_owned()).collect()
}

fn text(value: &str) -> Option<String> {
    Some(value.to_owned())
}

fn globals() -> Globals {
    Globals {
        profile: None,
        region: None,
        endpoint_url: None,
        output: Some(OutputFormat::Jsonl),
        field: None,
        no_color: false,
        quiet: false,
        verbose: 0,
        role_arn: None,
        role_session_name: None,
        mfa_token: None,
        retry_mode: None,
        max_attempts: None,
    }
}

fn shown(output: Output) -> String {
    emit(&globals(), false, output).unwrap()
}

#[test]
fn kms_hex_round_trips_bytes() {
    let bytes = vec![0, 1, 15, 16, 255];
    let encoded = kms::encode_bytes(&bytes, "hex").expect("hex encodes");
    assert_eq!(encoded, "00010f10ff");
    let decoded = kms::decode_bytes(encoded, "hex").expect("hex decodes");
    assert_eq!(decoded, bytes);
}

#[test]
fn kms_encodings_are_read_back() {
    let bytes = b"a\xc3\xa9".to_vec();
    for (encoding, encoded) in [("b64", "YcOp"), ("hex", "61c3a9"), ("raw", "aé")] {
        assert_eq!(kms::encode_bytes(&bytes, encoding).unwrap(), encoded);
        assert_eq!(
            kms::decode_bytes(encoded.to_owned(), encoding).unwrap(),
            bytes
        );
    }
    assert_eq!(kms::encode_bytes(&[0xff], "raw").unwrap(), "\u{fffd}");
}

#[test]
fn kms_input_that_cannot_be_read_is_an_error() {
    for (value, encoding, line) in [
        ("abc", "hex", "hex input must have an even number of characters"),
        ("zz", "hex", "invalid hex input: invalid digit found in string"),
        ("+-", "hex", "invalid hex input: invalid digit found in string"),
        (
            "aé0",
            "hex",
            "invalid hex input: incomplete utf-8 byte sequence from index 1",
        ),
        (
            "x",
            "b32",
            "unknown input encoding \"b32\"; expected b64, hex, or raw",
        ),
    ] {
        let error = kms::decode_bytes(value.to_owned(), encoding).unwrap_err();
        assert_eq!(error.line(), line);
        assert_eq!(error.exit_code(), 2);
    }
    assert!(kms::decode_bytes("*".to_owned(), "b64")
        .unwrap_err()
        .line()
        .starts_with("invalid base64 ciphertext: "));
    assert_eq!(
        kms::encode_bytes(&[], "b32").unwrap_err().line(),
        "unknown encoding \"b32\"; expected b64, hex, or raw"
    );
    assert_eq!(
        kms::decode_hex("Ff+a").unwrap(),
        vec![255, 10]
    );
}

#[test]
fn kms_commands_name_a_key() {
    let plan = kms::encrypt_plan(&words(&["k", "p"]), text("v")).unwrap();
    assert_eq!((plan.key_id.as_str(), plan.plaintext.as_str()), ("k", "p"));
    assert_eq!(
        kms::encrypt_plan(&words(&["k"]), None).unwrap_err().line(),
        "missing required argument <plaintext>"
    );
    assert_eq!(kms::key_id(&words(&[]), text("v")).unwrap(), "v");
    assert_eq!(
        kms::key_id(&words(&[]), None).unwrap_err().line(),
        "missing <key-id> and AWL_KMS_KEY is unset"
    );
    let plan = kms::decrypt_plan(&words(&["c", "--key-id", "k"])).unwrap();
    assert_eq!((plan.ciphertext.as_str(), plan.key_id), ("c", text("k")));
    let plan = kms::data_key_plan(&words(&["k"]), None).unwrap();
    assert_eq!(plan.key_spec, "AES_256");
    assert_eq!(
        kms::encryption_context(&words(&["--context", "a=b"])).unwrap(),
        vec![("a".to_owned(), "b".to_owned())]
    );
    assert!(kms::is_stdin("-"));
    assert_eq!(kms::stdin_text("a\n\n"), "a");
    assert_eq!(kms::text_bytes("é"), vec![0xc3, 0xa9]);
}

#[test]
fn kms_results_are_shown() {
    let blob = Some(vec![1, 2]);
    assert_eq!(
        shown(kms::encrypt_row(&words(&["--encoding", "hex"]), &blob).unwrap()),
        "{\"ciphertext\":\"0102\"}\n"
    );
    assert_eq!(
        shown(kms::encrypt_row(&words(&[]), &None).unwrap()),
        "{\"ciphertext\":null}\n"
    );
    assert!(kms::encrypt_row(&words(&["--encoding=x"]), &blob).is_err());
    assert_eq!(
        kms::ciphertext_bytes(&words(&["--input-encoding", "raw"]), "ab".to_owned()).unwrap(),
        b"ab"
    );
    assert_eq!(
        kms::ciphertext_bytes(&words(&[]), "AQI=".to_owned()).unwrap(),
        vec![1, 2]
    );
    assert_eq!(
        shown(kms::decrypt_row(&Some(b"hi".to_vec()), &text("k"))),
        "{\"key_id\":\"k\",\"plaintext\":\"hi\"}\n"
    );
    assert_eq!(
        shown(kms::data_key_row(&None, &blob, &None)),
        "{\"ciphertext\":null,\"key_id\":null,\"plaintext\":\"AQI=\"}\n"
    );
    let key = kms::ListedKey {
        key_id: text("k"),
        key_arn: None,
    };
    assert_eq!(
        shown(kms::key_rows(&vec![key])),
        "{\"key_arn\":null,\"key_id\":\"k\"}\n"
    );
}

#[test]
fn parameters_name_variables() {
    for (prefix, name, variable) in [
        ("/app", "/app/db/url", "DB_URL"),
        ("/app/", "/app/db-url", "DB_URL"),
        ("/app", "/other/x", "OTHER_X"),
        ("", "héllo9", "H_LLO9"),
        ("/app", "/apple", "LE"),
    ] {
        assert_eq!(ssm::normalize_env_name(prefix, name).unwrap(), variable);
    }
    let error = ssm::normalize_env_name("/app", "/app/").unwrap_err();
    assert_eq!(
        error.line(),
        "parameter \"/app/\" normalizes to an empty env name"
    );
}

#[test]
fn a_command_is_run_with_parameters() {
    let args = words(&["--prefix", "/p", "--strict", "--", "env", "-i", "x"]);
    let plan = ssm::exec_plan(&args, text("/v")).unwrap();
    assert_eq!(plan.prefix, "/p");
    assert_eq!(plan.command, "env");
    assert_eq!(plan.command_args, words(&["-i", "x"]));
    assert!(plan.strict);
    let parameters = vec![
        (text("/p/a"), text("1")),
        (None, None),
        (text("/p/b"), text("2")),
    ];
    assert_eq!(
        ssm::exec_environment(&plan, &parameters).unwrap(),
        vec![
            ("A".to_owned(), "1".to_owned()),
            ("B".to_owned(), "2".to_owned())
        ]
    );
}

#[test]
fn a_command_that_cannot_be_run_is_an_error() {
    assert_eq!(
        ssm::exec_plan(&words(&["--", "x"]), None).unwrap_err().line(),
        "ssm exec requires --prefix or AWL_SSM_EXEC_PREFIX"
    );
    assert_eq!(
        ssm::exec_plan(&words(&["x"]), text("/v")).unwrap_err().line(),
        "ssm exec requires -- <cmd> [args...]"
    );
    assert_eq!(
        ssm::exec_plan(&words(&["x", "--"]), text("/v")).unwrap_err().line(),
        "ssm exec requires a command after --"
    );
    let plan = ssm::exec_plan(&words(&["--strict", "--", "x"]), text("/v")).unwrap();
    let error = ssm::exec_environment(&plan, &Vec::new()).unwrap_err();
    assert_eq!(error.line(), "not found: no parameters found under \"/v\"");
    let error = ssm::exec_environment(&plan, &vec![(text("/v/a"), None)]).unwrap_err();
    assert_eq!(
        error.line(),
        "not found: parameter \"/v/a\" has no readable value"
    );
    let twice = vec![(text("/v/a-b"), text("1")), (text("/v/a_b"), text("2"))];
    let error = ssm::exec_environment(&plan, &twice).unwrap_err();
    assert_eq!(
        error.line(),
        "parameter names collide after env normalization: A_B"
    );
    assert_eq!(error.exit_code(), 2);
}

#[test]
fn parameters_are_read_and_written() {
    let plan = ssm::get_plan(&words(&["n", "--no-decrypt"])).unwrap();
    assert!(plan.name == "n" && !plan.decrypt);
    let plan = ssm::list_plan(&words(&["-r", "--values"]));
    assert!(plan.path == "-r" && plan.recursive && plan.values);
    assert_eq!(ssm::list_plan(&words(&["--values"])).path, "/");
    let plan = ssm::put_plan(&words(&["n", "v", "--overwrite"]), text("key")).unwrap();
    assert!(plan.overwrite && plan.kind == "String" && plan.kms_key == text("key"));
    assert_eq!(
        ssm::put_plan(&words(&["n"]), None).unwrap_err().line(),
        "missing required argument <value>"
    );
    assert_eq!(ssm::rm_plan(&words(&["n"])).unwrap(), "n");
    let info = ssm::ParameterInfo {
        name: text("n"),
        kind: text("String"),
        value: text("v"),
        version: 3,
    };
    assert_eq!(
        shown(ssm::get_row(&None)),
        "{\"name\":null,\"type\":null,\"value\":null,\"version\":null}\n"
    );
    let listed = vec![info];
    assert_eq!(
        shown(ssm::list_rows(&listed, false)),
        "{\"name\":\"n\",\"type\":\"String\",\"value\":null,\"version\":3}\n"
    );
    assert_eq!(
        shown(ssm::list_rows(&listed, true)),
        "{\"name\":\"n\",\"type\":\"String\",\"value\":\"v\",\"version\":3}\n"
    );
    assert_eq!(
        shown(ssm::put_row("n", 2)),
        "{\"name\":\"n\",\"version\":2}\n"
    );
    assert_eq!(
        shown(ssm::rm_row("n")),
        "{\"deleted\":true,\"name\":\"n\"}\n"
    );
}

#[test]
fn zones_are_named_by_id_or_name() {
    assert_eq!(route53::ensure_trailing_dot("a.b"), "a.b.");
    assert_eq!(route53::ensure_trailing_dot("a.b."), "a.b.");
    assert_eq!(route53::clean_zone_id("/hostedzone/Z1"), "Z1");
    assert_eq!(route53::direct_zone_id("/hostedzone/Z1"), text("Z1"));
    assert_eq!(route53::direct_zone_id("Z2"), text("Z2"));
    assert_eq!(route53::direct_zone_id("zone.com"), None);
    let zone = |id: &str, name: &str, private| route53::ZoneInfo {
        id: id.to_owned(),
        name: name.to_owned(),
        private,
        record_count: Some(2),
    };
    let zones = vec![
        zone("/hostedzone/Z1", "a.com.", Some(false)),
        zone("Z2", "b.com.", None),
        zone("Z3", "b.com.", Some(true)),
    ];
    assert_eq!(route53::find_zone_id("a.com", &zones).unwrap(), "Z1");
    let error = route53::find_zone_id("c.com", &zones).unwrap_err();
    assert_eq!(error.line(), "not found: hosted zone \"c.com\" not found");
    let error = route53::find_zone_id("b.com.", &zones).unwrap_err();
    assert_eq!(
        error.line(),
        "hosted zone \"b.com.\" is ambiguous: \
         Z2 (b.com., private=false), Z3 (b.com., private=true)"
    );
    assert_eq!(
        shown(route53::zone_rows(&vec![zone("/hostedzone/Z1", "a.", None)])),
        "{\"id\":\"Z1\",\"name\":\"a.\",\"private\":null,\"record_count\":2}\n"
    );
}

#[test]
fn records_are_found_and_changed() {
    let start = route53::list_start(&words(&["z", "--name", "a", "--type", "cname"]));
    assert_eq!((start.name, start.record_type), (text("a."), text("CNAME")));
    let key = route53::record_key(&words(&["z", "a"])).unwrap();
    assert_eq!((key.name.as_str(), key.record_type.as_str()), ("a.", "A"));
    let key = route53::record_key(&words(&["z", "a", "txt"])).unwrap();
    assert_eq!(key.record_type, "TXT");
    assert_eq!(
        route53::record_key(&words(&["z"])).unwrap_err().line(),
        "missing required argument <name>"
    );
    let record = |name: &str| route53::RecordInfo {
        name: name.to_owned(),
        record_type: "TXT".to_owned(),
        ttl: Some(60),
        values: words(&["\"v\""]),
    };
    assert_eq!(
        shown(route53::found_record(&key, &vec![record("b."), record("a.")]).unwrap()),
        "{\"name\":\"a.\",\"ttl\":60,\"type\":\"TXT\",\"values\":[\"\\\"v\\\"\"]}\n"
    );
    assert_eq!(
        route53::found_record(&key, &Vec::new()).unwrap_err().line(),
        "not found: record a. TXT not found"
    );
    let change = route53::record_change(&words(&["z", "a", "a", "1.1.1.1", "2.2.2.2", "--ttl=5"]));
    let change = change.unwrap();
    assert_eq!(change.values, words(&["1.1.1.1", "2.2.2.2"]));
    assert_eq!((change.ttl, change.action.as_str()), (5, "UPSERT"));
    assert_eq!(
        shown(route53::change_row(&change, Some("c"), None)),
        "{\"action\":\"UPSERT\",\"change_id\":\"c\",\"name\":\"a.\",\"status\":null,\"ttl\":5,\
         \"type\":\"A\",\"values\":[\"1.1.1.1\",\"2.2.2.2\"]}\n"
    );
    let change = route53::record_change(&words(&["z", "a", "a", "x", "--action", "delete"]));
    let change = change.unwrap();
    assert_eq!((change.ttl, change.action.as_str()), (300, "DELETE"));
    assert_eq!(
        route53::record_change(&words(&["z", "a", "a"])).unwrap_err().line(),
        "route53 set requires at least one record value"
    );
    assert_eq!(route53::zone_arg(&words(&["z"])).unwrap(), "z");
    assert_eq!(
        shown(route53::record_rows(&vec![record("a.")])).lines().count(),
        1
    );
}

#[test]
fn images_have_a_repository_and_a_tag() {
    assert_eq!(
        ecr::split_image_ref("host:5000/r:t").unwrap(),
        ("host:5000/r".to_owned(), "t".to_owned())
    );
    assert_eq!(
        ecr::split_image_ref("r").unwrap_err().line(),
        "expected repo:tag, got \"r\""
    );
    let plan = ecr::retag_plan(&words(&["r", "a", "b"])).unwrap();
    assert_eq!((plan.src_repo.as_str(), plan.dst_repo.as_str()), ("r", "r"));
    assert_eq!(
        shown(ecr::retag_row(&plan)),
        "{\"destination_tag\":\"b\",\"repository\":\"r\",\"source_tag\":\"a\"}\n"
    );
    let (plan, src, dst) = ecr::copy_plan(&words(&["r:a", "s:b"])).unwrap();
    assert_eq!((plan.dst_repo.as_str(), plan.dst_tag.as_str()), ("s", "b"));
    assert_eq!(
        shown(ecr::copy_row(&src, &dst)),
        "{\"destination\":\"s:b\",\"source\":\"r:a\"}\n"
    );
    assert_eq!(
        ecr::copy_plan(&words(&["r:a"])).unwrap_err().line(),
        "missing required argument <dst-repo:tag>"
    );
    assert_eq!(
        ecr::source_manifest(&plan, &vec![text("m")]).unwrap(),
        "m"
    );
    assert_eq!(
        ecr::source_manifest(&plan, &Vec::new()).unwrap_err().line(),
        "not found: image r:a not found"
    );
    assert_eq!(
        ecr::source_manifest(&plan, &vec![None]).unwrap_err().line(),
        "not found: image r:a has no manifest"
    );
    let arg = ecr::image_arg(&words(&["r:t"])).unwrap();
    assert_eq!((arg.repo.as_str(), arg.tag.as_str()), ("r", "t"));
}

#[test]
fn a_registry_login_has_a_password() {
    let data = |token: Option<&str>| {
        vec![ecr::AuthorizationData {
            token: token.map(str::to_owned),
            endpoint: text("https://e"),
        }]
    };
    let login = ecr::login(&data(Some("QVdTOnNlYzpyZXQ="))).unwrap();
    assert_eq!(login.password, "sec:ret");
    assert_eq!(
        login.command,
        "docker login --username AWS --password-stdin https://e"
    );
    assert_eq!(
        ecr::login_args(&login),
        words(&["login", "--username", "AWS", "--password-stdin", "https://e"])
    );
    assert_eq!(
        shown(ecr::login_row(&login, None).unwrap()),
        "{\"command\":\"docker login --username AWS --password-stdin https://e\",\
         \"proxy_endpoint\":\"https://e\"}\n"
    );
    assert_eq!(
        ecr::login_row(&login, Some("1")).unwrap_err().line(),
        "aws error: docker login failed with status 1"
    );
    assert_eq!(ecr::login_from("alone", &None).password, "alone");
    let error = ecr::login(&Vec::new()).unwrap_err();
    assert_eq!(
        error.line(),
        "authentication failed: ECR returned no authorization data"
    );
    assert_eq!(error.exit_code(), 3);
    assert_eq!(
        ecr::login(&data(None)).unwrap_err().line(),
        "authentication failed: ECR returned no authorization token"
    );
    assert!(ecr::login(&data(Some("?")))
        .unwrap_err()
        .line()
        .starts_with("authentication failed: invalid ECR authorization token: "));
    assert!(ecr::login_is_run(&words(&["--exec"])));
}

#[test]
fn images_are_shown() {
    let image = ecr::ImageInfo {
        tags: words(&["a", "b"]),
        digest: text("d"),
        pushed_at: None,
        size: Some(9),
    };
    assert_eq!(
        shown(ecr::tag_rows(&vec![image])),
        "{\"digest\":\"d\",\"pushed_at\":null,\"size\":9,\"tag\":\"a\"}\n\
         {\"digest\":\"d\",\"pushed_at\":null,\"size\":9,\"tag\":\"b\"}\n"
    );
    let counts = Some(vec![("HIGH".to_owned(), 2), ("LOW".to_owned(), 1)]);
    assert_eq!(
        shown(ecr::scan_row("r:t", Some("COMPLETE"), &counts)),
        "{\"finding_severity_counts\":{\"HIGH\":2,\"LOW\":1},\"image\":\"r:t\",\
         \"status\":\"COMPLETE\"}\n"
    );
    assert_eq!(
        shown(ecr::digest_row("r:t", &vec![text("d"), None])),
        "{\"digest\":\"d\",\"image\":\"r:t\"}\n"
    );
    assert_eq!(
        shown(ecr::digest_row("r:t", &Vec::new())),
        "{\"digest\":null,\"image\":\"r:t\"}\n"
    );
    let repo = ecr::RepositoryInfo {
        name: text("r"),
        uri: None,
        registry_id: None,
    };
    assert_eq!(
        shown(ecr::repository_rows(&vec![repo])),
        "{\"registry_id\":null,\"repository_name\":\"r\",\"repository_uri\":null}\n"
    );
    assert_eq!(ecr::tags_plan(&words(&["r"])).unwrap(), "r");
}

#[test]
fn a_function_is_called() {
    let plan = lambda::invoke_plan(&words(&["f", "{\"a\":1}", "--tail"])).unwrap();
    assert_eq!(plan.function, "f");
    assert!(matches!(plan.payload, lambda::Payload::Inline(bytes) if bytes == b"{\"a\":1}"));
    assert_eq!(plan.invocation_type, "RequestResponse");
    assert_eq!(plan.log_type, "Tail");
    let plan = lambda::invoke_plan(&words(&["f", "--payload-file", "p", "--type", "Event"]));
    let plan = plan.unwrap();
    assert!(matches!(plan.payload, lambda::Payload::File(path) if path == "p"));
    assert_eq!((plan.invocation_type.as_str(), plan.log_type.as_str()), ("Event", "None"));
    assert!(matches!(
        lambda::invoke_plan(&words(&["f"])).unwrap().payload,
        lambda::Payload::Inline(bytes) if bytes == b"{}"
    ));
    assert!(lambda::invoke_plan(&Vec::new()).is_err());
}

#[test]
fn a_call_is_shown() {
    let mut reply = lambda::InvokeReply {
        status_code: 200,
        executed_version: text("1"),
        function_error: None,
        log_result: text("aGk="),
        payload: Some(b"{\"b\": 1, \"a\": []}".to_vec()),
    };
    assert_eq!(
        shown(lambda::invoke_row(&reply)),
        "{\"executed_version\":\"1\",\"function_error\":null,\"log_result\":\"hi\",\
         \"payload\":{\"a\":[],\"b\":1},\"status_code\":200}\n"
    );
    reply.log_result = text("?");
    reply.payload = Some(b"no json".to_vec());
    assert_eq!(
        shown(lambda::invoke_row(&reply)),
        "{\"executed_version\":\"1\",\"function_error\":null,\"log_result\":null,\
         \"payload\":\"no json\",\"status_code\":200}\n"
    );
    reply.payload = None;
    assert!(shown(lambda::invoke_row(&reply)).contains("\"payload\":null"));
}

#[test]
fn functions_and_their_logs_are_listed() {
    let plan = lambda::list_plan(&words(&["--marker", "m", "--limit", "3"]));
    assert_eq!((plan.marker, plan.max_items), (text("m"), Some(3)));
    let plan = lambda::log_plan(&words(&["f", "--filter", "ERROR"])).unwrap();
    assert_eq!(plan.group, "/aws/lambda/f");
    assert_eq!((plan.limit, plan.pattern), (None, text("ERROR")));
    let info = lambda::FunctionInfo {
        function_name: text("f"),
        function_arn: None,
        runtime: text("provided"),
        memory_size: Some(128),
        timeout: None,
        last_modified: None,
        version: None,
        state: None,
    };
    assert_eq!(
        shown(lambda::function_rows(&vec![info])),
        "{\"function_arn\":null,\"function_name\":\"f\",\"last_modified\":null,\
         \"memory_size\":128,\"runtime\":\"provided\",\"state\":null,\"timeout\":null,\
         \"version\":null}\n"
    );
}

#[test]
fn logs_are_read_by_stream_or_by_group() {
    assert_eq!(logs::group_prefix(&words(&["--prefix", "p"])), text("p"));
    let plan = logs::stream_plan(&words(&["g", "--limit", "2"])).unwrap();
    assert_eq!((plan.group.as_str(), plan.limit), ("g", Some(2)));
    let plan = logs::event_plan(&words(&["g", "s", "--stream", "t"])).unwrap();
    assert_eq!(plan.stream, text("s"));
    let plan = logs::event_plan(&words(&["g", "--stream", "t"])).unwrap();
    assert_eq!(plan.stream, text("t"));
    assert_eq!(logs::event_plan(&words(&["g"])).unwrap().stream, None);
    assert!(logs::event_plan(&Vec::new()).is_err());
    let event = logs::EventInfo {
        id: None,
        timestamp: Some(1),
        message: text("m"),
        stream: text("s"),
        ingestion_time: None,
    };
    let events = vec![event];
    assert_eq!(
        shown(logs::event_rows(&events, false)),
        "{\"ingestion_time\":null,\"message\":\"m\",\"timestamp\":1}\n"
    );
    assert_eq!(
        shown(logs::event_rows(&events, true)),
        "{\"ingestion_time\":null,\"log_stream_name\":\"s\",\"message\":\"m\",\"timestamp\":1}\n"
    );
    let group = logs::GroupInfo {
        name: text("g"),
        stored_bytes: Some(0),
        retention_days: None,
    };
    assert_eq!(
        shown(logs::group_rows(&vec![group])),
        "{\"log_group_name\":\"g\",\"retention_days\":null,\"stored_bytes\":0}\n"
    );
    let stream = logs::StreamInfo {
        name: text("s"),
        last_event_timestamp: Some(-1),
    };
    assert_eq!(
        shown(logs::stream_rows(&vec![stream])),
        "{\"last_event_timestamp\":-1,\"log_stream_name\":\"s\"}\n"
    );
}

#[test]
fn secrets_are_read_and_written() {
    let plan = secrets::get_plan(&words(&["n", "--version-id", "v"])).unwrap();
    assert_eq!((plan.name.as_str(), plan.version_id), ("n", text("v")));
    assert_eq!(plan.version_stage, None);
    let plan = secrets::put_plan(&words(&["n", "v"])).unwrap();
    assert_eq!((plan.name.as_str(), plan.value.as_str()), ("n", "v"));
    assert_eq!(
        secrets::put_plan(&words(&["n"])).unwrap_err().line(),
        "missing required argument <value>"
    );
    assert!(secrets::rm_plan(&words(&["n", "--force"])).unwrap().force);
    assert_eq!(secrets::secret_name(&words(&["n"])).unwrap(), "n");
    assert_eq!(
        shown(secrets::get_row(Some("a"), Some("n"), None, Some("s"))),
        "{\"arn\":\"a\",\"name\":\"n\",\"secret_string\":\"s\",\"version_id\":null}\n"
    );
    assert_eq!(
        shown(secrets::version_row(None, Some("n"), Some("v"))),
        "{\"arn\":null,\"name\":\"n\",\"version_id\":\"v\"}\n"
    );
    assert_eq!(
        shown(secrets::rm_row(None, None, Some("d"))),
        "{\"arn\":null,\"deletion_date\":\"d\",\"name\":null}\n"
    );
    let info = secrets::SecretInfo {
        name: text("n"),
        arn: None,
        description: None,
        last_changed: None,
    };
    assert_eq!(
        shown(secrets::secret_rows(&vec![info])),
        "{\"arn\":null,\"description\":null,\"last_changed\":null,\"name\":\"n\"}\n"
    );
}

#[test]
fn the_official_client_logs_in_and_out() {
    let mut known = globals();
    assert_eq!(sso::profile_name(&known, &Vec::new(), None), "default");
    assert_eq!(sso::profile_name(&known, &Vec::new(), text("v")), "v");
    known.profile = text("g");
    assert_eq!(sso::profile_name(&known, &Vec::new(), text("v")), "g");
    assert_eq!(
        sso::profile_name(&known, &words(&["--profile", "o"]), None),
        "o"
    );
    known.region = text("r");
    assert_eq!(
        sso::login_command(&known, &Vec::new(), "p", text("yes")),
        words(&["--profile", "p", "--region", "r", "sso", "login", "--no-browser"])
    );
    assert_eq!(
        sso::login_command(&known, &Vec::new(), "", text("no")),
        words(&["--region", "r", "sso", "login"])
    );
    assert_eq!(
        sso::logout_command(&known, "p"),
        words(&["--profile", "p", "--region", "r", "sso", "logout"])
    );
    assert_eq!(
        shown(sso::login_result("p", None).unwrap()),
        "{\"logged_in\":true,\"profile\":\"p\"}\n"
    );
    assert_eq!(
        shown(sso::logout_result("p", None).unwrap()),
        "{\"logged_out\":true,\"profile\":\"p\"}\n"
    );
    assert_eq!(
        sso::login_result("p", Some("1")).unwrap_err().line(),
        "authentication failed: aws sso login failed with status 1"
    );
    assert_eq!(
        sso::logout_result("p", Some("1")).unwrap_err().line(),
        "authentication failed: aws sso logout failed with status 1"
    );
    for value in ["1", "true", "TRUE", "yes", "YES", "on", "ON"] {
        assert!(sso::is_true(value));
    }
    assert!(!sso::is_true("True"));
}

#[test]
fn cached_logins_are_shown() {
    assert_eq!(
        sso::cache_row("f.json", "{\"startUrl\": \"u\", \"region\": 5, \"x\": 1}")
            .unwrap()
            .compact(),
        "{\"cache_file\":\"f.json\",\"client_id\":null,\"expires_at\":null,\"region\":null,\
         \"start_url\":\"u\"}"
    );
    assert_eq!(
        sso::cache_row("f", "[]").unwrap().compact(),
        "{\"cache_file\":\"f\",\"client_id\":null,\"expires_at\":null,\"region\":null,\
         \"start_url\":null}"
    );
    assert!(sso::cache_row("f", "x")
        .unwrap_err()
        .line()
        .starts_with("json error: expected value"));
    assert!(sso::is_cache_file(Some("json")));
    assert!(!sso::is_cache_file(Some("JSON")));
    assert!(!sso::is_cache_file(None));
    assert_eq!(sso::home_variable(true, true).unwrap(), "HOME");
    assert_eq!(sso::home_variable(false, true).unwrap(), "USERPROFILE");
    assert_eq!(
        sso::home_variable(false, false).unwrap_err().line(),
        "cannot locate home directory for AWS SSO cache"
    );
    assert_eq!(sso::cache_path(), words(&[".aws", "sso", "cache"]));
}

#[test]
fn a_role_gives_credentials() {
    let mut known = globals();
    let plan = sts::assume_plan(&known, &words(&["arn"]), 9).unwrap();
    assert_eq!(plan.role_arn, "arn");
    assert_eq!(plan.session_name, "awl-9");
    assert_eq!((plan.duration, plan.format.as_str()), (3600, "env"));
    known.role_session_name = text("g");
    known.mfa_token = text("m");
    let args = words(&["arn", "--duration", "900", "--session-name=s", "--format", "json"]);
    let plan = sts::assume_plan(&known, &args, 9).unwrap();
    assert_eq!((plan.session_name.as_str(), plan.duration), ("s", 900));
    assert_eq!((plan.format.as_str(), plan.token), ("json", text("m")));
    assert!(sts::assume_plan(&known, &Vec::new(), 9).is_err());
    let credentials = Some(sts::Credentials {
        access_key_id: "a".to_owned(),
        secret_access_key: "s".to_owned(),
        session_token: "t".to_owned(),
        expiration: "e".to_owned(),
    });
    assert!(matches!(
        sts::assume_result("env", &credentials).unwrap(),
        Output::Plain(text) if text == "export AWS_ACCESS_KEY_ID=a\nexport AWS_SECRET_ACCESS_KEY=s\n\
            export AWS_SESSION_TOKEN=t\nexport AWS_EXPIRATION=e"
    ));
    assert_eq!(
        shown(sts::assume_result("json", &credentials).unwrap()),
        "{\"access_key_id\":\"a\",\"expiration\":\"e\",\"secret_access_key\":\"s\",\
         \"session_token\":\"t\"}\n"
    );
    let error = sts::assume_result("env", &None).unwrap_err();
    assert_eq!(
        error.line(),
        "authentication failed: AssumeRole returned no credentials"
    );
    assert_eq!(error.exit_code(), 3);
}

#[test]
fn the_caller_is_shown() {
    assert_eq!(
        shown(sts::identity_row(Some("1"), None, Some("u"))),
        "{\"account\":\"1\",\"arn\":null,\"user_id\":\"u\"}\n"
    );
    assert_eq!(sts::decode_plan(&words(&["--m"])).unwrap(), "--m");
    assert_eq!(
        sts::decode_plan(&Vec::new()).unwrap_err().line(),
        "missing required argument <encoded-msg>"
    );
    assert_eq!(
        shown(sts::decode_row(None)),
        "{\"decoded_message\":null}\n"
    );
}

fn event(id: &str, timestamp: i64) -> logs::EventInfo {
    logs::EventInfo {
        id: text(id),
        timestamp: Some(timestamp),
        message: text(id),
        stream: None,
        ingestion_time: None,
    }
}

fn ids(events: &[logs::EventInfo]) -> Vec<&str> {
    events
        .iter()
        .map(|event| event.id.as_deref().unwrap_or("-"))
        .collect()
}

#[test]
fn a_group_is_followed() {
    let args = words(&["/aws/lambda/my-function", "--follow"]);
    assert!(logs::follows(&args));
    assert!(!logs::follows(&words(&["/aws/lambda/my-function"])));
    let plan = logs::event_plan(&args).unwrap();
    assert_eq!(plan.group, "/aws/lambda/my-function");
    assert_eq!(plan.stream, None);

    let mut state = logs::Follow::new();
    assert_eq!((state.start_time(), state.page()), (None, None));
    let turn = state.turn(vec![event("a", 1), event("b", 5)], text("p2"));
    assert_eq!((ids(&turn.events), turn.wait), (vec!["a", "b"], false));
    assert_eq!((state.start_time(), state.page()), (None, text("p2")));
    let turn = state.turn(vec![event("c", 3)], None);
    assert_eq!((ids(&turn.events), turn.wait), (vec!["c"], true));
    assert_eq!((state.start_time(), state.page()), (Some(5), None));
    let turn = state.turn(vec![event("b", 5), event("d", 5), event("d", 5)], None);
    assert_eq!((ids(&turn.events), turn.wait), (vec!["d"], true));
    assert_eq!((state.start_time(), state.page()), (Some(5), None));
    let turn = state.turn(Vec::new(), None);
    assert!(turn.events.is_empty() && turn.wait);
}

#[test]
fn a_stream_is_followed() {
    let unnamed = || logs::EventInfo {
        id: None,
        ..event("", 2)
    };
    let mut state = logs::Follow::new();
    let turn = state.turn(vec![unnamed(), unnamed()], text("f1"));
    assert_eq!((turn.events.len(), turn.wait), (2, false));
    assert_eq!((state.start_time(), state.page()), (None, text("f1")));
    let turn = state.turn(Vec::new(), text("f1"));
    assert_eq!((turn.events.len(), turn.wait), (0, true));
    let turn = state.turn(vec![unnamed()], text("f2"));
    assert_eq!((turn.events.len(), turn.wait), (1, false));
    assert_eq!((state.start_time(), state.page()), (None, text("f2")));
}
