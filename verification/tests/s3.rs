use awl::cli::{
    Globals, OutputFormat, PresignMethod, S3CommonArgs, S3GetArgs, S3LsArgs, S3PresignArgs,
    S3PutArgs, S3RmArgs, S3SyncArgs,
};
use awl::output::{emit, Output};
use awl::services::s3::{
    bucket_rows, build_glob_set, copy_plan, copy_row, copy_source, deliver, destination_for, du_row,
    get_destination, get_row, head_row, join_key, keys_to_delete, list_plan, normalized_prefix, object_keys,
    object_rows, parse_duration, parse_location, parse_s3_uri, path_to_key, presign_plan,
    presign_row, put_plan, put_row, rm_plan, rm_rows, strip_prefix_key, take_page, total_bytes,
    Delivery, Destination, ListPlan, ListedEntry, ListedObject, Location, ObjectHead, PageStep, PathFilter,
    RmPlan, Route, S3Uri, SyncRun,
};

fn words(values: &[&str]) -> Vec<String> {
    values.iter().map(|value| (*value).to_owned()).collect()
}

fn text(value: &str) -> Option<String> {
    Some(value.to_owned())
}

fn common() -> S3CommonArgs {
    S3CommonArgs { path_style: false }
}

fn shown(output: Output) -> String {
    let globals = Globals {
        profile: None,
        region: None,
        endpoint_url: None,
        output: Some(OutputFormat::Jsonl),
        field: None,
        no_color: false,
        quiet: false,
        verbose: 0,
        role_arn: None,
        role_session_name: None,
        mfa_token: None,
        retry_mode: None,
        max_attempts: None,
    };
    emit(&globals, false, output).unwrap()
}

fn uri(bucket: &str, key: &str) -> S3Uri {
    S3Uri {
        bucket: bucket.to_owned(),
        key: key.to_owned(),
    }
}

fn sync_args(src: &str, dst: &str) -> S3SyncArgs {
    S3SyncArgs {
        common: common(),
        src: src.to_owned(),
        dst: dst.to_owned(),
        delete: false,
        exclude: Vec::new(),
        include_only: Vec::new(),
        dry_run: false,
        concurrency: 32,
        part_size: 8388608,
        fail_fast: false,
    }
}

#[test]
fn a_uri_names_a_bucket_and_a_key() {
    let parsed = parse_s3_uri("s3://bucket/a/b").unwrap();
    assert_eq!((parsed.bucket.as_str(), parsed.key.as_str()), ("bucket", "a/b"));
    let parsed = parse_s3_uri("s3://bucket").unwrap();
    assert_eq!((parsed.bucket.as_str(), parsed.key.as_str()), ("bucket", ""));
    let parsed = parse_s3_uri("s3://bucket//x").unwrap();
    assert_eq!(parsed.key, "/x");
}

#[test]
fn a_text_that_is_no_uri_is_an_error() {
    assert_eq!(
        parse_s3_uri("http://\"x\"").unwrap_err().line(),
        "expected s3:// URI, got \"http://\\\"x\\\"\""
    );
    let error = parse_s3_uri("s3:///key").unwrap_err();
    assert_eq!(error.line(), "S3 URI is missing bucket");
    assert_eq!(error.exit_code(), 2);
}

#[test]
fn a_location_is_a_bucket_or_a_path() {
    assert!(matches!(parse_location("s3://b/k"), Location::S3(uri) if uri.key == "k"));
    assert!(matches!(parse_location("s3:///k"), Location::Local(path) if path == "s3:///k"));
    assert!(matches!(parse_location("./dir"), Location::Local(path) if path == "./dir"));
}

#[test]
fn keys_are_joined_and_stripped() {
    assert_eq!(normalized_prefix("//a/b/"), "a/b/");
    assert_eq!(join_key("/p/", "/k"), "p/k");
    assert_eq!(join_key("", "k"), "k");
    assert_eq!(join_key("p", "/"), "p");
    assert_eq!(strip_prefix_key("p/", "p/k"), "k");
    assert_eq!(strip_prefix_key("p", "px/k"), "px/k");
    assert_eq!(strip_prefix_key("", "/k"), "/k");
    for (prefix, key) in [("a/b/", "c"), ("", "x/y"), ("/q", "q/r")] {
        assert_eq!(strip_prefix_key(prefix, &join_key(prefix, key)), key);
    }
    assert_eq!(
        path_to_key(&vec![text("a"), None, text("b.txt")]),
        "a/b.txt"
    );
}

#[test]
fn durations_have_units() {
    for (value, seconds) in [
        ("90", 90),
        ("90s", 90),
        ("2m", 120),
        ("1h", 3600),
        ("+3d", 259200),
        ("9999999999999999d", u64::MAX),
    ] {
        assert_eq!(parse_duration(value).unwrap(), seconds);
    }
    for (value, line) in [
        ("", "invalid duration \"\": cannot parse integer from empty string"),
        ("h", "invalid duration \"h\": cannot parse integer from empty string"),
        ("-1s", "invalid duration \"-1s\": invalid digit found in string"),
        (
            "18446744073709551616",
            "invalid duration \"18446744073709551616\": number too large to fit in target type",
        ),
    ] {
        let error = parse_duration(value).unwrap_err();
        assert_eq!(error.line(), line);
        assert_eq!(error.exit_code(), 2);
    }
}

#[test]
fn a_filter_takes_what_is_included_and_not_excluded() {
    let filter = PathFilter::new(&words(&["*.txt", "a/**"]), &words(&["**/tmp*"])).unwrap();
    assert!(filter.matches("x.txt"));
    assert!(filter.matches("d/x.txt"));
    assert!(filter.matches("a/b.png"));
    assert!(!filter.matches("b.png"));
    assert!(!filter.matches("a/tmp.txt"));
    let all = PathFilter::new(&Vec::new(), &Vec::new()).unwrap();
    assert!(all.matches("anything/at all"));
    let rest = PathFilter::new(&Vec::new(), &words(&["?"])).unwrap();
    assert!(!rest.matches("a"));
    assert!(rest.matches("ab"));
}

#[test]
fn a_pattern_that_is_no_glob_is_named() {
    assert!(build_glob_set(&Vec::new()).unwrap().is_none());
    assert!(build_glob_set(&words(&["a*"])).unwrap().is_some());
    let error = build_glob_set(&words(&["a*", "{x", "[z"])).unwrap_err();
    assert!(error.line().starts_with("invalid glob \"{x\": error parsing glob '{x'"));
    assert_eq!(error.exit_code(), 2);
}

#[test]
fn a_listing_asks_for_buckets_or_objects() {
    let mut args = S3LsArgs {
        common: common(),
        uri: None,
        recursive: false,
        human: false,
        long: false,
    };
    assert!(matches!(list_plan(&args).unwrap(), ListPlan::Buckets));
    args.uri = text("s3://b//p/");
    assert!(matches!(
        list_plan(&args).unwrap(),
        ListPlan::Objects { bucket, prefix, grouped: true } if bucket == "b" && prefix == "p/"
    ));
    args.recursive = true;
    assert!(matches!(
        list_plan(&args).unwrap(),
        ListPlan::Objects { grouped: false, .. }
    ));
    args.uri = text("b");
    assert_eq!(list_plan(&args).unwrap_err().exit_code(), 2);
}

#[test]
fn a_listing_is_shown() {
    assert_eq!(
        shown(bucket_rows(&vec![text("a"), None, text("b")])),
        "{\"bucket\":\"a\"}\n{\"bucket\":\"b\"}\n"
    );
    let entries = vec![
        ListedEntry {
            key: text("k"),
            size: Some(5),
            last_modified: text("then"),
            etag: None,
        },
        ListedEntry {
            key: None,
            size: None,
            last_modified: None,
            etag: text("e"),
        },
    ];
    assert_eq!(
        shown(object_rows("b", &vec![text("p/"), None], &entries)),
        "{\"bucket\":\"b\",\"prefix\":\"p/\"}\n\
         {\"bucket\":\"b\",\"etag\":null,\"key\":\"k\",\"last_modified\":\"then\",\"size\":5}\n\
         {\"bucket\":\"b\",\"etag\":\"e\",\"key\":\"\",\"last_modified\":null,\"size\":0}\n"
    );
}

#[test]
fn a_download_goes_to_a_file_or_to_standard_output() {
    let mut args = S3GetArgs {
        common: common(),
        uri: "s3://b/d/k.txt".to_owned(),
        dest: None,
    };
    let source = parse_s3_uri(&args.uri).unwrap();
    assert!(matches!(
        get_destination(&args, &source).unwrap(),
        Destination::File(path) if path == "k.txt"
    ));
    let error = get_destination(&args, &uri("b", "..")).unwrap_err();
    assert_eq!(error.line(), "cannot infer destination filename from S3 key");
    args.dest = text("-");
    assert!(matches!(
        get_destination(&args, &source).unwrap(),
        Destination::Stdout
    ));
    args.dest = text("out/x");
    assert!(matches!(
        get_destination(&args, &source).unwrap(),
        Destination::File(path) if path == "out/x"
    ));
    assert_eq!(destination_for(&None, None).unwrap_err().exit_code(), 2);
    assert_eq!(
        shown(get_row(&source, "out/x", 12)),
        "{\"action\":\"get\",\"bytes\":12,\"destination\":\"out/x\",\"dry_run\":false,\
         \"source\":\"s3://b/d/k.txt\"}\n"
    );
}

#[test]
fn an_upload_has_metadata_where_it_is_given() {
    let mut args = S3PutArgs {
        common: common(),
        src: "f".to_owned(),
        uri: "s3://b/k".to_owned(),
        content_type: text("text/plain"),
        metadata: Vec::new(),
        acl: None,
        storage_class: text("STANDARD"),
    };
    let plan = put_plan(&args).unwrap();
    assert!(plan.metadata.is_none());
    assert_eq!(plan.content_type, text("text/plain"));
    assert_eq!(plan.storage_class, text("STANDARD"));
    assert_eq!(plan.acl, None);
    args.metadata = vec![
        ("a".to_owned(), "1".to_owned()),
        ("a".to_owned(), "2".to_owned()),
    ];
    let metadata = put_plan(&args).unwrap().metadata.unwrap();
    assert_eq!(metadata.len(), 1);
    assert_eq!(metadata.get("a").unwrap().compact(), "\"2\"");
    assert_eq!(
        shown(put_row("f", &plan.uri, 3, Some("\"tag\""))),
        "{\"action\":\"put\",\"bytes\":3,\"destination\":\"s3://b/k\",\"etag\":\"\\\"tag\\\"\",\
         \"source\":\"f\"}\n"
    );
    args.uri = "k".to_owned();
    assert!(put_plan(&args).is_err());
}

#[test]
fn a_removal_is_of_one_key_or_of_a_prefix() {
    let mut args = S3RmArgs {
        common: common(),
        uri: "s3://b//k".to_owned(),
        recursive: false,
        dry_run: true,
    };
    assert!(matches!(
        rm_plan(&args).unwrap(),
        RmPlan::One { bucket, key } if bucket == "b" && key == "/k"
    ));
    args.recursive = true;
    assert!(matches!(
        rm_plan(&args).unwrap(),
        RmPlan::Listed { bucket, prefix } if bucket == "b" && prefix == "k"
    ));
    assert_eq!(
        shown(rm_rows("b", &words(&["x", "y"]), true)),
        "{\"action\":\"rm\",\"bytes\":null,\"destination\":null,\"dry_run\":true,\
         \"source\":\"s3://b/x\"}\n\
         {\"action\":\"rm\",\"bytes\":null,\"destination\":null,\"dry_run\":true,\
         \"source\":\"s3://b/y\"}\n"
    );
}

#[test]
fn a_copy_names_its_source() {
    let plan = copy_plan("s3://a/x", "s3://b/y").unwrap();
    assert_eq!(plan.copy_source, "a/x");
    assert_eq!(copy_source("a", "x/y"), "a/x/y");
    assert_eq!(
        shown(copy_row(&plan)),
        "{\"action\":\"cp\",\"bytes\":null,\"destination\":\"s3://b/y\",\"dry_run\":false,\
         \"source\":\"s3://a/x\"}\n"
    );
    assert_eq!(
        copy_plan("1", "2").unwrap_err().line(),
        "expected s3:// URI, got \"1\""
    );
    assert_eq!(
        copy_plan("s3://a/x", "2").unwrap_err().line(),
        "expected s3:// URI, got \"2\""
    );
}

#[test]
fn a_url_is_signed_for_a_week_at_most() {
    let mut args = S3PresignArgs {
        common: common(),
        uri: "s3://b/k".to_owned(),
        expires: "7d".to_owned(),
        method: PresignMethod::Put,
    };
    let plan = presign_plan(&args).unwrap();
    assert_eq!(plan.config.expires().as_secs(), 604800);
    assert_eq!(plan.uri.key, "k");
    assert_eq!(plan.method, PresignMethod::Put);
    args.expires = "604801".to_owned();
    let error = presign_plan(&args).unwrap_err();
    assert_eq!(error.line(), "`expires_in` must be no longer than one week");
    assert_eq!(error.exit_code(), 2);
    args.expires = "x".to_owned();
    assert!(presign_plan(&args).is_err());
    assert_eq!(
        shown(presign_row("http://u", PresignMethod::Get)),
        "{\"method\":\"GET\",\"url\":\"http://u\"}\n"
    );
}

#[test]
fn a_listing_is_read_page_by_page() {
    let entry = |key: Option<&str>, size| ListedEntry {
        key: key.map(str::to_owned),
        size,
        last_modified: None,
        etag: None,
    };
    let mut objects = Vec::new();
    let page = vec![entry(Some("a"), Some(3)), entry(None, Some(9)), entry(Some("b"), None)];
    assert!(matches!(
        take_page(&mut objects, &page, Some(true), text("t")),
        PageStep::Continue(Some(token)) if token == "t"
    ));
    assert!(matches!(
        take_page(&mut objects, &vec![entry(Some("c"), Some(-4))], None, text("t")),
        PageStep::Done
    ));
    assert_eq!(object_keys(&objects), words(&["a", "b", "c"]));
    assert_eq!(total_bytes(&objects), Some(3));
    assert_eq!(
        shown(du_row(&uri("b", "p"), 3, 3)),
        "{\"bucket\":\"b\",\"bytes\":3,\"objects\":3,\"prefix\":\"p\"}\n"
    );
}

#[test]
fn sizes_that_cannot_be_counted_have_no_sum() {
    let objects: Vec<ListedObject> = (0..3)
        .map(|_| ListedObject {
            key: String::new(),
            size: i64::MAX,
        })
        .collect();
    assert_eq!(total_bytes(&objects), None);
}

#[test]
fn the_head_of_an_object_is_shown() {
    let head = ObjectHead {
        content_length: Some(4),
        content_type: None,
        etag: text("e"),
        metadata: Some(vec![("m".to_owned(), "v".to_owned())]),
    };
    assert_eq!(
        shown(head_row(&uri("b", "k"), &head)),
        "{\"bucket\":\"b\",\"content_length\":4,\"content_type\":null,\"etag\":\"e\",\"key\":\"k\",\
         \"metadata\":{\"m\":\"v\"}}\n"
    );
}

#[test]
fn a_sync_needs_a_bucket() {
    let error = match SyncRun::new(&sync_args("a", "b")) {
        Err(error) => error,
        Ok(_) => panic!("two local ends"),
    };
    assert_eq!(error.line(), "s3 sync requires at least one s3:// location");
    let mut args = sync_args("a", "b");
    args.exclude = words(&["["]);
    let error = match SyncRun::new(&args) {
        Err(error) => error,
        Ok(_) => panic!("no glob"),
    };
    assert!(error.line().starts_with("invalid glob"));
}

#[test]
fn a_sync_uploads_under_the_prefix_and_removes_what_is_stale() {
    let mut args = sync_args("dir", "s3://b/p/");
    args.delete = true;
    args.exclude = words(&["*.tmp"]);
    let (route, mut run) = SyncRun::new(&args).unwrap();
    assert!(matches!(&route, Route::Upload(src, dst) if src == "dir" && dst.bucket == "b"));
    assert!(run.deletes() && run.has_room());
    assert_eq!(run.offer("a.txt"), text("p/a.txt"));
    run.transferred(true);
    assert_eq!(run.offer("b.tmp"), None);
    assert!(!run.review("p/a.txt"));
    assert!(!run.review("p/b.tmp"));
    assert!(run.review("p/old.txt"));
    run.removed();
    assert_eq!(shown(run.finish().unwrap()), "{\"failed\":0,\"succeeded\":2}\n");
}

#[test]
fn a_dry_sync_does_nothing_and_counts() {
    let mut args = sync_args("s3://a/from", "out");
    args.delete = true;
    args.dry_run = true;
    let (route, mut run) = SyncRun::new(&args).unwrap();
    assert!(matches!(&route, Route::Download(src, dst) if src.key == "from" && dst == "out"));
    assert_eq!(run.relative("from/x"), "x");
    assert_eq!(run.offer("from/x"), None);
    assert!(!run.review("x"));
    assert!(!run.review("y"));
    assert_eq!(shown(run.finish().unwrap()), "{\"failed\":0,\"succeeded\":2}\n");
}

#[test]
fn a_failed_sync_says_how_many_failed() {
    let mut args = sync_args("s3://a/from", "s3://b/to");
    args.fail_fast = true;
    let (route, mut run) = SyncRun::new(&args).unwrap();
    assert!(matches!(route, Route::Copy(_, _)));
    assert_eq!(run.offer("from/x"), text("to/x"));
    run.transferred(true);
    assert!(!run.is_stopped());
    assert_eq!(run.offer("from/y"), text("to/y"));
    run.transferred(false);
    assert!(run.is_stopped());
    let error = run.finish().unwrap_err();
    assert_eq!(error.line(), "aws error: 1 succeeded, 1 failed");
    assert_eq!(error.exit_code(), 1);
}

#[test]
fn a_sync_takes_a_filter() {
    let mut args = sync_args("s3://b/src/", "s3://c/dst");
    args.dry_run = true;
    let filter = PathFilter::new(&words(&["*.txt"]), &Vec::new()).unwrap();
    let (route, mut run) = SyncRun::with_filter(&args, filter).unwrap();
    assert!(matches!(route, Route::Copy(src, dst) if src.key == "src/" && dst.bucket == "c"));
    assert!(run.has_room() && !run.is_stopped() && !run.deletes());
    assert_eq!(run.relative("src/a.txt"), "a.txt");
    assert_eq!(run.offer("src/a.txt"), None);

    let filter = PathFilter::new(&Vec::new(), &Vec::new()).unwrap();
    let error = match SyncRun::with_filter(&sync_args("a", "b"), filter) {
        Ok(_) => panic!("two local ends"),
        Err(error) => error,
    };
    assert_eq!(error.line(), "s3 sync requires at least one s3:// location");
}

#[test]
fn what_is_put_comes_back() {
    let put = S3PutArgs {
        common: common(),
        src: "f".to_owned(),
        uri: "s3://b/12:30.bin".to_owned(),
        content_type: None,
        metadata: Vec::new(),
        acl: None,
        storage_class: None,
    };
    let mut get = S3GetArgs {
        common: common(),
        uri: put.uri.clone(),
        dest: None,
    };
    let contents = vec![0u8, 255, 10];
    let plan = put_plan(&put).unwrap();
    let source = parse_s3_uri(&get.uri).unwrap();
    assert_eq!(
        (&plan.uri.bucket, &plan.uri.key),
        (&source.bucket, &source.key)
    );
    assert_eq!(
        shown(put_row(&put.src, &plan.uri, contents.len() as u64, None)),
        "{\"action\":\"put\",\"bytes\":3,\"destination\":\"s3://b/12:30.bin\",\"etag\":null,\
         \"source\":\"f\"}\n"
    );
    match deliver(&source, get_destination(&get, &source).unwrap(), contents.clone()) {
        Delivery::File {
            path,
            contents: came,
            row,
        } => {
            assert_eq!((path.as_str(), &came), ("12:30.bin", &contents));
            assert_eq!(
                shown(row),
                "{\"action\":\"get\",\"bytes\":3,\"destination\":\"12:30.bin\",\
                 \"dry_run\":false,\"source\":\"s3://b/12:30.bin\"}\n"
            );
        }
        other => panic!("{other:?}"),
    }
    get.dest = text("-");
    assert!(matches!(
        deliver(&source, get_destination(&get, &source).unwrap(), contents.clone()),
        Delivery::Stdout(came) if came == contents
    ));
}

#[test]
fn a_sync_keeps_what_is_stale_unless_asked() {
    for dry_run in [false, true] {
        let mut args = sync_args("dir", "s3://b/p/");
        args.dry_run = dry_run;
        let (_, mut run) = SyncRun::new(&args).unwrap();
        assert!(!run.deletes());
        assert!(!run.review("p/old.txt"));
        assert_eq!(shown(run.finish().unwrap()), "{\"failed\":0,\"succeeded\":0}\n");
    }
}

#[test]
fn a_dry_removal_deletes_nothing() {
    let mut args = S3RmArgs {
        common: common(),
        uri: "s3://b/p".to_owned(),
        recursive: true,
        dry_run: true,
    };
    let keys = words(&["p/a", "p/b"]);
    assert!(keys_to_delete(&args, &keys).is_empty());
    args.dry_run = false;
    assert_eq!(keys_to_delete(&args, &keys), keys);
}
