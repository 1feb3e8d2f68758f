use awl::cli::{
    Globals, OutputFormat, SqsLsArgs, SqsQueueArg, SqsReceiveArgs, SqsSendArgs, SqsSubcommand,
    SqsUrlArgs,
};
use awl::output::{emit, Output};
use awl::services::sqs::{
    attributes_from_xml, attributes_row, body_is_read, direct_url, endpoint_for_sqs,
    first_tag_value, message_attributes, message_rows, purge_row, query_request, query_response,
    queue_rows, resolved_url, send_row, tag_values, unescape_xml, url_row, HttpEndpoint,
    MessageRow, QueryAction, QueryRun, QuerySqs, ReceiveAction, ReceiveLoop,
};

fn globals() -> Globals {
    Globals {
        profile: None,
        region: None,
        endpoint_url: None,
        output: Some(OutputFormat::Jsonl),
        field: None,
        no_color: false,
        quiet: false,
        verbose: 0,
        role_arn: None,
        role_session_name: None,
        mfa_token: None,
        retry_mode: None,
        max_attempts: None,
    }
}

fn shown(output: Output) -> String {
    emit(&globals(), false, output).unwrap()
}

fn text(value: &str) -> Option<String> {
    Some(value.to_owned())
}

fn pairs(values: &[(&str, &str)]) -> Vec<(String, String)> {
    values
        .iter()
        .map(|(name, value)| ((*name).to_owned(), (*value).to_owned()))
        .collect()
}

fn send_args(queue: &str, body: &str) -> SqsSendArgs {
    SqsSendArgs {
        queue: queue.to_owned(),
        body: body.to_owned(),
        delay: None,
        attribute: Vec::new(),
        group_id: None,
        dedup_id: None,
    }
}

fn receive_args(delete: bool, follow: bool) -> SqsReceiveArgs {
    SqsReceiveArgs {
        queue: "http://q/1".to_owned(),
        max: 10,
        wait: 0,
        visibility: Some(30),
        delete,
        follow,
    }
}

fn message(id: &str, handle: Option<&str>) -> MessageRow {
    MessageRow {
        queue_url: "u".to_owned(),
        message_id: text(id),
        receipt_handle: handle.map(str::to_owned),
        body: None,
    }
}

fn requested(action: QueryAction) -> Vec<(String, String)> {
    match action {
        QueryAction::Request(params) => params,
        other => panic!("{other:?}"),
    }
}

fn result(action: QueryAction) -> String {
    match action {
        QueryAction::Show(output) => shown(output),
        other => panic!("{other:?}"),
    }
}

#[test]
fn an_endpoint_has_a_host_a_port_and_a_path() {
    let parsed = HttpEndpoint::parse("http://localhost:4100/base/x").unwrap();
    assert_eq!(parsed.host, "localhost");
    assert_eq!(parsed.host_header, "localhost:4100");
    assert_eq!(parsed.port, 4100);
    assert_eq!(parsed.path, "/base/x");
    let parsed = HttpEndpoint::parse("http://host").unwrap();
    assert_eq!((parsed.port, parsed.path.as_str()), (80, ""));
    let parsed = HttpEndpoint::parse("http://[::1]:90/").unwrap();
    assert_eq!((parsed.host.as_str(), parsed.path.as_str()), ("[::1]", "/"));
}

#[test]
fn an_endpoint_that_cannot_be_used_is_an_error() {
    let error = HttpEndpoint::parse("https://h").unwrap_err();
    assert_eq!(
        error.line(),
        "endpoint error: local SQS query adapter only supports http:// endpoints"
    );
    assert_eq!(error.exit_code(), 8);
    let error = HttpEndpoint::parse("http://h:65536").unwrap_err();
    assert_eq!(
        error.line(),
        "endpoint error: invalid SQS endpoint port in \"http://h:65536\": \
         number too large to fit in target type"
    );
    let error = HttpEndpoint::parse("http://h:").unwrap_err();
    assert_eq!(
        error.line(),
        "endpoint error: invalid SQS endpoint port in \"http://h:\": \
         cannot parse integer from empty string"
    );
}

#[test]
fn a_query_is_percent_encoded() {
    let request =
        query_request("http://h:1/p", &pairs(&[("Action", "A b"), ("é&", "~-_.=/")])).unwrap();
    assert_eq!((request.host.as_str(), request.port), ("h", 1));
    assert_eq!(
        request.text,
        "GET /p?Version=2012-11-05&Action=A%20b&%C3%A9%26=~-_.%3D%2F HTTP/1.1\r\n\
         Host: h:1\r\nConnection: close\r\n\r\n"
    );
    let request = QuerySqs::new("http://h".to_owned())
        .request(&Vec::new())
        .unwrap();
    assert_eq!(
        request.text,
        "GET /?Version=2012-11-05 HTTP/1.1\r\nHost: h\r\nConnection: close\r\n\r\n"
    );
}

#[test]
fn different_texts_have_different_queries() {
    let text_of = |value: &str| {
        query_request("http://h", &pairs(&[("A", value)]))
            .unwrap()
            .text
    };
    assert_ne!(text_of("a b"), text_of("a+b"));
    assert_ne!(text_of("%41"), text_of("A"));
    assert!(text_of("%41").contains("A=%2541 "));
}

#[test]
fn a_response_gives_its_body_or_a_refusal() {
    assert_eq!(
        query_response("HTTP/1.1 200 OK\r\nA: b\r\n\r\nbody\r\n\r\nmore").unwrap(),
        "body\r\n\r\nmore"
    );
    let error = query_response("HTTP/1.1 404 Not 200 here\r\n\r\nno").unwrap();
    assert_eq!(error, "no");
    let error = query_response("HTTP/1.1 400 Bad\r\nX: 200 \r\n\r\nno").unwrap_err();
    assert_eq!(error.line(), "aws error: no");
    assert_eq!(error.exit_code(), 1);
    let error = query_response("nothing").unwrap_err();
    assert_eq!(
        error.line(),
        "endpoint error: SQS query response was not valid HTTP"
    );
}

#[test]
fn escapes_are_undone_once() {
    assert_eq!(unescape_xml("&lt;a&gt; &quot;&apos;&amp;"), "<a> \"'&");
    assert_eq!(unescape_xml("&amp;lt;"), "&lt;");
    assert_eq!(unescape_xml("&amp;amp;"), "&amp;");
    assert_eq!(unescape_xml("&unknown;"), "&unknown;");
}

#[test]
fn an_element_is_read_back() {
    let xml = "<R><Body>&lt;b&gt; &amp;amp; &quot;x&quot;</Body><Body>2</Body></R>";
    assert_eq!(
        first_tag_value(xml, "Body"),
        text("<b> &amp; \"x\"")
    );
    assert_eq!(
        first_tag_value("<A>\u{3000} x\n</A>", "A"),
        text("x")
    );
    assert_eq!(first_tag_value("<A>x", "A"), None);
    assert_eq!(first_tag_value("x</A>", "A"), None);
    assert_eq!(
        tag_values("<U>1</U>-<U> 2 </U><U>3", "U"),
        vec!["1".to_owned(), "2".to_owned()]
    );
}

#[test]
fn messages_and_attributes_are_read() {
    let rows = message_rows(
        "u",
        "<Message><MessageId>1</MessageId><Body>b</Body></Message><Message></Message><Message>",
    );
    assert_eq!(rows.len(), 2);
    assert_eq!(rows[0].message_id, text("1"));
    assert_eq!(rows[0].receipt_handle, None);
    assert_eq!(rows[0].body, text("b"));
    assert_eq!(rows[1].message_id, None);
    let attributes = attributes_from_xml(
        "<Attribute><Name>a</Name><Value>1</Value></Attribute>\
         <Attribute><Value>2</Value></Attribute>\
         <Attribute><Name>b</Name></Attribute>\
         <Attribute><Name>a</Name><Value>3</Value></Attribute>",
    );
    assert_eq!(
        shown(attributes_row("u", attributes)),
        "{\"attributes\":{\"a\":\"3\",\"b\":\"\"},\"queue_url\":\"u\"}\n"
    );
}

#[test]
fn a_listing_takes_one_request() {
    let command = SqsSubcommand::Ls(SqsLsArgs { prefix: text("p") });
    let (run, action) = QueryRun::start(&command);
    assert_eq!(
        requested(action),
        pairs(&[("Action", "ListQueues"), ("QueueNamePrefix", "p")])
    );
    let (run, action) = run.next("<QueueUrl>a</QueueUrl><QueueUrl>b</QueueUrl>");
    assert!(matches!(run, QueryRun::Finished));
    assert_eq!(
        result(action),
        "{\"queue_url\":\"a\"}\n{\"queue_url\":\"b\"}\n"
    );
}

#[test]
fn a_message_is_sent_to_a_queue_by_name() {
    let mut args = send_args("name", "hello");
    args.delay = Some(-5);
    args.group_id = text("g");
    args.dedup_id = text("d");
    args.attribute = pairs(&[("k", "v"), ("l", "w")]);
    let command = SqsSubcommand::Send(args);
    let sqs = QuerySqs::new("http://h".to_owned());
    let (run, action) = sqs.run(&command);
    assert_eq!(
        requested(action),
        pairs(&[("Action", "GetQueueUrl"), ("QueueName", "name")])
    );
    let (run, action) = run.next("<QueueUrl>http://q</QueueUrl>");
    assert_eq!(
        requested(action),
        pairs(&[
            ("Action", "SendMessage"),
            ("QueueUrl", "http://q"),
            ("MessageBody", "hello"),
            ("DelaySeconds", "-5"),
            ("MessageGroupId", "g"),
            ("MessageDeduplicationId", "d"),
            ("MessageAttribute.1.Name", "k"),
            ("MessageAttribute.1.Value.DataType", "String"),
            ("MessageAttribute.1.Value.StringValue", "v"),
            ("MessageAttribute.2.Name", "l"),
            ("MessageAttribute.2.Value.DataType", "String"),
            ("MessageAttribute.2.Value.StringValue", "w"),
        ])
    );
    let (_, action) = run.next("<MessageId>7</MessageId><MD5OfMessageBody>m</MD5OfMessageBody>");
    assert_eq!(
        result(action),
        "{\"md5_of_body\":\"m\",\"message_id\":\"7\",\"queue_url\":\"http://q\"}\n"
    );
}

#[test]
fn a_body_can_be_read() {
    let command = SqsSubcommand::Send(send_args("https://q", "-"));
    let (run, action) = QueryRun::start(&command);
    assert!(matches!(action, QueryAction::ReadBody));
    let (_, action) = run.next("from input");
    assert_eq!(requested(action)[2].1, "from input");
    assert!(body_is_read("-"));
    assert!(!body_is_read("--"));
}

#[test]
fn a_queue_that_is_not_found_keeps_its_name() {
    let command = SqsSubcommand::Url(SqsUrlArgs {
        queue_name: "name".to_owned(),
    });
    let (run, _) = QueryRun::start(&command);
    let (_, action) = run.next("<Nothing/>");
    assert_eq!(
        result(action),
        "{\"queue_name\":\"name\",\"queue_url\":\"name\"}\n"
    );
}

#[test]
fn a_queue_is_purged_and_described() {
    let command = SqsSubcommand::Purge(SqsQueueArg {
        queue: "http://q".to_owned(),
    });
    let (run, action) = QueryRun::start(&command);
    assert_eq!(
        requested(action),
        pairs(&[("Action", "PurgeQueue"), ("QueueUrl", "http://q")])
    );
    let (_, action) = run.next("");
    assert_eq!(
        result(action),
        "{\"purged\":true,\"queue_url\":\"http://q\"}\n"
    );
    let command = SqsSubcommand::Attrs(SqsQueueArg {
        queue: "http://q".to_owned(),
    });
    let (run, action) = QueryRun::start(&command);
    assert_eq!(requested(action)[2], ("AttributeName".to_owned(), "All".to_owned()));
    let (_, action) = run.next("<Attribute><Name>n</Name><Value>v</Value></Attribute>");
    assert_eq!(
        result(action),
        "{\"attributes\":{\"n\":\"v\"},\"queue_url\":\"http://q\"}\n"
    );
}

#[test]
fn received_messages_are_deleted_and_shown() {
    let command = SqsSubcommand::Receive(receive_args(true, false));
    let (run, action) = QueryRun::start(&command);
    assert_eq!(
        requested(action),
        pairs(&[
            ("Action", "ReceiveMessage"),
            ("QueueUrl", "http://q/1"),
            ("MaxNumberOfMessages", "10"),
            ("WaitTimeSeconds", "0"),
            ("VisibilityTimeout", "30"),
        ])
    );
    let (run, action) = run.next(
        "<Message><MessageId>1</MessageId></Message>\
         <Message><MessageId>2</MessageId><ReceiptHandle>h2</ReceiptHandle></Message>",
    );
    assert_eq!(
        requested(action),
        pairs(&[
            ("Action", "DeleteMessage"),
            ("QueueUrl", "http://q/1"),
            ("ReceiptHandle", "h2"),
        ])
    );
    let (_, action) = run.next("");
    assert_eq!(
        result(action),
        "{\"body\":null,\"message_id\":\"1\",\"queue_url\":\"http://q/1\",\"receipt_handle\":null}\n\
         {\"body\":null,\"message_id\":\"2\",\"queue_url\":\"http://q/1\",\"receipt_handle\":\"h2\"}\n"
    );
}

#[test]
fn a_batch_is_settled_in_order() {
    let args = receive_args(true, false);
    let mut progress = ReceiveLoop::new(&args, "u".to_owned());
    let batch = vec![message("1", Some("a")), message("2", None), message("3", Some("c"))];
    assert!(matches!(progress.received(batch), ReceiveAction::Delete(handle) if handle == "a"));
    assert!(matches!(progress.deleted(), ReceiveAction::Delete(handle) if handle == "c"));
    match progress.deleted() {
        ReceiveAction::Show(Output::Many(rows)) => assert_eq!(rows.len(), 3),
        other => panic!("{other:?}"),
    }
}

#[test]
fn following_asks_again() {
    let args = receive_args(false, true);
    let mut progress = ReceiveLoop::new(&args, "u".to_owned());
    assert!(matches!(progress.received(Vec::new()), ReceiveAction::Receive));
    assert!(matches!(
        progress.received(vec![message("1", Some("a"))]),
        ReceiveAction::Receive
    ));
    assert_eq!(progress.rows.len(), 1);
    let args = receive_args(true, false);
    let mut progress = ReceiveLoop::new(&args, "u".to_owned());
    assert!(matches!(
        progress.received(Vec::new()),
        ReceiveAction::Show(Output::Many(rows)) if rows.is_empty()
    ));
}

#[test]
fn queues_are_named_by_url_or_looked_up() {
    assert_eq!(direct_url("http://q"), text("http://q"));
    assert_eq!(direct_url("https://q"), text("https://q"));
    assert_eq!(direct_url("ftp://q"), None);
    assert_eq!(resolved_url("q", text("u")).unwrap(), "u");
    let error = resolved_url("q", None).unwrap_err();
    assert_eq!(
        error.line(),
        "not found: queue \"q\" resolved without a queue URL"
    );
    assert_eq!(error.exit_code(), 5);
}

#[test]
fn the_query_interface_is_used_at_an_endpoint() {
    let mut given = globals();
    assert_eq!(endpoint_for_sqs(&given, None, None), None);
    assert_eq!(
        endpoint_for_sqs(&given, text("http://s"), text("http://g")),
        text("http://s")
    );
    given.endpoint_url = text("http://c");
    assert_eq!(
        endpoint_for_sqs(&given, text("http://s"), None),
        text("http://c")
    );
}

#[test]
fn rows_of_queues_are_shown() {
    assert_eq!(
        shown(queue_rows(&vec!["a".to_owned()])),
        "{\"queue_url\":\"a\"}\n"
    );
    assert_eq!(
        shown(send_row("u", &None, &text("m"))),
        "{\"md5_of_body\":\"m\",\"message_id\":null,\"queue_url\":\"u\"}\n"
    );
    assert_eq!(
        shown(purge_row("u")),
        "{\"purged\":true,\"queue_url\":\"u\"}\n"
    );
    assert_eq!(
        shown(url_row("n", "u")),
        "{\"queue_name\":\"n\",\"queue_url\":\"u\"}\n"
    );
    let attributes = message_attributes(&pairs(&[("a", "1"), ("b", "2"), ("a", "3")]));
    assert_eq!(attributes.len(), 2);
    assert_eq!(attributes.get("a").unwrap().compact(), "\"3\"");
}

#[test]
fn a_sent_body_comes_back() {
    let body = "a < b && \"c\" > 'd' &lt; <Body>&amp;</Body>";
    let command = SqsSubcommand::Send(send_args("http://q/1", body));
    let (_, action) = QueryRun::start(&command);
    assert!(requested(action).contains(&("MessageBody".to_owned(), body.to_owned())));

    let escaped = body
        .replace('&', "&amp;")
        .replace('<', "&lt;")
        .replace('>', "&gt;")
        .replace('"', "&quot;")
        .replace('\'', "&apos;");
    let answer = format!(
        "<ReceiveMessageResponse><ReceiveMessageResult>\
         <Message><MessageId>1</MessageId><ReceiptHandle>h1</ReceiptHandle>\
         <MD5OfBody>0</MD5OfBody><Body>first</Body></Message>\
         <Message><MessageId>2</MessageId><ReceiptHandle>h2</ReceiptHandle>\
         <MD5OfBody>0</MD5OfBody><Body>{escaped}</Body></Message>\
         </ReceiveMessageResult></ReceiveMessageResponse>"
    );
    let rows = message_rows("http://q/1", &answer);
    assert_eq!(rows.len(), 2);
    assert_eq!(rows[0].body, text("first"));
    assert_eq!(rows[1].message_id, text("2"));
    assert_eq!(rows[1].receipt_handle, text("h2"));
    assert_eq!(rows[1].body, text(body));

    let command = SqsSubcommand::Receive(receive_args(false, false));
    let (run, _) = QueryRun::start(&command);
    let (_, action) = run.next(&answer);
    match action {
        QueryAction::Show(Output::Many(rows)) => {
            assert!(rows[1].compact().contains("a < b && \\\"c\\\" > 'd' &lt; <Body>&amp;</Body>"));
        }
        other => panic!("{other:?}"),
    }
}

#[test]
fn a_queue_hands_on_what_was_sent() {
    let send = SqsSubcommand::Send(send_args("awl-test", "hello sqs"));
    let (run, action) = QueryRun::start(&send);
    assert_eq!(
        requested(action),
        pairs(&[("Action", "GetQueueUrl"), ("QueueName", "awl-test")])
    );
    let (_, action) = run.next("<QueueUrl>http://q/awl-test</QueueUrl>");
    let params = requested(action);
    assert_eq!(params[2].0, "MessageBody");
    let body = &params[2].1;
    assert_eq!(body, "hello sqs");

    let mut args = receive_args(true, false);
    args.queue = "awl-test".to_owned();
    args.visibility = None;
    let receive = SqsSubcommand::Receive(args);
    let (run, _) = QueryRun::start(&receive);
    let (run, _) = run.next("<QueueUrl>http://q/awl-test</QueueUrl>");
    let (run, action) = run.next(&format!(
        "<Message><MessageId>1</MessageId><ReceiptHandle>h</ReceiptHandle>\
         <Body>{body}</Body></Message>"
    ));
    assert_eq!(
        requested(action),
        pairs(&[
            ("Action", "DeleteMessage"),
            ("QueueUrl", "http://q/awl-test"),
            ("ReceiptHandle", "h"),
        ])
    );
    let (run, action) = run.next("");
    assert!(matches!(run, QueryRun::Finished));
    assert_eq!(
        result(action),
        "{\"body\":\"hello sqs\",\"message_id\":\"1\",\"queue_url\":\"http://q/awl-test\",\
         \"receipt_handle\":\"h\"}\n"
    );
}
