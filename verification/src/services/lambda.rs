//! Functions.
use vstd::prelude::*;
use vstd::utf8::encode_utf8;

use crate::bytes::{self, base64_bytes, lossy};
use crate::client;
use crate::error::{AwlError, Failure};
use crate::json::{self, Fields, Json, JsonTree};
use crate::output::{self, Output, Shown};
use crate::services::common;
use crate::services::kms;

verus! {

/// What `ls` asks for.
#[derive(Debug)]
pub struct ListPlan {
    pub marker: Option<String>,
    pub max_items: Option<i32>,
}

/// Which functions the arguments list.
pub open spec fn listing_asked(args: Seq<Seq<char>>, r: ListPlan) -> bool {
    &&& r.marker.deep_view() == common::option_of(args, "--marker"@)
    &&& (match r.max_items {
        Some(n) => Some(n as int),
        None => None,
    }) == common::i32_of(args, "--limit"@)
}

/// What `ls` asks for.
pub fn list_plan(args: &[String]) -> (r: ListPlan)
    ensures
        listing_asked(args.deep_view(), r),
{
    ListPlan {
        marker: common::option_value(args, "--marker"),
        max_items: common::option_i32(args, "--limit"),
    }
}

/// A function as the service lists it.
#[derive(Debug)]
pub struct FunctionInfo {
    pub function_name: Option<String>,
    pub function_arn: Option<String>,
    pub runtime: Option<String>,
    pub memory_size: Option<i64>,
    pub timeout: Option<i64>,
    pub last_modified: Option<String>,
    pub version: Option<String>,
    pub state: Option<String>,
}

/// The record of a function.
pub open spec fn function_tree(info: FunctionInfo) -> JsonTree {
    JsonTree::Object(
        map![
            "function_name"@ => json::optional_text(info.function_name.deep_view()),
            "function_arn"@ => json::optional_text(info.function_arn.deep_view()),
            "runtime"@ => json::optional_text(info.runtime.deep_view()),
            "memory_size"@ => json::optional_i64(info.memory_size),
            "timeout"@ => json::optional_i64(info.timeout),
            "last_modified"@ => json::optional_text(info.last_modified.deep_view()),
            "version"@ => json::optional_text(info.version.deep_view()),
            "state"@ => json::optional_text(info.state.deep_view()),
        ],
    )
}

/// The records of the functions.
pub open spec fn functions_shown(functions: Seq<FunctionInfo>) -> Shown {
    Shown::Many(functions.map_values(|info: FunctionInfo| function_tree(info)))
}

/// What is shown of functions.
pub fn function_rows(functions: &Vec<FunctionInfo>) -> (r: Output)
    ensures
        r@ == functions_shown(functions@),
{
    let mut rows: Vec<Json> = Vec::new();
    let mut i: usize = 0;
    while i < functions.len()
        invariant
            i <= functions.len(),
            rows@.len() == i,
            forall|j: int|
                0 <= j < i ==> (#[trigger] rows@[j]).tree() == function_tree(functions@[j]),
        decreases functions.len() - i,
    {
        let info = &functions[i];
        let mut row = Fields::new();
        row.insert("function_name", Json::optional_string(&info.function_name));
        row.insert("function_arn", Json::optional_string(&info.function_arn));
        row.insert("runtime", Json::optional_string(&info.runtime));
        row.insert("memory_size", Json::optional_signed(info.memory_size));
        row.insert("timeout", Json::optional_signed(info.timeout));
        row.insert("last_modified", Json::optional_string(&info.last_modified));
        row.insert("version", Json::optional_string(&info.version));
        row.insert("state", Json::optional_string(&info.state));
        rows.push(Json::Object(row));
        i += 1;
    }
    assert(json::trees(rows@) =~= functions@.map_values(
        |info: FunctionInfo| function_tree(info),
    ));
    Output::Many(rows)
}

/// Where the payload of a call is.
#[derive(Debug)]
pub enum Payload {
    /// In a file.
    File(String),
    /// Here.
    Inline(Vec<u8>),
}

/// A call of a function.
#[derive(Debug)]
pub struct InvokePlan {
    pub function: String,
    pub payload: Payload,
    pub invocation_type: String,
    pub log_type: String,
    pub qualifier: Option<String>,
}

/// What the arguments ask to be invoked, and how.
pub open spec fn invocation_asked(args: Seq<Seq<char>>, r: Result<InvokePlan, AwlError>) -> bool {
    let words = common::positionals(args);
    match r {
        Ok(plan) => {
            &&& common::required_at(words, 0, "function"@) == Ok::<Seq<char>, Failure>(
                plan.function@,
            )
            &&& match plan.payload {
                Payload::File(path) => common::option_of(args, "--payload-file"@) == Some(
                    path@,
                ),
                Payload::Inline(bytes) => {
                    &&& common::option_of(args, "--payload-file"@) is None
                    &&& bytes@ == encode_utf8(
                        client::or_text(common::word_at(words, 1), "{}"@),
                    )
                },
            }
            &&& plan.invocation_type@ == client::or_text(
                client::first_of(
                    common::option_of(args, "--type"@),
                    common::option_of(args, "--invocation-type"@),
                ),
                "RequestResponse"@,
            )
            &&& plan.log_type@ == (if args.contains("--tail"@) {
                "Tail"@
            } else {
                client::or_text(common::option_of(args, "--log-type"@), "None"@)
            })
            &&& plan.qualifier.deep_view() == common::option_of(args, "--qualifier"@)
        },
        Err(error) => common::required_at(words, 0, "function"@) == Err::<
            Seq<char>,
            Failure,
        >(error@),
    }
}

/// The call that `invoke` makes. Its payload is the file that `--payload-file`
/// names, or else the second positional argument, or else an empty object.
pub fn invoke_plan(args: &[String]) -> (r: Result<InvokePlan, AwlError>)
    ensures
        invocation_asked(args.deep_view(), r),
{
    let words = common::positional(args);
    let function = match common::required(words.as_slice(), 0, "function") {
        Ok(function) => function,
        Err(error) => return Err(error),
    };
    let payload = match common::option_value(args, "--payload-file") {
        Some(path) => Payload::File(path),
        None => {
            let body = client::text_or(common::word(words.as_slice(), 1), "{}");
            Payload::Inline(kms::text_bytes(body.as_str()))
        },
    };
    let invocation_type = client::text_or(
        client::first_text(
            common::option_value(args, "--type"),
            common::option_value(args, "--invocation-type"),
        ),
        "RequestResponse",
    );
    let log_type = if common::has_flag(args, "--tail") {
        "Tail".to_owned()
    } else {
        client::text_or(common::option_value(args, "--log-type"), "None")
    };
    Ok(
        InvokePlan {
            function,
            payload,
            invocation_type,
            log_type,
            qualifier: common::option_value(args, "--qualifier"),
        },
    )
}

/// What a call gave back.
#[derive(Debug)]
pub struct InvokeReply {
    pub status_code: i32,
    pub executed_version: Option<String>,
    pub function_error: Option<String>,
    pub log_result: Option<String>,
    pub payload: Option<Vec<u8>>,
}

/// The log of a call, where it was given in base64.
pub open spec fn log_tree(log_result: Option<Seq<char>>) -> JsonTree {
    match log_result {
        None => JsonTree::Null,
        Some(s) => match base64_bytes(s) {
            Ok(bytes) => JsonTree::Text(lossy(bytes)),
            Err(_) => JsonTree::Null,
        },
    }
}

/// The payload of a reply: the JSON value that it writes, or else its text.
pub open spec fn payload_tree(payload: Option<Vec<u8>>) -> JsonTree {
    match payload {
        None => JsonTree::Null,
        Some(bytes) => match json::json_parsed_bytes(bytes@) {
            Ok(tree) => tree,
            Err(_) => JsonTree::Text(lossy(bytes@)),
        },
    }
}

/// The record of a call with this log and this payload.
pub open spec fn reply_tree(reply: InvokeReply, log: JsonTree, payload: JsonTree) -> JsonTree {
    JsonTree::Object(
        map![
            "status_code"@ => json::whole(reply.status_code as int),
            "executed_version"@ => json::optional_text(reply.executed_version.deep_view()),
            "function_error"@ => json::optional_text(reply.function_error.deep_view()),
            "log_result"@ => log,
            "payload"@ => payload,
        ],
    )
}

/// What is shown of a call with this log and this payload.
pub fn reply_row(reply: &InvokeReply, log: Json, payload: Json) -> (r: Output)
    ensures
        r@ == Shown::One(reply_tree(*reply, log.tree(), payload.tree())),
{
    let mut row = Fields::new();
    row.insert("status_code", Json::signed(reply.status_code as i64));
    row.insert("executed_version", Json::optional_string(&reply.executed_version));
    row.insert("function_error", Json::optional_string(&reply.function_error));
    row.insert("log_result", log);
    row.insert("payload", payload);
    Output::One(Json::Object(row))
}

/// What is shown of a call.
pub fn invoke_row(reply: &InvokeReply) -> (r: Output)
    ensures
        r@ == Shown::One(
            reply_tree(
                *reply,
                log_tree(reply.log_result.deep_view()),
                payload_tree(reply.payload),
            ),
        ),
{
    let payload = match &reply.payload {
        None => Json::Null,
        Some(body) => match json::parse_bytes(body.as_slice()) {
            Ok(value) => value,
            Err(_) => Json::Text(bytes::lossy_text(body.as_slice())),
        },
    };
    let log = match &reply.log_result {
        None => Json::Null,
        Some(s) => match bytes::base64_decode(s.as_str()) {
            Ok(decoded) => Json::Text(bytes::lossy_text(decoded.as_slice())),
            Err(_) => Json::Null,
        },
    };
    reply_row(reply, log, payload)
}

/// The events of a log that are asked for.
#[derive(Debug)]
pub struct LogPlan {
    pub group: String,
    pub limit: Option<i32>,
    pub pattern: Option<String>,
}

/// Whose log the arguments ask for, and how much of it.
pub open spec fn log_asked(args: Seq<Seq<char>>, r: Result<LogPlan, AwlError>) -> bool {
    match r {
        Ok(plan) => {
            &&& common::required_at(common::positionals(args), 0, "function"@) matches Ok(
                function,
            )
            &&& plan.group@ == "/aws/lambda/"@ + function
            &&& (match plan.limit {
                Some(n) => Some(n as int),
                None => None,
            }) == common::i32_of(args, "--limit"@)
            &&& plan.pattern.deep_view() == common::option_of(args, "--filter"@)
        },
        Err(error) => common::required_at(common::positionals(args), 0, "function"@) == Err::<
            Seq<char>,
            Failure,
        >(error@),
    }
}

/// The events that `logs` asks for: those of the function's log group.
pub fn log_plan(args: &[String]) -> (r: Result<LogPlan, AwlError>)
    ensures
        log_asked(args.deep_view(), r),
{
    let words = common::positional(args);
    match common::required(words.as_slice(), 0, "function") {
        Err(error) => Err(error),
        Ok(function) => Ok(
            LogPlan {
                group: "/aws/lambda/".to_owned().concat(function.as_str()),
                limit: common::option_i32(args, "--limit"),
                pattern: common::option_value(args, "--filter"),
            },
        ),
    }
}

/// What a call gave back is shown as the JSON that it is, and otherwise as text;
/// its log is shown as the text that was encoded.
pub proof fn law_reply_is_shown_as_it_is(bytes: Vec<u8>, log: Seq<char>)
    ensures
        json::json_parsed_bytes(bytes@) matches Ok(tree) ==> payload_tree(Some(bytes)) == tree,
        json::json_parsed_bytes(bytes@) is Err ==> payload_tree(Some(bytes)) == JsonTree::Text(
            lossy(bytes@),
        ),
        payload_tree(None) is Null,
        base64_bytes(log) matches Ok(decoded) ==> log_tree(Some(log)) == JsonTree::Text(
            lossy(decoded),
        ),
        base64_bytes(log) is Err ==> log_tree(Some(log)) is Null,
        log_tree(None) is Null,
{
}

/// The record of a call shows its status, its version, its error, its log and what
/// it gave back.
pub proof fn law_reply_row_shows_it(reply: InvokeReply, log: JsonTree, payload: JsonTree)
    ensures
        output::shows(
            reply_tree(reply, log, payload),
            "status_code"@,
            crate::number::signed_decimal(reply.status_code as int),
        ),
        output::shows(
            reply_tree(reply, log, payload),
            "executed_version"@,
            output::written_text(reply.executed_version.deep_view()),
        ),
        output::shows(
            reply_tree(reply, log, payload),
            "function_error"@,
            output::written_text(reply.function_error.deep_view()),
        ),
        output::shows(reply_tree(reply, log, payload), "log_result"@, output::plain(log)),
        output::shows(reply_tree(reply, log, payload), "payload"@, output::plain(payload)),
{
    reveal_strlit("status_code");
    reveal_strlit("executed_version");
    reveal_strlit("function_error");
    reveal_strlit("log_result");
    reveal_strlit("payload");
    assert("status_code"@.len() == 11);
    assert("executed_version"@.len() == 16);
    assert("function_error"@.len() == 14);
    assert("log_result"@.len() == 10);
    assert("payload"@.len() == 7);
    let fields = reply_tree(reply, log, payload)->Object_0;
    output::lemma_shows(fields, "status_code"@);
    output::lemma_shows(fields, "executed_version"@);
    output::lemma_shows(fields, "function_error"@);
    output::lemma_shows(fields, "log_result"@);
    output::lemma_shows(fields, "payload"@);
}

/// The row of a function shows each thing that is known of it.
pub proof fn law_function_row_shows_it(info: FunctionInfo)
    ensures
        output::shows(
            function_tree(info),
            "function_name"@,
            output::written_text(info.function_name.deep_view()),
        ),
        output::shows(
            function_tree(info),
            "function_arn"@,
            output::written_text(info.function_arn.deep_view()),
        ),
        output::shows(
            function_tree(info),
            "runtime"@,
            output::written_text(info.runtime.deep_view()),
        ),
        output::shows(
            function_tree(info),
            "memory_size"@,
            output::written_number(info.memory_size),
        ),
        output::shows(function_tree(info), "timeout"@, output::written_number(info.timeout)),
        output::shows(
            function_tree(info),
            "last_modified"@,
            output::written_text(info.last_modified.deep_view()),
        ),
        output::shows(
            function_tree(info),
            "version"@,
            output::written_text(info.version.deep_view()),
        ),
        output::shows(function_tree(info), "state"@, output::written_text(info.state.deep_view())),
{
    reveal_strlit("function_name");
    reveal_strlit("function_arn");
    reveal_strlit("runtime");
    reveal_strlit("memory_size");
    reveal_strlit("timeout");
    reveal_strlit("last_modified");
    reveal_strlit("version");
    reveal_strlit("state");
    assert("function_name"@.len() == 13);
    assert("function_arn"@.len() == 12);
    assert("runtime"@.len() == 7);
    assert("memory_size"@.len() == 11);
    assert("timeout"@.len() == 7);
    assert("last_modified"@.len() == 13);
    assert("version"@.len() == 7);
    assert("state"@.len() == 5);
    assert("function_name"@[0] != "last_modified"@[0]);
    assert("runtime"@[0] != "timeout"@[0]);
    assert("runtime"@[0] != "version"@[0]);
    assert("timeout"@[0] != "version"@[0]);
    let fields = function_tree(info)->Object_0;
    output::lemma_shows(fields, "function_name"@);
    output::lemma_shows(fields, "function_arn"@);
    output::lemma_shows(fields, "runtime"@);
    output::lemma_shows(fields, "memory_size"@);
    output::lemma_shows(fields, "timeout"@);
    output::lemma_shows(fields, "last_modified"@);
    output::lemma_shows(fields, "version"@);
    output::lemma_shows(fields, "state"@);
}

/// The first word is invoked, with the second word as what it is sent, unless an
/// option names a file; each option says what it is named for, and a flag asks for
/// the end of the log.
pub proof fn law_invocation_is_as_asked(
    words: Seq<Seq<char>>,
    value: Seq<char>,
    r: Result<InvokePlan, AwlError>,
)
    requires
        common::are_words(words),
        words.len() > 0,
        !common::is_option(value),
    ensures
        invocation_asked(words, r) ==> (r matches Ok(plan) && plan.function@ == words[0] && plan.qualifier is None && plan.invocation_type@ == "RequestResponse"@ && plan.log_type@
            == "None"@),
        invocation_asked(words, r) ==> (r matches Ok(plan) && plan.function@ == words[0] && (plan.payload matches Payload::Inline(bytes) && bytes@ == encode_utf8(
            if words.len() > 1 {
                words[1]
            } else {
                "{}"@
            },
        ))),
        invocation_asked(words.push("--payload-file"@).push(value), r) ==> (r matches Ok(plan)
            && plan.function@ == words[0] && (plan.payload matches Payload::File(path)
            && path@ == value)),
        invocation_asked(words.push("--qualifier"@).push(value), r) ==> (r matches Ok(plan)
            && plan.function@ == words[0] && plan.qualifier.deep_view() == Some(value)),
        invocation_asked(words.push("--type"@).push(value), r) ==> (r matches Ok(plan)
            && plan.function@ == words[0] && plan.invocation_type@ == value),
        invocation_asked(words.push("--invocation-type"@).push(value), r)
            ==> (r matches Ok(plan) && plan.function@ == words[0]
            && plan.invocation_type@ == value),
        invocation_asked(words.push("--log-type"@).push(value), r) ==> (r matches Ok(plan)
            && plan.function@ == words[0] && plan.log_type@ == value),
        invocation_asked(words.push("--tail"@), r) ==> (r matches Ok(plan)
            && plan.function@ == words[0] && plan.log_type@ == "Tail"@),
{
    reveal_strlit("--payload-file");
    reveal_strlit("--qualifier");
    reveal_strlit("--type");
    reveal_strlit("--invocation-type");
    reveal_strlit("--log-type");
    reveal_strlit("--tail");
    assert("--payload-file"@.len() == 14);
    assert("--qualifier"@.len() == 11);
    assert("--type"@.len() == 6);
    assert("--invocation-type"@.len() == 17);
    assert("--log-type"@.len() == 10);
    assert("--tail"@.len() == 6);
    assert("--type"@[3] != "--tail"@[3]);
    common::law_options_take_values();
    common::law_flags_take_no_value();
    common::law_words_give_no_option(words);
    common::law_option_among_words(words, "--payload-file"@, value);
    common::law_option_among_words(words, "--qualifier"@, value);
    common::law_option_among_words(words, "--type"@, value);
    common::law_option_among_words(words, "--invocation-type"@, value);
    common::law_option_among_words(words, "--log-type"@, value);
    common::law_flag_among_words(words, "--tail"@);
}

/// Without a word there is nothing to invoke and no log to read.
pub proof fn law_function_is_needed(r: Result<InvokePlan, AwlError>, s: Result<LogPlan, AwlError>)
    ensures
        invocation_asked(Seq::empty(), r) ==> (r matches Err(error) && error@ is Usage),
        log_asked(Seq::empty(), s) ==> (s matches Err(error) && error@ is Usage),
{
    common::law_words_give_no_option(Seq::empty());
}

/// The log is that of the function that the first word names, limited and searched
/// as the options say.
pub proof fn law_log_is_that_of_the_function(
    words: Seq<Seq<char>>,
    value: Seq<char>,
    n: i32,
    r: Result<LogPlan, AwlError>,
)
    requires
        common::are_words(words),
        words.len() > 0,
        !common::is_option(value),
    ensures
        log_asked(words, r) ==> (r matches Ok(plan)
            && plan.group@ == "/aws/lambda/"@ + words[0] && plan.limit is None
            && plan.pattern is None),
        log_asked(words.push("--filter"@).push(value), r) ==> (r matches Ok(plan)
            && plan.group@ == "/aws/lambda/"@ + words[0]
            && plan.pattern.deep_view() == Some(value) && plan.limit is None),
        value == crate::number::signed_decimal(n as int)
            && log_asked(words.push("--limit"@).push(value), r) ==> (r matches Ok(plan)
            && plan.group@ == "/aws/lambda/"@ + words[0] && plan.limit == Some(n)
            && plan.pattern is None),
{
    reveal_strlit("--filter");
    reveal_strlit("--limit");
    assert("--filter"@.len() == 8);
    assert("--limit"@.len() == 7);
    common::law_options_take_values();
    common::law_words_give_no_option(words);
    common::law_option_among_words(words, "--filter"@, value);
    common::law_option_among_words(words, "--limit"@, value);
    if value == crate::number::signed_decimal(n as int) {
        common::law_number_option_is_read_back(words.push("--limit"@).push(value), "--limit"@, n as int);
    }
}

/// Functions are listed from the marker of the option, and as many as the other says.
pub proof fn law_functions_are_listed_as_asked(
    words: Seq<Seq<char>>,
    value: Seq<char>,
    n: i32,
    r: ListPlan,
)
    requires
        common::are_words(words),
        !common::is_option(value),
    ensures
        listing_asked(words, r) ==> r.marker is None && r.max_items is None,
        listing_asked(words.push("--marker"@).push(value), r)
            ==> r.marker.deep_view() == Some(value) && r.max_items is None,
        value == crate::number::signed_decimal(n as int)
            && listing_asked(words.push("--limit"@).push(value), r) ==> r.marker is None
            && r.max_items == Some(n),
{
    reveal_strlit("--marker");
    reveal_strlit("--limit");
    assert("--marker"@.len() == 8);
    assert("--limit"@.len() == 7);
    common::law_options_take_values();
    common::law_words_give_no_option(words);
    common::law_option_among_words(words, "--marker"@, value);
    common::law_option_among_words(words, "--limit"@, value);
    if value == crate::number::signed_decimal(n as int) {
        common::law_number_option_is_read_back(words.push("--limit"@).push(value), "--limit"@, n as int);
    }
}

/// There is a record for each of the functions, in order.
pub proof fn law_function_rows_are_all_shown(functions: Seq<FunctionInfo>, i: int)
    requires
        0 <= i < functions.len(),
    ensures
        functions_shown(functions) matches Shown::Many(rows) && rows.len() == functions.len() && rows[i]
            == function_tree(functions[i]),
{
}

} // verus!
