//! Identity and roles.
use vstd::prelude::*;

use crate::cli::Globals;
use crate::client;
use crate::error::{told, AwlError, Failure};
use crate::json::{self, Fields, Json, JsonTree};
use crate::output::{self, Output, Shown};
use crate::services::common;
use crate::text;

verus! {

/// The record of who is asking.
pub open spec fn identity_tree(
    account: Option<Seq<char>>,
    arn: Option<Seq<char>>,
    user_id: Option<Seq<char>>,
) -> JsonTree {
    JsonTree::Object(
        map![
            "account"@ => json::optional_text(account),
            "arn"@ => json::optional_text(arn),
            "user_id"@ => json::optional_text(user_id),
        ],
    )
}

/// What is shown of the caller.
pub fn identity_row(
    account: Option<&str>,
    arn: Option<&str>,
    user_id: Option<&str>,
) -> (r: Output)
    ensures
        r@ == Shown::One(identity_tree(account.deep_view(), arn.deep_view(), user_id.deep_view())),
{
    let mut row = Fields::new();
    row.insert("account", Json::optional_text(account));
    row.insert("arn", Json::optional_text(arn));
    row.insert("user_id", Json::optional_text(user_id));
    Output::One(Json::Object(row))
}

/// The message that `decode` decodes: the first argument, whatever it is.
pub fn decode_plan(args: &[String]) -> (r: Result<String, AwlError>)
    ensures
        told(r) == common::required_at(args.deep_view(), 0, "encoded-msg"@),
{
    common::required(args, 0, "encoded-msg")
}

/// What is shown of a decoded message.
pub fn decode_row(message: Option<&str>) -> (r: Output)
    ensures
        r@ == Shown::One(
            JsonTree::Object(
                map!["decoded_message"@ => json::optional_text(message.deep_view())],
            ),
        ),
{
    let mut row = Fields::new();
    row.insert("decoded_message", Json::optional_text(message));
    Output::One(Json::Object(row))
}

/// A role to be assumed.
#[derive(Debug)]
pub struct AssumePlan {
    pub role_arn: String,
    pub session_name: String,
    pub duration: i32,
    pub token: Option<String>,
    /// The form in which the credentials are shown.
    pub format: String,
}

/// Which role the arguments ask for, and for how long.
pub open spec fn role_asked(
    args: Seq<Seq<char>>,
    session: Option<Seq<char>>,
    token: Option<Seq<char>>,
    now: i64,
    r: Result<AssumePlan, AwlError>,
) -> bool {
    match r {
        Ok(plan) => {
            &&& common::required_at(args, 0, "role-arn"@) == Ok::<Seq<char>, Failure>(
                plan.role_arn@,
            )
            &&& plan.duration == (match common::i32_of(args, "--duration"@) {
                Some(n) => n,
                None => 3600,
            })
            &&& plan.session_name@ == client::or_text(
                client::first_of(
                    common::option_of(args, "--session-name"@),
                    session,
                ),
                client::default_session(now),
            )
            &&& plan.token.deep_view() == token
            &&& plan.format@ == client::or_text(common::option_of(args, "--format"@), "env"@)
        },
        Err(error) => common::required_at(args, 0, "role-arn"@) == Err::<Seq<char>, Failure>(
            error@,
        ),
    }
}

/// The role that `assume` assumes, at a time in seconds: for an hour, and shown as
/// shell text, where the options say nothing else.
pub fn assume_plan(globals: &Globals, args: &[String], now: i64) -> (r: Result<
    AssumePlan,
    AwlError,
>)
    ensures
        role_asked(
            args.deep_view(),
            globals.role_session_name.deep_view(),
            globals.mfa_token.deep_view(),
            now,
            r,
        ),
{
    let role_arn = match common::required(args, 0, "role-arn") {
        Ok(role_arn) => role_arn,
        Err(error) => return Err(error),
    };
    let duration: i32 = match common::option_i32(args, "--duration") {
        Some(n) => n,
        None => 3600,
    };
    let session = client::first_text(
        common::option_value(args, "--session-name"),
        client::copy_text(&globals.role_session_name),
    );
    let session_name = client::text_or(session, client::session_name(now).as_str());
    Ok(
        AssumePlan {
            role_arn,
            session_name,
            duration,
            token: client::copy_text(&globals.mfa_token),
            format: client::text_or(common::option_value(args, "--format"), "env"),
        },
    )
}

/// Credentials that a role gives.
#[derive(Debug)]
pub struct Credentials {
    pub access_key_id: String,
    pub secret_access_key: String,
    pub session_token: String,
    pub expiration: String,
}

/// Credentials as shell text.
pub open spec fn shell_text(credentials: Credentials) -> Seq<char> {
    "export AWS_ACCESS_KEY_ID="@ + credentials.access_key_id@
        + "\nexport AWS_SECRET_ACCESS_KEY="@ + credentials.secret_access_key@
        + "\nexport AWS_SESSION_TOKEN="@ + credentials.session_token@
        + "\nexport AWS_EXPIRATION="@ + credentials.expiration@
}

/// Credentials as a record.
pub open spec fn credentials_tree(credentials: Credentials) -> JsonTree {
    JsonTree::Object(
        map![
            "access_key_id"@ => JsonTree::Text(credentials.access_key_id@),
            "secret_access_key"@ => JsonTree::Text(credentials.secret_access_key@),
            "session_token"@ => JsonTree::Text(credentials.session_token@),
            "expiration"@ => JsonTree::Text(credentials.expiration@),
        ],
    )
}

/// What is shown of the credentials of a role.
pub open spec fn credentials_shown(
    format: Seq<char>,
    credentials: Option<Credentials>,
) -> Result<Shown, Failure> {
    match credentials {
        None => Err(Failure::Authentication("AssumeRole returned no credentials"@)),
        Some(credentials) => Ok(
            if format == "env"@ {
                Shown::Plain(shell_text(credentials))
            } else {
                Shown::One(credentials_tree(credentials))
            },
        ),
    }
}

/// What is shown of the credentials that a role gave: shell text for the form
/// `env`, and a record for any other.
pub fn assume_result(format: &str, credentials: &Option<Credentials>) -> (r: Result<
    Output,
    AwlError,
>)
    ensures
        told(r) == credentials_shown(format@, *credentials),
{
    match credentials {
        None => Err(
            AwlError::Authentication { message: "AssumeRole returned no credentials".to_owned() },
        ),
        Some(credentials) => {
            if text::same(format, "env") {
                Ok(
                    Output::Plain(
                        "export AWS_ACCESS_KEY_ID=".to_owned().concat(
                            credentials.access_key_id.as_str(),
                        ).concat("\nexport AWS_SECRET_ACCESS_KEY=").concat(
                            credentials.secret_access_key.as_str(),
                        ).concat("\nexport AWS_SESSION_TOKEN=").concat(
                            credentials.session_token.as_str(),
                        ).concat("\nexport AWS_EXPIRATION=").concat(
                            credentials.expiration.as_str(),
                        ),
                    ),
                )
            } else {
                let mut row = Fields::new();
                row.insert("access_key_id", Json::text(credentials.access_key_id.as_str()));
                row.insert("secret_access_key", Json::text(credentials.secret_access_key.as_str()));
                row.insert("session_token", Json::text(credentials.session_token.as_str()));
                row.insert("expiration", Json::text(credentials.expiration.as_str()));
                Ok(Output::One(Json::Object(row)))
            }
        },
    }
}

/// Credentials as shell text export each of them in a line of its own.
pub proof fn law_shell_text_exports_credentials(credentials: Credentials)
    ensures
        shell_text(credentials) == text::joined(
            seq![
                "export AWS_ACCESS_KEY_ID="@ + credentials.access_key_id@,
                "export AWS_SECRET_ACCESS_KEY="@ + credentials.secret_access_key@,
                "export AWS_SESSION_TOKEN="@ + credentials.session_token@,
                "export AWS_EXPIRATION="@ + credentials.expiration@,
            ],
            "\n"@,
        ),
{
    let a = "export AWS_ACCESS_KEY_ID="@ + credentials.access_key_id@;
    let b = "export AWS_SECRET_ACCESS_KEY="@ + credentials.secret_access_key@;
    let c = "export AWS_SESSION_TOKEN="@ + credentials.session_token@;
    let d = "export AWS_EXPIRATION="@ + credentials.expiration@;
    lemma_four_joined(a, b, c, d, "\n"@);
    lemma_line_breaks();
    assert(shell_text(credentials) =~= a + "\n"@ + b + "\n"@ + c + "\n"@ + d);
}

proof fn lemma_line_breaks()
    ensures
        "\nexport AWS_SECRET_ACCESS_KEY="@ == "\n"@ + "export AWS_SECRET_ACCESS_KEY="@,
        "\nexport AWS_SESSION_TOKEN="@ == "\n"@ + "export AWS_SESSION_TOKEN="@,
        "\nexport AWS_EXPIRATION="@ == "\n"@ + "export AWS_EXPIRATION="@,
{
    reveal_strlit("\n");
    reveal_strlit("\nexport AWS_SECRET_ACCESS_KEY=");
    reveal_strlit("export AWS_SECRET_ACCESS_KEY=");
    reveal_strlit("\nexport AWS_SESSION_TOKEN=");
    reveal_strlit("export AWS_SESSION_TOKEN=");
    reveal_strlit("\nexport AWS_EXPIRATION=");
    reveal_strlit("export AWS_EXPIRATION=");
    assert("\nexport AWS_SECRET_ACCESS_KEY="@ =~= "\n"@ + "export AWS_SECRET_ACCESS_KEY="@);
    assert("\nexport AWS_SESSION_TOKEN="@ =~= "\n"@ + "export AWS_SESSION_TOKEN="@);
    assert("\nexport AWS_EXPIRATION="@ =~= "\n"@ + "export AWS_EXPIRATION="@);
}

proof fn lemma_four_joined(
    a: Seq<char>,
    b: Seq<char>,
    c: Seq<char>,
    d: Seq<char>,
    sep: Seq<char>,
)
    ensures
        text::joined(seq![a, b, c, d], sep) == a + sep + b + sep + c + sep + d,
{
    let four = seq![a, b, c, d];
    let three = seq![a, b, c];
    let two = seq![a, b];
    assert(four.drop_last() =~= three);
    assert(three.drop_last() =~= two);
    assert(two.drop_last() =~= seq![a]);
    assert(text::joined(seq![a], sep) == a);
    assert(text::joined(two, sep) == a + sep + b);
    assert(text::joined(three, sep) == text::joined(two, sep) + sep + c);
    assert(text::joined(four, sep) == text::joined(three, sep) + sep + d);
}

/// The record of credentials shows each of them.
pub proof fn law_credentials_row_shows_it(credentials: Credentials)
    ensures
        output::shows(credentials_tree(credentials), "access_key_id"@, credentials.access_key_id@),
        output::shows(
            credentials_tree(credentials),
            "secret_access_key"@,
            credentials.secret_access_key@,
        ),
        output::shows(credentials_tree(credentials), "session_token"@, credentials.session_token@),
        output::shows(credentials_tree(credentials), "expiration"@, credentials.expiration@),
{
    reveal_strlit("access_key_id");
    reveal_strlit("secret_access_key");
    reveal_strlit("session_token");
    reveal_strlit("expiration");
    assert("access_key_id"@.len() == 13);
    assert("secret_access_key"@.len() == 17);
    assert("session_token"@.len() == 13);
    assert("expiration"@.len() == 10);
    assert("access_key_id"@[0] != "session_token"@[0]);
    let fields = credentials_tree(credentials)->Object_0;
    output::lemma_shows(fields, "access_key_id"@);
    output::lemma_shows(fields, "secret_access_key"@);
    output::lemma_shows(fields, "session_token"@);
    output::lemma_shows(fields, "expiration"@);
}

/// The role is the one that the first word names, for an hour or as long as the
/// option says; the session has the name of the option, else that of the command
/// line, else one of its own.
pub proof fn law_role_is_as_asked(
    words: Seq<Seq<char>>,
    value: Seq<char>,
    n: i32,
    session: Option<Seq<char>>,
    token: Option<Seq<char>>,
    now: i64,
    r: Result<AssumePlan, AwlError>,
)
    requires
        common::are_words(words),
        words.len() > 0,
        !common::is_option(value),
    ensures
        role_asked(words, session, token, now, r) ==> (r matches Ok(plan) && plan.role_arn@ == words[0]
            && plan.token.deep_view() == token && plan.duration == 3600 && plan.format@ == "env"@),
        session matches Some(name) ==> (role_asked(words, session, token, now, r) ==> (r matches Ok(plan) && plan.role_arn@ == words[0]
            && plan.token.deep_view() == token && plan.session_name@ == name)),
        session is None ==> (role_asked(words, session, token, now, r) ==> (r matches Ok(plan) && plan.role_arn@ == words[0]
            && plan.token.deep_view() == token
                && plan.session_name@ == client::default_session(now))),
        role_asked(words.push("--session-name"@).push(value), session, token, now, r) ==> (r matches Ok(plan) && plan.role_arn@ == words[0]
            && plan.token.deep_view() == token && plan.session_name@ == value),
        role_asked(words.push("--format"@).push(value), session, token, now, r) ==> (r matches Ok(plan) && plan.role_arn@ == words[0]
            && plan.token.deep_view() == token && plan.format@ == value),
        value == crate::number::signed_decimal(n as int) ==> (role_asked(words.push("--duration"@).push(value), session, token, now, r) ==> (r matches Ok(plan) && plan.role_arn@ == words[0]
            && plan.token.deep_view() == token && plan.duration == n)),
        role_asked(Seq::empty(), session, token, now, r) ==> (r matches Err(error)
            && error@ is Usage),
{
    reveal_strlit("--session-name");
    reveal_strlit("--format");
    reveal_strlit("--duration");
    assert("--session-name"@.len() == 14);
    assert("--format"@.len() == 8);
    assert("--duration"@.len() == 10);
    common::law_options_take_values();
    common::law_words_give_no_option(words);
    common::law_option_among_words(words, "--session-name"@, value);
    common::law_option_among_words(words, "--format"@, value);
    common::law_option_among_words(words, "--duration"@, value);
    if value == crate::number::signed_decimal(n as int) {
        common::law_number_option_is_read_back(words.push("--duration"@).push(value), "--duration"@, n as int);
    }
}

/// Credentials are shown as lines for a shell where that is the format, and as a
/// record otherwise; without any the request has failed.
pub proof fn law_credentials_are_shown(format: Seq<char>, credentials: Credentials)
    ensures
        credentials_shown("env"@, Some(credentials)) matches Ok(Shown::Plain(lines)) && lines
            == shell_text(credentials),
        format != "env"@ ==> (credentials_shown(format, Some(credentials)) matches Ok(
            Shown::One(row),
        ) && output::shows(row, "access_key_id"@, credentials.access_key_id@)),
        credentials_shown(format, None) matches Err(Failure::Authentication(_)),
{
    law_credentials_row_shows_it(credentials);
}

/// The record of an identity shows the account, the ARN and the user.
pub proof fn law_identity_row_shows_it(
    account: Option<Seq<char>>,
    arn: Option<Seq<char>>,
    user_id: Option<Seq<char>>,
)
    ensures
        output::shows(
            identity_tree(account, arn, user_id),
            "account"@,
            output::written_text(account),
        ),
        output::shows(identity_tree(account, arn, user_id), "arn"@, output::written_text(arn)),
        output::shows(
            identity_tree(account, arn, user_id),
            "user_id"@,
            output::written_text(user_id),
        ),
{
    reveal_strlit("account");
    reveal_strlit("arn");
    reveal_strlit("user_id");
    assert("account"@.len() == 7);
    assert("arn"@.len() == 3);
    assert("user_id"@.len() == 7);
    assert("account"@[0] != "user_id"@[0]);
    let fields = identity_tree(account, arn, user_id)->Object_0;
    output::lemma_shows(fields, "account"@);
    output::lemma_shows(fields, "arn"@);
    output::lemma_shows(fields, "user_id"@);
}

} // verus!
