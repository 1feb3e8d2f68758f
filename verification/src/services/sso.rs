//! Single sign-on, through the official client.
use vstd::prelude::*;

use crate::cli::Globals;
use crate::client;
use crate::error::{told, AwlError, Failure};
use crate::json::{self, Fields, Json, JsonTree};
use crate::output::{self, Output, Shown};
use crate::services::common;
use crate::text;

verus! {

/// The texts of environment variables that say yes.
pub open spec fn says_yes(value: Seq<char>) -> bool {
    ||| value == "1"@
    ||| value == "true"@
    ||| value == "TRUE"@
    ||| value == "yes"@
    ||| value == "YES"@
    ||| value == "on"@
    ||| value == "ON"@
}

/// Whether the text of an environment variable says yes.
pub fn is_true(value: &str) -> (r: bool)
    ensures
        r == says_yes(value@),
{
    text::same(value, "1") || text::same(value, "true") || text::same(value, "TRUE") || text::same(
        value,
        "yes",
    ) || text::same(value, "YES") || text::same(value, "on") || text::same(value, "ON")
}

/// The profile of a command: that of its own option, or else of the command line,
/// or else of `AWS_PROFILE`, or else `default`.
pub open spec fn profile_of(
    args: Seq<Seq<char>>,
    global: Option<Seq<char>>,
    variable: Option<Seq<char>>,
) -> Seq<char> {
    client::or_text(
        client::first_of(common::option_of(args, "--profile"@), client::first_of(global, variable)),
        "default"@,
    )
}

/// The profile of a command; the value of `AWS_PROFILE` is given.
pub fn profile_name(globals: &Globals, args: &[String], variable: Option<String>) -> (r: String)
    ensures
        r@ == profile_of(args.deep_view(), globals.profile.deep_view(), variable.deep_view()),
{
    client::text_or(
        client::first_text(
            common::option_value(args, "--profile"),
            client::first_text(client::copy_text(&globals.profile), variable),
        ),
        "default",
    )
}

/// The arguments that every call of the official client begins with.
pub open spec fn client_args(profile: Seq<char>, region: Option<Seq<char>>) -> Seq<Seq<char>> {
    let named = if profile.len() > 0 {
        seq!["--profile"@, profile]
    } else {
        Seq::empty()
    };
    let placed = match region {
        Some(region) => seq!["--region"@, region],
        None => Seq::empty(),
    };
    named + placed
}

/// Adds an argument.
fn add_word(words: &mut Vec<String>, word: &str)
    ensures
        final(words).deep_view() == old(words).deep_view().push(word@),
{
    words.push(word.to_owned());
    assert(words.deep_view() =~= old(words).deep_view().push(word@));
}

/// The arguments that every call of the official client begins with.
pub fn aws_command(globals: &Globals, profile: &str) -> (r: Vec<String>)
    ensures
        r.deep_view() == client_args(profile@, globals.region.deep_view()),
{
    let mut words: Vec<String> = Vec::new();
    assert(words.deep_view() =~= Seq::empty());
    if !profile.is_empty() {
        add_word(&mut words, "--profile");
        add_word(&mut words, profile);
    }
    if let Some(region) = &globals.region {
        add_word(&mut words, "--region");
        add_word(&mut words, region.as_str());
    }
    assert(words.deep_view() =~= client_args(profile@, globals.region.deep_view()));
    words
}

/// The browser is not to be opened: where the flag is given, or where
/// `AWL_SSO_NO_BROWSER` says yes.
pub open spec fn without_browser(args: Seq<Seq<char>>, variable: Option<Seq<char>>) -> bool {
    args.contains("--no-browser"@) || (variable matches Some(value) && says_yes(value))
}

/// The words of the command that logs in.
pub open spec fn login_words(
    args: Seq<Seq<char>>,
    profile: Seq<char>,
    region: Option<Seq<char>>,
    variable: Option<Seq<char>>,
) -> Seq<Seq<char>> {
    client_args(profile, region) + seq!["sso"@, "login"@] + (if without_browser(args, variable) {
        seq!["--no-browser"@]
    } else {
        Seq::empty()
    })
}

/// The arguments of the login; the value of `AWL_SSO_NO_BROWSER` is given.
pub fn login_command(
    globals: &Globals,
    args: &[String],
    profile: &str,
    variable: Option<String>,
) -> (r: Vec<String>)
    ensures
        r.deep_view() == login_words(
            args.deep_view(),
            profile@,
            globals.region.deep_view(),
            variable.deep_view(),
        ),
{
    let mut words = aws_command(globals, profile);
    let ghost head = words.deep_view();
    add_word(&mut words, "sso");
    add_word(&mut words, "login");
    let asked = match &variable {
        Some(value) => is_true(value.as_str()),
        None => false,
    };
    assert(words.deep_view() =~= head + seq!["sso"@, "login"@]);
    if common::has_flag(args, "--no-browser") || asked {
        add_word(&mut words, "--no-browser");
    }
    assert(words.deep_view() =~= head + seq!["sso"@, "login"@] + (if without_browser(
        args.deep_view(),
        variable.deep_view(),
    ) {
        seq!["--no-browser"@]
    } else {
        Seq::empty()
    }));
    words
}

/// The words of the command that logs out.
pub open spec fn logout_words(profile: Seq<char>, region: Option<Seq<char>>) -> Seq<Seq<char>> {
    client_args(profile, region) + seq!["sso"@, "logout"@]
}

/// The arguments of the logout.
pub fn logout_command(globals: &Globals, profile: &str) -> (r: Vec<String>)
    ensures
        r.deep_view() == logout_words(profile@, globals.region.deep_view()),
{
    let mut words = aws_command(globals, profile);
    let ghost head = words.deep_view();
    add_word(&mut words, "sso");
    add_word(&mut words, "logout");
    assert(words.deep_view() =~= head + seq!["sso"@, "logout"@]);
    words
}

/// What is shown of a login.
pub open spec fn login_shown(
    profile: Seq<char>,
    failed_status: Option<Seq<char>>,
) -> Result<Shown, Failure> {
    match failed_status {
        Some(status) => Err(
            Failure::Authentication("aws sso login failed with status "@ + status),
        ),
        None => Ok(
            Shown::One(
                JsonTree::Object(
                    map![
                        "profile"@ => JsonTree::Text(profile),
                        "logged_in"@ => JsonTree::Bool(true),
                    ],
                ),
            ),
        ),
    }
}

/// What is shown of a login, or else what is said where the client ended with a
/// status that is no success.
pub fn login_result(profile: &str, failed_status: Option<&str>) -> (r: Result<Output, AwlError>)
    ensures
        told(r) == login_shown(profile@, failed_status.deep_view()),
{
    if let Some(status) = failed_status {
        return Err(
            AwlError::Authentication {
                message: "aws sso login failed with status ".to_owned().concat(status),
            },
        );
    }
    let mut row = Fields::new();
    row.insert("profile", Json::text(profile));
    row.insert("logged_in", Json::Bool(true));
    Ok(Output::One(Json::Object(row)))
}

/// What is shown of a logout.
pub open spec fn logout_shown(
    profile: Seq<char>,
    failed_status: Option<Seq<char>>,
) -> Result<Shown, Failure> {
    match failed_status {
        Some(status) => Err(
            Failure::Authentication("aws sso logout failed with status "@ + status),
        ),
        None => Ok(
            Shown::One(
                JsonTree::Object(
                    map![
                        "profile"@ => JsonTree::Text(profile),
                        "logged_out"@ => JsonTree::Bool(true),
                    ],
                ),
            ),
        ),
    }
}

/// What is shown of a logout, or else what is said where the client ended with a
/// status that is no success.
pub fn logout_result(profile: &str, failed_status: Option<&str>) -> (r: Result<Output, AwlError>)
    ensures
        told(r) == logout_shown(profile@, failed_status.deep_view()),
{
    if let Some(status) = failed_status {
        return Err(
            AwlError::Authentication {
                message: "aws sso logout failed with status ".to_owned().concat(status),
            },
        );
    }
    let mut row = Fields::new();
    row.insert("profile", Json::text(profile));
    row.insert("logged_out", Json::Bool(true));
    Ok(Output::One(Json::Object(row)))
}

/// A field of an object that is a text; `null` where there is no such field.
pub open spec fn text_field(tree: JsonTree, name: Seq<char>) -> JsonTree {
    match tree {
        JsonTree::Object(fields) => if fields.contains_key(name) && fields[name] is Text {
            fields[name]
        } else {
            JsonTree::Null
        },
        _ => JsonTree::Null,
    }
}

/// A field of an object that is a text.
fn text_of_field(value: &Json, name: &str) -> (r: Json)
    ensures
        r.tree() == text_field(value.tree(), name@),
{
    match value {
        Json::Object(fields) => match fields.get(name) {
            Some(Json::Text(s)) => Json::Text(s.clone()),
            _ => Json::Null,
        },
        _ => Json::Null,
    }
}

/// The record of a cache file with these contents.
pub open spec fn cache_tree(file_name: Seq<char>, tree: JsonTree) -> JsonTree {
    JsonTree::Object(
        map![
            "cache_file"@ => JsonTree::Text(file_name),
            "start_url"@ => text_field(tree, "startUrl"@),
            "region"@ => text_field(tree, "region"@),
            "expires_at"@ => text_field(tree, "expiresAt"@),
            "client_id"@ => text_field(tree, "clientId"@),
        ],
    )
}

/// The record of a cache file, from its contents as a JSON value.
pub fn cache_fields(file_name: &str, value: &Json) -> (r: Json)
    ensures
        r.tree() == cache_tree(file_name@, value.tree()),
{
    let mut row = Fields::new();
    row.insert("cache_file", Json::text(file_name));
    row.insert("start_url", text_of_field(value, "startUrl"));
    row.insert("region", text_of_field(value, "region"));
    row.insert("expires_at", text_of_field(value, "expiresAt"));
    row.insert("client_id", text_of_field(value, "clientId"));
    Json::Object(row)
}

/// The record of a cache file, from its contents.
pub fn cache_row(file_name: &str, contents: &str) -> (r: Result<Json, AwlError>)
    ensures
        match r {
            Ok(row) => json::json_parsed(contents@) matches Ok(tree) && row.tree() == cache_tree(
                file_name@,
                tree,
            ),
            Err(error) => json::json_parsed(contents@) matches Err(message) && error@
                == Failure::Json(message),
        },
{
    match json::parse(contents) {
        Ok(value) => Ok(cache_fields(file_name, &value)),
        Err(message) => Err(AwlError::Json(message)),
    }
}

/// The environment variable that names the home directory, where one of the two
/// that may is set: `HOME` comes first.
pub fn home_variable(home: bool, user_profile: bool) -> (r: Result<&'static str, AwlError>)
    ensures
        told(r) == (if home {
            Ok("HOME"@)
        } else if user_profile {
            Ok("USERPROFILE"@)
        } else {
            Err(Failure::Usage("cannot locate home directory for AWS SSO cache"@))
        }),
{
    if home {
        Ok("HOME")
    } else if user_profile {
        Ok("USERPROFILE")
    } else {
        Err(AwlError::usage("cannot locate home directory for AWS SSO cache"))
    }
}

/// The way from the home directory to the cache directory.
pub fn cache_path() -> (r: Vec<String>)
    ensures
        r.deep_view() == seq![".aws"@, "sso"@, "cache"@],
{
    let mut words: Vec<String> = Vec::new();
    assert(words.deep_view() =~= Seq::empty());
    add_word(&mut words, ".aws");
    add_word(&mut words, "sso");
    add_word(&mut words, "cache");
    assert(words.deep_view() =~= seq![".aws"@, "sso"@, "cache"@]);
    words
}

/// Whether a file of the cache directory is shown: those whose extension is
/// `json`.
pub fn is_cache_file(extension: Option<&str>) -> (r: bool)
    ensures
        r == (extension.deep_view() == Some("json"@)),
{
    match extension {
        Some(extension) => text::same(extension, "json"),
        None => false,
    }
}

/// The profile is that of the option, else that of the command line, else that of
/// the environment, else the default one.
pub proof fn law_profile_is_found(
    args: Seq<Seq<char>>,
    global: Option<Seq<char>>,
    variable: Option<Seq<char>>,
)
    ensures
        profile_of(args, global, variable) == (if common::option_of(args, "--profile"@) is Some {
            common::option_of(args, "--profile"@)->Some_0
        } else if global is Some {
            global->Some_0
        } else if variable is Some {
            variable->Some_0
        } else {
            "default"@
        }),
{
}

/// The official client is told the profile and the region, each where there is
/// one.
pub proof fn law_client_is_told_profile_and_region(profile: Seq<char>, region: Seq<char>)
    requires
        profile.len() > 0,
    ensures
        client_args(profile, Some(region)) == seq!["--profile"@, profile, "--region"@, region],
        client_args(profile, None) == seq!["--profile"@, profile],
        client_args(Seq::empty(), Some(region)) == seq!["--region"@, region],
        client_args(Seq::empty(), None).len() == 0,
{
    assert(client_args(profile, Some(region)) =~= seq![
        "--profile"@,
        profile,
        "--region"@,
        region,
    ]);
    assert(client_args(profile, None) =~= seq!["--profile"@, profile]);
    assert(client_args(Seq::empty(), Some(region)) =~= seq!["--region"@, region]);
}

/// No browser is opened where the flag says so, or the environment.
pub proof fn law_browser_is_left_out_on_request(args: Seq<Seq<char>>)
    ensures
        args.contains("--no-browser"@) ==> without_browser(args, None),
        !args.contains("--no-browser"@) ==> !without_browser(args, None),
        without_browser(args, Some("1"@)),
        without_browser(args, Some("true"@)),
        without_browser(args, Some("yes"@)),
        without_browser(args, Some("on"@)),
        without_browser(args, Some("TRUE"@)),
        without_browser(args, Some("YES"@)),
        without_browser(args, Some("ON"@)),
        !args.contains("--no-browser"@) ==> !without_browser(args, Some("0"@)),
        !args.contains("--no-browser"@) ==> !without_browser(args, Some(Seq::empty())),
{
    reveal_strlit("0");
    reveal_strlit("1");
    reveal_strlit("true");
    reveal_strlit("TRUE");
    reveal_strlit("yes");
    reveal_strlit("YES");
    reveal_strlit("on");
    reveal_strlit("ON");
    assert("0"@.len() == 1 && "1"@.len() == 1 && "0"@[0] != "1"@[0]);
    assert("true"@.len() == 4 && "TRUE"@.len() == 4 && "yes"@.len() == 3 && "YES"@.len() == 3
        && "on"@.len() == 2 && "ON"@.len() == 2);
}

/// A field of a cache file is shown where it is a text.
pub proof fn law_cache_field_is_shown(
    fields: Map<Seq<char>, JsonTree>,
    name: Seq<char>,
    s: Seq<char>,
)
    ensures
        text_field(JsonTree::Object(fields.insert(name, JsonTree::Text(s))), name)
            == JsonTree::Text(s),
        !fields.contains_key(name) ==> text_field(JsonTree::Object(fields), name) is Null,
{
}

/// The row of a cache file shows its name, and the texts of the file.
pub proof fn law_cache_row_shows_it(file_name: Seq<char>, tree: JsonTree)
    ensures
        output::shows(cache_tree(file_name, tree), "cache_file"@, file_name),
        output::shows(
            cache_tree(file_name, tree),
            "start_url"@,
            output::plain(text_field(tree, "startUrl"@)),
        ),
        output::shows(
            cache_tree(file_name, tree),
            "region"@,
            output::plain(text_field(tree, "region"@)),
        ),
        output::shows(
            cache_tree(file_name, tree),
            "expires_at"@,
            output::plain(text_field(tree, "expiresAt"@)),
        ),
        output::shows(
            cache_tree(file_name, tree),
            "client_id"@,
            output::plain(text_field(tree, "clientId"@)),
        ),
{
    reveal_strlit("cache_file");
    reveal_strlit("start_url");
    reveal_strlit("region");
    reveal_strlit("expires_at");
    reveal_strlit("client_id");
    assert("cache_file"@.len() == 10);
    assert("start_url"@.len() == 9);
    assert("region"@.len() == 6);
    assert("expires_at"@.len() == 10);
    assert("client_id"@.len() == 9);
    assert("cache_file"@[0] != "expires_at"@[0]);
    assert("start_url"@[0] != "client_id"@[0]);
    let fields = cache_tree(file_name, tree)->Object_0;
    output::lemma_shows(fields, "cache_file"@);
    output::lemma_shows(fields, "start_url"@);
    output::lemma_shows(fields, "region"@);
    output::lemma_shows(fields, "expires_at"@);
    output::lemma_shows(fields, "client_id"@);
}

/// A login names the profile and the region, and leaves the browser shut where the
/// flag asks for that.
pub proof fn law_login_is_as_asked(
    words: Seq<Seq<char>>,
    profile: Seq<char>,
    region: Seq<char>,
)
    requires
        common::are_words(words),
        profile.len() > 0,
    ensures
        login_words(words, profile, Some(region), None) == seq![
            "--profile"@,
            profile,
            "--region"@,
            region,
            "sso"@,
            "login"@,
        ],
        login_words(words.push("--no-browser"@), profile, Some(region), None) == seq![
            "--profile"@,
            profile,
            "--region"@,
            region,
            "sso"@,
            "login"@,
            "--no-browser"@,
        ],
        login_words(words, Seq::empty(), None, None) == seq!["sso"@, "login"@],
{
    common::law_flags_take_no_value();
    common::law_words_give_no_option(words);
    common::law_flag_among_words(words, "--no-browser"@);
    law_client_is_told_profile_and_region(profile, region);
    assert(client_args(Seq::empty(), None) =~= Seq::empty());
}

/// What was done is shown for the profile, and what failed with its status.
pub proof fn law_login_is_shown(profile: Seq<char>, status: Seq<char>)
    ensures
        login_shown(profile, None) matches Ok(Shown::One(row)) && output::shows(
            row,
            "profile"@,
            profile,
        ) && output::shows(row, "logged_in"@, "true"@),
        logout_shown(profile, None) matches Ok(Shown::One(row)) && output::shows(
            row,
            "profile"@,
            profile,
        ) && output::shows(row, "logged_out"@, "true"@),
        login_shown(profile, Some(status)) matches Err(Failure::Authentication(message))
            && status.is_suffix_of(message),
        logout_shown(profile, Some(status)) matches Err(Failure::Authentication(message))
            && status.is_suffix_of(message),
{
    reveal_strlit("profile");
    reveal_strlit("logged_in");
    reveal_strlit("logged_out");
    assert("profile"@.len() == 7);
    assert("logged_in"@.len() == 9);
    assert("logged_out"@.len() == 10);
    let entered = map![
        "profile"@ => JsonTree::Text(profile),
        "logged_in"@ => JsonTree::Bool(true),
    ];
    let left = map![
        "profile"@ => JsonTree::Text(profile),
        "logged_out"@ => JsonTree::Bool(true),
    ];
    output::lemma_shows(entered, "profile"@);
    output::lemma_shows(entered, "logged_in"@);
    output::lemma_shows(left, "profile"@);
    output::lemma_shows(left, "logged_out"@);
    let a = "aws sso login failed with status "@ + status;
    let b = "aws sso logout failed with status "@ + status;
    assert(a.subrange(a.len() - status.len(), a.len() as int) =~= status);
    assert(b.subrange(b.len() - status.len(), b.len() as int) =~= status);
}

/// A logout names the profile and the region.
pub proof fn law_logout_is_as_asked(profile: Seq<char>, region: Seq<char>)
    requires
        profile.len() > 0,
    ensures
        logout_words(profile, Some(region)) == seq![
            "--profile"@,
            profile,
            "--region"@,
            region,
            "sso"@,
            "logout"@,
        ],
        logout_words(Seq::empty(), None) == seq!["sso"@, "logout"@],
{
    law_client_is_told_profile_and_region(profile, region);
    assert(client_args(Seq::empty(), None) =~= Seq::empty());
}

} // verus!
