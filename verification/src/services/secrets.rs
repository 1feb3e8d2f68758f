//! Secrets.
use vstd::prelude::*;

use crate::error::{told, AwlError, Failure};
use crate::json::{self, Fields, Json, JsonTree};
use crate::output::{self, Output, Shown};
use crate::services::common;

verus! {

/// A secret as the service lists it.
#[derive(Debug)]
pub struct SecretInfo {
    pub name: Option<String>,
    pub arn: Option<String>,
    pub description: Option<String>,
    pub last_changed: Option<String>,
}

/// The record of a listed secret.
pub open spec fn secret_tree(secret: SecretInfo) -> JsonTree {
    JsonTree::Object(
        map![
            "name"@ => json::optional_text(secret.name.deep_view()),
            "arn"@ => json::optional_text(secret.arn.deep_view()),
            "description"@ => json::optional_text(secret.description.deep_view()),
            "last_changed"@ => json::optional_text(secret.last_changed.deep_view()),
        ],
    )
}

/// The records of the secrets.
pub open spec fn secrets_shown(secrets: Seq<SecretInfo>) -> Shown {
    Shown::Many(secrets.map_values(|secret: SecretInfo| secret_tree(secret)))
}

/// What is shown of listed secrets.
pub fn secret_rows(secrets: &Vec<SecretInfo>) -> (r: Output)
    ensures
        r@ == secrets_shown(secrets@),
{
    let mut rows: Vec<Json> = Vec::new();
    let mut i: usize = 0;
    while i < secrets.len()
        invariant
            i <= secrets.len(),
            rows@.len() == i,
            forall|j: int| 0 <= j < i ==> (#[trigger] rows@[j]).tree() == secret_tree(secrets@[j]),
        decreases secrets.len() - i,
    {
        let mut row = Fields::new();
        row.insert("name", Json::optional_string(&secrets[i].name));
        row.insert("arn", Json::optional_string(&secrets[i].arn));
        row.insert("description", Json::optional_string(&secrets[i].description));
        row.insert("last_changed", Json::optional_string(&secrets[i].last_changed));
        rows.push(Json::Object(row));
        i += 1;
    }
    assert(json::trees(rows@) =~= secrets@.map_values(|secret: SecretInfo| secret_tree(secret)));
    Output::Many(rows)
}

/// The secret that a command names.
pub fn secret_name(args: &[String]) -> (r: Result<String, AwlError>)
    ensures
        told(r) == common::required_at(common::positionals(args.deep_view()), 0, "name"@),
{
    let words = common::positional(args);
    common::required(words.as_slice(), 0, "name")
}

/// What `get` reads.
#[derive(Debug)]
pub struct GetPlan {
    pub name: String,
    pub version_id: Option<String>,
    pub version_stage: Option<String>,
}

/// Which secret the arguments ask for.
pub open spec fn secret_asked(args: Seq<Seq<char>>, r: Result<GetPlan, AwlError>) -> bool {
    match r {
        Ok(plan) => {
            &&& common::required_at(common::positionals(args), 0, "name"@) == Ok::<
                Seq<char>,
                Failure,
            >(plan.name@)
            &&& plan.version_id.deep_view() == common::option_of(args, "--version-id"@)
            &&& plan.version_stage.deep_view() == common::option_of(args, "--version-stage"@)
        },
        Err(error) => common::required_at(common::positionals(args), 0, "name"@) == Err::<
            Seq<char>,
            Failure,
        >(error@),
    }
}

/// What `get` reads.
pub fn get_plan(args: &[String]) -> (r: Result<GetPlan, AwlError>)
    ensures
        secret_asked(args.deep_view(), r),
{
    match secret_name(args) {
        Err(error) => Err(error),
        Ok(name) => Ok(
            GetPlan {
                name,
                version_id: common::option_value(args, "--version-id"),
                version_stage: common::option_value(args, "--version-stage"),
            },
        ),
    }
}

/// What `put` writes.
#[derive(Debug)]
pub struct PutPlan {
    pub name: String,
    pub value: String,
}

/// Which secret the arguments set, and to what.
pub open spec fn secret_given(args: Seq<Seq<char>>, r: Result<PutPlan, AwlError>) -> bool {
    let words = common::positionals(args);
    match r {
        Ok(plan) => {
            &&& common::required_at(words, 0, "name"@) == Ok::<Seq<char>, Failure>(
                plan.name@,
            )
            &&& common::required_at(words, 1, "value"@) == Ok::<Seq<char>, Failure>(
                plan.value@,
            )
        },
        Err(error) => match common::required_at(words, 0, "name"@) {
            Err(failure) => error@ == failure,
            Ok(_) => common::required_at(words, 1, "value"@) == Err::<Seq<char>, Failure>(
                error@,
            ),
        },
    }
}

/// What `put` writes.
pub fn put_plan(args: &[String]) -> (r: Result<PutPlan, AwlError>)
    ensures
        secret_given(args.deep_view(), r),
{
    let words = common::positional(args);
    let name = match common::required(words.as_slice(), 0, "name") {
        Ok(name) => name,
        Err(error) => return Err(error),
    };
    match common::required(words.as_slice(), 1, "value") {
        Ok(value) => Ok(PutPlan { name, value }),
        Err(error) => Err(error),
    }
}

/// What `rm` removes; `force` leaves no time to take it back.
#[derive(Debug)]
pub struct RmPlan {
    pub name: String,
    pub force: bool,
}

/// Which secret the arguments remove.
pub open spec fn removal_asked(args: Seq<Seq<char>>, r: Result<RmPlan, AwlError>) -> bool {
    match r {
        Ok(plan) => {
            &&& common::required_at(common::positionals(args), 0, "name"@) == Ok::<
                Seq<char>,
                Failure,
            >(plan.name@)
            &&& plan.force == args.contains("--force"@)
        },
        Err(error) => common::required_at(common::positionals(args), 0, "name"@) == Err::<
            Seq<char>,
            Failure,
        >(error@),
    }
}

/// What `rm` removes.
pub fn rm_plan(args: &[String]) -> (r: Result<RmPlan, AwlError>)
    ensures
        removal_asked(args.deep_view(), r),
{
    match secret_name(args) {
        Err(error) => Err(error),
        Ok(name) => Ok(RmPlan { name, force: common::has_flag(args, "--force") }),
    }
}

/// The arn and the name of a secret in a record.
pub open spec fn identity_fields(arn: Option<Seq<char>>, name: Option<Seq<char>>) -> Map<
    Seq<char>,
    JsonTree,
> {
    map!["arn"@ => json::optional_text(arn), "name"@ => json::optional_text(name)]
}

/// The arn and the name of a secret in a record.
fn identity(arn: Option<&str>, name: Option<&str>) -> (r: Fields)
    ensures
        r.contents() == identity_fields(arn.deep_view(), name.deep_view()),
{
    let mut row = Fields::new();
    row.insert("arn", Json::optional_text(arn));
    row.insert("name", Json::optional_text(name));
    row
}

/// The record of a secret and its value.
pub open spec fn value_tree(
    arn: Option<Seq<char>>,
    name: Option<Seq<char>>,
    version_id: Option<Seq<char>>,
    secret_string: Option<Seq<char>>,
) -> JsonTree {
    JsonTree::Object(
        identity_fields(arn, name).insert(
            "version_id"@,
            json::optional_text(version_id),
        ).insert("secret_string"@, json::optional_text(secret_string)),
    )
}

/// What is shown of a secret that was read.
pub fn get_row(
    arn: Option<&str>,
    name: Option<&str>,
    version_id: Option<&str>,
    secret_string: Option<&str>,
) -> (r: Output)
    ensures
        r@ == Shown::One(value_tree(
                arn.deep_view(),
                name.deep_view(),
                version_id.deep_view(),
                secret_string.deep_view(),
            )),
{
    let mut row = identity(arn, name);
    row.insert("version_id", Json::optional_text(version_id));
    row.insert("secret_string", Json::optional_text(secret_string));
    Output::One(Json::Object(row))
}

/// The record of a version of a secret.
pub open spec fn version_tree(
    arn: Option<Seq<char>>,
    name: Option<Seq<char>>,
    version_id: Option<Seq<char>>,
) -> JsonTree {
    JsonTree::Object(
        identity_fields(arn, name).insert(
            "version_id"@,
            json::optional_text(version_id),
        ),
    )
}

/// What is shown of a secret that was written or rotated.
pub fn version_row(arn: Option<&str>, name: Option<&str>, version_id: Option<&str>) -> (r: Output)
    ensures
        r@ == Shown::One(version_tree(arn.deep_view(), name.deep_view(), version_id.deep_view())),
{
    let mut row = identity(arn, name);
    row.insert("version_id", Json::optional_text(version_id));
    Output::One(Json::Object(row))
}

/// The record of a secret that is removed.
pub open spec fn removed_tree(
    arn: Option<Seq<char>>,
    name: Option<Seq<char>>,
    deletion_date: Option<Seq<char>>,
) -> JsonTree {
    JsonTree::Object(
        identity_fields(arn, name).insert(
            "deletion_date"@,
            json::optional_text(deletion_date),
        ),
    )
}

/// What is shown of a secret that was removed.
pub fn rm_row(arn: Option<&str>, name: Option<&str>, deletion_date: Option<&str>) -> (r: Output)
    ensures
        r@ == Shown::One(removed_tree(arn.deep_view(), name.deep_view(), deletion_date.deep_view())),
{
    let mut row = identity(arn, name);
    row.insert("deletion_date", Json::optional_text(deletion_date));
    Output::One(Json::Object(row))
}

/// The row of a secret shows its name, its ARN, its description and when it changed.
pub proof fn law_secret_row_shows_it(secret: SecretInfo)
    ensures
        output::shows(secret_tree(secret), "name"@, output::written_text(secret.name.deep_view())),
        output::shows(secret_tree(secret), "arn"@, output::written_text(secret.arn.deep_view())),
        output::shows(
            secret_tree(secret),
            "description"@,
            output::written_text(secret.description.deep_view()),
        ),
        output::shows(
            secret_tree(secret),
            "last_changed"@,
            output::written_text(secret.last_changed.deep_view()),
        ),
{
    reveal_strlit("name");
    reveal_strlit("arn");
    reveal_strlit("description");
    reveal_strlit("last_changed");
    assert("name"@.len() == 4);
    assert("arn"@.len() == 3);
    assert("description"@.len() == 11);
    assert("last_changed"@.len() == 12);
    let fields = secret_tree(secret)->Object_0;
    output::lemma_shows(fields, "name"@);
    output::lemma_shows(fields, "arn"@);
    output::lemma_shows(fields, "description"@);
    output::lemma_shows(fields, "last_changed"@);
}

/// The record of a secret shows its ARN and its name, and what is added under another name.
pub proof fn law_identity_is_shown(
    arn: Option<Seq<char>>,
    name: Option<Seq<char>>,
    value: Option<Seq<char>>,
)
    ensures
        output::shows(JsonTree::Object(
            identity_fields(arn, name).insert("version_id"@, json::optional_text(value)),
        ), "arn"@, output::written_text(arn)),
        output::shows(JsonTree::Object(
            identity_fields(arn, name).insert("version_id"@, json::optional_text(value)),
        ), "name"@, output::written_text(name)),
        output::shows(JsonTree::Object(
            identity_fields(arn, name).insert("version_id"@, json::optional_text(value)),
        ), "version_id"@, output::written_text(value)),
{
    reveal_strlit("arn");
    reveal_strlit("name");
    reveal_strlit("version_id");
    assert("arn"@.len() == 3);
    assert("name"@.len() == 4);
    assert("version_id"@.len() == 10);
    let fields = JsonTree::Object(
            identity_fields(arn, name).insert("version_id"@, json::optional_text(value)),
        )->Object_0;
    output::lemma_shows(fields, "arn"@);
    output::lemma_shows(fields, "name"@);
    output::lemma_shows(fields, "version_id"@);
}

/// The secret is the one that the first word names, in the version that the options
/// name.
pub proof fn law_secret_is_as_asked(
    words: Seq<Seq<char>>,
    value: Seq<char>,
    r: Result<GetPlan, AwlError>,
)
    requires
        common::are_words(words),
        words.len() > 0,
        !common::is_option(value),
    ensures
        secret_asked(words, r) ==> (r matches Ok(plan) && plan.name@ == words[0]
            && plan.version_id is None && plan.version_stage is None),
        secret_asked(words.push("--version-id"@).push(value), r) ==> (r matches Ok(plan)
            && plan.name@ == words[0] && plan.version_id.deep_view() == Some(value)
            && plan.version_stage is None),
        secret_asked(words.push("--version-stage"@).push(value), r) ==> (r matches Ok(plan)
            && plan.name@ == words[0] && plan.version_stage.deep_view() == Some(value)
            && plan.version_id is None),
{
    reveal_strlit("--version-id");
    reveal_strlit("--version-stage");
    assert("--version-id"@.len() == 12);
    assert("--version-stage"@.len() == 15);
    common::law_options_take_values();
    common::law_words_give_no_option(words);
    common::law_option_among_words(words, "--version-id"@, value);
    common::law_option_among_words(words, "--version-stage"@, value);
}

/// A secret is removed at once only on request, and one is set to the second word.
pub proof fn law_secret_is_changed_as_asked(
    words: Seq<Seq<char>>,
    r: Result<RmPlan, AwlError>,
    s: Result<PutPlan, AwlError>,
)
    requires
        common::are_words(words),
    ensures
        words.len() > 0 && removal_asked(words, r) ==> (r matches Ok(plan) && plan.name@ == words[0]
            && !plan.force),
        words.len() > 0 && removal_asked(words.push("--force"@), r) ==> (r matches Ok(plan)
            && plan.name@ == words[0] && plan.force),
        words.len() == 0 && removal_asked(words, r) ==> (r matches Err(error) && error@ is Usage),
        words.len() > 1 && secret_given(words, s) ==> (s matches Ok(plan) && plan.name@ == words[0]
            && plan.value@ == words[1]),
        words.len() <= 1 && secret_given(words, s) ==> (s matches Err(error) && error@ is Usage),
{
    common::law_flags_take_no_value();
    common::law_words_give_no_option(words);
    common::law_flag_among_words(words, "--force"@);
}

/// The record of a secret shows its value and its version.
pub proof fn law_value_row_shows_it(
    arn: Option<Seq<char>>,
    name: Option<Seq<char>>,
    version_id: Option<Seq<char>>,
    secret_string: Option<Seq<char>>,
)
    ensures
        output::shows(
            value_tree(arn, name, version_id, secret_string),
            "arn"@,
            output::written_text(arn),
        ),
        output::shows(
            value_tree(arn, name, version_id, secret_string),
            "name"@,
            output::written_text(name),
        ),
        output::shows(
            value_tree(arn, name, version_id, secret_string),
            "version_id"@,
            output::written_text(version_id),
        ),
        output::shows(
            value_tree(arn, name, version_id, secret_string),
            "secret_string"@,
            output::written_text(secret_string),
        ),
{
    reveal_strlit("arn");
    reveal_strlit("name");
    reveal_strlit("version_id");
    reveal_strlit("secret_string");
    assert("arn"@.len() == 3);
    assert("name"@.len() == 4);
    assert("version_id"@.len() == 10);
    assert("secret_string"@.len() == 13);
    let fields = value_tree(arn, name, version_id, secret_string)->Object_0;
    output::lemma_shows(fields, "arn"@);
    output::lemma_shows(fields, "name"@);
    output::lemma_shows(fields, "version_id"@);
    output::lemma_shows(fields, "secret_string"@);
}

/// The record of a version shows it.
pub proof fn law_version_row_shows_it(
    arn: Option<Seq<char>>,
    name: Option<Seq<char>>,
    version_id: Option<Seq<char>>,
)
    ensures
        output::shows(version_tree(arn, name, version_id), "arn"@, output::written_text(arn)),
        output::shows(version_tree(arn, name, version_id), "name"@, output::written_text(name)),
        output::shows(
            version_tree(arn, name, version_id),
            "version_id"@,
            output::written_text(version_id),
        ),
{
    reveal_strlit("arn");
    reveal_strlit("name");
    reveal_strlit("version_id");
    assert("arn"@.len() == 3);
    assert("name"@.len() == 4);
    assert("version_id"@.len() == 10);
    let fields = version_tree(arn, name, version_id)->Object_0;
    output::lemma_shows(fields, "arn"@);
    output::lemma_shows(fields, "name"@);
    output::lemma_shows(fields, "version_id"@);
}

/// The record of a removed secret shows when it goes.
pub proof fn law_removed_row_shows_it(
    arn: Option<Seq<char>>,
    name: Option<Seq<char>>,
    deletion_date: Option<Seq<char>>,
)
    ensures
        output::shows(removed_tree(arn, name, deletion_date), "arn"@, output::written_text(arn)),
        output::shows(removed_tree(arn, name, deletion_date), "name"@, output::written_text(name)),
        output::shows(
            removed_tree(arn, name, deletion_date),
            "deletion_date"@,
            output::written_text(deletion_date),
        ),
{
    reveal_strlit("arn");
    reveal_strlit("name");
    reveal_strlit("deletion_date");
    assert("arn"@.len() == 3);
    assert("name"@.len() == 4);
    assert("deletion_date"@.len() == 13);
    let fields = removed_tree(arn, name, deletion_date)->Object_0;
    output::lemma_shows(fields, "arn"@);
    output::lemma_shows(fields, "name"@);
    output::lemma_shows(fields, "deletion_date"@);
}

/// There is a record for each of the secrets, in order.
pub proof fn law_secret_rows_are_all_shown(secrets: Seq<SecretInfo>, i: int)
    requires
        0 <= i < secrets.len(),
    ensures
        secrets_shown(secrets) matches Shown::Many(rows) && rows.len() == secrets.len() && rows[i]
            == secret_tree(secrets[i]),
{
}

} // verus!
