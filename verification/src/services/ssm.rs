//! Parameter store.
use vstd::prelude::*;

use crate::client;
use crate::error::{told, AwlError, Failure};
use crate::json::{self, Fields, Json, JsonTree};
use crate::output::{self, Output, Shown};
use crate::services::common;
use crate::text;

verus! {

/// A character of an environment variable's name: letters and digits in upper
/// case, and an underscore for anything else.
pub open spec fn env_char(c: char) -> char {
    if 'a' <= c <= 'z' {
        (c as u32 - 32) as char
    } else if 'A' <= c <= 'Z' || '0' <= c <= '9' {
        c
    } else {
        '_'
    }
}

/// A parameter's name as seen from a prefix.
pub open spec fn below_prefix(prefix: Seq<char>, name: Seq<char>) -> Seq<char> {
    text::trimmed_start(
        match text::without_prefix(name, text::trimmed_end(prefix, '/')) {
            Some(rest) => rest,
            None => name,
        },
        '/',
    )
}

/// The environment variable that a parameter sets.
pub open spec fn env_name(prefix: Seq<char>, name: Seq<char>) -> Result<Seq<char>, Failure> {
    let out = below_prefix(prefix, name).map_values(|c: char| env_char(c));
    if out.len() == 0 {
        Err(
            Failure::Usage(
                "parameter "@ + text::quoted(name) + " normalizes to an empty env name"@,
            ),
        )
    } else {
        Ok(out)
    }
}

/// The environment variable that a parameter sets.
pub fn normalize_env_name(prefix: &str, name: &str) -> (r: Result<String, AwlError>)
    ensures
        told(r) == env_name(prefix@, name@),
{
    let rest = match text::strip_prefix(name, text::trim_end_matches(prefix, '/')) {
        Some(rest) => rest,
        None => name,
    };
    let stripped = text::trim_start_matches(rest, '/');
    let chars = text::chars_of(stripped);
    let mut out = String::new();
    let mut i: usize = 0;
    assert(out@ =~= stripped@.take(0).map_values(|c: char| env_char(c)));
    while i < chars.len()
        invariant
            chars@ == stripped@,
            i <= chars.len(),
            out@ == stripped@.take(i as int).map_values(|c: char| env_char(c)),
        decreases chars.len() - i,
    {
        let c = chars[i];
        let mapped: char = if 'a' <= c && c <= 'z' {
            (c as u8 - 32) as char
        } else if ('A' <= c && c <= 'Z') || ('0' <= c && c <= '9') {
            c
        } else {
            '_'
        };
        out.push(mapped);
        assert(stripped@.take(i + 1).map_values(|c: char| env_char(c)) =~= stripped@.take(
            i as int,
        ).map_values(|c: char| env_char(c)).push(env_char(c)));
        i += 1;
    }
    assert(stripped@.take(i as int) =~= stripped@);
    if out.as_str().is_empty() {
        Err(
            AwlError::usage(
                "parameter ".to_owned().concat(text::quote(name).as_str()).concat(
                    " normalizes to an empty env name",
                ).as_str(),
            ),
        )
    } else {
        Ok(out)
    }
}

/// An environment variable that a parameter sets has a name, of upper-case
/// letters, digits and underscores.
pub proof fn law_env_name_is_plain(prefix: Seq<char>, name: Seq<char>)
    requires
        env_name(prefix, name) is Ok,
    ensures
        env_name(prefix, name)->Ok_0.len() > 0,
        forall|i: int|
            0 <= i < env_name(prefix, name)->Ok_0.len() ==> {
                let c = #[trigger] env_name(prefix, name)->Ok_0[i];
                'A' <= c <= 'Z' || '0' <= c <= '9' || c == '_'
            },
{
}

/// What `exec` runs.
#[derive(Debug)]
pub struct ExecPlan {
    pub prefix: String,
    pub command: String,
    pub command_args: Vec<String>,
    pub strict: bool,
}

/// The meaning of an `ExecPlan`.
pub struct Execution {
    pub prefix: Seq<char>,
    pub command: Seq<char>,
    pub command_args: Seq<Seq<char>>,
    pub strict: bool,
}

impl View for ExecPlan {
    type V = Execution;

    open spec fn view(&self) -> Execution {
        Execution {
            prefix: self.prefix@,
            command: self.command@,
            command_args: self.command_args.deep_view(),
            strict: self.strict,
        }
    }
}

/// The first place at or after `i` where an argument is `--`.
pub open spec fn marker_from(args: Seq<Seq<char>>, i: int) -> Option<int>
    decreases args.len() - i,
{
    if i < 0 || i >= args.len() {
        None
    } else if args[i] == "--"@ {
        Some(i)
    } else {
        marker_from(args, i + 1)
    }
}

/// What `exec` runs: the prefix is that of the option or else the value of
/// `AWL_SSM_EXEC_PREFIX`; the command is what follows `--`.
pub open spec fn execution_of(args: Seq<Seq<char>>, variable: Option<Seq<char>>) -> Result<
    Execution,
    Failure,
> {
    match client::first_of(common::option_of(args, "--prefix"@), variable) {
        None => Err(Failure::Usage("ssm exec requires --prefix or AWL_SSM_EXEC_PREFIX"@)),
        Some(prefix) => match marker_from(args, 0) {
            None => Err(Failure::Usage("ssm exec requires -- <cmd> [args...]"@)),
            Some(marker) => if marker + 1 >= args.len() {
                Err(Failure::Usage("ssm exec requires a command after --"@))
            } else {
                Ok(
                    Execution {
                        prefix,
                        command: args[marker + 1],
                        command_args: common::words_after(args, marker + 2),
                        strict: args.contains("--strict"@),
                    },
                )
            },
        },
    }
}

/// The first place where an argument is `--`.
fn find_marker(args: &[String]) -> (r: Option<usize>)
    ensures
        match r {
            Some(i) => marker_from(args.deep_view(), 0) == Some(i as int) && i < args@.len(),
            None => marker_from(args.deep_view(), 0) is None,
        },
{
    let mut i: usize = 0;
    while i < args.len()
        invariant
            i <= args.len(),
            marker_from(args.deep_view(), 0) == marker_from(args.deep_view(), i as int),
        decreases args.len() - i,
    {
        if text::same(args[i].as_str(), "--") {
            return Some(i);
        }
        i += 1;
    }
    None
}

/// What `exec` runs; the value of `AWL_SSM_EXEC_PREFIX` is given.
pub fn exec_plan(args: &[String], variable: Option<String>) -> (r: Result<ExecPlan, AwlError>)
    ensures
        told(r) == execution_of(args.deep_view(), variable.deep_view()),
{
    let prefix = match client::first_text(common::option_value(args, "--prefix"), variable) {
        Some(prefix) => prefix,
        None => {
            return Err(AwlError::usage("ssm exec requires --prefix or AWL_SSM_EXEC_PREFIX"));
        },
    };
    let marker = match find_marker(args) {
        Some(marker) => marker,
        None => {
            return Err(AwlError::usage("ssm exec requires -- <cmd> [args...]"));
        },
    };
    if marker == args.len() - 1 {
        return Err(AwlError::usage("ssm exec requires a command after --"));
    }
    Ok(
        ExecPlan {
            prefix,
            command: args[marker + 1].clone(),
            command_args: common::words_from(args, marker + 2),
            strict: common::has_flag(args, "--strict"),
        },
    )
}

/// A parameter with its name and value, as far as the service gives them.
pub type Given = (Option<Seq<char>>, Option<Seq<char>>);

/// The names of variables.
pub open spec fn variable_names(variables: Seq<(Seq<char>, Seq<char>)>) -> Seq<Seq<char>> {
    variables.map_values(|variable: (Seq<char>, Seq<char>)| variable.0)
}

/// The environment variables that parameters set, in order. A parameter without a
/// name sets none; the first one without a value, or whose variable cannot be
/// named or is set already, decides.
pub open spec fn variables_of(prefix: Seq<char>, parameters: Seq<Given>) -> Result<
    Seq<(Seq<char>, Seq<char>)>,
    Failure,
>
    decreases parameters.len(),
{
    if parameters.len() == 0 {
        Ok(Seq::empty())
    } else {
        match variables_of(prefix, parameters.drop_last()) {
            Err(failure) => Err(failure),
            Ok(before) => match parameters.last().0 {
                None => Ok(before),
                Some(name) => match parameters.last().1 {
                    None => Err(
                        Failure::NotFound(
                            "parameter "@ + text::quoted(name) + " has no readable value"@,
                        ),
                    ),
                    Some(value) => match env_name(prefix, name) {
                        Err(failure) => Err(failure),
                        Ok(variable) => if variable_names(before).contains(variable) {
                            Err(
                                Failure::Usage(
                                    "parameter names collide after env normalization: "@ + variable,
                                ),
                            )
                        } else {
                            Ok(before.push((variable, value)))
                        },
                    },
                },
            },
        }
    }
}

/// The environment that a command is run with, besides its own.
pub open spec fn environment_of(plan: Execution, parameters: Seq<Given>) -> Result<
    Seq<(Seq<char>, Seq<char>)>,
    Failure,
> {
    if plan.strict && parameters.len() == 0 {
        Err(Failure::NotFound("no parameters found under "@ + text::quoted(plan.prefix)))
    } else {
        variables_of(plan.prefix, parameters)
    }
}

/// A failure among the first parameters is the failure of them all.
proof fn lemma_variables_fail(prefix: Seq<char>, parameters: Seq<Given>, n: int)
    requires
        0 <= n <= parameters.len(),
        variables_of(prefix, parameters.take(n)) is Err,
    ensures
        variables_of(prefix, parameters) == variables_of(prefix, parameters.take(n)),
    decreases parameters.len(),
{
    if n < parameters.len() {
        assert(parameters.drop_last().take(n) =~= parameters.take(n));
        lemma_variables_fail(prefix, parameters.drop_last(), n);
    } else {
        assert(parameters.take(n) =~= parameters);
    }
}

/// Whether a variable is among those that are set.
fn is_set(variables: &Vec<(String, String)>, name: &str) -> (r: bool)
    ensures
        r == variable_names(variables.deep_view()).contains(name@),
{
    let ghost names = variable_names(variables.deep_view());
    let mut i: usize = 0;
    while i < variables.len()
        invariant
            names == variable_names(variables.deep_view()),
            i <= variables.len(),
            forall|j: int| 0 <= j < i ==> #[trigger] names[j] != name@,
        decreases variables.len() - i,
    {
        assert(names[i as int] == variables@[i as int].0@);
        if text::same(variables[i].0.as_str(), name) {
            return true;
        }
        i += 1;
    }
    false
}

/// The environment that a command is run with, besides its own.
pub fn exec_environment(
    plan: &ExecPlan,
    parameters: &Vec<(Option<String>, Option<String>)>,
) -> (r: Result<Vec<(String, String)>, AwlError>)
    ensures
        match r {
            Ok(variables) => environment_of(plan@, parameters.deep_view()) == Ok::<
                Seq<(Seq<char>, Seq<char>)>,
                Failure,
            >(variables.deep_view()),
            Err(error) => environment_of(plan@, parameters.deep_view()) == Err::<
                Seq<(Seq<char>, Seq<char>)>,
                Failure,
            >(error@),
        },
{
    if plan.strict && parameters.len() == 0 {
        return Err(
            AwlError::NotFound {
                message: "no parameters found under ".to_owned().concat(
                    text::quote(plan.prefix.as_str()).as_str(),
                ),
            },
        );
    }
    let ghost all = parameters.deep_view();
    let ghost prefix = plan.prefix@;
    let mut variables: Vec<(String, String)> = Vec::new();
    let mut i: usize = 0;
    assert(all.take(0) =~= Seq::empty());
    assert(variables.deep_view() =~= Seq::empty());
    while i < parameters.len()
        invariant
            all == parameters.deep_view(),
            prefix == plan.prefix@,
            environment_of(plan@, all) == variables_of(prefix, all),
            i <= parameters.len(),
            variables_of(prefix, all.take(i as int)) == Ok::<
                Seq<(Seq<char>, Seq<char>)>,
                Failure,
            >(variables.deep_view()),
        decreases parameters.len() - i,
    {
        let ghost before = variables.deep_view();
        proof {
            assert(all.take(i + 1).drop_last() =~= all.take(i as int));
            assert(all.take(i + 1).last() == all[i as int]);
            if variables_of(prefix, all.take(i + 1)) is Err {
                lemma_variables_fail(prefix, all, i + 1);
            }
        }
        if let Some(name) = &parameters[i].0 {
            let value = match &parameters[i].1 {
                Some(value) => value,
                None => {
                    return Err(
                        AwlError::NotFound {
                            message: "parameter ".to_owned().concat(
                                text::quote(name.as_str()).as_str(),
                            ).concat(" has no readable value"),
                        },
                    );
                },
            };
            let variable = match normalize_env_name(plan.prefix.as_str(), name.as_str()) {
                Ok(variable) => variable,
                Err(error) => return Err(error),
            };
            if is_set(&variables, variable.as_str()) {
                return Err(
                    AwlError::usage(
                        "parameter names collide after env normalization: ".to_owned().concat(
                            variable.as_str(),
                        ).as_str(),
                    ),
                );
            }
            variables.push((variable, value.clone()));
            assert(variables.deep_view() =~= before.push((variable@, value@)));
        }
        i += 1;
    }
    assert(all.take(i as int) =~= all);
    Ok(variables)
}

/// No two parameters set one variable.
pub proof fn law_variables_are_distinct(prefix: Seq<char>, parameters: Seq<Given>)
    requires
        variables_of(prefix, parameters) is Ok,
    ensures
        variable_names(variables_of(prefix, parameters)->Ok_0).no_duplicates(),
    decreases parameters.len(),
{
    if parameters.len() > 0 {
        law_variables_are_distinct(prefix, parameters.drop_last());
        let before = variables_of(prefix, parameters.drop_last())->Ok_0;
        let after = variables_of(prefix, parameters)->Ok_0;
        let names = variable_names(after);
        if after != before {
            let last = after.last();
            assert(names =~= variable_names(before).push(last.0));
            assert(!variable_names(before).contains(last.0));
        }
    }
}

/// What `get` reads.
#[derive(Debug)]
pub struct GetPlan {
    pub name: String,
    pub decrypt: bool,
}

/// Which parameter the arguments ask for.
pub open spec fn parameter_asked(args: Seq<Seq<char>>, r: Result<GetPlan, AwlError>) -> bool {
    match r {
        Ok(plan) => {
            &&& common::required_at(common::positionals(args), 0, "name"@) == Ok::<
                Seq<char>,
                Failure,
            >(plan.name@)
            &&& plan.decrypt == !args.contains("--no-decrypt"@)
        },
        Err(error) => common::required_at(
            common::positionals(args),
            0,
            "name"@,
        ) == Err::<Seq<char>, Failure>(error@),
    }
}

/// What `get` reads.
pub fn get_plan(args: &[String]) -> (r: Result<GetPlan, AwlError>)
    ensures
        parameter_asked(args.deep_view(), r),
{
    let words = common::positional(args);
    match common::required(words.as_slice(), 0, "name") {
        Ok(name) => Ok(GetPlan { name, decrypt: !common::has_flag(args, "--no-decrypt") }),
        Err(error) => Err(error),
    }
}

/// A parameter as the service gives it.
#[derive(Debug)]
pub struct ParameterInfo {
    pub name: Option<String>,
    pub kind: Option<String>,
    pub value: Option<String>,
    pub version: i64,
}

/// The record of a parameter.
pub open spec fn parameter_tree(
    name: Option<Seq<char>>,
    kind: Option<Seq<char>>,
    value: Option<Seq<char>>,
    version: Option<i64>,
) -> JsonTree {
    JsonTree::Object(
        map![
            "name"@ => json::optional_text(name),
            "type"@ => json::optional_text(kind),
            "value"@ => json::optional_text(value),
            "version"@ => json::optional_i64(version),
        ],
    )
}

/// The record of a parameter that was asked for.
pub open spec fn found_tree(parameter: Option<ParameterInfo>) -> JsonTree {
    match parameter {
        Some(info) => parameter_tree(
            info.name.deep_view(),
            info.kind.deep_view(),
            info.value.deep_view(),
            Some(info.version),
        ),
        None => parameter_tree(None, None, None, None),
    }
}

/// What is shown of a parameter that was read, as far as the service gives one.
pub fn get_row(parameter: &Option<ParameterInfo>) -> (r: Output)
    ensures
        r@ == Shown::One(found_tree(*parameter)),
{
    let mut row = Fields::new();
    match parameter {
        Some(info) => {
            row.insert("name", Json::optional_string(&info.name));
            row.insert("type", Json::optional_string(&info.kind));
            row.insert("value", Json::optional_string(&info.value));
            row.insert("version", Json::signed(info.version));
        },
        None => {
            row.insert("name", Json::Null);
            row.insert("type", Json::Null);
            row.insert("value", Json::Null);
            row.insert("version", Json::Null);
        },
    }
    Output::One(Json::Object(row))
}

/// What `ls` lists.
#[derive(Debug)]
pub struct ListPlan {
    pub path: String,
    pub recursive: bool,
    pub values: bool,
}

/// Which parameters the arguments list.
pub open spec fn listing_asked(args: Seq<Seq<char>>, r: ListPlan) -> bool {
    &&& r.path@ == client::or_text(
        common::word_at(common::positionals(args), 0),
        "/"@,
    )
    &&& r.recursive == (args.contains("--recursive"@) || args.contains(
        "-r"@,
    ))
    &&& r.values == args.contains("--values"@)
}

/// What `ls` lists.
pub fn list_plan(args: &[String]) -> (r: ListPlan)
    ensures
        listing_asked(args.deep_view(), r),
{
    let words = common::positional(args);
    ListPlan {
        path: client::text_or(common::word(words.as_slice(), 0), "/"),
        recursive: common::has_flag(args, "--recursive") || common::has_flag(args, "-r"),
        values: common::has_flag(args, "--values"),
    }
}

/// The record of a listed parameter, with its value where values are asked for.
pub open spec fn listed_tree(info: ParameterInfo, values: bool) -> JsonTree {
    parameter_tree(
        info.name.deep_view(),
        info.kind.deep_view(),
        if values {
            info.value.deep_view()
        } else {
            None
        },
        Some(info.version),
    )
}

/// The records of the parameters.
pub open spec fn parameters_shown(parameters: Seq<ParameterInfo>, values: bool) -> Shown {
    Shown::Many(
        parameters.map_values(|info: ParameterInfo| listed_tree(info, values)),
    )
}

/// What is shown of listed parameters.
pub fn list_rows(parameters: &Vec<ParameterInfo>, values: bool) -> (r: Output)
    ensures
        r@ == parameters_shown(parameters@, values),
{
    let mut rows: Vec<Json> = Vec::new();
    let mut i: usize = 0;
    while i < parameters.len()
        invariant
            i <= parameters.len(),
            rows@.len() == i,
            forall|j: int|
                0 <= j < i ==> (#[trigger] rows@[j]).tree() == listed_tree(parameters@[j], values),
        decreases parameters.len() - i,
    {
        let info = &parameters[i];
        let mut row = Fields::new();
        row.insert("name", Json::optional_string(&info.name));
        row.insert("type", Json::optional_string(&info.kind));
        row.insert(
            "value",
            if values {
                Json::optional_string(&info.value)
            } else {
                Json::Null
            },
        );
        row.insert("version", Json::signed(info.version));
        rows.push(Json::Object(row));
        i += 1;
    }
    assert(json::trees(rows@) =~= parameters@.map_values(
        |info: ParameterInfo| listed_tree(info, values),
    ));
    Output::Many(rows)
}

/// What `put` writes.
#[derive(Debug)]
pub struct PutPlan {
    pub name: String,
    pub value: String,
    pub kind: String,
    pub overwrite: bool,
    pub kms_key: Option<String>,
}

/// Which parameter the arguments set, and how.
pub open spec fn parameter_given(
    args: Seq<Seq<char>>,
    variable: Option<Seq<char>>,
    r: Result<PutPlan, AwlError>,
) -> bool {
    let words = common::positionals(args);
    match r {
        Ok(plan) => {
            &&& common::required_at(words, 0, "name"@) == Ok::<Seq<char>, Failure>(
                plan.name@,
            )
            &&& common::required_at(words, 1, "value"@) == Ok::<Seq<char>, Failure>(
                plan.value@,
            )
            &&& plan.kind@ == client::or_text(common::option_of(args, "--type"@), "String"@)
            &&& plan.overwrite == args.contains("--overwrite"@)
            &&& plan.kms_key.deep_view() == client::first_of(
                common::option_of(args, "--kms-key"@),
                variable,
            )
        },
        Err(error) => match common::required_at(words, 0, "name"@) {
            Err(failure) => error@ == failure,
            Ok(_) => common::required_at(words, 1, "value"@) == Err::<Seq<char>, Failure>(
                error@,
            ),
        },
    }
}

/// What `put` writes; the value of `AWL_SSM_KMS_KEY` is given.
pub fn put_plan(args: &[String], variable: Option<String>) -> (r: Result<PutPlan, AwlError>)
    ensures
        parameter_given(args.deep_view(), variable.deep_view(), r),
{
    let words = common::positional(args);
    let name = match common::required(words.as_slice(), 0, "name") {
        Ok(name) => name,
        Err(error) => return Err(error),
    };
    let value = match common::required(words.as_slice(), 1, "value") {
        Ok(value) => value,
        Err(error) => return Err(error),
    };
    Ok(
        PutPlan {
            name,
            value,
            kind: client::text_or(common::option_value(args, "--type"), "String"),
            overwrite: common::has_flag(args, "--overwrite"),
            kms_key: client::first_text(common::option_value(args, "--kms-key"), variable),
        },
    )
}

/// The record of a parameter that was set.
pub open spec fn put_tree(name: Seq<char>, version: i64) -> JsonTree {
    JsonTree::Object(
        map!["name"@ => JsonTree::Text(name), "version"@ => json::whole(version as int)],
    )
}

/// What is shown of a parameter that was written.
pub fn put_row(name: &str, version: i64) -> (r: Output)
    ensures
        r@ == Shown::One(put_tree(name@, version)),
{
    let mut row = Fields::new();
    row.insert("name", Json::text(name));
    row.insert("version", Json::signed(version));
    Output::One(Json::Object(row))
}

/// The parameter that `rm` removes.
pub fn rm_plan(args: &[String]) -> (r: Result<String, AwlError>)
    ensures
        told(r) == common::required_at(common::positionals(args.deep_view()), 0, "name"@),
{
    let words = common::positional(args);
    common::required(words.as_slice(), 0, "name")
}

/// The record of a parameter that was removed.
pub open spec fn removed_tree(name: Seq<char>) -> JsonTree {
    JsonTree::Object(
        map!["name"@ => JsonTree::Text(name), "deleted"@ => JsonTree::Bool(true)],
    )
}

/// What is shown of a parameter that was removed.
pub fn rm_row(name: &str) -> (r: Output)
    ensures
        r@ == Shown::One(removed_tree(name@)),
{
    let mut row = Fields::new();
    row.insert("name", Json::text(name));
    row.insert("deleted", Json::Bool(true));
    Output::One(Json::Object(row))
}

/// The variable of a parameter is named by what follows the prefix, character by
/// character: a letter in upper case, a digit as it is, and any other as an
/// underscore. The prefix itself makes no difference.
pub proof fn law_variable_is_named_below_prefix(prefix: Seq<char>, rest: Seq<char>, i: int)
    requires
        prefix.len() == 0 || prefix.last() != '/',
        rest.len() > 0,
        rest[0] != '/',
        0 <= i < rest.len(),
    ensures
        env_name(prefix, prefix + seq!['/'] + rest) matches Ok(name) && name.len() == rest.len() && {
            let c = rest[i];
            if 'a' <= c <= 'z' {
                name[i] == (c as u32 - 32) as char
            } else if 'A' <= c <= 'Z' || '0' <= c <= '9' {
                name[i] == c
            } else {
                name[i] == '_'
            }
        },
        env_name(prefix + seq!['/'], prefix + seq!['/'] + rest) == env_name(
            prefix,
            prefix + seq!['/'] + rest,
        ),
{
    let whole = prefix + seq!['/'] + rest;
    assert(text::trimmed_end(prefix, '/') == prefix);
    assert((prefix + seq!['/']).drop_last() =~= prefix);
    assert(text::trimmed_end(prefix + seq!['/'], '/') == prefix);
    assert(prefix.is_prefix_of(whole));
    let below = whole.skip(prefix.len() as int);
    assert(below =~= seq!['/'] + rest);
    assert(below.skip(1) =~= rest);
    assert(text::trimmed_start(rest, '/') == rest);
    assert(below_prefix(prefix, whole) == rest);
}

/// A parameter of which nothing follows the prefix gives no variable.
pub proof fn law_empty_variable_is_refused(prefix: Seq<char>)
    requires
        prefix.len() == 0 || prefix.last() != '/',
    ensures
        env_name(prefix, prefix) matches Err(Failure::Usage(_)),
        env_name(prefix, prefix + seq!['/']) matches Err(Failure::Usage(_)),
{
    assert(text::trimmed_end(prefix, '/') == prefix);
    assert(prefix.is_prefix_of(prefix));
    assert(prefix.skip(prefix.len() as int) =~= Seq::empty());
    let whole = prefix + seq!['/'];
    assert(prefix.is_prefix_of(whole));
    assert(whole.skip(prefix.len() as int) =~= seq!['/']);
    assert(seq!['/'].skip(1) =~= Seq::empty());
    assert(text::trimmed_start(seq!['/'], '/') == text::trimmed_start(seq!['/'].skip(1), '/'));
}

/// A command runs with what the store holds: each parameter adds the variable of
/// its name with its value, after those before it, unless one of them has that
/// name already; a parameter without a name adds none, and one without a value is
/// refused.
pub proof fn law_each_parameter_adds_its_variable(
    prefix: Seq<char>,
    parameters: Seq<Given>,
    name: Seq<char>,
    value: Seq<char>,
)
    requires
        variables_of(prefix, parameters) is Ok,
    ensures
        variables_of(prefix, parameters.push((None, Some(value)))) == variables_of(
            prefix,
            parameters,
        ),
        variables_of(prefix, parameters.push((Some(name), None))) matches Err(Failure::NotFound(_)),
        env_name(prefix, name) matches Ok(variable) ==> {
            let before = variables_of(prefix, parameters)->Ok_0;
            let after = variables_of(prefix, parameters.push((Some(name), Some(value))));
            let taken = exists|i: int| 0 <= i < before.len() && (#[trigger] before[i]).0 == variable;
            &&& !taken ==> after == Ok::<Seq<(Seq<char>, Seq<char>)>, Failure>(
                before.push((variable, value)),
            )
            &&& taken ==> (after matches Err(Failure::Usage(_)))
        },
        variables_of(prefix, Seq::empty()) == Ok::<Seq<(Seq<char>, Seq<char>)>, Failure>(
            Seq::empty(),
        ),
{
    let before = variables_of(prefix, parameters)->Ok_0;
    assert(parameters.push((None, Some(value))).drop_last() =~= parameters);
    assert(parameters.push((Some(name), None)).drop_last() =~= parameters);
    assert(parameters.push((Some(name), Some(value))).drop_last() =~= parameters);
    let names = variable_names(before);
    if let Ok(variable) = env_name(prefix, name) {
        if names.contains(variable) {
            let i = choose|i: int| 0 <= i < names.len() && names[i] == variable;
            assert(before[i].0 == variable);
        }
        if exists|i: int| 0 <= i < before.len() && (#[trigger] before[i]).0 == variable {
            let i = choose|i: int| 0 <= i < before.len() && (#[trigger] before[i]).0 == variable;
            assert(names[i] == variable);
        }
    }
}

/// A strict command is refused where nothing is found; otherwise strictness makes
/// no difference.
pub proof fn law_strict_needs_parameters(plan: Execution, parameters: Seq<Given>)
    ensures
        plan.strict && parameters.len() == 0 ==> environment_of(plan, parameters) matches Err(
            Failure::NotFound(_),
        ),
        parameters.len() > 0 || !plan.strict ==> environment_of(plan, parameters) == variables_of(
            plan.prefix,
            parameters,
        ),
{
}

/// What is run is what follows the first double dash: the command and its
/// arguments, as they are, under the prefix of the option or else of the
/// environment.
pub proof fn law_command_follows_the_dashes(
    before: Seq<Seq<char>>,
    command: Seq<char>,
    rest: Seq<Seq<char>>,
    variable: Option<Seq<char>>,
)
    requires
        forall|i: int| 0 <= i < before.len() ==> #[trigger] before[i] != "--"@,
    ensures
        ({
            let args = before + seq!["--"@, command] + rest;
            let prefix = if common::option_of(args, "--prefix"@) is Some {
                common::option_of(args, "--prefix"@)
            } else {
                variable
            };
            match prefix {
                Some(prefix) => execution_of(args, variable) matches Ok(plan) && plan.prefix
                    == prefix && plan.command == command && plan.command_args == rest
                    && plan.strict == args.contains("--strict"@),
                None => execution_of(args, variable) matches Err(Failure::Usage(_)),
            }
        }),
        execution_of(before, variable) matches Err(Failure::Usage(_)),
        execution_of(before + seq!["--"@], variable) matches Err(Failure::Usage(_)),
{
    let args = before + seq!["--"@, command] + rest;
    let n = before.len() as int;
    lemma_marker(args, 0, n);
    lemma_marker(before, 0, n);
    lemma_marker(before + seq!["--"@], 0, n);
    assert(args[n] == "--"@ && args[n + 1] == command);
    assert((before + seq!["--"@])[n] == "--"@);
    assert(args.skip(n + 2) =~= rest);
}

proof fn lemma_marker(args: Seq<Seq<char>>, i: int, n: int)
    requires
        0 <= i <= n <= args.len(),
        forall|k: int| 0 <= k < n ==> #[trigger] args[k] != "--"@,
    ensures
        marker_from(args, i) == marker_from(args, n),
    decreases n - i,
{
    if i < n {
        lemma_marker(args, i + 1, n);
    }
}

/// A listing shows a value only where values were asked for.
pub proof fn law_values_are_shown_on_request(info: ParameterInfo)
    ensures
        output::shows(
            listed_tree(info, true),
            "value"@,
            output::written_text(info.value.deep_view()),
        ),
        output::shows(listed_tree(info, false), "value"@, Seq::empty()),
        output::shows(
            listed_tree(info, false),
            "name"@,
            output::written_text(info.name.deep_view()),
        ),
{
    law_parameter_row_shows_it(
        info.name.deep_view(),
        info.kind.deep_view(),
        info.value.deep_view(),
        Some(info.version),
    );
    law_parameter_row_shows_it(
        info.name.deep_view(),
        info.kind.deep_view(),
        None,
        Some(info.version),
    );
}

/// The record of a parameter shows its name, its type, its value and its version.
pub proof fn law_parameter_row_shows_it(
    name: Option<Seq<char>>,
    kind: Option<Seq<char>>,
    value: Option<Seq<char>>,
    version: Option<i64>,
)
    ensures
        output::shows(
            parameter_tree(name, kind, value, version),
            "name"@,
            output::written_text(name),
        ),
        output::shows(
            parameter_tree(name, kind, value, version),
            "type"@,
            output::written_text(kind),
        ),
        output::shows(
            parameter_tree(name, kind, value, version),
            "value"@,
            output::written_text(value),
        ),
        output::shows(
            parameter_tree(name, kind, value, version),
            "version"@,
            output::written_number(version),
        ),
{
    reveal_strlit("name");
    reveal_strlit("type");
    reveal_strlit("value");
    reveal_strlit("version");
    assert("name"@.len() == 4);
    assert("type"@.len() == 4);
    assert("value"@.len() == 5);
    assert("version"@.len() == 7);
    assert("name"@[0] != "type"@[0]);
    let fields = parameter_tree(name, kind, value, version)->Object_0;
    output::lemma_shows(fields, "name"@);
    output::lemma_shows(fields, "type"@);
    output::lemma_shows(fields, "value"@);
    output::lemma_shows(fields, "version"@);
}

/// A parameter is decrypted unless that is declined.
pub proof fn law_parameter_is_as_asked(words: Seq<Seq<char>>, r: Result<GetPlan, AwlError>)
    requires
        common::are_words(words),
    ensures
        words.len() > 0 && parameter_asked(words, r) ==> (r matches Ok(plan) && plan.name@ == words[0]
            && plan.decrypt),
        words.len() > 0 && parameter_asked(words.push("--no-decrypt"@), r) ==> (r matches Ok(plan)
            && plan.name@ == words[0] && !plan.decrypt),
        words.len() == 0 && parameter_asked(words, r) ==> (r matches Err(error) && error@ is Usage),
{
    common::law_flags_take_no_value();
    common::law_words_give_no_option(words);
    common::law_flag_among_words(words, "--no-decrypt"@);
}

/// A listing is of the path that the first word names, or of all; what lies deeper
/// and the values are listed on request.
pub proof fn law_listing_is_as_asked(words: Seq<Seq<char>>, r: ListPlan)
    requires
        common::are_words(words),
        !words.contains("-r"@),
    ensures
        listing_asked(words, r) ==> !r.recursive && !r.values && r.path@ == (if words.len() > 0 {
            words[0]
        } else {
            "/"@
        }),
        listing_asked(words.push("--recursive"@), r) ==> r.recursive && !r.values,
        words.len() > 0 && listing_asked(words.push("-r"@), r) ==> r.recursive && !r.values
            && r.path@ == words[0],
        listing_asked(words.push("--values"@), r) ==> !r.recursive && r.values,
        words.len() > 0 && listing_asked(words.push("--values"@), r) ==> r.path@ == words[0],
{
    reveal_strlit("-r");
    reveal_strlit("--");
    reveal_strlit("--recursive");
    reveal_strlit("--values");
    assert("-r"@.len() == 2 && "--recursive"@.len() == 11 && "--values"@.len() == 8);
    common::lemma_names_option("--recursive"@);
    common::lemma_names_option("--values"@);
    common::law_words_give_no_option(words);
    common::law_flag_among_words(words, "--recursive"@);
    common::law_flag_among_words(words, "--values"@);
    let short = words.push("-r"@);
    assert(!common::is_option("-r"@)) by {
        if common::is_option("-r"@) {
            assert("--"@ =~= "-r"@.subrange(0, 2));
            assert("-r"@.subrange(0, 2)[1] == "-r"@[1]);
        }
    }
    common::law_words_give_no_option(short);
    assert(short[words.len() as int] == "-r"@);
    lemma_pushed(words, "--recursive"@, "-r"@);
    lemma_pushed(words, "--values"@, "-r"@);
}

proof fn lemma_pushed(words: Seq<Seq<char>>, word: Seq<char>, other: Seq<char>)
    requires
        word != other,
    ensures
        words.push(word).contains(other) <==> words.contains(other),
{
    let all = words.push(word);
    if all.contains(other) {
        let k = choose|k: int| 0 <= k < all.len() && all[k] == other;
        assert(words[k] == other);
    }
    if words.contains(other) {
        let k = choose|k: int| 0 <= k < words.len() && words[k] == other;
        assert(all[k] == other);
    }
}

/// A parameter is set to the second word, as a plain text that replaces none and
/// under the key of the environment, unless its options or its flag say otherwise.
pub proof fn law_parameter_is_given_as_asked(
    words: Seq<Seq<char>>,
    value: Seq<char>,
    variable: Option<Seq<char>>,
    r: Result<PutPlan, AwlError>,
)
    requires
        common::are_words(words),
        words.len() > 1,
        !common::is_option(value),
    ensures
        parameter_given(words, variable, r) ==> (r matches Ok(plan) && plan.name@ == words[0]
            && plan.value@ == words[1] && plan.kind@ == "String"@ && !plan.overwrite
                && plan.kms_key.deep_view() == variable),
        parameter_given(words.push("--type"@).push(value), variable, r) ==> (r matches Ok(plan) && plan.name@ == words[0]
            && plan.value@ == words[1] && plan.kind@ == value && !plan.overwrite
                && plan.kms_key.deep_view() == variable),
        parameter_given(words.push("--kms-key"@).push(value), variable, r) ==> (r matches Ok(plan) && plan.name@ == words[0]
            && plan.value@ == words[1] && plan.kms_key.deep_view() == Some(value)
                && plan.kind@ == "String"@),
        parameter_given(words.push("--overwrite"@), variable, r) ==> (r matches Ok(plan) && plan.name@ == words[0]
            && plan.value@ == words[1] && plan.overwrite && plan.kind@ == "String"@
                && plan.kms_key.deep_view() == variable),
        parameter_given(words.take(1), variable, r) ==> (r matches Err(error) && error@ is Usage),
{
    reveal_strlit("--type");
    reveal_strlit("--kms-key");
    reveal_strlit("--overwrite");
    assert("--type"@.len() == 6);
    assert("--kms-key"@.len() == 9);
    assert("--overwrite"@.len() == 11);
    common::law_options_take_values();
    common::law_flags_take_no_value();
    common::law_words_give_no_option(words);
    common::law_option_among_words(words, "--type"@, value);
    common::law_option_among_words(words, "--kms-key"@, value);
    common::law_flag_among_words(words, "--overwrite"@);
    assert(common::are_words(words.take(1)));
    common::law_words_give_no_option(words.take(1));
}

/// The record of a parameter that was set shows its version.
pub proof fn law_put_row_shows_it(name: Seq<char>, version: i64)
    ensures
        output::shows(put_tree(name, version), "name"@, name),
        output::shows(
            put_tree(name, version),
            "version"@,
            crate::number::signed_decimal(version as int),
        ),
{
    reveal_strlit("name");
    reveal_strlit("version");
    assert("name"@.len() == 4);
    assert("version"@.len() == 7);
    let fields = put_tree(name, version)->Object_0;
    output::lemma_shows(fields, "name"@);
    output::lemma_shows(fields, "version"@);
}

/// The record of a parameter that was removed says so.
pub proof fn law_removed_row_shows_it(name: Seq<char>)
    ensures
        output::shows(removed_tree(name), "name"@, name),
        output::shows(removed_tree(name), "deleted"@, "true"@),
{
    reveal_strlit("name");
    reveal_strlit("deleted");
    assert("name"@.len() == 4);
    assert("deleted"@.len() == 7);
    let fields = removed_tree(name)->Object_0;
    output::lemma_shows(fields, "name"@);
    output::lemma_shows(fields, "deleted"@);
}

/// The record of a parameter shows each thing that is known of it.
pub proof fn law_found_row_shows_it(info: ParameterInfo)
    ensures
        output::shows(found_tree(Some(info)), "name"@, output::written_text(info.name.deep_view())),
        output::shows(found_tree(Some(info)), "type"@, output::written_text(info.kind.deep_view())),
        output::shows(
            found_tree(Some(info)),
            "value"@,
            output::written_text(info.value.deep_view()),
        ),
        output::shows(
            found_tree(Some(info)),
            "version"@,
            crate::number::signed_decimal(info.version as int),
        ),
{
    reveal_strlit("name");
    reveal_strlit("type");
    reveal_strlit("value");
    reveal_strlit("version");
    assert("name"@.len() == 4);
    assert("type"@.len() == 4);
    assert("value"@.len() == 5);
    assert("version"@.len() == 7);
    assert("name"@[0] != "type"@[0]);
    let fields = found_tree(Some(info))->Object_0;
    output::lemma_shows(fields, "name"@);
    output::lemma_shows(fields, "type"@);
    output::lemma_shows(fields, "value"@);
    output::lemma_shows(fields, "version"@);
}

/// There is a record for each of the parameters, in order.
pub proof fn law_list_rows_are_all_shown(parameters: Seq<ParameterInfo>, values: bool, i: int)
    requires
        0 <= i < parameters.len(),
    ensures
        parameters_shown(parameters, values) matches Shown::Many(rows) && rows.len() == parameters.len() && rows[i]
            == listed_tree(parameters[i], values),
{
}

} // verus!
