//! How the connection to AWS is set up.
use vstd::prelude::*;

use crate::cli::{Command, Globals};
use crate::error::{AwlError, Failure};
use crate::number;
use crate::text;

verus! {

/// The first of two texts that is there.
pub open spec fn first_of(a: Option<Seq<char>>, b: Option<Seq<char>>) -> Option<Seq<char>> {
    match a {
        Some(s) => Some(s),
        None => b,
    }
}

/// A text, or another where there is none.
pub open spec fn or_text(a: Option<Seq<char>>, b: Seq<char>) -> Seq<char> {
    match a {
        Some(s) => s,
        None => b,
    }
}

/// The first of two texts that is there.
pub fn first_text(a: Option<String>, b: Option<String>) -> (r: Option<String>)
    ensures
        r.deep_view() == first_of(a.deep_view(), b.deep_view()),
{
    match a {
        Some(s) => Some(s),
        None => b,
    }
}

/// A text, or another where there is none.
pub fn text_or(a: Option<String>, b: &str) -> (r: String)
    ensures
        r@ == or_text(a.deep_view(), b@),
{
    match a {
        Some(s) => s,
        None => b.to_owned(),
    }
}

/// A copy of an optional text.
pub fn copy_text(a: &Option<String>) -> (r: Option<String>)
    ensures
        r.deep_view() == a.deep_view(),
{
    match a {
        Some(s) => Some(s.clone()),
        None => None,
    }
}

/// The environment variable that gives a service its endpoint.
pub fn endpoint_key(service: &str) -> (r: String)
    ensures
        r@ == "AWS_ENDPOINT_URL_"@ + service@,
{
    "AWS_ENDPOINT_URL_".to_owned().concat(service)
}

/// The endpoint of a service, where it is not the default one: that of the
/// command line, or else of the service's own environment variable, or else of
/// `AWS_ENDPOINT_URL`. The two variables' values are given.
pub fn endpoint_for(
    globals: &Globals,
    service_value: Option<String>,
    general_value: Option<String>,
) -> (r: Option<String>)
    ensures
        r.deep_view() == first_of(
            globals.endpoint_url.deep_view(),
            first_of(service_value.deep_view(), general_value.deep_view()),
        ),
{
    first_text(copy_text(&globals.endpoint_url), first_text(service_value, general_value))
}

/// A role to be assumed.
#[derive(Debug)]
pub struct RolePlan {
    pub role_arn: String,
    pub session_name: String,
}

/// The name of a session that was given none, at a time in seconds.
pub open spec fn default_session(now: i64) -> Seq<char> {
    "awl-"@ + number::signed_decimal(now as int)
}

/// The name of a session that was given none, at a time in seconds.
pub fn session_name(now: i64) -> (r: String)
    ensures
        r@ == default_session(now),
{
    "awl-".to_owned().concat(number::i64_text(now).as_str())
}

/// The role that the command line asks for.
pub open spec fn role_asked(
    globals: Globals,
    now: i64,
    r: Result<Option<RolePlan>, AwlError>,
) -> bool {
    match r {
        Ok(None) => globals.role_arn is None,
        Ok(Some(plan)) => {
            &&& globals.role_arn.deep_view() == Some(plan.role_arn@)
            &&& globals.mfa_token is None
            &&& plan.session_name@ == or_text(
                globals.role_session_name.deep_view(),
                default_session(now),
            )
        },
        Err(error) => {
            &&& globals.role_arn is Some
            &&& globals.mfa_token is Some
            &&& error@ == Failure::Usage(
                "global --mfa-token is only supported by `awl sts assume` for now"@,
            )
        },
    }
}

/// The role that is assumed before a command runs, at a time in seconds. An MFA
/// token cannot be used for that.
pub fn role_plan(globals: &Globals, now: i64) -> (r: Result<Option<RolePlan>, AwlError>)
    ensures
        role_asked(*globals, now, r),
{
    match &globals.role_arn {
        None => Ok(None),
        Some(role_arn) => {
            if globals.mfa_token.is_some() {
                return Err(
                    AwlError::usage(
                        "global --mfa-token is only supported by `awl sts assume` for now",
                    ),
                );
            }
            let name = match &globals.role_session_name {
                Some(name) => name.clone(),
                None => session_name(now),
            };
            Ok(Some(RolePlan { role_arn: role_arn.clone(), session_name: name }))
        },
    }
}

/// How requests are tried again.
#[derive(Debug, Clone, Copy, PartialEq, Eq, Structural)]
pub enum RetryMode {
    /// By the rules that all SDKs of AWS share.
    Standard,
    /// By those rules, and with requests held back where the service is busy.
    Adaptive,
}

/// The retry mode that a name stands for, where it stands for one: white space at
/// its ends and the case of its letters do not count.
pub open spec fn mode_named(name: Seq<char>) -> Option<RetryMode> {
    let name = text::blank_end(text::blank_start(name));
    if text::same_letters(name, "standard"@) {
        Some(RetryMode::Standard)
    } else if text::same_letters(name, "adaptive"@) {
        Some(RetryMode::Adaptive)
    } else {
        None
    }
}

/// The retry mode that was asked for: a name that stands for none asks for none.
pub open spec fn mode_asked(name: Option<Seq<char>>) -> Option<RetryMode> {
    match name {
        Some(name) => mode_named(name),
        None => None,
    }
}

/// How requests are tried again, as far as the command line and the environment
/// say: what is `None` is left to the SDK and its profiles.
#[derive(Debug)]
pub struct RetryPlan {
    pub mode: Option<RetryMode>,
    pub max_attempts: Option<u32>,
}

/// How the command line asks for retries.
pub open spec fn retries_asked(globals: Globals, r: RetryPlan) -> bool {
    &&& r.max_attempts == globals.max_attempts
    &&& r.mode == (match mode_asked(globals.retry_mode.deep_view()) {
        Some(mode) => Some(mode),
        None => if globals.max_attempts is Some {
            Some(RetryMode::Standard)
        } else {
            None
        },
    })
}

/// How requests are tried again: in the mode that was asked for, and with as many
/// attempts. Attempts without a mode are made in the standard mode.
pub fn retry_plan(globals: &Globals) -> (r: RetryPlan)
    ensures
        retries_asked(*globals, r),
{
    let asked: Option<RetryMode> = match &globals.retry_mode {
        Some(name) => {
            let name = text::trim(name.as_str());
            if text::same_ignoring_case(name, "standard") {
                Some(RetryMode::Standard)
            } else if text::same_ignoring_case(name, "adaptive") {
                Some(RetryMode::Adaptive)
            } else {
                None
            }
        },
        None => None,
    };
    let mode: Option<RetryMode> = match asked {
        Some(mode) => Some(mode),
        None => if globals.max_attempts.is_some() {
            Some(RetryMode::Standard)
        } else {
            None
        },
    };
    RetryPlan { mode, max_attempts: globals.max_attempts }
}

/// A place where the region is looked for.
#[derive(Debug)]
pub enum RegionSource {
    /// This region.
    Given(String),
    /// The SDK's default chain, for a profile where one is named. Its last link
    /// is the instance metadata service.
    DefaultChain(Option<String>),
    /// The environment variables.
    Environment,
    /// The profile files, for a profile where one is named.
    ProfileFiles(Option<String>),
}

/// The meaning of a `RegionSource`.
pub enum Lookup {
    Given(Seq<char>),
    DefaultChain(Option<Seq<char>>),
    Environment,
    ProfileFiles(Option<Seq<char>>),
}

impl View for RegionSource {
    type V = Lookup;

    open spec fn view(&self) -> Lookup {
        match self {
            RegionSource::Given(region) => Lookup::Given(region@),
            RegionSource::DefaultChain(profile) => Lookup::DefaultChain(profile.deep_view()),
            RegionSource::Environment => Lookup::Environment,
            RegionSource::ProfileFiles(profile) => Lookup::ProfileFiles(profile.deep_view()),
        }
    }
}

/// The places where the region is looked for, one after the other.
pub open spec fn lookups(
    region: Option<Seq<char>>,
    profile: Option<Seq<char>>,
    metadata: bool,
) -> Seq<Lookup> {
    let given = match region {
        Some(region) => seq![Lookup::Given(region)],
        None => Seq::empty(),
    };
    let between = if metadata {
        seq![Lookup::DefaultChain(profile)]
    } else {
        seq![Lookup::Environment, Lookup::ProfileFiles(profile)]
    };
    given + between + seq![Lookup::Given("us-east-1"@)]
}

/// The places where the region is looked for, one after the other: the command
/// line, then the SDK's default chain or, where the instance metadata service is
/// not to be asked, the environment and the profile files, and then `us-east-1`.
pub fn region_sources(globals: &Globals, metadata: bool) -> (r: Vec<RegionSource>)
    ensures
        r@.map_values(|source: RegionSource| source@) == lookups(
            globals.region.deep_view(),
            globals.profile.deep_view(),
            metadata,
        ),
{
    let mut sources: Vec<RegionSource> = Vec::new();
    if let Some(region) = &globals.region {
        sources.push(RegionSource::Given(region.clone()));
    }
    if metadata {
        sources.push(RegionSource::DefaultChain(copy_text(&globals.profile)));
    } else {
        sources.push(RegionSource::Environment);
        sources.push(RegionSource::ProfileFiles(copy_text(&globals.profile)));
    }
    sources.push(RegionSource::Given("us-east-1".to_owned()));
    assert(sources@.map_values(|source: RegionSource| source@) =~= lookups(
        globals.region.deep_view(),
        globals.profile.deep_view(),
        metadata,
    ));
    sources
}

/// Whether a command may ask the instance metadata service for its region. The
/// identity commands may not.
pub fn asks_metadata(command: &Command) -> (r: bool)
    ensures
        r == !(command is Sts),
{
    !matches!(command, Command::Sts(_))
}

/// Without the default chain nothing asks the instance metadata service.
pub proof fn law_no_metadata_lookup(
    region: Option<Seq<char>>,
    profile: Option<Seq<char>>,
    i: int,
)
    requires
        0 <= i < lookups(region, profile, false).len(),
    ensures
        !(lookups(region, profile, false)[i] is DefaultChain),
{
}

/// There is always a region: the last place gives one, and a region on the
/// command line comes first.
pub proof fn law_region_is_found(
    region: Option<Seq<char>>,
    profile: Option<Seq<char>>,
    metadata: bool,
)
    ensures
        lookups(region, profile, metadata).last() == Lookup::Given("us-east-1"@),
        region matches Some(name) ==> lookups(region, profile, metadata)[0] == Lookup::Given(name),
{
}

/// What is given first counts: a text is taken from where it is given, in order,
/// and otherwise from what stands for it.
pub proof fn law_first_given_counts(
    a: Option<Seq<char>>,
    b: Option<Seq<char>>,
    c: Option<Seq<char>>,
    other: Seq<char>,
)
    ensures
        a is Some ==> first_of(a, first_of(b, c)) == a,
        a is None && b is Some ==> first_of(a, first_of(b, c)) == b,
        a is None && b is None ==> first_of(a, first_of(b, c)) == c,
        a matches Some(s) ==> or_text(a, other) == s,
        a is None ==> or_text(a, other) == other,
{
}

/// The name of a session that was given none tells when it began: the number at
/// its end is read back as that time.
pub proof fn law_session_name_tells_the_time(now: i64)
    ensures
        text::without_prefix(default_session(now), "awl-"@) matches Some(digits)
            && number::signed_value(digits, i64::MIN as int, i64::MAX as int) == Some(now as int),
{
    let digits = number::signed_decimal(now as int);
    number::law_decimal_is_read_back(now as int, i64::MIN as int, i64::MAX as int);
    assert("awl-"@.is_prefix_of(default_session(now)));
    assert(default_session(now).skip("awl-"@.len() as int) =~= digits);
}

/// Each retry mode is known by its name in small letters, and a name of another
/// length by no mode.
pub proof fn law_retry_mode_has_its_name(name: Seq<char>)
    ensures
        mode_named("standard"@) == Some(RetryMode::Standard),
        mode_named("adaptive"@) == Some(RetryMode::Adaptive),
        name.len() < 8 ==> mode_named(name) is None,
        mode_asked(None) is None,
        mode_asked(Some(name)) == mode_named(name),
{
    reveal_strlit("standard");
    reveal_strlit("adaptive");
    assert("standard"@.len() == 8 && "adaptive"@.len() == 8);
    assert(text::blank_start("standard"@) == "standard"@);
    assert(text::blank_end("standard"@) == "standard"@);
    assert(text::blank_start("adaptive"@) == "adaptive"@);
    assert(text::blank_end("adaptive"@) == "adaptive"@);
    assert(text::same_letters("standard"@, "standard"@));
    assert(text::same_letters("adaptive"@, "adaptive"@));
    assert(text::lowered("adaptive"@[0]) != text::lowered("standard"@[0]));
    assert(!text::same_letters("adaptive"@, "standard"@));
    let (a, b) = text::law_blank(name);
}

/// The regions that are tried: the given one first, then those that the
/// environment and the profiles give, and at last the first region of AWS.
pub proof fn law_given_region_is_first(
    region: Seq<char>,
    profile: Option<Seq<char>>,
    metadata: bool,
)
    ensures
        lookups(Some(region), profile, metadata)[0] == Lookup::Given(region),
        lookups(Some(region), profile, metadata).skip(1) == lookups(None, profile, metadata),
        lookups(None, profile, metadata).last() == Lookup::Given("us-east-1"@),
        lookups(None, profile, true)[0] == Lookup::DefaultChain(profile),
        lookups(None, profile, false)[0] == Lookup::Environment,
        lookups(None, profile, false)[1] == Lookup::ProfileFiles(profile),
        lookups(None, profile, true).len() == 2,
        lookups(None, profile, false).len() == 3,
{
    assert(lookups(Some(region), profile, metadata).skip(1) =~= lookups(None, profile, metadata));
}

/// A role is taken where one is named, under the session name that is given; a token
/// is refused there, and does nothing without a role.
pub proof fn law_role_is_taken_as_named(
    globals: Globals,
    now: i64,
    r: Result<Option<RolePlan>, AwlError>,
)
    requires
        role_asked(globals, now, r),
    ensures
        globals.role_arn is None ==> r matches Ok(None),
        globals.role_arn is Some && globals.mfa_token is Some ==> (r matches Err(error)
            && error@ is Usage),
        globals.role_arn is Some && globals.mfa_token is None ==> (r matches Ok(Some(plan))
            && plan.role_arn@ == globals.role_arn->Some_0@ && (globals.role_session_name matches Some(
            name,
        ) ==> plan.session_name@ == name@)),
{
}

/// Requests are tried as often as asked, in the mode that is named; a number of
/// attempts alone has them tried in the standard mode.
pub proof fn law_retries_are_as_asked(globals: Globals, r: RetryPlan)
    requires
        retries_asked(globals, r),
    ensures
        globals.max_attempts == r.max_attempts,
        globals.retry_mode is None && globals.max_attempts is None ==> r.mode is None,
        globals.retry_mode is None && globals.max_attempts is Some ==> r.mode == Some(
            RetryMode::Standard,
        ),
        globals.retry_mode.deep_view() == Some("adaptive"@) ==> r.mode == Some(RetryMode::Adaptive),
        globals.retry_mode.deep_view() == Some("standard"@) ==> r.mode == Some(RetryMode::Standard),
{
    law_retry_mode_has_its_name(Seq::empty());
}

} // verus!
