//! Object storage.
use vstd::hash_set::StringHashSet;
use vstd::prelude::*;

use crate::cli::{
    self, PresignMethod, S3GetArgs, S3LsArgs, S3PresignArgs, S3PutArgs, S3RmArgs, S3SyncArgs,
};
use crate::client;
use crate::error::{told, AwlError, Failure};
use crate::json::{self, Fields, Json, JsonTree};
use crate::number;
use crate::output::{self, Output, Shown};
use crate::text;

verus! {

/// An object, or a group of objects, in a bucket.
#[derive(Debug)]
pub struct S3Uri {
    pub bucket: String,
    pub key: String,
}

/// The meaning of an `S3Uri`.
pub struct Spot {
    pub bucket: Seq<char>,
    pub key: Seq<char>,
}

impl View for S3Uri {
    type V = Spot;

    open spec fn view(&self) -> Spot {
        Spot { bucket: self.bucket@, key: self.key@ }
    }
}

impl Spot {
    /// The URI of an object.
    pub open spec fn uri(self) -> Seq<char> {
        "s3://"@ + self.bucket + "/"@ + self.key
    }
}

/// The bucket and the key of what follows `s3://`.
pub open spec fn spot_of(rest: Seq<char>) -> Spot {
    match text::split_first(rest, "/"@) {
        Some((bucket, key)) => Spot { bucket, key },
        None => Spot { bucket: rest, key: Seq::empty() },
    }
}

/// What a URI names.
pub open spec fn parsed_uri(uri: Seq<char>) -> Result<Spot, Failure> {
    match text::without_prefix(uri, "s3://"@) {
        None => Err(Failure::Usage("expected s3:// URI, got "@ + text::quoted(uri))),
        Some(rest) => if spot_of(rest).bucket.len() == 0 {
            Err(Failure::Usage("S3 URI is missing bucket"@))
        } else {
            Ok(spot_of(rest))
        },
    }
}

/// What a URI names.
pub fn parse_s3_uri(uri: &str) -> (r: Result<S3Uri, AwlError>)
    ensures
        told(r) == parsed_uri(uri@),
{
    let rest = match text::strip_prefix(uri, "s3://") {
        Some(rest) => rest,
        None => {
            return Err(
                AwlError::usage(
                    "expected s3:// URI, got ".to_owned().concat(text::quote(uri).as_str()).as_str(),
                ),
            );
        },
    };
    let (bucket, key): (&str, String) = match text::split_once(rest, "/") {
        Some((bucket, key)) => (bucket, key.to_owned()),
        None => (rest, no_text()),
    };
    if bucket.is_empty() {
        return Err(AwlError::usage("S3 URI is missing bucket"));
    }
    Ok(S3Uri { bucket: bucket.to_owned(), key })
}

/// The empty text.
fn no_text() -> (r: String)
    ensures
        r@ == Seq::<char>::empty(),
{
    let r = String::new();
    assert(r@ =~= Seq::<char>::empty());
    r
}

impl S3Uri {
    /// The URI of an object.
    fn uri(&self) -> (r: String)
        ensures
            r@ == self@.uri(),
    {
        "s3://".to_owned().concat(self.bucket.as_str()).concat("/").concat(self.key.as_str())
    }
}

/// A URI that was put together names what it was put together from, where the
/// bucket is not empty and holds no slash.
pub proof fn law_uri_round_trip(spot: Spot)
    requires
        spot.bucket.len() > 0,
        !spot.bucket.contains('/'),
    ensures
        parsed_uri(spot.uri()) == Ok::<Spot, Failure>(spot),
{
    reveal_strlit("s3://");
    reveal_strlit("/");
    let rest = spot.bucket + "/"@ + spot.key;
    assert(spot.uri() =~= "s3://"@ + rest);
    assert(spot.uri().skip("s3://"@.len() as int) =~= rest);
    assert("/"@ =~= seq!['/']);
    text::lemma_split_first(spot.bucket, '/', spot.key);
}

/// One end of a sync.
#[derive(Debug)]
pub enum Location {
    S3(S3Uri),
    Local(String),
}

/// The meaning of a `Location`.
pub enum End {
    S3(Spot),
    Local(Seq<char>),
}

impl View for Location {
    type V = End;

    open spec fn view(&self) -> End {
        match self {
            Location::S3(uri) => End::S3(uri@),
            Location::Local(path) => End::Local(path@),
        }
    }
}

/// What an argument of a sync names: a valid S3 URI, and otherwise a local path.
pub open spec fn end_of(value: Seq<char>) -> End {
    match parsed_uri(value) {
        Ok(spot) => End::S3(spot),
        Err(_) => End::Local(value),
    }
}

/// What an argument of a sync names.
pub fn parse_location(value: &str) -> (r: Location)
    ensures
        r@ == end_of(value@),
{
    match parse_s3_uri(value) {
        Ok(uri) => Location::S3(uri),
        Err(_) => Location::Local(value.to_owned()),
    }
}

/// The prefix under which the keys of a URI are listed.
pub fn normalized_prefix(prefix: &str) -> (r: String)
    ensures
        r@ == text::trimmed_start(prefix@, '/'),
{
    text::trim_start_matches(prefix, '/').to_owned()
}

/// A key under a prefix.
pub open spec fn joined_key(prefix: Seq<char>, key: Seq<char>) -> Seq<char> {
    let p = text::trimmed(prefix, '/');
    let k = text::trimmed_start(key, '/');
    if p.len() == 0 {
        k
    } else if k.len() == 0 {
        p
    } else {
        p + "/"@ + k
    }
}

/// A key under a prefix.
pub fn join_key(prefix: &str, key: &str) -> (r: String)
    ensures
        r@ == joined_key(prefix@, key@),
{
    let p = text::trim_matches(prefix, '/');
    let k = text::trim_start_matches(key, '/');
    if p.is_empty() {
        k.to_owned()
    } else if k.is_empty() {
        p.to_owned()
    } else {
        p.to_owned().concat("/").concat(k)
    }
}

/// A key as seen from a prefix: what follows the prefix and a slash, or else the
/// key as it is.
pub open spec fn stripped_key(prefix: Seq<char>, key: Seq<char>) -> Seq<char> {
    let p = text::trimmed(prefix, '/');
    if p.len() == 0 {
        key
    } else {
        match text::without_prefix(key, p) {
            Some(rest) => match text::without_prefix(rest, "/"@) {
                Some(inner) => inner,
                None => key,
            },
            None => key,
        }
    }
}

/// A key as seen from a prefix.
pub fn strip_prefix_key(prefix: &str, key: &str) -> (r: String)
    ensures
        r@ == stripped_key(prefix@, key@),
{
    let p = text::trim_matches(prefix, '/');
    if p.is_empty() {
        return key.to_owned();
    }
    match text::strip_prefix(key, p) {
        Some(rest) => match text::strip_prefix(rest, "/") {
            Some(inner) => inner.to_owned(),
            None => key.to_owned(),
        },
        None => key.to_owned(),
    }
}

/// Seen from a prefix, a key that was put under it is itself again, where it is
/// not empty and does not begin with a slash.
pub proof fn law_strip_undoes_join(prefix: Seq<char>, key: Seq<char>)
    requires
        key.len() > 0,
        key[0] != '/',
    ensures
        stripped_key(prefix, joined_key(prefix, key)) == key,
{
    reveal_strlit("/");
    let p = text::trimmed(prefix, '/');
    if p.len() > 0 {
        let whole = p + "/"@ + key;
        assert(joined_key(prefix, key) == whole);
        assert(p.is_prefix_of(whole));
        let rest = whole.skip(p.len() as int);
        assert(rest =~= "/"@ + key);
        assert("/"@.is_prefix_of(rest));
        assert(rest.skip(1) =~= key);
    }
}

/// The texts that are there, in order.
pub open spec fn present(parts: Seq<Option<Seq<char>>>) -> Seq<Seq<char>>
    decreases parts.len(),
{
    if parts.len() == 0 {
        Seq::empty()
    } else {
        match parts.last() {
            Some(part) => present(parts.drop_last()).push(part),
            None => present(parts.drop_last()),
        }
    }
}

/// The key of a path, from its components: those that are text, with slashes
/// between them.
pub fn path_to_key(components: &Vec<Option<String>>) -> (r: String)
    ensures
        r@ == text::joined(present(components.deep_view()), "/"@),
{
    let mut parts: Vec<String> = Vec::new();
    let mut i: usize = 0;
    assert(components.deep_view().take(0) =~= Seq::empty());
    assert(parts.deep_view() =~= Seq::empty());
    while i < components.len()
        invariant
            i <= components.len(),
            parts.deep_view() == present(components.deep_view().take(i as int)),
        decreases components.len() - i,
    {
        let ghost before = parts.deep_view();
        assert(components.deep_view().take(i + 1).drop_last() =~= components.deep_view().take(
            i as int,
        ));
        if let Some(part) = &components[i] {
            parts.push(part.clone());
            assert(parts.deep_view() =~= before.push(part@));
        }
        i += 1;
    }
    assert(components.deep_view().take(i as int) =~= components.deep_view());
    text::join(parts.as_slice(), "/")
}

/// The number and the unit, in seconds, that a duration writes.
pub open spec fn duration_parts(value: Seq<char>) -> (Seq<char>, nat) {
    if value.len() == 0 {
        (value, 1)
    } else if value.last() == 's' {
        (value.drop_last(), 1)
    } else if value.last() == 'm' {
        (value.drop_last(), 60)
    } else if value.last() == 'h' {
        (value.drop_last(), 3600)
    } else if value.last() == 'd' {
        (value.drop_last(), 86400)
    } else {
        (value, 1)
    }
}

/// A number, or `u64::MAX` where it is larger.
pub open spec fn at_most_max(n: nat) -> nat {
    if n > u64::MAX {
        u64::MAX as nat
    } else {
        n
    }
}

/// The seconds of a duration, at most `u64::MAX`: a number with `s`, `m`, `h` or
/// `d` after it, or a number of seconds.
pub open spec fn duration_seconds(value: Seq<char>) -> Result<nat, Failure> {
    let (digits, unit) = duration_parts(value);
    match number::unsigned_value(digits, u64::MAX as nat) {
        Some(n) => Ok(at_most_max(n * unit)),
        None => Err(
            Failure::Usage(
                "invalid duration "@ + text::quoted(value) + ": "@ + number::u64_complaint(digits),
            ),
        ),
    }
}

/// The seconds of a duration.
pub fn parse_duration(value: &str) -> (r: Result<u64, AwlError>)
    ensures
        match r {
            Ok(seconds) => duration_seconds(value@) == Ok::<nat, Failure>(seconds as nat),
            Err(error) => duration_seconds(value@) == Err::<nat, Failure>(error@),
        },
{
    let (digits, unit): (&str, u64) = if let Some(digits) = text::strip_suffix(value, 's') {
        (digits, 1)
    } else if let Some(digits) = text::strip_suffix(value, 'm') {
        (digits, 60)
    } else if let Some(digits) = text::strip_suffix(value, 'h') {
        (digits, 3600)
    } else if let Some(digits) = text::strip_suffix(value, 'd') {
        (digits, 86400)
    } else {
        (value, 1)
    };
    assert((digits@, unit as nat) == duration_parts(value@));
    match number::parse_u64(digits) {
        Ok(n) => match n.checked_mul(unit) {
            Some(seconds) => Ok(seconds),
            None => Ok(u64::MAX),
        },
        Err(message) => Err(
            AwlError::usage(
                "invalid duration ".to_owned().concat(text::quote(value).as_str()).concat(
                    ": ",
                ).concat(message.as_str()).as_str(),
            ),
        ),
    }
}

/// A number with a unit after it is that number of units, up to the longest
/// duration.
pub proof fn law_duration_units(n: nat)
    requires
        n <= u64::MAX,
    ensures
        duration_seconds(number::decimal(n)) == Ok::<nat, Failure>(n),
        duration_seconds(number::decimal(n).push('s')) == Ok::<nat, Failure>(n),
        duration_seconds(number::decimal(n).push('m')) == Ok::<nat, Failure>(at_most_max(n * 60)),
        duration_seconds(number::decimal(n).push('h')) == Ok::<nat, Failure>(
            at_most_max(n * 3600),
        ),
        duration_seconds(number::decimal(n).push('d')) == Ok::<nat, Failure>(
            at_most_max(n * 86400),
        ),
{
    let digits = number::decimal(n);
    number::lemma_decimal(n);
    assert('0' <= digits[0] <= '9');
    assert('0' <= digits[digits.len() - 1] <= '9');
    assert(number::without_plus(digits) == digits);
    assert(at_most_max(n * 1) == n);
    assert(digits.push('s').drop_last() =~= digits);
    assert(digits.push('m').drop_last() =~= digits);
    assert(digits.push('h').drop_last() =~= digits);
    assert(digits.push('d').drop_last() =~= digits);
}

/// A glob.
#[verifier::external_type_specification]
#[verifier::external_body]
pub struct ExGlob(globset::Glob);

/// A set of globs in the making.
#[verifier::external_type_specification]
#[verifier::external_body]
pub struct ExGlobSetBuilder(globset::GlobSetBuilder);

/// A set of globs.
#[verifier::external_type_specification]
#[verifier::external_body]
pub struct ExGlobSet(globset::GlobSet);

/// The pattern of a glob.
pub uninterp spec fn glob_pattern(glob: globset::Glob) -> Seq<char>;

/// The patterns that were added to a builder, in order.
pub uninterp spec fn builder_patterns(builder: globset::GlobSetBuilder) -> Seq<Seq<char>>;

/// The paths that a set matches.
pub uninterp spec fn matched_paths(set: globset::GlobSet) -> Set<Seq<char>>;

/// Why a pattern is no glob, where it is none.
pub uninterp spec fn glob_complaint(pattern: Seq<char>) -> Option<Seq<char>>;

/// A glob with a pattern matches a path.
pub uninterp spec fn glob_matches(pattern: Seq<char>, path: Seq<char>) -> bool;

/// A pattern or a path that means the same on every system: without a backslash,
/// which on some parts a path.
pub open spec fn portable(s: Seq<char>) -> bool {
    !s.contains('\\')
}

/// `globset::Glob::new` gives a glob with the pattern, or an error. Of a portable
/// pattern, whether there is an error, and its message, is a function of the
/// pattern.
#[verifier::external_body]
fn new_glob(pattern: &str) -> (r: Result<globset::Glob, String>)
    ensures
        match r {
            Ok(glob) => glob_pattern(glob) == pattern@ && (portable(pattern@) ==> glob_complaint(
                pattern@,
            ) is None),
            Err(message) => portable(pattern@) ==> glob_complaint(pattern@) == Some(message@),
        },
{
    globset::Glob::new(pattern).map_err(|error| error.to_string())
}

/// `globset::GlobSetBuilder::new` gives a builder without patterns.
#[verifier::external_body]
fn new_builder() -> (r: globset::GlobSetBuilder)
    ensures
        builder_patterns(r) == Seq::<Seq<char>>::empty(),
{
    globset::GlobSetBuilder::new()
}

/// `globset::GlobSetBuilder::add` adds a glob after those that were added before.
#[verifier::external_body]
fn add_glob(builder: &mut globset::GlobSetBuilder, glob: globset::Glob)
    ensures
        builder_patterns(*final(builder)) == builder_patterns(*old(builder)).push(
            glob_pattern(glob),
        ),
{
    builder.add(glob);
}

/// `globset::GlobSetBuilder::build` gives the set of the globs that were added: a
/// set matches a path where any of its globs does. For portable patterns and paths
/// that is a function of both. It may fail where the globs are too large together;
/// when it does, and with which message, is not stated, for the limit is one of
/// memory.
#[verifier::external_body]
fn build_set(builder: &globset::GlobSetBuilder) -> (r: Result<globset::GlobSet, String>)
    ensures
        r matches Ok(set) ==> all_portable(builder_patterns(*builder)) ==> forall|path: Seq<char>|
            portable(path) ==> (#[trigger] matched_paths(set).contains(path) <==> exists|i: int|
                0 <= i < builder_patterns(*builder).len() && #[trigger] glob_matches(
                    builder_patterns(*builder)[i],
                    path,
                )),
{
    builder.build().map_err(|error| error.to_string())
}

/// `globset::GlobSet::is_match` says whether the set matches the path.
#[verifier::external_body]
fn set_matches(set: &globset::GlobSet, path: &str) -> (r: bool)
    ensures
        r == matched_paths(*set).contains(path@),
{
    set.is_match(path)
}

/// All patterns mean the same on every system.
pub open spec fn all_portable(patterns: Seq<Seq<char>>) -> bool {
    forall|i: int| 0 <= i < patterns.len() ==> portable(#[trigger] patterns[i])
}

/// Any of the patterns matches a path.
pub open spec fn any_matches(patterns: Seq<Seq<char>>, path: Seq<char>) -> bool {
    exists|i: int| 0 <= i < patterns.len() && #[trigger] glob_matches(patterns[i], path)
}

/// A set of paths is that which patterns match, as far as all are portable.
pub open spec fn matches_by(paths: Set<Seq<char>>, patterns: Seq<Seq<char>>) -> bool {
    all_portable(patterns) ==> forall|path: Seq<char>|
        portable(path) ==> (#[trigger] paths.contains(path) <==> any_matches(patterns, path))
}

/// The first pattern at or after `i` that is no glob, with the reason.
pub open spec fn bad_glob(patterns: Seq<Seq<char>>, i: int) -> Option<(Seq<char>, Seq<char>)>
    decreases patterns.len() - i,
{
    if i < 0 || i >= patterns.len() {
        None
    } else {
        match glob_complaint(patterns[i]) {
            Some(message) => Some((patterns[i], message)),
            None => bad_glob(patterns, i + 1),
        }
    }
}

/// What is said of a pattern that is no glob.
pub open spec fn bad_glob_failure(pattern: Seq<char>, message: Seq<char>) -> Failure {
    Failure::Usage("invalid glob "@ + text::quoted(pattern) + ": "@ + message)
}

/// No pattern is known to be no glob: each is one, as far as all are portable.
pub open spec fn no_bad_glob(patterns: Seq<Seq<char>>) -> bool {
    all_portable(patterns) ==> bad_glob(patterns, 0) is None
}

/// The paths that patterns stand for, where there are patterns.
pub open spec fn stands_for(paths: Option<Set<Seq<char>>>, patterns: Seq<Seq<char>>) -> bool {
    match paths {
        Some(paths) => patterns.len() > 0 && matches_by(paths, patterns) && no_bad_glob(patterns),
        None => patterns.len() == 0,
    }
}

/// What is said of patterns that give no set: a portable one that is no glob is
/// named.
pub open spec fn glob_failure(patterns: Seq<Seq<char>>, failure: Failure) -> bool {
    &&& patterns.len() > 0
    &&& failure is Usage
    &&& all_portable(patterns) ==> (bad_glob(patterns, 0) matches Some(bad) ==> failure
        == bad_glob_failure(bad.0, bad.1))
}

/// The paths that a set matches, where there is one.
pub open spec fn paths_of(set: Option<globset::GlobSet>) -> Option<Set<Seq<char>>> {
    match set {
        Some(set) => Some(matched_paths(set)),
        None => None,
    }
}

/// The set that patterns give: none where there are no patterns.
pub fn build_glob_set(patterns: &Vec<String>) -> (r: Result<Option<globset::GlobSet>, AwlError>)
    ensures
        match r {
            Ok(set) => stands_for(paths_of(set), patterns.deep_view()),
            Err(error) => glob_failure(patterns.deep_view(), error@),
        },
{
    if patterns.len() == 0 {
        return Ok(None);
    }
    let ghost all = patterns.deep_view();
    let mut builder = new_builder();
    let mut i: usize = 0;
    assert(all.take(0) =~= Seq::empty());
    while i < patterns.len()
        invariant
            all == patterns.deep_view(),
            all.len() > 0,
            i <= patterns.len(),
            builder_patterns(builder) == all.take(i as int),
            all_portable(all) ==> bad_glob(all, 0) == bad_glob(all, i as int),
        decreases patterns.len() - i,
    {
        let pattern = patterns[i].as_str();
        assert(all[i as int] == pattern@);
        match new_glob(pattern) {
            Ok(glob) => {
                add_glob(&mut builder, glob);
                assert(all.take(i + 1) =~= all.take(i as int).push(pattern@));
            },
            Err(message) => {
                return Err(
                    AwlError::usage(
                        "invalid glob ".to_owned().concat(text::quote(pattern).as_str()).concat(
                            ": ",
                        ).concat(message.as_str()).as_str(),
                    ),
                );
            },
        }
        i += 1;
    }
    assert(all.take(i as int) =~= all);
    match build_set(&builder) {
        Ok(set) => Ok(Some(set)),
        Err(message) => Err(AwlError::usage(message.as_str())),
    }
}

/// Which paths a sync takes.
pub struct PathFilter {
    include_set: Option<globset::GlobSet>,
    exclude_set: Option<globset::GlobSet>,
}

/// The meaning of a `PathFilter`: the paths that it asks for, where it asks for
/// some, and the paths that it leaves out.
pub struct Filter {
    pub wanted: Option<Set<Seq<char>>>,
    pub unwanted: Option<Set<Seq<char>>>,
}

impl Filter {
    /// A path is taken.
    pub open spec fn passes(self, path: Seq<char>) -> bool {
        let taken = match self.wanted {
            Some(paths) => paths.contains(path),
            None => true,
        };
        let left = match self.unwanted {
            Some(paths) => paths.contains(path),
            None => false,
        };
        taken && !left
    }

    /// The filter is that of two lists of patterns.
    pub open spec fn is_of(self, wanted: Seq<Seq<char>>, unwanted: Seq<Seq<char>>) -> bool {
        stands_for(self.wanted, wanted) && stands_for(self.unwanted, unwanted)
    }
}

impl View for PathFilter {
    type V = Filter;

    closed spec fn view(&self) -> Filter {
        Filter { wanted: paths_of(self.include_set), unwanted: paths_of(self.exclude_set) }
    }
}

/// What is said of two lists of patterns that give no filter.
pub open spec fn filter_failure(
    wanted: Seq<Seq<char>>,
    unwanted: Seq<Seq<char>>,
    failure: Failure,
) -> bool {
    ||| glob_failure(wanted, failure)
    ||| {
        &&& glob_failure(unwanted, failure)
        &&& no_bad_glob(wanted)
    }
}

impl PathFilter {
    /// The filter of two lists of patterns.
    pub fn new(wanted: &Vec<String>, unwanted: &Vec<String>) -> (r: Result<PathFilter, AwlError>)
        ensures
            match r {
                Ok(filter) => filter@.is_of(wanted.deep_view(), unwanted.deep_view()),
                Err(error) => filter_failure(wanted.deep_view(), unwanted.deep_view(), error@),
            },
    {
        match build_glob_set(wanted) {
            Err(error) => Err(error),
            Ok(include_set) => match build_glob_set(unwanted) {
                Err(error) => Err(error),
                Ok(exclude_set) => Ok(PathFilter { include_set, exclude_set }),
            },
        }
    }

    /// Whether a path is taken.
    pub fn matches(&self, path: &str) -> (r: bool)
        ensures
            r == self@.passes(path@),
    {
        let excluded = match &self.exclude_set {
            Some(set) => set_matches(set, path),
            None => false,
        };
        let included = match &self.include_set {
            Some(set) => set_matches(set, path),
            None => true,
        };
        included && !excluded
    }
}

/// A path that an excluding pattern matches is not taken, whatever is included.
pub proof fn law_exclusion_wins(
    filter: Filter,
    wanted: Seq<Seq<char>>,
    unwanted: Seq<Seq<char>>,
    path: Seq<char>,
)
    requires
        filter.is_of(wanted, unwanted),
        all_portable(unwanted),
        portable(path),
        any_matches(unwanted, path),
    ensures
        !filter.passes(path),
{
}

/// Without patterns every path is taken.
pub proof fn law_no_patterns_take_all(filter: Filter, path: Seq<char>)
    requires
        filter.is_of(Seq::empty(), Seq::empty()),
    ensures
        filter.passes(path),
{
}

/// A path is taken where an including pattern matches it and no excluding one
/// does.
pub proof fn law_filter_by_patterns(
    filter: Filter,
    wanted: Seq<Seq<char>>,
    unwanted: Seq<Seq<char>>,
    path: Seq<char>,
)
    requires
        filter.is_of(wanted, unwanted),
        all_portable(wanted),
        all_portable(unwanted),
        portable(path),
    ensures
        filter.passes(path) <==> (wanted.len() == 0 || any_matches(wanted, path)) && !any_matches(
            unwanted,
            path,
        ),
{
}

/// A sync under way: which names it takes, what it has seen, and how its
/// transfers went. A name on the source is a key, or the key of a path below a
/// local directory; so is a name on the destination.
pub struct SyncRun {
    filter: PathFilter,
    source_prefix: Option<String>,
    target_prefix: Option<String>,
    dry_run: bool,
    fail_fast: bool,
    delete: bool,
    seen: StringHashSet,
    succeeded: usize,
    failed: usize,
    stopped: bool,
}

/// The meaning of a `SyncRun`.
pub struct SyncState {
    pub filter: Filter,
    /// The prefix of the source, where that is a bucket.
    pub source_prefix: Option<Seq<char>>,
    /// The prefix of the destination, where that is a bucket.
    pub target_prefix: Option<Seq<char>>,
    pub dry_run: bool,
    pub fail_fast: bool,
    pub delete: bool,
    /// The names on the destination that the source has.
    pub seen: Set<Seq<char>>,
    pub succeeded: nat,
    pub failed: nat,
    pub stopped: bool,
}

impl View for SyncRun {
    type V = SyncState;

    closed spec fn view(&self) -> SyncState {
        SyncState {
            filter: self.filter@,
            source_prefix: self.source_prefix.deep_view(),
            target_prefix: self.target_prefix.deep_view(),
            dry_run: self.dry_run,
            fail_fast: self.fail_fast,
            delete: self.delete,
            seen: self.seen@,
            succeeded: self.succeeded as nat,
            failed: self.failed as nat,
            stopped: self.stopped,
        }
    }
}

/// A name as seen from the prefix of its end, where that is a bucket.
pub open spec fn relative_name(prefix: Option<Seq<char>>, name: Seq<char>) -> Seq<char> {
    match prefix {
        Some(prefix) => stripped_key(prefix, name),
        None => name,
    }
}

/// A relative name under the prefix of an end, where that is a bucket.
pub open spec fn placed_name(prefix: Option<Seq<char>>, relative: Seq<char>) -> Seq<char> {
    match prefix {
        Some(prefix) => joined_key(prefix, relative),
        None => relative,
    }
}

impl SyncState {
    /// A name on the source, as seen from there.
    pub open spec fn relative(self, name: Seq<char>) -> Seq<char> {
        relative_name(self.source_prefix, name)
    }

    /// The name on the destination that a name on the source is given.
    pub open spec fn target(self, name: Seq<char>) -> Seq<char> {
        placed_name(self.target_prefix, self.relative(name))
    }

    /// A name on the source is taken.
    pub open spec fn takes(self, name: Seq<char>) -> bool {
        self.filter.passes(self.relative(name))
    }

    /// What is done about a name on the source: nothing where it is not taken;
    /// otherwise it is seen, and transferred, or only counted in a dry run.
    pub open spec fn offered(self, name: Seq<char>) -> (SyncState, bool) {
        if !self.takes(name) {
            (self, false)
        } else {
            let seen = self.seen.insert(self.target(name));
            if self.dry_run {
                (SyncState { seen, succeeded: self.succeeded + 1, ..self }, false)
            } else {
                (SyncState { seen, ..self }, true)
            }
        }
    }

    /// A transfer has ended. One that failed ends the transfers where that was
    /// asked for.
    pub open spec fn transferred(self, success: bool) -> SyncState {
        if success {
            SyncState { succeeded: self.succeeded + 1, ..self }
        } else {
            SyncState { failed: self.failed + 1, stopped: self.fail_fast, ..self }
        }
    }

    /// A name on the destination that the source does not have, and that the
    /// filter takes.
    pub open spec fn stale(self, name: Seq<char>) -> bool {
        !self.seen.contains(name) && self.filter.passes(relative_name(self.target_prefix, name))
    }

    /// What is done about a name on the destination: nothing where stale names are
    /// kept; otherwise a stale one is removed, or only counted in a dry run.
    pub open spec fn reviewed(self, name: Seq<char>) -> (SyncState, bool) {
        if self.delete && self.stale(name) {
            if self.dry_run {
                (SyncState { succeeded: self.succeeded + 1, ..self }, false)
            } else {
                (self, true)
            }
        } else {
            (self, false)
        }
    }

    /// A removal has succeeded.
    pub open spec fn removed(self) -> SyncState {
        SyncState { succeeded: self.succeeded + 1, ..self }
    }

    /// After the names of the source, one after the other, where `success` says
    /// which transfers succeed.
    pub open spec fn transfers(
        self,
        names: Seq<Seq<char>>,
        success: spec_fn(Seq<char>) -> bool,
    ) -> SyncState
        decreases names.len(),
    {
        if names.len() == 0 || self.stopped {
            self
        } else {
            let (next, moves) = self.offered(names[0]);
            let after = if moves {
                next.transferred(success(names[0]))
            } else {
                next
            };
            after.transfers(names.skip(1), success)
        }
    }

    /// After the names of the destination, one after the other, where every
    /// removal succeeds.
    pub open spec fn removals(self, names: Seq<Seq<char>>) -> SyncState
        decreases names.len(),
    {
        if names.len() == 0 {
            self
        } else {
            let (next, removes) = self.reviewed(names[0]);
            let after = if removes {
                next.removed()
            } else {
                next
            };
            after.removals(names.skip(1))
        }
    }

    /// How many of the names are taken.
    pub open spec fn taken(self, names: Seq<Seq<char>>) -> nat
        decreases names.len(),
    {
        if names.len() == 0 {
            0
        } else {
            self.taken(names.skip(1)) + if self.takes(names[0]) {
                1nat
            } else {
                0nat
            }
        }
    }

    /// The result of the sync.
    pub open spec fn result(self) -> Result<Shown, Failure> {
        if self.failed > 0 {
            Err(
                Failure::Aws(
                    number::decimal(self.succeeded) + " succeeded, "@ + number::decimal(self.failed)
                        + " failed"@,
                ),
            )
        } else {
            Ok(
                Shown::One(
                    JsonTree::Object(
                        map![
                            "succeeded"@ => json::whole(self.succeeded as int),
                            "failed"@ => json::whole(self.failed as int),
                        ],
                    ),
                ),
            )
        }
    }
}

/// A dry run transfers nothing and removes nothing.
pub proof fn law_dry_run_does_nothing(state: SyncState, name: Seq<char>)
    requires
        state.dry_run,
    ensures
        !state.offered(name).1,
        !state.reviewed(name).1,
{
}

/// Without `delete` nothing on the destination is removed, or counted as such.
pub proof fn law_nothing_is_removed_without_delete(state: SyncState, names: Seq<Seq<char>>)
    requires
        !state.delete,
    ensures
        forall|name: Seq<char>| #[trigger] state.reviewed(name) == (state, false),
        state.removals(names) == state,
    decreases names.len(),
{
    if names.len() > 0 {
        law_nothing_is_removed_without_delete(state, names.skip(1));
    }
}

/// Where the first failure is to end the transfers, at most one fails, and nothing
/// is done about a name that comes after it.
pub proof fn law_first_failure_stops(
    state: SyncState,
    names: Seq<Seq<char>>,
    more: Seq<Seq<char>>,
    success: spec_fn(Seq<char>) -> bool,
)
    requires
        state.fail_fast,
        !state.stopped,
    ensures
        ({
            let after = state.transfers(names, success);
            &&& after.failed <= state.failed + 1
            &&& after.failed > state.failed ==> after.stopped && state.transfers(
                names + more,
                success,
            ) == after
        }),
    decreases names.len(),
{
    if names.len() > 0 {
        let (next, moves) = state.offered(names[0]);
        let after = if moves {
            next.transferred(success(names[0]))
        } else {
            next
        };
        assert((names + more)[0] == names[0]);
        assert((names + more).skip(1) =~= names.skip(1) + more);
        if !after.stopped {
            law_first_failure_stops(after, names.skip(1), more, success);
        }
    }
}

/// The transfers keep the rules by which names are taken, and forget nothing that
/// was seen.
proof fn lemma_transfers_keep(
    state: SyncState,
    names: Seq<Seq<char>>,
    success: spec_fn(Seq<char>) -> bool,
)
    ensures
        ({
            let after = state.transfers(names, success);
            &&& after.filter == state.filter
            &&& after.source_prefix == state.source_prefix
            &&& after.target_prefix == state.target_prefix
            &&& after.dry_run == state.dry_run
            &&& after.fail_fast == state.fail_fast
            &&& after.delete == state.delete
            &&& state.seen.subset_of(after.seen)
        }),
    decreases names.len(),
{
    if names.len() > 0 && !state.stopped {
        let (next, moves) = state.offered(names[0]);
        let after = if moves {
            next.transferred(success(names[0]))
        } else {
            next
        };
        lemma_transfers_keep(after, names.skip(1), success);
    }
}

/// What the source has is not removed: after a sync's transfers, the name that a
/// taken name of the source was given is not stale, where no failure before it
/// ended the transfers.
pub proof fn law_source_is_kept(
    state: SyncState,
    names: Seq<Seq<char>>,
    success: spec_fn(Seq<char>) -> bool,
    i: int,
)
    requires
        0 <= i < names.len(),
        state.takes(names[i]),
        !state.transfers(names.take(i), success).stopped,
    ensures
        !state.transfers(names, success).stale(state.target(names[i])),
    decreases names.len(),
{
    let (next, moves) = state.offered(names[0]);
    let after = if moves {
        next.transferred(success(names[0]))
    } else {
        next
    };
    if i == 0 {
        assert(names.take(0).len() == 0);
        lemma_transfers_keep(after, names.skip(1), success);
        assert(after.seen.contains(state.target(names[0])));
    } else {
        assert(names.skip(1)[i - 1] == names[i]);
        assert(names.take(i)[0] == names[0]);
        assert(names.take(i).skip(1) =~= names.skip(1).take(i - 1));
        law_source_is_kept(after, names.skip(1), success, i - 1);
    }
}

/// Every taken name is counted once, as succeeded or as failed, where no failure
/// ended the transfers before the last name.
pub proof fn law_transfers_are_counted(
    state: SyncState,
    names: Seq<Seq<char>>,
    success: spec_fn(Seq<char>) -> bool,
)
    requires
        names.len() > 0 ==> !state.transfers(names.drop_last(), success).stopped,
    ensures
        ({
            let after = state.transfers(names, success);
            after.succeeded + after.failed == state.succeeded + state.failed + state.taken(names)
        }),
    decreases names.len(),
{
    if names.len() > 0 {
        let (next, moves) = state.offered(names[0]);
        let after = if moves {
            next.transferred(success(names[0]))
        } else {
            next
        };
        let rest = names.skip(1);
        if rest.len() > 0 {
            assert(names.drop_last()[0] == names[0]);
            assert(names.drop_last().skip(1) =~= rest.drop_last());
        }
        law_transfers_are_counted(after, rest, success);
        lemma_taken_same(state, after, names.skip(1));
    }
}

proof fn lemma_taken_same(a: SyncState, b: SyncState, names: Seq<Seq<char>>)
    requires
        a.filter == b.filter,
        a.source_prefix == b.source_prefix,
    ensures
        a.taken(names) == b.taken(names),
    decreases names.len(),
{
    if names.len() > 0 {
        lemma_taken_same(a, b, names.skip(1));
    }
}

/// A dry run foretells a sync in which everything succeeds: both see the same
/// names and come to the same counts, in the transfers and in the removals.
pub proof fn law_dry_run_foretells(
    state: SyncState,
    names: Seq<Seq<char>>,
    old_names: Seq<Seq<char>>,
)
    requires
        !state.stopped,
    ensures
        ({
            let dry = SyncState { dry_run: true, ..state };
            let live = SyncState { dry_run: false, ..state };
            let all = |name: Seq<char>| true;
            dry.transfers(names, all).removals(old_names) == (SyncState {
                dry_run: true,
                ..live.transfers(names, all).removals(old_names)
            })
        }),
{
    let dry = SyncState { dry_run: true, ..state };
    let live = SyncState { dry_run: false, ..state };
    let all = |name: Seq<char>| true;
    lemma_dry_transfers(state, names);
    lemma_transfers_keep(live, names, all);
    lemma_dry_removals(live.transfers(names, all), old_names);
}

proof fn lemma_dry_transfers(state: SyncState, names: Seq<Seq<char>>)
    requires
        !state.stopped,
    ensures
        ({
            let dry = SyncState { dry_run: true, ..state };
            let live = SyncState { dry_run: false, ..state };
            let all = |name: Seq<char>| true;
            dry.transfers(names, all) == (SyncState {
                dry_run: true,
                ..live.transfers(names, all)
            })
        }),
    decreases names.len(),
{
    let dry = SyncState { dry_run: true, ..state };
    let live = SyncState { dry_run: false, ..state };
    if names.len() > 0 {
        if state.takes(names[0]) {
            assert(dry.takes(names[0]) && live.takes(names[0]));
            let next = SyncState {
                seen: state.seen.insert(state.target(names[0])),
                succeeded: state.succeeded + 1,
                ..state
            };
            lemma_dry_transfers(next, names.skip(1));
        } else {
            lemma_dry_transfers(state, names.skip(1));
        }
    }
}

proof fn lemma_dry_removals(state: SyncState, names: Seq<Seq<char>>)
    requires
        !state.dry_run,
    ensures
        (SyncState { dry_run: true, ..state }).removals(names) == (SyncState {
            dry_run: true,
            ..state.removals(names)
        }),
    decreases names.len(),
{
    if names.len() > 0 {
        let dry = SyncState { dry_run: true, ..state };
        assert(dry.stale(names[0]) == state.stale(names[0]));
        if state.delete && state.stale(names[0]) {
            lemma_dry_removals(state.removed(), names.skip(1));
        } else {
            lemma_dry_removals(state, names.skip(1));
        }
    }
}

/// A sync succeeds exactly where no transfer failed.
pub proof fn law_result_tells_failures(state: SyncState)
    ensures
        state.result() is Ok <==> state.failed == 0,
{
}

/// The ways of a sync: its two ends, of which at least one is a bucket.
#[derive(Debug)]
pub enum Route {
    /// From a local directory to a bucket.
    Upload(String, S3Uri),
    /// From a bucket to a local directory.
    Download(S3Uri, String),
    /// From a bucket to a bucket.
    Copy(S3Uri, S3Uri),
}

impl Route {
    /// The ends of the route.
    pub open spec fn ends(self) -> (End, End) {
        match self {
            Route::Upload(src, dst) => (End::Local(src@), End::S3(dst@)),
            Route::Download(src, dst) => (End::S3(src@), End::Local(dst@)),
            Route::Copy(src, dst) => (End::S3(src@), End::S3(dst@)),
        }
    }
}

/// The key of an end, where that is a bucket.
pub open spec fn end_key(end: End) -> Option<Seq<char>> {
    match end {
        End::S3(spot) => Some(spot.key),
        End::Local(_) => None,
    }
}

/// How a sync with a filter begins.
pub open spec fn sync_begins(args: S3SyncArgs, filter: Filter) -> SyncState {
    SyncState {
        filter,
        source_prefix: end_key(end_of(args.src@)),
        target_prefix: end_key(end_of(args.dst@)),
        dry_run: args.dry_run,
        fail_fast: args.fail_fast,
        delete: args.delete,
        seen: Set::empty(),
        succeeded: 0,
        failed: 0,
        stopped: false,
    }
}

/// A sync can begin like this: with a filter that is that of its patterns.
pub open spec fn sync_can_begin(args: S3SyncArgs, state: SyncState) -> bool {
    &&& state == sync_begins(args, state.filter)
    &&& state.filter.is_of(args.include_only.deep_view(), args.exclude.deep_view())
}

/// The patterns of a sync decide about keys as seen from the prefix of the source:
/// a key below the prefix is transferred, or counted in a dry run, exactly where
/// what follows the prefix is matched by an including pattern (or there is none)
/// and by no excluding one. Which prefix it is makes no difference.
pub proof fn law_patterns_see_below_source(
    args: S3SyncArgs,
    start: SyncState,
    names: Seq<Seq<char>>,
    success: spec_fn(Seq<char>) -> bool,
    key: Seq<char>,
)
    requires
        sync_can_begin(args, start),
        end_of(args.src@) is S3,
        text::trimmed(end_of(args.src@)->S3_0.key, '/').len() > 0,
        all_portable(args.include_only.deep_view()),
        all_portable(args.exclude.deep_view()),
        portable(key),
    ensures
        ({
            let prefix = text::trimmed(end_of(args.src@)->S3_0.key, '/');
            let name = prefix + "/"@ + key;
            let state = start.transfers(names, success);
            let taken = (args.include_only@.len() == 0 || any_matches(
                args.include_only.deep_view(),
                key,
            )) && !any_matches(args.exclude.deep_view(), key);
            &&& state.offered(name).1 == (taken && !args.dry_run)
            &&& state.offered(name).0.succeeded == state.succeeded + (if taken && args.dry_run {
                1nat
            } else {
                0nat
            })
            &&& !taken ==> state.offered(name).0 == state
        }),
{
    let prefix = text::trimmed(end_of(args.src@)->S3_0.key, '/');
    lemma_transfers_keep(start, names, success);
    lemma_seen_from_prefix(end_of(args.src@)->S3_0.key, key);
    law_filter_by_patterns(
        start.filter,
        args.include_only.deep_view(),
        args.exclude.deep_view(),
        key,
    );
}

/// The patterns of a sync decide about the names of a local source, and about the
/// keys of a whole bucket, as they are.
pub proof fn law_patterns_see_whole_names(
    args: S3SyncArgs,
    start: SyncState,
    names: Seq<Seq<char>>,
    success: spec_fn(Seq<char>) -> bool,
    name: Seq<char>,
)
    requires
        sync_can_begin(args, start),
        end_of(args.src@) is S3 ==> text::trimmed(end_of(args.src@)->S3_0.key, '/').len() == 0,
        all_portable(args.include_only.deep_view()),
        all_portable(args.exclude.deep_view()),
        portable(name),
    ensures
        ({
            let state = start.transfers(names, success);
            let taken = (args.include_only@.len() == 0 || any_matches(
                args.include_only.deep_view(),
                name,
            )) && !any_matches(args.exclude.deep_view(), name);
            &&& state.offered(name).1 == (taken && !args.dry_run)
            &&& state.offered(name).0.succeeded == state.succeeded + (if taken && args.dry_run {
                1nat
            } else {
                0nat
            })
            &&& !taken ==> state.offered(name).0 == state
        }),
{
    lemma_transfers_keep(start, names, success);
    law_filter_by_patterns(
        start.filter,
        args.include_only.deep_view(),
        args.exclude.deep_view(),
        name,
    );
}

/// A key below a prefix, as seen from there.
proof fn lemma_seen_from_prefix(prefix: Seq<char>, key: Seq<char>)
    ensures
        text::trimmed(prefix, '/').len() > 0 ==> stripped_key(
            prefix,
            text::trimmed(prefix, '/') + "/"@ + key,
        ) == key,
{
    reveal_strlit("/");
    let p = text::trimmed(prefix, '/');
    let whole = p + "/"@ + key;
    assert(p.is_prefix_of(whole));
    let rest = whole.skip(p.len() as int);
    assert(rest =~= "/"@ + key);
    assert("/"@.is_prefix_of(rest));
    assert(rest.skip(1) =~= key);
}

/// Where a sync puts what it takes: the name that a key has below the prefix of
/// the source, it has below the prefix of the destination too.
pub proof fn law_names_are_kept_below_prefixes(args: S3SyncArgs, start: SyncState, key: Seq<char>)
    requires
        sync_can_begin(args, start),
        key.len() > 0,
        key[0] != '/',
    ensures
        ({
            let name = match end_of(args.src@) {
                End::Local(_) => key,
                End::S3(spot) => {
                    let p = text::trimmed(spot.key, '/');
                    if p.len() == 0 {
                        key
                    } else {
                        p + "/"@ + key
                    }
                },
            };
            start.target(name) == (match end_of(args.dst@) {
                End::Local(_) => key,
                End::S3(spot) => {
                    let q = text::trimmed(spot.key, '/');
                    if q.len() == 0 {
                        key
                    } else {
                        q + "/"@ + key
                    }
                },
            })
        }),
{
    if let End::S3(spot) = end_of(args.src@) {
        lemma_seen_from_prefix(spot.key, key);
    }
    assert(text::trimmed_start(key, '/') == key);
}

/// What a sync removes: where it is to delete, and is no dry run, exactly the names
/// below the prefix of the destination that the patterns take, and that no taken
/// name of the source was given.
pub proof fn law_removals_by_patterns(
    args: S3SyncArgs,
    start: SyncState,
    names: Seq<Seq<char>>,
    success: spec_fn(Seq<char>) -> bool,
    key: Seq<char>,
)
    requires
        sync_can_begin(args, start),
        !start.transfers(names, success).stopped,
        all_portable(args.include_only.deep_view()),
        all_portable(args.exclude.deep_view()),
        portable(key),
    ensures
        ({
            let name = match end_of(args.dst@) {
                End::Local(_) => key,
                End::S3(spot) => {
                    let q = text::trimmed(spot.key, '/');
                    if q.len() == 0 {
                        key
                    } else {
                        q + "/"@ + key
                    }
                },
            };
            let kept = exists|i: int|
                0 <= i < names.len() && start.offered(#[trigger] names[i]).0.seen.contains(name);
            let taken = (args.include_only@.len() == 0 || any_matches(
                args.include_only.deep_view(),
                key,
            )) && !any_matches(args.exclude.deep_view(), key);
            let state = start.transfers(names, success);
            &&& state.reviewed(name).1 == (args.delete && !args.dry_run && taken && !kept)
            &&& state.reviewed(name).0.succeeded == state.succeeded + (if args.delete
                && args.dry_run && taken && !kept {
                1nat
            } else {
                0nat
            })
        }),
{
    let name = match end_of(args.dst@) {
        End::Local(_) => key,
        End::S3(spot) => {
            let q = text::trimmed(spot.key, '/');
            if q.len() == 0 {
                key
            } else {
                q + "/"@ + key
            }
        },
    };
    if let End::S3(spot) = end_of(args.dst@) {
        lemma_seen_from_prefix(spot.key, key);
    }
    lemma_transfers_keep(start, names, success);
    law_filter_by_patterns(
        start.filter,
        args.include_only.deep_view(),
        args.exclude.deep_view(),
        key,
    );
    law_seen_is_what_was_offered(start, names, success, name);
}

/// After the transfers, a name of the destination is known exactly where it was
/// known before, or a name of the source was given it when it was offered.
pub proof fn law_seen_is_what_was_offered(
    state: SyncState,
    names: Seq<Seq<char>>,
    success: spec_fn(Seq<char>) -> bool,
    name: Seq<char>,
)
    requires
        !state.transfers(names, success).stopped,
    ensures
        state.transfers(names, success).seen.contains(name) <==> state.seen.contains(name) || exists|
            i: int,
        |
            0 <= i < names.len() && state.offered(#[trigger] names[i]).0.seen.contains(name),
    decreases names.len(),
{
    if names.len() > 0 {
        assert(!state.stopped) by {
            if state.stopped {
                assert(state.transfers(names, success) == state);
            }
        }
        let (next, moves) = state.offered(names[0]);
        let after = if moves {
            next.transferred(success(names[0]))
        } else {
            next
        };
        let rest = names.skip(1);
        law_seen_is_what_was_offered(after, rest, success, name);
        assert forall|i: int| 0 <= i < rest.len() implies (after.offered(
            #[trigger] rest[i],
        ).0.seen.contains(name) <==> after.seen.contains(name) || state.offered(
            rest[i],
        ).0.seen.contains(name)) by {}
        if exists|i: int|
            0 <= i < rest.len() && after.offered(#[trigger] rest[i]).0.seen.contains(name) {
            let i = choose|i: int|
                0 <= i < rest.len() && after.offered(#[trigger] rest[i]).0.seen.contains(name);
            if after.seen.contains(name) {
                assert(state.offered(names[0]).0.seen.contains(name));
            } else {
                assert(state.offered(names[i + 1]).0.seen.contains(name));
            }
        }
        if after.seen.contains(name) {
            assert(state.offered(names[0]).0.seen.contains(name));
        }
        if exists|i: int|
            0 <= i < names.len() && state.offered(#[trigger] names[i]).0.seen.contains(name) {
            let i = choose|i: int|
                0 <= i < names.len() && state.offered(#[trigger] names[i]).0.seen.contains(name);
            if i > 0 {
                assert(rest[i - 1] == names[i]);
                assert(after.offered(rest[i - 1]).0.seen.contains(name));
            }
        }
    }
}

/// What a transfer is counted as: one that succeeds as succeeded, one that fails
/// as failed; and only a failure ends the transfers, where the first is to.
pub proof fn law_transfer_is_counted(state: SyncState, success: bool)
    requires
        !state.stopped,
    ensures
        state.transferred(success).succeeded == state.succeeded + (if success {
            1nat
        } else {
            0nat
        }),
        state.transferred(success).failed == state.failed + (if success {
            0nat
        } else {
            1nat
        }),
        state.transferred(success).stopped == (!success && state.fail_fast),
        state.transferred(success).seen == state.seen,
        state.removed().succeeded == state.succeeded + 1,
        state.removed().failed == state.failed,
{
}

/// The result of a sync that succeeds tells its counts: the numbers in the record
/// are read back as how many succeeded, and that none failed.
pub proof fn law_result_tells_counts(state: SyncState)
    requires
        state.failed == 0,
    ensures
        state.result() matches Ok(Shown::One(JsonTree::Object(row))) && {
            &&& row["succeeded"@] matches JsonTree::Number(n)
            &&& number::signed_value(n, 0, state.succeeded as int) == Some(state.succeeded as int)
            &&& row["failed"@] matches JsonTree::Number(m)
            &&& number::signed_value(m, 0, 0) == Some(0int)
        },
{
    number::law_decimal_is_read_back(state.succeeded as int, 0, state.succeeded as int);
    number::law_decimal_is_read_back(0, 0, 0);
    reveal_strlit("succeeded");
    reveal_strlit("failed");
    assert("succeeded"@.len() == 9 && "failed"@.len() == 6);
}

/// The result of a sync that fails tells its counts: the message begins with the
/// number of those that succeeded, and after the comma with that of those that
/// failed.
pub proof fn law_failure_tells_counts(state: SyncState)
    requires
        state.failed > 0,
    ensures
        state.result() matches Err(Failure::Aws(message)) && {
            &&& text::split_first(message, " "@) matches Some((n, rest))
            &&& number::signed_value(n, 0, state.succeeded as int) == Some(state.succeeded as int)
            &&& text::split_first(rest, ", "@) matches Some((_, last))
            &&& text::split_first(last, " "@) matches Some((m, _))
            &&& number::signed_value(m, 0, state.failed as int) == Some(state.failed as int)
        },
{
    let n = number::decimal(state.succeeded);
    let m = number::decimal(state.failed);
    number::law_decimal_is_read_back(state.succeeded as int, 0, state.succeeded as int);
    number::law_decimal_is_read_back(state.failed as int, 0, state.failed as int);
    number::lemma_decimal(state.succeeded);
    number::lemma_decimal(state.failed);
    lemma_counts_split(n, m);
}

/// A message with two counts, taken apart.
proof fn lemma_counts_split(n: Seq<char>, m: Seq<char>)
    requires
        number::is_digits(n),
        number::is_digits(m),
    ensures
        ({
            let message = n + " succeeded, "@ + m + " failed"@;
            let rest = "succeeded, "@ + m + " failed"@;
            &&& text::split_first(message, " "@) == Some((n, rest))
            &&& text::split_first(rest, ", "@) == Some(("succeeded"@, m + " failed"@))
            &&& text::split_first(m + " failed"@, " "@) == Some((m, "failed"@))
        }),
{
    reveal_strlit(" ");
    reveal_strlit(", ");
    reveal_strlit("succeeded");
    reveal_strlit("failed");
    reveal_strlit("succeeded, ");
    reveal_strlit(" succeeded, ");
    reveal_strlit(" failed");
    let rest = "succeeded, "@ + m + " failed"@;
    assert(" "@ =~= seq![' ']);
    assert(" succeeded, "@ =~= seq![' '] + "succeeded, "@);
    assert(" failed"@ =~= seq![' '] + "failed"@);
    assert(n + " succeeded, "@ + m + " failed"@ =~= n + seq![' '] + rest);
    text::lemma_split_first(n, ' ', rest);
    assert(m + " failed"@ =~= m + seq![' '] + "failed"@);
    text::lemma_split_first(m, ' ', "failed"@);
    text::lemma_find_from(rest, ", "@, 0);
    assert(rest.subrange(9, 11) =~= ", "@);
    assert(text::occurs_at(rest, ", "@, 9));
    assert forall|i: int| 0 <= i < 9 implies !text::occurs_at(rest, ", "@, i) by {
        assert(rest.subrange(i, i + 2)[0] == "succeeded"@[i]);
    }
    assert(rest.take(9) =~= "succeeded"@);
    assert(rest.skip(11) =~= m + " failed"@);
}

impl SyncRun {
    /// How a sync begins.
    pub fn new(args: &S3SyncArgs) -> (r: Result<(Route, SyncRun), AwlError>)
        ensures
            match r {
                Ok((route, run)) => {
                    &&& sync_can_begin(*args, run@)
                    &&& route.ends() == (end_of(args.src@), end_of(args.dst@))
                },
                Err(error) => {
                    ||| filter_failure(
                        args.include_only.deep_view(),
                        args.exclude.deep_view(),
                        error@,
                    )
                    ||| {
                        &&& end_of(args.src@) is Local
                        &&& end_of(args.dst@) is Local
                        &&& no_bad_glob(args.include_only.deep_view())
                        &&& no_bad_glob(args.exclude.deep_view())
                        &&& error@ == Failure::Usage(
                            "s3 sync requires at least one s3:// location"@,
                        )
                    }
                },
            },
            end_of(args.src@) is Local && end_of(args.dst@) is Local ==> r is Err,
            args.include_only@.len() == 0 && args.exclude@.len() == 0 && !(end_of(args.src@) is Local
                && end_of(args.dst@) is Local) ==> r is Ok,
    {
        match PathFilter::new(&args.include_only, &args.exclude) {
            Ok(filter) => SyncRun::with_filter(args, filter),
            Err(error) => Err(error),
        }
    }

    /// How a sync with a filter begins: between any two ends of which one is a
    /// bucket.
    pub fn with_filter(args: &S3SyncArgs, filter: PathFilter) -> (r: Result<
        (Route, SyncRun),
        AwlError,
    >)
        ensures
            r is Ok <==> !(end_of(args.src@) is Local && end_of(args.dst@) is Local),
            match r {
                Ok((route, run)) => {
                    &&& run@ == sync_begins(*args, filter@)
                    &&& route.ends() == (end_of(args.src@), end_of(args.dst@))
                },
                Err(error) => error@ == Failure::Usage(
                    "s3 sync requires at least one s3:// location"@,
                ),
            },
    {
        let src = parse_location(args.src.as_str());
        let dst = parse_location(args.dst.as_str());
        let (route, source_prefix, target_prefix): (Route, Option<String>, Option<String>) =
            match (src, dst) {
            (Location::Local(src), Location::S3(dst)) => {
                let key = dst.key.clone();
                (Route::Upload(src, dst), None, Some(key))
            },
            (Location::S3(src), Location::Local(dst)) => {
                let key = src.key.clone();
                (Route::Download(src, dst), Some(key), None)
            },
            (Location::S3(src), Location::S3(dst)) => {
                let from = src.key.clone();
                let to = dst.key.clone();
                (Route::Copy(src, dst), Some(from), Some(to))
            },
            (Location::Local(_), Location::Local(_)) => {
                return Err(AwlError::usage("s3 sync requires at least one s3:// location"));
            },
        };
        let run = SyncRun {
            filter,
            source_prefix,
            target_prefix,
            dry_run: args.dry_run,
            fail_fast: args.fail_fast,
            delete: args.delete,
            seen: StringHashSet::new(),
            succeeded: 0,
            failed: 0,
            stopped: false,
        };
        Ok((route, run))
    }

    /// Whether another name can be counted.
    pub fn has_room(&self) -> (r: bool)
        ensures
            r == (self@.succeeded < usize::MAX && self@.failed < usize::MAX),
    {
        self.succeeded < usize::MAX && self.failed < usize::MAX
    }

    /// Whether the transfers were ended by a failure.
    pub fn is_stopped(&self) -> (r: bool)
        ensures
            r == self@.stopped,
    {
        self.stopped
    }

    /// Whether stale names are to be removed.
    pub fn deletes(&self) -> (r: bool)
        ensures
            r == self@.delete,
    {
        self.delete
    }

    /// A name on the source, as seen from there.
    pub fn relative(&self, name: &str) -> (r: String)
        ensures
            r@ == self@.relative(name@),
    {
        match &self.source_prefix {
            Some(prefix) => strip_prefix_key(prefix.as_str(), name),
            None => name.to_owned(),
        }
    }

    /// What is done about a name on the source: the name on the destination to
    /// which it is transferred now, where it is.
    pub fn offer(&mut self, name: &str) -> (r: Option<String>)
        requires
            old(self)@.succeeded < usize::MAX,
        ensures
            final(self)@ == old(self)@.offered(name@).0,
            r.deep_view() == (if old(self)@.offered(name@).1 {
                Some(old(self)@.target(name@))
            } else {
                None
            }),
    {
        let relative = self.relative(name);
        if !self.filter.matches(relative.as_str()) {
            return None;
        }
        let target = match &self.target_prefix {
            Some(prefix) => join_key(prefix.as_str(), relative.as_str()),
            None => relative,
        };
        self.seen.insert(target.clone());
        if self.dry_run {
            self.succeeded = self.succeeded + 1;
            return None;
        }
        Some(target)
    }

    /// A transfer has ended.
    pub fn transferred(&mut self, success: bool)
        requires
            old(self)@.succeeded < usize::MAX,
            old(self)@.failed < usize::MAX,
        ensures
            final(self)@ == old(self)@.transferred(success),
    {
        if success {
            self.succeeded = self.succeeded + 1;
        } else {
            self.failed = self.failed + 1;
            self.stopped = self.fail_fast;
        }
    }

    /// What is done about a name on the destination: whether it is removed now.
    pub fn review(&mut self, name: &str) -> (r: bool)
        requires
            old(self)@.succeeded < usize::MAX,
        ensures
            (final(self)@, r) == old(self)@.reviewed(name@),
    {
        let relative = match &self.target_prefix {
            Some(prefix) => strip_prefix_key(prefix.as_str(), name),
            None => name.to_owned(),
        };
        if !self.delete || self.seen.contains(name) || !self.filter.matches(relative.as_str()) {
            return false;
        }
        if self.dry_run {
            self.succeeded = self.succeeded + 1;
            return false;
        }
        true
    }

    /// A removal has succeeded.
    pub fn removed(&mut self)
        requires
            old(self)@.succeeded < usize::MAX,
        ensures
            final(self)@ == old(self)@.removed(),
    {
        self.succeeded = self.succeeded + 1;
    }

    /// The result of the sync.
    pub fn finish(&self) -> (r: Result<Output, AwlError>)
        ensures
            told(r) == self@.result(),
    {
        if self.failed > 0 {
            return Err(
                AwlError::Aws {
                    message: number::u64_text(self.succeeded as u64).concat(
                        " succeeded, ",
                    ).concat(number::u64_text(self.failed as u64).as_str()).concat(" failed"),
                },
            );
        }
        let mut row = Fields::new();
        row.insert("succeeded", Json::unsigned(self.succeeded as u64));
        row.insert("failed", Json::unsigned(self.failed as u64));
        Ok(Output::One(Json::Object(row)))
    }
}

/// An object as a listing gives it.
#[derive(Debug)]
pub struct ListedEntry {
    pub key: Option<String>,
    pub size: Option<i64>,
    pub last_modified: Option<String>,
    pub etag: Option<String>,
}

/// What `ls` asks for.
#[derive(Debug)]
pub enum ListPlan {
    /// The buckets.
    Buckets,
    /// The objects of a bucket under a prefix; those below a further slash only
    /// as common prefixes where `grouped`.
    Objects { bucket: String, prefix: String, grouped: bool },
}

/// What the arguments list.
pub open spec fn listing_asked(args: S3LsArgs, r: Result<ListPlan, AwlError>) -> bool {
    match r {
        Ok(ListPlan::Buckets) => args.uri is None,
        Ok(ListPlan::Objects { bucket, prefix, grouped }) => args.uri matches Some(uri) && {
            &&& parsed_uri(uri@) matches Ok(spot)
            &&& bucket@ == spot.bucket
            &&& prefix@ == text::trimmed_start(spot.key, '/')
            &&& grouped == !args.recursive
        },
        Err(error) => args.uri matches Some(uri) && parsed_uri(uri@) == Err::<Spot, Failure>(
            error@,
        ),
    }
}

/// What `ls` asks for.
pub fn list_plan(args: &S3LsArgs) -> (r: Result<ListPlan, AwlError>)
    ensures
        listing_asked(*args, r),
{
    match &args.uri {
        None => Ok(ListPlan::Buckets),
        Some(uri) => match parse_s3_uri(uri.as_str()) {
            Err(error) => Err(error),
            Ok(uri) => Ok(
                ListPlan::Objects {
                    prefix: normalized_prefix(uri.key.as_str()),
                    bucket: uri.bucket,
                    grouped: !args.recursive,
                },
            ),
        },
    }
}

/// The record of a common prefix.
pub open spec fn prefix_tree(bucket: Seq<char>, prefix: Seq<char>) -> JsonTree {
    JsonTree::Object(
        map!["bucket"@ => JsonTree::Text(bucket), "prefix"@ => JsonTree::Text(prefix)],
    )
}

/// The record of an object.
pub open spec fn object_tree(bucket: Seq<char>, entry: ListedEntry) -> JsonTree {
    JsonTree::Object(
        map![
            "bucket"@ => JsonTree::Text(bucket),
            "key"@ => JsonTree::Text(
                match entry.key {
                    Some(key) => key@,
                    None => Seq::empty(),
                },
            ),
            "size"@ => json::whole(
                match entry.size {
                    Some(size) => size as int,
                    None => 0,
                },
            ),
            "last_modified"@ => json::optional_text(entry.last_modified.deep_view()),
            "etag"@ => json::optional_text(entry.etag.deep_view()),
        ],
    )
}

/// The record of a bucket.
pub open spec fn bucket_tree(bucket: Seq<char>) -> JsonTree {
    JsonTree::Object(map!["bucket"@ => JsonTree::Text(bucket)])
}

/// The rows of the buckets that have names.
pub open spec fn buckets_shown(names: Seq<Option<Seq<char>>>) -> Shown {
    Shown::Many(present(names).map_values(|name: Seq<char>| bucket_tree(name)))
}

/// The records of buckets, of those that have a name.
pub fn bucket_rows(names: &Vec<Option<String>>) -> (r: Output)
    ensures
        r@ == buckets_shown(names.deep_view()),
{
    let ghost all = names.deep_view();
    let f = Ghost(|name: Seq<char>| bucket_tree(name));
    let mut rows: Vec<Json> = Vec::new();
    let mut i: usize = 0;
    assert(all.take(0) =~= Seq::empty());
    assert(json::trees(rows@) =~= present(all.take(0)).map_values(f@));
    while i < names.len()
        invariant
            all == names.deep_view(),
            f@ == (|name: Seq<char>| bucket_tree(name)),
            i <= names.len(),
            json::trees(rows@) == present(all.take(i as int)).map_values(f@),
        decreases names.len() - i,
    {
        let ghost before = rows@;
        assert(all.take(i + 1).drop_last() =~= all.take(i as int));
        if let Some(name) = &names[i] {
            let mut row = Fields::new();
            row.insert("bucket", Json::text(name.as_str()));
            rows.push(Json::Object(row));
            assert(json::trees(rows@) =~= json::trees(before).push(bucket_tree(name@)));
            assert(json::trees(rows@) =~= present(all.take(i + 1)).map_values(f@));
        }
        i += 1;
    }
    assert(all.take(i as int) =~= all);
    Output::Many(rows)
}

/// The rows of a listing: its prefixes, then its objects.
pub open spec fn objects_shown(
    bucket: Seq<char>,
    prefixes: Seq<Option<Seq<char>>>,
    entries: Seq<ListedEntry>,
) -> Shown {
    Shown::Many(
        present(prefixes).map_values(|prefix: Seq<char>| prefix_tree(bucket, prefix))
            + entries.map_values(|entry: ListedEntry| object_tree(bucket, entry)),
    )
}

/// The records of a listing: its common prefixes, of those that have a text, and
/// then its objects.
pub fn object_rows(
    bucket: &str,
    prefixes: &Vec<Option<String>>,
    entries: &Vec<ListedEntry>,
) -> (r: Output)
    ensures
        r@ == objects_shown(bucket@, prefixes.deep_view(), entries@),
{
    let ghost all = prefixes.deep_view();
    let f = Ghost(|prefix: Seq<char>| prefix_tree(bucket@, prefix));
    let g = Ghost(|entry: ListedEntry| object_tree(bucket@, entry));
    let mut rows: Vec<Json> = Vec::new();
    let mut i: usize = 0;
    assert(all.take(0) =~= Seq::empty());
    assert(json::trees(rows@) =~= present(all.take(0)).map_values(f@));
    while i < prefixes.len()
        invariant
            all == prefixes.deep_view(),
            f@ == (|prefix: Seq<char>| prefix_tree(bucket@, prefix)),
            i <= prefixes.len(),
            json::trees(rows@) == present(all.take(i as int)).map_values(f@),
        decreases prefixes.len() - i,
    {
        let ghost before = rows@;
        assert(all.take(i + 1).drop_last() =~= all.take(i as int));
        if let Some(prefix) = &prefixes[i] {
            let mut row = Fields::new();
            row.insert("bucket", Json::text(bucket));
            row.insert("prefix", Json::text(prefix.as_str()));
            rows.push(Json::Object(row));
            assert(json::trees(rows@) =~= json::trees(before).push(prefix_tree(bucket@, prefix@)));
            assert(json::trees(rows@) =~= present(all.take(i + 1)).map_values(f@));
        }
        i += 1;
    }
    assert(all.take(i as int) =~= all);
    let ghost head = json::trees(rows@);
    let mut k: usize = 0;
    assert(head + entries@.take(0).map_values(g@) =~= head);
    while k < entries.len()
        invariant
            g@ == (|entry: ListedEntry| object_tree(bucket@, entry)),
            k <= entries.len(),
            json::trees(rows@) == head + entries@.take(k as int).map_values(g@),
        decreases entries.len() - k,
    {
        let ghost before = rows@;
        let entry = &entries[k];
        let mut row = Fields::new();
        row.insert("bucket", Json::text(bucket));
        row.insert(
            "key",
            match &entry.key {
                Some(key) => Json::Text(key.clone()),
                None => Json::Text(no_text()),
            },
        );
        row.insert(
            "size",
            match entry.size {
                Some(size) => Json::signed(size),
                None => Json::signed(0),
            },
        );
        row.insert("last_modified", Json::optional_string(&entry.last_modified));
        row.insert("etag", Json::optional_string(&entry.etag));
        rows.push(Json::Object(row));
        assert(json::trees(rows@) =~= json::trees(before).push(object_tree(bucket@, *entry)));
        assert(entries@.take(k + 1).map_values(g@) =~= entries@.take(k as int).map_values(g@).push(
            object_tree(bucket@, *entry),
        ));
        k += 1;
    }
    assert(entries@.take(k as int) =~= entries@);
    Output::Many(rows)
}

/// The record of an action.
pub open spec fn action_tree(
    action: Seq<char>,
    source: Option<Seq<char>>,
    destination: Option<Seq<char>>,
    bytes: Option<int>,
    dry_run: bool,
) -> JsonTree {
    JsonTree::Object(
        map![
            "action"@ => JsonTree::Text(action),
            "source"@ => json::optional_text(source),
            "destination"@ => json::optional_text(destination),
            "bytes"@ => json::optional_whole(bytes),
            "dry_run"@ => JsonTree::Bool(dry_run),
        ],
    )
}

/// The record of an action.
fn action_row(
    action: &str,
    source: Option<&str>,
    destination: Option<&str>,
    bytes: Option<u64>,
    dry_run: bool,
) -> (r: Json)
    ensures
        r.tree() == action_tree(
            action@,
            source.deep_view(),
            destination.deep_view(),
            match bytes {
                Some(n) => Some(n as int),
                None => None,
            },
            dry_run,
        ),
{
    let mut row = Fields::new();
    row.insert("action", Json::text(action));
    row.insert("source", Json::optional_text(source));
    row.insert("destination", Json::optional_text(destination));
    row.insert(
        "bytes",
        match bytes {
            Some(n) => Json::unsigned(n),
            None => Json::Null,
        },
    );
    row.insert("dry_run", Json::Bool(dry_run));
    Json::Object(row)
}

/// Where a download goes.
#[derive(Debug)]
pub enum Destination {
    /// To standard output.
    Stdout,
    /// To a file.
    File(String),
}

/// The meaning of a `Destination`.
pub enum Place {
    Stdout,
    File(Seq<char>),
}

impl View for Destination {
    type V = Place;

    open spec fn view(&self) -> Place {
        match self {
            Destination::Stdout => Place::Stdout,
            Destination::File(path) => Place::File(path@),
        }
    }
}

/// Where a download goes: to standard output for `-`, to the file that was named,
/// or else to a file with the name that the key gives, where it gives one.
pub open spec fn destination_of(dest: Option<Seq<char>>, name: Option<Seq<char>>) -> Result<
    Place,
    Failure,
> {
    match dest {
        Some(path) => if path == "-"@ {
            Ok(Place::Stdout)
        } else {
            Ok(Place::File(path))
        },
        None => match name {
            Some(name) => Ok(Place::File(name)),
            None => Err(Failure::Usage("cannot infer destination filename from S3 key"@)),
        },
    }
}

/// Where a download goes, with the name that the key gives.
pub fn destination_for(dest: &Option<String>, name: Option<String>) -> (r: Result<
    Destination,
    AwlError,
>)
    ensures
        told(r) == destination_of(dest.deep_view(), name.deep_view()),
{
    match dest {
        Some(dest) => if text::same(dest.as_str(), "-") {
            Ok(Destination::Stdout)
        } else {
            Ok(Destination::File(dest.clone()))
        },
        None => match name {
            Some(name) => Ok(Destination::File(name)),
            None => Err(AwlError::usage("cannot infer destination filename from S3 key")),
        },
    }
}

/// Where the download of a key goes. The name that a key gives is stated for keys
/// that are portable paths.
pub fn get_destination(args: &S3GetArgs, uri: &S3Uri) -> (r: Result<Destination, AwlError>)
    ensures
        args.dest is Some || cli::portable_path(uri.key@) ==> told(r) == destination_of(
            args.dest.deep_view(),
            cli::last_name(uri.key@),
        ),
        exists|name: Option<Seq<char>>| told(r) == #[trigger] destination_of(
            args.dest.deep_view(),
            name,
        ),
{
    let name = cli::filename(uri.key.as_str());
    let ghost given = name.deep_view();
    let r = destination_for(&args.dest, name);
    assert(told(r) == destination_of(args.dest.deep_view(), given));
    r
}

/// What is shown of a download to a file.
pub fn get_row(uri: &S3Uri, path: &str, bytes: u64) -> (r: Output)
    ensures
        r@ == Shown::One(get_tree(uri@, path@, bytes as int)),
{
    let source = uri.uri();
    Output::One(action_row("get", Some(source.as_str()), Some(path), Some(bytes), false))
}

/// What a download hands over: the contents to standard output, or the contents
/// to a file, and then what is shown.
#[derive(Debug)]
pub enum Delivery {
    Stdout(Vec<u8>),
    File { path: String, contents: Vec<u8>, row: Output },
}

/// The meaning of a `Delivery`.
pub enum Delivered {
    Stdout(Seq<u8>),
    File(Seq<char>, Seq<u8>, Shown),
}

impl View for Delivery {
    type V = Delivered;

    open spec fn view(&self) -> Delivered {
        match self {
            Delivery::Stdout(contents) => Delivered::Stdout(contents@),
            Delivery::File { path, contents, row } => Delivered::File(path@, contents@, row@),
        }
    }
}

/// The record of a download to a file.
pub open spec fn get_tree(uri: Spot, path: Seq<char>, bytes: int) -> JsonTree {
    action_tree("get"@, Some(uri.uri()), Some(path), Some(bytes), false)
}

/// What a download hands over: all that came, at the place where it goes.
pub open spec fn delivered(uri: Spot, place: Place, contents: Seq<u8>) -> Delivered {
    match place {
        Place::Stdout => Delivered::Stdout(contents),
        Place::File(path) => Delivered::File(
            path,
            contents,
            Shown::One(get_tree(uri, path, contents.len() as int)),
        ),
    }
}

/// What a download hands over.
pub fn deliver(uri: &S3Uri, destination: Destination, contents: Vec<u8>) -> (r: Delivery)
    ensures
        r@ == delivered(uri@, destination@, contents@),
{
    match destination {
        Destination::Stdout => Delivery::Stdout(contents),
        Destination::File(path) => {
            let row = get_row(uri, path.as_str(), contents.len() as u64);
            Delivery::File { path, contents, row }
        },
    }
}

/// What is put under a URI comes back from it: both name one bucket and key, and
/// where the service hands back what was put there, that is what is handed over,
/// to standard output for `-` and otherwise to the file that was named. The
/// record then shows as its source what the upload's record shows as its
/// destination, and as many bytes.
pub proof fn law_put_comes_back(
    put: S3PutArgs,
    get: S3GetArgs,
    name: Option<Seq<char>>,
    contents: Seq<u8>,
    etag: Option<Seq<char>>,
)
    requires
        put.uri@ == get.uri@,
        parsed_uri(put.uri@) is Ok,
        destination_of(get.dest.deep_view(), name) is Ok,
    ensures
        parsed_uri(get.uri@) == parsed_uri(put.uri@),
        ({
            let spot = parsed_uri(get.uri@)->Ok_0;
            let place = destination_of(get.dest.deep_view(), name)->Ok_0;
            match delivered(spot, place, contents) {
                Delivered::Stdout(came) => get.dest.deep_view() == Some("-"@) && came == contents,
                Delivered::File(path, came, shown) => {
                    let sent = put_tree(put.src@, spot, contents.len() as int, etag)->Object_0;
                    &&& place == Place::File(path)
                    &&& came == contents
                    &&& shown matches Shown::One(JsonTree::Object(got))
                    &&& got["source"@] == sent["destination"@]
                    &&& got["bytes"@] == sent["bytes"@]
                },
            }
        }),
{
    lemma_record_names();
}

/// The names in the records of transfers differ.
proof fn lemma_record_names()
    ensures
        "action"@ != "source"@,
        "action"@ != "bytes"@,
        "source"@ != "destination"@,
        "source"@ != "bytes"@,
        "source"@ != "dry_run"@,
        "destination"@ != "bytes"@,
        "destination"@ != "etag"@,
        "bytes"@ != "etag"@,
        "bytes"@ != "dry_run"@,
{
    reveal_strlit("action");
    reveal_strlit("source");
    reveal_strlit("destination");
    reveal_strlit("bytes");
    reveal_strlit("etag");
    reveal_strlit("dry_run");
    assert("action"@[0] != "source"@[0]);
    assert("destination"@.len() == 11 && "bytes"@.len() == 5 && "etag"@.len() == 4
        && "dry_run"@.len() == 7 && "source"@.len() == 6);
}

/// What is uploaded, apart from its contents.
#[derive(Debug)]
pub struct PutPlan {
    pub uri: S3Uri,
    pub content_type: Option<String>,
    pub metadata: Option<Fields>,
    pub storage_class: Option<String>,
    pub acl: Option<String>,
}

/// What the arguments put, and how.
pub open spec fn upload_asked(args: S3PutArgs, r: Result<PutPlan, AwlError>) -> bool {
    match r {
        Ok(plan) => {
            &&& parsed_uri(args.uri@) == Ok::<Spot, Failure>(plan.uri@)
            &&& plan.content_type.deep_view() == args.content_type.deep_view()
            &&& plan.storage_class.deep_view() == args.storage_class.deep_view()
            &&& plan.acl.deep_view() == args.acl.deep_view()
            &&& match plan.metadata {
                Some(fields) => args.metadata@.len() > 0 && fields.contents()
                    == json::text_fields(args.metadata.deep_view()),
                None => args.metadata@.len() == 0,
            }
        },
        Err(error) => parsed_uri(args.uri@) == Err::<Spot, Failure>(error@),
    }
}

/// What is uploaded: the metadata, where there is any, by name, and of two with
/// one name the later.
pub fn put_plan(args: &S3PutArgs) -> (r: Result<PutPlan, AwlError>)
    ensures
        upload_asked(*args, r),
{
    match parse_s3_uri(args.uri.as_str()) {
        Err(error) => Err(error),
        Ok(uri) => Ok(
            PutPlan {
                uri,
                content_type: client::copy_text(&args.content_type),
                metadata: if args.metadata.len() == 0 {
                    None
                } else {
                    Some(Fields::of_texts(&args.metadata))
                },
                storage_class: client::copy_text(&args.storage_class),
                acl: client::copy_text(&args.acl),
            },
        ),
    }
}

/// The record of an upload.
pub open spec fn put_tree(
    source: Seq<char>,
    uri: Spot,
    bytes: int,
    etag: Option<Seq<char>>,
) -> JsonTree {
    JsonTree::Object(
        map![
            "action"@ => JsonTree::Text("put"@),
            "source"@ => JsonTree::Text(source),
            "destination"@ => JsonTree::Text(uri.uri()),
            "bytes"@ => json::whole(bytes),
            "etag"@ => json::optional_text(etag),
        ],
    )
}

/// What is shown of an upload.
pub fn put_row(source: &str, uri: &S3Uri, bytes: u64, etag: Option<&str>) -> (r: Output)
    ensures
        r@ == Shown::One(put_tree(source@, uri@, bytes as int, etag.deep_view())),
{
    let mut row = Fields::new();
    row.insert("action", Json::text("put"));
    row.insert("source", Json::text(source));
    row.insert("destination", Json::Text(uri.uri()));
    row.insert("bytes", Json::unsigned(bytes));
    row.insert("etag", Json::optional_text(etag));
    Output::One(Json::Object(row))
}

/// What is removed.
#[derive(Debug)]
pub enum RmPlan {
    /// One object.
    One { bucket: String, key: String },
    /// The objects under a prefix.
    Listed { bucket: String, prefix: String },
}

/// What the arguments remove.
pub open spec fn removal_asked(args: S3RmArgs, r: Result<RmPlan, AwlError>) -> bool {
    match r {
        Ok(RmPlan::One { bucket, key }) => !args.recursive && parsed_uri(args.uri@) == Ok::<
            Spot,
            Failure,
        >(Spot { bucket: bucket@, key: key@ }),
        Ok(RmPlan::Listed { bucket, prefix }) => args.recursive && {
            &&& parsed_uri(args.uri@) matches Ok(spot)
            &&& bucket@ == spot.bucket
            &&& prefix@ == text::trimmed_start(spot.key, '/')
        },
        Err(error) => parsed_uri(args.uri@) == Err::<Spot, Failure>(error@),
    }
}

/// What is removed.
pub fn rm_plan(args: &S3RmArgs) -> (r: Result<RmPlan, AwlError>)
    ensures
        removal_asked(*args, r),
{
    match parse_s3_uri(args.uri.as_str()) {
        Err(error) => Err(error),
        Ok(uri) => if args.recursive {
            Ok(
                RmPlan::Listed {
                    prefix: normalized_prefix(uri.key.as_str()),
                    bucket: uri.bucket,
                },
            )
        } else {
            Ok(RmPlan::One { bucket: uri.bucket, key: uri.key })
        },
    }
}

/// The keys that are deleted, of those that are named.
pub open spec fn deleted_keys(dry_run: bool, keys: Seq<Seq<char>>) -> Seq<Seq<char>> {
    if dry_run {
        Seq::empty()
    } else {
        keys
    }
}

/// The keys that are deleted, of those that are named: none in a dry run.
pub fn keys_to_delete(args: &S3RmArgs, keys: &Vec<String>) -> (r: Vec<String>)
    ensures
        r.deep_view() == deleted_keys(args.dry_run, keys.deep_view()),
{
    let mut out: Vec<String> = Vec::new();
    if args.dry_run {
        assert(out.deep_view() =~= Seq::empty());
        return out;
    }
    let mut i: usize = 0;
    while i < keys.len()
        invariant
            i <= keys.len(),
            out@.len() == i,
            forall|j: int| 0 <= j < i ==> (#[trigger] out@[j])@ == keys@[j]@,
        decreases keys.len() - i,
    {
        out.push(keys[i].clone());
        i += 1;
    }
    assert(out.deep_view() =~= keys.deep_view());
    out
}

/// The record of a removal.
pub open spec fn rm_tree(bucket: Seq<char>, key: Seq<char>, dry_run: bool) -> JsonTree {
    action_tree("rm"@, Some((Spot { bucket, key }).uri()), None, None, dry_run)
}

/// The records of the removals.
pub open spec fn removals_shown(
    bucket: Seq<char>,
    keys: Seq<Seq<char>>,
    dry_run: bool,
) -> Shown {
    Shown::Many(
        keys.map_values(|key: Seq<char>| rm_tree(bucket, key, dry_run)),
    )
}

/// What is shown of removals.
pub fn rm_rows(bucket: &str, keys: &Vec<String>, dry_run: bool) -> (r: Output)
    ensures
        r@ == removals_shown(bucket@, keys.deep_view(), dry_run),
{
    let mut rows: Vec<Json> = Vec::new();
    let mut i: usize = 0;
    while i < keys.len()
        invariant
            i <= keys.len(),
            rows@.len() == i,
            forall|j: int|
                0 <= j < i ==> (#[trigger] rows@[j]).tree() == rm_tree(
                    bucket@,
                    keys@[j]@,
                    dry_run,
                ),
        decreases keys.len() - i,
    {
        let source = "s3://".to_owned().concat(bucket).concat("/").concat(keys[i].as_str());
        rows.push(action_row("rm", Some(source.as_str()), None, None, dry_run));
        i += 1;
    }
    assert(json::trees(rows@) =~= keys.deep_view().map_values(
        |key: Seq<char>| rm_tree(bucket@, key, dry_run),
    ));
    Output::Many(rows)
}

/// A copy from one object to another.
#[derive(Debug)]
pub struct CopyPlan {
    pub src: S3Uri,
    pub dst: S3Uri,
    /// The source as the service wants it named.
    pub copy_source: String,
}

/// The name by which the service knows the source of a copy.
pub open spec fn copy_source_of(spot: Spot) -> Seq<char> {
    spot.bucket + "/"@ + spot.key
}

/// The name by which the service knows the source of a copy.
pub fn copy_source(bucket: &str, key: &str) -> (r: String)
    ensures
        r@ == copy_source_of(Spot { bucket: bucket@, key: key@ }),
{
    bucket.to_owned().concat("/").concat(key)
}

/// What is copied from one URI to another.
pub open spec fn copy_asked(src: Seq<char>, dst: Seq<char>, r: Result<CopyPlan, AwlError>) -> bool {
    match r {
        Ok(plan) => {
            &&& parsed_uri(src) == Ok::<Spot, Failure>(plan.src@)
            &&& parsed_uri(dst) == Ok::<Spot, Failure>(plan.dst@)
            &&& plan.copy_source@ == copy_source_of(plan.src@)
        },
        Err(error) => match parsed_uri(src) {
            Err(failure) => error@ == failure,
            Ok(_) => parsed_uri(dst) == Err::<Spot, Failure>(error@),
        },
    }
}

/// A copy from one object to another.
pub fn copy_plan(src: &str, dst: &str) -> (r: Result<CopyPlan, AwlError>)
    ensures
        copy_asked(src@, dst@, r),
{
    match parse_s3_uri(src) {
        Err(error) => Err(error),
        Ok(src) => match parse_s3_uri(dst) {
            Err(error) => Err(error),
            Ok(dst) => {
                let source = copy_source(src.bucket.as_str(), src.key.as_str());
                Ok(CopyPlan { src, dst, copy_source: source })
            },
        },
    }
}

/// What is shown of a copy.
pub fn copy_row(plan: &CopyPlan) -> (r: Output)
    ensures
        r@ == Shown::One(
            action_tree("cp"@, Some(plan.src@.uri()), Some(plan.dst@.uri()), None, false),
        ),
{
    let source = plan.src.uri();
    let destination = plan.dst.uri();
    Output::One(
        action_row("cp", Some(source.as_str()), Some(destination.as_str()), None, false),
    )
}

/// How long a signed URL is valid, and from when.
#[verifier::external_type_specification]
#[verifier::external_body]
pub struct ExPresigningConfig(aws_sdk_s3::presigning::PresigningConfig);

/// The seconds for which a signed URL is valid.
pub uninterp spec fn config_seconds(config: aws_sdk_s3::presigning::PresigningConfig) -> nat;

/// The longest time for which a signed URL can be valid, in seconds.
pub open spec fn one_week() -> nat {
    604800
}

/// `aws_sdk_s3::presigning::PresigningConfig::expires_in` takes a duration of at
/// most one week, and of a longer one gives an error with this message. From when
/// the URL is valid is not stated: it is the time of the call.
#[verifier::external_body]
fn presigning_config(seconds: u64) -> (r: Result<
    aws_sdk_s3::presigning::PresigningConfig,
    String,
>)
    ensures
        match r {
            Ok(config) => seconds <= one_week() && config_seconds(config) == seconds,
            Err(message) => seconds > one_week() && message@
                == "`expires_in` must be no longer than one week"@,
        },
{
    aws_sdk_s3::presigning::PresigningConfig::expires_in(std::time::Duration::from_secs(seconds))
        .map_err(|error| error.to_string())
}

/// A URL to be signed.
#[derive(Debug)]
pub struct PresignPlan {
    pub uri: S3Uri,
    pub config: aws_sdk_s3::presigning::PresigningConfig,
    pub method: PresignMethod,
}

/// The object and the seconds that `presign` is asked for.
pub open spec fn presign_asked(args: S3PresignArgs) -> Result<(Spot, nat), Failure> {
    match parsed_uri(args.uri@) {
        Err(failure) => Err(failure),
        Ok(spot) => match duration_seconds(args.expires@) {
            Err(failure) => Err(failure),
            Ok(seconds) => if seconds > one_week() {
                Err(Failure::Usage("`expires_in` must be no longer than one week"@))
            } else {
                Ok((spot, seconds))
            },
        },
    }
}

/// A URL to be signed.
pub fn presign_plan(args: &S3PresignArgs) -> (r: Result<PresignPlan, AwlError>)
    ensures
        match r {
            Ok(plan) => {
                &&& presign_asked(*args) == Ok::<(Spot, nat), Failure>(
                    (plan.uri@, config_seconds(plan.config)),
                )
                &&& plan.method == args.method
            },
            Err(error) => presign_asked(*args) == Err::<(Spot, nat), Failure>(error@),
        },
{
    match parse_s3_uri(args.uri.as_str()) {
        Err(error) => Err(error),
        Ok(uri) => match parse_duration(args.expires.as_str()) {
            Err(error) => Err(error),
            Ok(seconds) => match presigning_config(seconds) {
                Err(message) => Err(AwlError::usage(message.as_str())),
                Ok(config) => Ok(PresignPlan { uri, config, method: args.method }),
            },
        },
    }
}

/// The record of a presigned URL.
pub open spec fn presigned_tree(url: Seq<char>, method: PresignMethod) -> JsonTree {
    JsonTree::Object(
        map![
            "url"@ => JsonTree::Text(url),
            "method"@ => JsonTree::Text(
                match method {
                    PresignMethod::Get => "GET"@,
                    PresignMethod::Put => "PUT"@,
                },
            ),
        ],
    )
}

/// What is shown of a signed URL.
pub fn presign_row(url: &str, method: PresignMethod) -> (r: Output)
    ensures
        r@ == Shown::One(presigned_tree(url@, method)),
{
    let mut row = Fields::new();
    row.insert("url", Json::text(url));
    row.insert("method", Json::text(method.as_str()));
    Output::One(Json::Object(row))
}

/// An object of a listing that is read to its end.
#[derive(Debug)]
pub struct ListedObject {
    pub key: String,
    pub size: i64,
}

/// The keys and sizes of the entries that have a key, in order; a size that is
/// missing counts as none.
pub open spec fn keyed(entries: Seq<ListedEntry>) -> Seq<(Seq<char>, i64)>
    decreases entries.len(),
{
    if entries.len() == 0 {
        Seq::empty()
    } else {
        match entries.last().key {
            None => keyed(entries.drop_last()),
            Some(key) => keyed(entries.drop_last()).push(
                (
                    key@,
                    match entries.last().size {
                        Some(size) => size,
                        None => 0,
                    },
                ),
            ),
        }
    }
}

/// The keys and sizes of objects.
pub open spec fn listed(objects: Seq<ListedObject>) -> Seq<(Seq<char>, i64)> {
    objects.map_values(|object: ListedObject| (object.key@, object.size))
}

/// What is done after a page of a listing.
#[derive(Debug)]
pub enum PageStep {
    /// The listing is complete.
    Done,
    /// The next page is asked for, with this token.
    Continue(Option<String>),
}

/// What follows a page of a listing.
pub open spec fn page_followed(
    truncated: Option<bool>,
    token: Option<String>,
    r: PageStep,
) -> bool {
    match r {
        PageStep::Done => truncated != Some(true),
        PageStep::Continue(next) => truncated == Some(true) && next == token,
    }
}

/// Takes in a page of a listing, and says whether another is asked for.
pub fn take_page(
    objects: &mut Vec<ListedObject>,
    page: &Vec<ListedEntry>,
    truncated: Option<bool>,
    token: Option<String>,
) -> (r: PageStep)
    ensures
        listed(final(objects)@) == listed(old(objects)@) + keyed(page@),
        page_followed(truncated, token, r),
{
    let ghost before = listed(objects@);
    let mut i: usize = 0;
    assert(before + keyed(page@.take(0)) =~= before);
    while i < page.len()
        invariant
            i <= page.len(),
            listed(objects@) == before + keyed(page@.take(i as int)),
        decreases page.len() - i,
    {
        let ghost so_far = objects@;
        assert(page@.take(i + 1).drop_last() =~= page@.take(i as int));
        if let Some(key) = &page[i].key {
            let size: i64 = match page[i].size {
                Some(size) => size,
                None => 0,
            };
            objects.push(ListedObject { key: key.clone(), size });
            assert(listed(objects@) =~= listed(so_far).push((key@, size)));
            assert(listed(objects@) =~= before + keyed(page@.take(i + 1)));
        }
        i += 1;
    }
    assert(page@.take(i as int) =~= page@);
    if truncated == Some(true) {
        PageStep::Continue(token)
    } else {
        PageStep::Done
    }
}

/// The keys of objects.
pub open spec fn keys_of(objects: Seq<ListedObject>) -> Seq<Seq<char>> {
    objects.map_values(|object: ListedObject| object.key@)
}

/// The keys of objects.
pub fn object_keys(objects: &Vec<ListedObject>) -> (r: Vec<String>)
    ensures
        r.deep_view() == keys_of(objects@),
{
    let mut keys: Vec<String> = Vec::new();
    let mut i: usize = 0;
    while i < objects.len()
        invariant
            i <= objects.len(),
            keys@.len() == i,
            forall|j: int| 0 <= j < i ==> (#[trigger] keys@[j])@ == objects@[j].key@,
        decreases objects.len() - i,
    {
        keys.push(objects[i].key.clone());
        i += 1;
    }
    assert(keys.deep_view() =~= objects@.map_values(|object: ListedObject| object.key@));
    keys
}

/// The sum of the sizes, where a negative one counts as none.
pub open spec fn total_size(objects: Seq<ListedObject>) -> nat
    decreases objects.len(),
{
    if objects.len() == 0 {
        0
    } else {
        total_size(objects.drop_last()) + if objects.last().size > 0 {
            objects.last().size as nat
        } else {
            0nat
        }
    }
}

/// The sum of fewer sizes is not larger.
proof fn lemma_total_size(objects: Seq<ListedObject>, n: int)
    requires
        0 <= n <= objects.len(),
    ensures
        total_size(objects.take(n)) <= total_size(objects),
    decreases objects.len(),
{
    if n < objects.len() {
        lemma_total_size(objects.drop_last(), n);
        assert(objects.drop_last().take(n) =~= objects.take(n));
    } else {
        assert(objects.take(n) =~= objects);
    }
}

/// The sum of the sizes, where it can be counted.
pub fn total_bytes(objects: &Vec<ListedObject>) -> (r: Option<u64>)
    ensures
        r == (if total_size(objects@) <= u64::MAX {
            Some(total_size(objects@) as u64)
        } else {
            None
        }),
{
    let mut total: u64 = 0;
    let mut i: usize = 0;
    assert(objects@.take(0) =~= Seq::empty());
    while i < objects.len()
        invariant
            i <= objects.len(),
            total == total_size(objects@.take(i as int)),
        decreases objects.len() - i,
    {
        let size: u64 = if objects[i].size > 0 {
            objects[i].size as u64
        } else {
            0
        };
        assert(objects@.take(i + 1).drop_last() =~= objects@.take(i as int));
        proof {
            lemma_total_size(objects@, i + 1);
        }
        match total.checked_add(size) {
            Some(sum) => {
                total = sum;
            },
            None => {
                return None;
            },
        }
        i += 1;
    }
    assert(objects@.take(i as int) =~= objects@);
    Some(total)
}

/// The record of what lies below a URI.
pub open spec fn usage_tree(uri: Spot, count: u64, bytes: u64) -> JsonTree {
    JsonTree::Object(
        map![
            "bucket"@ => JsonTree::Text(uri.bucket),
            "prefix"@ => JsonTree::Text(uri.key),
            "objects"@ => json::whole(count as int),
            "bytes"@ => json::whole(bytes as int),
        ],
    )
}

/// What is shown of the objects under a prefix.
pub fn du_row(uri: &S3Uri, count: u64, bytes: u64) -> (r: Output)
    ensures
        r@ == Shown::One(usage_tree(uri@, count, bytes)),
{
    let mut row = Fields::new();
    row.insert("bucket", Json::text(uri.bucket.as_str()));
    row.insert("prefix", Json::text(uri.key.as_str()));
    row.insert("objects", Json::unsigned(count));
    row.insert("bytes", Json::unsigned(bytes));
    Output::One(Json::Object(row))
}

/// What the service says of an object.
#[derive(Debug)]
pub struct ObjectHead {
    pub content_length: Option<i64>,
    pub content_type: Option<String>,
    pub etag: Option<String>,
    pub metadata: Option<Vec<(String, String)>>,
}

/// The record of what is known of an object.
pub open spec fn head_tree(uri: Spot, head: ObjectHead) -> JsonTree {
    JsonTree::Object(
        map![
            "bucket"@ => JsonTree::Text(uri.bucket),
            "key"@ => JsonTree::Text(uri.key),
            "content_length"@ => json::optional_i64(head.content_length),
            "content_type"@ => json::optional_text(head.content_type.deep_view()),
            "etag"@ => json::optional_text(head.etag.deep_view()),
            "metadata"@ => match head.metadata {
                Some(pairs) => JsonTree::Object(json::text_fields(pairs.deep_view())),
                None => JsonTree::Null,
            },
        ],
    )
}

/// What is shown of an object's metadata.
pub fn head_row(uri: &S3Uri, head: &ObjectHead) -> (r: Output)
    ensures
        r@ == Shown::One(head_tree(uri@, *head)),
{
    let mut row = Fields::new();
    row.insert("bucket", Json::text(uri.bucket.as_str()));
    row.insert("key", Json::text(uri.key.as_str()));
    row.insert("content_length", Json::optional_signed(head.content_length));
    row.insert("content_type", Json::optional_string(&head.content_type));
    row.insert("etag", Json::optional_string(&head.etag));
    row.insert(
        "metadata",
        match &head.metadata {
            Some(pairs) => Json::Object(Fields::of_texts(pairs)),
            None => Json::Null,
        },
    );
    Output::One(Json::Object(row))
}

/// What is a valid URI: one that begins with `s3://` and then names a bucket. The
/// bucket ends at the first slash after that, and the key is all that follows it.
pub proof fn law_uri_is_taken_apart(uri: Seq<char>)
    ensures
        parsed_uri(uri) is Ok <==> "s3://"@.is_prefix_of(uri) && uri.len() > 5 && uri[5] != '/',
        parsed_uri(uri) matches Ok(spot) ==> spot.bucket.len() > 0 && !spot.bucket.contains('/')
            && (uri == "s3://"@ + spot.bucket + "/"@ + spot.key || (uri == "s3://"@ + spot.bucket
            && spot.key.len() == 0)),
        parsed_uri(uri) matches Err(failure) ==> failure is Usage,
{
    reveal_strlit("s3://");
    reveal_strlit("/");
    assert("/"@ =~= seq!['/']);
    if "s3://"@.is_prefix_of(uri) {
        let rest = uri.skip(5);
        assert(uri =~= "s3://"@ + rest);
        text::lemma_find_from(rest, "/"@, 0);
        match text::find_text(rest, "/"@) {
            Some(i) => {
                let bucket = rest.take(i);
                assert(rest.subrange(i, i + 1)[0] == '/');
                assert(rest =~= bucket + "/"@ + rest.skip(i + 1));
                assert(uri =~= "s3://"@ + bucket + "/"@ + rest.skip(i + 1));
                assert forall|k: int| 0 <= k < bucket.len() implies #[trigger] bucket[k]
                    != '/' by {
                    if bucket[k] == '/' {
                        assert(rest.subrange(k, k + 1) =~= "/"@);
                        assert(text::occurs_at(rest, "/"@, k));
                    }
                }
                if i == 0 {
                    assert(uri[5] == rest[0]);
                } else {
                    assert(bucket[0] == uri[5]);
                }
            },
            None => {
                assert forall|k: int| 0 <= k < rest.len() implies #[trigger] rest[k] != '/' by {
                    if rest[k] == '/' {
                        assert(rest.subrange(k, k + 1) =~= "/"@);
                        assert(text::occurs_at(rest, "/"@, k));
                    }
                }
                if rest.len() > 0 {
                    assert(rest[0] == uri[5]);
                }
            },
        }
    }
}

/// What an argument of a sync names: a bucket exactly where it is a valid URI, and
/// otherwise the local path that it is.
pub proof fn law_end_is_bucket_or_path(value: Seq<char>)
    ensures
        match end_of(value) {
            End::S3(spot) => parsed_uri(value) == Ok::<Spot, Failure>(spot),
            End::Local(path) => path == value && parsed_uri(value) is Err,
        },
{
}

/// A key is put below a prefix with one slash between them, however many slashes
/// stand around the prefix or before the key; without a prefix it is itself.
pub proof fn law_key_is_put_below(prefix: Seq<char>, key: Seq<char>)
    requires
        prefix.len() > 0 ==> prefix[0] != '/' && prefix.last() != '/',
        key.len() > 0,
        key[0] != '/',
    ensures
        joined_key(prefix, key) == (if prefix.len() == 0 {
            key
        } else {
            prefix + "/"@ + key
        }),
        joined_key(seq!['/'] + prefix + seq!['/'], seq!['/'] + key) == joined_key(prefix, key),
        joined_key(prefix, Seq::empty()) == prefix,
{
    let padded = seq!['/'] + prefix + seq!['/'];
    assert(padded.skip(1) =~= prefix + seq!['/']);
    assert((seq!['/'] + key).skip(1) =~= key);
    assert(text::trimmed_start(key, '/') == key);
    assert(text::trimmed_start(seq!['/'] + key, '/') == key);
    assert(text::trimmed_start(padded, '/') == text::trimmed_start(padded.skip(1), '/'));
    if prefix.len() == 0 {
        assert(padded.skip(1) =~= seq!['/']);
        assert(seq!['/'].skip(1) =~= Seq::empty());
        assert(text::trimmed_start(padded.skip(1), '/') == text::trimmed_start(
            padded.skip(1).skip(1),
            '/',
        ));
        assert(padded.skip(1).skip(1) =~= Seq::empty());
    } else {
        let inner = prefix + seq!['/'];
        assert(inner[0] == prefix[0]);
        assert(inner.drop_last() =~= prefix);
        assert(inner.last() == '/');
        assert(text::trimmed_end(inner, '/') == text::trimmed_end(prefix, '/'));
    }
}

/// A key that is not below a prefix is seen from there as it is.
pub proof fn law_key_elsewhere_is_kept(prefix: Seq<char>, key: Seq<char>)
    requires
        !(text::trimmed(prefix, '/') + "/"@).is_prefix_of(key),
    ensures
        stripped_key(prefix, key) == key,
{
    reveal_strlit("/");
    let p = text::trimmed(prefix, '/');
    if p.len() > 0 && p.is_prefix_of(key) {
        let rest = key.skip(p.len() as int);
        if "/"@.is_prefix_of(rest) {
            assert(rest[0] == '/');
            assert((p + "/"@) =~= key.take(p.len() as int + 1));
        }
    }
}

/// The key of a path is its components with slashes between them, and a component
/// that is no text is left out.
pub proof fn law_path_key_has_each_component(
    components: Seq<Option<Seq<char>>>,
    last: Seq<char>,
)
    ensures
        present(components.push(None)) == present(components),
        text::joined(present(components.push(Some(last))), "/"@) == (if present(components).len()
            == 0 {
            last
        } else {
            text::joined(present(components), "/"@) + "/"@ + last
        }),
        present(Seq::<Option<Seq<char>>>::empty()).len() == 0,
{
    assert(components.push(None).drop_last() =~= components);
    assert(components.push(Some(last)).drop_last() =~= components);
    let before = present(components);
    assert(before.push(last).drop_last() =~= before);
}

/// A duration is refused exactly where what stands before its unit is no number
/// that fits, and what is refused is a usage error.
pub proof fn law_duration_needs_a_number(digits: Seq<char>, unit: char)
    requires
        unit == 's' || unit == 'm' || unit == 'h' || unit == 'd',
    ensures
        duration_seconds(digits.push(unit)) is Ok <==> number::unsigned_value(
            digits,
            u64::MAX as nat,
        ) is Some,
        duration_seconds(digits.push(unit)) matches Err(failure) ==> failure is Usage,
        duration_seconds(digits) matches Err(failure) ==> failure is Usage,
{
    assert(digits.push(unit).drop_last() =~= digits);
}

/// A URL is signed for the object that the URI names and for as long as was asked
/// for, up to a week; a longer time is refused.
pub proof fn law_presigning_is_for_at_most_a_week(args: S3PresignArgs)
    ensures
        presign_asked(args) matches Ok((spot, seconds)) ==> {
            &&& parsed_uri(args.uri@) == Ok::<Spot, Failure>(spot)
            &&& duration_seconds(args.expires@) == Ok::<nat, Failure>(seconds)
            &&& seconds <= 7 * 24 * 60 * 60
        },
        parsed_uri(args.uri@) is Ok && (duration_seconds(args.expires@) matches Ok(seconds)
            && seconds <= 7 * 24 * 60 * 60) ==> presign_asked(args) is Ok,
        duration_seconds(args.expires@) matches Ok(seconds) && seconds > 7 * 24 * 60 * 60
            ==> presign_asked(args) is Err,
{
}

/// Where a download goes: what was named decides, and a dash is standard output;
/// without it the name that the key gives does.
pub proof fn law_destination_is_as_named(path: Seq<char>, name: Option<Seq<char>>)
    ensures
        destination_of(Some("-"@), name) == Ok::<Place, Failure>(Place::Stdout),
        path != "-"@ ==> destination_of(Some(path), name) == Ok::<Place, Failure>(
            Place::File(path),
        ),
        destination_of(None, Some(path)) == Ok::<Place, Failure>(Place::File(path)),
        destination_of(None, None) matches Err(Failure::Usage(_)),
{
}

/// The name under which the service finds the source of a copy is the URI of the
/// source without its scheme.
pub proof fn law_copy_source_is_in_the_uri(spot: Spot)
    ensures
        spot.uri() == "s3://"@ + copy_source_of(spot),
{
    assert(spot.uri() =~= "s3://"@ + copy_source_of(spot));
}

/// A page of a listing gives each object that has a key, once and in order, with
/// its size, or zero where that is not known.
pub proof fn law_page_gives_each_object(entries: Seq<ListedEntry>, entry: ListedEntry)
    ensures
        entry.key is None ==> keyed(entries.push(entry)) == keyed(entries),
        entry.key matches Some(key) ==> keyed(entries.push(entry)) == keyed(entries).push(
            (
                key@,
                if entry.size is Some {
                    entry.size->Some_0
                } else {
                    0i64
                },
            ),
        ),
        keyed(Seq::<ListedEntry>::empty()).len() == 0,
{
    assert(entries.push(entry).drop_last() =~= entries);
}

/// The size of objects together is the sum of their sizes, of which none is less
/// than zero: that of two lists together is the sum of both.
pub proof fn law_sizes_add_up(a: Seq<ListedObject>, b: Seq<ListedObject>, object: ListedObject)
    ensures
        total_size(a + b) == total_size(a) + total_size(b),
        object.size >= 0 ==> total_size(seq![object]) == object.size,
        object.size < 0 ==> total_size(seq![object]) == 0,
        total_size(Seq::<ListedObject>::empty()) == 0,
    decreases b.len(),
{
    assert(seq![object].drop_last() =~= Seq::empty());
    assert(total_size(Seq::<ListedObject>::empty()) == 0);
    assert(seq![object].last() == object);
    assert(total_size(seq![object]) == total_size(seq![object].drop_last()) + (if object.size > 0 {
        object.size as nat
    } else {
        0nat
    }));
    if b.len() == 0 {
        assert(a + b =~= a);
    } else {
        assert((a + b).drop_last() =~= a + b.drop_last());
        law_sizes_add_up(a, b.drop_last(), object);
    }
}

/// The row of an object shows the bucket, its key and its size, and what else is known.
pub proof fn law_object_row_shows_it(bucket: Seq<char>, entry: ListedEntry)
    ensures
        output::shows(object_tree(bucket, entry), "bucket"@, bucket),
        output::shows(
            object_tree(bucket, entry),
            "key"@,
            output::written_text(entry.key.deep_view()),
        ),
        output::shows(object_tree(bucket, entry), "size"@, number::signed_decimal(if entry.size is Some {
            entry.size->Some_0 as int
        } else {
            0
        })),
        output::shows(
            object_tree(bucket, entry),
            "last_modified"@,
            output::written_text(entry.last_modified.deep_view()),
        ),
        output::shows(
            object_tree(bucket, entry),
            "etag"@,
            output::written_text(entry.etag.deep_view()),
        ),
{
    reveal_strlit("bucket");
    reveal_strlit("key");
    reveal_strlit("size");
    reveal_strlit("last_modified");
    reveal_strlit("etag");
    assert("bucket"@.len() == 6);
    assert("key"@.len() == 3);
    assert("size"@.len() == 4);
    assert("last_modified"@.len() == 13);
    assert("etag"@.len() == 4);
    assert("size"@[0] != "etag"@[0]);
    let fields = object_tree(bucket, entry)->Object_0;
    output::lemma_shows(fields, "bucket"@);
    output::lemma_shows(fields, "key"@);
    output::lemma_shows(fields, "size"@);
    output::lemma_shows(fields, "last_modified"@);
    output::lemma_shows(fields, "etag"@);
}

/// The row of a common prefix shows the bucket and the prefix.
pub proof fn law_prefix_row_shows_it(bucket: Seq<char>, prefix: Seq<char>)
    ensures
        output::shows(prefix_tree(bucket, prefix), "bucket"@, bucket),
        output::shows(prefix_tree(bucket, prefix), "prefix"@, prefix),
{
    reveal_strlit("bucket");
    reveal_strlit("prefix");
    assert("bucket"@.len() == 6);
    assert("prefix"@.len() == 6);
    assert("bucket"@[0] != "prefix"@[0]);
    let fields = prefix_tree(bucket, prefix)->Object_0;
    output::lemma_shows(fields, "bucket"@);
    output::lemma_shows(fields, "prefix"@);
}

/// The row of a bucket shows its name.
pub proof fn law_bucket_row_shows_it(bucket: Seq<char>)
    ensures
        output::shows(bucket_tree(bucket), "bucket"@, bucket),
{
    reveal_strlit("bucket");
    assert("bucket"@.len() == 6);
    let fields = bucket_tree(bucket)->Object_0;
    output::lemma_shows(fields, "bucket"@);
}

/// The row of an action shows what was done, from where, to where and with how many bytes, and whether it was a dry run.
pub proof fn law_action_row_shows_it(
    action: Seq<char>,
    source: Option<Seq<char>>,
    destination: Option<Seq<char>>,
    bytes: Option<i64>,
    dry_run: bool,
)
    ensures
        output::shows(action_tree(
            action,
            source,
            destination,
            match bytes {
                Some(n) => Some(n as int),
                None => None,
            },
            dry_run,
        ), "action"@, action),
        output::shows(action_tree(
            action,
            source,
            destination,
            match bytes {
                Some(n) => Some(n as int),
                None => None,
            },
            dry_run,
        ), "source"@, output::written_text(source)),
        output::shows(action_tree(
            action,
            source,
            destination,
            match bytes {
                Some(n) => Some(n as int),
                None => None,
            },
            dry_run,
        ), "destination"@, output::written_text(destination)),
        output::shows(action_tree(
            action,
            source,
            destination,
            match bytes {
                Some(n) => Some(n as int),
                None => None,
            },
            dry_run,
        ), "bytes"@, output::written_number(bytes)),
        output::shows(action_tree(
            action,
            source,
            destination,
            match bytes {
                Some(n) => Some(n as int),
                None => None,
            },
            dry_run,
        ), "dry_run"@, output::written_bool(dry_run)),
{
    reveal_strlit("action");
    reveal_strlit("source");
    reveal_strlit("destination");
    reveal_strlit("bytes");
    reveal_strlit("dry_run");
    assert("action"@.len() == 6);
    assert("source"@.len() == 6);
    assert("destination"@.len() == 11);
    assert("bytes"@.len() == 5);
    assert("dry_run"@.len() == 7);
    assert("action"@[0] != "source"@[0]);
    let fields = action_tree(
            action,
            source,
            destination,
            match bytes {
                Some(n) => Some(n as int),
                None => None,
            },
            dry_run,
        )->Object_0;
    output::lemma_shows(fields, "action"@);
    output::lemma_shows(fields, "source"@);
    output::lemma_shows(fields, "destination"@);
    output::lemma_shows(fields, "bytes"@);
    output::lemma_shows(fields, "dry_run"@);
}

/// The row of a removal shows the URI of the object, and whether it was a dry run.
pub proof fn law_removal_row_shows_it(bucket: Seq<char>, key: Seq<char>, dry_run: bool)
    ensures
        output::shows(rm_tree(bucket, key, dry_run), "action"@, "rm"@),
        output::shows(rm_tree(bucket, key, dry_run), "source"@, "s3://"@ + bucket + "/"@ + key),
        output::shows(rm_tree(bucket, key, dry_run), "destination"@, Seq::empty()),
        output::shows(rm_tree(bucket, key, dry_run), "bytes"@, Seq::empty()),
        output::shows(rm_tree(bucket, key, dry_run), "dry_run"@, output::written_bool(dry_run)),
{
    reveal_strlit("action");
    reveal_strlit("source");
    reveal_strlit("destination");
    reveal_strlit("bytes");
    reveal_strlit("dry_run");
    assert("action"@.len() == 6);
    assert("source"@.len() == 6);
    assert("destination"@.len() == 11);
    assert("bytes"@.len() == 5);
    assert("dry_run"@.len() == 7);
    assert("action"@[0] != "source"@[0]);
    let fields = rm_tree(bucket, key, dry_run)->Object_0;
    output::lemma_shows(fields, "action"@);
    output::lemma_shows(fields, "source"@);
    output::lemma_shows(fields, "destination"@);
    output::lemma_shows(fields, "bytes"@);
    output::lemma_shows(fields, "dry_run"@);
}

/// The row of a download shows the URI of the object, the file and how many bytes it has.
pub proof fn law_download_row_shows_it(uri: Spot, path: Seq<char>, bytes: nat)
    ensures
        output::shows(get_tree(uri, path, bytes as int), "action"@, "get"@),
        output::shows(
            get_tree(uri, path, bytes as int),
            "source"@,
            "s3://"@ + uri.bucket + "/"@ + uri.key,
        ),
        output::shows(get_tree(uri, path, bytes as int), "destination"@, path),
        output::shows(get_tree(uri, path, bytes as int), "bytes"@, number::decimal(bytes)),
        output::shows(get_tree(uri, path, bytes as int), "dry_run"@, "false"@),
{
    reveal_strlit("action");
    reveal_strlit("source");
    reveal_strlit("destination");
    reveal_strlit("bytes");
    reveal_strlit("dry_run");
    assert("action"@.len() == 6);
    assert("source"@.len() == 6);
    assert("destination"@.len() == 11);
    assert("bytes"@.len() == 5);
    assert("dry_run"@.len() == 7);
    assert("action"@[0] != "source"@[0]);
    let fields = get_tree(uri, path, bytes as int)->Object_0;
    output::lemma_shows(fields, "action"@);
    output::lemma_shows(fields, "source"@);
    output::lemma_shows(fields, "destination"@);
    output::lemma_shows(fields, "bytes"@);
    output::lemma_shows(fields, "dry_run"@);
}

/// The row of an upload shows the file, the URI of the object, how many bytes it has and its tag.
pub proof fn law_upload_row_shows_it(
    source: Seq<char>,
    uri: Spot,
    bytes: nat,
    etag: Option<Seq<char>>,
)
    ensures
        output::shows(put_tree(source, uri, bytes as int, etag), "action"@, "put"@),
        output::shows(put_tree(source, uri, bytes as int, etag), "source"@, source),
        output::shows(
            put_tree(source, uri, bytes as int, etag),
            "destination"@,
            "s3://"@ + uri.bucket + "/"@ + uri.key,
        ),
        output::shows(put_tree(source, uri, bytes as int, etag), "bytes"@, number::decimal(bytes)),
        output::shows(
            put_tree(source, uri, bytes as int, etag),
            "etag"@,
            output::written_text(etag),
        ),
{
    reveal_strlit("action");
    reveal_strlit("source");
    reveal_strlit("destination");
    reveal_strlit("bytes");
    reveal_strlit("etag");
    assert("action"@.len() == 6);
    assert("source"@.len() == 6);
    assert("destination"@.len() == 11);
    assert("bytes"@.len() == 5);
    assert("etag"@.len() == 4);
    assert("action"@[0] != "source"@[0]);
    let fields = put_tree(source, uri, bytes as int, etag)->Object_0;
    output::lemma_shows(fields, "action"@);
    output::lemma_shows(fields, "source"@);
    output::lemma_shows(fields, "destination"@);
    output::lemma_shows(fields, "bytes"@);
    output::lemma_shows(fields, "etag"@);
}

/// Of patterns that are no globs the first is named, with the reason; where all are
/// globs none is.
pub proof fn law_first_bad_glob_is_named(patterns: Seq<Seq<char>>, i: int)
    requires
        0 <= i,
    ensures
        match bad_glob(patterns, i) {
            Some((pattern, message)) => exists|k: int|
                i <= k < patterns.len() && #[trigger] patterns[k] == pattern && glob_complaint(
                    pattern,
                ) == Some(message) && forall|j: int|
                    i <= j < k ==> glob_complaint(#[trigger] patterns[j]) is None,
            None => forall|k: int|
                i <= k < patterns.len() ==> glob_complaint(#[trigger] patterns[k]) is None,
        },
    decreases patterns.len() - i,
{
    if i < patterns.len() {
        if glob_complaint(patterns[i]) is None {
            law_first_bad_glob_is_named(patterns, i + 1);
            if bad_glob(patterns, i + 1) is Some {
                let (pattern, message) = bad_glob(patterns, i + 1)->Some_0;
                let k = choose|k: int|
                    i + 1 <= k < patterns.len() && #[trigger] patterns[k] == pattern
                        && glob_complaint(pattern) == Some(message) && forall|j: int|
                        i + 1 <= j < k ==> glob_complaint(#[trigger] patterns[j]) is None;
                assert(patterns[k] == pattern);
            }
        } else {
            assert(patterns[i] == bad_glob(patterns, i)->Some_0.0);
        }
    }
}

/// A sync begins as the command line asks: with its flags, nothing seen, nothing
/// counted, and not stopped; and its transfers keep the flags.
pub proof fn law_sync_begins_as_asked(
    args: S3SyncArgs,
    start: SyncState,
    names: Seq<Seq<char>>,
    success: spec_fn(Seq<char>) -> bool,
)
    requires
        sync_can_begin(args, start),
    ensures
        start.dry_run == args.dry_run,
        start.fail_fast == args.fail_fast,
        start.delete == args.delete,
        start.seen == Set::<Seq<char>>::empty(),
        start.succeeded == 0,
        start.failed == 0,
        !start.stopped,
        start.transfers(names, success).fail_fast == args.fail_fast,
        start.transfers(names, success).delete == args.delete,
        !args.fail_fast ==> !start.transfers(names, success).stopped,
{
    lemma_transfers_keep(start, names, success);
    if !args.fail_fast {
        lemma_never_stopped(start, names, success);
    }
}

proof fn lemma_never_stopped(
    state: SyncState,
    names: Seq<Seq<char>>,
    success: spec_fn(Seq<char>) -> bool,
)
    requires
        !state.fail_fast,
        !state.stopped,
    ensures
        !state.transfers(names, success).stopped,
    decreases names.len(),
{
    if names.len() > 0 {
        let (next, moves) = state.offered(names[0]);
        let after = if moves {
            next.transferred(success(names[0]))
        } else {
            next
        };
        lemma_never_stopped(after, names.skip(1), success);
    }
}

/// The patterns of a filter stand for no paths where there are none, and otherwise
/// for those that one of them matches.
pub proof fn law_patterns_stand_for_what_they_match(
    paths: Option<Set<Seq<char>>>,
    patterns: Seq<Seq<char>>,
    path: Seq<char>,
)
    requires
        stands_for(paths, patterns),
        all_portable(patterns),
        portable(path),
    ensures
        paths is None <==> patterns.len() == 0,
        paths matches Some(set) ==> (set.contains(path) <==> exists|i: int|
            0 <= i < patterns.len() && #[trigger] glob_matches(patterns[i], path)),
{
}

/// The record of what lies below a URI tells how much it is.
pub proof fn law_usage_row_shows_it(uri: Spot, count: u64, bytes: u64)
    ensures
        output::shows(usage_tree(uri, count, bytes), "bucket"@, uri.bucket),
        output::shows(usage_tree(uri, count, bytes), "prefix"@, uri.key),
        output::shows(
            usage_tree(uri, count, bytes),
            "objects"@,
            crate::number::signed_decimal(count as int),
        ),
        output::shows(
            usage_tree(uri, count, bytes),
            "bytes"@,
            crate::number::signed_decimal(bytes as int),
        ),
{
    reveal_strlit("bucket");
    reveal_strlit("prefix");
    reveal_strlit("objects");
    reveal_strlit("bytes");
    assert("bucket"@.len() == 6);
    assert("prefix"@.len() == 6);
    assert("objects"@.len() == 7);
    assert("bytes"@.len() == 5);
    assert("bucket"@[0] != "prefix"@[0]);
    let fields = usage_tree(uri, count, bytes)->Object_0;
    output::lemma_shows(fields, "bucket"@);
    output::lemma_shows(fields, "prefix"@);
    output::lemma_shows(fields, "objects"@);
    output::lemma_shows(fields, "bytes"@);
}

/// The record of an object tells what is known of it.
pub proof fn law_head_row_shows_it(uri: Spot, head: ObjectHead)
    ensures
        head_tree(uri, head)->Object_0["metadata"@] == (match head.metadata {
            Some(pairs) => JsonTree::Object(json::text_fields(pairs.deep_view())),
            None => JsonTree::Null,
        }),
        output::shows(head_tree(uri, head), "bucket"@, uri.bucket),
        output::shows(head_tree(uri, head), "key"@, uri.key),
        output::shows(
            head_tree(uri, head),
            "content_length"@,
            output::written_number(head.content_length),
        ),
        output::shows(
            head_tree(uri, head),
            "content_type"@,
            output::written_text(head.content_type.deep_view()),
        ),
        output::shows(head_tree(uri, head), "etag"@, output::written_text(head.etag.deep_view())),
{
    reveal_strlit("metadata");
    assert("metadata"@.len() == 8);
    reveal_strlit("bucket");
    reveal_strlit("key");
    reveal_strlit("content_length");
    reveal_strlit("content_type");
    reveal_strlit("etag");
    assert("bucket"@.len() == 6);
    assert("key"@.len() == 3);
    assert("content_length"@.len() == 14);
    assert("content_type"@.len() == 12);
    assert("etag"@.len() == 4);
    let fields = head_tree(uri, head)->Object_0;
    output::lemma_shows(fields, "bucket"@);
    output::lemma_shows(fields, "key"@);
    output::lemma_shows(fields, "content_length"@);
    output::lemma_shows(fields, "content_type"@);
    output::lemma_shows(fields, "etag"@);
}

/// The record of a presigned URL shows it and its method.
pub proof fn law_presigned_row_shows_it(url: Seq<char>, method: PresignMethod)
    ensures
        output::shows(presigned_tree(url, method), "url"@, url),
        output::shows(presigned_tree(url, method), "method"@, (if method is Get {
                "GET"@
            } else {
                "PUT"@
            })),
{
    reveal_strlit("url");
    reveal_strlit("method");
    assert("url"@.len() == 3);
    assert("method"@.len() == 6);
    let fields = presigned_tree(url, method)->Object_0;
    output::lemma_shows(fields, "url"@);
    output::lemma_shows(fields, "method"@);
}

/// A listing without a URI is of the buckets; with one it is of the objects in the
/// bucket whose keys begin with its key, in groups unless asked for all.
pub proof fn law_listing_is_as_asked(args: S3LsArgs, spot: Spot, r: Result<ListPlan, AwlError>)
    requires
        listing_asked(args, r),
        spot.bucket.len() > 0,
        !spot.bucket.contains('/'),
    ensures
        args.uri is None ==> r matches Ok(ListPlan::Buckets),
        args.uri.deep_view() == Some(spot.uri()) && (spot.key.len() == 0 || spot.key[0] != '/') ==> (
        r matches Ok(ListPlan::Objects { bucket, prefix, grouped }) && bucket@ == spot.bucket
            && prefix@ == spot.key && grouped == !args.recursive),
        args.uri matches Some(uri) && !"s3://"@.is_prefix_of(uri@) ==> (r matches Err(error)
            && error@ is Usage),
{
    law_uri_round_trip(spot);
    if let Some(uri) = args.uri {
        law_uri_is_taken_apart(uri@);
    }
}

/// One object is removed, the one at the URI, unless all below it are asked for.
pub proof fn law_removal_is_as_asked(args: S3RmArgs, spot: Spot, r: Result<RmPlan, AwlError>)
    requires
        removal_asked(args, r),
        spot.bucket.len() > 0,
        !spot.bucket.contains('/'),
    ensures
        args.uri@ == spot.uri() && !args.recursive ==> (r matches Ok(RmPlan::One { bucket, key })
            && bucket@ == spot.bucket && key@ == spot.key),
        args.uri@ == spot.uri() && args.recursive && (spot.key.len() == 0 || spot.key[0] != '/')
            ==> (r matches Ok(RmPlan::Listed { bucket, prefix }) && bucket@ == spot.bucket && prefix@
            == spot.key),
        !"s3://"@.is_prefix_of(args.uri@) ==> (r matches Err(error) && error@ is Usage),
{
    law_uri_round_trip(spot);
    law_uri_is_taken_apart(args.uri@);
}

/// An object is put at the URI, with what the arguments say of it.
pub proof fn law_upload_is_as_asked(args: S3PutArgs, spot: Spot, r: Result<PutPlan, AwlError>)
    requires
        upload_asked(args, r),
        spot.bucket.len() > 0,
        !spot.bucket.contains('/'),
    ensures
        args.uri@ == spot.uri() ==> (r matches Ok(plan) && plan.uri@ == spot
            && plan.content_type.deep_view() == args.content_type.deep_view()
            && plan.storage_class.deep_view() == args.storage_class.deep_view()
            && plan.acl.deep_view() == args.acl.deep_view() && (args.metadata@.len() == 0
            <==> plan.metadata is None)),
        !"s3://"@.is_prefix_of(args.uri@) ==> (r matches Err(error) && error@ is Usage),
{
    law_uri_round_trip(spot);
    law_uri_is_taken_apart(args.uri@);
}

/// A copy is from the object at the first URI to that at the second.
pub proof fn law_copy_is_as_asked(from: Spot, to: Spot, r: Result<CopyPlan, AwlError>)
    requires
        copy_asked(from.uri(), to.uri(), r),
        from.bucket.len() > 0,
        !from.bucket.contains('/'),
        to.bucket.len() > 0,
        !to.bucket.contains('/'),
    ensures
        r matches Ok(plan) && plan.src@ == from && plan.dst@ == to && plan.copy_source@
            == copy_source_of(from),
{
    law_uri_round_trip(from);
    law_uri_round_trip(to);
}

/// All the keys are deleted, and none in a dry run.
pub proof fn law_dry_run_deletes_nothing(keys: Seq<Seq<char>>)
    ensures
        deleted_keys(true, keys).len() == 0,
        deleted_keys(false, keys) == keys,
{
}

/// There is a record for each of the removals, in order.
pub proof fn law_rm_rows_are_all_shown(
    bucket: Seq<char>,
    keys: Seq<Seq<char>>,
    dry_run: bool,
    i: int,
)
    requires
        0 <= i < keys.len(),
    ensures
        removals_shown(bucket, keys, dry_run) matches Shown::Many(rows) && rows.len() == keys.len() && rows[i]
            == rm_tree(bucket, keys[i], dry_run),
{
}

/// A listing shows each prefix that has a name, and then each object, in order.
pub proof fn law_listing_shows_each_object(
    bucket: Seq<char>,
    prefixes: Seq<Option<Seq<char>>>,
    entries: Seq<ListedEntry>,
    prefix: Seq<char>,
    i: int,
)
    requires
        0 <= i < entries.len(),
    ensures
        objects_shown(bucket, Seq::empty(), entries) matches Shown::Many(rows) && rows.len()
            == entries.len() && rows[i] == object_tree(bucket, entries[i]),
        objects_shown(bucket, seq![Some(prefix)], entries) matches Shown::Many(rows) && rows.len()
            == entries.len() + 1 && rows[0] == prefix_tree(bucket, prefix) && rows[i + 1]
            == object_tree(bucket, entries[i]),
        present(prefixes.push(Some(prefix))) == present(prefixes).push(prefix),
        present(prefixes.push(None)) == present(prefixes),
{
    assert(prefixes.push(Some(prefix)).drop_last() =~= prefixes);
    assert(prefixes.push(None).drop_last() =~= prefixes);
    let none = Seq::<Option<Seq<char>>>::empty();
    assert(seq![Some(prefix)] =~= none.push(Some(prefix)));
    assert(none.push(Some(prefix)).drop_last() =~= none);
    assert(present(none) =~= Seq::empty());
    assert(present(seq![Some(prefix)]) =~= seq![prefix]);
}

/// A duration is as many seconds as its unit says, up to the longest there is.
pub proof fn law_duration_is_cut_at_the_longest(n: nat)
    requires
        n <= u64::MAX,
    ensures
        ({
            let minutes = duration_seconds(number::decimal(n).push('m'));
            let hours = duration_seconds(number::decimal(n).push('h'));
            let days = duration_seconds(number::decimal(n).push('d'));
            &&& minutes matches Ok(seconds) && (seconds == 60 * n || (60 * n > u64::MAX && seconds
                == u64::MAX))
            &&& hours matches Ok(seconds) && (seconds == 3600 * n || (3600 * n > u64::MAX
                && seconds == u64::MAX))
            &&& days matches Ok(seconds) && (seconds == 86400 * n || (86400 * n > u64::MAX
                && seconds == u64::MAX))
        }),
{
    law_duration_units(n);
}

/// Each bucket that has a name is shown, in order.
pub proof fn law_buckets_are_all_shown(names: Seq<Option<Seq<char>>>, name: Seq<char>)
    ensures
        buckets_shown(names.push(Some(name))) matches Shown::Many(rows) && buckets_shown(
            names,
        ) matches Shown::Many(others) && rows == others.push(bucket_tree(name)),
        buckets_shown(names.push(None)) == buckets_shown(names),
        buckets_shown(Seq::empty()) matches Shown::Many(rows) && rows.len() == 0,
{
    assert(names.push(Some(name)).drop_last() =~= names);
    assert(names.push(None).drop_last() =~= names);
    assert(present(names.push(Some(name))) == present(names).push(name));
    let f = |name: Seq<char>| bucket_tree(name);
    assert(present(names).push(name).map_values(f) =~= present(names).map_values(f).push(
        bucket_tree(name),
    ));
}

/// Another page is asked for exactly where the listing was cut, with the token that
/// came with the page; and the keys are those of all the objects, in order.
pub proof fn law_cut_listing_goes_on(
    token: Option<String>,
    r: PageStep,
    objects: Seq<ListedObject>,
    i: int,
)
    requires
        0 <= i < objects.len(),
    ensures
        page_followed(Some(true), token, r) ==> r == PageStep::Continue(token),
        page_followed(Some(false), token, r) ==> r is Done,
        page_followed(None, token, r) ==> r is Done,
        keys_of(objects).len() == objects.len() && keys_of(objects)[i] == objects[i].key@,
{
}

} // verus!
