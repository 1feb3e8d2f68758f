//! The command line: its options, subcommands and the texts derived from them.
use vstd::prelude::*;

use crate::text;

verus! {

/// The options that every command takes.
#[derive(Debug, Clone)]
pub struct Globals {
    pub profile: Option<String>,
    pub region: Option<String>,
    pub endpoint_url: Option<String>,
    pub output: Option<OutputFormat>,
    pub field: Option<String>,
    pub no_color: bool,
    pub quiet: bool,
    pub verbose: u8,
    pub role_arn: Option<String>,
    pub role_session_name: Option<String>,
    pub mfa_token: Option<String>,
    pub retry_mode: Option<String>,
    pub max_attempts: Option<u32>,
}

impl Globals {
    /// The level that a number of `-v` flags asks for.
    pub open spec fn level(self) -> Seq<char> {
        if self.verbose == 0 {
            "warn"@
        } else if self.verbose == 1 {
            "info"@
        } else if self.verbose == 2 {
            "debug"@
        } else {
            "trace"@
        }
    }

    /// The log filter that a number of `-v` flags asks for.
    pub fn log_filter(&self) -> (r: &'static str)
        ensures
            r@ == self.level(),
    {
        match self.verbose {
            0 => "warn",
            1 => "info",
            2 => "debug",
            _ => "trace",
        }
    }
}

/// How results are written.
#[derive(Debug, Clone, Copy, PartialEq, Eq, Structural)]
pub enum OutputFormat {
    Table,
    Json,
    Jsonl,
    Toml,
    Yaml,
    Tsv,
    Plain,
}

/// A parsed command line.
#[derive(Debug)]
pub struct Cli {
    pub globals: Globals,
    pub command: Command,
}

/// The service that a command line speaks to.
#[derive(Debug)]
pub enum Command {
    Completions(CompletionsArgs),
    S3(S3Command),
    Sqs(SqsCommand),
    Sts(StsCommand),
    Sso(SsoCommand),
    Ecr(EcrCommand),
    Ssm(SsmCommand),
    Secrets(SecretsCommand),
    Logs(LogsCommand),
    Ec2(Ec2Command),
    Lambda(LambdaCommand),
    Ddb(DdbCommand),
    Route53(Route53Command),
    Kms(KmsCommand),
}

impl Command {
    /// The word that selects a command.
    pub open spec fn called(self) -> Seq<char> {
        match self {
            Command::Completions(_) => "completions"@,
            Command::S3(_) => "s3"@,
            Command::Sqs(_) => "sqs"@,
            Command::Sts(_) => "sts"@,
            Command::Sso(_) => "sso"@,
            Command::Ecr(_) => "ecr"@,
            Command::Ssm(_) => "ssm"@,
            Command::Secrets(_) => "secrets"@,
            Command::Logs(_) => "logs"@,
            Command::Ec2(_) => "ec2"@,
            Command::Lambda(_) => "lambda"@,
            Command::Ddb(_) => "ddb"@,
            Command::Route53(_) => "route53"@,
            Command::Kms(_) => "kms"@,
        }
    }

    /// The word that selects this command.
    pub fn name(&self) -> (r: &'static str)
        ensures
            r@ == self.called(),
    {
        match self {
            Command::Completions(_) => "completions",
            Command::S3(_) => "s3",
            Command::Sqs(_) => "sqs",
            Command::Sts(_) => "sts",
            Command::Sso(_) => "sso",
            Command::Ecr(_) => "ecr",
            Command::Ssm(_) => "ssm",
            Command::Secrets(_) => "secrets",
            Command::Logs(_) => "logs",
            Command::Ec2(_) => "ec2",
            Command::Lambda(_) => "lambda",
            Command::Ddb(_) => "ddb",
            Command::Route53(_) => "route53",
            Command::Kms(_) => "kms",
        }
    }
}

/// The shell for which completions are written, by name.
#[derive(Debug)]
pub struct CompletionsArgs {
    pub shell: String,
}

#[derive(Debug)]
pub struct S3Command {
    pub command: S3Subcommand,
}

#[derive(Debug)]
pub enum S3Subcommand {
    Ls(S3LsArgs),
    Get(S3GetArgs),
    Put(S3PutArgs),
    Sync(S3SyncArgs),
    Rm(S3RmArgs),
    Cp(S3CpArgs),
    Mv(S3MvArgs),
    Presign(S3PresignArgs),
    Du(S3DuArgs),
    Head(S3HeadArgs),
}

#[derive(Debug)]
pub struct S3CommonArgs {
    pub path_style: bool,
}

#[derive(Debug)]
pub struct S3LsArgs {
    pub common: S3CommonArgs,
    pub uri: Option<String>,
    pub recursive: bool,
    pub human: bool,
    pub long: bool,
}

#[derive(Debug)]
pub struct S3GetArgs {
    pub common: S3CommonArgs,
    pub uri: String,
    pub dest: Option<String>,
}

#[derive(Debug)]
pub struct S3PutArgs {
    pub common: S3CommonArgs,
    pub src: String,
    pub uri: String,
    pub content_type: Option<String>,
    pub metadata: Vec<(String, String)>,
    pub acl: Option<String>,
    pub storage_class: Option<String>,
}

#[derive(Debug)]
pub struct S3SyncArgs {
    pub common: S3CommonArgs,
    pub src: String,
    pub dst: String,
    pub delete: bool,
    pub exclude: Vec<String>,
    pub include_only: Vec<String>,
    pub dry_run: bool,
    pub concurrency: usize,
    pub part_size: u64,
    pub fail_fast: bool,
}

#[derive(Debug)]
pub struct S3RmArgs {
    pub common: S3CommonArgs,
    pub uri: String,
    pub recursive: bool,
    pub dry_run: bool,
}

#[derive(Debug)]
pub struct S3CpArgs {
    pub common: S3CommonArgs,
    pub src: String,
    pub dst: String,
}

#[derive(Debug)]
pub struct S3MvArgs {
    pub common: S3CommonArgs,
    pub src: String,
    pub dst: String,
}

#[derive(Debug)]
pub struct S3PresignArgs {
    pub common: S3CommonArgs,
    pub uri: String,
    pub expires: String,
    pub method: PresignMethod,
}

/// What a presigned URL lets its holder do.
#[derive(Debug, Clone, Copy, PartialEq, Eq, Structural)]
pub enum PresignMethod {
    Get,
    Put,
}

impl PresignMethod {
    /// The HTTP method.
    pub fn as_str(self) -> (r: &'static str)
        ensures
            r@ == (match self {
                PresignMethod::Get => "GET"@,
                PresignMethod::Put => "PUT"@,
            }),
    {
        match self {
            PresignMethod::Get => "GET",
            PresignMethod::Put => "PUT",
        }
    }
}

#[derive(Debug)]
pub struct S3DuArgs {
    pub common: S3CommonArgs,
    pub uri: String,
}

#[derive(Debug)]
pub struct S3HeadArgs {
    pub common: S3CommonArgs,
    pub uri: String,
}

#[derive(Debug)]
pub struct SqsCommand {
    pub command: SqsSubcommand,
}

#[derive(Debug)]
pub enum SqsSubcommand {
    Ls(SqsLsArgs),
    Send(SqsSendArgs),
    Receive(SqsReceiveArgs),
    Purge(SqsQueueArg),
    Attrs(SqsQueueArg),
    Url(SqsUrlArgs),
}

#[derive(Debug)]
pub struct SqsLsArgs {
    pub prefix: Option<String>,
}

#[derive(Debug)]
pub struct SqsQueueArg {
    pub queue: String,
}

#[derive(Debug)]
pub struct SqsUrlArgs {
    pub queue_name: String,
}

#[derive(Debug)]
pub struct SqsSendArgs {
    pub queue: String,
    pub body: String,
    pub delay: Option<i32>,
    pub attribute: Vec<(String, String)>,
    pub group_id: Option<String>,
    pub dedup_id: Option<String>,
}

#[derive(Debug)]
pub struct SqsReceiveArgs {
    pub queue: String,
    pub max: i32,
    pub wait: i32,
    pub visibility: Option<i32>,
    pub delete: bool,
    pub follow: bool,
}

/// Words that a command reads for itself.
#[derive(Debug)]
pub struct StubArgs {
    pub args: Vec<String>,
}

#[derive(Debug)]
pub struct StsCommand {
    pub command: StsCommandSubcommand,
}

#[derive(Debug)]
pub enum StsCommandSubcommand {
    Whoami(StubArgs),
    Assume(StubArgs),
    Decode(StubArgs),
}

#[derive(Debug)]
pub struct SsoCommand {
    pub command: SsoCommandSubcommand,
}

#[derive(Debug)]
pub enum SsoCommandSubcommand {
    Login(StubArgs),
    Logout(StubArgs),
    Ls(StubArgs),
}

#[derive(Debug)]
pub struct EcrCommand {
    pub command: EcrCommandSubcommand,
}

#[derive(Debug)]
pub enum EcrCommandSubcommand {
    Ls(StubArgs),
    Tags(StubArgs),
    Login(StubArgs),
    Retag(StubArgs),
    Cp(StubArgs),
    Scan(StubArgs),
    Digest(StubArgs),
}

#[derive(Debug)]
pub struct SsmCommand {
    pub command: SsmCommandSubcommand,
}

#[derive(Debug)]
pub enum SsmCommandSubcommand {
    Get(StubArgs),
    Ls(StubArgs),
    Put(StubArgs),
    Rm(StubArgs),
    Exec(StubArgs),
}

#[derive(Debug)]
pub struct SecretsCommand {
    pub command: SecretsCommandSubcommand,
}

#[derive(Debug)]
pub enum SecretsCommandSubcommand {
    Get(StubArgs),
    Ls(StubArgs),
    Put(StubArgs),
    Rotate(StubArgs),
    Rm(StubArgs),
}

#[derive(Debug)]
pub struct LogsCommand {
    pub command: LogsCommandSubcommand,
}

#[derive(Debug)]
pub enum LogsCommandSubcommand {
    Ls(StubArgs),
    Streams(StubArgs),
    Tail(StubArgs),
    Get(StubArgs),
}

#[derive(Debug)]
pub struct Ec2Command {
    pub command: Ec2CommandSubcommand,
}

#[derive(Debug)]
pub enum Ec2CommandSubcommand {
    Ls(StubArgs),
    Ssh(StubArgs),
    Start(StubArgs),
    Stop(StubArgs),
    Reboot(StubArgs),
    Console(StubArgs),
    Ami(StubArgs),
    Types(Ec2TypesArgs),
}

/// What `ec2 types` looks for. A memory bound is given by the bits of its
/// 64-bit floating-point number of GiB.
#[derive(Debug)]
pub struct Ec2TypesArgs {
    pub query: Option<String>,
    pub arch: Option<String>,
    pub family: Option<String>,
    pub current: bool,
    pub gpu: bool,
    pub min_vcpu: Option<u32>,
    pub max_vcpu: Option<u32>,
    pub min_memory: Option<u64>,
    pub max_memory: Option<u64>,
    pub sort: Ec2TypesSort,
    pub limit: Option<usize>,
    pub wide: bool,
    pub price_region: Option<String>,
    pub no_price: bool,
    pub all_prices: bool,
}

/// The order in which `ec2 types` lists its rows.
#[derive(Debug, Clone, Copy, PartialEq, Eq, Structural)]
pub enum Ec2TypesSort {
    Type,
    Vcpu,
    Memory,
    Price,
}

#[derive(Debug)]
pub struct LambdaCommand {
    pub command: LambdaCommandSubcommand,
}

#[derive(Debug)]
pub enum LambdaCommandSubcommand {
    Ls(StubArgs),
    Invoke(StubArgs),
    Logs(StubArgs),
}

#[derive(Debug)]
pub struct DdbCommand {
    pub command: DdbCommandSubcommand,
}

#[derive(Debug)]
pub enum DdbCommandSubcommand {
    Ls(StubArgs),
    Desc(StubArgs),
    Get(StubArgs),
    Query(StubArgs),
    Scan(StubArgs),
    Put(StubArgs),
    Rm(StubArgs),
}

#[derive(Debug)]
pub struct Route53Command {
    pub command: Route53CommandSubcommand,
}

#[derive(Debug)]
pub enum Route53CommandSubcommand {
    Zones(StubArgs),
    Ls(StubArgs),
    Get(StubArgs),
    SetRecord(StubArgs),
}

#[derive(Debug)]
pub struct KmsCommand {
    pub command: KmsCommandSubcommand,
}

#[derive(Debug)]
pub enum KmsCommandSubcommand {
    Ls(StubArgs),
    Encrypt(StubArgs),
    Decrypt(StubArgs),
    GenerateDataKey(StubArgs),
}

/// The pair that a `KEY=VALUE` text writes: the key ends at the first equals
/// sign and is not empty.
pub fn parse_key_value(value: &str) -> (r: Result<(String, String), String>)
    ensures
        match r {
            Ok(pair) => {
                &&& text::split_first(value@, "="@) == Some((pair.0@, pair.1@))
                &&& pair.0@.len() > 0
            },
            Err(message) => match text::split_first(value@, "="@) {
                Some((key, _)) => key.len() == 0 && message@ == "key cannot be empty"@,
                None => message@ == "expected KEY=VALUE, got "@ + text::quoted(value@)
                    + "; value must contain '='"@,
            },
        },
{
    match text::split_once(value, "=") {
        Some((key, rest)) => {
            if key.is_empty() {
                Err("key cannot be empty".to_owned())
            } else {
                Ok((key.to_owned(), rest.to_owned()))
            }
        },
        None => Err(
            "expected KEY=VALUE, got ".to_owned().concat(text::quote(value).as_str()).concat(
                "; value must contain '='",
            ),
        ),
    }
}

/// A key and a value with an equals sign between them are read as themselves, where
/// the key holds no equals sign.
pub proof fn law_pair_round_trip(key: Seq<char>, value: Seq<char>)
    requires
        !key.contains('='),
    ensures
        text::split_first(key + "="@ + value, "="@) == Some((key, value)),
{
    reveal_strlit("=");
    assert("="@ =~= seq!['=']);
    text::lemma_split_first(key, '=', value);
}

/// A path that is read alike on every system: with slashes alone between its
/// parts, and without what could be a drive (a letter and a colon) or a share
/// before them.
pub open spec fn portable_path(path: Seq<char>) -> bool {
    &&& !path.contains('\\')
    &&& !(path.len() >= 2 && path[1] == ':')
    &&& !(path.len() >= 2 && path[0] == '/' && path[1] == '/')
}

/// The last part of a path: slashes and parts that are a dot at its end do not
/// count, and two dots are no name.
pub open spec fn last_name(path: Seq<char>) -> Option<Seq<char>>
    decreases path.len(),
{
    if path.len() == 0 {
        None
    } else if path.last() == '/' {
        last_name(path.drop_last())
    } else {
        let name = match text::split_last(path, '/') {
            Some((_, name)) => name,
            None => path,
        };
        if name == seq!['.'] {
            last_name(path.drop_last())
        } else if name == seq!['.', '.'] {
            None
        } else {
            Some(name)
        }
    }
}

/// `std::path::Path::file_name` gives the final component of a path, where that is
/// a normal one. It is stated for portable paths: what parts any other is another
/// matter on another system.
#[verifier::external_body]
fn file_name(path: &str) -> (r: Option<String>)
    ensures
        portable_path(path@) ==> r.deep_view() == last_name(path@),
{
    std::path::Path::new(path).file_name().and_then(|name| name.to_str()).map(str::to_owned)
}

/// The file name of a path, where the path has one that is not empty.
pub fn filename(path: &str) -> (r: Option<String>)
    ensures
        r matches Some(name) ==> name@.len() > 0,
        portable_path(path@) ==> r.deep_view() == last_name(path@),
{
    proof {
        law_last_name(path@);
    }
    usable_name(file_name(path))
}

/// A name, where there is one that is not empty.
pub fn usable_name(name: Option<String>) -> (r: Option<String>)
    ensures
        r.deep_view() == (match name {
            Some(name) => if name@.len() == 0 {
                None
            } else {
                Some(name@)
            },
            None => None,
        }),
{
    match name {
        Some(name) => if name.as_str().is_empty() {
            None
        } else {
            Some(name)
        },
        None => None,
    }
}

/// The last part of a path is not empty and holds no slash.
pub proof fn law_last_name(path: Seq<char>)
    ensures
        last_name(path) matches Some(name) ==> name.len() > 0 && !name.contains('/'),
    decreases path.len(),
{
    if path.len() > 0 {
        if path.last() == '/' {
            law_last_name(path.drop_last());
        } else {
            lemma_last_slash(path, path.len() as int);
            let name = match text::split_last(path, '/') {
                Some((_, name)) => name,
                None => path,
            };
            if name == seq!['.'] {
                law_last_name(path.drop_last());
            }
        }
    }
}

/// After the last slash below `end` there is no other.
proof fn lemma_last_slash(path: Seq<char>, end: int)
    requires
        0 <= end <= path.len(),
    ensures
        match text::rfind_below(path, '/', end) {
            Some(i) => 0 <= i < end && path[i] == '/' && forall|j: int|
                i < j < end ==> path[j] != '/',
            None => forall|j: int| 0 <= j < end ==> path[j] != '/',
        },
    decreases end,
{
    if end > 0 && path[end - 1] != '/' {
        lemma_last_slash(path, end - 1);
    }
}

/// The last part of a path is what stands after its last slash, whatever the
/// directory, and with slashes after it too.
pub proof fn law_last_name_is_after_the_directory(directory: Seq<char>, name: Seq<char>)
    requires
        name.len() > 0,
        !name.contains('/'),
        name != seq!['.'],
        name != seq!['.', '.'],
    ensures
        last_name(directory + seq!['/'] + name) == Some(name),
        last_name(name) == Some(name),
        last_name(directory + seq!['/'] + name + seq!['/']) == Some(name),
        last_name(directory + seq!['/']) == last_name(directory),
{
    let path = directory + seq!['/'] + name;
    text::lemma_split_last(directory, '/', name);
    assert(path.last() == name.last());
    assert(name.contains(name.last()));
    lemma_last_slash(name, name.len() as int);
    if let Some(i) = text::rfind_below(name, '/', name.len() as int) {
        assert(name.contains(name[i]));
    }
    assert((path + seq!['/']).drop_last() =~= path);
    assert((directory + seq!['/']).drop_last() =~= directory);
}

/// No word selects two services, and each is selected by its own name.
pub proof fn law_words_select_one_command(a: Command)
    ensures
        a.called() == "completions"@ <==> a is Completions,
        a.called() == "s3"@ <==> a is S3,
        a.called() == "sqs"@ <==> a is Sqs,
        a.called() == "sts"@ <==> a is Sts,
        a.called() == "sso"@ <==> a is Sso,
        a.called() == "ecr"@ <==> a is Ecr,
        a.called() == "ssm"@ <==> a is Ssm,
        a.called() == "secrets"@ <==> a is Secrets,
        a.called() == "logs"@ <==> a is Logs,
        a.called() == "ec2"@ <==> a is Ec2,
        a.called() == "lambda"@ <==> a is Lambda,
        a.called() == "ddb"@ <==> a is Ddb,
        a.called() == "route53"@ <==> a is Route53,
        a.called() == "kms"@ <==> a is Kms,
{
    reveal_strlit("completions");
    reveal_strlit("s3");
    reveal_strlit("sqs");
    reveal_strlit("sts");
    reveal_strlit("sso");
    reveal_strlit("ecr");
    reveal_strlit("ssm");
    reveal_strlit("secrets");
    reveal_strlit("logs");
    reveal_strlit("ec2");
    reveal_strlit("lambda");
    reveal_strlit("ddb");
    reveal_strlit("route53");
    reveal_strlit("kms");
    assert("completions"@.len() == 11);
    assert("s3"@.len() == 2);
    assert("sqs"@.len() == 3);
    assert("sts"@.len() == 3);
    assert("sso"@.len() == 3);
    assert("ecr"@.len() == 3);
    assert("ssm"@.len() == 3);
    assert("secrets"@.len() == 7);
    assert("logs"@.len() == 4);
    assert("ec2"@.len() == 3);
    assert("lambda"@.len() == 6);
    assert("ddb"@.len() == 3);
    assert("route53"@.len() == 7);
    assert("kms"@.len() == 3);
    assert("sqs"@[1] != "sts"@[1]);
    assert("sqs"@[1] != "sso"@[1]);
    assert("sqs"@[0] != "ecr"@[0]);
    assert("sqs"@[1] != "ssm"@[1]);
    assert("sqs"@[0] != "ec2"@[0]);
    assert("sqs"@[0] != "ddb"@[0]);
    assert("sqs"@[0] != "kms"@[0]);
    assert("sts"@[1] != "sso"@[1]);
    assert("sts"@[0] != "ecr"@[0]);
    assert("sts"@[1] != "ssm"@[1]);
    assert("sts"@[0] != "ec2"@[0]);
    assert("sts"@[0] != "ddb"@[0]);
    assert("sts"@[0] != "kms"@[0]);
    assert("sso"@[0] != "ecr"@[0]);
    assert("sso"@[2] != "ssm"@[2]);
    assert("sso"@[0] != "ec2"@[0]);
    assert("sso"@[0] != "ddb"@[0]);
    assert("sso"@[0] != "kms"@[0]);
    assert("ecr"@[0] != "ssm"@[0]);
    assert("ecr"@[2] != "ec2"@[2]);
    assert("ecr"@[0] != "ddb"@[0]);
    assert("ecr"@[0] != "kms"@[0]);
    assert("ssm"@[0] != "ec2"@[0]);
    assert("ssm"@[0] != "ddb"@[0]);
    assert("ssm"@[0] != "kms"@[0]);
    assert("secrets"@[0] != "route53"@[0]);
    assert("ec2"@[0] != "ddb"@[0]);
    assert("ec2"@[0] != "kms"@[0]);
    assert("ddb"@[0] != "kms"@[0]);
}

/// More is logged the more often it is asked for: each flag up to the third adds a
/// level, and a further one adds none.
pub proof fn law_flags_add_levels(a: Globals, b: Globals)
    ensures
        a.verbose == 0 <==> a.level() == "warn"@,
        a.verbose == 1 <==> a.level() == "info"@,
        a.verbose == 2 <==> a.level() == "debug"@,
        a.verbose >= 3 <==> a.level() == "trace"@,
        a.level() == b.level() <==> a.verbose == b.verbose || (a.verbose >= 3 && b.verbose >= 3),
{
    reveal_strlit("warn");
    reveal_strlit("info");
    reveal_strlit("debug");
    reveal_strlit("trace");
    assert("warn"@.len() == 4);
    assert("info"@.len() == 4);
    assert("debug"@.len() == 5);
    assert("trace"@.len() == 5);
    assert("warn"@[0] != "info"@[0]);
    assert("debug"@[0] != "trace"@[0]);
}

} // verus!
