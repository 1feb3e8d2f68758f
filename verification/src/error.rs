//! The ways in which a command fails.
use vstd::prelude::*;

verus! {

/// A failed command, with what the user is told.
#[derive(Debug)]
pub enum AwlError {
    /// The command line asks for something that cannot be done.
    Usage { message: String },
    /// The command has no implementation.
    Unsupported { command: String },
    /// Something that was asked for does not exist.
    NotFound { message: String },
    /// The caller could not be identified.
    Authentication { message: String },
    /// The caller may not do this.
    Authorization { message: String },
    /// A service could not be reached, or its answer could not be read.
    Endpoint { message: String },
    /// An operation on files or streams failed.
    Io(String),
    /// JSON could not be read or written.
    Json(String),
    /// YAML could not be written.
    Yaml(String),
    /// TOML could not be written.
    Toml(String),
    /// A service refused the request.
    Aws { message: String },
}

/// The meaning of an `AwlError`.
pub enum Failure {
    Usage(Seq<char>),
    Unsupported(Seq<char>),
    NotFound(Seq<char>),
    Authentication(Seq<char>),
    Authorization(Seq<char>),
    Endpoint(Seq<char>),
    Io(Seq<char>),
    Json(Seq<char>),
    Yaml(Seq<char>),
    Toml(Seq<char>),
    Aws(Seq<char>),
}

impl View for AwlError {
    type V = Failure;

    open spec fn view(&self) -> Failure {
        match self {
            AwlError::Usage { message } => Failure::Usage(message@),
            AwlError::Unsupported { command } => Failure::Unsupported(command@),
            AwlError::NotFound { message } => Failure::NotFound(message@),
            AwlError::Authentication { message } => Failure::Authentication(message@),
            AwlError::Authorization { message } => Failure::Authorization(message@),
            AwlError::Endpoint { message } => Failure::Endpoint(message@),
            AwlError::Io(message) => Failure::Io(message@),
            AwlError::Json(message) => Failure::Json(message@),
            AwlError::Yaml(message) => Failure::Yaml(message@),
            AwlError::Toml(message) => Failure::Toml(message@),
            AwlError::Aws { message } => Failure::Aws(message@),
        }
    }
}

impl Failure {
    /// The status with which the process ends.
    pub open spec fn exit_status(self) -> u8 {
        match self {
            Failure::Usage(_) => 2,
            Failure::Authentication(_) => 3,
            Failure::Authorization(_) => 4,
            Failure::NotFound(_) => 5,
            Failure::Endpoint(_) => 8,
            _ => 1,
        }
    }

    /// The line that the user reads.
    pub open spec fn line(self) -> Seq<char> {
        match self {
            Failure::Usage(message) => message,
            Failure::Unsupported(command) =>
                "unsupported command in this implementation slice: "@ + command,
            Failure::NotFound(message) => "not found: "@ + message,
            Failure::Authentication(message) => "authentication failed: "@ + message,
            Failure::Authorization(message) => "authorization failed: "@ + message,
            Failure::Endpoint(message) => "endpoint error: "@ + message,
            Failure::Io(message) => "io error: "@ + message,
            Failure::Json(message) => "json error: "@ + message,
            Failure::Yaml(message) => "yaml error: "@ + message,
            Failure::Toml(message) => "toml error: "@ + message,
            Failure::Aws(message) => "aws error: "@ + message,
        }
    }
}

/// What a call gave: a result's meaning or a failure.
pub open spec fn told<T: View>(r: Result<T, AwlError>) -> Result<T::V, Failure> {
    match r {
        Ok(value) => Ok(value@),
        Err(error) => Err(error@),
    }
}

impl AwlError {
    /// The status with which the process ends.
    pub fn exit_code(&self) -> (r: u8)
        ensures
            r == self@.exit_status(),
    {
        match self {
            AwlError::Usage { .. } => 2,
            AwlError::Authentication { .. } => 3,
            AwlError::Authorization { .. } => 4,
            AwlError::NotFound { .. } => 5,
            AwlError::Endpoint { .. } => 8,
            _ => 1,
        }
    }

    /// A refusal by a service, from the text of its error.
    pub fn aws(error: &str) -> (r: AwlError)
        ensures
            r@ == Failure::Aws(error@),
    {
        AwlError::Aws { message: error.to_owned() }
    }

    /// A fault in the command line.
    pub fn usage(message: &str) -> (r: AwlError)
        ensures
            r@ == Failure::Usage(message@),
    {
        AwlError::Usage { message: message.to_owned() }
    }

    /// The line that the user reads.
    pub fn line(&self) -> (r: String)
        ensures
            r@ == self@.line(),
    {
        let (label, detail): (&str, &String) = match self {
            AwlError::Usage { message } => ("", message),
            AwlError::Unsupported { command } => (
                "unsupported command in this implementation slice: ",
                command,
            ),
            AwlError::NotFound { message } => ("not found: ", message),
            AwlError::Authentication { message } => ("authentication failed: ", message),
            AwlError::Authorization { message } => ("authorization failed: ", message),
            AwlError::Endpoint { message } => ("endpoint error: ", message),
            AwlError::Io(message) => ("io error: ", message),
            AwlError::Json(message) => ("json error: ", message),
            AwlError::Yaml(message) => ("yaml error: ", message),
            AwlError::Toml(message) => ("toml error: ", message),
            AwlError::Aws { message } => ("aws error: ", message),
        };
        proof {
            reveal_strlit("");
            assert(""@ + detail@ =~= detail@);
        }
        label.to_owned().concat(detail.as_str())
    }
}

/// Only a fault in the command line ends the process with status 2.
pub proof fn law_status_two_is_usage(failure: Failure)
    ensures
        failure.exit_status() == 2 <==> failure is Usage,
        failure.exit_status() != 0,
{
}

/// Each kind of failure that a script may ask for has a status of its own, and all
/// others have one in common; none is that of success.
pub proof fn law_statuses_differ(a: Failure, b: Failure)
    ensures
        a.exit_status() != 0,
        a is Usage ==> a.exit_status() == 2,
        a is Authentication ==> a.exit_status() == 3,
        a is Authorization ==> a.exit_status() == 4,
        a is NotFound ==> a.exit_status() == 5,
        a is Endpoint ==> a.exit_status() == 8,
        !(a is Usage || a is Authentication || a is Authorization || a is NotFound
            || a is Endpoint) ==> a.exit_status() == 1,
        a.exit_status() == b.exit_status() && a is Usage ==> b is Usage,
        a.exit_status() == b.exit_status() && a is Authentication ==> b is Authentication,
        a.exit_status() == b.exit_status() && a is Authorization ==> b is Authorization,
        a.exit_status() == b.exit_status() && a is NotFound ==> b is NotFound,
        a.exit_status() == b.exit_status() && a is Endpoint ==> b is Endpoint,
{
}

/// What the user is told ends with what went wrong, all of it.
pub proof fn law_line_tells_the_message(failure: Failure)
    ensures
        ({
            let message = match failure {
                Failure::Usage(m) => m,
                Failure::Unsupported(m) => m,
                Failure::NotFound(m) => m,
                Failure::Authentication(m) => m,
                Failure::Authorization(m) => m,
                Failure::Endpoint(m) => m,
                Failure::Io(m) => m,
                Failure::Json(m) => m,
                Failure::Yaml(m) => m,
                Failure::Toml(m) => m,
                Failure::Aws(m) => m,
            };
            message.is_suffix_of(failure.line())
        }),
{
    let message = match failure {
        Failure::Usage(m) => m,
        Failure::Unsupported(m) => m,
        Failure::NotFound(m) => m,
        Failure::Authentication(m) => m,
        Failure::Authorization(m) => m,
        Failure::Endpoint(m) => m,
        Failure::Io(m) => m,
        Failure::Json(m) => m,
        Failure::Yaml(m) => m,
        Failure::Toml(m) => m,
        Failure::Aws(m) => m,
    };
    let line = failure.line();
    assert(message =~= line.subrange(line.len() - message.len(), line.len() as int));
}

/// A failure is told with its kind before its message, but a usage error, which is
/// told as it is; and an error means what its variant says.
pub proof fn law_line_begins_with_the_kind(failure: Failure, message: String)
    ensures
        failure matches Failure::Usage(m) ==> failure.line() == m,
        failure is NotFound ==> "not found: "@.is_prefix_of(failure.line()),
        failure is Authentication ==> "authentication failed: "@.is_prefix_of(failure.line()),
        failure is Authorization ==> "authorization failed: "@.is_prefix_of(failure.line()),
        failure is Endpoint ==> "endpoint error: "@.is_prefix_of(failure.line()),
        failure is Io ==> "io error: "@.is_prefix_of(failure.line()),
        failure is Json ==> "json error: "@.is_prefix_of(failure.line()),
        failure is Yaml ==> "yaml error: "@.is_prefix_of(failure.line()),
        failure is Toml ==> "toml error: "@.is_prefix_of(failure.line()),
        failure is Aws ==> "aws error: "@.is_prefix_of(failure.line()),
        (AwlError::Usage { message })@ == Failure::Usage(message@),
        (AwlError::NotFound { message })@ == Failure::NotFound(message@),
        (AwlError::Authentication { message })@ == Failure::Authentication(message@),
        (AwlError::Authorization { message })@ == Failure::Authorization(message@),
        (AwlError::Endpoint { message })@ == Failure::Endpoint(message@),
        (AwlError::Aws { message })@ == Failure::Aws(message@),
        AwlError::Io(message)@ == Failure::Io(message@),
        AwlError::Json(message)@ == Failure::Json(message@),
        AwlError::Yaml(message)@ == Failure::Yaml(message@),
        AwlError::Toml(message)@ == Failure::Toml(message@),
{
    if let Failure::NotFound(m) = failure {
        lemma_begins("not found: "@, m);
    }
    if let Failure::Authentication(m) = failure {
        lemma_begins("authentication failed: "@, m);
    }
    if let Failure::Authorization(m) = failure {
        lemma_begins("authorization failed: "@, m);
    }
    if let Failure::Endpoint(m) = failure {
        lemma_begins("endpoint error: "@, m);
    }
    if let Failure::Io(m) = failure {
        lemma_begins("io error: "@, m);
    }
    if let Failure::Json(m) = failure {
        lemma_begins("json error: "@, m);
    }
    if let Failure::Yaml(m) = failure {
        lemma_begins("yaml error: "@, m);
    }
    if let Failure::Toml(m) = failure {
        lemma_begins("toml error: "@, m);
    }
    if let Failure::Aws(m) = failure {
        lemma_begins("aws error: "@, m);
    }
}

proof fn lemma_begins(head: Seq<char>, tail: Seq<char>)
    ensures
        head.is_prefix_of(head + tail),
{
    assert(head =~= (head + tail).subrange(0, head.len() as int));
}

} // verus!
