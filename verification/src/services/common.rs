//! Reading the words of a command that parses them itself.
use vstd::prelude::*;

use crate::error::{told, AwlError, Failure};
use crate::number;
use crate::text;

verus! {

/// The flags that take no value.
pub open spec fn boolean_flag(arg: Seq<char>) -> bool {
    ||| arg == "--delete"@
    ||| arg == "--dry-run"@
    ||| arg == "--dryrun"@
    ||| arg == "--exec"@
    ||| arg == "--fail-fast"@
    ||| arg == "--force"@
    ||| arg == "--no-browser"@
    ||| arg == "--no-decrypt"@
    ||| arg == "--overwrite"@
    ||| arg == "--recursive"@
    ||| arg == "--strict"@
    ||| arg == "--tail"@
}

/// An argument that names an option or a flag.
pub open spec fn is_option(arg: Seq<char>) -> bool {
    "--"@.is_prefix_of(arg)
}

/// The option at `i` takes the argument after it as its value.
pub open spec fn takes_value(args: Seq<Seq<char>>, i: int) -> bool {
    !boolean_flag(args[i]) && i + 1 < args.len() && !is_option(args[i + 1])
}

/// The positional arguments from `i` on: what is neither an option nor the value
/// of one.
pub open spec fn positional_from(args: Seq<Seq<char>>, i: int) -> Seq<Seq<char>>
    decreases args.len() - i,
{
    if i < 0 || i >= args.len() {
        Seq::empty()
    } else if is_option(args[i]) {
        positional_from(
            args,
            if takes_value(args, i) {
                i + 2
            } else {
                i + 1
            },
        )
    } else {
        seq![args[i]] + positional_from(args, i + 1)
    }
}

/// The positional arguments.
pub open spec fn positionals(args: Seq<Seq<char>>) -> Seq<Seq<char>> {
    positional_from(args, 0)
}

/// The value of an option, from `i` on: what follows `name=` in one argument, or
/// the argument after `name`.
pub open spec fn option_from(args: Seq<Seq<char>>, name: Seq<char>, i: int) -> Option<Seq<char>>
    decreases args.len() - i,
{
    if i < 0 || i >= args.len() {
        None
    } else if (name + "="@).is_prefix_of(args[i]) {
        Some(args[i].skip((name + "="@).len() as int))
    } else if args[i] == name && i + 1 < args.len() {
        Some(args[i + 1])
    } else {
        option_from(args, name, i + 1)
    }
}

/// The value of an option.
pub open spec fn option_of(args: Seq<Seq<char>>, name: Seq<char>) -> Option<Seq<char>> {
    option_from(args, name, 0)
}

/// The argument at a place, or what is said where there is none.
pub open spec fn required_at(args: Seq<Seq<char>>, index: int, name: Seq<char>) -> Result<
    Seq<char>,
    Failure,
> {
    if 0 <= index < args.len() {
        Ok(args[index])
    } else {
        Err(Failure::Usage("missing required argument <"@ + name + ">"@))
    }
}

/// The pairs that the arguments after each `name` write as `KEY=VALUE`, from `i`
/// on.
pub open spec fn pairs_from(args: Seq<Seq<char>>, name: Seq<char>, i: int) -> Result<
    Seq<(Seq<char>, Seq<char>)>,
    Failure,
>
    decreases args.len() - i,
{
    if i < 0 || i >= args.len() {
        Ok(Seq::empty())
    } else if args[i] != name {
        pairs_from(args, name, i + 1)
    } else if i + 1 >= args.len() {
        Err(Failure::Usage(name + " requires KEY=VALUE"@))
    } else {
        match text::split_first(args[i + 1], "="@) {
            None => Err(
                Failure::Usage(name + " requires KEY=VALUE, got "@ + text::quoted(args[i + 1])),
            ),
            Some(pair) => match pairs_from(args, name, i + 2) {
                Ok(rest) => Ok(seq![pair] + rest),
                Err(failure) => Err(failure),
            },
        }
    }
}

/// The argument at a place.
pub fn required(args: &[String], index: usize, name: &str) -> (r: Result<String, AwlError>)
    ensures
        told(r) == required_at(args.deep_view(), index as int, name@),
{
    if index < args.len() {
        Ok(args[index].clone())
    } else {
        Err(
            AwlError::usage(
                "missing required argument <".to_owned().concat(name).concat(">").as_str(),
            ),
        )
    }
}

/// The value of an option, given as `name=value` or as `name value`.
pub fn option_value(args: &[String], name: &str) -> (r: Option<String>)
    ensures
        r.deep_view() == option_of(args.deep_view(), name@),
{
    let prefix = name.to_owned().concat("=");
    let mut i: usize = 0;
    while i < args.len()
        invariant
            prefix@ == name@ + "="@,
            i <= args.len(),
            option_of(args.deep_view(), name@) == option_from(args.deep_view(), name@, i as int),
        decreases args.len() - i,
    {
        let arg = args[i].as_str();
        if let Some(value) = text::strip_prefix(arg, prefix.as_str()) {
            return Some(value.to_owned());
        }
        if text::same(arg, name) && i < args.len() - 1 {
            return Some(args[i + 1].clone());
        }
        i += 1;
    }
    None
}

/// Whether a flag is given.
pub fn has_flag(args: &[String], name: &str) -> (r: bool)
    ensures
        r == args.deep_view().contains(name@),
{
    let mut i: usize = 0;
    while i < args.len()
        invariant
            i <= args.len(),
            forall|j: int| 0 <= j < i ==> #[trigger] args.deep_view()[j] != name@,
        decreases args.len() - i,
    {
        if text::same(args[i].as_str(), name) {
            assert(args.deep_view()[i as int] == name@);
            return true;
        }
        assert(args.deep_view()[i as int] != name@);
        i += 1;
    }
    false
}

/// The value of an option as an `i32`, where it is one.
pub open spec fn i32_of(args: Seq<Seq<char>>, name: Seq<char>) -> Option<int> {
    match option_of(args, name) {
        Some(s) => number::signed_value(s, i32::MIN as int, i32::MAX as int),
        None => None,
    }
}

/// The value of an option as an `i32`, where it is one.
pub fn option_i32(args: &[String], name: &str) -> (r: Option<i32>)
    ensures
        (match r {
            Some(n) => Some(n as int),
            None => None,
        }) == i32_of(args.deep_view(), name@),
{
    match option_value(args, name) {
        Some(s) => number::parse_i32(s.as_str()),
        None => None,
    }
}

/// The value of an option as an `i64`, where it is one.
pub open spec fn i64_of(args: Seq<Seq<char>>, name: Seq<char>) -> Option<int> {
    match option_of(args, name) {
        Some(s) => number::signed_value(s, i64::MIN as int, i64::MAX as int),
        None => None,
    }
}

/// The value of an option as an `i64`, where it is one.
pub fn option_i64(args: &[String], name: &str) -> (r: Option<i64>)
    ensures
        (match r {
            Some(n) => Some(n as int),
            None => None,
        }) == i64_of(args.deep_view(), name@),
{
    match option_value(args, name) {
        Some(s) => number::parse_i64(s.as_str()),
        None => None,
    }
}

/// The argument at a place, where there is one.
pub open spec fn word_at(args: Seq<Seq<char>>, index: int) -> Option<Seq<char>> {
    if 0 <= index < args.len() {
        Some(args[index])
    } else {
        None
    }
}

/// The argument at a place, where there is one.
pub fn word(args: &[String], index: usize) -> (r: Option<String>)
    ensures
        r.deep_view() == word_at(args.deep_view(), index as int),
{
    if index < args.len() {
        Some(args[index].clone())
    } else {
        None
    }
}

/// The arguments from a place on.
pub open spec fn words_after(args: Seq<Seq<char>>, from: int) -> Seq<Seq<char>> {
    if 0 <= from <= args.len() {
        args.skip(from)
    } else {
        Seq::empty()
    }
}

/// The arguments from a place on.
pub fn words_from(args: &[String], from: usize) -> (r: Vec<String>)
    ensures
        r.deep_view() == words_after(args.deep_view(), from as int),
{
    let mut out: Vec<String> = Vec::new();
    let mut i: usize = from;
    while i < args.len()
        invariant
            from <= i,
            from <= args.len() ==> i <= args.len() && out@.len() == i - from,
            from > args.len() ==> out@.len() == 0,
            forall|j: int| 0 <= j < out@.len() ==> (#[trigger] out@[j])@ == args@[from + j]@,
        decreases args.len() - i,
    {
        out.push(args[i].clone());
        i += 1;
    }
    assert(out.deep_view() =~= words_after(args.deep_view(), from as int));
    out
}

/// The pairs that the arguments after each `name` write.
pub fn key_values(args: &[String], name: &str) -> (r: Result<Vec<(String, String)>, AwlError>)
    ensures
        match r {
            Ok(pairs) => pairs_from(args.deep_view(), name@, 0) == Ok::<
                Seq<(Seq<char>, Seq<char>)>,
                Failure,
            >(pairs.deep_view()),
            Err(error) => pairs_from(args.deep_view(), name@, 0) == Err::<
                Seq<(Seq<char>, Seq<char>)>,
                Failure,
            >(error@),
        },
{
    let ghost all = args.deep_view();
    let mut out: Vec<(String, String)> = Vec::new();
    let mut i: usize = 0;
    proof {
        lemma_prepend(Seq::<(Seq<char>, Seq<char>)>::empty(), pairs_from(all, name@, 0));
        assert(out.deep_view() =~= Seq::empty());
    }
    while i < args.len()
        invariant
            all == args.deep_view(),
            i <= args.len(),
            pairs_from(all, name@, 0) == prepended(
                out.deep_view(),
                pairs_from(all, name@, i as int),
            ),
        decreases args.len() - i,
    {
        if !text::same(args[i].as_str(), name) {
            i += 1;
            continue ;
        }
        if i == args.len() - 1 {
            return Err(AwlError::usage(name.to_owned().concat(" requires KEY=VALUE").as_str()));
        }
        let ghost before = out.deep_view();
        let value = args[i + 1].as_str();
        match text::split_once(value, "=") {
            None => {
                return Err(
                    AwlError::usage(
                        name.to_owned().concat(" requires KEY=VALUE, got ").concat(
                            text::quote(value).as_str(),
                        ).as_str(),
                    ),
                );
            },
            Some((key, rest)) => {
                out.push((key.to_owned(), rest.to_owned()));
                proof {
                    let pair = (key@, rest@);
                    assert(out.deep_view() =~= before.push(pair));
                    match pairs_from(all, name@, i + 2) {
                        Ok(tail) => {
                            assert(before + (seq![pair] + tail) =~= before.push(pair) + tail);
                        },
                        Err(_) => {},
                    }
                }
            },
        }
        i += 2;
    }
    assert(out.deep_view() + Seq::<(Seq<char>, Seq<char>)>::empty() =~= out.deep_view());
    Ok(out)
}

/// Pairs before those of a result.
pub open spec fn prepended(
    head: Seq<(Seq<char>, Seq<char>)>,
    r: Result<Seq<(Seq<char>, Seq<char>)>, Failure>,
) -> Result<Seq<(Seq<char>, Seq<char>)>, Failure> {
    match r {
        Ok(tail) => Ok(head + tail),
        Err(failure) => Err(failure),
    }
}

proof fn lemma_prepend(
    head: Seq<(Seq<char>, Seq<char>)>,
    r: Result<Seq<(Seq<char>, Seq<char>)>, Failure>,
)
    ensures
        head.len() == 0 ==> prepended(head, r) == r,
{
    if let Ok(tail) = r {
        if head.len() == 0 {
            assert(head + tail =~= tail);
        }
    }
}

/// The positional arguments.
pub fn positional(args: &[String]) -> (r: Vec<String>)
    ensures
        r.deep_view() == positionals(args.deep_view()),
{
    let ghost all = args.deep_view();
    let mut out: Vec<String> = Vec::new();
    let mut i: usize = 0;
    assert(out.deep_view() + positional_from(all, 0) =~= positionals(all));
    while i < args.len()
        invariant
            all == args.deep_view(),
            i <= args.len(),
            out.deep_view() + positional_from(all, i as int) =~= positionals(all),
        decreases args.len() - i,
    {
        let arg = args[i].as_str();
        if text::starts_with(arg, "--") {
            if !is_boolean_flag(arg) && i < args.len() - 1 && !text::starts_with(
                args[i + 1].as_str(),
                "--",
            ) {
                i += 2;
            } else {
                i += 1;
            }
        } else {
            let ghost before = out.deep_view();
            out.push(args[i].clone());
            assert(out.deep_view() =~= before.push(arg@));
            assert(before + (seq![arg@] + positional_from(all, i + 1)) =~= before.push(arg@)
                + positional_from(all, i + 1));
            i += 1;
        }
    }
    assert(out.deep_view() =~= positionals(all));
    out
}

/// Whether a flag takes no value.
pub fn is_boolean_flag(arg: &str) -> (r: bool)
    ensures
        r == boolean_flag(arg@),
{
    text::same(arg, "--delete") || text::same(arg, "--dry-run") || text::same(arg, "--dryrun")
        || text::same(arg, "--exec") || text::same(arg, "--fail-fast") || text::same(arg, "--force")
        || text::same(arg, "--no-browser") || text::same(arg, "--no-decrypt") || text::same(
        arg,
        "--overwrite",
    ) || text::same(arg, "--recursive") || text::same(arg, "--strict") || text::same(arg, "--tail")
}

/// No positional argument is an option.
pub proof fn law_positionals_are_no_options(args: Seq<Seq<char>>, j: int)
    requires
        0 <= j < positionals(args).len(),
    ensures
        !is_option(positionals(args)[j]),
{
    lemma_no_options_from(args, 0, j);
}

proof fn lemma_no_options_from(args: Seq<Seq<char>>, i: int, j: int)
    requires
        0 <= j < positional_from(args, i).len(),
    ensures
        !is_option(positional_from(args, i)[j]),
    decreases args.len() - i,
{
    if is_option(args[i]) {
        let next = if takes_value(args, i) {
            i + 2
        } else {
            i + 1
        };
        lemma_no_options_from(args, next, j);
    } else if j > 0 {
        assert(positional_from(args, i)[j] == positional_from(args, i + 1)[j - 1]);
        lemma_no_options_from(args, i + 1, j - 1);
    }
}

/// Arguments among which there is no option are all positional.
pub proof fn law_words_are_positional(args: Seq<Seq<char>>)
    requires
        forall|i: int| 0 <= i < args.len() ==> !is_option(#[trigger] args[i]),
    ensures
        positionals(args) == args,
{
    lemma_words_from(args, 0);
    assert(args.skip(0) =~= args);
}

proof fn lemma_words_from(args: Seq<Seq<char>>, i: int)
    requires
        0 <= i <= args.len(),
        forall|i: int| 0 <= i < args.len() ==> !is_option(#[trigger] args[i]),
    ensures
        positional_from(args, i) == args.skip(i),
    decreases args.len() - i,
{
    if i < args.len() {
        lemma_words_from(args, i + 1);
        assert(seq![args[i]] + args.skip(i + 1) =~= args.skip(i));
    } else {
        assert(args.skip(i) =~= Seq::empty());
    }
}

/// A boolean flag takes no value: what follows it is read as if it stood alone.
pub proof fn law_boolean_flag_takes_no_value(args: Seq<Seq<char>>, i: int)
    requires
        0 <= i < args.len(),
        boolean_flag(args[i]),
    ensures
        positional_from(args, i) == positional_from(args, i + 1),
{
    reveal_strlit("--");
    reveal_strlit("--delete");
    reveal_strlit("--dry-run");
    reveal_strlit("--dryrun");
    reveal_strlit("--exec");
    reveal_strlit("--fail-fast");
    reveal_strlit("--force");
    reveal_strlit("--no-browser");
    reveal_strlit("--no-decrypt");
    reveal_strlit("--overwrite");
    reveal_strlit("--recursive");
    reveal_strlit("--strict");
    reveal_strlit("--tail");
    assert("--"@ =~= args[i].take(2));
    assert(is_option(args[i]));
}

/// `name=value` and `name value` give an option the same value.
pub proof fn law_option_forms_agree(name: Seq<char>, value: Seq<char>)
    ensures
        option_of(seq![name + "="@ + value], name) == Some(value),
        option_of(seq![name, value], name) == Some(value),
{
    reveal_strlit("=");
    let one = seq![name + "="@ + value];
    let two = seq![name, value];
    reveal_with_fuel(option_from, 2);
    assert((name + "="@).is_prefix_of(one[0]));
    assert(one[0].skip((name + "="@).len() as int) =~= value);
    assert(!(name + "="@).is_prefix_of(two[0]));
}

/// An option takes the argument that follows its first place, where nothing before
/// it names it.
pub proof fn law_option_takes_what_follows(
    before: Seq<Seq<char>>,
    name: Seq<char>,
    value: Seq<char>,
    after: Seq<Seq<char>>,
)
    requires
        forall|i: int|
            0 <= i < before.len() ==> (#[trigger] before[i]) != name && !(name
                + "="@).is_prefix_of(before[i]),
    ensures
        option_of(before + seq![name, value] + after, name) == Some(value),
        option_of(before + seq![name + "="@ + value] + after, name) == Some(value),
        option_of(before, name) is None,
        option_of(before + seq![name], name) is None,
{
    reveal_strlit("=");
    let apart = before + seq![name, value] + after;
    let joined = before + seq![name + "="@ + value] + after;
    let n = before.len() as int;
    lemma_option_skips(apart, name, 0, n);
    lemma_option_skips(joined, name, 0, n);
    lemma_option_skips(before, name, 0, n);
    lemma_option_skips(before + seq![name], name, 0, n);
    assert(apart[n] == name && apart[n + 1] == value);
    assert(!(name + "="@).is_prefix_of(name));
    assert(joined[n] == name + "="@ + value);
    assert((name + "="@).is_prefix_of(joined[n]));
    assert(joined[n].skip((name + "="@).len() as int) =~= value);
    assert((before + seq![name])[n] == name);
    assert(option_from(before + seq![name], name, n + 1) is None);
}

proof fn lemma_option_skips(args: Seq<Seq<char>>, name: Seq<char>, i: int, n: int)
    requires
        0 <= i <= n <= args.len(),
        forall|k: int|
            0 <= k < n ==> (#[trigger] args[k]) != name && !(name + "="@).is_prefix_of(args[k]),
    ensures
        option_from(args, name, i) == option_from(args, name, n),
    decreases n - i,
{
    if i < n {
        lemma_option_skips(args, name, i + 1, n);
    }
}

/// A required argument is the one at its place, and where there is none a usage
/// error names it.
pub proof fn law_required_is_at_its_place(args: Seq<Seq<char>>, index: int, name: Seq<char>)
    requires
        index >= 0,
    ensures
        index < args.len() ==> required_at(args, index, name) == Ok::<Seq<char>, Failure>(
            args[index],
        ),
        index < args.len() ==> word_at(args, index) == Some(args[index]),
        index >= args.len() ==> word_at(args, index) is None,
        index >= args.len() ==> (required_at(args, index, name) matches Err(
            Failure::Usage(message),
        ) && text::find_text(message, "<"@ + name + ">"@) is Some),
        index <= args.len() ==> words_after(args, index) == args.skip(index),
{
    if index >= args.len() {
        reveal_strlit("missing required argument <");
        reveal_strlit("missing required argument ");
        reveal_strlit("<");
        assert("missing required argument <"@ =~= "missing required argument "@ + "<"@);
        let message = "missing required argument <"@ + name + ">"@;
        assert(message =~= "missing required argument "@ + ("<"@ + name + ">"@)
            + Seq::<char>::empty());
        text::law_found_first(
            "missing required argument "@,
            "<"@ + name + ">"@,
            Seq::empty(),
        );
    }
}

/// A number in an option is read back as the number that was written; what is no
/// number gives none.
pub proof fn law_number_option_is_read_back(args: Seq<Seq<char>>, name: Seq<char>, n: int)
    requires
        option_of(args, name) == Some(number::signed_decimal(n)),
    ensures
        i32::MIN <= n <= i32::MAX ==> i32_of(args, name) == Some(n),
        i64::MIN <= n <= i64::MAX ==> i64_of(args, name) == Some(n),
        n < i32::MIN || n > i32::MAX ==> i32_of(args, name) is None,
        n < i64::MIN || n > i64::MAX ==> i64_of(args, name) is None,
{
    let s = number::signed_decimal(n);
    let far: int = if n < 0 {
        -n
    } else {
        n
    };
    number::law_decimal_is_read_back(n, -far, far);
    if i32::MIN <= n <= i32::MAX {
        number::law_decimal_is_read_back(n, i32::MIN as int, i32::MAX as int);
    }
    if i64::MIN <= n <= i64::MAX {
        number::law_decimal_is_read_back(n, i64::MIN as int, i64::MAX as int);
    }
    number::lemma_decimal(far as nat);
    if n < 0 {
        assert(s.skip(1) =~= number::decimal(far as nat));
    } else {
        assert('0' <= s[0] <= '9');
    }
}

/// Pairs that are given one after another are read in order, each as the key and
/// the value around its first equals sign; a pair without one is refused.
pub proof fn law_pairs_are_read_in_order(
    name: Seq<char>,
    key: Seq<char>,
    value: Seq<char>,
    rest: Seq<Seq<char>>,
)
    requires
        !key.contains('='),
    ensures
        pairs_from(seq![name, key + "="@ + value] + rest, name, 0) == prepended(
            seq![(key, value)],
            pairs_from(rest, name, 0),
        ),
        pairs_from(seq![name, key] + rest, name, 0) matches Err(Failure::Usage(_)),
        pairs_from(Seq::empty(), name, 0) == Ok::<Seq<(Seq<char>, Seq<char>)>, Failure>(
            Seq::empty(),
        ),
        key != name ==> pairs_from(seq![key] + rest, name, 0) == pairs_from(rest, name, 0),
{
    reveal_strlit("=");
    assert("="@ =~= seq!['=']);
    text::lemma_split_first(key, '=', value);
    let args = seq![name, key + "="@ + value] + rest;
    assert(args[0] == name && args[1] == key + "="@ + value);
    lemma_pairs_shift(seq![name, key + "="@ + value], rest, name, 0);
    let bad = seq![name, key] + rest;
    assert(bad[0] == name && bad[1] == key);
    text::lemma_find_from(key, "="@, 0);
    if let Some(i) = text::find_text(key, "="@) {
        assert(key.subrange(i, i + 1)[0] == '=');
        assert(key.contains(key[i]));
    }
    assert((seq![key] + rest)[0] == key);
    lemma_pairs_shift(seq![key], rest, name, 0);
}

proof fn lemma_pairs_shift(
    head: Seq<Seq<char>>,
    rest: Seq<Seq<char>>,
    name: Seq<char>,
    i: int,
)
    requires
        0 <= i,
    ensures
        pairs_from(head + rest, name, head.len() + i) == pairs_from(rest, name, i),
    decreases rest.len() - i,
{
    let args = head + rest;
    let n = head.len() as int;
    if i < rest.len() {
        assert(args[n + i] == rest[i]);
        if rest[i] != name {
            lemma_pairs_shift(head, rest, name, i + 1);
        } else if i + 1 < rest.len() {
            assert(args[n + i + 1] == rest[i + 1]);
            lemma_pairs_shift(head, rest, name, i + 2);
        }
    }
}

/// An option and its value are no words, and the words around them are the same as
/// without them.
pub proof fn law_option_leaves_the_words(
    before: Seq<Seq<char>>,
    name: Seq<char>,
    value: Seq<char>,
    after: Seq<Seq<char>>,
)
    requires
        forall|i: int| 0 <= i < before.len() ==> !is_option(#[trigger] before[i]),
        is_option(name),
        !boolean_flag(name),
        !is_option(value),
    ensures
        positionals(before + seq![name, value] + after) == before + positionals(after),
{
    let args = before + seq![name, value] + after;
    let n = before.len() as int;
    lemma_words_first(before, seq![name, value] + after, 0);
    assert(args =~= before + (seq![name, value] + after));
    assert(args[n] == name && args[n + 1] == value);
    assert(positional_from(args, n) == positional_from(args, n + 2));
    lemma_words_shift(before + seq![name, value], after, 0);
    assert(before.skip(0) =~= before);
}

proof fn lemma_words_first(before: Seq<Seq<char>>, rest: Seq<Seq<char>>, i: int)
    requires
        0 <= i <= before.len(),
        forall|k: int| 0 <= k < before.len() ==> !is_option(#[trigger] before[k]),
    ensures
        positional_from(before + rest, i) == before.skip(i) + positional_from(
            before + rest,
            before.len() as int,
        ),
    decreases before.len() - i,
{
    let args = before + rest;
    if i < before.len() {
        lemma_words_first(before, rest, i + 1);
        assert(args[i] == before[i]);
        assert(before.skip(i) =~= seq![before[i]] + before.skip(i + 1));
        assert(positional_from(args, i) =~= before.skip(i) + positional_from(
            args,
            before.len() as int,
        ));
    } else {
        assert(before.skip(i) + positional_from(args, i) =~= positional_from(args, i));
    }
}

proof fn lemma_words_shift(head: Seq<Seq<char>>, rest: Seq<Seq<char>>, i: int)
    requires
        0 <= i,
    ensures
        positional_from(head + rest, head.len() + i) == positional_from(rest, i),
    decreases rest.len() - i,
{
    let args = head + rest;
    let n = head.len() as int;
    if i < rest.len() {
        assert(args[n + i] == rest[i]);
        if i + 1 < rest.len() {
            assert(args[n + i + 1] == rest[i + 1]);
        }
        lemma_words_shift(head, rest, i + 1);
        if i + 1 < rest.len() {
            lemma_words_shift(head, rest, i + 2);
        }
    }
}

/// Words that name no option.
pub open spec fn are_words(words: Seq<Seq<char>>) -> bool {
    forall|i: int| 0 <= i < words.len() ==> !is_option(#[trigger] words[i])
}

/// A name that does not begin with another name and an equals sign.
pub open spec fn holds_no_value_of(name: Seq<char>, other: Seq<char>) -> bool {
    other.len() < name.len() ==> name[other.len() as int] != '='
}

/// What begins with two hyphens names an option.
pub proof fn lemma_names_option(name: Seq<char>)
    requires
        name.len() >= 2,
        name[0] == '-',
        name[1] == '-',
    ensures
        is_option(name),
{
    reveal_strlit("--");
    assert("--"@ =~= name.subrange(0, 2));
}

/// Words alone are all positional, and give no option and no flag.
pub proof fn law_words_give_no_option(words: Seq<Seq<char>>)
    requires
        are_words(words),
    ensures
        positionals(words) == words,
        forall|name: Seq<char>| is_option(name) ==> #[trigger] option_of(words, name) is None,
        forall|name: Seq<char>| is_option(name) ==> !#[trigger] words.contains(name),
{
    law_words_are_positional(words);
    assert forall|name: Seq<char>| is_option(name) implies #[trigger] option_of(
        words,
        name,
    ) is None by {
        lemma_words_are_not(words, name);
        lemma_option_skips(words, name, 0, words.len() as int);
    }
    assert forall|name: Seq<char>| is_option(name) implies !#[trigger] words.contains(name) by {
        lemma_words_are_not(words, name);
    }
}

proof fn lemma_words_are_not(words: Seq<Seq<char>>, name: Seq<char>)
    requires
        are_words(words),
        is_option(name),
    ensures
        forall|i: int|
            0 <= i < words.len() ==> (#[trigger] words[i]) != name && !(name
                + "="@).is_prefix_of(words[i]),
{
    assert forall|i: int| 0 <= i < words.len() implies (#[trigger] words[i]) != name && !(name
        + "="@).is_prefix_of(words[i]) by {
        if (name + "="@).is_prefix_of(words[i]) {
            assert("--"@.is_prefix_of(name));
            assert("--"@ =~= words[i].subrange(0, "--"@.len() as int)) by {
                assert forall|k: int| 0 <= k < "--"@.len() implies "--"@[k] == words[i][k] by {
                    assert("--"@ == name.subrange(0, "--"@.len() as int));
                    assert(name.subrange(0, "--"@.len() as int)[k] == name[k]);
                    assert((name + "="@) == words[i].subrange(0, (name + "="@).len() as int));
                    assert(words[i].subrange(0, (name + "="@).len() as int)[k] == words[i][k]);
                    assert((name + "="@)[k] == name[k]);
                }
            }
        }
    }
}

/// An option with its value after the words gives that option alone, and leaves the
/// words.
pub proof fn law_option_among_words(words: Seq<Seq<char>>, name: Seq<char>, value: Seq<char>)
    requires
        are_words(words),
        is_option(name),
        !boolean_flag(name),
        !is_option(value),
    ensures
        positionals(words.push(name).push(value)) == words,
        option_of(words.push(name).push(value), name) == Some(value),
        forall|other: Seq<char>|
            is_option(other) && other != name && holds_no_value_of(name, other)
                ==> #[trigger] option_of(words.push(name).push(value), other) is None,
        forall|flag: Seq<char>|
            is_option(flag) ==> (#[trigger] words.push(name).push(value).contains(flag) <==> flag
                == name),
{
    let args = words.push(name).push(value);
    assert(args =~= words + seq![name, value]);
    let n = words.len() as int;
    let none = Seq::<Seq<char>>::empty();
    assert(args =~= args + none);
    law_option_leaves_the_words(words, name, value, none);
    assert(words + positionals(none) =~= words);
    lemma_words_are_not(words, name);
    law_option_takes_what_follows(words, name, value, none);
    assert(args[n] == name && args[n + 1] == value);
    assert forall|other: Seq<char>|
        is_option(other) && other != name && holds_no_value_of(
            name,
            other,
        ) implies #[trigger] option_of(args, other) is None by {
        lemma_words_are_not(args.update(n, value), other);
        lemma_not_begun(name, other);
        assert(args.update(n, value)[n + 1] == value);
        assert forall|k: int| 0 <= k < args.len() implies (#[trigger] args[k]) != other && !(other
            + "="@).is_prefix_of(args[k]) by {
            if k != n {
                assert(args.update(n, value)[k] == args[k]);
            }
        }
        lemma_option_skips(args, other, 0, n + 2);
    }
    assert forall|flag: Seq<char>| is_option(flag) implies (#[trigger] args.contains(flag) <==> flag
        == name) by {
        if flag == name {
            assert(args[n] == flag);
        }
        if args.contains(flag) {
            let k = choose|k: int| 0 <= k < args.len() && args[k] == flag;
            if k < n {
                assert(args[k] == words[k]);
            }
        }
    }
}

/// A name that stands before no equals sign in another does not begin it with one.
proof fn lemma_not_begun(name: Seq<char>, other: Seq<char>)
    requires
        holds_no_value_of(name, other),
    ensures
        !(other + "="@).is_prefix_of(name),
{
    reveal_strlit("=");
    if (other + "="@).is_prefix_of(name) {
        let n = other.len() as int;
        assert((other + "="@)[n] == '=');
        assert((other + "="@) == name.subrange(0, n + 1));
        assert(name.subrange(0, n + 1)[n] == name[n]);
    }
}

/// A flag after the words is given, gives no option, and leaves the words.
pub proof fn law_flag_among_words(words: Seq<Seq<char>>, flag: Seq<char>)
    requires
        are_words(words),
        is_option(flag),
    ensures
        positionals(words.push(flag)) == words,
        forall|other: Seq<char>|
            is_option(other) && holds_no_value_of(flag, other) ==> #[trigger] option_of(
                words.push(flag),
                other,
            ) is None,
        forall|other: Seq<char>|
            is_option(other) ==> (#[trigger] words.push(flag).contains(other) <==> other
                == flag),
{
    let args = words.push(flag);
    assert(args =~= words + seq![flag]);
    let n = words.len() as int;
    lemma_words_first(words, seq![flag], 0);
    assert(args[n] == flag);
    assert(positional_from(args, n + 1) =~= Seq::empty());
    assert(words.skip(0) + Seq::<Seq<char>>::empty() =~= words);
    assert forall|other: Seq<char>|
        is_option(other) && holds_no_value_of(flag, other) implies #[trigger] option_of(
        args,
        other,
    ) is None by {
        lemma_words_are_not(words, other);
        lemma_not_begun(flag, other);
        assert forall|k: int| 0 <= k < n implies (#[trigger] args[k]) != other && !(other
            + "="@).is_prefix_of(args[k]) by {
            assert(args[k] == words[k]);
        }
        lemma_option_skips(args, other, 0, n);
        assert(option_from(args, other, n + 1) is None);
    }
    assert forall|other: Seq<char>| is_option(other) implies (#[trigger] args.contains(other)
        <==> other == flag) by {
        if other == flag {
            assert(args[n] == other);
        }
        if args.contains(other) {
            let k = choose|k: int| 0 <= k < args.len() && args[k] == other;
            if k < n {
                assert(args[k] == words[k]);
            }
        }
    }
}

/// A flag that takes no value leaves the words before and after it.
pub proof fn law_flag_leaves_the_words(
    words: Seq<Seq<char>>,
    flag: Seq<char>,
    more: Seq<Seq<char>>,
)
    requires
        are_words(words),
        are_words(more),
        is_option(flag),
        boolean_flag(flag),
    ensures
        positionals(words + seq![flag] + more) == words + more,
{
    let args = words + seq![flag] + more;
    let n = words.len() as int;
    assert(args =~= words + (seq![flag] + more));
    lemma_words_first(words, seq![flag] + more, 0);
    assert(args[n] == flag);
    lemma_words_shift(words + seq![flag], more, 0);
    law_words_are_positional(more);
    assert(words.skip(0) =~= words);
}

/// The flags that stand alone.
pub proof fn law_flags_take_no_value()
    ensures
        is_option("--delete"@) && boolean_flag("--delete"@),
        is_option("--dry-run"@) && boolean_flag("--dry-run"@),
        is_option("--dryrun"@) && boolean_flag("--dryrun"@),
        is_option("--exec"@) && boolean_flag("--exec"@),
        is_option("--fail-fast"@) && boolean_flag("--fail-fast"@),
        is_option("--force"@) && boolean_flag("--force"@),
        is_option("--no-browser"@) && boolean_flag("--no-browser"@),
        is_option("--no-decrypt"@) && boolean_flag("--no-decrypt"@),
        is_option("--overwrite"@) && boolean_flag("--overwrite"@),
        is_option("--recursive"@) && boolean_flag("--recursive"@),
        is_option("--strict"@) && boolean_flag("--strict"@),
        is_option("--tail"@) && boolean_flag("--tail"@),
{
    reveal_strlit("--delete");
    lemma_names_option("--delete"@);
    reveal_strlit("--dry-run");
    lemma_names_option("--dry-run"@);
    reveal_strlit("--dryrun");
    lemma_names_option("--dryrun"@);
    reveal_strlit("--exec");
    lemma_names_option("--exec"@);
    reveal_strlit("--fail-fast");
    lemma_names_option("--fail-fast"@);
    reveal_strlit("--force");
    lemma_names_option("--force"@);
    reveal_strlit("--no-browser");
    lemma_names_option("--no-browser"@);
    reveal_strlit("--no-decrypt");
    lemma_names_option("--no-decrypt"@);
    reveal_strlit("--overwrite");
    lemma_names_option("--overwrite"@);
    reveal_strlit("--recursive");
    lemma_names_option("--recursive"@);
    reveal_strlit("--strict");
    lemma_names_option("--strict"@);
    reveal_strlit("--tail");
    lemma_names_option("--tail"@);
}

/// The options that take a value.
pub proof fn law_options_take_values()
    ensures
        is_option("--projection"@) && !boolean_flag("--projection"@),
        is_option("--key-condition"@) && !boolean_flag("--key-condition"@),
        is_option("--names"@) && !boolean_flag("--names"@),
        is_option("--values"@) && !boolean_flag("--values"@),
        is_option("--qualifier"@) && !boolean_flag("--qualifier"@),
        is_option("--name"@) && !boolean_flag("--name"@),
        is_option("--payload-file"@) && !boolean_flag("--payload-file"@),
        is_option("--type"@) && !boolean_flag("--type"@),
        is_option("--invocation-type"@) && !boolean_flag("--invocation-type"@),
        is_option("--log-type"@) && !boolean_flag("--log-type"@),
        is_option("--limit"@) && !boolean_flag("--limit"@),
        is_option("--filter"@) && !boolean_flag("--filter"@),
        is_option("--marker"@) && !boolean_flag("--marker"@),
        is_option("--version-id"@) && !boolean_flag("--version-id"@),
        is_option("--version-stage"@) && !boolean_flag("--version-stage"@),
        is_option("--prefix"@) && !boolean_flag("--prefix"@),
        is_option("--stream"@) && !boolean_flag("--stream"@),
        is_option("--duration"@) && !boolean_flag("--duration"@),
        is_option("--session-name"@) && !boolean_flag("--session-name"@),
        is_option("--format"@) && !boolean_flag("--format"@),
        is_option("--kms-key"@) && !boolean_flag("--kms-key"@),
        is_option("--key-id"@) && !boolean_flag("--key-id"@),
        is_option("--spec"@) && !boolean_flag("--spec"@),
        is_option("--encoding"@) && !boolean_flag("--encoding"@),
        is_option("--input-encoding"@) && !boolean_flag("--input-encoding"@),
        is_option("--profile"@) && !boolean_flag("--profile"@),
{
    reveal_strlit("--delete");
    assert("--delete"@.len() == 8);
    reveal_strlit("--dry-run");
    assert("--dry-run"@.len() == 9);
    reveal_strlit("--dryrun");
    assert("--dryrun"@.len() == 8);
    reveal_strlit("--exec");
    assert("--exec"@.len() == 6);
    reveal_strlit("--fail-fast");
    assert("--fail-fast"@.len() == 11);
    reveal_strlit("--force");
    assert("--force"@.len() == 7);
    reveal_strlit("--no-browser");
    assert("--no-browser"@.len() == 12);
    reveal_strlit("--no-decrypt");
    assert("--no-decrypt"@.len() == 12);
    reveal_strlit("--overwrite");
    assert("--overwrite"@.len() == 11);
    reveal_strlit("--recursive");
    assert("--recursive"@.len() == 11);
    reveal_strlit("--strict");
    assert("--strict"@.len() == 8);
    reveal_strlit("--tail");
    assert("--tail"@.len() == 6);
    reveal_strlit("--name");
    lemma_names_option("--name"@);
    assert("--name"@.len() == 6);
    assert("--name"@[2] != "--exec"@[2]);
    assert("--name"@[2] != "--tail"@[2]);
    reveal_strlit("--projection");
    lemma_names_option("--projection"@);
    assert("--projection"@.len() == 12);
    assert("--projection"@[2] != "--no-browser"@[2]);
    assert("--projection"@[2] != "--no-decrypt"@[2]);
    reveal_strlit("--key-condition");
    lemma_names_option("--key-condition"@);
    assert("--key-condition"@.len() == 15);
    reveal_strlit("--names");
    lemma_names_option("--names"@);
    assert("--names"@.len() == 7);
    assert("--names"@[2] != "--force"@[2]);
    reveal_strlit("--values");
    lemma_names_option("--values"@);
    assert("--values"@.len() == 8);
    assert("--values"@[2] != "--delete"@[2]);
    assert("--values"@[2] != "--dryrun"@[2]);
    assert("--values"@[2] != "--strict"@[2]);
    reveal_strlit("--qualifier");
    lemma_names_option("--qualifier"@);
    assert("--qualifier"@.len() == 11);
    assert("--qualifier"@[2] != "--fail-fast"@[2]);
    assert("--qualifier"@[2] != "--overwrite"@[2]);
    assert("--qualifier"@[2] != "--recursive"@[2]);
    reveal_strlit("--payload-file");
    lemma_names_option("--payload-file"@);
    assert("--payload-file"@.len() == 14);
    reveal_strlit("--type");
    lemma_names_option("--type"@);
    assert("--type"@.len() == 6);
    assert("--type"@[2] != "--exec"@[2]);
    assert("--type"@[3] != "--tail"@[3]);
    reveal_strlit("--invocation-type");
    lemma_names_option("--invocation-type"@);
    assert("--invocation-type"@.len() == 17);
    reveal_strlit("--log-type");
    lemma_names_option("--log-type"@);
    assert("--log-type"@.len() == 10);
    reveal_strlit("--limit");
    lemma_names_option("--limit"@);
    assert("--limit"@.len() == 7);
    assert("--limit"@[2] != "--force"@[2]);
    reveal_strlit("--filter");
    lemma_names_option("--filter"@);
    assert("--filter"@.len() == 8);
    assert("--filter"@[2] != "--delete"@[2]);
    assert("--filter"@[2] != "--dryrun"@[2]);
    assert("--filter"@[2] != "--strict"@[2]);
    reveal_strlit("--marker");
    lemma_names_option("--marker"@);
    assert("--marker"@.len() == 8);
    assert("--marker"@[2] != "--delete"@[2]);
    assert("--marker"@[2] != "--dryrun"@[2]);
    assert("--marker"@[2] != "--strict"@[2]);
    reveal_strlit("--version-id");
    lemma_names_option("--version-id"@);
    assert("--version-id"@.len() == 12);
    assert("--version-id"@[2] != "--no-browser"@[2]);
    assert("--version-id"@[2] != "--no-decrypt"@[2]);
    reveal_strlit("--version-stage");
    lemma_names_option("--version-stage"@);
    assert("--version-stage"@.len() == 15);
    reveal_strlit("--prefix");
    lemma_names_option("--prefix"@);
    assert("--prefix"@.len() == 8);
    assert("--prefix"@[2] != "--delete"@[2]);
    assert("--prefix"@[2] != "--dryrun"@[2]);
    assert("--prefix"@[2] != "--strict"@[2]);
    reveal_strlit("--stream");
    lemma_names_option("--stream"@);
    assert("--stream"@.len() == 8);
    assert("--stream"@[2] != "--delete"@[2]);
    assert("--stream"@[2] != "--dryrun"@[2]);
    assert("--stream"@[5] != "--strict"@[5]);
    reveal_strlit("--duration");
    lemma_names_option("--duration"@);
    assert("--duration"@.len() == 10);
    reveal_strlit("--session-name");
    lemma_names_option("--session-name"@);
    assert("--session-name"@.len() == 14);
    reveal_strlit("--format");
    lemma_names_option("--format"@);
    assert("--format"@.len() == 8);
    assert("--format"@[2] != "--delete"@[2]);
    assert("--format"@[2] != "--dryrun"@[2]);
    assert("--format"@[2] != "--strict"@[2]);
    reveal_strlit("--kms-key");
    lemma_names_option("--kms-key"@);
    assert("--kms-key"@.len() == 9);
    assert("--kms-key"@[2] != "--dry-run"@[2]);
    reveal_strlit("--key-id");
    lemma_names_option("--key-id"@);
    assert("--key-id"@.len() == 8);
    assert("--key-id"@[2] != "--delete"@[2]);
    assert("--key-id"@[2] != "--dryrun"@[2]);
    assert("--key-id"@[2] != "--strict"@[2]);
    reveal_strlit("--spec");
    lemma_names_option("--spec"@);
    assert("--spec"@.len() == 6);
    assert("--spec"@[2] != "--exec"@[2]);
    assert("--spec"@[2] != "--tail"@[2]);
    reveal_strlit("--encoding");
    lemma_names_option("--encoding"@);
    assert("--encoding"@.len() == 10);
    reveal_strlit("--input-encoding");
    lemma_names_option("--input-encoding"@);
    assert("--input-encoding"@.len() == 16);
    reveal_strlit("--profile");
    lemma_names_option("--profile"@);
    assert("--profile"@.len() == 9);
    assert("--profile"@[2] != "--dry-run"@[2]);
}

} // verus!
