//! Key management.
use vstd::prelude::*;
use vstd::utf8::{decode_utf8, encode_utf8, is_ascii_chars, valid_utf8};

use crate::bytes::{self, base64_bytes, base64_text, lossy};
use crate::client;
use crate::error::{told, AwlError, Failure};
use crate::json::{self, Fields, Json, JsonTree};
use crate::number;
use crate::output::{self, Output, Shown};
use crate::services::common;
use crate::text;

verus! {

/// The lower-case character of a hexadecimal digit.
pub open spec fn lower_hex(d: nat) -> char {
    if d < 10 {
        (48 + d) as char
    } else {
        (87 + d) as char
    }
}

/// Bytes in hexadecimal, two digits for each.
pub open spec fn hex_text(bytes: Seq<u8>) -> Seq<char>
    decreases bytes.len(),
{
    if bytes.len() == 0 {
        Seq::empty()
    } else {
        let b = bytes.last() as nat;
        hex_text(bytes.drop_last()).push(lower_hex(b / 16)).push(lower_hex(b % 16))
    }
}

/// The value of a hexadecimal digit.
pub open spec fn hex_digit(c: char) -> Option<nat> {
    if '0' <= c <= '9' {
        Some((c as u32 - 48) as nat)
    } else if 'a' <= c <= 'f' {
        Some((c as u32 - 87) as nat)
    } else if 'A' <= c <= 'F' {
        Some((c as u32 - 55) as nat)
    } else {
        None
    }
}

/// The number that hexadecimal digits write.
pub open spec fn hex_digits_value(s: Seq<char>) -> Option<nat>
    decreases s.len(),
{
    if s.len() == 0 {
        Some(0)
    } else {
        match (hex_digits_value(s.drop_last()), hex_digit(s.last())) {
            (Some(high), Some(low)) => Some(high * 16 + low),
            _ => None,
        }
    }
}

/// The byte that a text writes in hexadecimal: digits, with at most one plus sign
/// before them.
pub open spec fn hex_byte(s: Seq<char>) -> Option<nat> {
    let digits = number::without_plus(s);
    match hex_digits_value(digits) {
        Some(n) => if digits.len() > 0 && n <= u8::MAX {
            Some(n)
        } else {
            None
        },
        None => None,
    }
}

/// What the standard library says of a text that is no byte in hexadecimal.
pub uninterp spec fn hex_complaint(s: Seq<char>) -> Seq<char>;

/// `u8::from_str_radix` with radix 16 takes hexadecimal digits of either case,
/// with at most one plus sign before them, and no number above `u8::MAX`. Of any
/// other text it gives a `ParseIntError`, whose message is a function of the text.
#[verifier::external_body]
fn parse_hex_byte(s: &str) -> (r: Result<u8, String>)
    ensures
        match r {
            Ok(n) => hex_byte(s@) == Some(n as nat),
            Err(message) => hex_byte(s@) is None && message@ == hex_complaint(s@),
        },
{
    u8::from_str_radix(s, 16).map_err(|error| error.to_string())
}

/// What the standard library says of bytes that are not UTF-8.
pub uninterp spec fn utf8_complaint(bytes: Seq<u8>) -> Seq<char>;

/// `str::from_utf8` decodes bytes that are UTF-8. Of any others it gives a
/// `Utf8Error`, whose message is a function of the bytes.
#[verifier::external_body]
fn utf8_text(bytes: &[u8]) -> (r: Result<String, String>)
    ensures
        match r {
            Ok(s) => valid_utf8(bytes@) && s@ == decode_utf8(bytes@),
            Err(message) => !valid_utf8(bytes@) && message@ == utf8_complaint(bytes@),
        },
{
    std::str::from_utf8(bytes).map(str::to_owned).map_err(|error| error.to_string())
}

/// The byte that two bytes of hexadecimal text write.
pub open spec fn hex_pair(bytes: Seq<u8>) -> Result<u8, Failure> {
    if !valid_utf8(bytes) {
        Err(Failure::Usage("invalid hex input: "@ + utf8_complaint(bytes)))
    } else {
        match hex_byte(decode_utf8(bytes)) {
            Some(n) => Ok(n as u8),
            None => Err(
                Failure::Usage("invalid hex input: "@ + hex_complaint(decode_utf8(bytes))),
            ),
        }
    }
}

/// The bytes that pairs of bytes of hexadecimal text write; the first pair that
/// writes none decides.
pub open spec fn hex_pairs(bytes: Seq<u8>) -> Result<Seq<u8>, Failure>
    decreases bytes.len(),
{
    if bytes.len() < 2 {
        Ok(Seq::empty())
    } else {
        let n = bytes.len() - 2;
        match hex_pairs(bytes.take(n)) {
            Err(failure) => Err(failure),
            Ok(before) => match hex_pair(bytes.skip(n)) {
                Err(failure) => Err(failure),
                Ok(b) => Ok(before.push(b)),
            },
        }
    }
}

/// The bytes that a hexadecimal text writes.
pub open spec fn hex_bytes(s: Seq<char>) -> Result<Seq<u8>, Failure> {
    if encode_utf8(s).len() % 2 != 0 {
        Err(Failure::Usage("hex input must have an even number of characters"@))
    } else {
        hex_pairs(encode_utf8(s))
    }
}

/// A failure among the first pairs is the failure of the text.
proof fn lemma_pairs_fail(bytes: Seq<u8>, n: int)
    requires
        0 <= n <= bytes.len(),
        n % 2 == 0,
        bytes.len() % 2 == 0,
        hex_pairs(bytes.take(n)) is Err,
    ensures
        hex_pairs(bytes) == hex_pairs(bytes.take(n)),
    decreases bytes.len(),
{
    if n < bytes.len() {
        let m = bytes.len() - 2;
        assert(bytes.take(m).take(n) =~= bytes.take(n));
        lemma_pairs_fail(bytes.take(m), n);
    } else {
        assert(bytes.take(n) =~= bytes);
    }
}

/// The bytes that a hexadecimal text writes.
pub fn decode_hex(value: &str) -> (r: Result<Vec<u8>, AwlError>)
    ensures
        told(r) == hex_bytes(value@),
{
    let all = value.as_bytes();
    if all.len() % 2 != 0 {
        return Err(AwlError::usage("hex input must have an even number of characters"));
    }
    let mut out: Vec<u8> = Vec::new();
    let mut i: usize = 0;
    assert(all@.take(0) =~= Seq::empty());
    while i < all.len()
        invariant
            all@ == encode_utf8(value@),
            all@.len() % 2 == 0,
            i % 2 == 0,
            i <= all.len(),
            hex_pairs(all@.take(i as int)) == Ok::<Seq<u8>, Failure>(out@),
        decreases all.len() - i,
    {
        let mut chunk: Vec<u8> = Vec::new();
        chunk.push(all[i]);
        chunk.push(all[i + 1]);
        proof {
            let longer = all@.take(i + 2);
            assert(longer.take(longer.len() - 2) =~= all@.take(i as int));
            assert(longer.skip(longer.len() - 2) =~= chunk@);
        }
        let failed: Option<String> = match utf8_text(chunk.as_slice()) {
            Ok(s) => match parse_hex_byte(s.as_str()) {
                Ok(b) => {
                    out.push(b);
                    None
                },
                Err(message) => Some(message),
            },
            Err(message) => Some(message),
        };
        if let Some(message) = failed {
            proof {
                lemma_pairs_fail(all@, i + 2);
            }
            return Err(
                AwlError::usage("invalid hex input: ".to_owned().concat(message.as_str()).as_str()),
            );
        }
        i += 2;
    }
    assert(all@.take(i as int) =~= all@);
    Ok(out)
}

/// Bytes in hexadecimal.
fn encode_hex(bytes: &[u8]) -> (r: String)
    ensures
        r@ == hex_text(bytes@),
{
    let mut out = String::new();
    let mut i: usize = 0;
    assert(bytes@.take(0) =~= Seq::empty());
    assert(out@ =~= Seq::empty());
    while i < bytes.len()
        invariant
            i <= bytes.len(),
            out@ == hex_text(bytes@.take(i as int)),
        decreases bytes.len() - i,
    {
        let b = bytes[i];
        out.push(hex_char(b / 16));
        out.push(hex_char(b % 16));
        assert(bytes@.take(i + 1).drop_last() =~= bytes@.take(i as int));
        i += 1;
    }
    assert(bytes@.take(i as int) =~= bytes@);
    out
}

/// The lower-case character of a hexadecimal digit.
fn hex_char(d: u8) -> (r: char)
    requires
        d < 16,
    ensures
        r == lower_hex(d as nat),
{
    if d < 10 {
        (48 + d) as char
    } else {
        (87 + d) as char
    }
}

/// Hexadecimal text of bytes is plain ASCII, two characters for each byte.
proof fn lemma_hex_ascii(bytes: Seq<u8>)
    ensures
        is_ascii_chars(hex_text(bytes)),
        hex_text(bytes).len() == 2 * bytes.len(),
    decreases bytes.len(),
{
    if bytes.len() > 0 {
        lemma_hex_ascii(bytes.drop_last());
    }
}

/// The digits of a byte write the byte.
proof fn lemma_hex_byte(b: u8)
    ensures
        hex_byte(seq![lower_hex(b as nat / 16), lower_hex(b as nat % 16)]) == Some(b as nat),
{
    let hi = lower_hex(b as nat / 16);
    let lo = lower_hex(b as nat % 16);
    let s = seq![hi, lo];
    assert(hex_digit(hi) == Some(b as nat / 16));
    assert(hex_digit(lo) == Some(b as nat % 16));
    assert(s.drop_last() =~= seq![hi]);
    assert(s.drop_last().drop_last() =~= Seq::<char>::empty());
    assert(hex_digits_value(Seq::<char>::empty()) == Some(0nat));
    assert(hex_digits_value(seq![hi]) == Some(b as nat / 16)) by {
        assert(seq![hi].drop_last() =~= Seq::<char>::empty());
    }
    assert(number::without_plus(s) == s);
}

/// Bytes in hexadecimal are read as the same bytes.
pub proof fn law_hex_round_trip(bytes: Seq<u8>)
    ensures
        hex_bytes(hex_text(bytes)) == Ok::<Seq<u8>, Failure>(bytes),
    decreases bytes.len(),
{
    let s = hex_text(bytes);
    let all = encode_utf8(s);
    lemma_hex_ascii(bytes);
    vstd::utf8::is_ascii_chars_encode_utf8(s);
    if bytes.len() == 0 {
        assert(bytes =~= Seq::empty());
    } else {
        let b = bytes.last();
        let rest = bytes.drop_last();
        let t = hex_text(rest);
        let n = all.len() - 2;
        law_hex_round_trip(rest);
        lemma_hex_ascii(rest);
        vstd::utf8::is_ascii_chars_encode_utf8(t);
        assert(all.take(n) =~= encode_utf8(t)) by {
            assert forall|i: int| 0 <= i < n implies all[i] == encode_utf8(t)[i] by {
                assert(s[i] == t[i]);
            }
        }
        let pair = seq![lower_hex(b as nat / 16), lower_hex(b as nat % 16)];
        vstd::utf8::is_ascii_chars_encode_utf8(pair);
        assert(all.skip(n) =~= encode_utf8(pair)) by {
            assert(s[n] == pair[0]);
            assert(s[n + 1] == pair[1]);
        }
        vstd::utf8::encode_utf8_valid_utf8(pair);
        vstd::utf8::encode_utf8_decode_utf8(pair);
        lemma_hex_byte(b);
        assert(rest.push(b) =~= bytes);
    }
}

/// What is said of an encoding that is not known.
pub open spec fn unknown_encoding(what: Seq<char>, encoding: Seq<char>) -> Failure {
    Failure::Usage(
        "unknown "@ + what + " "@ + text::quoted(encoding) + "; expected b64, hex, or raw"@,
    )
}

/// Bytes in an encoding.
pub open spec fn encoded(bytes: Seq<u8>, encoding: Seq<char>) -> Result<Seq<char>, Failure> {
    if encoding == "b64"@ {
        Ok(base64_text(bytes))
    } else if encoding == "hex"@ {
        Ok(hex_text(bytes))
    } else if encoding == "raw"@ {
        Ok(lossy(bytes))
    } else {
        Err(unknown_encoding("encoding"@, encoding))
    }
}

/// The bytes that a text writes in an encoding.
pub open spec fn decoded(s: Seq<char>, encoding: Seq<char>) -> Result<Seq<u8>, Failure> {
    if encoding == "b64"@ {
        match base64_bytes(s) {
            Ok(bytes) => Ok(bytes),
            Err(message) => Err(Failure::Usage("invalid base64 ciphertext: "@ + message)),
        }
    } else if encoding == "hex"@ {
        hex_bytes(s)
    } else if encoding == "raw"@ {
        Ok(encode_utf8(s))
    } else {
        Err(unknown_encoding("input encoding"@, encoding))
    }
}

/// Bytes in an encoding. What it gives is read as the same bytes, except where
/// bytes that are not UTF-8 are written raw.
pub fn encode_bytes(bytes: &[u8], encoding: &str) -> (r: Result<String, AwlError>)
    ensures
        told(r) == encoded(bytes@, encoding@),
        (encoding@ != "raw"@ || valid_utf8(bytes@)) ==> (r matches Ok(s) ==> decoded(
            s@,
            encoding@,
        ) == Ok::<Seq<u8>, Failure>(bytes@)),
{
    if text::same(encoding, "b64") {
        Ok(bytes::base64_encode(bytes))
    } else if text::same(encoding, "hex") {
        proof {
            law_hex_round_trip(bytes@);
        }
        Ok(encode_hex(bytes))
    } else if text::same(encoding, "raw") {
        proof {
            if valid_utf8(bytes@) {
                vstd::utf8::decode_utf8_encode_utf8(bytes@);
            }
        }
        Ok(bytes::lossy_text(bytes))
    } else {
        Err(not_known("encoding", encoding))
    }
}

/// What is said of an encoding that is not known.
fn not_known(what: &str, encoding: &str) -> (r: AwlError)
    ensures
        r@ == unknown_encoding(what@, encoding@),
{
    AwlError::usage(
        "unknown ".to_owned().concat(what).concat(" ").concat(text::quote(encoding).as_str()).concat(
            "; expected b64, hex, or raw",
        ).as_str(),
    )
}

/// The bytes that a text writes in an encoding.
pub fn decode_bytes(value: String, encoding: &str) -> (r: Result<Vec<u8>, AwlError>)
    ensures
        told(r) == decoded(value@, encoding@),
{
    if text::same(encoding, "b64") {
        match bytes::base64_decode(value.as_str()) {
            Ok(bytes) => Ok(bytes),
            Err(message) => Err(
                AwlError::usage(
                    "invalid base64 ciphertext: ".to_owned().concat(message.as_str()).as_str(),
                ),
            ),
        }
    } else if text::same(encoding, "hex") {
        decode_hex(value.as_str())
    } else if text::same(encoding, "raw") {
        Ok(text_bytes(value.as_str()))
    } else {
        Err(not_known("input encoding", encoding))
    }
}

/// The UTF-8 of a text.
pub fn text_bytes(s: &str) -> (r: Vec<u8>)
    ensures
        r@ == encode_utf8(s@),
{
    let all = s.as_bytes();
    let mut out: Vec<u8> = Vec::new();
    let mut i: usize = 0;
    while i < all.len()
        invariant
            i <= all.len(),
            out@ == all@.take(i as int),
        decreases all.len() - i,
    {
        out.push(all[i]);
        assert(all@.take(i + 1) =~= all@.take(i as int).push(all@[i as int]));
        i += 1;
    }
    assert(all@.take(i as int) =~= all@);
    out
}

/// Where the value of an argument is: in the argument, or for `-` on standard
/// input.
pub fn is_stdin(value: &str) -> (r: bool)
    ensures
        r == (value@ == "-"@),
{
    text::same(value, "-")
}

/// A text that was read from standard input, without the line ends after it.
pub fn stdin_text(s: &str) -> (r: String)
    ensures
        r@ == text::trimmed_end(s@, '\n'),
{
    text::trim_end_matches(s, '\n').to_owned()
}

/// The key of a command: the first positional argument, or else the value of
/// `AWL_KMS_KEY`.
pub open spec fn key_of(args: Seq<Seq<char>>, variable: Option<Seq<char>>) -> Result<
    Seq<char>,
    Failure,
> {
    match client::first_of(common::word_at(common::positionals(args), 0), variable) {
        Some(key) => Ok(key),
        None => Err(Failure::Usage("missing <key-id> and AWL_KMS_KEY is unset"@)),
    }
}

/// The key of a command; the value of `AWL_KMS_KEY` is given.
pub fn key_id(args: &[String], variable: Option<String>) -> (r: Result<String, AwlError>)
    ensures
        told(r) == key_of(args.deep_view(), variable.deep_view()),
{
    let words = common::positional(args);
    match client::first_text(common::word(words.as_slice(), 0), variable) {
        Some(key) => Ok(key),
        None => Err(AwlError::usage("missing <key-id> and AWL_KMS_KEY is unset")),
    }
}

/// What `encrypt` works on: a key, and the argument that gives the plaintext.
#[derive(Debug)]
pub struct EncryptPlan {
    pub key_id: String,
    pub plaintext: String,
}

/// What the arguments ask to be encrypted, and under which key.
pub open spec fn encryption_asked(
    args: Seq<Seq<char>>,
    variable: Option<Seq<char>>,
    r: Result<EncryptPlan, AwlError>,
) -> bool {
    match r {
        Ok(plan) => {
            &&& key_of(args, variable) == Ok::<Seq<char>, Failure>(
                plan.key_id@,
            )
            &&& common::required_at(common::positionals(args), 1, "plaintext"@)
                == Ok::<Seq<char>, Failure>(plan.plaintext@)
        },
        Err(error) => match key_of(args, variable) {
            Err(failure) => error@ == failure,
            Ok(_) => common::required_at(
                common::positionals(args),
                1,
                "plaintext"@,
            ) == Err::<Seq<char>, Failure>(error@),
        },
    }
}

/// What `encrypt` works on; the value of `AWL_KMS_KEY` is given.
pub fn encrypt_plan(args: &[String], variable: Option<String>) -> (r: Result<
    EncryptPlan,
    AwlError,
>)
    ensures
        encryption_asked(args.deep_view(), variable.deep_view(), r),
{
    let key = match key_id(args, variable) {
        Ok(key) => key,
        Err(error) => return Err(error),
    };
    let words = common::positional(args);
    match common::required(words.as_slice(), 1, "plaintext") {
        Ok(plaintext) => Ok(EncryptPlan { key_id: key, plaintext }),
        Err(error) => Err(error),
    }
}

/// The encryption context of a command.
pub fn encryption_context(args: &[String]) -> (r: Result<Vec<(String, String)>, AwlError>)
    ensures
        match r {
            Ok(pairs) => common::pairs_from(args.deep_view(), "--context"@, 0) == Ok::<
                Seq<(Seq<char>, Seq<char>)>,
                Failure,
            >(pairs.deep_view()),
            Err(error) => common::pairs_from(args.deep_view(), "--context"@, 0) == Err::<
                Seq<(Seq<char>, Seq<char>)>,
                Failure,
            >(error@),
        },
{
    common::key_values(args, "--context")
}

/// The record of a ciphertext.
pub open spec fn ciphertext_tree(ciphertext: Option<Seq<char>>) -> JsonTree {
    JsonTree::Object(map!["ciphertext"@ => json::optional_text(ciphertext)])
}

/// What is shown of a ciphertext.
pub open spec fn ciphertext_shown(
    args: Seq<Seq<char>>,
    blob: Option<Vec<u8>>,
) -> Result<Shown, Failure> {
    {
        let encoding = client::or_text(
            common::option_of(args, "--encoding"@),
            "b64"@,
        );
        match blob {
            None => Ok(Shown::One(ciphertext_tree(None))),
            Some(bytes) => match encoded(bytes@, encoding) {
                Ok(s) => Ok(Shown::One(ciphertext_tree(Some(s)))),
                Err(failure) => Err(failure),
            },
        }
    }
}

/// What is shown of a ciphertext, in the encoding that `--encoding` names or else
/// in base64.
pub fn encrypt_row(args: &[String], blob: &Option<Vec<u8>>) -> (r: Result<Output, AwlError>)
    ensures
        told(r) == ciphertext_shown(args.deep_view(), *blob),
{
    let encoding = client::text_or(common::option_value(args, "--encoding"), "b64");
    let ciphertext: Option<String> = match blob {
        None => None,
        Some(bytes) => match encode_bytes(bytes.as_slice(), encoding.as_str()) {
            Ok(s) => Some(s),
            Err(error) => return Err(error),
        },
    };
    let mut row = Fields::new();
    row.insert("ciphertext", Json::optional_string(&ciphertext));
    Ok(Output::One(Json::Object(row)))
}

/// What `decrypt` works on: the argument that gives the ciphertext, and a key where
/// one is named.
#[derive(Debug)]
pub struct DecryptPlan {
    pub ciphertext: String,
    pub key_id: Option<String>,
}

/// What the arguments ask to be decrypted.
pub open spec fn decryption_asked(args: Seq<Seq<char>>, r: Result<DecryptPlan, AwlError>) -> bool {
    match r {
        Ok(plan) => {
            &&& common::required_at(common::positionals(args), 0, "ciphertext"@)
                == Ok::<Seq<char>, Failure>(plan.ciphertext@)
            &&& plan.key_id.deep_view() == common::option_of(args, "--key-id"@)
        },
        Err(error) => common::required_at(
            common::positionals(args),
            0,
            "ciphertext"@,
        ) == Err::<Seq<char>, Failure>(error@),
    }
}

/// What `decrypt` works on.
pub fn decrypt_plan(args: &[String]) -> (r: Result<DecryptPlan, AwlError>)
    ensures
        decryption_asked(args.deep_view(), r),
{
    let words = common::positional(args);
    match common::required(words.as_slice(), 0, "ciphertext") {
        Ok(ciphertext) => Ok(
            DecryptPlan { ciphertext, key_id: common::option_value(args, "--key-id") },
        ),
        Err(error) => Err(error),
    }
}

/// The bytes that a ciphertext writes, in the encoding that the arguments name.
pub open spec fn ciphertext_given(args: Seq<Seq<char>>, ciphertext: Seq<char>) -> Result<
    Seq<u8>,
    Failure,
> {
    decoded(
        ciphertext,
        client::or_text(common::option_of(args, "--input-encoding"@), "b64"@),
    )
}

/// The bytes of a ciphertext, in the encoding that `--input-encoding` names or
/// else in base64.
pub fn ciphertext_bytes(args: &[String], ciphertext: String) -> (r: Result<Vec<u8>, AwlError>)
    ensures
        told(r) == ciphertext_given(args.deep_view(), ciphertext@),
{
    let encoding = client::text_or(common::option_value(args, "--input-encoding"), "b64");
    decode_bytes(ciphertext, encoding.as_str())
}

/// The record of what was decrypted.
pub open spec fn plaintext_tree(blob: Option<Vec<u8>>, key_id: Option<Seq<char>>) -> JsonTree {
    JsonTree::Object(
        map![
            "plaintext"@ => match blob {
                Some(bytes) => JsonTree::Text(lossy(bytes@)),
                None => JsonTree::Null,
            },
            "key_id"@ => json::optional_text(key_id),
        ],
    )
}

/// What is shown of a plaintext.
pub fn decrypt_row(blob: &Option<Vec<u8>>, key_id: &Option<String>) -> (r: Output)
    ensures
        r@ == Shown::One(plaintext_tree(*blob, key_id.deep_view())),
{
    let mut row = Fields::new();
    row.insert(
        "plaintext",
        match blob {
            Some(bytes) => Json::Text(bytes::lossy_text(bytes.as_slice())),
            None => Json::Null,
        },
    );
    row.insert("key_id", Json::optional_string(key_id));
    Output::One(Json::Object(row))
}

/// What `generate-data-key` asks for.
#[derive(Debug)]
pub struct DataKeyPlan {
    pub key_id: String,
    pub key_spec: String,
}

/// Which data key the arguments ask for.
pub open spec fn data_key_asked(
    args: Seq<Seq<char>>,
    variable: Option<Seq<char>>,
    r: Result<DataKeyPlan, AwlError>,
) -> bool {
    match r {
        Ok(plan) => {
            &&& key_of(args, variable) == Ok::<Seq<char>, Failure>(
                plan.key_id@,
            )
            &&& plan.key_spec@ == client::or_text(
                common::option_of(args, "--spec"@),
                "AES_256"@,
            )
        },
        Err(error) => key_of(args, variable) == Err::<
            Seq<char>,
            Failure,
        >(error@),
    }
}

/// What `generate-data-key` asks for; the value of `AWL_KMS_KEY` is given.
pub fn data_key_plan(args: &[String], variable: Option<String>) -> (r: Result<
    DataKeyPlan,
    AwlError,
>)
    ensures
        data_key_asked(args.deep_view(), variable.deep_view(), r),
{
    match key_id(args, variable) {
        Ok(key) => Ok(
            DataKeyPlan {
                key_id: key,
                key_spec: client::text_or(common::option_value(args, "--spec"), "AES_256"),
            },
        ),
        Err(error) => Err(error),
    }
}

/// Bytes in base64, where there are any.
pub open spec fn blob_tree(blob: Option<Vec<u8>>) -> JsonTree {
    match blob {
        Some(bytes) => JsonTree::Text(base64_text(bytes@)),
        None => JsonTree::Null,
    }
}

/// Bytes in base64, where there are any.
fn blob_json(blob: &Option<Vec<u8>>) -> (r: Json)
    ensures
        r.tree() == blob_tree(*blob),
{
    match blob {
        Some(bytes) => Json::Text(bytes::base64_encode(bytes.as_slice())),
        None => Json::Null,
    }
}

/// The record of a data key.
pub open spec fn data_key_tree(
    key_id: Option<Seq<char>>,
    plaintext: Option<Vec<u8>>,
    ciphertext: Option<Vec<u8>>,
) -> JsonTree {
    JsonTree::Object(
        map![
            "key_id"@ => json::optional_text(key_id),
            "plaintext"@ => blob_tree(plaintext),
            "ciphertext"@ => blob_tree(ciphertext),
        ],
    )
}

/// What is shown of a data key.
pub fn data_key_row(
    key_id: &Option<String>,
    plaintext: &Option<Vec<u8>>,
    ciphertext: &Option<Vec<u8>>,
) -> (r: Output)
    ensures
        r@ == Shown::One(data_key_tree(key_id.deep_view(), *plaintext, *ciphertext)),
{
    let mut row = Fields::new();
    row.insert("key_id", Json::optional_string(key_id));
    row.insert("plaintext", blob_json(plaintext));
    row.insert("ciphertext", blob_json(ciphertext));
    Output::One(Json::Object(row))
}

/// A key as the service lists it.
#[derive(Debug)]
pub struct ListedKey {
    pub key_id: Option<String>,
    pub key_arn: Option<String>,
}

/// The record of a key.
pub open spec fn key_tree(key: ListedKey) -> JsonTree {
    JsonTree::Object(
        map![
            "key_id"@ => json::optional_text(key.key_id.deep_view()),
            "key_arn"@ => json::optional_text(key.key_arn.deep_view()),
        ],
    )
}

/// The records of the keys.
pub open spec fn keys_shown(keys: Seq<ListedKey>) -> Shown {
    Shown::Many(keys.map_values(|key: ListedKey| key_tree(key)))
}

/// What is shown of keys.
pub fn key_rows(keys: &Vec<ListedKey>) -> (r: Output)
    ensures
        r@ == keys_shown(keys@),
{
    let mut rows: Vec<Json> = Vec::new();
    let mut i: usize = 0;
    while i < keys.len()
        invariant
            i <= keys.len(),
            rows@.len() == i,
            forall|j: int| 0 <= j < i ==> (#[trigger] rows@[j]).tree() == key_tree(keys@[j]),
        decreases keys.len() - i,
    {
        let mut row = Fields::new();
        row.insert("key_id", Json::optional_string(&keys[i].key_id));
        row.insert("key_arn", Json::optional_string(&keys[i].key_arn));
        rows.push(Json::Object(row));
        i += 1;
    }
    assert(json::trees(rows@) =~= keys@.map_values(|key: ListedKey| key_tree(key)));
    Output::Many(rows)
}

/// Bytes in hexadecimal have two digits each, the higher half first.
pub proof fn law_hex_has_two_digits_per_byte(bytes: Seq<u8>, i: int)
    requires
        0 <= i < bytes.len(),
    ensures
        hex_text(bytes).len() == 2 * bytes.len(),
        hex_digit(hex_text(bytes)[2 * i]) == Some(bytes[i] as nat / 16),
        hex_digit(hex_text(bytes)[2 * i + 1]) == Some(bytes[i] as nat % 16),
    decreases bytes.len(),
{
    let rest = bytes.drop_last();
    if rest.len() > 0 {
        if i < rest.len() {
            law_hex_has_two_digits_per_byte(rest, i);
        } else {
            law_hex_has_two_digits_per_byte(rest, 0);
        }
    } else {
        assert(hex_text(rest).len() == 0);
    }
}

/// Each encoding is its own: base64, hexadecimal digits, or the text itself; any
/// other is refused as a usage error.
pub proof fn law_encodings_are_as_named(bytes: Seq<u8>, s: Seq<char>, encoding: Seq<char>)
    requires
        encoding != "b64"@,
        encoding != "hex"@,
        encoding != "raw"@,
    ensures
        encoded(bytes, "b64"@) == Ok::<Seq<char>, Failure>(base64_text(bytes)),
        encoded(bytes, "hex"@) == Ok::<Seq<char>, Failure>(hex_text(bytes)),
        encoded(bytes, "raw"@) == Ok::<Seq<char>, Failure>(lossy(bytes)),
        decoded(s, "raw"@) == Ok::<Seq<u8>, Failure>(encode_utf8(s)),
        decoded(s, "hex"@) == hex_bytes(s),
        base64_bytes(s) matches Ok(b) ==> decoded(s, "b64"@) == Ok::<Seq<u8>, Failure>(b),
        base64_bytes(s) is Err ==> decoded(s, "b64"@) matches Err(Failure::Usage(_)),
        encoded(bytes, encoding) matches Err(Failure::Usage(_)),
        decoded(s, encoding) matches Err(Failure::Usage(_)),
{
    reveal_strlit("b64");
    reveal_strlit("hex");
    reveal_strlit("raw");
    assert("b64"@[0] == 'b' && "hex"@[0] == 'h' && "raw"@[0] == 'r');
}

/// Hexadecimal digits of an odd number are refused.
pub proof fn law_odd_hex_is_refused(s: Seq<char>)
    requires
        encode_utf8(s).len() % 2 == 1,
    ensures
        hex_bytes(s) matches Err(Failure::Usage(_)),
{
}

/// The key is the first word, and without one that of the environment; without
/// both there is a usage error.
pub proof fn law_key_is_named(args: Seq<Seq<char>>, variable: Option<Seq<char>>)
    ensures
        common::positionals(args).len() > 0 ==> key_of(args, variable) == Ok::<
            Seq<char>,
            Failure,
        >(common::positionals(args)[0]),
        common::positionals(args).len() == 0 && variable is Some ==> key_of(args, variable) == Ok::<
            Seq<char>,
            Failure,
        >(variable->Some_0),
        common::positionals(args).len() == 0 && variable is None ==> key_of(
            args,
            variable,
        ) matches Err(Failure::Usage(_)),
{
}

/// The row of a key shows its name and its ARN.
pub proof fn law_key_row_shows_it(key: ListedKey)
    ensures
        output::shows(key_tree(key), "key_id"@, output::written_text(key.key_id.deep_view())),
        output::shows(key_tree(key), "key_arn"@, output::written_text(key.key_arn.deep_view())),
{
    reveal_strlit("key_id");
    reveal_strlit("key_arn");
    assert("key_id"@.len() == 6);
    assert("key_arn"@.len() == 7);
    let fields = key_tree(key)->Object_0;
    output::lemma_shows(fields, "key_id"@);
    output::lemma_shows(fields, "key_arn"@);
}

/// The record of an encryption shows the ciphertext.
pub proof fn law_ciphertext_row_shows_it(ciphertext: Option<Seq<char>>)
    ensures
        output::shows(ciphertext_tree(ciphertext), "ciphertext"@, output::written_text(ciphertext)),
{
    reveal_strlit("ciphertext");
    assert("ciphertext"@.len() == 10);
    let fields = ciphertext_tree(ciphertext)->Object_0;
    output::lemma_shows(fields, "ciphertext"@);
}

/// Bytes are shown in base64, and what is missing as nothing.
pub proof fn law_blob_is_shown_in_base64(bytes: Vec<u8>)
    ensures
        output::plain(blob_tree(Some(bytes))) == base64_text(bytes@),
        output::plain(blob_tree(None)).len() == 0,
{
}

/// The key and the text are the first two words; what is decrypted is the first
/// word, under the key of the option; a data key is of the kind of its option.
pub proof fn law_cipher_is_as_asked(
    words: Seq<Seq<char>>,
    value: Seq<char>,
    variable: Option<Seq<char>>,
    e: Result<EncryptPlan, AwlError>,
    d: Result<DecryptPlan, AwlError>,
    k: Result<DataKeyPlan, AwlError>,
)
    requires
        common::are_words(words),
        words.len() > 0,
        !common::is_option(value),
    ensures
        words.len() > 1 && encryption_asked(words, variable, e) ==> (e matches Ok(plan)
            && plan.key_id@ == words[0] && plan.plaintext@ == words[1]),
        words.len() == 1 && encryption_asked(words, variable, e) ==> (e matches Err(error)
            && error@ is Usage),
        decryption_asked(words, d) ==> (d matches Ok(plan) && plan.ciphertext@ == words[0]
            && plan.key_id is None),
        decryption_asked(words.push("--key-id"@).push(value), d) ==> (d matches Ok(plan)
            && plan.ciphertext@ == words[0] && plan.key_id.deep_view() == Some(value)),
        data_key_asked(words, variable, k) ==> (k matches Ok(plan) && plan.key_id@ == words[0]
            && plan.key_spec@ == "AES_256"@),
        data_key_asked(words.push("--spec"@).push(value), variable, k) ==> (k matches Ok(plan)
            && plan.key_id@ == words[0] && plan.key_spec@ == value),
        data_key_asked(Seq::empty(), Some(value), k) ==> (k matches Ok(plan)
            && plan.key_id@ == value),
        data_key_asked(Seq::empty(), None, k) ==> (k matches Err(error) && error@ is Usage),
{
    reveal_strlit("--key-id");
    reveal_strlit("--spec");
    assert("--key-id"@.len() == 8);
    assert("--spec"@.len() == 6);
    common::law_options_take_values();
    common::law_words_give_no_option(words);
    common::law_option_among_words(words, "--key-id"@, value);
    common::law_option_among_words(words, "--spec"@, value);
    common::law_words_give_no_option(Seq::empty());
}

/// The record of a data key shows the key, and both its forms in base64.
pub proof fn law_data_key_row_shows_it(
    key_id: Option<Seq<char>>,
    plaintext: Vec<u8>,
    ciphertext: Vec<u8>,
)
    ensures
        output::shows(
            data_key_tree(key_id, Some(plaintext), Some(ciphertext)),
            "key_id"@,
            output::written_text(key_id),
        ),
        output::shows(
            data_key_tree(key_id, Some(plaintext), Some(ciphertext)),
            "plaintext"@,
            base64_text(plaintext@),
        ),
        output::shows(
            data_key_tree(key_id, Some(plaintext), Some(ciphertext)),
            "ciphertext"@,
            base64_text(ciphertext@),
        ),
{
    reveal_strlit("key_id");
    reveal_strlit("plaintext");
    reveal_strlit("ciphertext");
    assert("key_id"@.len() == 6);
    assert("plaintext"@.len() == 9);
    assert("ciphertext"@.len() == 10);
    let fields = data_key_tree(key_id, Some(plaintext), Some(ciphertext))->Object_0;
    output::lemma_shows(fields, "key_id"@);
    output::lemma_shows(fields, "plaintext"@);
    output::lemma_shows(fields, "ciphertext"@);
}

/// The record of what was decrypted shows it as text.
pub proof fn law_plaintext_row_shows_it(blob: Vec<u8>, key_id: Option<Seq<char>>)
    ensures
        output::shows(plaintext_tree(Some(blob), key_id), "plaintext"@, lossy(blob@)),
        output::shows(plaintext_tree(Some(blob), key_id), "key_id"@, output::written_text(key_id)),
{
    reveal_strlit("plaintext");
    reveal_strlit("key_id");
    assert("plaintext"@.len() == 9);
    assert("key_id"@.len() == 6);
    let fields = plaintext_tree(Some(blob), key_id)->Object_0;
    output::lemma_shows(fields, "plaintext"@);
    output::lemma_shows(fields, "key_id"@);
}

/// A ciphertext is shown in base64, or as the option asks.
pub proof fn law_ciphertext_is_shown_as_asked(
    words: Seq<Seq<char>>,
    value: Seq<char>,
    blob: Vec<u8>,
)
    requires
        common::are_words(words),
        !common::is_option(value),
    ensures
        ciphertext_shown(words, Some(blob)) matches Ok(Shown::One(row))
            && output::shows(row, "ciphertext"@, base64_text(blob@)),
        ciphertext_shown(words.push("--encoding"@).push("hex"@), Some(blob)) matches Ok(Shown::One(row)) && output::shows(row, "ciphertext"@, hex_text(blob@)),
        ciphertext_shown(words.push("--encoding"@).push(value), Some(blob)) is Ok <==> encoded(blob@, value) is Ok,
{
    reveal_strlit("--encoding");
    reveal_strlit("hex");
    reveal_strlit("b64");
    reveal_strlit("--");
    assert("--encoding"@.len() == 10);
    assert("hex"@.len() == 3);
    assert("b64"@.len() == 3);
    assert("--"@.len() == 2);
    assert("hex"@[0] != "b64"@[0]);
    common::law_options_take_values();
    common::law_words_give_no_option(words);
    common::law_option_among_words(words, "--encoding"@, value);
    assert(!common::is_option("hex"@)) by {
        if common::is_option("hex"@) {
            assert("--"@ =~= "hex"@.subrange(0, 2));
            assert("hex"@.subrange(0, 2)[0] == "hex"@[0]);
        }
    }
    common::law_option_among_words(words, "--encoding"@, "hex"@);
    output::lemma_shows(ciphertext_tree(Some(base64_text(blob@)))->Object_0, "ciphertext"@);
    output::lemma_shows(ciphertext_tree(Some(hex_text(blob@)))->Object_0, "ciphertext"@);
}

/// A ciphertext is read in base64, or in the encoding that the option names.
pub proof fn law_ciphertext_is_read_as_asked(
    words: Seq<Seq<char>>,
    value: Seq<char>,
    ciphertext: Seq<char>,
)
    requires
        common::are_words(words),
        !common::is_option(value),
    ensures
        base64_bytes(ciphertext) matches Ok(bytes)
            ==> ciphertext_given(words, ciphertext) == Ok::<Seq<u8>, Failure>(bytes),
        base64_bytes(ciphertext) is Err
            ==> ciphertext_given(words, ciphertext) matches Err(Failure::Usage(_)),
        ciphertext_given(words.push("--input-encoding"@).push(value), ciphertext) == decoded(ciphertext, value),
{
    reveal_strlit("--input-encoding");
    assert("--input-encoding"@.len() == 16);
    common::law_options_take_values();
    common::law_words_give_no_option(words);
    common::law_option_among_words(words, "--input-encoding"@, value);
}

/// There is a record for each of the keys, in order.
pub proof fn law_key_rows_are_all_shown(keys: Seq<ListedKey>, i: int)
    requires
        0 <= i < keys.len(),
    ensures
        keys_shown(keys) matches Shown::Many(rows) && rows.len() == keys.len() && rows[i]
            == key_tree(keys[i]),
{
}

/// An encoding that is not known is named where it is refused.
pub proof fn law_unknown_encoding_is_named(what: Seq<char>, encoding: Seq<char>)
    ensures
        unknown_encoding(what, encoding) matches Failure::Usage(message) && text::find_text(
            message,
            text::quoted(encoding),
        ) is Some,
{
    let head = "unknown "@ + what + " "@;
    text::law_found_first(head, text::quoted(encoding), "; expected b64, hex, or raw"@);
}

} // verus!
