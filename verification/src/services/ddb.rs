//! DynamoDB.
use vstd::prelude::*;

use crate::bytes::{self, base64_bytes, base64_text};
use crate::client;
use crate::error::{told, AwlError, Failure};
use crate::json::{self, Fields, Json, JsonTree};
use crate::output::{self, Output, Shown};
use crate::services::common;
use crate::text;

verus! {

/// The value of an attribute.
#[derive(Debug)]
pub enum AttributeValue {
    S(String),
    N(String),
    Bool(bool),
    Null(bool),
    L(Vec<AttributeValue>),
    M(Vec<(String, AttributeValue)>),
    Ss(Vec<String>),
    Ns(Vec<String>),
    B(Vec<u8>),
    Bs(Vec<Vec<u8>>),
}

/// The meaning of an `AttributeValue`.
pub enum Attr {
    S(Seq<char>),
    N(Seq<char>),
    Bool(bool),
    Null(bool),
    L(Seq<Attr>),
    M(Map<Seq<char>, Attr>),
    Ss(Seq<Seq<char>>),
    Ns(Seq<Seq<char>>),
    B(Seq<u8>),
    Bs(Seq<Seq<u8>>),
}

impl AttributeValue {
    /// The meaning of a value.
    pub open spec fn attr(self) -> Attr
        decreases self,
    {
        match self {
            AttributeValue::S(s) => Attr::S(s@),
            AttributeValue::N(s) => Attr::N(s@),
            AttributeValue::Bool(b) => Attr::Bool(b),
            AttributeValue::Null(b) => Attr::Null(b),
            AttributeValue::L(values) => Attr::L(
                Seq::new(
                    values@.len(),
                    |i: int|
                        if 0 <= i < values@.len() {
                            values@[i].attr()
                        } else {
                            Attr::Null(true)
                        },
                ),
            ),
            AttributeValue::M(entries) => Attr::M(item_of(entries@)),
            AttributeValue::Ss(values) => Attr::Ss(values.deep_view()),
            AttributeValue::Ns(values) => Attr::Ns(values.deep_view()),
            AttributeValue::B(bytes) => Attr::B(bytes@),
            AttributeValue::Bs(values) => Attr::Bs(values.deep_view()),
        }
    }
}

/// The attributes that a list of entries gives: of two with one name the later.
pub open spec fn item_of(entries: Seq<(String, AttributeValue)>) -> Map<Seq<char>, Attr>
    decreases entries,
{
    if entries.len() == 0 {
        Map::empty()
    } else {
        item_of(entries.drop_last()).insert(entries.last().0@, entries.last().1.attr())
    }
}

/// What values mean, one by one.
pub open spec fn attrs(values: Seq<AttributeValue>) -> Seq<Attr> {
    Seq::new(values.len(), |i: int| values[i].attr())
}

/// What is said of a value of the wrong kind.
pub open spec fn wrong_kind(name: Seq<char>, wanted: Seq<char>) -> Failure {
    Failure::Usage("DynamoDB "@ + name + " value must be "@ + wanted)
}

/// The text in a value.
pub open spec fn string_in(tree: JsonTree, name: Seq<char>) -> Result<Seq<char>, Failure> {
    match tree {
        JsonTree::Text(s) => Ok(s),
        _ => Err(wrong_kind(name, "a string"@)),
    }
}

/// The truth value in a value.
pub open spec fn bool_in(tree: JsonTree, name: Seq<char>) -> Result<bool, Failure> {
    match tree {
        JsonTree::Bool(b) => Ok(b),
        _ => Err(wrong_kind(name, "a bool"@)),
    }
}

/// The texts in values; the first that is none decides.
pub open spec fn strings_in(trees: Seq<JsonTree>, name: Seq<char>) -> Result<
    Seq<Seq<char>>,
    Failure,
>
    decreases trees.len(),
{
    if trees.len() == 0 {
        Ok(Seq::empty())
    } else {
        match strings_in(trees.drop_last(), name) {
            Err(failure) => Err(failure),
            Ok(before) => match string_in(trees.last(), name) {
                Err(failure) => Err(failure),
                Ok(s) => Ok(before.push(s)),
            },
        }
    }
}

/// The texts in a value that is a list of texts.
pub open spec fn string_array_in(tree: JsonTree, name: Seq<char>) -> Result<
    Seq<Seq<char>>,
    Failure,
> {
    match tree {
        JsonTree::Array(trees) => strings_in(trees, name),
        _ => Err(wrong_kind(name, "an array of strings"@)),
    }
}

/// The bytes that a base64 text writes.
pub open spec fn decoded(s: Seq<char>) -> Result<Seq<u8>, Failure> {
    match base64_bytes(s) {
        Ok(bytes) => Ok(bytes),
        Err(message) => Err(Failure::Usage("invalid base64 value: "@ + message)),
    }
}

/// The bytes that base64 texts write; the first that writes none decides.
pub open spec fn all_decoded(texts: Seq<Seq<char>>) -> Result<Seq<Seq<u8>>, Failure>
    decreases texts.len(),
{
    if texts.len() == 0 {
        Ok(Seq::empty())
    } else {
        match all_decoded(texts.drop_last()) {
            Err(failure) => Err(failure),
            Ok(before) => match decoded(texts.last()) {
                Err(failure) => Err(failure),
                Ok(bytes) => Ok(before.push(bytes)),
            },
        }
    }
}

/// The attribute value that a JSON value writes. An object with one field whose
/// name is a type's writes a value of that type.
pub open spec fn attr_of(tree: JsonTree) -> Result<Attr, Failure>
    decreases tree, 0nat,
{
    match tree {
        JsonTree::Null => Ok(Attr::Null(true)),
        JsonTree::Bool(b) => Ok(Attr::Bool(b)),
        JsonTree::Number(s) => Ok(Attr::N(s)),
        JsonTree::Text(s) => Ok(Attr::S(s)),
        JsonTree::Array(values) => match list_of(values) {
            Ok(list) => Ok(Attr::L(list)),
            Err(failure) => Err(failure),
        },
        JsonTree::Object(fields) => {
            let names = json::ordered(fields.dom());
            if names.len() == 1 && fields.dom().finite() && fields.contains_key(names[0]) {
                typed_of(names[0], fields[names[0]])
            } else {
                match fields_of(fields, names) {
                    Ok(item) => Ok(Attr::M(item)),
                    Err(failure) => Err(failure),
                }
            }
        },
    }
}

/// The attribute values that a list writes; the first that writes none decides.
pub open spec fn list_of(values: Seq<JsonTree>) -> Result<Seq<Attr>, Failure>
    decreases values, values.len(),
{
    if values.len() == 0 {
        Ok(Seq::empty())
    } else {
        match list_of(values.drop_last()) {
            Err(failure) => Err(failure),
            Ok(before) => match attr_of(values.last()) {
                Err(failure) => Err(failure),
                Ok(attr) => Ok(before.push(attr)),
            },
        }
    }
}

/// The attributes that the fields with these names write; the first that writes
/// none decides.
pub open spec fn fields_of(fields: Map<Seq<char>, JsonTree>, names: Seq<Seq<char>>) -> Result<
    Map<Seq<char>, Attr>,
    Failure,
>
    decreases fields, names.len(),
{
    if names.len() == 0 {
        Ok(Map::empty())
    } else {
        match fields_of(fields, names.drop_last()) {
            Err(failure) => Err(failure),
            Ok(before) => if fields.dom().finite() && fields.contains_key(names.last()) {
                match attr_of(fields[names.last()]) {
                    Err(failure) => Err(failure),
                    Ok(attr) => Ok(before.insert(names.last(), attr)),
                }
            } else {
                Ok(before)
            },
        }
    }
}

/// The attribute value that an object with one field writes.
pub open spec fn typed_of(name: Seq<char>, tree: JsonTree) -> Result<Attr, Failure>
    decreases tree, 1nat,
{
    if name == "S"@ {
        match string_in(tree, "S"@) {
            Ok(s) => Ok(Attr::S(s)),
            Err(failure) => Err(failure),
        }
    } else if name == "N"@ {
        match tree {
            JsonTree::Number(s) => Ok(Attr::N(s)),
            _ => match string_in(tree, "N"@) {
                Ok(s) => Ok(Attr::N(s)),
                Err(failure) => Err(failure),
            },
        }
    } else if name == "BOOL"@ {
        match bool_in(tree, "BOOL"@) {
            Ok(b) => Ok(Attr::Bool(b)),
            Err(failure) => Err(failure),
        }
    } else if name == "NULL"@ {
        match bool_in(tree, "NULL"@) {
            Ok(b) => Ok(Attr::Null(b)),
            Err(failure) => Err(failure),
        }
    } else if name == "SS"@ {
        match string_array_in(tree, "SS"@) {
            Ok(values) => Ok(Attr::Ss(values)),
            Err(failure) => Err(failure),
        }
    } else if name == "NS"@ {
        match string_array_in(tree, "NS"@) {
            Ok(values) => Ok(Attr::Ns(values)),
            Err(failure) => Err(failure),
        }
    } else if name == "B"@ {
        match string_in(tree, "B"@) {
            Err(failure) => Err(failure),
            Ok(s) => match decoded(s) {
                Ok(bytes) => Ok(Attr::B(bytes)),
                Err(failure) => Err(failure),
            },
        }
    } else if name == "BS"@ {
        match string_array_in(tree, "BS"@) {
            Err(failure) => Err(failure),
            Ok(texts) => match all_decoded(texts) {
                Ok(values) => Ok(Attr::Bs(values)),
                Err(failure) => Err(failure),
            },
        }
    } else if name == "L"@ {
        match tree {
            JsonTree::Array(values) => match list_of(values) {
                Ok(list) => Ok(Attr::L(list)),
                Err(failure) => Err(failure),
            },
            _ => Err(wrong_kind("L"@, "an array"@)),
        }
    } else if name == "M"@ {
        match tree {
            JsonTree::Object(fields) => match fields_of(fields, json::ordered(fields.dom())) {
                Ok(item) => Ok(Attr::M(item)),
                Err(failure) => Err(failure),
            },
            _ => Err(wrong_kind("M"@, "an object"@)),
        }
    } else {
        match attr_of(tree) {
            Ok(attr) => Ok(Attr::M(map![name => attr])),
            Err(failure) => Err(failure),
        }
    }
}

/// The item that a JSON text writes: an object, whose every field is an attribute.
pub open spec fn item_in(s: Seq<char>) -> Result<Map<Seq<char>, Attr>, Failure> {
    match json::json_parsed(s) {
        Err(message) => Err(Failure::Json(message)),
        Ok(JsonTree::Object(fields)) => fields_of(fields, json::ordered(fields.dom())),
        Ok(_) => Err(Failure::Usage("expected a JSON object"@)),
    }
}

/// The value that the text of a number writes in JSON, or else the text. A whole
/// number that an `i64` or a `u64` holds writes itself.
pub open spec fn number_tree(s: Seq<char>) -> JsonTree {
    if json::whole_text(s) {
        JsonTree::Number(s)
    } else {
        match json::json_parsed(s) {
            Ok(tree) => tree,
            Err(_) => JsonTree::Text(s),
        }
    }
}

/// The JSON value of an attribute value.
pub open spec fn tree_of(attr: Attr) -> JsonTree
    decreases attr,
{
    match attr {
        Attr::S(s) => JsonTree::Text(s),
        Attr::N(s) => number_tree(s),
        Attr::Bool(b) => JsonTree::Bool(b),
        Attr::Null(_) => JsonTree::Null,
        Attr::L(values) => JsonTree::Array(
            Seq::new(
                values.len(),
                |i: int|
                    if 0 <= i < values.len() {
                        tree_of(values[i])
                    } else {
                        JsonTree::Null
                    },
            ),
        ),
        Attr::M(item) => JsonTree::Object(
            Map::new(
                |name: Seq<char>| item.contains_key(name),
                |name: Seq<char>|
                    if item.dom().finite() && item.contains_key(name) {
                        tree_of(item[name])
                    } else {
                        JsonTree::Null
                    },
            ),
        ),
        Attr::Ss(values) => json::texts(values),
        Attr::Ns(values) => JsonTree::Array(values.map_values(|s: Seq<char>| number_tree(s))),
        Attr::B(bytes) => JsonTree::Text(base64_text(bytes)),
        Attr::Bs(values) => JsonTree::Array(
            values.map_values(|b: Seq<u8>| JsonTree::Text(base64_text(b))),
        ),
    }
}

/// The JSON object of an item.
pub open spec fn item_tree(item: Map<Seq<char>, Attr>) -> JsonTree {
    tree_of(Attr::M(item))
}

/// The text in a value.
pub fn require_string(value: &Json, name: &str) -> (r: Result<String, AwlError>)
    ensures
        told(r) == string_in(value.tree(), name@),
{
    match value {
        Json::Text(s) => Ok(s.clone()),
        _ => Err(unfit(name, "a string")),
    }
}

/// What is said of a value of the wrong kind.
fn unfit(name: &str, wanted: &str) -> (r: AwlError)
    ensures
        r@ == wrong_kind(name@, wanted@),
{
    AwlError::usage(
        "DynamoDB ".to_owned().concat(name).concat(" value must be ").concat(wanted).as_str(),
    )
}

/// The truth value in a value.
pub fn require_bool(value: &Json, name: &str) -> (r: Result<bool, AwlError>)
    ensures
        match r {
            Ok(b) => bool_in(value.tree(), name@) == Ok::<bool, Failure>(b),
            Err(error) => bool_in(value.tree(), name@) == Err::<bool, Failure>(error@),
        },
{
    match value {
        Json::Bool(b) => Ok(*b),
        _ => Err(unfit(name, "a bool")),
    }
}

/// The texts in a value that is a list of texts.
pub fn require_string_array(value: &Json, name: &str) -> (r: Result<Vec<String>, AwlError>)
    ensures
        match r {
            Ok(texts) => string_array_in(value.tree(), name@) == Ok::<Seq<Seq<char>>, Failure>(
                texts.deep_view(),
            ),
            Err(error) => string_array_in(value.tree(), name@) == Err::<Seq<Seq<char>>, Failure>(
                error@,
            ),
        },
{
    match value {
        Json::Array(values) => {
            proof {
                Json::lemma_array(*values);
            }
            let ghost all = json::trees(values@);
            let mut out: Vec<String> = Vec::new();
            let mut i: usize = 0;
            assert(all.take(0) =~= Seq::empty());
            assert(out.deep_view() =~= Seq::empty());
            while i < values.len()
                invariant
                    all == json::trees(values@),
                    value.tree() == JsonTree::Array(all),
                    i <= values.len(),
                    strings_in(all.take(i as int), name@) == Ok::<Seq<Seq<char>>, Failure>(
                        out.deep_view(),
                    ),
                decreases values.len() - i,
            {
                let ghost before = out.deep_view();
                assert(all.take(i + 1).drop_last() =~= all.take(i as int));
                assert(all.take(i + 1).last() == values@[i as int].tree());
                match require_string(&values[i], name) {
                    Ok(s) => {
                        out.push(s);
                        assert(out.deep_view() =~= before.push(s@));
                    },
                    Err(error) => {
                        proof {
                            lemma_strings_fail(all, i + 1, name@);
                        }
                        return Err(error);
                    },
                }
                i += 1;
            }
            assert(all.take(i as int) =~= all);
            Ok(out)
        },
        _ => Err(unfit(name, "an array of strings")),
    }
}

/// A failure among the first texts is the failure of the list.
proof fn lemma_strings_fail(trees: Seq<JsonTree>, n: int, name: Seq<char>)
    requires
        0 <= n <= trees.len(),
        strings_in(trees.take(n), name) is Err,
    ensures
        strings_in(trees, name) == strings_in(trees.take(n), name),
    decreases trees.len(),
{
    if n < trees.len() {
        assert(trees.drop_last().take(n) =~= trees.take(n));
        lemma_strings_fail(trees.drop_last(), n, name);
    } else {
        assert(trees.take(n) =~= trees);
    }
}

/// The bytes that a base64 text writes.
pub fn decode_base64(value: &str) -> (r: Result<Vec<u8>, AwlError>)
    ensures
        told(r) == decoded(value@),
{
    match bytes::base64_decode(value) {
        Ok(bytes) => Ok(bytes),
        Err(message) => Err(
            AwlError::usage("invalid base64 value: ".to_owned().concat(message.as_str()).as_str()),
        ),
    }
}

/// The bytes that base64 texts write.
fn decode_all(texts: &Vec<String>) -> (r: Result<Vec<Vec<u8>>, AwlError>)
    ensures
        match r {
            Ok(values) => all_decoded(texts.deep_view()) == Ok::<Seq<Seq<u8>>, Failure>(
                values.deep_view(),
            ),
            Err(error) => all_decoded(texts.deep_view()) == Err::<Seq<Seq<u8>>, Failure>(error@),
        },
{
    let ghost all = texts.deep_view();
    let mut out: Vec<Vec<u8>> = Vec::new();
    let mut i: usize = 0;
    assert(all.take(0) =~= Seq::empty());
    assert(out.deep_view() =~= Seq::empty());
    while i < texts.len()
        invariant
            all == texts.deep_view(),
            i <= texts.len(),
            all_decoded(all.take(i as int)) == Ok::<Seq<Seq<u8>>, Failure>(out.deep_view()),
        decreases texts.len() - i,
    {
        let ghost before = out.deep_view();
        assert(all.take(i + 1).drop_last() =~= all.take(i as int));
        match decode_base64(texts[i].as_str()) {
            Ok(bytes) => {
                out.push(bytes);
                assert(bytes.deep_view() =~= bytes@);
                assert(out.deep_view() =~= before.push(bytes@));
            },
            Err(error) => {
                proof {
                    lemma_decoded_fail(all, i + 1);
                }
                return Err(error);
            },
        }
        i += 1;
    }
    assert(all.take(i as int) =~= all);
    Ok(out)
}

/// A failure among the first texts is the failure of the list.
proof fn lemma_decoded_fail(texts: Seq<Seq<char>>, n: int)
    requires
        0 <= n <= texts.len(),
        all_decoded(texts.take(n)) is Err,
    ensures
        all_decoded(texts) == all_decoded(texts.take(n)),
    decreases texts.len(),
{
    if n < texts.len() {
        assert(texts.drop_last().take(n) =~= texts.take(n));
        lemma_decoded_fail(texts.drop_last(), n);
    } else {
        assert(texts.take(n) =~= texts);
    }
}

/// What a conversion gave: a value's meaning or a failure.
pub open spec fn converted(r: Result<AttributeValue, AwlError>) -> Result<Attr, Failure> {
    match r {
        Ok(value) => Ok(value.attr()),
        Err(error) => Err(error@),
    }
}

/// What a conversion gave: the meaning of a list of values or a failure.
pub open spec fn converted_list(r: Result<Vec<AttributeValue>, AwlError>) -> Result<
    Seq<Attr>,
    Failure,
> {
    match r {
        Ok(values) => Ok(attrs(values@)),
        Err(error) => Err(error@),
    }
}

/// What a conversion gave: the meaning of an item or a failure.
pub open spec fn converted_item(r: Result<Vec<(String, AttributeValue)>, AwlError>) -> Result<
    Map<Seq<char>, Attr>,
    Failure,
> {
    match r {
        Ok(entries) => Ok(item_of(entries@)),
        Err(error) => Err(error@),
    }
}

/// A list of values, from its conversion.
fn list_value(r: Result<Vec<AttributeValue>, AwlError>) -> (v: Result<AttributeValue, AwlError>)
    ensures
        converted(v) == (match converted_list(r) {
            Ok(list) => Ok(Attr::L(list)),
            Err(failure) => Err(failure),
        }),
{
    match r {
        Ok(values) => {
            let v = AttributeValue::L(values);
            assert(v.attr()->L_0 =~= attrs(values@));
            Ok(v)
        },
        Err(error) => Err(error),
    }
}

/// An item as a value, from its conversion.
fn item_value(r: Result<Vec<(String, AttributeValue)>, AwlError>) -> (v: Result<
    AttributeValue,
    AwlError,
>)
    ensures
        converted(v) == (match converted_item(r) {
            Ok(item) => Ok(Attr::M(item)),
            Err(failure) => Err(failure),
        }),
{
    match r {
        Ok(entries) => Ok(AttributeValue::M(entries)),
        Err(error) => Err(error),
    }
}

/// The attribute value that a JSON value writes.
pub fn json_to_attr(value: &Json) -> (r: Result<AttributeValue, AwlError>)
    ensures
        converted(r) == attr_of(value.tree()),
    decreases value, 0nat,
{
    match value {
        Json::Null => Ok(AttributeValue::Null(true)),
        Json::Bool(b) => Ok(AttributeValue::Bool(*b)),
        Json::Number(n) => Ok(AttributeValue::N(json::number_string(n))),
        Json::Text(s) => Ok(AttributeValue::S(s.clone())),
        Json::Array(values) => {
            proof {
                Json::lemma_array(*values);
            }
            list_value(list_to_attrs(values))
        },
        Json::Object(fields) => {
            let count = fields.len();
            proof {
                fields.lemma_finite();
            }
            if count == 1 {
                let (name, inner) = fields.entry(0);
                return typed_attr(name, inner);
            }
            item_value(fields_to_attrs(fields))
        },
    }
}

/// The attribute values that a list writes.
fn list_to_attrs(values: &Vec<Json>) -> (r: Result<Vec<AttributeValue>, AwlError>)
    ensures
        converted_list(r) == list_of(json::trees(values@)),
    decreases values, 0nat,
{
    let ghost all = json::trees(values@);
    let mut out: Vec<AttributeValue> = Vec::new();
    let mut i: usize = 0;
    assert(all.take(0) =~= Seq::empty());
    assert(attrs(out@) =~= Seq::empty());
    while i < values.len()
        invariant
            all == json::trees(values@),
            i <= values.len(),
            list_of(all.take(i as int)) == Ok::<Seq<Attr>, Failure>(attrs(out@)),
        decreases values.len() - i,
    {
        let ghost before = out@;
        assert(all.take(i + 1).drop_last() =~= all.take(i as int));
        assert(all.take(i + 1).last() == values@[i as int].tree());
        assert(decreases_to!(values => values@));
        match json_to_attr(&values[i]) {
            Ok(value) => {
                out.push(value);
                assert(attrs(out@) =~= attrs(before).push(value.attr()));
            },
            Err(error) => {
                proof {
                    lemma_list_fails(all, i + 1);
                }
                return Err(error);
            },
        }
        i += 1;
    }
    assert(all.take(i as int) =~= all);
    Ok(out)
}

/// A failure among the first values is the failure of the list.
proof fn lemma_list_fails(values: Seq<JsonTree>, n: int)
    requires
        0 <= n <= values.len(),
        list_of(values.take(n)) is Err,
    ensures
        list_of(values) == list_of(values.take(n)),
    decreases values.len(),
{
    if n < values.len() {
        assert(values.drop_last().take(n) =~= values.take(n));
        lemma_list_fails(values.drop_last(), n);
    } else {
        assert(values.take(n) =~= values);
    }
}

/// The attributes that the fields of an object write.
fn fields_to_attrs(fields: &Fields) -> (r: Result<Vec<(String, AttributeValue)>, AwlError>)
    ensures
        converted_item(r) == fields_of(fields.contents(), fields.names()),
    decreases fields, 0nat,
{
    let ghost names = fields.names();
    let count = fields.len();
    proof {
        fields.lemma_finite();
    }
    let mut out: Vec<(String, AttributeValue)> = Vec::new();
    let mut i: usize = 0;
    assert(names.take(0) =~= Seq::empty());
    while i < count
        invariant
            names == fields.names(),
            count == names.len(),
            fields.contents().dom().finite(),
            i <= count,
            fields_of(fields.contents(), names.take(i as int)) == Ok::<
                Map<Seq<char>, Attr>,
                Failure,
            >(item_of(out@)),
        decreases count - i,
    {
        let ghost before = out@;
        assert(names.take(i + 1).drop_last() =~= names.take(i as int));
        let (name, inner) = fields.entry(i);
        match json_to_attr(inner) {
            Ok(value) => {
                out.push((name.to_owned(), value));
                assert(out@.drop_last() =~= before);
            },
            Err(error) => {
                proof {
                    lemma_fields_fail(fields.contents(), names, i + 1);
                }
                return Err(error);
            },
        }
        i += 1;
    }
    assert(names.take(i as int) =~= names);
    Ok(out)
}

/// A failure among the first fields is the failure of the object.
proof fn lemma_fields_fail(fields: Map<Seq<char>, JsonTree>, names: Seq<Seq<char>>, n: int)
    requires
        0 <= n <= names.len(),
        fields_of(fields, names.take(n)) is Err,
    ensures
        fields_of(fields, names) == fields_of(fields, names.take(n)),
    decreases names.len(),
{
    if n < names.len() {
        assert(names.drop_last().take(n) =~= names.take(n));
        lemma_fields_fail(fields, names.drop_last(), n);
    } else {
        assert(names.take(n) =~= names);
    }
}

/// The attribute value that an object with one field writes.
pub fn typed_attr(name: &str, value: &Json) -> (r: Result<AttributeValue, AwlError>)
    ensures
        converted(r) == typed_of(name@, value.tree()),
    decreases value, 1nat,
{
    if text::same(name, "S") {
        match require_string(value, "S") {
            Ok(s) => Ok(AttributeValue::S(s)),
            Err(error) => Err(error),
        }
    } else if text::same(name, "N") {
        match value {
            Json::Number(n) => Ok(AttributeValue::N(json::number_string(n))),
            _ => match require_string(value, "N") {
                Ok(s) => Ok(AttributeValue::N(s)),
                Err(error) => Err(error),
            },
        }
    } else if text::same(name, "BOOL") {
        match require_bool(value, "BOOL") {
            Ok(b) => Ok(AttributeValue::Bool(b)),
            Err(error) => Err(error),
        }
    } else if text::same(name, "NULL") {
        match require_bool(value, "NULL") {
            Ok(b) => Ok(AttributeValue::Null(b)),
            Err(error) => Err(error),
        }
    } else if text::same(name, "SS") {
        match require_string_array(value, "SS") {
            Ok(values) => Ok(AttributeValue::Ss(values)),
            Err(error) => Err(error),
        }
    } else if text::same(name, "NS") {
        match require_string_array(value, "NS") {
            Ok(values) => Ok(AttributeValue::Ns(values)),
            Err(error) => Err(error),
        }
    } else if text::same(name, "B") {
        match require_string(value, "B") {
            Err(error) => Err(error),
            Ok(s) => match decode_base64(s.as_str()) {
                Ok(bytes) => Ok(AttributeValue::B(bytes)),
                Err(error) => Err(error),
            },
        }
    } else if text::same(name, "BS") {
        match require_string_array(value, "BS") {
            Err(error) => Err(error),
            Ok(texts) => match decode_all(&texts) {
                Ok(values) => Ok(AttributeValue::Bs(values)),
                Err(error) => Err(error),
            },
        }
    } else if text::same(name, "L") {
        match value {
            Json::Array(values) => {
                proof {
                    Json::lemma_array(*values);
                }
                list_value(list_to_attrs(values))
            },
            _ => Err(unfit("L", "an array")),
        }
    } else if text::same(name, "M") {
        match value {
            Json::Object(fields) => item_value(fields_to_attrs(fields)),
            _ => Err(unfit("M", "an object")),
        }
    } else {
        match json_to_attr(value) {
            Ok(inner) => {
                let mut entries: Vec<(String, AttributeValue)> = Vec::new();
                entries.push((name.to_owned(), inner));
                assert(entries@.drop_last().len() == 0);
                assert(item_of(entries@.drop_last()) =~= Map::empty());
                assert(item_of(entries@) =~= map![name@ => inner.attr()]);
                Ok(AttributeValue::M(entries))
            },
            Err(error) => Err(error),
        }
    }
}

/// The item that a JSON text writes.
pub fn parse_item_json(value: &str) -> (r: Result<Vec<(String, AttributeValue)>, AwlError>)
    ensures
        converted_item(r) == item_in(value@),
{
    match json::parse(value) {
        Err(message) => Err(AwlError::Json(message)),
        Ok(Json::Object(fields)) => fields_to_attrs(&fields),
        Ok(_) => Err(AwlError::usage("expected a JSON object")),
    }
}

/// The value that the text of a number writes in JSON, or else the text.
fn number_json(s: &String) -> (r: Json)
    ensures
        r.tree() == number_tree(s@),
{
    match json::parse(s.as_str()) {
        Ok(value) => value,
        Err(_) => Json::Text(s.clone()),
    }
}

/// The JSON value of an attribute value.
pub fn attr_to_json(value: &AttributeValue) -> (r: Json)
    ensures
        r.tree() == tree_of(value.attr()),
    decreases value, 1nat,
{
    match value {
        AttributeValue::S(s) => Json::Text(s.clone()),
        AttributeValue::N(s) => number_json(s),
        AttributeValue::Bool(b) => Json::Bool(*b),
        AttributeValue::Null(_) => Json::Null,
        AttributeValue::L(values) => {
            let parts = attrs_to_json(values);
            let r = Json::Array(parts);
            assert(r.tree()->Array_0 =~= tree_of(value.attr())->Array_0);
            r
        },
        AttributeValue::M(entries) => item_to_json(entries),
        AttributeValue::Ss(values) => Json::texts(values),
        AttributeValue::Ns(values) => {
            let mut parts: Vec<Json> = Vec::new();
            let mut i: usize = 0;
            while i < values.len()
                invariant
                    i <= values.len(),
                    parts@.len() == i,
                    forall|j: int|
                        0 <= j < i ==> (#[trigger] parts@[j]).tree() == number_tree(values@[j]@),
                decreases values.len() - i,
            {
                parts.push(number_json(&values[i]));
                i += 1;
            }
            let r = Json::Array(parts);
            assert(r.tree()->Array_0 =~= tree_of(value.attr())->Array_0);
            r
        },
        AttributeValue::B(b) => Json::Text(bytes::base64_encode(b.as_slice())),
        AttributeValue::Bs(values) => {
            let mut parts: Vec<Json> = Vec::new();
            let mut i: usize = 0;
            while i < values.len()
                invariant
                    i <= values.len(),
                    parts@.len() == i,
                    forall|j: int|
                        0 <= j < i ==> (#[trigger] parts@[j]).tree() == JsonTree::Text(
                            base64_text(values@[j]@),
                        ),
                decreases values.len() - i,
            {
                parts.push(Json::Text(bytes::base64_encode(values[i].as_slice())));
                i += 1;
            }
            let r = Json::Array(parts);
            assert forall|j: int| 0 <= j < values@.len() implies values.deep_view()[j]
                == values@[j]@ by {
                assert(values@[j].deep_view() =~= values@[j]@);
            }
            assert(r.tree()->Array_0 =~= tree_of(value.attr())->Array_0);
            r
        },
    }
}

/// The JSON values of attribute values.
fn attrs_to_json(values: &Vec<AttributeValue>) -> (r: Vec<Json>)
    ensures
        r@.len() == values@.len(),
        forall|j: int| 0 <= j < r@.len()
            ==> (#[trigger] r@[j]).tree() == tree_of(values@[j].attr()),
    decreases values, 0nat,
{
    let mut parts: Vec<Json> = Vec::new();
    let mut i: usize = 0;
    while i < values.len()
        invariant
            i <= values.len(),
            parts@.len() == i,
            forall|j: int|
                0 <= j < i ==> (#[trigger] parts@[j]).tree() == tree_of(values@[j].attr()),
        decreases values.len() - i,
    {
        assert(decreases_to!(values => values@));
        parts.push(attr_to_json(&values[i]));
        i += 1;
    }
    parts
}

/// The JSON object of an item.
pub fn item_to_json(entries: &Vec<(String, AttributeValue)>) -> (r: Json)
    ensures
        r.tree() == item_tree(item_of(entries@)),
    decreases entries, 0nat,
{
    let mut fields = Fields::new();
    let mut i: usize = 0;
    assert(entries@.take(0) =~= Seq::empty());
    proof {
        lemma_item_finite(entries@.take(0));
        assert(fields.contents() =~= item_tree(item_of(entries@.take(0)))->Object_0);
    }
    while i < entries.len()
        invariant
            i <= entries.len(),
            JsonTree::Object(fields.contents()) == item_tree(item_of(entries@.take(i as int))),
        decreases entries.len() - i,
    {
        assert(decreases_to!(entries => entries@));
        assert(decreases_to!(entries@ => entries@[i as int]));
        let ghost before = item_of(entries@.take(i as int));
        let inner = attr_to_json(&entries[i].1);
        fields.insert(entries[i].0.as_str(), inner);
        proof {
            assert(entries@.take(i + 1).drop_last() =~= entries@.take(i as int));
            lemma_item_finite(entries@.take(i as int));
            lemma_item_finite(entries@.take(i + 1));
            let after = item_of(entries@.take(i + 1));
            assert(after == before.insert(entries@[i as int].0@, entries@[i as int].1.attr()));
            assert(fields.contents() =~= item_tree(after)->Object_0);
        }
        i += 1;
    }
    assert(entries@.take(i as int) =~= entries@);
    Json::Object(fields)
}

/// An item has finitely many attributes.
proof fn lemma_item_finite(entries: Seq<(String, AttributeValue)>)
    ensures
        item_of(entries).dom().finite(),
    decreases entries.len(),
{
    if entries.len() > 0 {
        lemma_item_finite(entries.drop_last());
    }
}

/// A name by which an object with one field writes a value of a type.
pub open spec fn names_a_type(name: Seq<char>) -> bool {
    ||| name == "S"@
    ||| name == "N"@
    ||| name == "BOOL"@
    ||| name == "NULL"@
    ||| name == "SS"@
    ||| name == "NS"@
    ||| name == "B"@
    ||| name == "BS"@
    ||| name == "L"@
    ||| name == "M"@
}

/// A JSON value that names no types: no object in it has a type's name as its
/// only field. Its numbers are the whole numbers that an `i64` or a `u64` holds,
/// and those whose text is read as themselves.
pub open spec fn untyped(tree: JsonTree) -> bool
    decreases tree,
{
    match tree {
        JsonTree::Number(s) => json::whole_text(s) || json::json_parsed(s) == Ok::<
            JsonTree,
            Seq<char>,
        >(JsonTree::Number(s)),
        JsonTree::Array(values) => forall|i: int|
            0 <= i < values.len() ==> untyped(#[trigger] values[i]),
        JsonTree::Object(fields) => {
            let names = json::ordered(fields.dom());
            &&& fields.dom().finite()
            &&& names.len() == 1 ==> !names_a_type(names[0])
            &&& forall|name: Seq<char>|
                fields.dom().finite() && fields.contains_key(name) ==> untyped(
                    #[trigger] fields[name],
                )
        },
        _ => true,
    }
}

/// A JSON value that names no types is shown as it was written: it is converted
/// to an attribute value, and that to the same JSON value.
pub proof fn law_untyped_round_trip(tree: JsonTree)
    requires
        untyped(tree),
    ensures
        attr_of(tree) is Ok,
        tree_of(attr_of(tree)->Ok_0) == tree,
    decreases tree, 0nat,
{
    match tree {
        JsonTree::Array(values) => {
            lemma_list_round_trip(values);
            let list = list_of(values)->Ok_0;
            assert(tree_of(Attr::L(list))->Array_0 =~= values);
        },
        JsonTree::Object(fields) => {
            let names = json::ordered(fields.dom());
            json::lemma_ordered_finite(fields.dom());
            if names.len() == 1 {
                let name = names[0];
                assert(names.to_set().contains(name));
                assert(untyped(fields[name]));
                law_untyped_round_trip(fields[name]);
                let attr = attr_of(fields[name])->Ok_0;
                let item = map![name => attr];
                assert(item.dom().finite());
                assert forall|k: Seq<char>| fields.contains_key(k) implies k == name by {
                    assert(names.to_set().contains(k));
                }
                assert(tree_of(Attr::M(item))->Object_0 =~= fields);
            } else {
                lemma_fields_round_trip(fields, names);
                let item = fields_of(fields, names)->Ok_0;
                assert(tree_of(Attr::M(item))->Object_0 =~= fields);
            }
        },
        _ => {},
    }
}

proof fn lemma_list_round_trip(values: Seq<JsonTree>)
    requires
        forall|i: int| 0 <= i < values.len() ==> untyped(#[trigger] values[i]),
    ensures
        list_of(values) is Ok,
        list_of(values)->Ok_0.len() == values.len(),
        forall|i: int|
            0 <= i < values.len() ==> tree_of(#[trigger] list_of(values)->Ok_0[i]) == values[i],
    decreases values, values.len(),
{
    if values.len() > 0 {
        let rest = values.drop_last();
        assert forall|i: int| 0 <= i < rest.len() implies untyped(#[trigger] rest[i]) by {
            assert(untyped(values[i]));
        }
        lemma_list_round_trip(rest);
        assert(untyped(values[values.len() - 1]));
        law_untyped_round_trip(values.last());
        let before = list_of(rest)->Ok_0;
        let list = list_of(values)->Ok_0;
        assert forall|i: int| 0 <= i < values.len() implies tree_of(#[trigger] list[i])
            == values[i] by {
            if i < rest.len() {
                assert(list[i] == before[i]);
                assert(tree_of(before[i]) == rest[i]);
            }
        }
    }
}

proof fn lemma_fields_round_trip(fields: Map<Seq<char>, JsonTree>, names: Seq<Seq<char>>)
    requires
        fields.dom().finite(),
        forall|name: Seq<char>|
            fields.dom().finite() && fields.contains_key(name) ==> untyped(#[trigger] fields[name]),
        forall|i: int| 0 <= i < names.len() ==> fields.contains_key(#[trigger] names[i]),
    ensures
        fields_of(fields, names) is Ok,
        fields_of(fields, names)->Ok_0.dom() =~= names.to_set(),
        forall|name: Seq<char>|
            names.to_set().contains(name) ==> tree_of(
                #[trigger] fields_of(fields, names)->Ok_0[name],
            ) == fields[name],
    decreases fields, names.len(),
{
    if names.len() > 0 {
        let rest = names.drop_last();
        assert forall|i: int| 0 <= i < rest.len() implies fields.contains_key(
            #[trigger] rest[i],
        ) by {
            assert(fields.contains_key(names[i]));
        }
        lemma_fields_round_trip(fields, rest);
        assert(fields.contains_key(names[names.len() - 1]));
        assert(untyped(fields[names.last()]));
        law_untyped_round_trip(fields[names.last()]);
        let before = fields_of(fields, rest)->Ok_0;
        let item = fields_of(fields, names)->Ok_0;
        assert forall|name: Seq<char>| names.to_set().contains(name) <==> (
        rest.to_set().contains(name) || name == names.last()) by {
            if names.to_set().contains(name) {
                let i = choose|i: int| 0 <= i < names.len() && names[i] == name;
                if i < rest.len() {
                    assert(rest[i] == name);
                }
            }
            if rest.to_set().contains(name) {
                let i = choose|i: int| 0 <= i < rest.len() && rest[i] == name;
                assert(names[i] == name);
            }
            assert(names[names.len() - 1] == names.last());
        }
        assert(item.dom() =~= names.to_set());
    } else {
        assert(names.to_set() =~= Set::empty());
        assert(fields_of(fields, names)->Ok_0.dom() =~= names.to_set());
    }
}

/// The texts by name that a JSON text writes, or why it writes none, as
/// `serde_json::from_str` has it.
pub uninterp spec fn text_map(s: Seq<char>) -> Result<Map<Seq<char>, Seq<char>>, Seq<char>>;

/// The texts that pairs give by name: of two with one name the later.
pub open spec fn pair_map(pairs: Seq<(Seq<char>, Seq<char>)>) -> Map<Seq<char>, Seq<char>>
    decreases pairs.len(),
{
    if pairs.len() == 0 {
        Map::empty()
    } else {
        pair_map(pairs.drop_last()).insert(pairs.last().0, pairs.last().1)
    }
}

/// `serde_json::from_str` into a map of texts: its entries, in no known order, or
/// the message of the error. The map and the message are a function of the text.
#[verifier::external_body]
fn parse_text_map(s: &str) -> (r: Result<Vec<(String, String)>, String>)
    ensures
        match r {
            Ok(pairs) => text_map(s@) == Ok::<Map<Seq<char>, Seq<char>>, Seq<char>>(
                pair_map(pairs.deep_view()),
            ),
            Err(message) => text_map(s@) == Err::<Map<Seq<char>, Seq<char>>, Seq<char>>(message@),
        },
{
    serde_json::from_str::<std::collections::HashMap<String, String>>(s).map(
        |map| map.into_iter().collect(),
    ).map_err(|error| error.to_string())
}

/// The texts by name that an option gives.
pub open spec fn names_given(args: Seq<Seq<char>>, name: Seq<char>) -> Result<
    Option<Map<Seq<char>, Seq<char>>>,
    Failure,
> {
    match common::option_of(args, name) {
        None => Ok(None),
        Some(s) => match text_map(s) {
            Ok(map) => Ok(Some(map)),
            Err(message) => Err(Failure::Json(message)),
        },
    }
}

/// The attributes by name that an option gives.
pub open spec fn values_given(args: Seq<Seq<char>>, name: Seq<char>) -> Result<
    Option<Map<Seq<char>, Attr>>,
    Failure,
> {
    match common::option_of(args, name) {
        None => Ok(None),
        Some(s) => match item_in(s) {
            Ok(item) => Ok(Some(item)),
            Err(failure) => Err(failure),
        },
    }
}

/// Texts by name, where they are given.
pub open spec fn given_names(names: Option<Vec<(String, String)>>) -> Option<
    Map<Seq<char>, Seq<char>>,
> {
    match names {
        Some(pairs) => Some(pair_map(pairs.deep_view())),
        None => None,
    }
}

/// Attributes by name, where they are given.
pub open spec fn given_values(values: Option<Vec<(String, AttributeValue)>>) -> Option<
    Map<Seq<char>, Attr>,
> {
    match values {
        Some(entries) => Some(item_of(entries@)),
        None => None,
    }
}

/// The texts by name that an option gives.
pub fn option_string_map(args: &[String], name: &str) -> (r: Result<
    Option<Vec<(String, String)>>,
    AwlError,
>)
    ensures
        match r {
            Ok(names) => names_given(args.deep_view(), name@) == Ok::<
                Option<Map<Seq<char>, Seq<char>>>,
                Failure,
            >(given_names(names)),
            Err(error) => names_given(args.deep_view(), name@) == Err::<
                Option<Map<Seq<char>, Seq<char>>>,
                Failure,
            >(error@),
        },
{
    match common::option_value(args, name) {
        None => Ok(None),
        Some(s) => match parse_text_map(s.as_str()) {
            Ok(pairs) => Ok(Some(pairs)),
            Err(message) => Err(AwlError::Json(message)),
        },
    }
}

/// The attributes by name that an option gives.
pub fn option_attribute_map(args: &[String], name: &str) -> (r: Result<
    Option<Vec<(String, AttributeValue)>>,
    AwlError,
>)
    ensures
        match r {
            Ok(values) => values_given(args.deep_view(), name@) == Ok::<
                Option<Map<Seq<char>, Attr>>,
                Failure,
            >(given_values(values)),
            Err(error) => values_given(args.deep_view(), name@) == Err::<
                Option<Map<Seq<char>, Attr>>,
                Failure,
            >(error@),
        },
{
    match common::option_value(args, name) {
        None => Ok(None),
        Some(s) => match parse_item_json(s.as_str()) {
            Ok(entries) => Ok(Some(entries)),
            Err(error) => Err(error),
        },
    }
}

/// A table and an item or key in it.
#[derive(Debug)]
pub struct ItemPlan {
    pub table: String,
    pub item: Vec<(String, AttributeValue)>,
}

/// The table and the item or key that the positional arguments write.
pub open spec fn item_asked(args: Seq<Seq<char>>, what: Seq<char>) -> Result<
    (Seq<char>, Map<Seq<char>, Attr>),
    Failure,
> {
    let words = common::positionals(args);
    match common::required_at(words, 0, "table"@) {
        Err(failure) => Err(failure),
        Ok(table) => match common::required_at(words, 1, what) {
            Err(failure) => Err(failure),
            Ok(s) => match item_in(s) {
                Err(failure) => Err(failure),
                Ok(item) => Ok((table, item)),
            },
        },
    }
}

/// The table and the item or key that the positional arguments write; `what`
/// names the latter.
fn item_plan(args: &[String], what: &str) -> (r: Result<ItemPlan, AwlError>)
    ensures
        match r {
            Ok(plan) => item_asked(args.deep_view(), what@) == Ok::<
                (Seq<char>, Map<Seq<char>, Attr>),
                Failure,
            >((plan.table@, item_of(plan.item@))),
            Err(error) => item_asked(args.deep_view(), what@) == Err::<
                (Seq<char>, Map<Seq<char>, Attr>),
                Failure,
            >(error@),
        },
{
    let words = common::positional(args);
    let table = match common::required(words.as_slice(), 0, "table") {
        Ok(table) => table,
        Err(error) => return Err(error),
    };
    let s = match common::required(words.as_slice(), 1, what) {
        Ok(s) => s,
        Err(error) => return Err(error),
    };
    match parse_item_json(s.as_str()) {
        Ok(item) => Ok(ItemPlan { table, item }),
        Err(error) => Err(error),
    }
}

/// What `put` writes.
pub fn put_plan(args: &[String]) -> (r: Result<ItemPlan, AwlError>)
    ensures
        match r {
            Ok(plan) => item_asked(args.deep_view(), "item-json"@) == Ok::<
                (Seq<char>, Map<Seq<char>, Attr>),
                Failure,
            >((plan.table@, item_of(plan.item@))),
            Err(error) => item_asked(args.deep_view(), "item-json"@) == Err::<
                (Seq<char>, Map<Seq<char>, Attr>),
                Failure,
            >(error@),
        },
{
    item_plan(args, "item-json")
}

/// What `rm` removes.
pub fn rm_plan(args: &[String]) -> (r: Result<ItemPlan, AwlError>)
    ensures
        match r {
            Ok(plan) => item_asked(args.deep_view(), "key-json"@) == Ok::<
                (Seq<char>, Map<Seq<char>, Attr>),
                Failure,
            >((plan.table@, item_of(plan.item@))),
            Err(error) => item_asked(args.deep_view(), "key-json"@) == Err::<
                (Seq<char>, Map<Seq<char>, Attr>),
                Failure,
            >(error@),
        },
{
    item_plan(args, "key-json")
}

/// What `get` reads.
#[derive(Debug)]
pub struct GetPlan {
    pub table: String,
    pub key: Vec<(String, AttributeValue)>,
    pub projection: Option<String>,
    pub names: Option<Vec<(String, String)>>,
}

/// Which item the arguments ask for.
pub open spec fn get_asked(args: Seq<Seq<char>>, r: Result<GetPlan, AwlError>) -> bool {
    match r {
        Ok(plan) => {
            &&& item_asked(args, "key-json"@) == Ok::<
                (Seq<char>, Map<Seq<char>, Attr>),
                Failure,
            >((plan.table@, item_of(plan.key@)))
            &&& plan.projection.deep_view() == common::option_of(
                args,
                "--projection"@,
            )
            &&& names_given(args, "--names"@) == Ok::<
                Option<Map<Seq<char>, Seq<char>>>,
                Failure,
            >(given_names(plan.names))
        },
        Err(error) => match item_asked(args, "key-json"@) {
            Err(failure) => error@ == failure,
            Ok(_) => names_given(args, "--names"@) == Err::<
                Option<Map<Seq<char>, Seq<char>>>,
                Failure,
            >(error@),
        },
    }
}

/// What `get` reads.
pub fn get_plan(args: &[String]) -> (r: Result<GetPlan, AwlError>)
    ensures
        get_asked(args.deep_view(), r),
{
    let target = match item_plan(args, "key-json") {
        Ok(target) => target,
        Err(error) => return Err(error),
    };
    let projection = common::option_value(args, "--projection");
    match option_string_map(args, "--names") {
        Ok(names) => Ok(GetPlan { table: target.table, key: target.item, projection, names }),
        Err(error) => Err(error),
    }
}

/// What `query` and `scan` ask for.
#[derive(Debug)]
pub struct SearchPlan {
    pub table: String,
    /// The condition on the key, which `query` has and `scan` has not.
    pub key_condition: Option<String>,
    pub filter: Option<String>,
    pub limit: Option<i32>,
    pub names: Option<Vec<(String, String)>>,
    pub values: Option<Vec<(String, AttributeValue)>>,
}

/// What a search asks for besides the table and the condition on the key: why it
/// cannot be asked for, where it cannot.
pub open spec fn search_failure(args: Seq<Seq<char>>) -> Option<Failure> {
    match names_given(args, "--names"@) {
        Err(failure) => Some(failure),
        Ok(_) => match values_given(args, "--values"@) {
            Err(failure) => Some(failure),
            Ok(_) => None,
        },
    }
}

impl SearchPlan {
    /// The plan holds what the arguments ask for besides the table and the
    /// condition on the key.
    pub open spec fn follows(self, args: Seq<Seq<char>>) -> bool {
        &&& self.filter.deep_view() == common::option_of(args, "--filter"@)
        &&& (match self.limit {
            Some(n) => Some(n as int),
            None => None,
        }) == common::i32_of(args, "--limit"@)
        &&& names_given(args, "--names"@) == Ok::<Option<Map<Seq<char>, Seq<char>>>, Failure>(
            given_names(self.names),
        )
        &&& values_given(args, "--values"@) == Ok::<Option<Map<Seq<char>, Attr>>, Failure>(
            given_values(self.values),
        )
    }
}

/// What a search of a table asks for.
fn search_plan(args: &[String], table: String, key_condition: Option<String>) -> (r: Result<
    SearchPlan,
    AwlError,
>)
    ensures
        match r {
            Ok(plan) => {
                &&& plan.table == table
                &&& plan.key_condition == key_condition
                &&& plan.follows(args.deep_view())
                &&& search_failure(args.deep_view()) is None
            },
            Err(error) => search_failure(args.deep_view()) == Some(error@),
        },
{
    let filter = common::option_value(args, "--filter");
    let limit = common::option_i32(args, "--limit");
    let names = match option_string_map(args, "--names") {
        Ok(names) => names,
        Err(error) => return Err(error),
    };
    match option_attribute_map(args, "--values") {
        Ok(values) => Ok(SearchPlan { table, key_condition, filter, limit, names, values }),
        Err(error) => Err(error),
    }
}

/// The condition on the key of a `query`: that of the option, or else the second
/// positional argument.
pub open spec fn condition_of(args: Seq<Seq<char>>) -> Option<Seq<char>> {
    client::first_of(
        common::option_of(args, "--key-condition"@),
        common::word_at(common::positionals(args), 1),
    )
}

/// Which query the arguments ask for.
pub open spec fn query_asked(args: Seq<Seq<char>>, r: Result<SearchPlan, AwlError>) -> bool {
    match r {
        Ok(plan) => {
            &&& common::required_at(common::positionals(args), 0, "table"@) == Ok::<
                Seq<char>,
                Failure,
            >(plan.table@)
            &&& plan.key_condition.deep_view() == condition_of(args)
            &&& plan.key_condition is Some
            &&& plan.follows(args)
        },
        Err(error) => match common::required_at(
            common::positionals(args),
            0,
            "table"@,
        ) {
            Err(failure) => error@ == failure,
            Ok(_) => match condition_of(args) {
                None => error@ == Failure::Usage("ddb query requires --key-condition <expr>"@),
                Some(_) => search_failure(args) == Some(error@),
            },
        },
    }
}

/// What `query` asks for.
pub fn query_plan(args: &[String]) -> (r: Result<SearchPlan, AwlError>)
    ensures
        query_asked(args.deep_view(), r),
{
    let words = common::positional(args);
    let table = match common::required(words.as_slice(), 0, "table") {
        Ok(table) => table,
        Err(error) => return Err(error),
    };
    let condition = client::first_text(
        common::option_value(args, "--key-condition"),
        common::word(words.as_slice(), 1),
    );
    if condition.is_none() {
        return Err(AwlError::usage("ddb query requires --key-condition <expr>"));
    }
    search_plan(args, table, condition)
}

/// Which scan the arguments ask for.
pub open spec fn scan_asked(args: Seq<Seq<char>>, r: Result<SearchPlan, AwlError>) -> bool {
    match r {
        Ok(plan) => {
            &&& common::required_at(common::positionals(args), 0, "table"@) == Ok::<
                Seq<char>,
                Failure,
            >(plan.table@)
            &&& plan.key_condition is None
            &&& plan.follows(args)
        },
        Err(error) => match common::required_at(
            common::positionals(args),
            0,
            "table"@,
        ) {
            Err(failure) => error@ == failure,
            Ok(_) => search_failure(args) == Some(error@),
        },
    }
}

/// What `scan` asks for.
pub fn scan_plan(args: &[String]) -> (r: Result<SearchPlan, AwlError>)
    ensures
        scan_asked(args.deep_view(), r),
{
    let words = common::positional(args);
    let table = match common::required(words.as_slice(), 0, "table") {
        Ok(table) => table,
        Err(error) => return Err(error),
    };
    search_plan(args, table, None)
}

/// The table that `desc` describes.
pub fn desc_plan(args: &[String]) -> (r: Result<String, AwlError>)
    ensures
        told(r) == common::required_at(common::positionals(args.deep_view()), 0, "table"@),
{
    let words = common::positional(args);
    common::required(words.as_slice(), 0, "table")
}

/// The rows of the tables.
pub open spec fn tables_shown(names: Seq<Seq<char>>) -> Shown {
    Shown::Many(
        names.map_values(
            |name: Seq<char>| JsonTree::Object(map!["table_name"@ => JsonTree::Text(name)]),
        ),
    )
}

/// The records of tables.
pub fn table_rows(names: &Vec<String>) -> (r: Output)
    ensures
        r@ == tables_shown(names.deep_view()),
{
    let mut rows: Vec<Json> = Vec::new();
    let mut i: usize = 0;
    while i < names.len()
        invariant
            i <= names.len(),
            rows@.len() == i,
            forall|j: int|
                0 <= j < i ==> (#[trigger] rows@[j]).tree() == JsonTree::Object(
                    map!["table_name"@ => JsonTree::Text(names@[j]@)],
                ),
        decreases names.len() - i,
    {
        let mut row = Fields::new();
        row.insert("table_name", Json::text(names[i].as_str()));
        rows.push(Json::Object(row));
        i += 1;
    }
    assert(json::trees(rows@) =~= names.deep_view().map_values(
        |name: Seq<char>| JsonTree::Object(map!["table_name"@ => JsonTree::Text(name)]),
    ));
    Output::Many(rows)
}

/// What the service says of a table.
#[derive(Debug)]
pub struct TableInfo {
    pub table_name: Option<String>,
    pub table_arn: Option<String>,
    pub status: Option<String>,
    pub item_count: Option<i64>,
    pub size_bytes: Option<i64>,
    /// The attributes of the key, each with its type.
    pub key_schema: Vec<(String, String)>,
}

/// The record of an attribute of a key.
pub open spec fn key_tree(pair: (Seq<char>, Seq<char>)) -> JsonTree {
    JsonTree::Object(
        map!["attribute_name"@ => JsonTree::Text(pair.0), "key_type"@ => JsonTree::Text(pair.1)],
    )
}

/// The record of a table.
pub open spec fn table_tree(table: Option<TableInfo>) -> JsonTree {
    JsonTree::Object(
        map![
            "table_name"@ => match table {
                Some(info) => json::optional_text(info.table_name.deep_view()),
                None => JsonTree::Null,
            },
            "table_arn"@ => match table {
                Some(info) => json::optional_text(info.table_arn.deep_view()),
                None => JsonTree::Null,
            },
            "status"@ => match table {
                Some(info) => json::optional_text(info.status.deep_view()),
                None => JsonTree::Null,
            },
            "item_count"@ => match table {
                Some(info) => json::optional_i64(info.item_count),
                None => JsonTree::Null,
            },
            "size_bytes"@ => match table {
                Some(info) => json::optional_i64(info.size_bytes),
                None => JsonTree::Null,
            },
            "key_schema"@ => JsonTree::Array(
                match table {
                    Some(info) => info.key_schema.deep_view().map_values(
                        |pair: (Seq<char>, Seq<char>)| key_tree(pair),
                    ),
                    None => Seq::empty(),
                },
            ),
        ],
    )
}

/// What is shown of a table, as far as the service says something of it.
pub fn table_row(table: &Option<TableInfo>) -> (r: Output)
    ensures
        r@ == Shown::One(table_tree(*table)),
{
    let mut row = Fields::new();
    let mut keys: Vec<Json> = Vec::new();
    match table {
        Some(info) => {
            row.insert("table_name", Json::optional_string(&info.table_name));
            row.insert("table_arn", Json::optional_string(&info.table_arn));
            row.insert("status", Json::optional_string(&info.status));
            row.insert("item_count", Json::optional_signed(info.item_count));
            row.insert("size_bytes", Json::optional_signed(info.size_bytes));
            let mut i: usize = 0;
            while i < info.key_schema.len()
                invariant
                    i <= info.key_schema.len(),
                    keys@.len() == i,
                    forall|j: int|
                        0 <= j < i ==> (#[trigger] keys@[j]).tree() == key_tree(
                            (info.key_schema@[j].0@, info.key_schema@[j].1@),
                        ),
                decreases info.key_schema.len() - i,
            {
                let mut key = Fields::new();
                key.insert("attribute_name", Json::text(info.key_schema[i].0.as_str()));
                key.insert("key_type", Json::text(info.key_schema[i].1.as_str()));
                keys.push(Json::Object(key));
                i += 1;
            }
            assert(json::trees(keys@) =~= info.key_schema.deep_view().map_values(
                |pair: (Seq<char>, Seq<char>)| key_tree(pair),
            ));
        },
        None => {
            row.insert("table_name", Json::Null);
            row.insert("table_arn", Json::Null);
            row.insert("status", Json::Null);
            row.insert("item_count", Json::Null);
            row.insert("size_bytes", Json::Null);
            assert(json::trees(keys@) =~= Seq::empty());
        },
    }
    row.insert("key_schema", Json::list(keys));
    Output::One(Json::Object(row))
}

/// The record of an item that was asked for.
pub open spec fn found_tree(item: Option<Vec<(String, AttributeValue)>>) -> JsonTree {
    JsonTree::Object(
        map![
            "item"@ => match item {
                Some(entries) => item_tree(item_of(entries@)),
                None => JsonTree::Null,
            },
        ],
    )
}

/// What is shown of an item that was read.
pub fn get_row(item: &Option<Vec<(String, AttributeValue)>>) -> (r: Output)
    ensures
        r@ == Shown::One(found_tree(*item)),
{
    let mut row = Fields::new();
    row.insert(
        "item",
        match item {
            Some(entries) => item_to_json(entries),
            None => Json::Null,
        },
    );
    Output::One(Json::Object(row))
}

/// The records of the items.
pub open spec fn items_shown(items: Seq<Vec<(String, AttributeValue)>>) -> Shown {
    Shown::Many(
        items.map_values(
            |entries: Vec<(String, AttributeValue)>| item_tree(item_of(entries@)),
        ),
    )
}

/// What is shown of items.
pub fn item_rows(items: &Vec<Vec<(String, AttributeValue)>>) -> (r: Output)
    ensures
        r@ == items_shown(items@),
{
    let mut rows: Vec<Json> = Vec::new();
    let mut i: usize = 0;
    while i < items.len()
        invariant
            i <= items.len(),
            rows@.len() == i,
            forall|j: int|
                0 <= j < i ==> (#[trigger] rows@[j]).tree() == item_tree(item_of(items@[j]@)),
        decreases items.len() - i,
    {
        rows.push(item_to_json(&items[i]));
        i += 1;
    }
    assert(json::trees(rows@) =~= items@.map_values(
        |entries: Vec<(String, AttributeValue)>| item_tree(item_of(entries@)),
    ));
    Output::Many(rows)
}

/// The record of an item that was put.
pub open spec fn put_tree(plan: ItemPlan) -> JsonTree {
    JsonTree::Object(
        map![
            "table"@ => JsonTree::Text(plan.table@),
            "item"@ => item_tree(item_of(plan.item@)),
            "action"@ => JsonTree::Text("put"@),
        ],
    )
}

/// What is shown of an item that was written.
pub fn put_row(plan: &ItemPlan) -> (r: Output)
    ensures
        r@ == Shown::One(put_tree(*plan)),
{
    let mut row = Fields::new();
    row.insert("table", Json::text(plan.table.as_str()));
    row.insert("item", item_to_json(&plan.item));
    row.insert("action", Json::text("put"));
    Output::One(Json::Object(row))
}

/// The record of an item that was removed.
pub open spec fn removed_tree(plan: ItemPlan) -> JsonTree {
    JsonTree::Object(
        map![
            "table"@ => JsonTree::Text(plan.table@),
            "key"@ => item_tree(item_of(plan.item@)),
            "deleted"@ => JsonTree::Bool(true),
        ],
    )
}

/// What is shown of an item that was removed.
pub fn rm_row(plan: &ItemPlan) -> (r: Output)
    ensures
        r@ == Shown::One(removed_tree(*plan)),
{
    let mut row = Fields::new();
    row.insert("table", Json::text(plan.table.as_str()));
    row.insert("key", item_to_json(&plan.item));
    row.insert("deleted", Json::Bool(true));
    Output::One(Json::Object(row))
}

/// The name of an attribute value's type.
pub open spec fn type_tag(attr: Attr) -> Seq<char> {
    match attr {
        Attr::S(_) => "S"@,
        Attr::N(_) => "N"@,
        Attr::Bool(_) => "BOOL"@,
        Attr::Null(_) => "NULL"@,
        Attr::L(_) => "L"@,
        Attr::M(_) => "M"@,
        Attr::Ss(_) => "SS"@,
        Attr::Ns(_) => "NS"@,
        Attr::B(_) => "B"@,
        Attr::Bs(_) => "BS"@,
    }
}

/// A JSON value is the typed form of an attribute value: an object whose one field
/// has the name of the type, and the value in it. Bytes are written in base64, and
/// a number as a number or as its text.
pub open spec fn writes(tree: JsonTree, attr: Attr) -> bool
    decreases attr,
{
    let inner = tree->Object_0[type_tag(attr)];
    &&& tree == JsonTree::Object(map![type_tag(attr) => inner])
    &&& match attr {
        Attr::S(s) => inner == JsonTree::Text(s),
        Attr::N(s) => inner == JsonTree::Text(s) || inner == JsonTree::Number(s),
        Attr::Bool(b) => inner == JsonTree::Bool(b),
        Attr::Null(b) => inner == JsonTree::Bool(b),
        Attr::L(values) => {
            &&& inner is Array
            &&& inner->Array_0.len() == values.len()
            &&& forall|i: int|
                0 <= i < values.len() ==> writes(inner->Array_0[i], #[trigger] values[i])
        },
        Attr::M(item) => {
            &&& inner is Object
            &&& item.dom().finite()
            &&& inner->Object_0.dom() == item.dom()
            &&& forall|name: Seq<char>|
                item.dom().finite() && item.contains_key(name) ==> writes(
                    inner->Object_0[name],
                    #[trigger] item[name],
                )
        },
        Attr::Ss(values) => {
            &&& inner is Array
            &&& inner->Array_0.len() == values.len()
            &&& forall|i: int|
                0 <= i < values.len() ==> #[trigger] inner->Array_0[i] == JsonTree::Text(values[i])
        },
        Attr::Ns(values) => {
            &&& inner is Array
            &&& inner->Array_0.len() == values.len()
            &&& forall|i: int|
                0 <= i < values.len() ==> #[trigger] inner->Array_0[i] == JsonTree::Text(values[i])
        },
        Attr::B(bytes) => {
            &&& inner is Text
            &&& base64_bytes(inner->Text_0) == Ok::<Seq<u8>, Seq<char>>(bytes)
        },
        Attr::Bs(values) => {
            &&& inner is Array
            &&& inner->Array_0.len() == values.len()
            &&& forall|i: int|
                0 <= i < values.len() ==> (#[trigger] inner->Array_0[i]) is Text && base64_bytes(
                    inner->Array_0[i]->Text_0,
                ) == Ok::<Seq<u8>, Seq<char>>(values[i])
        },
    }
}

/// The names of the types differ.
proof fn lemma_type_names()
    ensures
        "S"@ != "N"@,
        "S"@ != "B"@,
        "S"@ != "L"@,
        "S"@ != "M"@,
        "N"@ != "B"@,
        "N"@ != "L"@,
        "N"@ != "M"@,
        "B"@ != "L"@,
        "B"@ != "M"@,
        "L"@ != "M"@,
        "SS"@ != "NS"@,
        "SS"@ != "BS"@,
        "NS"@ != "BS"@,
        "BOOL"@ != "NULL"@,
        "S"@.len() == 1,
        "N"@.len() == 1,
        "B"@.len() == 1,
        "L"@.len() == 1,
        "M"@.len() == 1,
        "SS"@.len() == 2,
        "NS"@.len() == 2,
        "BS"@.len() == 2,
        "BOOL"@.len() == 4,
        "NULL"@.len() == 4,
{
    reveal_strlit("S");
    reveal_strlit("N");
    reveal_strlit("B");
    reveal_strlit("L");
    reveal_strlit("M");
    reveal_strlit("SS");
    reveal_strlit("NS");
    reveal_strlit("BS");
    reveal_strlit("BOOL");
    reveal_strlit("NULL");
    assert("S"@[0] == 'S' && "N"@[0] == 'N' && "B"@[0] == 'B' && "L"@[0] == 'L' && "M"@[0] == 'M');
    assert("SS"@[0] == 'S' && "NS"@[0] == 'N' && "BS"@[0] == 'B');
    assert("BOOL"@[0] == 'B' && "NULL"@[0] == 'N');
}

/// An object with one field is converted by the name of the field.
proof fn lemma_one_field(name: Seq<char>, inner: JsonTree)
    ensures
        attr_of(JsonTree::Object(map![name => inner])) == typed_of(name, inner),
{
    let fields = map![name => inner];
    let names = json::ordered(fields.dom());
    assert(fields.dom() =~= set![name]);
    json::lemma_ordered_finite(fields.dom());
    assert(seq![name][0] == name);
    assert(seq![name].to_set() =~= set![name]) by {
        assert(seq![name].to_set().contains(name));
    }
    assert(json::increasing(seq![name]));
    json::lemma_increasing_unique(names, seq![name]);
}

/// The typed form of an attribute value is read back as that value, of whatever
/// type it is.
pub proof fn law_typed_form_is_read_back(tree: JsonTree, attr: Attr)
    requires
        writes(tree, attr),
    ensures
        attr_of(tree) == Ok::<Attr, Failure>(attr),
    decreases attr, 0nat,
{
    let inner = tree->Object_0[type_tag(attr)];
    lemma_type_names();
    lemma_one_field(type_tag(attr), inner);
    match attr {
        Attr::L(values) => {
            lemma_typed_list(inner->Array_0, values);
        },
        Attr::M(item) => {
            let fields = inner->Object_0;
            let names = json::ordered(fields.dom());
            json::lemma_ordered_finite(fields.dom());
            assert forall|i: int| 0 <= i < names.len() implies fields.contains_key(
                #[trigger] names[i],
            ) by {
                assert(names.to_set().contains(names[i]));
            }
            lemma_typed_fields(fields, item, names);
            assert(fields_of(fields, names)->Ok_0 =~= item);
        },
        Attr::Ss(values) => {
            lemma_typed_texts(inner->Array_0, values, "SS"@);
        },
        Attr::Ns(values) => {
            lemma_typed_texts(inner->Array_0, values, "NS"@);
        },
        Attr::Bs(values) => {
            let texts = Seq::new(values.len(), |i: int| inner->Array_0[i]->Text_0);
            assert forall|i: int| 0 <= i < texts.len() implies #[trigger] inner->Array_0[i]
                == JsonTree::Text(texts[i]) by {}
            lemma_typed_texts(inner->Array_0, texts, "BS"@);
            lemma_typed_bytes(texts, values);
        },
        _ => {},
    }
}

proof fn lemma_typed_texts(trees: Seq<JsonTree>, texts: Seq<Seq<char>>, name: Seq<char>)
    requires
        trees.len() == texts.len(),
        forall|i: int| 0 <= i < texts.len() ==> #[trigger] trees[i] == JsonTree::Text(texts[i]),
    ensures
        strings_in(trees, name) == Ok::<Seq<Seq<char>>, Failure>(texts),
    decreases trees.len(),
{
    if trees.len() > 0 {
        let rest = trees.drop_last();
        assert forall|i: int| 0 <= i < rest.len() implies #[trigger] rest[i] == JsonTree::Text(
            texts.drop_last()[i],
        ) by {
            assert(rest[i] == trees[i]);
        }
        lemma_typed_texts(rest, texts.drop_last(), name);
        assert(trees[trees.len() - 1] == JsonTree::Text(texts[texts.len() - 1]));
        assert(texts.drop_last().push(texts.last()) =~= texts);
    } else {
        assert(texts =~= Seq::empty());
    }
}

proof fn lemma_typed_bytes(texts: Seq<Seq<char>>, values: Seq<Seq<u8>>)
    requires
        texts.len() == values.len(),
        forall|i: int|
            0 <= i < texts.len() ==> base64_bytes(#[trigger] texts[i]) == Ok::<Seq<u8>, Seq<char>>(
                values[i],
            ),
    ensures
        all_decoded(texts) == Ok::<Seq<Seq<u8>>, Failure>(values),
    decreases texts.len(),
{
    if texts.len() > 0 {
        let rest = texts.drop_last();
        assert forall|i: int| 0 <= i < rest.len() implies base64_bytes(#[trigger] rest[i]) == Ok::<
            Seq<u8>,
            Seq<char>,
        >(values.drop_last()[i]) by {
            assert(rest[i] == texts[i]);
        }
        lemma_typed_bytes(rest, values.drop_last());
        assert(base64_bytes(texts[texts.len() - 1]) is Ok);
        assert(values.drop_last().push(values.last()) =~= values);
    } else {
        assert(values =~= Seq::empty());
    }
}

proof fn lemma_typed_list(trees: Seq<JsonTree>, values: Seq<Attr>)
    requires
        trees.len() == values.len(),
        forall|i: int| 0 <= i < values.len() ==> writes(trees[i], #[trigger] values[i]),
    ensures
        list_of(trees) == Ok::<Seq<Attr>, Failure>(values),
    decreases values, values.len(),
{
    if values.len() > 0 {
        let rest = values.drop_last();
        assert forall|i: int| 0 <= i < rest.len() implies writes(
            trees.drop_last()[i],
            #[trigger] rest[i],
        ) by {
            assert(writes(trees[i], values[i]));
        }
        lemma_typed_list(trees.drop_last(), rest);
        assert(writes(trees[trees.len() - 1], values[values.len() - 1]));
        law_typed_form_is_read_back(trees.last(), values.last());
        assert(rest.push(values.last()) =~= values);
    } else {
        assert(values =~= Seq::empty());
    }
}

proof fn lemma_typed_fields(
    fields: Map<Seq<char>, JsonTree>,
    item: Map<Seq<char>, Attr>,
    names: Seq<Seq<char>>,
)
    requires
        item.dom().finite(),
        fields.dom() == item.dom(),
        forall|name: Seq<char>|
            item.dom().finite() && item.contains_key(name) ==> writes(
                fields[name],
                #[trigger] item[name],
            ),
        forall|i: int| 0 <= i < names.len() ==> fields.contains_key(#[trigger] names[i]),
    ensures
        fields_of(fields, names) is Ok,
        fields_of(fields, names)->Ok_0.dom() =~= names.to_set(),
        forall|name: Seq<char>|
            names.to_set().contains(name) ==> #[trigger] fields_of(fields, names)->Ok_0[name]
                == item[name],
    decreases item, names.len(),
{
    if names.len() > 0 {
        let rest = names.drop_last();
        let last = names.last();
        assert forall|i: int| 0 <= i < rest.len() implies fields.contains_key(
            #[trigger] rest[i],
        ) by {
            assert(fields.contains_key(names[i]));
        }
        lemma_typed_fields(fields, item, rest);
        assert(fields.contains_key(names[names.len() - 1]));
        assert(item.contains_key(last));
        vstd::map::axiom_map_index_decreases_finite(item, last);
        assert(writes(fields[last], item[last]));
        law_typed_form_is_read_back(fields[last], item[last]);
        let before = fields_of(fields, rest)->Ok_0;
        let after = fields_of(fields, names)->Ok_0;
        assert(after == before.insert(last, item[last]));
        assert(rest.push(last) =~= names);
        assert(names.to_set() =~= rest.to_set().insert(last)) by {
            assert forall|name: Seq<char>| names.to_set().contains(name) implies
                rest.to_set().insert(last).contains(name) by {
                let i = choose|i: int| 0 <= i < names.len() && names[i] == name;
                if i < rest.len() {
                    assert(rest[i] == name);
                }
            }
            assert forall|name: Seq<char>|
                rest.to_set().insert(last).contains(name) implies names.to_set().contains(name) by {
                if name != last {
                    let i = choose|i: int| 0 <= i < rest.len() && rest[i] == name;
                    assert(names[i] == name);
                } else {
                    assert(names[names.len() - 1] == last);
                }
            }
        }
    } else {
        assert(fields_of(fields, names)->Ok_0.dom() =~= names.to_set());
    }
}

/// A plain JSON value and its typed form are converted to the same attribute
/// value; a plain object too, where it has not the one field that names a type.
pub proof fn law_plain_is_as_typed(
    s: Seq<char>,
    b: bool,
    values: Seq<JsonTree>,
    fields: Map<Seq<char>, JsonTree>,
)
    requires
        fields.dom().finite(),
        json::ordered(fields.dom()).len() != 1,
    ensures
        attr_of(JsonTree::Text(s)) == attr_of(JsonTree::Object(map!["S"@ => JsonTree::Text(s)])),
        attr_of(JsonTree::Number(s)) == attr_of(
            JsonTree::Object(map!["N"@ => JsonTree::Number(s)]),
        ),
        attr_of(JsonTree::Bool(b)) == attr_of(
            JsonTree::Object(map!["BOOL"@ => JsonTree::Bool(b)]),
        ),
        attr_of(JsonTree::Null) == attr_of(
            JsonTree::Object(map!["NULL"@ => JsonTree::Bool(true)]),
        ),
        attr_of(JsonTree::Array(values)) == attr_of(
            JsonTree::Object(map!["L"@ => JsonTree::Array(values)]),
        ),
        attr_of(JsonTree::Object(fields)) == attr_of(
            JsonTree::Object(map!["M"@ => JsonTree::Object(fields)]),
        ),
{
    lemma_type_names();
    lemma_one_field("S"@, JsonTree::Text(s));
    lemma_one_field("N"@, JsonTree::Number(s));
    lemma_one_field("BOOL"@, JsonTree::Bool(b));
    lemma_one_field("NULL"@, JsonTree::Bool(true));
    lemma_one_field("L"@, JsonTree::Array(values));
    lemma_one_field("M"@, JsonTree::Object(fields));
}

/// A typed form with a value of another kind in it is refused as a usage error.
pub proof fn law_wrong_kind_is_refused(inner: JsonTree)
    ensures
        attr_of(JsonTree::Object(map!["S"@ => inner])) is Ok <==> inner is Text,
        attr_of(JsonTree::Object(map!["N"@ => inner])) is Ok <==> inner is Text || inner is Number,
        attr_of(JsonTree::Object(map!["BOOL"@ => inner])) is Ok <==> inner is Bool,
        attr_of(JsonTree::Object(map!["NULL"@ => inner])) is Ok <==> inner is Bool,
        attr_of(JsonTree::Object(map!["SS"@ => inner])) is Ok ==> inner is Array,
        attr_of(JsonTree::Object(map!["NS"@ => inner])) is Ok ==> inner is Array,
        attr_of(JsonTree::Object(map!["BS"@ => inner])) is Ok ==> inner is Array,
        attr_of(JsonTree::Object(map!["B"@ => inner])) is Ok <==> inner is Text && base64_bytes(
            inner->Text_0,
        ) is Ok,
        attr_of(JsonTree::Object(map!["L"@ => inner])) is Ok ==> inner is Array,
        attr_of(JsonTree::Object(map!["M"@ => inner])) is Ok ==> inner is Object,
        attr_of(JsonTree::Object(map!["S"@ => inner])) matches Err(failure)
            ==> failure.exit_status() == 2,
{
    lemma_type_names();
    lemma_one_field("S"@, inner);
    lemma_one_field("N"@, inner);
    lemma_one_field("BOOL"@, inner);
    lemma_one_field("NULL"@, inner);
    lemma_one_field("SS"@, inner);
    lemma_one_field("NS"@, inner);
    lemma_one_field("B"@, inner);
    lemma_one_field("BS"@, inner);
    lemma_one_field("L"@, inner);
    lemma_one_field("M"@, inner);
}

/// An item has an attribute for each field of the object that writes it, with the
/// value that the field's value is converted to, and no other; it is refused
/// exactly where the value of a field is.
pub proof fn law_item_has_each_field(s: Seq<char>, fields: Map<Seq<char>, JsonTree>)
    requires
        json::json_parsed(s) == Ok::<JsonTree, Seq<char>>(JsonTree::Object(fields)),
        fields.dom().finite(),
    ensures
        item_in(s) is Ok <==> forall|name: Seq<char>|
            fields.contains_key(name) ==> attr_of(#[trigger] fields[name]) is Ok,
        item_in(s) matches Ok(item) ==> item.dom() == fields.dom() && forall|name: Seq<char>|
            fields.contains_key(name) ==> attr_of(fields[name]) == Ok::<Attr, Failure>(
                #[trigger] item[name],
            ),
{
    let names = json::ordered(fields.dom());
    json::lemma_ordered_finite(fields.dom());
    assert forall|i: int| 0 <= i < names.len() implies fields.contains_key(
        #[trigger] names[i],
    ) by {
        assert(names.to_set().contains(names[i]));
    }
    lemma_fields_converted(fields, names);
    if item_in(s) is Ok {
        assert forall|name: Seq<char>| fields.contains_key(name) implies attr_of(
            #[trigger] fields[name],
        ) is Ok by {
            let item = item_in(s)->Ok_0;
            assert(names.to_set().contains(name));
            assert(attr_of(fields[name]) == Ok::<Attr, Failure>(item[name]));
        }
    } else {
        let i = choose|i: int|
            0 <= i < names.len() && attr_of(fields[#[trigger] names[i]]) is Err;
        assert(names.to_set().contains(names[i]));
    }
}

proof fn lemma_fields_converted(fields: Map<Seq<char>, JsonTree>, names: Seq<Seq<char>>)
    requires
        fields.dom().finite(),
        forall|i: int| 0 <= i < names.len() ==> fields.contains_key(#[trigger] names[i]),
    ensures
        match fields_of(fields, names) {
            Ok(item) => {
                &&& item.dom() =~= names.to_set()
                &&& forall|name: Seq<char>|
                    names.to_set().contains(name) ==> attr_of(fields[name]) == Ok::<Attr, Failure>(
                        #[trigger] item[name],
                    )
            },
            Err(_) => exists|i: int|
                0 <= i < names.len() && attr_of(fields[#[trigger] names[i]]) is Err,
        },
    decreases names.len(),
{
    if names.len() > 0 {
        let rest = names.drop_last();
        let last = names.last();
        assert forall|i: int| 0 <= i < rest.len() implies fields.contains_key(
            #[trigger] rest[i],
        ) by {
            assert(fields.contains_key(names[i]));
        }
        lemma_fields_converted(fields, rest);
        assert(fields.contains_key(names[names.len() - 1]));
        match fields_of(fields, rest) {
            Ok(before) => {
                if attr_of(fields[last]) is Err {
                    assert(attr_of(fields[names[names.len() - 1]]) is Err);
                } else {
                    assert(names.to_set() =~= rest.to_set().insert(last)) by {
                        assert(rest.push(last) =~= names);
                        assert forall|name: Seq<char>| names.to_set().contains(name) implies
                            rest.to_set().insert(last).contains(name) by {
                            let i = choose|i: int| 0 <= i < names.len() && names[i] == name;
                            if i < rest.len() {
                                assert(rest[i] == name);
                            }
                        }
                        assert forall|name: Seq<char>|
                            rest.to_set().insert(last).contains(name) implies
                            names.to_set().contains(name) by {
                            if name != last {
                                let i = choose|i: int| 0 <= i < rest.len() && rest[i] == name;
                                assert(names[i] == name);
                            } else {
                                assert(names[names.len() - 1] == last);
                            }
                        }
                    }
                }
            },
            Err(_) => {
                let i = choose|i: int|
                    0 <= i < rest.len() && attr_of(fields[#[trigger] rest[i]]) is Err;
                assert(attr_of(fields[names[i]]) is Err);
            },
        }
    } else {
        assert(fields_of(fields, names)->Ok_0.dom() =~= names.to_set());
    }
}

/// An attribute value is shown plainly: a text, a number or a truth value as
/// itself, nothing as null, sets in order, bytes in base64, and lists and maps with
/// what they hold.
pub proof fn law_attribute_is_shown_plainly(attr: Attr)
    ensures
        match (attr, tree_of(attr)) {
            (Attr::S(s), tree) => tree == JsonTree::Text(s),
            (Attr::N(s), tree) => json::whole_text(s) ==> tree == JsonTree::Number(s),
            (Attr::Bool(b), tree) => tree == JsonTree::Bool(b),
            (Attr::Null(_), tree) => tree is Null,
            (Attr::Ss(values), JsonTree::Array(shown)) => {
                &&& shown.len() == values.len()
                &&& forall|i: int|
                    0 <= i < values.len() ==> #[trigger] shown[i] == JsonTree::Text(values[i])
            },
            (Attr::Ns(values), JsonTree::Array(shown)) => {
                &&& shown.len() == values.len()
                &&& forall|i: int|
                    0 <= i < values.len() ==> #[trigger] shown[i] == tree_of(Attr::N(values[i]))
            },
            (Attr::B(bytes), tree) => tree == JsonTree::Text(base64_text(bytes)),
            (Attr::Bs(values), JsonTree::Array(shown)) => {
                &&& shown.len() == values.len()
                &&& forall|i: int|
                    0 <= i < values.len() ==> #[trigger] shown[i] == tree_of(Attr::B(values[i]))
            },
            (Attr::L(values), JsonTree::Array(shown)) => {
                &&& shown.len() == values.len()
                &&& forall|i: int|
                    0 <= i < values.len() ==> #[trigger] shown[i] == tree_of(values[i])
            },
            (Attr::M(item), JsonTree::Object(shown)) => {
                &&& shown.dom() == item.dom()
                &&& item.dom().finite() ==> forall|name: Seq<char>|
                    item.contains_key(name) ==> #[trigger] shown[name] == tree_of(item[name])
            },
            _ => false,
        },
{
    if let Attr::M(item) = attr {
        assert(tree_of(attr)->Object_0.dom() =~= item.dom());
    }
}

/// What is asked of a table: the key or the item is what the second word writes,
/// and both it and the table must be given.
pub proof fn law_item_is_asked_by_words(args: Seq<Seq<char>>, what: Seq<char>)
    ensures
        item_asked(args, what) matches Ok((table, item)) ==> {
            let words = common::positionals(args);
            &&& words.len() >= 2
            &&& table == words[0]
            &&& item_in(words[1]) == Ok::<Map<Seq<char>, Attr>, Failure>(item)
        },
        common::positionals(args).len() >= 2 ==> (item_asked(args, what) is Ok <==> item_in(
            common::positionals(args)[1],
        ) is Ok),
        common::positionals(args).len() < 2 ==> item_asked(args, what) matches Err(
            Failure::Usage(_),
        ),
{
}

/// What a search is limited by: the plan that follows the options holds the
/// filter, the limit, the names and the values that they give, and nothing that
/// they do not.
pub proof fn law_search_follows_options(plan: SearchPlan, args: Seq<Seq<char>>, n: i32)
    requires
        plan.follows(args),
    ensures
        plan.filter.deep_view() == common::option_of(args, "--filter"@),
        common::option_of(args, "--limit"@) is None ==> plan.limit is None,
        common::option_of(args, "--limit"@) == Some(crate::number::signed_decimal(n as int))
            ==> plan.limit == Some(n),
        common::option_of(args, "--names"@) is None <==> plan.names is None,
        common::option_of(args, "--values"@) is None <==> plan.values is None,
        common::option_of(args, "--values"@) matches Some(s) ==> item_in(s) == Ok::<
            Map<Seq<char>, Attr>,
            Failure,
        >(given_values(plan.values)->Some_0),
        common::option_of(args, "--names"@) matches Some(s) ==> text_map(s) == Ok::<
            Map<Seq<char>, Seq<char>>,
            Seq<char>,
        >(given_names(plan.names)->Some_0),
{
    crate::number::law_decimal_is_read_back(n as int, i32::MIN as int, i32::MAX as int);
}

/// The condition of a query is that of its option, and otherwise the second word.
pub proof fn law_condition_is_given(args: Seq<Seq<char>>)
    ensures
        common::option_of(args, "--key-condition"@) is Some ==> condition_of(args)
            == common::option_of(args, "--key-condition"@),
        common::option_of(args, "--key-condition"@) is None && common::positionals(args).len() > 1
            ==> condition_of(args) == Some(common::positionals(args)[1]),
        common::option_of(args, "--key-condition"@) is None && common::positionals(args).len() <= 1
            ==> condition_of(args) is None,
{
}

/// An attribute value means what its variant says.
pub proof fn law_attribute_value_means_its_variant(
    s: String,
    b: bool,
    bytes: Vec<u8>,
    texts: Vec<String>,
    blobs: Vec<Vec<u8>>,
    values: Vec<AttributeValue>,
    entries: Vec<(String, AttributeValue)>,
)
    ensures
        AttributeValue::S(s).attr() == Attr::S(s@),
        AttributeValue::N(s).attr() == Attr::N(s@),
        AttributeValue::Bool(b).attr() == Attr::Bool(b),
        AttributeValue::Null(b).attr() == Attr::Null(b),
        AttributeValue::B(bytes).attr() == Attr::B(bytes@),
        AttributeValue::Ss(texts).attr() == Attr::Ss(texts.deep_view()),
        AttributeValue::Ns(texts).attr() == Attr::Ns(texts.deep_view()),
        AttributeValue::Bs(blobs).attr() == Attr::Bs(blobs.deep_view()),
        AttributeValue::L(values).attr() matches Attr::L(list) && list.len() == values@.len()
            && forall|i: int| 0 <= i < list.len() ==> #[trigger] list[i] == values@[i].attr(),
        AttributeValue::M(entries).attr() == Attr::M(item_of(entries@)),
{
}

/// An item holds each of its entries under its name, and of two with one name the
/// later.
pub proof fn law_item_holds_the_last(
    entries: Seq<(String, AttributeValue)>,
    entry: (String, AttributeValue),
    other: Seq<char>,
)
    ensures
        item_of(entries.push(entry)).contains_key(entry.0@),
        item_of(entries.push(entry))[entry.0@] == entry.1.attr(),
        other != entry.0@ ==> (item_of(entries.push(entry)).contains_key(other) <==> item_of(
            entries,
        ).contains_key(other)),
        other != entry.0@ && item_of(entries).contains_key(other) ==> item_of(
            entries.push(entry),
        )[other] == item_of(entries)[other],
        item_of(Seq::<(String, AttributeValue)>::empty()).dom() == Set::<Seq<char>>::empty(),
{
    assert(entries.push(entry).drop_last() =~= entries);
}

/// Names that stand for others are held in the same way.
pub proof fn law_pair_map_holds_the_last(
    pairs: Seq<(Seq<char>, Seq<char>)>,
    name: Seq<char>,
    value: Seq<char>,
    other: Seq<char>,
)
    ensures
        pair_map(pairs.push((name, value))).contains_key(name),
        pair_map(pairs.push((name, value)))[name] == value,
        other != name ==> (pair_map(pairs.push((name, value))).contains_key(other) <==> pair_map(
            pairs,
        ).contains_key(other)),
        other != name && pair_map(pairs).contains_key(other) ==> pair_map(
            pairs.push((name, value)),
        )[other] == pair_map(pairs)[other],
{
    assert(pairs.push((name, value)).drop_last() =~= pairs);
}

/// The options of a request give a map of what their text writes, or why it writes
/// none; without the option there is none.
pub proof fn law_maps_are_given_by_options(args: Seq<Seq<char>>, name: Seq<char>)
    ensures
        common::option_of(args, name) is None ==> names_given(args, name) == Ok::<
            Option<Map<Seq<char>, Seq<char>>>,
            Failure,
        >(None) && values_given(args, name) == Ok::<Option<Map<Seq<char>, Attr>>, Failure>(None),
        common::option_of(args, name) matches Some(s) ==> {
            &&& text_map(s) matches Ok(map) ==> names_given(args, name) == Ok::<
                Option<Map<Seq<char>, Seq<char>>>,
                Failure,
            >(Some(map))
            &&& text_map(s) matches Err(message) ==> names_given(args, name) == Err::<
                Option<Map<Seq<char>, Seq<char>>>,
                Failure,
            >(Failure::Json(message))
            &&& item_in(s) matches Ok(item) ==> values_given(args, name) == Ok::<
                Option<Map<Seq<char>, Attr>>,
                Failure,
            >(Some(item))
            &&& item_in(s) matches Err(failure) ==> values_given(args, name) == Err::<
                Option<Map<Seq<char>, Attr>>,
                Failure,
            >(failure)
        },
        search_failure(args) is None <==> names_given(args, "--names"@) is Ok && values_given(
            args,
            "--values"@,
        ) is Ok,
{
}

/// The key of a table shows its attribute and its type.
pub proof fn law_key_row_shows_it(name: Seq<char>, kind: Seq<char>)
    ensures
        crate::output::shows(key_tree((name, kind)), "attribute_name"@, name),
        crate::output::shows(key_tree((name, kind)), "key_type"@, kind),
{
    reveal_strlit("attribute_name");
    reveal_strlit("key_type");
    assert("attribute_name"@.len() == 14 && "key_type"@.len() == 8);
    let fields = key_tree((name, kind))->Object_0;
    crate::output::lemma_shows(fields, "attribute_name"@);
    crate::output::lemma_shows(fields, "key_type"@);
}

/// The record of a table shows each thing that is known of it.
pub proof fn law_table_row_shows_it(info: TableInfo)
    ensures
        table_tree(Some(info))->Object_0["key_schema"@] matches JsonTree::Array(keys) && keys.len()
            == info.key_schema@.len() && forall|i: int|
            0 <= i < keys.len() ==> #[trigger] keys[i] == key_tree(
                (info.key_schema@[i].0@, info.key_schema@[i].1@),
            ),
        output::shows(
            table_tree(Some(info)),
            "table_name"@,
            output::written_text(info.table_name.deep_view()),
        ),
        output::shows(
            table_tree(Some(info)),
            "table_arn"@,
            output::written_text(info.table_arn.deep_view()),
        ),
        output::shows(
            table_tree(Some(info)),
            "status"@,
            output::written_text(info.status.deep_view()),
        ),
        output::shows(
            table_tree(Some(info)),
            "item_count"@,
            output::written_number(info.item_count),
        ),
        output::shows(
            table_tree(Some(info)),
            "size_bytes"@,
            output::written_number(info.size_bytes),
        ),
{
    reveal_strlit("table_name");
    reveal_strlit("table_arn");
    reveal_strlit("status");
    reveal_strlit("item_count");
    reveal_strlit("size_bytes");
    assert("table_name"@.len() == 10);
    assert("table_arn"@.len() == 9);
    assert("status"@.len() == 6);
    assert("item_count"@.len() == 10);
    assert("size_bytes"@.len() == 10);
    assert("table_name"@[0] != "item_count"@[0]);
    assert("table_name"@[0] != "size_bytes"@[0]);
    assert("item_count"@[0] != "size_bytes"@[0]);
    reveal_strlit("key_schema");
    assert("key_schema"@.len() == 10);
    assert("key_schema"@[0] == 'k' && "table_name"@[0] == 't' && "item_count"@[0] == 'i' && "size_bytes"@[0]
        == 's');
    let fields = table_tree(Some(info))->Object_0;
    output::lemma_shows(fields, "table_name"@);
    output::lemma_shows(fields, "table_arn"@);
    output::lemma_shows(fields, "status"@);
    output::lemma_shows(fields, "item_count"@);
    output::lemma_shows(fields, "size_bytes"@);
}

/// An item that was found is shown under its name, as is one that was put or
/// removed, with its table.
pub proof fn law_item_row_shows_it(entries: Vec<(String, AttributeValue)>, plan: ItemPlan)
    ensures
        found_tree(Some(entries))->Object_0["item"@] == item_tree(item_of(entries@)),
        found_tree(None)->Object_0["item"@] is Null,
        put_tree(plan)->Object_0["item"@] == item_tree(item_of(plan.item@)),
        output::shows(put_tree(plan), "table"@, plan.table@),
        output::shows(put_tree(plan), "action"@, "put"@),
        removed_tree(plan)->Object_0["key"@] == item_tree(item_of(plan.item@)),
        output::shows(removed_tree(plan), "table"@, plan.table@),
        output::shows(removed_tree(plan), "deleted"@, "true"@),
{
    reveal_strlit("item");
    reveal_strlit("table");
    reveal_strlit("action");
    reveal_strlit("key");
    reveal_strlit("deleted");
    assert("item"@.len() == 4);
    assert("table"@.len() == 5);
    assert("action"@.len() == 6);
    assert("key"@.len() == 3);
    assert("deleted"@.len() == 7);
    output::lemma_shows(put_tree(plan)->Object_0, "table"@);
    output::lemma_shows(put_tree(plan)->Object_0, "action"@);
    output::lemma_shows(removed_tree(plan)->Object_0, "table"@);
    output::lemma_shows(removed_tree(plan)->Object_0, "deleted"@);
}

/// A query and a scan are of the table that the first word names; a query needs a
/// condition, which may be the second word, and a scan has none.
pub proof fn law_search_is_as_asked(
    words: Seq<Seq<char>>,
    q: Result<SearchPlan, AwlError>,
    s: Result<SearchPlan, AwlError>,
)
    requires
        common::are_words(words),
    ensures
        words.len() > 1 && query_asked(words, q) ==> (q matches Ok(plan) && plan.table@ == words[0]
            && plan.key_condition.deep_view() == Some(words[1]) && plan.limit is None
            && plan.filter is None),
        words.len() <= 1 && query_asked(words, q) ==> (q matches Err(error) && error@ is Usage),
        words.len() > 0 && scan_asked(words, s) ==> (s matches Ok(plan) && plan.table@ == words[0]
            && plan.key_condition is None && plan.limit is None && plan.filter is None),
        words.len() == 0 && scan_asked(words, s) ==> (s matches Err(error) && error@ is Usage),
{
    reveal_strlit("--key-condition");
    common::lemma_names_option("--key-condition"@);
    reveal_strlit("--limit");
    common::lemma_names_option("--limit"@);
    reveal_strlit("--filter");
    common::lemma_names_option("--filter"@);
    reveal_strlit("--names");
    common::lemma_names_option("--names"@);
    reveal_strlit("--values");
    common::lemma_names_option("--values"@);
    common::law_words_give_no_option(words);
    law_condition_is_given(words);
}

/// An item is asked for in the table that the first word names, by the key that the
/// second word writes, and with the projection of the option.
pub proof fn law_get_is_as_asked(
    words: Seq<Seq<char>>,
    value: Seq<char>,
    r: Result<GetPlan, AwlError>,
)
    requires
        common::are_words(words),
        words.len() > 1,
        !common::is_option(value),
    ensures
        item_in(words[1]) matches Ok(key) ==> (get_asked(words, r) ==> (r matches Ok(plan)
            && plan.table@ == words[0] && plan.projection is None && item_of(plan.key@) == key)),
        item_in(words[1]) is Err && get_asked(words, r) ==> r is Err,
        get_asked(words.push("--projection"@).push(value), r) ==> (r matches Ok(plan) ==> plan.table@
            == words[0] && plan.projection.deep_view() == Some(value)),
{
    reveal_strlit("--projection");
    reveal_strlit("--names");
    common::lemma_names_option("--projection"@);
    common::lemma_names_option("--names"@);
    common::law_words_give_no_option(words);
    common::law_options_take_values();
    common::law_option_among_words(words, "--projection"@, value);
    law_item_is_asked_by_words(words, "key-json"@);
    law_item_is_asked_by_words(words.push("--projection"@).push(value), "key-json"@);
}

/// There is a record for each of the items, in order.
pub proof fn law_item_rows_are_all_shown(items: Seq<Vec<(String, AttributeValue)>>, i: int)
    requires
        0 <= i < items.len(),
    ensures
        items_shown(items) matches Shown::Many(rows) && rows.len() == items.len() && rows[i]
            == item_tree(item_of(items[i]@)),
{
}

/// An item is written as a JSON object, and each of its fields is one of the item;
/// what is no object is no item.
pub proof fn law_item_is_an_object(s: Seq<char>)
    ensures
        json::json_parsed(s) matches Err(message) ==> item_in(s) == Err::<
            Map<Seq<char>, Attr>,
            Failure,
        >(Failure::Json(message)),
        json::json_parsed(s) matches Ok(tree) ==> (!(tree is Object) ==> item_in(s) matches Err(
            Failure::Usage(_),
        )),
        json::json_parsed(s) matches Ok(tree) ==> (tree is Object && item_in(s) is Ok
            ==> typed_of("M"@, tree) == Ok::<Attr, Failure>(Attr::M(item_in(s)->Ok_0))),
{
    reveal_strlit("S");
    reveal_strlit("N");
    reveal_strlit("BOOL");
    reveal_strlit("NULL");
    reveal_strlit("SS");
    reveal_strlit("NS");
    reveal_strlit("B");
    reveal_strlit("BS");
    reveal_strlit("L");
    reveal_strlit("M");
    assert("S"@.len() == 1);
    assert("N"@.len() == 1);
    assert("BOOL"@.len() == 4);
    assert("NULL"@.len() == 4);
    assert("SS"@.len() == 2);
    assert("NS"@.len() == 2);
    assert("B"@.len() == 1);
    assert("BS"@.len() == 2);
    assert("L"@.len() == 1);
    assert("M"@.len() == 1);
    assert("S"@[0] != "N"@[0]);
    assert("S"@[0] != "B"@[0]);
    assert("S"@[0] != "L"@[0]);
    assert("S"@[0] != "M"@[0]);
    assert("N"@[0] != "B"@[0]);
    assert("N"@[0] != "L"@[0]);
    assert("N"@[0] != "M"@[0]);
    assert("BOOL"@[0] != "NULL"@[0]);
    assert("SS"@[0] != "NS"@[0]);
    assert("SS"@[0] != "BS"@[0]);
    assert("NS"@[0] != "BS"@[0]);
    assert("B"@[0] != "L"@[0]);
    assert("B"@[0] != "M"@[0]);
    assert("L"@[0] != "M"@[0]);
}

/// A number that cannot be read is shown as its text.
pub proof fn law_number_is_shown_as_read(s: Seq<char>)
    ensures
        !json::whole_text(s) && json::json_parsed(s) is Err ==> tree_of(Attr::N(s))
            == JsonTree::Text(s),
        !json::whole_text(s) ==> (json::json_parsed(s) matches Ok(tree) ==> tree_of(Attr::N(s))
            == tree),
{
}

/// There is a record for each of the tables, in order, and it shows the name.
pub proof fn law_tables_are_all_shown(names: Seq<Seq<char>>, i: int)
    requires
        0 <= i < names.len(),
    ensures
        tables_shown(names) matches Shown::Many(rows) && rows.len() == names.len()
            && output::shows(rows[i], "table_name"@, names[i]),
{
    output::lemma_shows(map!["table_name"@ => JsonTree::Text(names[i])], "table_name"@);
}

} // verus!
