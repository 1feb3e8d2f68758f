//! DNS.
use vstd::prelude::*;

use crate::client;
use crate::error::{told, AwlError, Failure};
use crate::json::{self, Fields, Json, JsonTree};
use crate::output::{self, Output, Shown};
use crate::services::common;
use crate::text;

verus! {

/// A name with a dot at its end.
pub open spec fn dotted(name: Seq<char>) -> Seq<char> {
    if name.len() > 0 && name.last() == '.' {
        name
    } else {
        name.push('.')
    }
}

/// A name with a dot at its end.
pub fn ensure_trailing_dot(value: &str) -> (r: String)
    ensures
        r@ == dotted(value@),
{
    if text::strip_suffix(value, '.').is_some() {
        value.to_owned()
    } else {
        let mut out = value.to_owned();
        out.push('.');
        out
    }
}

/// A dot is added at most once.
pub proof fn law_dotted_once(name: Seq<char>)
    ensures
        dotted(dotted(name)) == dotted(name),
{
}

/// The id of a zone without the path before it.
pub open spec fn clean_id(id: Seq<char>) -> Seq<char> {
    match text::without_prefix(id, "/hostedzone/"@) {
        Some(rest) => rest,
        None => id,
    }
}

/// The id of a zone without the path before it.
pub fn clean_zone_id(value: &str) -> (r: &str)
    ensures
        r@ == clean_id(value@),
{
    match text::strip_prefix(value, "/hostedzone/") {
        Some(rest) => rest,
        None => value,
    }
}

/// A zone that is named by its id.
pub open spec fn is_zone_id(zone: Seq<char>) -> bool {
    "/hostedzone/"@.is_prefix_of(zone) || (zone.len() > 0 && zone[0] == 'Z')
}

/// The id of a zone that is named by it.
pub fn direct_zone_id(zone: &str) -> (r: Option<String>)
    ensures
        r.deep_view() == (if is_zone_id(zone@) {
            Some(clean_id(zone@))
        } else {
            None
        }),
{
    if text::starts_with(zone, "/hostedzone/") || (zone.unicode_len() > 0 && zone.get_char(0)
        == 'Z') {
        Some(clean_zone_id(zone).to_owned())
    } else {
        None
    }
}

/// A hosted zone as the service lists it.
#[derive(Debug)]
pub struct ZoneInfo {
    pub id: String,
    pub name: String,
    pub private: Option<bool>,
    pub record_count: Option<i64>,
}

/// The text of a truth value.
pub open spec fn bool_text(b: bool) -> Seq<char> {
    if b {
        "true"@
    } else {
        "false"@
    }
}

/// A zone as it is named where several match.
pub open spec fn zone_label(zone: ZoneInfo) -> Seq<char> {
    clean_id(zone.id@) + " ("@ + zone.name@ + ", private="@ + bool_text(
        zone.private == Some(true),
    ) + ")"@
}

/// The labels of the zones with a name, in order.
pub open spec fn matching_labels(zones: Seq<ZoneInfo>, name: Seq<char>) -> Seq<Seq<char>>
    decreases zones.len(),
{
    if zones.len() == 0 {
        Seq::empty()
    } else {
        let before = matching_labels(zones.drop_last(), name);
        if zones.last().name@ == name {
            before.push(zone_label(zones.last()))
        } else {
            before
        }
    }
}

/// The id in a label: what stands before its first space.
pub open spec fn label_id(label: Seq<char>) -> Seq<char> {
    match text::split_first(label, " "@) {
        Some((id, _)) => id,
        None => label,
    }
}

/// The id of the one zone with a name.
pub open spec fn zone_named(zone: Seq<char>, zones: Seq<ZoneInfo>) -> Result<Seq<char>, Failure> {
    let labels = matching_labels(zones, dotted(zone));
    if labels.len() == 1 {
        Ok(label_id(labels[0]))
    } else if labels.len() == 0 {
        Err(Failure::NotFound("hosted zone "@ + text::quoted(zone) + " not found"@))
    } else {
        Err(
            Failure::Usage(
                "hosted zone "@ + text::quoted(zone) + " is ambiguous: "@ + text::joined(
                    labels,
                    ", "@,
                ),
            ),
        )
    }
}

/// The id of the one zone with a name, among those that the service lists.
pub fn find_zone_id(zone: &str, zones: &Vec<ZoneInfo>) -> (r: Result<String, AwlError>)
    ensures
        told(r) == zone_named(zone@, zones@),
{
    let wanted = ensure_trailing_dot(zone);
    let mut labels: Vec<String> = Vec::new();
    let mut i: usize = 0;
    assert(zones@.take(0) =~= Seq::empty());
    assert(labels.deep_view() =~= Seq::empty());
    while i < zones.len()
        invariant
            wanted@ == dotted(zone@),
            i <= zones.len(),
            labels.deep_view() == matching_labels(zones@.take(i as int), wanted@),
        decreases zones.len() - i,
    {
        let ghost before = labels.deep_view();
        assert(zones@.take(i + 1).drop_last() =~= zones@.take(i as int));
        if text::same(zones[i].name.as_str(), wanted.as_str()) {
            let private = match zones[i].private {
                Some(true) => "true",
                _ => "false",
            };
            let label = clean_zone_id(zones[i].id.as_str()).to_owned().concat(" (").concat(
                zones[i].name.as_str(),
            ).concat(", private=").concat(private).concat(")");
            labels.push(label);
            assert(labels.deep_view() =~= before.push(label@));
        }
        i += 1;
    }
    assert(zones@.take(i as int) =~= zones@);
    assert(labels@.len() == labels.deep_view().len());
    if labels.len() == 1 {
        match text::split_once(labels[0].as_str(), " ") {
            Some((id, _)) => Ok(id.to_owned()),
            None => Ok(labels[0].clone()),
        }
    } else if labels.len() == 0 {
        Err(
            AwlError::NotFound {
                message: "hosted zone ".to_owned().concat(text::quote(zone).as_str()).concat(
                    " not found",
                ),
            },
        )
    } else {
        Err(
            AwlError::usage(
                "hosted zone ".to_owned().concat(text::quote(zone).as_str()).concat(
                    " is ambiguous: ",
                ).concat(text::join(labels.as_slice(), ", ").as_str()).as_str(),
            ),
        )
    }
}

/// A zone that alone has a name is found by it, where its id holds no space.
pub proof fn law_single_zone_is_found(zone: Seq<char>, zones: Seq<ZoneInfo>, i: int)
    requires
        0 <= i < zones.len(),
        zones[i].name@ == dotted(zone),
        forall|j: int|
            0 <= j < zones.len() && j != i ==> (#[trigger] zones[j]).name@ != dotted(zone),
        !clean_id(zones[i].id@).contains(' '),
    ensures
        zone_named(zone, zones) == Ok::<Seq<char>, Failure>(clean_id(zones[i].id@)),
{
    lemma_single_label(zones, dotted(zone), i);
    let id = clean_id(zones[i].id@);
    let label = zone_label(zones[i]);
    reveal_strlit(" ");
    reveal_strlit(" (");
    let rest = "("@ + zones[i].name@ + ", private="@ + bool_text(zones[i].private == Some(true))
        + ")"@;
    reveal_strlit("(");
    assert(" "@ =~= seq![' ']);
    assert(" ("@ =~= seq![' '] + "("@);
    assert(label =~= id + seq![' '] + rest);
    text::lemma_split_first(id, ' ', rest);
}

proof fn lemma_single_label(zones: Seq<ZoneInfo>, name: Seq<char>, i: int)
    requires
        0 <= i < zones.len(),
        zones[i].name@ == name,
        forall|j: int| 0 <= j < zones.len() && j != i ==> (#[trigger] zones[j]).name@ != name,
    ensures
        matching_labels(zones, name) == seq![zone_label(zones[i])],
    decreases zones.len(),
{
    let rest = zones.drop_last();
    if i == zones.len() - 1 {
        lemma_no_label(rest, name);
        assert(matching_labels(rest, name).push(zone_label(zones[i])) =~= seq![
            zone_label(zones[i]),
        ]);
    } else {
        assert(rest[i] == zones[i]);
        assert forall|j: int| 0 <= j < rest.len() && j != i implies (#[trigger] rest[j]).name@
            != name by {
            assert(zones[j].name@ != name);
        }
        lemma_single_label(rest, name, i);
        assert(zones[zones.len() - 1].name@ != name);
    }
}

proof fn lemma_no_label(zones: Seq<ZoneInfo>, name: Seq<char>)
    requires
        forall|j: int| 0 <= j < zones.len() ==> (#[trigger] zones[j]).name@ != name,
    ensures
        matching_labels(zones, name) == Seq::<Seq<char>>::empty(),
    decreases zones.len(),
{
    if zones.len() > 0 {
        lemma_no_label(zones.drop_last(), name);
        assert(zones[zones.len() - 1].name@ != name);
    }
}

/// The record of a zone.
pub open spec fn zone_tree(zone: ZoneInfo) -> JsonTree {
    JsonTree::Object(
        map![
            "id"@ => JsonTree::Text(clean_id(zone.id@)),
            "name"@ => JsonTree::Text(zone.name@),
            "private"@ => json::optional_bool(zone.private),
            "record_count"@ => json::optional_i64(zone.record_count),
        ],
    )
}

/// The records of the zones.
pub open spec fn zones_shown(zones: Seq<ZoneInfo>) -> Shown {
    Shown::Many(zones.map_values(|zone: ZoneInfo| zone_tree(zone)))
}

/// What is shown of zones.
pub fn zone_rows(zones: &Vec<ZoneInfo>) -> (r: Output)
    ensures
        r@ == zones_shown(zones@),
{
    let mut rows: Vec<Json> = Vec::new();
    let mut i: usize = 0;
    while i < zones.len()
        invariant
            i <= zones.len(),
            rows@.len() == i,
            forall|j: int| 0 <= j < i ==> (#[trigger] rows@[j]).tree() == zone_tree(zones@[j]),
        decreases zones.len() - i,
    {
        let mut row = Fields::new();
        row.insert("id", Json::text(clean_zone_id(zones[i].id.as_str())));
        row.insert("name", Json::text(zones[i].name.as_str()));
        row.insert("private", Json::optional_bool(zones[i].private));
        row.insert("record_count", Json::optional_signed(zones[i].record_count));
        rows.push(Json::Object(row));
        i += 1;
    }
    assert(json::trees(rows@) =~= zones@.map_values(|zone: ZoneInfo| zone_tree(zone)));
    Output::Many(rows)
}

/// The zone that a command names.
pub fn zone_arg(args: &[String]) -> (r: Result<String, AwlError>)
    ensures
        told(r) == common::required_at(common::positionals(args.deep_view()), 0, "zone"@),
{
    let words = common::positional(args);
    common::required(words.as_slice(), 0, "zone")
}

/// Where a listing of records starts.
#[derive(Debug)]
pub struct ListStart {
    pub name: Option<String>,
    pub record_type: Option<String>,
}

/// Where the arguments have a listing start.
pub open spec fn start_asked(args: Seq<Seq<char>>, r: ListStart) -> bool {
    &&& r.name.deep_view() == (match common::option_of(args, "--name"@) {
        Some(name) => Some(dotted(name)),
        None => None,
    })
    &&& r.record_type.deep_view() == (match common::option_of(args, "--type"@) {
        Some(kind) => Some(text::uppercase(kind)),
        None => None,
    })
}

/// Where a listing of records starts: at the name and the type of the options.
pub fn list_start(args: &[String]) -> (r: ListStart)
    ensures
        start_asked(args.deep_view(), r),
{
    ListStart {
        name: match common::option_value(args, "--name") {
            Some(name) => Some(ensure_trailing_dot(name.as_str())),
            None => None,
        },
        record_type: match common::option_value(args, "--type") {
            Some(kind) => Some(kind.as_str().to_uppercase()),
            None => None,
        },
    }
}

/// The name and the type of a record.
#[derive(Debug)]
pub struct RecordKey {
    pub name: String,
    pub record_type: String,
}

/// Which record the arguments ask for.
pub open spec fn record_asked(args: Seq<Seq<char>>, r: Result<RecordKey, AwlError>) -> bool {
    let words = common::positionals(args);
    match r {
        Ok(key) => {
            &&& common::required_at(words, 1, "name"@) matches Ok(name)
            &&& key.name@ == dotted(name)
            &&& key.record_type@ == text::uppercase(
                client::or_text(
                    client::first_of(
                        common::option_of(args, "--type"@),
                        common::word_at(words, 2),
                    ),
                    "A"@,
                ),
            )
        },
        Err(error) => common::required_at(words, 1, "name"@) == Err::<Seq<char>, Failure>(
            error@,
        ),
    }
}

/// The record that `get` looks for: its type is that of the option, or else the
/// third positional argument, or else `A`.
pub fn record_key(args: &[String]) -> (r: Result<RecordKey, AwlError>)
    ensures
        record_asked(args.deep_view(), r),
{
    let words = common::positional(args);
    match common::required(words.as_slice(), 1, "name") {
        Err(error) => Err(error),
        Ok(name) => {
            let kind = client::text_or(
                client::first_text(
                    common::option_value(args, "--type"),
                    common::word(words.as_slice(), 2),
                ),
                "A",
            );
            Ok(
                RecordKey {
                    name: ensure_trailing_dot(name.as_str()),
                    record_type: kind.as_str().to_uppercase(),
                },
            )
        },
    }
}

/// A record set as the service lists it.
#[derive(Debug)]
pub struct RecordInfo {
    pub name: String,
    pub record_type: String,
    pub ttl: Option<i64>,
    pub values: Vec<String>,
}

/// The record of a record set.
pub open spec fn record_tree(record: RecordInfo) -> JsonTree {
    JsonTree::Object(
        map![
            "name"@ => JsonTree::Text(record.name@),
            "type"@ => JsonTree::Text(record.record_type@),
            "ttl"@ => json::optional_i64(record.ttl),
            "values"@ => json::texts(record.values.deep_view()),
        ],
    )
}

/// The record of a record set.
pub fn record_row(record: &RecordInfo) -> (r: Json)
    ensures
        r.tree() == record_tree(*record),
{
    let mut row = Fields::new();
    row.insert("name", Json::text(record.name.as_str()));
    row.insert("type", Json::text(record.record_type.as_str()));
    row.insert("ttl", Json::optional_signed(record.ttl));
    row.insert("values", Json::texts(&record.values));
    Json::Object(row)
}

/// The rows of the records.
pub open spec fn records_shown(records: Seq<RecordInfo>) -> Shown {
    Shown::Many(records.map_values(|record: RecordInfo| record_tree(record)))
}

/// What is shown of record sets.
pub fn record_rows(records: &Vec<RecordInfo>) -> (r: Output)
    ensures
        r@ == records_shown(records@),
{
    let mut rows: Vec<Json> = Vec::new();
    let mut i: usize = 0;
    while i < records.len()
        invariant
            i <= records.len(),
            rows@.len() == i,
            forall|j: int| 0 <= j < i ==> (#[trigger] rows@[j]).tree() == record_tree(records@[j]),
        decreases records.len() - i,
    {
        rows.push(record_row(&records[i]));
        i += 1;
    }
    assert(json::trees(rows@) =~= records@.map_values(|record: RecordInfo| record_tree(record)));
    Output::Many(rows)
}

/// The first record set at or after `i` with a name and a type.
pub open spec fn record_from(
    records: Seq<RecordInfo>,
    name: Seq<char>,
    record_type: Seq<char>,
    i: int,
) -> Option<RecordInfo>
    decreases records.len() - i,
{
    if i < 0 || i >= records.len() {
        None
    } else if records[i].name@ == name && records[i].record_type@ == record_type {
        Some(records[i])
    } else {
        record_from(records, name, record_type, i + 1)
    }
}

/// What is shown of a record that is asked for.
pub open spec fn record_shown(key: RecordKey, records: Seq<RecordInfo>) -> Result<Shown, Failure> {
    match record_from(records, key.name@, key.record_type@, 0) {
        Some(record) => Ok(Shown::One(record_tree(record))),
        None => Err(
            Failure::NotFound(
                "record "@ + key.name@ + " "@ + key.record_type@ + " not found"@,
            ),
        ),
    }
}

/// What is shown of the record that `get` looks for.
pub fn found_record(key: &RecordKey, records: &Vec<RecordInfo>) -> (r: Result<Output, AwlError>)
    ensures
        told(r) == record_shown(*key, records@),
{
    let mut i: usize = 0;
    while i < records.len()
        invariant
            i <= records.len(),
            record_from(records@, key.name@, key.record_type@, 0) == record_from(
                records@,
                key.name@,
                key.record_type@,
                i as int,
            ),
        decreases records.len() - i,
    {
        if text::same(records[i].name.as_str(), key.name.as_str()) && text::same(
            records[i].record_type.as_str(),
            key.record_type.as_str(),
        ) {
            return Ok(Output::One(record_row(&records[i])));
        }
        i += 1;
    }
    Err(
        AwlError::NotFound {
            message: "record ".to_owned().concat(key.name.as_str()).concat(" ").concat(
                key.record_type.as_str(),
            ).concat(" not found"),
        },
    )
}

/// A change of a record set.
#[derive(Debug)]
pub struct RecordChange {
    pub name: String,
    pub record_type: String,
    pub values: Vec<String>,
    pub ttl: i64,
    pub action: String,
}

/// The meaning of a `RecordChange`.
pub struct Change {
    pub name: Seq<char>,
    pub record_type: Seq<char>,
    pub values: Seq<Seq<char>>,
    pub ttl: int,
    pub action: Seq<char>,
}

impl View for RecordChange {
    type V = Change;

    open spec fn view(&self) -> Change {
        Change {
            name: self.name@,
            record_type: self.record_type@,
            values: self.values.deep_view(),
            ttl: self.ttl as int,
            action: self.action@,
        }
    }
}

/// The change that `set` makes: a name, a type and at least one value; 300
/// seconds and `UPSERT` where the options say nothing else.
pub open spec fn change_of(args: Seq<Seq<char>>) -> Result<Change, Failure> {
    let words = common::positionals(args);
    match common::required_at(words, 1, "name"@) {
        Err(failure) => Err(failure),
        Ok(name) => match common::required_at(words, 2, "type"@) {
            Err(failure) => Err(failure),
            Ok(kind) => if words.len() <= 3 {
                Err(Failure::Usage("route53 set requires at least one record value"@))
            } else {
                Ok(
                    Change {
                        name: dotted(name),
                        record_type: text::uppercase(kind),
                        values: words.skip(3),
                        ttl: match common::i64_of(args, "--ttl"@) {
                            Some(n) => n,
                            None => 300,
                        },
                        action: match common::option_of(args, "--action"@) {
                            Some(action) => text::uppercase(action),
                            None => "UPSERT"@,
                        },
                    },
                )
            },
        },
    }
}

/// The change that `set` makes.
pub fn record_change(args: &[String]) -> (r: Result<RecordChange, AwlError>)
    ensures
        told(r) == change_of(args.deep_view()),
{
    let words = common::positional(args);
    let name = match common::required(words.as_slice(), 1, "name") {
        Ok(name) => ensure_trailing_dot(name.as_str()),
        Err(error) => return Err(error),
    };
    let record_type = match common::required(words.as_slice(), 2, "type") {
        Ok(kind) => kind.as_str().to_uppercase(),
        Err(error) => return Err(error),
    };
    let values = common::words_from(words.as_slice(), 3);
    assert(values@.len() == values.deep_view().len());
    if values.len() == 0 {
        return Err(AwlError::usage("route53 set requires at least one record value"));
    }
    let ttl: i64 = match common::option_i64(args, "--ttl") {
        Some(n) => n,
        None => 300,
    };
    let action = match common::option_value(args, "--action") {
        Some(action) => action.as_str().to_uppercase(),
        None => "UPSERT".to_owned(),
    };
    Ok(RecordChange { name, record_type, values, ttl, action })
}

/// The record of a change.
pub open spec fn change_tree(
    change: Change,
    change_id: Option<Seq<char>>,
    status: Option<Seq<char>>,
) -> JsonTree {
    JsonTree::Object(
        map![
            "name"@ => JsonTree::Text(change.name),
            "type"@ => JsonTree::Text(change.record_type),
            "values"@ => json::texts(change.values),
            "ttl"@ => json::whole(change.ttl),
            "action"@ => JsonTree::Text(change.action),
            "change_id"@ => json::optional_text(change_id),
            "status"@ => json::optional_text(status),
        ],
    )
}

/// What is shown of a change, with its id and status where the service gives them.
pub fn change_row(
    change: &RecordChange,
    change_id: Option<&str>,
    status: Option<&str>,
) -> (r: Output)
    ensures
        r@ == Shown::One(change_tree(change@, change_id.deep_view(), status.deep_view())),
{
    let mut row = Fields::new();
    row.insert("name", Json::text(change.name.as_str()));
    row.insert("type", Json::text(change.record_type.as_str()));
    row.insert("values", Json::texts(&change.values));
    row.insert("ttl", Json::signed(change.ttl));
    row.insert("action", Json::text(change.action.as_str()));
    row.insert("change_id", Json::optional_text(change_id));
    row.insert("status", Json::optional_text(status));
    Output::One(Json::Object(row))
}

/// The id of a zone is what follows the path that it may stand under.
pub proof fn law_zone_id_is_cleaned(id: Seq<char>)
    ensures
        clean_id("/hostedzone/"@ + id) == id,
        !"/hostedzone/"@.is_prefix_of(id) ==> clean_id(id) == id,
        is_zone_id("/hostedzone/"@ + id),
        is_zone_id(seq!['Z'] + id),
        !"/hostedzone/"@.is_prefix_of(id) && (id.len() == 0 || id[0] != 'Z') ==> !is_zone_id(id),
{
    let whole = "/hostedzone/"@ + id;
    assert("/hostedzone/"@.is_prefix_of(whole));
    assert(whole.skip("/hostedzone/"@.len() as int) =~= id);
}

/// A name in the DNS ends with one dot, whether it was written or not.
pub proof fn law_name_ends_with_a_dot(name: Seq<char>)
    requires
        name.len() == 0 || name.last() != '.',
    ensures
        dotted(name) == name + seq!['.'],
        dotted(name + seq!['.']) == name + seq!['.'],
{
    assert(name.push('.') =~= name + seq!['.']);
}

/// A zone that does not exist is not found, and one of which there are several is
/// refused: only a name that exactly one zone has gives an id.
pub proof fn law_zone_must_be_the_only_one(zone: Seq<char>, zones: Seq<ZoneInfo>, i: int, j: int)
    ensures
        (forall|k: int| 0 <= k < zones.len() ==> (#[trigger] zones[k]).name@ != dotted(zone))
            ==> zone_named(zone, zones) matches Err(Failure::NotFound(_)),
        0 <= i < j < zones.len() && zones[i].name@ == dotted(zone) && zones[j].name@ == dotted(zone)
            ==> zone_named(zone, zones) matches Err(Failure::Usage(_)),
{
    if forall|k: int| 0 <= k < zones.len() ==> (#[trigger] zones[k]).name@ != dotted(zone) {
        lemma_no_labels(zones, dotted(zone));
    }
    if 0 <= i < j < zones.len() && zones[i].name@ == dotted(zone) && zones[j].name@ == dotted(
        zone,
    ) {
        lemma_two_labels(zones, dotted(zone), i, j);
    }
}

proof fn lemma_no_labels(zones: Seq<ZoneInfo>, name: Seq<char>)
    requires
        forall|k: int| 0 <= k < zones.len() ==> (#[trigger] zones[k]).name@ != name,
    ensures
        matching_labels(zones, name).len() == 0,
    decreases zones.len(),
{
    if zones.len() > 0 {
        let rest = zones.drop_last();
        assert forall|k: int| 0 <= k < rest.len() implies (#[trigger] rest[k]).name@ != name by {
            assert(zones[k].name@ != name);
        }
        lemma_no_labels(rest, name);
        assert(zones[zones.len() - 1].name@ != name);
    }
}

proof fn lemma_some_label(zones: Seq<ZoneInfo>, name: Seq<char>, i: int)
    requires
        0 <= i < zones.len(),
        zones[i].name@ == name,
    ensures
        matching_labels(zones, name).len() >= 1,
    decreases zones.len(),
{
    if i < zones.len() - 1 {
        assert(zones.drop_last()[i] == zones[i]);
        lemma_some_label(zones.drop_last(), name, i);
    }
}

proof fn lemma_two_labels(zones: Seq<ZoneInfo>, name: Seq<char>, i: int, j: int)
    requires
        0 <= i < j < zones.len(),
        zones[i].name@ == name,
        zones[j].name@ == name,
    ensures
        matching_labels(zones, name).len() >= 2,
    decreases zones.len(),
{
    assert(zones.drop_last()[i] == zones[i]);
    if j < zones.len() - 1 {
        assert(zones.drop_last()[j] == zones[j]);
        lemma_two_labels(zones.drop_last(), name, i, j);
    } else {
        lemma_some_label(zones.drop_last(), name, i);
    }
}

/// The record that is found has the name and the type that were asked for, and
/// where none is found there is none.
pub proof fn law_record_is_found_by_name_and_type(
    records: Seq<RecordInfo>,
    name: Seq<char>,
    record_type: Seq<char>,
    i: int,
)
    requires
        0 <= i,
    ensures
        match record_from(records, name, record_type, i) {
            Some(record) => record.name@ == name && record.record_type@ == record_type
                && records.contains(record),
            None => forall|k: int|
                i <= k < records.len() ==> (#[trigger] records[k]).name@ != name
                    || records[k].record_type@ != record_type,
        },
    decreases records.len() - i,
{
    if i < records.len() {
        if records[i].name@ == name && records[i].record_type@ == record_type {
            assert(records.contains(records[i]));
        } else {
            law_record_is_found_by_name_and_type(records, name, record_type, i + 1);
        }
    }
}

/// A change sets the record that the words name: the name with its dot, the type
/// in upper case and all the values, in order; for as long as the option says, or
/// five minutes, and by the action of its option, or by replacing what is there.
/// Without a value it is refused.
pub proof fn law_change_is_as_worded(args: Seq<Seq<char>>, ttl: i64)
    ensures
        common::positionals(args).len() > 3 ==> (change_of(args) matches Ok(change) && {
            let words = common::positionals(args);
            &&& change.name == dotted(words[1])
            &&& change.record_type == text::uppercase(words[2])
            &&& change.values.len() == words.len() - 3
            &&& forall|i: int|
                0 <= i < change.values.len() ==> #[trigger] change.values[i] == words[i + 3]
            &&& common::option_of(args, "--ttl"@) is None ==> change.ttl == 300
            &&& common::option_of(args, "--ttl"@) == Some(crate::number::signed_decimal(ttl as int))
                ==> change.ttl == ttl
            &&& match common::option_of(args, "--action"@) {
                Some(action) => change.action == text::uppercase(action),
                None => change.action == "UPSERT"@,
            }
        }),
        common::positionals(args).len() <= 3 ==> change_of(args) matches Err(Failure::Usage(_)),
{
    if common::option_of(args, "--ttl"@) == Some(crate::number::signed_decimal(ttl as int)) {
        common::law_number_option_is_read_back(args, "--ttl"@, ttl as int);
    }
}

/// The row of a record lists its values in order.
pub proof fn law_record_values_are_shown(record: RecordInfo, i: int)
    requires
        0 <= i < record.values@.len(),
    ensures
        record_tree(record)->Object_0["values"@] matches JsonTree::Array(values) && values.len()
            == record.values@.len() && values[i] == JsonTree::Text(record.values@[i]@),
{
}

/// The row of a zone shows its id without the path, and its name.
pub proof fn law_zone_row_shows_it(zone: ZoneInfo)
    ensures
        output::shows(zone_tree(zone), "id"@, clean_id(zone.id@)),
        output::shows(zone_tree(zone), "name"@, zone.name@),
        output::shows(zone_tree(zone), "private"@, match zone.private {
            Some(b) => output::written_bool(b),
            None => Seq::empty(),
        }),
        output::shows(zone_tree(zone), "record_count"@, output::written_number(zone.record_count)),
{
    reveal_strlit("id");
    reveal_strlit("name");
    reveal_strlit("private");
    reveal_strlit("record_count");
    assert("id"@.len() == 2);
    assert("name"@.len() == 4);
    assert("private"@.len() == 7);
    assert("record_count"@.len() == 12);
    let fields = zone_tree(zone)->Object_0;
    output::lemma_shows(fields, "id"@);
    output::lemma_shows(fields, "name"@);
    output::lemma_shows(fields, "private"@);
    output::lemma_shows(fields, "record_count"@);
}

/// The row of a record shows its name, its type and how long it is kept.
pub proof fn law_record_row_shows_it(record: RecordInfo)
    ensures
        output::shows(record_tree(record), "name"@, record.name@),
        output::shows(record_tree(record), "type"@, record.record_type@),
        output::shows(record_tree(record), "ttl"@, output::written_number(record.ttl)),
{
    reveal_strlit("name");
    reveal_strlit("type");
    reveal_strlit("ttl");
    assert("name"@.len() == 4);
    assert("type"@.len() == 4);
    assert("ttl"@.len() == 3);
    assert("name"@[0] != "type"@[0]);
    reveal_strlit("values");
    assert("values"@.len() == 6);
    let fields = record_tree(record)->Object_0;
    output::lemma_shows(fields, "name"@);
    output::lemma_shows(fields, "type"@);
    output::lemma_shows(fields, "ttl"@);
}

/// A record is asked for by the second word, and by the type of the option, else
/// the third word, else as an address; a listing starts where its options say.
pub proof fn law_record_is_as_asked(
    words: Seq<Seq<char>>,
    value: Seq<char>,
    r: Result<RecordKey, AwlError>,
    s: ListStart,
)
    requires
        common::are_words(words),
        !common::is_option(value),
    ensures
        words.len() == 2 && record_asked(words, r) ==> (r matches Ok(key)
            && key.name@ == dotted(words[1]) && key.record_type@ == text::uppercase("A"@)),
        words.len() > 2 && record_asked(words, r) ==> (r matches Ok(key)
            && key.name@ == dotted(words[1]) && key.record_type@ == text::uppercase(words[2])),
        words.len() > 1 && record_asked(words.push("--type"@).push(value), r)
            ==> (r matches Ok(key) && key.name@ == dotted(words[1])
            && key.record_type@ == text::uppercase(value)),
        words.len() < 2 && record_asked(words, r) ==> (r matches Err(error) && error@ is Usage),
        start_asked(words, s) ==> s.name is None && s.record_type is None,
        start_asked(words.push("--type"@).push(value), s) ==> s.name is None
            && s.record_type.deep_view() == Some(text::uppercase(value)),
        start_asked(words.push("--name"@).push(value), s) ==> s.record_type is None
            && s.name.deep_view() == Some(dotted(value)),
{
    reveal_strlit("--type");
    reveal_strlit("--name");
    assert("--type"@.len() == 6);
    assert("--name"@.len() == 6);
    assert("--type"@[2] != "--name"@[2]);
    common::law_options_take_values();
    common::law_words_give_no_option(words);
    common::law_option_among_words(words, "--type"@, value);
    common::law_option_among_words(words, "--name"@, value);
}

/// The record of a change tells what was changed, how, and how far it has come.
pub proof fn law_change_row_shows_it(
    change: Change,
    change_id: Option<Seq<char>>,
    status: Option<Seq<char>>,
)
    ensures
        change_tree(change, change_id, status)->Object_0["values"@] == json::texts(change.values),
        output::shows(change_tree(change, change_id, status), "name"@, change.name),
        output::shows(change_tree(change, change_id, status), "type"@, change.record_type),
        output::shows(
            change_tree(change, change_id, status),
            "ttl"@,
            crate::number::signed_decimal(change.ttl),
        ),
        output::shows(change_tree(change, change_id, status), "action"@, change.action),
        output::shows(
            change_tree(change, change_id, status),
            "change_id"@,
            output::written_text(change_id),
        ),
        output::shows(
            change_tree(change, change_id, status),
            "status"@,
            output::written_text(status),
        ),
{
    reveal_strlit("values");
    assert("values"@.len() == 6);
    reveal_strlit("name");
    reveal_strlit("type");
    reveal_strlit("ttl");
    reveal_strlit("action");
    reveal_strlit("change_id");
    reveal_strlit("status");
    assert("name"@.len() == 4);
    assert("type"@.len() == 4);
    assert("ttl"@.len() == 3);
    assert("action"@.len() == 6);
    assert("change_id"@.len() == 9);
    assert("status"@.len() == 6);
    assert("name"@[0] != "type"@[0]);
    assert("action"@[0] != "status"@[0]);
    assert("values"@[0] == 'v' && "action"@[0] == 'a' && "status"@[0] == 's');
    let fields = change_tree(change, change_id, status)->Object_0;
    output::lemma_shows(fields, "name"@);
    output::lemma_shows(fields, "type"@);
    output::lemma_shows(fields, "ttl"@);
    output::lemma_shows(fields, "action"@);
    output::lemma_shows(fields, "change_id"@);
    output::lemma_shows(fields, "status"@);
}

/// A record that is found is shown; one that is not is said to be missing, by its
/// name.
pub proof fn law_missing_record_is_named(key: RecordKey, records: Seq<RecordInfo>)
    ensures
        record_from(records, key.name@, key.record_type@, 0) matches Some(record) ==> record_shown(
            key,
            records,
        ) == Ok::<Shown, Failure>(Shown::One(record_tree(record))),
        record_from(records, key.name@, key.record_type@, 0) is None ==> (record_shown(
            key,
            records,
        ) matches Err(Failure::NotFound(message)) && text::find_text(message, key.name@) is Some),
{
    let message = "record "@ + key.name@ + " "@ + key.record_type@ + " not found"@;
    let rest = " "@ + key.record_type@ + " not found"@;
    assert(message =~= "record "@ + key.name@ + rest);
    text::law_found_first("record "@, key.name@, rest);
}

/// There is a record for each of the zones, in order.
pub proof fn law_zone_rows_are_all_shown(zones: Seq<ZoneInfo>, i: int)
    requires
        0 <= i < zones.len(),
    ensures
        zones_shown(zones) matches Shown::Many(rows) && rows.len() == zones.len() && rows[i]
            == zone_tree(zones[i]),
{
}

/// There is a record for each of the records, in order.
pub proof fn law_record_rows_are_all_shown(records: Seq<RecordInfo>, i: int)
    requires
        0 <= i < records.len(),
    ensures
        records_shown(records) matches Shown::Many(rows) && rows.len() == records.len() && rows[i]
            == record_tree(records[i]),
{
}

} // verus!
