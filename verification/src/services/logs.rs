//! Logs.
use vstd::hash_set::StringHashSet;
use vstd::prelude::*;

use crate::client;
use crate::error::{AwlError, Failure};
use crate::json::{self, Fields, Json, JsonTree};
use crate::output::{self, Output, Shown};
use crate::services::common;
use crate::text;

verus! {

/// The prefix of the groups that `ls` lists.
pub fn group_prefix(args: &[String]) -> (r: Option<String>)
    ensures
        r.deep_view() == common::option_of(args.deep_view(), "--prefix"@),
{
    common::option_value(args, "--prefix")
}

/// A log group as the service lists it.
#[derive(Debug)]
pub struct GroupInfo {
    pub name: Option<String>,
    pub stored_bytes: Option<i64>,
    pub retention_days: Option<i64>,
}

/// The record of a log group.
pub open spec fn group_tree(group: GroupInfo) -> JsonTree {
    JsonTree::Object(
        map![
            "log_group_name"@ => json::optional_text(group.name.deep_view()),
            "stored_bytes"@ => json::optional_i64(group.stored_bytes),
            "retention_days"@ => json::optional_i64(group.retention_days),
        ],
    )
}

/// The records of the groups.
pub open spec fn groups_shown(groups: Seq<GroupInfo>) -> Shown {
    Shown::Many(groups.map_values(|group: GroupInfo| group_tree(group)))
}

/// What is shown of log groups.
pub fn group_rows(groups: &Vec<GroupInfo>) -> (r: Output)
    ensures
        r@ == groups_shown(groups@),
{
    let mut rows: Vec<Json> = Vec::new();
    let mut i: usize = 0;
    while i < groups.len()
        invariant
            i <= groups.len(),
            rows@.len() == i,
            forall|j: int| 0 <= j < i ==> (#[trigger] rows@[j]).tree() == group_tree(groups@[j]),
        decreases groups.len() - i,
    {
        let mut row = Fields::new();
        row.insert("log_group_name", Json::optional_string(&groups[i].name));
        row.insert("stored_bytes", Json::optional_signed(groups[i].stored_bytes));
        row.insert("retention_days", Json::optional_signed(groups[i].retention_days));
        rows.push(Json::Object(row));
        i += 1;
    }
    assert(json::trees(rows@) =~= groups@.map_values(|group: GroupInfo| group_tree(group)));
    Output::Many(rows)
}

/// The streams that `streams` lists.
#[derive(Debug)]
pub struct StreamPlan {
    pub group: String,
    pub limit: Option<i32>,
}

/// Which streams the arguments ask for.
pub open spec fn streams_asked(args: Seq<Seq<char>>, r: Result<StreamPlan, AwlError>) -> bool {
    match r {
        Ok(plan) => {
            &&& common::required_at(common::positionals(args), 0, "group"@) == Ok::<
                Seq<char>,
                Failure,
            >(plan.group@)
            &&& (match plan.limit {
                Some(n) => Some(n as int),
                None => None,
            }) == common::i32_of(args, "--limit"@)
        },
        Err(error) => common::required_at(common::positionals(args), 0, "group"@) == Err::<
            Seq<char>,
            Failure,
        >(error@),
    }
}

/// The streams that `streams` lists.
pub fn stream_plan(args: &[String]) -> (r: Result<StreamPlan, AwlError>)
    ensures
        streams_asked(args.deep_view(), r),
{
    let words = common::positional(args);
    match common::required(words.as_slice(), 0, "group") {
        Err(error) => Err(error),
        Ok(group) => Ok(StreamPlan { group, limit: common::option_i32(args, "--limit") }),
    }
}

/// A log stream as the service lists it.
#[derive(Debug)]
pub struct StreamInfo {
    pub name: Option<String>,
    pub last_event_timestamp: Option<i64>,
}

/// The record of a log stream.
pub open spec fn stream_tree(stream: StreamInfo) -> JsonTree {
    JsonTree::Object(
        map![
            "log_stream_name"@ => json::optional_text(stream.name.deep_view()),
            "last_event_timestamp"@ => json::optional_i64(stream.last_event_timestamp),
        ],
    )
}

/// The records of the streams.
pub open spec fn streams_shown(streams: Seq<StreamInfo>) -> Shown {
    Shown::Many(streams.map_values(|stream: StreamInfo| stream_tree(stream)))
}

/// What is shown of log streams.
pub fn stream_rows(streams: &Vec<StreamInfo>) -> (r: Output)
    ensures
        r@ == streams_shown(streams@),
{
    let mut rows: Vec<Json> = Vec::new();
    let mut i: usize = 0;
    while i < streams.len()
        invariant
            i <= streams.len(),
            rows@.len() == i,
            forall|j: int| 0 <= j < i ==> (#[trigger] rows@[j]).tree() == stream_tree(streams@[j]),
        decreases streams.len() - i,
    {
        let mut row = Fields::new();
        row.insert("log_stream_name", Json::optional_string(&streams[i].name));
        row.insert(
            "last_event_timestamp",
            Json::optional_signed(streams[i].last_event_timestamp),
        );
        rows.push(Json::Object(row));
        i += 1;
    }
    assert(json::trees(rows@) =~= streams@.map_values(|stream: StreamInfo| stream_tree(stream)));
    Output::Many(rows)
}

/// The events that `tail` and `get` read: those of one stream, or of the whole
/// group.
#[derive(Debug)]
pub struct EventPlan {
    pub group: String,
    pub stream: Option<String>,
}

/// Which events the arguments ask for.
pub open spec fn events_asked(args: Seq<Seq<char>>, r: Result<EventPlan, AwlError>) -> bool {
    let words = common::positionals(args);
    match r {
        Ok(plan) => {
            &&& common::required_at(words, 0, "group"@) == Ok::<Seq<char>, Failure>(
                plan.group@,
            )
            &&& plan.stream.deep_view() == client::first_of(
                common::word_at(words, 1),
                common::option_of(args, "--stream"@),
            )
        },
        Err(error) => common::required_at(words, 0, "group"@) == Err::<Seq<char>, Failure>(
            error@,
        ),
    }
}

/// The events that `tail` and `get` read: the stream is the second positional
/// argument, or else that of the option.
pub fn event_plan(args: &[String]) -> (r: Result<EventPlan, AwlError>)
    ensures
        events_asked(args.deep_view(), r),
{
    let words = common::positional(args);
    match common::required(words.as_slice(), 0, "group") {
        Err(error) => Err(error),
        Ok(group) => Ok(
            EventPlan {
                group,
                stream: client::first_text(
                    common::word(words.as_slice(), 1),
                    common::option_value(args, "--stream"),
                ),
            },
        ),
    }
}

/// Whether `tail` goes on with the events that come after those that are there.
pub fn follows(args: &[String]) -> (r: bool)
    ensures
        r == args.deep_view().contains("--follow"@),
{
    common::has_flag(args, "--follow")
}

/// A log event. Its name and its stream are known where the events of a group were
/// read.
#[derive(Debug)]
pub struct EventInfo {
    pub id: Option<String>,
    pub timestamp: Option<i64>,
    pub message: Option<String>,
    pub stream: Option<String>,
    pub ingestion_time: Option<i64>,
}

/// The record of an event, with its stream where `grouped`.
pub open spec fn event_tree(event: EventInfo, grouped: bool) -> JsonTree {
    let fields = map![
        "timestamp"@ => json::optional_i64(event.timestamp),
        "message"@ => json::optional_text(event.message.deep_view()),
        "ingestion_time"@ => json::optional_i64(event.ingestion_time),
    ];
    JsonTree::Object(
        if grouped {
            fields.insert("log_stream_name"@, json::optional_text(event.stream.deep_view()))
        } else {
            fields
        },
    )
}

/// The records of the events.
pub open spec fn events_shown(events: Seq<EventInfo>, grouped: bool) -> Shown {
    Shown::Many(events.map_values(|event: EventInfo| event_tree(event, grouped)))
}

/// What is shown of events: with their streams where `grouped`, that is where the
/// events of a whole group were read.
pub fn event_rows(events: &Vec<EventInfo>, grouped: bool) -> (r: Output)
    ensures
        r@ == events_shown(events@, grouped),
{
    let mut rows: Vec<Json> = Vec::new();
    let mut i: usize = 0;
    while i < events.len()
        invariant
            i <= events.len(),
            rows@.len() == i,
            forall|j: int|
                0 <= j < i ==> (#[trigger] rows@[j]).tree() == event_tree(events@[j], grouped),
        decreases events.len() - i,
    {
        let mut row = Fields::new();
        row.insert("timestamp", Json::optional_signed(events[i].timestamp));
        row.insert("message", Json::optional_string(&events[i].message));
        row.insert("ingestion_time", Json::optional_signed(events[i].ingestion_time));
        if grouped {
            row.insert("log_stream_name", Json::optional_string(&events[i].stream));
        }
        rows.push(Json::Object(row));
        i += 1;
    }
    assert(json::trees(rows@) =~= events@.map_values(
        |event: EventInfo| event_tree(event, grouped),
    ));
    Output::Many(rows)
}

/// Events that are followed: from which time on they are asked for, which page of
/// them, and which were shown.
pub struct Follow {
    from: Option<i64>,
    latest: Option<i64>,
    page: Option<String>,
    seen: StringHashSet,
}

/// The meaning of a `Follow`.
pub struct Following {
    /// The time from which on events are asked for.
    pub from: Option<i64>,
    /// The latest time of an event that came.
    pub latest: Option<i64>,
    /// The page that is asked for.
    pub page: Option<Seq<char>>,
    /// The names of the events that came.
    pub seen: Set<Seq<char>>,
}

impl View for Follow {
    type V = Following;

    closed spec fn view(&self) -> Following {
        Following {
            from: self.from,
            latest: self.latest,
            page: self.page.deep_view(),
            seen: self.seen@,
        }
    }
}

/// The later of two times.
pub open spec fn later(a: Option<i64>, b: Option<i64>) -> Option<i64> {
    match (a, b) {
        (Some(x), Some(y)) => if x < y {
            b
        } else {
            a
        },
        (None, _) => b,
        (_, None) => a,
    }
}

impl Following {
    /// Nothing asked for yet.
    pub open spec fn new() -> Following {
        Following { from: None, latest: None, page: None, seen: Set::empty() }
    }

    /// An event that did not come before: one without a name, or with a new one.
    pub open spec fn is_new(self, event: EventInfo) -> bool {
        match event.id.deep_view() {
            Some(id) => !self.seen.contains(id),
            None => true,
        }
    }

    /// An event has come.
    pub open spec fn noted(self, event: EventInfo) -> Following {
        Following {
            latest: later(self.latest, event.timestamp),
            seen: match event.id.deep_view() {
                Some(id) => self.seen.insert(id),
                None => self.seen,
            },
            ..self
        }
    }

    /// Events have come, one after another.
    pub open spec fn after(self, events: Seq<EventInfo>) -> Following
        decreases events.len(),
    {
        if events.len() == 0 {
            self
        } else {
            self.after(events.drop_last()).noted(events.last())
        }
    }

    /// Those of the events that are shown: each that did not come before.
    pub open spec fn fresh(self, events: Seq<EventInfo>) -> Seq<EventInfo>
        decreases events.len(),
    {
        if events.len() == 0 {
            Seq::empty()
        } else {
            let shown = self.fresh(events.drop_last());
            if self.after(events.drop_last()).is_new(events.last()) {
                shown.push(events.last())
            } else {
                shown
            }
        }
    }

    /// What is asked for next: the page that follows, or where there is none the
    /// events from the latest time on.
    pub open spec fn turned(self, next: Option<Seq<char>>) -> Following {
        match next {
            Some(_) => Following { page: next, ..self },
            None => Following { page: None, from: self.latest, ..self },
        }
    }

    /// All events so far have come: there is no page that follows, or it is the
    /// one that was asked for.
    pub open spec fn is_at_end(self, next: Option<Seq<char>>) -> bool {
        next is None || next == self.page
    }
}

/// What a page of events leads to: the events that are shown, and whether to wait
/// before the next is asked for.
#[derive(Debug)]
pub struct PageTurn {
    pub events: Vec<EventInfo>,
    pub wait: bool,
}

impl Follow {
    /// Nothing asked for yet.
    pub fn new() -> (r: Follow)
        ensures
            r@ == Following::new(),
    {
        let r = Follow { from: None, latest: None, page: None, seen: StringHashSet::new() };
        assert(r@.seen =~= Set::empty());
        r
    }

    /// The time from which on events are asked for.
    pub fn start_time(&self) -> (r: Option<i64>)
        ensures
            r == self@.from,
    {
        self.from
    }

    /// The page that is asked for.
    pub fn page(&self) -> (r: Option<String>)
        ensures
            r.deep_view() == self@.page,
    {
        client::copy_text(&self.page)
    }

    /// A page of events has come, with the name of the page that follows it.
    pub fn turn(&mut self, events: Vec<EventInfo>, next: Option<String>) -> (r: PageTurn)
        ensures
            r.events@ == old(self)@.fresh(events@),
            r.wait == old(self)@.is_at_end(next.deep_view()),
            final(self)@ == old(self)@.after(events@).turned(next.deep_view()),
    {
        let ghost before = self@;
        let wait = match (&next, &self.page) {
            (None, _) => true,
            (Some(next), Some(page)) => text::same(next.as_str(), page.as_str()),
            (Some(_), None) => false,
        };
        let mut shown: Vec<EventInfo> = Vec::new();
        assert(events@.take(0) =~= Seq::empty());
        for event in it: events
            invariant
                it.seq() == events@,
                self@ == before.after(events@.take(it.index() as int)),
                shown@ == before.fresh(events@.take(it.index() as int)),
        {
            let ghost i = it.index() as int;
            assert(event == events@[i]);
            assert(events@.take(i + 1).drop_last() =~= events@.take(i));
            assert(events@.take(i + 1).last() == event);
            let ghost known = self@;
            self.latest = match (self.latest, event.timestamp) {
                (Some(a), Some(b)) => if a < b {
                    Some(b)
                } else {
                    Some(a)
                },
                (None, b) => b,
                (a, None) => a,
            };
            let is_new = match &event.id {
                Some(id) => {
                    let is_new = !self.seen.contains(id.as_str());
                    self.seen.insert(id.clone());
                    is_new
                },
                None => true,
            };
            assert(is_new == known.is_new(event));
            assert(self@ == known.noted(event));
            if is_new {
                shown.push(event);
            }
        }
        assert(events@.take(events@.len() as int) =~= events@);
        if next.is_none() {
            self.from = self.latest;
        }
        self.page = next;
        PageTurn { events: shown, wait }
    }
}

/// No event with a name is shown twice: what is shown did not come before, and no
/// two events that are shown have one name.
pub proof fn law_event_is_shown_once(following: Following, events: Seq<EventInfo>)
    ensures
        forall|i: int|
            0 <= i < following.fresh(events).len() ==> following.is_new(
                #[trigger] following.fresh(events)[i],
            ),
        forall|i: int, j: int|
            0 <= i < j < following.fresh(events).len() && (#[trigger] following.fresh(
                events,
            )[i]).id is Some ==> following.fresh(events)[i].id.deep_view() != (
            #[trigger] following.fresh(events)[j]).id.deep_view(),
    decreases events.len(),
{
    if events.len() > 0 {
        let rest = events.drop_last();
        law_event_is_shown_once(following, rest);
        lemma_seen(following, rest);
    }
}

/// What was shown has come, and what came before has come.
proof fn lemma_seen(following: Following, events: Seq<EventInfo>)
    ensures
        following.seen.subset_of(following.after(events).seen),
        forall|i: int|
            0 <= i < following.fresh(events).len() ==> ((#[trigger] following.fresh(
                events,
            )[i]).id.deep_view() matches Some(id) ==> following.after(events).seen.contains(id)),
    decreases events.len(),
{
    if events.len() > 0 {
        lemma_seen(following, events.drop_last());
    }
}

/// No event is passed over: each that comes, and did not come before, is shown, or
/// another with its name is.
pub proof fn law_event_is_not_lost(following: Following, events: Seq<EventInfo>, i: int)
    requires
        0 <= i < events.len(),
        following.is_new(events[i]),
    ensures
        following.fresh(events).contains(events[i]) || (events[i].id is Some && exists|j: int|
            0 <= j < following.fresh(events).len() && (#[trigger] following.fresh(
                events,
            )[j]).id.deep_view() == events[i].id.deep_view()),
    decreases events.len(),
{
    let rest = events.drop_last();
    let shown = following.fresh(rest);
    let all = following.fresh(events);
    if i < rest.len() {
        assert(rest[i] == events[i]);
        law_event_is_not_lost(following, rest, i);
        if shown.contains(events[i]) {
            let k = choose|k: int| 0 <= k < shown.len() && shown[k] == events[i];
            assert(all[k] == events[i]);
        } else {
            let j = choose|j: int|
                0 <= j < shown.len() && (#[trigger] shown[j]).id.deep_view()
                    == events[i].id.deep_view();
            assert(all[j].id.deep_view() == events[i].id.deep_view());
        }
    } else if following.after(rest).is_new(events[i]) {
        assert(all[all.len() - 1] == events[i]);
    } else {
        let id = events[i].id.deep_view()->Some_0;
        lemma_came(following, rest, id);
    }
}

/// A name that came with events is that of one that is shown.
proof fn lemma_came(following: Following, events: Seq<EventInfo>, id: Seq<char>)
    requires
        !following.seen.contains(id),
        following.after(events).seen.contains(id),
    ensures
        exists|j: int|
            0 <= j < following.fresh(events).len() && (#[trigger] following.fresh(
                events,
            )[j]).id.deep_view() == Some(id),
    decreases events.len(),
{
    if events.len() > 0 {
        let rest = events.drop_last();
        let shown = following.fresh(rest);
        let all = following.fresh(events);
        if following.after(rest).seen.contains(id) {
            lemma_came(following, rest, id);
            let j = choose|j: int|
                0 <= j < shown.len() && (#[trigger] shown[j]).id.deep_view() == Some(id);
            assert(all[j].id.deep_view() == Some(id));
        } else {
            assert(all[all.len() - 1].id.deep_view() == Some(id));
        }
    }
}

/// The time from which on events are asked for, once all pages have come, is that
/// of the latest event: no event that came is later, and one has that time.
pub proof fn law_follow_asks_from_the_latest(following: Following, events: Seq<EventInfo>, i: int)
    requires
        0 <= i < events.len(),
        events[i].timestamp is Some,
    ensures
        ({
            let next = following.after(events).turned(None);
            &&& next.from matches Some(from)
            &&& events[i].timestamp->Some_0 <= from
            &&& following.latest matches Some(before) ==> before <= from
            &&& following.latest == Some(from) || exists|j: int|
                0 <= j < events.len() && (#[trigger] events[j]).timestamp == Some(from)
            &&& next.page is None
        }),
    decreases events.len(),
{
    lemma_latest(following, events);
    let last = following.after(events).latest;
    assert(at_most(events[i].timestamp, last));
}

/// A time that is no later than another, where there is one.
spec fn at_most(a: Option<i64>, b: Option<i64>) -> bool {
    a matches Some(x) ==> (b matches Some(y) && x <= y)
}

proof fn lemma_latest(following: Following, events: Seq<EventInfo>)
    ensures
        at_most(following.latest, following.after(events).latest),
        forall|i: int|
            0 <= i < events.len() ==> at_most(
                (#[trigger] events[i]).timestamp,
                following.after(events).latest,
            ),
        following.after(events).latest is Some ==> following.latest == following.after(
            events,
        ).latest || exists|j: int|
            0 <= j < events.len() && (#[trigger] events[j]).timestamp == following.after(
                events,
            ).latest,
    decreases events.len(),
{
    if events.len() > 0 {
        let rest = events.drop_last();
        lemma_latest(following, rest);
        let before = following.after(rest).latest;
        let after = following.after(events).latest;
        assert forall|i: int| 0 <= i < events.len() implies at_most(
            (#[trigger] events[i]).timestamp,
            after,
        ) by {
            if i < rest.len() {
                assert(rest[i] == events[i]);
                assert(at_most(rest[i].timestamp, before));
            }
        }
        if after is Some && after == before && following.latest != after {
            let j = choose|j: int|
                0 <= j < rest.len() && (#[trigger] rest[j]).timestamp == before;
            assert(events[j].timestamp == after);
        } else if after is Some && after != before {
            assert(events[events.len() - 1].timestamp == after);
        }
    }
}

/// The next page is the one that the service names, from the same time on; and
/// there is to be waited exactly where it names none, or the same again.
pub proof fn law_pages_are_turned(following: Following, page: Seq<char>)
    ensures
        following.turned(Some(page)).page == Some(page),
        following.turned(Some(page)).from == following.from,
        following.turned(Some(page)).seen == following.seen,
        following.turned(None).seen == following.seen,
        following.turned(Some(page)).latest == following.latest,
        following.is_at_end(None),
        following.is_at_end(Some(page)) <==> following.page == Some(page),
{
}

/// An event that came with one page is not shown again with another.
pub proof fn law_event_is_not_shown_again(
    following: Following,
    first: Seq<EventInfo>,
    next: Option<Seq<char>>,
    second: Seq<EventInfo>,
    i: int,
    k: int,
)
    requires
        0 <= i < first.len(),
        first[i].id is Some,
        0 <= k < following.after(first).turned(next).fresh(second).len(),
    ensures
        following.after(first).turned(next).fresh(second)[k].id.deep_view()
            != first[i].id.deep_view(),
{
    let state = following.after(first).turned(next);
    lemma_all_seen(following, first, i);
    law_event_is_shown_once(state, second);
    assert(state.is_new(state.fresh(second)[k]));
}

proof fn lemma_all_seen(following: Following, events: Seq<EventInfo>, i: int)
    requires
        0 <= i < events.len(),
        events[i].id is Some,
    ensures
        following.after(events).seen.contains(events[i].id.deep_view()->Some_0),
    decreases events.len(),
{
    if i < events.len() - 1 {
        assert(events.drop_last()[i] == events[i]);
        lemma_all_seen(following, events.drop_last(), i);
    }
}

/// Events are shown in the order in which they come.
pub proof fn law_new_event_is_shown_last(
    following: Following,
    events: Seq<EventInfo>,
    event: EventInfo,
)
    ensures
        following.after(events).is_new(event) ==> following.fresh(events.push(event))
            == following.fresh(events).push(event),
        !following.after(events).is_new(event) ==> following.fresh(events.push(event))
            == following.fresh(events),
        event.id is None ==> following.after(events).is_new(event),
{
    assert(events.push(event).drop_last() =~= events);
}

/// The row of an event of a whole group shows its stream, and that of an event of
/// one stream does not.
pub proof fn law_event_row_shows_it(event: EventInfo, grouped: bool)
    ensures
        output::shows(
            event_tree(event, grouped),
            "timestamp"@,
            output::written_number(event.timestamp),
        ),
        output::shows(
            event_tree(event, grouped),
            "message"@,
            output::written_text(event.message.deep_view()),
        ),
        output::shows(
            event_tree(event, grouped),
            "ingestion_time"@,
            output::written_number(event.ingestion_time),
        ),
        output::shows(
            event_tree(event, true),
            "log_stream_name"@,
            output::written_text(event.stream.deep_view()),
        ),
        !event_tree(event, false)->Object_0.contains_key("log_stream_name"@),
{
    reveal_strlit("timestamp");
    reveal_strlit("message");
    reveal_strlit("ingestion_time");
    reveal_strlit("log_stream_name");
    assert("timestamp"@.len() == 9);
    assert("message"@.len() == 7);
    assert("ingestion_time"@.len() == 14);
    assert("log_stream_name"@.len() == 15);
    let fields = event_tree(event, grouped)->Object_0;
    output::lemma_shows(fields, "timestamp"@);
    output::lemma_shows(fields, "message"@);
    output::lemma_shows(fields, "ingestion_time"@);
    output::lemma_shows(event_tree(event, true)->Object_0, "log_stream_name"@);
}

/// The row of a log group shows its name, its size and how long it is kept.
pub proof fn law_group_row_shows_it(group: GroupInfo)
    ensures
        output::shows(
            group_tree(group),
            "log_group_name"@,
            output::written_text(group.name.deep_view()),
        ),
        output::shows(
            group_tree(group),
            "stored_bytes"@,
            output::written_number(group.stored_bytes),
        ),
        output::shows(
            group_tree(group),
            "retention_days"@,
            output::written_number(group.retention_days),
        ),
{
    reveal_strlit("log_group_name");
    reveal_strlit("stored_bytes");
    reveal_strlit("retention_days");
    assert("log_group_name"@.len() == 14);
    assert("stored_bytes"@.len() == 12);
    assert("retention_days"@.len() == 14);
    assert("log_group_name"@[0] != "retention_days"@[0]);
    let fields = group_tree(group)->Object_0;
    output::lemma_shows(fields, "log_group_name"@);
    output::lemma_shows(fields, "stored_bytes"@);
    output::lemma_shows(fields, "retention_days"@);
}

/// The row of a log stream shows its name and the time of its last event.
pub proof fn law_stream_row_shows_it(stream: StreamInfo)
    ensures
        output::shows(
            stream_tree(stream),
            "log_stream_name"@,
            output::written_text(stream.name.deep_view()),
        ),
        output::shows(
            stream_tree(stream),
            "last_event_timestamp"@,
            output::written_number(stream.last_event_timestamp),
        ),
{
    reveal_strlit("log_stream_name");
    reveal_strlit("last_event_timestamp");
    assert("log_stream_name"@.len() == 15);
    assert("last_event_timestamp"@.len() == 20);
    let fields = stream_tree(stream)->Object_0;
    output::lemma_shows(fields, "log_stream_name"@);
    output::lemma_shows(fields, "last_event_timestamp"@);
}

/// The streams are those of the group that the first word names, as many as the
/// option says.
pub proof fn law_streams_are_as_asked(
    words: Seq<Seq<char>>,
    n: i32,
    value: Seq<char>,
    r: Result<StreamPlan, AwlError>,
)
    requires
        common::are_words(words),
        words.len() > 0,
        !common::is_option(value),
        value == crate::number::signed_decimal(n as int),
    ensures
        streams_asked(words, r) ==> (r matches Ok(plan) && plan.group@ == words[0]
            && plan.limit is None),
        streams_asked(words.push("--limit"@).push(value), r) ==> (r matches Ok(plan) && plan.group@
            == words[0] && plan.limit == Some(n)),
{
    reveal_strlit("--limit");
    assert("--limit"@.len() == 7);
    common::law_options_take_values();
    common::law_words_give_no_option(words);
    common::law_option_among_words(words, "--limit"@, value);
    common::law_number_option_is_read_back(words.push("--limit"@).push(value), "--limit"@, n as int);
}

/// The events are those of the group that the first word names, in the stream that
/// the second word names, or else the option.
pub proof fn law_events_are_as_asked(
    words: Seq<Seq<char>>,
    value: Seq<char>,
    r: Result<EventPlan, AwlError>,
)
    requires
        common::are_words(words),
        !common::is_option(value),
    ensures
        words.len() == 1 && events_asked(words, r) ==> (r matches Ok(plan)
            && plan.group@ == words[0] && plan.stream is None),
        words.len() > 1 && events_asked(words, r) ==> (r matches Ok(plan)
            && plan.group@ == words[0] && plan.stream.deep_view() == Some(words[1])),
        words.len() == 1 && events_asked(words.push("--stream"@).push(value), r)
            ==> (r matches Ok(plan) && plan.group@ == words[0]
            && plan.stream.deep_view() == Some(value)),
        words.len() > 1 && events_asked(words.push("--stream"@).push(value), r)
            ==> (r matches Ok(plan) && plan.group@ == words[0]
            && plan.stream.deep_view() == Some(words[1])),
        words.len() == 0 && events_asked(words, r) ==> (r matches Err(error) && error@ is Usage),
{
    reveal_strlit("--stream");
    assert("--stream"@.len() == 8);
    common::law_options_take_values();
    common::law_words_give_no_option(words);
    common::law_option_among_words(words, "--stream"@, value);
}

/// There is a record for each of the groups, in order.
pub proof fn law_group_rows_are_all_shown(groups: Seq<GroupInfo>, i: int)
    requires
        0 <= i < groups.len(),
    ensures
        groups_shown(groups) matches Shown::Many(rows) && rows.len() == groups.len() && rows[i]
            == group_tree(groups[i]),
{
}

/// There is a record for each of the streams, in order.
pub proof fn law_stream_rows_are_all_shown(streams: Seq<StreamInfo>, i: int)
    requires
        0 <= i < streams.len(),
    ensures
        streams_shown(streams) matches Shown::Many(rows) && rows.len() == streams.len() && rows[i]
            == stream_tree(streams[i]),
{
}

/// There is a record for each of the events, in order.
pub proof fn law_event_rows_are_all_shown(events: Seq<EventInfo>, grouped: bool, i: int)
    requires
        0 <= i < events.len(),
    ensures
        events_shown(events, grouped) matches Shown::Many(rows) && rows.len() == events.len() && rows[i]
            == event_tree(events[i], grouped),
{
}

} // verus!
