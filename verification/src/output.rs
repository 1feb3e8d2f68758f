//! What a command shows, in each of the output formats.
use vstd::prelude::*;
use vstd::utf8::encode_utf8;

use crate::cli::{Globals, OutputFormat};
use crate::error::{told, AwlError, Failure};
use crate::json::{self, Fields, Json, JsonTree};
use crate::text;

verus! {

/// The result of a command.
#[derive(Debug)]
pub enum Output {
    /// Nothing.
    Empty,
    /// One record.
    One(Json),
    /// A list of records.
    Many(Vec<Json>),
    /// Text to be shown as it is.
    Plain(String),
}

/// The meaning of an `Output`.
pub enum Shown {
    Empty,
    One(JsonTree),
    Many(Seq<JsonTree>),
    Plain(Seq<char>),
}

impl View for Output {
    type V = Shown;

    open spec fn view(&self) -> Shown {
        match self {
            Output::Empty => Shown::Empty,
            Output::One(value) => Shown::One(value.tree()),
            Output::Many(values) => Shown::Many(json::trees(values@)),
            Output::Plain(value) => Shown::Plain(value@),
        }
    }
}

impl Output {
    /// One record.
    pub fn one(value: Json) -> (r: Output)
        ensures
            r@ == Shown::One(value.tree()),
    {
        Output::One(value)
    }

    /// A list of records.
    pub fn many(values: Vec<Json>) -> (r: Output)
        ensures
            r@ == Shown::Many(json::trees(values@)),
    {
        Output::Many(values)
    }
}

/// The format that is used where none was asked for.
pub open spec fn default_format(terminal: bool) -> OutputFormat {
    if terminal {
        OutputFormat::Table
    } else {
        OutputFormat::Jsonl
    }
}

/// A value in one cell or on one line.
pub open spec fn plain(tree: JsonTree) -> Seq<char> {
    match tree {
        JsonTree::Null => Seq::empty(),
        JsonTree::Bool(b) => if b {
            "true"@
        } else {
            "false"@
        },
        JsonTree::Number(s) => s,
        JsonTree::Text(s) => s,
        JsonTree::Array(_) => json::json_text(tree),
        JsonTree::Object(_) => json::json_text(tree),
    }
}

/// The values of an object in the order of their names, with tabs between them;
/// any other value in plain form.
pub open spec fn tsv(tree: JsonTree) -> Seq<char> {
    match tree {
        JsonTree::Object(fields) => text::joined(
            json::ordered(fields.dom()).map_values(|name: Seq<char>| plain(fields[name])),
            "\t"@,
        ),
        _ => plain(tree),
    }
}

/// Texts, each on a line of its own.
pub open spec fn lines(parts: Seq<Seq<char>>) -> Seq<char>
    decreases parts.len(),
{
    if parts.len() == 0 {
        Seq::empty()
    } else {
        lines(parts.drop_last()) + parts.last() + "\n"@
    }
}

/// A text on a line of its own.
pub open spec fn line(s: Seq<char>) -> Seq<char> {
    s + "\n"@
}

/// The records of an output, where it is made of records.
pub open spec fn records(shown: Shown) -> Seq<JsonTree> {
    match shown {
        Shown::One(tree) => seq![tree],
        Shown::Many(trees) => trees,
        _ => Seq::empty(),
    }
}

/// The names of all fields of the records.
pub open spec fn header_names(rows: Seq<JsonTree>) -> Set<Seq<char>>
    decreases rows.len(),
{
    if rows.len() == 0 {
        Set::empty()
    } else {
        match rows.last() {
            JsonTree::Object(fields) => header_names(rows.drop_last()).union(fields.dom()),
            _ => header_names(rows.drop_last()),
        }
    }
}

/// The column heads of a table.
pub open spec fn headers(rows: Seq<JsonTree>) -> Seq<Seq<char>> {
    json::ordered(header_names(rows))
}

/// The cell of a record in a column.
pub open spec fn cell(row: JsonTree, header: Seq<char>) -> Seq<char> {
    match row {
        JsonTree::Object(fields) => if fields.contains_key(header) {
            plain(fields[header])
        } else {
            Seq::empty()
        },
        _ => Seq::empty(),
    }
}

/// The larger of two numbers.
pub open spec fn larger(a: nat, b: nat) -> nat {
    if a < b {
        b
    } else {
        a
    }
}

/// The width of a column: the largest number of bytes in its head and cells.
pub open spec fn column_width(rows: Seq<JsonTree>, header: Seq<char>) -> nat
    decreases rows.len(),
{
    if rows.len() == 0 {
        encode_utf8(header).len()
    } else {
        larger(
            column_width(rows.drop_last(), header),
            encode_utf8(cell(rows.last(), header)).len(),
        )
    }
}

/// `n` spaces.
pub open spec fn spaces(n: int) -> Seq<char> {
    Seq::new(
        if n < 0 {
            0
        } else {
            n as nat
        },
        |i: int| ' ',
    )
}

/// A text filled up with spaces to a number of characters.
pub open spec fn padded(s: Seq<char>, width: nat) -> Seq<char> {
    s + spaces(width - s.len())
}

/// The cells of a row, each filled up to the width of its column, with two
/// spaces between neighbours.
pub open spec fn padded_row(cells: Seq<Seq<char>>, widths: Seq<nat>) -> Seq<char> {
    text::joined(Seq::new(cells.len(), |i: int| padded(cells[i], widths[i])), "  "@)
}

/// The lines of a table: the column heads and then the records; where the records
/// have no fields, each in plain form.
pub open spec fn table_lines(rows: Seq<JsonTree>) -> Seq<Seq<char>> {
    let heads = headers(rows);
    let widths = heads.map_values(|head: Seq<char>| column_width(rows, head));
    if heads.len() == 0 {
        rows.map_values(|row: JsonTree| plain(row))
    } else {
        seq![padded_row(heads, widths)] + rows.map_values(
            |row: JsonTree| padded_row(heads.map_values(|head: Seq<char>| cell(row, head)), widths),
        )
    }
}

/// What `--field` selects.
pub open spec fn selected(field: Option<Seq<char>>, shown: Shown) -> Result<Shown, Failure> {
    match field {
        None => Ok(shown),
        Some(name) => match shown {
            Shown::One(tree) => selected_of(name, tree),
            Shown::Many(trees) => if trees.len() == 1 {
                selected_of(name, trees[0])
            } else {
                Err(Failure::Usage("--field cannot select from multiple output records"@))
            },
            _ => Err(Failure::Usage("--field requires structured output"@)),
        },
    }
}

/// What `--field` selects of one record.
pub open spec fn selected_of(name: Seq<char>, tree: JsonTree) -> Result<Shown, Failure> {
    match tree {
        JsonTree::Object(fields) => if fields.contains_key(name) {
            Ok(Shown::One(fields[name]))
        } else {
            Err(Failure::Usage("field "@ + text::quoted(name) + " does not exist"@))
        },
        _ => Err(Failure::Usage("--field requires an object output"@)),
    }
}

/// An output as one value.
pub open spec fn whole_tree(shown: Shown) -> JsonTree {
    match shown {
        Shown::Empty => JsonTree::Null,
        Shown::One(tree) => tree,
        Shown::Many(trees) => JsonTree::Array(trees),
        Shown::Plain(s) => JsonTree::Text(s),
    }
}

/// An output in a format.
pub open spec fn formatted(format: OutputFormat, shown: Shown) -> Result<Seq<char>, Failure> {
    match format {
        OutputFormat::Table => match shown {
            Shown::Empty => Ok(Seq::empty()),
            Shown::Plain(s) => Ok(line(s)),
            _ => Ok(lines(table_lines(records(shown)))),
        },
        OutputFormat::Json => match shown {
            Shown::Empty => Ok(line("null"@)),
            Shown::Plain(s) => Ok(line(json::json_text(JsonTree::Text(s)))),
            _ => Ok(line(json::json_pretty(whole_tree(shown)))),
        },
        OutputFormat::Jsonl => match shown {
            Shown::Empty => Ok(Seq::empty()),
            Shown::Plain(s) => Ok(line(json::json_text(JsonTree::Text(s)))),
            _ => Ok(
                lines(records(shown).map_values(|tree: JsonTree| json::json_text(tree))),
            ),
        },
        OutputFormat::Toml => match shown {
            Shown::Empty => Ok(Seq::empty()),
            _ => match json::toml_text(whole_tree(shown)) {
                Ok(s) => Ok(line(s)),
                Err(message) => Err(Failure::Toml(message)),
            },
        },
        OutputFormat::Yaml => match shown {
            Shown::Empty => Ok(Seq::empty()),
            _ => match json::yaml_text(whole_tree(shown)) {
                Ok(s) => Ok(line(s)),
                Err(message) => Err(Failure::Yaml(message)),
            },
        },
        OutputFormat::Tsv => match shown {
            Shown::Empty => Ok(Seq::empty()),
            Shown::Plain(s) => Ok(line(s)),
            _ => Ok(lines(records(shown).map_values(|tree: JsonTree| tsv(tree)))),
        },
        OutputFormat::Plain => match shown {
            Shown::Empty => Ok(Seq::empty()),
            Shown::Plain(s) => Ok(line(s)),
            _ => Ok(lines(records(shown).map_values(|tree: JsonTree| plain(tree)))),
        },
    }
}

/// What is written to standard output.
pub open spec fn emitted(
    quiet: bool,
    format: OutputFormat,
    field: Option<Seq<char>>,
    shown: Shown,
) -> Result<Seq<char>, Failure> {
    if quiet {
        Ok(Seq::empty())
    } else {
        match selected(field, shown) {
            Ok(chosen) => formatted(format, chosen),
            Err(failure) => Err(failure),
        }
    }
}

/// The format that is used where none was asked for.
pub fn auto_format(terminal: bool) -> (r: OutputFormat)
    ensures
        r == default_format(terminal),
{
    if terminal {
        OutputFormat::Table
    } else {
        OutputFormat::Jsonl
    }
}

/// What `--field` selects.
pub fn select_field(globals: &Globals, output: Output) -> (r: Result<Output, AwlError>)
    ensures
        told(r) == selected(globals.field.deep_view(), output@),
{
    match &globals.field {
        None => Ok(output),
        Some(field) => match output {
            Output::One(value) => select_of(field.as_str(), value),
            Output::Many(mut values) => {
                if values.len() == 1 {
                    let value = values.remove(0);
                    select_of(field.as_str(), value)
                } else {
                    Err(AwlError::usage("--field cannot select from multiple output records"))
                }
            },
            _ => Err(AwlError::usage("--field requires structured output")),
        },
    }
}

/// What `--field` selects of one record.
fn select_of(field: &str, value: Json) -> (r: Result<Output, AwlError>)
    ensures
        told(r) == selected_of(field@, value.tree()),
{
    match value {
        Json::Object(fields) => match fields.into_value(field) {
            Some(value) => Ok(Output::One(value)),
            None => Err(
                AwlError::usage(
                    "field ".to_owned().concat(text::quote(field).as_str()).concat(
                        " does not exist",
                    ).as_str(),
                ),
            ),
        },
        _ => Err(AwlError::usage("--field requires an object output")),
    }
}

/// A text on a line of its own.
fn one_line(s: &str) -> (r: String)
    ensures
        r@ == line(s@),
{
    s.to_owned().concat("\n")
}

/// An output as one value.
fn whole_value(output: Output) -> (r: Json)
    ensures
        r.tree() == whole_tree(output@),
{
    match output {
        Output::Empty => Json::Null,
        Output::One(value) => value,
        Output::Many(values) => Json::list(values),
        Output::Plain(value) => Json::Text(value),
    }
}

/// JSON, indented.
fn write_json(output: Output) -> (r: String)
    ensures
        Ok::<Seq<char>, Failure>(r@) == formatted(OutputFormat::Json, output@),
{
    match output {
        Output::Empty => one_line("null"),
        Output::Plain(value) => one_line(Json::Text(value).compact().as_str()),
        _ => one_line(whole_value(output).pretty().as_str()),
    }
}

/// TOML.
fn write_toml(output: Output) -> (r: Result<String, AwlError>)
    ensures
        told(r) == formatted(OutputFormat::Toml, output@),
{
    match output {
        Output::Empty => Ok(nothing()),
        _ => match whole_value(output).toml() {
            Ok(s) => Ok(one_line(s.as_str())),
            Err(message) => Err(AwlError::Toml(message)),
        },
    }
}

/// YAML.
fn write_yaml(output: Output) -> (r: Result<String, AwlError>)
    ensures
        told(r) == formatted(OutputFormat::Yaml, output@),
{
    match output {
        Output::Empty => Ok(nothing()),
        _ => match whole_value(output).yaml() {
            Ok(s) => Ok(one_line(s.as_str())),
            Err(message) => Err(AwlError::Yaml(message)),
        },
    }
}

/// No text.
fn nothing() -> (r: String)
    ensures
        r@ == Seq::<char>::empty(),
{
    let r = String::new();
    assert(r@ =~= Seq::<char>::empty());
    r
}

/// The records of an output.
fn rows_of(output: Output) -> (r: Vec<Json>)
    ensures
        json::trees(r@) == records(output@),
{
    match output {
        Output::One(value) => {
            let mut rows: Vec<Json> = Vec::new();
            rows.push(value);
            assert(json::trees(rows@) =~= seq![value.tree()]);
            rows
        },
        Output::Many(values) => values,
        _ => {
            let rows: Vec<Json> = Vec::new();
            assert(json::trees(rows@) =~= Seq::empty());
            rows
        },
    }
}

/// Texts, each on a line of its own.
fn all_lines(parts: &Vec<String>) -> (r: String)
    ensures
        r@ == lines(parts.deep_view()),
{
    let mut out = nothing();
    let mut i: usize = 0;
    assert(parts.deep_view().take(0) =~= Seq::empty());
    while i < parts.len()
        invariant
            i <= parts.len(),
            out@ == lines(parts.deep_view().take(i as int)),
        decreases parts.len() - i,
    {
        out.append(parts[i].as_str());
        out.append("\n");
        assert(parts.deep_view().take(i + 1).drop_last() =~= parts.deep_view().take(i as int));
        i += 1;
    }
    assert(parts.deep_view().take(i as int) =~= parts.deep_view());
    out
}

/// JSON, each record on a line of its own.
fn write_jsonl(output: Output) -> (r: String)
    ensures
        Ok::<Seq<char>, Failure>(r@) == formatted(OutputFormat::Jsonl, output@),
{
    match output {
        Output::Empty => nothing(),
        Output::Plain(value) => one_line(Json::Text(value).compact().as_str()),
        _ => {
            let ghost want = records(output@).map_values(|tree: JsonTree| json::json_text(tree));
            let rows = rows_of(output);
            let mut parts: Vec<String> = Vec::new();
            let mut i: usize = 0;
            while i < rows.len()
                invariant
                    i <= rows.len(),
                    parts@.len() == i,
                    forall|j: int|
                        0 <= j < i ==> (#[trigger] parts@[j])@ == json::json_text(rows@[j].tree()),
                decreases rows.len() - i,
            {
                parts.push(rows[i].compact());
                i += 1;
            }
            proof {
                assert(json::trees(rows@).len() == rows@.len());
                assert(parts.deep_view() =~= want);
            }
            all_lines(&parts)
        },
    }
}

/// Each record in plain form, on a line of its own.
fn write_plain(output: Output) -> (r: String)
    ensures
        Ok::<Seq<char>, Failure>(r@) == formatted(OutputFormat::Plain, output@),
{
    match output {
        Output::Empty => nothing(),
        Output::Plain(value) => one_line(value.as_str()),
        _ => {
            let rows = rows_of(output);
            plain_lines(&rows)
        },
    }
}

/// Records in plain form, each on a line of its own.
fn plain_lines(rows: &Vec<Json>) -> (r: String)
    ensures
        r@ == lines(json::trees(rows@).map_values(|tree: JsonTree| plain(tree))),
{
    let mut parts: Vec<String> = Vec::new();
    let mut i: usize = 0;
    while i < rows.len()
        invariant
            i <= rows.len(),
            parts@.len() == i,
            forall|j: int| 0 <= j < i ==> (#[trigger] parts@[j])@ == plain(rows@[j].tree()),
        decreases rows.len() - i,
    {
        parts.push(plain_value(&rows[i]));
        i += 1;
    }
    assert(parts.deep_view() =~= json::trees(rows@).map_values(|tree: JsonTree| plain(tree)));
    all_lines(&parts)
}

/// Each record with tabs between its values, on a line of its own.
fn write_tsv(output: Output) -> (r: String)
    ensures
        Ok::<Seq<char>, Failure>(r@) == formatted(OutputFormat::Tsv, output@),
{
    match output {
        Output::Empty => nothing(),
        Output::Plain(value) => one_line(value.as_str()),
        _ => {
            let ghost want = records(output@).map_values(|tree: JsonTree| tsv(tree));
            let rows = rows_of(output);
            let mut parts: Vec<String> = Vec::new();
            let mut i: usize = 0;
            while i < rows.len()
                invariant
                    i <= rows.len(),
                    parts@.len() == i,
                    forall|j: int| 0 <= j < i ==> (#[trigger] parts@[j])@ == tsv(rows@[j].tree()),
                decreases rows.len() - i,
            {
                parts.push(tsv_row(&rows[i]));
                i += 1;
            }
            proof {
                assert(json::trees(rows@).len() == rows@.len());
                assert(parts.deep_view() =~= want);
            }
            all_lines(&parts)
        },
    }
}

/// A value in one cell or on one line.
pub fn plain_value(value: &Json) -> (r: String)
    ensures
        r@ == plain(value.tree()),
{
    match value {
        Json::Null => nothing(),
        Json::Bool(b) => if *b {
            "true".to_owned()
        } else {
            "false".to_owned()
        },
        Json::Number(n) => json::number_string(n),
        Json::Text(s) => s.clone(),
        Json::Array(_) => value.compact(),
        Json::Object(_) => value.compact(),
    }
}

/// The values of an object in the order of their names, with tabs between them.
pub fn tsv_row(value: &Json) -> (r: String)
    ensures
        r@ == tsv(value.tree()),
{
    match value {
        Json::Object(fields) => {
            let mut parts: Vec<String> = Vec::new();
            let count = fields.len();
            let mut i: usize = 0;
            while i < count
                invariant
                    count == fields.names().len(),
                    i <= count,
                    parts@.len() == i,
                    forall|j: int|
                        0 <= j < i ==> (#[trigger] parts@[j])@ == plain(
                            fields.contents()[fields.names()[j]],
                        ),
                decreases count - i,
            {
                let (_, value) = fields.entry(i);
                parts.push(plain_value(value));
                i += 1;
            }
            assert(parts.deep_view() =~= fields.names().map_values(
                |name: Seq<char>| plain(fields.contents()[name]),
            ));
            text::join(parts.as_slice(), "\t")
        },
        _ => plain_value(value),
    }
}

/// The column heads of a table.
fn header_list(rows: &Vec<Json>) -> (r: Vec<String>)
    ensures
        r.deep_view() == headers(json::trees(rows@)),
{
    let ghost all = json::trees(rows@);
    let mut heads = Fields::new();
    let mut i: usize = 0;
    assert(all.take(0) =~= Seq::empty());
    assert(heads.contents().dom() =~= header_names(all.take(0)));
    while i < rows.len()
        invariant
            all == json::trees(rows@),
            i <= rows.len(),
            heads.contents().dom() == header_names(all.take(i as int)),
        decreases rows.len() - i,
    {
        assert(all.take(i + 1).drop_last() =~= all.take(i as int));
        assert(all.take(i + 1).last() == rows@[i as int].tree());
        if let Json::Object(fields) = &rows[i] {
            let ghost base = heads.contents().dom();
            let count = fields.len();
            let mut j: usize = 0;
            assert(fields.names().take(0).to_set() =~= Set::empty());
            assert(base.union(fields.names().take(0).to_set()) =~= base);
            while j < count
                invariant
                    count == fields.names().len(),
                    j <= count,
                    heads.contents().dom() == base.union(fields.names().take(j as int).to_set()),
                decreases count - j,
            {
                let (name, _) = fields.entry(j);
                heads.insert(name, Json::Null);
                proof {
                    let grown = fields.names().take(j + 1);
                    assert(grown =~= fields.names().take(j as int).push(name@));
                    lemma_push_set(fields.names().take(j as int), name@);
                    assert(heads.contents().dom() =~= base.union(grown.to_set()));
                }
                j += 1;
            }
            assert(fields.names().take(j as int) =~= fields.names());
            assert(heads.contents().dom() =~= base.union(fields.contents().dom()));
        }
        i += 1;
    }
    assert(all.take(i as int) =~= all);
    let mut out: Vec<String> = Vec::new();
    let count = heads.len();
    let mut k: usize = 0;
    while k < count
        invariant
            count == heads.names().len(),
            k <= count,
            out@.len() == k,
            forall|j: int| 0 <= j < k ==> (#[trigger] out@[j])@ == heads.names()[j],
        decreases count - k,
    {
        out.push(heads.entry(k).0.to_owned());
        k += 1;
    }
    assert(out.deep_view() =~= heads.names());
    out
}

/// Adding a text to a list adds it to the set of its texts.
proof fn lemma_push_set(names: Seq<Seq<char>>, name: Seq<char>)
    ensures
        names.push(name).to_set() == names.to_set().insert(name),
{
    let grown = names.push(name);
    assert forall|t: Seq<char>| names.to_set().insert(name).contains(t) implies grown.to_set().contains(
        t,
    ) by {
        if t == name {
            assert(grown[names.len() as int] == t);
        } else {
            let i = choose|i: int| 0 <= i < names.len() && names[i] == t;
            assert(grown[i] == t);
        }
    }
    assert forall|t: Seq<char>| grown.to_set().contains(t) implies names.to_set().insert(
        name,
    ).contains(t) by {
        let i = choose|i: int| 0 <= i < grown.len() && grown[i] == t;
        if i < names.len() {
            assert(names[i] == t);
        }
    }
    assert(grown.to_set() =~= names.to_set().insert(name));
}

/// The cell of a record in a column.
fn cell_value(row: &Json, header: &str) -> (r: String)
    ensures
        r@ == cell(row.tree(), header@),
{
    match row {
        Json::Object(fields) => match fields.get(header) {
            Some(value) => plain_value(value),
            None => nothing(),
        },
        _ => nothing(),
    }
}

/// The width of a column.
fn measure(rows: &Vec<Json>, header: &str) -> (r: usize)
    ensures
        r == column_width(json::trees(rows@), header@),
{
    let ghost all = json::trees(rows@);
    let mut width: usize = header.as_bytes().len();
    let mut i: usize = 0;
    assert(all.take(0) =~= Seq::empty());
    while i < rows.len()
        invariant
            all == json::trees(rows@),
            i <= rows.len(),
            width == column_width(all.take(i as int), header@),
        decreases rows.len() - i,
    {
        let value = cell_value(&rows[i], header);
        let bytes: usize = value.as_str().as_bytes().len();
        if width < bytes {
            width = bytes;
        }
        assert(all.take(i + 1).drop_last() =~= all.take(i as int));
        i += 1;
    }
    assert(all.take(i as int) =~= all);
    width
}

/// The cells of a row, each filled up to the width of its column, on a line.
pub fn write_padded_row(row: &Vec<String>, widths: &Vec<usize>) -> (r: String)
    requires
        row.len() <= widths.len(),
    ensures
        r@ == line(padded_row(row.deep_view(), widths@.map_values(|w: usize| w as nat))),
{
    let ghost want = widths@.map_values(|w: usize| w as nat);
    let mut parts: Vec<String> = Vec::new();
    let mut i: usize = 0;
    while i < row.len()
        invariant
            row.len() <= widths.len(),
            i <= row.len(),
            parts@.len() == i,
            want == widths@.map_values(|w: usize| w as nat),
            forall|j: int| 0 <= j < i ==> (#[trigger] parts@[j])@ == padded(row@[j]@, want[j]),
        decreases row.len() - i,
    {
        parts.push(pad(row[i].as_str(), widths[i]));
        i += 1;
    }
    proof {
        let cells = row.deep_view();
        assert(parts.deep_view() =~= Seq::new(
            cells.len(),
            |i: int| padded(cells[i], want[i]),
        ));
    }
    one_line(text::join(parts.as_slice(), "  ").as_str())
}

/// A text filled up with spaces to a number of characters.
fn pad(s: &str, width: usize) -> (r: String)
    ensures
        r@ == padded(s@, width as nat),
{
    let mut out = s.to_owned();
    let mut count: usize = s.unicode_len();
    assert(out@ =~= s@ + spaces(0));
    while count < width
        invariant
            s@.len() <= count,
            count <= width || count == s@.len(),
            out@ == s@ + spaces(count - s@.len()),
        decreases width - count,
    {
        out.push(' ');
        assert(spaces(count + 1 - s@.len()) =~= spaces(count - s@.len()).push(' '));
        assert(out@ =~= s@ + spaces(count + 1 - s@.len()));
        count += 1;
    }
    assert(spaces(count - s@.len()) =~= spaces(width - s@.len()));
    out
}

/// A table with a column for each field.
pub fn write_table(output: Output) -> (r: String)
    ensures
        Ok::<Seq<char>, Failure>(r@) == formatted(OutputFormat::Table, output@),
{
    match output {
        Output::Empty => nothing(),
        Output::Plain(value) => one_line(value.as_str()),
        _ => {
            let rows = rows_of(output);
            let heads = header_list(&rows);
            if heads.len() == 0 {
                proof {
                    assert(heads.deep_view().len() == 0);
                }
                plain_lines(&rows)
            } else {
                render_table(&rows, &heads)
            }
        },
    }
}

/// The lines of a table that has columns.
fn render_table(rows: &Vec<Json>, heads: &Vec<String>) -> (r: String)
    requires
        heads.deep_view() == headers(json::trees(rows@)),
        heads.len() > 0,
    ensures
        r@ == lines(table_lines(json::trees(rows@))),
{
    let ghost all = json::trees(rows@);
    let ghost names = headers(all);
    let ghost sizes = names.map_values(|head: Seq<char>| column_width(all, head));
    let mut widths: Vec<usize> = Vec::new();
    let mut i: usize = 0;
    while i < heads.len()
        invariant
            all == json::trees(rows@),
            names == heads.deep_view(),
            i <= heads.len(),
            widths@.len() == i,
            forall|j: int| 0 <= j < i ==> #[trigger] widths@[j] == column_width(all, names[j]),
        decreases heads.len() - i,
    {
        widths.push(measure(rows, heads[i].as_str()));
        i += 1;
    }
    assert(widths@.map_values(|w: usize| w as nat) =~= sizes);
    let mut out = write_padded_row(heads, &widths);
    let ghost body = all.map_values(
        |row: JsonTree| padded_row(names.map_values(|head: Seq<char>| cell(row, head)), sizes),
    );
    let ghost first = padded_row(names, sizes);
    let ghost every = seq![first] + body;
    proof {
        assert(every.take(1) =~= seq![first]);
        assert(every.take(1).drop_last() =~= Seq::empty());
        assert(lines(every.take(1).drop_last()) =~= Seq::empty());
        assert(out@ =~= lines(every.take(1)));
    }
    let mut k: usize = 0;
    while k < rows.len()
        invariant
            all == json::trees(rows@),
            names == heads.deep_view(),
            widths@.len() == heads@.len(),
            widths@.map_values(|w: usize| w as nat) == sizes,
            body == all.map_values(
                |row: JsonTree|
                    padded_row(names.map_values(|head: Seq<char>| cell(row, head)), sizes),
            ),
            every == seq![first] + body,
            k <= rows.len(),
            out@ == lines(every.take(k + 1)),
        decreases rows.len() - k,
    {
        let cells = cells_of(&rows[k], heads);
        let ghost row = rows@[k as int].tree();
        assert(cells.deep_view() =~= names.map_values(|head: Seq<char>| cell(row, head)));
        let next = write_padded_row(&cells, &widths);
        out.append(next.as_str());
        proof {
            assert(all[k as int] == row);
            assert(every[k + 1] == body[k as int]);
            assert(every.take(k + 2).drop_last() =~= every.take(k + 1));
            assert(next@ == line(body[k as int]));
            assert(out@ =~= lines(every.take(k + 2)));
        }
        k += 1;
    }
    assert(every.take(k + 1) =~= every);
    out
}

/// The cells of a record, one for each column.
fn cells_of(row: &Json, heads: &Vec<String>) -> (r: Vec<String>)
    ensures
        r.len() == heads.len(),
        forall|i: int| 0 <= i < r.len() ==> (#[trigger] r@[i])@ == cell(row.tree(), heads@[i]@),
{
    let mut out: Vec<String> = Vec::new();
    let mut i: usize = 0;
    while i < heads.len()
        invariant
            i <= heads.len(),
            out.len() == i,
            forall|j: int| 0 <= j < i ==> (#[trigger] out@[j])@ == cell(row.tree(), heads@[j]@),
        decreases heads.len() - i,
    {
        out.push(cell_value(row, heads[i].as_str()));
        i += 1;
    }
    out
}

/// The text that a command writes to standard output; `terminal` says whether
/// that is a terminal.
pub fn emit(globals: &Globals, terminal: bool, output: Output) -> (r: Result<String, AwlError>)
    ensures
        told(r) == emitted(
            globals.quiet,
            match globals.output {
                Some(format) => format,
                None => default_format(terminal),
            },
            globals.field.deep_view(),
            output@,
        ),
{
    if globals.quiet {
        let nothing = String::new();
        assert(nothing@ =~= Seq::<char>::empty());
        return Ok(nothing);
    }
    let format = match globals.output {
        Some(format) => format,
        None => auto_format(terminal),
    };
    match select_field(globals, output) {
        Err(error) => Err(error),
        Ok(chosen) => match format {
            OutputFormat::Table => Ok(write_table(chosen)),
            OutputFormat::Json => Ok(write_json(chosen)),
            OutputFormat::Jsonl => Ok(write_jsonl(chosen)),
            OutputFormat::Toml => write_toml(chosen),
            OutputFormat::Yaml => write_yaml(chosen),
            OutputFormat::Tsv => Ok(write_tsv(chosen)),
            OutputFormat::Plain => Ok(write_plain(chosen)),
        },
    }
}

/// With `--quiet` nothing is written, whatever the result and the format.
pub proof fn law_quiet_writes_nothing(format: OutputFormat, field: Option<Seq<char>>, shown: Shown)
    ensures
        emitted(true, format, field, shown) == Ok::<Seq<char>, Failure>(Seq::empty()),
{
}

/// A list of one record is the record to `--field`.
pub proof fn law_field_of_single_record(name: Seq<char>, tree: JsonTree)
    ensures
        selected(Some(name), Shown::Many(seq![tree])) == selected(Some(name), Shown::One(tree)),
{
}

/// A table has a line for each record, and one before them where there are
/// columns.
pub proof fn law_table_has_line_per_record(rows: Seq<JsonTree>)
    ensures
        table_lines(rows).len() == rows.len() + if headers(rows).len() == 0 {
            0int
        } else {
            1int
        },
{
}

/// A text has at least as many bytes as characters.
proof fn lemma_bytes(s: Seq<char>)
    ensures
        s.len() <= encode_utf8(s).len(),
    decreases s.len(),
{
    if s.len() > 0 {
        lemma_bytes(s.drop_first());
    }
}

/// No cell of a column has more bytes than the column is wide, nor has its head.
proof fn lemma_column_width(rows: Seq<JsonTree>, header: Seq<char>)
    ensures
        encode_utf8(header).len() <= column_width(rows, header),
        forall|i: int|
            0 <= i < rows.len() ==> encode_utf8(cell(#[trigger] rows[i], header)).len()
                <= column_width(rows, header),
    decreases rows.len(),
{
    if rows.len() > 0 {
        let fewer = rows.drop_last();
        lemma_column_width(fewer, header);
        assert forall|i: int| 0 <= i < rows.len() implies encode_utf8(
            cell(#[trigger] rows[i], header),
        ).len() <= column_width(rows, header) by {
            if i < fewer.len() {
                assert(rows[i] == fewer[i]);
            }
        }
    }
}

/// Joined texts are as long as others of the same lengths.
proof fn lemma_joined_len(a: Seq<Seq<char>>, b: Seq<Seq<char>>, sep: Seq<char>)
    requires
        a.len() == b.len(),
        forall|i: int| 0 <= i < a.len() ==> (#[trigger] a[i]).len() == b[i].len(),
    ensures
        text::joined(a, sep).len() == text::joined(b, sep).len(),
    decreases a.len(),
{
    if a.len() > 1 {
        let fewer = a.drop_last();
        assert forall|i: int| 0 <= i < fewer.len() implies (#[trigger] fewer[i]).len()
            == b.drop_last()[i].len() by {
            assert(fewer[i] == a[i]);
        }
        lemma_joined_len(a.drop_last(), b.drop_last(), sep);
        assert(a.last() == a[a.len() - 1]);
    } else if a.len() == 1 {
        assert(a[0].len() == b[0].len());
    }
}

/// Rows whose cells fit their columns are equally long.
proof fn lemma_rows_align(a: Seq<Seq<char>>, b: Seq<Seq<char>>, widths: Seq<nat>)
    requires
        a.len() == b.len() == widths.len(),
        forall|i: int| 0 <= i < a.len() ==> (#[trigger] a[i]).len() <= widths[i],
        forall|i: int| 0 <= i < b.len() ==> (#[trigger] b[i]).len() <= widths[i],
    ensures
        padded_row(a, widths).len() == padded_row(b, widths).len(),
{
    let left = Seq::new(a.len(), |i: int| padded(a[i], widths[i]));
    let right = Seq::new(b.len(), |i: int| padded(b[i], widths[i]));
    assert forall|i: int| 0 <= i < left.len() implies (#[trigger] left[i]).len()
        == right[i].len() by {
        assert(a[i].len() <= widths[i] && b[i].len() <= widths[i]);
    }
    lemma_joined_len(left, right, "  "@);
}

/// The columns of a table stand under each other: all its lines have the same
/// number of characters.
pub proof fn law_table_is_aligned(rows: Seq<JsonTree>, i: int, j: int)
    requires
        headers(rows).len() > 0,
        0 <= i < table_lines(rows).len(),
        0 <= j < table_lines(rows).len(),
    ensures
        table_lines(rows)[i].len() == table_lines(rows)[j].len(),
{
    lemma_line_is_as_long(rows, i);
    lemma_line_is_as_long(rows, j);
}

/// A line of a table is as long as that of the column heads.
proof fn lemma_line_is_as_long(rows: Seq<JsonTree>, i: int)
    requires
        headers(rows).len() > 0,
        0 <= i < table_lines(rows).len(),
    ensures
        table_lines(rows)[i].len() == table_lines(rows)[0].len(),
{
    let heads = headers(rows);
    let widths = heads.map_values(|head: Seq<char>| column_width(rows, head));
    if i > 0 {
        let row = rows[i - 1];
        let cells = heads.map_values(|head: Seq<char>| cell(row, head));
        assert forall|k: int| 0 <= k < heads.len() implies (#[trigger] heads[k]).len()
            <= widths[k] && cells[k].len() <= widths[k] by {
            lemma_bytes(heads[k]);
            lemma_bytes(cells[k]);
            lemma_column_width(rows, heads[k]);
        }
        assert forall|k: int| 0 <= k < cells.len() implies (#[trigger] cells[k]).len()
            <= widths[k] by {
            assert(heads[k].len() <= widths[k]);
        }
        lemma_rows_align(heads, cells, widths);
        assert(table_lines(rows)[i] == padded_row(cells, widths));
    }
}

/// Every record is written: in JSON, YAML and TOML a list of records is the array
/// of exactly these records in order, and one record is itself.
pub proof fn law_all_records_are_written(trees: Seq<JsonTree>, tree: JsonTree)
    ensures
        formatted(OutputFormat::Json, Shown::Many(trees)) == Ok::<Seq<char>, Failure>(
            json::json_pretty(JsonTree::Array(trees)) + "\n"@,
        ),
        formatted(OutputFormat::Json, Shown::One(tree)) == Ok::<Seq<char>, Failure>(
            json::json_pretty(tree) + "\n"@,
        ),
        match json::yaml_text(JsonTree::Array(trees)) {
            Ok(s) => formatted(OutputFormat::Yaml, Shown::Many(trees)) == Ok::<Seq<char>, Failure>(
                s + "\n"@,
            ),
            Err(message) => formatted(OutputFormat::Yaml, Shown::Many(trees)) == Err::<
                Seq<char>,
                Failure,
            >(Failure::Yaml(message)),
        },
        match json::yaml_text(tree) {
            Ok(s) => formatted(OutputFormat::Yaml, Shown::One(tree)) == Ok::<Seq<char>, Failure>(
                s + "\n"@,
            ),
            Err(message) => formatted(OutputFormat::Yaml, Shown::One(tree)) == Err::<
                Seq<char>,
                Failure,
            >(Failure::Yaml(message)),
        },
        match json::toml_text(JsonTree::Array(trees)) {
            Ok(s) => formatted(OutputFormat::Toml, Shown::Many(trees)) == Ok::<Seq<char>, Failure>(
                s + "\n"@,
            ),
            Err(message) => formatted(OutputFormat::Toml, Shown::Many(trees)) == Err::<
                Seq<char>,
                Failure,
            >(Failure::Toml(message)),
        },
        match json::toml_text(tree) {
            Ok(s) => formatted(OutputFormat::Toml, Shown::One(tree)) == Ok::<Seq<char>, Failure>(
                s + "\n"@,
            ),
            Err(message) => formatted(OutputFormat::Toml, Shown::One(tree)) == Err::<
                Seq<char>,
                Failure,
            >(Failure::Toml(message)),
        },
{
}

/// A format that writes records line by line.
pub open spec fn by_lines(format: OutputFormat) -> bool {
    format is Jsonl || format is Tsv || format is Plain
}

/// What is written line by line is written record by record: the output of two
/// lists one after the other is that of both together, that of a list of one
/// record is that of the record, and that of none is empty.
pub proof fn law_lines_are_records(
    format: OutputFormat,
    a: Seq<JsonTree>,
    b: Seq<JsonTree>,
    tree: JsonTree,
)
    requires
        by_lines(format),
    ensures
        formatted(format, Shown::Many(a + b)) == Ok::<Seq<char>, Failure>(
            formatted(format, Shown::Many(a))->Ok_0 + formatted(format, Shown::Many(b))->Ok_0,
        ),
        formatted(format, Shown::Many(seq![tree])) == formatted(format, Shown::One(tree)),
        formatted(format, Shown::Many(Seq::empty())) == Ok::<Seq<char>, Failure>(Seq::empty()),
        formatted(format, Shown::One(tree)) == Ok::<Seq<char>, Failure>(
            match format {
                OutputFormat::Jsonl => json::json_text(tree),
                OutputFormat::Tsv => tsv(tree),
                _ => plain(tree),
            } + "\n"@,
        ),
{
    let f = match format {
        OutputFormat::Jsonl => |tree: JsonTree| json::json_text(tree),
        OutputFormat::Tsv => |tree: JsonTree| tsv(tree),
        _ => |tree: JsonTree| plain(tree),
    };
    lemma_lines_add(a.map_values(f), b.map_values(f));
    assert((a + b).map_values(f) =~= a.map_values(f) + b.map_values(f));
    assert(Seq::<JsonTree>::empty().map_values(f) =~= Seq::empty());
    assert(seq![tree].map_values(f) =~= seq![f(tree)]);
    assert(seq![f(tree)].drop_last() =~= Seq::empty());
    assert(lines(seq![f(tree)]) =~= f(tree) + "\n"@);
}

proof fn lemma_lines_add(a: Seq<Seq<char>>, b: Seq<Seq<char>>)
    ensures
        lines(a + b) == lines(a) + lines(b),
    decreases b.len(),
{
    if b.len() == 0 {
        assert(a + b =~= a);
        assert(lines(a) + lines(b) =~= lines(a));
    } else {
        assert((a + b).drop_last() =~= a + b.drop_last());
        lemma_lines_add(a, b.drop_last());
        assert(lines(a + b) =~= lines(a) + lines(b));
    }
}

/// A value is shown plainly as what it says: a text and a number as themselves,
/// a truth value as a word, nothing as nothing, and what holds others as compact
/// JSON.
pub proof fn law_plain_says_the_value(s: Seq<char>, b: bool, tree: JsonTree)
    ensures
        plain(JsonTree::Text(s)) == s,
        plain(JsonTree::Number(s)) == s,
        plain(JsonTree::Bool(b)) == (if b {
            "true"@
        } else {
            "false"@
        }),
        plain(JsonTree::Null).len() == 0,
        tree is Array || tree is Object ==> plain(tree) == json::json_text(tree),
{
}

/// A record in tabs has a cell for each field in the order of the names: a field
/// whose name comes after all others adds a tab and its value, and the only field
/// of a record is its value alone.
pub proof fn law_tsv_has_each_field(
    fields: Map<Seq<char>, JsonTree>,
    name: Seq<char>,
    value: JsonTree,
)
    requires
        fields.dom().finite(),
        forall|other: Seq<char>|
            #[trigger] fields.contains_key(other) ==> text::precedes(other, name),
    ensures
        tsv(JsonTree::Object(fields.insert(name, value))) == (if fields.dom().len() == 0 {
            plain(value)
        } else {
            tsv(JsonTree::Object(fields)) + "\t"@ + plain(value)
        }),
{
    let names = json::ordered(fields.dom());
    let more = fields.insert(name, value);
    json::lemma_ordered_finite(fields.dom());
    assert forall|i: int| 0 <= i < names.len() implies fields.contains_key(
        #[trigger] names[i],
    ) by {
        assert(names.to_set().contains(names[i]));
    }
    let longer = names.push(name);
    assert(json::increasing(longer)) by {
        assert forall|i: int, j: int| 0 <= i < j < longer.len() implies text::precedes(
            #[trigger] longer[i],
            #[trigger] longer[j],
        ) by {
            if j < names.len() {
                assert(text::precedes(names[i], names[j]));
            } else {
                assert(fields.contains_key(names[i]));
            }
        }
    }
    assert(longer.to_set() =~= more.dom()) by {
        assert forall|k: Seq<char>| more.contains_key(k) implies longer.to_set().contains(k) by {
            if k == name {
                assert(longer[names.len() as int] == k);
            } else {
                assert(names.to_set().contains(k));
                let i = choose|i: int| 0 <= i < names.len() && names[i] == k;
                assert(longer[i] == k);
            }
        }
        assert forall|k: Seq<char>| longer.to_set().contains(k) implies more.contains_key(k) by {
            let i = choose|i: int| 0 <= i < longer.len() && longer[i] == k;
            if i < names.len() {
                assert(fields.contains_key(names[i]));
            }
        }
    }
    json::lemma_ordered(longer);
    let old_cells = names.map_values(|n: Seq<char>| plain(fields[n]));
    let cells = longer.map_values(|n: Seq<char>| plain(more[n]));
    assert(cells =~= old_cells.push(plain(value))) by {
        assert forall|i: int| 0 <= i < names.len() implies cells[i] == old_cells[i] by {
            assert(fields.contains_key(names[i]));
            if names[i] == name {
                text::lemma_precedes_irreflexive(name);
            }
        }
    }
    assert(cells.drop_last() =~= old_cells);
    if fields.dom().len() == 0 {
        if names.len() > 0 {
            assert(fields.contains_key(names[0]));
            assert(fields.dom() =~= Set::empty());
        }
        assert(names.len() == 0);
    } else {
        assert(names.len() > 0) by {
            if names.len() == 0 {
                assert(names.to_set() =~= Set::empty());
            }
        }
    }
}

/// A table shows every value: in the line of a record, the part under a column's
/// head begins with the plain value of the record's field.
pub proof fn law_table_shows_each_cell(rows: Seq<JsonTree>, i: int, j: int)
    requires
        0 <= i < rows.len(),
        0 <= j < headers(rows).len(),
    ensures
        ({
            let heads = headers(rows);
            let parts = Seq::new(
                heads.len(),
                |k: int|
                    padded(cell(rows[i], heads[k]), column_width(rows, heads[k])),
            );
            &&& table_lines(rows)[i + 1] == text::joined(parts, "  "@)
            &&& cell(rows[i], heads[j]).is_prefix_of(parts[j])
            &&& forall|k: int|
                cell(rows[i], heads[j]).len() <= k < parts[j].len() ==> #[trigger] parts[j][k]
                    == ' '
            &&& rows[i] matches JsonTree::Object(fields) ==> cell(rows[i], heads[j]) == (
            if fields.contains_key(heads[j]) {
                plain(fields[heads[j]])
            } else {
                Seq::empty()
            })
            &&& table_lines(rows)[0] == text::joined(
                Seq::new(
                    heads.len(),
                    |k: int| padded(heads[k], column_width(rows, heads[k])),
                ),
                "  "@,
            )
        }),
{
    let heads = headers(rows);
    let widths = heads.map_values(|head: Seq<char>| column_width(rows, head));
    let cells = heads.map_values(|head: Seq<char>| cell(rows[i], head));
    let parts = Seq::new(
        heads.len(),
        |k: int| padded(cell(rows[i], heads[k]), column_width(rows, heads[k])),
    );
    assert(Seq::new(cells.len(), |k: int| padded(cells[k], widths[k])) =~= parts);
    assert(table_lines(rows)[i + 1] == padded_row(cells, widths));
    assert(Seq::new(heads.len(), |k: int| padded(heads[k], widths[k])) =~= Seq::new(
        heads.len(),
        |k: int| padded(heads[k], column_width(rows, heads[k])),
    ));
}

/// The columns of a table are the names of the fields of all its records, each
/// once and in order.
pub proof fn law_table_has_each_column(rows: Seq<JsonTree>, name: Seq<char>)
    requires
        forall|i: int|
            0 <= i < rows.len() ==> ((#[trigger] rows[i]) matches JsonTree::Object(fields)
                ==> fields.dom().finite()),
    ensures
        headers(rows).contains(name) <==> exists|i: int|
            0 <= i < rows.len() && (#[trigger] rows[i]) is Object && rows[i]->Object_0.contains_key(
                name,
            ),
        json::increasing(headers(rows)),
{
    lemma_header_names(rows, name);
    json::lemma_ordered_finite(header_names(rows));
    assert(headers(rows).to_set().contains(name) <==> headers(rows).contains(name));
}

proof fn lemma_header_names(rows: Seq<JsonTree>, name: Seq<char>)
    requires
        forall|i: int|
            0 <= i < rows.len() ==> ((#[trigger] rows[i]) matches JsonTree::Object(fields)
                ==> fields.dom().finite()),
    ensures
        header_names(rows).finite(),
        header_names(rows).contains(name) <==> exists|i: int|
            0 <= i < rows.len() && (#[trigger] rows[i]) is Object && rows[i]->Object_0.contains_key(
                name,
            ),
    decreases rows.len(),
{
    if rows.len() > 0 {
        let rest = rows.drop_last();
        assert forall|i: int| 0 <= i < rest.len() implies ((
        #[trigger] rest[i]) matches JsonTree::Object(fields) ==> fields.dom().finite()) by {
            assert(rest[i] == rows[i]);
        }
        lemma_header_names(rest, name);
        assert(rows[rows.len() - 1] == rows.last());
        if header_names(rest).contains(name) {
            let i = choose|i: int|
                0 <= i < rest.len() && (#[trigger] rest[i]) is Object
                    && rest[i]->Object_0.contains_key(name);
            assert(rows[i] is Object && rows[i]->Object_0.contains_key(name));
        }
        if exists|i: int|
            0 <= i < rows.len() && (#[trigger] rows[i]) is Object && rows[i]->Object_0.contains_key(
                name,
            ) {
            let i = choose|i: int|
                0 <= i < rows.len() && (#[trigger] rows[i]) is Object
                    && rows[i]->Object_0.contains_key(name);
            if i < rest.len() {
                assert(rest[i] is Object && rest[i]->Object_0.contains_key(name));
            }
        }
    }
}

/// `--field` gives the value of the field and nothing else; it is refused as a
/// usage error where the record has no such field, and where there is not exactly
/// one record.
pub proof fn law_field_gives_its_value(
    name: Seq<char>,
    fields: Map<Seq<char>, JsonTree>,
    trees: Seq<JsonTree>,
    s: Seq<char>,
)
    ensures
        fields.contains_key(name) ==> selected(Some(name), Shown::One(JsonTree::Object(fields)))
            == Ok::<Shown, Failure>(Shown::One(fields[name])),
        !fields.contains_key(name) ==> selected(
            Some(name),
            Shown::One(JsonTree::Object(fields)),
        ) matches Err(Failure::Usage(_)),
        trees.len() != 1 ==> selected(Some(name), Shown::Many(trees)) matches Err(
            Failure::Usage(_),
        ),
        selected(Some(name), Shown::Plain(s)) matches Err(Failure::Usage(_)),
        selected(Some(name), Shown::Empty) matches Err(Failure::Usage(_)),
        selected(None, Shown::Many(trees)) == Ok::<Shown, Failure>(Shown::Many(trees)),
{
}

/// What is shown does not depend on more than what was asked for: without a field
/// it is the output in the format, and with one the output of its value.
pub proof fn law_output_is_what_was_asked(
    format: OutputFormat,
    shown: Shown,
    name: Seq<char>,
    fields: Map<Seq<char>, JsonTree>,
)
    requires
        fields.contains_key(name),
    ensures
        emitted(false, format, None, shown) == formatted(format, shown),
        emitted(false, format, Some(name), Shown::One(JsonTree::Object(fields))) == formatted(
            format,
            Shown::One(fields[name]),
        ),
        default_format(true) is Table,
        default_format(false) is Jsonl,
{
}

/// A text without structure is written as it is where people read it, and as a
/// JSON text where programs do.
pub proof fn law_plain_text_is_written(s: Seq<char>)
    ensures
        formatted(OutputFormat::Table, Shown::Plain(s)) == Ok::<Seq<char>, Failure>(s + "\n"@),
        formatted(OutputFormat::Plain, Shown::Plain(s)) == Ok::<Seq<char>, Failure>(s + "\n"@),
        formatted(OutputFormat::Tsv, Shown::Plain(s)) == Ok::<Seq<char>, Failure>(s + "\n"@),
        formatted(OutputFormat::Json, Shown::Plain(s)) == Ok::<Seq<char>, Failure>(
            json::json_text(JsonTree::Text(s)) + "\n"@,
        ),
        formatted(OutputFormat::Jsonl, Shown::Plain(s)) == formatted(
            OutputFormat::Json,
            Shown::Plain(s),
        ),
        formatted(OutputFormat::Json, Shown::Empty) == Ok::<Seq<char>, Failure>("null"@ + "\n"@),
        formatted(OutputFormat::Yaml, Shown::Plain(s)) == formatted(
            OutputFormat::Yaml,
            Shown::One(JsonTree::Text(s)),
        ),
        formatted(OutputFormat::Toml, Shown::Plain(s)) == formatted(
            OutputFormat::Toml,
            Shown::One(JsonTree::Text(s)),
        ),
        json::yaml_text(JsonTree::Text(s)) matches Ok(t) ==> formatted(
            OutputFormat::Yaml,
            Shown::Plain(s),
        ) == Ok::<Seq<char>, Failure>(t + "\n"@),
{
}

/// A record shows a text under a name: it is what `--field` with that name writes
/// in the plain format.
pub open spec fn shows(tree: JsonTree, name: Seq<char>, value: Seq<char>) -> bool {
    emitted(false, OutputFormat::Plain, Some(name), Shown::One(tree)) == Ok::<Seq<char>, Failure>(
        value + "\n"@,
    )
}

/// A text that may be missing, as it is written.
pub open spec fn written_text(value: Option<Seq<char>>) -> Seq<char> {
    match value {
        Some(s) => s,
        None => Seq::empty(),
    }
}

/// A number that may be missing, as it is written.
pub open spec fn written_number(value: Option<i64>) -> Seq<char> {
    match value {
        Some(n) => crate::number::signed_decimal(n as int),
        None => Seq::empty(),
    }
}

/// A truth value as it is written.
pub open spec fn written_bool(value: bool) -> Seq<char> {
    if value {
        "true"@
    } else {
        "false"@
    }
}

/// What a record shows under the name of a field is the plain value of the field.
pub proof fn lemma_shows(fields: Map<Seq<char>, JsonTree>, name: Seq<char>)
    requires
        fields.contains_key(name),
    ensures
        shows(JsonTree::Object(fields), name, plain(fields[name])),
        shows(JsonTree::Object(fields), name, Seq::empty()) <== fields[name] is Null,
        fields[name] matches JsonTree::Text(s) ==> shows(JsonTree::Object(fields), name, s),
        fields[name] matches JsonTree::Number(s) ==> shows(JsonTree::Object(fields), name, s),
        fields[name] matches JsonTree::Bool(b) ==> shows(
            JsonTree::Object(fields),
            name,
            written_bool(b),
        ),
{
    let tree = fields[name];
    law_lines_are_records(OutputFormat::Plain, Seq::empty(), Seq::empty(), tree);
}

/// What is to be shown means what its variant says, record by record.
pub proof fn law_output_means_its_variant(value: Json, values: Vec<Json>, s: String)
    ensures
        Output::Empty@ is Empty,
        Output::One(value)@ == Shown::One(value.tree()),
        Output::Many(values)@ matches Shown::Many(trees) && trees.len() == values@.len()
            && forall|i: int| 0 <= i < trees.len() ==> #[trigger] trees[i] == values@[i].tree(),
        Output::Plain(s)@ == Shown::Plain(s@),
{
}

/// A column is as wide as the longest of its head and its cells, counted in bytes:
/// none is longer, and one is as long.
pub proof fn law_column_is_as_wide_as_its_longest(rows: Seq<JsonTree>, header: Seq<char>)
    ensures
        encode_utf8(header).len() <= column_width(rows, header),
        forall|i: int|
            0 <= i < rows.len() ==> encode_utf8(cell(#[trigger] rows[i], header)).len()
                <= column_width(rows, header),
        column_width(rows, header) == encode_utf8(header).len() || exists|i: int|
            0 <= i < rows.len() && column_width(rows, header) == encode_utf8(
                cell(#[trigger] rows[i], header),
            ).len(),
    decreases rows.len(),
{
    if rows.len() > 0 {
        let rest = rows.drop_last();
        law_column_is_as_wide_as_its_longest(rest, header);
        let last = encode_utf8(cell(rows.last(), header)).len();
        assert forall|i: int| 0 <= i < rows.len() implies encode_utf8(
            cell(#[trigger] rows[i], header),
        ).len() <= column_width(rows, header) by {
            if i < rest.len() {
                assert(rest[i] == rows[i]);
            }
        }
        if column_width(rows, header) == last {
            assert(column_width(rows, header) == encode_utf8(
                cell(rows[rows.len() - 1], header),
            ).len());
        } else if column_width(rest, header) != encode_utf8(header).len() {
            let i = choose|i: int|
                0 <= i < rest.len() && column_width(rest, header) == encode_utf8(
                    cell(#[trigger] rest[i], header),
                ).len();
            assert(rows[i] == rest[i]);
        }
    }
}

} // verus!
