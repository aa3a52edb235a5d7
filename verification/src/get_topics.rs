//! The command-line request for the topics of a stream: what it asks for and
//! how it explains itself.

use crate::buffer::{bytes_as_slice, bytes_view};
use crate::error::IggyError;
use crate::identifier::{parse_identifier, Identifier, IdentifierView};
use crate::text::{decimal, decimal_string, join, joined, texts};
use crate::timestamp::{utc_text, utc_time};
use bytes::Bytes;
use comfy_table::Table;
use vstd::prelude::*;
use vstd::string::StringExecFns;

verus! {

/// How the topics are shown.
#[derive(Clone, Copy, Debug, PartialEq, Eq, Structural)]
pub enum GetTopicsOutput {
    /// One table with a row for each topic.
    Table,
    /// One line for each topic, its fields parted by bars.
    List,
}

impl GetTopicsOutput {
    /// The name of the mode in text forms.
    pub open spec fn name(self) -> Seq<char> {
        match self {
            GetTopicsOutput::Table => "table"@,
            GetTopicsOutput::List => "list"@,
        }
    }

    /// The text form: the name of the mode.
    pub fn to_string(&self) -> (text: String)
        ensures
            text@ == self.name(),
    {
        match self {
            GetTopicsOutput::Table => String::from_str("table"),
            GetTopicsOutput::List => String::from_str("list"),
        }
    }
}

/// `GetTopics` command is used to retrieve the topics of a stream.
#[derive(Debug, PartialEq)]
pub struct GetTopics {
    /// Unique stream ID (numeric or name).
    pub stream_id: Identifier,
}

impl GetTopics {
    /// The stream identifier must be valid; `InvalidIdentifier` if not.
    pub fn validate(&self) -> (r: Result<(), IggyError>)
        ensures
            r == if self.stream_id@.is_valid() {
                Ok::<(), IggyError>(())
            } else {
                Err::<(), IggyError>(IggyError::InvalidIdentifier)
            },
    {
        self.stream_id.validate()
    }

    /// The wire form: the stream identifier.
    pub fn as_bytes(&self) -> (bytes: Bytes)
        ensures
            bytes_view(bytes) == self.stream_id@.wire(),
    {
        self.stream_id.as_bytes()
    }

    /// Parses the command from all of `bytes`; see `parse_get_topics`.
    pub fn from_bytes(bytes: Bytes) -> (r: Result<GetTopics, IggyError>)
        ensures
            match r {
                Ok(command) => parse_get_topics(bytes_view(bytes)) == Ok::<
                    IdentifierView,
                    IggyError,
                >(command.stream_id@) && command.stream_id@.is_valid(),
                Err(e) => parse_get_topics(bytes_view(bytes)) == Err::<IdentifierView, IggyError>(
                    e,
                ),
            },
    {
        let total = bytes_as_slice(&bytes).len();
        let stream_id = match Identifier::from_bytes(bytes) {
            Ok(id) => id,
            Err(e) => {
                return Err(e);
            },
        };
        if stream_id.get_size_bytes() as usize != total {
            return Err(IggyError::InvalidCommand);
        }
        Ok(GetTopics { stream_id })
    }
}

/// The stream identifier that the bytes `b` parse to as a `GetTopics`
/// command: what the identifier parses to, where it fills `b` to its end;
/// bytes after it are `InvalidCommand`.
pub open spec fn parse_get_topics(b: Seq<u8>) -> Result<IdentifierView, IggyError> {
    match parse_identifier(b) {
        Err(e) => Err(e),
        Ok(id) => if id.size() == b.len() {
            Ok(id)
        } else {
            Err(IggyError::InvalidCommand)
        },
    }
}

/// The request for the topics of a stream together with the way to show them.
pub struct GetTopicsCmd {
    get_topics: GetTopics,
    output: GetTopicsOutput,
}

/// What `explain` says of a stream with the text `stream_id` in the mode
/// `output`.
pub open spec fn explanation(stream_id: Seq<char>, output: GetTopicsOutput) -> Seq<char> {
    "list topics from stream with ID: "@ + stream_id + " in "@ + output.name() + " mode"@
}

impl GetTopicsCmd {
    /// The stream that is asked for.
    pub closed spec fn stream_id(&self) -> IdentifierView {
        self.get_topics.stream_id@
    }

    /// The way to show the topics.
    pub closed spec fn output(&self) -> GetTopicsOutput {
        self.output
    }

    pub fn new(stream_id: Identifier, output: GetTopicsOutput) -> (cmd: GetTopicsCmd)
        ensures
            cmd.stream_id() == stream_id@,
            cmd.output() == output,
    {
        GetTopicsCmd { get_topics: GetTopics { stream_id }, output }
    }

    /// The command to send.
    pub fn command(&self) -> (command: &GetTopics)
        ensures
            command.stream_id@ == self.stream_id(),
    {
        &self.get_topics
    }

    /// The way to show the topics.
    pub fn mode(&self) -> (output: GetTopicsOutput)
        ensures
            output == self.output(),
    {
        self.output
    }

    /// What the request will do, in words.
    pub fn explain(&self) -> (text: String)
        requires
            self.stream_id().is_valid(),
        ensures
            text@ == explanation(self.stream_id().text(), self.output()),
    {
        let mut text = String::from_str("list topics from stream with ID: ");
        text.append(self.get_topics.stream_id.to_string().as_str());
        text.append(" in ");
        text.append(self.output.to_string().as_str());
        text.append(" mode");
        text
    }
}

/// A topic as the server describes it.
#[derive(Debug, PartialEq)]
pub struct Topic {
    /// Unique topic ID.
    pub id: u32,
    /// When the topic was created, in microseconds since the start of 1970.
    pub created_at: u64,
    /// Unique topic name.
    pub name: String,
    /// The size of the topic in bytes.
    pub size: u64,
    /// The most bytes the topic may hold, if there is a limit.
    pub max_topic_size: Option<u64>,
    /// After how many seconds messages expire, if they do.
    pub message_expiry: Option<u32>,
    /// The number of messages in the topic.
    pub messages_count: u64,
    /// The number of partitions in the topic.
    pub partitions_count: u32,
}

/// The text of a limit: the number in decimal, or `unlimited` without one.
pub open spec fn limit_text(limit: Option<nat>) -> Seq<char> {
    match limit {
        Some(value) => decimal(value),
        None => "unlimited"@,
    }
}

/// The titles of the columns in which topics are shown.
pub open spec fn header_cells() -> Seq<Seq<char>> {
    seq![
        "ID"@,
        "Created"@,
        "Name"@,
        "Size (B)"@,
        "Max Topic Size (B)"@,
        "Message Expiry (s)"@,
        "Messages Count"@,
        "Partitions Count"@,
    ]
}

impl Topic {
    /// The cells in which the topic is shown, in the order of the columns.
    pub open spec fn cells(self) -> Seq<Seq<char>> {
        seq![
            decimal(self.id as nat),
            utc_time(self.created_at).text(),
            self.name@,
            decimal(self.size as nat),
            limit_text(
                match self.max_topic_size {
                    Some(value) => Some(value as nat),
                    None => None,
                },
            ),
            limit_text(
                match self.message_expiry {
                    Some(value) => Some(value as nat),
                    None => None,
                },
            ),
            decimal(self.messages_count as nat),
            decimal(self.partitions_count as nat),
        ]
    }

    /// The cells in which the topic is shown; see `Topic::cells`.
    pub fn row(&self) -> (row: Vec<String>)
        ensures
            texts(row@) == self.cells(),
    {
        let mut row: Vec<String> = Vec::new();
        row.push(decimal_string(self.id as u128));
        row.push(utc_text(self.created_at));
        row.push(self.name.clone());
        row.push(decimal_string(self.size as u128));
        row.push(
            match self.max_topic_size {
                Some(value) => decimal_string(value as u128),
                None => String::from_str("unlimited"),
            },
        );
        row.push(
            match self.message_expiry {
                Some(value) => decimal_string(value as u128),
                None => String::from_str("unlimited"),
            },
        );
        row.push(decimal_string(self.messages_count as u128));
        row.push(decimal_string(self.partitions_count as u128));
        assert(texts(row@) =~= self.cells());
        row
    }

    /// The topic on one line: its cells with a bar between each two.
    pub fn line(&self) -> (line: String)
        ensures
            line@ == joined(self.cells(), "|"@),
    {
        join(&self.row(), "|")
    }
}

/// The titles of the columns; see `header_cells`.
pub fn header_row() -> (row: Vec<String>)
    ensures
        texts(row@) == header_cells(),
{
    let mut row: Vec<String> = Vec::new();
    row.push(String::from_str("ID"));
    row.push(String::from_str("Created"));
    row.push(String::from_str("Name"));
    row.push(String::from_str("Size (B)"));
    row.push(String::from_str("Max Topic Size (B)"));
    row.push(String::from_str("Message Expiry (s)"));
    row.push(String::from_str("Messages Count"));
    row.push(String::from_str("Partitions Count"));
    assert(texts(row@) =~= header_cells());
    row
}

/// The cells of the rows of `rows`.
pub open spec fn rows_texts(rows: Seq<Vec<String>>) -> Seq<Seq<Seq<char>>> {
    Seq::new(rows.len(), |i: int| texts(rows[i]@))
}

/// The cells in which the topics of `topics` are shown, a row for each.
pub open spec fn topics_cells(topics: Seq<Topic>) -> Seq<Seq<Seq<char>>> {
    Seq::new(topics.len(), |i: int| topics[i].cells())
}

/// The lines on which the topics of `topics` are shown, a line for each.
pub open spec fn topics_lines(topics: Seq<Topic>) -> Seq<Seq<char>> {
    Seq::new(topics.len(), |i: int| joined(topics[i].cells(), "|"@))
}

/// What `comfy_table` draws for a table with the header `header` and the
/// rows `rows`, with the settings of `Table::new`.
pub uninterp spec fn table_text(header: Seq<Seq<char>>, rows: Seq<Seq<Seq<char>>>) -> Seq<char>;

/// `comfy_table::Table`: a new table gets the header and the rows, and is
/// drawn as text. Nothing but the cells goes into the drawing: the table
/// keeps the settings of `Table::new`, which arrange nothing by the width of
/// a terminal, and plain cells carry no style.
#[verifier::external_body]
fn draw_table(header: &Vec<String>, rows: &Vec<Vec<String>>) -> (text: String)
    ensures
        text@ == table_text(texts(header@), rows_texts(rows@)),
{
    let mut table = Table::new();
    table.set_header(header.clone());
    table.add_rows(rows.clone());
    table.to_string()
}

impl GetTopicsCmd {
    /// What is shown for the topics `topics`: in the mode `Table` one text,
    /// the table of the topics; in the mode `List` a line for each topic.
    pub fn show(&self, topics: &Vec<Topic>) -> (lines: Vec<String>)
        ensures
            texts(lines@) == match self.output() {
                GetTopicsOutput::Table => seq![table_text(header_cells(), topics_cells(topics@))],
                GetTopicsOutput::List => topics_lines(topics@),
            },
    {
        let mut lines: Vec<String> = Vec::new();
        match self.output {
            GetTopicsOutput::Table => {
                let mut rows: Vec<Vec<String>> = Vec::new();
                let mut i: usize = 0;
                while i < topics.len()
                    invariant
                        i <= topics@.len(),
                        rows@.len() == i,
                        forall|j: int|
                            0 <= j < i ==> texts((#[trigger] rows@[j])@) == topics@[j].cells(),
                    decreases topics@.len() - i,
                {
                    rows.push(topics[i].row());
                    i = i + 1;
                }
                assert(rows_texts(rows@) =~= topics_cells(topics@));
                lines.push(draw_table(&header_row(), &rows));
                assert(texts(lines@) =~= seq![table_text(header_cells(), topics_cells(topics@))]);
            },
            GetTopicsOutput::List => {
                let mut i: usize = 0;
                while i < topics.len()
                    invariant
                        i <= topics@.len(),
                        lines@.len() == i,
                        forall|j: int|
                            0 <= j < i ==> (#[trigger] lines@[j])@ == joined(
                                topics@[j].cells(),
                                "|"@,
                            ),
                    decreases topics@.len() - i,
                {
                    lines.push(topics[i].line());
                    i = i + 1;
                }
                assert(texts(lines@) =~= topics_lines(topics@));
            },
        }
        lines
    }
}

} // verus!
