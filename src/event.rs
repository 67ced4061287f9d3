//! Events, the immutable unit of the log, and how a log line becomes one.

use vstd::prelude::*;
use crate::text::{copy_opt_text, copy_opt_texts, opt_texts_view, opt_view, text_is};
use crate::time::{relaxed_instant, Timestamp};

verus! {

/// What an event does to its task.
#[derive(Clone, Copy, Debug, PartialEq, Eq, Structural)]
pub enum Operation {
    Create,
    Update,
    Assign,
    Comment,
    Link,
    Unlink,
    Complete,
    Reopen,
    Archive,
}

/// The name of an operation in the log.
pub open spec fn operation_name(op: Operation) -> Seq<char> {
    match op {
        Operation::Create => "create"@,
        Operation::Update => "update"@,
        Operation::Assign => "assign"@,
        Operation::Comment => "comment"@,
        Operation::Link => "link"@,
        Operation::Unlink => "unlink"@,
        Operation::Complete => "complete"@,
        Operation::Reopen => "reopen"@,
        Operation::Archive => "archive"@,
    }
}

/// The operation that a name in the log denotes.
pub open spec fn operation_named(s: Seq<char>) -> Option<Operation> {
    if s == "create"@ {
        Some(Operation::Create)
    } else if s == "update"@ {
        Some(Operation::Update)
    } else if s == "assign"@ {
        Some(Operation::Assign)
    } else if s == "comment"@ {
        Some(Operation::Comment)
    } else if s == "link"@ {
        Some(Operation::Link)
    } else if s == "unlink"@ {
        Some(Operation::Unlink)
    } else if s == "complete"@ {
        Some(Operation::Complete)
    } else if s == "reopen"@ {
        Some(Operation::Reopen)
    } else if s == "archive"@ {
        Some(Operation::Archive)
    } else {
        None
    }
}

impl Operation {
    /// The name of the operation in the log.
    pub fn name(&self) -> (r: &'static str)
        ensures
            r@ == operation_name(*self),
    {
        match self {
            Operation::Create => "create",
            Operation::Update => "update",
            Operation::Assign => "assign",
            Operation::Comment => "comment",
            Operation::Link => "link",
            Operation::Unlink => "unlink",
            Operation::Complete => "complete",
            Operation::Reopen => "reopen",
            Operation::Archive => "archive",
        }
    }

    /// The operation that a name in the log denotes, if any.
    pub fn from_name(s: &str) -> (r: Option<Operation>)
        ensures
            r == operation_named(s@),
    {
        if text_is(s, "create") {
            Some(Operation::Create)
        } else if text_is(s, "update") {
            Some(Operation::Update)
        } else if text_is(s, "assign") {
            Some(Operation::Assign)
        } else if text_is(s, "comment") {
            Some(Operation::Comment)
        } else if text_is(s, "link") {
            Some(Operation::Link)
        } else if text_is(s, "unlink") {
            Some(Operation::Unlink)
        } else if text_is(s, "complete") {
            Some(Operation::Complete)
        } else if text_is(s, "reopen") {
            Some(Operation::Reopen)
        } else if text_is(s, "archive") {
            Some(Operation::Archive)
        } else {
            None
        }
    }
}

/// The operation-dependent document of an event, as the logic reads it: each
/// text member is `Some` when it holds a string, each list member is `Some`
/// when it holds an array, and then keeps the array's strings in order.
#[derive(Clone, Debug)]
pub struct Payload {
    pub title: Option<String>,
    pub description: Option<String>,
    pub priority: Option<String>,
    pub assignee: Option<String>,
    pub parent: Option<String>,
    pub to: Option<String>,
    pub body: Option<String>,
    pub reference: Option<String>,
    pub rel: Option<String>,
    pub target: Option<String>,
    pub resolution: Option<String>,
    pub tags: Option<Vec<String>>,
    pub blocks: Option<Vec<String>>,
    pub blocked_by: Option<Vec<String>>,
}

/// The mathematical view of a [`Payload`].
pub struct PayloadView {
    pub title: Option<Seq<char>>,
    pub description: Option<Seq<char>>,
    pub priority: Option<Seq<char>>,
    pub assignee: Option<Seq<char>>,
    pub parent: Option<Seq<char>>,
    pub to: Option<Seq<char>>,
    pub body: Option<Seq<char>>,
    pub reference: Option<Seq<char>>,
    pub rel: Option<Seq<char>>,
    pub target: Option<Seq<char>>,
    pub resolution: Option<Seq<char>>,
    pub tags: Option<Seq<Seq<char>>>,
    pub blocks: Option<Seq<Seq<char>>>,
    pub blocked_by: Option<Seq<Seq<char>>>,
}

impl View for Payload {
    type V = PayloadView;

    open spec fn view(&self) -> PayloadView {
        PayloadView {
            title: opt_view(self.title),
            description: opt_view(self.description),
            priority: opt_view(self.priority),
            assignee: opt_view(self.assignee),
            parent: opt_view(self.parent),
            to: opt_view(self.to),
            body: opt_view(self.body),
            reference: opt_view(self.reference),
            rel: opt_view(self.rel),
            target: opt_view(self.target),
            resolution: opt_view(self.resolution),
            tags: opt_texts_view(self.tags),
            blocks: opt_texts_view(self.blocks),
            blocked_by: opt_texts_view(self.blocked_by),
        }
    }
}

impl Payload {
    /// A document with no members.
    pub fn empty() -> (r: Payload)
        ensures
            r@.title is None && r@.description is None && r@.priority is None && r@.assignee is None
                && r@.parent is None && r@.to is None && r@.body is None && r@.reference is None
                && r@.rel is None && r@.target is None && r@.resolution is None && r@.tags is None
                && r@.blocks is None && r@.blocked_by is None,
    {
        Payload {
            title: None,
            description: None,
            priority: None,
            assignee: None,
            parent: None,
            to: None,
            body: None,
            reference: None,
            rel: None,
            target: None,
            resolution: None,
            tags: None,
            blocks: None,
            blocked_by: None,
        }
    }

    pub fn duplicate(&self) -> (r: Payload)
        ensures
            r@ == self@,
    {
        Payload {
            title: copy_opt_text(&self.title),
            description: copy_opt_text(&self.description),
            priority: copy_opt_text(&self.priority),
            assignee: copy_opt_text(&self.assignee),
            parent: copy_opt_text(&self.parent),
            to: copy_opt_text(&self.to),
            body: copy_opt_text(&self.body),
            reference: copy_opt_text(&self.reference),
            rel: copy_opt_text(&self.rel),
            target: copy_opt_text(&self.target),
            resolution: copy_opt_text(&self.resolution),
            tags: copy_opt_texts(&self.tags),
            blocks: copy_opt_texts(&self.blocks),
            blocked_by: copy_opt_texts(&self.blocked_by),
        }
    }
}

/// One event of the log.
#[derive(Clone, Debug)]
pub struct Event {
    pub v: u32,
    pub op: Operation,
    pub id: String,
    pub ts: Timestamp,
    pub by: String,
    pub branch: String,
    pub d: Payload,
}

impl Event {
    /// Every event that the log yields carries an instant that the calendar
    /// formatting accepts.
    pub open spec fn wf(&self) -> bool {
        self.ts.representable()
    }
}

/// Whether every event of a sequence is well formed.
pub open spec fn all_wf(events: Seq<Event>) -> bool {
    forall|i: int| 0 <= i < events.len() ==> (#[trigger] events[i]).wf()
}

/// One member of an event's envelope, as the logic reads it.
#[derive(Clone, Debug)]
pub enum Field {
    /// The member is absent.
    Missing,
    /// The member is a string.
    Text(String),
    /// The member is a non-negative integer.
    Count(u64),
    /// The member holds any other value, `null` included.
    Other,
}

/// The text that a member holds, if it is a string.
pub open spec fn field_text(f: Field) -> Option<Seq<char>> {
    match f {
        Field::Text(s) => Some(s@),
        _ => None,
    }
}

impl Field {
    pub fn is_missing(&self) -> (r: bool)
        ensures
            r == (*self is Missing),
    {
        match self {
            Field::Missing => true,
            _ => false,
        }
    }
}

/// The members of one log line's JSON object, as plain values.
#[derive(Clone, Debug)]
pub struct RawEvent {
    pub v: Field,
    pub op: Field,
    pub id: Field,
    pub ts: Field,
    pub by: Field,
    pub branch: Field,
    /// The document under `d`; `None` when the member is absent.
    pub d: Option<Payload>,
}

/// Whether a line's members make an event, and which.
pub open spec fn decodes_to(raw: RawEvent, e: Event) -> bool {
    &&& raw.v matches Field::Count(n) && n <= u32::MAX && e.v == n
    &&& raw.op matches Field::Text(name) && operation_named(name@) == Some(e.op)
    &&& raw.id matches Field::Text(id) && e.id@ == id@
    &&& raw.ts matches Field::Text(t) && relaxed_instant(t@) == Some((e.ts.secs, e.ts.nanos))
    &&& e.ts.representable()
    &&& raw.by matches Field::Text(by) && e.by@ == by@
    &&& raw.branch matches Field::Text(branch) && e.branch@ == branch@
    &&& raw.d matches Some(d) && e.d@ == d@
}

/// Whether a line's members make an event at all.
pub open spec fn decodable(raw: RawEvent) -> bool {
    exists|e: Event| decodes_to(raw, e)
}

/// The event that a line's members make, if they make one.
pub fn decode(raw: &RawEvent) -> (r: Option<Event>)
    ensures
        r matches Some(e) ==> decodes_to(*raw, e),
        r is None ==> !decodable(*raw),
{
    let v: u32 = match &raw.v {
        Field::Count(n) => {
            if *n <= u32::MAX as u64 {
                *n as u32
            } else {
                return None;
            }
        },
        _ => {
            return None;
        },
    };
    let op = match &raw.op {
        Field::Text(name) => match Operation::from_name(name.as_str()) {
            Some(op) => op,
            None => {
                return None;
            },
        },
        _ => {
            return None;
        },
    };
    let id = match &raw.id {
        Field::Text(s) => s.clone(),
        _ => {
            return None;
        },
    };
    let ts = match &raw.ts {
        Field::Text(t) => match Timestamp::parse_relaxed(t.as_str()) {
            Some(ts) => {
                if ts.is_representable() {
                    ts
                } else {
                    return None;
                }
            },
            None => {
                return None;
            },
        },
        _ => {
            return None;
        },
    };
    let by = match &raw.by {
        Field::Text(s) => s.clone(),
        _ => {
            return None;
        },
    };
    let branch = match &raw.branch {
        Field::Text(s) => s.clone(),
        _ => {
            return None;
        },
    };
    let d = match &raw.d {
        Some(d) => d.duplicate(),
        None => {
            return None;
        },
    };
    Some(Event { v, op, id, ts, by, branch, d })
}

/// One line of a log file, as read.
#[derive(Clone, Debug)]
pub enum LineContent {
    /// Nothing but white space.
    Blank,
    /// The line could not be read; the reason.
    Unreadable(String),
    /// The line is not JSON; the reason.
    Malformed(String),
    /// The line is a JSON value with these members.
    Parsed(RawEvent),
}

/// Why a line does not yield an event.
#[derive(Clone, Debug)]
pub enum ParseCause {
    Unreadable(String),
    InvalidJson(String),
    NotAnEvent,
}

/// A line of a log file that yields no event: the file, the line's 1-based
/// number, and the cause.
#[derive(Clone, Debug)]
pub struct ParseError {
    pub file: String,
    pub line: usize,
    pub cause: ParseCause,
}

/// Whether a line is skipped or yields an event.
pub open spec fn line_ok(l: LineContent) -> bool {
    match l {
        LineContent::Blank => true,
        LineContent::Parsed(raw) => decodable(raw),
        _ => false,
    }
}

/// The events that lines `0..n` of a file yield, when each of them is fine.
pub open spec fn lines_yield(lines: Seq<LineContent>, n: int, events: Seq<Event>) -> bool
    decreases n,
{
    if n <= 0 {
        events.len() == 0
    } else {
        match lines[n - 1] {
            LineContent::Parsed(raw) => events.len() > 0 && decodes_to(raw, events.last())
                && lines_yield(lines, n - 1, events.drop_last()),
            _ => lines_yield(lines, n - 1, events),
        }
    }
}

/// The events of one log file, in line order. The read fails at the first
/// line that is neither blank nor an event, naming the file and that line.
pub fn parse_events(file: &String, lines: &Vec<LineContent>) -> (r: Result<Vec<Event>, ParseError>)
    ensures
        r is Ok <==> (forall|i: int| 0 <= i < lines.len() ==> line_ok(#[trigger] lines@[i])),
        r matches Ok(events) ==> lines_yield(lines@, lines.len() as int, events@) && all_wf(
            events@,
        ),
        r matches Err(e) ==> e.file@ == file@ && 1 <= e.line <= lines.len() && !line_ok(
            lines@[e.line - 1],
        ) && (forall|i: int| 0 <= i < e.line - 1 ==> line_ok(#[trigger] lines@[i])),
{
    let mut events: Vec<Event> = Vec::new();
    let mut i: usize = 0;
    while i < lines.len()
        invariant
            i <= lines.len(),
            forall|j: int| 0 <= j < i ==> line_ok(#[trigger] lines@[j]),
            lines_yield(lines@, i as int, events@),
            all_wf(events@),
        decreases lines.len() - i,
    {
        let cause = match &lines[i] {
            LineContent::Blank => None,
            LineContent::Unreadable(why) => Some(ParseCause::Unreadable(why.clone())),
            LineContent::Malformed(why) => Some(ParseCause::InvalidJson(why.clone())),
            LineContent::Parsed(raw) => match decode(raw) {
                Some(e) => {
                    let ghost prev = events@;
                    events.push(e);
                    proof {
                        assert(events@.drop_last() =~= prev);
                    }
                    None
                },
                None => Some(ParseCause::NotAnEvent),
            },
        };
        match cause {
            Some(cause) => {
                return Err(ParseError { file: file.clone(), line: i + 1, cause });
            },
            None => {},
        }
        i = i + 1;
    }
    Ok(events)
}

/// One log file as read: its name, and its lines, or `None` when it could
/// not be opened.
#[derive(Clone, Debug)]
pub struct LogFile {
    pub name: String,
    pub lines: Option<Vec<LineContent>>,
}

/// Why a sequence of log files does not yield its events.
#[derive(Clone, Debug)]
pub enum ReadError {
    /// The file could not be opened.
    Unopened(String),
    Parse(ParseError),
}

/// Whether every line of every file yields an event or is blank, with the
/// events that they yield, file after file.
pub open spec fn files_yield(files: Seq<LogFile>, events: Seq<Event>) -> bool
    decreases files.len(),
{
    if files.len() == 0 {
        events.len() == 0
    } else {
        match files.last().lines {
            Some(lines) => exists|k: int|
                0 <= k <= events.len() && files_yield(files.drop_last(), events.take(k))
                    && lines_yield(lines@, lines.len() as int, events.skip(k)),
            None => false,
        }
    }
}

/// Whether `e` names this file and its first line that is neither blank nor
/// an event.
pub open spec fn first_failure(f: LogFile, e: ParseError) -> bool {
    &&& f.name@ == e.file@
    &&& f.lines matches Some(lines) && 1 <= e.line <= lines.len() && !line_ok(lines@[e.line - 1])
        && forall|i: int| 0 <= i < e.line - 1 ==> line_ok(#[trigger] lines@[i])
}

/// Whether a file opens and each of its lines is blank or an event.
pub open spec fn file_ok(f: LogFile) -> bool {
    f.lines matches Some(lines) && forall|i: int| 0 <= i < lines.len() ==> line_ok(#[trigger] lines@[i])
}

/// The events of a sequence of log files, file after file; the read fails at
/// the first file that does not open or holds a line that yields no event.
pub fn read_events(files: &Vec<LogFile>) -> (r: Result<Vec<Event>, ReadError>)
    ensures
        r is Ok <==> (forall|k: int| 0 <= k < files.len() ==> file_ok(#[trigger] files@[k])),
        r matches Ok(events) ==> files_yield(files@, events@) && all_wf(events@),
        r matches Err(ReadError::Unopened(name)) ==> exists|k: int|
            0 <= k < files.len() && files@[k].lines is None && files@[k].name@ == name@ && (forall|q: int|
                0 <= q < k ==> file_ok(#[trigger] files@[q])),
        r matches Err(ReadError::Parse(e)) ==> exists|k: int|
            0 <= k < files.len() && first_failure(files@[k], e) && (forall|q: int|
                0 <= q < k ==> file_ok(#[trigger] files@[q])),
{
    let mut events: Vec<Event> = Vec::new();
    let mut k: usize = 0;
    proof {
        assert(files@.take(0) =~= Seq::<LogFile>::empty());
    }
    while k < files.len()
        invariant
            k <= files.len(),
            forall|q: int| 0 <= q < k ==> file_ok(#[trigger] files@[q]),
            files_yield(files@.take(k as int), events@),
            all_wf(events@),
        decreases files.len() - k,
    {
        let f = &files[k];
        match &f.lines {
            None => {
                return Err(ReadError::Unopened(f.name.clone()));
            },
            Some(lines) => match parse_events(&f.name, lines) {
                Err(e) => {
                    proof {
                        let i = (e.line - 1) as int;
                        assert(!line_ok(lines@[i]));
                        assert(first_failure(files@[k as int], e));
                    }
                    return Err(ReadError::Parse(e));
                },
                Ok(mut more) => {
                    let ghost prev = events@;
                    let ghost added = more@;
                    events.append(&mut more);
                    proof {
                        assert(events@ == prev + added);
                        assert(files@.take(k + 1).drop_last() =~= files@.take(k as int));
                        assert(events@.take(prev.len() as int) =~= prev);
                        assert(events@.skip(prev.len() as int) =~= added);
                        assert(files_yield(files@.take(k + 1), events@));
                    }
                },
            },
        }
        k = k + 1;
    }
    proof {
        assert(files@.take(files.len() as int) =~= files@);
    }
    Ok(events)
}

/// The events that the decodable lines `0..n` of a file yield, in order,
/// skipping every other line.
pub open spec fn lines_decode(lines: Seq<LineContent>, n: int, events: Seq<Event>) -> bool
    decreases n,
{
    if n <= 0 {
        events.len() == 0
    } else {
        match lines[n - 1] {
            LineContent::Parsed(raw) => if decodable(raw) {
                events.len() > 0 && decodes_to(raw, events.last()) && lines_decode(lines, n - 1, events.drop_last())
            } else {
                lines_decode(lines, n - 1, events)
            },
            _ => lines_decode(lines, n - 1, events),
        }
    }
}

/// The events of every decodable line of the files, file after file,
/// skipping files that do not open and lines that yield no event.
pub open spec fn files_decode(files: Seq<LogFile>, events: Seq<Event>) -> bool
    decreases files.len(),
{
    if files.len() == 0 {
        events.len() == 0
    } else {
        match files.last().lines {
            Some(lines) => exists|k: int|
                0 <= k <= events.len() && files_decode(files.drop_last(), events.take(k))
                    && lines_decode(lines@, lines.len() as int, events.skip(k)),
            None => files_decode(files.drop_last(), events),
        }
    }
}

/// The events of every line that yields one, file after file; lines and
/// files that yield none are passed over.
pub fn decodable_events(files: &Vec<LogFile>) -> (r: Vec<Event>)
    ensures
        files_decode(files@, r@),
        all_wf(r@),
{
    let mut events: Vec<Event> = Vec::new();
    let mut k: usize = 0;
    proof {
        assert(files@.take(0) =~= Seq::<LogFile>::empty());
    }
    while k < files.len()
        invariant
            k <= files.len(),
            files_decode(files@.take(k as int), events@),
            all_wf(events@),
        decreases files.len() - k,
    {
        let f = &files[k];
        proof {
            assert(files@.take(k + 1).drop_last() =~= files@.take(k as int));
            assert(files@.take(k + 1).last() == *f);
        }
        match &f.lines {
            None => {},
            Some(lines) => {
                let ghost base = events@;
                let mut i: usize = 0;
                proof {
                    assert(events@.skip(base.len() as int) =~= Seq::<Event>::empty());
                    assert(events@.take(base.len() as int) =~= base);
                }
                while i < lines.len()
                    invariant
                        i <= lines.len(),
                        events@.len() >= base.len(),
                        events@.take(base.len() as int) == base,
                        lines_decode(lines@, i as int, events@.skip(base.len() as int)),
                        all_wf(events@),
                    decreases lines.len() - i,
                {
                    match &lines[i] {
                        LineContent::Parsed(raw) => match decode(raw) {
                            Some(e) => {
                                let ghost prev = events@;
                                events.push(e);
                                proof {
                                    assert(events@.take(base.len() as int) =~= base);
                                    assert(events@.skip(base.len() as int).drop_last() =~= prev.skip(base.len() as int));
                                }
                            },
                            None => {},
                        },
                        _ => {},
                    }
                    i = i + 1;
                }
                proof {
                    assert(files_decode(files@.take(k + 1), events@));
                }
            },
        }
        k = k + 1;
    }
    proof {
        assert(files@.take(files.len() as int) =~= files@);
    }
    events
}

} // verus!
