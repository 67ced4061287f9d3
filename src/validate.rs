//! Structural and referential checks over the log, and the strict policy.

use vstd::prelude::*;
use crate::event::{decodable_events, Field, LineContent, LogFile, RawEvent};
use crate::state::{materialize, replay, tasks_view, Task, TaskView};
use crate::text::{text_is, texts_contain, texts_view};
use crate::time::{rfc3339_instant, Timestamp};

verus! {

/// A member that every event's envelope must have.
#[derive(Clone, Copy, Debug, PartialEq, Eq, Structural)]
pub enum EnvelopeField {
    V,
    Op,
    Id,
    Ts,
    By,
    Branch,
    D,
}

/// The key of an envelope member in the log.
pub open spec fn field_key(f: EnvelopeField) -> Seq<char> {
    match f {
        EnvelopeField::V => "v"@,
        EnvelopeField::Op => "op"@,
        EnvelopeField::Id => "id"@,
        EnvelopeField::Ts => "ts"@,
        EnvelopeField::By => "by"@,
        EnvelopeField::Branch => "branch"@,
        EnvelopeField::D => "d"@,
    }
}

impl EnvelopeField {
    /// The member's key in the log.
    pub fn key(&self) -> (r: &'static str)
        ensures
            r@ == field_key(*self),
    {
        match self {
            EnvelopeField::V => "v",
            EnvelopeField::Op => "op",
            EnvelopeField::Id => "id",
            EnvelopeField::Ts => "ts",
            EnvelopeField::By => "by",
            EnvelopeField::Branch => "branch",
            EnvelopeField::D => "d",
        }
    }
}

/// The relation through which one task names another.
#[derive(Clone, Copy, Debug, PartialEq, Eq, Structural)]
pub enum Relation {
    BlockedBy,
    Blocks,
    Parent,
}

/// One finding of a validation. Line numbers count from 1.
#[derive(Clone, Debug)]
pub enum Issue {
    /// A file could not be opened.
    Unopened { file: String },
    /// A line could not be read.
    Unreadable { file: String, line: usize, cause: String },
    /// A line is not JSON.
    InvalidJson { file: String, line: usize, cause: String },
    /// A line lacks a member of the envelope.
    MissingField { file: String, line: usize, field: EnvelopeField },
    /// A line's schema version is not 1.
    UnknownVersion { file: String, line: usize, version: u64 },
    /// A second Create for an id.
    DuplicateCreate { file: String, line: usize, id: String },
    /// An event for an id that no earlier line created.
    BeforeCreate { file: String, line: usize, id: String },
    /// A timestamp that is not an RFC 3339 date-time.
    BadTimestamp { file: String, line: usize, ts: String },
    /// A task names a task that does not exist.
    DanglingReference { task: String, relation: Relation, target: String },
}

pub enum IssueView {
    Unopened { file: Seq<char> },
    Unreadable { file: Seq<char>, line: usize, cause: Seq<char> },
    InvalidJson { file: Seq<char>, line: usize, cause: Seq<char> },
    MissingField { file: Seq<char>, line: usize, field: EnvelopeField },
    UnknownVersion { file: Seq<char>, line: usize, version: u64 },
    DuplicateCreate { file: Seq<char>, line: usize, id: Seq<char> },
    BeforeCreate { file: Seq<char>, line: usize, id: Seq<char> },
    BadTimestamp { file: Seq<char>, line: usize, ts: Seq<char> },
    DanglingReference { task: Seq<char>, relation: Relation, target: Seq<char> },
}

impl View for Issue {
    type V = IssueView;

    open spec fn view(&self) -> IssueView {
        match self {
            Issue::Unopened { file } => IssueView::Unopened { file: file@ },
            Issue::Unreadable { file, line, cause } => IssueView::Unreadable {
                file: file@,
                line: *line,
                cause: cause@,
            },
            Issue::InvalidJson { file, line, cause } => IssueView::InvalidJson {
                file: file@,
                line: *line,
                cause: cause@,
            },
            Issue::MissingField { file, line, field } => IssueView::MissingField {
                file: file@,
                line: *line,
                field: *field,
            },
            Issue::UnknownVersion { file, line, version } => IssueView::UnknownVersion {
                file: file@,
                line: *line,
                version: *version,
            },
            Issue::DuplicateCreate { file, line, id } => IssueView::DuplicateCreate {
                file: file@,
                line: *line,
                id: id@,
            },
            Issue::BeforeCreate { file, line, id } => IssueView::BeforeCreate {
                file: file@,
                line: *line,
                id: id@,
            },
            Issue::BadTimestamp { file, line, ts } => IssueView::BadTimestamp {
                file: file@,
                line: *line,
                ts: ts@,
            },
            Issue::DanglingReference { task, relation, target } => IssueView::DanglingReference {
                task: task@,
                relation: *relation,
                target: target@,
            },
        }
    }
}

pub open spec fn issues_view(v: Seq<Issue>) -> Seq<IssueView> {
    v.map_values(|i: Issue| i@)
}

/// The errors and warnings of a validation, each in the order found.
#[derive(Clone, Debug)]
pub struct ValidationResult {
    pub errors: Vec<Issue>,
    pub warnings: Vec<Issue>,
}

/// Where a scan of the log stands: the findings so far, and the ids created.
pub struct ScanView {
    pub errors: Seq<IssueView>,
    pub warnings: Seq<IssueView>,
    pub created: Set<Seq<char>>,
}

/// The envelope members that a line lacks, in envelope order.
pub open spec fn missing_fields(raw: RawEvent) -> Seq<EnvelopeField> {
    (if raw.v is Missing { seq![EnvelopeField::V] } else { Seq::empty() })
        + (if raw.op is Missing { seq![EnvelopeField::Op] } else { Seq::empty() })
        + (if raw.id is Missing { seq![EnvelopeField::Id] } else { Seq::empty() })
        + (if raw.ts is Missing { seq![EnvelopeField::Ts] } else { Seq::empty() })
        + (if raw.by is Missing { seq![EnvelopeField::By] } else { Seq::empty() })
        + (if raw.branch is Missing { seq![EnvelopeField::Branch] } else { Seq::empty() })
        + (if raw.d is None { seq![EnvelopeField::D] } else { Seq::empty() })
}

/// One error per member in `fields`, in order.
pub open spec fn missing_issues(file: Seq<char>, n: usize, fields: Seq<EnvelopeField>) -> Seq<IssueView>
    decreases fields.len(),
{
    if fields.len() == 0 {
        Seq::empty()
    } else {
        missing_issues(file, n, fields.drop_last()).push(
            IssueView::MissingField { file, line: n, field: fields.last() },
        )
    }
}

/// The errors for the envelope members that a line lacks.
pub open spec fn with_missing(st: ScanView, file: Seq<char>, n: usize, raw: RawEvent) -> ScanView {
    ScanView {
        errors: st.errors + missing_issues(file, n, missing_fields(raw)),
        ..st
    }
}

/// The warning for a schema version other than 1.
pub open spec fn with_version(st: ScanView, file: Seq<char>, n: usize, raw: RawEvent) -> ScanView {
    match raw.v {
        Field::Count(v) => if v != 1 {
            ScanView {
                warnings: st.warnings.push(IssueView::UnknownVersion { file, line: n, version: v }),
                ..st
            }
        } else {
            st
        },
        _ => st,
    }
}

/// The tracking of created ids: a Create records its id, and warns when the
/// id was created before; any other operation warns when its id was not.
pub open spec fn with_creation(st: ScanView, file: Seq<char>, n: usize, raw: RawEvent) -> ScanView {
    match (raw.op, raw.id) {
        (Field::Text(op), Field::Text(id)) => if op@ == "create"@ {
            ScanView {
                warnings: if st.created.contains(id@) {
                    st.warnings.push(IssueView::DuplicateCreate { file, line: n, id: id@ })
                } else {
                    st.warnings
                },
                created: st.created.insert(id@),
                ..st
            }
        } else if !st.created.contains(id@) {
            ScanView {
                warnings: st.warnings.push(IssueView::BeforeCreate { file, line: n, id: id@ }),
                ..st
            }
        } else {
            st
        },
        _ => st,
    }
}

/// The error for a timestamp that is not an RFC 3339 date-time.
pub open spec fn with_timestamp(st: ScanView, file: Seq<char>, n: usize, raw: RawEvent) -> ScanView {
    match raw.ts {
        Field::Text(t) => if rfc3339_instant(t@) is None {
            ScanView { errors: st.errors.push(IssueView::BadTimestamp { file, line: n, ts: t@ }), ..st }
        } else {
            st
        },
        _ => st,
    }
}

/// What one parsed line adds to a scan: the missing members, the schema
/// version, the creation order, then the timestamp.
pub open spec fn scan_parsed(st: ScanView, file: Seq<char>, n: usize, raw: RawEvent) -> ScanView {
    with_timestamp(
        with_creation(with_version(with_missing(st, file, n, raw), file, n, raw), file, n, raw),
        file,
        n,
        raw,
    )
}

/// What one line, numbered `n`, adds to a scan.
pub open spec fn scan_line(st: ScanView, file: Seq<char>, n: usize, line: LineContent) -> ScanView {
    match line {
        LineContent::Blank => st,
        LineContent::Unreadable(c) => ScanView {
            errors: st.errors.push(IssueView::Unreadable { file, line: n, cause: c@ }),
            ..st
        },
        LineContent::Malformed(c) => ScanView {
            errors: st.errors.push(IssueView::InvalidJson { file, line: n, cause: c@ }),
            ..st
        },
        LineContent::Parsed(raw) => scan_parsed(st, file, n, raw),
    }
}

/// A scan over the lines of one file, in order.
pub open spec fn scan_lines(st: ScanView, file: Seq<char>, lines: Seq<LineContent>) -> ScanView
    decreases lines.len(),
{
    if lines.len() == 0 {
        st
    } else {
        scan_line(
            scan_lines(st, file, lines.drop_last()),
            file,
            lines.len() as usize,
            lines.last(),
        )
    }
}

/// A scan over files in order.
pub open spec fn scan_files(st: ScanView, files: Seq<LogFile>) -> ScanView
    decreases files.len(),
{
    if files.len() == 0 {
        st
    } else {
        let prev = scan_files(st, files.drop_last());
        match files.last().lines {
            Some(lines) => scan_lines(prev, files.last().name@, lines@),
            None => ScanView {
                errors: prev.errors.push(IssueView::Unopened { file: files.last().name@ }),
                ..prev
            },
        }
    }
}

/// Whether some task has this id.
pub open spec fn has_task(tasks: Seq<TaskView>, id: Seq<char>) -> bool {
    exists|i: int| 0 <= i < tasks.len() && tasks[i].id == id
}

/// The dangling references of one list of a task, in list order.
pub open spec fn dangling_in(
    tasks: Seq<TaskView>,
    owner: Seq<char>,
    relation: Relation,
    targets: Seq<Seq<char>>,
) -> Seq<IssueView>
    decreases targets.len(),
{
    if targets.len() == 0 {
        Seq::empty()
    } else {
        let prev = dangling_in(tasks, owner, relation, targets.drop_last());
        if has_task(tasks, targets.last()) {
            prev
        } else {
            prev.push(IssueView::DanglingReference { task: owner, relation, target: targets.last() })
        }
    }
}

/// The dangling references of one task: blocked_by, then blocks, then parent.
pub open spec fn dangling_of(tasks: Seq<TaskView>, t: TaskView) -> Seq<IssueView> {
    dangling_in(tasks, t.id, Relation::BlockedBy, t.blocked_by) + dangling_in(
        tasks,
        t.id,
        Relation::Blocks,
        t.blocks,
    ) + match t.parent {
        Some(p) => if has_task(tasks, p) {
            Seq::empty()
        } else {
            seq![IssueView::DanglingReference { task: t.id, relation: Relation::Parent, target: p }]
        },
        None => Seq::empty(),
    }
}

/// The dangling references of the first `n` tasks, task after task.
pub open spec fn dangling(tasks: Seq<TaskView>, n: int) -> Seq<IssueView>
    decreases n,
{
    if n <= 0 {
        Seq::empty()
    } else {
        dangling(tasks, n - 1) + dangling_of(tasks, tasks[n - 1])
    }
}

/// A scan in progress: the findings so far, and the ids created.
pub struct Scan {
    pub errors: Vec<Issue>,
    pub warnings: Vec<Issue>,
    pub created: Vec<String>,
}

impl View for Scan {
    type V = ScanView;

    open spec fn view(&self) -> ScanView {
        ScanView {
            errors: issues_view(self.errors@),
            warnings: issues_view(self.warnings@),
            created: texts_view(self.created).to_set(),
        }
    }
}

fn push_issue(v: &mut Vec<Issue>, i: Issue)
    ensures
        issues_view(final(v)@) == issues_view(old(v)@).push(i@),
{
    v.push(i);
    proof {
        assert(issues_view(v@) =~= issues_view(old(v)@).push(i@));
    }
}

fn push_if(v: &mut Vec<EnvelopeField>, missing: bool, field: EnvelopeField)
    ensures
        final(v)@ == old(v)@ + (if missing {
            seq![field]
        } else {
            Seq::empty()
        }),
{
    if missing {
        v.push(field);
        proof {
            assert(v@ =~= old(v)@ + seq![field]);
        }
    } else {
        proof {
            assert(v@ =~= old(v)@ + Seq::<EnvelopeField>::empty());
        }
    }
}

/// The envelope members that a line lacks, in envelope order.
fn missing_list(raw: &RawEvent) -> (r: Vec<EnvelopeField>)
    ensures
        r@ == missing_fields(*raw),
{
    let mut v: Vec<EnvelopeField> = Vec::new();
    proof {
        assert(v@ =~= Seq::<EnvelopeField>::empty());
    }
    push_if(&mut v, raw.v.is_missing(), EnvelopeField::V);
    push_if(&mut v, raw.op.is_missing(), EnvelopeField::Op);
    push_if(&mut v, raw.id.is_missing(), EnvelopeField::Id);
    push_if(&mut v, raw.ts.is_missing(), EnvelopeField::Ts);
    push_if(&mut v, raw.by.is_missing(), EnvelopeField::By);
    push_if(&mut v, raw.branch.is_missing(), EnvelopeField::Branch);
    push_if(&mut v, raw.d.is_none(), EnvelopeField::D);
    proof {
        assert(v@ =~= missing_fields(*raw));
    }
    v
}

fn scan_missing(s: &mut Scan, file: &String, n: usize, raw: &RawEvent)
    ensures
        final(s)@ == with_missing(old(s)@, file@, n, *raw),
{
    let ghost st = s@;
    let fields = missing_list(raw);
    let mut i: usize = 0;
    proof {
        assert(fields@.take(0) =~= Seq::<EnvelopeField>::empty());
        assert(issues_view(s.errors@) =~= st.errors + missing_issues(file@, n, fields@.take(0)));
    }
    while i < fields.len()
        invariant
            i <= fields.len(),
            s.warnings == old(s).warnings,
            s.created == old(s).created,
            issues_view(s.errors@) == st.errors + missing_issues(file@, n, fields@.take(i as int)),
        decreases fields.len() - i,
    {
        let issue = Issue::MissingField { file: file.clone(), line: n, field: fields[i] };
        push_issue(&mut s.errors, issue);
        proof {
            assert(fields@.take(i + 1).drop_last() =~= fields@.take(i as int));
        }
        i = i + 1;
        proof {
            assert(issues_view(s.errors@) =~= st.errors + missing_issues(file@, n, fields@.take(i as int)));
        }
    }
    proof {
        assert(fields@.take(fields.len() as int) =~= fields@);
    }
}

fn scan_version(s: &mut Scan, file: &String, n: usize, raw: &RawEvent)
    ensures
        final(s)@ == with_version(old(s)@, file@, n, *raw),
{
    match &raw.v {
        Field::Count(v) => {
            if *v != 1 {
                push_issue(&mut s.warnings, Issue::UnknownVersion { file: file.clone(), line: n, version: *v });
            }
        },
        _ => {},
    }
}

fn scan_creation(s: &mut Scan, file: &String, n: usize, raw: &RawEvent)
    ensures
        final(s)@ == with_creation(old(s)@, file@, n, *raw),
{
    let ghost st = s@;
    match (&raw.op, &raw.id) {
        (Field::Text(op), Field::Text(id)) => {
            let known = texts_contain(&s.created, id);
            proof {
                if known {
                    let w = choose|w: int| 0 <= w < texts_view(s.created).len() && texts_view(s.created)[w] == id@;
                    assert(texts_view(s.created).to_set().contains(id@));
                }
                assert(known == st.created.contains(id@));
            }
            if text_is(op.as_str(), "create") {
                if known {
                    push_issue(&mut s.warnings, Issue::DuplicateCreate { file: file.clone(), line: n, id: id.clone() });
                }
                let ghost prev = texts_view(s.created);
                s.created.push(id.clone());
                proof {
                    assert(texts_view(s.created) =~= prev.push(id@));
                    prev.lemma_push_to_set_commute(id@);
                }
            } else if !known {
                push_issue(&mut s.warnings, Issue::BeforeCreate { file: file.clone(), line: n, id: id.clone() });
            }
        },
        _ => {},
    }
}

fn scan_timestamp(s: &mut Scan, file: &String, n: usize, raw: &RawEvent)
    ensures
        final(s)@ == with_timestamp(old(s)@, file@, n, *raw),
{
    match &raw.ts {
        Field::Text(t) => {
            if Timestamp::parse(t.as_str()).is_none() {
                push_issue(&mut s.errors, Issue::BadTimestamp { file: file.clone(), line: n, ts: t.clone() });
            }
        },
        _ => {},
    }
}

/// Scans one line, numbered `n`.
fn scan_one(s: &mut Scan, file: &String, n: usize, line: &LineContent)
    ensures
        final(s)@ == scan_line(old(s)@, file@, n, *line),
{
    match line {
        LineContent::Blank => {},
        LineContent::Unreadable(c) => {
            push_issue(&mut s.errors, Issue::Unreadable { file: file.clone(), line: n, cause: c.clone() });
        },
        LineContent::Malformed(c) => {
            push_issue(&mut s.errors, Issue::InvalidJson { file: file.clone(), line: n, cause: c.clone() });
        },
        LineContent::Parsed(raw) => {
            scan_missing(s, file, n, raw);
            scan_version(s, file, n, raw);
            scan_creation(s, file, n, raw);
            scan_timestamp(s, file, n, raw);
        },
    }
}

/// Scans log files in order, line by line, adding to the findings.
pub fn scan_files_into(s: &mut Scan, files: &Vec<LogFile>)
    ensures
        final(s)@ == scan_files(old(s)@, files@),
{
    let ghost st = s@;
    let mut k: usize = 0;
    proof {
        assert(files@.take(0) =~= Seq::<LogFile>::empty());
    }
    while k < files.len()
        invariant
            k <= files.len(),
            s@ == scan_files(st, files@.take(k as int)),
        decreases files.len() - k,
    {
        let f = &files[k];
        proof {
            assert(files@.take(k + 1).drop_last() =~= files@.take(k as int));
            assert(files@.take(k + 1).last() == f);
        }
        match &f.lines {
            None => {
                push_issue(&mut s.errors, Issue::Unopened { file: f.name.clone() });
            },
            Some(lines) => {
                let ghost base = s@;
                let mut i: usize = 0;
                proof {
                    assert(lines@.take(0) =~= Seq::<LineContent>::empty());
                }
                while i < lines.len()
                    invariant
                        i <= lines.len(),
                        s@ == scan_lines(base, f.name@, lines@.take(i as int)),
                    decreases lines.len() - i,
                {
                    proof {
                        assert(lines@.take(i + 1).drop_last() =~= lines@.take(i as int));
                    }
                    scan_one(s, &f.name, i + 1, &lines[i]);
                    i = i + 1;
                }
                proof {
                    assert(lines@.take(lines.len() as int) =~= lines@);
                }
            },
        }
        k = k + 1;
    }
    proof {
        assert(files@.take(files.len() as int) =~= files@);
    }
}

/// Whether some task has this id.
fn task_exists(tasks: &Vec<Task>, id: &String) -> (r: bool)
    ensures
        r == has_task(tasks_view(tasks@), id@),
{
    match crate::query::find_task(tasks, id.as_str()) {
        Some(i) => {
            assert(tasks_view(tasks@)[i as int].id == id@);
            true
        },
        None => {
            assert(forall|j: int| 0 <= j < tasks.len() ==> tasks_view(tasks@)[j].id != id@);
            false
        },
    }
}

fn dangling_list(
    out: &mut Vec<Issue>,
    tasks: &Vec<Task>,
    owner: &String,
    relation: Relation,
    targets: &Vec<String>,
)
    ensures
        issues_view(final(out)@) == issues_view(old(out)@) + dangling_in(
            tasks_view(tasks@),
            owner@,
            relation,
            texts_view(*targets),
        ),
{
    let ghost tv = tasks_view(tasks@);
    let ghost base = issues_view(out@);
    let mut i: usize = 0;
    proof {
        assert(texts_view(*targets).take(0) =~= Seq::<Seq<char>>::empty());
        assert(issues_view(out@) =~= base + dangling_in(tv, owner@, relation, texts_view(*targets).take(0)));
    }
    while i < targets.len()
        invariant
            i <= targets.len(),
            tv == tasks_view(tasks@),
            issues_view(out@) == base + dangling_in(tv, owner@, relation, texts_view(*targets).take(i as int)),
        decreases targets.len() - i,
    {
        proof {
            assert(texts_view(*targets).take(i + 1).drop_last() =~= texts_view(*targets).take(i as int));
            assert(texts_view(*targets).take(i + 1).last() == targets@[i as int]@);
        }
        if !task_exists(tasks, &targets[i]) {
            push_issue(
                out,
                Issue::DanglingReference { task: owner.clone(), relation, target: targets[i].clone() },
            );
        }
        i = i + 1;
    }
    proof {
        assert(texts_view(*targets).take(targets.len() as int) =~= texts_view(*targets));
    }
}

/// The references to tasks that do not exist, task after task: its
/// blocked_by, then its blocks, then its parent.
pub fn find_dangling(tasks: &Vec<Task>) -> (r: Vec<Issue>)
    ensures
        issues_view(r@) == dangling(tasks_view(tasks@), tasks.len() as int),
{
    let ghost tv = tasks_view(tasks@);
    let mut out: Vec<Issue> = Vec::new();
    let mut i: usize = 0;
    proof {
        assert(issues_view(out@) =~= Seq::<IssueView>::empty());
    }
    while i < tasks.len()
        invariant
            i <= tasks.len(),
            tv == tasks_view(tasks@),
            issues_view(out@) == dangling(tv, i as int),
        decreases tasks.len() - i,
    {
        let t = &tasks[i];
        let ghost before = issues_view(out@);
        dangling_list(&mut out, tasks, &t.id, Relation::BlockedBy, &t.blocked_by);
        dangling_list(&mut out, tasks, &t.id, Relation::Blocks, &t.blocks);
        let ghost middle = issues_view(out@);
        match &t.parent {
            Some(p) => {
                if !task_exists(tasks, p) {
                    push_issue(
                        &mut out,
                        Issue::DanglingReference { task: t.id.clone(), relation: Relation::Parent, target: p.clone() },
                    );
                    proof {
                        assert(issues_view(out@) =~= middle + seq![
                            IssueView::DanglingReference { task: t.id@, relation: Relation::Parent, target: p@ },
                        ]);
                    }
                } else {
                    assert(issues_view(out@) =~= middle + Seq::<IssueView>::empty());
                }
            },
            None => {
                assert(issues_view(out@) =~= middle + Seq::<IssueView>::empty());
            },
        }
        proof {
            assert(tv[i as int] == t@);
            assert(issues_view(out@) =~= before + dangling_of(tv, tv[i as int]));
        }
        i = i + 1;
    }
    out
}

/// A scan that has found nothing yet.
pub open spec fn empty_scan() -> ScanView {
    ScanView { errors: Seq::empty(), warnings: Seq::empty(), created: Set::empty() }
}

/// Validates the log, whatever it holds: scans the active files and then
/// the archive files line by line, recording unreadable, malformed and
/// inconsistent lines, then replays the events that do decode (archive
/// first) and reports the references to tasks that do not exist.
pub fn validate(active: &Vec<LogFile>, archive: &Vec<LogFile>) -> (r: ValidationResult)
    ensures
        ({
            let sc = scan_files(scan_files(empty_scan(), active@), archive@);
            &&& issues_view(r.errors@) == sc.errors
            &&& exists|ea: Seq<crate::event::Event>, eb: Seq<crate::event::Event>|
                crate::event::files_decode(archive@, ea) && crate::event::files_decode(active@, eb)
                    && issues_view(r.warnings@) == sc.warnings + dangling(
                    replay(ea + eb),
                    replay(ea + eb).len() as int,
                )
        }),
{
    let mut s = Scan { errors: Vec::new(), warnings: Vec::new(), created: Vec::new() };
    proof {
        assert(s@.errors =~= Seq::<IssueView>::empty());
        assert(s@.warnings =~= Seq::<IssueView>::empty());
        assert(s@.created =~= Set::<Seq<char>>::empty());
    }
    scan_files_into(&mut s, active);
    scan_files_into(&mut s, archive);
    let older = decodable_events(archive);
    let newer = decodable_events(active);
    let tasks = crate::state::replay_all(&older, &newer);
    let dangling_refs = find_dangling(&tasks);
    let Scan { errors, mut warnings, created: _ } = s;
    let ghost w = issues_view(warnings@);
    let mut i: usize = 0;
    while i < dangling_refs.len()
        invariant
            i <= dangling_refs.len(),
            issues_view(warnings@) == w + issues_view(dangling_refs@).take(i as int),
        decreases dangling_refs.len() - i,
    {
        let d = dangling_refs[i].clone_issue();
        push_issue(&mut warnings, d);
        i = i + 1;
        proof {
            assert(issues_view(warnings@) =~= w + issues_view(dangling_refs@).take(i as int));
        }
    }
    proof {
        assert(issues_view(dangling_refs@).take(dangling_refs.len() as int) =~= issues_view(dangling_refs@));
    }
    ValidationResult { errors, warnings }
}

impl Issue {
    pub fn clone_issue(&self) -> (r: Issue)
        ensures
            r@ == self@,
    {
        match self {
            Issue::Unopened { file } => Issue::Unopened { file: file.clone() },
            Issue::Unreadable { file, line, cause } => Issue::Unreadable {
                file: file.clone(),
                line: *line,
                cause: cause.clone(),
            },
            Issue::InvalidJson { file, line, cause } => Issue::InvalidJson {
                file: file.clone(),
                line: *line,
                cause: cause.clone(),
            },
            Issue::MissingField { file, line, field } => Issue::MissingField {
                file: file.clone(),
                line: *line,
                field: *field,
            },
            Issue::UnknownVersion { file, line, version } => Issue::UnknownVersion {
                file: file.clone(),
                line: *line,
                version: *version,
            },
            Issue::DuplicateCreate { file, line, id } => Issue::DuplicateCreate {
                file: file.clone(),
                line: *line,
                id: id.clone(),
            },
            Issue::BeforeCreate { file, line, id } => Issue::BeforeCreate {
                file: file.clone(),
                line: *line,
                id: id.clone(),
            },
            Issue::BadTimestamp { file, line, ts } => Issue::BadTimestamp {
                file: file.clone(),
                line: *line,
                ts: ts.clone(),
            },
            Issue::DanglingReference { task, relation, target } => Issue::DanglingReference {
                task: task.clone(),
                relation: *relation,
                target: target.clone(),
            },
        }
    }
}

/// Why strict validation failed: the number of errors, or else of warnings,
/// with the full report.
#[derive(Clone, Debug)]
pub enum ValidationFailed {
    Errors { count: usize, report: ValidationResult },
    Warnings { count: usize, report: ValidationResult },
}

/// The strict policy: without `strict` every report passes; with it, any
/// error fails the validation, and else any warning does.
pub fn enforce(report: ValidationResult, strict: bool) -> (r: Result<ValidationResult, ValidationFailed>)
    ensures
        !strict ==> r == Ok::<ValidationResult, ValidationFailed>(report),
        strict && report.errors.len() == 0 && report.warnings.len() == 0 ==> r == Ok::<
            ValidationResult,
            ValidationFailed,
        >(report),
        strict && report.errors.len() > 0 ==> r == Err::<ValidationResult, ValidationFailed>(
            ValidationFailed::Errors { count: report.errors.len(), report },
        ),
        strict && report.errors.len() == 0 && report.warnings.len() > 0 ==> r == Err::<
            ValidationResult,
            ValidationFailed,
        >(ValidationFailed::Warnings { count: report.warnings.len(), report }),
{
    if strict && report.errors.len() > 0 {
        let count = report.errors.len();
        Err(ValidationFailed::Errors { count, report })
    } else if strict && report.warnings.len() > 0 {
        let count = report.warnings.len();
        Err(ValidationFailed::Warnings { count, report })
    } else {
        Ok(report)
    }
}

} // verus!
