use fabric::archive::archive_tasks;
use fabric::event::{
    decode, parse_events, read_events, Event, Field, LineContent, LogFile, Operation, ParseCause,
    Payload, RawEvent, ReadError,
};
use fabric::index::{build_index, LogEvents};
use fabric::query::{find_task, list_tasks, ListFilter};
use fabric::state::{apply_event, materialize, Task, TaskStatus};
use fabric::time::Timestamp;
use fabric::ui::{App, Focus, StatusFilter};
use fabric::validate::{enforce, validate, EnvelopeField, Issue, Relation, ValidationFailed};

fn ts(text: &str) -> Timestamp {
    Timestamp::parse(text).expect("valid timestamp")
}

fn event(op: Operation, id: &str, at: &str, d: Payload) -> Event {
    Event {
        v: 1,
        op,
        id: id.to_string(),
        ts: ts(at),
        by: "dev".to_string(),
        branch: "main".to_string(),
        d,
    }
}

fn titled(title: &str) -> Payload {
    let mut d = Payload::empty();
    d.title = Some(title.to_string());
    d
}

fn link(rel: &str, target: &str) -> Payload {
    let mut d = Payload::empty();
    d.rel = Some(rel.to_string());
    d.target = Some(target.to_string());
    d
}

fn raw_of(op: &str, id: &str, at: &str) -> RawEvent {
    RawEvent {
        v: Field::Count(1),
        op: Field::Text(op.to_string()),
        id: Field::Text(id.to_string()),
        ts: Field::Text(at.to_string()),
        by: Field::Text("dev".to_string()),
        branch: Field::Text("main".to_string()),
        d: Some(Payload::empty()),
    }
}

fn replay(events: &[Event]) -> Vec<Task> {
    let v: Vec<Event> = events.to_vec();
    materialize(&Vec::new(), &v, ts("2024-06-01T00:00:00Z")).tasks
}

#[test]
fn create_comment_complete_scenario() {
    let mut comment = Payload::empty();
    comment.body = Some("wip".to_string());
    let tasks = replay(&[
        event(Operation::Create, "T1", "2024-01-01T10:00:00Z", titled("Fix bug")),
        event(Operation::Comment, "T1", "2024-01-01T11:00:00Z", comment),
        event(Operation::Complete, "T1", "2024-01-01T12:00:00Z", Payload::empty()),
    ]);
    assert_eq!(tasks.len(), 1);
    let t = &tasks[0];
    assert_eq!(t.title, "Fix bug");
    assert_eq!(t.status, TaskStatus::Complete);
    assert_eq!(t.resolution.as_deref(), Some("done"));
    assert_eq!(t.comments.len(), 1);
    assert_eq!(t.comments[0].body, "wip");
    assert_eq!(t.completed, Some(ts("2024-01-01T12:00:00Z")));
    assert_eq!(t.updated, ts("2024-01-01T12:00:00Z"));
}

#[test]
fn events_before_create_leave_no_task() {
    let tasks = replay(&[
        event(Operation::Update, "T9", "2024-01-01T10:00:00Z", titled("x")),
        event(Operation::Complete, "T9", "2024-01-01T11:00:00Z", Payload::empty()),
        event(Operation::Link, "T9", "2024-01-01T12:00:00Z", link("blocks", "T1")),
    ]);
    assert!(tasks.is_empty());
}

#[test]
fn materializing_twice_is_identical() {
    let events = [
        event(Operation::Create, "A", "2024-01-01T10:00:00Z", titled("a")),
        event(Operation::Create, "B", "2024-01-02T10:00:00Z", titled("b")),
        event(Operation::Link, "A", "2024-01-03T10:00:00Z", link("blocks", "B")),
        event(Operation::Complete, "B", "2024-01-04T10:00:00Z", Payload::empty()),
    ];
    let first = replay(&events);
    let second = replay(&events);
    assert_eq!(format!("{:?}", first), format!("{:?}", second));
}

#[test]
fn link_blocks_twice_keeps_one() {
    let tasks = replay(&[
        event(Operation::Create, "T1", "2024-01-01T10:00:00Z", titled("t")),
        event(Operation::Link, "T1", "2024-01-02T10:00:00Z", link("blocks", "X")),
        event(Operation::Link, "T1", "2024-01-03T10:00:00Z", link("blocks", "X")),
    ]);
    assert_eq!(tasks[0].blocks, vec!["X".to_string()]);
    assert_eq!(tasks[0].updated, ts("2024-01-03T10:00:00Z"));
}

#[test]
fn unlink_and_parent() {
    let tasks = replay(&[
        event(Operation::Create, "T1", "2024-01-01T10:00:00Z", titled("t")),
        event(Operation::Link, "T1", "2024-01-02T10:00:00Z", link("blocked_by", "A")),
        event(Operation::Link, "T1", "2024-01-02T10:00:00Z", link("blocked_by", "B")),
        event(Operation::Link, "T1", "2024-01-02T10:00:00Z", link("parent", "P")),
        event(Operation::Link, "T1", "2024-01-02T10:00:00Z", link("sibling", "Q")),
        event(Operation::Unlink, "T1", "2024-01-03T10:00:00Z", link("blocked_by", "A")),
        event(Operation::Unlink, "T1", "2024-01-03T10:00:00Z", link("parent", "Z")),
    ]);
    assert_eq!(tasks[0].blocked_by, vec!["B".to_string()]);
    assert_eq!(tasks[0].parent.as_deref(), Some("P"));
    let tasks = replay(&[
        event(Operation::Create, "T1", "2024-01-01T10:00:00Z", titled("t")),
        event(Operation::Link, "T1", "2024-01-02T10:00:00Z", link("parent", "P")),
        event(Operation::Unlink, "T1", "2024-01-03T10:00:00Z", link("parent", "P")),
    ]);
    assert_eq!(tasks[0].parent, None);
}

#[test]
fn complete_then_reopen_round_trip() {
    let mut resolved = Payload::empty();
    resolved.resolution = Some("wontfix".to_string());
    let tasks = replay(&[
        event(Operation::Create, "T1", "2024-01-01T10:00:00Z", titled("t")),
        event(Operation::Complete, "T1", "2024-01-02T10:00:00Z", resolved),
        event(Operation::Reopen, "T1", "2024-01-03T10:00:00Z", Payload::empty()),
    ]);
    let t = &tasks[0];
    assert_eq!(t.status, TaskStatus::Open);
    assert_eq!(t.completed, None);
    assert_eq!(t.resolution, None);
    assert_eq!(t.updated, ts("2024-01-03T10:00:00Z"));
}

#[test]
fn update_assign_archive_and_recreate() {
    let mut upd = Payload::empty();
    upd.priority = Some("p1".to_string());
    upd.tags = Some(vec!["bug".to_string(), "ui".to_string()]);
    let mut assign = Payload::empty();
    assign.to = Some("dev1".to_string());
    let mut arch = Payload::empty();
    arch.reference = Some("2024-01".to_string());
    let mut tasks: Vec<Task> = Vec::new();
    for e in [
        event(Operation::Create, "T1", "2024-01-01T10:00:00Z", titled("first")),
        event(Operation::Update, "T1", "2024-01-02T10:00:00Z", upd),
        event(Operation::Assign, "T1", "2024-01-03T10:00:00Z", assign),
        event(Operation::Archive, "T1", "2024-01-04T10:00:00Z", arch),
    ] {
        apply_event(&mut tasks, &e);
    }
    let t = &tasks[0];
    assert_eq!(t.title, "first");
    assert_eq!(t.priority.as_deref(), Some("p1"));
    assert_eq!(t.tags, vec!["bug".to_string(), "ui".to_string()]);
    assert_eq!(t.assignee.as_deref(), Some("dev1"));
    assert_eq!(t.archived.as_deref(), Some("2024-01"));
    apply_event(&mut tasks, &event(Operation::Assign, "T1", "2024-01-05T10:00:00Z", Payload::empty()));
    assert_eq!(tasks[0].assignee, None);
    apply_event(&mut tasks, &event(Operation::Create, "T1", "2024-01-06T10:00:00Z", titled("second")));
    assert_eq!(tasks.len(), 1);
    assert_eq!(tasks[0].title, "second");
    assert_eq!(tasks[0].tags.len(), 0);
    assert_eq!(tasks[0].archived, None);
}

#[test]
fn archived_history_replays_first() {
    let older = vec![event(Operation::Create, "T1", "2024-01-01T10:00:00Z", titled("old"))];
    let newer = vec![event(Operation::Complete, "T1", "2024-02-01T10:00:00Z", Payload::empty())];
    let state = materialize(&older, &newer, ts("2024-06-01T00:00:00Z"));
    assert_eq!(state.tasks.len(), 1);
    assert_eq!(state.tasks[0].status, TaskStatus::Complete);
    assert_eq!(state.rebuilt, ts("2024-06-01T00:00:00Z"));
    let state = materialize(&newer, &older, ts("2024-06-01T00:00:00Z"));
    assert_eq!(state.tasks[0].status, TaskStatus::Open);
}

#[test]
fn invalid_json_line_names_file_and_line() {
    let good = LogFile {
        name: "2023-12-31".to_string(),
        lines: Some(vec![LineContent::Parsed(raw_of("create", "T1", "2023-12-31T10:00:00Z"))]),
    };
    let bad = LogFile {
        name: "2024-01-01".to_string(),
        lines: Some(vec![
            LineContent::Parsed(raw_of("create", "T2", "2024-01-01T10:00:00Z")),
            LineContent::Blank,
            LineContent::Malformed("expected value".to_string()),
        ]),
    };
    let lines = bad.lines.clone().unwrap();
    match parse_events(&bad.name, &lines) {
        Err(e) => {
            assert_eq!(e.file, "2024-01-01");
            assert_eq!(e.line, 3);
            assert!(matches!(e.cause, ParseCause::InvalidJson(_)));
        }
        Ok(_) => panic!("expected a parse error"),
    }
    match read_events(&vec![good.clone(), bad]) {
        Err(ReadError::Parse(e)) => {
            assert_eq!(e.file, "2024-01-01");
            assert_eq!(e.line, 3);
        }
        _ => panic!("expected a parse error"),
    }
    let events = read_events(&vec![good]).unwrap();
    let state = materialize(&Vec::new(), &events, ts("2024-06-01T00:00:00Z"));
    assert_eq!(state.tasks.len(), 1);
    assert_eq!(state.tasks[0].id, "T1");
}

#[test]
fn decoding_checks_the_envelope() {
    let e = decode(&raw_of("complete", "T1", "2024-01-01T10:00:00+02:00")).unwrap();
    assert_eq!(e.op, Operation::Complete);
    assert_eq!(e.ts, ts("2024-01-01T08:00:00Z"));
    let mut raw = raw_of("create", "T1", "2024-01-01T10:00:00Z");
    raw.op = Field::Text("explode".to_string());
    assert!(decode(&raw).is_none());
    let mut raw = raw_of("create", "T1", "yesterday");
    assert!(decode(&raw).is_none());
    raw.ts = Field::Text("2024-01-01T10:00:00Z".to_string());
    raw.d = None;
    assert!(decode(&raw).is_none());
    let mut raw = raw_of("create", "T1", "2024-01-01T10:00:00Z");
    raw.v = Field::Count(1 << 40);
    assert!(decode(&raw).is_none());
}

#[test]
fn dangling_blocked_by_is_one_warning() {
    let active = vec![LogFile {
        name: "2024-01-01".to_string(),
        lines: Some(vec![
            LineContent::Parsed(raw_of("create", "T1", "2024-01-01T09:00:00Z")),
            LineContent::Parsed({
                let mut r = raw_of("link", "T1", "2024-01-01T10:00:00Z");
                r.d = Some(link("blocked_by", "T2"));
                r
            }),
        ]),
    }];
    let report = validate(&active, &Vec::new());
    assert!(report.errors.is_empty());
    assert_eq!(report.warnings.len(), 1);
    match &report.warnings[0] {
        Issue::DanglingReference { task, relation, target } => {
            assert_eq!(task, "T1");
            assert_eq!(*relation, Relation::BlockedBy);
            assert_eq!(target, "T2");
        }
        other => panic!("unexpected {:?}", other),
    }
    let events = read_events(&active).unwrap();
    let tasks = replay(&events);
    assert_eq!(tasks[0].blocked_by, vec!["T2".to_string()]);
}

#[test]
fn validation_scan_findings() {
    let mut missing = raw_of("update", "T1", "2024-01-01T10:00:00Z");
    missing.by = Field::Missing;
    missing.d = None;
    let mut old_version = raw_of("create", "T1", "not a time");
    old_version.v = Field::Count(2);
    let lines = vec![
        LineContent::Parsed(missing),
        LineContent::Parsed(old_version),
        LineContent::Parsed(raw_of("create", "T1", "2024-01-01T11:00:00Z")),
        LineContent::Malformed("eof".to_string()),
    ];
    let active = vec![
        LogFile { name: "2024-01-01".to_string(), lines: Some(lines) },
        LogFile { name: "2024-01-02".to_string(), lines: None },
    ];
    let report = validate(&active, &Vec::new());
    assert_eq!(report.errors.len(), 5);
    assert!(matches!(report.errors[3], Issue::InvalidJson { line: 4, .. }));
    assert_eq!(report.warnings.len(), 3);
    let mut s = fabric::validate::Scan { errors: Vec::new(), warnings: Vec::new(), created: Vec::new() };
    fabric::validate::scan_files_into(&mut s, &active);
    let e: Vec<String> = s.errors.iter().map(|i| format!("{:?}", i)).collect();
    assert_eq!(s.errors.len(), 5, "{:?}", e);
    assert!(matches!(s.errors[0], Issue::MissingField { line: 1, field: EnvelopeField::By, .. }));
    assert!(matches!(s.errors[1], Issue::MissingField { line: 1, field: EnvelopeField::D, .. }));
    assert!(matches!(s.errors[2], Issue::BadTimestamp { line: 2, .. }));
    assert!(matches!(s.errors[3], Issue::InvalidJson { line: 4, .. }));
    assert!(matches!(s.errors[4], Issue::Unopened { .. }));
    assert_eq!(s.warnings.len(), 3);
    assert!(matches!(s.warnings[0], Issue::BeforeCreate { line: 1, .. }));
    assert!(matches!(s.warnings[1], Issue::UnknownVersion { line: 2, version: 2, .. }));
    assert!(matches!(s.warnings[2], Issue::DuplicateCreate { line: 3, .. }));
}

#[test]
fn strict_policy() {
    let clean = fabric::validate::ValidationResult { errors: Vec::new(), warnings: Vec::new() };
    assert!(enforce(clean, true).is_ok());
    let warned = fabric::validate::ValidationResult {
        errors: Vec::new(),
        warnings: vec![Issue::Unopened { file: "x".to_string() }],
    };
    assert!(matches!(enforce(warned.clone(), true), Err(ValidationFailed::Warnings { count: 1, .. })));
    assert!(enforce(warned, false).is_ok());
    let failed = fabric::validate::ValidationResult {
        errors: vec![Issue::Unopened { file: "x".to_string() }, Issue::Unopened { file: "y".to_string() }],
        warnings: vec![Issue::Unopened { file: "z".to_string() }],
    };
    assert!(matches!(enforce(failed, true), Err(ValidationFailed::Errors { count: 2, .. })));
}

#[test]
fn index_tracks_dates_and_files() {
    let mut arch = Payload::empty();
    arch.reference = Some("2024-01".to_string());
    let logs = vec![
        LogEvents {
            file: "2024-01-01".to_string(),
            events: vec![
                event(Operation::Comment, "T1", "2024-01-01T08:00:00Z", Payload::empty()),
                event(Operation::Create, "T1", "2024-01-01T10:00:00Z", titled("t")),
            ],
        },
        LogEvents {
            file: "2024-01-03".to_string(),
            events: vec![
                event(Operation::Complete, "T1", "2024-01-03T23:30:00Z", Payload::empty()),
                event(Operation::Archive, "T1", "2024-01-03T23:40:00Z", arch),
                event(Operation::Update, "GHOST", "2024-01-03T23:50:00Z", Payload::empty()),
            ],
        },
    ];
    let index = build_index(&logs, ts("2024-06-01T00:00:00Z"));
    assert_eq!(index.tasks.len(), 1);
    let x = &index.tasks[0];
    assert_eq!(x.id, "T1");
    assert_eq!(x.status, TaskStatus::Complete);
    assert_eq!(x.created, "2024-01-01");
    assert_eq!(x.updated, "2024-01-03");
    assert_eq!(x.completed.as_deref(), Some("2024-01-03"));
    assert_eq!(x.archived.as_deref(), Some("2024-01"));
    assert_eq!(x.files, vec!["2024-01-01".to_string(), "2024-01-03".to_string()]);
}

#[test]
fn calendar_texts() {
    let t = ts("2024-02-29T23:59:59+00:00");
    assert_eq!(t.day_text(), "2024-02-29");
    assert_eq!(t.month_text(), "2024-02");
    let t = ts("2024-03-01T01:00:00+02:00");
    assert_eq!(t.day_text(), "2024-02-29");
    assert_eq!(Timestamp { secs: 86400, nanos: 0 }.days_earlier(1), Timestamp { secs: 0, nanos: 0 });
    assert_eq!(
        Timestamp { secs: i64::MIN + 5, nanos: 7 }.days_earlier(1),
        Timestamp { secs: i64::MIN, nanos: 7 }
    );
}

fn completed_task_events() -> Vec<Event> {
    vec![
        event(Operation::Create, "OLD", "2024-01-01T10:00:00Z", titled("old")),
        event(Operation::Create, "NEW", "2024-01-02T10:00:00Z", titled("new")),
        event(Operation::Create, "OPEN", "2024-01-03T10:00:00Z", titled("open")),
        event(Operation::Create, "MID", "2024-01-04T10:00:00Z", titled("mid")),
        event(Operation::Complete, "NEW", "2024-05-30T10:00:00Z", Payload::empty()),
        event(Operation::Complete, "MID", "2024-02-10T10:00:00Z", Payload::empty()),
        event(Operation::Complete, "OLD", "2024-01-20T10:00:00Z", Payload::empty()),
        event(Operation::Comment, "OLD", "2024-01-21T10:00:00Z", Payload::empty()),
    ]
}

#[test]
fn archive_selects_oldest_first_and_groups_by_month() {
    let active = completed_task_events();
    let now = ts("2024-06-01T00:00:00Z");
    let branch = "main".to_string();
    let dry = archive_tasks(&Vec::new(), &active, now, 30, true, &branch);
    assert_eq!(dry.selected, vec!["OLD".to_string(), "MID".to_string()]);
    assert!(dry.groups.is_empty() && dry.markers.is_empty());
    let plan = archive_tasks(&Vec::new(), &active, now, 30, false, &branch);
    assert_eq!(plan.selected, vec!["OLD".to_string(), "MID".to_string()]);
    assert_eq!(plan.groups.len(), 2);
    assert_eq!(plan.groups[0].month, "2024-01");
    assert_eq!(plan.groups[0].ids, vec!["OLD".to_string()]);
    assert_eq!(plan.groups[0].events, vec![0, 6, 7]);
    assert_eq!(plan.groups[1].month, "2024-02");
    assert_eq!(plan.groups[1].events, vec![3, 5]);
    assert_eq!(plan.markers.len(), 2);
    assert_eq!(plan.markers[0].op, Operation::Archive);
    assert_eq!(plan.markers[0].id, "OLD");
    assert_eq!(plan.markers[0].by, "@fabric");
    assert_eq!(plan.markers[0].d.reference.as_deref(), Some("2024-01"));
    assert_eq!(plan.markers[1].d.reference.as_deref(), Some("2024-02"));
    let none = archive_tasks(&Vec::new(), &active, now, 400, false, &branch);
    assert!(none.selected.is_empty() && none.groups.is_empty() && none.markers.is_empty());
}

#[test]
fn archive_twice_selects_nothing() {
    let mut active = completed_task_events();
    let now = ts("2024-06-01T00:00:00Z");
    let branch = "main".to_string();
    let plan = archive_tasks(&Vec::new(), &active, now, 30, false, &branch);
    assert_eq!(plan.selected.len(), 2);
    active.extend(plan.markers.iter().cloned());
    let again = archive_tasks(&Vec::new(), &active, now, 30, false, &branch);
    assert!(again.selected.is_empty());
    let state = materialize(&Vec::new(), &active, now);
    let old = &state.tasks[find_task(&state.tasks, "OLD").unwrap()];
    assert_eq!(old.archived.as_deref(), Some("2024-01"));
    assert_eq!(old.status, TaskStatus::Complete);
}

#[test]
fn listing_filters_and_orders_by_creation() {
    let mut tagged = Payload::empty();
    tagged.tags = Some(vec!["bug".to_string()]);
    tagged.title = Some("b".to_string());
    let tasks = replay(&[
        event(Operation::Create, "B", "2024-01-02T10:00:00Z", tagged),
        event(Operation::Create, "A", "2024-01-01T10:00:00Z", titled("a")),
        event(Operation::Create, "C", "2024-01-03T10:00:00Z", titled("c")),
        event(Operation::Complete, "C", "2024-01-04T10:00:00Z", Payload::empty()),
    ]);
    let all = ListFilter { status: Some("all".to_string()), assignee: None, tag: None, priority: None };
    let ids: Vec<&str> = list_tasks(&tasks, &all).iter().map(|&i| tasks[i].id.as_str()).collect();
    assert_eq!(ids, vec!["A", "B", "C"]);
    let open = ListFilter { status: Some("open".to_string()), assignee: None, tag: None, priority: None };
    let ids: Vec<&str> = list_tasks(&tasks, &open).iter().map(|&i| tasks[i].id.as_str()).collect();
    assert_eq!(ids, vec!["A", "B"]);
    let bug = ListFilter { status: None, assignee: None, tag: Some("bug".to_string()), priority: None };
    let ids: Vec<&str> = list_tasks(&tasks, &bug).iter().map(|&i| tasks[i].id.as_str()).collect();
    assert_eq!(ids, vec!["B"]);
    assert!(find_task(&tasks, "nope").is_none());
}

#[test]
fn operation_names_round_trip() {
    for op in [
        Operation::Create,
        Operation::Update,
        Operation::Assign,
        Operation::Comment,
        Operation::Link,
        Operation::Unlink,
        Operation::Complete,
        Operation::Reopen,
        Operation::Archive,
    ] {
        assert_eq!(Operation::from_name(op.name()), Some(op));
    }
    assert_eq!(Operation::from_name("Create"), None);
}

#[test]
fn context_paths_and_browser() {
    let ctx = fabric::context::FabricContext::at("/repo/.fabric");
    assert_eq!(ctx.index_path(), "/repo/.fabric/.index.json");
    assert_eq!(ctx.state_path(), "/repo/.fabric/.state.json");
    assert_eq!(ctx.events_dir, "/repo/.fabric/events");
    assert_eq!(StatusFilter::Complete.label(), "Complete");
    let tasks = replay(&[
        event(Operation::Create, "A", "2024-01-01T10:00:00Z", titled("a")),
        event(Operation::Create, "B", "2024-01-02T10:00:00Z", titled("b")),
    ]);
    let mut app = App::new(tasks);
    app.previous_task();
    assert_eq!(app.selected, 0);
    app.next_task();
    app.next_task();
    assert_eq!(app.selected, 1);
    assert_eq!(app.selected_task().unwrap().id, "B");
    app.first_task();
    assert_eq!(app.selected, 0);
    app.last_task();
    assert_eq!(app.selected, 1);
    app.toggle_focus();
    assert_eq!(app.focus, Focus::Detail);
    app.toggle_detail();
    assert!(app.show_detail);
}

#[test]
fn browser_orders_by_priority_then_creation() {
    let mut urgent = titled("u");
    urgent.priority = Some("p1".to_string());
    let mut low = titled("l");
    low.priority = Some("p4".to_string());
    let tasks = replay(&[
        event(Operation::Create, "PLAIN", "2024-01-01T10:00:00Z", titled("p")),
        event(Operation::Create, "LOW", "2024-01-01T09:00:00Z", low),
        event(Operation::Create, "URGENT", "2024-01-03T10:00:00Z", urgent),
        event(Operation::Create, "PLAIN2", "2024-01-02T10:00:00Z", titled("p2")),
        event(Operation::Create, "DONE", "2024-01-02T11:00:00Z", titled("d")),
        event(Operation::Complete, "DONE", "2024-01-04T10:00:00Z", Payload::empty()),
    ]);
    let mut app = App::new(tasks.clone());
    let ids: Vec<&str> = app.tasks.iter().map(|t| t.id.as_str()).collect();
    assert_eq!(ids, vec!["URGENT", "PLAIN", "PLAIN2", "LOW"]);
    app.last_task();
    assert_eq!(app.selected, 3);
    app.status_filter = StatusFilter::Complete;
    app.reload_tasks(tasks);
    let ids: Vec<&str> = app.tasks.iter().map(|t| t.id.as_str()).collect();
    assert_eq!(ids, vec!["DONE"]);
    assert_eq!(app.selected, 0);
}

#[test]
fn empty_log_gives_empty_results() {
    let state = materialize(&Vec::new(), &Vec::new(), ts("2024-06-01T00:00:00Z"));
    assert!(state.tasks.is_empty());
    let index = build_index(&Vec::new(), ts("2024-06-01T00:00:00Z"));
    assert!(index.tasks.is_empty());
    let report = validate(&Vec::new(), &Vec::new());
    assert!(report.errors.is_empty() && report.warnings.is_empty());
    let blank = vec![LogFile { name: "2024-01-01".to_string(), lines: Some(vec![LineContent::Blank]) }];
    assert!(read_events(&blank).unwrap().is_empty());
    let plan = archive_tasks(&Vec::new(), &Vec::new(), ts("2024-06-01T00:00:00Z"), 0, false, &"main".to_string());
    assert!(plan.selected.is_empty());
}

#[test]
fn malformed_lines_do_not_stop_validation() {
    let active = vec![LogFile {
        name: "2024-01-01".to_string(),
        lines: Some(vec![
            LineContent::Malformed("expected value".to_string()),
            LineContent::Parsed(raw_of("create", "T1", "2024-01-01T09:00:00Z")),
            LineContent::Parsed({
                let mut r = raw_of("link", "T1", "2024-01-01T10:00:00Z");
                r.d = Some(link("parent", "T9"));
                r
            }),
        ]),
    }];
    let report = validate(&active, &Vec::new());
    assert_eq!(report.errors.len(), 1);
    match &report.errors[0] {
        Issue::InvalidJson { file, line, .. } => {
            assert_eq!(file, "2024-01-01");
            assert_eq!(*line, 1);
        }
        other => panic!("unexpected {:?}", other),
    }
    assert_eq!(report.warnings.len(), 1);
    assert!(matches!(&report.warnings[0], Issue::DanglingReference { relation: Relation::Parent, .. }));
    assert!(matches!(enforce(report.clone(), false), Ok(_)));
    assert!(matches!(enforce(report, true), Err(ValidationFailed::Errors { count: 1, .. })));
}

#[test]
fn decoding_reads_the_relaxed_timestamp_form() {
    let e = decode(&raw_of("create", "T1", "2024-01-01 10:00:00+0200")).unwrap();
    assert_eq!(e.ts, ts("2024-01-01T08:00:00Z"));
    assert!(Timestamp::parse("2024-01-01 10:00:00+0200").is_none());
}

#[test]
fn log_names_are_filtered_and_sorted() {
    let entries: Vec<String> =
        vec!["2024-01-03.jsonl", "notes.txt", "2024-01-01.jsonl", ".jsonl", "2023-12-31.jsonl"]
            .into_iter()
            .map(String::from)
            .collect();
    assert_eq!(
        fabric::context::log_names(&entries),
        vec!["2023-12-31.jsonl".to_string(), "2024-01-01.jsonl".to_string(), "2024-01-03.jsonl".to_string()]
    );
}
