//! The command-line grammar: subcommands, their options and defaults.

use vstd::prelude::*;
use vstd::string::StrSliceExecFns;
use crate::text::{copy_opt_text, opt_view, text_is, texts_view};

verus! {

/// How a listing is rendered.
#[derive(Clone, Copy, Debug, PartialEq, Eq, Structural)]
pub enum OutputFormat {
    Table,
    Json,
    Ids,
}

/// The format that a name selects; any unknown name selects a table.
pub open spec fn format_named(s: Seq<char>) -> OutputFormat {
    if s == "json"@ {
        OutputFormat::Json
    } else if s == "ids"@ {
        OutputFormat::Ids
    } else {
        OutputFormat::Table
    }
}

impl OutputFormat {
    /// The format that a name selects; any unknown name selects a table.
    pub fn from_str(s: &str) -> (r: OutputFormat)
        ensures
            r == format_named(s@),
    {
        if text_is(s, "json") {
            OutputFormat::Json
        } else if text_is(s, "ids") {
            OutputFormat::Ids
        } else {
            OutputFormat::Table
        }
    }
}

/// A command of the command line.
#[derive(Clone, Debug)]
pub enum Commands {
    Init,
    List {
        status: String,
        assignee: Option<String>,
        tag: Option<String>,
        priority: Option<String>,
        format: String,
    },
    Show { id: String, events: bool },
    Rebuild,
    Archive { days: u32, dry_run: bool },
    Validate { strict: bool },
}

pub enum CommandsView {
    Init,
    List {
        status: Seq<char>,
        assignee: Option<Seq<char>>,
        tag: Option<Seq<char>>,
        priority: Option<Seq<char>>,
        format: Seq<char>,
    },
    Show { id: Seq<char>, events: bool },
    Rebuild,
    Archive { days: u32, dry_run: bool },
    Validate { strict: bool },
}

impl View for Commands {
    type V = CommandsView;

    open spec fn view(&self) -> CommandsView {
        match self {
            Commands::Init => CommandsView::Init,
            Commands::List { status, assignee, tag, priority, format } => CommandsView::List {
                status: status@,
                assignee: opt_view(*assignee),
                tag: opt_view(*tag),
                priority: opt_view(*priority),
                format: format@,
            },
            Commands::Show { id, events } => CommandsView::Show { id: id@, events: *events },
            Commands::Rebuild => CommandsView::Rebuild,
            Commands::Archive { days, dry_run } => CommandsView::Archive { days: *days, dry_run: *dry_run },
            Commands::Validate { strict } => CommandsView::Validate { strict: *strict },
        }
    }
}

/// A parsed command line.
#[derive(Clone, Debug)]
pub struct Cli {
    pub command: Commands,
}

/// Why a command line does not parse. Positions count the arguments from
/// the program name, at 0.
#[derive(Clone, Copy, Debug, PartialEq, Eq, Structural)]
pub enum CliError {
    /// No subcommand follows the program name.
    MissingSubcommand,
    /// The subcommand at this position is not known.
    UnknownSubcommand { at: usize },
    /// An option at this position is not known to the subcommand.
    UnknownArgument { at: usize },
    /// A positional argument at this position is one too many.
    UnexpectedArgument { at: usize },
    /// The option at this position lacks its value.
    MissingValue { at: usize },
    /// The option at this position was given before.
    Repeated { at: usize },
    /// A required positional argument is missing.
    MissingArgument,
    /// The value of a numeric option is not a number in range.
    InvalidNumber,
}

#[derive(Clone, Copy, Debug, PartialEq, Eq, Structural)]
pub enum Sub {
    Init,
    List,
    Show,
    Rebuild,
    Archive,
    Validate,
}

pub open spec fn sub_named(s: Seq<char>) -> Option<Sub> {
    if s == "init"@ {
        Some(Sub::Init)
    } else if s == "list"@ {
        Some(Sub::List)
    } else if s == "show"@ {
        Some(Sub::Show)
    } else if s == "rebuild"@ {
        Some(Sub::Rebuild)
    } else if s == "archive"@ {
        Some(Sub::Archive)
    } else if s == "validate"@ {
        Some(Sub::Validate)
    } else {
        None
    }
}

/// The option slot that an argument names for a subcommand, and whether the
/// option takes a value.
pub open spec fn option_of(sub: Sub, t: Seq<char>) -> Option<(usize, bool)> {
    match sub {
        Sub::List => if t == "--status"@ || t == "-s"@ {
            Some((0usize, true))
        } else if t == "--assignee"@ || t == "-a"@ {
            Some((1usize, true))
        } else if t == "--tag"@ || t == "-t"@ {
            Some((2usize, true))
        } else if t == "--priority"@ || t == "-p"@ {
            Some((3usize, true))
        } else if t == "--format"@ || t == "-f"@ {
            Some((4usize, true))
        } else {
            None
        },
        Sub::Show => if t == "--events"@ {
            Some((0usize, false))
        } else {
            None
        },
        Sub::Archive => if t == "--days"@ || t == "-d"@ {
            Some((0usize, true))
        } else if t == "--dry-run"@ {
            Some((1usize, false))
        } else {
            None
        },
        Sub::Validate => if t == "--strict"@ {
            Some((0usize, false))
        } else {
            None
        },
        _ => None,
    }
}

/// How many positional arguments a subcommand takes.
pub open spec fn positional_count(sub: Sub) -> nat {
    if sub == Sub::Show {
        1
    } else {
        0
    }
}

/// What the options of a command line hold so far: one slot per option (a
/// flag holds the empty text when given), and the positional arguments.
pub struct Slots {
    pub values: Seq<Option<Seq<char>>>,
    pub positionals: Seq<Seq<char>>,
}

pub open spec fn no_slots() -> Slots {
    Slots { values: seq![None, None, None, None, None], positionals: Seq::empty() }
}

/// Whether position `j` holds the first `=` of a long option's text.
pub open spec fn first_eq_at(t: Seq<char>, j: int) -> bool {
    &&& 2 <= j < t.len()
    &&& t[j] == '='
    &&& forall|m: int| 2 <= m < j ==> t[m] != '='
}

/// A long option written with its value, `--name=value`, split at its first
/// `=`.
pub open spec fn eq_split(t: Seq<char>) -> Option<(Seq<char>, Seq<char>)> {
    if t.len() > 2 && t[0] == '-' && t[1] == '-' && exists|j: int| first_eq_at(t, j) {
        let j = choose|j: int| first_eq_at(t, j);
        Some((t.take(j), t.skip(j + 1)))
    } else {
        None
    }
}

/// Reads the arguments from position `i` on.
pub open spec fn scan_args(sub: Sub, args: Seq<Seq<char>>, i: int, st: Slots) -> Result<Slots, CliError>
    decreases args.len() - i,
{
    if i >= args.len() || i < 0 {
        Ok(st)
    } else {
        let t = args[i];
        if let Some((name, value)) = eq_split(t) {
            match option_of(sub, name) {
                Some((k, true)) => if st.values[k as int] is Some {
                    Err(CliError::Repeated { at: i as usize })
                } else {
                    scan_args(sub, args, i + 1, Slots { values: st.values.update(k as int, Some(value)), ..st })
                },
                _ => Err(CliError::UnknownArgument { at: i as usize }),
            }
        } else {
        match option_of(sub, t) {
            Some((k, true)) => if i + 1 >= args.len() {
                Err(CliError::MissingValue { at: i as usize })
            } else if st.values[k as int] is Some {
                Err(CliError::Repeated { at: i as usize })
            } else {
                scan_args(sub, args, i + 2, Slots { values: st.values.update(k as int, Some(args[i + 1])), ..st })
            },
            Some((k, false)) => if st.values[k as int] is Some {
                Err(CliError::Repeated { at: i as usize })
            } else {
                scan_args(sub, args, i + 1, Slots { values: st.values.update(k as int, Some(Seq::empty())), ..st })
            },
            None => if t.len() > 0 && t[0] == '-' {
                Err(CliError::UnknownArgument { at: i as usize })
            } else if st.positionals.len() < positional_count(sub) {
                scan_args(sub, args, i + 1, Slots { positionals: st.positionals.push(t), ..st })
            } else {
                Err(CliError::UnexpectedArgument { at: i as usize })
            },
        }
        }
    }
}

/// The decimal number that a text writes, if it is one.
pub open spec fn decimal(s: Seq<char>) -> Option<nat>
    decreases s.len(),
{
    if s.len() == 0 {
        None
    } else {
        let c = s.last();
        if '0' <= c && c <= '9' {
            let d = (c as nat - '0' as nat) as nat;
            if s.len() == 1 {
                Some(d)
            } else {
                match decimal(s.drop_last()) {
                    Some(v) => Some(v * 10 + d),
                    None => None,
                }
            }
        } else {
            None
        }
    }
}

/// The command that the slots of a subcommand make.
pub open spec fn command_of(sub: Sub, st: Slots) -> Result<CommandsView, CliError> {
    match sub {
        Sub::Init => Ok(CommandsView::Init),
        Sub::Rebuild => Ok(CommandsView::Rebuild),
        Sub::List => Ok(
            CommandsView::List {
                status: match st.values[0] {
                    Some(v) => v,
                    None => "open"@,
                },
                assignee: st.values[1],
                tag: st.values[2],
                priority: st.values[3],
                format: match st.values[4] {
                    Some(v) => v,
                    None => "table"@,
                },
            },
        ),
        Sub::Show => if st.positionals.len() == 1 {
            Ok(CommandsView::Show { id: st.positionals[0], events: st.values[0] is Some })
        } else {
            Err(CliError::MissingArgument)
        },
        Sub::Archive => match st.values[0] {
            Some(v) => match decimal(v) {
                Some(n) => if n <= u32::MAX {
                    Ok(CommandsView::Archive { days: n as u32, dry_run: st.values[1] is Some })
                } else {
                    Err(CliError::InvalidNumber)
                },
                None => Err(CliError::InvalidNumber),
            },
            None => Ok(CommandsView::Archive { days: 30, dry_run: st.values[1] is Some }),
        },
        Sub::Validate => Ok(CommandsView::Validate { strict: st.values[0] is Some }),
    }
}

/// The command that a whole command line makes, the program name first.
pub open spec fn command_line(args: Seq<Seq<char>>) -> Result<CommandsView, CliError> {
    if args.len() < 2 {
        Err(CliError::MissingSubcommand)
    } else {
        match sub_named(args[1]) {
            None => Err(CliError::UnknownSubcommand { at: 1 }),
            Some(sub) => match scan_args(sub, args, 2, no_slots()) {
                Ok(st) => command_of(sub, st),
                Err(e) => Err(e),
            },
        }
    }
}

/// The views of a command line's arguments.
pub open spec fn args_view(args: Seq<String>) -> Seq<Seq<char>> {
    args.map_values(|a: String| a@)
}

proof fn lemma_first_eq_unique(t: Seq<char>, j: int, k: int)
    requires
        first_eq_at(t, j),
        first_eq_at(t, k),
    ensures
        j == k,
{
    if j < k {
        assert(t[j] != '=');
    } else if k < j {
        assert(t[k] != '=');
    }
}

/// Splits `--name=value` at its first `=`.
fn split_assignment(t: &str) -> (r: Option<(String, String)>)
    ensures
        match r {
            Some((n, v)) => eq_split(t@) == Some((n@, v@)),
            None => eq_split(t@) is None,
        },
{
    let len = t.unicode_len();
    if len <= 2 || t.get_char(0) != '-' || t.get_char(1) != '-' {
        return None;
    }
    let mut j: usize = 2;
    while j < len
        invariant
            len == t@.len(),
            2 <= j <= len,
            t@[0] == '-' && t@[1] == '-',
            forall|m: int| 2 <= m < j ==> t@[m] != '=',
        decreases len - j,
    {
        if t.get_char(j) == '=' {
            proof {
                assert(first_eq_at(t@, j as int));
                let c = choose|c: int| first_eq_at(t@, c);
                lemma_first_eq_unique(t@, j as int, c);
            }
            let name = t.substring_char(0, j).to_owned();
            let value = t.substring_char(j + 1, len).to_owned();
            return Some((name, value));
        }
        j = j + 1;
    }
    proof {
        if exists|c: int| first_eq_at(t@, c) {
            let c = choose|c: int| first_eq_at(t@, c);
            assert(t@[c] != '=');
        }
    }
    None
}

fn sub_from(s: &str) -> (r: Option<Sub>)
    ensures
        r == sub_named(s@),
{
    if text_is(s, "init") {
        Some(Sub::Init)
    } else if text_is(s, "list") {
        Some(Sub::List)
    } else if text_is(s, "show") {
        Some(Sub::Show)
    } else if text_is(s, "rebuild") {
        Some(Sub::Rebuild)
    } else if text_is(s, "archive") {
        Some(Sub::Archive)
    } else if text_is(s, "validate") {
        Some(Sub::Validate)
    } else {
        None
    }
}

fn option_for(sub: Sub, t: &str) -> (r: Option<(usize, bool)>)
    ensures
        r == option_of(sub, t@),
{
    match sub {
        Sub::List => if text_is(t, "--status") || text_is(t, "-s") {
            Some((0, true))
        } else if text_is(t, "--assignee") || text_is(t, "-a") {
            Some((1, true))
        } else if text_is(t, "--tag") || text_is(t, "-t") {
            Some((2, true))
        } else if text_is(t, "--priority") || text_is(t, "-p") {
            Some((3, true))
        } else if text_is(t, "--format") || text_is(t, "-f") {
            Some((4, true))
        } else {
            None
        },
        Sub::Show => if text_is(t, "--events") {
            Some((0, false))
        } else {
            None
        },
        Sub::Archive => if text_is(t, "--days") || text_is(t, "-d") {
            Some((0, true))
        } else if text_is(t, "--dry-run") {
            Some((1, false))
        } else {
            None
        },
        Sub::Validate => if text_is(t, "--strict") {
            Some((0, false))
        } else {
            None
        },
        _ => None,
    }
}

proof fn lemma_decimal_non_digit(s: Seq<char>, j: int)
    requires
        0 <= j < s.len(),
        !('0' <= s[j] && s[j] <= '9'),
    ensures
        decimal(s) is None,
    decreases s.len(),
{
    if j < s.len() - 1 {
        lemma_decimal_non_digit(s.drop_last(), j);
    }
}

/// The number that a decimal text writes, if it is one that fits in `u32`.
pub fn parse_decimal(s: &str) -> (r: Option<u32>)
    ensures
        r == (match decimal(s@) {
            Some(n) => if n <= u32::MAX {
                Some(n as u32)
            } else {
                None::<u32>
            },
            None => None,
        }),
{
    let len = s.unicode_len();
    if len == 0 {
        return None;
    }
    let mut i: usize = 0;
    while i < len
        invariant
            len == s@.len(),
            i <= len,
            forall|k: int| 0 <= k < i ==> '0' <= #[trigger] s@[k] && s@[k] <= '9',
        decreases len - i,
    {
        let c = s.get_char(i);
        if !('0' <= c && c <= '9') {
            proof {
                lemma_decimal_non_digit(s@, i as int);
            }
            return None;
        }
        i = i + 1;
    }
    let cap: u64 = u32::MAX as u64 + 1;
    let mut acc: u64 = 0;
    let mut i: usize = 0;
    while i < len
        invariant
            len == s@.len(),
            len > 0,
            i <= len,
            cap == u32::MAX + 1,
            forall|k: int| 0 <= k < len ==> '0' <= #[trigger] s@[k] && s@[k] <= '9',
            i == 0 ==> acc == 0,
            i > 0 ==> (decimal(s@.take(i as int)) matches Some(v) && acc == (if v < cap { v } else { cap as nat })),
            acc <= cap,
        decreases len - i,
    {
        let c = s.get_char(i);
        let d: u64 = (c as u32 - '0' as u32) as u64;
        let ghost prev = s@.take(i as int);
        let ghost next = s@.take(i + 1);
        proof {
            assert(next.drop_last() =~= prev);
            assert(next.last() == c);
        }
        let raw: u64 = acc * 10 + d;
        acc = if raw < cap { raw } else { cap };
        proof {
            if i > 0 {
                let v = decimal(prev)->Some_0;
                assert(decimal(next) == Some((v * 10 + d) as nat));
                if v >= cap {
                    assert(v * 10 + d >= cap) by (nonlinear_arith)
                        requires v >= cap, d >= 0;
                    assert(cap * 10 + d >= cap) by (nonlinear_arith)
                        requires d >= 0, cap >= 0;
                }
            } else {
                assert(decimal(next) == Some(d as nat));
            }
        }
        i = i + 1;
    }
    proof {
        assert(s@.take(len as int) =~= s@);
    }
    if acc < cap {
        Some(acc as u32)
    } else {
        None
    }
}

/// The slots of an exec scan, as a view.
pub open spec fn slots_view(values: Seq<Option<String>>, positionals: Vec<String>) -> Slots {
    Slots { values: values.map_values(|v: Option<String>| opt_view(v)), positionals: texts_view(positionals) }
}

fn slot_value(values: &Vec<Option<String>>, k: usize, default: &str) -> (r: String)
    requires
        k < values.len(),
    ensures
        r@ == (match opt_view(values@[k as int]) {
            Some(v) => v,
            None => default@,
        }),
{
    match &values[k] {
        Some(v) => v.clone(),
        None => default.to_owned(),
    }
}

impl Cli {
    /// Parses a command line that is known to be well formed, the program
    /// name first.
    pub fn parse_from<const N: usize>(args: [&str; N]) -> (r: Cli)
        requires
            command_line(args@.map_values(|a: &str| a@)) is Ok,
        ensures
            command_line(args@.map_values(|a: &str| a@)) == Ok::<CommandsView, CliError>(r.command@),
    {
        let mut owned: Vec<String> = Vec::new();
        let mut i: usize = 0;
        while i < N
            invariant
                i <= N,
                N == args@.len(),
                owned.len() == i,
                forall|k: int| 0 <= k < i ==> (#[trigger] owned@[k])@ == args@[k]@,
            decreases N - i,
        {
            owned.push(args[i].to_owned());
            i = i + 1;
        }
        proof {
            assert(args_view(owned@) =~= args@.map_values(|a: &str| a@));
        }
        match Cli::try_parse_from(&owned) {
            Ok(c) => c,
            Err(_) => {
                proof {
                    assert(false);
                }
                Cli { command: Commands::Init }
            },
        }
    }

    /// Parses a command line, the program name first.
    pub fn try_parse_from(args: &Vec<String>) -> (r: Result<Cli, CliError>)
        ensures
            r matches Ok(c) ==> command_line(args_view(args@)) == Ok::<CommandsView, CliError>(c.command@),
            r matches Err(e) ==> command_line(args_view(args@)) == Err::<CommandsView, CliError>(e),
    {
        let ghost a = args_view(args@);
        if args.len() < 2 {
            return Err(CliError::MissingSubcommand);
        }
        let sub = match sub_from(args[1].as_str()) {
            Some(sub) => sub,
            None => {
                return Err(CliError::UnknownSubcommand { at: 1 });
            },
        };
        let mut values: Vec<Option<String>> = vec![None, None, None, None, None];
        let mut positionals: Vec<String> = Vec::new();
        proof {
            assert(slots_view(values@, positionals) =~= no_slots()) by {
                assert(slots_view(values@, positionals).values =~= no_slots().values);
                assert(slots_view(values@, positionals).positionals =~= no_slots().positionals);
            }
        }
        let mut i: usize = 2;
        while i < args.len()
            invariant
                a == args_view(args@),
                2 <= i <= args.len(),
                values.len() == 5,
                args.len() >= 2,
                sub_named(a[1]) == Some(sub),
                scan_args(sub, a, 2, no_slots()) == scan_args(sub, a, i as int, slots_view(values@, positionals)),
            decreases args.len() - i,
        {
            let ghost st = slots_view(values@, positionals);
            let t = &args[i];
            assert(a[i as int] == t@);
            if let Some((name, value)) = split_assignment(t.as_str()) {
                match option_for(sub, name.as_str()) {
                    Some((k, true)) => {
                        if values[k].is_some() {
                            return Err(CliError::Repeated { at: i });
                        }
                        values.set(k, Some(value));
                        proof {
                            assert(slots_view(values@, positionals).values =~= st.values.update(k as int, Some(value@)));
                        }
                        i = i + 1;
                        continue;
                    },
                    _ => {
                        return Err(CliError::UnknownArgument { at: i });
                    },
                }
            }
            match option_for(sub, t.as_str()) {
                Some((k, true)) => {
                    if i + 1 >= args.len() {
                        return Err(CliError::MissingValue { at: i });
                    }
                    if values[k].is_some() {
                        return Err(CliError::Repeated { at: i });
                    }
                    let v = args[i + 1].clone();
                    values.set(k, Some(v));
                    proof {
                        assert(a[i + 1] == args@[i + 1]@);
                        assert(slots_view(values@, positionals).values =~= st.values.update(k as int, Some(a[i + 1])));
                    }
                    i = i + 2;
                },
                Some((k, false)) => {
                    if values[k].is_some() {
                        return Err(CliError::Repeated { at: i });
                    }
                    values.set(k, Some(String::new()));
                    proof {
                        assert(slots_view(values@, positionals).values =~= st.values.update(k as int, Some(Seq::empty())));
                    }
                    i = i + 1;
                },
                None => {
                    let dash = t.as_str().unicode_len() > 0 && t.as_str().get_char(0) == '-';
                    if dash {
                        return Err(CliError::UnknownArgument { at: i });
                    }
                    let room: usize = if sub == Sub::Show { 1 } else { 0 };
                    if positionals.len() < room {
                        positionals.push(t.clone());
                        proof {
                            assert(slots_view(values@, positionals).positionals =~= st.positionals.push(t@));
                        }
                        i = i + 1;
                    } else {
                        return Err(CliError::UnexpectedArgument { at: i });
                    }
                },
            }
        }
        let ghost st = slots_view(values@, positionals);
        assert(scan_args(sub, a, 2, no_slots()) == Ok::<Slots, CliError>(st));
        let command = match sub {
            Sub::Init => Commands::Init,
            Sub::Rebuild => Commands::Rebuild,
            Sub::List => Commands::List {
                status: slot_value(&values, 0, "open"),
                assignee: copy_opt_text(&values[1]),
                tag: copy_opt_text(&values[2]),
                priority: copy_opt_text(&values[3]),
                format: slot_value(&values, 4, "table"),
            },
            Sub::Show => {
                if positionals.len() != 1 {
                    return Err(CliError::MissingArgument);
                }
                Commands::Show { id: positionals[0].clone(), events: values[0].is_some() }
            },
            Sub::Archive => {
                let days = match &values[0] {
                    Some(v) => match parse_decimal(v.as_str()) {
                        Some(n) => n,
                        None => {
                            return Err(CliError::InvalidNumber);
                        },
                    },
                    None => 30,
                };
                Commands::Archive { days, dry_run: values[1].is_some() }
            },
            Sub::Validate => Commands::Validate { strict: values[0].is_some() },
        };
        Ok(Cli { command })
    }
}

} // verus!
