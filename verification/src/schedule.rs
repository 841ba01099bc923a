//! Scheduling support: the launch-agent property-list files the tool
//! writes, the per-user paths they live at, and the check whether an
//! import is currently scheduled. Registering with the OS scheduler
//! and reading the clock stay with the caller; everything here is a
//! function from plain values to text.

use vstd::prelude::*;

use crate::ledger::ledger_lines;
use crate::paths::joined;
use crate::paths::path_join;
use crate::strings::contains_seq;
use crate::strings::dec_rep;
use crate::strings::str_contains;
use crate::strings::u64_to_dec;

verus! {

/// The scheduling subcommands the tool dispatches on.
#[derive(Debug)]
pub enum Schedule {
    /// Enable scheduled imports, optionally at a new interval.
    On { interval: Option<String> },
    /// Disable scheduled imports.
    Off,
    /// Show whether an import is scheduled, and for when.
    Status,
    /// Show the next scheduled import time.
    Next { interval: Option<String> },
}

/// A launch-agent plist file's name: `com.tsundeoku.<name>.plist`.
pub fn get_plist_file_name(name: &str) -> (r: String)
    ensures
        r@ == "com.tsundeoku."@ + name@ + ".plist"@,
{
    let mut s = String::new();
    s.append("com.tsundeoku.");
    s.append(name);
    s.append(".plist");
    proof {
        assert(s@ =~= "com.tsundeoku."@ + name@ + ".plist"@);
    }
    s
}

/// The plist file name for the scheduled import itself.
pub fn get_app_plist_file_name() -> (r: String)
    ensures
        r@ == "com.tsundeoku."@ + "import"@ + ".plist"@,
{
    get_plist_file_name("import")
}

/// The plist file name for the monthly log-rotation job.
pub fn get_rotate_plist_file_name() -> (r: String)
    ensures
        r@ == "com.tsundeoku."@ + "rotatelogs"@ + ".plist"@,
{
    get_plist_file_name("rotatelogs")
}

/// Where a launch-agent plist lives under the user's home directory.
pub fn get_plist_path(home: &str, file_name: &str) -> (r: String)
    ensures
        r@ == home@ + "/Library/LaunchAgents/"@ + file_name@,
{
    let mut s = home.to_owned();
    s.append("/Library/LaunchAgents/");
    s.append(file_name);
    proof {
        assert(s@ =~= home@ + "/Library/LaunchAgents/"@ + file_name@);
    }
    s
}

/// The installed binary's path under the user's home directory.
pub fn get_binary_path(home: &str) -> (r: String)
    ensures
        r@ == home@ + "/.cargo/bin/tsu"@,
{
    let mut s = home.to_owned();
    s.append("/.cargo/bin/tsu");
    proof {
        assert(s@ =~= home@ + "/.cargo/bin/tsu"@);
    }
    s
}

/// The per-user state directory the ledger and log live in.
pub fn get_state_directory_path(home: &str) -> (r: String)
    ensures
        r@ == home@ + "/.local/state/tsundeoku"@,
{
    let mut s = home.to_owned();
    s.append("/.local/state/tsundeoku");
    proof {
        assert(s@ =~= home@ + "/.local/state/tsundeoku"@);
    }
    s
}

/// The ledger file's path under the user's home directory.
pub fn get_imported_files_path(home: &str) -> (r: String)
    ensures
        r@ == joined(home@ + "/.local/state/tsundeoku"@, "tsundeoku-imported-files.log"@),
{
    let state = get_state_directory_path(home);
    path_join(state.as_str(), "tsundeoku-imported-files.log")
}

/// The log file's path under the user's home directory.
pub fn get_log_path(home: &str) -> (r: String)
    ensures
        r@ == joined(home@ + "/.local/state/tsundeoku"@, "tsundeoku.log"@),
{
    let state = get_state_directory_path(home);
    path_join(state.as_str(), "tsundeoku.log")
}

/// How many of the listing's non-empty lines mention `pat`.
pub open spec fn count_matching_lines(lines: Seq<Seq<char>>, pat: Seq<char>) -> int
    decreases lines.len(),
{
    if lines.len() == 0 {
        0
    } else {
        count_matching_lines(lines.drop_last(), pat) + if contains_seq(lines.last(), pat) {
            1int
        } else {
            0int
        }
    }
}

/// An import is scheduled when exactly one line of the scheduler's
/// listing mentions the plist file's name.
pub fn is_scheduled(file_name: &str, plist_contents: &str) -> (r: bool)
    requires
        file_name@.len() > 0,
    ensures
        r == (count_matching_lines(ledger_lines(plist_contents@), file_name@) == 1),
{
    let lines = crate::ledger::parse_ledger(plist_contents);
    let ghost dv = lines.deep_view();
    let n = lines.len();
    let mut count: usize = 0;
    let mut i: usize = 0;
    proof {
        assert(dv.take(0) =~= Seq::<Seq<char>>::empty());
    }
    while i < n
        invariant
            n == lines.len(),
            dv == lines.deep_view(),
            i <= n,
            count <= i,
            count as int == count_matching_lines(dv.take(i as int), file_name@),
        decreases n - i,
    {
        proof {
            assert(dv.take(i + 1).drop_last() =~= dv.take(i as int));
            assert(dv.take(i + 1).last() == dv[i as int]);
        }
        if str_contains(lines[i].as_str(), file_name) {
            count = count + 1;
        }
        i = i + 1;
    }
    proof {
        assert(dv.take(n as int) =~= dv);
    }
    count == 1
}

/// The calendar units a launch agent's schedule can constrain.
#[derive(Debug, Clone, Copy, PartialEq, Eq, Structural)]
pub enum CalendarInterval {
    Minute,
    Hour,
    Day,
    Weekday,
    Month,
}

impl CalendarInterval {
    /// The plist key this unit is written under.
    pub fn label(&self) -> (r: &'static str)
        ensures
            *self == CalendarInterval::Minute ==> r@ == "Minute"@,
            *self == CalendarInterval::Hour ==> r@ == "Hour"@,
            *self == CalendarInterval::Day ==> r@ == "Day"@,
            *self == CalendarInterval::Weekday ==> r@ == "Weekday"@,
            *self == CalendarInterval::Month ==> r@ == "Month"@,
    {
        match self {
            CalendarInterval::Minute => "Minute",
            CalendarInterval::Hour => "Hour",
            CalendarInterval::Day => "Day",
            CalendarInterval::Weekday => "Weekday",
            CalendarInterval::Month => "Month",
        }
    }
}

/// One calendar unit of a cron schedule, as plain values: every value
/// of the unit, or the listed ones.
#[derive(Debug)]
pub struct TimeUnits {
    pub is_all: bool,
    pub values: Vec<u64>,
}

/// Values joined with commas, in decimal.
pub open spec fn joined_values(values: Seq<u64>) -> Seq<char>
    decreases values.len(),
{
    if values.len() == 0 {
        Seq::empty()
    } else if values.len() == 1 {
        dec_rep(values[0] as int)
    } else {
        joined_values(values.drop_last()) + seq![','] + dec_rep(values.last() as int)
    }
}

/// The plist fragment for one constrained calendar unit.
pub open spec fn time_unit_fragment(label: Seq<char>, values: Seq<u64>) -> Seq<char> {
    "<key>"@ + label + "</key>\n      <integer>"@ + joined_values(values) + "</integer>"@
}

/// Renders one calendar unit of the schedule: nothing when the unit
/// is unconstrained, else its `<key>/<integer>` plist fragment.
pub fn get_time_unit_values(time_units: &TimeUnits, name: &CalendarInterval) -> (r: Option<String>)
    ensures
        time_units.is_all <==> r is None,
        !time_units.is_all ==> r is Some && r->0@ == time_unit_fragment(
            match *name {
                CalendarInterval::Minute => "Minute"@,
                CalendarInterval::Hour => "Hour"@,
                CalendarInterval::Day => "Day"@,
                CalendarInterval::Weekday => "Weekday"@,
                CalendarInterval::Month => "Month"@,
            },
            time_units.values@,
        ),
{
    if time_units.is_all {
        return None;
    }
    let ghost vs = time_units.values@;
    let n = time_units.values.len();
    let mut joined_text = String::new();
    let mut i: usize = 0;
    proof {
        assert(vs.take(0) =~= Seq::<u64>::empty());
        assert(joined_text@ =~= joined_values(vs.take(0)));
    }
    while i < n
        invariant
            n == time_units.values.len(),
            vs == time_units.values@,
            i <= n,
            joined_text@ == joined_values(vs.take(i as int)),
        decreases n - i,
    {
        if i > 0 {
            joined_text.append(",");
        }
        let v = time_units.values[i];
        let dec = u64_to_dec(v);
        joined_text.append(dec.as_str());
        proof {
            reveal_strlit(",");
            assert(","@ =~= seq![',']);
            assert(vs.take(i + 1).drop_last() =~= vs.take(i as int));
            assert(vs.take(i + 1).last() == vs[i as int]);
            if i > 0 {
                assert(joined_text@ =~= joined_values(vs.take(i as int)) + seq![','] + dec_rep(
                    vs[i as int] as int,
                ));
            } else {
                assert(joined_text@ =~= dec_rep(vs[i as int] as int));
            }
        }
        i = i + 1;
    }
    proof {
        assert(vs.take(n as int) =~= vs);
    }
    let label = name.label();
    let mut s = String::new();
    s.append("<key>");
    s.append(label);
    s.append("</key>\n      <integer>");
    s.append(joined_text.as_str());
    s.append("</integer>");
    proof {
        assert(s@ =~= time_unit_fragment(label@, vs));
    }
    Some(s)
}

/// The present fragments joined by blank-line separators, as they are
/// laid into the `StartCalendarInterval` dictionary.
pub open spec fn joined_fragments(parts: Seq<Option<Seq<char>>>) -> Seq<char>
    decreases parts.len(),
{
    if parts.len() == 0 {
        Seq::empty()
    } else {
        let rest = joined_fragments(parts.drop_last());
        match parts.last() {
            None => rest,
            Some(v) => if rest.len() == 0 {
                v
            } else {
                rest + "\n\n      "@ + v
            },
        }
    }
}

/// Joins the calendar-unit fragments that are present.
pub fn get_calendar_interval(parts: &Vec<Option<String>>) -> (r: String)
    ensures
        r@ == joined_fragments(parts.deep_view()),
{
    let ghost dv = parts.deep_view();
    let n = parts.len();
    let mut out = String::new();
    let mut i: usize = 0;
    proof {
        assert(dv.take(0) =~= Seq::<Option<Seq<char>>>::empty());
        assert(out@ =~= joined_fragments(dv.take(0)));
    }
    while i < n
        invariant
            n == parts.len(),
            dv == parts.deep_view(),
            i <= n,
            out@ == joined_fragments(dv.take(i as int)),
        decreases n - i,
    {
        proof {
            assert(dv.take(i + 1).drop_last() =~= dv.take(i as int));
            assert(dv.take(i + 1).last() == dv[i as int]);
        }
        match &parts[i] {
            Some(part) => {
                if out.unicode_len() > 0 {
                    out.append("\n\n      ");
                }
                out.append(part.as_str());
                proof {
                    assert(dv[i as int] == Some(part@));
                }
            },
            None => {
                proof {
                    assert(dv[i as int] is None);
                }
            },
        }
        i = i + 1;
    }
    proof {
        assert(dv.take(n as int) =~= dv);
    }
    out
}

/// The program arguments laid into the plist's `<array>`, one
/// `<string>` element per argument.
pub open spec fn arguments_block(arguments: Seq<Seq<char>>) -> Seq<char>
    decreases arguments.len(),
{
    if arguments.len() == 0 {
        Seq::empty()
    } else {
        let rest = arguments_block(arguments.drop_last());
        let element = "<string>"@ + arguments.last() + "</string>"@;
        if rest.len() == 0 {
            element
        } else {
            rest + "\n      "@ + element
        }
    }
}

/// The full launch-agent plist for a label, a calendar interval
/// dictionary body, and program arguments.
pub open spec fn plist_text(
    label: Seq<char>,
    calendar_interval: Seq<char>,
    arguments: Seq<Seq<char>>,
) -> Seq<char> {
    "<?xml version=\"1.0\" encoding=\"UTF-8\"?>\n<!DOCTYPE plist PUBLIC \"-//Apple//DTD PLIST 1.0//EN\" \"http://www.apple.com/DTDs/PropertyList-1.0.dtd\">\n<plist version=\"1.0\">\n  <dict>\n    <key>Label</key>\n    <string>"@
        + label
        + "</string>\n\n    <key>StartCalendarInterval</key>\n    <dict>\n      "@
        + calendar_interval + "\n    </dict>\n\n    <key>ProgramArguments</key>\n    <array>\n      "@
        + arguments_block(arguments) + "\n    </array>\n  </dict>\n</plist>"@
}

/// Renders a launch-agent plist.
pub fn get_plist(label: &str, calendar_interval: &str, program_arguments: &Vec<String>) -> (r:
    String)
    ensures
        r@ == plist_text(label@, calendar_interval@, program_arguments.deep_view()),
{
    let ghost dv = program_arguments.deep_view();
    let n = program_arguments.len();
    let mut args = String::new();
    let mut i: usize = 0;
    proof {
        assert(dv.take(0) =~= Seq::<Seq<char>>::empty());
        assert(args@ =~= arguments_block(dv.take(0)));
    }
    while i < n
        invariant
            n == program_arguments.len(),
            dv == program_arguments.deep_view(),
            i <= n,
            args@ == arguments_block(dv.take(i as int)),
        decreases n - i,
    {
        proof {
            assert(dv.take(i + 1).drop_last() =~= dv.take(i as int));
            assert(dv.take(i + 1).last() == dv[i as int]);
        }
        let ghost was_empty = args@.len() == 0;
        if args.unicode_len() > 0 {
            args.append("\n      ");
        }
        args.append("<string>");
        args.append(program_arguments[i].as_str());
        args.append("</string>");
        proof {
            if !was_empty {
                assert(args@ =~= arguments_block(dv.take(i as int)) + "\n      "@ + ("<string>"@
                    + dv[i as int] + "</string>"@));
            } else {
                assert(arguments_block(dv.take(i as int)).len() == 0);
                assert(args@ =~= "<string>"@ + dv[i as int] + "</string>"@);
            }
        }
        i = i + 1;
    }
    proof {
        assert(dv.take(n as int) =~= dv);
    }
    let mut s = String::new();
    s.append(
        "<?xml version=\"1.0\" encoding=\"UTF-8\"?>\n<!DOCTYPE plist PUBLIC \"-//Apple//DTD PLIST 1.0//EN\" \"http://www.apple.com/DTDs/PropertyList-1.0.dtd\">\n<plist version=\"1.0\">\n  <dict>\n    <key>Label</key>\n    <string>",
    );
    s.append(label);
    s.append("</string>\n\n    <key>StartCalendarInterval</key>\n    <dict>\n      ");
    s.append(calendar_interval);
    s.append("\n    </dict>\n\n    <key>ProgramArguments</key>\n    <array>\n      ");
    s.append(args.as_str());
    s.append("\n    </array>\n  </dict>\n</plist>");
    proof {
        assert(s@ =~= plist_text(label@, calendar_interval@, dv));
    }
    s
}

} // verus!
