//! Reporting the state of the agent to the pane that hosts it.
//!
//! Nothing is reported outside a pane. Each report is a command to run; a
//! pane is released only by a process that has reported to it.

use crate::text;
use crate::text::{owned, str_eq};
use vstd::prelude::*;

verus! {

/// The states that are reported.
#[derive(Debug, Clone, Copy, PartialEq, Eq, Structural)]
pub enum AgentState {
    Idle,
    Working,
    Blocked,
}

/// The name of a state.
pub open spec fn state_name(state: AgentState) -> Seq<char> {
    match state {
        AgentState::Idle => "idle"@,
        AgentState::Working => "working"@,
        AgentState::Blocked => "blocked"@,
    }
}

impl AgentState {
    /// The name of this state.
    pub fn as_str(self) -> (r: &'static str)
        ensures
            r@ == state_name(self),
    {
        match self {
            AgentState::Idle => "idle",
            AgentState::Working => "working",
            AgentState::Blocked => "blocked",
        }
    }
}

/// Where reports go: the program, and the pane.
#[derive(Debug)]
pub struct Target {
    pub bin: String,
    pub pane_id: String,
}

/// Whether a target is what the environment names: reporting has to be
/// switched on and a pane named; the program has a default.
pub open spec fn is_target(
    r: Option<Target>,
    switch: Option<Seq<char>>,
    pane: Option<Seq<char>>,
    bin: Option<Seq<char>>,
) -> bool {
    if switch == Some("1"@) && pane is Some {
        &&& r matches Some(t)
        &&& t.pane_id@ == pane->0
        &&& t.bin@ == (match bin {
            Some(bin) => bin,
            None => "herdr"@,
        })
    } else {
        r is None
    }
}

/// The target that the environment names.
pub fn target_from(switch: Option<String>, pane: Option<String>, bin: Option<String>) -> (r: Option<
    Target,
>)
    ensures
        is_target(r, text::opt_text(switch), text::opt_text(pane), text::opt_text(bin)),
{
    let on = match &switch {
        Some(s) => str_eq(s.as_str(), "1"),
        None => false,
    };
    if !on {
        return None;
    }
    match pane {
        Some(pane_id) => {
            let bin = match bin {
                Some(bin) => bin,
                None => owned("herdr"),
            };
            Some(Target { bin, pane_id })
        },
        None => None,
    }
}

/// The target that the environment names; `get` reads one variable of it.
pub fn resolve_target(get: impl Fn(&str) -> Option<String>) -> (r: Option<Target>)
    requires
        call_requires(get, ("HERDR_ENV",)),
        call_requires(get, ("HERDR_PANE_ID",)),
        call_requires(get, ("HERDR_BIN_PATH",)),
    ensures
        exists|switch: Option<String>, pane: Option<String>, bin: Option<String>|
            {
                &&& #[trigger] call_ensures(get, ("HERDR_ENV",), switch)
                &&& #[trigger] call_ensures(get, ("HERDR_PANE_ID",), pane)
                &&& #[trigger] call_ensures(get, ("HERDR_BIN_PATH",), bin)
                &&& is_target(r, text::opt_text(switch), text::opt_text(pane), text::opt_text(bin))
            },
{
    let switch = get("HERDR_ENV");
    let pane = get("HERDR_PANE_ID");
    let bin = get("HERDR_BIN_PATH");
    target_from(switch, pane, bin)
}

/// A command to run.
#[derive(Debug)]
pub struct HerdrCommand {
    pub bin: String,
    pub args: Vec<String>,
}

/// Whether a command is that program with those arguments.
pub open spec fn is_command(r: Option<HerdrCommand>, bin: Seq<char>, args: Seq<Seq<char>>) -> bool {
    r matches Some(c) && c.bin@ == bin && text::texts(c.args@) == args
}

/// The arguments that every command has: what is asked of the pane, and who
/// asks.
pub open spec fn asking(what: Seq<char>) -> Seq<Seq<char>> {
    seq!["pane"@, what, "--source"@, "custom:jcode"@, "--agent"@, "jcode"@]
}

/// An optional argument behind its flag; an empty one is left out.
pub open spec fn optional(flag: Seq<char>, value: Option<Seq<char>>) -> Seq<Seq<char>> {
    if value is Some && value->0.len() > 0 {
        seq![flag, value->0]
    } else {
        Seq::empty()
    }
}

/// The arguments of a report.
pub open spec fn report_args(
    state: AgentState,
    session_id: Option<Seq<char>>,
    message: Option<Seq<char>>,
    pane: Seq<char>,
) -> Seq<Seq<char>> {
    asking("report-agent"@) + seq!["--state"@, state_name(state)] + optional(
        "--agent-session-id"@,
        session_id,
    ) + optional("--message"@, message) + seq![pane]
}

/// Adds an argument.
fn push_arg(args: &mut Vec<String>, arg: &str)
    ensures
        text::texts(final(args)@) == text::texts(old(args)@) + seq![arg@],
{
    let arg = owned(arg);
    proof {
        text::lemma_texts_push(args@, arg);
        assert(text::texts(args@).push(arg@) =~= text::texts(args@) + seq![arg@]);
    }
    args.push(arg);
}

/// The arguments that every command has.
fn asking_args(what: &str) -> (r: Vec<String>)
    ensures
        text::texts(r@) == asking(what@),
{
    let mut args: Vec<String> = Vec::new();
    assert(text::texts(args@) =~= Seq::<Seq<char>>::empty());
    push_arg(&mut args, "pane");
    push_arg(&mut args, what);
    push_arg(&mut args, "--source");
    push_arg(&mut args, "custom:jcode");
    push_arg(&mut args, "--agent");
    push_arg(&mut args, "jcode");
    assert(text::texts(args@) =~= asking(what@));
    args
}

/// Adds an optional argument behind its flag.
fn push_optional(args: &mut Vec<String>, flag: &str, value: Option<&str>)
    ensures
        text::texts(final(args)@) == text::texts(old(args)@) + optional(
            flag@,
            text::opt_str(value),
        ),
{
    let ghost before = text::texts(args@);
    if let Some(value) = value {
        if value.unicode_len() > 0 {
            push_arg(args, flag);
            push_arg(args, value);
        }
    }
    assert(text::texts(args@) =~= before + optional(flag@, text::opt_str(value)));
}

/// The report of a state. There is none outside a pane.
pub fn report(target: Option<&Target>, state: AgentState) -> (r: Option<HerdrCommand>)
    ensures
        match target {
            Some(t) => is_command(r, t.bin@, report_args(state, None, None, t.pane_id@)),
            None => r is None,
        },
{
    report_for_session(target, state, None, None)
}

/// The report of a state, with the session and a short message. There is none
/// outside a pane.
pub fn report_for_session(
    target: Option<&Target>,
    state: AgentState,
    session_id: Option<&str>,
    message: Option<&str>,
) -> (r: Option<HerdrCommand>)
    ensures
        match target {
            Some(t) => is_command(
                r,
                t.bin@,
                report_args(state, text::opt_str(session_id), text::opt_str(message), t.pane_id@),
            ),
            None => r is None,
        },
{
    match target {
        None => None,
        Some(t) => {
            let mut args = asking_args("report-agent");
            push_arg(&mut args, "--state");
            push_arg(&mut args, state.as_str());
            assert(text::texts(args@) =~= asking("report-agent"@) + seq![
                "--state"@,
                state_name(state),
            ]);
            push_optional(&mut args, "--agent-session-id", session_id);
            push_optional(&mut args, "--message", message);
            push_arg(&mut args, t.pane_id.as_str());
            Some(HerdrCommand { bin: owned(t.bin.as_str()), args })
        },
    }
}

/// The release of a pane. There is none outside a pane.
pub fn release(target: Option<&Target>) -> (r: Option<HerdrCommand>)
    ensures
        match target {
            Some(t) => is_command(r, t.bin@, asking("release-agent"@) + seq![t.pane_id@]),
            None => r is None,
        },
{
    match target {
        None => None,
        Some(t) => {
            let mut args = asking_args("release-agent");
            push_arg(&mut args, t.pane_id.as_str());
            Some(HerdrCommand { bin: owned(t.bin.as_str()), args })
        },
    }
}

/// The report of which session a pane hosts. There is none outside a pane, or
/// without a session.
pub fn report_session_identity(target: Option<&Target>, session_id: &str) -> (r: Option<
    HerdrCommand,
>)
    ensures
        match target {
            Some(t) => if session_id@.len() > 0 {
                is_command(
                    r,
                    t.bin@,
                    asking("report-agent-session"@) + seq![
                        "--agent-session-id"@,
                        session_id@,
                        t.pane_id@,
                    ],
                )
            } else {
                r is None
            },
            None => r is None,
        },
{
    match target {
        None => None,
        Some(t) => {
            if session_id.unicode_len() == 0 {
                return None;
            }
            let mut args = asking_args("report-agent-session");
            push_arg(&mut args, "--agent-session-id");
            push_arg(&mut args, session_id);
            push_arg(&mut args, t.pane_id.as_str());
            assert(text::texts(args@) =~= asking("report-agent-session"@) + seq![
                "--agent-session-id"@,
                session_id@,
                t.pane_id@,
            ]);
            Some(HerdrCommand { bin: owned(t.bin.as_str()), args })
        },
    }
}

/// Whether arguments are those of a report: of a state, or of a session.
pub open spec fn is_report(args: Seq<Seq<char>>) -> bool {
    args.len() > 1 && (args[1] == "report-agent"@ || args[1] == "report-agent-session"@)
}

/// Whether a command is a report.
fn reports(command: &HerdrCommand) -> (r: bool)
    ensures
        r == is_report(text::texts(command.args@)),
{
    if command.args.len() <= 1 {
        return false;
    }
    let what = command.args[1].as_str();
    assert(text::texts(command.args@)[1] == what@);
    str_eq(what, "report-agent") || str_eq(what, "report-agent-session")
}

/// What a process remembers: whether it has reported.
#[derive(Debug, Clone, Copy, PartialEq, Eq, Structural)]
pub struct Reporter {
    pub registered: bool,
}

impl Reporter {
    /// A process that has not reported.
    pub fn new() -> (r: Self)
        ensures
            !r.registered,
    {
        Reporter { registered: false }
    }

    /// Notes whether a command could be started; a report that could
    /// registers the process, and a release does not.
    pub fn spawned(&mut self, command: &HerdrCommand, started: bool)
        ensures
            final(self).registered == (old(self).registered || (started && is_report(
                text::texts(command.args@),
            ))),
            final(self).registered == registered_after(
                old(self).registered,
                seq![(text::texts(command.args@), started)],
            ),
    {
        if started && reports(command) {
            self.registered = true;
        }
        proof {
            let one = seq![(text::texts(command.args@), started)];
            assert(one.drop_last().len() == 0);
            reveal_with_fuel(registered_after, 2);
        }
    }
}

/// The release of a pane by a process that has reported; by another there is
/// none, so that nobody releases a pane for somebody else.
pub fn release_if_registered(reporter: &Reporter, target: Option<&Target>) -> (r: Option<
    HerdrCommand,
>)
    ensures
        match target {
            Some(t) => if reporter.registered {
                is_command(r, t.bin@, asking("release-agent"@) + seq![t.pane_id@])
            } else {
                r is None
            },
            None => r is None,
        },
{
    if reporter.registered {
        release(target)
    } else {
        None
    }
}

// ---------------------------------------------------------------------------
// Laws
// ---------------------------------------------------------------------------

/// Whether a process is registered after commands, each of which started or
/// did not.
pub open spec fn registered_after(registered: bool, commands: Seq<(Seq<Seq<char>>, bool)>) -> bool
    decreases commands.len(),
{
    if commands.len() == 0 {
        registered
    } else {
        registered_after(registered, commands.drop_last()) || (commands.last().1 && is_report(
            commands.last().0,
        ))
    }
}

/// Every report of a state or of a session is a report, and a release is
/// none.
pub proof fn law_reports_are_told_from_releases(
    state: AgentState,
    session_id: Option<Seq<char>>,
    message: Option<Seq<char>>,
    pane: Seq<char>,
    id: Seq<char>,
)
    ensures
        is_report(report_args(state, session_id, message, pane)),
        is_report(asking("report-agent-session"@) + seq!["--agent-session-id"@, id, pane]),
        !is_report(asking("release-agent"@) + seq![pane]),
{
    reveal_strlit("report-agent");
    reveal_strlit("report-agent-session");
    reveal_strlit("release-agent");
    assert("release-agent"@[2] != "report-agent"@[2]);
    assert("release-agent"@[2] != "report-agent-session"@[2]);
}

/// A process is registered, and releases its pane, exactly where a report of
/// its own was started: without one nothing is released, whatever else ran.
pub proof fn law_only_reports_register(commands: Seq<(Seq<Seq<char>>, bool)>)
    ensures
        registered_after(false, commands) <==> exists|i: int|
            0 <= i < commands.len() && (#[trigger] commands[i]).1 && is_report(commands[i].0),
    decreases commands.len(),
{
    if commands.len() > 0 {
        let before = commands.drop_last();
        law_only_reports_register(before);
        if registered_after(false, before) {
            let i = choose|i: int|
                0 <= i < before.len() && (#[trigger] before[i]).1 && is_report(before[i].0);
            assert(commands[i] == before[i]);
        }
        if exists|i: int|
            0 <= i < commands.len() && (#[trigger] commands[i]).1 && is_report(commands[i].0) {
            let i = choose|i: int|
                0 <= i < commands.len() && (#[trigger] commands[i]).1 && is_report(commands[i].0);
            if i < before.len() {
                assert(before[i] == commands[i]);
            }
        }
        let last = commands.len() - 1;
        assert(commands[last] == commands.last());
    }
}

/// The arguments of a report name the state, the session and the message where
/// they are there and not empty, and the pane at the end.
pub proof fn law_reports_name_state_session_and_pane(
    state: AgentState,
    session_id: Seq<char>,
    message: Seq<char>,
    pane: Seq<char>,
)
    ensures
        ({
            let bare = report_args(state, None, None, pane);
            &&& bare.len() == 9
            &&& bare[0] == "pane"@ && bare[1] == "report-agent"@
            &&& bare[2] == "--source"@ && bare[3] == "custom:jcode"@
            &&& bare[4] == "--agent"@ && bare[5] == "jcode"@
            &&& bare[6] == "--state"@ && bare[7] == state_name(state)
            &&& bare[8] == pane
            &&& report_args(state, Some(Seq::empty()), Some(Seq::empty()), pane) == bare
            &&& session_id.len() > 0 && message.len() > 0 ==> report_args(
                state,
                Some(session_id),
                Some(message),
                pane,
            ) == bare.drop_last() + seq![
                "--agent-session-id"@,
                session_id,
                "--message"@,
                message,
                pane,
            ]
            &&& session_id.len() > 0 ==> report_args(state, Some(session_id), None, pane)
                == bare.drop_last() + seq!["--agent-session-id"@, session_id, pane]
        }),
{
    let bare = report_args(state, None, None, pane);
    assert(report_args(state, Some(Seq::empty()), Some(Seq::empty()), pane) =~= bare);
    if session_id.len() > 0 && message.len() > 0 {
        assert(report_args(state, Some(session_id), Some(message), pane) =~= bare.drop_last()
            + seq!["--agent-session-id"@, session_id, "--message"@, message, pane]);
    }
    if session_id.len() > 0 {
        assert(report_args(state, Some(session_id), None, pane) =~= bare.drop_last() + seq![
            "--agent-session-id"@,
            session_id,
            pane,
        ]);
    }
}

/// The states have names of their own.
pub proof fn law_states_are_told_apart(a: AgentState, b: AgentState)
    ensures
        state_name(a) == state_name(b) <==> a == b,
        state_name(AgentState::Idle) == "idle"@,
        state_name(AgentState::Working) == "working"@,
        state_name(AgentState::Blocked) == "blocked"@,
{
    reveal_strlit("idle");
    reveal_strlit("working");
    reveal_strlit("blocked");
    assert("working"@[0] != "blocked"@[0]);
    assert("idle"@.len() == 4 && "working"@.len() == 7);
}

/// Reports go out exactly where they are switched on and a pane is named; they
/// go to that pane, through the program named or else the one of that name.
pub proof fn law_reports_go_to_the_pane_named(
    r: Option<Target>,
    switch: Option<Seq<char>>,
    pane: Option<Seq<char>>,
    bin: Option<Seq<char>>,
)
    requires
        is_target(r, switch, pane, bin),
    ensures
        r is Some <==> switch == Some(seq!['1']) && pane is Some,
        r matches Some(t) ==> pane == Some(t.pane_id@),
        r matches Some(t) ==> (bin matches Some(path) ==> t.bin@ == path),
        r matches Some(t) ==> (bin is None ==> t.bin@ == "herdr"@),
{
    reveal_strlit("1");
    assert("1"@ =~= seq!['1']);
}

} // verus!
