//! What became of a subprocess, and what to do while it runs.

use vstd::prelude::*;
use crate::text;
use crate::text::push_decimal;

verus! {

/// The result of running a single child process.
#[derive(Clone, Copy, Debug, PartialEq, Eq, Structural)]
pub enum Exit {
    /// Exited with status 0.
    Success,
    /// Exited with status non-0.
    Failure(i32),
    /// Exceeded its timeout, and killed.
    Timeout,
    /// Killed by some signal.
    Signalled(i32),
    /// Unknown or unexpected situation.
    Other,
}

impl Exit {
    pub fn is_success(self) -> (r: bool)
        ensures
            r == (self == Exit::Success),
    {
        self == Exit::Success
    }

    pub fn is_timeout(self) -> (r: bool)
        ensures
            r == (self == Exit::Timeout),
    {
        self == Exit::Timeout
    }

    pub fn is_failure(self) -> (r: bool)
        ensures
            r == self is Failure,
    {
        matches!(self, Exit::Failure(_))
    }

    /// The result that the exit status of a process stands for: its exit code, if it has one, and otherwise the
    /// signal that killed it.
    pub fn from_status(code: Option<i32>, signal: Option<i32>) -> (r: Exit)
        ensures
            r == match (code, signal) {
                (Some(0), _) => Exit::Success,
                (Some(code), _) => Exit::Failure(code),
                (None, Some(signal)) => Exit::Signalled(signal),
                (None, None) => Exit::Other,
            },
    {
        match code {
            Some(code) => {
                if code == 0 {
                    Exit::Success
                } else {
                    Exit::Failure(code)
                }
            },
            None => match signal {
                Some(signal) => Exit::Signalled(signal),
                None => Exit::Other,
            },
        }
    }
}

/// A signed number written in decimal.
pub open spec fn signed_decimal(n: int) -> Seq<char> {
    if n < 0 {
        "-"@ + text::decimal((-n) as nat)
    } else {
        text::decimal(n as nat)
    }
}

/// Appends a signed number in decimal.
fn push_signed(s: &mut String, n: i32)
    ensures
        final(s)@ == old(s)@ + signed_decimal(n as int),
{
    let ghost before = s@;
    if n < 0 {
        s.push_str("-");
        let m: i64 = 0 - (n as i64);
        push_decimal(s, m as usize);
        assert(s@ =~= before + signed_decimal(n as int));
    } else {
        push_decimal(s, n as usize);
    }
}

/// The line that a log shows of the result of a process.
pub open spec fn exit_line(exit: Exit) -> Seq<char> {
    match exit {
        Exit::Success => "result: Success"@,
        Exit::Failure(code) => "result: Failure("@ + signed_decimal(code as int) + ")"@,
        Exit::Timeout => "result: Timeout"@,
        Exit::Signalled(signal) => "result: Signalled("@ + signed_decimal(signal as int) + ")"@,
        Exit::Other => "result: Other"@,
    }
}

/// The line that a log shows of the result of a process.
pub fn result_message(exit: Exit) -> (r: String)
    ensures
        r@ == exit_line(exit),
{
    match exit {
        Exit::Success => "result: Success".to_owned(),
        Exit::Failure(code) => {
            let mut r = "result: Failure(".to_owned();
            push_signed(&mut r, code);
            r.push_str(")");
            r
        },
        Exit::Timeout => "result: Timeout".to_owned(),
        Exit::Signalled(signal) => {
            let mut r = "result: Signalled(".to_owned();
            push_signed(&mut r, signal);
            r.push_str(")");
            r
        },
        Exit::Other => "result: Other".to_owned(),
    }
}

/// What to do next about a running child process.
#[derive(Clone, Copy, Debug, PartialEq, Eq, Structural)]
pub enum WaitStep {
    /// Terminate the child: its result is [`Exit::Timeout`].
    TerminateTimedOut,
    /// Terminate the child and stop: the user interrupted the run.
    TerminateInterrupted,
    /// Wait for the child to exit, for up to the poll interval.
    Wait,
}

/// What to do next about a child process that has run for `elapsed` nanoseconds: first the timeout is checked, and
/// only then the interrupt.
pub fn wait_step(elapsed: u128, timeout: Option<u128>, interrupted: bool) -> (r: WaitStep)
    ensures
        r == WaitStep::TerminateTimedOut <==> (timeout matches Some(t) && elapsed > t),
        r == WaitStep::TerminateInterrupted <==> interrupted && !(timeout matches Some(t) && elapsed > t),
        r == WaitStep::Wait <==> !interrupted && !(timeout matches Some(t) && elapsed > t),
{
    let timed_out = match timeout {
        Some(t) => elapsed > t,
        None => false,
    };
    if timed_out {
        WaitStep::TerminateTimedOut
    } else if interrupted {
        WaitStep::TerminateInterrupted
    } else {
        WaitStep::Wait
    }
}

/// What came of signalling a process group.
#[derive(Clone, Copy, Debug, PartialEq, Eq, Structural)]
pub enum SignalResult {
    /// The signal was sent.
    Sent,
    /// There is no such process group.
    NoSuchProcess,
    /// Sending it is not permitted.
    NotPermitted,
    /// It failed in some other way.
    Failed,
}

/// Whether a child process that was signalled counts as terminated.
///
/// A process that is not there is probably already gone. On macOS, signalling a process that no longer exists may
/// be reported as not permitted.
pub fn counts_as_terminated(result: SignalResult, on_macos: bool) -> (r: bool)
    ensures
        r <==> (result == SignalResult::Sent || result == SignalResult::NoSuchProcess || (result
            == SignalResult::NotPermitted && on_macos)),
{
    match result {
        SignalResult::Sent => true,
        SignalResult::NoSuchProcess => true,
        SignalResult::NotPermitted => on_macos,
        SignalResult::Failed => false,
    }
}

/// The first `n` characters of an argument, quoted.
pub open spec fn quoted_prefix(arg: Seq<char>, n: int) -> Seq<char>
    decreases n,
{
    if n <= 0 {
        Seq::<char>::empty()
    } else {
        let c = arg[n - 1];
        quoted_prefix(arg, n - 1) + (if c == '\t' {
            "\\t"@
        } else if c == '\n' {
            "\\n"@
        } else if c == '\r' {
            "\\r"@
        } else if c == ' ' || c == '\\' || c == '\'' || c == '"' {
            seq!['\\', c]
        } else {
            seq![c]
        })
    }
}

/// The first `n` arguments, quoted, with a space before each one that comes behind some text.
pub open spec fn quoted_args(argv: Seq<Seq<char>>, n: int) -> Seq<char>
    decreases n,
{
    if n <= 0 {
        Seq::<char>::empty()
    } else {
        let before = quoted_args(argv, n - 1);
        let arg = quoted_prefix(argv[n - 1], argv[n - 1].len() as int);
        if before.len() == 0 {
            arg
        } else {
            before.push(' ') + arg
        }
    }
}

/// Quote an argv slice in Unix shell style.
///
/// This isn't guaranteed to match the interpretation of a shell or to be safe. It's just for debug logs.
pub fn quote_argv(argv: &Vec<String>) -> (r: String)
    ensures
        r@ == quoted_args(text::texts(argv@), argv@.len() as int),
{
    let mut r = String::new();
    let ghost all = text::texts(argv@);
    for i in 0..argv.len()
        invariant
            all == text::texts(argv@),
            r@ == quoted_args(all, i as int),
    {
        if !r.as_str().is_empty() {
            r.push(' ');
        }
        let ghost start = r@;
        let arg = argv[i].as_str();
        for c in it: arg.chars()
            invariant
                it.seq() == arg@,
                r@ == start + quoted_prefix(arg@, it.index() as int),
        {
            match c {
                '\t' => r.push_str("\\t"),
                '\n' => r.push_str("\\n"),
                '\r' => r.push_str("\\r"),
                ' ' | '\\' | '\'' | '"' => {
                    r.push('\\');
                    r.push(c);
                },
                _ => r.push(c),
            }
            assert(r@ =~= start + quoted_prefix(arg@, it.index() + 1));
        }
        assert(r@ =~= quoted_args(all, i + 1));
    }
    r
}

proof fn lemma_quoted_prefix_is_one_line(arg: Seq<char>, n: int)
    requires
        0 <= n <= arg.len(),
    ensures
        !quoted_prefix(arg, n).contains('\n'),
    decreases n,
{
    if n > 0 {
        lemma_quoted_prefix_is_one_line(arg, n - 1);
        reveal_strlit("\\t");
        reveal_strlit("\\n");
        reveal_strlit("\\r");
        let before = quoted_prefix(arg, n - 1);
        let after = quoted_prefix(arg, n);
        if after.contains('\n') {
            let i = choose|i: int| 0 <= i < after.len() && after[i] == '\n';
            if i < before.len() {
                assert(before[i] == '\n');
            }
            assert(false);
        }
    }
}

proof fn lemma_quoted_args_are_one_line(argv: Seq<Seq<char>>, n: int)
    requires
        0 <= n <= argv.len(),
    ensures
        !quoted_args(argv, n).contains('\n'),
    decreases n,
{
    if n > 0 {
        lemma_quoted_args_are_one_line(argv, n - 1);
        lemma_quoted_prefix_is_one_line(argv[n - 1], argv[n - 1].len() as int);
        let before = quoted_args(argv, n - 1);
        let arg = quoted_prefix(argv[n - 1], argv[n - 1].len() as int);
        let after = quoted_args(argv, n);
        if after.contains('\n') {
            let i = choose|i: int| 0 <= i < after.len() && after[i] == '\n';
            if before.len() > 0 {
                if i < before.len() {
                    assert(before[i] == '\n');
                } else if i > before.len() {
                    assert(arg[i - before.len() - 1] == '\n');
                }
            }
            assert(false);
        }
    }
}

/// Quoted arguments take one line of a log, whatever the arguments hold.
pub proof fn quoted_arguments_are_one_line(argv: Seq<Seq<char>>)
    ensures
        !quoted_args(argv, argv.len() as int).contains('\n'),
{
    lemma_quoted_args_are_one_line(argv, argv.len() as int);
}

/// How a character is quoted: white space but the plain space by its name, and a space, a backslash or a quote with a backslash
/// before it; any other character stays.
pub proof fn characters_are_quoted(c: char)
    ensures
        c == '\t' ==> quoted_prefix(seq![c], 1) == "\\t"@,
        c == '\n' ==> quoted_prefix(seq![c], 1) == "\\n"@,
        c == '\r' ==> quoted_prefix(seq![c], 1) == "\\r"@,
        c == ' ' || c == '\\' || c == '\'' || c == '"' ==> quoted_prefix(seq![c], 1) == seq!['\\', c],
        c != '\t' && c != '\n' && c != '\r' && c != ' ' && c != '\\' && c != '\'' && c != '"' ==> quoted_prefix(seq![c], 1)
            == seq![c],
{
    reveal_with_fuel(quoted_prefix, 2);
    assert(quoted_prefix(seq![c], 0) =~= Seq::<char>::empty());
    assert(quoted_prefix(seq![c], 1) =~= (if c == '\t' {
        "\\t"@
    } else if c == '\n' {
        "\\n"@
    } else if c == '\r' {
        "\\r"@
    } else if c == ' ' || c == '\\' || c == '\'' || c == '"' {
        seq!['\\', c]
    } else {
        seq![c]
    }));
}

/// An argument is quoted character by character.
pub proof fn arguments_are_quoted_character_by_character(a: Seq<char>, b: Seq<char>)
    ensures
        quoted_prefix(a + b, (a + b).len() as int) == quoted_prefix(a, a.len() as int) + quoted_prefix(b, b.len() as int),
{
    lemma_quoted_parts(a, b, b.len() as int);
}

proof fn lemma_quoted_parts(a: Seq<char>, b: Seq<char>, n: int)
    requires
        0 <= n <= b.len(),
    ensures
        quoted_prefix(a + b, a.len() + n) == quoted_prefix(a, a.len() as int) + quoted_prefix(b, n),
    decreases n,
{
    if n > 0 {
        lemma_quoted_parts(a, b, n - 1);
        assert((a + b)[a.len() + n - 1] == b[n - 1]);
        assert(quoted_prefix(a + b, a.len() + n) =~= quoted_prefix(a, a.len() as int) + quoted_prefix(b, n));
    } else {
        lemma_quoted_front(a, a + b, a.len() as int);
        assert(quoted_prefix(a, a.len() as int) =~= quoted_prefix(a, a.len() as int) + quoted_prefix(b, 0));
    }
}

proof fn lemma_quoted_front(a: Seq<char>, all: Seq<char>, n: int)
    requires
        0 <= n <= a.len() <= all.len(),
        forall|i: int| 0 <= i < a.len() ==> a[i] == all[i],
    ensures
        quoted_prefix(a, n) == quoted_prefix(all, n),
    decreases n,
{
    if n > 0 {
        lemma_quoted_front(a, all, n - 1);
    }
}

/// Quoted arguments stand with spaces between them.
pub proof fn arguments_stand_with_spaces_between_them(argv: Seq<Seq<char>>, arg: Seq<char>)
    ensures
        quoted_args(seq![arg], 1) == quoted_prefix(arg, arg.len() as int),
        quoted_args(argv, argv.len() as int).len() > 0 ==> quoted_args(argv.push(arg), argv.len() as int + 1) == quoted_args(
            argv,
            argv.len() as int,
        ) + " "@ + quoted_prefix(arg, arg.len() as int),
{
    reveal_strlit(" ");
    reveal_with_fuel(quoted_args, 2);
    lemma_quoted_args_front(argv, argv.push(arg), argv.len() as int);
    if quoted_args(argv, argv.len() as int).len() > 0 {
        assert(quoted_args(argv.push(arg), argv.len() as int + 1) =~= quoted_args(argv, argv.len() as int) + " "@ + quoted_prefix(
            arg,
            arg.len() as int,
        ));
    }
}

proof fn lemma_quoted_args_front(a: Seq<Seq<char>>, all: Seq<Seq<char>>, n: int)
    requires
        0 <= n <= a.len() <= all.len(),
        forall|i: int| 0 <= i < a.len() ==> a[i] == all[i],
    ensures
        quoted_args(a, n) == quoted_args(all, n),
    decreases n,
{
    if n > 0 {
        lemma_quoted_args_front(a, all, n - 1);
    }
}

/// The result of a process is logged by its name, with the exit code or the signal, which may be negative, if it has one.
pub proof fn results_are_logged_by_name(code: i32)
    ensures
        exit_line(Exit::Success) == "result: Success"@,
        exit_line(Exit::Timeout) == "result: Timeout"@,
        exit_line(Exit::Other) == "result: Other"@,
        code >= 0 ==> exit_line(Exit::Failure(code)) == "result: Failure("@ + text::decimal(code as nat) + ")"@,
        code >= 0 ==> exit_line(Exit::Signalled(code)) == "result: Signalled("@ + text::decimal(code as nat) + ")"@,
        code < 0 ==> exit_line(Exit::Failure(code)) == "result: Failure("@ + ("-"@ + text::decimal((-code) as nat)) + ")"@,
        code < 0 ==> exit_line(Exit::Signalled(code)) == "result: Signalled("@ + ("-"@ + text::decimal((-code) as nat)) + ")"@,
{
}

/// What is done about a process and what becomes of it: it is stopped as timed out only once it has run longer than it may, and
/// by an interrupt only if it has not; one that has neither is waited for.
pub proof fn processes_run_until_their_time_is_up(elapsed: u128, timeout: Option<u128>, interrupted: bool, step: WaitStep)
    requires
        call_ensures(wait_step, (elapsed, timeout, interrupted), step),
    ensures
        timeout is None && !interrupted ==> step == WaitStep::Wait,
        timeout is None && interrupted ==> step == WaitStep::TerminateInterrupted,
        timeout matches Some(limit) && elapsed > limit ==> step == WaitStep::TerminateTimedOut,
        timeout matches Some(limit) && elapsed <= limit && interrupted ==> step == WaitStep::TerminateInterrupted,
        timeout matches Some(limit) && elapsed <= limit && !interrupted ==> step == WaitStep::Wait,
{
}

/// The exit code counts before the signal: zero is success, and anything else is a failure with that code.
pub proof fn exit_codes_count_first(code: Option<i32>, signal: Option<i32>, exit: Exit, success: bool, failure: bool)
    requires
        call_ensures(Exit::from_status, (code, signal), exit),
        call_ensures(Exit::is_success, (exit,), success),
        call_ensures(Exit::is_failure, (exit,), failure),
    ensures
        success <==> code == Some(0i32),
        failure <==> code is Some && code != Some(0i32),
        failure ==> exit == Exit::Failure(code->0),
        code is None && signal is Some ==> exit == Exit::Signalled(signal->0),
        code is None && signal is None ==> exit == Exit::Other,
        exit != Exit::Timeout,
{
}

} // verus!
