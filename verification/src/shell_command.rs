//! How often the agent polls a running shell command. Commands that flood
//! the terminal or touch the system configuration are always polled on a
//! short fixed interval, never waited on until completion.
use vstd::prelude::*;

use crate::text::{chars_equal, chars_of};

verus! {

const NANOS_PER_SEC: u32 = 1_000_000_000;

/// A span of time: whole seconds and the nanoseconds beyond them.
#[derive(Clone, Copy, Debug, PartialEq, Eq)]
pub struct Duration {
    secs: u64,
    nanos: u32,
}

impl Duration {
    #[verifier::type_invariant]
    spec fn wf(self) -> bool {
        self.nanos < NANOS_PER_SEC
    }

    /// The span in nanoseconds.
    pub closed spec fn total_nanos(self) -> int {
        self.secs * 1_000_000_000 + self.nanos
    }

    /// A span of `secs` whole seconds.
    pub fn from_secs(secs: u64) -> (d: Duration)
        ensures
            d.total_nanos() == secs * 1_000_000_000,
    {
        Duration { secs, nanos: 0 }
    }

    /// A span of `millis` milliseconds.
    pub fn from_millis(millis: u64) -> (d: Duration)
        ensures
            d.total_nanos() == millis * 1_000_000,
    {
        let secs = millis / 1000;
        let rest = (millis % 1000) as u32;
        assert(rest * 1_000_000 < 1_000_000_000) by (nonlinear_arith)
            requires
                rest < 1000,
        ;
        assert(millis * 1_000_000 == secs * 1_000_000_000 + rest * 1_000_000) by (nonlinear_arith)
            requires
                secs == millis / 1000,
                rest == millis % 1000,
        ;
        Duration { secs, nanos: rest * 1_000_000 }
    }

    /// Whether this span is no longer than `other`.
    pub fn not_longer_than(&self, other: &Duration) -> (r: bool)
        ensures
            r == (self.total_nanos() <= other.total_nanos()),
    {
        proof {
            use_type_invariant(self);
            use_type_invariant(other);
        }
        let (a, b) = (self.secs, other.secs);
        assert(a < b ==> a * 1_000_000_000 + 1_000_000_000 <= b * 1_000_000_000) by (nonlinear_arith);
        assert(a > b ==> b * 1_000_000_000 + 1_000_000_000 <= a * 1_000_000_000) by (nonlinear_arith);
        if self.secs < other.secs {
            true
        } else if self.secs > other.secs {
            false
        } else {
            self.nanos <= other.nanos
        }
    }
}

/// When the agent next looks at a running shell command.
#[derive(Clone, Copy, Debug, PartialEq, Eq)]
pub enum ShellCommandDelay {
    /// Only once the command has finished.
    OnCompletion,
    /// After the given span.
    Duration(Duration),
}

/// The polling interval, in seconds, forced on verbose or system-touching
/// commands.
pub const FORCED_SHORT_POLL_SECS: u64 = 5;

/// The polling interval forced on verbose or system-touching commands.
pub open spec fn spec_forced_short_poll_duration() -> int {
    FORCED_SHORT_POLL_SECS * 1_000_000_000
}

/// The polling interval forced on verbose or system-touching commands.
pub fn forced_short_poll_duration() -> (d: Duration)
    ensures
        d.total_nanos() == spec_forced_short_poll_duration(),
{
    Duration::from_secs(FORCED_SHORT_POLL_SECS)
}

/// Characters that separate words of a command line.
pub open spec fn is_blank(c: char) -> bool {
    c == ' ' || c == '\t' || c == '\n'
}

/// `s` without its leading blanks.
pub open spec fn skip_blanks(s: Seq<char>) -> Seq<char>
    decreases s.len(),
{
    if s.len() > 0 && is_blank(s[0]) {
        skip_blanks(s.drop_first())
    } else {
        s
    }
}

/// The characters of `s` up to its first blank.
pub open spec fn first_word(s: Seq<char>) -> Seq<char>
    decreases s.len(),
{
    if s.len() == 0 || is_blank(s[0]) {
        Seq::<char>::empty()
    } else {
        seq![s[0]] + first_word(s.drop_first())
    }
}

/// The program that a command line runs: its first word.
pub open spec fn command_program(command: Seq<char>) -> Seq<char> {
    first_word(skip_blanks(command))
}

/// Programs whose commands are always polled on the short interval.
pub open spec fn is_short_poll_program(program: Seq<char>) -> bool {
    ||| program == "journalctl"@
    ||| program == "launchctl"@
    ||| program == "find"@
}

/// Whether a short-poll command keeps the delay asked for: a span no
/// longer than the forced interval.
pub open spec fn keeps_requested_delay(delay: Option<ShellCommandDelay>) -> bool {
    match delay {
        Some(ShellCommandDelay::Duration(d)) => d.total_nanos() <= spec_forced_short_poll_duration(),
        _ => false,
    }
}

/// `r` is the delay that polling uses for `command` when `delay` is asked
/// for: the delay asked for, except that a short-poll command asking for
/// no delay, for completion, or for a span longer than the forced interval
/// gets the forced interval.
pub open spec fn is_forced_delay(
    command: Seq<char>,
    delay: Option<ShellCommandDelay>,
    r: Option<ShellCommandDelay>,
) -> bool {
    if !is_short_poll_program(command_program(command)) || keeps_requested_delay(delay) {
        r == delay
    } else {
        r matches Some(ShellCommandDelay::Duration(d)) && d.total_nanos()
            == spec_forced_short_poll_duration()
    }
}

/// Forcing the delay again changes nothing: the forced delay of a
/// command is already short enough to be kept.
pub proof fn lemma_forcing_is_idempotent(
    command: Seq<char>,
    delay: Option<ShellCommandDelay>,
    once: Option<ShellCommandDelay>,
    twice: Option<ShellCommandDelay>,
)
    requires
        is_forced_delay(command, delay, once),
        is_forced_delay(command, once, twice),
    ensures
        twice == once,
        is_short_poll_program(command_program(command)) ==> keeps_requested_delay(once),
{
}

fn is_blank_char(c: char) -> (r: bool)
    ensures
        r == is_blank(c),
{
    c == ' ' || c == '\t' || c == '\n'
}

/// The first word of `command` after its leading blanks.
fn program_of(command: &Vec<char>) -> (p: Vec<char>)
    ensures
        p@ == command_program(command@),
{
    let n = command.len();
    let mut i: usize = 0;
    assert(command@.skip(0) == command@);
    while i < n && is_blank_char(command[i])
        invariant
            i <= n == command.len(),
            skip_blanks(command@) == skip_blanks(command@.skip(i as int)),
        decreases n - i,
    {
        assert(command@.skip(i as int).drop_first() == command@.skip(i + 1));
        i = i + 1;
    }
    assert(skip_blanks(command@.skip(i as int)) == command@.skip(i as int));
    let start = i;
    let mut p: Vec<char> = Vec::new();
    while i < n && !is_blank_char(command[i])
        invariant
            start <= i <= n == command.len(),
            first_word(command@.skip(start as int)) == p@ + first_word(command@.skip(i as int)),
        decreases n - i,
    {
        assert(command@.skip(i as int).drop_first() == command@.skip(i + 1));
        assert(p@.push(command@[i as int]) + first_word(command@.skip(i + 1)) == p@ + (seq![
            command@[i as int],
        ] + first_word(command@.skip(i + 1))));
        p.push(command[i]);
        i = i + 1;
    }
    assert(first_word(command@.skip(i as int)) == Seq::<char>::empty());
    assert(p@ + Seq::<char>::empty() == p@);
    p
}

/// Whether polling of `command` is held to the short interval.
pub fn forces_short_polling(command: &str) -> (r: bool)
    ensures
        r == is_short_poll_program(command_program(command@)),
{
    let program = program_of(&chars_of(command));
    chars_equal(&program, &chars_of("journalctl")) || chars_equal(&program, &chars_of("launchctl"))
        || chars_equal(&program, &chars_of("find"))
}

/// The delay to poll `command` with: the delay asked for, except that
/// commands of the short-poll programs are polled no later than
/// `FORCED_SHORT_POLL_DURATION` (a shorter delay asked for is kept).
pub fn force_short_polling_delay_for_command(
    command: &str,
    delay: Option<ShellCommandDelay>,
) -> (r: Option<ShellCommandDelay>)
    ensures
        is_forced_delay(command@, delay, r),
{
    if !forces_short_polling(command) {
        return delay;
    }
    let forced = forced_short_poll_duration();
    match delay {
        Some(ShellCommandDelay::Duration(d)) => {
            if d.not_longer_than(&forced) {
                Some(ShellCommandDelay::Duration(d))
            } else {
                Some(ShellCommandDelay::Duration(forced))
            }
        },
        _ => Some(ShellCommandDelay::Duration(forced)),
    }
}

} // verus!
