//! Keeping the highest-ranked available rng active.
//!
//! A watcher is shown the registered rngs and the active one again and again.
//! Each time it decides whether to switch and whether there is something new
//! to log.

use vstd::prelude::*;
use vstd::string::StringExecFns;

use crate::matching;
use crate::matching::{first_preferred_match, format_query_list};
use crate::sysfs;
use crate::sysfs::{hwrng_file, read_or_empty, read_trimmed, IoFailure};
use crate::text;
use crate::text::{same, split_whitespace};

verus! {

/// Keeps the preference list, and the state that was last observed.
#[derive(Debug)]
pub struct Watcher {
    queries: Vec<String>,
    last_state: Option<String>,
}

/// What a watcher knows.
pub struct WatcherState {
    pub queries: Seq<Seq<char>>,
    pub last: Option<Seq<char>>,
}

impl View for Watcher {
    type V = WatcherState;

    closed spec fn view(&self) -> WatcherState {
        WatcherState {
            queries: text::contents(self.queries@),
            last: text::content_of(self.last_state),
        }
    }
}

/// What to do after an observation; what to log, if anything.
#[derive(Debug)]
pub enum WatchStep {
    /// Write `target` to `rng_current`.
    Switch { target: String, log: Option<String> },
    /// Leave the active rng alone.
    Hold { log: Option<String> },
}

/// What a watcher decides.
pub enum Decision {
    Switch { target: Seq<char>, log: Option<Seq<char>> },
    Hold { log: Option<Seq<char>> },
}

impl View for WatchStep {
    type V = Decision;

    open spec fn view(&self) -> Decision {
        match *self {
            WatchStep::Switch { target, log } => Decision::Switch {
                target: target@,
                log: text::content_of(log),
            },
            WatchStep::Hold { log } => Decision::Hold { log: text::content_of(log) },
        }
    }
}

impl Decision {
    /// What is logged, if anything.
    pub open spec fn log(self) -> Option<Seq<char>> {
        match self {
            Decision::Switch { target, log } => log,
            Decision::Hold { log } => log,
        }
    }
}

/// The state that an observation amounts to, as far as logging is concerned:
/// an equal state is not logged twice in a row.
pub open spec fn state_text(
    queries: Seq<Seq<char>>,
    names: Seq<Seq<char>>,
    current: Seq<char>,
) -> Seq<char> {
    match matching::preferred(names, queries) {
        Some(target) => if target == current {
            "ok:"@ + target
        } else {
            "switch:"@ + current + "->"@ + target
        },
        None => "missing:current="@ + current,
    }
}

/// What there is to log about an observation.
pub open spec fn log_text(
    queries: Seq<Seq<char>>,
    names: Seq<Seq<char>>,
    current: Seq<char>,
) -> Seq<char> {
    match matching::preferred(names, queries) {
        Some(target) => if target == current {
            "hwrng: "@ + matching::query_list(queries) + " active as "@ + target
        } else {
            "hwrng: switching "@ + current + " -> "@ + target
        },
        None => "hwrng: no rng matches "@ + matching::query_list(queries) + " (current: "@ + current
            + ")"@,
    }
}

/// The decision on an observation: switch if the highest-ranked match is not
/// the active rng, and log if the state differs from the last one.
pub open spec fn decision(
    watcher: WatcherState,
    names: Seq<Seq<char>>,
    current: Seq<char>,
) -> Decision {
    let state = state_text(watcher.queries, names, current);
    let log = if watcher.last == Some(state) {
        None
    } else {
        Some(log_text(watcher.queries, names, current))
    };
    match matching::preferred(names, watcher.queries) {
        Some(target) => if target == current {
            Decision::Hold { log }
        } else {
            Decision::Switch { target, log }
        },
        None => Decision::Hold { log },
    }
}

/// What a watcher knows after an observation.
pub open spec fn observed(
    watcher: WatcherState,
    names: Seq<Seq<char>>,
    current: Seq<char>,
) -> WatcherState {
    WatcherState {
        queries: watcher.queries,
        last: Some(state_text(watcher.queries, names, current)),
    }
}

impl Watcher {
    /// A watcher for a preference list, before its first observation.
    pub fn new(queries: Vec<String>) -> (r: Watcher)
        ensures
            r@.queries == text::contents(queries@),
            r@.last is None,
    {
        Watcher { queries, last_state: None }
    }

    /// The line that announces the watch, given the poll interval in seconds
    /// as text.
    pub fn banner(&self, interval: &str) -> (r: String)
        ensures
            r@ == "hwrng: watching for "@ + matching::query_list(self@.queries)
                + ", polling every "@ + interval@ + "s (Ctrl-C to stop)"@,
    {
        let pretty = format_query_list(self.queries.as_slice());
        let mut line = String::new();
        line.append("hwrng: watching for ");
        line.append(pretty.as_str());
        line.append(", polling every ");
        line.append(interval);
        line.append("s (Ctrl-C to stop)");
        assert(line@ =~= "hwrng: watching for "@ + pretty@ + ", polling every "@ + interval@
            + "s (Ctrl-C to stop)"@);
        line
    }

    /// Takes note of the content of `rng_available` and `rng_current` and
    /// decides what to do. An unreadable `rng_available` ends the watch; an
    /// unreadable `rng_current` counts as empty.
    pub fn observe(
        &mut self,
        available: &Result<String, String>,
        current: &Result<String, String>,
    ) -> (r: Result<WatchStep, String>)
        ensures
            match *available {
                Err(error) => {
                    &&& r matches Err(m)
                    &&& m@ == sysfs::unreadable(sysfs::hwrng_path("rng_available"@), error@)
                    &&& final(self)@ == old(self)@
                },
                Ok(raw) => {
                    let names = sysfs::registered(raw@);
                    let active = sysfs::value_or_empty(*current);
                    &&& r matches Ok(step)
                    &&& step@ == decision(old(self)@, names, active)
                    &&& final(self)@ == observed(old(self)@, names, active)
                    &&& step is Switch <==> (matching::preferred(
                        text::words(raw@),
                        old(self)@.queries,
                    ) is Some && matching::preferred(text::words(raw@), old(self)@.queries) != Some(
                        active,
                    ))
                    &&& step matches WatchStep::Switch { target, log } ==> matching::preferred(
                        text::words(raw@),
                        old(self)@.queries,
                    ) == Some(target@)
                    &&& final(self)@.queries == old(self)@.queries
                },
            },
    {
        proof {
            if let Ok(raw) = available {
                sysfs::law_registered_are_the_words(raw@);
            }
        }
        let path = hwrng_file("rng_available");
        let list = match read_trimmed(path.as_str(), available) {
            Err(message) => {
                return Err(message);
            },
            Ok(list) => list,
        };
        let active = read_or_empty(current);
        let names = split_whitespace(list.as_str());
        let target = first_preferred_match(names.as_slice(), self.queries.as_slice());
        let pretty = format_query_list(self.queries.as_slice());
        let mut state = String::new();
        let mut line = String::new();
        let mut switch = false;
        match target {
            Some(name) => {
                if same(name, active.as_str()) {
                    state.append("ok:");
                    state.append(name);
                    assert(state@ =~= "ok:"@ + name@);
                    line.append("hwrng: ");
                    line.append(pretty.as_str());
                    line.append(" active as ");
                    line.append(name);
                    assert(line@ =~= "hwrng: "@ + pretty@ + " active as "@ + name@);
                } else {
                    switch = true;
                    state.append("switch:");
                    state.append(active.as_str());
                    state.append("->");
                    state.append(name);
                    assert(state@ =~= "switch:"@ + active@ + "->"@ + name@);
                    line.append("hwrng: switching ");
                    line.append(active.as_str());
                    line.append(" -> ");
                    line.append(name);
                    assert(line@ =~= "hwrng: switching "@ + active@ + " -> "@ + name@);
                }
            },
            None => {
                state.append("missing:current=");
                state.append(active.as_str());
                assert(state@ =~= "missing:current="@ + active@);
                line.append("hwrng: no rng matches ");
                line.append(pretty.as_str());
                line.append(" (current: ");
                line.append(active.as_str());
                line.append(")");
                assert(line@ =~= "hwrng: no rng matches "@ + pretty@ + " (current: "@ + active@
                    + ")"@);
            },
        }
        let known = match &self.last_state {
            Some(last) => same(last.as_str(), state.as_str()),
            None => false,
        };
        let log = if known {
            None
        } else {
            Some(line)
        };
        self.last_state = Some(state);
        match target {
            Some(name) if switch => Ok(WatchStep::Switch { target: name.to_owned(), log }),
            _ => Ok(WatchStep::Hold { log }),
        }
    }
}

/// The complaint about a poll interval, given as text, that is not a positive
/// number of seconds.
pub fn invalid_interval(interval: &str) -> (r: String)
    ensures
        r@ == "invalid --interval "@ + interval@ + ": must be > 0"@,
{
    let mut message = String::new();
    message.append("invalid --interval ");
    message.append(interval);
    message.append(": must be > 0");
    assert(message@ =~= "invalid --interval "@ + interval@ + ": must be > 0"@);
    message
}

/// What becomes of the watch after a switch to `target` could not be written:
/// it ends if permission was denied, and otherwise goes on, with a line to
/// log if the switch itself was logged.
pub fn write_failed(target: &str, logged: bool, failure: &IoFailure) -> (r: Result<
    Option<String>,
    String,
>)
    ensures
        if failure.permission_denied {
            r matches Err(m) && m@ == "writing rng_current requires root: "@ + failure.text@
        } else {
            r matches Ok(log) && text::content_of(log) == (if logged {
                Some("hwrng: switch to "@ + target@ + " failed: "@ + failure.text@)
            } else {
                None
            })
        },
{
    let mut message = String::new();
    if failure.permission_denied {
        message.append("writing rng_current requires root: ");
        message.append(failure.text.as_str());
        assert(message@ =~= "writing rng_current requires root: "@ + failure.text@);
        return Err(message);
    }
    if !logged {
        return Ok(None);
    }
    message.append("hwrng: switch to ");
    message.append(target);
    message.append(" failed: ");
    message.append(failure.text.as_str());
    assert(message@ =~= "hwrng: switch to "@ + target@ + " failed: "@ + failure.text@);
    Ok(Some(message))
}

/// A watcher switches exactly if the highest-ranked match is there and is not
/// the active rng, and then to that match.
pub proof fn law_watch_keeps_highest(
    watcher: WatcherState,
    names: Seq<Seq<char>>,
    current: Seq<char>,
)
    ensures
        decision(watcher, names, current) is Switch <==> (matching::preferred(
            names,
            watcher.queries,
        ) is Some && matching::preferred(names, watcher.queries) != Some(current)),
        decision(watcher, names, current) matches Decision::Switch { target, log } ==> (
        matching::preferred(names, watcher.queries) == Some(target) && names.contains(target)),
{
    matching::law_preferred_is_registered(names, watcher.queries);
}

/// Once a switch has taken effect, the watcher leaves the active rng alone
/// for as long as the same rngs are registered.
pub proof fn law_watch_settles(
    watcher: WatcherState,
    names: Seq<Seq<char>>,
    current: Seq<char>,
    later: WatcherState,
)
    requires
        decision(watcher, names, current) is Switch,
        later.queries == watcher.queries,
    ensures
        decision(
            later,
            names,
            decision(watcher, names, current)->Switch_target,
        ) is Hold,
{
}

/// The first observation is logged.
pub proof fn law_watch_logs_first(
    watcher: WatcherState,
    names: Seq<Seq<char>>,
    current: Seq<char>,
)
    requires
        watcher.last is None,
    ensures
        decision(watcher, names, current).log() is Some,
{
}

/// An observation that repeats the one before it is not logged, and leads to
/// the same action.
pub proof fn law_watch_is_quiet(
    watcher: WatcherState,
    names: Seq<Seq<char>>,
    current: Seq<char>,
)
    ensures
        ({
            let first = decision(watcher, names, current);
            let again = decision(observed(watcher, names, current), names, current);
            &&& again.log() is None
            &&& again is Switch <==> first is Switch
            &&& again is Switch ==> again->Switch_target == first->Switch_target
        }),
{
}

/// A change is logged: of two observations in a row, the second goes
/// unlogged only if it finds the same match and the same active rng as the
/// first. Two switches that differ both in the target and in the active rng
/// are left out: their states can be spelled alike.
pub proof fn law_watch_logs_changes(
    watcher: WatcherState,
    names: Seq<Seq<char>>,
    current: Seq<char>,
    names_then: Seq<Seq<char>>,
    current_then: Seq<char>,
)
    requires
        decision(observed(watcher, names, current), names_then, current_then).log() is None,
        !({
            let first = decision(watcher, names, current);
            let second = decision(observed(watcher, names, current), names_then, current_then);
            &&& first is Switch && second is Switch
            &&& first->Switch_target != second->Switch_target
            &&& current != current_then
        }),
    ensures
        matching::preferred(names_then, watcher.queries) == matching::preferred(
            names,
            watcher.queries,
        ),
        current_then == current,
{
    reveal_strlit("ok:");
    reveal_strlit("switch:");
    reveal_strlit("->");
    reveal_strlit("missing:current=");
    let queries = watcher.queries;
    let a = state_text(queries, names, current);
    let b = state_text(queries, names_then, current_then);
    assert(a == b);
    assert(a[0] == b[0]);
    match matching::preferred(names, queries) {
        Some(target) => {
            let then = matching::preferred(names_then, queries)->0;
            if target == current {
                assert(a[0] == 'o');
                assert(a.skip(3) =~= target);
                assert(b.skip(3) =~= then);
            } else {
                assert(a[0] == 's');
                let n = current.len() as int;
                assert(a.len() == 7 + n + 2 + target.len());
                assert(b.len() == 7 + current_then.len() + 2 + then.len());
                if current_then == current {
                    assert(a.skip(7 + n + 2) =~= target);
                    assert(b.skip(7 + n + 2) =~= then);
                } else {
                    assert(then == target);
                    assert(a.subrange(7, 7 + n) =~= current);
                    assert(b.subrange(7, 7 + n) =~= current_then);
                }
            }
        },
        None => {
            assert(a[0] == 'm');
            assert(a.skip(16) =~= current);
            assert(b.skip(16) =~= current_then);
        },
    }
}

/// A watcher and a switch with the same preference list agree: the watcher
/// keeps active, or switches to, the very rng that a switch would resolve the
/// list to, and leaves everything alone where a switch would find no match.
pub proof fn law_watch_agrees_with_switch(
    watcher: WatcherState,
    raw: Seq<char>,
    current: Seq<char>,
)
    ensures
        match matching::preferred(sysfs::registered(raw), watcher.queries) {
            Some(name) => {
                let step = decision(watcher, sysfs::registered(raw), current);
                if name == current {
                    step is Hold
                } else {
                    step is Switch && step->Switch_target == name
                }
            },
            None => decision(watcher, sysfs::registered(raw), current) is Hold,
        },
{
}

/// The watcher leaves the highest-ranked match alone when `rng_current` shows
/// that it is active, alone or on a line of its own, and switches to it when
/// `rng_current` shows another name.
pub proof fn law_watch_leaves_the_active_alone(
    watcher: WatcherState,
    raw: Seq<char>,
    current: Result<String, String>,
    active: Seq<char>,
)
    requires
        active.len() > 0,
        forall|i: int| 0 <= i < active.len() ==> !text::is_white_space(#[trigger] active[i]),
        current matches Ok(shown) && (shown@ == active || shown@ == active.push('\n')),
    ensures
        ({
            let step = decision(
                watcher,
                sysfs::registered(raw),
                sysfs::value_or_empty(current),
            );
            match matching::preferred(text::words(raw), watcher.queries) {
                Some(best) => if best == active {
                    step is Hold
                } else {
                    step is Switch && step->Switch_target == best
                },
                None => step is Hold,
            }
        }),
{
    sysfs::law_registered_are_the_words(raw);
    sysfs::law_name_is_read_back(current, active);
}

/// What is logged says what was found: the match that is active, the switch
/// that is due, or that there is no match.
pub proof fn law_watch_log_says_what_was_found(
    watcher: WatcherState,
    names: Seq<Seq<char>>,
    current: Seq<char>,
)
    requires
        decision(watcher, names, current).log() is Some,
    ensures
        ({
            let line = decision(watcher, names, current).log()->0;
            let pretty = matching::query_list(watcher.queries);
            match matching::preferred(names, watcher.queries) {
                Some(best) => if best == current {
                    line == "hwrng: "@ + (pretty + (" active as "@ + best))
                } else {
                    line == "hwrng: switching "@ + (current + (" -> "@ + best))
                },
                None => line == "hwrng: no rng matches "@ + (pretty + (" (current: "@ + (current
                    + ")"@))),
            }
        }),
{
    let line = decision(watcher, names, current).log()->0;
    let pretty = matching::query_list(watcher.queries);
    match matching::preferred(names, watcher.queries) {
        Some(best) => {
            if best == current {
                assert(line =~= "hwrng: "@ + (pretty + (" active as "@ + best)));
            } else {
                assert(line =~= "hwrng: switching "@ + (current + (" -> "@ + best)));
            }
        },
        None => {
            assert(line =~= "hwrng: no rng matches "@ + (pretty + (" (current: "@ + (current
                + ")"@))));
        },
    }
}

/// Rngs that come or go without a change of the match or of the active rng
/// are not logged.
pub proof fn law_watch_ignores_the_rest(
    watcher: WatcherState,
    names: Seq<Seq<char>>,
    names_then: Seq<Seq<char>>,
    current: Seq<char>,
)
    requires
        matching::preferred(names_then, watcher.queries) == matching::preferred(
            names,
            watcher.queries,
        ),
    ensures
        decision(observed(watcher, names, current), names_then, current).log() is None,
        observed(watcher, names, current).queries == watcher.queries,
{
}

/// A step is the decision that it stands for.
pub proof fn law_step_is_its_decision(step: WatchStep)
    ensures
        match step {
            WatchStep::Switch { target, log } => step@ is Switch && step@->Switch_target == target@
                && step@.log() == text::content_of(log),
            WatchStep::Hold { log } => step@ is Hold && step@.log() == text::content_of(log),
        },
{
}

} // verus!
