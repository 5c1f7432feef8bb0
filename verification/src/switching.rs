//! Switching the active rng to the first available name of a preference list.
//!
//! A switch has three steps with I/O between them: resolve the list against
//! the registered rngs, compare the result with the active one, and report
//! what came of writing it.

use vstd::prelude::*;
use vstd::string::StringExecFns;

use crate::matching;
use crate::matching::{resolve_with_notice, Resolution};
use crate::sysfs;
use crate::sysfs::{hwrng_file, read_or_empty, read_trimmed, IoFailure};
use crate::text;
use crate::text::{same, split_whitespace};

verus! {

/// Resolves a preference list against the content of `rng_available`.
pub fn switch_target(available: &Result<String, String>, queries: &[String]) -> (r: Result<
    Resolution,
    String,
>)
    ensures
        match *available {
            Err(error) => r matches Err(m) && m@ == sysfs::unreadable(
                sysfs::hwrng_path("rng_available"@),
                error@,
            ),
            Ok(raw) => {
                let names = sysfs::registered(raw@);
                let wanted = text::contents(queries@);
                match r {
                    Ok(found) => {
                        &&& matching::preferred(names, wanted) == Some(found.name@)
                        &&& text::content_of(found.notice) == matching::preferred_ambiguity(
                            names,
                            wanted,
                        )
                    },
                    Err(m) => {
                        &&& matching::preferred(names, wanted) is None
                        &&& m@ == matching::no_match(names, wanted)
                    },
                }
            },
        },
{
    let path = hwrng_file("rng_available");
    match read_trimmed(path.as_str(), available) {
        Err(message) => Err(message),
        Ok(list) => {
            let names = split_whitespace(list.as_str());
            resolve_with_notice(names.as_slice(), queries)
        },
    }
}

/// What is left to do once the target of a switch is known.
#[derive(Debug)]
pub enum SwitchStep {
    /// The target is active already: report it and stop.
    Done { message: String },
    /// The target has to be written to `rng_current`, in place of `current`.
    Write { current: String },
}

/// Decides whether the target has to be written, given the content of
/// `rng_current`. An unreadable `rng_current` counts as empty.
pub fn switch_step(target: &str, current: &Result<String, String>) -> (r: SwitchStep)
    ensures
        match r {
            SwitchStep::Done { message } => {
                &&& sysfs::value_or_empty(*current) == target@
                &&& message@ == "hwrng already set to "@ + target@
            },
            SwitchStep::Write { current: active } => {
                &&& sysfs::value_or_empty(*current) != target@
                &&& active@ == sysfs::value_or_empty(*current)
            },
        },
{
    let active = read_or_empty(current);
    if same(active.as_str(), target) {
        let mut message = String::new();
        message.append("hwrng already set to ");
        message.append(target);
        assert(message@ =~= "hwrng already set to "@ + target@);
        SwitchStep::Done { message }
    } else {
        SwitchStep::Write { current: active }
    }
}

/// The report on a switch after the attempt to write `rng_current`.
pub fn switch_report(current: &str, target: &str, written: &Result<(), IoFailure>) -> (r: Result<
    String,
    String,
>)
    ensures
        match *written {
            Ok(_) => r matches Ok(m) && m@ == "switched hwrng: "@ + current@ + " -> "@ + target@,
            Err(failure) => r matches Err(m) && m@ == (if failure.permission_denied {
                "writing rng_current requires root (try sudo): "@ + failure.text@
            } else {
                "failed to write rng_current: "@ + failure.text@
            }),
        },
{
    let mut message = String::new();
    match written {
        Ok(_) => {
            message.append("switched hwrng: ");
            message.append(current);
            message.append(" -> ");
            message.append(target);
            assert(message@ =~= "switched hwrng: "@ + current@ + " -> "@ + target@);
            Ok(message)
        },
        Err(failure) => {
            if failure.permission_denied {
                message.append("writing rng_current requires root (try sudo): ");
                message.append(failure.text.as_str());
                assert(message@ =~= "writing rng_current requires root (try sudo): "@
                    + failure.text@);
            } else {
                message.append("failed to write rng_current: ");
                message.append(failure.text.as_str());
                assert(message@ =~= "failed to write rng_current: "@ + failure.text@);
            }
            Err(message)
        },
    }
}

/// A switch settles: once the name that a preference list stands for has been
/// written and `rng_current` shows it on a line of its own, that name is what
/// is found active.
pub proof fn law_switch_settles(raw: Seq<char>, queries: Seq<Seq<char>>, target: Seq<char>)
    requires
        matching::preferred(sysfs::registered(raw), queries) == Some(target),
    ensures
        text::trimmed(target.push('\n')) == target,
        text::trimmed(target) == target,
{
    let names = sysfs::registered(raw);
    matching::law_preferred_is_registered(names, queries);
    text::law_words_are_words(text::trimmed(raw));
    let k = choose|k: int| 0 <= k < names.len() && names[k] == target;
    assert(text::is_word(names[k]));
    let shown = target.push('\n');
    assert(shown[0] == target[0]);
    assert(text::trim_start(shown) == shown);
    assert(shown.drop_last() =~= target);
    assert(target.last() == target[target.len() - 1]);
    assert(text::trim_end(target) == target);
    assert(text::is_white_space(shown.last()));
    assert(text::trim_end(shown) == target);
}

/// The name that `rng_current` shows, alone or on a line of its own, is the
/// one that a switch compares its target with.
pub proof fn law_switch_knows_the_active(current: Result<String, String>, active: Seq<char>)
    requires
        active.len() > 0,
        forall|i: int| 0 <= i < active.len() ==> !text::is_white_space(#[trigger] active[i]),
        current matches Ok(shown) && (shown@ == active || shown@ == active.push('\n')),
    ensures
        sysfs::value_or_empty(current) == active,
{
    sysfs::law_name_is_read_back(current, active);
}

/// A switch resolves its list against all the words of `rng_available`, and
/// its target is one of them.
pub proof fn law_switch_target_is_listed(raw: Seq<char>, queries: Seq<Seq<char>>)
    ensures
        matching::preferred(sysfs::registered(raw), queries) == matching::preferred(
            text::words(raw),
            queries,
        ),
        matching::preferred(sysfs::registered(raw), queries) matches Some(target) ==> text::words(
            raw,
        ).contains(target),
{
    sysfs::law_registered_are_the_words(raw);
    matching::law_preferred_is_registered(text::words(raw), queries);
}

} // verus!
