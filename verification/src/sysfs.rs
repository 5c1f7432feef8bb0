//! What is read from sysfs: paths, file contents and link targets.
//!
//! The outcome of reading a file is a `Result<String, String>`: its raw
//! content, or the text of the error.

use vstd::prelude::*;
use vstd::string::StringExecFns;
use vstd::string::StrSliceExecFns;

use crate::text;
use crate::text::{chars_of, find_after_last, trim};

verus! {

/// The directory through which the kernel exposes the hwrng subsystem.
pub const HWRNG_DIR: &'static str = "/sys/class/misc/hw_random";

/// An I/O error: whether permission was denied, and the error's text.
#[derive(Debug)]
pub struct IoFailure {
    pub permission_denied: bool,
    pub text: String,
}

/// The path of a file of the hwrng directory.
pub open spec fn hwrng_path(file: Seq<char>) -> Seq<char> {
    HWRNG_DIR@ + "/"@ + file
}

/// The path of a file of the hwrng directory.
pub fn hwrng_file(file: &str) -> (r: String)
    ensures
        r@ == hwrng_path(file@),
{
    let mut path = String::new();
    path.append(HWRNG_DIR);
    path.append("/");
    path.append(file);
    assert(path@ =~= hwrng_path(file@));
    path
}

/// The names of the registered rngs, as `rng_available` lists them.
pub open spec fn registered(raw: Seq<char>) -> Seq<Seq<char>> {
    text::words(text::trimmed(raw))
}

/// The complaint about a file that could not be read.
pub open spec fn unreadable(path: Seq<char>, error: Seq<char>) -> Seq<char> {
    "failed to read "@ + path + ": "@ + error
}

/// The content of a file that has been read, without the white space around
/// it; for a file that could not be read, a message that names it.
pub fn read_trimmed(path: &str, outcome: &Result<String, String>) -> (r: Result<String, String>)
    ensures
        match *outcome {
            Ok(raw) => r matches Ok(t) && t@ == text::trimmed(raw@),
            Err(error) => r matches Err(m) && m@ == unreadable(path@, error@),
        },
{
    match outcome {
        Ok(raw) => Ok(trim(raw.as_str()).to_owned()),
        Err(error) => {
            let mut message = String::new();
            message.append("failed to read ");
            message.append(path);
            message.append(": ");
            message.append(error.as_str());
            assert(message@ =~= unreadable(path@, error@));
            Err(message)
        },
    }
}

/// The value that a reading gives, where one that failed counts as empty.
pub open spec fn value_or_empty(outcome: Result<String, String>) -> Seq<char> {
    match outcome {
        Ok(raw) => text::trimmed(raw@),
        Err(_) => Seq::empty(),
    }
}

/// The trimmed content of a file; empty if the file could not be read.
pub fn read_or_empty(outcome: &Result<String, String>) -> (r: String)
    ensures
        r@ == value_or_empty(*outcome),
{
    match outcome {
        Ok(raw) => trim(raw.as_str()).to_owned(),
        Err(_) => String::new(),
    }
}

/// The value that a reading gives, if it succeeded.
pub open spec fn value_if_read(outcome: Result<String, String>) -> Option<Seq<char>> {
    match outcome {
        Ok(raw) => Some(text::trimmed(raw@)),
        Err(_) => None,
    }
}

/// The trimmed content of a file, if the file could be read.
pub fn read_if_any(outcome: &Result<String, String>) -> (r: Option<String>)
    ensures
        text::content_of(r) == value_if_read(*outcome),
{
    match outcome {
        Ok(raw) => Some(trim(raw.as_str()).to_owned()),
        Err(_) => None,
    }
}

/// The value of an optional attribute: absent if the file could not be read
/// or holds nothing but white space.
pub open spec fn attribute(outcome: Result<String, String>) -> Option<Seq<char>> {
    match outcome {
        Ok(raw) => if text::trimmed(raw@).len() > 0 {
            Some(text::trimmed(raw@))
        } else {
            None
        },
        Err(_) => None,
    }
}

/// The trimmed content of a file; nothing if the file could not be read or
/// holds nothing but white space.
pub fn read_opt(outcome: &Result<String, String>) -> (r: Option<String>)
    ensures
        text::content_of(r) == attribute(*outcome),
{
    match outcome {
        Ok(raw) => {
            let value = trim(raw.as_str());
            if value.is_empty() {
                None
            } else {
                Some(value.to_owned())
            }
        },
        Err(_) => None,
    }
}

/// What follows the last slash of `s`; all of `s` if it has none.
pub open spec fn after_slash(s: Seq<char>) -> Seq<char> {
    text::after_last(s, seq!['/'])
}

/// The last component of a path; empty components and components `.` do not
/// count.
pub open spec fn last_component(path: Seq<char>) -> Option<Seq<char>>
    decreases path.len(),
{
    let part = after_slash(path);
    if part.len() > 0 && part != seq!['.'] {
        Some(part)
    } else if part.len() < path.len() {
        last_component(path.take(path.len() - part.len() - 1))
    } else {
        None
    }
}

/// The file name that a path ends in, if it has one and it is not `..`.
pub open spec fn base_name(path: Seq<char>) -> Option<Seq<char>> {
    match last_component(path) {
        Some(part) => if part == seq!['.', '.'] {
            None
        } else {
            Some(part)
        },
        None => None,
    }
}

/// The file name that a path ends in, if it has one and it is not `..`.
pub fn file_name(path: &str) -> (r: Option<&str>)
    ensures
        text::view_of(r) == base_name(path@),
{
    let chars = chars_of(path);
    let mut end: usize = chars.len();
    let slash: [char; 1] = ['/'];
    assert(slash@ =~= seq!['/']);
    assert(path@.take(end as int) =~= path@);
    loop
        invariant
            slash@ == seq!['/'],
            chars@ == path@,
            end <= path@.len(),
            last_component(path@) == last_component(path@.take(end as int)),
        decreases end,
    {
        let ghost head = path@.take(end as int);
        let from: usize = find_after_last(chars.as_slice(), end, &slash);
        let ghost part = head.skip(from as int);
        assert(part =~= path@.subrange(from as int, end as int));
        let len: usize = end - from;
        if len > 0 && !(len == 1 && chars[from] == '.') {
            proof {
                if part =~= seq!['.'] {
                    assert(part[0] == chars@[from as int]);
                }
                assert(last_component(path@) == Some(part));
            }
            if len == 2 && chars[from] == '.' && chars[from + 1] == '.' {
                assert(part =~= seq!['.', '.']);
                return None;
            }
            proof {
                if part == seq!['.', '.'] {
                    assert(part.len() == 2);
                    assert(part[0] == chars@[from as int] && part[1] == chars@[from + 1]);
                }
            }
            return Some(path.substring_char(from, end));
        }
        proof {
            if len == 1 {
                assert(part =~= seq!['.']);
            }
        }
        if from == 0 {
            return None;
        }
        end = from - 1;
        assert(head.take(head.len() - part.len() - 1) =~= path@.take(end as int));
    }
}

/// The file name of an entry of a directory is the entry's name.
pub proof fn law_base_name_of_entry(dir: Seq<char>, name: Seq<char>)
    requires
        name.len() > 0,
        !name.contains('/'),
        name != seq!['.'],
        name != seq!['.', '.'],
    ensures
        base_name(dir.push('/') + name) == Some(name),
        base_name(name) == Some(name),
{
    assert(seq!['/'][0] == '/');
    assert forall|i: int| 0 <= i < name.len() implies !seq!['/'].contains(#[trigger] name[i]) by {
        assert(name.contains(name[i]));
    }
    text::lemma_after_last(dir.push('/'), name, seq!['/']);
    text::lemma_after_last(Seq::empty(), name, seq!['/']);
    assert(Seq::<char>::empty() + name =~= name);
}

/// The files of the hwrng subsystem lie in `/sys/class/misc/hw_random`.
pub proof fn law_hwrng_path(file: Seq<char>)
    ensures
        hwrng_path(file) == "/sys/class/misc/hw_random/"@ + file,
{
    reveal_strlit("/sys/class/misc/hw_random");
    reveal_strlit("/");
    reveal_strlit("/sys/class/misc/hw_random/");
    assert(hwrng_path(file) =~= "/sys/class/misc/hw_random/"@ + file);
}

/// The complaint about a file names the file and ends in the error.
pub proof fn law_unreadable(path: Seq<char>, error: Seq<char>)
    ensures
        unreadable(path, error) == "failed to read "@ + (path + (": "@ + error)),
{
    assert(unreadable(path, error) =~= "failed to read "@ + (path + (": "@ + error)));
}

/// What is read from a file is what stands between the white space around it,
/// unchanged. An attribute with nothing in between is absent.
pub proof fn law_reading_gives_what_is_within(
    outcome: Result<String, String>,
    before: Seq<char>,
    value: Seq<char>,
    after: Seq<char>,
)
    requires
        outcome matches Ok(raw) && raw@ == before + value + after,
        forall|i: int| 0 <= i < before.len() ==> text::is_white_space(#[trigger] before[i]),
        forall|i: int| 0 <= i < after.len() ==> text::is_white_space(#[trigger] after[i]),
        value.len() > 0 ==> !text::is_white_space(value[0]) && !text::is_white_space(value.last()),
    ensures
        value_or_empty(outcome) == value,
        value_if_read(outcome) == Some(value),
        value.len() > 0 ==> attribute(outcome) == Some(value),
        value.len() == 0 ==> attribute(outcome) is None,
{
    text::law_trimmed_is_what_is_within(before, value, after);
}

/// A file that could not be read has no value.
pub proof fn law_failed_reading_is_empty(outcome: Result<String, String>)
    requires
        outcome is Err,
    ensures
        value_or_empty(outcome) == Seq::<char>::empty(),
        value_if_read(outcome) is None,
        attribute(outcome) is None,
{
}

/// A name that stands alone in a file, or on a line of its own, is read as
/// that name.
pub proof fn law_name_is_read_back(outcome: Result<String, String>, name: Seq<char>)
    requires
        name.len() > 0,
        forall|i: int| 0 <= i < name.len() ==> !text::is_white_space(#[trigger] name[i]),
        outcome matches Ok(raw) && (raw@ == name || raw@ == name.push('\n')),
    ensures
        value_or_empty(outcome) == name,
        value_if_read(outcome) == Some(name),
        attribute(outcome) == Some(name),
{
    let none = Seq::<char>::empty();
    let newline = seq!['\n'];
    assert(name.last() == name[name.len() - 1]);
    assert(none + name + none =~= name);
    assert(none + name + newline =~= name.push('\n'));
    if outcome->Ok_0@ == name {
        law_reading_gives_what_is_within(outcome, none, name, none);
    } else {
        law_reading_gives_what_is_within(outcome, none, name, newline);
    }
}

/// The registered rngs are all the words of `rng_available`.
pub proof fn law_registered_are_the_words(raw: Seq<char>)
    ensures
        registered(raw) == text::words(raw),
{
    text::law_words_of_trimmed(raw);
}

/// Names that are listed with blanks between them are registered unchanged
/// and in that order, with or without a newline at the end of the list.
pub proof fn law_registered_as_listed(list: Seq<Seq<char>>)
    requires
        forall|i: int, j: int|
            #![trigger list[i][j]]
            0 <= i < list.len() && 0 <= j < list[i].len() ==> !text::is_white_space(list[i][j]),
        forall|i: int| 0 <= i < list.len() ==> (#[trigger] list[i]).len() > 0,
    ensures
        registered(text::joined(list, " "@)) == list,
        registered(text::joined(list, " "@).push('\n')) == list,
{
    let line = text::joined(list, " "@);
    assert forall|i: int| 0 <= i < list.len() implies text::is_word(#[trigger] list[i]) by {
        assert forall|j: int| 0 <= j < list[i].len() implies !text::is_white_space(
            #[trigger] list[i][j],
        ) by {}
    }
    text::law_words_of_joined(list);
    law_registered_are_the_words(line);
    law_registered_are_the_words(line.push('\n'));
    text::law_words_split(line, '\n', Seq::empty());
    assert(line.push('\n') + Seq::<char>::empty() =~= line.push('\n'));
    assert(list + Seq::<Seq<char>>::empty() =~= list);
}

/// The whole of what a path's file name is: a trailing slash and a trailing
/// component `.` do not count, and neither nothing nor `.` nor `..` is a file
/// name.
pub proof fn law_base_name_of_path(path: Seq<char>)
    ensures
        base_name(Seq::empty()) is None,
        base_name(seq!['.']) is None,
        base_name(seq!['.', '.']) is None,
        base_name(path.push('/')) == base_name(path),
        base_name(path.push('/').push('.')) == base_name(path),
        base_name(path.push('/').push('.').push('.')) is None,
{
    let separators = seq!['/'];
    let one = seq!['.'];
    let two = seq!['.', '.'];
    let none = Seq::<char>::empty();
    assert(separators[0] == '/');
    let slashed = path.push('/');
    assert(slashed.last() == '/');
    assert(slashed.take(slashed.len() - 1) =~= path);
    text::lemma_after_last(none, one, separators);
    text::lemma_after_last(none, two, separators);
    text::lemma_after_last(slashed, one, separators);
    text::lemma_after_last(slashed, two, separators);
    assert(none + one =~= one);
    assert(none + two =~= two);
    assert(slashed + one =~= slashed.push('.'));
    assert(slashed + two =~= slashed.push('.').push('.'));
    assert(slashed.push('.').take(path.len() as int) =~= path);
    assert(two != one) by {
        assert(two.len() != one.len());
    }
}

} // verus!
