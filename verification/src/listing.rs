//! Showing the registered rngs: a plain list, and headings for the detailed
//! report.

use vstd::prelude::*;
use vstd::string::StringExecFns;

use crate::sysfs;
use crate::sysfs::{hwrng_file, read_if_any, read_or_empty, read_trimmed};
use crate::text;
use crate::text::{same, split_whitespace};

verus! {

/// One line of the list: the name behind `*` if it is active, else behind a
/// blank.
pub open spec fn list_line(name: Seq<char>, current: Seq<char>) -> Seq<char> {
    (if name == current {
        "* "@
    } else {
        "  "@
    }) + name + "\n"@
}

/// The lines of the list, one after another.
pub open spec fn list_text(names: Seq<Seq<char>>, current: Seq<char>) -> Seq<char>
    decreases names.len(),
{
    if names.len() == 0 {
        Seq::empty()
    } else {
        list_text(names.drop_last(), current) + list_line(names.last(), current)
    }
}

/// Lists the registered rngs, one to a line, and marks the active one with
/// `*`. An unreadable `rng_current` counts as empty.
pub fn list(available: &Result<String, String>, current: &Result<String, String>) -> (r: Result<
    String,
    String,
>)
    ensures
        match *available {
            Err(error) => r matches Err(m) && m@ == sysfs::unreadable(
                sysfs::hwrng_path("rng_available"@),
                error@,
            ),
            Ok(raw) => r matches Ok(t) && t@ == list_text(
                sysfs::registered(raw@),
                sysfs::value_or_empty(*current),
            ),
        },
{
    let path = hwrng_file("rng_available");
    let available = match read_trimmed(path.as_str(), available) {
        Err(message) => {
            return Err(message);
        },
        Ok(list) => list,
    };
    let active = read_or_empty(current);
    let names = split_whitespace(available.as_str());
    let ghost all = text::views(names@);
    let mut out = String::new();
    for i in 0..names.len()
        invariant
            all == text::views(names@),
            out@ == list_text(all.take(i as int), active@),
    {
        let ghost before = out@;
        if same(names[i], active.as_str()) {
            out.append("* ");
        } else {
            out.append("  ");
        }
        out.append(names[i]);
        out.append("\n");
        proof {
            assert(all.take(i + 1).drop_last() =~= all.take(i as int));
            assert(all.take(i + 1).last() == names@[i as int]@);
            assert(out@ =~= before + list_line(names@[i as int]@, active@));
        }
    }
    assert(all.take(names@.len() as int) =~= all);
    Ok(out)
}

/// How the content of `rng_selected` is shown.
pub open spec fn selection_label(selected: Seq<char>) -> Seq<char> {
    if selected == "1"@ {
        "user"@
    } else if selected == "0"@ {
        "kernel default"@
    } else {
        selected
    }
}

/// The heading of an rng in the detailed report. The active rng comes with
/// the quality and the origin of the selection, as far as they are known.
pub open spec fn heading(
    name: Seq<char>,
    current: Seq<char>,
    quality: Option<Seq<char>>,
    selected: Option<Seq<char>>,
) -> Seq<char> {
    if name == current {
        name + " [active]\n"@ + (match quality {
            Some(q) => "  quality:     "@ + q + "/1024 bits\n"@,
            None => Seq::empty(),
        }) + (match selected {
            Some(s) => "  selected:    "@ + selection_label(s) + "\n"@,
            None => Seq::empty(),
        })
    } else {
        name + "\n"@
    }
}

/// The heading of one rng, without the empty line that sets it off.
fn heading_of(
    name: &str,
    current: &str,
    quality: &Option<String>,
    selected: &Option<String>,
) -> (r: String)
    ensures
        r@ == heading(name@, current@, text::content_of(*quality), text::content_of(*selected)),
{
    let mut out = String::new();
    out.append(name);
    assert(out@ =~= name@);
    if !same(name, current) {
        out.append("\n");
        return out;
    }
    out.append(" [active]\n");
    let ghost first = out@;
    if let Some(q) = quality {
        out.append("  quality:     ");
        out.append(q.as_str());
        out.append("/1024 bits\n");
        assert(out@ =~= first + ("  quality:     "@ + q@ + "/1024 bits\n"@));
    } else {
        assert(out@ =~= first + Seq::empty());
    }
    let ghost second = out@;
    if let Some(s) = selected {
        let label = if same(s.as_str(), "1") {
            "user"
        } else if same(s.as_str(), "0") {
            "kernel default"
        } else {
            s.as_str()
        };
        out.append("  selected:    ");
        out.append(label);
        out.append("\n");
        assert(out@ =~= second + ("  selected:    "@ + selection_label(s@) + "\n"@));
    } else {
        assert(out@ =~= second + Seq::empty());
    }
    out
}

/// An rng of the detailed report: its name, and what is printed ahead of the
/// description of its device.
#[derive(Debug)]
pub struct InfoEntry {
    pub name: String,
    pub heading: String,
}

/// Whether `entry` is entry number `i` of the detailed report: an empty line
/// separates it from the one before it.
pub open spec fn is_entry(
    entry: InfoEntry,
    i: int,
    names: Seq<Seq<char>>,
    current: Seq<char>,
    quality: Option<Seq<char>>,
    selected: Option<Seq<char>>,
) -> bool {
    &&& entry.name@ == names[i]
    &&& entry.heading@ == (if i > 0 {
        "\n"@
    } else {
        Seq::empty()
    }) + heading(names[i], current, quality, selected)
}

/// The entries of the detailed report, from the content of `rng_available`,
/// `rng_current`, `rng_quality` and `rng_selected`. Only an unreadable
/// `rng_available` is an error.
pub fn info(
    available: &Result<String, String>,
    current: &Result<String, String>,
    quality: &Result<String, String>,
    selected: &Result<String, String>,
) -> (r: Result<Vec<InfoEntry>, String>)
    ensures
        match *available {
            Err(error) => r matches Err(m) && m@ == sysfs::unreadable(
                sysfs::hwrng_path("rng_available"@),
                error@,
            ),
            Ok(raw) => {
                &&& r matches Ok(entries)
                &&& entries@.len() == text::words(raw@).len()
                &&& forall|i: int|
                    0 <= i < entries@.len() ==> (#[trigger] entries@[i]).name@ == text::words(
                        raw@,
                    )[i]
                &&& entries@.len() == sysfs::registered(raw@).len()
                &&& forall|i: int|
                    0 <= i < entries@.len() ==> is_entry(
                        #[trigger] entries@[i],
                        i,
                        sysfs::registered(raw@),
                        sysfs::value_or_empty(*current),
                        sysfs::value_if_read(*quality),
                        sysfs::value_if_read(*selected),
                    )
            },
        },
{
    proof {
        if let Ok(raw) = available {
            sysfs::law_registered_are_the_words(raw@);
        }
    }
    let path = hwrng_file("rng_available");
    let available = match read_trimmed(path.as_str(), available) {
        Err(message) => {
            return Err(message);
        },
        Ok(list) => list,
    };
    let active = read_or_empty(current);
    let quality = read_if_any(quality);
    let selected = read_if_any(selected);
    let names = split_whitespace(available.as_str());
    let ghost all = text::views(names@);
    let mut out: Vec<InfoEntry> = Vec::new();
    for i in 0..names.len()
        invariant
            all == text::views(names@),
            out@.len() == i,
            forall|j: int|
                0 <= j < i ==> is_entry(
                    #[trigger] out@[j],
                    j,
                    all,
                    active@,
                    text::content_of(quality),
                    text::content_of(selected),
                ),
    {
        let shown = heading_of(names[i], active.as_str(), &quality, &selected);
        let mut whole = String::new();
        if i > 0 {
            whole.append("\n");
            assert(whole@ =~= "\n"@);
        }
        whole.append(shown.as_str());
        out.push(InfoEntry { name: names[i].to_owned(), heading: whole });
    }
    Ok(out)
}

/// The list is made line by line: nothing for no rng, one line for one rng,
/// and for two runs of rngs the list of the first and the list of the second.
/// A line is the name behind `* ` if the name is that of the active rng, and
/// behind two blanks otherwise.
pub proof fn law_list_is_made_of_lines(
    a: Seq<Seq<char>>,
    b: Seq<Seq<char>>,
    name: Seq<char>,
    current: Seq<char>,
)
    ensures
        list_text(Seq::empty(), current) == Seq::<char>::empty(),
        list_text(seq![name], name) == "* "@ + name + "\n"@,
        name != current ==> list_text(seq![name], current) == "  "@ + name + "\n"@,
        list_text(a + b, current) == list_text(a, current) + list_text(b, current),
    decreases b.len(),
{
    let none = Seq::<Seq<char>>::empty();
    assert(seq![name].drop_last() =~= none);
    assert(list_text(none, current) =~= Seq::<char>::empty());
    assert(list_text(none, name) =~= Seq::<char>::empty());
    assert(list_text(seq![name], name) =~= "* "@ + name + "\n"@);
    if name != current {
        assert(list_text(seq![name], current) =~= "  "@ + name + "\n"@);
    }
    if b.len() == 0 {
        assert(a + b =~= a);
        assert(list_text(a, current) + list_text(b, current) =~= list_text(a, current));
    } else {
        law_list_is_made_of_lines(a, b.drop_last(), name, current);
        assert((a + b).drop_last() =~= a + b.drop_last());
        assert(list_text(a + b, current) =~= list_text(a, current) + list_text(b, current));
    }
}

/// Line number `i` of the list, between the lines before it and the lines
/// after it, shows rng number `i`, marked exactly if it is the active one.
pub proof fn law_list_shows_each(names: Seq<Seq<char>>, current: Seq<char>, i: int)
    requires
        0 <= i < names.len(),
    ensures
        list_text(names, current) == list_text(names.take(i), current) + ((if names[i]
            == current {
            "* "@
        } else {
            "  "@
        }) + names[i] + "\n"@) + list_text(names.skip(i + 1), current),
{
    let front = names.take(i);
    let back = names.skip(i + 1);
    law_list_is_made_of_lines(front, seq![names[i]], names[i], current);
    law_list_is_made_of_lines(front + seq![names[i]], back, names[i], current);
    assert(front + seq![names[i]] + back =~= names);
}

/// The active rng that `rng_current` names on a line of its own is marked,
/// wherever it stands in `rng_available`; no other is.
pub proof fn law_list_marks_the_active(
    raw: Seq<char>,
    current: Result<String, String>,
    active: Seq<char>,
    i: int,
)
    requires
        active.len() > 0,
        forall|j: int| 0 <= j < active.len() ==> !text::is_white_space(#[trigger] active[j]),
        current matches Ok(shown) && (shown@ == active || shown@ == active.push('\n')),
        0 <= i < text::words(raw).len(),
    ensures
        ({
            let names = text::words(raw);
            let mark = if names[i] == active {
                "* "@
            } else {
                "  "@
            };
            list_text(sysfs::registered(raw), sysfs::value_or_empty(current)) == list_text(
                names.take(i),
                active,
            ) + (mark + names[i] + "\n"@) + list_text(names.skip(i + 1), active)
        }),
{
    sysfs::law_registered_are_the_words(raw);
    sysfs::law_name_is_read_back(current, active);
    law_list_shows_each(text::words(raw), active, i);
}

/// An rng that is not active is headed by its name alone; the active one by
/// its name, marked, and a line for the quality and the selection each, where
/// they are known.
pub proof fn law_heading(
    name: Seq<char>,
    current: Seq<char>,
    quality: Option<Seq<char>>,
    selected: Option<Seq<char>>,
    q: Seq<char>,
    s: Seq<char>,
)
    ensures
        name != current ==> heading(name, current, quality, selected) == name + "\n"@,
        heading(name, name, None, None) == name + " [active]\n"@,
        heading(name, name, Some(q), selected) == name + " [active]\n"@ + ("  quality:     "@ + q
            + "/1024 bits\n"@) + heading(name, name, None, selected).skip(
            (name + " [active]\n"@).len() as int,
        ),
        heading(name, name, quality, Some(s)) == heading(name, name, quality, None)
            + "  selected:    "@ + (if s == "1"@ {
            "user"@
        } else if s == "0"@ {
            "kernel default"@
        } else {
            s
        }) + "\n"@,
{
    let active = name + " [active]\n"@;
    assert(heading(name, name, None, None) =~= active);
    assert(heading(name, name, None, selected).skip(active.len() as int) =~= (match selected {
        Some(t) => "  selected:    "@ + selection_label(t) + "\n"@,
        None => Seq::empty(),
    }));
    assert(heading(name, name, Some(q), selected) =~= active + ("  quality:     "@ + q
        + "/1024 bits\n"@) + heading(name, name, None, selected).skip(active.len() as int));
    assert(heading(name, name, quality, Some(s)) =~= heading(name, name, quality, None)
        + "  selected:    "@ + selection_label(s) + "\n"@);
}

/// An entry of the report belongs to the rng at its position; its heading is
/// that rng's, set off by an empty line from the entry before it.
pub proof fn law_entry(
    entry: InfoEntry,
    i: int,
    names: Seq<Seq<char>>,
    current: Seq<char>,
    quality: Option<Seq<char>>,
    selected: Option<Seq<char>>,
)
    requires
        is_entry(entry, i, names, current, quality, selected),
    ensures
        entry.name@ == names[i],
        i <= 0 ==> entry.heading@ == heading(names[i], current, quality, selected),
        i > 0 ==> entry.heading@ == "\n"@ + heading(names[i], current, quality, selected),
{
    assert(Seq::<char>::empty() + heading(names[i], current, quality, selected) =~= heading(
        names[i],
        current,
        quality,
        selected,
    ));
}

} // verus!
