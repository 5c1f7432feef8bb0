//! Resolving the names given on the command line against the rngs that the
//! kernel has registered.
//!
//! A query matches the rng of exactly that name; failing that, the first rng
//! whose name begins with the query. Several queries form a preference list:
//! the first one that matches anything decides.

use vstd::prelude::*;
use vstd::string::StringExecFns;

use crate::text;
use crate::text::{as_slices, join, same, starts_with};

verus! {

/// The names that begin with `query`, in order.
pub open spec fn with_prefix(names: Seq<Seq<char>>, query: Seq<char>) -> Seq<Seq<char>> {
    names.filter(|name: Seq<char>| query.is_prefix_of(name))
}

/// The name that `query` stands for: the exact name if it is there, else the
/// first name that begins with `query`.
pub open spec fn matched(names: Seq<Seq<char>>, query: Seq<char>) -> Option<Seq<char>> {
    if names.contains(query) {
        Some(query)
    } else if with_prefix(names, query).len() > 0 {
        Some(with_prefix(names, query)[0])
    } else {
        None
    }
}

/// The name that the first matching query of a preference list stands for.
pub open spec fn preferred(names: Seq<Seq<char>>, queries: Seq<Seq<char>>) -> Option<Seq<char>>
    decreases queries.len(),
{
    if queries.len() == 0 {
        None
    } else if matched(names, queries[0]) is Some {
        matched(names, queries[0])
    } else {
        preferred(names, queries.drop_first())
    }
}

/// A position at which `query` stands among the names, if there is one.
fn find_name(names: &[&str], query: &str) -> (r: Option<usize>)
    ensures
        match r {
            Some(k) => k < names@.len() && names@[k as int]@ == query@ && text::views(
                names@,
            ).contains(query@),
            None => !text::views(names@).contains(query@),
        },
{
    for i in 0..names.len()
        invariant
            forall|j: int| 0 <= j < i ==> #[trigger] names@[j]@ != query@,
    {
        if same(names[i], query) {
            assert(text::views(names@)[i as int] == query@);
            return Some(i);
        }
    }
    proof {
        if text::views(names@).contains(query@) {
            let k = choose|k: int|
                0 <= k < names@.len() && text::views(names@)[k] == query@;
            assert(names@[k]@ == query@);
        }
    }
    None
}

/// The names that begin with `query`, in order.
fn names_with_prefix<'a>(names: &[&'a str], query: &str) -> (r: Vec<&'a str>)
    ensures
        text::views(r@) == with_prefix(text::views(names@), query@),
{
    let ghost all = text::views(names@);
    let ghost keep = |name: Seq<char>| query@.is_prefix_of(name);
    let mut out: Vec<&'a str> = Vec::new();
    reveal(Seq::filter);
    assert(text::views(out@) =~= all.take(0).filter(keep));
    for i in 0..names.len()
        invariant
            all == text::views(names@),
            keep == (|name: Seq<char>| query@.is_prefix_of(name)),
            text::views(out@) == all.take(i as int).filter(keep),
    {
        let ghost before = text::views(out@);
        reveal(Seq::filter);
        assert(all.take(i + 1).drop_last() =~= all.take(i as int));
        assert(all.take(i + 1).last() == names@[i as int]@);
        if starts_with(names[i], query) {
            out.push(names[i]);
            assert(text::views(out@) =~= before.push(names@[i as int]@));
        }
    }
    assert(all.take(names@.len() as int) =~= all);
    out
}

/// The rng that `query` stands for: an exact match first, then the first name
/// that begins with `query`.
pub fn first_match<'a>(names: &[&'a str], query: &str) -> (r: Option<&'a str>)
    ensures
        text::view_of(r) == matched(text::views(names@), query@),
{
    if let Some(k) = find_name(names, query) {
        return Some(names[k]);
    }
    let ghost all = text::views(names@);
    let ghost keep = |name: Seq<char>| query@.is_prefix_of(name);
    for i in 0..names.len()
        invariant
            all == text::views(names@),
            keep == (|name: Seq<char>| query@.is_prefix_of(name)),
            !all.contains(query@),
            forall|j: int| 0 <= j < i ==> !keep(#[trigger] all[j]),
    {
        if starts_with(names[i], query) {
            proof {
                lemma_first_kept(all, keep, i as int);
            }
            return Some(names[i]);
        }
    }
    proof {
        all.lemma_all_neg_filter_empty(keep);
    }
    None
}

/// The first element that satisfies a predicate is the first that a filter
/// keeps.
proof fn lemma_first_kept<A>(s: Seq<A>, keep: spec_fn(A) -> bool, k: int)
    requires
        0 <= k < s.len(),
        keep(s[k]),
        forall|j: int| 0 <= j < k ==> !keep(#[trigger] s[j]),
    ensures
        s.filter(keep).len() > 0,
        s.filter(keep)[0] == s[k],
    decreases s.len(),
{
    reveal(Seq::filter);
    let front = s.drop_last();
    if k < s.len() - 1 {
        assert forall|j: int| 0 <= j < k implies !keep(#[trigger] front[j]) by {
            assert(front[j] == s[j]);
        }
        lemma_first_kept(front, keep, k);
    } else {
        assert forall|j: int| 0 <= j < front.len() implies !keep(#[trigger] front[j]) by {
            assert(front[j] == s[j]);
        }
        front.lemma_all_neg_filter_empty(keep);
    }
}

/// The rng that the first matching query of a preference list stands for.
pub fn first_preferred_match<'a>(names: &[&'a str], queries: &[String]) -> (r: Option<&'a str>)
    ensures
        text::view_of(r) == preferred(
            text::views(names@),
            text::contents(queries@),
        ),
{
    let ghost all = text::views(names@);
    let ghost wanted = text::contents(queries@);
    assert(wanted.skip(0) =~= wanted);
    for i in 0..queries.len()
        invariant
            all == text::views(names@),
            wanted == text::contents(queries@),
            preferred(all, wanted) == preferred(all, wanted.skip(i as int)),
    {
        assert(wanted.skip(i as int).drop_first() =~= wanted.skip(i + 1));
        let found = first_match(names, queries[i].as_str());
        if found.is_some() {
            return found;
        }
    }
    None
}

/// How a preference list is shown in messages.
pub open spec fn query_list(queries: Seq<Seq<char>>) -> Seq<char> {
    if queries.len() == 1 {
        "'"@ + queries[0] + "'"@
    } else {
        "["@ + text::joined(queries, ", "@) + "]"@
    }
}

/// Shows a preference list: a single query in quotes, otherwise the queries
/// in brackets, separated by commas.
pub fn format_query_list(queries: &[String]) -> (r: String)
    ensures
        r@ == query_list(text::contents(queries@)),
{
    let mut out = String::new();
    if queries.len() == 1 {
        out.append("'");
        out.append(queries[0].as_str());
        out.append("'");
        assert(out@ =~= "'"@ + queries@[0]@ + "'"@);
    } else {
        let slices = as_slices(queries);
        let list = join(slices.as_slice(), ", ");
        out.append("[");
        out.append(list.as_str());
        out.append("]");
        assert(out@ =~= "["@ + list@ + "]"@);
    }
    out
}

/// A query that was resolved: the name of the rng and, where several names
/// were in question, a notice that says which one was picked.
#[derive(Debug)]
pub struct Resolution {
    pub name: String,
    pub notice: Option<String>,
}

/// The notice that is due when `query` names no rng exactly and several names
/// begin with it.
pub open spec fn ambiguity(names: Seq<Seq<char>>, query: Seq<char>) -> Option<Seq<char>> {
    let candidates = with_prefix(names, query);
    if !names.contains(query) && candidates.len() > 1 {
        Some(
            "hwrng: '"@ + query + "' matches "@ + text::joined(candidates, ", "@)
                + ", picking "@ + candidates[0],
        )
    } else {
        None
    }
}

/// Resolves one query, with a notice if the choice was ambiguous.
pub fn try_resolve(names: &[&str], query: &str) -> (r: Option<Resolution>)
    ensures
        match r {
            Some(found) => {
                &&& matched(text::views(names@), query@) == Some(found.name@)
                &&& text::content_of(found.notice) == ambiguity(
                    text::views(names@),
                    query@,
                )
            },
            None => matched(text::views(names@), query@) is None,
        },
{
    if let Some(k) = find_name(names, query) {
        return Some(Resolution { name: names[k].to_owned(), notice: None });
    }
    let candidates = names_with_prefix(names, query);
    if candidates.len() == 0 {
        return None;
    }
    let first = candidates[0];
    let ghost all = text::views(names@);
    assert(with_prefix(all, query@)[0] == first@);
    if candidates.len() == 1 {
        return Some(Resolution { name: first.to_owned(), notice: None });
    }
    let list = join(candidates.as_slice(), ", ");
    let mut notice = String::new();
    notice.append("hwrng: '");
    notice.append(query);
    notice.append("' matches ");
    notice.append(list.as_str());
    notice.append(", picking ");
    notice.append(first);
    assert(notice@ =~= "hwrng: '"@ + query@ + "' matches "@ + list@ + ", picking "@ + first@);
    Some(Resolution { name: first.to_owned(), notice: Some(notice) })
}

/// The notice that comes with the query of a preference list that decides.
pub open spec fn preferred_ambiguity(
    names: Seq<Seq<char>>,
    queries: Seq<Seq<char>>,
) -> Option<Seq<char>>
    decreases queries.len(),
{
    if queries.len() == 0 {
        None
    } else if matched(names, queries[0]) is Some {
        ambiguity(names, queries[0])
    } else {
        preferred_ambiguity(names, queries.drop_first())
    }
}

/// The complaint when no query of a preference list matches.
pub open spec fn no_match(names: Seq<Seq<char>>, queries: Seq<Seq<char>>) -> Seq<char> {
    "no rng matches "@ + query_list(queries) + ". available: "@ + text::joined(names, ", "@)
}

/// Resolves a preference list, with the notice of the query that decided.
pub fn resolve_with_notice(names: &[&str], queries: &[String]) -> (r: Result<Resolution, String>)
    ensures
        match r {
            Ok(found) => {
                &&& preferred(text::views(names@), text::contents(queries@)) == Some(
                    found.name@,
                )
                &&& text::content_of(found.notice) == preferred_ambiguity(
                    text::views(names@),
                    text::contents(queries@),
                )
            },
            Err(e) => {
                &&& preferred(
                    text::views(names@),
                    text::contents(queries@),
                ) is None
                &&& e@ == no_match(text::views(names@), text::contents(queries@))
            },
        },
{
    let ghost all = text::views(names@);
    let ghost wanted = text::contents(queries@);
    assert(wanted.skip(0) =~= wanted);
    for i in 0..queries.len()
        invariant
            all == text::views(names@),
            wanted == text::contents(queries@),
            preferred(all, wanted) == preferred(all, wanted.skip(i as int)),
            preferred_ambiguity(all, wanted) == preferred_ambiguity(all, wanted.skip(i as int)),
    {
        assert(wanted.skip(i as int).drop_first() =~= wanted.skip(i + 1));
        if let Some(found) = try_resolve(names, queries[i].as_str()) {
            return Ok(found);
        }
    }
    let list = format_query_list(queries);
    let known = join(names, ", ");
    let mut message = String::new();
    message.append("no rng matches ");
    message.append(list.as_str());
    message.append(". available: ");
    message.append(known.as_str());
    assert(message@ =~= no_match(all, wanted));
    Err(message)
}

/// Resolves a preference list: the rng that its first matching query stands
/// for, or a message that lists what is available.
pub fn resolve_preferred(names: &[&str], queries: &[String]) -> (r: Result<String, String>)
    ensures
        match r {
            Ok(name) => preferred(
                text::views(names@),
                text::contents(queries@),
            ) == Some(name@),
            Err(e) => {
                &&& preferred(
                    text::views(names@),
                    text::contents(queries@),
                ) is None
                &&& e@ == no_match(text::views(names@), text::contents(queries@))
            },
        },
{
    match resolve_with_notice(names, queries) {
        Ok(found) => Ok(found.name),
        Err(e) => Err(e),
    }
}

/// A query stands for a registered rng whose name begins with it, and for
/// nothing exactly if no name begins with it.
pub proof fn law_match_is_registered(names: Seq<Seq<char>>, query: Seq<char>)
    ensures
        matched(names, query) matches Some(name) ==> names.contains(name) && query.is_prefix_of(
            name,
        ),
        matched(names, query) is None <==> forall|i: int|
            0 <= i < names.len() ==> !query.is_prefix_of(#[trigger] names[i]),
{
    let keep = |name: Seq<char>| query.is_prefix_of(name);
    broadcast use vstd::seq_lib::group_filter_ensures;

    assert(query.is_prefix_of(query)) by {
        assert(query =~= query.subrange(0, query.len() as int));
    }
    let kept = with_prefix(names, query);
    if names.contains(query) {
        let k = choose|k: int| 0 <= k < names.len() && names[k] == query;
        assert(query.is_prefix_of(names[k]));
    } else if kept.len() > 0 {
        assert(keep(kept[0]));
        names.lemma_filter_contains_rev(keep, kept[0]);
        let k = choose|k: int| 0 <= k < names.len() && names[k] == kept[0];
        assert(query.is_prefix_of(names[k]));
    } else {
        assert forall|i: int| 0 <= i < names.len() implies !query.is_prefix_of(
            #[trigger] names[i],
        ) by {
            if keep(names[i]) {
                assert(kept.contains(names[i]));
            }
        }
    }
}

/// An rng of exactly that name wins, whatever else the query is a prefix of.
pub proof fn law_exact_match_wins(names: Seq<Seq<char>>, query: Seq<char>)
    requires
        names.contains(query),
    ensures
        matched(names, query) == Some(query),
{
}

/// Without an exact match, the first name that begins with the query wins,
/// however many do.
pub proof fn law_first_prefix_wins(names: Seq<Seq<char>>, query: Seq<char>, k: int)
    requires
        !names.contains(query),
        0 <= k < names.len(),
        query.is_prefix_of(names[k]),
        forall|j: int| 0 <= j < k ==> !query.is_prefix_of(#[trigger] names[j]),
    ensures
        matched(names, query) == Some(names[k]),
{
    lemma_first_kept(names, |name: Seq<char>| query.is_prefix_of(name), k);
}

/// The first query that stands for anything decides, whatever the later ones
/// stand for.
pub proof fn law_first_query_wins(names: Seq<Seq<char>>, queries: Seq<Seq<char>>, k: int)
    requires
        0 <= k < queries.len(),
        matched(names, queries[k]) is Some,
        forall|j: int| 0 <= j < k ==> matched(names, #[trigger] queries[j]) is None,
    ensures
        preferred(names, queries) == matched(names, queries[k]),
        preferred_ambiguity(names, queries) == ambiguity(names, queries[k]),
    decreases k,
{
    if k > 0 {
        let rest = queries.drop_first();
        assert(matched(names, queries[0]) is None);
        assert forall|j: int| 0 <= j < k - 1 implies matched(names, #[trigger] rest[j]) is None by {
            assert(rest[j] == queries[j + 1]);
        }
        law_first_query_wins(names, rest, k - 1);
    }
}

/// A preference list stands for nothing exactly if none of its queries stands
/// for anything.
pub proof fn law_no_query_matches(names: Seq<Seq<char>>, queries: Seq<Seq<char>>)
    ensures
        preferred(names, queries) is None <==> forall|j: int|
            0 <= j < queries.len() ==> matched(names, #[trigger] queries[j]) is None,
        preferred(names, queries) is None ==> preferred_ambiguity(names, queries) is None,
    decreases queries.len(),
{
    if queries.len() > 0 {
        let rest = queries.drop_first();
        law_no_query_matches(names, rest);
        assert forall|j: int| 0 <= j < rest.len() implies #[trigger] rest[j] == queries[j + 1] by {}
        if matched(names, queries[0]) is None && preferred(names, queries) is None {
            assert forall|j: int| 0 <= j < queries.len() implies matched(
                names,
                #[trigger] queries[j],
            ) is None by {
                if j > 0 {
                    assert(rest[j - 1] == queries[j]);
                }
            }
        }
    }
}

/// A list that stands for an rng still does so when queries are added at its
/// end; one that stands for nothing leaves the choice to them.
pub proof fn law_later_queries_are_fallbacks(
    names: Seq<Seq<char>>,
    queries: Seq<Seq<char>>,
    more: Seq<Seq<char>>,
)
    ensures
        preferred(names, queries + more) == (if preferred(names, queries) is Some {
            preferred(names, queries)
        } else {
            preferred(names, more)
        }),
    decreases queries.len(),
{
    if queries.len() == 0 {
        assert(queries + more =~= more);
    } else {
        assert((queries + more).drop_first() =~= queries.drop_first() + more);
        law_later_queries_are_fallbacks(names, queries.drop_first(), more);
    }
}

/// A preference list stands for a registered rng.
pub proof fn law_preferred_is_registered(names: Seq<Seq<char>>, queries: Seq<Seq<char>>)
    ensures
        preferred(names, queries) matches Some(name) ==> names.contains(name) && exists|j: int|
            0 <= j < queries.len() && (#[trigger] queries[j]).is_prefix_of(name),
    decreases queries.len(),
{
    if queries.len() > 0 {
        law_match_is_registered(names, queries[0]);
        let rest = queries.drop_first();
        law_preferred_is_registered(names, rest);
        if matched(names, queries[0]) is None && preferred(names, queries) is Some {
            let name = preferred(names, queries)->0;
            let j = choose|j: int|
                0 <= j < rest.len() && (#[trigger] rest[j]).is_prefix_of(name);
            assert(queries[j + 1] == rest[j]);
        }
    }
}

/// Two elements that satisfy a predicate are both kept by a filter.
proof fn lemma_two_kept<A>(s: Seq<A>, keep: spec_fn(A) -> bool, i: int, j: int)
    requires
        0 <= i < j < s.len(),
        keep(s[i]),
        keep(s[j]),
    ensures
        s.filter(keep).len() >= 2,
{
    let front = s.take(j);
    let back = s.skip(j);
    broadcast use vstd::seq_lib::group_filter_ensures;

    assert(front + back =~= s);
    Seq::filter_distributes_over_add(front, back, keep);
    assert(front[i] == s[i] && back[0] == s[j]);
    assert(front.filter(keep).contains(front[i]));
    assert(back.filter(keep).contains(back[0]));
}

/// A predicate that at most one element satisfies keeps at most one.
proof fn lemma_one_kept<A>(s: Seq<A>, keep: spec_fn(A) -> bool)
    requires
        forall|i: int, j: int|
            #![trigger s[i], s[j]]
            0 <= i < j < s.len() ==> !(keep(s[i]) && keep(s[j])),
    ensures
        s.filter(keep).len() <= 1,
    decreases s.len(),
{
    reveal(Seq::filter);
    if s.len() > 0 {
        let front = s.drop_last();
        assert forall|i: int, j: int|
            #![trigger front[i], front[j]]
            0 <= i < j < front.len() implies !(keep(front[i]) && keep(front[j])) by {
            assert(front[i] == s[i] && front[j] == s[j]);
        }
        lemma_one_kept(front, keep);
        if keep(s.last()) {
            assert forall|i: int| 0 <= i < front.len() implies !keep(#[trigger] front[i]) by {
                assert(front[i] == s[i]);
                assert(s[s.len() - 1] == s.last());
            }
            front.lemma_all_neg_filter_empty(keep);
        }
    }
}

/// A notice is due where no rng has the very name of the query and two or
/// more names begin with it. It quotes the query, lists those names in order
/// and says that the first of them is picked, which it is.
pub proof fn law_ambiguity_is_noticed(names: Seq<Seq<char>>, query: Seq<char>, i: int, j: int)
    requires
        !names.contains(query),
        0 <= i < j < names.len(),
        query.is_prefix_of(names[i]),
        query.is_prefix_of(names[j]),
    ensures
        ({
            let candidates = names.filter(|name: Seq<char>| query.is_prefix_of(name));
            &&& ambiguity(names, query) == Some(
                "hwrng: '"@ + (query + ("' matches "@ + (text::joined(candidates, ", "@) + (
                ", picking "@ + candidates[0])))),
            )
            &&& matched(names, query) == Some(candidates[0])
        }),
{
    let keep = |name: Seq<char>| query.is_prefix_of(name);
    lemma_two_kept(names, keep, i, j);
    let candidates = names.filter(keep);
    assert(ambiguity(names, query)->0 =~= "hwrng: '"@ + (query + ("' matches "@ + (text::joined(
        candidates,
        ", "@,
    ) + (", picking "@ + candidates[0])))));
}

/// No notice is due where an rng has the very name of the query, or where at
/// most one name begins with it.
pub proof fn law_no_notice_without_ambiguity(names: Seq<Seq<char>>, query: Seq<char>)
    requires
        names.contains(query) || forall|i: int, j: int|
            #![trigger names[i], names[j]]
            0 <= i < j < names.len() ==> !(query.is_prefix_of(names[i]) && query.is_prefix_of(
                names[j],
            )),
    ensures
        ambiguity(names, query) is None,
{
    if !names.contains(query) {
        lemma_one_kept(names, |name: Seq<char>| query.is_prefix_of(name));
    }
}

/// A single query is shown in quotes; no query or several are shown in
/// brackets, with a comma and a blank between neighbours.
pub proof fn law_query_list(query: Seq<char>, queries: Seq<Seq<char>>)
    ensures
        query_list(seq![query]) == "'"@ + (query + "'"@),
        queries.len() != 1 ==> query_list(queries) == "["@ + (text::joined(queries, ", "@) + "]"@),
{
    assert(query_list(seq![query]) =~= "'"@ + (query + "'"@));
    if queries.len() != 1 {
        assert(query_list(queries) =~= "["@ + (text::joined(queries, ", "@) + "]"@));
    }
}

/// The complaint about a list without a match shows the list and all names
/// that are available.
pub proof fn law_no_match(names: Seq<Seq<char>>, queries: Seq<Seq<char>>)
    ensures
        no_match(names, queries) == "no rng matches "@ + (query_list(queries) + (". available: "@
            + text::joined(names, ", "@))),
{
    assert(no_match(names, queries) =~= "no rng matches "@ + (query_list(queries) + (
    ". available: "@ + text::joined(names, ", "@))));
}

} // verus!
