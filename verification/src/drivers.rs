//! Finding the device behind an rng by way of the drivers of a bus.
//!
//! The driver is the first one whose name has the same root as the rng's. Its
//! devices are the links in the driver's directory; in the order of their
//! names, the index at the end of the rng's name says which one is meant.

use vstd::prelude::*;
use vstd::relations::*;
use vstd::seq_lib::*;
use vstd::string::StringExecFns;

use crate::devices::Bus;
use crate::naming;
use crate::naming::{normalize_root, parse_trailing_index};
use crate::text;
use crate::text::same;

verus! {

/// The directory with the drivers of a bus.
pub fn drivers_dir(bus: Bus) -> (r: String)
    ensures
        r@ == "/sys/bus/"@ + bus.text() + "/drivers"@,
{
    let mut path = String::new();
    path.append("/sys/bus/");
    path.append(bus.name());
    path.append("/drivers");
    assert(path@ =~= "/sys/bus/"@ + bus.text() + "/drivers"@);
    path
}

/// The first driver whose name has the same root as the name of the rng.
pub fn find_driver(rng_name: &str, drivers: &[String]) -> (r: Option<usize>)
    ensures
        match r {
            Some(k) => {
                &&& k < drivers@.len()
                &&& naming::root(drivers@[k as int]@) == naming::root(rng_name@)
                &&& forall|j: int|
                    0 <= j < k ==> naming::root(#[trigger] drivers@[j]@) != naming::root(rng_name@)
            },
            None => forall|j: int|
                0 <= j < drivers@.len() ==> naming::root(#[trigger] drivers@[j]@) != naming::root(
                    rng_name@,
                ),
        },
{
    let wanted = normalize_root(rng_name);
    for i in 0..drivers.len()
        invariant
            wanted@ == naming::root(rng_name@),
            forall|j: int|
                0 <= j < i ==> naming::root(#[trigger] drivers@[j]@) != naming::root(rng_name@),
    {
        let root = normalize_root(drivers[i].as_str());
        if same(root.as_str(), wanted.as_str()) {
            return Some(i);
        }
    }
    None
}

/// An entry of a driver's directory.
#[derive(Debug)]
pub struct DirEntry {
    pub name: Vec<u8>,
    pub is_symlink: bool,
}

/// The lexicographic order of names.
pub open spec fn name_le(a: Seq<u8>, b: Seq<u8>) -> bool
    decreases a.len(),
{
    if a.len() == 0 {
        true
    } else if b.len() == 0 {
        false
    } else if a[0] != b[0] {
        a[0] < b[0]
    } else {
        name_le(a.drop_first(), b.drop_first())
    }
}

/// The lexicographic order of names, as a relation.
pub open spec fn name_order() -> spec_fn(Seq<u8>, Seq<u8>) -> bool {
    |a: Seq<u8>, b: Seq<u8>| name_le(a, b)
}

/// The names of the links in a driver's directory.
pub open spec fn link_names(entries: Seq<DirEntry>) -> Seq<Seq<u8>>
    decreases entries.len(),
{
    if entries.len() == 0 {
        Seq::empty()
    } else if entries.last().is_symlink {
        link_names(entries.drop_last()).push(entries.last().name@)
    } else {
        link_names(entries.drop_last())
    }
}

/// The name of the device that an rng stands for: the links in order of their
/// names, counted from zero by the index at the end of the rng's name. An rng
/// without an index stands for the first.
pub open spec fn device_name(rng_name: Seq<char>, entries: Seq<DirEntry>) -> Option<Seq<u8>> {
    let sorted = link_names(entries).sort_by(name_order());
    let index = match naming::trailing_index(rng_name) {
        Some(i) => i as int,
        None => 0,
    };
    if index < sorted.len() {
        Some(sorted[index])
    } else {
        None
    }
}

proof fn lemma_name_le_reflexive(a: Seq<u8>)
    ensures
        name_le(a, a),
    decreases a.len(),
{
    if a.len() > 0 {
        lemma_name_le_reflexive(a.drop_first());
    }
}

proof fn lemma_name_le_antisymmetric(a: Seq<u8>, b: Seq<u8>)
    requires
        name_le(a, b),
        name_le(b, a),
    ensures
        a == b,
    decreases a.len(),
{
    if a.len() == 0 || b.len() == 0 {
        assert(a =~= b);
    } else {
        lemma_name_le_antisymmetric(a.drop_first(), b.drop_first());
        assert(a =~= seq![a[0]] + a.drop_first());
        assert(b =~= seq![b[0]] + b.drop_first());
    }
}

proof fn lemma_name_le_transitive(a: Seq<u8>, b: Seq<u8>, c: Seq<u8>)
    requires
        name_le(a, b),
        name_le(b, c),
    ensures
        name_le(a, c),
    decreases a.len(),
{
    if a.len() > 0 && b.len() > 0 && c.len() > 0 && a[0] == b[0] && b[0] == c[0] {
        lemma_name_le_transitive(a.drop_first(), b.drop_first(), c.drop_first());
    }
}

proof fn lemma_name_le_total(a: Seq<u8>, b: Seq<u8>)
    ensures
        name_le(a, b) || name_le(b, a),
    decreases a.len(),
{
    if a.len() > 0 && b.len() > 0 && a[0] == b[0] {
        lemma_name_le_total(a.drop_first(), b.drop_first());
    }
}

/// The lexicographic order of names is a total order.
pub proof fn law_name_order_is_total()
    ensures
        total_ordering(name_order()),
{
    let leq = name_order();
    assert forall|a: Seq<u8>| #[trigger] leq(a, a) by {
        lemma_name_le_reflexive(a);
    }
    assert forall|a: Seq<u8>, b: Seq<u8>| #[trigger] leq(a, b) && #[trigger] leq(b, a) implies a
        == b by {
        lemma_name_le_antisymmetric(a, b);
    }
    assert forall|a: Seq<u8>, b: Seq<u8>, c: Seq<u8>| #[trigger]
        leq(a, b) && #[trigger] leq(b, c) implies leq(a, c) by {
        lemma_name_le_transitive(a, b, c);
    }
    assert forall|a: Seq<u8>, b: Seq<u8>| #[trigger] leq(a, b) || #[trigger] leq(b, a) by {
        lemma_name_le_total(a, b);
    }
}

fn name_le_of(a: &[u8], b: &[u8]) -> (r: bool)
    ensures
        r == name_le(a@, b@),
{
    let mut i: usize = 0;
    assert(a@.skip(0) =~= a@);
    assert(b@.skip(0) =~= b@);
    while i < a.len() && i < b.len() && a[i] == b[i]
        invariant
            i <= a@.len(),
            i <= b@.len(),
            name_le(a@, b@) == name_le(a@.skip(i as int), b@.skip(i as int)),
        decreases a@.len() - i,
    {
        assert(a@.skip(i as int).drop_first() =~= a@.skip(i + 1));
        assert(b@.skip(i as int).drop_first() =~= b@.skip(i + 1));
        i = i + 1;
    }
    if i == a.len() {
        true
    } else if i == b.len() {
        false
    } else {
        a[i] < b[i]
    }
}

/// The names of the entries at the given positions.
spec fn names_at(entries: Seq<DirEntry>, order: Seq<usize>) -> Seq<Seq<u8>> {
    Seq::new(order.len(), |j: int| entries[order[j] as int].name@)
}

/// Inserting a name where all before it are smaller and the one after it is
/// not keeps names sorted.
proof fn lemma_insert_sorted(names: Seq<Seq<u8>>, p: int, name: Seq<u8>)
    requires
        0 <= p <= names.len(),
        sorted_by(names, name_order()),
        forall|j: int| 0 <= j < p ==> name_le(#[trigger] names[j], name),
        p < names.len() ==> !name_le(names[p], name),
    ensures
        sorted_by(names.insert(p, name), name_order()),
        names.insert(p, name).to_multiset() == names.to_multiset().insert(name),
{
    let leq = name_order();
    let longer = names.insert(p, name);
    assert forall|i: int, j: int| 0 <= i < j < longer.len() implies #[trigger] leq(
        longer[i],
        longer[j],
    ) by {
        if i == p {
            lemma_name_le_total(name, names[p]);
            if j - 1 > p {
                assert(leq(names[p], names[j - 1]));
                lemma_name_le_transitive(name, names[p], names[j - 1]);
            }
        } else if j == p {
            assert(longer[i] == names[i]);
        } else {
            let a = if i < p {
                i
            } else {
                i - 1
            };
            let b = if j < p {
                j
            } else {
                j - 1
            };
            assert(leq(names[a], names[b]));
        }
    }
    to_multiset_insert(names, p, name);
}

/// The device that an rng stands for among the entries of its driver's
/// directory.
pub fn pick_device(rng_name: &str, entries: &[DirEntry]) -> (r: Option<usize>)
    ensures
        match r {
            Some(k) => {
                &&& k < entries@.len()
                &&& entries@[k as int].is_symlink
                &&& device_name(rng_name@, entries@) == Some(entries@[k as int].name@)
            },
            None => device_name(rng_name@, entries@) is None,
        },
{
    let mut order: Vec<usize> = Vec::new();
    assert(names_at(entries@, order@) =~= link_names(entries@.take(0)));
    for i in 0..entries.len()
        invariant
            forall|j: int|
                0 <= j < order@.len() ==> #[trigger] order@[j] < entries@.len()
                    && entries@[order@[j] as int].is_symlink,
            sorted_by(names_at(entries@, order@), name_order()),
            names_at(entries@, order@).to_multiset() == link_names(
                entries@.take(i as int),
            ).to_multiset(),
    {
        assert(entries@.take(i + 1).drop_last() =~= entries@.take(i as int));
        if entries[i].is_symlink {
            let name = entries[i].name.as_slice();
            let ghost before = order@;
            let ghost names = names_at(entries@, before);
            let mut p: usize = 0;
            while p < order.len() && name_le_of(entries[order[p]].name.as_slice(), name)
                invariant
                    p <= order@.len(),
                    order@ == before,
                    names == names_at(entries@, before),
                    forall|j: int|
                        0 <= j < order@.len() ==> #[trigger] order@[j] < entries@.len(),
                    forall|j: int| 0 <= j < p ==> name_le(#[trigger] names[j], name@),
                decreases order@.len() - p,
            {
                p = p + 1;
            }
            order.insert(p, i);
            proof {
                broadcast use group_to_multiset_ensures;

                lemma_insert_sorted(names, p as int, name@);
                assert(names_at(entries@, order@) =~= names.insert(p as int, name@));
            }
        }
    }
    proof {
        assert(entries@.take(entries@.len() as int) =~= entries@);
        let links = link_names(entries@);
        law_name_order_is_total();
        links.lemma_sort_by_ensures(name_order());
        lemma_sorted_unique(
            names_at(entries@, order@),
            links.sort_by(name_order()),
            name_order(),
        );
    }
    let index: usize = match parse_trailing_index(rng_name) {
        Some(i) => i,
        None => 0,
    };
    if index < order.len() {
        Some(order[index])
    } else {
        None
    }
}

/// The order in which a directory lists its entries does not matter.
pub proof fn law_listing_order_is_irrelevant(
    rng_name: Seq<char>,
    entries: Seq<DirEntry>,
    others: Seq<DirEntry>,
)
    requires
        link_names(entries).to_multiset() == link_names(others).to_multiset(),
    ensures
        device_name(rng_name, entries) == device_name(rng_name, others),
{
    let a = link_names(entries);
    let b = link_names(others);
    law_name_order_is_total();
    a.lemma_sort_by_ensures(name_order());
    b.lemma_sort_by_ensures(name_order());
    lemma_sorted_unique(a.sort_by(name_order()), b.sort_by(name_order()), name_order());
}

/// The device of an rng is one of the links, and it is there exactly if the
/// index of the rng is less than their number.
pub proof fn law_device_is_a_link(rng_name: Seq<char>, entries: Seq<DirEntry>)
    ensures
        device_name(rng_name, entries) matches Some(name) ==> link_names(entries).contains(name),
        device_name(rng_name, entries) is Some <==> (match naming::trailing_index(rng_name) {
            Some(i) => i < link_names(entries).len(),
            None => 0 < link_names(entries).len(),
        }),
{
    broadcast use group_to_multiset_ensures;

    let links = link_names(entries);
    let sorted = links.sort_by(name_order());
    law_name_order_is_total();
    links.lemma_sort_by_ensures(name_order());
    assert(sorted.len() == sorted.to_multiset().len());
    assert(links.len() == links.to_multiset().len());
    if let Some(name) = device_name(rng_name, entries) {
        assert(sorted.contains(name));
    }
}

/// Names are ordered by the first byte in which they differ, and a name comes
/// before all that it is the beginning of.
pub proof fn law_names_are_ordered_by_first_difference(
    common: Seq<u8>,
    a: Seq<u8>,
    b: Seq<u8>,
)
    ensures
        a.len() == 0 ==> name_le(common + a, common + b),
        a.len() > 0 && b.len() == 0 ==> !name_le(common + a, common + b),
        a.len() > 0 && b.len() > 0 && a[0] != b[0] ==> (name_le(common + a, common + b) <==> a[0]
            < b[0]),
    decreases common.len(),
{
    if common.len() == 0 {
        assert(common + a =~= a);
        assert(common + b =~= b);
    } else {
        law_names_are_ordered_by_first_difference(common.drop_first(), a, b);
        assert((common + a).drop_first() =~= common.drop_first() + a);
        assert((common + b).drop_first() =~= common.drop_first() + b);
    }
}

/// Every entry that is a link counts, in the order of the listing, and
/// nothing else does.
pub proof fn law_every_link_counts(entries: Seq<DirEntry>)
    ensures
        link_names(entries) == entries.filter(|e: DirEntry| e.is_symlink).map_values(
            |e: DirEntry| e.name@,
        ),
        link_names(entries).len() == entries.filter(|e: DirEntry| e.is_symlink).len(),
        forall|i: int|
            0 <= i < entries.len() && (#[trigger] entries[i]).is_symlink ==> link_names(
                entries,
            ).contains(entries[i].name@),
    decreases entries.len(),
{
    let keep = |e: DirEntry| e.is_symlink;
    let name = |e: DirEntry| e.name@;
    reveal(Seq::filter);
    let links = link_names(entries);
    if entries.len() == 0 {
        assert(links =~= entries.filter(keep).map_values(name));
    } else {
        let front = entries.drop_last();
        law_every_link_counts(front);
        assert(links =~= entries.filter(keep).map_values(name));
        assert forall|i: int| 0 <= i < entries.len() && (
        #[trigger] entries[i]).is_symlink implies links.contains(entries[i].name@) by {
            if i < front.len() {
                assert(front[i] == entries[i]);
                assert(link_names(front).contains(front[i].name@));
                let k = choose|k: int|
                    0 <= k < link_names(front).len() && link_names(front)[k] == front[i].name@;
                assert(links[k] == front[i].name@);
            } else {
                assert(links[links.len() - 1] == entries[i].name@);
            }
        }
    }
}

/// Filtering a sequence and taking it as a multiset can be exchanged.
proof fn lemma_filter_of_multiset<A>(s: Seq<A>, keep: spec_fn(A) -> bool)
    ensures
        s.filter(keep).to_multiset() == s.to_multiset().filter(keep),
    decreases s.len(),
{
    broadcast use vstd::multiset::group_multiset_axioms;
    broadcast use group_to_multiset_ensures;

    reveal(Seq::filter);
    if s.len() == 0 {
        assert(s.filter(keep).to_multiset() =~= s.to_multiset().filter(keep));
    } else {
        let front = s.drop_last();
        lemma_filter_of_multiset(front, keep);
        assert(s =~= front.push(s.last()));
        assert(s.to_multiset() =~= front.to_multiset().insert(s.last()));
        assert(s.filter(keep).to_multiset() =~= s.to_multiset().filter(keep));
    }
}

/// How many elements a filter keeps does not depend on their order.
proof fn lemma_filter_len_of_multiset<A>(s: Seq<A>, t: Seq<A>, keep: spec_fn(A) -> bool)
    requires
        s.to_multiset() == t.to_multiset(),
    ensures
        s.filter(keep).len() == t.filter(keep).len(),
{
    broadcast use group_to_multiset_ensures;

    lemma_filter_of_multiset(s, keep);
    lemma_filter_of_multiset(t, keep);
    assert(s.filter(keep).len() == s.filter(keep).to_multiset().len());
    assert(t.filter(keep).len() == t.filter(keep).to_multiset().len());
}

/// The device of an rng is the link that has as many links before it as the
/// index of the rng says, counting equal names in either way; an rng without
/// an index counts as one with index zero. There is a device exactly if the
/// index is less than the number of links.
pub proof fn law_index_counts_links(rng_name: Seq<char>, entries: Seq<DirEntry>, index: nat)
    requires
        match naming::trailing_index(rng_name) {
            Some(i) => index == i,
            None => index == 0,
        },
    ensures
        ({
            let links = entries.filter(|e: DirEntry| e.is_symlink).map_values(
                |e: DirEntry| e.name@,
            );
            &&& device_name(rng_name, entries) is Some <==> index < links.len()
            &&& device_name(rng_name, entries) matches Some(device) ==> {
                &&& links.contains(device)
                &&& links.filter(|n: Seq<u8>| name_le(n, device) && n != device).len() <= index
                &&& index < links.filter(|n: Seq<u8>| name_le(n, device)).len()
            }
        }),
{
    law_every_link_counts(entries);
    law_device_is_a_link(rng_name, entries);
    let links = link_names(entries);
    let sorted = links.sort_by(name_order());
    law_name_order_is_total();
    links.lemma_sort_by_ensures(name_order());
    if let Some(device) = device_name(rng_name, entries) {
        let k = index as int;
        let before = |n: Seq<u8>| name_le(n, device) && n != device;
        let upto = |n: Seq<u8>| name_le(n, device);
        lemma_filter_len_of_multiset(links, sorted, before);
        lemma_filter_len_of_multiset(links, sorted, upto);
        let leq = name_order();
        let front = sorted.take(k);
        let back = sorted.skip(k);
        assert(front + back =~= sorted);
        Seq::filter_distributes_over_add(front, back, before);
        assert forall|i: int| 0 <= i < back.len() implies !before(#[trigger] back[i]) by {
            if i > 0 {
                assert(leq(sorted[k], sorted[k + i]));
                if name_le(back[i], device) {
                    lemma_name_le_antisymmetric(back[i], device);
                }
            }
        }
        back.lemma_all_neg_filter_empty(before);
        front.lemma_filter_len(before);
        let head = sorted.take(k + 1);
        let rest = sorted.skip(k + 1);
        assert(head + rest =~= sorted);
        Seq::filter_distributes_over_add(head, rest, upto);
        assert forall|i: int| 0 <= i < head.len() implies upto(#[trigger] head[i]) by {
            if i < k {
                assert(leq(sorted[i], sorted[k]));
            } else {
                lemma_name_le_reflexive(device);
            }
        }
        text::lemma_filter_keeps_all(head, upto);
    }
}

} // verus!
