//! Relating the names of rngs to the names of the drivers behind them.
//!
//! An rng and its driver rarely carry the same name: `virtio_rng.0` belongs to
//! the driver `virtio_rng`, `bcm2835` to `bcm2835-rng`. Both are reduced to a
//! common root, and the trailing index of the rng's name tells which of the
//! driver's devices it is.

use vstd::arithmetic::power::*;
use vstd::prelude::*;

use crate::text;
use crate::text::{chars_of, find_after_last, string_of};

verus! {

/// `c` in lower case, if it is an ASCII letter.
pub open spec fn lower(c: char) -> char {
    if 'A' <= c <= 'Z' {
        ((c as u8) + 32) as u8 as char
    } else {
        c
    }
}

/// `c` in lower case, with `_` and `.` taken as dashes.
pub open spec fn canonical_char(c: char) -> char {
    if c == '_' || c == '.' {
        '-'
    } else {
        lower(c)
    }
}

/// `s` in lower case, with every `_` and `.` replaced by a dash.
pub open spec fn canonical(s: Seq<char>) -> Seq<char> {
    Seq::new(s.len(), |i: int| canonical_char(s[i]))
}

/// Whether `c` is an ASCII digit.
pub open spec fn is_digit(c: char) -> bool {
    '0' <= c <= '9'
}

/// Whether `s` consists of ASCII digits.
pub open spec fn all_digits(s: Seq<char>) -> bool {
    forall|i: int| 0 <= i < s.len() ==> is_digit(#[trigger] s[i])
}

/// What follows the last dash of `s`; all of `s` if it has none.
pub open spec fn after_dash(s: Seq<char>) -> Seq<char> {
    text::after_last(s, seq!['-'])
}

/// `s` without its last dash and the digits that follow it, if digits and
/// nothing else follow it and something stands before it.
pub open spec fn without_index(s: Seq<char>) -> Seq<char> {
    let tail = after_dash(s);
    if tail.len() + 1 < s.len() && all_digits(tail) {
        s.take(s.len() - tail.len() - 1)
    } else {
        s
    }
}

/// The suffix `-trng`.
pub open spec fn trng_suffix() -> Seq<char> {
    seq!['-', 't', 'r', 'n', 'g']
}

/// The suffix `-hwrng`.
pub open spec fn hwrng_suffix() -> Seq<char> {
    seq!['-', 'h', 'w', 'r', 'n', 'g']
}

/// The suffix `-rng`.
pub open spec fn rng_suffix() -> Seq<char> {
    seq!['-', 'r', 'n', 'g']
}

/// The length of the suffix `-trng`, `-hwrng` or `-rng` that `s` ends in;
/// zero if it ends in none of them.
pub open spec fn kind_len(s: Seq<char>) -> nat {
    if trng_suffix().is_suffix_of(s) {
        trng_suffix().len()
    } else if hwrng_suffix().is_suffix_of(s) {
        hwrng_suffix().len()
    } else if rng_suffix().is_suffix_of(s) {
        rng_suffix().len()
    } else {
        0
    }
}

/// `s` without the suffixes `-trng`, `-hwrng` and `-rng`, however many there
/// are.
pub open spec fn without_kind(s: Seq<char>) -> Seq<char>
    decreases s.len(),
{
    if 0 < kind_len(s) <= s.len() {
        without_kind(s.take(s.len() - kind_len(s)))
    } else {
        s
    }
}

/// The root that an rng's name and its driver's name have in common.
pub open spec fn root(s: Seq<char>) -> Seq<char> {
    without_kind(without_index(canonical(s)))
}

fn canonical_char_of(c: char) -> (r: char)
    ensures
        r == canonical_char(c),
{
    if c == '_' || c == '.' {
        '-'
    } else if 'A' <= c && c <= 'Z' {
        ((c as u8) + 32) as char
    } else {
        c
    }
}

/// Tells whether all characters from `from` on are digits.
fn digits_from(s: &[char], from: usize) -> (r: bool)
    requires
        from <= s@.len(),
    ensures
        r == all_digits(s@.skip(from as int)),
{
    let ghost tail = s@.skip(from as int);
    for i in from..s.len()
        invariant
            tail == s@.skip(from as int),
            from <= s@.len(),
            forall|j: int| 0 <= j < i - from ==> is_digit(#[trigger] tail[j]),
    {
        let c = s[i];
        assert(tail[i - from] == c);
        if !('0' <= c && c <= '9') {
            return false;
        }
    }
    true
}

fn ends_with(s: &[char], suffix: &[char]) -> (r: bool)
    ensures
        r == suffix@.is_suffix_of(s@),
{
    if suffix.len() > s.len() {
        return false;
    }
    let len: usize = s.len();
    let offset: usize = len - suffix.len();
    for i in 0..suffix.len()
        invariant
            len == s@.len(),
            offset == len - suffix@.len(),
            forall|j: int| 0 <= j < i ==> #[trigger] suffix@[j] == s@[offset + j],
    {
        if s[offset + i] != suffix[i] {
            assert(s@.subrange(offset as int, s@.len() as int)[i as int] == s@[offset + i]);
            return false;
        }
    }
    assert(suffix@ =~= s@.subrange(offset as int, s@.len() as int));
    true
}

fn kind_len_of(s: &[char]) -> (r: usize)
    ensures
        r == kind_len(s@),
        r <= s@.len(),
{
    let trng: [char; 5] = ['-', 't', 'r', 'n', 'g'];
    let hwrng: [char; 6] = ['-', 'h', 'w', 'r', 'n', 'g'];
    let rng: [char; 4] = ['-', 'r', 'n', 'g'];
    assert(trng@ =~= trng_suffix());
    assert(hwrng@ =~= hwrng_suffix());
    assert(rng@ =~= rng_suffix());
    if ends_with(s, &trng) {
        5
    } else if ends_with(s, &hwrng) {
        6
    } else if ends_with(s, &rng) {
        4
    } else {
        0
    }
}

/// The root that an rng's name and its driver's name have in common: the name
/// in lower case, with dashes as its only separators, without a trailing
/// index and without the suffixes `-trng`, `-hwrng` and `-rng`.
pub fn normalize_root(s: &str) -> (r: String)
    ensures
        r@ == root(s@),
{
    let chars = chars_of(s);
    let mut out: Vec<char> = Vec::new();
    for i in 0..chars.len()
        invariant
            chars@ == s@,
            out@ == canonical(s@.take(i as int)),
    {
        out.push(canonical_char_of(chars[i]));
        assert(out@ =~= canonical(s@.take(i + 1)));
    }
    assert(s@.take(s@.len() as int) =~= s@);
    let dashes: [char; 1] = ['-'];
    assert(dashes@ =~= seq!['-']);
    let from: usize = find_after_last(out.as_slice(), out.len(), &dashes);
    proof {
        assert(out@.take(out@.len() as int) =~= out@);
        assert(out@.subrange(from as int, out@.len() as int) =~= out@.skip(from as int));
    }
    if from > 1 && digits_from(out.as_slice(), from) {
        out.truncate(from - 1);
        assert(out@ =~= canonical(s@).take(from - 1));
    }
    assert(out@ == without_index(canonical(s@)));
    loop
        invariant
            without_kind(out@) == root(s@),
        decreases out@.len(),
    {
        let ghost before = out@;
        let kind: usize = kind_len_of(out.as_slice());
        if kind == 0 {
            return string_of(out.as_slice());
        }
        let len: usize = out.len();
        out.truncate(len - kind);
        assert(out@ =~= before.take(len - kind));
    }
}

/// What follows the last dot or dash of `s`; all of `s` if it has neither.
pub open spec fn trailing_part(s: Seq<char>) -> Seq<char> {
    text::after_last(s, seq!['.', '-'])
}

/// The number that a sequence of digits denotes.
pub open spec fn decimal(s: Seq<char>) -> nat
    decreases s.len(),
{
    if s.len() == 0 {
        0
    } else {
        decimal(s.drop_last()) * 10 + (s.last() as nat - '0' as nat) as nat
    }
}

/// The index that a name ends in, if there is one and a `usize` can hold it.
pub open spec fn trailing_index(s: Seq<char>) -> Option<usize> {
    let part = trailing_part(s);
    if part.len() > 0 && all_digits(part) && decimal(part) <= usize::MAX {
        Some(decimal(part) as usize)
    } else {
        None
    }
}

/// Further digits make a number no smaller.
proof fn lemma_decimal_grows(s: Seq<char>, k: int)
    requires
        0 <= k <= s.len(),
        all_digits(s),
    ensures
        decimal(s.take(k)) <= decimal(s),
    decreases s.len(),
{
    if k == s.len() {
        assert(s.take(k) =~= s);
    } else {
        assert(s.drop_last().take(k) =~= s.take(k));
        assert(all_digits(s.drop_last())) by {
            assert forall|i: int| 0 <= i < s.drop_last().len() implies is_digit(
                #[trigger] s.drop_last()[i],
            ) by {
                assert(s.drop_last()[i] == s[i]);
            }
        }
        lemma_decimal_grows(s.drop_last(), k);
    }
}

/// The number after the last dot or dash of a name.
pub fn parse_trailing_index(s: &str) -> (r: Option<usize>)
    ensures
        r == trailing_index(s@),
{
    let chars = chars_of(s);
    let separators: [char; 2] = ['.', '-'];
    assert(separators@ =~= seq!['.', '-']);
    let from: usize = find_after_last(chars.as_slice(), chars.len(), &separators);
    assert(s@.take(s@.len() as int) =~= s@);
    let ghost part = s@.skip(from as int);
    assert(trailing_part(s@) =~= part);
    if from == chars.len() || !digits_from(chars.as_slice(), from) {
        return None;
    }
    let mut value: usize = 0;
    assert(part.take(0) =~= Seq::empty());
    for i in from..chars.len()
        invariant
            chars@ == s@,
            part == s@.skip(from as int),
            from <= i,
            part == trailing_part(s@),
            part.len() > 0,
            all_digits(part),
            value == decimal(part.take(i - from)),
    {
        let c = chars[i];
        assert(part[i - from] == c);
        let digit: usize = (c as u32 - '0' as u32) as usize;
        proof {
            assert(part.take(i - from + 1).drop_last() =~= part.take(i - from));
            lemma_decimal_grows(part, i - from + 1);
        }
        match value.checked_mul(10) {
            None => {
                return None;
            },
            Some(tens) => match tens.checked_add(digit) {
                None => {
                    return None;
                },
                Some(sum) => {
                    value = sum;
                },
            },
        }
    }
    assert(part.take(part.len() as int) =~= part);
    Some(value)
}

/// Neither a dash nor a dot is a digit.
proof fn lemma_digits_do_not_separate(s: Seq<char>)
    requires
        all_digits(s),
    ensures
        forall|i: int| 0 <= i < s.len() ==> !seq!['-'].contains(#[trigger] s[i]),
        forall|i: int| 0 <= i < s.len() ==> !seq!['.', '-'].contains(#[trigger] s[i]),
{
    assert forall|i: int| 0 <= i < s.len() implies !seq!['-'].contains(#[trigger] s[i])
        && !seq!['.', '-'].contains(s[i]) by {
        assert(is_digit(s[i]));
    }
}

proof fn lemma_canonical_of_sum(a: Seq<char>, b: Seq<char>)
    ensures
        canonical(a + b) == canonical(a) + canonical(b),
{
    assert(canonical(a + b) =~= canonical(a) + canonical(b));
}

proof fn lemma_canonical_twice(s: Seq<char>)
    ensures
        canonical(canonical(s)) == canonical(s),
{
    assert(canonical(canonical(s)) =~= canonical(s));
}

/// Removing suffixes leaves a prefix.
proof fn lemma_without_kind_is_prefix(s: Seq<char>)
    ensures
        without_kind(s).len() <= s.len(),
        without_kind(s) == s.take(without_kind(s).len() as int),
    decreases s.len(),
{
    let cut = kind_len(s);
    if 0 < cut <= s.len() {
        let shorter = s.take(s.len() - cut);
        lemma_without_kind_is_prefix(shorter);
        let n = without_kind(shorter).len() as int;
        assert(shorter.take(n) =~= s.take(n));
    } else {
        assert(s.take(s.len() as int) =~= s);
    }
}

/// The root of a name depends neither on the case of its ASCII letters nor on
/// which of `-`, `_` and `.` separates its parts.
pub proof fn law_root_ignores_spelling(s: Seq<char>, t: Seq<char>)
    requires
        canonical(s) == canonical(t),
    ensures
        root(s) == root(t),
{
}

/// A root is in lower case and has dashes as its only separators.
pub proof fn law_root_is_canonical(s: Seq<char>)
    ensures
        canonical(root(s)) == root(s),
{
    let c = canonical(s);
    let w = without_index(c);
    lemma_canonical_twice(s);
    lemma_without_kind_is_prefix(w);
    assert forall|i: int| 0 <= i < root(s).len() implies #[trigger] canonical(root(s))[i] == root(
        s,
    )[i] by {
        assert(root(s)[i] == w[i]);
        assert(w[i] == c[i]);
        assert(canonical(c)[i] == c[i]);
    }
    assert(canonical(root(s)) =~= root(s));
}

/// A root does not end in `-trng`, `-hwrng` or `-rng`.
pub proof fn law_root_has_no_kind(s: Seq<char>)
    ensures
        !trng_suffix().is_suffix_of(root(s)),
        !hwrng_suffix().is_suffix_of(root(s)),
        !rng_suffix().is_suffix_of(root(s)),
{
    lemma_without_kind_is_done(without_index(canonical(s)));
}

proof fn lemma_without_kind_is_done(s: Seq<char>)
    ensures
        kind_len(without_kind(s)) == 0,
        without_kind(without_kind(s)) == without_kind(s),
    decreases s.len(),
{
    if 0 < kind_len(s) <= s.len() {
        lemma_without_kind_is_done(s.take(s.len() - kind_len(s)));
    }
}

/// A root that ends in no index of its own is its own root.
pub proof fn law_root_is_stable(s: Seq<char>)
    requires
        without_index(root(s)) == root(s),
    ensures
        root(root(s)) == root(s),
{
    law_root_is_canonical(s);
    lemma_without_kind_is_done(without_index(canonical(s)));
}

/// An index at the end of a name does not show in its root: an rng that is
/// named after its driver, with a number behind a dot, a dash or an
/// underscore, has the driver's root. The driver's own name must not end in
/// an index.
pub proof fn law_root_ignores_index(name: Seq<char>, separator: char, index: Seq<char>)
    requires
        name.len() > 0,
        separator == '.' || separator == '-' || separator == '_',
        all_digits(index),
        without_index(canonical(name)) == canonical(name),
    ensures
        root(name.push(separator) + index) == root(name),
{
    let whole = canonical(name.push(separator) + index);
    lemma_canonical_of_sum(name.push(separator), index);
    assert(canonical(name.push(separator)) =~= canonical(name).push('-'));
    assert(canonical(index) =~= index) by {
        assert forall|i: int| 0 <= i < index.len() implies canonical(index)[i] == index[i] by {
            assert(is_digit(index[i]));
        }
    }
    lemma_digits_do_not_separate(index);
    assert(seq!['-'][0] == '-');
    text::lemma_after_last(canonical(name).push('-'), index, seq!['-']);
    assert(whole.take(whole.len() - index.len() - 1) =~= canonical(name));
}

/// A suffix `-rng`, `-trng` or `-hwrng`, in any spelling, does not show in
/// the root of a name. What stands before it must not end in an index.
pub proof fn law_root_ignores_kind(name: Seq<char>, kind: Seq<char>)
    requires
        canonical(kind) == rng_suffix() || canonical(kind) == trng_suffix() || canonical(kind)
            == hwrng_suffix(),
        without_index(canonical(name)) == canonical(name),
    ensures
        root(name + kind) == root(name),
{
    let front = canonical(name);
    let suffix = canonical(kind);
    let whole = canonical(name + kind);
    lemma_canonical_of_sum(name, kind);
    let tail = suffix.drop_first();
    assert(whole =~= front.push('-') + tail);
    assert(seq!['-'][0] == '-');
    text::lemma_after_last(front.push('-'), tail, seq!['-']);
    assert(!is_digit(tail.last()));
    assert(tail[tail.len() - 1] == tail.last());
    assert(without_index(whole) == whole);
    assert(whole.subrange(whole.len() - suffix.len(), whole.len() as int) =~= suffix);
    assert(suffix.is_suffix_of(whole));
    let n = whole.len() as int;
    assert(whole[n - 1] == suffix[suffix.len() - 1]);
    assert(whole[n - 4] == suffix[suffix.len() - 4]);
    let cut = whole.take(n - suffix.len());
    assert(cut =~= front);
    if suffix != trng_suffix() && trng_suffix().is_suffix_of(whole) {
        assert(whole.subrange(n - 5, n)[1] == trng_suffix()[1]);
    }
    if suffix != hwrng_suffix() && hwrng_suffix().is_suffix_of(whole) {
        assert(whole.subrange(n - 6, n)[2] == hwrng_suffix()[2]);
    }
    assert(kind_len(whole) == suffix.len());
    assert(without_kind(whole) == without_kind(front));
}

/// Whatever stands before it, a number behind a dot or a dash is the index of
/// the name, as long as a `usize` can hold it.
pub proof fn law_index_is_read(front: Seq<char>, separator: char, number: Seq<char>)
    requires
        separator == '.' || separator == '-',
        number.len() > 0,
        all_digits(number),
    ensures
        trailing_index(front.push(separator) + number) == (if decimal(number) <= usize::MAX {
            Some(decimal(number) as usize)
        } else {
            None
        }),
{
    lemma_digits_do_not_separate(number);
    assert(seq!['.', '-'][0] == '.' && seq!['.', '-'][1] == '-');
    text::lemma_after_last(front.push(separator), number, seq!['.', '-']);
}

/// Digits are the characters from `0` to `9`.
pub proof fn law_digits(s: Seq<char>)
    ensures
        all_digits(s) <==> forall|i: int| 0 <= i < s.len() ==> '0' <= #[trigger] s[i] <= '9',
{
    if forall|i: int| 0 <= i < s.len() ==> '0' <= #[trigger] s[i] <= '9' {
        assert forall|i: int| 0 <= i < s.len() implies is_digit(#[trigger] s[i]) by {}
    }
    if all_digits(s) {
        assert forall|i: int| 0 <= i < s.len() implies '0' <= #[trigger] s[i] <= '9' by {
            assert(is_digit(s[i]));
        }
    }
}

/// Spelling a name canonically changes it character by character: `_` and `.`
/// become dashes, capital ASCII letters become the small letters, which lie 32
/// places further on, and all else stays.
pub proof fn law_canonical(s: Seq<char>, i: int)
    requires
        0 <= i < s.len(),
    ensures
        canonical(s).len() == s.len(),
        s[i] == '_' || s[i] == '.' ==> canonical(s)[i] == '-',
        'A' <= s[i] <= 'Z' ==> canonical(s)[i] as int == s[i] as int + 32,
        s[i] != '_' && s[i] != '.' && !('A' <= s[i] <= 'Z') ==> canonical(s)[i] == s[i],
{
}

/// A name that ends neither in a digit nor in a dash ends in no index.
proof fn lemma_no_index(s: Seq<char>)
    requires
        s.len() > 0,
        !is_digit(s.last()),
        s.last() != '-',
    ensures
        without_index(s) == s,
{
    text::law_after_last_is_longest(s, seq!['-']);
    let tail = after_dash(s);
    if tail.len() == 0 {
        assert(seq!['-'].contains(s[s.len() - 1]));
    } else {
        assert(tail[tail.len() - 1] == s.last());
    }
}

/// A kind at the end is removed, whatever stands before it.
proof fn lemma_kind_is_removed(front: Seq<char>, suffix: Seq<char>)
    requires
        suffix == rng_suffix() || suffix == trng_suffix() || suffix == hwrng_suffix(),
    ensures
        without_kind(front + suffix) == without_kind(front),
{
    let whole = front + suffix;
    let n = whole.len() as int;
    assert(whole.subrange(n - suffix.len(), n) =~= suffix);
    assert(suffix.is_suffix_of(whole));
    assert(whole[n - 4] == suffix[suffix.len() - 4]);
    if suffix != trng_suffix() && trng_suffix().is_suffix_of(whole) {
        assert(whole.subrange(n - 5, n)[1] == trng_suffix()[1]);
    }
    if suffix != hwrng_suffix() && hwrng_suffix().is_suffix_of(whole) {
        assert(whole.subrange(n - 6, n)[2] == hwrng_suffix()[2]);
    }
    assert(kind_len(whole) == suffix.len());
    assert(whole.take(n - suffix.len()) =~= front);
}

/// Whether each of the given texts is one of the suffixes `-rng`, `-trng` and
/// `-hwrng`, in any spelling.
spec fn are_kinds(kinds: Seq<Seq<char>>) -> bool {
    forall|i: int|
        0 <= i < kinds.len() ==> canonical(#[trigger] kinds[i]) == "-rng"@ || canonical(kinds[i])
            == "-trng"@ || canonical(kinds[i]) == "-hwrng"@
}

proof fn lemma_suffix_texts()
    ensures
        "-rng"@ == rng_suffix(),
        "-trng"@ == trng_suffix(),
        "-hwrng"@ == hwrng_suffix(),
{
    reveal_strlit("-rng");
    reveal_strlit("-trng");
    reveal_strlit("-hwrng");
    assert("-rng"@ =~= rng_suffix());
    assert("-trng"@ =~= trng_suffix());
    assert("-hwrng"@ =~= hwrng_suffix());
}

proof fn lemma_kinds_are_removed(base: Seq<char>, kinds: Seq<Seq<char>>)
    requires
        are_kinds(kinds),
    ensures
        without_kind(canonical(base + kinds.flatten())) == without_kind(canonical(base)),
        kinds.len() > 0 ==> (base + kinds.flatten()).len() > 0 && canonical(
            base + kinds.flatten(),
        ).last() == 'g',
    decreases kinds.len(),
{
    lemma_suffix_texts();
    if kinds.len() == 0 {
        assert(base + kinds.flatten() =~= base);
    } else {
        let first = kinds[0];
        let rest = kinds.drop_first();
        assert forall|i: int| 0 <= i < rest.len() implies canonical(#[trigger] rest[i]) == "-rng"@
            || canonical(rest[i]) == "-trng"@ || canonical(rest[i]) == "-hwrng"@ by {
            assert(rest[i] == kinds[i + 1]);
        }
        assert(canonical(kinds[0]) == "-rng"@ || canonical(kinds[0]) == "-trng"@ || canonical(
            kinds[0],
        ) == "-hwrng"@);
        lemma_kinds_are_removed(base + first, rest);
        assert(base + kinds.flatten() =~= (base + first) + rest.flatten());
        lemma_canonical_of_sum(base, first);
        lemma_kind_is_removed(canonical(base), canonical(first));
        if rest.len() == 0 {
            assert((base + first) + rest.flatten() =~= base + first);
            assert(canonical(base + first).last() == canonical(first).last());
        }
    }
}

/// The root of a name with an index: whatever follows `-`, `_` or `.` is
/// dropped if it is a number or nothing, then all of the suffixes `-rng`,
/// `-trng` and `-hwrng`, and what is left is kept, spelled canonically.
pub proof fn law_root_of_indexed(
    base: Seq<char>,
    kinds: Seq<Seq<char>>,
    separator: char,
    index: Seq<char>,
)
    requires
        forall|i: int|
            0 <= i < kinds.len() ==> canonical(#[trigger] kinds[i]) == "-rng"@ || canonical(
                kinds[i],
            ) == "-trng"@ || canonical(kinds[i]) == "-hwrng"@,
        base.len() > 0 || kinds.len() > 0,
        separator == '.' || separator == '-' || separator == '_',
        forall|i: int| 0 <= i < index.len() ==> '0' <= #[trigger] index[i] <= '9',
        !"-rng"@.is_suffix_of(canonical(base)),
        !"-trng"@.is_suffix_of(canonical(base)),
        !"-hwrng"@.is_suffix_of(canonical(base)),
    ensures
        root((base + kinds.flatten()).push(separator) + index) == canonical(base),
{
    lemma_suffix_texts();
    law_digits(index);
    let name = base + kinds.flatten();
    lemma_kinds_are_removed(base, kinds);
    let whole = canonical(name.push(separator) + index);
    lemma_canonical_of_sum(name.push(separator), index);
    assert(canonical(name.push(separator)) =~= canonical(name).push('-'));
    assert(canonical(index) =~= index) by {
        assert forall|i: int| 0 <= i < index.len() implies canonical(index)[i] == index[i] by {
            assert(is_digit(index[i]));
        }
    }
    lemma_digits_do_not_separate(index);
    assert(seq!['-'][0] == '-');
    text::lemma_after_last(canonical(name).push('-'), index, seq!['-']);
    assert(whole.take(whole.len() - index.len() - 1) =~= canonical(name));
    assert(without_index(whole) == canonical(name));
    assert(kind_len(canonical(base)) == 0);
}

/// The root of a name without an index: all of the suffixes `-rng`, `-trng`
/// and `-hwrng` are dropped, and what is left is kept, spelled canonically.
pub proof fn law_root_of_plain(base: Seq<char>, kinds: Seq<Seq<char>>)
    requires
        forall|i: int|
            0 <= i < kinds.len() ==> canonical(#[trigger] kinds[i]) == "-rng"@ || canonical(
                kinds[i],
            ) == "-trng"@ || canonical(kinds[i]) == "-hwrng"@,
        kinds.len() > 0 || forall|i: int|
            0 < i < base.len() && #[trigger] canonical(base)[i] == '-' ==> exists|j: int|
                i < j < base.len() && !('0' <= #[trigger] canonical(base)[j] <= '9'),
        !"-rng"@.is_suffix_of(canonical(base)),
        !"-trng"@.is_suffix_of(canonical(base)),
        !"-hwrng"@.is_suffix_of(canonical(base)),
    ensures
        root(base + kinds.flatten()) == canonical(base),
{
    lemma_suffix_texts();
    let name = base + kinds.flatten();
    let whole = canonical(name);
    lemma_kinds_are_removed(base, kinds);
    if kinds.len() > 0 {
        lemma_no_index(whole);
    } else {
        assert(name =~= base);
        text::law_after_last_is_longest(whole, seq!['-']);
        let tail = after_dash(whole);
        if tail.len() + 1 < whole.len() && all_digits(tail) {
            let i = whole.len() - tail.len() - 1;
            assert(seq!['-'].contains(whole[i]));
            assert(whole[i] == '-');
            let j = choose|j: int|
                i < j < base.len() && !('0' <= #[trigger] canonical(base)[j] <= '9');
            assert(tail[j - i - 1] == whole[j]);
            assert(is_digit(tail[j - i - 1]));
        }
    }
    assert(without_index(whole) == whole);
    assert(kind_len(canonical(base)) == 0);
}

/// A run of digits denotes the number that it is in the decimal system.
pub proof fn law_decimal_is_positional(a: Seq<char>, b: Seq<char>, c: char)
    requires
        '0' <= c <= '9',
    ensures
        decimal(Seq::empty()) == 0,
        decimal(seq![c]) == c as int - 48,
        decimal(a + b) == decimal(a) * pow(10, b.len()) + decimal(b),
    decreases b.len(),
{
    assert(seq![c].drop_last() =~= Seq::empty());
    assert(decimal(seq![c]) == c as int - 48) by {
        assert(decimal(seq![c].drop_last()) == 0);
    }
    reveal(pow);
    if b.len() == 0 {
        assert(a + b =~= a);
    } else {
        let front = b.drop_last();
        law_decimal_is_positional(a, front, c);
        assert((a + b).drop_last() =~= a + front);
        assert((a + b).last() == b.last());
        let x = decimal(a) as int;
        let p = pow(10, front.len());
        assert(pow(10, b.len()) == 10 * p);
        assert(x * p * 10 == x * (10 * p)) by (nonlinear_arith);
    }
}

/// The index of a name is the whole run of digits at its end, if there is one
/// and it makes up the name or follows a dot or a dash, and if a `usize` can
/// hold it. Otherwise there is no index.
pub proof fn law_index_is_the_last_part(front: Seq<char>, number: Seq<char>)
    requires
        front.len() > 0 ==> !('0' <= front.last() <= '9'),
        forall|i: int| 0 <= i < number.len() ==> '0' <= #[trigger] number[i] <= '9',
    ensures
        trailing_index(front + number) == (if number.len() > 0 && (front.len() == 0 || front.last()
            == '.' || front.last() == '-') && decimal(number) <= usize::MAX {
            Some(decimal(number) as usize)
        } else {
            None
        }),
{
    let separators = seq!['.', '-'];
    let whole = front + number;
    let part = trailing_part(whole);
    law_digits(number);
    lemma_digits_do_not_separate(number);
    assert(separators[0] == '.' && separators[1] == '-');
    if front.len() == 0 || front.last() == '.' || front.last() == '-' {
        text::lemma_after_last(front, number, separators);
    } else {
        text::law_after_last_is_longest(whole, separators);
        let k = whole.len() - part.len();
        assert(whole[front.len() - 1] == front.last());
        if part.len() <= number.len() {
            assert(separators.contains(whole[k - 1]));
            if part.len() < number.len() {
                assert(whole[k - 1] == number[k - 1 - front.len()]);
            }
        } else {
            assert(part[front.len() - 1 - k] == front.last());
            assert(!is_digit(part[front.len() - 1 - k]));
        }
    }
}

} // verus!
