//! Text as sequences of characters: words, trimming, joining and searching.

use vstd::prelude::*;
use vstd::string::StringExecFns;
use vstd::string::StrSliceExecFns;

verus! {

/// `String::push` appends the given character to the end of the string.
pub assume_specification[ String::push ](s: &mut String, c: char)
    ensures
        final(s)@ == old(s)@.push(c),
;

/// Whether `c` has the Unicode `White_Space` property.
pub open spec fn is_white_space(c: char) -> bool {
    let n = c as u32;
    ||| 0x09 <= n <= 0x0d
    ||| n == 0x20
    ||| n == 0x85
    ||| n == 0xa0
    ||| n == 0x1680
    ||| 0x2000 <= n <= 0x200a
    ||| n == 0x2028
    ||| n == 0x2029
    ||| n == 0x202f
    ||| n == 0x205f
    ||| n == 0x3000
}

/// Tells whether `c` has the Unicode `White_Space` property.
pub fn white_space(c: char) -> (r: bool)
    ensures
        r == is_white_space(c),
{
    let n: u32 = c as u32;
    (0x09 <= n && n <= 0x0d) || n == 0x20 || n == 0x85 || n == 0xa0 || n == 0x1680 || (0x2000 <= n
        && n <= 0x200a) || n == 0x2028 || n == 0x2029 || n == 0x202f || n == 0x205f || n == 0x3000
}

/// The characters of a string.
pub(crate) fn chars_of(s: &str) -> (r: Vec<char>)
    ensures
        r@ == s@,
{
    let mut out: Vec<char> = Vec::new();
    for c in it: s.chars()
        invariant
            out@ == s@.take(it.index() as int),
            it.seq() == s@,
    {
        out.push(c);
        assert(out@ =~= s@.take(it.index() as int + 1));
    }
    assert(s@.take(s@.len() as int) =~= s@);
    out
}

/// The string that holds the given characters.
pub(crate) fn string_of(chars: &[char]) -> (r: String)
    ensures
        r@ == chars@,
{
    let mut out = String::new();
    for i in 0..chars.len()
        invariant
            out@ == chars@.take(i as int),
    {
        out.push(chars[i]);
        assert(out@ =~= chars@.take(i + 1));
    }
    assert(chars@.take(chars@.len() as int) =~= chars@);
    out
}

/// Tells whether two strings hold the same characters.
pub fn same(a: &str, b: &str) -> (r: bool)
    ensures
        r == (a@ == b@),
{
    let mut xs = a.chars();
    let mut ys = b.chars();
    let ghost mut n: int = 0;
    assert(a@.skip(0) =~= a@);
    assert(b@.skip(0) =~= b@);
    loop
        invariant
            0 <= n <= a@.len(),
            n <= b@.len(),
            vstd::std_specs::iter::IteratorSpec::remaining(&xs) == a@.skip(n),
            vstd::std_specs::iter::IteratorSpec::remaining(&ys) == b@.skip(n),
            a@.take(n) == b@.take(n),
        decreases a@.len() - n,
    {
        let x = xs.next();
        let y = ys.next();
        match (x, y) {
            (Some(c), Some(d)) => {
                if c != d {
                    assert(a@[n] != b@[n]);
                    return false;
                }
                proof {
                    assert(a@.skip(n).drop_first() =~= a@.skip(n + 1));
                    assert(b@.skip(n).drop_first() =~= b@.skip(n + 1));
                    assert(a@.take(n + 1) =~= a@.take(n).push(a@[n]));
                    assert(b@.take(n + 1) =~= b@.take(n).push(b@[n]));
                    n = n + 1;
                }
            },
            (None, None) => {
                assert(a@.take(n) =~= a@);
                assert(b@.take(n) =~= b@);
                return true;
            },
            _ => {
                assert(a@.len() != b@.len());
                return false;
            },
        }
    }
}


/// Tells whether a string begins with the given prefix.
pub fn starts_with(s: &str, prefix: &str) -> (r: bool)
    ensures
        r == prefix@.is_prefix_of(s@),
{
    let mut xs = s.chars();
    let mut ps = prefix.chars();
    let ghost mut n: int = 0;
    assert(s@.skip(0) =~= s@);
    assert(prefix@.skip(0) =~= prefix@);
    loop
        invariant
            0 <= n <= prefix@.len(),
            n <= s@.len(),
            vstd::std_specs::iter::IteratorSpec::remaining(&xs) == s@.skip(n),
            vstd::std_specs::iter::IteratorSpec::remaining(&ps) == prefix@.skip(n),
            s@.take(n) == prefix@.take(n),
        decreases prefix@.len() - n,
    {
        match ps.next() {
            None => {
                assert(prefix@ =~= prefix@.take(n));
                assert(s@.subrange(0, n) =~= s@.take(n));
                return true;
            },
            Some(p) => {
                match xs.next() {
                    None => {
                        assert(prefix@.len() > s@.len());
                        return false;
                    },
                    Some(c) => {
                        if c != p {
                            assert(s@[n] != prefix@[n]);
                            return false;
                        }
                        proof {
                            assert(s@.skip(n).drop_first() =~= s@.skip(n + 1));
                            assert(prefix@.skip(n).drop_first() =~= prefix@.skip(n + 1));
                            assert(s@.take(n + 1) =~= s@.take(n).push(s@[n]));
                            assert(prefix@.take(n + 1) =~= prefix@.take(n).push(prefix@[n]));
                            n = n + 1;
                        }
                    },
                }
            },
        }
    }
}

/// The contents of a sequence of string slices.
pub open spec fn views(names: Seq<&str>) -> Seq<Seq<char>> {
    Seq::new(names.len(), |i: int| names[i]@)
}

/// The contents of a sequence of strings.
pub open spec fn contents(strings: Seq<String>) -> Seq<Seq<char>> {
    Seq::new(strings.len(), |i: int| strings[i]@)
}

/// The content of an optional string slice.
pub open spec fn view_of(s: Option<&str>) -> Option<Seq<char>> {
    match s {
        Some(t) => Some(t@),
        None => None,
    }
}

/// The content of an optional string.
pub open spec fn content_of(s: Option<String>) -> Option<Seq<char>> {
    match s {
        Some(t) => Some(t@),
        None => None,
    }
}

/// The length of the word that `s` begins with: its leading characters up to
/// the first white space.
pub open spec fn word_len(s: Seq<char>) -> nat
    decreases s.len(),
{
    if s.len() == 0 || is_white_space(s[0]) {
        0
    } else {
        1 + word_len(s.drop_first())
    }
}

/// The words of `s`: its maximal runs of characters other than white space,
/// in order.
pub open spec fn words(s: Seq<char>) -> Seq<Seq<char>>
    decreases s.len(),
{
    if s.len() == 0 {
        Seq::empty()
    } else if is_white_space(s[0]) {
        words(s.drop_first())
    } else {
        proof {
            lemma_word_len(s);
        }
        seq![s.take(word_len(s) as int)] + words(s.skip(word_len(s) as int))
    }
}

/// The word that `s` begins with is free of white space and ends at white
/// space or at the end of `s`.
pub proof fn lemma_word_len(s: Seq<char>)
    ensures
        word_len(s) <= s.len(),
        forall|i: int| 0 <= i < word_len(s) ==> !is_white_space(#[trigger] s[i]),
        word_len(s) < s.len() ==> is_white_space(s[word_len(s) as int]),
    decreases s.len(),
{
    if s.len() > 0 && !is_white_space(s[0]) {
        let t = s.drop_first();
        lemma_word_len(t);
        assert forall|i: int| 0 <= i < word_len(s) implies !is_white_space(#[trigger] s[i]) by {
            if i > 0 {
                assert(t[i - 1] == s[i]);
            }
        }
    }
}

/// The words of a text: its runs of characters other than white space, in
/// order.
pub fn split_whitespace<'a>(text: &'a str) -> (r: Vec<&'a str>)
    ensures
        views(r@) == words(text@),
{
    let chars = chars_of(text);
    let mut out: Vec<&'a str> = Vec::new();
    let mut i: usize = 0;
    assert(text@.skip(0) =~= text@);
    assert(views(out@) + words(text@) =~= words(text@));
    while i < chars.len()
        invariant
            chars@ == text@,
            i <= chars@.len(),
            words(text@) == views(out@) + words(text@.skip(i as int)),
        decreases chars@.len() - i,
    {
        let ghost rest = text@.skip(i as int);
        if white_space(chars[i]) {
            assert(rest.drop_first() =~= text@.skip(i + 1));
            i = i + 1;
        } else {
            let mut j: usize = i;
            while j < chars.len() && !white_space(chars[j])
                invariant
                    chars@ == text@,
                    rest == text@.skip(i as int),
                    i <= j <= chars@.len(),
                    word_len(rest) == (j - i) + word_len(text@.skip(j as int)),
                decreases chars@.len() - j,
            {
                assert(text@.skip(j as int).drop_first() =~= text@.skip(j + 1));
                j = j + 1;
            }
            let ghost before = views(out@);
            out.push(text.substring_char(i, j));
            proof {
                assert(word_len(rest) == j - i);
                assert(rest.take(j - i) =~= text@.subrange(i as int, j as int));
                assert(rest.skip(j - i) =~= text@.skip(j as int));
                assert(views(out@) =~= before.push(text@.subrange(i as int, j as int)));
                assert(before + (seq![rest.take(j - i)] + words(rest.skip(j - i))) =~= views(out@)
                    + words(text@.skip(j as int)));
            }
            i = j;
        }
    }
    assert(words(text@.skip(i as int)) =~= Seq::empty());
    assert(views(out@) + Seq::<Seq<char>>::empty() =~= views(out@));
    out
}

/// `s` without its leading white space.
pub open spec fn trim_start(s: Seq<char>) -> Seq<char>
    decreases s.len(),
{
    if s.len() > 0 && is_white_space(s[0]) {
        trim_start(s.drop_first())
    } else {
        s
    }
}

/// `s` without its trailing white space.
pub open spec fn trim_end(s: Seq<char>) -> Seq<char>
    decreases s.len(),
{
    if s.len() > 0 && is_white_space(s.last()) {
        trim_end(s.drop_last())
    } else {
        s
    }
}

/// `s` without its leading and trailing white space.
pub open spec fn trimmed(s: Seq<char>) -> Seq<char> {
    trim_end(trim_start(s))
}

/// The text without its leading and trailing white space.
pub fn trim(text: &str) -> (r: &str)
    ensures
        r@ == trimmed(text@),
{
    let chars = chars_of(text);
    let mut from: usize = 0;
    assert(text@.skip(0) =~= text@);
    while from < chars.len() && white_space(chars[from])
        invariant
            chars@ == text@,
            from <= chars@.len(),
            trim_start(text@) == trim_start(text@.skip(from as int)),
        decreases chars@.len() - from,
    {
        assert(text@.skip(from as int).drop_first() =~= text@.skip(from + 1));
        from = from + 1;
    }
    let mut to: usize = chars.len();
    assert(text@.subrange(from as int, to as int) =~= text@.skip(from as int));
    while from < to && white_space(chars[to - 1])
        invariant
            chars@ == text@,
            from <= to <= chars@.len(),
            trimmed(text@) == trim_end(text@.subrange(from as int, to as int)),
        decreases to - from,
    {
        assert(text@.subrange(from as int, to as int).drop_last() =~= text@.subrange(
            from as int,
            to - 1,
        ));
        to = to - 1;
    }
    text.substring_char(from, to)
}

/// The parts, one after another, with `separator` between neighbours.
pub open spec fn joined(parts: Seq<Seq<char>>, separator: Seq<char>) -> Seq<char>
    decreases parts.len(),
{
    if parts.len() == 0 {
        Seq::empty()
    } else if parts.len() == 1 {
        parts[0]
    } else {
        joined(parts.drop_last(), separator) + separator + parts.last()
    }
}

/// Joins string slices with `separator` between neighbours.
pub fn join(parts: &[&str], separator: &str) -> (r: String)
    ensures
        r@ == joined(views(parts@), separator@),
{
    let mut out = String::new();
    let ghost all = views(parts@);
    for i in 0..parts.len()
        invariant
            all == views(parts@),
            out@ == joined(all.take(i as int), separator@),
    {
        if i > 0 {
            out.append(separator);
        }
        out.append(parts[i]);
        proof {
            assert(all.take(i + 1).drop_last() =~= all.take(i as int));
            assert(all.take(i + 1).last() == parts@[i as int]@);
            if i == 0 {
                assert(Seq::<char>::empty() + parts@[0]@ =~= parts@[0]@);
            }
        }
    }
    assert(all.take(parts@.len() as int) =~= all);
    out
}

/// The strings as slices.
pub(crate) fn as_slices(strings: &[String]) -> (r: Vec<&str>)
    ensures
        views(r@) == contents(strings@),
{
    let mut out: Vec<&str> = Vec::new();
    for i in 0..strings.len()
        invariant
            out@.len() == i,
            forall|j: int| 0 <= j < i ==> #[trigger] out@[j]@ == strings@[j]@,
    {
        out.push(strings[i].as_str());
    }
    assert(views(out@) =~= contents(strings@));
    out
}

/// The position of the first `c` in `s`, or the length of `s` if there is
/// none.
pub open spec fn position(s: Seq<char>, c: char) -> nat
    decreases s.len(),
{
    if s.len() == 0 || s[0] == c {
        0
    } else {
        1 + position(s.drop_first(), c)
    }
}

/// The position of the first `c` in `s`, or the length of `s` if there is
/// none.
pub(crate) fn find_char(s: &[char], c: char) -> (r: usize)
    ensures
        r == position(s@, c),
        r <= s@.len(),
{
    let mut i: usize = 0;
    assert(s@.skip(0) =~= s@);
    while i < s.len() && s[i] != c
        invariant
            i <= s@.len(),
            position(s@, c) == i + position(s@.skip(i as int), c),
        decreases s@.len() - i,
    {
        assert(s@.skip(i as int).drop_first() =~= s@.skip(i + 1));
        i = i + 1;
    }
    i
}

/// What follows the last of the separators in `s`; all of `s` if it has none.
pub open spec fn after_last(s: Seq<char>, separators: Seq<char>) -> Seq<char>
    decreases s.len(),
{
    if s.len() == 0 || separators.contains(s.last()) {
        Seq::empty()
    } else {
        after_last(s.drop_last(), separators).push(s.last())
    }
}

/// A tail without separators is what follows the separator before it.
pub proof fn lemma_after_last(front: Seq<char>, tail: Seq<char>, separators: Seq<char>)
    requires
        front.len() > 0 ==> separators.contains(front.last()),
        forall|i: int| 0 <= i < tail.len() ==> !separators.contains(#[trigger] tail[i]),
    ensures
        after_last(front + tail, separators) == tail,
    decreases tail.len(),
{
    let s = front + tail;
    if tail.len() == 0 {
        assert(s =~= front);
        assert(after_last(s, separators) =~= tail);
    } else {
        let shorter = tail.drop_last();
        assert forall|i: int| 0 <= i < shorter.len() implies !separators.contains(
            #[trigger] shorter[i],
        ) by {
            assert(shorter[i] == tail[i]);
        }
        lemma_after_last(front, shorter, separators);
        assert(s.drop_last() =~= front + shorter);
        assert(s.last() == tail[tail.len() - 1]);
        assert(after_last(s, separators) =~= tail);
    }
}

fn is_one_of(c: char, list: &[char]) -> (r: bool)
    ensures
        r == list@.contains(c),
{
    for i in 0..list.len()
        invariant
            forall|j: int| 0 <= j < i ==> #[trigger] list@[j] != c,
    {
        if list[i] == c {
            assert(list@[i as int] == c);
            return true;
        }
    }
    false
}

/// Where the part begins that follows the last of the separators among the
/// first `end` characters.
pub(crate) fn find_after_last(s: &[char], end: usize, separators: &[char]) -> (r: usize)
    requires
        end <= s@.len(),
    ensures
        r <= end,
        after_last(s@.take(end as int), separators@) == s@.subrange(r as int, end as int),
{
    let ghost head = s@.take(end as int);
    let mut from: usize = end;
    assert(head.take(end as int) =~= head);
    assert(head.skip(end as int) =~= Seq::empty());
    while from > 0 && !is_one_of(s[from - 1], separators)
        invariant
            from <= end <= s@.len(),
            head == s@.take(end as int),
            after_last(head, separators@) =~= after_last(head.take(from as int), separators@)
                + head.skip(from as int),
        decreases from,
    {
        proof {
            assert(head.take(from as int).drop_last() =~= head.take(from - 1));
            assert(head.skip(from - 1) =~= seq![head[from - 1]] + head.skip(from as int));
        }
        from = from - 1;
    }
    assert(after_last(head.take(from as int), separators@) =~= Seq::empty());
    assert(after_last(head, separators@) =~= s@.subrange(from as int, end as int));
    from
}

/// Whether `s` is a word: not empty, and free of white space.
pub open spec fn is_word(s: Seq<char>) -> bool {
    s.len() > 0 && forall|i: int| 0 <= i < s.len() ==> !is_white_space(#[trigger] s[i])
}

/// What `words` gives are words.
pub proof fn law_words_are_words(s: Seq<char>)
    ensures
        forall|i: int| 0 <= i < words(s).len() ==> is_word(#[trigger] words(s)[i]),
    decreases s.len(),
{
    if s.len() == 0 {
        assert(words(s).len() == 0);
    } else {
        if is_white_space(s[0]) {
            law_words_are_words(s.drop_first());
            assert(words(s) == words(s.drop_first()));
        } else {
            let n = word_len(s) as int;
            lemma_word_len(s);
            law_words_are_words(s.skip(n));
            assert forall|i: int| 0 <= i < words(s).len() implies is_word(
                #[trigger] words(s)[i],
            ) by {
                if i == 0 {
                    assert(words(s)[0] == s.take(n));
                    assert forall|j: int| 0 <= j < n implies !is_white_space(
                        #[trigger] s.take(n)[j],
                    ) by {
                        assert(s.take(n)[j] == s[j]);
                    }
                } else {
                    assert(words(s)[i] == words(s.skip(n))[i - 1]);
                }
            }
        }
    }
}

/// No character is lost between the words but the white space.
pub proof fn law_words_keep_the_rest(s: Seq<char>)
    ensures
        words(s).flatten() == s.filter(|c: char| !is_white_space(c)),
    decreases s.len(),
{
    let keep = |c: char| !is_white_space(c);
    if s.len() == 0 {
        reveal(Seq::filter);
        assert(words(s).flatten() =~= Seq::<char>::empty());
        assert(s.filter(keep) =~= Seq::<char>::empty());
    } else if is_white_space(s[0]) {
        law_words_keep_the_rest(s.drop_first());
        assert(s =~= seq![s[0]] + s.drop_first());
        Seq::filter_distributes_over_add(seq![s[0]], s.drop_first(), keep);
        seq![s[0]].lemma_all_neg_filter_empty(keep);
        assert(Seq::<char>::empty() + s.drop_first().filter(keep) =~= s.drop_first().filter(keep));
    } else {
        let n = word_len(s) as int;
        lemma_word_len(s);
        law_words_keep_the_rest(s.skip(n));
        assert(s =~= s.take(n) + s.skip(n));
        Seq::filter_distributes_over_add(s.take(n), s.skip(n), keep);
        lemma_filter_keeps_all(s.take(n), keep);
        assert(words(s).drop_first() =~= words(s.skip(n)));
        assert(words(s).first() == s.take(n));
    }
}

/// A filter keeps a sequence whose elements all satisfy its predicate.
pub proof fn lemma_filter_keeps_all<A>(s: Seq<A>, keep: spec_fn(A) -> bool)
    requires
        forall|i: int| 0 <= i < s.len() ==> keep(#[trigger] s[i]),
    ensures
        s.filter(keep) == s,
    decreases s.len(),
{
    reveal(Seq::filter);
    if s.len() > 0 {
        let front = s.drop_last();
        assert forall|i: int| 0 <= i < front.len() implies keep(#[trigger] front[i]) by {
            assert(front[i] == s[i]);
        }
        lemma_filter_keeps_all(front, keep);
        assert(front.push(s.last()) =~= s);
    } else {
        assert(s.filter(keep) =~= s);
    }
}

/// A word ends at the first white space.
proof fn lemma_word_len_stops(s: Seq<char>, c: char, t: Seq<char>)
    requires
        is_white_space(c),
    ensures
        word_len(s.push(c) + t) == word_len(s),
    decreases s.len(),
{
    if s.len() > 0 && !is_white_space(s[0]) {
        lemma_word_len_stops(s.drop_first(), c, t);
        assert((s.push(c) + t).drop_first() =~= s.drop_first().push(c) + t);
    }
}

/// White space separates: the words before it and the words after it make up
/// the words of the whole.
pub proof fn law_words_split(s: Seq<char>, c: char, t: Seq<char>)
    requires
        is_white_space(c),
    ensures
        words(s.push(c) + t) == words(s) + words(t),
    decreases s.len(),
{
    let whole = s.push(c) + t;
    if s.len() == 0 {
        assert(whole.drop_first() =~= t);
        assert(words(s) + words(t) =~= words(t));
    } else if is_white_space(s[0]) {
        law_words_split(s.drop_first(), c, t);
        assert(whole.drop_first() =~= s.drop_first().push(c) + t);
    } else {
        let n = word_len(s) as int;
        lemma_word_len(s);
        lemma_word_len_stops(s, c, t);
        law_words_split(s.skip(n), c, t);
        assert(whole.take(n) =~= s.take(n));
        assert(whole.skip(n) =~= s.skip(n).push(c) + t);
        assert(words(whole) =~= words(s) + words(t));
    }
}

/// Trimming a text does not change its words.
pub proof fn law_words_of_trimmed(s: Seq<char>)
    ensures
        words(trimmed(s)) == words(s),
    decreases s.len(),
{
    if s.len() > 0 && is_white_space(s[0]) {
        law_words_of_trimmed(s.drop_first());
    } else {
        lemma_words_of_trim_end(s);
    }
}

proof fn lemma_words_of_trim_end(s: Seq<char>)
    ensures
        words(trim_end(s)) == words(s),
    decreases s.len(),
{
    if s.len() > 0 && is_white_space(s.last()) {
        lemma_words_of_trim_end(s.drop_last());
        law_words_split(s.drop_last(), s.last(), Seq::empty());
        assert(s.drop_last().push(s.last()) + Seq::<char>::empty() =~= s);
        assert(words(s.drop_last()) + Seq::<Seq<char>>::empty() =~= words(s.drop_last()));
    }
}

/// Words that are joined by blanks come back as they were.
pub proof fn law_words_of_joined(list: Seq<Seq<char>>)
    requires
        forall|i: int| 0 <= i < list.len() ==> is_word(#[trigger] list[i]),
    ensures
        words(joined(list, " "@)) == list,
    decreases list.len(),
{
    reveal_strlit(" ");
    if list.len() == 0 {
        assert(words(joined(list, " "@)) =~= list);
    } else {
        let last = list.last();
        assert(is_word(list[list.len() - 1]));
        lemma_single_word(last);
        if list.len() == 1 {
            assert(seq![last] =~= list);
        } else {
            let front = list.drop_last();
            assert forall|i: int| 0 <= i < front.len() implies is_word(#[trigger] front[i]) by {
                assert(front[i] == list[i]);
            }
            law_words_of_joined(front);
            law_words_split(joined(front, " "@), ' ', last);
            assert(joined(front, " "@) + " "@ + last =~= joined(front, " "@).push(' ') + last);
            assert(front + seq![last] =~= list);
        }
    }
}

proof fn lemma_single_word(w: Seq<char>)
    requires
        is_word(w),
    ensures
        words(w) == seq![w],
{
    lemma_word_len(w);
    let n = word_len(w) as int;
    if n < w.len() {
        assert(is_white_space(w[n]));
    }
    assert(w.take(n) =~= w);
    assert(words(w.skip(n)) =~= Seq::empty());
    assert(words(w) =~= seq![w]);
}

/// A trimmed text has no white space at its ends, and trimming it again
/// leaves it as it is.
pub proof fn law_trimmed_is_clean(s: Seq<char>)
    ensures
        trimmed(s).len() > 0 ==> !is_white_space(trimmed(s)[0]) && !is_white_space(
            trimmed(s).last(),
        ),
        trimmed(trimmed(s)) == trimmed(s),
{
    lemma_trim_start(s);
    lemma_trim_end(trim_start(s));
}

proof fn lemma_trim_start(s: Seq<char>)
    ensures
        trim_start(s).len() > 0 ==> !is_white_space(trim_start(s)[0]),
    decreases s.len(),
{
    if s.len() > 0 && is_white_space(s[0]) {
        lemma_trim_start(s.drop_first());
    }
}

proof fn lemma_trim_end(s: Seq<char>)
    ensures
        trim_end(s).len() > 0 ==> trim_end(s)[0] == s[0] && !is_white_space(trim_end(s).last()),
    decreases s.len(),
{
    if s.len() > 0 && is_white_space(s.last()) {
        lemma_trim_end(s.drop_last());
    }
}

/// A word is a text that is not empty and has no white space in it.
pub proof fn law_word(s: Seq<char>)
    ensures
        is_word(s) <==> s.len() > 0 && (forall|i: int|
            0 <= i < s.len() ==> !is_white_space(#[trigger] s[i])),
{
}

/// A text without white space is its own only word; a text of nothing but
/// white space has no words.
pub proof fn law_words_of_one(s: Seq<char>)
    ensures
        s.len() > 0 && (forall|i: int| 0 <= i < s.len() ==> !is_white_space(#[trigger] s[i]))
            ==> words(s) == seq![s],
        (forall|i: int| 0 <= i < s.len() ==> is_white_space(#[trigger] s[i])) ==> words(s)
            == Seq::<Seq<char>>::empty(),
    decreases s.len(),
{
    if s.len() > 0 {
        if is_word(s) {
            lemma_single_word(s);
        }
        let rest = s.drop_first();
        law_words_of_one(rest);
        if forall|i: int| 0 <= i < s.len() ==> is_white_space(#[trigger] s[i]) {
            assert(is_white_space(s[0]));
            assert forall|i: int| 0 <= i < rest.len() implies is_white_space(
                #[trigger] rest[i],
            ) by {
                assert(rest[i] == s[i + 1]);
            }
        }
    }
}

proof fn lemma_trim_start_skips(before: Seq<char>, rest: Seq<char>)
    requires
        forall|i: int| 0 <= i < before.len() ==> is_white_space(#[trigger] before[i]),
    ensures
        trim_start(before + rest) == trim_start(rest),
    decreases before.len(),
{
    if before.len() == 0 {
        assert(before + rest =~= rest);
    } else {
        let shorter = before.drop_first();
        assert forall|i: int| 0 <= i < shorter.len() implies is_white_space(
            #[trigger] shorter[i],
        ) by {
            assert(shorter[i] == before[i + 1]);
        }
        assert(is_white_space(before[0]));
        lemma_trim_start_skips(shorter, rest);
        assert((before + rest).drop_first() =~= shorter + rest);
    }
}

proof fn lemma_trim_end_skips(rest: Seq<char>, after: Seq<char>)
    requires
        forall|i: int| 0 <= i < after.len() ==> is_white_space(#[trigger] after[i]),
    ensures
        trim_end(rest + after) == trim_end(rest),
    decreases after.len(),
{
    if after.len() == 0 {
        assert(rest + after =~= rest);
    } else {
        let shorter = after.drop_last();
        assert forall|i: int| 0 <= i < shorter.len() implies is_white_space(
            #[trigger] shorter[i],
        ) by {
            assert(shorter[i] == after[i]);
        }
        assert(is_white_space(after[after.len() - 1]));
        lemma_trim_end_skips(rest, shorter);
        assert((rest + after).drop_last() =~= rest + shorter);
    }
}

/// Trimming takes away the white space around a text and nothing else.
pub proof fn law_trimmed_is_what_is_within(before: Seq<char>, core: Seq<char>, after: Seq<char>)
    requires
        forall|i: int| 0 <= i < before.len() ==> is_white_space(#[trigger] before[i]),
        forall|i: int| 0 <= i < after.len() ==> is_white_space(#[trigger] after[i]),
        core.len() > 0 ==> !is_white_space(core[0]) && !is_white_space(core.last()),
    ensures
        trimmed(before + core + after) == core,
{
    assert(before + core + after =~= before + (core + after));
    lemma_trim_start_skips(before, core + after);
    if core.len() == 0 {
        assert(core + after =~= after + core);
        lemma_trim_start_skips(after, core);
    } else {
        assert((core + after)[0] == core[0]);
        lemma_trim_end_skips(core, after);
    }
}

/// Joining no parts gives nothing, joining one part gives that part, and
/// joining two lists one after the other puts the separator between what each
/// of them gives.
pub proof fn law_joined_of_sum(a: Seq<Seq<char>>, b: Seq<Seq<char>>, separator: Seq<char>)
    ensures
        a.len() == 0 ==> joined(a, separator) == Seq::<char>::empty(),
        a.len() == 1 ==> joined(a, separator) == a[0],
        a.len() > 0 && b.len() > 0 ==> joined(a + b, separator) == joined(a, separator) + separator
            + joined(b, separator),
    decreases b.len(),
{
    if a.len() > 0 && b.len() > 0 {
        let front = b.drop_last();
        law_joined_of_sum(a, front, separator);
        assert((a + b).drop_last() =~= a + front);
        assert((a + b).last() == b.last());
        if b.len() == 1 {
            assert(a + front =~= a);
        } else {
            assert(joined(a + b, separator) =~= joined(a, separator) + separator + joined(
                b,
                separator,
            ));
        }
    }
}

/// The position of a character is where it first occurs.
pub proof fn law_position_is_first(s: Seq<char>, c: char)
    ensures
        position(s, c) <= s.len(),
        position(s, c) < s.len() ==> s[position(s, c) as int] == c,
        forall|i: int| 0 <= i < position(s, c) ==> #[trigger] s[i] != c,
    decreases s.len(),
{
    if s.len() > 0 && s[0] != c {
        let rest = s.drop_first();
        law_position_is_first(rest, c);
        assert forall|i: int| 0 <= i < position(s, c) implies #[trigger] s[i] != c by {
            if i > 0 {
                assert(rest[i - 1] == s[i]);
            }
        }
    }
}

/// What follows the last separator is the longest tail without a separator.
pub proof fn law_after_last_is_longest(s: Seq<char>, separators: Seq<char>)
    ensures
        ({
            let tail = after_last(s, separators);
            &&& tail.len() <= s.len()
            &&& tail == s.skip(s.len() - tail.len())
            &&& forall|i: int| 0 <= i < tail.len() ==> !separators.contains(#[trigger] tail[i])
            &&& tail.len() < s.len() ==> separators.contains(s[s.len() - tail.len() - 1])
        }),
    decreases s.len(),
{
    let tail = after_last(s, separators);
    if s.len() == 0 || separators.contains(s.last()) {
        assert(s.skip(s.len() as int) =~= Seq::empty());
    } else {
        law_after_last_is_longest(s.drop_last(), separators);
        assert(tail =~= s.skip(s.len() - tail.len()));
    }
}

/// The contents of a list of strings are those of its strings, one by one.
pub proof fn law_contents(names: Seq<&str>, strings: Seq<String>, s: String)
    ensures
        views(names).len() == names.len(),
        forall|i: int| 0 <= i < names.len() ==> #[trigger] views(names)[i] == names[i]@,
        contents(strings).len() == strings.len(),
        forall|i: int| 0 <= i < strings.len() ==> #[trigger] contents(strings)[i] == strings[i]@,
        content_of(Some(s)) == Some(s@),
        content_of(None) is None,
        view_of(None) is None,
        forall|i: int|
            0 <= i < names.len() ==> view_of(Some(#[trigger] names[i])) == Some(names[i]@),
{
}

} // verus!
