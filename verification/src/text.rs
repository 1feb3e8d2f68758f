//! Operations on text, with their meaning over sequences of characters.
use vstd::prelude::*;

verus! {

/// `needle` stands in `s` at position `i`.
pub open spec fn occurs_at(s: Seq<char>, needle: Seq<char>, i: int) -> bool {
    0 <= i && i + needle.len() <= s.len() && s.subrange(i, i + needle.len()) =~= needle
}

/// The first position at or after `from` where `needle` stands in `s`.
pub open spec fn find_from(s: Seq<char>, needle: Seq<char>, from: int) -> Option<int>
    decreases s.len() - from,
{
    if from < 0 || from + needle.len() > s.len() {
        None
    } else if occurs_at(s, needle, from) {
        Some(from)
    } else {
        find_from(s, needle, from + 1)
    }
}

/// The first position where `needle` stands in `s`.
pub open spec fn find_text(s: Seq<char>, needle: Seq<char>) -> Option<int> {
    find_from(s, needle, 0)
}

/// `find_from` gives the first position at or after `from` where `needle`
/// stands, and none exactly where there is no such position.
pub proof fn lemma_find_from(s: Seq<char>, needle: Seq<char>, from: int)
    requires
        0 <= from,
    ensures
        match find_from(s, needle, from) {
            Some(i) => from <= i && occurs_at(s, needle, i) && (forall|j: int|
                from <= j < i ==> !occurs_at(s, needle, j)),
            None => forall|j: int| from <= j ==> !occurs_at(s, needle, j),
        },
    decreases s.len() - from,
{
    if from + needle.len() <= s.len() && !occurs_at(s, needle, from) {
        lemma_find_from(s, needle, from + 1);
    }
}

/// The last position below `end` that holds `c`.
pub open spec fn rfind_below(s: Seq<char>, c: char, end: int) -> Option<int>
    decreases end,
{
    if end <= 0 {
        None
    } else if s[end - 1] == c {
        Some(end - 1)
    } else {
        rfind_below(s, c, end - 1)
    }
}

/// What stands before and after the first `needle` in `s`.
pub open spec fn split_first(s: Seq<char>, needle: Seq<char>) -> Option<(Seq<char>, Seq<char>)> {
    match find_text(s, needle) {
        Some(i) => Some((s.take(i), s.skip(i + needle.len()))),
        None => None,
    }
}

/// A text splits at the first `c` into what was put before and after it.
pub proof fn lemma_split_first(head: Seq<char>, c: char, tail: Seq<char>)
    requires
        !head.contains(c),
    ensures
        split_first(head + seq![c] + tail, seq![c]) == Some((head, tail)),
{
    let s = head + seq![c] + tail;
    let n = head.len() as int;
    lemma_find_from(s, seq![c], 0);
    assert(s.subrange(n, n + 1) =~= seq![c]);
    assert(occurs_at(s, seq![c], n));
    match find_text(s, seq![c]) {
        Some(i) => {
            if i < n {
                assert(s.subrange(i, i + 1)[0] == head[i]);
                assert(head.contains(head[i]));
            }
            assert(i == n);
        },
        None => {},
    }
    assert(s.take(n) =~= head);
    assert(s.skip(n + 1) =~= tail);
}

/// What stands before and after the last `c` in `s`.
pub open spec fn split_last(s: Seq<char>, c: char) -> Option<(Seq<char>, Seq<char>)> {
    match rfind_below(s, c, s.len() as int) {
        Some(i) => Some((s.take(i), s.skip(i + 1))),
        None => None,
    }
}

/// A text splits at the last `c` into what was put before and after it.
pub proof fn lemma_split_last(head: Seq<char>, c: char, tail: Seq<char>)
    requires
        !tail.contains(c),
    ensures
        split_last(head + seq![c] + tail, c) == Some((head, tail)),
{
    let s = head + seq![c] + tail;
    lemma_rfind(head, c, tail, s.len() as int);
    assert(s.take(head.len() as int) =~= head);
    assert(s.skip(head.len() as int + 1) =~= tail);
}

/// The last `c` below `end` is that which was put between two texts.
proof fn lemma_rfind(head: Seq<char>, c: char, tail: Seq<char>, end: int)
    requires
        !tail.contains(c),
        head.len() < end <= head.len() + 1 + tail.len(),
    ensures
        rfind_below(head + seq![c] + tail, c, end) == Some(head.len() as int),
    decreases end,
{
    let s = head + seq![c] + tail;
    if end > head.len() + 1 {
        assert(s[end - 1] == tail[end - 2 - head.len()]);
        assert(tail.contains(tail[end - 2 - head.len()]));
        lemma_rfind(head, c, tail, end - 1);
    }
}

/// `s` without `prefix`, where `s` begins with it.
pub open spec fn without_prefix(s: Seq<char>, prefix: Seq<char>) -> Option<Seq<char>> {
    if prefix.is_prefix_of(s) {
        Some(s.skip(prefix.len() as int))
    } else {
        None
    }
}

/// `s` without the run of `c` at its start.
pub open spec fn trimmed_start(s: Seq<char>, c: char) -> Seq<char>
    decreases s.len(),
{
    if s.len() > 0 && s[0] == c {
        trimmed_start(s.skip(1), c)
    } else {
        s
    }
}

/// `s` without the run of `c` at its end.
pub open spec fn trimmed_end(s: Seq<char>, c: char) -> Seq<char>
    decreases s.len(),
{
    if s.len() > 0 && s.last() == c {
        trimmed_end(s.drop_last(), c)
    } else {
        s
    }
}

/// `s` without the runs of `c` at both ends.
pub open spec fn trimmed(s: Seq<char>, c: char) -> Seq<char> {
    trimmed_end(trimmed_start(s, c), c)
}

/// `parts` in order, with `sep` between neighbours.
pub open spec fn joined(parts: Seq<Seq<char>>, sep: Seq<char>) -> Seq<char>
    decreases parts.len(),
{
    if parts.len() == 0 {
        Seq::empty()
    } else if parts.len() == 1 {
        parts[0]
    } else {
        joined(parts.drop_last(), sep) + sep + parts.last()
    }
}

/// `s` with each `from` in it, read from the left, replaced by `to`.
pub open spec fn replaced(s: Seq<char>, from: Seq<char>, to: Seq<char>) -> Seq<char>
    decreases s.len(),
{
    match find_text(s, from) {
        Some(i) => if from.len() > 0 && 0 <= i && i + from.len() <= s.len() {
            s.take(i) + to + replaced(s.skip(i + from.len()), from, to)
        } else {
            s
        },
        None => s,
    }
}

/// What is searched for is found one place further in a text with one character
/// more before it.
proof fn lemma_find_shifted(s: Seq<char>, needle: Seq<char>, from: int)
    requires
        s.len() > 0,
        0 <= from,
    ensures
        find_from(s, needle, from + 1) == match find_from(s.skip(1), needle, from) {
            Some(i) => Some(i + 1),
            None => None,
        },
    decreases s.len() - from,
{
    if from + 1 + needle.len() <= s.len() {
        assert(s.skip(1).subrange(from, from + needle.len()) =~= s.subrange(
            from + 1,
            from + 1 + needle.len(),
        ));
        lemma_find_shifted(s, needle, from + 1);
    }
}

/// Where what is replaced does not stand at the start of a text, the first
/// character stays.
pub proof fn lemma_replaced_keeps(s: Seq<char>, from: Seq<char>, to: Seq<char>)
    requires
        from.len() > 0,
        s.len() > 0,
        !occurs_at(s, from, 0),
    ensures
        replaced(s, from, to) == seq![s[0]] + replaced(s.skip(1), from, to),
{
    let rest = s.skip(1);
    lemma_find_shifted(s, from, 0);
    lemma_find_from(rest, from, 0);
    if from.len() <= s.len() {
        assert(find_text(s, from) == find_from(s, from, 1));
    } else {
        assert(find_from(rest, from, 0) is None);
    }
    match find_text(rest, from) {
        Some(i) => {
            assert(s.take(i + 1) =~= seq![s[0]] + rest.take(i));
            assert(s.skip(i + 1 + from.len()) =~= rest.skip(i + from.len()));
            assert(replaced(s, from, to) =~= seq![s[0]] + replaced(rest, from, to));
        },
        None => {
            assert(s =~= seq![s[0]] + rest);
        },
    }
}

/// Where what is replaced stands at the start of a text, it is replaced there.
pub proof fn lemma_replaced_takes(from: Seq<char>, to: Seq<char>, rest: Seq<char>)
    requires
        from.len() > 0,
    ensures
        replaced(from + rest, from, to) == to + replaced(rest, from, to),
{
    let s = from + rest;
    assert(s.subrange(0, from.len() as int) =~= from);
    assert(find_text(s, from) == Some(0int));
    assert(s.take(0) =~= Seq::empty());
    assert(s.skip(from.len() as int) =~= rest);
    assert(replaced(s, from, to) =~= to + replaced(rest, from, to));
}

/// `a` stands before `b` in dictionary order of the characters' code points.
pub open spec fn precedes(a: Seq<char>, b: Seq<char>) -> bool
    decreases b.len(),
{
    if b.len() == 0 {
        false
    } else if a.len() == 0 {
        true
    } else if a[0] == b[0] {
        precedes(a.skip(1), b.skip(1))
    } else {
        a[0] < b[0]
    }
}

/// No text stands before itself.
pub proof fn lemma_precedes_irreflexive(a: Seq<char>)
    ensures
        !precedes(a, a),
    decreases a.len(),
{
    if a.len() > 0 {
        lemma_precedes_irreflexive(a.skip(1));
    }
}

/// Of two different texts exactly one stands before the other.
pub proof fn lemma_precedes_total(a: Seq<char>, b: Seq<char>)
    ensures
        precedes(a, b) ==> !precedes(b, a),
        a != b ==> precedes(a, b) || precedes(b, a),
    decreases a.len(),
{
    if a.len() > 0 && b.len() > 0 {
        if a[0] == b[0] {
            lemma_precedes_total(a.skip(1), b.skip(1));
            if a.skip(1) == b.skip(1) {
                assert(a =~= seq![a[0]] + a.skip(1));
                assert(b =~= seq![b[0]] + b.skip(1));
            }
        }
    } else if a.len() == 0 && b.len() == 0 {
        assert(a =~= b);
    }
}

/// Dictionary order is transitive.
pub proof fn lemma_precedes_transitive(a: Seq<char>, b: Seq<char>, c: Seq<char>)
    requires
        precedes(a, b),
        precedes(b, c),
    ensures
        precedes(a, c),
    decreases b.len(),
{
    if a.len() > 0 && a[0] == b[0] && b[0] == c[0] {
        lemma_precedes_transitive(a.skip(1), b.skip(1), c.skip(1));
    }
}

/// The characters of a text.
pub fn chars_of(s: &str) -> (r: Vec<char>)
    ensures
        r@ == s@,
{
    let mut out: Vec<char> = Vec::new();
    for c in it: s.chars()
        invariant
            it.seq() == s@,
            out@ == s@.take(it.index() as int),
    {
        out.push(c);
        assert(s@.take(it.index() as int + 1) =~= s@.take(it.index() as int).push(c));
    }
    assert(s@.take(s@.len() as int) =~= s@);
    out
}

/// Whether two texts hold the same characters.
pub fn same(a: &str, b: &str) -> (r: bool)
    ensures
        r == (a@ == b@),
{
    let left = chars_of(a);
    let right = chars_of(b);
    if left.len() != right.len() {
        return false;
    }
    let mut i: usize = 0;
    while i < left.len()
        invariant
            left.len() == right.len(),
            left@ == a@,
            right@ == b@,
            i <= left.len(),
            left@.take(i as int) =~= right@.take(i as int),
        decreases left.len() - i,
    {
        if left[i] != right[i] {
            return false;
        }
        assert(left@.take(i + 1) =~= left@.take(i as int).push(left@[i as int]));
        assert(right@.take(i + 1) =~= right@.take(i as int).push(right@[i as int]));
        i += 1;
    }
    assert(left@.take(i as int) =~= left@);
    assert(right@.take(i as int) =~= right@);
    true
}

/// Whether `needle` stands in the characters `s` at position `i`.
fn stands_at(s: &Vec<char>, needle: &Vec<char>, i: usize) -> (r: bool)
    requires
        i + needle@.len() <= s@.len(),
    ensures
        r == occurs_at(s@, needle@, i as int),
{
    let mut j: usize = 0;
    while j < needle.len()
        invariant
            i + needle.len() <= s.len(),
            j <= needle.len(),
            forall|k: int| 0 <= k < j ==> s@[i + k] == needle@[k],
        decreases needle.len() - j,
    {
        if s[i + j] != needle[j] {
            assert(s@.subrange(i as int, i + needle@.len())[j as int] == s@[i + j]);
            return false;
        }
        j += 1;
    }
    true
}

/// Whether a text begins with `prefix`.
pub fn starts_with(s: &str, prefix: &str) -> (r: bool)
    ensures
        r == prefix@.is_prefix_of(s@),
{
    let all = chars_of(s);
    let head = chars_of(prefix);
    if head.len() > all.len() {
        return false;
    }
    stands_at(&all, &head, 0)
}

/// A text without `prefix`, where it begins with it.
pub fn strip_prefix<'a>(s: &'a str, prefix: &str) -> (r: Option<&'a str>)
    ensures
        r.deep_view() == without_prefix(s@, prefix@),
{
    if starts_with(s, prefix) {
        let from: usize = prefix.unicode_len();
        let to: usize = s.unicode_len();
        Some(s.substring_char(from, to))
    } else {
        None
    }
}

/// The position of the first `needle` in a text, counted in characters.
pub fn find(s: &str, needle: &str) -> (r: Option<usize>)
    ensures
        match r {
            Some(i) => find_text(s@, needle@) == Some(i as int) && occurs_at(s@, needle@, i as int),
            None => find_text(s@, needle@) is None,
        },
{
    let all = chars_of(s);
    let part = chars_of(needle);
    let mut i: usize = 0;
    while part.len() <= all.len() - i
        invariant
            all@ == s@,
            part@ == needle@,
            i <= all.len(),
            find_text(s@, needle@) == find_from(s@, needle@, i as int),
        decreases all.len() - i,
    {
        if stands_at(&all, &part, i) {
            return Some(i);
        }
        i += 1;
    }
    None
}

/// Whether `needle` stands anywhere in a text.
pub fn contains(s: &str, needle: &str) -> (r: bool)
    ensures
        r == (find_text(s@, needle@) is Some),
{
    find(s, needle).is_some()
}

/// The parts of a text before and after the first `needle`.
pub fn split_once<'a>(s: &'a str, needle: &str) -> (r: Option<(&'a str, &'a str)>)
    ensures
        r.deep_view() == split_first(s@, needle@),
{
    match find(s, needle) {
        Some(at) => {
            let to: usize = s.unicode_len();
            let width: usize = needle.unicode_len();
            Some((s.substring_char(0, at), s.substring_char(at + width, to)))
        },
        None => None,
    }
}

/// The parts of a text before and after the last `c`.
pub fn rsplit_once<'a>(s: &'a str, c: char) -> (r: Option<(&'a str, &'a str)>)
    ensures
        r.deep_view() == split_last(s@, c),
{
    let all = chars_of(s);
    let mut end: usize = all.len();
    while end > 0
        invariant
            all@ == s@,
            end <= all.len(),
            rfind_below(s@, c, s@.len() as int) == rfind_below(s@, c, end as int),
        decreases end,
    {
        if all[end - 1] == c {
            let to: usize = all.len();
            return Some((s.substring_char(0, end - 1), s.substring_char(end, to)));
        }
        end -= 1;
    }
    None
}

/// A text without the run of `c` at its start.
pub fn trim_start_matches<'a>(s: &'a str, c: char) -> (r: &'a str)
    ensures
        r@ == trimmed_start(s@, c),
{
    let all = chars_of(s);
    let mut i: usize = 0;
    assert(s@.skip(0) =~= s@);
    while i < all.len() && all[i] == c
        invariant
            all@ == s@,
            i <= all.len(),
            trimmed_start(s@, c) == trimmed_start(s@.skip(i as int), c),
        decreases all.len() - i,
    {
        assert(s@.skip(i as int).skip(1) =~= s@.skip(i + 1));
        i += 1;
    }
    let to: usize = all.len();
    s.substring_char(i, to)
}

/// A text without the run of `c` at its end.
pub fn trim_end_matches<'a>(s: &'a str, c: char) -> (r: &'a str)
    ensures
        r@ == trimmed_end(s@, c),
{
    let all = chars_of(s);
    let mut end: usize = all.len();
    assert(s@.take(s@.len() as int) =~= s@);
    while end > 0 && all[end - 1] == c
        invariant
            all@ == s@,
            end <= all.len(),
            trimmed_end(s@, c) == trimmed_end(s@.take(end as int), c),
        decreases end,
    {
        assert(s@.take(end as int).drop_last() =~= s@.take(end - 1));
        end -= 1;
    }
    s.substring_char(0, end)
}

/// A text without the runs of `c` at both ends.
pub fn trim_matches<'a>(s: &'a str, c: char) -> (r: &'a str)
    ensures
        r@ == trimmed(s@, c),
{
    trim_end_matches(trim_start_matches(s, c), c)
}

/// A text without the character `c` at its end, where it ends with it.
pub fn strip_suffix<'a>(s: &'a str, c: char) -> (r: Option<&'a str>)
    ensures
        r.deep_view() == (if s@.len() > 0 && s@.last() == c {
            Some(s@.drop_last())
        } else {
            None
        }),
{
    let to: usize = s.unicode_len();
    if to > 0 && s.get_char(to - 1) == c {
        Some(s.substring_char(0, to - 1))
    } else {
        None
    }
}

/// Texts in order, with `sep` between neighbours.
pub fn join(parts: &[String], sep: &str) -> (r: String)
    ensures
        r@ == joined(parts.deep_view(), sep@),
{
    let mut out = String::new();
    let mut i: usize = 0;
    assert(parts.deep_view().take(0) =~= Seq::empty());
    while i < parts.len()
        invariant
            i <= parts.len(),
            out@ == joined(parts.deep_view().take(i as int), sep@),
        decreases parts.len() - i,
    {
        if i > 0 {
            out.append(sep);
        }
        out.append(parts[i].as_str());
        assert(parts.deep_view().take(i + 1).drop_last() =~= parts.deep_view().take(i as int));
        i += 1;
    }
    assert(parts.deep_view().take(i as int) =~= parts.deep_view());
    out
}

/// A text with each `from` in it, read from the left, replaced by `to`.
pub fn replace(s: &str, from: &str, to: &str) -> (r: String)
    requires
        from@.len() > 0,
    ensures
        r@ == replaced(s@, from@, to@),
{
    let mut out = String::new();
    let mut rest: &str = s;
    loop
        invariant
            from@.len() > 0,
            out@ + replaced(rest@, from@, to@) =~= replaced(s@, from@, to@),
        decreases rest@.len(),
    {
        proof {
            lemma_find_from(rest@, from@, 0);
        }
        match split_once(rest, from) {
            Some((before, after)) => {
                out.append(before);
                out.append(to);
                rest = after;
            },
            None => {
                out.append(rest);
                return out;
            },
        }
    }
}

/// Whether `a` stands before `b` in dictionary order.
pub fn less(a: &str, b: &str) -> (r: bool)
    ensures
        r == precedes(a@, b@),
{
    let left = chars_of(a);
    let right = chars_of(b);
    let mut i: usize = 0;
    assert(a@.skip(0) =~= a@ && b@.skip(0) =~= b@);
    while i < left.len() && i < right.len()
        invariant
            left@ == a@,
            right@ == b@,
            i <= left.len(),
            i <= right.len(),
            precedes(a@, b@) == precedes(a@.skip(i as int), b@.skip(i as int)),
        decreases left.len() - i,
    {
        if left[i] != right[i] {
            return left[i] < right[i];
        }
        assert(a@.skip(i as int).skip(1) =~= a@.skip(i + 1));
        assert(b@.skip(i as int).skip(1) =~= b@.skip(i + 1));
        i += 1;
    }
    i < right.len()
}

/// A character with the Unicode property `White_Space`.
pub open spec fn whitespace(c: char) -> bool {
    ||| '\u{9}' <= c <= '\u{d}'
    ||| c == ' '
    ||| c == '\u{85}'
    ||| c == '\u{a0}'
    ||| c == '\u{1680}'
    ||| '\u{2000}' <= c <= '\u{200a}'
    ||| c == '\u{2028}'
    ||| c == '\u{2029}'
    ||| c == '\u{202f}'
    ||| c == '\u{205f}'
    ||| c == '\u{3000}'
}

/// `char::is_whitespace` tells whether a character has the Unicode property
/// `White_Space`.
pub assume_specification[ char::is_whitespace ](c: char) -> (r: bool)
    ensures
        r == whitespace(c),
;

/// `s` without the white space at its start.
pub open spec fn blank_start(s: Seq<char>) -> Seq<char>
    decreases s.len(),
{
    if s.len() > 0 && whitespace(s[0]) {
        blank_start(s.skip(1))
    } else {
        s
    }
}

/// `s` without the white space at its end.
pub open spec fn blank_end(s: Seq<char>) -> Seq<char>
    decreases s.len(),
{
    if s.len() > 0 && whitespace(s.last()) {
        blank_end(s.drop_last())
    } else {
        s
    }
}

/// A text without the white space at both ends.
pub fn trim<'a>(s: &'a str) -> (r: &'a str)
    ensures
        r@ == blank_end(blank_start(s@)),
{
    let all = chars_of(s);
    let mut start: usize = 0;
    assert(s@.skip(0) =~= s@);
    while start < all.len() && all[start].is_whitespace()
        invariant
            all@ == s@,
            start <= all.len(),
            blank_start(s@) == blank_start(s@.skip(start as int)),
        decreases all.len() - start,
    {
        assert(s@.skip(start as int).skip(1) =~= s@.skip(start + 1));
        start += 1;
    }
    let ghost rest = s@.skip(start as int);
    let mut end: usize = all.len();
    assert(rest.take(rest.len() as int) =~= rest);
    while end > start && all[end - 1].is_whitespace()
        invariant
            all@ == s@,
            rest == s@.skip(start as int),
            start <= end <= all.len(),
            blank_end(rest) == blank_end(rest.take(end - start)),
        decreases end,
    {
        assert(rest.take(end - start).drop_last() =~= rest.take(end - 1 - start));
        end -= 1;
    }
    assert(s@.subrange(start as int, end as int) =~= rest.take(end - start));
    s.substring_char(start, end)
}

/// The lower-case form of a text, as `str::to_lowercase` gives it.
pub uninterp spec fn lowercase(s: Seq<char>) -> Seq<char>;

/// `str::to_lowercase` maps a text to its lower-case equivalent by Unicode's
/// rules; the mapping is a function of the text alone.
pub assume_specification[ str::to_lowercase ](s: &str) -> (r: String)
    ensures
        r@ == lowercase(s@),
;

/// The upper-case form of a text, as `str::to_uppercase` gives it.
pub uninterp spec fn uppercase(s: Seq<char>) -> Seq<char>;

/// `str::to_uppercase` maps a text to its upper-case equivalent by Unicode's
/// rules; the mapping is a function of the text alone.
pub assume_specification[ str::to_uppercase ](s: &str) -> (r: String)
    ensures
        r@ == uppercase(s@),
;

/// A text in double quotes with its special characters escaped, as the `Debug`
/// form of `str` writes it.
pub uninterp spec fn quoted(s: Seq<char>) -> Seq<char>;

/// The `Debug` form of a `str`, which is a function of its characters.
#[verifier::external_body]
pub(crate) fn quote(s: &str) -> (r: String)
    ensures
        r@ == quoted(s@),
{
    format!("{s:?}")
}

/// `String::push` adds one character at the end.
pub assume_specification[ String::push ](s: &mut String, c: char)
    ensures
        final(s)@ == old(s)@.push(c),
;

/// A letter of ASCII in lower case, and any other character itself.
pub open spec fn lowered(c: char) -> char {
    if 'A' <= c <= 'Z' {
        (c as u32 + 32) as char
    } else {
        c
    }
}

/// Two texts that differ at most in the case of ASCII letters.
pub open spec fn same_letters(a: Seq<char>, b: Seq<char>) -> bool {
    a.len() == b.len() && forall|i: int|
        0 <= i < a.len() ==> lowered(#[trigger] a[i]) == lowered(b[i])
}

/// A letter of ASCII in lower case, and any other character itself.
fn lower(c: char) -> (r: char)
    ensures
        r == lowered(c),
{
    if 'A' <= c && c <= 'Z' {
        (c as u8 + 32) as char
    } else {
        c
    }
}

/// Whether two texts differ at most in the case of ASCII letters.
pub fn same_ignoring_case(a: &str, b: &str) -> (r: bool)
    ensures
        r == same_letters(a@, b@),
{
    let left = chars_of(a);
    let right = chars_of(b);
    if left.len() != right.len() {
        return false;
    }
    let mut i: usize = 0;
    while i < left.len()
        invariant
            left@ == a@,
            right@ == b@,
            left.len() == right.len(),
            i <= left.len(),
            forall|j: int| 0 <= j < i ==> lowered(#[trigger] a@[j]) == lowered(b@[j]),
        decreases left.len() - i,
    {
        if lower(left[i]) != lower(right[i]) {
            assert(lowered(a@[i as int]) != lowered(b@[i as int]));
            return false;
        }
        i += 1;
    }
    true
}

/// What is trimmed is exactly the runs of a character at both ends: the rest
/// stands between them unchanged, and neither begins nor ends with it.
pub proof fn law_trimmed(s: Seq<char>, c: char) -> (ends: (int, int))
    ensures
        0 <= ends.0 <= ends.1 <= s.len(),
        trimmed_start(s, c) == s.skip(ends.0),
        trimmed(s, c) == s.subrange(ends.0, ends.1),
        forall|i: int| 0 <= i < ends.0 ==> #[trigger] s[i] == c,
        forall|i: int| ends.1 <= i < s.len() ==> #[trigger] s[i] == c,
        ends.0 < s.len() ==> s[ends.0] != c,
        ends.0 < ends.1 ==> s[ends.1 - 1] != c,
    decreases s.len(),
{
    if s.len() > 0 && s[0] == c {
        let (a, b) = law_trimmed(s.skip(1), c);
        assert(s.skip(1).skip(a) =~= s.skip(a + 1));
        assert(s.skip(1).subrange(a, b) =~= s.subrange(a + 1, b + 1));
        assert forall|i: int| 0 <= i < a + 1 implies #[trigger] s[i] == c by {
            if i > 0 {
                assert(s.skip(1)[i - 1] == s[i]);
            }
        }
        assert forall|i: int| b + 1 <= i < s.len() implies #[trigger] s[i] == c by {
            assert(s.skip(1)[i - 1] == s[i]);
        }
        (a + 1, b + 1)
    } else {
        let b = law_trimmed_end(s, c);
        assert(s.skip(0) =~= s);
        assert(s.take(b) =~= s.subrange(0, b));
        (0, b)
    }
}

/// What is trimmed at the end is exactly the run of a character there.
pub proof fn law_trimmed_end(s: Seq<char>, c: char) -> (end: int)
    ensures
        0 <= end <= s.len(),
        trimmed_end(s, c) == s.take(end),
        forall|i: int| end <= i < s.len() ==> #[trigger] s[i] == c,
        end > 0 ==> s[end - 1] != c,
    decreases s.len(),
{
    if s.len() > 0 && s.last() == c {
        let end = law_trimmed_end(s.drop_last(), c);
        assert(s.drop_last().take(end) =~= s.take(end));
        assert forall|i: int| end <= i < s.len() implies #[trigger] s[i] == c by {
            if i < s.len() - 1 {
                assert(s.drop_last()[i] == s[i]);
            }
        }
        end
    } else {
        assert(s.take(s.len() as int) =~= s);
        s.len() as int
    }
}

/// What is trimmed of white space is exactly the white space at both ends.
pub proof fn law_blank(s: Seq<char>) -> (ends: (int, int))
    ensures
        0 <= ends.0 <= ends.1 <= s.len(),
        blank_end(blank_start(s)) == s.subrange(ends.0, ends.1),
        forall|i: int| 0 <= i < ends.0 ==> whitespace(#[trigger] s[i]),
        forall|i: int| ends.1 <= i < s.len() ==> whitespace(#[trigger] s[i]),
        ends.0 < ends.1 ==> !whitespace(s[ends.0]) && !whitespace(s[ends.1 - 1]),
    decreases s.len(),
{
    if s.len() > 0 && whitespace(s[0]) {
        let (a, b) = law_blank(s.skip(1));
        assert(s.skip(1).subrange(a, b) =~= s.subrange(a + 1, b + 1));
        assert forall|i: int| 0 <= i < a + 1 implies whitespace(#[trigger] s[i]) by {
            if i > 0 {
                assert(s.skip(1)[i - 1] == s[i]);
            }
        }
        assert forall|i: int| b + 1 <= i < s.len() implies whitespace(#[trigger] s[i]) by {
            assert(s.skip(1)[i - 1] == s[i]);
        }
        (a + 1, b + 1)
    } else {
        let b = lemma_blank_end(s);
        assert(s.take(b) =~= s.subrange(0, b));
        (0, b)
    }
}

proof fn lemma_blank_end(s: Seq<char>) -> (end: int)
    ensures
        0 <= end <= s.len(),
        blank_end(s) == s.take(end),
        forall|i: int| end <= i < s.len() ==> whitespace(#[trigger] s[i]),
        end > 0 ==> !whitespace(s[end - 1]),
    decreases s.len(),
{
    if s.len() > 0 && whitespace(s.last()) {
        let end = lemma_blank_end(s.drop_last());
        assert(s.drop_last().take(end) =~= s.take(end));
        assert forall|i: int| end <= i < s.len() implies whitespace(#[trigger] s[i]) by {
            if i < s.len() - 1 {
                assert(s.drop_last()[i] == s[i]);
            }
        }
        end
    } else {
        assert(s.take(s.len() as int) =~= s);
        s.len() as int
    }
}

/// Texts that are joined can be told apart again, where the character between
/// them stands in none of them: the last of them follows its last place.
pub proof fn law_joined_is_split(parts: Seq<Seq<char>>, c: char, last: Seq<char>)
    requires
        !last.contains(c),
    ensures
        parts.len() == 0 ==> joined(parts.push(last), seq![c]) == last,
        parts.len() > 0 ==> split_last(joined(parts.push(last), seq![c]), c) == Some(
            (joined(parts, seq![c]), last),
        ),
{
    assert(parts.push(last).drop_last() =~= parts);
    if parts.len() > 0 {
        lemma_split_last(joined(parts, seq![c]), c, last);
    }
}

/// Two lists of texts that are joined to one text are the same list, where the
/// character between them stands in none of them and neither list is empty.
pub proof fn law_joined_is_faithful(a: Seq<Seq<char>>, b: Seq<Seq<char>>, c: char)
    requires
        a.len() > 0,
        b.len() > 0,
        forall|i: int| 0 <= i < a.len() ==> !(#[trigger] a[i]).contains(c),
        forall|i: int| 0 <= i < b.len() ==> !(#[trigger] b[i]).contains(c),
        joined(a, seq![c]) == joined(b, seq![c]),
    ensures
        a == b,
    decreases a.len(),
{
    let x = a.drop_last();
    let y = b.drop_last();
    assert(x.push(a.last()) =~= a);
    assert(y.push(b.last()) =~= b);
    law_joined_is_split(x, c, a.last());
    law_joined_is_split(y, c, b.last());
    let whole = joined(a, seq![c]);
    if x.len() == 0 && y.len() > 0 {
        assert(whole == joined(y, seq![c]) + seq![c] + b.last());
        assert(whole[joined(y, seq![c]).len() as int] == c);
    } else if x.len() > 0 && y.len() == 0 {
        assert(whole == joined(x, seq![c]) + seq![c] + a.last());
        assert(whole[joined(x, seq![c]).len() as int] == c);
    } else if x.len() > 0 {
        assert forall|i: int| 0 <= i < x.len() implies !(#[trigger] x[i]).contains(c) by {
            assert(!a[i].contains(c));
        }
        assert forall|i: int| 0 <= i < y.len() implies !(#[trigger] y[i]).contains(c) by {
            assert(!b[i].contains(c));
        }
        law_joined_is_faithful(x, y, c);
    } else {
        assert(x =~= y);
    }
}

/// Dictionary order goes by the first character in which two texts differ, and a
/// text stands before its continuations.
pub proof fn law_dictionary_order(head: Seq<char>, x: char, y: char, a: Seq<char>, b: Seq<char>)
    ensures
        precedes(head, head + seq![x] + a),
        x < y ==> precedes(head + seq![x] + a, head + seq![y] + b),
    decreases head.len(),
{
    let left = head + seq![x] + a;
    let right = head + seq![y] + b;
    if head.len() > 0 {
        let rest = head.skip(1);
        law_dictionary_order(rest, x, y, a, b);
        assert(left.skip(1) =~= rest + seq![x] + a);
        assert(right.skip(1) =~= rest + seq![y] + b);
    }
}

/// A text is found where it stands, and the first time that it does.
pub proof fn law_found_first(head: Seq<char>, needle: Seq<char>, tail: Seq<char>)
    ensures
        find_text(head + needle + tail, needle) matches Some(i) && 0 <= i <= head.len() && (head
            + needle + tail).subrange(i, i + needle.len()) == needle,
        find_text(head, needle) is None ==> forall|i: int|
            0 <= i && i + needle.len() <= head.len() ==> #[trigger] head.subrange(
                i,
                i + needle.len(),
            ) != needle,
{
    let s = head + needle + tail;
    let n = head.len() as int;
    lemma_find_from(s, needle, 0);
    assert(s.subrange(n, n + needle.len()) =~= needle);
    assert(occurs_at(s, needle, n));
    lemma_find_from(head, needle, 0);
    assert forall|i: int|
        find_text(head, needle) is None && 0 <= i && i + needle.len() <= head.len() implies
        #[trigger] head.subrange(i, i + needle.len()) != needle by {
        assert(!occurs_at(head, needle, i));
    }
}

/// A letter of ASCII is the same in either case, and no two other characters are
/// the same.
pub proof fn law_case_of_ascii_letters(a: char, b: char)
    ensures
        'A' <= a <= 'Z' && b as u32 == a as u32 + 32 ==> same_letters(seq![a], seq![b]),
        same_letters(seq![a], seq![b]) && a != b ==> ('A' <= a <= 'Z' && b as u32 == a as u32 + 32)
            || ('A' <= b <= 'Z' && a as u32 == b as u32 + 32),
        same_letters(seq![a], seq![a]),
        !same_letters(seq![a], seq![a, b]),
{
    if same_letters(seq![a], seq![b]) {
        assert(lowered(seq![a][0]) == lowered(seq![b][0]));
    }
}

/// Every place of a text is replaced, and what stands between is kept.
pub proof fn law_replaced_everywhere(
    head: Seq<char>,
    from: Seq<char>,
    to: Seq<char>,
    rest: Seq<char>,
)
    requires
        from.len() > 0,
        find_text(head + from + rest, from) == Some(head.len() as int),
    ensures
        replaced(head + from + rest, from, to) == head + to + replaced(rest, from, to),
        find_text(rest, from) is None ==> replaced(rest, from, to) == rest,
{
    let all = head + from + rest;
    assert(all.take(head.len() as int) =~= head);
    assert(all.skip((head.len() + from.len()) as int) =~= rest);
}

/// A text is split at the last place of a character, which is in neither part's
/// way: nothing is lost but the character.
pub proof fn law_split_at_last(s: Seq<char>, c: char)
    ensures
        split_last(s, c) matches Some((head, tail)) ==> s == head + seq![c] + tail && !tail.contains(
            c,
        ),
        split_last(s, c) is None <==> !s.contains(c),
{
    lemma_last_place(s, c, s.len() as int);
    if let Some(i) = rfind_below(s, c, s.len() as int) {
        assert(s =~= s.take(i) + seq![c] + s.skip(i + 1));
        assert(s.contains(s[i]));
        let tail = s.skip(i + 1);
        assert forall|k: int| 0 <= k < tail.len() implies #[trigger] tail[k] != c by {
            assert(tail[k] == s[i + 1 + k]);
        }
    }
}

proof fn lemma_last_place(s: Seq<char>, c: char, end: int)
    requires
        0 <= end <= s.len(),
    ensures
        match rfind_below(s, c, end) {
            Some(i) => 0 <= i < end && s[i] == c && forall|k: int| i < k < end ==> s[k] != c,
            None => forall|k: int| 0 <= k < end ==> s[k] != c,
        },
    decreases end,
{
    if end > 0 && s[end - 1] != c {
        lemma_last_place(s, c, end - 1);
    }
}

} // verus!
