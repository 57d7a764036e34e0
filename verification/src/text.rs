//! Text as sequences of characters: splitting, trimming, case and numbers.
//!
//! The functions here work on slices of characters. A slice stands for the text whose view it
//! has, and every contract speaks of that view.

use vstd::prelude::*;

verus! {

/// `String::push` appends one character to the end of the string.
pub assume_specification[ String::push ](s: &mut String, c: char)
    ensures
        final(s)@ == old(s)@.push(c),
;

/// The characters of a string, in order.
pub fn chars_of(s: &str) -> (r: Vec<char>)
    ensures
        r@ == s@,
{
    let mut r: Vec<char> = Vec::new();
    for c in it: s.chars()
        invariant
            r@ == it.seq().take(it.index()),
            it.seq() == s@,
    {
        r.push(c);
    }
    r
}

/// The string made of the given characters.
pub fn text_of(chars: &[char]) -> (r: String)
    ensures
        r@ == chars@,
{
    let mut r = String::new();
    let mut i: usize = 0;
    while i < chars.len()
        invariant
            i <= chars@.len(),
            r@ == chars@.take(i as int),
        decreases chars@.len() - i,
    {
        r.push(chars[i]);
        i += 1;
    }
    r
}

/// Whether two texts are the same.
pub fn same(a: &[char], b: &[char]) -> (r: bool)
    ensures
        r == (a@ == b@),
{
    if a.len() != b.len() {
        return false;
    }
    let mut i: usize = 0;
    while i < a.len()
        invariant
            i <= a@.len(),
            a@.len() == b@.len(),
            a@.take(i as int) == b@.take(i as int),
        decreases a@.len() - i,
    {
        if a[i] != b[i] {
            return false;
        }
        assert(a@.take(i + 1) == a@.take(i as int).push(a@[i as int]));
        assert(b@.take(i + 1) == b@.take(i as int).push(b@[i as int]));
        i += 1;
    }
    assert(a@.take(i as int) == a@);
    assert(b@.take(i as int) == b@);
    true
}

/// Whether two strings hold the same characters.
pub fn same_text(a: &str, b: &str) -> (r: bool)
    ensures
        r == (a@ == b@),
{
    let a = chars_of(a);
    let b = chars_of(b);
    same(&a, &b)
}

/// Whether `s` begins with `prefix`.
pub open spec fn begins_with(s: Seq<char>, prefix: Seq<char>) -> bool {
    prefix.len() <= s.len() && s.take(prefix.len() as int) == prefix
}

/// Whether `s` begins with `prefix`.
pub fn starts_with(s: &[char], prefix: &[char]) -> (r: bool)
    ensures
        r == begins_with(s@, prefix@),
{
    prefix.len() <= s.len() && same(&s[0..prefix.len()], prefix)
}

/// Appends a text to a string.
pub fn push_text(s: &mut String, more: &str)
    ensures
        final(s)@ == old(s)@ + more@,
{
    s.append(more);
}

// ------------------------------------------------------------------------------------------
// Splitting
// ------------------------------------------------------------------------------------------

/// The position of the first character of `s` that is one of `seps`, or the length of `s` where
/// there is none.
pub open spec fn first_of(s: Seq<char>, seps: Seq<char>) -> int
    decreases s.len(),
{
    if s.len() == 0 || seps.contains(s[0]) {
        0
    } else {
        1 + first_of(s.skip(1), seps)
    }
}

/// `first_of` is a position in `s` or its end, no separator stands before it, and one stands at it
/// unless it is the end.
pub proof fn lemma_first_of(s: Seq<char>, seps: Seq<char>)
    ensures
        0 <= first_of(s, seps) <= s.len(),
        forall|i: int| 0 <= i < first_of(s, seps) ==> !seps.contains(#[trigger] s[i]),
        first_of(s, seps) < s.len() ==> seps.contains(s[first_of(s, seps)]),
    decreases s.len(),
{
    if s.len() != 0 && !seps.contains(s[0]) {
        lemma_first_of(s.skip(1), seps);
        assert forall|i: int| 0 <= i < first_of(s, seps) implies !seps.contains(#[trigger] s[i]) by {
            if i > 0 {
                assert(s.skip(1)[i - 1] == s[i]);
            }
        }
    }
}

/// Only `first_of` has the properties of `lemma_first_of`.
pub proof fn lemma_first_of_unique(s: Seq<char>, seps: Seq<char>, n: int)
    requires
        0 <= n <= s.len(),
        forall|i: int| 0 <= i < n ==> !seps.contains(#[trigger] s[i]),
        n < s.len() ==> seps.contains(s[n]),
    ensures
        first_of(s, seps) == n,
{
    lemma_first_of(s, seps);
    let m = first_of(s, seps);
    if m < n {
        assert(!seps.contains(s[m]));
    }
    if n < m {
        assert(!seps.contains(s[n]));
    }
}

/// The pieces of `s` between the characters that are in `seps`: what stands before the first of
/// them, and then the pieces of what stands behind it.
pub open spec fn split(s: Seq<char>, seps: Seq<char>) -> Seq<Seq<char>>
    decreases s.len(),
{
    let n = first_of(s, seps);
    if 0 <= n < s.len() {
        seq![s.take(n)] + split(s.skip(n + 1), seps)
    } else {
        seq![s]
    }
}

/// What stands before and behind the first `sep`, where there is one.
pub open spec fn split_once(s: Seq<char>, sep: char) -> Option<(Seq<char>, Seq<char>)> {
    let n = first_of(s, seq![sep]);
    if n < s.len() {
        Some((s.take(n), s.skip(n + 1)))
    } else {
        None
    }
}

/// The texts of a list of strings.
pub open spec fn texts(list: Seq<String>) -> Seq<Seq<char>> {
    list.map_values(|s: String| s@)
}

/// Whether a list holds a text.
pub fn lists(list: &Vec<String>, text: &str) -> (r: bool)
    ensures
        r == texts(list@).contains(text@),
{
    let mut i: usize = 0;
    while i < list.len()
        invariant
            i <= list@.len(),
            forall|j: int| 0 <= j < i ==> texts(list@)[j] != text@,
        decreases list@.len() - i,
    {
        if same_text(list[i].as_str(), text) {
            assert(texts(list@)[i as int] == text@);
            return true;
        }
        i += 1;
    }
    false
}

/// The views of a list of texts.
pub open spec fn views(texts: Seq<Vec<char>>) -> Seq<Seq<char>> {
    texts.map_values(|t: Vec<char>| t@)
}

/// Whether a character is one of the given ones.
pub fn is_one_of(c: char, set: &[char]) -> (r: bool)
    ensures
        r == set@.contains(c),
{
    let mut i: usize = 0;
    while i < set.len()
        invariant
            i <= set@.len(),
            forall|j: int| 0 <= j < i ==> set@[j] != c,
        decreases set@.len() - i,
    {
        if set[i] == c {
            return true;
        }
        i += 1;
    }
    false
}

/// The position of the first separator in `s`, or its length.
pub fn find_first(s: &[char], seps: &[char]) -> (r: usize)
    ensures
        r as int == first_of(s@, seps@),
        r <= s@.len(),
{
    let mut i: usize = 0;
    while i < s.len() && !is_one_of(s[i], seps)
        invariant
            i <= s@.len(),
            forall|j: int| 0 <= j < i ==> !seps@.contains(#[trigger] s@[j]),
        decreases s@.len() - i,
    {
        i += 1;
    }
    proof {
        lemma_first_of_unique(s@, seps@, i as int);
    }
    i
}

/// Splits `s` at the characters that are in `seps`.
pub fn split_at_any(s: &[char], seps: &[char]) -> (r: Vec<Vec<char>>)
    ensures
        views(r@) == split(s@, seps@),
{
    let mut r: Vec<Vec<char>> = Vec::new();
    let mut from: usize = 0;
    assert(s@.skip(0) == s@);
    assert(views(r@) + split(s@, seps@) == split(s@, seps@));
    loop
        invariant
            from <= s@.len(),
            views(r@) + split(s@.skip(from as int), seps@) == split(s@, seps@),
        decreases s@.len() - from,
    {
        let rest = &s[from..s.len()];
        assert(rest@ == s@.skip(from as int));
        let n = find_first(rest, seps);
        let piece = vstd::slice::slice_to_vec(&rest[0..n]);
        let ghost before = r@;
        r.push(piece);
        assert(views(r@) == views(before).push(rest@.take(n as int)));
        if n < rest.len() {
            assert(rest@.skip(n + 1) == s@.skip(from + n + 1));
            assert(views(before) + (seq![rest@.take(n as int)] + split(rest@.skip(n + 1), seps@))
                == views(r@) + split(rest@.skip(n + 1), seps@));
            from = from + n + 1;
        } else {
            assert(rest@.take(n as int) == rest@);
            assert(views(before) + seq![rest@] == views(before).push(rest@));
            return r;
        }
    }
}

/// What stands before and behind the first `sep` in `s`.
pub fn cut_once(s: &[char], sep: char) -> (r: Option<(&[char], &[char])>)
    ensures
        match r {
            Some((a, b)) => split_once(s@, sep) == Some((a@, b@)),
            None => split_once(s@, sep) is None,
        },
{
    let seps = [sep];
    let n = find_first(s, &seps);
    assert(seps@ == seq![sep]);
    if n < s.len() {
        let a = &s[0..n];
        let b = &s[n + 1..s.len()];
        assert(a@ == s@.take(n as int));
        assert(b@ == s@.skip(n + 1));
        Some((a, b))
    } else {
        None
    }
}

/// The position of the last `c` in `s`, or -1.
pub open spec fn last_of(s: Seq<char>, c: char) -> int
    decreases s.len(),
{
    if s.len() == 0 || s.last() == c {
        s.len() - 1
    } else {
        last_of(s.drop_last(), c)
    }
}

/// What stands before the last `c` in `s`, where there is one.
pub open spec fn before_last(s: Seq<char>, c: char) -> Option<Seq<char>> {
    let n = last_of(s, c);
    if n >= 0 {
        Some(s.take(n))
    } else {
        None
    }
}

/// What stands before the last `c` in `s`.
pub fn cut_last(s: &[char], c: char) -> (r: Option<&[char]>)
    ensures
        match r {
            Some(a) => before_last(s@, c) == Some(a@),
            None => before_last(s@, c) is None,
        },
{
    let mut n: usize = s.len();
    assert(s@.take(n as int) == s@);
    while n > 0
        invariant
            n <= s@.len(),
            last_of(s@.take(n as int), c) == last_of(s@, c),
        decreases n,
    {
        assert(s@.take(n as int).last() == s@[n - 1]);
        assert(s@.take(n as int).drop_last() == s@.take(n - 1));
        if s[n - 1] == c {
            let a = &s[0..n - 1];
            assert(a@ == s@.take(n - 1));
            return Some(a);
        }
        n = n - 1;
    }
    None
}

// ------------------------------------------------------------------------------------------
// Trimming
// ------------------------------------------------------------------------------------------

/// The Unicode property White_Space.
pub open spec fn is_white_space(c: char) -> bool {
    let n = c as u32;
    ||| 0x09 <= n <= 0x0d
    ||| n == 0x20
    ||| n == 0x85
    ||| n == 0xa0
    ||| n == 0x1680
    ||| 0x2000 <= n <= 0x200a
    ||| n == 0x2028
    ||| n == 0x2029
    ||| n == 0x202f
    ||| n == 0x205f
    ||| n == 0x3000
}

/// The characters that `trim` takes away.
pub open spec fn white() -> spec_fn(char) -> bool {
    |c: char| is_white_space(c)
}

/// The one character `q`.
pub open spec fn only(q: char) -> spec_fn(char) -> bool {
    |c: char| c == q
}

/// `s` without the leading characters that `cut` holds of.
pub open spec fn trim_start(s: Seq<char>, cut: spec_fn(char) -> bool) -> Seq<char>
    decreases s.len(),
{
    if s.len() > 0 && cut(s[0]) {
        trim_start(s.skip(1), cut)
    } else {
        s
    }
}

/// `s` without the trailing characters that `cut` holds of.
pub open spec fn trim_end(s: Seq<char>, cut: spec_fn(char) -> bool) -> Seq<char>
    decreases s.len(),
{
    if s.len() > 0 && cut(s.last()) {
        trim_end(s.drop_last(), cut)
    } else {
        s
    }
}

/// `s` without the leading and the trailing characters that `cut` holds of.
pub open spec fn trimmed(s: Seq<char>, cut: spec_fn(char) -> bool) -> Seq<char> {
    trim_end(trim_start(s, cut), cut)
}

/// Whether a character is white space.
pub fn white_space(c: char) -> (r: bool)
    ensures
        r == is_white_space(c),
{
    let n = c as u32;
    (0x09 <= n && n <= 0x0d) || n == 0x20 || n == 0x85 || n == 0xa0 || n == 0x1680 || (0x2000 <= n
        && n <= 0x200a) || n == 0x2028 || n == 0x2029 || n == 0x202f || n == 0x205f || n == 0x3000
}

/// `s` without leading and trailing white space.
pub fn trim(s: &[char]) -> (r: &[char])
    ensures
        r@ == trimmed(s@, white()),
{
    let mut from: usize = 0;
    assert(s@.skip(0) == s@);
    while from < s.len() && white_space(s[from])
        invariant
            from <= s@.len(),
            trim_start(s@.skip(from as int), white()) == trim_start(s@, white()),
        decreases s@.len() - from,
    {
        assert(s@.skip(from as int).skip(1) == s@.skip(from + 1));
        from += 1;
    }
    let ghost rest = s@.skip(from as int);
    assert(trim_start(s@, white()) == rest);
    let mut to: usize = s.len();
    assert(s@.subrange(from as int, to as int) == rest);
    while to > from && white_space(s[to - 1])
        invariant
            from <= to <= s@.len(),
            trim_end(s@.subrange(from as int, to as int), white()) == trim_end(rest, white()),
        decreases to,
    {
        assert(s@.subrange(from as int, to as int).drop_last() == s@.subrange(from as int, to - 1));
        to -= 1;
    }
    &s[from..to]
}

/// `s` without leading and trailing characters `q`.
pub fn trim_matches(s: &[char], q: char) -> (r: &[char])
    ensures
        r@ == trimmed(s@, only(q)),
{
    let mut from: usize = 0;
    assert(s@.skip(0) == s@);
    while from < s.len() && s[from] == q
        invariant
            from <= s@.len(),
            trim_start(s@.skip(from as int), only(q)) == trim_start(s@, only(q)),
        decreases s@.len() - from,
    {
        assert(s@.skip(from as int).skip(1) == s@.skip(from + 1));
        from += 1;
    }
    let ghost rest = s@.skip(from as int);
    assert(trim_start(s@, only(q)) == rest);
    let mut to: usize = s.len();
    assert(s@.subrange(from as int, to as int) == rest);
    while to > from && s[to - 1] == q
        invariant
            from <= to <= s@.len(),
            trim_end(s@.subrange(from as int, to as int), only(q)) == trim_end(rest, only(q)),
        decreases to,
    {
        assert(s@.subrange(from as int, to as int).drop_last() == s@.subrange(from as int, to - 1));
        to -= 1;
    }
    &s[from..to]
}

// ------------------------------------------------------------------------------------------
// Case
// ------------------------------------------------------------------------------------------

/// The lower-case letter for an ASCII upper-case one; any other character as it is.
pub open spec fn lower(c: char) -> char {
    if 'A' <= c <= 'Z' {
        (c as u8 + 32) as char
    } else {
        c
    }
}

/// A text with its ASCII letters in lower case.
pub open spec fn lowered(s: Seq<char>) -> Seq<char> {
    s.map_values(|c: char| lower(c))
}

/// The lower-case letter for an ASCII upper-case one; any other character as it is.
pub fn lower_char(c: char) -> (r: char)
    ensures
        r == lower(c),
{
    if 'A' <= c && c <= 'Z' {
        (c as u8 + 32) as char
    } else {
        c
    }
}

/// A text with its ASCII letters in lower case.
pub fn to_lower(s: &[char]) -> (r: Vec<char>)
    ensures
        r@ == lowered(s@),
{
    let mut r: Vec<char> = Vec::new();
    let mut i: usize = 0;
    while i < s.len()
        invariant
            i <= s@.len(),
            r@ == lowered(s@.take(i as int)),
        decreases s@.len() - i,
    {
        r.push(lower_char(s[i]));
        i += 1;
        assert(r@ =~= lowered(s@.take(i as int)));
    }
    assert(s@.take(i as int) == s@);
    r
}

// ------------------------------------------------------------------------------------------
// Laws
// ------------------------------------------------------------------------------------------

/// A text begins with another exactly where it is that text with something behind it.
pub proof fn law_beginning_is_a_part(s: Seq<char>, prefix: Seq<char>, rest: Seq<char>)
    ensures
        begins_with(prefix + rest, prefix),
        begins_with(s, prefix) ==> s == prefix + s.skip(prefix.len() as int),
{
    assert((prefix + rest).take(prefix.len() as int) =~= prefix);
    if begins_with(s, prefix) {
        assert(s =~= s.take(prefix.len() as int) + s.skip(prefix.len() as int));
    }
}

/// Every separator splits a text, and nothing else does: the pieces around one are the pieces of
/// what stands before it and then those of what stands behind it, and a text without separators is
/// its own only piece.
pub proof fn law_separators_split(a: Seq<char>, c: char, b: Seq<char>, seps: Seq<char>)
    ensures
        seps.contains(c) ==> split(a + seq![c] + b, seps) == split(a, seps) + split(b, seps),
        (forall|i: int| 0 <= i < a.len() ==> !seps.contains(#[trigger] a[i])) ==> split(a, seps)
            == seq![a],
    decreases a.len(),
{
    lemma_first_of(a, seps);
    let n = first_of(a, seps);
    let s = a + seq![c] + b;
    if n == a.len() {
        assert(split(a, seps) =~= seq![a]);
        if seps.contains(c) {
            assert forall|i: int| 0 <= i < n implies !seps.contains(#[trigger] s[i]) by {
                assert(s[i] == a[i]);
            }
            assert(s[n] == c);
            lemma_first_of_unique(s, seps, n);
            assert(s.take(n) =~= a);
            assert(s.skip(n + 1) =~= b);
        }
    } else {
        assert(seps.contains(a[n]));
        if seps.contains(c) {
            let rest = a.skip(n + 1);
            law_separators_split(rest, c, b, seps);
            assert forall|i: int| 0 <= i < n implies !seps.contains(#[trigger] s[i]) by {
                assert(s[i] == a[i]);
            }
            assert(s[n] == a[n]);
            lemma_first_of_unique(s, seps, n);
            assert(s.take(n) =~= a.take(n));
            assert(s.skip(n + 1) =~= rest + seq![c] + b);
            assert(seq![a.take(n)] + (split(rest, seps) + split(b, seps)) =~= (seq![a.take(n)]
                + split(rest, seps)) + split(b, seps));
        }
    }
}

/// A text is cut at the first separator, wherever it is, and only where there is one.
pub proof fn law_cut_is_at_the_first(a: Seq<char>, sep: char, b: Seq<char>)
    ensures
        !a.contains(sep) ==> split_once(a + seq![sep] + b, sep) == Some((a, b)),
        !a.contains(sep) ==> split_once(a, sep) is None,
{
    let seps = seq![sep];
    let s = a + seps + b;
    let n = a.len() as int;
    assert(seps[0] == sep);
    if !a.contains(sep) {
        assert forall|i: int| 0 <= i < n implies !seps.contains(#[trigger] a[i]) by {
            assert(a.contains(a[i]));
        }
        lemma_first_of_unique(a, seps, n);
        assert forall|i: int| 0 <= i < n implies !seps.contains(#[trigger] s[i]) by {
            assert(s[i] == a[i]);
        }
        assert(s[n] == sep);
        lemma_first_of_unique(s, seps, n);
        assert(s.take(n) =~= a);
        assert(s.skip(n + 1) =~= b);
    }
}

proof fn lemma_last_of(s: Seq<char>, c: char)
    ensures
        -1 <= last_of(s, c) < s.len(),
        last_of(s, c) >= 0 ==> s[last_of(s, c)] == c,
        forall|i: int| last_of(s, c) < i < s.len() ==> #[trigger] s[i] != c,
    decreases s.len(),
{
    if s.len() > 0 && s.last() != c {
        let rest = s.drop_last();
        lemma_last_of(rest, c);
        assert forall|i: int| last_of(s, c) < i < s.len() implies #[trigger] s[i] != c by {
            if i < rest.len() {
                assert(rest[i] == s[i]);
            }
        }
    }
}

/// What stands before the last separator is found wherever that is, and only where there is one.
pub proof fn law_cut_is_at_the_last(a: Seq<char>, c: char, b: Seq<char>)
    ensures
        !b.contains(c) ==> before_last(a + seq![c] + b, c) == Some(a),
        !a.contains(c) ==> before_last(a, c) is None,
{
    let s = a + seq![c] + b;
    let n = a.len() as int;
    lemma_last_of(s, c);
    lemma_last_of(a, c);
    assert(s[n] == c);
    if !b.contains(c) {
        if last_of(s, c) > n {
            assert(b[last_of(s, c) - n - 1] == c);
        }
        assert(s.take(n) =~= a);
    }
}

proof fn lemma_trim_start(s: Seq<char>, cut: spec_fn(char) -> bool) -> (n: int)
    ensures
        0 <= n <= s.len(),
        trim_start(s, cut) == s.skip(n),
        forall|i: int| 0 <= i < n ==> cut(#[trigger] s[i]),
        n < s.len() ==> !cut(s[n]),
    decreases s.len(),
{
    if s.len() > 0 && cut(s[0]) {
        let rest = s.skip(1);
        let m = lemma_trim_start(rest, cut);
        assert(rest.skip(m) =~= s.skip(m + 1));
        assert forall|i: int| 0 <= i < m + 1 implies cut(#[trigger] s[i]) by {
            if i > 0 {
                assert(rest[i - 1] == s[i]);
            }
        }
        m + 1
    } else {
        assert(s.skip(0) =~= s);
        0
    }
}

proof fn lemma_trim_end(s: Seq<char>, cut: spec_fn(char) -> bool) -> (n: int)
    ensures
        0 <= n <= s.len(),
        trim_end(s, cut) == s.take(n),
        forall|i: int| n <= i < s.len() ==> cut(#[trigger] s[i]),
        n > 0 ==> !cut(s[n - 1]),
    decreases s.len(),
{
    if s.len() > 0 && cut(s.last()) {
        let rest = s.drop_last();
        let m = lemma_trim_end(rest, cut);
        assert(rest.take(m) =~= s.take(m));
        assert forall|i: int| m <= i < s.len() implies cut(#[trigger] s[i]) by {
            if i < rest.len() {
                assert(rest[i] == s[i]);
            }
        }
        m
    } else {
        assert(s.take(s.len() as int) =~= s);
        s.len() as int
    }
}

/// Trimming takes away all that is to be cut at both ends, and nothing else: what is taken away is
/// to be cut, and what is left neither begins nor ends with such a character.
pub proof fn law_trimming_is_exact(s: Seq<char>, cut: spec_fn(char) -> bool) -> (n: int)
    ensures
        ({
            let t = trimmed(s, cut);
            &&& 0 <= n
            &&& n + t.len() <= s.len()
            &&& s.subrange(n, n + t.len()) == t
            &&& forall|i: int| 0 <= i < n ==> cut(#[trigger] s[i])
            &&& forall|i: int| n + t.len() <= i < s.len() ==> cut(#[trigger] s[i])
            &&& t.len() > 0 ==> !cut(t[0]) && !cut(t.last())
        }),
{
    let n = lemma_trim_start(s, cut);
    let rest = s.skip(n);
    let m = lemma_trim_end(rest, cut);
    let t = trimmed(s, cut);
    assert(s.subrange(n, n + m) =~= t);
    assert forall|i: int| n + t.len() <= i < s.len() implies cut(#[trigger] s[i]) by {
        assert(rest[i - n] == s[i]);
    }
    if m > 0 {
        assert(t[0] == s[n]);
        assert(t.last() == rest[m - 1]);
    }
    n
}

/// A text that neither begins nor ends with a character to be cut is found again between any that
/// are.
pub proof fn law_trimming_finds_the_core(
    left: Seq<char>,
    core: Seq<char>,
    right: Seq<char>,
    cut: spec_fn(char) -> bool,
)
    requires
        forall|i: int| 0 <= i < left.len() ==> cut(#[trigger] left[i]),
        forall|i: int| 0 <= i < right.len() ==> cut(#[trigger] right[i]),
        core.len() > 0 ==> !cut(core[0]) && !cut(core.last()),
    ensures
        trimmed(left + core + right, cut) == core,
{
    let s = left + core + right;
    let n = law_trimming_is_exact(s, cut);
    let t = trimmed(s, cut);
    if core.len() == 0 {
        if t.len() > 0 {
            assert(t[0] == s[n]);
            if n < left.len() {
                assert(s[n] == left[n]);
            } else {
                assert(s[n] == right[n - left.len()]);
            }
        }
        assert(t =~= core);
    } else {
        let first = left.len() as int;
        let last = left.len() + core.len() - 1;
        assert(s[first] == core[0]);
        assert(s[last] == core.last());
        assert(n <= first);
        assert(n + t.len() > last);
        if n < first {
            assert(t[0] == s[n]);
            assert(s[n] == left[n]);
        }
        if n + t.len() - 1 > last {
            let i = n + t.len() - 1;
            assert(t.last() == s[i]);
            assert(s[i] == right[i - last - 1]);
        }
        assert(t =~= core);
    }
}

/// White space is what Unicode calls so: the tab and the line and page breaks, the spaces of all
/// widths, and the separators of lines and paragraphs.
pub proof fn law_white_space_is_that_of_unicode(c: char)
    ensures
        white()(c) <==> {
            let n = c as int;
            ||| 9 <= n <= 13
            ||| n == 32 || n == 133 || n == 160 || n == 5760
            ||| 8192 <= n <= 8202
            ||| n == 8232 || n == 8233 || n == 8239 || n == 8287 || n == 12288
        },
{
}

/// Lower case changes the letters from A to Z and nothing else, each on its own.
pub proof fn law_lower_case_is_that_of_ascii(s: Seq<char>, i: int)
    requires
        0 <= i < s.len(),
    ensures
        lowered(s).len() == s.len(),
        65 <= s[i] as int <= 90 ==> lowered(s)[i] as int == s[i] as int + 32,
        !(65 <= s[i] as int <= 90) ==> lowered(s)[i] == s[i],
        lowered(lowered(s)) == lowered(s),
{
    assert(lowered(lowered(s)) =~= lowered(s));
}

/// The texts of a list are those of its strings, one for each and in order.
pub proof fn law_texts_are_those_of_the_strings(list: Seq<String>, i: int)
    ensures
        texts(list).len() == list.len(),
        0 <= i < list.len() ==> texts(list)[i] == list[i]@,
{
}

} // verus!
