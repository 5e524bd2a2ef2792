//! Character-sequence model of the string operations the compiler relies on.
//!
//! Text is reasoned about through its view, a `Seq<char>`.  The operations on
//! `str` that the compiler needs (trimming, searching, splitting) are computed
//! over the characters of the text and proved against these spec functions.
use vstd::prelude::*;
use vstd::string::StrSliceExecFns;

verus! {

/// Unicode `White_Space`, the set that `char::is_whitespace` and `str::trim` use.
pub open spec fn is_ws(c: char) -> bool {
    ||| ('\u{9}' <= c && c <= '\u{d}')
    ||| c == ' '
    ||| c == '\u{85}'
    ||| c == '\u{a0}'
    ||| c == '\u{1680}'
    ||| ('\u{2000}' <= c && c <= '\u{200a}')
    ||| c == '\u{2028}'
    ||| c == '\u{2029}'
    ||| c == '\u{202f}'
    ||| c == '\u{205f}'
    ||| c == '\u{3000}'
}

/// The sequence without its leading whitespace.
pub open spec fn trim_start(s: Seq<char>) -> Seq<char>
    decreases s.len(),
{
    if s.len() > 0 && is_ws(s[0]) {
        trim_start(s.drop_first())
    } else {
        s
    }
}

/// The sequence without its trailing whitespace.
pub open spec fn trim_end(s: Seq<char>) -> Seq<char>
    decreases s.len(),
{
    if s.len() > 0 && is_ws(s.last()) {
        trim_end(s.drop_last())
    } else {
        s
    }
}

/// The sequence without leading and trailing whitespace.
pub open spec fn trim(s: Seq<char>) -> Seq<char> {
    trim_end(trim_start(s))
}

/// The first index at which `p` occurs in `s`.
pub open spec fn find_index(s: Seq<char>, p: Seq<char>) -> Option<int>
    decreases s.len(),
{
    if p.len() > s.len() {
        None
    } else if p.len() == 0 || s.take(p.len() as int) == p {
        Some(0)
    } else {
        match find_index(s.drop_first(), p) {
            Some(k) => Some(k + 1),
            None => None,
        }
    }
}

/// `p` occurs somewhere in `s` (the empty pattern occurs everywhere).
pub open spec fn contains(s: Seq<char>, p: Seq<char>) -> bool {
    find_index(s, p) is Some
}

/// `p` is a prefix of `s`.
pub open spec fn starts_with(s: Seq<char>, p: Seq<char>) -> bool {
    p.len() <= s.len() && s.take(p.len() as int) == p
}

/// `str::split_once` with a string delimiter.
pub open spec fn split_once(s: Seq<char>, p: Seq<char>) -> Option<(Seq<char>, Seq<char>)> {
    match find_index(s, p) {
        Some(i) => Some((s.take(i), s.skip(i + p.len()))),
        None => None,
    }
}

/// `str::strip_prefix` with a string prefix.
pub open spec fn strip_prefix(s: Seq<char>, p: Seq<char>) -> Option<Seq<char>> {
    if starts_with(s, p) {
        Some(s.skip(p.len() as int))
    } else {
        None
    }
}

/// The first index of `s` holding one of the characters of `set`.
pub open spec fn find_any(s: Seq<char>, set: Seq<char>) -> Option<int>
    decreases s.len(),
{
    if s.len() == 0 {
        None
    } else if set.contains(s[0]) {
        Some(0)
    } else {
        match find_any(s.drop_first(), set) {
            Some(k) => Some(k + 1),
            None => None,
        }
    }
}

/// `str::split_once` with a set of delimiter characters.
pub open spec fn split_once_any(s: Seq<char>, set: Seq<char>) -> Option<(Seq<char>, Seq<char>)> {
    match find_any(s, set) {
        Some(i) => Some((s.take(i), s.skip(i + 1))),
        None => None,
    }
}

/// `str::trim_start_matches` with a set of characters.
pub open spec fn trim_start_any(s: Seq<char>, set: Seq<char>) -> Seq<char>
    decreases s.len(),
{
    if s.len() > 0 && set.contains(s[0]) {
        trim_start_any(s.drop_first(), set)
    } else {
        s
    }
}

/// `str::split` with a set of delimiter characters: the pieces between delimiters.
pub open spec fn split_any(s: Seq<char>, set: Seq<char>) -> Seq<Seq<char>>
    decreases s.len(),
{
    match find_any(s, set) {
        Some(i) => {
            proof {
                lemma_find_any_bounds(s, set);
            }
            seq![s.take(i)] + split_any(s.skip(i + 1), set)
        },
        None => seq![s],
    }
}

/// The pieces of `s` between its `'\n'` characters, the last one included even
/// when empty.
pub open spec fn segments(s: Seq<char>) -> Seq<Seq<char>>
    decreases s.len(),
{
    match find_index(s, seq!['\n']) {
        Some(i) => {
            proof {
                lemma_find_index_bounds(s, seq!['\n']);
            }
            seq![s.take(i)] + segments(s.skip(i + 1))
        },
        None => seq![s],
    }
}

/// The ASCII digits `'0'..='9'`.
pub open spec fn is_ascii_digit(c: char) -> bool {
    '0' <= c && c <= '9'
}

/// The length of the longest prefix of `s` made of ASCII digits.
pub open spec fn digit_prefix_len(s: Seq<char>) -> nat
    decreases s.len(),
{
    if s.len() > 0 && is_ascii_digit(s[0]) {
        1 + digit_prefix_len(s.drop_first())
    } else {
        0
    }
}

// ---------------------------------------------------------------------------
// Lemmas about the model.
// ---------------------------------------------------------------------------

/// Where `find_index` points, the pattern occurs.
pub proof fn lemma_find_index_bounds(s: Seq<char>, p: Seq<char>)
    ensures
        find_index(s, p) matches Some(i) ==> 0 <= i && i + p.len() <= s.len()
            && s.subrange(i, i + p.len()) == p,
    decreases s.len(),
{
    if p.len() > s.len() {
    } else if p.len() == 0 || s.take(p.len() as int) == p {
        assert(s.subrange(0, p.len() as int) == s.take(p.len() as int));
        assert(s.subrange(0, p.len() as int) =~= p);
    } else {
        lemma_find_index_bounds(s.drop_first(), p);
        if let Some(k) = find_index(s.drop_first(), p) {
            assert(s.subrange(k + 1, k + 1 + p.len()) == s.drop_first().subrange(k, k + p.len()));
        }
    }
}

/// Where `find_any` points, a character of the set stands, and none before it.
pub proof fn lemma_find_any_bounds(s: Seq<char>, set: Seq<char>)
    ensures
        find_any(s, set) matches Some(i) ==> 0 <= i < s.len() && set.contains(s[i])
            && forall|j: int| 0 <= j < i ==> !set.contains(#[trigger] s[j]),
        find_any(s, set) is None ==> forall|j: int| 0 <= j < s.len() ==> !set.contains(#[trigger] s[j]),
    decreases s.len(),
{
    if s.len() == 0 {
    } else if set.contains(s[0]) {
    } else {
        lemma_find_any_bounds(s.drop_first(), set);
        assert forall|j: int| 1 <= j < s.len() implies s[j] == s.drop_first()[j - 1] by {}
    }
}

// ---------------------------------------------------------------------------
// The string operations, computed over the characters of the text.
// ---------------------------------------------------------------------------

/// Whether a character is Unicode white space.
fn is_ws_char(c: char) -> (r: bool)
    ensures
        r == is_ws(c),
{
    ('\u{9}' <= c && c <= '\u{d}') || c == ' ' || c == '\u{85}' || c == '\u{a0}' || c == '\u{1680}' || ('\u{2000}'
        <= c && c <= '\u{200a}') || c == '\u{2028}' || c == '\u{2029}' || c == '\u{202f}' || c == '\u{205f}' || c
        == '\u{3000}'
}

/// Whether a character belongs to a set of characters.
fn in_set(set: &[char], c: char) -> (r: bool)
    ensures
        r == set@.contains(c),
{
    let mut i: usize = 0;
    while i < set.len()
        invariant
            i <= set@.len(),
            forall|j: int| 0 <= j < i ==> set@[j] != c,
        decreases set@.len() - i,
    {
        if set[i] == c {
            assert(set@[i as int] == c);
            return true;
        }
        i = i + 1;
    }
    false
}

/// The number of leading characters of `s` that satisfy `is_ws`, or belong to
/// `set` when one is given.
fn leading_run(s: &str, n: usize, set: Option<&[char]>) -> (i: usize)
    requires
        n == s@.len(),
    ensures
        i <= n,
        set is None ==> trim_start(s@) == s@.skip(i as int),
        set matches Some(chars) ==> trim_start_any(s@, chars@) == s@.skip(i as int),
{
    let mut i: usize = 0;
    assert(s@.skip(0) =~= s@);
    while i < n
        invariant
            i <= n,
            n == s@.len(),
            set is None ==> trim_start(s@) == trim_start(s@.skip(i as int)),
            set matches Some(chars) ==> trim_start_any(s@, chars@) == trim_start_any(s@.skip(i as int), chars@),
        decreases n - i,
    {
        let c = s.get_char(i);
        let skip = match set {
            Some(chars) => in_set(chars, c),
            None => is_ws_char(c),
        };
        assert(s@.skip(i as int)[0] == c);
        assert(s@.skip(i as int).drop_first() =~= s@.skip(i + 1));
        if !skip {
            return i;
        }
        i = i + 1;
    }
    assert(s@.skip(i as int) =~= Seq::<char>::empty());
    i
}

/// The end of `s.subrange(start, n)` once its trailing white space is removed.
fn trailing_ws_end(s: &str, start: usize, n: usize) -> (j: usize)
    requires
        start <= n,
        n == s@.len(),
    ensures
        start <= j <= n,
        trim_end(s@.subrange(start as int, n as int)) == s@.subrange(start as int, j as int),
{
    let mut j: usize = n;
    while j > start
        invariant
            start <= j <= n,
            n == s@.len(),
            trim_end(s@.subrange(start as int, n as int)) == trim_end(s@.subrange(start as int, j as int)),
        decreases j,
    {
        let c = s.get_char(j - 1);
        assert(s@.subrange(start as int, j as int).last() == c);
        assert(s@.subrange(start as int, j as int).drop_last() =~= s@.subrange(start as int, j - 1));
        if !is_ws_char(c) {
            return j;
        }
        j = j - 1;
    }
    assert(s@.subrange(start as int, j as int) =~= Seq::<char>::empty());
    j
}

/// `s` without leading and trailing Unicode white space (`str::trim`).
pub(crate) fn str_trim(s: &str) -> (r: &str)
    ensures
        r@ == trim(s@),
{
    let n = s.unicode_len();
    let i = leading_run(s, n, None);
    assert(s@.skip(i as int) =~= s@.subrange(i as int, n as int));
    let j = trailing_ws_end(s, i, n);
    s.substring_char(i, j)
}

/// `s` without leading Unicode white space (`str::trim_start`).
pub(crate) fn str_trim_start(s: &str) -> (r: &str)
    ensures
        r@ == trim_start(s@),
{
    let n = s.unicode_len();
    let i = leading_run(s, n, None);
    assert(s@.skip(i as int) =~= s@.subrange(i as int, n as int));
    s.substring_char(i, n)
}

/// Whether `p` occurs in `s` at index `i`.
fn occurs_at(s: &Vec<char>, p: &Vec<char>, i: usize) -> (r: bool)
    requires
        i + p@.len() <= s@.len(),
    ensures
        r == (s@.subrange(i as int, i + p@.len()) == p@),
{
    let m = p.len();
    let len = s.len();
    let mut k: usize = 0;
    while k < m
        invariant
            k <= m,
            m == p@.len(),
            len == s@.len(),
            i + m <= len,
            s@.subrange(i as int, i + k) == p@.take(k as int),
        decreases m - k,
    {
        if s[i + k] != p[k] {
            assert(s@.subrange(i as int, i + m)[k as int] == s@[i + k]);
            return false;
        }
        assert(s@.subrange(i as int, i + k + 1) =~= s@.subrange(i as int, i + k).push(s@[i + k]));
        assert(p@.take(k + 1) =~= p@.take(k as int).push(p@[k as int]));
        k = k + 1;
    }
    assert(p@.take(m as int) =~= p@);
    true
}

/// The first index at which `p` occurs in `s`.
fn find_in(s: &Vec<char>, p: &Vec<char>) -> (r: Option<usize>)
    ensures
        match r {
            Some(i) => find_index(s@, p@) == Some(i as int),
            None => find_index(s@, p@) is None,
        },
{
    let n = s.len();
    let m = p.len();
    if m > n {
        return None;
    }
    if m == 0 {
        return Some(0);
    }
    let mut i: usize = 0;
    assert(s@.skip(0) =~= s@);
    while i <= n - m
        invariant
            1 <= m <= n,
            i <= n - m + 1,
            n == s@.len(),
            m == p@.len(),
            find_index(s@, p@) == match find_index(s@.skip(i as int), p@) {
                Some(k) => Some(k + i),
                None => None::<int>,
            },
        decreases n - m + 1 - i,
    {
        assert(s@.skip(i as int).take(m as int) =~= s@.subrange(i as int, i + m));
        if occurs_at(s, p, i) {
            return Some(i);
        }
        assert(s@.skip(i as int).drop_first() =~= s@.skip(i + 1));
        i = i + 1;
    }
    None
}

/// Whether `p` occurs in `s` (`str::contains`).
pub(crate) fn str_contains(s: &str, p: &str) -> (r: bool)
    ensures
        r == contains(s@, p@),
{
    let sv = chars_of(s);
    let pv = chars_of(p);
    find_in(&sv, &pv).is_some()
}

/// Whether `p` is a prefix of `s` (`str::starts_with`).
pub(crate) fn str_starts_with(s: &str, p: &str) -> (r: bool)
    ensures
        r == starts_with(s@, p@),
{
    let sv = chars_of(s);
    let pv = chars_of(p);
    if pv.len() > sv.len() {
        return false;
    }
    assert(s@.subrange(0, p@.len() as int) =~= s@.take(p@.len() as int));
    occurs_at(&sv, &pv, 0)
}

/// `s` without the prefix `p`, when it has it (`str::strip_prefix`).
pub(crate) fn str_strip_prefix<'a>(s: &'a str, p: &str) -> (r: Option<&'a str>)
    ensures
        match r {
            Some(rest) => strip_prefix(s@, p@) == Some(rest@),
            None => strip_prefix(s@, p@) is None,
        },
{
    if str_starts_with(s, p) {
        let n = s.unicode_len();
        let m = p.unicode_len();
        assert(s@.skip(m as int) =~= s@.subrange(m as int, n as int));
        Some(s.substring_char(m, n))
    } else {
        None
    }
}

/// The parts of `s` before and after the first occurrence of `p`
/// (`str::split_once` with a string delimiter).
pub(crate) fn str_split_once<'a>(s: &'a str, p: &str) -> (r: Option<(&'a str, &'a str)>)
    ensures
        match r {
            Some((head, tail)) => split_once(s@, p@) == Some((head@, tail@)),
            None => split_once(s@, p@) is None,
        },
{
    let sv = chars_of(s);
    let pv = chars_of(p);
    match find_in(&sv, &pv) {
        Some(i) => {
            proof {
                lemma_find_index_bounds(s@, p@);
            }
            let n = sv.len();
            let m = pv.len();
            assert(s@.take(i as int) =~= s@.subrange(0, i as int));
            assert(s@.skip(i + m) =~= s@.subrange(i + m, n as int));
            Some((s.substring_char(0, i), s.substring_char(i + m, n)))
        },
        None => None,
    }
}

/// The first index of `s` holding a character of `set`.
fn find_any_in(s: &str, n: usize, set: &[char]) -> (r: Option<usize>)
    requires
        n == s@.len(),
    ensures
        match r {
            Some(i) => find_any(s@, set@) == Some(i as int),
            None => find_any(s@, set@) is None,
        },
{
    let mut i: usize = 0;
    assert(s@.skip(0) =~= s@);
    while i < n
        invariant
            i <= n,
            n == s@.len(),
            find_any(s@, set@) == match find_any(s@.skip(i as int), set@) {
                Some(k) => Some(k + i),
                None => None::<int>,
            },
        decreases n - i,
    {
        let c = s.get_char(i);
        assert(s@.skip(i as int)[0] == c);
        if in_set(set, c) {
            return Some(i);
        }
        assert(s@.skip(i as int).drop_first() =~= s@.skip(i + 1));
        i = i + 1;
    }
    assert(s@.skip(i as int) =~= Seq::<char>::empty());
    None
}

/// The parts of `s` before and after the first character that belongs to
/// `set` (`str::split_once` with a slice of characters).
pub(crate) fn str_split_once_any<'a>(s: &'a str, set: &[char]) -> (r: Option<(&'a str, &'a str)>)
    ensures
        match r {
            Some((head, tail)) => split_once_any(s@, set@) == Some((head@, tail@)),
            None => split_once_any(s@, set@) is None,
        },
{
    let n = s.unicode_len();
    match find_any_in(s, n, set) {
        Some(i) => {
            proof {
                lemma_find_any_bounds(s@, set@);
            }
            assert(s@.take(i as int) =~= s@.subrange(0, i as int));
            assert(s@.skip(i + 1) =~= s@.subrange(i + 1, n as int));
            Some((s.substring_char(0, i), s.substring_char(i + 1, n)))
        },
        None => None,
    }
}

/// `s` without its leading characters that belong to `set`
/// (`str::trim_start_matches` with a slice of characters).
pub(crate) fn str_trim_start_any<'a>(s: &'a str, set: &[char]) -> (r: &'a str)
    ensures
        r@ == trim_start_any(s@, set@),
{
    let n = s.unicode_len();
    let i = leading_run(s, n, Some(set));
    assert(s@.skip(i as int) =~= s@.subrange(i as int, n as int));
    s.substring_char(i, n)
}

/// The pieces of `s` between the characters of `set` (`str::split` with a slice of characters).
pub fn str_split_any<'a>(s: &'a str, set: &[char]) -> (r: Vec<&'a str>)
    ensures
        r@.len() == split_any(s@, set@).len(),
        forall|i: int| 0 <= i < r@.len() ==> #[trigger] r@[i]@ == split_any(s@, set@)[i],
{
    let mut pieces: Vec<&'a str> = Vec::new();
    let mut rest: &'a str = s;
    loop
        invariant
            split_any(s@, set@) == pieces@.map_values(|p: &str| p@) + split_any(rest@, set@),
        decreases rest@.len(),
    {
        match str_split_once_any(rest, set) {
            Some((head, tail)) => {
                proof {
                    lemma_find_any_bounds(rest@, set@);
                }
                let ghost before = pieces@.map_values(|p: &str| p@);
                pieces.push(head);
                assert(pieces@.map_values(|p: &str| p@) =~= before.push(head@));
                assert(split_any(rest@, set@) == seq![head@] + split_any(tail@, set@));
                assert(before + (seq![head@] + split_any(tail@, set@)) =~= before.push(head@) + split_any(tail@, set@));
                rest = tail;
            },
            None => {
                let ghost before = pieces@.map_values(|p: &str| p@);
                pieces.push(rest);
                assert(pieces@.map_values(|p: &str| p@) =~= before.push(rest@));
                assert(before + split_any(rest@, set@) =~= before.push(rest@));
                let ghost all = pieces@.map_values(|p: &str| p@);
                assert forall|i: int| 0 <= i < pieces@.len() implies #[trigger] pieces@[i]@ == split_any(s@, set@)[i] by {
                    assert(all[i] == pieces@[i]@);
                }
                return pieces;
            },
        }
    }
}

/// Whether two texts hold the same characters.
pub(crate) fn str_eq(a: &str, b: &str) -> (r: bool)
    ensures
        r == (a@ == b@),
{
    let n = a.unicode_len();
    if n != b.unicode_len() {
        return false;
    }
    let mut i: usize = 0;
    while i < n
        invariant
            i <= n,
            n == a@.len(),
            n == b@.len(),
            a@.take(i as int) == b@.take(i as int),
        decreases n - i,
    {
        if a.get_char(i) != b.get_char(i) {
            return false;
        }
        assert(a@.take(i + 1) =~= a@.take(i as int).push(a@[i as int]));
        assert(b@.take(i + 1) =~= b@.take(i as int).push(b@[i as int]));
        i = i + 1;
    }
    assert(a@.take(n as int) =~= a@);
    assert(b@.take(n as int) =~= b@);
    true
}

/// Calls `String::push`: appends a character.
#[verifier::external_body]
fn push_char(s: &mut String, c: char)
    ensures
        final(s)@ == old(s)@.push(c),
{
    s.push(c)
}

/// Text made of the given characters.
pub fn string_from_chars(v: &[char]) -> (r: String)
    ensures
        r@ == v@,
{
    let mut out = String::new();
    let mut i: usize = 0;
    while i < v.len()
        invariant
            i <= v@.len(),
            out@ == v@.take(i as int),
        decreases v@.len() - i,
    {
        push_char(&mut out, v[i]);
        assert(v@.take(i + 1) =~= v@.take(i as int).push(v@[i as int]));
        i = i + 1;
    }
    assert(v@.take(i as int) =~= v@);
    out
}

/// The characters of a text, in order.
pub fn chars_of(s: &str) -> (r: Vec<char>)
    ensures
        r@ == s@,
{
    let n = s.unicode_len();
    let mut out: Vec<char> = Vec::new();
    let mut i: usize = 0;
    while i < n
        invariant
            i <= n,
            n == s@.len(),
            out@ == s@.take(i as int),
        decreases n - i,
    {
        out.push(s.get_char(i));
        assert(s@.take(i + 1) =~= s@.take(i as int).push(s@[i as int]));
        i = i + 1;
    }
    assert(s@.take(i as int) =~= s@);
    out
}

/// Text made of `a` followed by `b`.
pub fn concat2(a: &str, b: &str) -> (r: String)
    ensures
        r@ == a@ + b@,
{
    let s = a.to_owned();
    s.concat(b)
}

/// Text made of `a`, `b` and `c` in turn.
pub fn concat3(a: &str, b: &str, c: &str) -> (r: String)
    ensures
        r@ == a@ + b@ + c@,
{
    let s = a.to_owned();
    let s = s.concat(b);
    s.concat(c)
}

/// Text made of the four parts in turn.
pub fn concat4(a: &str, b: &str, c: &str, d: &str) -> (r: String)
    ensures
        r@ == a@ + b@ + c@ + d@,
{
    let s = a.to_owned();
    let s = s.concat(b);
    let s = s.concat(c);
    s.concat(d)
}

/// An owned copy of `s`.
pub fn owned(s: &str) -> (r: String)
    ensures
        r@ == s@,
{
    s.to_owned()
}

} // verus!
