//! Verified string helpers: substring search, prefix/suffix tests and
//! splitting, over the character sequences that `&str` views denote.

use vstd::prelude::*;

verus! {

/// The needle `n` occurs in `h` starting at character index `i`.
pub open spec fn match_at(h: Seq<char>, n: Seq<char>, i: int) -> bool {
    0 <= i && i + n.len() <= h.len() && h.subrange(i, i + n.len() as int) == n
}

/// The needle `n` occurs somewhere in `h`.
pub open spec fn contains_seq(h: Seq<char>, n: Seq<char>) -> bool {
    exists|i: int| match_at(h, n, i)
}

/// Index of the first occurrence of `n` in `h` at or after `i`, if any.
pub open spec fn first_match_from(h: Seq<char>, n: Seq<char>, i: int) -> Option<int>
    decreases h.len() + 1 - i,
{
    if i < 0 || i + n.len() > h.len() {
        None
    } else if match_at(h, n, i) {
        Some(i)
    } else {
        first_match_from(h, n, i + 1)
    }
}

/// Index of the first occurrence of `n` in `h`, if any.
pub open spec fn first_match(h: Seq<char>, n: Seq<char>) -> Option<int> {
    first_match_from(h, n, 0)
}

/// A `None` from `first_match_from` means no match at any later index.
pub proof fn lemma_first_match_from_none(h: Seq<char>, n: Seq<char>, i: int, j: int)
    requires
        0 <= i <= j,
        first_match_from(h, n, i) is None,
    ensures
        !match_at(h, n, j),
    decreases j - i,
{
    if i + n.len() > h.len() {
        assert(!match_at(h, n, j));
    } else if i < j {
        lemma_first_match_from_none(h, n, i + 1, j);
    }
}

/// A `Some(k)` from `first_match_from` is a match, and the earliest one at
/// or after `i`.
pub proof fn lemma_first_match_from_some(h: Seq<char>, n: Seq<char>, i: int, k: int)
    requires
        0 <= i,
        first_match_from(h, n, i) == Some(k),
    ensures
        match_at(h, n, k),
        i <= k,
        forall|j: int| i <= j < k ==> !match_at(h, n, j),
    decreases h.len() + 1 - i,
{
    if i + n.len() > h.len() {
        assert(false);
    } else if match_at(h, n, i) {
    } else {
        lemma_first_match_from_some(h, n, i + 1, k);
    }
}

/// A match at `i` with none before it is the first match.
pub proof fn lemma_first_match_is(h: Seq<char>, n: Seq<char>, i: int)
    requires
        0 <= i,
        match_at(h, n, i),
        forall|j: int| 0 <= j < i ==> !match_at(h, n, j),
    ensures
        first_match(h, n) == Some(i),
{
    lemma_first_match_from_is(h, n, 0, i);
}

proof fn lemma_first_match_from_is(h: Seq<char>, n: Seq<char>, k: int, i: int)
    requires
        0 <= k <= i,
        match_at(h, n, i),
        forall|j: int| k <= j < i ==> !match_at(h, n, j),
    ensures
        first_match_from(h, n, k) == Some(i),
    decreases i - k,
{
    if k < i {
        lemma_first_match_from_is(h, n, k + 1, i);
    }
}

/// `contains_seq` holds exactly when `first_match` finds an index.
pub proof fn lemma_contains_iff_first_match(h: Seq<char>, n: Seq<char>)
    ensures
        contains_seq(h, n) <==> first_match(h, n) is Some,
{
    match first_match(h, n) {
        Some(k) => {
            lemma_first_match_from_some(h, n, 0, k);
        },
        None => {
            assert forall|i: int| !match_at(h, n, i) by {
                if 0 <= i {
                    lemma_first_match_from_none(h, n, 0, i);
                }
            }
        },
    }
}

/// Does `n` occur in `h` starting at character index `i`?
pub fn eq_at(h: &str, n: &str, i: usize) -> (r: bool)
    requires
        i + n@.len() <= h@.len(),
    ensures
        r == match_at(h@, n@, i as int),
{
    let h_len = h.unicode_len();
    let n_len = n.unicode_len();
    let mut j: usize = 0;
    while j < n_len
        invariant
            0 <= j <= n_len,
            n_len == n@.len(),
            h_len == h@.len(),
            i + n@.len() <= h@.len(),
            forall|k: int| 0 <= k < j ==> h@.index(i + k) == n@.index(k),
        decreases n_len - j,
    {
        if h.get_char(i + j) != n.get_char(j) {
            assert(h@.subrange(i as int, i + n@.len() as int).index(j as int) != n@.index(
                j as int,
            ));
            return false;
        }
        j += 1;
    }
    assert(h@.subrange(i as int, i + n@.len() as int) =~= n@);
    true
}

/// Character index of the first occurrence of `n` in `h`, if any.
pub fn find_sub(h: &str, n: &str) -> (r: Option<usize>)
    ensures
        match r {
            Some(i) => first_match(h@, n@) == Some(i as int),
            None => first_match(h@, n@) is None,
        },
{
    let h_len = h.unicode_len();
    let n_len = n.unicode_len();
    if n_len > h_len {
        return None;
    }
    if n_len == 0 {
        assert(h@.subrange(0, 0) =~= n@);
        return Some(0);
    }
    let mut i: usize = 0;
    while i <= h_len - n_len
        invariant
            0 <= i <= h_len - n_len + 1,
            h_len == h@.len(),
            n_len == n@.len(),
            0 < n_len <= h_len,
            first_match(h@, n@) == first_match_from(h@, n@, i as int),
        decreases h_len - n_len - i + 1,
    {
        if eq_at(h, n, i) {
            return Some(i);
        }
        i += 1;
    }
    None
}

/// Does `n` occur anywhere in `h`?
pub fn str_contains(h: &str, n: &str) -> (r: bool)
    ensures
        r == contains_seq(h@, n@),
{
    proof {
        lemma_contains_iff_first_match(h@, n@);
    }
    find_sub(h, n).is_some()
}

/// `h` begins with `n`.
pub open spec fn starts_with_seq(h: Seq<char>, n: Seq<char>) -> bool {
    n.len() <= h.len() && h.subrange(0, n.len() as int) == n
}

/// `h` ends with `n`.
pub open spec fn ends_with_seq(h: Seq<char>, n: Seq<char>) -> bool {
    n.len() <= h.len() && h.subrange(h.len() - n.len(), h.len() as int) == n
}

/// Does `h` begin with `n`?
pub fn str_starts_with(h: &str, n: &str) -> (r: bool)
    ensures
        r == starts_with_seq(h@, n@),
{
    let h_len = h.unicode_len();
    let n_len = n.unicode_len();
    if n_len > h_len {
        return false;
    }
    eq_at(h, n, 0)
}

/// Does `h` end with `n`?
pub fn str_ends_with(h: &str, n: &str) -> (r: bool)
    ensures
        r == ends_with_seq(h@, n@),
{
    let h_len = h.unicode_len();
    let n_len = n.unicode_len();
    if n_len > h_len {
        return false;
    }
    eq_at(h, n, h_len - n_len)
}

/// Are the two strings equal, character for character?
pub fn str_eq(a: &str, b: &str) -> (r: bool)
    ensures
        r == (a@ == b@),
{
    let a_len = a.unicode_len();
    let b_len = b.unicode_len();
    if a_len != b_len {
        return false;
    }
    let r = eq_at(a, b, 0);
    proof {
        assert(a@.subrange(0, a@.len() as int) =~= a@);
    }
    r
}

/// What remains of `h` after removing the prefix `n`, or `None` when `n` is
/// not a prefix.
pub fn strip_prefix_str<'a>(h: &'a str, n: &str) -> (r: Option<&'a str>)
    ensures
        match r {
            Some(t) => starts_with_seq(h@, n@) && t@ == h@.subrange(n@.len() as int, h@.len() as int),
            None => !starts_with_seq(h@, n@),
        },
{
    let h_len = h.unicode_len();
    let n_len = n.unicode_len();
    if n_len > h_len {
        return None;
    }
    if eq_at(h, n, 0) {
        Some(h.substring_char(n_len, h_len))
    } else {
        None
    }
}

/// The parts of `h` before and after the first occurrence of `n`, or `None`
/// when `n` does not occur in `h`.
pub fn split_once_str<'a>(h: &'a str, n: &str) -> (r: Option<(&'a str, &'a str)>)
    ensures
        match r {
            Some(p) => {
                &&& first_match(h@, n@) == Some(p.0@.len() as int)
                &&& p.0@ == h@.subrange(0, p.0@.len() as int)
                &&& p.1@ == h@.subrange(p.0@.len() + n@.len() as int, h@.len() as int)
            },
            None => first_match(h@, n@) is None,
        },
{
    let h_len = h.unicode_len();
    let n_len = n.unicode_len();
    match find_sub(h, n) {
        Some(i) => {
            proof {
                lemma_first_match_from_some(h@, n@, 0, i as int);
            }
            let lhs = h.substring_char(0, i);
            let rhs = h.substring_char(i + n_len, h_len);
            Some((lhs, rhs))
        },
        None => None,
    }
}

/// Index of the last occurrence of the character `c` in `s`, if any.
pub open spec fn last_index_of(s: Seq<char>, c: char) -> Option<int>
    decreases s.len(),
{
    if s.len() == 0 {
        None
    } else if s.index(s.len() - 1) == c {
        Some(s.len() - 1)
    } else {
        last_index_of(s.subrange(0, s.len() - 1), c)
    }
}

/// `last_index_of` names the last position holding `c`.
pub proof fn lemma_last_index_of(s: Seq<char>, c: char)
    ensures
        match last_index_of(s, c) {
            Some(i) => 0 <= i < s.len() && s.index(i) == c && forall|j: int|
                i < j < s.len() ==> s.index(j) != c,
            None => forall|j: int| 0 <= j < s.len() ==> s.index(j) != c,
        },
    decreases s.len(),
{
    if s.len() > 0 && s.index(s.len() - 1) != c {
        let sub = s.subrange(0, s.len() - 1);
        lemma_last_index_of(sub, c);
        assert(forall|j: int| 0 <= j < sub.len() ==> sub.index(j) == s.index(j));
    }
}

/// Index of the last occurrence of `c` in `s`, if any.
pub fn find_last_char(s: &str, c: char) -> (r: Option<usize>)
    ensures
        match r {
            Some(i) => last_index_of(s@, c) == Some(i as int),
            None => last_index_of(s@, c) is None,
        },
{
    let len = s.unicode_len();
    proof {
        assert(s@.subrange(0, s@.len() as int) =~= s@);
    }
    let mut i: usize = len;
    while i > 0
        invariant
            0 <= i <= len,
            len == s@.len(),
            last_index_of(s@, c) == last_index_of(s@.subrange(0, i as int), c),
        decreases i,
    {
        let ghost pre = s@.subrange(0, i as int);
        i -= 1;
        if s.get_char(i) == c {
            proof {
                assert(pre.index(pre.len() - 1) == c);
            }
            return Some(i);
        }
        proof {
            assert(pre.index(pre.len() - 1) != c);
            assert(pre.subrange(0, pre.len() - 1) =~= s@.subrange(0, i as int));
        }
    }
    proof {
        assert(s@.subrange(0, 0) =~= Seq::<char>::empty());
    }
    None
}

/// `unit` written out `count` times.
pub open spec fn spec_repeat(unit: Seq<char>, count: int) -> Seq<char>
    decreases count,
{
    if count <= 0 {
        Seq::empty()
    } else {
        spec_repeat(unit, count - 1) + unit
    }
}

/// `unit` repeated `count` times, as one string.
pub fn repeat_str(unit: &str, count: usize) -> (r: String)
    ensures
        r@ == spec_repeat(unit@, count as int),
{
    let mut out = String::new();
    let mut i: usize = 0;
    while i < count
        invariant
            0 <= i <= count,
            out@ == spec_repeat(unit@, i as int),
        decreases count - i,
    {
        out.append(unit);
        i += 1;
    }
    out
}

/// A match of the one-character needle `[c]` at `i` is exactly the character
/// `c` standing at `i`.
pub proof fn lemma_match_at_char(s: Seq<char>, c: char, i: int)
    ensures
        match_at(s, seq![c], i) <==> 0 <= i < s.len() && s.index(i) == c,
{
    if 0 <= i < s.len() && s.index(i) == c {
        assert(s.subrange(i, i + 1) =~= seq![c]);
    }
    if match_at(s, seq![c], i) {
        assert(s.subrange(i, i + 1).index(0) == c);
    }
}

/// The pieces of `s` between occurrences of the separator `c`, in order.
/// A string without the separator is one piece; each separator ends a piece.
pub open spec fn spec_split(s: Seq<char>, c: char) -> Seq<Seq<char>>
    decreases s.len(),
{
    if s.len() == 0 {
        seq![Seq::<char>::empty()]
    } else {
        let rest = spec_split(s.drop_first(), c);
        if s.index(0) == c {
            seq![Seq::<char>::empty()] + rest
        } else {
            seq![seq![s.index(0)] + rest.index(0)] + rest.drop_first()
        }
    }
}

/// `spec_split` never yields an empty list of pieces.
pub proof fn lemma_split_len(s: Seq<char>, c: char)
    ensures
        spec_split(s, c).len() >= 1,
    decreases s.len(),
{
    if s.len() > 0 {
        lemma_split_len(s.drop_first(), c);
    }
}

/// Splitting a separator-free string yields that one piece.
pub proof fn lemma_split_nosep(s: Seq<char>, c: char)
    requires
        forall|j: int| 0 <= j < s.len() ==> s.index(j) != c,
    ensures
        spec_split(s, c) == seq![s],
    decreases s.len(),
{
    if s.len() == 0 {
        assert(spec_split(s, c) =~~= seq![s]);
    } else {
        lemma_split_nosep(s.drop_first(), c);
        assert(seq![s.index(0)] + s.drop_first() =~= s);
        assert(spec_split(s, c) =~~= seq![s]);
    }
}

/// Splitting `a + [c] + b` where `a` is separator-free puts `a` first and
/// then the pieces of `b`.
pub proof fn lemma_split_concat(a: Seq<char>, b: Seq<char>, c: char)
    requires
        forall|j: int| 0 <= j < a.len() ==> a.index(j) != c,
    ensures
        spec_split(a + seq![c] + b, c) == seq![a] + spec_split(b, c),
    decreases a.len(),
{
    let s = a + seq![c] + b;
    if a.len() == 0 {
        assert(s.index(0) == c);
        assert(s.drop_first() =~= b);
        assert(spec_split(s, c) =~~= seq![a] + spec_split(b, c));
    } else {
        lemma_split_concat(a.drop_first(), b, c);
        assert(s.index(0) == a.index(0));
        assert(s.index(0) != c);
        assert(s.drop_first() =~= a.drop_first() + seq![c] + b);
        lemma_split_len(b, c);
        let rest = spec_split(s.drop_first(), c);
        assert(rest == seq![a.drop_first()] + spec_split(b, c));
        assert(rest.index(0) == a.drop_first());
        assert(seq![s.index(0)] + rest.index(0) =~= a);
        assert(rest.drop_first() =~= spec_split(b, c));
        assert(spec_split(s, c) =~~= seq![a] + spec_split(b, c));
    }
}

/// The views of a list of strings.
pub open spec fn views_of(v: Seq<String>) -> Seq<Seq<char>> {
    v.map_values(|s: String| s@)
}

/// The pieces of `s` between occurrences of the separator character, which
/// `sep` holds as a one-character string.
pub fn split_on_char(s: &str, sep: &str) -> (r: Vec<String>)
    requires
        sep@.len() == 1,
    ensures
        views_of(r@) == spec_split(s@, sep@.index(0)),
    decreases s@.len(),
{
    let ghost c = sep@.index(0);
    match split_once_str(s, sep) {
        None => {
            proof {
                assert(sep@ =~= seq![c]);
                lemma_contains_iff_first_match(s@, sep@);
                assert forall|j: int| 0 <= j < s@.len() implies s@.index(j) != c by {
                    lemma_match_at_char(s@, c, j);
                }
                lemma_split_nosep(s@, c);
            }
            let mut out: Vec<String> = Vec::new();
            out.push(s.to_owned());
            proof {
                assert(views_of(out@) =~~= seq![s@]);
            }
            out
        },
        Some((lhs, rhs)) => {
            proof {
                let i = lhs@.len() as int;
                assert(sep@ =~= seq![c]);
                lemma_first_match_from_some(s@, sep@, 0, i);
                assert forall|j: int| 0 <= j < i implies s@.index(j) != c by {
                    lemma_match_at_char(s@, c, j);
                }
                assert(forall|j: int| 0 <= j < lhs@.len() ==> lhs@.index(j) == s@.index(j));
                assert(s@ =~= lhs@ + seq![c] + rhs@);
                lemma_split_concat(lhs@, rhs@, c);
            }
            let mut out: Vec<String> = Vec::new();
            out.push(lhs.to_owned());
            let mut rest = split_on_char(rhs, sep);
            let ghost rest_view = rest@;
            out.append(&mut rest);
            proof {
                assert(views_of(out@) =~~= seq![lhs@] + views_of(rest_view));
                assert(views_of(out@) =~~= spec_split(s@, c));
            }
            out
        },
    }
}

/// `s` with every occurrence of `pat` replaced by `rep`, scanning left to
/// right without overlap. An empty pattern leaves `s` unchanged.
pub open spec fn spec_replace(s: Seq<char>, pat: Seq<char>, rep: Seq<char>) -> Seq<char>
    decreases s.len(),
{
    if pat.len() == 0 {
        s
    } else {
        match first_match(s, pat) {
            Some(i) => if 0 <= i && i + pat.len() <= s.len() {
                s.subrange(0, i) + rep + spec_replace(
                    s.subrange(i + pat.len() as int, s.len() as int),
                    pat,
                    rep,
                )
            } else {
                s
            },
            None => s,
        }
    }
}

/// `s` with every occurrence of `pat` replaced by `rep`.
pub fn replace_all(s: &str, pat: &str, rep: &str) -> (r: String)
    requires
        pat@.len() >= 1,
    ensures
        r@ == spec_replace(s@, pat@, rep@),
    decreases s@.len(),
{
    match split_once_str(s, pat) {
        None => s.to_owned(),
        Some((lhs, rhs)) => {
            proof {
                lemma_first_match_from_some(s@, pat@, 0, lhs@.len() as int);
            }
            let tail = replace_all(rhs, pat, rep);
            let mut out = lhs.to_owned();
            out.append(rep);
            out.append(tail.as_str());
            out
        },
    }
}

/// The decimal digits of `n`, most significant first.
pub open spec fn spec_digits(n: nat) -> Seq<char>
    decreases n,
{
    if n < 10 {
        seq![digit_char(n)]
    } else {
        spec_digits(n / 10) + seq![digit_char(n % 10)]
    }
}

/// The character for the decimal digit `d`.
pub open spec fn digit_char(d: nat) -> char {
    if d == 0 {
        '0'
    } else if d == 1 {
        '1'
    } else if d == 2 {
        '2'
    } else if d == 3 {
        '3'
    } else if d == 4 {
        '4'
    } else if d == 5 {
        '5'
    } else if d == 6 {
        '6'
    } else if d == 7 {
        '7'
    } else if d == 8 {
        '8'
    } else {
        '9'
    }
}

/// One decimal digit as a string.
fn digit_str(d: u64) -> (r: &'static str)
    requires
        d < 10,
    ensures
        r@ =~= seq![digit_char(d as nat)],
{
    proof {
        reveal_strlit("0");
        reveal_strlit("1");
        reveal_strlit("2");
        reveal_strlit("3");
        reveal_strlit("4");
        reveal_strlit("5");
        reveal_strlit("6");
        reveal_strlit("7");
        reveal_strlit("8");
        reveal_strlit("9");
    }
    match d {
        0 => "0",
        1 => "1",
        2 => "2",
        3 => "3",
        4 => "4",
        5 => "5",
        6 => "6",
        7 => "7",
        8 => "8",
        _ => "9",
    }
}

/// `n` written in decimal.
pub fn u64_to_string(n: u64) -> (r: String)
    ensures
        r@ == spec_digits(n as nat),
    decreases n,
{
    if n < 10 {
        let mut out = String::new();
        out.append(digit_str(n));
        proof {
            assert(out@ =~= spec_digits(n as nat));
        }
        out
    } else {
        let mut out = u64_to_string(n / 10);
        out.append(digit_str(n % 10));
        out
    }
}

} // verus!
