//! Verified character-level string utilities.
//!
//! The rest of the library describes its behaviour over `Seq<char>` views, so
//! this module provides the spec-level vocabulary (lexicographic order,
//! containment, splitting) together with executable functions proved against
//! it. Lexicographic comparison of code points coincides with byte-wise
//! comparison of the UTF-8 encodings, so contracts phrased over `Seq<char>`
//! also describe the byte-wise order of the underlying strings.

use vstd::prelude::*;
use vstd::string::StrSliceExecFns;
use vstd::string::StringExecFns;

verus! {

/// Lexicographic "less than or equal" on sequences of characters, ordered by
/// code point. For UTF-8 strings this is exactly the byte-wise order.
pub open spec fn lex_leq(a: Seq<char>, b: Seq<char>) -> bool
    decreases a.len(),
{
    if a.len() == 0 {
        true
    } else if b.len() == 0 {
        false
    } else if (a[0] as u32) != (b[0] as u32) {
        (a[0] as u32) < (b[0] as u32)
    } else {
        lex_leq(a.skip(1), b.skip(1))
    }
}

/// The order is total.
pub proof fn lemma_lex_leq_total(a: Seq<char>, b: Seq<char>)
    ensures
        lex_leq(a, b) || lex_leq(b, a),
    decreases a.len(),
{
    if a.len() == 0 || b.len() == 0 {
    } else if (a[0] as u32) != (b[0] as u32) {
    } else {
        lemma_lex_leq_total(a.skip(1), b.skip(1));
    }
}

/// The order is transitive.
pub proof fn lemma_lex_leq_trans(a: Seq<char>, b: Seq<char>, c: Seq<char>)
    requires
        lex_leq(a, b),
        lex_leq(b, c),
    ensures
        lex_leq(a, c),
    decreases a.len(),
{
    if a.len() == 0 {
    } else if b.len() == 0 {
    } else if c.len() == 0 {
    } else {
        if (a[0] as u32) == (b[0] as u32) && (b[0] as u32) == (c[0] as u32) {
            lemma_lex_leq_trans(a.skip(1), b.skip(1), c.skip(1));
        }
    }
}

/// Compares two strings in lexicographic code-point order.
pub fn str_leq(a: &str, b: &str) -> (r: bool)
    ensures
        r == lex_leq(a@, b@),
{
    let alen = a.unicode_len();
    let blen = b.unicode_len();
    let mut i: usize = 0;
    proof {
        assert(a@.skip(0) =~= a@);
        assert(b@.skip(0) =~= b@);
    }
    loop
        invariant
            i <= alen,
            i <= blen,
            alen == a@.len(),
            blen == b@.len(),
            lex_leq(a@, b@) == lex_leq(a@.skip(i as int), b@.skip(i as int)),
        decreases alen - i,
    {
        if i >= alen {
            return true;
        }
        if i >= blen {
            return false;
        }
        let ca = a.get_char(i);
        let cb = b.get_char(i);
        if (ca as u32) != (cb as u32) {
            return (ca as u32) < (cb as u32);
        }
        proof {
            assert(a@.skip(i as int).skip(1) =~= a@.skip(i + 1));
            assert(b@.skip(i as int).skip(1) =~= b@.skip(i + 1));
        }
        i = i + 1;
    }
}

/// Character-wise string equality.
pub fn str_eq(a: &str, b: &str) -> (r: bool)
    ensures
        r == (a@ == b@),
{
    let alen = a.unicode_len();
    let blen = b.unicode_len();
    if alen != blen {
        return false;
    }
    let mut i: usize = 0;
    while i < alen
        invariant
            i <= alen,
            alen == a@.len(),
            alen == b@.len(),
            forall|j: int| 0 <= j < i ==> a@[j] == b@[j],
        decreases alen - i,
    {
        if a.get_char(i) != b.get_char(i) {
            return false;
        }
        i = i + 1;
    }
    proof {
        assert(a@ =~= b@);
    }
    true
}

/// `p` is a prefix of `s`.
pub open spec fn is_prefix_of(p: Seq<char>, s: Seq<char>) -> bool {
    p.len() <= s.len() && s.subrange(0, p.len() as int) == p
}

/// Tests whether `s` starts with `p`.
pub fn starts_with_str(s: &str, p: &str) -> (r: bool)
    ensures
        r == is_prefix_of(p@, s@),
{
    let slen = s.unicode_len();
    let plen = p.unicode_len();
    if plen > slen {
        return false;
    }
    let mut i: usize = 0;
    while i < plen
        invariant
            i <= plen,
            plen <= slen,
            slen == s@.len(),
            plen == p@.len(),
            forall|j: int| 0 <= j < i ==> s@[j] == p@[j],
        decreases plen - i,
    {
        if s.get_char(i) != p.get_char(i) {
            proof {
                assert(s@.subrange(0, p@.len() as int)[i as int] == s@[i as int]);
            }
            return false;
        }
        i = i + 1;
    }
    proof {
        assert(s@.subrange(0, p@.len() as int) =~= p@);
    }
    true
}

/// `n` occurs as a contiguous run somewhere in `h`.
pub open spec fn contains_seq(h: Seq<char>, n: Seq<char>) -> bool {
    exists|k: int|
        0 <= k <= h.len() - n.len() && #[trigger] h.subrange(k, k + n.len() as int) == n
}

/// Substring search: does `h` contain `n`?
pub fn contains_str(h: &str, n: &str) -> (r: bool)
    ensures
        r == contains_seq(h@, n@),
{
    let hlen = h.unicode_len();
    let nlen = n.unicode_len();
    if nlen > hlen {
        proof {
            assert(!contains_seq(h@, n@));
        }
        return false;
    }
    if nlen == 0 {
        proof {
            assert(h@.subrange(0, 0 + n@.len() as int) =~= n@);
            assert(contains_seq(h@, n@));
        }
        return true;
    }
    let mut k: usize = 0;
    while k <= hlen - nlen
        invariant
            1 <= nlen <= hlen,
            hlen == h@.len(),
            nlen == n@.len(),
            k <= hlen - nlen + 1,
            forall|kk: int| 0 <= kk < k ==> #[trigger] h@.subrange(kk, kk + n@.len() as int) != n@,
        decreases hlen - nlen + 1 - k,
    {
        let mut j: usize = 0;
        let mut matched = true;
        while j < nlen && matched
            invariant
                j <= nlen,
                k + nlen <= hlen,
                hlen == h@.len(),
                nlen == n@.len(),
                matched ==> forall|t: int| 0 <= t < j ==> h@[k + t] == n@[t],
                !matched ==> h@.subrange(k as int, k + n@.len() as int) != n@,
            decreases nlen + (if matched { 1int } else { 0int }) - j,
        {
            if h.get_char(k + j) != n.get_char(j) {
                proof {
                    assert(h@.subrange(k as int, k + n@.len() as int)[j as int] == h@[k + j]);
                }
                matched = false;
            } else {
                j = j + 1;
            }
        }
        if matched {
            proof {
                assert(h@.subrange(k as int, k + n@.len() as int) =~= n@);
            }
            return true;
        }
        k = k + 1;
    }
    proof {
        assert forall|kk: int| 0 <= kk <= h@.len() - n@.len() implies #[trigger] h@.subrange(
            kk,
            kk + n@.len() as int,
        ) != n@ by {}
    }
    false
}

/// Index of the first occurrence of `sep` in `s`, or -1 if absent.
pub open spec fn find_char(s: Seq<char>, sep: char) -> int
    decreases s.len(),
{
    if s.len() == 0 {
        -1
    } else if s[0] == sep {
        0
    } else {
        let r = find_char(s.skip(1), sep);
        if r == -1 {
            -1
        } else {
            r + 1
        }
    }
}

/// `find_char` returns exactly the first occurrence.
pub proof fn lemma_find_char_first(s: Seq<char>, sep: char, k: int)
    requires
        0 <= k <= s.len(),
        forall|j: int| 0 <= j < k ==> s[j] != sep,
        k < s.len() ==> s[k] == sep,
    ensures
        k < s.len() ==> find_char(s, sep) == k,
        k == s.len() ==> find_char(s, sep) == -1,
    decreases s.len(),
{
    if s.len() == 0 {
    } else if s[0] == sep {
    } else {
        lemma_find_char_first(s.skip(1), sep, k - 1);
    }
}

/// The pieces of `s` between occurrences of `sep`, in order. A string with no
/// separator is a single piece; every separator ends a piece, so `n`
/// separators give `n + 1` pieces.
pub open spec fn split_on(s: Seq<char>, sep: char) -> Seq<Seq<char>>
    decreases s.len(),
{
    let i = find_char(s, sep);
    if 0 <= i < s.len() {
        seq![s.take(i)] + split_on(s.skip(i + 1), sep)
    } else {
        seq![s]
    }
}

/// Splits `s` at every occurrence of `sep`.
pub fn split_on_char(s: &str, sep: char) -> (r: Vec<String>)
    ensures
        r.deep_view() == split_on(s@, sep),
{
    let len = s.unicode_len();
    let mut r: Vec<String> = Vec::new();
    let mut start: usize = 0;
    let mut i: usize = 0;
    proof {
        assert(s@.skip(0) =~= s@);
        assert(r.deep_view() + split_on(s@.skip(0), sep) =~= split_on(s@, sep));
    }
    while i < len
        invariant
            start <= i <= len,
            len == s@.len(),
            forall|j: int| start <= j < i ==> s@[j] != sep,
            split_on(s@, sep) =~= r.deep_view() + split_on(s@.skip(start as int), sep),
        decreases len - i,
    {
        let c = s.get_char(i);
        if c == sep {
            let ghost old_dv = r.deep_view();
            let piece = s.substring_char(start, i).to_owned();
            proof {
                let rest = s@.skip(start as int);
                assert(forall|j: int| 0 <= j < i - start ==> rest[j] != sep);
                lemma_find_char_first(rest, sep, i - start);
                assert(rest.take(i - start) =~= s@.subrange(start as int, i as int));
                assert(rest.skip(i - start + 1) =~= s@.skip(i + 1));
            }
            r.push(piece);
            proof {
                assert(r.deep_view() =~= old_dv.push(piece@));
                assert(split_on(s@, sep) =~= r.deep_view() + split_on(s@.skip(i + 1), sep));
            }
            start = i + 1;
        }
        i = i + 1;
    }
    let ghost old_dv = r.deep_view();
    let piece = s.substring_char(start, len).to_owned();
    proof {
        let rest = s@.skip(start as int);
        lemma_find_char_first(rest, sep, len - start);
        assert(rest =~= s@.subrange(start as int, len as int));
    }
    r.push(piece);
    proof {
        assert(r.deep_view() =~= old_dv.push(piece@));
        assert(r.deep_view() =~= split_on(s@, sep));
    }
    r
}

/// The ASCII whitespace characters.
pub open spec fn is_ascii_space(c: char) -> bool {
    c == ' ' || c == '\t' || c == '\n' || c == '\r' || c == '\u{b}' || c == '\u{c}'
}

/// Executable test for `is_ascii_space`.
pub fn is_space_char(c: char) -> (r: bool)
    ensures
        r == is_ascii_space(c),
{
    c == ' ' || c == '\t' || c == '\n' || c == '\r' || c == '\u{b}' || c == '\u{c}'
}

/// Index of the first whitespace character in `s`, or -1 if there is none.
pub open spec fn find_space(s: Seq<char>) -> int
    decreases s.len(),
{
    if s.len() == 0 {
        -1
    } else if is_ascii_space(s[0]) {
        0
    } else {
        let r = find_space(s.skip(1));
        if r == -1 {
            -1
        } else {
            r + 1
        }
    }
}

/// `find_space` returns exactly the first whitespace position.
pub proof fn lemma_find_space_first(s: Seq<char>, k: int)
    requires
        0 <= k <= s.len(),
        forall|j: int| 0 <= j < k ==> !is_ascii_space(s[j]),
        k < s.len() ==> is_ascii_space(s[k]),
    ensures
        k < s.len() ==> find_space(s) == k,
        k == s.len() ==> find_space(s) == -1,
    decreases s.len(),
{
    if s.len() == 0 {
    } else if is_ascii_space(s[0]) {
    } else {
        lemma_find_space_first(s.skip(1), k - 1);
    }
}

/// The maximal runs of non-whitespace characters in `s`, in order.
pub open spec fn split_ws(s: Seq<char>) -> Seq<Seq<char>>
    decreases s.len(),
{
    if s.len() == 0 {
        Seq::empty()
    } else if is_ascii_space(s[0]) {
        split_ws(s.skip(1))
    } else {
        let i = find_space(s);
        if 0 < i < s.len() {
            seq![s.take(i)] + split_ws(s.skip(i))
        } else {
            seq![s]
        }
    }
}

/// Splits `s` into its whitespace-separated tokens.
pub fn split_whitespace_tokens(s: &str) -> (r: Vec<String>)
    ensures
        r.deep_view() == split_ws(s@),
{
    let len = s.unicode_len();
    let mut r: Vec<String> = Vec::new();
    let mut i: usize = 0;
    proof {
        assert(s@.skip(0) =~= s@);
        assert(r.deep_view() + split_ws(s@.skip(0)) =~= split_ws(s@));
    }
    while i < len
        invariant
            i <= len,
            len == s@.len(),
            split_ws(s@) =~= r.deep_view() + split_ws(s@.skip(i as int)),
        decreases len - i,
    {
        if is_space_char(s.get_char(i)) {
            proof {
                assert(s@.skip(i as int).skip(1) =~= s@.skip(i + 1));
            }
            i = i + 1;
        } else {
            let start = i;
            i = i + 1;
            while i < len && !is_space_char(s.get_char(i))
                invariant
                    start < i <= len,
                    len == s@.len(),
                    forall|j: int| start <= j < i ==> !is_ascii_space(s@[j]),
                decreases len - i,
            {
                i = i + 1;
            }
            let ghost old_dv = r.deep_view();
            let piece = s.substring_char(start, i).to_owned();
            proof {
                let rest = s@.skip(start as int);
                assert(forall|j: int| 0 <= j < i - start ==> !is_ascii_space(rest[j]));
                lemma_find_space_first(rest, i - start);
                assert(rest.take(i - start) =~= s@.subrange(start as int, i as int));
                assert(rest.skip(i - start) =~= s@.skip(i as int));
            }
            r.push(piece);
            proof {
                assert(r.deep_view() =~= old_dv.push(piece@));
                assert(split_ws(s@) =~= r.deep_view() + split_ws(s@.skip(i as int)));
            }
        }
    }
    proof {
        assert(split_ws(s@.skip(len as int)) =~= Seq::<Seq<char>>::empty());
        assert(r.deep_view() =~= split_ws(s@));
    }
    r
}

/// The character for one decimal digit.
pub open spec fn digit_char(d: u64) -> char {
    if d == 0 {
        '0'
    } else if d == 1 {
        '1'
    } else if d == 2 {
        '2'
    } else if d == 3 {
        '3'
    } else if d == 4 {
        '4'
    } else if d == 5 {
        '5'
    } else if d == 6 {
        '6'
    } else if d == 7 {
        '7'
    } else if d == 8 {
        '8'
    } else {
        '9'
    }
}

/// The decimal digits of `n`, most significant first, with no leading zeros
/// (except for `n == 0` itself).
pub open spec fn spec_digits(n: u64) -> Seq<char>
    decreases n,
{
    if n < 10 {
        seq![digit_char(n)]
    } else {
        spec_digits(n / 10).push(digit_char(n % 10))
    }
}

/// A one-character string for a decimal digit.
pub fn digit_str(d: u64) -> (r: &'static str)
    requires
        d < 10,
    ensures
        r@ =~= seq![digit_char(d)],
{
    proof {
        reveal_strlit("0");
        reveal_strlit("1");
        reveal_strlit("2");
        reveal_strlit("3");
        reveal_strlit("4");
        reveal_strlit("5");
        reveal_strlit("6");
        reveal_strlit("7");
        reveal_strlit("8");
        reveal_strlit("9");
    }
    match d {
        0 => "0",
        1 => "1",
        2 => "2",
        3 => "3",
        4 => "4",
        5 => "5",
        6 => "6",
        7 => "7",
        8 => "8",
        _ => "9",
    }
}

/// Formats `n` in decimal.
pub fn u64_to_string(n: u64) -> (s: String)
    ensures
        s@ == spec_digits(n),
    decreases n,
{
    if n < 10 {
        digit_str(n).to_owned()
    } else {
        let mut s = u64_to_string(n / 10);
        s.append(digit_str(n % 10));
        proof {
            assert(s@ =~= spec_digits(n));
        }
        s
    }
}

} // verus!
