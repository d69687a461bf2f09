//! Text helpers: the order that `String` sorts by, and building strings.

use vstd::prelude::*;
use vstd::string::StringExecFns;

verus! {

/// `a` sorts before `b`: the first differing character is smaller, or `a`
/// is a proper prefix of `b`. For UTF-8 strings this is the order of their
/// bytes, which is the order `String` sorts by.
pub open spec fn text_lt(a: Seq<char>, b: Seq<char>) -> bool
    decreases a.len(),
{
    if a.len() == 0 {
        b.len() > 0
    } else if b.len() == 0 {
        false
    } else if a[0] < b[0] {
        true
    } else if a[0] == b[0] {
        text_lt(a.drop_first(), b.drop_first())
    } else {
        false
    }
}

/// No text sorts before itself.
pub proof fn lemma_text_lt_irreflexive(a: Seq<char>)
    ensures
        !text_lt(a, a),
    decreases a.len(),
{
    if a.len() > 0 {
        lemma_text_lt_irreflexive(a.drop_first());
    }
}

/// Two different texts are ordered one way or the other.
pub proof fn lemma_text_lt_total(a: Seq<char>, b: Seq<char>)
    requires
        a != b,
    ensures
        text_lt(a, b) || text_lt(b, a),
    decreases a.len(),
{
    if a.len() > 0 && b.len() > 0 && a[0] == b[0] {
        if a.drop_first() == b.drop_first() {
            assert(a =~= seq![a[0]] + a.drop_first());
            assert(b =~= seq![b[0]] + b.drop_first());
        }
        lemma_text_lt_total(a.drop_first(), b.drop_first());
    } else if a.len() == 0 && b.len() == 0 {
        assert(a =~= b);
    }
}

/// The order is asymmetric.
pub proof fn lemma_text_lt_asymmetric(a: Seq<char>, b: Seq<char>)
    requires
        text_lt(a, b),
    ensures
        !text_lt(b, a),
    decreases a.len(),
{
    if a.len() > 0 && b.len() > 0 && a[0] == b[0] {
        lemma_text_lt_asymmetric(a.drop_first(), b.drop_first());
    }
}

/// The order is transitive.
pub proof fn lemma_text_lt_transitive(a: Seq<char>, b: Seq<char>, c: Seq<char>)
    requires
        text_lt(a, b),
        text_lt(b, c),
    ensures
        text_lt(a, c),
    decreases a.len(),
{
    if a.len() > 0 && b.len() > 0 && c.len() > 0 && a[0] == b[0] && b[0] == c[0] {
        lemma_text_lt_transitive(a.drop_first(), b.drop_first(), c.drop_first());
    }
}

/// Whether `a` sorts before `b`.
pub fn str_lt(a: &str, b: &str) -> (r: bool)
    ensures
        r == text_lt(a@, b@),
{
    let la = a.unicode_len();
    let lb = b.unicode_len();
    let mut i: usize = 0;
    proof {
        assert(a@.skip(0) =~= a@);
        assert(b@.skip(0) =~= b@);
    }
    while i < la && i < lb
        invariant
            la == a@.len(),
            lb == b@.len(),
            i <= la,
            i <= lb,
            text_lt(a@, b@) == text_lt(a@.skip(i as int), b@.skip(i as int)),
        decreases la - i,
    {
        let ca = a.get_char(i);
        let cb = b.get_char(i);
        proof {
            assert(a@.skip(i as int)[0] == ca);
            assert(b@.skip(i as int)[0] == cb);
            assert(a@.skip(i as int).drop_first() =~= a@.skip(i + 1));
            assert(b@.skip(i as int).drop_first() =~= b@.skip(i + 1));
        }
        if ca < cb {
            return true;
        }
        if ca != cb {
            return false;
        }
        i = i + 1;
    }
    proof {
        assert(a@.skip(i as int).len() == la - i);
        assert(b@.skip(i as int).len() == lb - i);
    }
    i < lb
}

/// Whether two strings are equal.
pub fn str_eq(a: &str, b: &str) -> (r: bool)
    ensures
        r == (a@ == b@),
{
    let la = a.unicode_len();
    let lb = b.unicode_len();
    if la != lb {
        return false;
    }
    let mut i: usize = 0;
    while i < la
        invariant
            la == a@.len(),
            lb == b@.len(),
            la == lb,
            i <= la,
            forall|j: int| 0 <= j < i ==> a@[j] == b@[j],
        decreases la - i,
    {
        if a.get_char(i) != b.get_char(i) {
            return false;
        }
        i = i + 1;
    }
    assert(a@ =~= b@);
    true
}

/// Text sequences in strictly increasing order.
pub open spec fn strictly_sorted(s: Seq<Seq<char>>) -> bool {
    forall|i: int, j: int| 0 <= i < j < s.len() ==> text_lt(s[i], s[j])
}

/// The texts of a sequence of strings.
pub open spec fn texts(v: Seq<String>) -> Seq<Seq<char>> {
    v.map_values(|s: String| s@)
}

/// Sort strings that are pairwise different into increasing order.
pub fn sort_strings(v: Vec<String>) -> (r: Vec<String>)
    requires
        texts(v@).no_duplicates(),
    ensures
        strictly_sorted(texts(r@)),
        texts(r@).to_set() == texts(v@).to_set(),
        texts(r@).len() == texts(v@).len(),
{
    let mut out: Vec<String> = Vec::new();
    let mut i: usize = 0;
    while i < v.len()
        invariant
            i <= v.len(),
            texts(v@).no_duplicates(),
            strictly_sorted(texts(out@)),
            texts(out@).to_set() == texts(v@.subrange(0, i as int)).to_set(),
            out@.len() == i,
        decreases v.len() - i,
    {
        let x = v[i].clone();
        let mut p: usize = 0;
        while p < out.len() && str_lt(out[p].as_str(), x.as_str())
            invariant
                p <= out.len(),
                forall|q: int| 0 <= q < p ==> text_lt(#[trigger] out@[q]@, x@),
            decreases out.len() - p,
        {
            p = p + 1;
        }
        let ghost before = texts(out@);
        proof {
            // `x` differs from every string placed so far.
            assert forall|q: int| 0 <= q < before.len() implies before[q] != x@ by {
                assert(texts(v@.subrange(0, i as int)).to_set().contains(before[q]));
                let w = choose|w: int| 0 <= w < i && texts(v@.subrange(0, i as int))[w] == before[q];
                assert(texts(v@)[w] == before[q]);
                assert(texts(v@)[i as int] == x@);
            }
            if p < out.len() {
                assert(before[p as int] == out@[p as int]@);
                lemma_text_lt_total(out@[p as int]@, x@);
            }
        }
        out.insert(p, x);
        proof {
            let after = texts(out@);
            assert(after =~= before.insert(p as int, x@));
            assert forall|a: int, b: int| 0 <= a < b < after.len() implies text_lt(after[a], after[b]) by {
                if b == p {
                    assert(text_lt(before[a], x@));
                } else if a == p {
                    assert(text_lt(x@, before[b - 1])) by {
                        if b - 1 > p {
                            lemma_text_lt_transitive(x@, before[p as int], before[b - 1]);
                        }
                    }
                } else if a < p && b > p {
                    assert(text_lt(before[a], before[b - 1]));
                } else if a > p {
                    assert(text_lt(before[a - 1], before[b - 1]));
                }
            }
            assert(v@.subrange(0, i + 1) =~= v@.subrange(0, i as int).push(v@[i as int]));
            assert(texts(v@.subrange(0, i + 1)) =~= texts(v@.subrange(0, i as int)).push(x@));
            assert(texts(v@.subrange(0, i as int)).push(x@).to_set() =~= texts(v@.subrange(0, i as int)).to_set().insert(x@)) by {
                let s0 = texts(v@.subrange(0, i as int));
                assert forall|t: Seq<char>| s0.push(x@).to_set().contains(t) <==> s0.to_set().insert(x@).contains(t) by {
                    if s0.push(x@).to_set().contains(t) {
                        let w = choose|w: int| 0 <= w < s0.len() + 1 && s0.push(x@)[w] == t;
                        if w < s0.len() {
                            assert(s0[w] == t);
                        }
                    }
                    if s0.to_set().contains(t) {
                        let w = choose|w: int| 0 <= w < s0.len() && s0[w] == t;
                        assert(s0.push(x@)[w] == t);
                    }
                    if t == x@ {
                        assert(s0.push(x@)[s0.len() as int] == t);
                    }
                }
            }
            assert(after.to_set() =~= before.to_set().insert(x@)) by {
                assert forall|t: Seq<char>| after.to_set().contains(t) <==> before.to_set().insert(x@).contains(t) by {
                    if after.to_set().contains(t) {
                        let w = choose|w: int| 0 <= w < after.len() && after[w] == t;
                        if w < p {
                            assert(before[w] == t);
                        } else if w > p {
                            assert(before[w - 1] == t);
                        }
                    }
                    if before.to_set().contains(t) {
                        let w = choose|w: int| 0 <= w < before.len() && before[w] == t;
                        if w < p {
                            assert(after[w] == t);
                        } else {
                            assert(after[w + 1] == t);
                        }
                    }
                    if t == x@ {
                        assert(after[p as int] == t);
                    }
                }
            }
        }
        i = i + 1;
    }
    proof {
        assert(v@.subrange(0, v@.len() as int) =~= v@);
    }
    out
}


// ── numbers as text ──────────────────────────────────────────────────────

/// The decimal digit `d` (below ten).
pub open spec fn digit_char(d: nat) -> char {
    if d == 0 { '0' } else if d == 1 { '1' } else if d == 2 { '2' } else if d == 3 { '3' }
    else if d == 4 { '4' } else if d == 5 { '5' } else if d == 6 { '6' } else if d == 7 { '7' }
    else if d == 8 { '8' } else { '9' }
}

/// The decimal text of `n`, without sign or leading zeros.
pub open spec fn dec_text(n: nat) -> Seq<char>
    decreases n,
{
    if n < 10 {
        seq![digit_char(n)]
    } else {
        dec_text(n / 10).push(digit_char(n % 10))
    }
}

fn digit_str(d: u64) -> (s: &'static str)
    requires
        d < 10,
    ensures
        s@ == seq![digit_char(d as nat)],
{
    proof {
        reveal_strlit("0");
        reveal_strlit("1");
        reveal_strlit("2");
        reveal_strlit("3");
        reveal_strlit("4");
        reveal_strlit("5");
        reveal_strlit("6");
        reveal_strlit("7");
        reveal_strlit("8");
        reveal_strlit("9");
    }
    let s = if d == 0 { "0" } else if d == 1 { "1" } else if d == 2 { "2" } else if d == 3 { "3" }
    else if d == 4 { "4" } else if d == 5 { "5" } else if d == 6 { "6" } else if d == 7 { "7" }
    else if d == 8 { "8" } else { "9" };
    assert(s@ =~= seq![digit_char(d as nat)]);
    s
}

/// The decimal text of `n`.
pub fn decimal(n: u64) -> (s: String)
    ensures
        s@ == dec_text(n as nat),
    decreases n,
{
    if n < 10 {
        String::from_str(digit_str(n))
    } else {
        let head = decimal(n / 10);
        let r = head.concat(digit_str(n % 10));
        assert(r@ =~= dec_text(n as nat));
        r
    }
}

// ── blank lines ──────────────────────────────────────────────────────────

/// A white-space character: the Unicode `White_Space` property, which is
/// what `char::is_whitespace` tests.
pub open spec fn is_white(c: char) -> bool {
    ('\u{9}' <= c && c <= '\u{d}') || c == ' ' || c == '\u{85}' || c == '\u{a0}' || c == '\u{1680}'
        || ('\u{2000}' <= c && c <= '\u{200a}') || c == '\u{2028}' || c == '\u{2029}' || c == '\u{202f}'
        || c == '\u{205f}' || c == '\u{3000}'
}

fn char_is_white(c: char) -> (b: bool)
    ensures
        b == is_white(c),
{
    ('\u{9}' <= c && c <= '\u{d}') || c == ' ' || c == '\u{85}' || c == '\u{a0}' || c == '\u{1680}'
        || ('\u{2000}' <= c && c <= '\u{200a}') || c == '\u{2028}' || c == '\u{2029}' || c == '\u{202f}'
        || c == '\u{205f}' || c == '\u{3000}'
}

/// `s` holds nothing but white space (what `s.trim().is_empty()` tests).
pub open spec fn blank(s: Seq<char>) -> bool {
    forall|i: int| 0 <= i < s.len() ==> is_white(#[trigger] s[i])
}

/// Whether `s` holds nothing but white space.
pub fn is_blank(s: &str) -> (b: bool)
    ensures
        b == blank(s@),
{
    let n = s.unicode_len();
    let mut i: usize = 0;
    while i < n
        invariant
            n == s@.len(),
            i <= n,
            forall|j: int| 0 <= j < i ==> is_white(#[trigger] s@[j]),
        decreases n - i,
    {
        if !char_is_white(s.get_char(i)) {
            return false;
        }
        i = i + 1;
    }
    true
}

// ── prefixes and substrings ──────────────────────────────────────────────

/// What is left of `s` after the prefix `p`, when `s` starts with `p`.
pub fn strip_prefix<'a>(s: &'a str, p: &str) -> (r: Option<&'a str>)
    ensures
        match r {
            Some(rest) => s@.len() >= p@.len() && s@.subrange(0, p@.len() as int) == p@
                && rest@ == s@.subrange(p@.len() as int, s@.len() as int),
            None => !(s@.len() >= p@.len() && s@.subrange(0, p@.len() as int) == p@),
        },
{
    let n = s.unicode_len();
    let m = p.unicode_len();
    if n < m {
        return None;
    }
    let mut i: usize = 0;
    while i < m
        invariant
            n == s@.len(),
            m == p@.len(),
            m <= n,
            i <= m,
            forall|j: int| 0 <= j < i ==> s@[j] == p@[j],
        decreases m - i,
    {
        if s.get_char(i) != p.get_char(i) {
            assert(s@.subrange(0, m as int)[i as int] != p@[i as int]);
            return None;
        }
        i = i + 1;
    }
    assert(s@.subrange(0, m as int) =~= p@);
    Some(s.substring_char(m, n))
}

/// `needle` occurs in `hay` at position `i`.
pub open spec fn occurs_at(hay: Seq<char>, needle: Seq<char>, i: int) -> bool {
    0 <= i && i + needle.len() <= hay.len() && hay.subrange(i, i + needle.len()) == needle
}

/// Whether `needle` occurs somewhere in `hay`.
pub fn contains_text(hay: &str, needle: &str) -> (b: bool)
    ensures
        b == exists|i: int| occurs_at(hay@, needle@, i),
{
    let n = hay.unicode_len();
    let m = needle.unicode_len();
    if m > n {
        assert forall|i: int| !occurs_at(hay@, needle@, i) by {}
        return false;
    }
    let mut i: usize = 0;
    while i <= n - m
        invariant
            n == hay@.len(),
            m == needle@.len(),
            m <= n,
            i <= n - m + 1,
            forall|k: int| 0 <= k < i ==> !occurs_at(hay@, needle@, k),
        decreases n - m + 1 - i,
    {
        let mut j: usize = 0;
        let mut same = true;
        while j < m
            invariant
                n == hay@.len(),
                m == needle@.len(),
                i + m <= n,
                j <= m,
                same == forall|q: int| 0 <= q < j ==> hay@[i + q] == needle@[q],
            decreases m - j,
        {
            if hay.get_char(i + j) != needle.get_char(j) {
                same = false;
            }
            j = j + 1;
        }
        if same {
            assert(hay@.subrange(i as int, i + m) =~= needle@);
            assert(occurs_at(hay@, needle@, i as int));
            return true;
        }
        assert(!occurs_at(hay@, needle@, i as int)) by {
            let w = choose|q: int| 0 <= q < m && !(hay@[i + q] == needle@[q]);
            if hay@.subrange(i as int, i + m) == needle@ {
                assert(hay@.subrange(i as int, i + m)[w] == hay@[i + w]);
            }
        }
        i = i + 1;
    }
    assert forall|k: int| !occurs_at(hay@, needle@, k) by {
        if 0 <= k && k < i {
        }
    }
    false
}


// ── parsing numbers ──────────────────────────────────────────────────────

/// An ASCII decimal digit.
pub open spec fn is_digit(c: char) -> bool {
    '0' <= c && c <= '9'
}

/// The number that the decimal digits `s` spell.
pub open spec fn digits_value(s: Seq<char>) -> nat
    decreases s.len(),
{
    if s.len() == 0 {
        0
    } else {
        digits_value(s.drop_last()) * 10 + (s.last() as nat - '0' as nat) as nat
    }
}

/// `s` without a leading `+`.
pub open spec fn number_body(s: Seq<char>) -> Seq<char> {
    if s.len() > 0 && s[0] == '+' {
        s.drop_first()
    } else {
        s
    }
}

/// Every character of `s` is a decimal digit.
pub open spec fn all_digits(s: Seq<char>) -> bool {
    forall|i: int| 0 <= i < s.len() ==> is_digit(#[trigger] s[i])
}

/// What reading `s` as a `u64` gives, as `str::parse::<u64>` does: an
/// optional `+`, then one or more decimal digits whose value fits.
pub open spec fn parsed_u64(s: Seq<char>) -> Option<u64> {
    let body = number_body(s);
    if body.len() > 0 && all_digits(body) && digits_value(body) <= u64::MAX {
        Some(digits_value(body) as u64)
    } else {
        None
    }
}

proof fn lemma_digits_value_grows(s: Seq<char>, n: int)
    requires
        0 <= n <= s.len(),
        all_digits(s),
    ensures
        digits_value(s.subrange(0, n)) <= digits_value(s),
    decreases s.len() - n,
{
    if n < s.len() {
        lemma_digits_value_grows(s, n + 1);
        assert(s.subrange(0, n + 1).drop_last() =~= s.subrange(0, n));
    } else {
        assert(s.subrange(0, n) =~= s);
    }
}

proof fn lemma_not_all_digits(s: Seq<char>, k: int)
    requires
        0 <= k < number_body(s).len(),
        !is_digit(number_body(s)[k]),
    ensures
        parsed_u64(s) is None,
{
}

proof fn lemma_too_large(s: Seq<char>, k: int)
    requires
        0 <= k <= number_body(s).len(),
        digits_value(number_body(s).subrange(0, k)) > u64::MAX,
    ensures
        parsed_u64(s) is None,
{
    if all_digits(number_body(s)) {
        lemma_digits_value_grows(number_body(s), k);
    }
}

/// Read `s` as a `u64`.
pub fn parse_u64(s: &str) -> (r: Option<u64>)
    ensures
        r == parsed_u64(s@),
{
    let n = s.unicode_len();
    let mut start: usize = 0;
    if n > 0 && s.get_char(0) == '+' {
        start = 1;
    }
    let ghost body = number_body(s@);
    assert(body =~= s@.subrange(start as int, n as int));
    if start >= n {
        return None;
    }
    let mut value: u64 = 0;
    let mut i: usize = start;
    while i < n
        invariant
            n == s@.len(),
            start <= i <= n,
            start < n,
            body == s@.subrange(start as int, n as int),
            body == number_body(s@),
            forall|j: int| start <= j < i ==> is_digit(#[trigger] s@[j]),
            value as nat == digits_value(s@.subrange(start as int, i as int)),
        decreases n - i,
    {
        let c = s.get_char(i);
        if !('0' <= c && c <= '9') {
            proof {
                assert(body[i - start] == c);
                assert(!is_digit(body[i - start]));
                lemma_not_all_digits(s@, i - start);
            }
            return None;
        }
        let d = (c as u32 - '0' as u32) as u64;
        proof {
            assert(s@.subrange(start as int, i + 1).drop_last() =~= s@.subrange(start as int, i as int));
            assert(s@.subrange(start as int, i + 1).last() == c);
        }
        match value.checked_mul(10) {
            Some(v10) => match v10.checked_add(d) {
                Some(v) => {
                    value = v;
                },
                None => {
                    proof {
                        assert(digits_value(s@.subrange(start as int, i + 1)) > u64::MAX);
                        assert(body.subrange(0, i + 1 - start) =~= s@.subrange(start as int, i + 1));
                        lemma_too_large(s@, i + 1 - start);
                    }
                    return None;
                },
            },
            None => {
                proof {
                    assert(digits_value(s@.subrange(start as int, i + 1)) > u64::MAX) by (nonlinear_arith)
                        requires
                            value * 10 > u64::MAX,
                            digits_value(s@.subrange(start as int, i + 1)) >= value * 10,
                    {
                    }
                    assert(body.subrange(0, i + 1 - start) =~= s@.subrange(start as int, i + 1));
                    lemma_too_large(s@, i + 1 - start);
                }
                return None;
            },
        }
        i = i + 1;
    }
    proof {
        assert(all_digits(body)) by {
            assert forall|j: int| 0 <= j < body.len() implies is_digit(#[trigger] body[j]) by {
                assert(body[j] == s@[start + j]);
            }
        }
    }
    Some(value)
}


// ── lines ────────────────────────────────────────────────────────────────

/// Where the line starting at `from` ends: the next newline, or the end.
pub open spec fn line_end(s: Seq<char>, from: int) -> int
    decreases s.len() - from,
{
    if from >= s.len() || s[from] == '\n' {
        from
    } else {
        line_end(s, from + 1)
    }
}

pub proof fn lemma_line_end_bounds(s: Seq<char>, from: int)
    requires
        0 <= from,
    ensures
        from <= line_end(s, from),
        from <= s.len() ==> line_end(s, from) <= s.len(),
        line_end(s, from) < s.len() ==> s[line_end(s, from)] == '\n',
        forall|q: int| from <= q < line_end(s, from) ==> s[q] != '\n',
    decreases s.len() - from,
{
    if from < s.len() && s[from] != '\n' {
        lemma_line_end_bounds(s, from + 1);
    }
}

proof fn lemma_line_end_is(s: Seq<char>, from: int, e: int)
    requires
        0 <= from <= e <= s.len(),
        forall|q: int| from <= q < e ==> s[q] != '\n',
        e == s.len() || s[e] == '\n',
    ensures
        line_end(s, from) == e,
    decreases e - from,
{
    if from < e {
        lemma_line_end_is(s, from + 1, e);
    }
}

/// The lines of `s` from position `from` on, as `str::lines` gives them: cut
/// at each newline, a `\r` before the newline dropped, and no empty line
/// after a final newline.
pub open spec fn lines_from(s: Seq<char>, from: int) -> Seq<Seq<char>>
    decreases s.len() - from,
{
    if from < 0 || from >= s.len() {
        Seq::empty()
    } else {
        proof {
            lemma_line_end_bounds(s, from);
        }
        let e = line_end(s, from);
        let raw = s.subrange(from, e);
        let line = if e < s.len() && raw.len() > 0 && raw.last() == '\r' {
            raw.drop_last()
        } else {
            raw
        };
        if e < s.len() {
            seq![line] + lines_from(s, e + 1)
        } else {
            seq![line]
        }
    }
}

/// The lines of `s`.
pub open spec fn lines_of(s: Seq<char>) -> Seq<Seq<char>> {
    lines_from(s, 0)
}

/// Split `s` into its lines, as `str::lines` does.
pub fn split_lines(s: &str) -> (r: Vec<String>)
    ensures
        texts(r@) == lines_of(s@),
{
    let n = s.unicode_len();
    let mut out: Vec<String> = Vec::new();
    let mut start: usize = 0;
    while start < n
        invariant
            n == s@.len(),
            start <= n,
            texts(out@) + lines_from(s@, start as int) == lines_of(s@),
        decreases n - start,
    {
        let mut e: usize = start;
        while e < n && s.get_char(e) != '\n'
            invariant
                n == s@.len(),
                start <= e <= n,
                forall|q: int| start <= q < e ==> s@[q] != '\n',
            decreases n - e,
        {
            e = e + 1;
        }
        proof {
            lemma_line_end_is(s@, start as int, e as int);
        }
        let mut stop = e;
        if e < n && e > start && s.get_char(e - 1) == '\r' {
            stop = e - 1;
        }
        let line = String::from_str(s.substring_char(start, stop));
        let ghost before = out@;
        out.push(line);
        proof {
            let raw = s@.subrange(start as int, e as int);
            if e < n && e > start && s@[e - 1] == '\r' {
                assert(raw.drop_last() =~= s@.subrange(start as int, stop as int));
            } else {
                assert(raw =~= s@.subrange(start as int, stop as int));
            }
            assert(texts(out@) =~= texts(before).push(line@));
            if e < n {
                assert(lines_from(s@, start as int) == seq![line@] + lines_from(s@, e + 1));
                assert(texts(out@) + lines_from(s@, e + 1) =~= texts(before) + lines_from(s@, start as int));
            } else {
                assert(lines_from(s@, start as int) == seq![line@]);
                assert(lines_from(s@, n as int) =~= Seq::<Seq<char>>::empty());
                assert(texts(out@) + lines_from(s@, n as int) =~= texts(before) + lines_from(s@, start as int));
            }
        }
        if e < n {
            start = e + 1;
        } else {
            start = n;
        }
    }
    proof {
        assert(texts(out@) + lines_from(s@, start as int) =~= texts(out@));
    }
    out
}

/// The lines of `lines` that are not blank, each after `tag`, in order.
pub open spec fn tagged_nonblank(lines: Seq<Seq<char>>, tag: Seq<char>) -> Seq<Seq<char>>
    decreases lines.len(),
{
    if lines.len() == 0 {
        Seq::empty()
    } else {
        tagged_nonblank(lines.drop_last(), tag) + if blank(lines.last()) {
            Seq::empty()
        } else {
            seq![tag + lines.last()]
        }
    }
}

/// Append to `out` each line of `text` that is not blank, after `tag`.
pub fn push_tagged_lines(out: &mut Vec<String>, text: &str, tag: &str)
    ensures
        texts(final(out)@) == texts(old(out)@) + tagged_nonblank(lines_of(text@), tag@),
{
    let lines = split_lines(text);
    let ghost ls = lines_of(text@);
    let ghost base = texts(out@);
    let mut i: usize = 0;
    while i < lines.len()
        invariant
            texts(lines@) == ls,
            i <= lines.len(),
            texts(out@) == base + tagged_nonblank(ls.subrange(0, i as int), tag@),
        decreases lines.len() - i,
    {
        let ghost before = out@;
        proof {
            assert(ls.subrange(0, i + 1).drop_last() =~= ls.subrange(0, i as int));
            assert(ls.subrange(0, i + 1).last() == lines@[i as int]@);
        }
        if !is_blank(lines[i].as_str()) {
            out.push(String::from_str(tag).concat(lines[i].as_str()));
            proof {
                assert(texts(out@) =~= texts(before).push(tag@ + lines@[i as int]@));
            }
        }
        proof {
            assert(texts(out@) =~= base + tagged_nonblank(ls.subrange(0, i + 1), tag@));
        }
        i = i + 1;
    }
    proof {
        assert(ls.subrange(0, ls.len() as int) =~= ls);
    }
}

} // verus!
