//! Text as sequences of characters.
//!
//! Specifications speak of a text as a `Seq<char>`. The functions here take
//! `&str` or `String` and say what they do on that view.

use vstd::prelude::*;
use vstd::string::*;
use vstd::utf8::encode_utf8;

verus! {

/// `String::push` of std: the character stands at the end of the text.
pub assume_specification[ String::push ](s: &mut String, c: char)
    ensures
        final(s)@ == old(s)@.push(c),
;

// ---------------------------------------------------------------------------
// Sequences of texts
// ---------------------------------------------------------------------------

/// The views of a sequence of strings.
pub open spec fn texts(v: Seq<String>) -> Seq<Seq<char>> {
    Seq::new(v.len(), |i: int| v[i]@)
}

/// The views of a sequence of values.
pub open spec fn views<T: View>(v: Seq<T>) -> Seq<T::V> {
    Seq::new(v.len(), |i: int| v[i]@)
}

/// A copy of a list of strings.
pub fn clone_texts(v: &Vec<String>) -> (r: Vec<String>)
    ensures
        r@ == v@,
{
    let r = v.clone();
    assert(r@ =~= v@);
    r
}

/// A copy of an optional string.
pub fn clone_opt(o: &Option<String>) -> (r: Option<String>)
    ensures
        r == *o,
{
    match o {
        Some(s) => Some(s.clone()),
        None => None,
    }
}

/// The view of an optional string.
pub open spec fn opt_text(o: Option<String>) -> Option<Seq<char>> {
    match o {
        Some(s) => Some(s@),
        None => None,
    }
}

/// The texts in order, with `sep` between each two neighbours.
pub open spec fn join(parts: Seq<Seq<char>>, sep: Seq<char>) -> Seq<char>
    decreases parts.len(),
{
    if parts.len() == 0 {
        Seq::empty()
    } else if parts.len() == 1 {
        parts[0]
    } else {
        join(parts.drop_last(), sep) + sep + parts.last()
    }
}

/// The position of the first text equal to `t`, or the length where there is none.
pub open spec fn text_position(v: Seq<Seq<char>>, t: Seq<char>) -> int
    decreases v.len(),
{
    if v.len() == 0 || v[0] == t {
        0
    } else {
        1 + text_position(v.drop_first(), t)
    }
}

/// The length of a text in UTF-8.
pub open spec fn byte_len(s: Seq<char>) -> usize {
    encode_utf8(s).len() as usize
}

// ---------------------------------------------------------------------------
// Classes of characters
// ---------------------------------------------------------------------------

/// The Unicode property `White_Space`.
pub open spec fn is_blank(c: char) -> bool {
    ||| '\u{9}' <= c <= '\u{d}'
    ||| c == '\u{20}'
    ||| c == '\u{85}'
    ||| c == '\u{a0}'
    ||| c == '\u{1680}'
    ||| '\u{2000}' <= c <= '\u{200a}'
    ||| c == '\u{2028}'
    ||| c == '\u{2029}'
    ||| c == '\u{202f}'
    ||| c == '\u{205f}'
    ||| c == '\u{3000}'
}

pub open spec fn is_digit(c: char) -> bool {
    '0' <= c <= '9'
}

pub open spec fn is_ascii_alnum(c: char) -> bool {
    is_digit(c) || 'A' <= c <= 'Z' || 'a' <= c <= 'z'
}

pub open spec fn is_ascii_char(c: char) -> bool {
    c <= '\u{7f}'
}

/// Every character is one of the first 128 code points.
pub open spec fn all_ascii(s: Seq<char>) -> bool {
    forall|i: int| 0 <= i < s.len() ==> is_ascii_char(#[trigger] s[i])
}

/// The letters A to Z become a to z; every other character stays.
pub open spec fn ascii_lower(c: char) -> char {
    if 'A' <= c <= 'Z' {
        ((c as u32) + 32) as char
    } else {
        c
    }
}

/// The letters a to z become A to Z; every other character stays.
pub open spec fn ascii_upper(c: char) -> char {
    if 'a' <= c <= 'z' {
        ((c as u32) - 32) as char
    } else {
        c
    }
}

/// The texts differ at most in the case of the letters A to Z.
pub open spec fn same_ignoring_case(a: Seq<char>, b: Seq<char>) -> bool {
    &&& a.len() == b.len()
    &&& forall|i: int| 0 <= i < a.len() ==> ascii_lower(#[trigger] a[i]) == ascii_lower(b[i])
}

// ---------------------------------------------------------------------------
// Prefixes, trimming, splitting
// ---------------------------------------------------------------------------

/// How many characters at the start of `s` are in the class `p`.
pub open spec fn run(s: Seq<char>, p: spec_fn(char) -> bool) -> int
    decreases s.len(),
{
    if s.len() == 0 || !p(s[0]) {
        0
    } else {
        1 + run(s.drop_first(), p)
    }
}

pub open spec fn blanks() -> spec_fn(char) -> bool {
    |c: char| is_blank(c)
}

pub open spec fn non_blanks() -> spec_fn(char) -> bool {
    |c: char| !is_blank(c)
}

pub open spec fn digits() -> spec_fn(char) -> bool {
    |c: char| is_digit(c)
}

pub open spec fn other_than(x: char) -> spec_fn(char) -> bool {
    |c: char| c != x
}

/// The position of the first `c`, or the length where there is none.
pub open spec fn find_char(s: Seq<char>, c: char) -> int {
    run(s, other_than(c))
}

pub open spec fn trim_start(s: Seq<char>) -> Seq<char> {
    s.skip(run(s, blanks()))
}

pub open spec fn trim_end(s: Seq<char>) -> Seq<char>
    decreases s.len(),
{
    if s.len() > 0 && is_blank(s.last()) {
        trim_end(s.drop_last())
    } else {
        s
    }
}

/// The text without the blanks at its two ends.
pub open spec fn trim(s: Seq<char>) -> Seq<char> {
    trim_end(trim_start(s))
}

/// The pieces between the separators: one more than there are separators.
pub open spec fn split(s: Seq<char>, sep: char) -> Seq<Seq<char>>
    decreases s.len(),
    via split_decreases
{
    let n = find_char(s, sep);
    if n >= s.len() {
        seq![s]
    } else {
        seq![s.take(n)] + split(s.skip(n + 1), sep)
    }
}

#[via_fn]
proof fn split_decreases(s: Seq<char>, sep: char) {
    lemma_run_bounds(s, other_than(sep));
}

/// The longest runs of characters that are not blank, in order.
pub open spec fn words(s: Seq<char>) -> Seq<Seq<char>>
    decreases s.len(),
    via words_decreases
{
    let t = trim_start(s);
    if t.len() == 0 {
        Seq::empty()
    } else {
        let n = run(t, non_blanks());
        seq![t.take(n)] + words(t.skip(n))
    }
}

#[via_fn]
proof fn words_decreases(s: Seq<char>) {
    lemma_run_bounds(s, blanks());
    let t = trim_start(s);
    if t.len() > 0 {
        lemma_run_bounds(t, non_blanks());
        lemma_run_stops(s, blanks());
        assert(t[0] == s[run(s, blanks())]);
        assert(!is_blank(t[0]));
        lemma_run_bounds(t.drop_first(), non_blanks());
    }
}

pub open spec fn starts_with(s: Seq<char>, pat: Seq<char>) -> bool {
    pat.len() <= s.len() && s.take(pat.len() as int) == pat
}

/// `pat` stands in `s` from position `i` on.
pub open spec fn occurs_at(s: Seq<char>, pat: Seq<char>, i: int) -> bool {
    0 <= i && i + pat.len() <= s.len() && s.subrange(i, i + pat.len()) == pat
}

pub open spec fn contains_text(s: Seq<char>, pat: Seq<char>) -> bool {
    exists|i: int| #[trigger] occurs_at(s, pat, i)
}

// ---------------------------------------------------------------------------
// Replacing
// ---------------------------------------------------------------------------

/// The occurrences of `pat`, from the left and without overlap, give way to `with`.
pub open spec fn replace_text(s: Seq<char>, pat: Seq<char>, with: Seq<char>) -> Seq<char>
    decreases s.len(),
{
    if pat.len() == 0 || s.len() < pat.len() {
        s
    } else if starts_with(s, pat) {
        with + replace_text(s.skip(pat.len() as int), pat, with)
    } else {
        seq![s[0]] + replace_text(s.drop_first(), pat, with)
    }
}

/// The first occurrence of `pat`, if there is one, gives way to `with`.
pub open spec fn replace_first(s: Seq<char>, pat: Seq<char>, with: Seq<char>) -> Seq<char>
    decreases s.len(),
{
    if s.len() < pat.len() {
        s
    } else if starts_with(s, pat) {
        with + s.skip(pat.len() as int)
    } else if s.len() == 0 {
        s
    } else {
        seq![s[0]] + replace_first(s.drop_first(), pat, with)
    }
}

// ---------------------------------------------------------------------------
// Numbers
// ---------------------------------------------------------------------------

/// The digit for a number below ten.
pub open spec fn digit(d: nat) -> char {
    (48 + d) as char
}

/// The decimal digits of a number, without leading zeros.
pub open spec fn decimal(n: nat) -> Seq<char>
    decreases n,
{
    if n < 10 {
        seq![digit(n)]
    } else {
        decimal(n / 10).push(digit(n % 10))
    }
}

/// The decimal digits, with a leading zero below ten.
pub open spec fn two_digits(n: nat) -> Seq<char> {
    if n < 10 {
        seq!['0', digit(n)]
    } else {
        decimal(n)
    }
}

/// A minus sign before the digits of a negative number.
pub open spec fn signed_decimal(n: int) -> Seq<char> {
    if n < 0 {
        seq!['-'] + decimal((-n) as nat)
    } else {
        decimal(n as nat)
    }
}

/// The number that a text of digits stands for.
pub open spec fn digits_value(s: Seq<char>) -> nat
    decreases s.len(),
{
    if s.len() == 0 {
        0
    } else {
        digits_value(s.drop_last()) * 10 + ((s.last() as u32) - 48) as nat
    }
}

pub open spec fn all_digits(s: Seq<char>) -> bool {
    forall|i: int| 0 <= i < s.len() ==> is_digit(#[trigger] s[i])
}

/// What a text stands for as a `u64`: digits, which one plus sign may precede.
pub open spec fn unsigned_value(s: Seq<char>) -> Option<u64> {
    let body = if s.len() > 0 && s[0] == '+' {
        s.skip(1)
    } else {
        s
    };
    if body.len() > 0 && all_digits(body) && digits_value(body) <= u64::MAX {
        Some(digits_value(body) as u64)
    } else {
        None
    }
}

// ---------------------------------------------------------------------------
// Order
// ---------------------------------------------------------------------------

/// The lexicographic order by code point.
pub open spec fn lex_le(a: Seq<char>, b: Seq<char>) -> bool
    decreases a.len(),
{
    if a.len() == 0 {
        true
    } else if b.len() == 0 {
        false
    } else if a[0] != b[0] {
        a[0] < b[0]
    } else {
        lex_le(a.drop_first(), b.drop_first())
    }
}

/// Of any two texts one precedes the other.
pub proof fn lemma_lex_total(a: Seq<char>, b: Seq<char>)
    ensures
        lex_le(a, b) || lex_le(b, a),
    decreases a.len(),
{
    if a.len() > 0 && b.len() > 0 && a[0] == b[0] {
        lemma_lex_total(a.drop_first(), b.drop_first());
    }
}

/// Two texts that precede each other are one.
pub proof fn lemma_lex_antisymmetric(a: Seq<char>, b: Seq<char>)
    requires
        lex_le(a, b),
        lex_le(b, a),
    ensures
        a == b,
    decreases a.len(),
{
    if a.len() > 0 && b.len() > 0 {
        lemma_lex_antisymmetric(a.drop_first(), b.drop_first());
        assert(a =~= seq![a[0]] + a.drop_first());
        assert(b =~= seq![b[0]] + b.drop_first());
    } else {
        assert(a =~= b);
    }
}

pub proof fn lemma_lex_transitive(a: Seq<char>, b: Seq<char>, c: Seq<char>)
    requires
        lex_le(a, b),
        lex_le(b, c),
    ensures
        lex_le(a, c),
    decreases a.len(),
{
    if a.len() > 0 && b.len() > 0 && c.len() > 0 && a[0] == b[0] && b[0] == c[0] {
        lemma_lex_transitive(a.drop_first(), b.drop_first(), c.drop_first());
    }
}

// ---------------------------------------------------------------------------
// Lemmas
// ---------------------------------------------------------------------------

pub proof fn lemma_run_bounds(s: Seq<char>, p: spec_fn(char) -> bool)
    ensures
        0 <= run(s, p) <= s.len(),
    decreases s.len(),
{
    if s.len() > 0 && p(s[0]) {
        lemma_run_bounds(s.drop_first(), p);
    }
}

pub proof fn lemma_run_stops(s: Seq<char>, p: spec_fn(char) -> bool)
    ensures
        0 <= run(s, p) <= s.len(),
        run(s, p) < s.len() ==> !p(s[run(s, p)]),
        forall|i: int| 0 <= i < run(s, p) ==> p(#[trigger] s[i]),
    decreases s.len(),
{
    if s.len() > 0 && p(s[0]) {
        let t = s.drop_first();
        lemma_run_stops(t, p);
        assert forall|i: int| 0 <= i < run(s, p) implies p(#[trigger] s[i]) by {
            if i > 0 {
                assert(t[i - 1] == s[i]);
            }
        }
        if run(s, p) < s.len() {
            assert(t[run(t, p)] == s[run(s, p)]);
        }
    }
}

/// The run is the one position where the class ends.
pub proof fn lemma_run_is(s: Seq<char>, p: spec_fn(char) -> bool, n: int)
    requires
        0 <= n <= s.len(),
        forall|i: int| 0 <= i < n ==> p(#[trigger] s[i]),
        n < s.len() ==> !p(s[n]),
    ensures
        run(s, p) == n,
    decreases s.len(),
{
    if s.len() > 0 && p(s[0]) {
        let t = s.drop_first();
        assert(n > 0);
        assert forall|i: int| 0 <= i < n - 1 implies p(#[trigger] t[i]) by {
            assert(t[i] == s[i + 1]);
        }
        lemma_run_is(t, p, n - 1);
    }
}

pub proof fn lemma_trim_end_is(s: Seq<char>, n: int)
    requires
        0 <= n <= s.len(),
        forall|i: int| n <= i < s.len() ==> is_blank(#[trigger] s[i]),
        n > 0 ==> !is_blank(s[n - 1]),
    ensures
        trim_end(s) == s.take(n),
    decreases s.len(),
{
    if n < s.len() {
        lemma_trim_end_is(s.drop_last(), n);
        assert(s.drop_last().take(n) =~= s.take(n));
    } else {
        assert(s.take(n) =~= s);
    }
}

pub proof fn lemma_split_find(s: Seq<char>, sep: char, n: int)
    requires
        find_char(s, sep) == n,
    ensures
        n < s.len() ==> split(s, sep) == seq![s.take(n)] + split(s.skip(n + 1), sep),
        n >= s.len() ==> split(s, sep) == seq![s],
{
    lemma_run_bounds(s, other_than(sep));
}

pub proof fn lemma_words_step(s: Seq<char>, b: int, n: int)
    requires
        run(s, blanks()) == b,
        b < s.len() ==> run(s.skip(b), non_blanks()) == n,
    ensures
        b >= s.len() ==> words(s) == Seq::<Seq<char>>::empty(),
        b < s.len() ==> words(s) == seq![s.subrange(b, b + n)] + words(s.skip(b + n)),
{
    lemma_run_bounds(s, blanks());
    if b < s.len() {
        let t = s.skip(b);
        lemma_run_bounds(t, non_blanks());
        assert(t.take(n) =~= s.subrange(b, b + n));
        assert(t.skip(n) =~= s.skip(b + n));
    }
}

/// The digits of a number stand for that number.
pub proof fn lemma_decimal_reads_back(n: nat)
    ensures
        all_digits(decimal(n)),
        decimal(n).len() > 0,
        digits_value(decimal(n)) == n,
    decreases n,
{
    if n < 10 {
        let s = seq![digit(n)];
        assert(s.drop_last() =~= Seq::<char>::empty());
        assert(digits_value(s.drop_last()) == 0);
    } else {
        lemma_decimal_reads_back(n / 10);
        let s = decimal(n / 10);
        let d = digit(n % 10);
        assert(s.push(d).drop_last() =~= s);
        assert forall|i: int| 0 <= i < s.push(d).len() implies is_digit(#[trigger] s.push(d)[i]) by {
            if i < s.len() {
                assert(s.push(d)[i] == s[i]);
            }
        }
    }
}

/// Different numbers have different digits.
pub proof fn lemma_decimal_injective(a: nat, b: nat)
    requires
        decimal(a) == decimal(b),
    ensures
        a == b,
{
    lemma_decimal_reads_back(a);
    lemma_decimal_reads_back(b);
}

/// A longer text of digits stands for no smaller number.
proof fn lemma_digits_value_grows(s: Seq<char>, n: int)
    requires
        0 <= n <= s.len(),
        all_digits(s),
    ensures
        digits_value(s.take(n)) <= digits_value(s),
    decreases s.len() - n,
{
    if n < s.len() {
        lemma_digits_value_grows(s, n + 1);
        assert(s.take(n + 1).drop_last() =~= s.take(n));
        assert(is_digit(s[n]));
    } else {
        assert(s.take(n) =~= s);
    }
}

// ---------------------------------------------------------------------------
// Executable counterparts
// ---------------------------------------------------------------------------

/// The characters of a text.
pub fn chars(s: &str) -> (r: Vec<char>)
    ensures
        r@ == s@,
{
    let mut out: Vec<char> = Vec::new();
    for c in it: s.chars()
        invariant
            out@ == s@.take(it.index()),
            it.seq() == s@,
    {
        out.push(c);
    }
    out
}

/// The text of the characters from `from` up to `to`.
pub fn text_of(v: &Vec<char>, from: usize, to: usize) -> (r: String)
    requires
        from <= to <= v@.len(),
    ensures
        r@ == v@.subrange(from as int, to as int),
{
    let mut out = String::new();
    let mut i: usize = from;
    while i < to
        invariant
            from <= i <= to <= v@.len(),
            out@ == v@.subrange(from as int, i as int),
        decreases to - i,
    {
        out.push(v[i]);
        i += 1;
    }
    out
}

/// Equality of two texts.
pub fn same(a: &str, b: &str) -> (r: bool)
    ensures
        r == (a@ == b@),
{
    let mut x = a.chars();
    let mut y = b.chars();
    let ghost mut n: int = 0;
    loop
        invariant
            0 <= n <= a@.len(),
            n <= b@.len(),
            a@.take(n) == b@.take(n),
            vstd::std_specs::iter::IteratorSpec::remaining(&x) == a@.skip(n),
            vstd::std_specs::iter::IteratorSpec::remaining(&y) == b@.skip(n),
        decreases a@.len() - n,
    {
        let p = x.next();
        let q = y.next();
        match (p, q) {
            (None, None) => {
                assert(a@.take(n) =~= a@);
                assert(b@.take(n) =~= b@);
                return true;
            },
            (Some(c), Some(d)) => {
                if c != d {
                    assert(a@[n] != b@[n]);
                    return false;
                }
                proof {
                    assert(a@.take(n + 1) =~= a@.take(n).push(c));
                    assert(b@.take(n + 1) =~= b@.take(n).push(c));
                    n = n + 1;
                }
            },
            _ => {
                assert(a@.len() != b@.len());
                return false;
            },
        }
    }
}

/// The texts in order, with `sep` between each two neighbours.
pub fn join_all(parts: &Vec<String>, sep: &str) -> (r: String)
    ensures
        r@ == join(texts(parts@), sep@),
{
    let mut out = String::new();
    let mut i: usize = 0;
    let ghost all = texts(parts@);
    while i < parts.len()
        invariant
            0 <= i <= parts@.len(),
            all == texts(parts@),
            out@ == join(all.take(i as int), sep@),
        decreases parts.len() - i,
    {
        assert(all.take(i + 1).drop_last() =~= all.take(i as int));
        if i > 0 {
            out.append(sep);
        }
        out.append(parts[i].as_str());
        if i == 0 {
            assert(out@ =~= all[0]);
        }
        i += 1;
    }
    assert(all.take(parts@.len() as int) =~= all);
    out
}

pub fn is_blank_char(c: char) -> (r: bool)
    ensures
        r == is_blank(c),
{
    ('\u{9}' <= c && c <= '\u{d}') || c == '\u{20}' || c == '\u{85}' || c == '\u{a0}' || c
        == '\u{1680}' || ('\u{2000}' <= c && c <= '\u{200a}') || c == '\u{2028}' || c == '\u{2029}'
        || c == '\u{202f}' || c == '\u{205f}' || c == '\u{3000}'
}

/// The text without the blanks at its two ends.
pub fn trimmed(s: &str) -> (r: String)
    ensures
        r@ == trim(s@),
{
    let v = chars(s);
    let mut i: usize = 0;
    while i < v.len() && is_blank_char(v[i])
        invariant
            0 <= i <= v@.len(),
            forall|j: int| 0 <= j < i ==> is_blank(#[trigger] v@[j]),
        decreases v.len() - i,
    {
        i += 1;
    }
    proof {
        lemma_run_is(v@, blanks(), i as int);
    }
    let mut k: usize = v.len();
    while k > i && is_blank_char(v[k - 1])
        invariant
            i <= k <= v@.len(),
            forall|j: int| k <= j < v@.len() ==> is_blank(#[trigger] v@[j]),
        decreases k,
    {
        k -= 1;
    }
    proof {
        let t = v@.skip(i as int);
        assert forall|j: int| k - i <= j < t.len() implies is_blank(#[trigger] t[j]) by {
            assert(t[j] == v@[j + i]);
        }
        lemma_trim_end_is(t, k - i);
        assert(t.take(k - i) =~= v@.subrange(i as int, k as int));
    }
    text_of(&v, i, k)
}

/// The pieces between the separators.
pub fn split_at_each(s: &str, sep: char) -> (r: Vec<String>)
    ensures
        texts(r@) == split(s@, sep),
{
    let v = chars(s);
    let mut out: Vec<String> = Vec::new();
    let mut from: usize = 0;
    let mut i: usize = 0;
    proof {
        assert(v@.skip(0) =~= v@);
        assert(texts(out@) + split(v@, sep) =~= split(v@, sep));
    }
    while i < v.len()
        invariant
            0 <= from <= i <= v@.len(),
            forall|j: int| from <= j < i ==> #[trigger] v@[j] != sep,
            texts(out@) + split(v@.skip(from as int), sep) == split(v@, sep),
        decreases v.len() - i,
    {
        if v[i] == sep {
            let ghost rest = v@.skip(from as int);
            proof {
                let n = i - from;
                assert forall|j: int| 0 <= j < n implies other_than(sep)(#[trigger] rest[j]) by {
                    assert(rest[j] == v@[j + from]);
                }
                assert(rest[n] == v@[i as int]);
                lemma_run_is(rest, other_than(sep), n);
                lemma_split_find(rest, sep, n);
                assert(rest.take(n) =~= v@.subrange(from as int, i as int));
                assert(rest.skip(n + 1) =~= v@.skip(i + 1));
            }
            let ghost before = texts(out@);
            out.push(text_of(&v, from, i));
            proof {
                assert(texts(out@) =~= before.push(v@.subrange(from as int, i as int)));
                assert(texts(out@) + split(v@.skip(i + 1), sep) =~= before + (seq![
                    v@.subrange(from as int, i as int),
                ] + split(v@.skip(i + 1), sep)));
            }
            from = i + 1;
        }
        i += 1;
    }
    let ghost rest = v@.skip(from as int);
    proof {
        let n = v@.len() - from;
        assert forall|j: int| 0 <= j < n implies other_than(sep)(#[trigger] rest[j]) by {
            assert(rest[j] == v@[j + from]);
        }
        lemma_run_is(rest, other_than(sep), n);
        lemma_split_find(rest, sep, n);
        assert(rest =~= v@.subrange(from as int, v@.len() as int));
    }
    let ghost before = texts(out@);
    out.push(text_of(&v, from, v.len()));
    assert(texts(out@) =~= before + seq![rest]);
    out
}

/// The longest runs of characters that are not blank, in order.
pub fn split_words(s: &str) -> (r: Vec<String>)
    ensures
        texts(r@) == words(s@),
{
    let v = chars(s);
    let mut out: Vec<String> = Vec::new();
    let mut i: usize = 0;
    proof {
        assert(v@.skip(0) =~= v@);
        assert(texts(out@) + words(v@) =~= words(v@));
    }
    loop
        invariant
            0 <= i <= v@.len(),
            texts(out@) + words(v@.skip(i as int)) == words(v@),
            v@ == s@,
        decreases v.len() - i,
    {
        let ghost rest = v@.skip(i as int);
        let mut k: usize = i;
        while k < v.len() && is_blank_char(v[k])
            invariant
                i <= k <= v@.len(),
                forall|j: int| i <= j < k ==> is_blank(#[trigger] v@[j]),
            decreases v.len() - k,
        {
            k += 1;
        }
        proof {
            assert forall|j: int| 0 <= j < k - i implies blanks()(#[trigger] rest[j]) by {
                assert(rest[j] == v@[j + i]);
            }
            if k < v.len() {
                assert(rest[k - i] == v@[k as int]);
            }
            lemma_run_is(rest, blanks(), k - i);
        }
        if k == v.len() {
            proof {
                lemma_words_step(rest, k - i, 0);
                assert(texts(out@) + Seq::<Seq<char>>::empty() =~= texts(out@));
            }
            return out;
        }
        let mut e: usize = k;
        while e < v.len() && !is_blank_char(v[e])
            invariant
                k <= e <= v@.len(),
                forall|j: int| k <= j < e ==> !is_blank(#[trigger] v@[j]),
            decreases v.len() - e,
        {
            e += 1;
        }
        proof {
            let t = rest.skip(k - i);
            assert forall|j: int| 0 <= j < e - k implies non_blanks()(#[trigger] t[j]) by {
                assert(t[j] == v@[j + k]);
            }
            if e < v.len() {
                assert(t[e - k] == v@[e as int]);
            }
            lemma_run_is(t, non_blanks(), e - k);
            lemma_words_step(rest, k - i, e - k);
            assert(rest.subrange(k - i, e - i) =~= v@.subrange(k as int, e as int));
            assert(rest.skip(e - i) =~= v@.skip(e as int));
        }
        let ghost before = texts(out@);
        out.push(text_of(&v, k, e));
        proof {
            assert(texts(out@) =~= before.push(v@.subrange(k as int, e as int)));
            assert(texts(out@) + words(v@.skip(e as int)) =~= before + (seq![
                v@.subrange(k as int, e as int),
            ] + words(v@.skip(e as int))));
        }
        i = e;
    }
}

/// Whether `pat` stands in `v` from position `i` on.
pub fn stands_at(v: &Vec<char>, pat: &Vec<char>, i: usize) -> (r: bool)
    requires
        i <= v@.len(),
    ensures
        r == occurs_at(v@, pat@, i as int),
{
    let n = v.len();
    if n - i < pat.len() {
        return false;
    }
    let mut j: usize = 0;
    while j < pat.len()
        invariant
            i + pat@.len() <= n,
            n == v@.len(),
            0 <= j <= pat@.len(),
            v@.subrange(i as int, i + j) == pat@.take(j as int),
        decreases pat.len() - j,
    {
        if v[i + j] != pat[j] {
            assert(v@.subrange(i as int, i + pat@.len())[j as int] != pat@[j as int]);
            return false;
        }
        assert(v@.subrange(i as int, i + j + 1) =~= v@.subrange(i as int, i + j).push(pat@[j as int]));
        assert(pat@.take(j + 1) =~= pat@.take(j as int).push(pat@[j as int]));
        j += 1;
    }
    assert(pat@.take(j as int) =~= pat@);
    true
}

/// Whether the text starts with `pat`.
pub fn has_prefix(s: &str, pat: &str) -> (r: bool)
    ensures
        r == starts_with(s@, pat@),
{
    let v = chars(s);
    let p = chars(pat);
    proof {
        if pat@.len() <= s@.len() {
            assert(s@.subrange(0, pat@.len() as int) =~= s@.take(pat@.len() as int));
        }
    }
    stands_at(&v, &p, 0)
}

/// Whether `pat` occurs in the text.
pub fn has_text(s: &str, pat: &str) -> (r: bool)
    ensures
        r == contains_text(s@, pat@),
{
    let v = chars(s);
    let p = chars(pat);
    let mut i: usize = 0;
    while i <= v.len()
        invariant
            0 <= i <= v@.len() + 1,
            v@ == s@,
            p@ == pat@,
            forall|j: int| 0 <= j < i ==> !#[trigger] occurs_at(s@, pat@, j),
        decreases v.len() + 1 - i,
    {
        if stands_at(&v, &p, i) {
            return true;
        }
        if i == v.len() {
            return false;
        }
        i += 1;
    }
    false
}

/// The occurrences of `pat` give way to `with`.
pub fn with_text_replaced(s: &str, pat: &str, with: &str) -> (r: String)
    requires
        pat@.len() > 0,
    ensures
        r@ == replace_text(s@, pat@, with@),
{
    let v = chars(s);
    let p = chars(pat);
    let mut out = String::new();
    let mut i: usize = 0;
    proof {
        assert(v@.skip(0) =~= v@);
        assert(out@ + replace_text(v@, pat@, with@) =~= replace_text(v@, pat@, with@));
    }
    while i < v.len()
        invariant
            0 <= i <= v@.len(),
            p@ == pat@,
            pat@.len() > 0,
            out@ + replace_text(v@.skip(i as int), pat@, with@) == replace_text(v@, pat@, with@),
        decreases v.len() - i,
    {
        let ghost rest = v@.skip(i as int);
        let ghost before = out@;
        let here = stands_at(&v, &p, i);
        proof {
            if pat@.len() <= rest.len() {
                assert(rest.take(pat@.len() as int) =~= v@.subrange(i as int, i + pat@.len()));
            }
            assert(here == starts_with(rest, pat@));
        }
        if here {
            out.append(with);
            proof {
                assert(rest.skip(pat@.len() as int) =~= v@.skip(i + pat@.len()));
                assert(out@ + replace_text(v@.skip(i + pat@.len()), pat@, with@) =~= before + (with@
                    + replace_text(v@.skip(i + pat@.len()), pat@, with@)));
            }
            i += p.len();
        } else {
            out.push(v[i]);
            proof {
                assert(rest.drop_first() =~= v@.skip(i + 1));
                if rest.len() < pat@.len() {
                    assert(rest =~= seq![rest[0]] + rest.drop_first());
                    assert(replace_text(rest.drop_first(), pat@, with@) == rest.drop_first());
                }
                assert(out@ + replace_text(v@.skip(i + 1), pat@, with@) =~= before + (seq![rest[0]]
                    + replace_text(v@.skip(i + 1), pat@, with@)));
            }
            i += 1;
        }
    }
    proof {
        assert(v@.skip(i as int) =~= Seq::<char>::empty());
        assert(replace_text(v@.skip(i as int), pat@, with@) =~= Seq::<char>::empty());
        assert(out@ + Seq::<char>::empty() =~= out@);
    }
    out
}

/// The first occurrence of `pat`, if there is one, gives way to `with`.
pub fn with_first_replaced(s: &str, pat: &str, with: &str) -> (r: String)
    ensures
        r@ == replace_first(s@, pat@, with@),
{
    let v = chars(s);
    let p = chars(pat);
    if p.len() == 0 {
        let mut all = with.to_string();
        all.append(s);
        assert(s@.skip(0) =~= s@);
        assert(s@.take(0) =~= pat@);
        return all;
    }
    let mut out = String::new();
    let mut i: usize = 0;
    proof {
        assert(v@.skip(0) =~= v@);
        assert(out@ + replace_first(v@, pat@, with@) =~= replace_first(v@, pat@, with@));
    }
    while i < v.len()
        invariant
            0 <= i <= v@.len(),
            p@ == pat@,
            pat@.len() > 0,
            out@ + replace_first(v@.skip(i as int), pat@, with@) == replace_first(v@, pat@, with@),
            v@ == s@,
        decreases v.len() - i,
    {
        let ghost rest = v@.skip(i as int);
        let ghost before = out@;
        let here = stands_at(&v, &p, i);
        proof {
            if pat@.len() <= rest.len() {
                assert(rest.take(pat@.len() as int) =~= v@.subrange(i as int, i + pat@.len()));
            }
            assert(here == starts_with(rest, pat@));
        }
        if here {
            out.append(with);
            let tail = text_of(&v, i + p.len(), v.len());
            out.append(tail.as_str());
            proof {
                assert(rest.skip(pat@.len() as int) =~= tail@);
                assert(out@ =~= before + (with@ + tail@));
            }
            return out;
        }
        out.push(v[i]);
        proof {
            assert(rest.drop_first() =~= v@.skip(i + 1));
            if rest.len() < pat@.len() {
                assert(rest =~= seq![rest[0]] + rest.drop_first());
                assert(replace_first(rest.drop_first(), pat@, with@) == rest.drop_first());
            }
            assert(out@ + replace_first(v@.skip(i + 1), pat@, with@) =~= before + (seq![rest[0]]
                + replace_first(v@.skip(i + 1), pat@, with@)));
        }
        i += 1;
    }
    proof {
        assert(v@.skip(i as int) =~= Seq::<char>::empty());
        assert(replace_first(v@.skip(i as int), pat@, with@) =~= Seq::<char>::empty());
        assert(out@ + Seq::<char>::empty() =~= out@);
    }
    out
}

fn digit_char(d: u64) -> (r: char)
    requires
        d < 10,
    ensures
        r == digit(d as nat),
{
    (48u8 + d as u8) as char
}

/// The decimal digits of a number.
pub fn number_text(n: u64) -> (r: String)
    ensures
        r@ == decimal(n as nat),
    decreases n,
{
    if n < 10 {
        let mut s = String::new();
        s.push(digit_char(n));
        assert(s@ =~= seq![digit(n as nat)]);
        s
    } else {
        let mut s = number_text(n / 10);
        s.push(digit_char(n % 10));
        s
    }
}

/// The decimal digits, with a leading zero below ten.
pub fn two_digit_text(n: u64) -> (r: String)
    ensures
        r@ == two_digits(n as nat),
{
    if n < 10 {
        let mut s = String::new();
        s.push('0');
        s.push(digit_char(n));
        assert(s@ =~= seq!['0', digit(n as nat)]);
        s
    } else {
        number_text(n)
    }
}

/// The decimal digits, after a minus sign where the number is negative.
pub fn signed_number_text(n: i64) -> (r: String)
    ensures
        r@ == signed_decimal(n as int),
{
    if n < 0 {
        let mut s = String::new();
        s.push('-');
        let magnitude: u64 = if n == i64::MIN {
            9223372036854775808u64
        } else {
            (-n) as u64
        };
        let body = number_text(magnitude);
        s.append(body.as_str());
        assert(s@ =~= seq!['-'] + decimal(magnitude as nat));
        s
    } else {
        number_text(n as u64)
    }
}

/// The number that the characters from `from` on stand for, where they are digits and it fits.
fn read_digits(v: &Vec<char>, from: usize) -> (r: Option<u64>)
    requires
        from <= v@.len(),
    ensures
        ({
            let body = v@.skip(from as int);
            r == if body.len() > 0 && all_digits(body) && digits_value(body) <= u64::MAX {
                Some(digits_value(body) as u64)
            } else {
                None::<u64>
            }
        }),
{
    let ghost body = v@.skip(from as int);
    if from == v.len() {
        return None;
    }
    let mut n: u64 = 0;
    let mut i: usize = from;
    while i < v.len()
        invariant
            from <= i <= v@.len(),
            body == v@.skip(from as int),
            forall|j: int| 0 <= j < i - from ==> is_digit(#[trigger] body[j]),
            n == digits_value(body.take(i - from)),
        decreases v.len() - i,
    {
        let c = v[i];
        assert(body[i - from] == c);
        if !('0' <= c && c <= '9') {
            return None;
        }
        let d: u64 = c as u64 - 48;
        proof {
            assert(body.take(i - from + 1).drop_last() =~= body.take(i - from));
            if n * 10 + d > u64::MAX && all_digits(body) {
                lemma_digits_value_grows(body, i - from + 1);
            }
        }
        if n > u64::MAX / 10 {
            return None;
        }
        let shifted: u64 = n * 10;
        if shifted > u64::MAX - d {
            return None;
        }
        n = shifted + d;
        i += 1;
    }
    assert(body.take(i - from) =~= body);
    Some(n)
}

/// What a text stands for as a `u64`.
pub fn parse_unsigned(s: &str) -> (r: Option<u64>)
    ensures
        r == unsigned_value(s@),
{
    let v = chars(s);
    if v.len() > 0 && v[0] == '+' {
        read_digits(&v, 1)
    } else {
        assert(v@.skip(0) =~= v@);
        read_digits(&v, 0)
    }
}

pub fn ascii_lower_char(c: char) -> (r: char)
    ensures
        r == ascii_lower(c),
{
    if 'A' <= c && c <= 'Z' {
        (c as u8 + 32) as char
    } else {
        c
    }
}

/// Whether the texts differ at most in the case of the letters A to Z.
pub fn matches_ignoring_case(a: &str, b: &str) -> (r: bool)
    ensures
        r == same_ignoring_case(a@, b@),
{
    let x = chars(a);
    let y = chars(b);
    if x.len() != y.len() {
        return false;
    }
    let mut i: usize = 0;
    while i < x.len()
        invariant
            0 <= i <= x@.len(),
            x@.len() == y@.len(),
            x@ == a@,
            y@ == b@,
            forall|j: int| 0 <= j < i ==> ascii_lower(#[trigger] x@[j]) == ascii_lower(y@[j]),
        decreases x.len() - i,
    {
        if ascii_lower_char(x[i]) != ascii_lower_char(y[i]) {
            assert(ascii_lower(a@[i as int]) != ascii_lower(b@[i as int]));
            return false;
        }
        i += 1;
    }
    true
}

/// Whether `a` stands before `b`, or is equal to it, in the lexicographic order.
pub fn precedes(a: &str, b: &str) -> (r: bool)
    ensures
        r == lex_le(a@, b@),
{
    let x = chars(a);
    let y = chars(b);
    let mut i: usize = 0;
    assert(x@.skip(0) =~= x@);
    assert(y@.skip(0) =~= y@);
    while i < x.len() && i < y.len()
        invariant
            0 <= i <= x@.len(),
            i <= y@.len(),
            lex_le(a@, b@) == lex_le(x@.skip(i as int), y@.skip(i as int)),
        decreases x.len() - i,
    {
        if x[i] != y[i] {
            return x[i] < y[i];
        }
        assert(x@.skip(i as int).drop_first() =~= x@.skip(i + 1));
        assert(y@.skip(i as int).drop_first() =~= y@.skip(i + 1));
        i += 1;
    }
    i == x.len()
}

/// Whether some text of the list is equal to `s`.
pub fn lists(v: &Vec<String>, s: &str) -> (r: bool)
    ensures
        r == texts(v@).contains(s@),
{
    let mut i: usize = 0;
    while i < v.len()
        invariant
            0 <= i <= v@.len(),
            forall|j: int| 0 <= j < i ==> #[trigger] texts(v@)[j] != s@,
        decreases v.len() - i,
    {
        assert(texts(v@)[i as int] == v@[i as int]@);
        if same(v[i].as_str(), s) {
            return true;
        }
        i += 1;
    }
    false
}

/// The position is the one of the first text that is equal.
pub proof fn lemma_text_position_is(v: Seq<Seq<char>>, t: Seq<char>, n: int)
    requires
        0 <= n <= v.len(),
        n < v.len() ==> v[n] == t,
        forall|i: int| 0 <= i < n ==> #[trigger] v[i] != t,
    ensures
        text_position(v, t) == n,
    decreases v.len(),
{
    if n > 0 {
        let w = v.drop_first();
        assert(v[0] != t);
        assert forall|i: int| 0 <= i < n - 1 implies #[trigger] w[i] != t by {
            assert(w[i] == v[i + 1]);
        }
        lemma_text_position_is(w, t, n - 1);
    }
}

/// The position of the first text equal to `t`, or the length where there is none.
pub fn position_of(v: &Vec<String>, t: &str) -> (r: usize)
    ensures
        r == text_position(texts(v@), t@),
        r <= v@.len(),
{
    let mut i: usize = 0;
    while i < v.len()
        invariant
            0 <= i <= v@.len(),
            forall|j: int| 0 <= j < i ==> #[trigger] texts(v@)[j] != t@,
        decreases v.len() - i,
    {
        if same(v[i].as_str(), t) {
            proof {
                lemma_text_position_is(texts(v@), t@, i as int);
            }
            return i;
        }
        i += 1;
    }
    proof {
        lemma_text_position_is(texts(v@), t@, i as int);
    }
    i
}

/// The first text stands first in the joined one.
pub proof fn lemma_join_first(parts: Seq<Seq<char>>, sep: Seq<char>)
    requires
        parts.len() > 1,
    ensures
        join(parts, sep) == parts[0] + (sep + join(parts.drop_first(), sep)),
    decreases parts.len(),
{
    let t = parts.drop_first();
    if parts.len() == 2 {
        assert(parts.drop_last() =~= seq![parts[0]]);
        assert(t =~= seq![parts[1]]);
        assert(join(parts.drop_last(), sep) == parts[0]);
        assert(join(t, sep) == parts[1]);
    } else {
        lemma_join_first(parts.drop_last(), sep);
        assert(parts.drop_last().drop_first() =~= t.drop_last());
        assert(join(parts.drop_last(), sep) == parts[0] + (sep + join(t.drop_last(), sep)));
        assert(join(t, sep) == join(t.drop_last(), sep) + sep + t.last());
    }
    assert(join(parts, sep) =~= parts[0] + (sep + join(t, sep)));
}

/// Texts that are joined by a separator are what comes out when the joined text
/// is split at it, provided that none of them holds it.
pub proof fn split_undoes_join(parts: Seq<Seq<char>>, sep: char)
    requires
        parts.len() > 0,
        forall|i: int| 0 <= i < parts.len() ==> !(#[trigger] parts[i]).contains(sep),
    ensures
        split(join(parts, seq![sep]), sep) == parts,
    decreases parts.len(),
{
    let s = join(parts, seq![sep]);
    let first = parts[0];
    let n = first.len() as int;
    assert(!parts[0].contains(sep));
    assert forall|i: int| 0 <= i < n implies other_than(sep)(#[trigger] first[i]) by {
        assert(first.contains(first[i]));
    }
    if parts.len() == 1 {
        assert(s == first);
        lemma_run_is(s, other_than(sep), n);
        assert(split(s, sep) =~= parts);
    } else {
        let t = parts.drop_first();
        lemma_join_first(parts, seq![sep]);
        assert forall|i: int| 0 <= i < t.len() implies !(#[trigger] t[i]).contains(sep) by {
            assert(t[i] == parts[i + 1]);
        }
        split_undoes_join(t, sep);
        assert(s[n] == sep);
        assert forall|i: int| 0 <= i < n implies other_than(sep)(#[trigger] s[i]) by {
            assert(s[i] == first[i]);
        }
        lemma_run_is(s, other_than(sep), n);
        assert(s.take(n) =~= first);
        assert(s.skip(n + 1) =~= join(t, seq![sep]));
        assert(split(s, sep) =~= seq![first] + t);
        assert(seq![first] + t =~= parts);
    }
}

/// A text that begins and ends with other characters than blanks has none to trim.
pub proof fn lemma_trim_nothing(s: Seq<char>)
    requires
        s.len() > 0,
        !is_blank(s[0]),
        !is_blank(s.last()),
    ensures
        trim_start(s) == s,
        trim(s) == s,
{
    assert(run(s, blanks()) == 0);
    assert(s.skip(0) =~= s);
}

/// The piece stands somewhere in the text.
pub open spec fn holds(text: Seq<char>, piece: Seq<char>) -> bool {
    exists|a: Seq<char>, b: Seq<char>| text == #[trigger] (a + piece + b)
}

pub proof fn lemma_holds(a: Seq<char>, inner: Seq<char>, b: Seq<char>, piece: Seq<char>)
    requires
        holds(inner, piece),
    ensures
        holds(a + inner + b, piece),
{
    let (x, y) = choose|x: Seq<char>, y: Seq<char>| inner == #[trigger] (x + piece + y);
    assert(a + inner + b =~= (a + x) + piece + (y + b));
}

pub proof fn lemma_join_holds(parts: Seq<Seq<char>>, sep: Seq<char>, i: int)
    requires
        0 <= i < parts.len(),
    ensures
        holds(join(parts, sep), parts[i]),
    decreases parts.len(),
{
    let empty = Seq::<char>::empty();
    if parts.len() == 1 {
        assert(join(parts, sep) =~= empty + parts[0] + empty);
    } else {
        let t = parts.drop_last();
        let front = join(t, sep);
        if i < t.len() {
            lemma_join_holds(t, sep, i);
            assert(join(parts, sep) =~= empty + front + (sep + parts.last()));
            lemma_holds(empty, front, sep + parts.last(), parts[i]);
        } else {
            assert(join(parts, sep) =~= (front + sep) + parts.last() + empty);
        }
    }
}

pub proof fn lemma_in_parts(parts: Seq<Seq<char>>, sep: Seq<char>, k: int, piece: Seq<char>)
    requires
        0 <= k < parts.len(),
        holds(parts[k], piece),
    ensures
        holds(join(parts, sep), piece),
{
    lemma_join_holds(parts, sep, k);
    let (a, b) = choose|a: Seq<char>, b: Seq<char>|
        join(parts, sep) == #[trigger] (a + parts[k] + b);
    lemma_holds(a, parts[k], b, piece);
}

/// Texts are the same but for case exactly where each character of one is that of
/// the other, or the same letter of ASCII in the other case.
pub proof fn case_is_all_that_differs(a: Seq<char>, b: Seq<char>)
    ensures
        same_ignoring_case(a, b) <==> a.len() == b.len() && forall|i: int|
            0 <= i < a.len() ==> {
                ||| #[trigger] a[i] == b[i]
                ||| 'A' <= a[i] <= 'Z' && b[i] as int == a[i] as int + 32
                ||| 'A' <= b[i] <= 'Z' && a[i] as int == b[i] as int + 32
            },
{
    if same_ignoring_case(a, b) {
        assert forall|i: int| 0 <= i < a.len() implies {
            ||| #[trigger] a[i] == b[i]
            ||| 'A' <= a[i] <= 'Z' && b[i] as int == a[i] as int + 32
            ||| 'A' <= b[i] <= 'Z' && a[i] as int == b[i] as int + 32
        } by {
            assert(ascii_lower(a[i]) == ascii_lower(b[i]));
        }
    }
}

} // verus!
