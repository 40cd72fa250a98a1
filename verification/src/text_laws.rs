//! What trimming, splitting, searching, replacing and ordering texts comes to.

use crate::text::{
    all_digits, blanks, contains_text, decimal, digits_value, find_char, holds, is_blank, is_digit,
    join, lemma_decimal_reads_back, lemma_join_first, lemma_run_is, lemma_run_stops,
    lemma_split_find, lemma_text_position_is, lemma_words_step, lex_le, non_blanks, occurs_at,
    other_than, replace_first, replace_text, run, split, starts_with, text_position, trim, trim_end,
    trim_start, two_digits, unsigned_value, words,
};
use vstd::prelude::*;

verus! {

/// All characters of the text are blanks.
pub open spec fn is_all_blank(s: Seq<char>) -> bool {
    forall|i: int| 0 <= i < s.len() ==> is_blank(#[trigger] s[i])
}

/// No character of the text is a blank.
pub open spec fn has_no_blank(s: Seq<char>) -> bool {
    forall|i: int| 0 <= i < s.len() ==> !is_blank(#[trigger] s[i])
}

proof fn lemma_trim_end(s: Seq<char>) -> (n: int)
    ensures
        0 <= n <= s.len(),
        trim_end(s) == s.take(n),
        n > 0 ==> !is_blank(s[n - 1]),
        is_all_blank(s.skip(n)),
    decreases s.len(),
{
    if s.len() > 0 && is_blank(s.last()) {
        let t = s.drop_last();
        let n = lemma_trim_end(t);
        assert(t.take(n) =~= s.take(n));
        assert forall|i: int| 0 <= i < s.skip(n).len() implies is_blank(#[trigger] s.skip(n)[i]) by {
            if i < t.skip(n).len() {
                assert(t.skip(n)[i] == s.skip(n)[i]);
            }
        }
        n
    } else {
        assert(s.take(s.len() as int) =~= s);
        s.len() as int
    }
}

/// Trimming takes blanks away from the two ends, all of them, and nothing else.
pub proof fn trimming_takes_the_outer_blanks(s: Seq<char>)
    ensures
        exists|a: Seq<char>, b: Seq<char>|
            is_all_blank(a) && is_all_blank(b) && s == #[trigger] (a + trim(s) + b),
        trim(s).len() > 0 ==> !is_blank(trim(s)[0]) && !is_blank(trim(s).last()),
{
    let k = run(s, blanks());
    lemma_run_stops(s, blanks());
    let t = trim_start(s);
    let n = lemma_trim_end(t);
    let a = s.take(k);
    let b = t.skip(n);
    assert forall|i: int| 0 <= i < a.len() implies is_blank(#[trigger] a[i]) by {
        assert(blanks()(s[i]));
    }
    assert(a + trim(s) + b =~= s);
    if trim(s).len() > 0 {
        assert(t[0] == s[k]);
        assert(!blanks()(s[k]));
        assert(trim(s)[0] == t[0]);
        assert(trim(s).last() == t[n - 1]);
    }
}

/// The pieces between the separators hold none, and joined by it again they make
/// up the text.
pub proof fn join_undoes_split(s: Seq<char>, sep: char)
    ensures
        split(s, sep).len() > 0,
        join(split(s, sep), seq![sep]) == s,
        forall|i: int| 0 <= i < split(s, sep).len() ==> !(#[trigger] split(s, sep)[i]).contains(sep),
    decreases s.len(),
{
    let n = find_char(s, sep);
    let parts = split(s, sep);
    lemma_run_stops(s, other_than(sep));
    lemma_split_find(s, sep, n);
    if n >= s.len() {
        assert(!s.contains(sep)) by {
            if s.contains(sep) {
                let k = s.index_of(sep);
                assert(other_than(sep)(s[k]));
            }
        }
    } else {
        let rest = s.skip(n + 1);
        join_undoes_split(rest, sep);
        lemma_join_first(parts, seq![sep]);
        assert(parts.drop_first() =~= split(rest, sep));
        assert(!other_than(sep)(s[n]));
        assert(s.take(n) + (seq![sep] + rest) =~= s);
        assert forall|i: int| 0 <= i < parts.len() implies !(#[trigger] parts[i]).contains(sep) by {
            if i > 0 {
                assert(parts[i] == split(rest, sep)[i - 1]);
            } else if parts[0].contains(sep) {
                let k = parts[0].index_of(sep);
                assert(other_than(sep)(s[k]));
            }
        }
    }
}

/// Lists that are joined behind each other are joined one by one, with the
/// separator in between.
pub proof fn lists_are_joined_one_by_one(
    a: Seq<Seq<char>>,
    b: Seq<Seq<char>>,
    sep: Seq<char>,
)
    requires
        a.len() > 0,
        b.len() > 0,
    ensures
        join(a + b, sep) == join(a, sep) + sep + join(b, sep),
    decreases b.len(),
{
    assert((a + b).drop_last() =~= a + b.drop_last());
    if b.len() == 1 {
        assert(a + b.drop_last() =~= a);
        assert(join(b, sep) == b[0]);
    } else {
        lists_are_joined_one_by_one(a, b.drop_last(), sep);
        assert(join(a + b, sep) =~= join(a, sep) + sep + join(b, sep));
    }
}

/// A blank ends a word, and blanks before a word count for nothing.
pub proof fn blanks_part_the_words(w: Seq<char>, c: char, rest: Seq<char>)
    requires
        w.len() > 0,
        has_no_blank(w),
        is_blank(c),
    ensures
        words(Seq::empty()).len() == 0,
        words(w) == seq![w],
        words(w + seq![c] + rest) == seq![w] + words(rest),
        words(seq![c] + rest) == words(rest),
{
    let n = w.len() as int;
    lemma_words_step(Seq::empty(), 0, 0);
    assert forall|i: int| 0 <= i < n implies non_blanks()(#[trigger] w[i]) by {}
    lemma_run_is(w, blanks(), 0);
    assert(w.skip(0) =~= w);
    lemma_run_is(w, non_blanks(), n);
    lemma_words_step(w, 0, n);
    assert(w.subrange(0, n) =~= w);
    assert(w.skip(n) =~= Seq::<char>::empty());
    assert(words(w) =~= seq![w]);

    let after = seq![c] + rest;
    let k = run(rest, blanks());
    lemma_run_stops(rest, blanks());
    assert(after.drop_first() =~= rest);
    assert(run(after, blanks()) == 1 + k);
    if k < rest.len() {
        let m = run(rest.skip(k), non_blanks());
        lemma_run_stops(rest.skip(k), non_blanks());
        assert(after.skip(k + 1) =~= rest.skip(k));
        lemma_words_step(rest, k, m);
        lemma_words_step(after, k + 1, m);
        assert(after.subrange(k + 1, k + 1 + m) =~= rest.subrange(k, k + m));
        assert(after.skip(k + 1 + m) =~= rest.skip(k + m));
    } else {
        lemma_words_step(rest, k, 0);
        lemma_words_step(after, k + 1, 0);
    }

    let whole = w + seq![c] + rest;
    assert forall|i: int| 0 <= i < n implies non_blanks()(#[trigger] whole[i]) by {
        assert(whole[i] == w[i]);
    }
    assert(whole[0] == w[0]);
    assert(whole[n] == c);
    lemma_run_is(whole, blanks(), 0);
    assert(whole.skip(0) =~= whole);
    lemma_run_is(whole, non_blanks(), n);
    lemma_words_step(whole, 0, n);
    assert(whole.subrange(0, n) =~= w);
    assert(whole.skip(n) =~= after);
}

/// A text contains another one if and only if it is made up of that one and of
/// what stands before and behind it.
pub proof fn contained_text_stands_somewhere(s: Seq<char>, pat: Seq<char>)
    ensures
        contains_text(s, pat) <==> holds(s, pat),
{
    if contains_text(s, pat) {
        let i = choose|i: int| #[trigger] occurs_at(s, pat, i);
        let a = s.take(i);
        let b = s.skip(i + pat.len());
        assert(a + pat + b =~= s);
    }
    if holds(s, pat) {
        let (a, b) = choose|a: Seq<char>, b: Seq<char>| s == #[trigger] (a + pat + b);
        let i = a.len() as int;
        assert(s.subrange(i, i + pat.len()) =~= pat);
        assert(occurs_at(s, pat, i));
    }
}

/// A text is found where it stands for the first time.
pub proof fn first_match_is_found(v: Seq<Seq<char>>, t: Seq<char>)
    ensures
        0 <= text_position(v, t) <= v.len(),
        text_position(v, t) < v.len() <==> v.contains(t),
        text_position(v, t) < v.len() ==> v[text_position(v, t)] == t,
        forall|i: int| 0 <= i < text_position(v, t) ==> #[trigger] v[i] != t,
{
    if v.contains(t) {
        let n = v.index_of_first(t)->0;
        v.index_of_first_ensures(t);
        lemma_text_position_is(v, t, n);
    } else {
        assert forall|i: int| 0 <= i < v.len() implies #[trigger] v[i] != t by {
            if v[i] == t {
                assert(v.contains(t));
            }
        }
        lemma_text_position_is(v, t, v.len() as int);
    }
}

/// Every occurrence is replaced: what stands before the first one stays, and the
/// search goes on behind it.
pub proof fn occurrences_are_replaced(s: Seq<char>, pat: Seq<char>, with: Seq<char>, i: int)
    requires
        pat.len() > 0,
        occurs_at(s, pat, i),
        forall|j: int| 0 <= j < i ==> !#[trigger] occurs_at(s, pat, j),
    ensures
        replace_text(s, pat, with) == s.take(i) + with + replace_text(
            s.skip(i + pat.len()),
            pat,
            with,
        ),
        replace_first(s, pat, with) == s.take(i) + with + s.skip(i + pat.len()),
    decreases i,
{
    let m = pat.len() as int;
    if i == 0 {
        assert(s.subrange(0, m) =~= s.take(m));
        assert(s.take(0) + with + replace_text(s.skip(m), pat, with) =~= with + replace_text(
            s.skip(m),
            pat,
            with,
        ));
        assert(s.take(0) + with + s.skip(m) =~= with + s.skip(m));
    } else {
        let t = s.drop_first();
        assert(!starts_with(s, pat)) by {
            assert(s.subrange(0, m) =~= s.take(m));
            assert(!occurs_at(s, pat, 0));
        }
        assert(t.subrange(i - 1, i - 1 + m) =~= s.subrange(i, i + m));
        assert forall|j: int| 0 <= j < i - 1 implies !#[trigger] occurs_at(t, pat, j) by {
            if occurs_at(t, pat, j) {
                assert(s.subrange(j + 1, j + 1 + m) =~= t.subrange(j, j + m));
                assert(occurs_at(s, pat, j + 1));
            }
        }
        occurrences_are_replaced(t, pat, with, i - 1);
        assert(t.skip(i - 1 + m) =~= s.skip(i + m));
        assert(seq![s[0]] + (t.take(i - 1) + with + replace_text(s.skip(i + m), pat, with))
            =~= s.take(i) + with + replace_text(s.skip(i + m), pat, with));
        assert(seq![s[0]] + (t.take(i - 1) + with + s.skip(i + m)) =~= s.take(i) + with + s.skip(
            i + m,
        ));
    }
}

/// A text without the pattern stays as it is.
pub proof fn nothing_else_is_replaced(s: Seq<char>, pat: Seq<char>, with: Seq<char>)
    requires
        pat.len() > 0,
        !contains_text(s, pat),
    ensures
        replace_text(s, pat, with) == s,
        replace_first(s, pat, with) == s,
    decreases s.len(),
{
    let m = pat.len() as int;
    if s.len() >= m {
        let t = s.drop_first();
        assert(!starts_with(s, pat)) by {
            assert(s.subrange(0, m) =~= s.take(m));
            assert(!occurs_at(s, pat, 0));
        }
        if contains_text(t, pat) {
            let j = choose|j: int| #[trigger] occurs_at(t, pat, j);
            assert(s.subrange(j + 1, j + 1 + m) =~= t.subrange(j, j + m));
            assert(occurs_at(s, pat, j + 1));
        }
        nothing_else_is_replaced(t, pat, with);
        assert(seq![s[0]] + t =~= s);
    }
}

/// The first character in which two texts differ decides which one comes first,
/// and a text comes before those that it begins.
pub proof fn first_difference_decides(
    start: Seq<char>,
    x: char,
    y: char,
    a: Seq<char>,
    b: Seq<char>,
)
    requires
        x < y,
    ensures
        lex_le(start + seq![x] + a, start + seq![y] + b),
        !lex_le(start + seq![y] + b, start + seq![x] + a),
        lex_le(start, start + a),
        a.len() > 0 ==> !lex_le(start + a, start),
    decreases start.len(),
{
    let p = start + seq![x] + a;
    let q = start + seq![y] + b;
    if start.len() == 0 {
        assert(p[0] == x && q[0] == y);
        assert(start + a =~= a);
    } else {
        first_difference_decides(start.drop_first(), x, y, a, b);
        assert(p.drop_first() =~= start.drop_first() + seq![x] + a);
        assert(q.drop_first() =~= start.drop_first() + seq![y] + b);
        assert((start + a).drop_first() =~= start.drop_first() + a);
        assert(p[0] == start[0] && q[0] == start[0] && (start + a)[0] == start[0]);
    }
}

/// Numbers are written with their digits alone; a leading zero makes two of them.
pub proof fn numbers_are_written_in_digits(n: nat)
    ensures
        all_digits(decimal(n)),
        digits_value(decimal(n)) == n,
        n > 0 ==> decimal(n)[0] != '0',
        all_digits(two_digits(n)),
        digits_value(two_digits(n)) == n,
        two_digits(n).len() >= 2,
        n < 100 ==> two_digits(n).len() == 2,
    decreases n,
{
    lemma_decimal_reads_back(n);
    if n >= 10 {
        numbers_are_written_in_digits(n / 10);
        assert(decimal(n)[0] == decimal(n / 10)[0]);
    } else {
        let s = two_digits(n);
        assert(s.drop_last() =~= seq!['0']);
        assert(s.drop_last().drop_last() =~= Seq::<char>::empty());
        reveal_with_fuel(digits_value, 3);
    }
}

/// A text is taken for a number if and only if it has digits, nothing else than
/// digits behind a plus sign that may be missing, and is no larger than fits.
pub proof fn numbers_are_read_from_digits(s: Seq<char>, k: int)
    ensures
        s.len() > 0 && all_digits(s) && digits_value(s) <= u64::MAX ==> unsigned_value(s) == Some(
            digits_value(s) as u64,
        ) && unsigned_value(seq!['+'] + s) == unsigned_value(s),
        digits_value(s) > u64::MAX && all_digits(s) ==> unsigned_value(s) is None,
        s.len() == 0 ==> unsigned_value(s) is None,
        0 <= k < s.len() && !is_digit(s[k]) && (k > 0 || s[k] != '+') ==> unsigned_value(s) is None,
{
    let t = seq!['+'] + s;
    assert(t.skip(1) =~= s);
    if s.len() > 0 && all_digits(s) {
        assert(is_digit(s[0]));
    }
    if 0 <= k < s.len() && !is_digit(s[k]) {
        if s[0] == '+' {
            assert(k > 0 ==> s.skip(1)[k - 1] == s[k]);
        }
    }
}

} // verus!
