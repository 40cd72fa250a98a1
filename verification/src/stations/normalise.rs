//! Station names in the form in which they are compared.

use crate::text::{
    all_ascii, ascii_lower, ascii_upper, blanks, chars, contains_text, has_prefix, has_text,
    is_ascii_alnum, is_ascii_char, is_blank, is_blank_char, is_digit, join, join_all,
    lemma_run_bounds, lemma_run_is, lemma_run_stops, lemma_trim_nothing, non_blanks, occurs_at,
    replace_first, run, split_words, starts_with, trim, trim_end, trim_start, trimmed,
    with_first_replaced, words,
};
use crate::unicode::{
    alphanumeric, ascii_lowercase, ascii_uppercase, is_alphanumeric, lowercase, to_lower,
};
use vstd::prelude::*;
use vstd::string::*;

verus! {

/// The letters and digits of Unicode.
pub open spec fn letters_and_digits() -> spec_fn(char) -> bool {
    |c: char| alphanumeric(c)
}

/// The letters and digits of ASCII.
pub open spec fn ascii_letters_and_digits() -> spec_fn(char) -> bool {
    |c: char| is_ascii_alnum(c)
}

/// The characters that are no punctuation: letters and digits, which `p` tells,
/// and blanks.
pub open spec fn without_punctuation(s: Seq<char>, p: spec_fn(char) -> bool) -> Seq<char>
    decreases s.len(),
{
    if s.len() == 0 {
        Seq::empty()
    } else {
        let rest = without_punctuation(s.drop_last(), p);
        if p(s.last()) || is_blank(s.last()) {
            rest.push(s.last())
        } else {
            rest
        }
    }
}

/// The word `from` gives way to `to` where it first stands between blanks in
/// `text`; where it does not, `result` stays.
pub open spec fn word_replaced(
    result: Seq<char>,
    text: Seq<char>,
    from: Seq<char>,
    to: Seq<char>,
) -> Seq<char> {
    let word = " "@ + from + " "@;
    if contains_text(text, word) {
        trim(replace_first(text, word, " "@ + to + " "@))
    } else {
        result
    }
}

/// The name with its ampersand spelled out, where that stands between two words.
pub open spec fn ampersand_spelled_out(s: Seq<char>) -> Seq<char> {
    word_replaced(s, trim(s), "&"@, "and"@)
}

/// The name with `st` spelled out, where that stands behind another word.
/// As the first word it may well be a saint.
pub open spec fn street_spelled_out(s: Seq<char>) -> Seq<char> {
    word_replaced(s, trim(s) + " "@, "st"@, "street"@)
}

/// One replacement in `result`. A pattern at the start of the whole name `s` is
/// replaced where it stands first; elsewhere only where it stands as words.
pub open spec fn replaced(
    result: Seq<char>,
    s: Seq<char>,
    from: Seq<char>,
    to: Seq<char>,
) -> Seq<char> {
    if starts_with(s, from) {
        replace_first(result, from, to)
    } else {
        word_replaced(result, " "@ + result + " "@, from, to)
    }
}

/// The name with its abbreviations expanded and its `london` prefix dropped,
/// one replacement after the other.
pub open spec fn abbreviations_expanded(s: Seq<char>) -> Seq<char> {
    let a = street_spelled_out(s);
    let c = replaced(a, s, "london waterloo"@, "waterloo"@);
    let d = replaced(c, s, "london victoria"@, "victoria"@);
    let e = replaced(d, s, "london bridge"@, "london bridge"@);
    let f = replaced(e, s, "london kings cross"@, "kings cross"@);
    let g = replaced(f, s, "london paddington"@, "paddington"@);
    let h = replaced(g, s, "london euston"@, "euston"@);
    let i = replaced(h, s, "london liverpool street"@, "liverpool street"@);
    let j = replaced(i, s, "london cannon street"@, "cannon street"@);
    let k = replaced(j, s, "london charing cross"@, "charing cross"@);
    replaced(k, s, "london blackfriars"@, "blackfriars"@)
}

/// The form of a name in lower case: without punctuation, where `p` tells the
/// letters and digits, with its abbreviations expanded, and with one blank
/// between the words.
pub open spec fn normal_form(lower: Seq<char>, p: spec_fn(char) -> bool) -> Seq<char> {
    join(
        words(abbreviations_expanded(without_punctuation(ampersand_spelled_out(lower), p))),
        " "@,
    )
}

/// The form in which a station name is compared.
pub open spec fn normalised(name: Seq<char>) -> Seq<char> {
    normal_form(lowercase(name), letters_and_digits())
}

/// The form in which a station name of ASCII characters is compared.
pub open spec fn ascii_normalised(name: Seq<char>) -> Seq<char> {
    normal_form(ascii_lowercase(name), ascii_letters_and_digits())
}

pub open spec fn is_lower_alnum(c: char) -> bool {
    'a' <= c <= 'z' || is_digit(c)
}

/// Words of lower-case letters and digits with exactly one blank between them.
pub open spec fn is_lower_words(s: Seq<char>) -> bool {
    &&& forall|i: int| 0 <= i < s.len() ==> is_lower_alnum(#[trigger] s[i]) || s[i] == ' '
    &&& forall|i: int|
        0 <= i < s.len() && #[trigger] s[i] == ' ' ==> 0 < i && i + 1 < s.len() && s[i + 1] != ' '
}

/// Normalise a station name for comparison.
/// Lowercases, strips punctuation, expands abbreviations.
pub fn normalise(name: &str) -> (r: String)
    ensures
        r@ == normalised(name@),
        all_ascii(name@) ==> r@ == ascii_normalised(name@),
        all_ascii(name@) ==> is_lower_words(r@),
{
    let lower = to_lower(name);
    // An ampersand is an abbreviation, but it would go with the punctuation.
    let bare = trimmed(lower.as_str());
    let spelled = replace_word(lower.clone(), bare.as_str(), "&", "and");
    let v = chars(spelled.as_str());
    let mut stripped = String::new();
    let mut i: usize = 0;
    assert(v@.take(0) =~= Seq::<char>::empty());
    while i < v.len()
        invariant
            0 <= i <= v@.len(),
            stripped@ == without_punctuation(v@.take(i as int), letters_and_digits()),
            forall|j: int|
                0 <= j < i && is_ascii_char(#[trigger] v@[j]) ==> alphanumeric(v@[j])
                    == is_ascii_alnum(v@[j]),
        decreases v.len() - i,
    {
        assert(v@.take(i + 1).drop_last() =~= v@.take(i as int));
        if is_alphanumeric(v[i]) || is_blank_char(v[i]) {
            stripped.push(v[i]);
        }
        i += 1;
    }
    assert(v@.take(i as int) =~= v@);
    let expanded = expand_abbreviations(stripped.as_str());
    // Collapse multiple spaces.
    let r = join_all(&split_words(expanded.as_str()), " ");
    proof {
        if all_ascii(name@) {
            lemma_lower(name@);
            lemma_ampersand(lower@);
            lemma_same_punctuation(v@, letters_and_digits(), ascii_letters_and_digits());
            normalised_names_are_words(name@);
        }
    }
    r
}

fn replace_word(result: String, text: &str, from: &str, to: &str) -> (r: String)
    ensures
        r@ == word_replaced(result@, text@, from@, to@),
{
    let word = padded(from);
    if has_text(text, word.as_str()) {
        let changed = with_first_replaced(text, word.as_str(), padded(to).as_str());
        trimmed(changed.as_str())
    } else {
        result
    }
}

fn replace(result: String, s: &str, from: &str, to: &str) -> (r: String)
    ensures
        r@ == replaced(result@, s@, from@, to@),
{
    if has_prefix(s, from) {
        return with_first_replaced(result.as_str(), from, to);
    }
    // Pad with spaces for word-boundary matching.
    let whole = padded(result.as_str());
    replace_word(result, whole.as_str(), from, to)
}

fn padded(s: &str) -> (r: String)
    ensures
        r@ == " "@ + s@ + " "@,
{
    let mut r = " ".to_string();
    r.append(s);
    r.append(" ");
    r
}

pub fn expand_abbreviations(s: &str) -> (r: String)
    ensures
        r@ == abbreviations_expanded(s@),
{
    // No padding in front: as the first word, `st` is left alone.
    let mut text = trimmed(s);
    text.append(" ");
    let a = replace_word(s.to_string(), text.as_str(), "st", "street");
    let c = replace(a, s, "london waterloo", "waterloo");
    let d = replace(c, s, "london victoria", "victoria");
    let e = replace(d, s, "london bridge", "london bridge");
    let f = replace(e, s, "london kings cross", "kings cross");
    let g = replace(f, s, "london paddington", "paddington");
    let h = replace(g, s, "london euston", "euston");
    let i = replace(h, s, "london liverpool street", "liverpool street");
    let j = replace(i, s, "london cannon street", "cannon street");
    let k = replace(j, s, "london charing cross", "charing cross");
    replace(k, s, "london blackfriars", "blackfriars")
}

// ---------------------------------------------------------------------------
// Laws
// ---------------------------------------------------------------------------

/// Every character is in the class `p`.
pub open spec fn all_in(s: Seq<char>, p: spec_fn(char) -> bool) -> bool {
    forall|i: int| 0 <= i < s.len() ==> p(#[trigger] s[i])
}

/// ASCII without the letters A to Z.
spec fn no_capitals() -> spec_fn(char) -> bool {
    |c: char| is_ascii_char(c) && !('A' <= c <= 'Z')
}

/// What is left of them without punctuation.
spec fn lower_or_blank() -> spec_fn(char) -> bool {
    |c: char| is_lower_alnum(c) || is_blank(c)
}

proof fn lemma_lower(s: Seq<char>)
    requires
        all_ascii(s),
    ensures
        all_in(ascii_lowercase(s), no_capitals()),
{
    let r = ascii_lowercase(s);
    assert forall|i: int| 0 <= i < r.len() implies no_capitals()(#[trigger] r[i]) by {
        assert(is_ascii_char(s[i]));
        assert(r[i] == ascii_lower(s[i]));
    }
}

proof fn lemma_trim_in(s: Seq<char>, p: spec_fn(char) -> bool)
    requires
        all_in(s, p),
    ensures
        all_in(trim(s), p),
{
    let t = trim_start(s);
    let n = run(s, blanks());
    lemma_run_bounds(s, blanks());
    assert forall|i: int| 0 <= i < t.len() implies p(#[trigger] t[i]) by {
        assert(t[i] == s[i + n]);
    }
    lemma_trim_end_in(t, p);
}

proof fn lemma_trim_end_in(s: Seq<char>, p: spec_fn(char) -> bool)
    requires
        all_in(s, p),
    ensures
        all_in(trim_end(s), p),
    decreases s.len(),
{
    if s.len() > 0 && is_blank(s.last()) {
        lemma_trim_end_in(s.drop_last(), p);
    }
}

proof fn lemma_replace_first_in(
    s: Seq<char>,
    pat: Seq<char>,
    with: Seq<char>,
    p: spec_fn(char) -> bool,
)
    requires
        all_in(s, p),
        all_in(with, p),
    ensures
        all_in(replace_first(s, pat, with), p),
    decreases s.len(),
{
    let r = replace_first(s, pat, with);
    if s.len() < pat.len() {
    } else if starts_with(s, pat) {
        assert forall|i: int| 0 <= i < r.len() implies p(#[trigger] r[i]) by {
            if i >= with.len() {
                assert(r[i] == s[i - with.len() + pat.len()]);
            }
        }
    } else if s.len() > 0 {
        let rest = s.drop_first();
        assert forall|i: int| 0 <= i < rest.len() implies p(#[trigger] rest[i]) by {
            assert(rest[i] == s[i + 1]);
        }
        lemma_replace_first_in(rest, pat, with, p);
        assert forall|i: int| 0 <= i < r.len() implies p(#[trigger] r[i]) by {
            if i > 0 {
                assert(r[i] == replace_first(rest, pat, with)[i - 1]);
            } else {
                assert(r[0] == s[0]);
            }
        }
    }
}

proof fn lemma_padded_in(s: Seq<char>, p: spec_fn(char) -> bool)
    requires
        all_in(s, p),
        p(' '),
    ensures
        all_in(" "@ + s + " "@, p),
{
    reveal_strlit(" ");
    let r = " "@ + s + " "@;
    assert forall|i: int| 0 <= i < r.len() implies p(#[trigger] r[i]) by {
        if 0 < i < r.len() - 1 {
            assert(r[i] == s[i - 1]);
        }
    }
}

proof fn lemma_word_replaced_in(
    result: Seq<char>,
    text: Seq<char>,
    from: Seq<char>,
    to: Seq<char>,
    p: spec_fn(char) -> bool,
)
    requires
        all_in(result, p),
        all_in(text, p),
        all_in(to, p),
        p(' '),
    ensures
        all_in(word_replaced(result, text, from, to), p),
{
    let word = " "@ + from + " "@;
    let with = " "@ + to + " "@;
    lemma_padded_in(to, p);
    lemma_replace_first_in(text, word, with, p);
    lemma_trim_in(replace_first(text, word, with), p);
}

proof fn lemma_replaced_in(
    result: Seq<char>,
    s: Seq<char>,
    from: Seq<char>,
    to: Seq<char>,
    p: spec_fn(char) -> bool,
)
    requires
        all_in(result, p),
        all_in(to, p),
        p(' '),
    ensures
        all_in(replaced(result, s, from, to), p),
{
    lemma_padded_in(result, p);
    lemma_replace_first_in(result, from, to, p);
    lemma_word_replaced_in(result, " "@ + result + " "@, from, to, p);
}

proof fn lemma_ampersand(s: Seq<char>)
    requires
        all_in(s, no_capitals()),
    ensures
        all_in(ampersand_spelled_out(s), no_capitals()),
{
    reveal_strlit("and");
    lemma_trim_in(s, no_capitals());
    lemma_word_replaced_in(s, trim(s), "&"@, "and"@, no_capitals());
}

proof fn lemma_street(s: Seq<char>, p: spec_fn(char) -> bool)
    requires
        all_in(s, p),
        p == lower_or_blank(),
    ensures
        all_in(street_spelled_out(s), p),
{
    reveal_strlit("street");
    reveal_strlit(" ");
    lemma_trim_in(s, p);
    let text = trim(s) + " "@;
    assert forall|i: int| 0 <= i < text.len() implies p(#[trigger] text[i]) by {
        if i < trim(s).len() {
            assert(text[i] == trim(s)[i]);
        }
    }
    lemma_word_replaced_in(s, text, "st"@, "street"@, p);
}

proof fn lemma_same_punctuation(
    s: Seq<char>,
    p: spec_fn(char) -> bool,
    q: spec_fn(char) -> bool,
)
    requires
        forall|i: int| 0 <= i < s.len() ==> p(#[trigger] s[i]) == q(s[i]),
    ensures
        without_punctuation(s, p) == without_punctuation(s, q),
    decreases s.len(),
{
    if s.len() > 0 {
        let t = s.drop_last();
        assert forall|i: int| 0 <= i < t.len() implies p(#[trigger] t[i]) == q(t[i]) by {
            assert(t[i] == s[i]);
        }
        lemma_same_punctuation(t, p, q);
    }
}

proof fn lemma_without_punctuation(s: Seq<char>)
    requires
        all_in(s, no_capitals()),
    ensures
        all_in(without_punctuation(s, ascii_letters_and_digits()), lower_or_blank()),
    decreases s.len(),
{
    if s.len() > 0 {
        lemma_without_punctuation(s.drop_last());
        assert(no_capitals()(s[s.len() - 1]));
    }
}

proof fn lemma_expanded(s: Seq<char>)
    requires
        all_in(s, lower_or_blank()),
    ensures
        all_in(abbreviations_expanded(s), lower_or_blank()),
{
    let p = lower_or_blank();
    reveal_strlit("waterloo");
    reveal_strlit("victoria");
    reveal_strlit("london bridge");
    reveal_strlit("kings cross");
    reveal_strlit("paddington");
    reveal_strlit("euston");
    reveal_strlit("liverpool street");
    reveal_strlit("cannon street");
    reveal_strlit("charing cross");
    reveal_strlit("blackfriars");
    let a = street_spelled_out(s);
    let c = replaced(a, s, "london waterloo"@, "waterloo"@);
    let d = replaced(c, s, "london victoria"@, "victoria"@);
    let e = replaced(d, s, "london bridge"@, "london bridge"@);
    let f = replaced(e, s, "london kings cross"@, "kings cross"@);
    let g = replaced(f, s, "london paddington"@, "paddington"@);
    let h = replaced(g, s, "london euston"@, "euston"@);
    let i = replaced(h, s, "london liverpool street"@, "liverpool street"@);
    let j = replaced(i, s, "london cannon street"@, "cannon street"@);
    let k = replaced(j, s, "london charing cross"@, "charing cross"@);
    lemma_street(s, p);
    lemma_replaced_in(a, s, "london waterloo"@, "waterloo"@, p);
    lemma_replaced_in(c, s, "london victoria"@, "victoria"@, p);
    lemma_replaced_in(d, s, "london bridge"@, "london bridge"@, p);
    lemma_replaced_in(e, s, "london kings cross"@, "kings cross"@, p);
    lemma_replaced_in(f, s, "london paddington"@, "paddington"@, p);
    lemma_replaced_in(g, s, "london euston"@, "euston"@, p);
    lemma_replaced_in(h, s, "london liverpool street"@, "liverpool street"@, p);
    lemma_replaced_in(i, s, "london cannon street"@, "cannon street"@, p);
    lemma_replaced_in(j, s, "london charing cross"@, "charing cross"@, p);
    lemma_replaced_in(k, s, "london blackfriars"@, "blackfriars"@, p);
}

/// A word is not empty and holds no blank.
spec fn is_lower_word(w: Seq<char>) -> bool {
    w.len() > 0 && forall|i: int| 0 <= i < w.len() ==> is_lower_alnum(#[trigger] w[i])
}

proof fn lemma_words(s: Seq<char>)
    requires
        all_in(s, lower_or_blank()),
    ensures
        forall|k: int| 0 <= k < words(s).len() ==> is_lower_word(#[trigger] words(s)[k]),
    decreases s.len(),
{
    let b = run(s, blanks());
    let t = trim_start(s);
    lemma_run_bounds(s, blanks());
    lemma_run_stops(s, blanks());
    if t.len() > 0 {
        let n = run(t, non_blanks());
        let w = t.take(n);
        let rest = t.skip(n);
        lemma_run_bounds(t, non_blanks());
        lemma_run_stops(t, non_blanks());
        assert(t[0] == s[b]);
        assert(n > 0);
        assert forall|i: int| 0 <= i < w.len() implies is_lower_alnum(#[trigger] w[i]) by {
            assert(t[i] == s[i + b]);
            assert(lower_or_blank()(s[i + b]));
            assert(non_blanks()(t[i]));
        }
        assert forall|i: int| 0 <= i < rest.len() implies lower_or_blank()(#[trigger] rest[i]) by {
            assert(rest[i] == s[i + n + b]);
        }
        lemma_words(rest);
        assert(words(s) == seq![w] + words(rest));
        assert forall|k: int| 0 <= k < words(s).len() implies is_lower_word(
            #[trigger] words(s)[k],
        ) by {
            if k > 0 {
                assert(words(s)[k] == words(rest)[k - 1]);
            }
        }
    }
}

proof fn lemma_joined_words(ws: Seq<Seq<char>>)
    requires
        forall|k: int| 0 <= k < ws.len() ==> is_lower_word(#[trigger] ws[k]),
    ensures
        is_lower_words(join(ws, " "@)),
        ws.len() > 0 ==> join(ws, " "@).len() > 0,
    decreases ws.len(),
{
    let s = join(ws, " "@);
    reveal_strlit(" ");
    if ws.len() > 0 {
        let last = ws.last();
        assert(is_lower_word(ws[ws.len() - 1]));
        if ws.len() > 1 {
            let front = ws.drop_last();
            assert forall|k: int| 0 <= k < front.len() implies is_lower_word(
                #[trigger] front[k],
            ) by {
                assert(front[k] == ws[k]);
            }
            lemma_joined_words(front);
            let t = join(front, " "@);
            let n = t.len() as int;
            assert(s == t + " "@ + last);
            assert forall|i: int| 0 <= i < s.len() implies is_lower_alnum(#[trigger] s[i]) || s[i]
                == ' ' by {
                if i < n {
                    assert(s[i] == t[i]);
                } else if i > n {
                    assert(s[i] == last[i - n - 1]);
                }
            }
            assert forall|i: int| 0 <= i < s.len() && #[trigger] s[i] == ' ' implies 0 < i && i + 1
                < s.len() && s[i + 1] != ' ' by {
                if i < n {
                    assert(s[i] == t[i]);
                    assert(s[i + 1] == t[i + 1]);
                } else if i > n {
                    assert(is_lower_alnum(last[i - n - 1]));
                } else {
                    assert(is_lower_alnum(last[0]));
                }
            }
        } else {
            assert(s == last);
        }
    }
}

proof fn lemma_replace_first_at(s: Seq<char>, pat: Seq<char>, with: Seq<char>, n: int)
    requires
        occurs_at(s, pat, n),
        forall|i: int| 0 <= i < n ==> !#[trigger] occurs_at(s, pat, i),
    ensures
        replace_first(s, pat, with) == s.take(n) + with + s.skip(n + pat.len()),
    decreases s.len(),
{
    if n == 0 {
        assert(s.take(pat.len() as int) =~= s.subrange(0, pat.len() as int));
        assert(replace_first(s, pat, with) =~= s.take(0) + with + s.skip(pat.len() as int));
    } else {
        let t = s.drop_first();
        assert(!occurs_at(s, pat, 0));
        assert(s.take(pat.len() as int) =~= s.subrange(0, pat.len() as int));
        assert(t.subrange(n - 1, n - 1 + pat.len()) =~= s.subrange(n, n + pat.len()));
        assert forall|i: int| 0 <= i < n - 1 implies !#[trigger] occurs_at(t, pat, i) by {
            assert(!occurs_at(s, pat, i + 1));
            assert(t.subrange(i, i + pat.len()) =~= s.subrange(i + 1, i + 1 + pat.len()));
        }
        lemma_replace_first_at(t, pat, with, n - 1);
        assert(seq![s[0]] + (t.take(n - 1) + with + t.skip(n - 1 + pat.len())) =~= s.take(n) + with
            + s.skip(n + pat.len()));
    }
}

/// The place where a word first stands between blanks.
proof fn lemma_word_at(text: Seq<char>, a: Seq<char>, w: Seq<char>)
    requires
        forall|i: int| 0 <= i < w.len() ==> !is_blank(#[trigger] w[i]),
        !contains_text(a + " "@, " "@ + w + " "@),
        occurs_at(text, " "@ + w + " "@, a.len() as int),
        text.take(a.len() as int) == a,
    ensures
        forall|i: int| 0 <= i < a.len() ==> !#[trigger] occurs_at(text, " "@ + w + " "@, i),
{
    reveal_strlit(" ");
    let n = a.len() as int;
    let word = " "@ + w + " "@;
    let front = a + " "@;
    assert(text.subrange(n, n + word.len())[0] == word[0]);
    assert(text[n] == ' ');
    assert forall|i: int| 0 <= i < front.len() implies #[trigger] front[i] == text[i] by {
        if i < n {
            assert(text.take(n)[i] == text[i]);
        }
    }
    assert forall|i: int| 0 <= i < n implies !#[trigger] occurs_at(text, word, i) by {
        if occurs_at(text, word, i) {
            let piece = text.subrange(i, i + word.len());
            if i + word.len() <= n + 1 {
                assert(front.subrange(i, i + word.len()) =~= piece);
                assert(occurs_at(front, word, i));
            } else {
                let k = n - i;
                assert(piece[k] == text[n]);
                assert(word[k] == w[k - 1]);
            }
        }
    }
}

/// `st` that stands between other words for the first time is spelled out there,
/// and the rest of the name stays.
pub proof fn street_between_words(a: Seq<char>, b: Seq<char>)
    requires
        a.len() > 0 && !is_blank(a[0]),
        b.len() > 0 && !is_blank(b.last()),
        !contains_text(a + " "@, " st "@),
    ensures
        street_spelled_out(a + " st "@ + b) == a + " street "@ + b,
{
    reveal_strlit(" ");
    reveal_strlit("st");
    reveal_strlit(" st ");
    reveal_strlit("street");
    reveal_strlit(" street ");
    let n = a.len() as int;
    let s = a + " st "@ + b;
    let word = " "@ + "st"@ + " "@;
    let with = " "@ + "street"@ + " "@;
    let text = s + " "@;
    let changed = a + " street "@ + b;
    assert(word =~= " st "@);
    assert(with =~= " street "@);
    assert(s[0] == a[0] && s.last() == b.last());
    lemma_trim_nothing(s);
    assert(text.take(n) =~= a);
    assert(text.subrange(n, n + word.len()) =~= word);
    assert(occurs_at(text, word, n));
    lemma_word_at(text, a, "st"@);
    assert(contains_text(text, word));
    lemma_replace_first_at(text, word, with, n);
    assert(text.take(n) + with + text.skip(n + word.len()) =~= changed + " "@);
    assert(changed[0] == a[0] && changed.last() == b.last());
    lemma_trim_behind(changed);
}

proof fn lemma_trim_behind(s: Seq<char>)
    requires
        s.len() > 0,
        !is_blank(s[0]),
        !is_blank(s.last()),
    ensures
        trim(s + " "@) == s,
{
    reveal_strlit(" ");
    let r = s + " "@;
    assert(r[0] == s[0]);
    assert(!blanks()(r[0]));
    lemma_run_is(r, blanks(), 0);
    assert(trim_start(r) =~= r);
    assert(r.last() == ' ');
    assert(r.drop_last() =~= s);
    assert(trim_end(s) == s);
    assert(trim_end(r) == trim_end(r.drop_last()));
}

/// An ampersand that stands between words for the first time is spelled out there.
pub proof fn ampersand_between_words(a: Seq<char>, b: Seq<char>)
    requires
        a.len() > 0 && !is_blank(a[0]),
        b.len() > 0 && !is_blank(b.last()),
        !contains_text(a + " "@, " & "@),
    ensures
        ampersand_spelled_out(a + " & "@ + b) == a + " and "@ + b,
{
    reveal_strlit(" ");
    reveal_strlit("&");
    reveal_strlit(" & ");
    reveal_strlit("and");
    reveal_strlit(" and ");
    let n = a.len() as int;
    let s = a + " & "@ + b;
    let word = " "@ + "&"@ + " "@;
    let with = " "@ + "and"@ + " "@;
    let changed = a + " and "@ + b;
    assert(word =~= " & "@);
    assert(with =~= " and "@);
    assert(s[0] == a[0] && s.last() == b.last());
    lemma_trim_nothing(s);
    assert(s.take(n) =~= a);
    assert(s.subrange(n, n + word.len()) =~= word);
    assert(occurs_at(s, word, n));
    lemma_word_at(s, a, "&"@);
    assert(contains_text(s, word));
    lemma_replace_first_at(s, word, with, n);
    assert(s.take(n) + with + s.skip(n + word.len()) =~= changed);
    assert(changed[0] == a[0] && changed.last() == b.last());
    lemma_trim_nothing(changed);
}

/// A name in which `st` stands at most as the first word keeps it.
pub proof fn first_word_stays(rest: Seq<char>)
    requires
        rest.len() > 0 && !is_blank(rest.last()),
        !contains_text(" "@ + rest + " "@, " st "@),
    ensures
        street_spelled_out("st "@ + rest) == "st "@ + rest,
{
    reveal_strlit(" ");
    reveal_strlit("st");
    reveal_strlit("st ");
    reveal_strlit(" st ");
    let s = "st "@ + rest;
    let word = " "@ + "st"@ + " "@;
    let text = s + " "@;
    let tail = " "@ + rest + " "@;
    assert(word =~= " st "@);
    assert(s[0] == 's' && s.last() == rest.last());
    lemma_trim_nothing(s);
    if contains_text(text, word) {
        let i = choose|i: int| #[trigger] occurs_at(text, word, i);
        assert(text.subrange(i, i + 4)[0] == word[0]);
        assert(text[0] == 's' && text[1] == 't');
        assert(i >= 2);
        assert(tail =~= text.skip(2));
        assert(tail.subrange(i - 2, i + 2) =~= text.subrange(i, i + 4));
        assert(occurs_at(tail, " st "@, i - 2));
    }
}

/// A normalised name of ASCII characters consists of words of lower-case letters
/// and digits, with exactly one blank between two words and none at the ends.
pub proof fn normalised_names_are_words(name: Seq<char>)
    requires
        all_ascii(name),
    ensures
        is_lower_words(ascii_normalised(name)),
{
    let lower = ascii_lowercase(name);
    let spelled = ampersand_spelled_out(lower);
    let stripped = without_punctuation(spelled, ascii_letters_and_digits());
    lemma_lower(name);
    lemma_ampersand(lower);
    lemma_without_punctuation(spelled);
    lemma_expanded(stripped);
    lemma_words(abbreviations_expanded(stripped));
    lemma_joined_words(words(abbreviations_expanded(stripped)));
}

/// The case of a name of ASCII characters does not matter.
pub proof fn case_does_not_matter(name: Seq<char>)
    requires
        all_ascii(name),
    ensures
        ascii_normalised(ascii_uppercase(name)) == ascii_normalised(name),
        ascii_normalised(ascii_lowercase(name)) == ascii_normalised(name),
{
    assert forall|i: int| 0 <= i < name.len() implies ascii_lower(
        #[trigger] ascii_uppercase(name)[i],
    ) == ascii_lower(name[i]) by {
        assert(ascii_uppercase(name)[i] == ascii_upper(name[i]));
    }
    assert(ascii_lowercase(ascii_uppercase(name)) =~= ascii_lowercase(name));
    assert(ascii_lowercase(ascii_lowercase(name)) =~= ascii_lowercase(name));
}

} // verus!
