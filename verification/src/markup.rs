//! Telegram's HTML subset and the plain text of SMS.

use crate::text::{
    all_ascii, chars, contains_text, occurs_at, replace_text, starts_with, with_text_replaced,
};
use vstd::prelude::*;
use vstd::string::*;

verus! {

/// Each character gives way to the text that stands for it.
pub open spec fn expand(s: Seq<char>, f: spec_fn(char) -> Seq<char>) -> Seq<char>
    decreases s.len(),
{
    if s.len() == 0 {
        Seq::empty()
    } else {
        expand(s.drop_last(), f) + f(s.last())
    }
}

/// The text that stands for a character in Telegram's HTML subset.
pub open spec fn entity(c: char) -> Seq<char> {
    if c == '&' {
        "&amp;"@
    } else if c == '<' {
        "&lt;"@
    } else if c == '>' {
        "&gt;"@
    } else {
        seq![c]
    }
}

/// The text as Telegram's HTML subset writes it.
pub open spec fn escaped(s: Seq<char>) -> Seq<char> {
    expand(s, |c: char| entity(c))
}

/// Escape a string for Telegram HTML mode.
/// Only the three entities Telegram's HTML subset recognises are encoded.
pub fn esc(s: &str) -> (r: String)
    ensures
        r@ == escaped(s@),
{
    let ghost f = |c: char| entity(c);
    let v = chars(s);
    let mut out = String::new();
    let mut i: usize = 0;
    assert(v@.take(0) =~= Seq::<char>::empty());
    while i < v.len()
        invariant
            0 <= i <= v@.len(),
            f == |c: char| entity(c),
            out@ == expand(v@.take(i as int), f),
        decreases v.len() - i,
    {
        let c = v[i];
        assert(v@.take(i + 1).drop_last() =~= v@.take(i as int));
        if c == '&' {
            out.append("&amp;");
        } else if c == '<' {
            out.append("&lt;");
        } else if c == '>' {
            out.append("&gt;");
        } else {
            out.push(c);
            assert(out@ =~= expand(v@.take(i as int), f) + seq![c]);
        }
        i += 1;
    }
    assert(v@.take(i as int) =~= v@);
    out
}

/// A tag is open behind the text.
pub open spec fn tag_is_open(s: Seq<char>) -> bool
    decreases s.len(),
{
    s.len() > 0 && (s.last() == '<' || (s.last() != '>' && tag_is_open(s.drop_last())))
}

/// The characters that stand outside the tags.
pub open spec fn outside_tags(s: Seq<char>) -> Seq<char>
    decreases s.len(),
{
    if s.len() == 0 {
        Seq::empty()
    } else if s.last() == '<' || s.last() == '>' || tag_is_open(s.drop_last()) {
        outside_tags(s.drop_last())
    } else {
        outside_tags(s.drop_last()).push(s.last())
    }
}

/// The text without its tags, with the three entities decoded one after the other.
pub open spec fn plain(s: Seq<char>) -> Seq<char> {
    replace_text(
        replace_text(replace_text(outside_tags(s), "&amp;"@, "&"@), "&lt;"@, "<"@),
        "&gt;"@,
        ">"@,
    )
}

/// Strip HTML tags and decode the three entities Telegram's HTML subset uses.
pub fn strip_html(s: &str) -> (r: String)
    ensures
        r@ == plain(s@),
{
    let v = chars(s);
    let mut out = String::new();
    let mut in_tag = false;
    let mut i: usize = 0;
    assert(v@.take(0) =~= Seq::<char>::empty());
    while i < v.len()
        invariant
            0 <= i <= v@.len(),
            in_tag == tag_is_open(v@.take(i as int)),
            out@ == outside_tags(v@.take(i as int)),
        decreases v.len() - i,
    {
        let c = v[i];
        assert(v@.take(i + 1).drop_last() =~= v@.take(i as int));
        if c == '<' {
            in_tag = true;
        } else if c == '>' {
            in_tag = false;
        } else if !in_tag {
            out.push(c);
        }
        i += 1;
    }
    assert(v@.take(i as int) =~= v@);
    proof {
        reveal_strlit("&amp;");
        reveal_strlit("&lt;");
        reveal_strlit("&gt;");
    }
    let a = with_text_replaced(out.as_str(), "&amp;", "&");
    let b = with_text_replaced(a.as_str(), "&lt;", "<");
    with_text_replaced(b.as_str(), "&gt;", ">")
}

/// The text that stands for a character in an SMS.
pub open spec fn gsm_text(c: char) -> Seq<char> {
    if c == '\u{2192}' {
        "->"@
    } else if c == '\u{21D2}' {
        "=>"@
    } else if c == '\u{2190}' {
        "<-"@
    } else if c == '\u{2026}' {
        "..."@
    } else if c == '\u{1A}' {
        Seq::empty()
    } else if c == '\u{2022}' || c == '\u{2023}' || c == '\u{25CF}' {
        seq!['-']
    } else if c == '\u{2014}' || c == '\u{2013}' || c == '\u{2012}' {
        seq!['-']
    } else if c == '\u{2018}' || c == '\u{2019}' {
        seq!['\'']
    } else if c == '\u{201C}' || c == '\u{201D}' {
        seq!['"']
    } else if c <= '\u{7f}' {
        seq![c]
    } else {
        seq!['?']
    }
}

/// The text as an SMS carries it.
pub open spec fn gsm_texts(s: Seq<char>) -> Seq<char> {
    expand(s, |c: char| gsm_text(c))
}

/// Map common non-ASCII characters to ASCII equivalents for GSM IRA text mode,
/// then replace any remaining non-ASCII with `?`. Ctrl-Z, which ends a message,
/// is dropped.
pub fn gsm_sanitise(s: &str) -> (r: String)
    ensures
        r@ == gsm_texts(s@),
{
    let ghost f = |c: char| gsm_text(c);
    let v = chars(s);
    let mut out = String::new();
    let mut i: usize = 0;
    assert(v@.take(0) =~= Seq::<char>::empty());
    while i < v.len()
        invariant
            0 <= i <= v@.len(),
            f == |c: char| gsm_text(c),
            out@ == expand(v@.take(i as int), f),
        decreases v.len() - i,
    {
        let c = v[i];
        assert(v@.take(i + 1).drop_last() =~= v@.take(i as int));
        let ghost before = out@;
        if c == '\u{2192}' {
            out.append("->");
        } else if c == '\u{21D2}' {
            out.append("=>");
        } else if c == '\u{2190}' {
            out.append("<-");
        } else if c == '\u{2026}' {
            out.append("...");
        } else if c != '\u{1A}' {
            let d = if c == '\u{2022}' || c == '\u{2023}' || c == '\u{25CF}' {
                '-'
            } else if c == '\u{2014}' || c == '\u{2013}' || c == '\u{2012}' {
                '-'
            } else if c == '\u{2018}' || c == '\u{2019}' {
                '\''
            } else if c == '\u{201C}' || c == '\u{201D}' {
                '"'
            } else if c <= '\u{7f}' {
                c
            } else {
                '?'
            };
            out.push(d);
        }
        assert(out@ =~= before + gsm_text(c));
        i += 1;
    }
    assert(v@.take(i as int) =~= v@);
    out
}

// ---------------------------------------------------------------------------
// Laws
// ---------------------------------------------------------------------------

proof fn lemma_expand_first(s: Seq<char>, f: spec_fn(char) -> Seq<char>)
    requires
        s.len() > 0,
    ensures
        expand(s, f) == f(s[0]) + expand(s.drop_first(), f),
    decreases s.len(),
{
    let t = s.drop_first();
    if s.len() == 1 {
        assert(s.drop_last() =~= Seq::<char>::empty());
        assert(t =~= Seq::<char>::empty());
        assert(expand(s, f) =~= f(s[0]) + expand(t, f));
    } else {
        lemma_expand_first(s.drop_last(), f);
        assert(s.drop_last().drop_first() =~= t.drop_last());
        assert(expand(s, f) =~= f(s[0]) + expand(t, f));
    }
}

/// An SMS holds ASCII characters only, and no Ctrl-Z.
pub proof fn sms_is_ascii(s: Seq<char>)
    ensures
        all_ascii(gsm_texts(s)),
        !gsm_texts(s).contains('\u{1A}'),
    decreases s.len(),
{
    if s.len() > 0 {
        sms_is_ascii(s.drop_last());
        reveal_strlit("->");
        reveal_strlit("=>");
        reveal_strlit("<-");
        reveal_strlit("...");
        let a = gsm_texts(s.drop_last());
        let b = gsm_text(s.last());
        let r = gsm_texts(s);
        assert(r == a + b);
        assert forall|i: int| 0 <= i < r.len() implies #[trigger] r[i] <= '\u{7f}' && r[i]
            != '\u{1A}' by {
            if i < a.len() {
                assert(a.contains(a[i]));
            } else {
                assert(r[i] == b[i - a.len()]);
            }
        }
    }
}

/// A text of ASCII characters without Ctrl-Z goes into an SMS unchanged.
pub proof fn sms_keeps_ascii(s: Seq<char>)
    requires
        all_ascii(s),
        !s.contains('\u{1A}'),
    ensures
        gsm_texts(s) == s,
    decreases s.len(),
{
    if s.len() > 0 {
        let t = s.drop_last();
        assert(all_ascii(t));
        assert(s.contains(s[s.len() - 1]));
        assert(!t.contains('\u{1A}')) by {
            if t.contains('\u{1A}') {
                let k = choose|k: int| 0 <= k < t.len() && t[k] == '\u{1A}';
                assert(s[k] == '\u{1A}');
            }
        }
        sms_keeps_ascii(t);
        assert(is_plain_ascii(s.last()));
        assert(gsm_texts(s) =~= t.push(s.last()));
        assert(s =~= t.push(s.last()));
    } else {
        assert(s =~= Seq::<char>::empty());
    }
}

spec fn is_plain_ascii(c: char) -> bool {
    c <= '\u{7f}' && gsm_text(c) == seq![c]
}

/// What stands for a character once the ampersands are decoded.
spec fn bracket_entity(c: char) -> Seq<char> {
    if c == '<' {
        "&lt;"@
    } else if c == '>' {
        "&gt;"@
    } else {
        seq![c]
    }
}

/// What stands for a character once `<` is decoded too.
spec fn closing_entity(c: char) -> Seq<char> {
    if c == '>' {
        "&gt;"@
    } else {
        seq![c]
    }
}

proof fn lemma_no_tags(s: Seq<char>)
    requires
        !s.contains('<'),
        !s.contains('>'),
    ensures
        outside_tags(s) == s,
        !tag_is_open(s),
    decreases s.len(),
{
    if s.len() > 0 {
        let t = s.drop_last();
        assert(s.contains(s[s.len() - 1]));
        assert forall|c: char| t.contains(c) implies s.contains(c) by {
            let k = choose|k: int| 0 <= k < t.len() && t[k] == c;
            assert(s[k] == c);
        }
        lemma_no_tags(t);
        assert(s =~= t.push(s.last()));
    } else {
        assert(s =~= Seq::<char>::empty());
    }
}

proof fn lemma_escaped_has_no_brackets(s: Seq<char>)
    ensures
        !escaped(s).contains('<'),
        !escaped(s).contains('>'),
    decreases s.len(),
{
    if s.len() > 0 {
        lemma_escaped_has_no_brackets(s.drop_last());
        reveal_strlit("&amp;");
        reveal_strlit("&lt;");
        reveal_strlit("&gt;");
        let a = escaped(s.drop_last());
        let b = entity(s.last());
        assert(escaped(s) == a + b);
        assert forall|i: int| 0 <= i < escaped(s).len() implies #[trigger] escaped(s)[i] != '<'
            && escaped(s)[i] != '>' by {
            if i < a.len() {
                assert(a.contains(a[i]));
            } else {
                assert(escaped(s)[i] == b[i - a.len()]);
            }
        }
    }
}

/// Where the pattern starts nowhere in `a`, replacing begins behind it.
proof fn lemma_replace_skips(a: Seq<char>, rest: Seq<char>, pat: Seq<char>, with: Seq<char>)
    requires
        pat.len() > 0,
        forall|i: int| 0 <= i < a.len() ==> !starts_with(#[trigger] (a + rest).skip(i), pat),
    ensures
        replace_text(a + rest, pat, with) == a + replace_text(rest, pat, with),
    decreases a.len(),
{
    let s = a + rest;
    if a.len() == 0 {
        assert(s =~= rest);
        assert(a + replace_text(rest, pat, with) =~= replace_text(rest, pat, with));
    } else {
        let b = a.drop_first();
        assert(s.skip(0) =~= s);
        assert(s.drop_first() =~= b + rest);
        assert forall|i: int| 0 <= i < b.len() implies !starts_with(
            #[trigger] (b + rest).skip(i),
            pat,
        ) by {
            assert((b + rest).skip(i) =~= s.skip(i + 1));
        }
        lemma_replace_skips(b, rest, pat, with);
        if s.len() < pat.len() {
            assert(replace_text(rest, pat, with) == rest);
        } else {
            assert(!starts_with(s.skip(0), pat));
            assert(seq![s[0]] + (b + replace_text(rest, pat, with)) =~= a + replace_text(
                rest,
                pat,
                with,
            ));
        }
    }
}

proof fn lemma_decode_ampersands(s: Seq<char>)
    ensures
        replace_text(escaped(s), "&amp;"@, "&"@) == expand(s, |c: char| bracket_entity(c)),
    decreases s.len(),
{
    let f = |c: char| entity(c);
    let g = |c: char| bracket_entity(c);
    reveal_strlit("&amp;");
    reveal_strlit("&");
    reveal_strlit("&lt;");
    reveal_strlit("&gt;");
    let pat = "&amp;"@;
    if s.len() > 0 {
        let t = s.drop_first();
        lemma_expand_first(s, f);
        lemma_expand_first(s, g);
        lemma_decode_ampersands(t);
        let e = escaped(s);
        let a = entity(s[0]);
        if s[0] == '&' {
            assert(e.take(5) =~= pat);
            assert(e.skip(5) =~= escaped(t));
            assert("&"@ =~= seq!['&']);
        } else {
            assert forall|i: int| 0 <= i < a.len() implies !starts_with(
                #[trigger] (a + escaped(t)).skip(i),
                pat,
            ) by {
                let u = (a + escaped(t)).skip(i);
                if starts_with(u, pat) {
                    assert(u.take(5)[0] == '&');
                    assert(u.take(5)[1] == 'a');
                    assert(u[0] == a[i]);
                    assert(i == 0);
                    assert(u[1] == a[1]);
                }
            }
            lemma_replace_skips(a, escaped(t), pat, "&"@);
        }
    }
}

/// A character that no entity holds stands for itself.
proof fn lemma_plain_char_stays(s: Seq<char>, f: spec_fn(char) -> Seq<char>, k: int, c: char)
    requires
        c != '&',
        0 <= k <= 3,
        expand(s, f).len() > k,
        expand(s, f)[k] == c,
        forall|j: int| 0 <= j < k && j < s.len() ==> f(#[trigger] s[j]) == seq![s[j]],
        forall|d: char| f(d) == seq![d] || (#[trigger] f(d)).len() > 0 && f(d)[0] == '&',
    ensures
        s.len() > k,
        s[k] == c,
        f(s[k]) == seq![s[k]],
    decreases k,
{
    if s.len() > 0 {
        lemma_expand_first(s, f);
        if k > 0 {
            let t = s.drop_first();
            assert(f(s[0]) == seq![s[0]]);
            assert forall|j: int| 0 <= j < k - 1 && j < t.len() implies f(#[trigger] t[j]) == seq![
                t[j],
            ] by {
                assert(t[j] == s[j + 1]);
            }
            lemma_plain_char_stays(t, f, k - 1, c);
        } else {
            assert(expand(s, f)[0] == f(s[0])[0]);
        }
    }
}

proof fn lemma_contains_in_tail(s: Seq<char>, pat: Seq<char>)
    requires
        s.len() > 0,
        contains_text(s.drop_first(), pat),
    ensures
        contains_text(s, pat),
{
    let t = s.drop_first();
    let i = choose|i: int| #[trigger] occurs_at(t, pat, i);
    assert(s.subrange(i + 1, i + 1 + pat.len()) =~= t.subrange(i, i + pat.len()));
    assert(occurs_at(s, pat, i + 1));
}

proof fn lemma_decode_bracket(
    s: Seq<char>,
    f: spec_fn(char) -> Seq<char>,
    g: spec_fn(char) -> Seq<char>,
    x: char,
    l: char,
    pat: Seq<char>,
    with: Seq<char>,
)
    requires
        pat == seq!['&', l, 't', ';'],
        l == 'l' || l == 'g',
        with == seq![x],
        f(x) == pat,
        g(x) == with,
        x != '&',
        f('&') == seq!['&'],
        forall|d: char| d != x ==> f(d) == #[trigger] g(d),
        forall|d: char|
            d != x ==> #[trigger] f(d) == seq![d] || f(d) == seq!['&', 'g', 't', ';'] && l == 'l',
        !contains_text(s, pat),
    ensures
        replace_text(expand(s, f), pat, with) == expand(s, g),
    decreases s.len(),
{
    if s.len() > 0 {
        let t = s.drop_first();
        lemma_expand_first(s, f);
        lemma_expand_first(s, g);
        if contains_text(t, pat) {
            lemma_contains_in_tail(s, pat);
        }
        lemma_decode_bracket(t, f, g, x, l, pat, with);
        let e = expand(s, f);
        let a = f(s[0]);
        if s[0] == x {
            assert(e.take(4) =~= pat);
            assert(e.skip(4) =~= expand(t, f));
        } else {
            assert(f(s[0]) == g(s[0]));
            assert forall|i: int| 0 <= i < a.len() implies !starts_with(
                #[trigger] (a + expand(t, f)).skip(i),
                pat,
            ) by {
                let u = (a + expand(t, f)).skip(i);
                if starts_with(u, pat) {
                    assert(u.take(4)[0] == '&');
                    assert(u.take(4)[1] == l);
                    assert(u.take(4)[2] == 't');
                    assert(u.take(4)[3] == ';');
                    assert(u[0] == a[i]);
                    assert(i == 0);
                    assert(u =~= e);
                    if a == seq![s[0]] {
                        assert(s[0] == '&');
                        assert(forall|d: char|
                            f(d) == seq![d] || (#[trigger] f(d)).len() > 0 && f(d)[0] == '&');
                        lemma_plain_char_stays(s, f, 1, l);
                        lemma_plain_char_stays(s, f, 2, 't');
                        lemma_plain_char_stays(s, f, 3, ';');
                        assert(s.subrange(0, 4) =~= pat);
                        assert(occurs_at(s, pat, 0));
                    } else {
                        assert(u[1] == a[1]);
                    }
                }
            }
            lemma_replace_skips(a, expand(t, f), pat, with);
        }
    }
}

/// A text that was escaped for Telegram and then stripped for SMS comes back
/// as it was, unless it spelled out an entity of its own.
pub proof fn stripping_undoes_escaping(s: Seq<char>)
    requires
        !contains_text(s, "&lt;"@),
        !contains_text(s, "&gt;"@),
    ensures
        plain(escaped(s)) == s,
{
    let f = |c: char| bracket_entity(c);
    let g = |c: char| closing_entity(c);
    let h = |c: char| seq![c];
    reveal_strlit("&lt;");
    reveal_strlit("&gt;");
    reveal_strlit("<");
    reveal_strlit(">");
    assert("&lt;"@ =~= seq!['&', 'l', 't', ';']);
    assert("&gt;"@ =~= seq!['&', 'g', 't', ';']);
    assert("<"@ =~= seq!['<']);
    assert(">"@ =~= seq!['>']);
    lemma_escaped_has_no_brackets(s);
    lemma_no_tags(escaped(s));
    lemma_decode_ampersands(s);
    lemma_decode_bracket(s, f, g, '<', 'l', "&lt;"@, "<"@);
    lemma_decode_bracket(s, g, h, '>', 'g', "&gt;"@, ">"@);
    lemma_expand_to_itself(s);
}

proof fn lemma_expand_to_itself(s: Seq<char>)
    ensures
        expand(s, |c: char| seq![c]) == s,
    decreases s.len(),
{
    if s.len() > 0 {
        lemma_expand_to_itself(s.drop_last());
        assert(s =~= s.drop_last() + seq![s.last()]);
    } else {
        assert(s =~= Seq::<char>::empty());
    }
}

// ---------------------------------------------------------------------------
// Laws
// ---------------------------------------------------------------------------

proof fn lemma_expand_parts(a: Seq<char>, b: Seq<char>, f: spec_fn(char) -> Seq<char>)
    ensures
        expand(a + b, f) == expand(a, f) + expand(b, f),
    decreases b.len(),
{
    if b.len() == 0 {
        assert(a + b =~= a);
        assert(expand(a, f) + expand(b, f) =~= expand(a, f));
    } else {
        lemma_expand_parts(a, b.drop_last(), f);
        assert((a + b).drop_last() =~= a + b.drop_last());
        assert(expand(a + b, f) =~= expand(a, f) + expand(b, f));
    }
}

proof fn lemma_expand_one(c: char, f: spec_fn(char) -> Seq<char>)
    ensures
        expand(seq![c], f) == f(c),
{
    assert(seq![c].drop_last() =~= Seq::<char>::empty());
    assert(expand(seq![c].drop_last(), f) + f(c) =~= f(c));
}

/// Texts are escaped character by character, and only the three characters that
/// mean something in HTML change.
pub proof fn characters_are_escaped_one_by_one(a: Seq<char>, b: Seq<char>, c: char)
    ensures
        escaped(a + b) == escaped(a) + escaped(b),
        c != '&' && c != '<' && c != '>' ==> escaped(seq![c]) == seq![c],
        c == '&' || c == '<' || c == '>' ==> escaped(seq![c]).len() > 2 && escaped(seq![c])[0]
            == '&' && escaped(seq![c]).last() == ';',
{
    reveal_strlit("&amp;");
    reveal_strlit("&lt;");
    reveal_strlit("&gt;");
    lemma_expand_parts(a, b, |c: char| entity(c));
    lemma_expand_one(c, |c: char| entity(c));
}

/// An escaped text opens and closes no tag.
pub proof fn escaped_texts_hold_no_tags(s: Seq<char>)
    ensures
        !escaped(s).contains('<'),
        !escaped(s).contains('>'),
{
    lemma_escaped_has_no_brackets(s);
}

/// Texts go into an SMS character by character.
pub proof fn characters_go_into_an_sms_one_by_one(a: Seq<char>, b: Seq<char>, c: char)
    ensures
        gsm_texts(a + b) == gsm_texts(a) + gsm_texts(b),
        c != '\u{1A}' ==> gsm_texts(seq![c]).len() > 0,
        c > '\u{7f}' ==> forall|i: int|
            0 <= i < gsm_texts(seq![c]).len() ==> #[trigger] gsm_texts(seq![c])[i] <= '\u{7f}',
{
    reveal_strlit("->");
    reveal_strlit("=>");
    reveal_strlit("<-");
    reveal_strlit("...");
    lemma_expand_parts(a, b, |c: char| gsm_text(c));
    lemma_expand_one(c, |c: char| gsm_text(c));
}

proof fn lemma_in_a_tag(a: Seq<char>, t: Seq<char>)
    requires
        forall|i: int| 0 <= i < t.len() ==> #[trigger] t[i] != '>',
    ensures
        tag_is_open(a + seq!['<'] + t),
        outside_tags(a + seq!['<'] + t) == outside_tags(a),
    decreases t.len(),
{
    let s = a + seq!['<'] + t;
    if t.len() == 0 {
        assert(s.drop_last() =~= a);
    } else {
        assert(t[t.len() - 1] != '>');
        lemma_in_a_tag(a, t.drop_last());
        assert(s.drop_last() =~= a + seq!['<'] + t.drop_last());
    }
}

proof fn lemma_behind_a_tag(a: Seq<char>, b: Seq<char>)
    requires
        !tag_is_open(a),
    ensures
        outside_tags(a + b) == outside_tags(a) + outside_tags(b),
        tag_is_open(a + b) == tag_is_open(b),
    decreases b.len(),
{
    if b.len() == 0 {
        assert(a + b =~= a);
        assert(outside_tags(a) + outside_tags(b) =~= outside_tags(a));
    } else {
        lemma_behind_a_tag(a, b.drop_last());
        assert((a + b).drop_last() =~= a + b.drop_last());
        assert(outside_tags(a + b) =~= outside_tags(a) + outside_tags(b));
    }
}

/// A tag goes, with all that stands in it, and nothing of what stands around it.
pub proof fn tags_are_taken_out(a: Seq<char>, t: Seq<char>, b: Seq<char>)
    requires
        !tag_is_open(a),
        forall|i: int| 0 <= i < t.len() ==> #[trigger] t[i] != '>',
    ensures
        outside_tags(a + seq!['<'] + t + seq!['>'] + b) == outside_tags(a) + outside_tags(b),
{
    let opened = a + seq!['<'] + t;
    let tagged = opened + seq!['>'];
    lemma_in_a_tag(a, t);
    assert(tagged.drop_last() =~= opened);
    assert(tagged.last() == '>');
    assert(!tag_is_open(tagged));
    assert(outside_tags(tagged) == outside_tags(a));
    lemma_behind_a_tag(tagged, b);
}

/// A text without tags and entities is plain as it is.
pub proof fn plain_texts_stay(s: Seq<char>)
    requires
        !s.contains('<'),
        !s.contains('>'),
        !s.contains('&'),
    ensures
        plain(s) == s,
{
    lemma_no_tags(s);
    lemma_no_entity(s, "&amp;"@, "&"@);
    lemma_no_entity(s, "&lt;"@, "<"@);
    lemma_no_entity(s, "&gt;"@, ">"@);
}

proof fn lemma_no_entity(s: Seq<char>, pat: Seq<char>, with: Seq<char>)
    requires
        !s.contains('&'),
        pat == "&amp;"@ || pat == "&lt;"@ || pat == "&gt;"@,
    ensures
        replace_text(s, pat, with) == s,
    decreases s.len(),
{
    reveal_strlit("&amp;");
    reveal_strlit("&lt;");
    reveal_strlit("&gt;");
    assert(pat[0] == '&');
    if s.len() >= pat.len() {
        let t = s.drop_first();
        assert(s.contains(s[0]));
        if starts_with(s, pat) {
            assert(s.take(pat.len() as int)[0] == s[0]);
        }
        assert(!t.contains('&')) by {
            if t.contains('&') {
                let k = t.index_of('&');
                assert(s[k + 1] == '&');
            }
        }
        lemma_no_entity(t, pat, with);
        assert(seq![s[0]] + t =~= s);
    }
}

} // verus!
