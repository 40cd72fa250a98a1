//! What changes in a name when it is brought to the form for comparison.

use crate::stations::normalise::{
    abbreviations_expanded, replaced, street_spelled_out, without_punctuation,
};
use crate::text::{contains_text, is_blank, occurs_at, starts_with, trim};
use crate::text_laws::occurrences_are_replaced;
use vstd::prelude::*;
use vstd::string::*;

verus! {

/// Punctuation goes, wherever it stands, and everything else stays, in order.
pub proof fn punctuation_alone_goes(
    a: Seq<char>,
    b: Seq<char>,
    c: char,
    p: spec_fn(char) -> bool,
)
    ensures
        without_punctuation(a + b, p) == without_punctuation(a, p) + without_punctuation(b, p),
        p(c) || is_blank(c) ==> without_punctuation(seq![c], p) == seq![c],
        !p(c) && !is_blank(c) ==> without_punctuation(seq![c], p).len() == 0,
    decreases b.len(),
{
    let one = seq![c];
    assert(one.drop_last() =~= Seq::<char>::empty());
    assert(without_punctuation(one.drop_last(), p) =~= Seq::<char>::empty());
    assert(p(c) || is_blank(c) ==> without_punctuation(one, p) =~= one);
    if b.len() == 0 {
        assert(a + b =~= a);
        assert(without_punctuation(a, p) + without_punctuation(b, p) =~= without_punctuation(a, p));
    } else {
        punctuation_alone_goes(a, b.drop_last(), c, p);
        assert((a + b).drop_last() =~= a + b.drop_last());
        assert(without_punctuation(a + b, p) =~= without_punctuation(a, p) + without_punctuation(
            b,
            p,
        ));
    }
}

/// A row of the list that does not begin the name changes nothing where the name
/// holds no other `london` than the one at its start, if that.
proof fn lemma_other_row(result: Seq<char>, s: Seq<char>, from: Seq<char>, to: Seq<char>)
    requires
        from.len() > 6,
        from.take(6) == "london"@,
        !starts_with(s, from),
        (result == s && !contains_text(s.skip(1), "london"@)) || !contains_text(
            result,
            "london"@,
        ),
    ensures
        replaced(result, s, from, to) == result,
{
    reveal_strlit(" ");
    reveal_strlit("london");
    let word = " "@ + from + " "@;
    let text = " "@ + result + " "@;
    if contains_text(text, word) {
        let i = choose|i: int| #[trigger] occurs_at(text, word, i);
        let m = from.len() as int;
        let there = result.subrange(i, i + m);
        assert forall|k: int| 0 <= k < m implies #[trigger] there[k] == from[k] by {
            assert(text.subrange(i, i + word.len())[k + 1] == word[k + 1]);
        }
        assert(there =~= from);
        assert(result.subrange(i, i + 6) =~= there.take(6));
        assert(occurs_at(result, "london"@, i));
        assert(contains_text(result, "london"@));
        if i == 0 {
            assert(result.take(m) =~= there);
        } else {
            assert(s.skip(1).subrange(i - 1, i + 5) =~= s.subrange(i, i + 6));
            assert(occurs_at(s.skip(1), "london"@, i - 1));
        }
    }
}

proof fn lemma_own_row(s: Seq<char>, from: Seq<char>, to: Seq<char>, rest: Seq<char>)
    requires
        from.len() > 0,
        s == from + rest,
    ensures
        starts_with(s, from),
        replaced(s, s, from, to) == to + rest,
{
    let m = from.len() as int;
    assert(s.take(m) =~= from);
    assert(s.subrange(0, m) =~= from);
    assert(occurs_at(s, from, 0));
    occurrences_are_replaced(s, from, to, 0);
    assert(s.skip(m) =~= rest);
    assert(s.take(0) + to + s.skip(0 + m) =~= to + rest);
}

/// The rows begin with `london` and differ in the word behind it.
proof fn lemma_rows()
    ensures
        ({
            let rows = seq![
                "london waterloo"@,
                "london victoria"@,
                "london bridge"@,
                "london kings cross"@,
                "london paddington"@,
                "london euston"@,
                "london liverpool street"@,
                "london cannon street"@,
                "london charing cross"@,
                "london blackfriars"@,
            ];
            &&& forall|i: int|
                0 <= i < rows.len() ==> (#[trigger] rows[i]).len() > 8 && rows[i].take(6)
                    == "london"@
            &&& forall|i: int, j: int|
                0 <= i < rows.len() && 0 <= j < rows.len() && i != j ==> (#[trigger] rows[i])[7] != (
                #[trigger] rows[j])[7] || rows[i][8] != rows[j][8]
        }),
{
    reveal_strlit("london");
    reveal_strlit("london waterloo");
    reveal_strlit("london victoria");
    reveal_strlit("london bridge");
    reveal_strlit("london kings cross");
    reveal_strlit("london paddington");
    reveal_strlit("london euston");
    reveal_strlit("london liverpool street");
    reveal_strlit("london cannon street");
    reveal_strlit("london charing cross");
    reveal_strlit("london blackfriars");
    assert("london waterloo"@.take(6) =~= "london"@);
    assert("london victoria"@.take(6) =~= "london"@);
    assert("london bridge"@.take(6) =~= "london"@);
    assert("london kings cross"@.take(6) =~= "london"@);
    assert("london paddington"@.take(6) =~= "london"@);
    assert("london euston"@.take(6) =~= "london"@);
    assert("london liverpool street"@.take(6) =~= "london"@);
    assert("london cannon street"@.take(6) =~= "london"@);
    assert("london charing cross"@.take(6) =~= "london"@);
    assert("london blackfriars"@.take(6) =~= "london"@);
}

/// A name that begins with one row begins with no other.
proof fn lemma_no_other_start(s: Seq<char>, own: Seq<char>, other: Seq<char>)
    requires
        own.len() > 8,
        other.len() > 8,
        starts_with(s, own),
        own[7] != other[7] || own[8] != other[8],
    ensures
        !starts_with(s, other),
{
    assert(s.take(own.len() as int)[7] == s[7] && s.take(own.len() as int)[8] == s[8]);
    if starts_with(s, other) {
        assert(s.take(other.len() as int)[7] == s[7] && s.take(other.len() as int)[8] == s[8]);
    }
}

/// One replacement where the name begins with `own`: before that row is due the
/// result is the name itself, behind it a text without `london`.
proof fn lemma_row_is_not_due(
    result: Seq<char>,
    s: Seq<char>,
    own: Seq<char>,
    from: Seq<char>,
    to: Seq<char>,
)
    requires
        own.len() > 8,
        from.len() > 8,
        from.take(6) == "london"@,
        starts_with(s, own),
        own[7] != from[7] || own[8] != from[8],
        (result == s && !contains_text(s.skip(1), "london"@)) || !contains_text(
            result,
            "london"@,
        ),
    ensures
        replaced(result, s, from, to) == result,
{
    lemma_no_other_start(s, own, from);
    lemma_other_row(result, s, from, to);
}

/// A name without `london`, in which `st` does not stand behind another word, stays
/// as it is.
pub proof fn other_names_stay(s: Seq<char>)
    requires
        !contains_text(s, "london"@),
        !contains_text(trim(s) + " "@, " st "@),
    ensures
        abbreviations_expanded(s) == s,
{
    lemma_no_street(s);
    lemma_rows();
    let rows = seq![
        "london waterloo"@,
        "london victoria"@,
        "london bridge"@,
        "london kings cross"@,
        "london paddington"@,
        "london euston"@,
        "london liverpool street"@,
        "london cannon street"@,
        "london charing cross"@,
        "london blackfriars"@,
    ];
    assert forall|i: int| 0 <= i < rows.len() implies !starts_with(s, #[trigger] rows[i]) by {
        if starts_with(s, rows[i]) {
            assert(s.subrange(0, 6) =~= rows[i].take(6)) by {
                assert(s.take(rows[i].len() as int).take(6) =~= s.subrange(0, 6));
            }
            assert(occurs_at(s, "london"@, 0)) by {
                reveal_strlit("london");
            }
        }
    }
    lemma_other_row(s, s, rows[0], "waterloo"@);
    lemma_other_row(s, s, rows[1], "victoria"@);
    lemma_other_row(s, s, rows[2], "london bridge"@);
    lemma_other_row(s, s, rows[3], "kings cross"@);
    lemma_other_row(s, s, rows[4], "paddington"@);
    lemma_other_row(s, s, rows[5], "euston"@);
    lemma_other_row(s, s, rows[6], "liverpool street"@);
    lemma_other_row(s, s, rows[7], "cannon street"@);
    lemma_other_row(s, s, rows[8], "charing cross"@);
    lemma_other_row(s, s, rows[9], "blackfriars"@);
}

proof fn lemma_no_street(s: Seq<char>)
    requires
        !contains_text(trim(s) + " "@, " st "@),
    ensures
        street_spelled_out(s) == s,
{
    reveal_strlit(" ");
    reveal_strlit("st");
    reveal_strlit(" st ");
    assert(" "@ + "st"@ + " "@ =~= " st "@);
}

/// The names of the London termini that are known without `london` before them.
pub open spec fn is_terminus(place: Seq<char>) -> bool {
    ||| place == "waterloo"@
    ||| place == "victoria"@
    ||| place == "kings cross"@
    ||| place == "paddington"@
    ||| place == "euston"@
    ||| place == "liverpool street"@
    ||| place == "cannon street"@
    ||| place == "charing cross"@
    ||| place == "blackfriars"@
}

proof fn lemma_row_of(place: Seq<char>)
    requires
        is_terminus(place),
    ensures
        ({
            let row = "london "@ + place;
            ||| place == "waterloo"@ && row == "london waterloo"@
            ||| place == "victoria"@ && row == "london victoria"@
            ||| place == "kings cross"@ && row == "london kings cross"@
            ||| place == "paddington"@ && row == "london paddington"@
            ||| place == "euston"@ && row == "london euston"@
            ||| place == "liverpool street"@ && row == "london liverpool street"@
            ||| place == "cannon street"@ && row == "london cannon street"@
            ||| place == "charing cross"@ && row == "london charing cross"@
            ||| place == "blackfriars"@ && row == "london blackfriars"@
        }),
{
    reveal_strlit("london ");
    reveal_strlit("waterloo");
    reveal_strlit("victoria");
    reveal_strlit("kings cross");
    reveal_strlit("paddington");
    reveal_strlit("euston");
    reveal_strlit("liverpool street");
    reveal_strlit("cannon street");
    reveal_strlit("charing cross");
    reveal_strlit("blackfriars");
    reveal_strlit("london waterloo");
    reveal_strlit("london victoria");
    reveal_strlit("london kings cross");
    reveal_strlit("london paddington");
    reveal_strlit("london euston");
    reveal_strlit("london liverpool street");
    reveal_strlit("london cannon street");
    reveal_strlit("london charing cross");
    reveal_strlit("london blackfriars");
    assert("london "@ + "waterloo"@ =~= "london waterloo"@);
    assert("london "@ + "victoria"@ =~= "london victoria"@);
    assert("london "@ + "kings cross"@ =~= "london kings cross"@);
    assert("london "@ + "paddington"@ =~= "london paddington"@);
    assert("london "@ + "euston"@ =~= "london euston"@);
    assert("london "@ + "liverpool street"@ =~= "london liverpool street"@);
    assert("london "@ + "cannon street"@ =~= "london cannon street"@);
    assert("london "@ + "charing cross"@ =~= "london charing cross"@);
    assert("london "@ + "blackfriars"@ =~= "london blackfriars"@);
}

/// `london` goes from the start of a name that goes on with one of its termini,
/// whatever follows, so that it makes no difference whether it stands there.
pub proof fn london_goes_before_its_termini(place: Seq<char>, rest: Seq<char>)
    requires
        is_terminus(place),
        !contains_text(("london "@ + place + rest).skip(1), "london"@),
        !contains_text(trim("london "@ + place + rest) + " "@, " st "@),
    ensures
        abbreviations_expanded("london "@ + place + rest) == place + rest,
{
    let s = "london "@ + place + rest;
    let own = "london "@ + place;
    let bare = place + rest;
    lemma_no_street(s);
    lemma_rows();
    lemma_row_of(place);
    reveal_strlit("london ");
    reveal_strlit("london");
    if contains_text(bare, "london"@) {
        let i = choose|i: int| #[trigger] occurs_at(bare, "london"@, i);
        assert(s.skip(1).subrange(i + 6, i + 12) =~= bare.subrange(i, i + 6));
        assert(occurs_at(s.skip(1), "london"@, i + 6));
    }
    lemma_own_row(s, own, place, rest);
    let rows = seq![
        "london waterloo"@,
        "london victoria"@,
        "london bridge"@,
        "london kings cross"@,
        "london paddington"@,
        "london euston"@,
        "london liverpool street"@,
        "london cannon street"@,
        "london charing cross"@,
        "london blackfriars"@,
    ];
    let k: int = if own == rows[0] {
        0
    } else if own == rows[1] {
        1
    } else if own == rows[3] {
        3
    } else if own == rows[4] {
        4
    } else if own == rows[5] {
        5
    } else if own == rows[6] {
        6
    } else if own == rows[7] {
        7
    } else if own == rows[8] {
        8
    } else {
        9
    };
    assert(own == rows[k]);
    let tos = seq![
        "waterloo"@,
        "victoria"@,
        "london bridge"@,
        "kings cross"@,
        "paddington"@,
        "euston"@,
        "liverpool street"@,
        "cannon street"@,
        "charing cross"@,
        "blackfriars"@,
    ];
    assert(place == tos[k]);
    assert forall|j: int| 0 <= j < 10 && j != k implies #[trigger] replaced(
        s,
        s,
        rows[j],
        tos[j],
    ) == s && replaced(bare, s, rows[j], tos[j]) == bare by {
        assert(rows[k][7] != rows[j][7] || rows[k][8] != rows[j][8]);
        lemma_row_is_not_due(s, s, own, rows[j], tos[j]);
        lemma_row_is_not_due(bare, s, own, rows[j], tos[j]);
    }
    assert(replaced(s, s, rows[k], tos[k]) == bare);
    lemma_steps(s, bare, rows, tos, k);
}

/// The replacements one after the other, where the one at `k` is the only one that
/// changes anything.
proof fn lemma_steps(
    s: Seq<char>,
    bare: Seq<char>,
    rows: Seq<Seq<char>>,
    tos: Seq<Seq<char>>,
    k: int,
)
    requires
        0 <= k < 10,
        k != 2,
        rows == seq![
            "london waterloo"@,
            "london victoria"@,
            "london bridge"@,
            "london kings cross"@,
            "london paddington"@,
            "london euston"@,
            "london liverpool street"@,
            "london cannon street"@,
            "london charing cross"@,
            "london blackfriars"@,
        ],
        tos == seq![
            "waterloo"@,
            "victoria"@,
            "london bridge"@,
            "kings cross"@,
            "paddington"@,
            "euston"@,
            "liverpool street"@,
            "cannon street"@,
            "charing cross"@,
            "blackfriars"@,
        ],
        street_spelled_out(s) == s,
        replaced(s, s, rows[k], tos[k]) == bare,
        forall|j: int|
            0 <= j < 10 && j != k ==> #[trigger] replaced(s, s, rows[j], tos[j]) == s && replaced(
                bare,
                s,
                rows[j],
                tos[j],
            ) == bare,
    ensures
        abbreviations_expanded(s) == bare,
{
    let r0 = replaced(s, s, rows[0], tos[0]);
    assert(r0 == if k == 0 { bare } else { s });
    let r1 = replaced(r0, s, rows[1], tos[1]);
    assert(replaced(s, s, rows[1], tos[1]) == if k == 1 { bare } else { s });
    assert(r1 == if k <= 1 { bare } else { s });
    let r2 = replaced(r1, s, rows[2], tos[2]);
    assert(replaced(s, s, rows[2], tos[2]) == s);
    assert(r2 == r1);
    let r3 = replaced(r2, s, rows[3], tos[3]);
    assert(replaced(s, s, rows[3], tos[3]) == if k == 3 { bare } else { s });
    assert(r3 == if k <= 3 { bare } else { s });
    let r4 = replaced(r3, s, rows[4], tos[4]);
    assert(replaced(s, s, rows[4], tos[4]) == if k == 4 { bare } else { s });
    assert(r4 == if k <= 4 { bare } else { s });
    let r5 = replaced(r4, s, rows[5], tos[5]);
    assert(replaced(s, s, rows[5], tos[5]) == if k == 5 { bare } else { s });
    assert(r5 == if k <= 5 { bare } else { s });
    let r6 = replaced(r5, s, rows[6], tos[6]);
    assert(replaced(s, s, rows[6], tos[6]) == if k == 6 { bare } else { s });
    assert(r6 == if k <= 6 { bare } else { s });
    let r7 = replaced(r6, s, rows[7], tos[7]);
    assert(replaced(s, s, rows[7], tos[7]) == if k == 7 { bare } else { s });
    assert(r7 == if k <= 7 { bare } else { s });
    let r8 = replaced(r7, s, rows[8], tos[8]);
    assert(replaced(s, s, rows[8], tos[8]) == if k == 8 { bare } else { s });
    assert(r8 == if k <= 8 { bare } else { s });
    let r9 = replaced(r8, s, rows[9], tos[9]);
    assert(replaced(s, s, rows[9], tos[9]) == if k == 9 { bare } else { s });
    assert(r9 == bare);
}

/// London Bridge keeps the `london` in its name.
pub proof fn london_bridge_stays(rest: Seq<char>)
    requires
        !contains_text(("london bridge"@ + rest).skip(1), "london"@),
        !contains_text(trim("london bridge"@ + rest) + " "@, " st "@),
    ensures
        abbreviations_expanded("london bridge"@ + rest) == "london bridge"@ + rest,
{
    let own = "london bridge"@;
    let s = own + rest;
    lemma_no_street(s);
    lemma_rows();
    let rows = seq![
        "london waterloo"@,
        "london victoria"@,
        "london bridge"@,
        "london kings cross"@,
        "london paddington"@,
        "london euston"@,
        "london liverpool street"@,
        "london cannon street"@,
        "london charing cross"@,
        "london blackfriars"@,
    ];
    assert(rows[2] == own);
    lemma_own_row(s, own, own, rest);
    assert forall|j: int| 0 <= j < 10 && j != 2 implies own[7] != (#[trigger] rows[j])[7] || own[8]
        != rows[j][8] by {
        assert(rows[2][7] != rows[j][7] || rows[2][8] != rows[j][8]);
    }
    lemma_row_is_not_due(s, s, own, rows[0], "waterloo"@);
    lemma_row_is_not_due(s, s, own, rows[1], "victoria"@);
    lemma_row_is_not_due(s, s, own, rows[3], "kings cross"@);
    lemma_row_is_not_due(s, s, own, rows[4], "paddington"@);
    lemma_row_is_not_due(s, s, own, rows[5], "euston"@);
    lemma_row_is_not_due(s, s, own, rows[6], "liverpool street"@);
    lemma_row_is_not_due(s, s, own, rows[7], "cannon street"@);
    lemma_row_is_not_due(s, s, own, rows[8], "charing cross"@);
    lemma_row_is_not_due(s, s, own, rows[9], "blackfriars"@);
}

} // verus!
