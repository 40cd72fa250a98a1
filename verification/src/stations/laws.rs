//! What a search finds, and what it does not.

use crate::sorting::{sorted, sorting_keeps_the_values, sorting_puts_in_order};
use crate::stations::normalise::normalised;
use crate::stations::{
    all_known, answer, best_codes, code_in_query, display, found, hits, holding_all, holds_all,
    index_of_csv, index_of_lines, last_char, lemma_extensions_known, lemma_holding_known,
    loaded_index_is_closed, station_of_line, with_extensions, FindResultView, Hit, HitView,
    StationIndexView, StationView,
};
use crate::table::{has_key, key_position, lemma_key_position, lookup_after_insertion, value_of};
use crate::text::{
    contains_text, join, lemma_run_is, occurs_at, other_than, split_undoes_join, starts_with, trim,
    words,
};
use crate::unicode::uppercase;
use vstd::prelude::*;
use vstd::string::*;
use vstd::utf8::encode_utf8;

verus! {

// ---------------------------------------------------------------------------
// The list
// ---------------------------------------------------------------------------

/// A line names the station whose code stands before the first comma and whose
/// name stands behind it, both without blanks around them, the code in upper case.
pub proof fn lines_name_stations(code: Seq<char>, name: Seq<char>)
    requires
        !code.contains(','),
        uppercase(trim(code)).len() > 0,
        trim(name).len() > 0,
    ensures
        station_of_line(code + seq![','] + name) == Some(
            StationView { crs: uppercase(trim(code)), name: trim(name) },
        ),
{
    let line = code + seq![','] + name;
    let n = code.len() as int;
    assert forall|i: int| 0 <= i < n implies other_than(',')(#[trigger] line[i]) by {
        assert(line[i] == code[i]);
        assert(code.contains(code[i]));
    }
    lemma_run_is(line, other_than(','), n);
    assert(line.take(n) =~= code);
    assert(line.skip(n + 1) =~= name);
}

/// A line without a comma names none.
pub proof fn lines_need_a_comma(line: Seq<char>)
    requires
        !line.contains(','),
    ensures
        station_of_line(line) is None,
{
    assert forall|i: int| 0 <= i < line.len() implies other_than(',')(#[trigger] line[i]) by {
        assert(line.contains(line[i]));
    }
    lemma_run_is(line, other_than(','), line.len() as int);
}

/// Every station on the list is in the index under its normalised name, and
/// nothing else is.
pub proof fn every_line_is_indexed(lines: Seq<Seq<char>>, entry: (Seq<char>, Seq<char>))
    ensures
        index_of_lines(lines).all.contains(entry) <==> exists|k: int|
            {
                &&& 0 <= k < lines.len()
                &&& station_of_line(#[trigger] lines[k]) is Some
                &&& entry.0 == normalised(station_of_line(lines[k])->0.name)
                &&& entry.1 == station_of_line(lines[k])->0.crs
            },
    decreases lines.len(),
{
    let all = index_of_lines(lines).all;
    if lines.len() > 0 {
        let t = lines.drop_last();
        let rest = index_of_lines(t).all;
        every_line_is_indexed(t, entry);
        if all.contains(entry) {
            let i = choose|i: int| 0 <= i < all.len() && all[i] == entry;
            if i < rest.len() {
                assert(rest[i] == entry);
                let k = choose|k: int|
                    {
                        &&& 0 <= k < t.len()
                        &&& station_of_line(#[trigger] t[k]) is Some
                        &&& entry.0 == normalised(station_of_line(t[k])->0.name)
                        &&& entry.1 == station_of_line(t[k])->0.crs
                    };
                assert(lines[k] == t[k]);
            } else {
                assert(station_of_line(lines[lines.len() - 1]) is Some);
            }
        }
        if exists|k: int|
            {
                &&& 0 <= k < lines.len()
                &&& station_of_line(#[trigger] lines[k]) is Some
                &&& entry.0 == normalised(station_of_line(lines[k])->0.name)
                &&& entry.1 == station_of_line(lines[k])->0.crs
            } {
            let k = choose|k: int|
                {
                    &&& 0 <= k < lines.len()
                    &&& station_of_line(#[trigger] lines[k]) is Some
                    &&& entry.0 == normalised(station_of_line(lines[k])->0.name)
                    &&& entry.1 == station_of_line(lines[k])->0.crs
                };
            if k < t.len() {
                assert(t[k] == lines[k]);
                let i = choose|i: int| 0 <= i < rest.len() && rest[i] == entry;
                assert(all[i] == entry);
            } else {
                assert(all[all.len() - 1] == entry);
            }
        }
    }
}

/// A code stands for the station of the last line that has it.
pub proof fn last_line_of_a_code_counts(lines: Seq<Seq<char>>, k: int)
    requires
        0 <= k < lines.len(),
        station_of_line(lines[k]) is Some,
        forall|j: int|
            k < j < lines.len() && station_of_line(#[trigger] lines[j]) is Some
                ==> station_of_line(lines[j])->0.crs != station_of_line(lines[k])->0.crs,
    ensures
        value_of(index_of_lines(lines).by_crs, station_of_line(lines[k])->0.crs)
            == station_of_line(lines[k]),
    decreases lines.len(),
{
    let t = lines.drop_last();
    let rest = index_of_lines(t);
    let crs = station_of_line(lines[k])->0.crs;
    if let Some(s) = station_of_line(lines.last()) {
        lookup_after_insertion(rest.by_crs, s.crs, s, crs);
        assert(station_of_line(lines[lines.len() - 1]) is Some);
    }
    if k < t.len() {
        assert(t[k] == lines[k]);
        assert forall|j: int|
            k < j < t.len() && station_of_line(#[trigger] t[j]) is Some implies station_of_line(
            t[j],
        )->0.crs != station_of_line(t[k])->0.crs by {
            assert(lines[j] == t[j]);
        }
        last_line_of_a_code_counts(t, k);
    }
}

/// The index knows a normalised name exactly where a station of the list has it,
/// and it knows the codes of just those stations.
pub proof fn names_lead_to_their_codes(
    lines: Seq<Seq<char>>,
    name: Seq<char>,
    crs: Seq<char>,
)
    ensures
        value_of(index_of_lines(lines).by_normalised_name, name) is Some && value_of(
            index_of_lines(lines).by_normalised_name,
            name,
        )->0.contains(crs) <==> index_of_lines(lines).all.contains((name, crs)),
    decreases lines.len(),
{
    let index = index_of_lines(lines);
    if lines.len() > 0 {
        let t = lines.drop_last();
        let rest = index_of_lines(t);
        names_lead_to_their_codes(t, name, crs);
        if let Some(s) = station_of_line(lines.last()) {
            let norm = normalised(s.name);
            let codes = match value_of(rest.by_normalised_name, norm) {
                Some(codes) => codes,
                None => Seq::empty(),
            };
            lookup_after_insertion(rest.by_normalised_name, norm, codes.push(s.crs), name);
            assert(index.all == rest.all.push((norm, s.crs)));
            if rest.all.contains((name, crs)) {
                let i = choose|i: int| 0 <= i < rest.all.len() && rest.all[i] == (name, crs);
                assert(index.all[i] == (name, crs));
                if name == norm {
                    let j = choose|j: int| 0 <= j < codes.len() && codes[j] == crs;
                    assert(codes.push(s.crs)[j] == crs);
                }
            }
            if name == norm && crs == s.crs {
                assert(index.all[rest.all.len() as int] == (name, crs));
                assert(codes.push(s.crs)[codes.len() as int] == crs);
            }
            if index.all.contains((name, crs)) && !rest.all.contains((name, crs)) {
                let i = choose|i: int| 0 <= i < index.all.len() && index.all[i] == (name, crs);
                if i < rest.all.len() {
                    assert(rest.all[i] == (name, crs));
                }
            }
            if name == norm && codes.push(s.crs).contains(crs) && crs != s.crs {
                let j = choose|j: int|
                    0 <= j < codes.push(s.crs).len() && codes.push(s.crs)[j] == crs;
                assert(codes[j] == crs);
                assert(codes.contains(crs));
            }
        }
    } else {
        lemma_key_position(index.by_normalised_name, name);
    }
}

// ---------------------------------------------------------------------------
// Names that hold the words
// ---------------------------------------------------------------------------

/// In a name that holds all words each of them stands somewhere.
pub proof fn every_word_has_a_place(name: Seq<char>, tokens: Seq<Seq<char>>, i: int)
    requires
        holds_all(name, tokens),
        0 <= i < tokens.len(),
    ensures
        exists|p: int|
            0 <= p && p + tokens[i].len() <= name.len() && #[trigger] name.subrange(
                p,
                p + tokens[i].len(),
            ) == tokens[i],
{
    assert(contains_text(name, tokens[i]));
    let p = choose|p: int| #[trigger] occurs_at(name, tokens[i], p);
    assert(name.subrange(p, p + tokens[i].len()) == tokens[i]);
}

/// A name in which each word has a place, whatever their order, holds all words.
pub proof fn places_for_all_words_are_enough(
    name: Seq<char>,
    tokens: Seq<Seq<char>>,
    places: Seq<int>,
)
    requires
        places.len() == tokens.len(),
        forall|i: int|
            0 <= i < tokens.len() ==> 0 <= #[trigger] places[i] && places[i] + tokens[i].len()
                <= name.len() && name.subrange(places[i], places[i] + tokens[i].len()) == tokens[i],
    ensures
        holds_all(name, tokens),
{
    assert forall|i: int| 0 <= i < tokens.len() implies contains_text(
        name,
        #[trigger] tokens[i],
    ) by {
        assert(0 <= places[i]);
        assert(occurs_at(name, tokens[i], places[i]));
    }
}

/// One more word never lets more names through.
pub proof fn more_words_find_less(name: Seq<char>, tokens: Seq<Seq<char>>, word: Seq<char>)
    ensures
        holds_all(name, tokens.push(word)) <==> holds_all(name, tokens) && contains_text(name, word),
{
    let more = tokens.push(word);
    if holds_all(name, more) {
        assert(contains_text(name, more[tokens.len() as int]));
        assert forall|i: int| 0 <= i < tokens.len() implies contains_text(
            name,
            #[trigger] tokens[i],
        ) by {
            assert(contains_text(name, more[i]));
        }
    }
}

/// The stations whose names hold all words are picked one by one, in order.
pub proof fn names_are_picked_one_by_one(
    a: Seq<(Seq<char>, Seq<char>)>,
    b: Seq<(Seq<char>, Seq<char>)>,
    entry: (Seq<char>, Seq<char>),
    tokens: Seq<Seq<char>>,
)
    ensures
        holding_all(a + b, tokens) == holding_all(a, tokens) + holding_all(b, tokens),
        holds_all(entry.0, tokens) ==> holding_all(seq![entry], tokens) == seq![entry.1],
        !holds_all(entry.0, tokens) ==> holding_all(seq![entry], tokens).len() == 0,
    decreases b.len(),
{
    let one = seq![entry];
    assert(one.drop_last() =~= Seq::<(Seq<char>, Seq<char>)>::empty());
    assert(holding_all(one.drop_last(), tokens) =~= Seq::<Seq<char>>::empty());
    assert(holds_all(entry.0, tokens) ==> holding_all(one, tokens) =~= seq![entry.1]);
    if b.len() == 0 {
        assert(a + b =~= a);
        assert(holding_all(a, tokens) + holding_all(b, tokens) =~= holding_all(a, tokens));
    } else {
        names_are_picked_one_by_one(a, b.drop_last(), entry, tokens);
        assert((a + b).drop_last() =~= a + b.drop_last());
        assert(holding_all(a + b, tokens) =~= holding_all(a, tokens) + holding_all(b, tokens));
    }
}

proof fn lemma_holding(all: Seq<(Seq<char>, Seq<char>)>, tokens: Seq<Seq<char>>, crs: Seq<char>)
    ensures
        holding_all(all, tokens).contains(crs) <==> exists|j: int|
            0 <= j < all.len() && (#[trigger] all[j]).1 == crs && holds_all(all[j].0, tokens),
    decreases all.len(),
{
    let r = holding_all(all, tokens);
    if all.len() > 0 {
        let t = all.drop_last();
        let rest = holding_all(t, tokens);
        lemma_holding(t, tokens, crs);
        if r.contains(crs) {
            let i = choose|i: int| 0 <= i < r.len() && r[i] == crs;
            if i < rest.len() {
                assert(rest[i] == crs);
                let j = choose|j: int|
                    0 <= j < t.len() && (#[trigger] t[j]).1 == crs && holds_all(t[j].0, tokens);
                assert(all[j] == t[j]);
            } else {
                assert(all[all.len() - 1].1 == crs);
            }
        }
        if exists|j: int|
            0 <= j < all.len() && (#[trigger] all[j]).1 == crs && holds_all(all[j].0, tokens) {
            let j = choose|j: int|
                0 <= j < all.len() && (#[trigger] all[j]).1 == crs && holds_all(all[j].0, tokens);
            if j < t.len() {
                assert(t[j] == all[j]);
                let i = choose|i: int| 0 <= i < rest.len() && rest[i] == crs;
                assert(r[i] == crs);
            } else {
                assert(r[r.len() - 1] == crs);
            }
        }
    }
}

/// The code is that of one of the candidates.
pub open spec fn lists_code(list: Seq<(Seq<char>, Seq<char>)>, crs: Seq<char>) -> bool {
    exists|i: int| 0 <= i < list.len() && (#[trigger] list[i]).1 == crs
}

/// The answer names a station with that code.
pub open spec fn names(answer: FindResultView, crs: Seq<char>) -> bool {
    match answer {
        FindResultView::Exact(c) => c == crs,
        FindResultView::Ambiguous(list) => lists_code(list, crs),
        FindResultView::NotFound => false,
    }
}

proof fn lemma_display_codes(index: StationIndexView, codes: Seq<Seq<char>>, crs: Seq<char>)
    requires
        index.wf(),
        all_known(index, codes),
    ensures
        lists_code(display(index.by_crs, codes), crs) <==> codes.contains(crs),
    decreases codes.len(),
{
    let list = display(index.by_crs, codes);
    if codes.len() > 0 {
        let t = codes.drop_last();
        let rest = display(index.by_crs, t);
        assert forall|i: int| 0 <= i < t.len() implies has_key(index.by_crs, #[trigger] t[i]) by {
            assert(t[i] == codes[i]);
        }
        lemma_display_codes(index, t, crs);
        let last = codes.last();
        assert(has_key(index.by_crs, codes[codes.len() - 1]));
        lemma_key_position(index.by_crs, last);
        let k = key_position(index.by_crs, last);
        assert(index.by_crs[k].1.crs == index.by_crs[k].0);
        assert(list.len() == rest.len() + 1 && list[rest.len() as int].1 == last);
        if crs == last {
            assert(lists_code(list, crs));
        }
        if codes.contains(crs) {
            let m = choose|m: int| 0 <= m < codes.len() && codes[m] == crs;
            if m < t.len() {
                assert(t[m] == crs);
                let i = choose|i: int| 0 <= i < rest.len() && (#[trigger] rest[i]).1 == crs;
                assert(list[i] == rest[i]);
            }
        }
        if exists|i: int| 0 <= i < list.len() && (#[trigger] list[i]).1 == crs {
            let i = choose|i: int| 0 <= i < list.len() && (#[trigger] list[i]).1 == crs;
            if i < rest.len() {
                assert(rest[i].1 == crs);
                let m = choose|m: int| 0 <= m < t.len() && t[m] == crs;
                assert(codes[m] == crs);
            } else {
                assert(codes[codes.len() - 1] == crs);
            }
        }
    }
}

proof fn lemma_answer_names(index: StationIndexView, codes: Seq<Seq<char>>, crs: Seq<char>)
    requires
        index.wf(),
        all_known(index, codes),
    ensures
        names(answer(index, codes), crs) <==> codes.contains(crs),
{
    lemma_display_codes(index, codes, crs);
    if codes.len() == 1 {
        if codes.contains(crs) {
            let m = choose|m: int| 0 <= m < codes.len() && codes[m] == crs;
            assert(m == 0);
            assert(codes[0] == crs);
        }
        assert(codes.contains(codes[0]));
        assert(answer(index, codes) == FindResultView::Exact(codes[0]));
        assert(names(FindResultView::Exact(codes[0]), crs) <==> codes[0] == crs);
        assert(codes.contains(crs) <==> codes[0] == crs);
    }
}

/// Where a query spells out no code and is no station's whole name, and some name
/// holds every word of it, the answer names exactly the stations whose names hold
/// every word of it, wherever in the name each word stands.
pub proof fn words_find_the_names_that_hold_them_all(
    index: StationIndexView,
    query: Seq<char>,
    scores: Seq<Option<i64>>,
    crs: Seq<char>,
)
    requires
        index.wf(),
        code_in_query(query) is None || !has_key(index.by_crs, code_in_query(query)->0),
        !has_key(index.by_normalised_name, normalised(query)),
        exists|j: int|
            0 <= j < index.all.len() && forall|i: int|
                0 <= i < words(normalised(query)).len() ==> contains_text(
                    (#[trigger] index.all[j]).0,
                    #[trigger] words(normalised(query))[i],
                ),
    ensures
        names(found(index, query, scores), crs) <==> exists|j: int|
            0 <= j < index.all.len() && (#[trigger] index.all[j]).1 == crs && forall|i: int|
                0 <= i < words(normalised(query)).len() ==> contains_text(
                    index.all[j].0,
                    #[trigger] words(normalised(query))[i],
                ),
{
    let norm = normalised(query);
    let tokens = words(norm);
    let all = index.all;
    let codes = holding_all(all, tokens);
    lemma_key_position(index.by_normalised_name, norm);
    let j = choose|j: int|
        0 <= j < all.len() && forall|i: int|
            0 <= i < tokens.len() ==> contains_text(
                (#[trigger] all[j]).0,
                #[trigger] tokens[i],
            );
    assert(holds_all(all[j].0, tokens));
    lemma_holding(all, tokens, all[j].1);
    assert(codes.contains(all[j].1));
    assert(codes.len() > 0);
    assert(all.take(all.len() as int) =~= all);
    lemma_holding_known(index, all.len() as int, tokens);
    lemma_answer_names(index, codes, crs);
    lemma_holding(all, tokens, crs);
    if codes.contains(crs) {
        let m = choose|m: int|
            0 <= m < all.len() && (#[trigger] all[m]).1 == crs && holds_all(all[m].0, tokens);
        assert(all[m].1 == crs);
    }
}

// ---------------------------------------------------------------------------
// Whole names
// ---------------------------------------------------------------------------

proof fn lemma_extended(
    codes: Seq<Seq<char>>,
    all: Seq<(Seq<char>, Seq<char>)>,
    prefix: Seq<char>,
    crs: Seq<char>,
)
    ensures
        with_extensions(codes, all, prefix).contains(crs) <==> codes.contains(crs) || exists|j: int|
            0 <= j < all.len() && (#[trigger] all[j]).1 == crs && starts_with(all[j].0, prefix),
    decreases all.len(),
{
    let r = with_extensions(codes, all, prefix);
    if all.len() > 0 {
        let t = all.drop_last();
        let rest = with_extensions(codes, t, prefix);
        lemma_extended(codes, t, prefix, crs);
        if rest.contains(crs) {
            let i = choose|i: int| 0 <= i < rest.len() && rest[i] == crs;
            assert(r[i] == crs);
            if !codes.contains(crs) {
                let j = choose|j: int|
                    0 <= j < t.len() && (#[trigger] t[j]).1 == crs && starts_with(t[j].0, prefix);
                assert(all[j] == t[j]);
            }
        }
        if r.contains(crs) && !rest.contains(crs) {
            let i = choose|i: int| 0 <= i < r.len() && r[i] == crs;
            if i < rest.len() {
                assert(rest[i] == crs);
            }
            assert(all[all.len() - 1].1 == crs);
        }
        if exists|j: int|
            0 <= j < all.len() && (#[trigger] all[j]).1 == crs && starts_with(all[j].0, prefix) {
            let j = choose|j: int|
                0 <= j < all.len() && (#[trigger] all[j]).1 == crs && starts_with(
                    all[j].0,
                    prefix,
                );
            if j < t.len() {
                assert(t[j] == all[j]);
            } else if !rest.contains(crs) {
                assert(r[r.len() - 1] == crs);
            }
        }
    }
}

/// Where a query is the whole name of a station and spells out no code, the answer
/// names exactly the stations of that name and those whose names go on from it
/// with another word.
pub proof fn whole_names_find_their_stations(
    lines: Seq<Seq<char>>,
    query: Seq<char>,
    scores: Seq<Option<i64>>,
    crs: Seq<char>,
)
    requires
        ({
            let index = index_of_lines(lines);
            &&& code_in_query(query) is None || !has_key(index.by_crs, code_in_query(query)->0)
            &&& has_key(index.by_normalised_name, normalised(query))
        }),
    ensures
        ({
            let index = index_of_lines(lines);
            names(found(index, query, scores), crs) <==> exists|j: int|
                0 <= j < index.all.len() && (#[trigger] index.all[j]).1 == crs && (index.all[j].0
                    == normalised(query) || starts_with(index.all[j].0, normalised(query) + " "@))
        }),
{
    let index = index_of_lines(lines);
    let norm = normalised(query);
    let all = index.all;
    loaded_index_is_closed(lines);
    lemma_key_position(index.by_normalised_name, norm);
    let k = key_position(index.by_normalised_name, norm);
    let named = value_of(index.by_normalised_name, norm)->0;
    assert(index.by_normalised_name[k].1 == named);
    assert forall|j: int| 0 <= j < named.len() implies has_key(index.by_crs, #[trigger] named[j]) by {
        assert(index.by_normalised_name[k].1[j] == named[j]);
    }
    let codes = with_extensions(named, all, norm + " "@);
    assert(all.take(all.len() as int) =~= all);
    lemma_extensions_known(index, named, all.len() as int, norm + " "@);
    lemma_answer_names(index, codes, crs);
    lemma_extended(named, all, norm + " "@, crs);
    names_lead_to_their_codes(lines, norm, crs);
    if named.contains(crs) {
        let j = choose|j: int| 0 <= j < all.len() && all[j] == (norm, crs);
        assert(all[j].1 == crs);
    }
    if exists|j: int|
        0 <= j < all.len() && (#[trigger] all[j]).1 == crs && (all[j].0 == norm || starts_with(
            all[j].0,
            norm + " "@,
        )) {
        let j = choose|j: int|
            0 <= j < all.len() && (#[trigger] all[j]).1 == crs && (all[j].0 == norm || starts_with(
                all[j].0,
                norm + " "@,
            ));
        if all[j].0 == norm {
            assert(all[j] == (norm, crs));
            assert(all.contains((norm, crs)));
        }
    }
}

// ---------------------------------------------------------------------------
// Scores
// ---------------------------------------------------------------------------

proof fn lemma_hits(all: Seq<(Seq<char>, Seq<char>)>, scores: Seq<Option<i64>>, h: HitView)
    ensures
        hits(all, scores).contains(h) <==> exists|j: int|
            0 <= j < all.len() && (#[trigger] all[j]).1 == h.crs && scores[j] == Some(h.score)
                && h.score >= 60,
    decreases all.len(),
{
    let r = hits(all, scores);
    if all.len() > 0 {
        let t = all.drop_last();
        let rest = hits(t, scores);
        lemma_hits(t, scores, h);
        if r.contains(h) {
            let i = choose|i: int| 0 <= i < r.len() && r[i] == h;
            if i < rest.len() {
                assert(rest[i] == h);
                let j = choose|j: int|
                    0 <= j < t.len() && (#[trigger] t[j]).1 == h.crs && scores[j] == Some(h.score)
                        && h.score >= 60;
                assert(all[j] == t[j]);
            } else {
                assert(all[all.len() - 1].1 == h.crs);
            }
        }
        if exists|j: int|
            0 <= j < all.len() && (#[trigger] all[j]).1 == h.crs && scores[j] == Some(h.score)
                && h.score >= 60 {
            let j = choose|j: int|
                0 <= j < all.len() && (#[trigger] all[j]).1 == h.crs && scores[j] == Some(h.score)
                    && h.score >= 60;
            if j < t.len() {
                assert(t[j] == all[j]);
                let i = choose|i: int| 0 <= i < rest.len() && rest[i] == h;
                assert(r[i] == h);
            } else {
                assert(r[r.len() - 1] == h);
            }
        }
    }
}

/// The scores decide by the best: at most five stations are named, each with a
/// score of at least sixty, the higher before the lower; one with such a score is
/// left out only where five others score no less.
pub proof fn best_scores_win(
    all: Seq<(Seq<char>, Seq<char>)>,
    scores: Seq<Option<i64>>,
    j: int,
)
    ensures
        best_codes(all, scores).len() <= 5,
        forall|k: int|
            0 <= k < best_codes(all, scores).len() ==> exists|m: int|
                0 <= m < all.len() && (#[trigger] all[m]).1 == #[trigger] best_codes(all, scores)[k]
                    && scores[m] is Some && scores[m]->0 >= 60,
        0 <= j < all.len() && scores[j] is Some && scores[j]->0 >= 60 ==> {
            ||| best_codes(all, scores).contains(all[j].1)
            ||| best_codes(all, scores).len() == 5 && forall|k: int|
                0 <= k < 5 ==> exists|m: int|
                    0 <= m < all.len() && (#[trigger] all[m]).1 == #[trigger] best_codes(
                        all,
                        scores,
                    )[k] && scores[m] is Some && scores[m]->0 >= scores[j]->0
        },
{
    broadcast use vstd::seq_lib::group_to_multiset_ensures;

    let h = hits(all, scores);
    let ranked = sorted::<Hit>(h);
    let best = best_codes(all, scores);
    sorting_keeps_the_values::<Hit>(h);
    sorting_puts_in_order::<Hit>(h);
    assert forall|k: int| 0 <= k < best.len() implies exists|m: int|
        0 <= m < all.len() && (#[trigger] all[m]).1 == #[trigger] best[k] && scores[m] is Some
            && scores[m]->0 >= 60 by {
        assert(ranked.to_multiset().contains(ranked[k]));
        assert(h.contains(ranked[k]));
        lemma_hits(all, scores, ranked[k]);
        let m = choose|m: int|
            0 <= m < all.len() && (#[trigger] all[m]).1 == ranked[k].crs && scores[m] == Some(
                ranked[k].score,
            ) && ranked[k].score >= 60;
        assert(all[m].1 == best[k]);
    }
    if 0 <= j < all.len() && scores[j] is Some && scores[j]->0 >= 60 {
        let mine = HitView { score: scores[j]->0, crs: all[j].1 };
        lemma_hits(all, scores, mine);
        assert(all[j].1 == mine.crs);
        assert(h.to_multiset().contains(mine));
        assert(ranked.to_multiset().contains(mine));
        let p = choose|p: int| 0 <= p < ranked.len() && ranked[p] == mine;
        if p < best.len() {
            assert(best[p] == all[j].1);
        } else {
            assert forall|k: int| 0 <= k < 5 implies exists|m: int|
                0 <= m < all.len() && (#[trigger] all[m]).1 == #[trigger] best[k]
                    && scores[m] is Some && scores[m]->0 >= scores[j]->0 by {
                assert(ranked.to_multiset().contains(ranked[k]));
                assert(h.contains(ranked[k]));
                lemma_hits(all, scores, ranked[k]);
                let m = choose|m: int|
                    0 <= m < all.len() && (#[trigger] all[m]).1 == ranked[k].crs && scores[m]
                        == Some(ranked[k].score) && ranked[k].score >= 60;
                assert(all[m].1 == best[k]);
            }
        }
    }
}

/// Nothing is found only where the query spells out no known code, is no known
/// name, has a word that no name holds beside the others, and scores too low.
pub proof fn nothing_is_found_only_where_nothing_fits(
    index: StationIndexView,
    query: Seq<char>,
    scores: Seq<Option<i64>>,
    j: int,
)
    requires
        0 <= j < index.all.len(),
        found(index, query, scores) is NotFound,
    ensures
        code_in_query(query) is None || !has_key(index.by_crs, code_in_query(query)->0),
        !has_key(index.by_normalised_name, normalised(query)),
        !holds_all(index.all[j].0, words(normalised(query))),
        scores[j] is None || scores[j]->0 < 60,
{
    lemma_key_position(index.by_normalised_name, normalised(query));
    lemma_holding(index.all, words(normalised(query)), index.all[j].1);
    best_scores_win(index.all, scores, j);
    if holds_all(index.all[j].0, words(normalised(query))) {
        assert(index.all[j].1 == index.all[j].1);
        assert(holding_all(index.all, words(normalised(query))).contains(index.all[j].1));
    }
}

/// The first line of the file is its heading: it names no station, whatever it
/// holds, and every other line counts.
pub proof fn heading_is_passed_over(heading: Seq<char>, lines: Seq<Seq<char>>)
    requires
        !heading.contains('\n'),
        lines.len() > 0,
        forall|i: int| 0 <= i < lines.len() ==> !(#[trigger] lines[i]).contains('\n'),
    ensures
        index_of_csv(join(seq![heading] + lines, seq!['\n'])) == index_of_lines(lines),
        index_of_csv(heading).all.len() == 0,
{
    let parts = seq![heading] + lines;
    assert forall|i: int| 0 <= i < parts.len() implies !(#[trigger] parts[i]).contains('\n') by {
        if i > 0 {
            assert(parts[i] == lines[i - 1]);
        }
    }
    split_undoes_join(parts, '\n');
    assert(parts.skip(1) =~= lines);
    let alone = seq![heading];
    assert(join(alone, seq!['\n']) == heading);
    split_undoes_join(alone, '\n');
    assert(alone.skip(1) =~= Seq::<Seq<char>>::empty());
}

/// No station is named twice for the same name: the ones whose names go on join the
/// list once, and only where they are not on it.
pub proof fn longer_names_are_listed_once(
    codes: Seq<Seq<char>>,
    all: Seq<(Seq<char>, Seq<char>)>,
    prefix: Seq<char>,
)
    requires
        codes.no_duplicates(),
    ensures
        with_extensions(codes, all, prefix).no_duplicates(),
        with_extensions(codes, all, prefix).len() >= codes.len(),
        with_extensions(codes, all, prefix).take(codes.len() as int) == codes,
    decreases all.len(),
{
    if all.len() > 0 {
        longer_names_are_listed_once(codes, all.drop_last(), prefix);
        let rest = with_extensions(codes, all.drop_last(), prefix);
        let r = with_extensions(codes, all, prefix);
        assert(r.take(codes.len() as int) =~= rest.take(codes.len() as int));
        assert forall|i: int, j: int| 0 <= i < j < r.len() implies r[i] != r[j] by {
            if j == rest.len() {
                assert(rest.contains(rest[i]));
            }
        }
    } else {
        assert(codes.take(codes.len() as int) =~= codes);
    }
}

/// Candidates are shown in the order of their codes, by the name and the code of
/// the station on the list.
pub proof fn candidates_are_shown_one_by_one(
    by_crs: Seq<(Seq<char>, StationView)>,
    a: Seq<Seq<char>>,
    b: Seq<Seq<char>>,
    crs: Seq<char>,
)
    ensures
        display(by_crs, a + b) == display(by_crs, a) + display(by_crs, b),
        value_of(by_crs, crs) is None ==> display(by_crs, seq![crs]).len() == 0,
        value_of(by_crs, crs) is Some ==> display(by_crs, seq![crs]).len() == 1 && display(
            by_crs,
            seq![crs],
        )[0].1 == value_of(by_crs, crs)->0.crs && starts_with(
            display(by_crs, seq![crs])[0].0,
            value_of(by_crs, crs)->0.name,
        ),
    decreases b.len(),
{
    let one = seq![crs];
    assert(one.drop_last() =~= Seq::<Seq<char>>::empty());
    assert(display(by_crs, one.drop_last()) =~= Seq::<(Seq<char>, Seq<char>)>::empty());
    match value_of(by_crs, crs) {
        Some(s) => {
            assert(display(by_crs, one)[0].0.take(s.name.len() as int) =~= s.name);
        },
        None => {},
    }
    if b.len() == 0 {
        assert(a + b =~= a);
        assert(display(by_crs, a) + display(by_crs, b) =~= display(by_crs, a));
    } else {
        candidates_are_shown_one_by_one(by_crs, a, b.drop_last(), crs);
        assert((a + b).drop_last() =~= a + b.drop_last());
        assert(display(by_crs, a + b) =~= display(by_crs, a) + display(by_crs, b));
    }
}

proof fn lemma_last_one(a: Seq<char>, c: char, b: Seq<char>)
    requires
        !b.contains(c),
    ensures
        last_char(a + seq![c] + b, c) == a.len(),
    decreases b.len(),
{
    let s = a + seq![c] + b;
    if b.len() > 0 {
        assert(b.contains(b[b.len() - 1]));
        assert(s.drop_last() =~= a + seq![c] + b.drop_last());
        assert(!b.drop_last().contains(c)) by {
            if b.drop_last().contains(c) {
                let k = b.drop_last().index_of(c);
                assert(b[k] == c);
            }
        }
        lemma_last_one(a, c, b.drop_last());
    }
}

proof fn lemma_none_is_last(s: Seq<char>, c: char)
    requires
        !s.contains(c),
    ensures
        last_char(s, c) == -1,
    decreases s.len(),
{
    if s.len() > 0 {
        assert(s.contains(s[s.len() - 1]));
        assert(!s.drop_last().contains(c)) by {
            if s.drop_last().contains(c) {
                let k = s.drop_last().index_of(c);
                assert(s[k] == c);
            }
        }
        lemma_none_is_last(s.drop_last(), c);
    }
}

/// A query of three bytes is taken for a code, and so is what stands in the last
/// brackets of a longer one, where they close it; either way in upper case.
pub proof fn codes_stand_alone_or_in_closing_brackets(
    query: Seq<char>,
    a: Seq<char>,
    code: Seq<char>,
)
    requires
        !code.contains('('),
    ensures
        encode_utf8(query).len() == 3 ==> code_in_query(query) == Some(uppercase(query)),
        encode_utf8(a + seq!['('] + code + seq![')']).len() != 3 ==> code_in_query(
            a + seq!['('] + code + seq![')'],
        ) == Some(uppercase(trim(code))),
{
    let s = a + seq!['('] + code + seq![')'];
    let tail = code + seq![')'];
    assert(!tail.contains('(')) by {
        if tail.contains('(') {
            let k = tail.index_of('(');
            assert(k < code.len());
            assert(code[k] == '(');
        }
    }
    lemma_last_one(a, '(', tail);
    assert(s =~= a + seq!['('] + tail);
    assert(s.last() == ')');
    assert(s.subrange((a.len() + 1) as int, s.len() - 1) =~= code);
}

/// Any other query spells out no code.
pub proof fn other_queries_spell_out_no_code(query: Seq<char>)
    requires
        encode_utf8(query).len() != 3,
        query.len() == 0 || query.last() != ')' || !query.contains('('),
    ensures
        code_in_query(query) is None,
{
    if !query.contains('(') {
        lemma_none_is_last(query, '(');
    }
}

} // verus!
