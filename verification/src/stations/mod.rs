//! The list of stations and the search in it.

pub mod laws;
pub mod normalise;
pub mod normalise_laws;

use crate::sorting::{sort, sorted, sorting_keeps_the_values, Ranked};
use crate::table::{
    distinct_keys, has_key, key_position, lemma_key_position, lemma_with_pair_distinct, value_of,
    with_pair, TextMap,
};
use crate::text::{
    all_ascii, ascii_upper, chars, clone_texts, contains_text, find_char, has_prefix, has_text,
    is_blank, lemma_run_is, lemma_trim_nothing, lists, opt_text, other_than, split, split_at_each, split_words, starts_with,
    text_of, texts, trim, trimmed, views, words,
};
use crate::unicode::{ascii_uppercase, to_upper, uppercase};
use fuzzy_matcher::FuzzyMatcher;
use normalise::{normalise, normalised};
use vstd::prelude::*;
use vstd::string::*;
use vstd::utf8::encode_utf8;

verus! {

/// A single station from the CRS list.
#[derive(Debug)]
pub struct Station {
    pub crs: String,
    pub name: String,
}

#[verifier::ext_equal]
pub struct StationView {
    pub crs: Seq<char>,
    pub name: Seq<char>,
}

impl View for Station {
    type V = StationView;

    open spec fn view(&self) -> StationView {
        StationView { crs: self.crs@, name: self.name@ }
    }
}

impl Clone for Station {
    fn clone(&self) -> (r: Self)
        ensures
            r@ == self@,
    {
        Station { crs: self.crs.clone(), name: self.name.clone() }
    }
}

#[derive(Debug)]
pub enum FindResult {
    Exact(String),
    /// Display name and CRS code of each candidate.
    Ambiguous(Vec<(String, String)>),
    NotFound,
}

pub enum FindResultView {
    Exact(Seq<char>),
    Ambiguous(Seq<(Seq<char>, Seq<char>)>),
    NotFound,
}

impl View for FindResult {
    type V = FindResultView;

    open spec fn view(&self) -> FindResultView {
        match self {
            FindResult::Exact(crs) => FindResultView::Exact(crs@),
            FindResult::Ambiguous(list) => FindResultView::Ambiguous(views(list@)),
            FindResult::NotFound => FindResultView::NotFound,
        }
    }
}

/// The codes of the stations that share a name.
pub struct Codes {
    pub codes: Vec<String>,
}

impl View for Codes {
    type V = Seq<Seq<char>>;

    open spec fn view(&self) -> Seq<Seq<char>> {
        texts(self.codes@)
    }
}

/// In-memory index over the CRS station list.
pub struct StationIndex {
    pub by_crs: TextMap<Station>,
    /// Normalised name to the codes of the stations of that name.
    pub by_normalised_name: TextMap<Codes>,
    /// Normalised name and CRS code of each station, in the order of the list.
    pub all: Vec<(String, String)>,
}

#[verifier::ext_equal]
pub struct StationIndexView {
    pub by_crs: Seq<(Seq<char>, StationView)>,
    pub by_normalised_name: Seq<(Seq<char>, Seq<Seq<char>>)>,
    pub all: Seq<(Seq<char>, Seq<char>)>,
}

impl View for StationIndex {
    type V = StationIndexView;

    open spec fn view(&self) -> StationIndexView {
        StationIndexView {
            by_crs: self.by_crs@,
            by_normalised_name: self.by_normalised_name@,
            all: views(self.all@),
        }
    }
}

// ---------------------------------------------------------------------------
// Loading
// ---------------------------------------------------------------------------

/// The station of one line: code, comma, name. There is none where the comma,
/// the code or the name is missing.
pub open spec fn station_of_line(line: Seq<char>) -> Option<StationView> {
    let n = find_char(line, ',');
    let crs = uppercase(trim(line.take(n)));
    let name = trim(line.skip(n + 1));
    if n >= line.len() || crs.len() == 0 || name.len() == 0 {
        None
    } else {
        Some(StationView { crs, name })
    }
}

/// The index with one more station. A code that comes again names the last
/// station that has it.
pub open spec fn with_station(index: StationIndexView, s: StationView) -> StationIndexView {
    let norm = normalised(s.name);
    let codes = match value_of(index.by_normalised_name, norm) {
        Some(codes) => codes,
        None => Seq::empty(),
    };
    StationIndexView {
        by_crs: with_pair(index.by_crs, s.crs, s),
        by_normalised_name: with_pair(index.by_normalised_name, norm, codes.push(s.crs)),
        all: index.all.push((norm, s.crs)),
    }
}

pub open spec fn empty_index() -> StationIndexView {
    StationIndexView {
        by_crs: Seq::empty(),
        by_normalised_name: Seq::empty(),
        all: Seq::empty(),
    }
}

/// The index of the stations in the lines.
pub open spec fn index_of_lines(lines: Seq<Seq<char>>) -> StationIndexView
    decreases lines.len(),
{
    if lines.len() == 0 {
        empty_index()
    } else {
        let rest = index_of_lines(lines.drop_last());
        match station_of_line(lines.last()) {
            Some(s) => with_station(rest, s),
            None => rest,
        }
    }
}

/// The index of a CSV text: a header line, then one line per station.
pub open spec fn index_of_csv(raw: Seq<char>) -> StationIndexView {
    index_of_lines(split(raw, '\n').skip(1))
}

impl StationIndexView {
    /// Every name has a code, and every code that the search can come up with is
    /// that of a station.
    pub open spec fn wf(self) -> bool {
        &&& distinct_keys(self.by_crs)
        &&& distinct_keys(self.by_normalised_name)
        &&& forall|i: int|
            0 <= i < self.all.len() ==> has_key(self.by_crs, (#[trigger] self.all[i]).1)
        &&& forall|i: int|
            0 <= i < self.by_normalised_name.len() ==> (#[trigger] self.by_normalised_name[i]).1.len()
                > 0
        &&& forall|i: int, j: int|
            0 <= i < self.by_normalised_name.len() && 0 <= j
                < self.by_normalised_name[i].1.len() ==> has_key(
                self.by_crs,
                #[trigger] self.by_normalised_name[i].1[j],
            )
        &&& forall|i: int|
            0 <= i < self.by_crs.len() ==> (#[trigger] self.by_crs[i]).1.crs == self.by_crs[i].0
    }
}

/// Letters of ASCII, in either case.
pub open spec fn is_letters(s: Seq<char>) -> bool {
    forall|i: int| 0 <= i < s.len() ==> 'A' <= #[trigger] s[i] <= 'Z' || 'a' <= s[i] <= 'z'
}

/// One or more of the letters A to Z.
pub open spec fn is_capitals(s: Seq<char>) -> bool {
    s.len() > 0 && forall|i: int| 0 <= i < s.len() ==> 'A' <= #[trigger] s[i] <= 'Z'
}

/// The code of a line, where it names a station, is made of letters.
pub open spec fn line_has_letters(line: Seq<char>) -> bool {
    station_of_line(line) is Some ==> is_letters(trim(line.take(find_char(line, ','))))
}

/// The codes of a CSV text are made of letters.
pub open spec fn csv_has_letters(raw: Seq<char>) -> bool {
    let lines = split(raw, '\n').skip(1);
    forall|i: int| 0 <= i < lines.len() ==> line_has_letters(#[trigger] lines[i])
}

impl StationIndexView {
    /// The codes are made of the letters A to Z.
    pub open spec fn has_capital_codes(self) -> bool {
        forall|i: int| 0 <= i < self.by_crs.len() ==> is_capitals((#[trigger] self.by_crs[i]).0)
    }

    /// Upper case does to a code of ASCII characters what it does to ASCII.
    pub open spec fn has_plain_case(self) -> bool {
        forall|i: int|
            0 <= i < self.by_crs.len() && all_ascii((#[trigger] self.by_crs[i]).0) ==> uppercase(
                self.by_crs[i].0,
            ) == ascii_uppercase(self.by_crs[i].0)
    }
}

proof fn lemma_has_key_stays<V>(s: Seq<(Seq<char>, V)>, key: Seq<char>, value: V, other: Seq<char>)
    requires
        has_key(s, other) || other == key,
    ensures
        has_key(with_pair(s, key, value), other),
{
    let r = with_pair(s, key, value);
    lemma_key_position(s, key);
    if other == key {
        let n = key_position(s, key);
        assert(r[n].0 == key);
    } else {
        let i = choose|i: int| 0 <= i < s.len() && (#[trigger] s[i]).0 == other;
        assert(r[i] == s[i]);
    }
}

proof fn lemma_with_station_wf(index: StationIndexView, s: StationView)
    requires
        index.wf(),
    ensures
        with_station(index, s).wf(),
{
    let r = with_station(index, s);
    let norm = normalised(s.name);
    let codes = match value_of(index.by_normalised_name, norm) {
        Some(codes) => codes,
        None => Seq::empty(),
    };
    lemma_with_pair_distinct(index.by_crs, s.crs, s);
    lemma_with_pair_distinct(index.by_normalised_name, norm, codes.push(s.crs));
    lemma_key_position(index.by_normalised_name, norm);
    lemma_key_position(index.by_crs, s.crs);
    assert forall|i: int| 0 <= i < r.all.len() implies has_key(
        r.by_crs,
        (#[trigger] r.all[i]).1,
    ) by {
        if i < index.all.len() {
            assert(has_key(index.by_crs, index.all[i].1));
        }
        lemma_has_key_stays(index.by_crs, s.crs, s, r.all[i].1);
    }
    let names = index.by_normalised_name;
    let n = key_position(names, norm);
    assert forall|i: int| 0 <= i < r.by_normalised_name.len() implies (
    #[trigger] r.by_normalised_name[i]).1.len() > 0 by {
        if i != n {
            assert(names[i] == r.by_normalised_name[i]);
        }
    }
    assert forall|i: int, j: int|
        0 <= i < r.by_normalised_name.len() && 0 <= j < r.by_normalised_name[i].1.len() implies has_key(
        r.by_crs,
        #[trigger] r.by_normalised_name[i].1[j],
    ) by {
        let c = r.by_normalised_name[i].1[j];
        if i == n {
            if j < codes.len() {
                assert(names[n].1[j] == c);
                assert(has_key(index.by_crs, c));
            }
        } else {
            assert(names[i].1[j] == c);
            assert(has_key(index.by_crs, c));
        }
        lemma_has_key_stays(index.by_crs, s.crs, s, c);
    }
    assert forall|i: int| 0 <= i < r.by_crs.len() implies (#[trigger] r.by_crs[i]).1.crs
        == r.by_crs[i].0 by {
        if i < index.by_crs.len() {
            assert(index.by_crs[i].1.crs == index.by_crs[i].0);
        }
    }
}

/// The codes of an index with one more station.
proof fn lemma_codes_after(index: StationIndexView, s: StationView)
    ensures
        forall|i: int|
            0 <= i < with_station(index, s).by_crs.len() ==> (#[trigger] with_station(
                index,
                s,
            ).by_crs[i]).0 == s.crs || 0 <= i < index.by_crs.len() && with_station(
                index,
                s,
            ).by_crs[i].0 == index.by_crs[i].0,
{
    lemma_key_position(index.by_crs, s.crs);
}

proof fn lemma_letters_in_capitals(s: Seq<char>)
    requires
        is_letters(s),
    ensures
        all_ascii(s),
        s.len() > 0 ==> is_capitals(ascii_uppercase(s)),
{
    let r = ascii_uppercase(s);
    assert forall|i: int| 0 <= i < r.len() implies 'A' <= #[trigger] r[i] <= 'Z' by {
        assert(r[i] == ascii_upper(s[i]));
    }
}

/// Every code in the index of a list is that of a station on the list.
pub proof fn loaded_index_is_closed(lines: Seq<Seq<char>>)
    ensures
        index_of_lines(lines).wf(),
    decreases lines.len(),
{
    if lines.len() > 0 {
        loaded_index_is_closed(lines.drop_last());
        if let Some(s) = station_of_line(lines.last()) {
            lemma_with_station_wf(index_of_lines(lines.drop_last()), s);
        }
    }
}

// ---------------------------------------------------------------------------
// The fuzzy matcher
// ---------------------------------------------------------------------------

/// `fuzzy_matcher::skim::SkimMatcherV2`.
#[verifier::external_type_specification]
#[verifier::external_body]
pub struct ExSkimMatcherV2(fuzzy_matcher::skim::SkimMatcherV2);

/// The pairs of choice and pattern that a matcher was asked about, in order.
/// It keeps the cells of its score matrix from one call to the next and reads
/// some of them before it writes them, so what it was asked before counts.
pub uninterp spec fn asked(m: fuzzy_matcher::skim::SkimMatcherV2) -> Seq<(Seq<char>, Seq<char>)>;

/// The score that a matcher with the given past gives to a choice.
pub uninterp spec fn skim_score(
    past: Seq<(Seq<char>, Seq<char>)>,
    choice: Seq<char>,
    pattern: Seq<char>,
) -> Option<i64>;

/// `SkimMatcherV2::default`: a matcher that was asked nothing yet.
#[verifier::external_body]
fn new_matcher() -> (r: fuzzy_matcher::skim::SkimMatcherV2)
    ensures
        asked(r) == Seq::<(Seq<char>, Seq<char>)>::empty(),
{
    fuzzy_matcher::skim::SkimMatcherV2::default()
}

/// `SkimMatcherV2::fuzzy_match`. The score is a function of what the matcher was
/// asked before, the choice and the pattern. The call joins the matcher's past.
#[verifier::external_body]
fn score_of(m: &mut fuzzy_matcher::skim::SkimMatcherV2, choice: &str, pattern: &str) -> (r: Option<
    i64,
>)
    ensures
        r == skim_score(asked(*old(m)), choice@, pattern@),
        asked(*final(m)) == asked(*old(m)).push((choice@, pattern@)),
{
    m.fuzzy_match(choice, pattern)
}

// ---------------------------------------------------------------------------
// The search
// ---------------------------------------------------------------------------

/// The position of the last `c`, or -1 where there is none.
pub open spec fn last_char(s: Seq<char>, c: char) -> int
    decreases s.len(),
{
    if s.len() == 0 {
        -1
    } else if s.last() == c {
        s.len() - 1
    } else {
        last_char(s.drop_last(), c)
    }
}

/// The code that a query spells out: a bare code of three bytes, or one in
/// brackets at the end.
pub open spec fn code_in_query(query: Seq<char>) -> Option<Seq<char>> {
    if encode_utf8(query).len() == 3 {
        Some(uppercase(query))
    } else if query.len() > 0 && query.last() == ')' && last_char(query, '(') >= 0 {
        Some(uppercase(trim(query.subrange(last_char(query, '(') + 1, query.len() - 1))))
    } else {
        None
    }
}

/// The codes, and behind them those of the stations whose name goes on from the prefix.
pub open spec fn with_extensions(
    codes: Seq<Seq<char>>,
    all: Seq<(Seq<char>, Seq<char>)>,
    prefix: Seq<char>,
) -> Seq<Seq<char>>
    decreases all.len(),
{
    if all.len() == 0 {
        codes
    } else {
        let rest = with_extensions(codes, all.drop_last(), prefix);
        if starts_with(all.last().0, prefix) && !rest.contains(all.last().1) {
            rest.push(all.last().1)
        } else {
            rest
        }
    }
}

/// Every token stands somewhere in the name.
pub open spec fn holds_all(name: Seq<char>, tokens: Seq<Seq<char>>) -> bool {
    forall|i: int| 0 <= i < tokens.len() ==> contains_text(name, #[trigger] tokens[i])
}

/// The codes of the stations in whose names all tokens stand.
pub open spec fn holding_all(
    all: Seq<(Seq<char>, Seq<char>)>,
    tokens: Seq<Seq<char>>,
) -> Seq<Seq<char>>
    decreases all.len(),
{
    if all.len() == 0 {
        Seq::empty()
    } else {
        let rest = holding_all(all.drop_last(), tokens);
        if holds_all(all.last().0, tokens) {
            rest.push(all.last().1)
        } else {
            rest
        }
    }
}

/// The stations of the codes with their display names. A code of no station is left out.
pub open spec fn display(
    by_crs: Seq<(Seq<char>, StationView)>,
    codes: Seq<Seq<char>>,
) -> Seq<(Seq<char>, Seq<char>)>
    decreases codes.len(),
{
    if codes.len() == 0 {
        Seq::empty()
    } else {
        let rest = display(by_crs, codes.drop_last());
        match value_of(by_crs, codes.last()) {
            Some(s) => rest.push((s.name + " ("@ + s.crs + ")"@, s.crs)),
            None => rest,
        }
    }
}

/// One code is an answer; several are candidates.
pub open spec fn answer(index: StationIndexView, codes: Seq<Seq<char>>) -> FindResultView {
    if codes.len() == 1 {
        FindResultView::Exact(codes[0])
    } else {
        FindResultView::Ambiguous(display(index.by_crs, codes))
    }
}

/// A station that the fuzzy search came up with.
pub struct Hit {
    pub score: i64,
    pub crs: String,
}

#[verifier::ext_equal]
pub struct HitView {
    pub score: i64,
    pub crs: Seq<char>,
}

impl View for Hit {
    type V = HitView;

    open spec fn view(&self) -> HitView {
        HitView { score: self.score, crs: self.crs@ }
    }
}

/// Hits rank by score, the highest first.
impl Ranked for Hit {
    open spec fn rank_le(a: HitView, b: HitView) -> bool {
        a.score >= b.score
    }

    fn is_rank_le(a: &Hit, b: &Hit) -> (r: bool) {
        a.score >= b.score
    }

    proof fn rank_total(a: HitView, b: HitView) {
    }

    proof fn rank_transitive(a: HitView, b: HitView, c: HitView) {
    }
}

/// The lowest score of a hit.
pub const FUZZY_THRESHOLD: i64 = 60;

/// How many hits are shown.
pub const FUZZY_HITS: usize = 5;

/// The stations whose score reaches the threshold, in the order of the list.
pub open spec fn hits(all: Seq<(Seq<char>, Seq<char>)>, scores: Seq<Option<i64>>) -> Seq<HitView>
    decreases all.len(),
{
    if all.len() == 0 {
        Seq::empty()
    } else {
        let rest = hits(all.drop_last(), scores);
        match scores[all.len() - 1] {
            Some(score) if score >= FUZZY_THRESHOLD => rest.push(
                HitView { score, crs: all.last().1 },
            ),
            _ => rest,
        }
    }
}

/// The codes of the hits with the highest scores, the highest first.
pub open spec fn best_codes(all: Seq<(Seq<char>, Seq<char>)>, scores: Seq<Option<i64>>) -> Seq<
    Seq<char>,
> {
    let ranked = sorted::<Hit>(hits(all, scores));
    Seq::new(
        if ranked.len() <= FUZZY_HITS {
            ranked.len()
        } else {
            FUZZY_HITS as nat
        },
        |i: int| ranked[i].crs,
    )
}

/// What the scores come to.
pub open spec fn scored_answer(index: StationIndexView, scores: Seq<Option<i64>>) -> FindResultView {
    let codes = best_codes(index.all, scores);
    if codes.len() == 0 {
        FindResultView::NotFound
    } else {
        answer(index, codes)
    }
}

/// The scores of all names for a pattern, by one matcher.
pub open spec fn skim_scores(all: Seq<(Seq<char>, Seq<char>)>, pattern: Seq<char>) -> Seq<
    Option<i64>,
> {
    Seq::new(all.len(), |i: int| skim_score(asked_before(all, pattern, i), all[i].0, pattern))
}

/// What the matcher was asked before the name at a position.
pub open spec fn asked_before(all: Seq<(Seq<char>, Seq<char>)>, pattern: Seq<char>, n: int) -> Seq<
    (Seq<char>, Seq<char>),
> {
    Seq::new(n as nat, |j: int| (all[j].0, pattern))
}

/// What a search comes to: the code that the query spells out; else the
/// stations of that name and those whose name goes on from it; else the
/// stations in whose names all words of the query stand; else the best scores.
pub open spec fn found(
    index: StationIndexView,
    query: Seq<char>,
    scores: Seq<Option<i64>>,
) -> FindResultView {
    let code = code_in_query(query);
    let norm = normalised(query);
    let named = value_of(index.by_normalised_name, norm);
    let partial = holding_all(index.all, words(norm));
    if code is Some && has_key(index.by_crs, code->0) {
        FindResultView::Exact(code->0)
    } else if named is Some {
        answer(index, with_extensions(named->0, index.all, norm + " "@))
    } else if partial.len() > 0 {
        answer(index, partial)
    } else {
        scored_answer(index, scores)
    }
}

fn last_position(v: &Vec<char>, c: char) -> (r: Option<usize>)
    ensures
        match r {
            Some(i) => last_char(v@, c) == i && i < v@.len() && v@[i as int] == c,
            None => last_char(v@, c) == -1,
        },
{
    let mut i: usize = v.len();
    assert(v@.take(i as int) =~= v@);
    while i > 0
        invariant
            i <= v@.len(),
            last_char(v@, c) == last_char(v@.take(i as int), c),
        decreases i,
    {
        if v[i - 1] == c {
            return Some(i - 1);
        }
        assert(v@.take(i as int).drop_last() =~= v@.take(i - 1));
        i -= 1;
    }
    None
}

/// The code that a query spells out: a bare code of three bytes, or one in
/// brackets at the end.
fn spelled_out(query: &str) -> (r: Option<String>)
    ensures
        opt_text(r) == code_in_query(query@),
{
    if query.as_bytes().len() == 3 {
        return Some(to_upper(query));
    }
    let v = chars(query);
    let n = v.len();
    if n > 0 && v[n - 1] == ')' {
        match last_position(&v, '(') {
            Some(i) => {
                let inner = text_of(&v, i + 1, n - 1);
                Some(to_upper(trimmed(inner.as_str()).as_str()))
            },
            None => None,
        }
    } else {
        None
    }
}

impl StationIndex {
    /// The keys of the maps are distinct, every name has a code, every code that
    /// the search can come up with is that of a station, and codes of ASCII
    /// characters have the case of ASCII.
    pub open spec fn wf(&self) -> bool {
        self@.wf() && self@.has_plain_case()
    }

    /// Build the index from a CSV text with columns: `crs,station_name`.
    pub fn load(raw: &str) -> (r: Self)
        ensures
            r@ == index_of_csv(raw@),
            r.wf(),
            csv_has_letters(raw@) ==> r@.has_capital_codes(),
    {
        let lines = split_at_each(raw, '\n');
        let ghost all = texts(lines@).skip(1);
        let mut index = StationIndex {
            by_crs: TextMap::new(),
            by_normalised_name: TextMap::new(),
            all: Vec::new(),
        };
        assert(index@ =~= empty_index());
        assert(all.take(0) =~= Seq::<Seq<char>>::empty());
        // Skip the header.
        let mut i: usize = 1;
        let n = lines.len();
        while i < n
            invariant
                1 <= i,
                n == lines@.len(),
                n > 0 ==> i <= n,
                n > 0,
                all == texts(lines@).skip(1),
                index@ == index_of_lines(all.take(i - 1)),
                index@.has_plain_case(),
                csv_has_letters(raw@) ==> index@.has_capital_codes(),
                all == split(raw@, '\n').skip(1),
            decreases n - i,
        {
            assert(all.take(i as int).drop_last() =~= all.take(i - 1));
            assert(all.take(i as int).last() == lines@[i as int]@);
            assert(all[i - 1] == lines@[i as int]@);
            index.add_line(lines[i].as_str());
            i += 1;
        }
        assert(all.take(i - 1) =~= all);
        proof {
            loaded_index_is_closed(all);
        }
        index
    }

    /// Add the station of one line, where there is one.
    fn add_line(&mut self, line: &str)
        ensures
            final(self)@ == (match station_of_line(line@) {
                Some(s) => with_station(old(self)@, s),
                None => old(self)@,
            }),
            old(self)@.has_plain_case() ==> final(self)@.has_plain_case(),
            old(self)@.has_capital_codes() && line_has_letters(line@)
                ==> final(self)@.has_capital_codes(),
    {
        let v = chars(line);
        let mut comma: usize = 0;
        while comma < v.len() && v[comma] != ','
            invariant
                comma <= v@.len(),
                forall|j: int| 0 <= j < comma ==> #[trigger] v@[j] != ',',
            decreases v.len() - comma,
        {
            comma += 1;
        }
        proof {
            lemma_run_is(line@, other_than(','), comma as int);
        }
        if comma >= v.len() {
            return;
        }
        let code = text_of(&v, 0, comma);
        let rest = text_of(&v, comma + 1, v.len());
        assert(code@ =~= line@.take(comma as int));
        assert(rest@ =~= line@.skip(comma + 1));
        let crs = to_upper(trimmed(code.as_str()).as_str());
        let name = trimmed(rest.as_str());
        if crs.as_str().is_empty() || name.as_str().is_empty() {
            return;
        }
        proof {
            let s = StationView { crs: crs@, name: name@ };
            lemma_codes_after(self@, s);
            if line_has_letters(line@) {
                lemma_letters_in_capitals(trim(line@.take(comma as int)));
            }
        }
        self.add(crs, name);
    }

    fn add(&mut self, crs: String, name: String)
        ensures
            final(self)@ == with_station(old(self)@, StationView { crs: crs@, name: name@ }),
    {
        let ghost before = self@;
        let norm = normalise(name.as_str());
        let mut codes: Vec<String> = match self.by_normalised_name.get(norm.as_str()) {
            Some(c) => clone_texts(&c.codes),
            None => Vec::new(),
        };
        let ghost had = texts(codes@);
        proof {
            if value_of(before.by_normalised_name, norm@) is None {
                assert(had =~= Seq::<Seq<char>>::empty());
            }
        }
        codes.push(crs.clone());
        assert(texts(codes@) =~= had.push(crs@));
        self.all.push((norm.clone(), crs.clone()));
        assert(views(self.all@) =~= before.all.push((norm@, crs@)));
        self.by_normalised_name.insert(norm, Codes { codes });
        self.by_crs.insert(crs.clone(), Station { crs, name });
    }

    /// Look up a station by its CRS code (case-insensitive).
    pub fn by_crs(&self, crs: &str) -> (r: Option<&Station>)
        ensures
            match r {
                Some(s) => value_of(self@.by_crs, uppercase(crs@)) == Some(s@),
                None => value_of(self@.by_crs, uppercase(crs@)) is None,
            },
            all_ascii(crs@) ==> uppercase(crs@) == ascii_uppercase(crs@),
    {
        self.by_crs.get(to_upper(crs).as_str())
    }

    /// Find a station by name using exact match, then partial match, then fuzzy fallback.
    ///
    /// Also handles `"Name (CRS)"` input (e.g. `"London Waterloo (WAT)"`) and
    /// bare 3-letter CRS codes so users can disambiguate by typing the code.
    pub fn find(&self, query: &str) -> (r: FindResult)
        ensures
            r@ == found(self@, query@, skim_scores(self@.all, normalised(query@))),
            self.wf() && self@.has_capital_codes() ==> is_settled(self@, r@),
    {
        proof {
            if self.wf() && self@.has_capital_codes() {
                shown_candidates_resolve(
                    self@,
                    query@,
                    skim_scores(self@.all, normalised(query@)),
                );
            }
        }
        // Direct CRS lookup: bare code ("WAT") or name with code suffix ("London Waterloo (WAT)").
        if let Some(crs) = spelled_out(query) {
            if self.by_crs.contains_key(crs.as_str()) {
                return FindResult::Exact(crs);
            }
        }
        let norm = normalise(query);
        // 1. Exact normalised match: also collect prefix extensions (e.g. "waterloo east"
        //    when the query is "waterloo") so they surface alongside the exact hit.
        if let Some(c) = self.by_normalised_name.get(norm.as_str()) {
            let codes = self.extended(clone_texts(&c.codes), norm.as_str());
            return self.answer_of(codes);
        }
        // 2. Token-based partial match.
        let partial = self.partial(norm.as_str());
        if partial.len() > 0 {
            return self.answer_of(partial);
        }
        // 3. Fuzzy fallback.
        let scores = self.fuzzy_scores(norm.as_str());
        self.best_of(&scores)
    }

    fn extended(&self, codes: Vec<String>, norm: &str) -> (r: Vec<String>)
        ensures
            texts(r@) == with_extensions(texts(codes@), self@.all, norm@ + " "@),
    {
        let mut prefix = norm.to_string();
        prefix.append(" ");
        let mut out = codes;
        let mut i: usize = 0;
        assert(self@.all.take(0) =~= Seq::<(Seq<char>, Seq<char>)>::empty());
        while i < self.all.len()
            invariant
                0 <= i <= self.all@.len(),
                prefix@ == norm@ + " "@,
                texts(out@) == with_extensions(
                    texts(codes@),
                    self@.all.take(i as int),
                    norm@ + " "@,
                ),
            decreases self.all.len() - i,
        {
            assert(self@.all.take(i + 1).drop_last() =~= self@.all.take(i as int));
            let ghost before = texts(out@);
            let entry = &self.all[i];
            if has_prefix(entry.0.as_str(), prefix.as_str()) && !lists(&out, entry.1.as_str()) {
                out.push(entry.1.clone());
                assert(texts(out@) =~= before.push(entry.1@));
            }
            i += 1;
        }
        assert(self@.all.take(i as int) =~= self@.all);
        out
    }

    fn partial(&self, norm: &str) -> (r: Vec<String>)
        ensures
            texts(r@) == holding_all(self@.all, words(norm@)),
    {
        let tokens = split_words(norm);
        let mut out: Vec<String> = Vec::new();
        let mut i: usize = 0;
        assert(self@.all.take(0) =~= Seq::<(Seq<char>, Seq<char>)>::empty());
        assert(texts(out@) =~= Seq::<Seq<char>>::empty());
        while i < self.all.len()
            invariant
                0 <= i <= self.all@.len(),
                texts(tokens@) == words(norm@),
                texts(out@) == holding_all(self@.all.take(i as int), words(norm@)),
            decreases self.all.len() - i,
        {
            assert(self@.all.take(i + 1).drop_last() =~= self@.all.take(i as int));
            let ghost before = texts(out@);
            let entry = &self.all[i];
            if holds_each(entry.0.as_str(), &tokens) {
                out.push(entry.1.clone());
                assert(texts(out@) =~= before.push(entry.1@));
            }
            i += 1;
        }
        assert(self@.all.take(i as int) =~= self@.all);
        out
    }

    /// The scores of all names for a pattern, by one matcher.
    fn fuzzy_scores(&self, pattern: &str) -> (r: Vec<Option<i64>>)
        ensures
            r@ == skim_scores(self@.all, pattern@),
    {
        let mut matcher = new_matcher();
        let mut out: Vec<Option<i64>> = Vec::new();
        let mut i: usize = 0;
        assert(asked_before(self@.all, pattern@, 0) =~= asked(matcher));
        while i < self.all.len()
            invariant
                0 <= i <= self.all@.len(),
                asked(matcher) == asked_before(self@.all, pattern@, i as int),
                out@ == skim_scores(self@.all, pattern@).take(i as int),
            decreases self.all.len() - i,
        {
            let entry = &self.all[i];
            let score = score_of(&mut matcher, entry.0.as_str(), pattern);
            out.push(score);
            assert(asked_before(self@.all, pattern@, i + 1) =~= asked_before(
                self@.all,
                pattern@,
                i as int,
            ).push((self@.all[i as int].0, pattern@)));
            assert(skim_scores(self@.all, pattern@).take(i + 1) =~= skim_scores(
                self@.all,
                pattern@,
            ).take(i as int).push(score));
            i += 1;
        }
        assert(skim_scores(self@.all, pattern@).take(i as int) =~= skim_scores(
            self@.all,
            pattern@,
        ));
        out
    }

    /// What the scores come to, one score for each station of the list.
    pub fn best_of(&self, scores: &Vec<Option<i64>>) -> (r: FindResult)
        requires
            scores@.len() == self@.all.len(),
        ensures
            r@ == scored_answer(self@, scores@),
    {
        let mut out: Vec<Hit> = Vec::new();
        let mut i: usize = 0;
        assert(self@.all.take(0) =~= Seq::<(Seq<char>, Seq<char>)>::empty());
        assert(views(out@) =~= Seq::<HitView>::empty());
        while i < self.all.len()
            invariant
                0 <= i <= self.all@.len(),
                scores@.len() == self.all@.len(),
                views(out@) == hits(self@.all.take(i as int), scores@),
            decreases self.all.len() - i,
        {
            assert(self@.all.take(i + 1).drop_last() =~= self@.all.take(i as int));
            let ghost before = views(out@);
            if let Some(score) = scores[i] {
                if score >= FUZZY_THRESHOLD {
                    let hit = Hit { score, crs: self.all[i].1.clone() };
                    out.push(hit);
                    assert(views(out@) =~= before.push(hit@));
                }
            }
            i += 1;
        }
        assert(self@.all.take(i as int) =~= self@.all);
        let ranked = sort(out);
        let mut codes: Vec<String> = Vec::new();
        let mut k: usize = 0;
        let ghost best = best_codes(self@.all, scores@);
        while k < ranked.len() && k < FUZZY_HITS
            invariant
                0 <= k <= best.len(),
                views(ranked@) == sorted::<Hit>(hits(self@.all, scores@)),
                best == best_codes(self@.all, scores@),
                texts(codes@) == best.take(k as int),
            decreases ranked.len() - k,
        {
            let ghost before = texts(codes@);
            codes.push(ranked[k].crs.clone());
            assert(views(ranked@)[k as int] == ranked@[k as int]@);
            assert(texts(codes@) =~= before.push(best[k as int]));
            assert(best.take(k + 1) =~= best.take(k as int).push(best[k as int]));
            k += 1;
        }
        assert(best.take(k as int) =~= best);
        if codes.len() == 0 {
            return FindResult::NotFound;
        }
        self.answer_of(codes)
    }

    /// One code is an answer; several are candidates.
    fn answer_of(&self, codes: Vec<String>) -> (r: FindResult)
        ensures
            r@ == answer(self@, texts(codes@)),
    {
        if codes.len() == 1 {
            FindResult::Exact(codes[0].clone())
        } else {
            FindResult::Ambiguous(self.to_display(&codes))
        }
    }

    /// The stations of the codes with their display names.
    pub fn to_display(&self, codes: &Vec<String>) -> (r: Vec<(String, String)>)
        ensures
            views(r@) == display(self@.by_crs, texts(codes@)),
    {
        let ghost all = texts(codes@);
        let mut out: Vec<(String, String)> = Vec::new();
        let mut i: usize = 0;
        assert(all.take(0) =~= Seq::<Seq<char>>::empty());
        assert(views(out@) =~= Seq::<(Seq<char>, Seq<char>)>::empty());
        while i < codes.len()
            invariant
                0 <= i <= codes@.len(),
                all == texts(codes@),
                views(out@) == display(self@.by_crs, all.take(i as int)),
            decreases codes.len() - i,
        {
            assert(all.take(i + 1).drop_last() =~= all.take(i as int));
            let ghost before = views(out@);
            if let Some(s) = self.by_crs.get(codes[i].as_str()) {
                let mut name = s.name.clone();
                name.append(" (");
                name.append(s.crs.as_str());
                name.append(")");
                let ghost entry = (name@, s.crs@);
                out.push((name, s.crs.clone()));
                assert(views(out@) =~= before.push(entry));
            }
            i += 1;
        }
        assert(all.take(i as int) =~= all);
        out
    }
}

fn holds_each(name: &str, tokens: &Vec<String>) -> (r: bool)
    ensures
        r == holds_all(name@, texts(tokens@)),
{
    let mut i: usize = 0;
    while i < tokens.len()
        invariant
            0 <= i <= tokens@.len(),
            forall|j: int| 0 <= j < i ==> contains_text(name@, #[trigger] texts(tokens@)[j]),
        decreases tokens.len() - i,
    {
        if !has_text(name, tokens[i].as_str()) {
            assert(!contains_text(name@, texts(tokens@)[i as int]));
            return false;
        }
        i += 1;
    }
    true
}

// ---------------------------------------------------------------------------
// Laws
// ---------------------------------------------------------------------------

/// A query that spells out the code of a station finds that station, whatever
/// names are on the list.
pub proof fn spelled_out_code_wins(
    index: StationIndexView,
    query: Seq<char>,
    scores: Seq<Option<i64>>,
)
    requires
        code_in_query(query) is Some,
        has_key(index.by_crs, code_in_query(query)->0),
    ensures
        found(index, query, scores) == FindResultView::Exact(code_in_query(query)->0),
{
}

/// Every one of the codes is that of a station.
pub open spec fn all_known(index: StationIndexView, codes: Seq<Seq<char>>) -> bool {
    forall|i: int| 0 <= i < codes.len() ==> has_key(index.by_crs, #[trigger] codes[i])
}

proof fn lemma_extensions_known(
    index: StationIndexView,
    codes: Seq<Seq<char>>,
    n: int,
    prefix: Seq<char>,
)
    requires
        index.wf(),
        all_known(index, codes),
        0 <= n <= index.all.len(),
    ensures
        all_known(index, with_extensions(codes, index.all.take(n), prefix)),
    decreases n,
{
    if n > 0 {
        lemma_extensions_known(index, codes, n - 1, prefix);
        assert(index.all.take(n).drop_last() =~= index.all.take(n - 1));
        assert(has_key(index.by_crs, index.all[n - 1].1));
    }
}

proof fn lemma_holding_known(index: StationIndexView, n: int, tokens: Seq<Seq<char>>)
    requires
        index.wf(),
        0 <= n <= index.all.len(),
    ensures
        all_known(index, holding_all(index.all.take(n), tokens)),
    decreases n,
{
    if n > 0 {
        lemma_holding_known(index, n - 1, tokens);
        assert(index.all.take(n).drop_last() =~= index.all.take(n - 1));
        assert(has_key(index.by_crs, index.all[n - 1].1));
    }
}

proof fn lemma_hits_known(index: StationIndexView, n: int, scores: Seq<Option<i64>>)
    requires
        index.wf(),
        0 <= n <= index.all.len(),
    ensures
        forall|i: int|
            0 <= i < hits(index.all.take(n), scores).len() ==> has_key(
                index.by_crs,
                (#[trigger] hits(index.all.take(n), scores)[i]).crs,
            ),
    decreases n,
{
    if n > 0 {
        lemma_hits_known(index, n - 1, scores);
        let rest = hits(index.all.take(n - 1), scores);
        let h = hits(index.all.take(n), scores);
        assert(index.all.take(n).drop_last() =~= index.all.take(n - 1));
        assert(has_key(index.by_crs, index.all[n - 1].1));
        assert forall|i: int| 0 <= i < h.len() implies has_key(
            index.by_crs,
            (#[trigger] h[i]).crs,
        ) by {
            if i < rest.len() {
                assert(h[i] == rest[i]);
            }
        }
    }
}

proof fn lemma_best_known(index: StationIndexView, scores: Seq<Option<i64>>)
    requires
        index.wf(),
    ensures
        all_known(index, best_codes(index.all, scores)),
{
    broadcast use vstd::seq_lib::group_to_multiset_ensures;

    let h = hits(index.all, scores);
    let ranked = sorted::<Hit>(h);
    lemma_hits_known(index, index.all.len() as int, scores);
    assert(index.all.take(index.all.len() as int) =~= index.all);
    sorting_keeps_the_values::<Hit>(h);
    let codes = best_codes(index.all, scores);
    assert forall|i: int| 0 <= i < codes.len() implies has_key(index.by_crs, #[trigger] codes[i]) by {
        assert(ranked.contains(ranked[i]));
        assert(ranked.to_multiset().contains(ranked[i]));
        assert(h.contains(ranked[i]));
    }
}

proof fn lemma_display_known(index: StationIndexView, codes: Seq<Seq<char>>)
    requires
        index.wf(),
    ensures
        forall|i: int|
            0 <= i < display(index.by_crs, codes).len() ==> has_key(
                index.by_crs,
                (#[trigger] display(index.by_crs, codes)[i]).1,
            ),
    decreases codes.len(),
{
    if codes.len() > 0 {
        lemma_display_known(index, codes.drop_last());
        lemma_key_position(index.by_crs, codes.last());
        let rest = display(index.by_crs, codes.drop_last());
        let list = display(index.by_crs, codes);
        assert forall|i: int| 0 <= i < list.len() implies has_key(
            index.by_crs,
            (#[trigger] list[i]).1,
        ) by {
            if i < rest.len() {
                assert(list[i] == rest[i]);
            } else {
                let k = key_position(index.by_crs, codes.last());
                assert(index.by_crs[k].1.crs == index.by_crs[k].0);
            }
        }
    }
}

/// A search names only stations that are on the list.
pub proof fn found_stations_exist(
    index: StationIndexView,
    query: Seq<char>,
    scores: Seq<Option<i64>>,
)
    requires
        index.wf(),
    ensures
        match found(index, query, scores) {
            FindResultView::Exact(crs) => has_key(index.by_crs, crs),
            FindResultView::Ambiguous(list) => forall|i: int|
                0 <= i < list.len() ==> has_key(index.by_crs, (#[trigger] list[i]).1),
            FindResultView::NotFound => true,
        },
{
    let norm = normalised(query);
    let n = index.all.len() as int;
    assert(index.all.take(n) =~= index.all);
    lemma_key_position(index.by_normalised_name, norm);
    let named = value_of(index.by_normalised_name, norm);
    let partial = holding_all(index.all, words(norm));
    if named is Some {
        let k = key_position(index.by_normalised_name, norm);
        assert forall|j: int| 0 <= j < (named->0).len() implies has_key(
            index.by_crs,
            #[trigger] (named->0)[j],
        ) by {
            assert(index.by_normalised_name[k].1[j] == (named->0)[j]);
        }
        let codes = with_extensions(named->0, index.all, norm + " "@);
        lemma_extensions_known(index, named->0, n, norm + " "@);
        lemma_display_known(index, codes);
        if codes.len() == 1 {
            assert(has_key(index.by_crs, codes[0]));
        }
    } else if partial.len() > 0 {
        lemma_holding_known(index, n, words(norm));
        lemma_display_known(index, partial);
        if partial.len() == 1 {
            assert(has_key(index.by_crs, partial[0]));
        }
    } else {
        let codes = best_codes(index.all, scores);
        lemma_best_known(index, scores);
        lemma_display_known(index, codes);
        if codes.len() == 1 {
            assert(has_key(index.by_crs, codes[0]));
        }
    }
}

/// A candidate is shown by the name and the code of its station, and typed back
/// it finds that station, whatever the scores.
pub open spec fn resolves(index: StationIndexView, candidate: (Seq<char>, Seq<char>)) -> bool {
    let station = value_of(index.by_crs, candidate.1);
    &&& station is Some
    &&& candidate.0 == station->0.name + " ("@ + candidate.1 + ")"@
    &&& forall|scores: Seq<Option<i64>>| #[trigger]
        found(index, candidate.0, scores) == FindResultView::Exact(candidate.1)
}

/// A single code is that of a station, which a look-up finds; candidates are two
/// or more, and each of them resolves.
pub open spec fn is_settled(index: StationIndexView, answer: FindResultView) -> bool {
    match answer {
        FindResultView::Exact(crs) => value_of(index.by_crs, uppercase(crs)) is Some,
        FindResultView::Ambiguous(list) => {
            &&& list.len() >= 2
            &&& forall|i: int| 0 <= i < list.len() ==> resolves(index, #[trigger] list[i])
        },
        FindResultView::NotFound => true,
    }
}

proof fn lemma_byte_count(s: Seq<char>)
    ensures
        encode_utf8(s).len() >= s.len(),
    decreases s.len(),
{
    if s.len() > 0 {
        lemma_byte_count(s.drop_first());
    }
}

proof fn lemma_last_bracket(name: Seq<char>, crs: Seq<char>)
    requires
        is_capitals(crs),
    ensures
        last_char(name + "("@ + crs, '(') == name.len(),
    decreases crs.len(),
{
    reveal_strlit("(");
    let s = name + "("@ + crs;
    let front = crs.drop_last();
    assert('A' <= crs[crs.len() - 1] <= 'Z');
    assert(s.last() == crs.last());
    assert(s.drop_last() =~= name + "("@ + front);
    if front.len() > 0 {
        assert forall|i: int| 0 <= i < front.len() implies 'A' <= #[trigger] front[i] <= 'Z' by {
            assert(front[i] == crs[i]);
        }
        lemma_last_bracket(name, front);
    } else {
        assert(s.drop_last().last() == '(');
    }
}

proof fn lemma_candidate_resolves(index: StationIndexView, crs: Seq<char>)
    requires
        index.wf(),
        index.has_plain_case(),
        index.has_capital_codes(),
        has_key(index.by_crs, crs),
    ensures
        uppercase(crs) == crs,
        value_of(index.by_crs, crs) is Some,
        value_of(index.by_crs, crs)->0.crs == crs,
        resolves(index, (value_of(index.by_crs, crs)->0.name + " ("@ + crs + ")"@, crs)),
{
    lemma_key_position(index.by_crs, crs);
    let k = key_position(index.by_crs, crs);
    assert(index.by_crs[k].0 == crs);
    assert(is_capitals(crs));
    assert(all_ascii(crs));
    assert(ascii_uppercase(crs) =~= crs);
    let name = value_of(index.by_crs, crs)->0.name;
    let query = name + " ("@ + crs + ")"@;
    reveal_strlit(" (");
    reveal_strlit("(");
    reveal_strlit(")");
    reveal_strlit(" ");
    let inner = name + " "@ + "("@ + crs;
    let n = name.len() as int;
    assert(query.drop_last() =~= inner);
    lemma_last_bracket(name + " "@, crs);
    assert((name + " "@).len() == n + 1);
    assert(query.last() == ')');
    assert(last_char(query, '(') == last_char(inner, '('));
    assert(query.subrange(n + 2, query.len() - 1) =~= crs);
    lemma_byte_count(query);
    assert(!is_blank(crs[0]) && !is_blank(crs.last()));
    lemma_trim_nothing(crs);
    assert(code_in_query(query) == Some(crs));
    assert forall|scores: Seq<Option<i64>>| #[trigger]
        found(index, query, scores) == FindResultView::Exact(crs) by {
        spelled_out_code_wins(index, query, scores);
    }
}

proof fn lemma_display_resolves(index: StationIndexView, codes: Seq<Seq<char>>)
    requires
        index.wf(),
        index.has_plain_case(),
        index.has_capital_codes(),
        all_known(index, codes),
    ensures
        display(index.by_crs, codes).len() == codes.len(),
        forall|i: int|
            0 <= i < display(index.by_crs, codes).len() ==> resolves(
                index,
                #[trigger] display(index.by_crs, codes)[i],
            ),
    decreases codes.len(),
{
    if codes.len() > 0 {
        let front = codes.drop_last();
        assert forall|i: int| 0 <= i < front.len() implies has_key(
            index.by_crs,
            #[trigger] front[i],
        ) by {
            assert(front[i] == codes[i]);
        }
        lemma_display_resolves(index, front);
        assert(has_key(index.by_crs, codes[codes.len() - 1]));
        lemma_candidate_resolves(index, codes.last());
        let rest = display(index.by_crs, front);
        let list = display(index.by_crs, codes);
        assert forall|i: int| 0 <= i < list.len() implies resolves(index, #[trigger] list[i]) by {
            if i < rest.len() {
                assert(list[i] == rest[i]);
            }
        }
    }
}

proof fn lemma_answer_settled(index: StationIndexView, codes: Seq<Seq<char>>)
    requires
        index.wf(),
        index.has_plain_case(),
        index.has_capital_codes(),
        all_known(index, codes),
        codes.len() > 0,
    ensures
        is_settled(index, answer(index, codes)),
{
    lemma_display_resolves(index, codes);
    assert(has_key(index.by_crs, codes[0]));
    lemma_candidate_resolves(index, codes[0]);
}

proof fn lemma_extensions_grow(
    codes: Seq<Seq<char>>,
    all: Seq<(Seq<char>, Seq<char>)>,
    prefix: Seq<char>,
)
    ensures
        with_extensions(codes, all, prefix).len() >= codes.len(),
    decreases all.len(),
{
    if all.len() > 0 {
        lemma_extensions_grow(codes, all.drop_last(), prefix);
    }
}

/// In an index whose codes are letters, a search that comes to a single code has
/// found a station. One that does not shows two or more candidates, each of
/// which finds its own station when it is typed back.
pub proof fn shown_candidates_resolve(
    index: StationIndexView,
    query: Seq<char>,
    scores: Seq<Option<i64>>,
)
    requires
        index.wf(),
        index.has_plain_case(),
        index.has_capital_codes(),
    ensures
        is_settled(index, found(index, query, scores)),
{
    let code = code_in_query(query);
    let norm = normalised(query);
    let n = index.all.len() as int;
    assert(index.all.take(n) =~= index.all);
    lemma_key_position(index.by_normalised_name, norm);
    let named = value_of(index.by_normalised_name, norm);
    let partial = holding_all(index.all, words(norm));
    if code is Some && has_key(index.by_crs, code->0) {
        lemma_candidate_resolves(index, code->0);
    } else if named is Some {
        let k = key_position(index.by_normalised_name, norm);
        assert(index.by_normalised_name[k].1 == named->0);
        assert forall|j: int| 0 <= j < (named->0).len() implies has_key(
            index.by_crs,
            #[trigger] (named->0)[j],
        ) by {
            assert(index.by_normalised_name[k].1[j] == (named->0)[j]);
        }
        lemma_extensions_known(index, named->0, n, norm + " "@);
        lemma_extensions_grow(named->0, index.all, norm + " "@);
        lemma_answer_settled(index, with_extensions(named->0, index.all, norm + " "@));
    } else if partial.len() > 0 {
        lemma_holding_known(index, n, words(norm));
        lemma_answer_settled(index, partial);
    } else {
        lemma_best_known(index, scores);
        if best_codes(index.all, scores).len() > 0 {
            lemma_answer_settled(index, best_codes(index.all, scores));
        }
    }
}

} // verus!
