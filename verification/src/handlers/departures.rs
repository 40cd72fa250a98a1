//! Live departures: what is asked of Darwin, and how the answer is shown.

use crate::board::{
    html_lines, html_table, plain_lines, plain_table, status, status_text, Row, RowView,
    DISPLAY_ROWS,
};
use crate::darwin::{DarwinError, DarwinErrorView, Service, ServiceView};
use crate::domain::Channel;
use crate::markup::{esc, escaped};
use crate::poller::diff::{
    destination_text, first, named_with_stops, platform_shown, platform_text,
};
use crate::stations::{StationIndex, StationIndexView};
use crate::table::value_of;
use crate::text::{
    join, join_all, matches_ignoring_case, opt_text, same_ignoring_case, texts, views,
};
use crate::unicode::uppercase;
use vstd::prelude::*;
use vstd::string::*;

verus! {

/// Output format for command responses.
///
/// `Html` targets Telegram's HTML subset: callers must pass the string
/// directly to the Telegram API.  `Plain` targets non-Telegram channels:
/// no tags, no HTML entities, no column padding.
#[derive(Debug, Clone, Copy, PartialEq, Eq, Structural)]
pub enum Format {
    Html,
    Plain,
}

impl Format {
    /// The format of a channel.
    pub open spec fn of(channel: Channel) -> Format {
        match channel {
            Channel::Telegram => Format::Html,
            Channel::Twilio => Format::Plain,
        }
    }

    pub fn from(ch: &Channel) -> (r: Self)
        ensures
            r == Format::of(*ch),
    {
        match ch {
            Channel::Telegram => Format::Html,
            Channel::Twilio => Format::Plain,
        }
    }
}

// ---------------------------------------------------------------------------
// Station validation
// ---------------------------------------------------------------------------

/// The code, in any case, is that of a station.
pub open spec fn is_known(index: StationIndexView, crs: Seq<char>) -> bool {
    value_of(index.by_crs, uppercase(crs)) is Some
}

/// The first of the codes that is not that of a station.
pub open spec fn first_unknown(index: StationIndexView, codes: Seq<Seq<char>>) -> Option<Seq<char>>
    decreases codes.len(),
{
    if codes.len() == 0 {
        None
    } else if !is_known(index, codes[0]) {
        Some(codes[0])
    } else {
        first_unknown(index, codes.drop_first())
    }
}

/// The answer to a code that is not that of a station.
pub open spec fn unknown_code(crs: Seq<char>) -> Seq<char> {
    "<code>"@ + escaped(crs)
        + "</code> is not a recognised station code. Use <code>/find &lt;name&gt;</code> to look one up."@
}

/// What is wrong with the codes of a request, if anything.
pub open spec fn code_problem(
    index: StationIndexView,
    origin: Seq<char>,
    destinations: Seq<Seq<char>>,
) -> Option<Seq<char>> {
    if !is_known(index, origin) {
        Some(unknown_code(origin))
    } else {
        match first_unknown(index, destinations) {
            Some(crs) => Some(unknown_code(crs)),
            None => None,
        }
    }
}

/// Returns `Ok(())` if `crs` is a known station code, or `Err(HTML message)`.
pub fn require_crs(crs: &str, stations: &StationIndex) -> (r: Result<(), String>)
    ensures
        match r {
            Ok(_) => is_known(stations@, crs@),
            Err(msg) => !is_known(stations@, crs@) && msg@ == unknown_code(crs@),
        },
{
    if stations.by_crs(crs).is_some() {
        Ok(())
    } else {
        let mut msg = "<code>".to_string();
        msg.append(esc(crs).as_str());
        msg.append(
            "</code> is not a recognised station code. Use <code>/find &lt;name&gt;</code> to look one up.",
        );
        Err(msg)
    }
}

/// Check the origin and then the destinations.
pub fn require_all(origin: &str, destinations: &Vec<String>, stations: &StationIndex) -> (r: Result<
    (),
    String,
>)
    ensures
        match r {
            Ok(_) => code_problem(stations@, origin@, texts(destinations@)) is None,
            Err(msg) => code_problem(stations@, origin@, texts(destinations@)) == Some(msg@),
        },
{
    if let Err(msg) = require_crs(origin, stations) {
        return Err(msg);
    }
    let ghost all = texts(destinations@);
    let mut i: usize = 0;
    assert(all.skip(0) =~= all);
    while i < destinations.len()
        invariant
            0 <= i <= destinations@.len(),
            all == texts(destinations@),
            is_known(stations@, origin@),
            first_unknown(stations@, all) == first_unknown(stations@, all.skip(i as int)),
        decreases destinations.len() - i,
    {
        assert(all.skip(i as int)[0] == destinations@[i as int]@);
        if let Err(msg) = require_crs(destinations[i].as_str(), stations) {
            return Err(msg);
        }
        assert(all.skip(i as int).drop_first() =~= all.skip(i + 1));
        i += 1;
    }
    Ok(())
}

// ---------------------------------------------------------------------------
// The request
// ---------------------------------------------------------------------------

/// A departure board that a user asked for.
#[derive(Debug)]
pub struct BoardQuery {
    pub origin_crs: String,
    pub destinations: Vec<String>,
    pub format: Format,
}

#[verifier::ext_equal]
pub struct BoardQueryView {
    pub origin_crs: Seq<char>,
    pub destinations: Seq<Seq<char>>,
    pub format: Format,
}

impl View for BoardQuery {
    type V = BoardQueryView;

    open spec fn view(&self) -> BoardQueryView {
        BoardQueryView {
            origin_crs: self.origin_crs@,
            destinations: texts(self.destinations@),
            format: self.format,
        }
    }
}

impl BoardQuery {
    /// The destination that Darwin is to filter by: the only one there is.
    pub fn filter_crs(&self) -> (r: Option<String>)
        ensures
            opt_text(r) == (if self@.destinations.len() == 1 {
                Some(self@.destinations[0])
            } else {
                None
            }),
    {
        if self.destinations.len() == 1 {
            Some(self.destinations[0].clone())
        } else {
            None
        }
    }
}

// ---------------------------------------------------------------------------
// The answer
// ---------------------------------------------------------------------------

/// One of the texts is this one but for case.
pub open spec fn lists_ignoring_case(v: Seq<Seq<char>>, t: Seq<char>) -> bool {
    exists|i: int| 0 <= i < v.len() && same_ignoring_case(#[trigger] v[i], t)
}

/// The train terminates at one of the destinations or calls at it.
pub open spec fn goes_to(s: ServiceView, destinations: Seq<Seq<char>>) -> bool {
    exists|i: int|
        #![trigger destinations[i]]
        0 <= i < destinations.len() && (same_ignoring_case(destinations[i], s.destination_crs)
            || lists_ignoring_case(s.calling_point_crs, destinations[i]))
}

/// The services that go to one of the destinations, in order.
pub open spec fn going_to(services: Seq<ServiceView>, destinations: Seq<Seq<char>>) -> Seq<
    ServiceView,
>
    decreases services.len(),
{
    if services.len() == 0 {
        Seq::empty()
    } else {
        let rest = going_to(services.drop_last(), destinations);
        if goes_to(services.last(), destinations) {
            rest.push(services.last())
        } else {
            rest
        }
    }
}

/// The position of the first text that is this one but for case, or the length.
pub open spec fn position_ignoring_case(v: Seq<Seq<char>>, t: Seq<char>) -> int
    decreases v.len(),
{
    if v.len() == 0 || same_ignoring_case(v[0], t) {
        0
    } else {
        1 + position_ignoring_case(v.drop_first(), t)
    }
}

/// How many stops away the first of the destinations is that the train calls at.
pub open spec fn stops_before(destinations: Seq<Seq<char>>, calls: Seq<Seq<char>>) -> Option<nat>
    decreases destinations.len(),
{
    if destinations.len() == 0 {
        None
    } else if position_ignoring_case(calls, destinations[0]) < calls.len() {
        Some((position_ignoring_case(calls, destinations[0]) + 1) as nat)
    } else {
        stops_before(destinations.drop_first(), calls)
    }
}

/// The row of a service on the board.
pub open spec fn now_row(s: ServiceView, destinations: Seq<Seq<char>>) -> RowView {
    RowView {
        prefix: Seq::empty(),
        time: s.std,
        dest: named_with_stops(
            s.destination_name,
            stops_before(destinations, s.calling_point_crs),
        ),
        status: status(s.is_cancelled, s.cancel_reason, s.std, s.etd, None),
        plat: platform_shown(s.platform),
    }
}

pub open spec fn now_rows(services: Seq<ServiceView>, destinations: Seq<Seq<char>>) -> Seq<RowView> {
    let top = first(services, DISPLAY_ROWS as nat);
    Seq::new(top.len(), |i: int| now_row(top[i], destinations))
}

pub open spec fn code_texts(codes: Seq<Seq<char>>) -> Seq<Seq<char>> {
    Seq::new(codes.len(), |i: int| "<code>"@ + escaped(codes[i]) + "</code>"@)
}

/// The board with its heading.
pub open spec fn board_text(q: BoardQueryView, rows: Seq<RowView>) -> Seq<char> {
    match q.format {
        Format::Html => {
            let table = "<pre>"@ + join(html_lines(rows), "\n"@) + "</pre>"@;
            if q.destinations.len() == 0 {
                "<b>Departures from "@ + escaped(q.origin_crs) + ":</b>\n"@ + table
            } else {
                "<b>Departures from "@ + escaped(q.origin_crs) + " to "@ + join(
                    code_texts(q.destinations),
                    ", "@,
                ) + ":</b>\n"@ + table
            }
        },
        Format::Plain => {
            (if q.destinations.len() == 0 {
                q.origin_crs + " departures:"@
            } else {
                q.origin_crs + " to "@ + join(q.destinations, ", "@) + ":"@
            }) + "\n"@ + join(plain_lines(rows), "\n"@)
        },
    }
}

/// The answer where no train leaves the station.
pub open spec fn no_departures(q: BoardQueryView) -> Seq<char> {
    match q.format {
        Format::Html => "No departures found from <b>"@ + escaped(q.origin_crs) + "</b>."@,
        Format::Plain => "No departures found from "@ + q.origin_crs + "."@,
    }
}

/// The answer where no train goes to a destination.
pub open spec fn no_departures_there(q: BoardQueryView) -> Seq<char> {
    match q.format {
        Format::Html => "No departures from <b>"@ + escaped(q.origin_crs)
            + "</b> to the requested destination(s)."@,
        Format::Plain => "No departures from "@ + q.origin_crs
            + " to the requested destination(s)."@,
    }
}

/// The services that the board is about: those that go to a destination where
/// destinations are given.
pub open spec fn listed(q: BoardQueryView, services: Seq<ServiceView>) -> Seq<ServiceView> {
    if q.destinations.len() == 0 {
        services
    } else {
        going_to(services, q.destinations)
    }
}

/// What a user is shown for what Darwin sent.
pub open spec fn departures_text(
    q: BoardQueryView,
    result: Result<Seq<ServiceView>, DarwinErrorView>,
) -> Seq<char> {
    match result {
        Err(e) => "Could not fetch departures: "@ + escaped(e.text()),
        Ok(services) => if services.len() == 0 {
            no_departures(q)
        } else if listed(q, services).len() == 0 {
            no_departures_there(q)
        } else {
            board_text(q, now_rows(listed(q, services), q.destinations))
        },
    }
}

fn holds_ignoring_case(v: &Vec<String>, t: &str) -> (r: bool)
    ensures
        r == lists_ignoring_case(texts(v@), t@),
{
    let mut i: usize = 0;
    while i < v.len()
        invariant
            0 <= i <= v@.len(),
            forall|j: int| 0 <= j < i ==> !same_ignoring_case(#[trigger] texts(v@)[j], t@),
        decreases v.len() - i,
    {
        if matches_ignoring_case(v[i].as_str(), t) {
            assert(same_ignoring_case(texts(v@)[i as int], t@));
            return true;
        }
        i += 1;
    }
    false
}

fn leads_to(s: &Service, destinations: &Vec<String>) -> (r: bool)
    ensures
        r == goes_to(s@, texts(destinations@)),
{
    let ghost all = texts(destinations@);
    let mut i: usize = 0;
    while i < destinations.len()
        invariant
            0 <= i <= destinations@.len(),
            all == texts(destinations@),
            forall|j: int|
                #![trigger all[j]]
                0 <= j < i ==> !same_ignoring_case(all[j], s@.destination_crs)
                    && !lists_ignoring_case(s@.calling_point_crs, all[j]),
        decreases destinations.len() - i,
    {
        let d = destinations[i].as_str();
        assert(all[i as int] == d@);
        if matches_ignoring_case(d, s.destination_crs.as_str()) || holds_ignoring_case(
            &s.calling_point_crs,
            d,
        ) {
            return true;
        }
        i += 1;
    }
    false
}

fn select_going(services: Vec<Service>, destinations: &Vec<String>) -> (r: Vec<Service>)
    ensures
        views(r@) == going_to(views(services@), texts(destinations@)),
{
    let ghost all = views(services@);
    let mut out: Vec<Service> = Vec::new();
    let mut i: usize = 0;
    assert(all.take(0) =~= Seq::<ServiceView>::empty());
    assert(views(out@) =~= Seq::<ServiceView>::empty());
    while i < services.len()
        invariant
            0 <= i <= services@.len(),
            all == views(services@),
            views(out@) == going_to(all.take(i as int), texts(destinations@)),
        decreases services.len() - i,
    {
        assert(all.take(i + 1).drop_last() =~= all.take(i as int));
        let ghost before = views(out@);
        if leads_to(&services[i], destinations) {
            out.push(services[i].clone());
            assert(views(out@) =~= before.push(all[i as int]));
        }
        i += 1;
    }
    assert(all.take(i as int) =~= all);
    out
}

proof fn lemma_position_ignoring_case_is(v: Seq<Seq<char>>, t: Seq<char>, n: int)
    requires
        0 <= n <= v.len(),
        n < v.len() ==> same_ignoring_case(v[n], t),
        forall|i: int| 0 <= i < n ==> !same_ignoring_case(#[trigger] v[i], t),
    ensures
        position_ignoring_case(v, t) == n,
    decreases v.len(),
{
    if n > 0 {
        let w = v.drop_first();
        assert(!same_ignoring_case(v[0], t));
        assert forall|i: int| 0 <= i < n - 1 implies !same_ignoring_case(#[trigger] w[i], t) by {
            assert(w[i] == v[i + 1]);
        }
        lemma_position_ignoring_case_is(w, t, n - 1);
    }
}

fn find_ignoring_case(v: &Vec<String>, t: &str) -> (r: usize)
    ensures
        r == position_ignoring_case(texts(v@), t@),
        r <= v@.len(),
{
    let mut i: usize = 0;
    while i < v.len() && !matches_ignoring_case(v[i].as_str(), t)
        invariant
            0 <= i <= v@.len(),
            forall|j: int| 0 <= j < i ==> !same_ignoring_case(#[trigger] texts(v@)[j], t@),
        decreases v.len() - i,
    {
        i += 1;
    }
    proof {
        if i < v@.len() {
            assert(texts(v@)[i as int] == v@[i as int]@);
        }
        lemma_position_ignoring_case_is(texts(v@), t@, i as int);
    }
    i
}

fn stops_until(destinations: &Vec<String>, calls: &Vec<String>) -> (r: Option<u64>)
    ensures
        match r {
            Some(n) => stops_before(texts(destinations@), texts(calls@)) == Some(n as nat),
            None => stops_before(texts(destinations@), texts(calls@)) is None,
        },
{
    let ghost all = texts(destinations@);
    let mut i: usize = 0;
    assert(all.skip(0) =~= all);
    while i < destinations.len()
        invariant
            0 <= i <= destinations@.len(),
            all == texts(destinations@),
            stops_before(all, texts(calls@)) == stops_before(all.skip(i as int), texts(calls@)),
        decreases destinations.len() - i,
    {
        let n = find_ignoring_case(calls, destinations[i].as_str());
        assert(all.skip(i as int)[0] == destinations@[i as int]@);
        if n < calls.len() {
            return Some(n as u64 + 1);
        }
        assert(all.skip(i as int).drop_first() =~= all.skip(i + 1));
        i += 1;
    }
    None
}

fn rows_for(services: &Vec<Service>, destinations: &Vec<String>) -> (r: Vec<Row>)
    ensures
        views(r@) == now_rows(views(services@), texts(destinations@)),
{
    let ghost top = first(views(services@), DISPLAY_ROWS as nat);
    let ghost all = now_rows(views(services@), texts(destinations@));
    let none: Option<String> = None;
    let mut out: Vec<Row> = Vec::new();
    let mut i: usize = 0;
    while i < services.len() && i < DISPLAY_ROWS
        invariant
            0 <= i <= top.len(),
            none is None,
            top == first(views(services@), DISPLAY_ROWS as nat),
            all == now_rows(views(services@), texts(destinations@)),
            views(out@) == all.take(i as int),
        decreases services.len() - i,
    {
        let s = &services[i];
        let ghost before = views(out@);
        let row = Row {
            prefix: String::new(),
            time: s.std.clone(),
            dest: destination_text(
                s.destination_name.as_str(),
                stops_until(destinations, &s.calling_point_crs),
            ),
            status: status_text(
                s.is_cancelled,
                &s.cancel_reason,
                s.std.as_str(),
                s.etd.as_str(),
                &none,
            ),
            plat: platform_text(&s.platform),
        };
        assert(top[i as int] == s@);
        assert(row@ =~= all[i as int]);
        out.push(row);
        assert(views(out@) =~= before.push(all[i as int]));
        assert(all.take(i + 1) =~= all.take(i as int).push(all[i as int]));
        i += 1;
    }
    assert(all.take(i as int) =~= all);
    out
}

/// The codes, each in a `<code>` tag.
pub fn tagged_codes(codes: &Vec<String>) -> (r: Vec<String>)
    ensures
        texts(r@) == code_texts(texts(codes@)),
{
    let ghost all = code_texts(texts(codes@));
    let mut out: Vec<String> = Vec::new();
    let mut i: usize = 0;
    while i < codes.len()
        invariant
            0 <= i <= codes@.len(),
            all == code_texts(texts(codes@)),
            texts(out@) == all.take(i as int),
        decreases codes.len() - i,
    {
        let ghost before = texts(out@);
        let mut code = "<code>".to_string();
        code.append(esc(codes[i].as_str()).as_str());
        code.append("</code>");
        out.push(code);
        assert(texts(out@) =~= before.push(all[i as int]));
        assert(all.take(i + 1) =~= all.take(i as int).push(all[i as int]));
        i += 1;
    }
    assert(all.take(i as int) =~= all);
    out
}

fn show_board(q: &BoardQuery, rows: &Vec<Row>) -> (r: String)
    ensures
        r@ == board_text(q@, views(rows@)),
{
    match q.format {
        Format::Html => {
            let mut table = "<pre>".to_string();
            table.append(join_all(&html_table(rows), "\n").as_str());
            table.append("</pre>");
            let mut text = "<b>Departures from ".to_string();
            text.append(esc(q.origin_crs.as_str()).as_str());
            if q.destinations.len() > 0 {
                text.append(" to ");
                text.append(join_all(&tagged_codes(&q.destinations), ", ").as_str());
            }
            text.append(":</b>\n");
            text.append(table.as_str());
            text
        },
        Format::Plain => {
            // Compact plain-text layout for SMS: no column padding, no HTML markup.
            let mut text = q.origin_crs.clone();
            if q.destinations.len() == 0 {
                text.append(" departures:");
            } else {
                text.append(" to ");
                text.append(join_all(&q.destinations, ", ").as_str());
                text.append(":");
            }
            text.append("\n");
            text.append(join_all(&plain_table(rows), "\n").as_str());
            text
        },
    }
}

/// What came back from Darwin.
pub open spec fn board_result(r: Result<Vec<Service>, DarwinError>) -> Result<
    Seq<ServiceView>,
    DarwinErrorView,
> {
    match r {
        Ok(services) => Ok(views(services@)),
        Err(e) => Err(e@),
    }
}

/// What a user is shown for what Darwin sent.
pub fn show_departures(q: &BoardQuery, result: Result<Vec<Service>, DarwinError>) -> (r: String)
    ensures
        r@ == departures_text(q@, board_result(result)),
{
    match result {
        Err(e) => {
            let mut text = "Could not fetch departures: ".to_string();
            text.append(esc(e.text().as_str()).as_str());
            text
        },
        Ok(services) => {
            let origin = q.origin_crs.as_str();
            if services.len() == 0 {
                return match q.format {
                    Format::Html => {
                        let mut text = "No departures found from <b>".to_string();
                        text.append(esc(origin).as_str());
                        text.append("</b>.");
                        text
                    },
                    Format::Plain => {
                        let mut text = "No departures found from ".to_string();
                        text.append(origin);
                        text.append(".");
                        text
                    },
                };
            }
            // Trains that terminate at the requested station or call at it as an
            // intermediate stop.
            let filtered = if q.destinations.len() == 0 {
                services
            } else {
                select_going(services, &q.destinations)
            };
            if filtered.len() == 0 {
                return match q.format {
                    Format::Html => {
                        let mut text = "No departures from <b>".to_string();
                        text.append(esc(origin).as_str());
                        text.append("</b> to the requested destination(s).");
                        text
                    },
                    Format::Plain => {
                        let mut text = "No departures from ".to_string();
                        text.append(origin);
                        text.append(" to the requested destination(s).");
                        text
                    },
                };
            }
            let rows = rows_for(&filtered, &q.destinations);
            show_board(q, &rows)
        },
    }
}

} // verus!
