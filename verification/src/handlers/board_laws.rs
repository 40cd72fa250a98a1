//! What the live board of `/now` shows.

use crate::board::{html_lines, plain_lines, plain_row, status};
use crate::darwin::{DarwinErrorView, ServiceView};
use crate::handlers::commands::{board_step, StepView};
use crate::handlers::departures::{
    board_text, code_problem, code_texts, departures_text, first_unknown, goes_to, going_to,
    is_known, listed, lists_ignoring_case, now_row, now_rows, position_ignoring_case, stops_before,
    BoardQueryView, Format,
};
use crate::markup::escaped;
use crate::stations::StationIndexView;
use crate::table::value_of;
use crate::text::{
    holds, join, lemma_holds, lemma_join_holds, same_ignoring_case, starts_with,
};
use crate::unicode::uppercase;
use vstd::prelude::*;
use vstd::string::*;

verus! {

// ---------------------------------------------------------------------------
// Codes
// ---------------------------------------------------------------------------

/// There is nothing wrong with the codes of a request exactly where each of them,
/// in upper case, is that of a station.
pub proof fn codes_are_right_if_all_are_known(
    index: StationIndexView,
    origin: Seq<char>,
    destinations: Seq<Seq<char>>,
)
    ensures
        code_problem(index, origin, destinations) is None <==> {
            &&& value_of(index.by_crs, uppercase(origin)) is Some
            &&& forall|i: int|
                0 <= i < destinations.len() ==> value_of(
                    index.by_crs,
                    uppercase(#[trigger] destinations[i]),
                ) is Some
        },
{
    lemma_first_unknown(index, destinations);
}

proof fn lemma_first_unknown(index: StationIndexView, codes: Seq<Seq<char>>)
    ensures
        match first_unknown(index, codes) {
            Some(c) => codes.contains(c) && value_of(index.by_crs, uppercase(c)) is None,
            None => forall|i: int|
                0 <= i < codes.len() ==> value_of(index.by_crs, uppercase(#[trigger] codes[i])) is Some,
        },
    decreases codes.len(),
{
    if codes.len() > 0 {
        let rest = codes.drop_first();
        lemma_first_unknown(index, rest);
        if !is_known(index, codes[0]) {
            assert(codes.contains(codes[0]));
        } else {
            match first_unknown(index, rest) {
                Some(c) => {
                    let k = choose|k: int| 0 <= k < rest.len() && rest[k] == c;
                    assert(codes[k + 1] == c);
                },
                None => {
                    assert forall|i: int| 0 <= i < codes.len() implies value_of(
                        index.by_crs,
                        uppercase(#[trigger] codes[i]),
                    ) is Some by {
                        if i > 0 {
                            assert(rest[i - 1] == codes[i]);
                        }
                    }
                },
            }
        }
    }
}

/// What is wrong names a code of the request that is not that of a station.
pub proof fn wrong_codes_are_named(
    index: StationIndexView,
    origin: Seq<char>,
    destinations: Seq<Seq<char>>,
)
    requires
        code_problem(index, origin, destinations) is Some,
    ensures
        exists|crs: Seq<char>|
            {
                &&& crs == origin || destinations.contains(crs)
                &&& value_of(index.by_crs, #[trigger] uppercase(crs)) is None
                &&& holds(code_problem(index, origin, destinations)->0, escaped(crs))
            },
{
    lemma_first_unknown(index, destinations);
    let crs = if !is_known(index, origin) {
        origin
    } else {
        first_unknown(index, destinations)->0
    };
    let text = code_problem(index, origin, destinations)->0;
    assert(text == "<code>"@ + escaped(crs)
        + "</code> is not a recognised station code. Use <code>/find &lt;name&gt;</code> to look one up."@);
    assert(value_of(index.by_crs, uppercase(crs)) is None);
}

/// A board is fetched as it was asked for, and only where all codes are known.
pub proof fn boards_are_fetched_for_known_codes(
    intro: Option<Seq<char>>,
    query: BoardQueryView,
    index: StationIndexView,
)
    ensures
        code_problem(index, query.origin_crs, query.destinations) is None ==> board_step(
            intro,
            query,
            index,
        ) == (StepView::Fetch { intro, query }),
        code_problem(index, query.origin_crs, query.destinations) is Some ==> board_step(
            intro,
            query,
            index,
        ) is Reply,
{
}

// ---------------------------------------------------------------------------
// Services
// ---------------------------------------------------------------------------

/// A train that ends at a destination, whatever the case of the codes, goes there.
pub proof fn train_goes_to_its_terminus(s: ServiceView, destinations: Seq<Seq<char>>, i: int)
    requires
        0 <= i < destinations.len(),
        same_ignoring_case(destinations[i], s.destination_crs),
    ensures
        goes_to(s, destinations),
{
}

/// So does a train that calls at one of the destinations.
pub proof fn train_goes_where_it_calls(s: ServiceView, destinations: Seq<Seq<char>>, i: int, j: int)
    requires
        0 <= i < destinations.len(),
        0 <= j < s.calling_point_crs.len(),
        same_ignoring_case(s.calling_point_crs[j], destinations[i]),
    ensures
        goes_to(s, destinations),
{
    assert(lists_ignoring_case(s.calling_point_crs, destinations[i]));
}

/// A train goes nowhere else.
pub proof fn train_goes_nowhere_else(s: ServiceView, destinations: Seq<Seq<char>>)
    requires
        goes_to(s, destinations),
    ensures
        exists|i: int|
            {
                &&& 0 <= i < destinations.len()
                &&& same_ignoring_case(#[trigger] destinations[i], s.destination_crs) || exists|j: int|
                    0 <= j < s.calling_point_crs.len() && same_ignoring_case(
                        #[trigger] s.calling_point_crs[j],
                        destinations[i],
                    )
            },
{
}

/// The services that go to the destinations are picked one by one, in order.
pub proof fn services_are_picked_one_by_one(
    a: Seq<ServiceView>,
    b: Seq<ServiceView>,
    s: ServiceView,
    destinations: Seq<Seq<char>>,
)
    ensures
        going_to(a + b, destinations) == going_to(a, destinations) + going_to(b, destinations),
        goes_to(s, destinations) ==> going_to(seq![s], destinations) == seq![s],
        !goes_to(s, destinations) ==> going_to(seq![s], destinations).len() == 0,
    decreases b.len(),
{
    let one = seq![s];
    assert(one.drop_last() =~= Seq::<ServiceView>::empty());
    assert(going_to(one.drop_last(), destinations) =~= Seq::<ServiceView>::empty());
    assert(goes_to(s, destinations) ==> going_to(one, destinations) =~= one);
    if b.len() == 0 {
        assert(a + b =~= a);
        assert(going_to(a, destinations) + going_to(b, destinations) =~= going_to(a, destinations));
    } else {
        services_are_picked_one_by_one(a, b.drop_last(), s, destinations);
        assert((a + b).drop_last() =~= a + b.drop_last());
        assert(going_to(a + b, destinations) =~= going_to(a, destinations) + going_to(
            b,
            destinations,
        ));
    }
}

/// Without destinations the board is about all services.
pub proof fn all_services_without_destinations(q: BoardQueryView, services: Seq<ServiceView>)
    ensures
        q.destinations.len() == 0 ==> listed(q, services) == services,
        q.destinations.len() > 0 ==> listed(q, services) == going_to(services, q.destinations),
{
}

// ---------------------------------------------------------------------------
// Rows
// ---------------------------------------------------------------------------

/// The row of a service gives its scheduled time, its destination by name, its
/// status and its platform.
pub proof fn now_row_is_of_the_service(s: ServiceView, destinations: Seq<Seq<char>>)
    ensures
        ({
            let row = now_row(s, destinations);
            &&& row.prefix.len() == 0
            &&& row.time == s.std
            &&& starts_with(row.dest, s.destination_name)
            &&& row.status == status(s.is_cancelled, s.cancel_reason, s.std, s.etd, None)
            &&& s.platform is Some ==> row.plat == s.platform->0
            &&& s.platform is None ==> row.plat == "TBC"@
            &&& stops_before(destinations, s.calling_point_crs) is None ==> row.dest
                == s.destination_name
        }),
{
    let row = now_row(s, destinations);
    assert(row.dest.take(s.destination_name.len() as int) =~= s.destination_name);
}

proof fn lemma_position(v: Seq<Seq<char>>, t: Seq<char>)
    ensures
        0 <= position_ignoring_case(v, t) <= v.len(),
        position_ignoring_case(v, t) < v.len() ==> same_ignoring_case(
            v[position_ignoring_case(v, t)],
            t,
        ),
        forall|i: int|
            0 <= i < position_ignoring_case(v, t) ==> !same_ignoring_case(#[trigger] v[i], t),
    decreases v.len(),
{
    if v.len() > 0 && !same_ignoring_case(v[0], t) {
        let r = v.drop_first();
        lemma_position(r, t);
        assert forall|i: int| 0 <= i < position_ignoring_case(v, t) implies !same_ignoring_case(
            #[trigger] v[i],
            t,
        ) by {
            if i > 0 {
                assert(r[i - 1] == v[i]);
            }
        }
        if position_ignoring_case(r, t) < r.len() {
            assert(r[position_ignoring_case(r, t)] == v[position_ignoring_case(v, t)]);
        }
    }
}

/// The number of stops counts the calls up to the first call at one of the
/// destinations, that one included; it is left out exactly where there is none.
pub proof fn stops_on_the_way_are_counted(destinations: Seq<Seq<char>>, calls: Seq<Seq<char>>)
    ensures
        match stops_before(destinations, calls) {
            Some(n) => {
                &&& 1 <= n <= calls.len()
                &&& exists|k: int|
                    {
                        &&& 0 <= k < destinations.len()
                        &&& same_ignoring_case(calls[n - 1], #[trigger] destinations[k])
                        &&& forall|i: int|
                            0 <= i < n - 1 ==> !same_ignoring_case(
                                #[trigger] calls[i],
                                destinations[k],
                            )
                    }
            },
            None => forall|k: int, i: int|
                0 <= k < destinations.len() && 0 <= i < calls.len() ==> !same_ignoring_case(
                    #[trigger] calls[i],
                    #[trigger] destinations[k],
                ),
        },
    decreases destinations.len(),
{
    if destinations.len() > 0 {
        let rest = destinations.drop_first();
        lemma_position(calls, destinations[0]);
        stops_on_the_way_are_counted(rest, calls);
        if position_ignoring_case(calls, destinations[0]) >= calls.len() {
            match stops_before(rest, calls) {
                Some(n) => {
                    let k = choose|k: int|
                        {
                            &&& 0 <= k < rest.len()
                            &&& same_ignoring_case(calls[n - 1], #[trigger] rest[k])
                            &&& forall|i: int|
                                0 <= i < n - 1 ==> !same_ignoring_case(#[trigger] calls[i], rest[k])
                        };
                    assert(destinations[k + 1] == rest[k]);
                },
                None => {
                    assert forall|k: int, i: int|
                        0 <= k < destinations.len() && 0 <= i < calls.len() implies
                        !same_ignoring_case(#[trigger] calls[i], #[trigger] destinations[k]) by {
                        if k > 0 {
                            assert(rest[k - 1] == destinations[k]);
                        }
                    }
                },
            }
        }
    }
}

/// The board has a row for each service that it is about, in order, up to ten.
pub proof fn first_ten_have_rows(services: Seq<ServiceView>, destinations: Seq<Seq<char>>, i: int)
    requires
        0 <= i < services.len(),
    ensures
        now_rows(services, destinations).len() <= 10,
        now_rows(services, destinations).len() == services.len() || now_rows(
            services,
            destinations,
        ).len() == 10,
        i < 10 ==> now_rows(services, destinations)[i] == now_row(services[i], destinations),
{
}

/// The answer holds each of the rows in the layout that was asked for, and it says
/// from where.
pub proof fn board_holds_every_row(
    q: BoardQueryView,
    services: Seq<ServiceView>,
    i: int,
)
    requires
        0 <= i < listed(q, services).len(),
        i < 10,
    ensures
        ({
            let text = departures_text(q, Ok(services));
            let rows = now_rows(listed(q, services), q.destinations);
            &&& q.format == Format::Html ==> holds(text, html_lines(rows)[i]) && holds(
                text,
                escaped(q.origin_crs),
            )
            &&& q.format == Format::Plain ==> holds(
                text,
                plain_row(now_row(listed(q, services)[i], q.destinations)),
            ) && starts_with(text, q.origin_crs)
        }),
{
    let mine = listed(q, services);
    if services.len() == 0 {
        assert(going_to(services, q.destinations).len() == 0);
    }
    first_ten_have_rows(mine, q.destinations, i);
    let rows = now_rows(mine, q.destinations);
    let text = departures_text(q, Ok(services));
    let empty = Seq::<char>::empty();
    assert(text == board_text(q, rows));
    match q.format {
        Format::Html => {
            let table = join(html_lines(rows), "\n"@);
            lemma_join_holds(html_lines(rows), "\n"@, i);
            let from = "<b>Departures from "@;
            if q.destinations.len() == 0 {
                let head = from + escaped(q.origin_crs) + ":</b>\n"@ + "<pre>"@;
                lemma_holds(head, table, "</pre>"@, html_lines(rows)[i]);
                assert(text =~= head + table + "</pre>"@);
                assert(text =~= from + escaped(q.origin_crs) + (":</b>\n"@ + ("<pre>"@ + table
                    + "</pre>"@)));
            } else {
                let to = " to "@ + join(code_texts(q.destinations), ", "@) + ":</b>\n"@;
                let head = from + escaped(q.origin_crs) + to + "<pre>"@;
                lemma_holds(head, table, "</pre>"@, html_lines(rows)[i]);
                assert(text =~= head + table + "</pre>"@);
                assert(text =~= from + escaped(q.origin_crs) + (to + ("<pre>"@ + table
                    + "</pre>"@)));
            }
        },
        Format::Plain => {
            let table = join(plain_lines(rows), "\n"@);
            lemma_join_holds(plain_lines(rows), "\n"@, i);
            let head = (if q.destinations.len() == 0 {
                q.origin_crs + " departures:"@
            } else {
                q.origin_crs + " to "@ + join(q.destinations, ", "@) + ":"@
            }) + "\n"@;
            lemma_holds(head, table, empty, plain_lines(rows)[i]);
            assert(text =~= head + table + empty);
            assert(text.take(q.origin_crs.len() as int) =~= q.origin_crs);
        },
    }
}

/// Where nothing could be fetched the answer holds the error; where nothing goes
/// there it names the station.
pub proof fn empty_boards_say_so(
    q: BoardQueryView,
    services: Seq<ServiceView>,
    e: DarwinErrorView,
)
    requires
        listed(q, services).len() == 0,
    ensures
        holds(departures_text(q, Err(e)), escaped(e.text())),
        q.format == Format::Plain ==> holds(departures_text(q, Ok(services)), q.origin_crs),
        q.format == Format::Html ==> holds(departures_text(q, Ok(services)), escaped(q.origin_crs)),
        starts_with(departures_text(q, Ok(services)), "No departures"@),
{
    let empty = Seq::<char>::empty();
    assert(departures_text(q, Err(e)) =~= "Could not fetch departures: "@ + escaped(e.text())
        + empty);
    reveal_strlit("No departures");
    reveal_strlit("No departures found from <b>");
    reveal_strlit("No departures found from ");
    reveal_strlit("No departures from <b>");
    reveal_strlit("No departures from ");
    let text = departures_text(q, Ok(services));
    assert(text.take(13) =~= "No departures"@);
    if services.len() == 0 {
        assert(text == crate::handlers::departures::no_departures(q));
    } else {
        assert(text == crate::handlers::departures::no_departures_there(q));
    }
}

} // verus!
