//! What is made of the boards that Darwin sends, and how they are asked for.

use crate::darwin::rest::{
    all_codes, service_of_item, services_of_board, services_of_items, with_codes, ServiceItemView,
};
use crate::darwin::simulate::{
    board_of, departure_minute, ending_at, first_minute, hex, mutated, new_station, on_boards, picked,
    splitmix, ticked, train, SimServiceView, StationStateView,
};
use crate::darwin::{board_address, capture_name, leaving_from, DarwinErrorView, ServiceView};
use crate::text::{decimal, holds, same_ignoring_case, trim};
use crate::unicode::uppercase;
use vstd::prelude::*;
use vstd::string::*;

verus! {

// ---------------------------------------------------------------------------
// Boards
// ---------------------------------------------------------------------------

/// What an item says of a train is taken as it is: times, platform, cancellation
/// and reasons. The destination is the first one. An estimate that is missing is
/// unknown, and an item without an ID is left out.
pub proof fn items_are_taken_as_they_are(item: ServiceItemView)
    ensures
        item.service_id.len() == 0 <==> service_of_item(item) is None,
        item.service_id.len() > 0 ==> {
            let s = service_of_item(item)->0;
            &&& s.service_id == item.service_id
            &&& s.std == item.std
            &&& item.etd.len() > 0 ==> s.etd == item.etd
            &&& item.etd.len() == 0 ==> s.etd == "Unknown"@
            &&& s.platform == item.platform
            &&& s.is_cancelled == item.is_cancelled
            &&& s.cancel_reason == item.cancel_reason
            &&& s.delay_reason == item.delay_reason
            &&& item.destination.len() > 0 ==> s.destination_name == item.destination[0].0
                && s.destination_crs == item.destination[0].1
            &&& item.destination.len() == 0 ==> s.destination_name.len() == 0
                && s.destination_crs.len() == 0
            &&& s.calling_point_crs == all_codes(item.subsequent_calling_points)
        },
{
}

/// The items of a board are taken one by one, in order; no board has no services.
pub proof fn items_are_taken_one_by_one(
    a: Seq<ServiceItemView>,
    b: Seq<ServiceItemView>,
    item: ServiceItemView,
)
    ensures
        services_of_items(a + b) == services_of_items(a) + services_of_items(b),
        service_of_item(item) is Some ==> services_of_items(seq![item]) == seq![
            service_of_item(item)->0,
        ],
        service_of_item(item) is None ==> services_of_items(seq![item]).len() == 0,
        services_of_board(None).len() == 0,
        services_of_board(Some(a)) == services_of_items(a),
    decreases b.len(),
{
    let one = seq![item];
    assert(one.drop_last() =~= Seq::<ServiceItemView>::empty());
    assert(services_of_items(one.drop_last()) =~= Seq::<ServiceView>::empty());
    assert(service_of_item(item) is Some ==> services_of_items(one) =~= seq![
        service_of_item(item)->0,
    ]);
    if b.len() == 0 {
        assert(a + b =~= a);
        assert(services_of_items(a) + services_of_items(b) =~= services_of_items(a));
    } else {
        items_are_taken_one_by_one(a, b.drop_last(), item);
        assert((a + b).drop_last() =~= a + b.drop_last());
        assert(services_of_items(a + b) =~= services_of_items(a) + services_of_items(b));
    }
}

/// The calling points of all legs of a train are taken one by one, in order,
/// without blanks around them and in upper case; empty ones are left out.
pub proof fn calls_are_taken_one_by_one(
    so_far: Seq<Seq<char>>,
    a: Seq<Seq<char>>,
    point: Seq<char>,
    groups: Seq<Seq<Seq<char>>>,
)
    ensures
        with_codes(so_far, Seq::empty()) == so_far,
        uppercase(trim(point)).len() > 0 ==> with_codes(so_far, a.push(point)) == with_codes(
            so_far,
            a,
        ).push(uppercase(trim(point))),
        uppercase(trim(point)).len() == 0 ==> with_codes(so_far, a.push(point)) == with_codes(
            so_far,
            a,
        ),
        all_codes(Seq::empty()).len() == 0,
        all_codes(groups.push(a)) == with_codes(all_codes(groups), a),
{
    assert(a.push(point).drop_last() =~= a);
    assert(groups.push(a).drop_last() =~= groups);
}

/// The services of a board that was fetched for a station leave from it, and are
/// otherwise as they came.
pub proof fn origin_is_all_that_is_entered(services: Seq<ServiceView>, crs: Seq<char>, i: int)
    requires
        0 <= i < services.len(),
    ensures
        leaving_from(services, crs).len() == services.len(),
        ({
            let s = leaving_from(services, crs)[i];
            &&& s.origin_crs == crs
            &&& s.service_id == services[i].service_id
            &&& s.std == services[i].std
            &&& s.etd == services[i].etd
            &&& s.platform == services[i].platform
            &&& s.destination_crs == services[i].destination_crs
            &&& s.destination_name == services[i].destination_name
            &&& s.is_cancelled == services[i].is_cancelled
            &&& s.cancel_reason == services[i].cancel_reason
            &&& s.delay_reason == services[i].delay_reason
            &&& s.calling_point_crs == services[i].calling_point_crs
        }),
{
}

/// The address of a board starts with the endpoint, names the station and the
/// number of rows, and names the destination exactly where there is a filter.
pub proof fn address_says_what_is_asked_for(
    endpoint: Seq<char>,
    crs: Seq<char>,
    num_rows: u32,
    f: Seq<char>,
)
    ensures
        board_address(endpoint, crs, num_rows, None) == endpoint + "/GetDepBoardWithDetails/"@ + crs
            + "?numRows="@ + decimal(num_rows as nat),
        board_address(endpoint, crs, num_rows, Some(f)) == board_address(
            endpoint,
            crs,
            num_rows,
            None,
        ) + "&filterCrs="@ + f,
{
    assert(board_address(endpoint, crs, num_rows, None) =~= endpoint + "/GetDepBoardWithDetails/"@
        + crs + "?numRows="@ + decimal(num_rows as nat));
    assert(board_address(endpoint, crs, num_rows, Some(f)) =~= board_address(
        endpoint,
        crs,
        num_rows,
        None,
    ) + "&filterCrs="@ + f);
}

/// The name of a capture starts with its instant and names the station, the number
/// of rows and the filter, so that captures of different requests differ.
pub proof fn capture_names_describe_the_request(
    stamp: Seq<char>,
    crs: Seq<char>,
    num_rows: u32,
    f: Seq<char>,
)
    ensures
        ({
            let bare = capture_name(stamp, crs, num_rows, None);
            let filtered = capture_name(stamp, crs, num_rows, Some(f));
            &&& bare.take(stamp.len() as int) == stamp
            &&& holds(bare, crs)
            &&& holds(bare, decimal(num_rows as nat))
            &&& holds(filtered, crs)
            &&& holds(filtered, decimal(num_rows as nat))
            &&& holds(filtered, f)
            &&& filtered.len() == bare.len() + 7 + f.len()
        }),
{
    reveal_strlit("_filter");
    let rows = decimal(num_rows as nat);
    let end = ".json.gz"@;
    let bare = capture_name(stamp, crs, num_rows, None);
    let filtered = capture_name(stamp, crs, num_rows, Some(f));
    assert(bare.take(stamp.len() as int) =~= stamp);
    assert(bare =~= (stamp + "_"@) + crs + ("_rows"@ + rows + end));
    assert(bare =~= (stamp + "_"@ + crs + "_rows"@) + rows + end);
    assert(filtered =~= (stamp + "_"@) + crs + ("_rows"@ + rows + "_filter"@ + f + end));
    assert(filtered =~= (stamp + "_"@ + crs + "_rows"@) + rows + ("_filter"@ + f + end));
    assert(filtered =~= (stamp + "_"@ + crs + "_rows"@ + rows + "_filter"@) + f + end);
}

/// The text of an error holds what went wrong.
pub proof fn errors_say_what_went_wrong(e: Seq<char>)
    ensures
        holds(DarwinErrorView::Http(e).text(), e),
        holds(DarwinErrorView::Parse(e).text(), e),
{
    let empty = Seq::<char>::empty();
    assert("HTTP error: "@ + e =~= "HTTP error: "@ + e + empty);
    assert("Parse error: "@ + e =~= "Parse error: "@ + e + empty);
}

// ---------------------------------------------------------------------------
// The simulator
// ---------------------------------------------------------------------------

proof fn lemma_two_minutes_later(hour: int, minute: int)
    requires
        0 <= hour < 24,
        0 <= minute < 60,
    ensures
        ({
            let start = first_minute(hour, minute);
            &&& start / 60 % 24 * 60 + start % 60 == (hour * 60 + minute + 2) % 1440
        }),
{
}

proof fn lemma_first_departure(seed: u64, start: int)
    ensures
        departure_minute(seed, start, 0) == start,
{
    let gap: int = picked(5, splitmix(seed ^ ((0int + 200) as u64))) + 8;
    assert(0 * gap == 0) by (nonlinear_arith);
}

/// A station starts with as many trains as rows were asked for, all on time and
/// none cancelled, the first of them two minutes from now, past midnight too.
pub proof fn stations_start_with_punctual_trains(
    crs: Seq<char>,
    num_rows: nat,
    hour: int,
    minute: int,
    i: int,
)
    requires
        0 <= hour < 24,
        0 <= minute < 60,
        0 <= i < num_rows,
    ensures
        ({
            let first = new_station(crs, num_rows, hour, minute);
            &&& first.services.len() == num_rows
            &&& first.call_count == 0
            &&& first.services[i].etd_offset_min == 0
            &&& !first.services[i].is_cancelled
            &&& first.services[i].cancel_reason is None
            &&& first.services[i].delay_reason is None
            &&& first.services[0].std_h * 60 + first.services[0].std_m == (hour * 60 + minute + 2)
                % 1440
        }),
{
    let first = new_station(crs, num_rows, hour, minute);
    let start = first_minute(hour, minute);
    lemma_two_minutes_later(hour, minute);
    lemma_first_departure(first.crs_seed, start);
    assert(first.services[i] == train(crs, first.crs_seed, start, i));
    assert(first.services[0] == train(crs, first.crs_seed, start, 0));
}

/// A delay is five to twenty minutes, in steps of five, and comes with a reason. A
/// longer one adds five or ten to a delay and touches no train that is on time.
/// A cancelled train stays so until it recovers, and then it is as planned.
pub proof fn changes_are_plausible(s: SimServiceView, seed: u64, phase: u64)
    ensures
        ({
            let r = mutated(s, seed, phase);
            &&& phase % 5 == 0 && !s.is_cancelled ==> r.delay_reason is Some && (r.etd_offset_min
                == 5 || r.etd_offset_min == 10 || r.etd_offset_min == 15 || r.etd_offset_min == 20)
                && r.platform == s.platform && !r.is_cancelled
            &&& phase % 5 == 1 ==> r.etd_offset_min == s.etd_offset_min && r.is_cancelled
                == s.is_cancelled
            &&& phase % 5 == 2 ==> r.is_cancelled && r.platform == s.platform
            &&& phase % 5 == 2 && !s.is_cancelled ==> r.cancel_reason is Some && r.etd_offset_min
                == 0 && r.delay_reason is None
            &&& phase % 5 == 3 && s.etd_offset_min > 0 ==> r.etd_offset_min == s.etd_offset_min + 5
                || r.etd_offset_min == s.etd_offset_min + 10
            &&& phase % 5 == 3 && s.etd_offset_min <= 0 ==> r == s
            &&& phase % 5 == 4 ==> !r.is_cancelled && r.etd_offset_min == 0
                && r.delay_reason is None && r.cancel_reason is None && r.platform == s.platform
            &&& s.is_cancelled && phase % 5 != 4 && s.etd_offset_min == 0 ==> r == s
        }),
{
}

/// A call changes one train at most.
pub proof fn one_train_changes_at_a_time(state: StationStateView, i: int, j: int)
    requires
        state.services.len() <= u32::MAX,
        0 <= i < j < state.services.len(),
    ensures
        ticked(state).services[i] == state.services[i] || ticked(state).services[j]
            == state.services[j],
        ticked(state).call_count == state.call_count + 1,
        ticked(state).crs_seed == state.crs_seed,
{
}

/// A board shows the trains of the station in order, from the station, and behind a
/// filter only those that end there.
pub proof fn boards_show_the_station(
    a: Seq<ServiceView>,
    b: Seq<ServiceView>,
    s: ServiceView,
    f: Seq<char>,
    state: StationStateView,
    crs: Seq<char>,
)
    ensures
        ending_at(a + b, f) == ending_at(a, f) + ending_at(b, f),
        same_ignoring_case(s.destination_crs, f) ==> ending_at(seq![s], f) == seq![s],
        !same_ignoring_case(s.destination_crs, f) ==> ending_at(seq![s], f).len() == 0,
        board_of(state, crs, None) == leaving_from(on_boards(state.services), crs),
        board_of(state, crs, Some(f)) == leaving_from(
            ending_at(on_boards(state.services), f),
            crs,
        ),
    decreases b.len(),
{
    let one = seq![s];
    assert(one.drop_last() =~= Seq::<ServiceView>::empty());
    assert(ending_at(one.drop_last(), f) =~= Seq::<ServiceView>::empty());
    assert(same_ignoring_case(s.destination_crs, f) ==> ending_at(one, f) =~= one);
    if b.len() == 0 {
        assert(a + b =~= a);
        assert(ending_at(a, f) + ending_at(b, f) =~= ending_at(a, f));
    } else {
        boards_show_the_station(a, b.drop_last(), s, f, state, crs);
        assert((a + b).drop_last() =~= a + b.drop_last());
        assert(ending_at(a + b, f) =~= ending_at(a, f) + ending_at(b, f));
    }
}

/// A train is shown with its own ID, destination, platform and reasons.
pub proof fn trains_are_shown_as_they_are(services: Seq<SimServiceView>, i: int)
    requires
        0 <= i < services.len(),
    ensures
        on_boards(services).len() == services.len(),
        on_boards(services)[i].service_id == services[i].service_id,
        on_boards(services)[i].destination_crs == services[i].destination_crs,
        on_boards(services)[i].destination_name == services[i].destination_name,
        on_boards(services)[i].platform == Some(services[i].platform),
        on_boards(services)[i].is_cancelled == services[i].is_cancelled,
        on_boards(services)[i].cancel_reason == services[i].cancel_reason,
        on_boards(services)[i].delay_reason == services[i].delay_reason,
{
}

/// The train at a position leaves 8 to 12 minutes after the first one for each
/// place in between.
pub proof fn trains_leave_in_regular_order(seed: u64, start: int, i: int)
    requires
        0 <= i,
    ensures
        start + 8 * i <= departure_minute(seed, start, i) <= start + 12 * i,
{
    let gap: int = picked(5, splitmix(seed ^ ((i + 200) as u64))) + 8;
    assert(8 <= gap <= 12);
    assert(8 * i <= i * gap <= 12 * i) by (nonlinear_arith)
        requires
            0 <= i,
            8 <= gap <= 12,
    ;
}

/// The ID of a train has as many characters as asked for, each of them one of the
/// digits from 0 to F.
pub proof fn ids_are_in_base_sixteen(x: u32, n: nat)
    ensures
        hex(x, n).len() == n,
        forall|i: int|
            0 <= i < n ==> '0' <= #[trigger] hex(x, n)[i] <= '9' || 'A' <= hex(x, n)[i] <= 'F',
    decreases n,
{
    if n > 0 {
        ids_are_in_base_sixteen(x / 16, (n - 1) as nat);
        let rest = hex(x / 16, (n - 1) as nat);
        assert forall|i: int| 0 <= i < n implies '0' <= #[trigger] hex(x, n)[i] <= '9' || 'A'
            <= hex(x, n)[i] <= 'F' by {
            if i < rest.len() {
                assert(hex(x, n)[i] == rest[i]);
            }
        }
    }
}

} // verus!
