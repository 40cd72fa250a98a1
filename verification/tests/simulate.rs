use waiting_for_a_signal::darwin::simulate::{
    crs_hash, generate_services, pick_idx, rng, SimulatedDepartureSource, StationState,
};
use waiting_for_a_signal::darwin::Service;

fn board(
    sim: &mut SimulatedDepartureSource,
    crs: &str,
    rows: u32,
    filter: Option<&str>,
) -> Vec<Service> {
    sim.get_departure_board(crs, rows, &filter.map(str::to_string)).expect("ok")
}

#[test]
fn returns_services_for_any_crs() {
    let mut sim = SimulatedDepartureSource::new();
    let services = board(&mut sim, "WAT", 5, None);
    assert_eq!(services.len(), 5);
    for svc in &services {
        assert!(!svc.service_id.is_empty());
        assert!(!svc.std.is_empty());
        assert!(!svc.destination_crs.is_empty());
    }
}

#[test]
fn destination_never_equals_origin() {
    let mut sim = SimulatedDepartureSource::new();
    let services = board(&mut sim, "RDG", 10, None);
    for svc in &services {
        assert_ne!(svc.destination_crs, "RDG", "destination should not equal origin");
    }
}

#[test]
fn mutation_changes_state_over_time() {
    let mut sim = SimulatedDepartureSource::new();
    let mut snapshots = Vec::new();
    for _ in 0..15 {
        let svcs = board(&mut sim, "CLJ", 6, None);
        let etds: Vec<String> = svcs.iter().map(|s| s.etd.clone()).collect();
        snapshots.push(etds);
    }
    let changed = snapshots.windows(2).any(|w| w[0] != w[1]);
    assert!(changed, "simulator should introduce changes over multiple calls");
}

#[test]
fn consistent_service_ids_across_calls() {
    let mut sim = SimulatedDepartureSource::new();
    let first = board(&mut sim, "KGX", 5, None);
    let second = board(&mut sim, "KGX", 5, None);
    let ids_first: Vec<&str> = first.iter().map(|s| s.service_id.as_str()).collect();
    let ids_second: Vec<&str> = second.iter().map(|s| s.service_id.as_str()).collect();
    assert_eq!(ids_first, ids_second, "service IDs should be stable across calls");
}

#[test]
fn filter_crs_returns_only_matching_destinations() {
    let mut sim = SimulatedDepartureSource::new();
    // Generate enough rows that at least some will match the filter.
    let services = board(&mut sim, "WAT", 20, Some("RDG"));
    for svc in &services {
        assert_eq!(
            svc.destination_crs.to_uppercase(),
            "RDG",
            "filter_crs should exclude non-matching destinations"
        );
    }
}

#[test]
fn splitmix_values() {
    assert_eq!(rng(0), 0xe220a8397b1dcdaf);
    assert_eq!(rng(1), 0x910a2dec89025cc1);
    assert_eq!(pick_idx(10, 0), (0xe220a8397b1dcdafu64 as usize) % 10);
}

#[test]
fn hash_of_a_code() {
    assert_eq!(crs_hash(""), 0xcbf29ce484222325);
    let one = 0xcbf29ce484222325u64.wrapping_mul(0x100000001b3).wrapping_add(65);
    assert_eq!(crs_hash("A"), one);
    assert_eq!(crs_hash("AB"), one.wrapping_mul(0x100000001b3).wrapping_add(66));
}

#[test]
fn first_train_leaves_in_two_minutes() {
    let s = generate_services("WAT", 3, 42, 23, 58);
    assert_eq!((s[0].std_h, s[0].std_m), (0, 0));
    let t = generate_services("WAT", 3, 42, 9, 30);
    assert_eq!((t[0].std_h, t[0].std_m), (9, 32));
    assert_eq!(s[1].service_id, t[1].service_id);
    assert_eq!(s[1].service_id.len(), 8);
    let id = rng(rng_arg(42, 301)) as u32;
    assert_eq!(t[1].service_id, format!("{:08X}", id));
}

fn rng_arg(seed: u64, n: u64) -> u64 {
    seed ^ n
}

#[test]
fn board_of_a_station_at_a_time() {
    let mut sim = SimulatedDepartureSource::new();
    let all = sim.get_departure_board_at("wat", 4, &None, 9, 30);
    assert_eq!(all.len(), 4);
    assert!(all.iter().all(|s| s.origin_crs == "WAT"));
    assert_eq!(all[0].std, "09:32");
    assert_eq!(all[0].etd, "On time");
    // The station keeps its trains, whatever the time.
    let later = sim.get_departure_board_at("WAT", 9, &None, 17, 0);
    assert_eq!(later.len(), 4);
    assert_eq!(later[0].std, "09:32");
}

#[test]
fn every_third_call_changes_one_train() {
    let mut state = StationState::new("CLJ", 6, 9, 30);
    let seed = state.crs_seed;
    let show = |v: &Vec<Service>| -> Vec<String> {
        v.iter().map(|s| format!("{:?}{:?}{}{:?}", s.etd, s.platform, s.is_cancelled, s.delay_reason)).collect()
    };
    let a = show(&state.tick());
    let b = show(&state.tick());
    assert_eq!(a, b);
    let platform_before = state.services[pick_idx(6, rng(seed ^ 1))].platform.clone();
    state.tick();
    // The first change is one of platform, and leads to another one.
    assert_ne!(state.services[pick_idx(6, rng(seed ^ 1))].platform, platform_before);
    // The second one is a cancellation.
    for _ in 0..3 {
        state.tick();
    }
    assert!(state.services[pick_idx(6, rng(seed ^ 2))].is_cancelled);
}

#[test]
fn delayed_train_shows_the_expected_time() {
    let mut state = StationState::new("CLJ", 1, 23, 40);
    state.services[0].etd_offset_min = 25;
    let shown = state.services[0].to_service();
    assert_eq!(shown.std, "23:42");
    assert_eq!(shown.etd, "00:07");
    state.services[0].is_cancelled = true;
    assert_eq!(state.services[0].to_service().etd, "Cancelled");
}

#[test]
fn room_for_one_more_call() {
    let mut state = StationState::new("CLJ", 1, 9, 0);
    assert!(state.has_room());
    state.call_count = u64::MAX;
    assert!(!state.has_room());
    let sim = SimulatedDepartureSource::new();
    assert!(sim.has_room("WAT", 20, 9, 0));
}

#[test]
fn what_is_said_of_a_train_agrees_after_any_number_of_calls() {
    let mut state = StationState::new("CLJ", 4, 9, 30);
    let ids: Vec<String> = state.services.iter().map(|s| s.service_id.clone()).collect();
    for _ in 0..300 {
        let board = state.tick();
        for (i, s) in state.services.iter().enumerate() {
            assert_eq!(s.service_id, ids[i]);
            assert_eq!(s.is_cancelled, s.cancel_reason.is_some());
            assert_eq!(s.etd_offset_min > 0, s.delay_reason.is_some());
            assert!(!(s.is_cancelled && s.etd_offset_min > 0));
            let number: u32 = s.platform.parse().unwrap();
            assert!((1..=10).contains(&number));
            assert_eq!(board[i].etd == "Cancelled", s.is_cancelled);
        }
    }
}
