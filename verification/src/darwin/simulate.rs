//! Simulated Darwin departure source for local testing.
//!
//! Returns plausible-looking UK train departures for any CRS code and
//! applies mutations on roughly every third poll so the poller generates
//! real notifications. No Darwin account or internet connection is required.
//!
//! Enable with `simulate = true` in the `[darwin]` config section.

use crate::clock::local_hour_minute;
use crate::darwin::{leaving_from, set_origin, Service, ServiceView};
use crate::table::{
    distinct_keys, key_position, lemma_key_position, lemma_key_position_is,
    lemma_with_pair_distinct, lookup_after_insertion, value_of, with_pair, TextMap,
};
use crate::text::{
    ascii_lower, clone_opt, matches_ignoring_case, opt_text, same, same_ignoring_case,
    two_digit_text, two_digits, views,
};
use crate::unicode::{to_upper, uppercase};
use vstd::prelude::*;
use vstd::string::*;
use vstd::utf8::encode_utf8;

verus! {

// ---------------------------------------------------------------------------
// Data pools
// ---------------------------------------------------------------------------

pub const DESTINATION_COUNT: usize = 20;

pub const PLATFORM_COUNT: usize = 10;

pub const DELAY_REASON_COUNT: usize = 7;

pub const CANCEL_REASON_COUNT: usize = 4;

/// Name and code of a destination.
pub open spec fn destination_at(i: int) -> (Seq<char>, Seq<char>) {
    if i == 0 {
        ("Reading"@, "RDG"@)
    } else if i == 1 {
        ("Surbiton"@, "SUR"@)
    } else if i == 2 {
        ("Wimbledon"@, "WIM"@)
    } else if i == 3 {
        ("Woking"@, "WOK"@)
    } else if i == 4 {
        ("Guildford"@, "GLD"@)
    } else if i == 5 {
        ("Basingstoke"@, "BSK"@)
    } else if i == 6 {
        ("Southampton Central"@, "SOU"@)
    } else if i == 7 {
        ("Portsmouth Harbour"@, "PMH"@)
    } else if i == 8 {
        ("Windsor & Eton Riverside"@, "WNR"@)
    } else if i == 9 {
        ("Clapham Junction"@, "CLJ"@)
    } else if i == 10 {
        ("London Waterloo"@, "WAT"@)
    } else if i == 11 {
        ("London Paddington"@, "PAD"@)
    } else if i == 12 {
        ("London Victoria"@, "VIC"@)
    } else if i == 13 {
        ("London Bridge"@, "LBG"@)
    } else if i == 14 {
        ("London Kings Cross"@, "KGX"@)
    } else if i == 15 {
        ("Cambridge"@, "CBG"@)
    } else if i == 16 {
        ("Brighton"@, "BTN"@)
    } else if i == 17 {
        ("York"@, "YRK"@)
    } else if i == 18 {
        ("Manchester Piccadilly"@, "MAN"@)
    } else {
        ("Edinburgh"@, "EDB"@)
    }
}

fn destination(i: usize) -> (r: (&'static str, &'static str))
    ensures
        r.0@ == destination_at(i as int).0,
        r.1@ == destination_at(i as int).1,
{
    if i == 0 {
        ("Reading", "RDG")
    } else if i == 1 {
        ("Surbiton", "SUR")
    } else if i == 2 {
        ("Wimbledon", "WIM")
    } else if i == 3 {
        ("Woking", "WOK")
    } else if i == 4 {
        ("Guildford", "GLD")
    } else if i == 5 {
        ("Basingstoke", "BSK")
    } else if i == 6 {
        ("Southampton Central", "SOU")
    } else if i == 7 {
        ("Portsmouth Harbour", "PMH")
    } else if i == 8 {
        ("Windsor & Eton Riverside", "WNR")
    } else if i == 9 {
        ("Clapham Junction", "CLJ")
    } else if i == 10 {
        ("London Waterloo", "WAT")
    } else if i == 11 {
        ("London Paddington", "PAD")
    } else if i == 12 {
        ("London Victoria", "VIC")
    } else if i == 13 {
        ("London Bridge", "LBG")
    } else if i == 14 {
        ("London Kings Cross", "KGX")
    } else if i == 15 {
        ("Cambridge", "CBG")
    } else if i == 16 {
        ("Brighton", "BTN")
    } else if i == 17 {
        ("York", "YRK")
    } else if i == 18 {
        ("Manchester Piccadilly", "MAN")
    } else {
        ("Edinburgh", "EDB")
    }
}

/// The name of a platform.
pub open spec fn platform_at(i: int) -> Seq<char> {
    if i == 0 {
        "1"@
    } else if i == 1 {
        "2"@
    } else if i == 2 {
        "3"@
    } else if i == 3 {
        "4"@
    } else if i == 4 {
        "5"@
    } else if i == 5 {
        "6"@
    } else if i == 6 {
        "7"@
    } else if i == 7 {
        "8"@
    } else if i == 8 {
        "9"@
    } else {
        "10"@
    }
}

fn platform(i: usize) -> (r: &'static str)
    ensures
        r@ == platform_at(i as int),
{
    if i == 0 {
        "1"
    } else if i == 1 {
        "2"
    } else if i == 2 {
        "3"
    } else if i == 3 {
        "4"
    } else if i == 4 {
        "5"
    } else if i == 5 {
        "6"
    } else if i == 6 {
        "7"
    } else if i == 7 {
        "8"
    } else if i == 8 {
        "9"
    } else {
        "10"
    }
}

/// A reason for a delay.
pub open spec fn delay_reason_at(i: int) -> Seq<char> {
    if i == 0 {
        "signalling problems near Clapham Junction"@
    } else if i == 1 {
        "a train fault"@
    } else if i == 2 {
        "staff shortage"@
    } else if i == 3 {
        "earlier congestion on the line"@
    } else if i == 4 {
        "awaiting a late-running connection"@
    } else if i == 5 {
        "overhead line damage"@
    } else {
        "a person on the tracks"@
    }
}

fn delay_reason(i: usize) -> (r: &'static str)
    ensures
        r@ == delay_reason_at(i as int),
{
    if i == 0 {
        "signalling problems near Clapham Junction"
    } else if i == 1 {
        "a train fault"
    } else if i == 2 {
        "staff shortage"
    } else if i == 3 {
        "earlier congestion on the line"
    } else if i == 4 {
        "awaiting a late-running connection"
    } else if i == 5 {
        "overhead line damage"
    } else {
        "a person on the tracks"
    }
}

/// A reason for a cancellation.
pub open spec fn cancel_reason_at(i: int) -> Seq<char> {
    if i == 0 {
        "a train fault"@
    } else if i == 1 {
        "a member of staff being unavailable"@
    } else if i == 2 {
        "operational requirements"@
    } else {
        "an earlier incident causing knock-on delays"@
    }
}

fn cancel_reason(i: usize) -> (r: &'static str)
    ensures
        r@ == cancel_reason_at(i as int),
{
    if i == 0 {
        "a train fault"
    } else if i == 1 {
        "a member of staff being unavailable"
    } else if i == 2 {
        "operational requirements"
    } else {
        "an earlier incident causing knock-on delays"
    }
}

// ---------------------------------------------------------------------------
// Deterministic pseudo-randomness (splitmix64)
// ---------------------------------------------------------------------------

/// One step of splitmix64.
pub open spec fn splitmix(seed: u64) -> u64 {
    let a = seed.wrapping_add(0x9e3779b97f4a7c15u64);
    let b = (a ^ (a >> 30)).wrapping_mul(0xbf58476d1ce4e5b9u64);
    let c = (b ^ (b >> 27)).wrapping_mul(0x94d049bb133111ebu64);
    c ^ (c >> 31)
}

pub fn rng(seed: u64) -> (r: u64)
    ensures
        r == splitmix(seed),
{
    let a = seed.wrapping_add(0x9e3779b97f4a7c15u64);
    let b = (a ^ (a >> 30)).wrapping_mul(0xbf58476d1ce4e5b9u64);
    let c = (b ^ (b >> 27)).wrapping_mul(0x94d049bb133111ebu64);
    c ^ (c >> 31)
}

/// The position that a seed picks from a pool.
pub open spec fn picked(pool_len: usize, seed: u64) -> usize {
    ((splitmix(seed) as usize) % pool_len) as usize
}

pub fn pick_idx(pool_len: usize, seed: u64) -> (r: usize)
    requires
        pool_len > 0,
    ensures
        r == picked(pool_len, seed),
        r < pool_len,
{
    (rng(seed) as usize) % pool_len
}

/// A stable hash of a code: the bytes of the text, one after the other.
pub open spec fn hash_of(bytes: Seq<u8>) -> u64
    decreases bytes.len(),
{
    if bytes.len() == 0 {
        0xcbf29ce484222325
    } else {
        hash_of(bytes.drop_last()).wrapping_mul(0x100000001b3u64).wrapping_add(bytes.last() as u64)
    }
}

pub fn crs_hash(crs: &str) -> (r: u64)
    ensures
        r == hash_of(encode_utf8(crs@)),
{
    let bytes = crs.as_bytes();
    let mut acc: u64 = 0xcbf29ce484222325;
    let n = bytes.len();
    let mut i: usize = 0;
    assert(bytes@.take(0) =~= Seq::<u8>::empty());
    while i < n
        invariant
            0 <= i <= n,
            n == bytes@.len(),
            acc == hash_of(bytes@.take(i as int)),
        decreases n - i,
    {
        assert(bytes@.take(i + 1).drop_last() =~= bytes@.take(i as int));
        acc = acc.wrapping_mul(0x100000001b3u64).wrapping_add(bytes[i] as u64);
        i += 1;
    }
    assert(bytes@.take(i as int) =~= bytes@);
    acc
}

/// The sign of a number below sixteen.
pub open spec fn hex_digit(d: u32) -> char {
    if d < 10 {
        (48 + d) as char
    } else {
        (55 + d) as char
    }
}

/// The last digits of a number in base sixteen.
pub open spec fn hex(x: u32, digits: nat) -> Seq<char>
    decreases digits,
{
    if digits == 0 {
        Seq::empty()
    } else {
        hex(x / 16, (digits - 1) as nat).push(hex_digit(x % 16))
    }
}

fn hex_char(d: u32) -> (r: char)
    requires
        d < 16,
    ensures
        r == hex_digit(d),
{
    if d < 10 {
        (48u8 + d as u8) as char
    } else {
        (55u8 + d as u8) as char
    }
}

fn hex_text(x: u32, digits: u32) -> (r: String)
    ensures
        r@ == hex(x, digits as nat),
    decreases digits,
{
    if digits == 0 {
        String::new()
    } else {
        let mut s = hex_text(x / 16, digits - 1);
        s.push(hex_char(x % 16));
        s
    }
}

// ---------------------------------------------------------------------------
// Services
// ---------------------------------------------------------------------------

/// A train of the simulation.
#[derive(Debug)]
pub struct SimService {
    pub service_id: String,
    pub std_h: u32,
    pub std_m: u32,
    /// Positive = delayed by this many minutes.
    pub etd_offset_min: u32,
    pub platform: String,
    pub destination_crs: String,
    pub destination_name: String,
    pub is_cancelled: bool,
    pub cancel_reason: Option<String>,
    pub delay_reason: Option<String>,
}

#[verifier::ext_equal]
pub struct SimServiceView {
    pub service_id: Seq<char>,
    pub std_h: int,
    pub std_m: int,
    pub etd_offset_min: int,
    pub platform: Seq<char>,
    pub destination_crs: Seq<char>,
    pub destination_name: Seq<char>,
    pub is_cancelled: bool,
    pub cancel_reason: Option<Seq<char>>,
    pub delay_reason: Option<Seq<char>>,
}

impl View for SimService {
    type V = SimServiceView;

    open spec fn view(&self) -> SimServiceView {
        SimServiceView {
            service_id: self.service_id@,
            std_h: self.std_h as int,
            std_m: self.std_m as int,
            etd_offset_min: self.etd_offset_min as int,
            platform: self.platform@,
            destination_crs: self.destination_crs@,
            destination_name: self.destination_name@,
            is_cancelled: self.is_cancelled,
            cancel_reason: opt_text(self.cancel_reason),
            delay_reason: opt_text(self.delay_reason),
        }
    }
}

/// Hours and minutes, two digits each.
pub open spec fn hour_minute(h: int, m: int) -> Seq<char> {
    two_digits(h as nat) + ":"@ + two_digits(m as nat)
}

impl SimServiceView {
    /// The minute at which the train is expected to leave.
    pub open spec fn expected(self) -> int {
        self.std_h * 60 + self.std_m + self.etd_offset_min
    }

    /// The expected minute is within what the clock can count.
    pub open spec fn fits(self) -> bool {
        0 <= self.std_h < 24 && 0 <= self.std_m < 60 && 0 <= self.etd_offset_min && self.expected()
            <= u32::MAX
    }

    /// The train as the board shows it. The origin is left open.
    pub open spec fn on_board(self) -> ServiceView {
        ServiceView {
            service_id: self.service_id,
            origin_crs: Seq::empty(),
            std: hour_minute(self.std_h, self.std_m),
            etd: if self.is_cancelled {
                "Cancelled"@
            } else if self.etd_offset_min == 0 {
                "On time"@
            } else {
                hour_minute(self.expected() / 60 % 24, self.expected() % 60)
            },
            platform: Some(self.platform),
            destination_crs: self.destination_crs,
            destination_name: self.destination_name,
            is_cancelled: self.is_cancelled,
            cancel_reason: self.cancel_reason,
            delay_reason: self.delay_reason,
            calling_point_crs: Seq::empty(),
        }
    }
}

fn clock_face(h: u32, m: u32) -> (r: String)
    ensures
        r@ == hour_minute(h as int, m as int),
{
    let mut s = two_digit_text(h as u64);
    s.append(":");
    s.append(two_digit_text(m as u64).as_str());
    s
}

impl SimService {
    pub fn to_service(&self) -> (r: Service)
        requires
            self@.fits(),
        ensures
            r@ == self@.on_board(),
    {
        let std = clock_face(self.std_h, self.std_m);
        let etd = if self.is_cancelled {
            "Cancelled".to_string()
        } else if self.etd_offset_min == 0 {
            "On time".to_string()
        } else {
            let total = self.std_h * 60 + self.std_m + self.etd_offset_min;
            clock_face((total / 60) % 24, total % 60)
        };
        let r = Service {
            service_id: self.service_id.clone(),
            origin_crs: String::new(),
            std,
            etd,
            platform: Some(self.platform.clone()),
            destination_crs: self.destination_crs.clone(),
            destination_name: self.destination_name.clone(),
            is_cancelled: self.is_cancelled,
            cancel_reason: clone_opt(&self.cancel_reason),
            delay_reason: clone_opt(&self.delay_reason),
            calling_point_crs: Vec::new(),
        };
        assert(r@.calling_point_crs =~= Seq::<Seq<char>>::empty());
        r
    }
}

// ---------------------------------------------------------------------------
// Stations
// ---------------------------------------------------------------------------

/// The trains of one station.
#[derive(Debug)]
pub struct StationState {
    pub services: Vec<SimService>,
    pub call_count: u64,
    /// Stable hash of the CRS code, used as a seed for all per-station decisions.
    pub crs_seed: u64,
}

#[verifier::ext_equal]
pub struct StationStateView {
    pub services: Seq<SimServiceView>,
    pub call_count: int,
    pub crs_seed: u64,
}

impl View for StationState {
    type V = StationStateView;

    open spec fn view(&self) -> StationStateView {
        StationStateView {
            services: views(self.services@),
            call_count: self.call_count as int,
            crs_seed: self.crs_seed,
        }
    }
}

/// The position of the first platform of a name, or the first position.
pub open spec fn platform_position(name: Seq<char>, from: nat) -> int
    decreases PLATFORM_COUNT - from,
{
    if from >= PLATFORM_COUNT {
        0
    } else if platform_at(from as int) == name {
        from as int
    } else {
        platform_position(name, from + 1)
    }
}

/// What a mutation makes of a train. The kinds of mutation take turns.
pub open spec fn mutated(s: SimServiceView, seed: u64, phase: u64) -> SimServiceView {
    if phase % 5 == 0 {
        // Delay
        if s.is_cancelled {
            s
        } else {
            SimServiceView {
                etd_offset_min: (picked(4, splitmix(seed ^ phase ^ 1)) + 1) * 5,
                delay_reason: Some(
                    delay_reason_at(
                        picked(DELAY_REASON_COUNT, splitmix(seed ^ phase ^ 2)) as int,
                    ),
                ),
                ..s
            }
        }
    } else if phase % 5 == 1 {
        // Platform change: offset by 1 to one less than there are, so that the
        // result is always different.
        if s.is_cancelled {
            s
        } else {
            SimServiceView {
                platform: platform_at(
                    (platform_position(s.platform, 0) + 1 + picked(
                        (PLATFORM_COUNT - 1) as usize,
                        splitmix(seed ^ phase ^ 3),
                    )) % (PLATFORM_COUNT as int),
                ),
                ..s
            }
        }
    } else if phase % 5 == 2 {
        // Cancellation
        if s.is_cancelled {
            s
        } else {
            SimServiceView {
                is_cancelled: true,
                etd_offset_min: 0,
                delay_reason: None,
                cancel_reason: Some(
                    cancel_reason_at(
                        picked(CANCEL_REASON_COUNT, splitmix(seed ^ phase ^ 4)) as int,
                    ),
                ),
                ..s
            }
        }
    } else if phase % 5 == 3 {
        // Longer delay
        if s.etd_offset_min > 0 {
            SimServiceView {
                etd_offset_min: s.etd_offset_min + (picked(2, splitmix(seed ^ phase ^ 5)) + 1) * 5,
                ..s
            }
        } else {
            s
        }
    } else {
        // Recovery
        SimServiceView {
            is_cancelled: false,
            etd_offset_min: 0,
            delay_reason: None,
            cancel_reason: None,
            ..s
        }
    }
}

/// The state after one more call: every third call changes one train.
pub open spec fn ticked(state: StationStateView) -> StationStateView {
    let calls = state.call_count + 1;
    let phase = (calls / 3) as u64;
    let services = state.services;
    let k = picked(services.len() as usize, splitmix(state.crs_seed ^ phase)) as int;
    StationStateView {
        services: if calls % 3 == 0 && services.len() > 0 {
            services.update(k, mutated(services[k], state.crs_seed, phase))
        } else {
            services
        },
        call_count: calls,
        ..state
    }
}

pub open spec fn all_fit(services: Seq<SimServiceView>) -> bool {
    forall|i: int| 0 <= i < services.len() ==> (#[trigger] services[i]).fits()
}

/// The counters have room for one more call.
pub open spec fn can_tick(state: StationStateView) -> bool {
    state.call_count < u64::MAX && all_fit(state.services) && all_fit(ticked(state).services)
}

/// The trains as the board shows them.
pub open spec fn on_boards(services: Seq<SimServiceView>) -> Seq<ServiceView> {
    Seq::new(services.len(), |i: int| services[i].on_board())
}

fn platform_number(name: &str) -> (r: usize)
    ensures
        r == platform_position(name@, 0),
        r < PLATFORM_COUNT,
{
    let mut i: usize = 0;
    while i < PLATFORM_COUNT
        invariant
            0 <= i <= PLATFORM_COUNT,
            platform_position(name@, 0) == platform_position(name@, i as nat),
        decreases PLATFORM_COUNT - i,
    {
        if same(platform(i), name) {
            return i;
        }
        i += 1;
    }
    0
}

impl SimService {
    fn mutate(&mut self, seed: u64, phase: u64)
        requires
            mutated(old(self)@, seed, phase).etd_offset_min <= u32::MAX,
        ensures
            final(self)@ == mutated(old(self)@, seed, phase),
    {
        let kind = phase % 5;
        if kind == 0 {
            if !self.is_cancelled {
                let steps = pick_idx(4, rng(seed ^ phase ^ 1));
                self.etd_offset_min = (steps as u32 + 1) * 5;
                let k = pick_idx(DELAY_REASON_COUNT, rng(seed ^ phase ^ 2));
                self.delay_reason = Some(delay_reason(k).to_string());
            }
        } else if kind == 1 {
            if !self.is_cancelled {
                let current = platform_number(self.platform.as_str());
                let offset = 1 + pick_idx(PLATFORM_COUNT - 1, rng(seed ^ phase ^ 3));
                self.platform = platform((current + offset) % PLATFORM_COUNT).to_string();
            }
        } else if kind == 2 {
            if !self.is_cancelled {
                self.is_cancelled = true;
                self.etd_offset_min = 0;
                self.delay_reason = None;
                let k = pick_idx(CANCEL_REASON_COUNT, rng(seed ^ phase ^ 4));
                self.cancel_reason = Some(cancel_reason(k).to_string());
            }
        } else if kind == 3 {
            if self.etd_offset_min > 0 {
                let steps = pick_idx(2, rng(seed ^ phase ^ 5));
                let extra: u32 = (steps as u32 + 1) * 5;
                self.etd_offset_min = self.etd_offset_min + extra;
            }
        } else {
            self.is_cancelled = false;
            self.etd_offset_min = 0;
            self.delay_reason = None;
            self.cancel_reason = None;
        }
    }
}

fn show_all(services: &Vec<SimService>) -> (r: Vec<Service>)
    requires
        all_fit(views(services@)),
    ensures
        views(r@) == on_boards(views(services@)),
{
    let ghost all = on_boards(views(services@));
    let mut out: Vec<Service> = Vec::new();
    let mut i: usize = 0;
    while i < services.len()
        invariant
            0 <= i <= services@.len(),
            all_fit(views(services@)),
            all == on_boards(views(services@)),
            views(out@) == all.take(i as int),
        decreases services.len() - i,
    {
        let ghost before = views(out@);
        assert(views(services@)[i as int].fits());
        out.push(services[i].to_service());
        assert(views(out@) =~= before.push(all[i as int]));
        assert(all.take(i + 1) =~= all.take(i as int).push(all[i as int]));
        i += 1;
    }
    assert(all.take(i as int) =~= all);
    out
}

impl StationState {
    /// Optionally apply one mutation, then return the current service list.
    pub fn tick(&mut self) -> (r: Vec<Service>)
        requires
            can_tick(old(self)@),
        ensures
            final(self)@ == ticked(old(self)@),
            views(r@) == on_boards(final(self)@.services),
    {
        let ghost before = self@;
        self.call_count = self.call_count + 1;
        // Apply a mutation on every 3rd call.
        if self.call_count % 3 == 0 && self.services.len() > 0 {
            let phase = self.call_count / 3;
            let k = pick_idx(self.services.len(), rng(self.crs_seed ^ phase));
            let seed = self.crs_seed;
            assert(ticked(before).services[k as int].fits());
            self.services[k].mutate(seed, phase);
            assert(self@.services =~= ticked(before).services);
        }
        show_all(&self.services)
    }
}

// ---------------------------------------------------------------------------
// Service generation
// ---------------------------------------------------------------------------

/// The first so many destinations that are not the station itself.
pub open spec fn elsewhere(crs: Seq<char>, n: nat) -> Seq<(Seq<char>, Seq<char>)>
    decreases n,
{
    if n == 0 {
        Seq::empty()
    } else {
        let rest = elsewhere(crs, (n - 1) as nat);
        if same_ignoring_case(destination_at(n - 1).1, crs) {
            rest
        } else {
            rest.push(destination_at(n - 1))
        }
    }
}

/// The minute of the day two minutes on.
pub open spec fn first_minute(hour: int, minute: int) -> int {
    if minute + 2 >= 60 {
        (hour + 1) % 24 * 60 + minute + 2 - 60
    } else {
        hour * 60 + minute + 2
    }
}

/// The minute at which the train at a position leaves: as many times 8 to 12
/// minutes after the first as its position says.
pub open spec fn departure_minute(seed: u64, start: int, i: int) -> int {
    start + i * (picked(5, splitmix(seed ^ ((i + 200) as u64))) + 8)
}

/// The train at a position.
pub open spec fn train(crs: Seq<char>, seed: u64, start: int, i: int) -> SimServiceView {
    let others = elsewhere(crs, DESTINATION_COUNT as nat);
    let dest = others[picked(others.len() as usize, splitmix(seed ^ ((i + 1) as u64))) as int];
    let total = departure_minute(seed, start, i);
    SimServiceView {
        service_id: hex(splitmix(seed ^ ((i + 300) as u64)) as u32, 8),
        std_h: total / 60 % 24,
        std_m: total % 60,
        etd_offset_min: 0,
        platform: platform_at(picked(PLATFORM_COUNT, splitmix(seed ^ ((i + 100) as u64))) as int),
        destination_crs: dest.1,
        destination_name: dest.0,
        is_cancelled: false,
        cancel_reason: None,
        delay_reason: None,
    }
}

/// So many trains from a station, the first two minutes from now.
pub open spec fn trains(
    crs: Seq<char>,
    count: nat,
    seed: u64,
    hour: int,
    minute: int,
) -> Seq<SimServiceView> {
    Seq::new(count, |i: int| train(crs, seed, first_minute(hour, minute), i))
}

/// The departure minutes are within what the clock can count.
pub open spec fn can_generate(count: nat, seed: u64, hour: int, minute: int) -> bool {
    forall|i: int|
        0 <= i < count ==> #[trigger] departure_minute(seed, first_minute(hour, minute), i)
            <= u32::MAX
}

proof fn lemma_elsewhere_not_empty(crs: Seq<char>)
    ensures
        elsewhere(crs, DESTINATION_COUNT as nat).len() > 0,
        elsewhere(crs, DESTINATION_COUNT as nat).len() <= DESTINATION_COUNT,
{
    reveal_strlit("YRK");
    reveal_strlit("EDB");
    lemma_elsewhere_len(crs, 18);
    lemma_elsewhere_len(crs, 19);
    let y = destination_at(17).1;
    let e = destination_at(19).1;
    if same_ignoring_case(y, crs) && same_ignoring_case(e, crs) {
        assert(ascii_lower(y[0]) == ascii_lower(crs[0]));
        assert(ascii_lower(e[0]) == ascii_lower(crs[0]));
        assert(ascii_lower('Y') != ascii_lower('E'));
    }
    assert(elsewhere(crs, 18).len() > 0 || elsewhere(crs, 20).len() > 0);
}

proof fn lemma_elsewhere_len(crs: Seq<char>, n: nat)
    ensures
        elsewhere(crs, n).len() <= n,
        elsewhere(crs, n).len() <= elsewhere(crs, n + 1).len() <= n + 1,
    decreases n,
{
    if n > 0 {
        lemma_elsewhere_len(crs, (n - 1) as nat);
    }
}

/// Generate `count` plausible fake services, the first two minutes after the given time.
pub fn generate_services(crs: &str, count: usize, seed: u64, hour: u32, minute: u32) -> (r: Vec<
    SimService,
>)
    requires
        hour < 24,
        minute < 60,
        count <= u32::MAX,
        can_generate(count as nat, seed, hour as int, minute as int),
    ensures
        views(r@) == trains(crs@, count as nat, seed, hour as int, minute as int),
        all_fit(views(r@)),
{
    let mut h: u32 = hour;
    let mut m: u32 = minute + 2;
    if m >= 60 {
        h = (h + 1) % 24;
        m -= 60;
    }
    let ghost start = first_minute(hour as int, minute as int);
    assert(h * 60 + m == start);
    // The destinations without the origin itself.
    let mut filtered: Vec<(&'static str, &'static str)> = Vec::new();
    let ghost mut others: Seq<(Seq<char>, Seq<char>)> = Seq::empty();
    let mut d: usize = 0;
    while d < DESTINATION_COUNT
        invariant
            0 <= d <= DESTINATION_COUNT,
            others == elsewhere(crs@, d as nat),
            filtered@.len() == others.len(),
            forall|j: int|
                #![trigger filtered@[j]]
                0 <= j < others.len() ==> filtered@[j].0@ == others[j].0 && filtered@[j].1@
                    == others[j].1,
        decreases DESTINATION_COUNT - d,
    {
        let dest = destination(d);
        if !matches_ignoring_case(dest.1, crs) {
            filtered.push(dest);
            proof {
                others = others.push(destination_at(d as int));
            }
        }
        d += 1;
    }
    proof {
        lemma_elsewhere_not_empty(crs@);
    }
    let ghost all = trains(crs@, count as nat, seed, hour as int, minute as int);
    let mut out: Vec<SimService> = Vec::new();
    let n = filtered.len();
    let mut i: usize = 0;
    while i < count
        invariant
            0 <= i <= count,
            count <= u32::MAX,
            h < 24,
            m < 60,
            h * 60 + m == start,
            start == first_minute(hour as int, minute as int),
            can_generate(count as nat, seed, hour as int, minute as int),
            n > 0,
            n == filtered@.len(),
            n == others.len(),
            others == elsewhere(crs@, DESTINATION_COUNT as nat),
            forall|j: int|
                #![trigger filtered@[j]]
                0 <= j < others.len() ==> filtered@[j].0@ == others[j].0 && filtered@[j].1@
                    == others[j].1,
            all == trains(crs@, count as nat, seed, hour as int, minute as int),
            views(out@) == all.take(i as int),
            all_fit(views(out@)),
        decreases count - i,
    {
        let ghost before = views(out@);
        let k = pick_idx(n, rng(seed ^ (i as u64 + 1)));
        let dest = filtered[k];
        let plat = platform(pick_idx(PLATFORM_COUNT, rng(seed ^ (i as u64 + 100))));
        let gap: u32 = pick_idx(5, rng(seed ^ (i as u64 + 200))) as u32 + 8;
        assert(departure_minute(seed, start, i as int) <= u32::MAX);
        assert(0 <= i * gap <= u32::MAX) by (nonlinear_arith)
            requires
                0 <= i,
                0 <= gap,
                i * gap <= u32::MAX,
        ;
        let total: u32 = h * 60 + m + (i as u32) * gap;
        let sid = hex_text(rng(seed ^ (i as u64 + 300)) as u32, 8);
        let svc = SimService {
            service_id: sid,
            std_h: (total / 60) % 24,
            std_m: total % 60,
            etd_offset_min: 0,
            platform: plat.to_string(),
            destination_crs: dest.1.to_string(),
            destination_name: dest.0.to_string(),
            is_cancelled: false,
            cancel_reason: None,
            delay_reason: None,
        };
        let ghost v = svc@;
        assert(v =~= all[i as int]);
        assert(v.fits());
        out.push(svc);
        assert(views(out@) =~= before.push(v));
        assert(all.take(i + 1) =~= all.take(i as int).push(v));
        i += 1;
    }
    assert(all.take(i as int) =~= all);
    out
}

/// The state of a station that was not asked for before.
pub open spec fn new_station(crs: Seq<char>, num_rows: nat, hour: int, minute: int) -> StationStateView {
    let seed = hash_of(encode_utf8(crs));
    StationStateView {
        services: trains(crs, num_rows, seed, hour, minute),
        call_count: 0,
        crs_seed: seed,
    }
}

impl StationState {
    /// The state of a station, with its trains from the given time on.
    pub fn new(crs: &str, num_rows: usize, hour: u32, minute: u32) -> (r: Self)
        requires
            hour < 24,
            minute < 60,
            num_rows <= u32::MAX,
            can_generate(
                num_rows as nat,
                hash_of(encode_utf8(crs@)),
                hour as int,
                minute as int,
            ),
        ensures
            r@ == new_station(crs@, num_rows as nat, hour as int, minute as int),
            all_fit(r@.services),
    {
        let crs_seed = crs_hash(crs);
        let services = generate_services(crs, num_rows, crs_seed, hour, minute);
        StationState { services, call_count: 0, crs_seed }
    }
}

// ---------------------------------------------------------------------------
// The departure source
// ---------------------------------------------------------------------------

/// Simulates the Darwin departure board for local testing.
pub struct SimulatedDepartureSource {
    pub stations: TextMap<StationState>,
}

pub type Stations = Seq<(Seq<char>, StationStateView)>;

/// The state of a station, as it is or as it starts.
pub open spec fn state_of(
    stations: Stations,
    crs: Seq<char>,
    num_rows: u32,
    hour: int,
    minute: int,
) -> StationStateView {
    match value_of(stations, crs) {
        Some(state) => state,
        None => new_station(crs, num_rows as nat, hour, minute),
    }
}

/// The states after a station was asked for its board.
pub open spec fn stations_after(
    stations: Stations,
    crs: Seq<char>,
    num_rows: u32,
    hour: int,
    minute: int,
) -> Stations {
    with_pair(
        stations,
        uppercase(crs),
        ticked(state_of(stations, uppercase(crs), num_rows, hour, minute)),
    )
}

/// The services that end at a destination, in order.
pub open spec fn ending_at(services: Seq<ServiceView>, crs: Seq<char>) -> Seq<ServiceView>
    decreases services.len(),
{
    if services.len() == 0 {
        Seq::empty()
    } else {
        let rest = ending_at(services.drop_last(), crs);
        if same_ignoring_case(services.last().destination_crs, crs) {
            rest.push(services.last())
        } else {
            rest
        }
    }
}

/// The board that a station shows in a state.
pub open spec fn board_of(
    state: StationStateView,
    crs: Seq<char>,
    filter_crs: Option<Seq<char>>,
) -> Seq<ServiceView> {
    let all = on_boards(state.services);
    leaving_from(
        match filter_crs {
            Some(f) => ending_at(all, f),
            None => all,
        },
        crs,
    )
}

/// The counters have room for one more board of the station.
pub open spec fn can_serve(
    stations: Stations,
    crs: Seq<char>,
    num_rows: u32,
    hour: int,
    minute: int,
) -> bool {
    match value_of(stations, uppercase(crs)) {
        Some(state) => can_tick(state),
        None => can_generate(
            num_rows as nat,
            hash_of(encode_utf8(uppercase(crs))),
            hour,
            minute,
        ),
    }
}

fn select_ending(services: Vec<Service>, crs: &str) -> (r: Vec<Service>)
    ensures
        views(r@) == ending_at(views(services@), crs@),
{
    let ghost all = views(services@);
    let mut out: Vec<Service> = Vec::new();
    let mut i: usize = 0;
    assert(all.take(0) =~= Seq::<ServiceView>::empty());
    assert(views(out@) =~= Seq::<ServiceView>::empty());
    while i < services.len()
        invariant
            0 <= i <= services@.len(),
            all == views(services@),
            views(out@) == ending_at(all.take(i as int), crs@),
        decreases services.len() - i,
    {
        assert(all.take(i + 1).drop_last() =~= all.take(i as int));
        let ghost before = views(out@);
        if matches_ignoring_case(services[i].destination_crs.as_str(), crs) {
            out.push(services[i].clone());
            assert(views(out@) =~= before.push(all[i as int]));
        }
        i += 1;
    }
    assert(all.take(i as int) =~= all);
    out
}

impl SimulatedDepartureSource {
    /// Each station stands in the map once, and its trains are within what the clock can count.
    pub open spec fn wf(&self) -> bool {
        &&& self.stations.wf()
        &&& forall|i: int|
            0 <= i < self.stations@.len() ==> all_fit((#[trigger] self.stations@[i]).1.services)
    }

    pub fn new() -> (r: Self)
        ensures
            r.stations@ == Seq::<(Seq<char>, StationStateView)>::empty(),
            r.wf(),
    {
        SimulatedDepartureSource { stations: TextMap::new() }
    }

    /// The board of a station. A station that was not asked for before starts
    /// with its first train two minutes after the given time.
    pub fn get_departure_board_at(
        &mut self,
        crs: &str,
        num_rows: u32,
        filter_crs: &Option<String>,
        hour: u32,
        minute: u32,
    ) -> (r: Vec<Service>)
        requires
            old(self).wf(),
            hour < 24,
            minute < 60,
            can_serve(old(self).stations@, crs@, num_rows, hour as int, minute as int),
        ensures
            final(self).stations@ == stations_after(
                old(self).stations@,
                crs@,
                num_rows,
                hour as int,
                minute as int,
            ),
            views(r@) == board_of(
                ticked(
                    state_of(
                        old(self).stations@,
                        uppercase(crs@),
                        num_rows,
                        hour as int,
                        minute as int,
                    ),
                ),
                uppercase(crs@),
                opt_text(*filter_crs),
            ),
            final(self).wf(),
    {
        let upper = to_upper(crs);
        let ghost before = self.stations@;
        let ghost state = state_of(before, upper@, num_rows, hour as int, minute as int);
        proof {
            lemma_key_position(before, upper@);
        }
        if !self.stations.contains_key(upper.as_str()) {
            let fresh = StationState::new(upper.as_str(), num_rows as usize, hour, minute);
            self.stations.insert(upper.clone(), fresh);
        }
        let ghost middle = self.stations@;
        proof {
            lemma_key_position(middle, upper@);
            lemma_found_or_added(before, upper@, state);
        }
        let k = self.stations.position(upper.as_str());
        assert(middle[k as int] == (upper@, state));
        assert(all_fit(state.services));
        let shown = self.stations.entries[k].1.tick();
        proof {
            assert(self.stations@ =~= middle.update(k as int, (upper@, ticked(state))));
            assert(self.stations@ =~= with_pair(before, upper@, ticked(state)));
            lemma_with_pair_distinct(before, upper@, ticked(state));
            assert forall|i: int| 0 <= i < self.stations@.len() implies all_fit(
                (#[trigger] self.stations@[i]).1.services,
            ) by {
                if i != k {
                    assert(before[i] == self.stations@[i]);
                }
            }
        }
        let services = match filter_crs {
            Some(f) => select_ending(shown, f.as_str()),
            None => shown,
        };
        set_origin(services, upper.as_str())
    }

    /// Whether the counters have room for one more board of the station.
    pub fn has_room(&self, crs: &str, num_rows: u32, hour: u32, minute: u32) -> (r: bool)
        requires
            self.wf(),
            hour < 24,
            minute < 60,
        ensures
            r == can_serve(self.stations@, crs@, num_rows, hour as int, minute as int),
    {
        let upper = to_upper(crs);
        let k = self.stations.position(upper.as_str());
        if k < self.stations.entries.len() {
            assert(all_fit(self.stations@[k as int].1.services));
            self.stations.entries[k].1.has_room()
        } else {
            generation_fits(num_rows, crs_hash(upper.as_str()), hour, minute)
        }
    }

    /// The board of a station, now. There is none where the counters have no
    /// room for it; the stations are left alone then.
    pub fn get_departure_board(&mut self, crs: &str, num_rows: u32, filter_crs: &Option<String>) -> (r:
        Option<Vec<Service>>)
        requires
            old(self).wf(),
        ensures
            exists|hour: int, minute: int|
                #![trigger stations_after(old(self).stations@, crs@, num_rows, hour, minute)]
                0 <= hour < 24 && 0 <= minute < 60 && match r {
                    Some(services) => {
                        &&& can_serve(old(self).stations@, crs@, num_rows, hour, minute)
                        &&& final(self).stations@ == stations_after(
                            old(self).stations@,
                            crs@,
                            num_rows,
                            hour,
                            minute,
                        )
                        &&& views(services@) == board_of(
                            ticked(
                                state_of(
                                    old(self).stations@,
                                    uppercase(crs@),
                                    num_rows,
                                    hour,
                                    minute,
                                ),
                            ),
                            uppercase(crs@),
                            opt_text(*filter_crs),
                        )
                    },
                    None => {
                        &&& !can_serve(old(self).stations@, crs@, num_rows, hour, minute)
                        &&& *final(self) == *old(self)
                    },
                },
            final(self).wf(),
    {
        let time = local_hour_minute();
        let ghost after = stations_after(
            self.stations@,
            crs@,
            num_rows,
            time.0 as int,
            time.1 as int,
        );
        if !self.has_room(crs, num_rows, time.0, time.1) {
            return None;
        }
        Some(self.get_departure_board_at(crs, num_rows, filter_crs, time.0, time.1))
    }
}

/// A new station is put at the end; one that is there is found.
proof fn lemma_found_or_added(stations: Stations, crs: Seq<char>, state: StationStateView)
    requires
        distinct_keys(stations),
    ensures
        value_of(stations, crs) == Some(state) ==> with_pair(stations, crs, state) == stations,
        key_position(with_pair(stations, crs, state), crs) == key_position(stations, crs),
        value_of(with_pair(stations, crs, state), crs) == Some(state),
{
    lemma_key_position(stations, crs);
    lookup_after_insertion(stations, crs, state, crs);
    let k = key_position(stations, crs);
    let r = with_pair(stations, crs, state);
    assert forall|i: int| 0 <= i < k implies (#[trigger] r[i]).0 != crs by {
        assert(r[i] == stations[i]);
    }
    lemma_key_position_is(r, crs, k);
    if value_of(stations, crs) == Some(state) {
        assert(r =~= stations);
    }
}

impl StationState {
    /// Whether the counters have room for one more call.
    pub fn has_room(&self) -> (r: bool)
        requires
            all_fit(self@.services),
        ensures
            r == can_tick(self@),
    {
        if self.call_count == u64::MAX {
            return false;
        }
        let ghost after = ticked(self@).services;
        let calls = self.call_count + 1;
        if calls % 3 != 0 || self.services.len() == 0 {
            assert(after == self@.services);
            return true;
        }
        let phase = calls / 3;
        let k = pick_idx(self.services.len(), rng(self.crs_seed ^ phase));
        let s = &self.services[k];
        let ghost old_k = self@.services[k as int];
        assert(old_k.fits());
        let fits = if phase % 5 == 3 && s.etd_offset_min > 0 {
            let extra = (pick_idx(2, rng(self.crs_seed ^ phase ^ 5)) as u64 + 1) * 5;
            s.std_h as u64 * 60 + s.std_m as u64 + s.etd_offset_min as u64 + extra
                <= u32::MAX as u64
        } else {
            true
        };
        proof {
            let new_k = mutated(old_k, self.crs_seed, phase);
            assert(fits == new_k.fits());
            assert(after[k as int] == new_k);
            assert forall|i: int| 0 <= i < after.len() && i != k implies (
            #[trigger] after[i]).fits() by {
                assert(after[i] == self@.services[i]);
            }
        }
        fits
    }
}

fn generation_fits(num_rows: u32, seed: u64, hour: u32, minute: u32) -> (r: bool)
    requires
        hour < 24,
        minute < 60,
    ensures
        r == can_generate(num_rows as nat, seed, hour as int, minute as int),
{
    let ghost start = first_minute(hour as int, minute as int);
    let first: u64 = if minute + 2 >= 60 {
        ((hour + 1) % 24) as u64 * 60 + minute as u64 + 2 - 60
    } else {
        hour as u64 * 60 + minute as u64 + 2
    };
    let mut i: u32 = 0;
    while i < num_rows
        invariant
            0 <= i <= num_rows,
            first == start,
            first <= 1500,
            start == first_minute(hour as int, minute as int),
            forall|j: int| 0 <= j < i ==> #[trigger] departure_minute(seed, start, j) <= u32::MAX,
        decreases num_rows - i,
    {
        let gap: u64 = pick_idx(5, rng(seed ^ (i as u64 + 200))) as u64 + 8;
        assert(0 <= i * gap <= 0xffff_ffff * 12) by (nonlinear_arith)
            requires
                0 <= i <= 0xffff_ffff,
                0 <= gap <= 12,
        ;
        if first + i as u64 * gap > u32::MAX as u64 {
            assert(departure_minute(seed, start, i as int) > u32::MAX);
            return false;
        }
        i += 1;
    }
    true
}

// ---------------------------------------------------------------------------
// Laws
// ---------------------------------------------------------------------------

/// From one call to the next the same trains stay on the board: their IDs,
/// their scheduled times and their destinations do not change.
pub proof fn trains_stay_on_the_board(state: StationStateView, i: int)
    requires
        0 <= i < state.services.len(),
    ensures
        ticked(state).services.len() == state.services.len(),
        ticked(state).services[i].service_id == state.services[i].service_id,
        ticked(state).services[i].std_h == state.services[i].std_h,
        ticked(state).services[i].std_m == state.services[i].std_m,
        ticked(state).services[i].destination_crs == state.services[i].destination_crs,
        ticked(state).services[i].destination_name == state.services[i].destination_name,
{
}

/// Nothing changes but on every third call.
pub proof fn change_comes_on_every_third_call(state: StationStateView)
    requires
        (state.call_count + 1) % 3 != 0,
    ensures
        ticked(state).services == state.services,
{
}

proof fn lemma_elsewhere(crs: Seq<char>, n: nat, i: int)
    requires
        0 <= i < elsewhere(crs, n).len(),
    ensures
        !same_ignoring_case(elsewhere(crs, n)[i].1, crs),
    decreases n,
{
    let rest = elsewhere(crs, (n - 1) as nat);
    if i < rest.len() {
        lemma_elsewhere(crs, (n - 1) as nat, i);
    }
}

/// No train ends where it starts.
pub proof fn trains_go_elsewhere(
    crs: Seq<char>,
    count: nat,
    seed: u64,
    hour: int,
    minute: int,
    i: int,
)
    requires
        0 <= i < count,
    ensures
        !same_ignoring_case(trains(crs, count, seed, hour, minute)[i].destination_crs, crs),
{
    let others = elsewhere(crs, DESTINATION_COUNT as nat);
    lemma_elsewhere_not_empty(crs);
    let k = picked(others.len() as usize, splitmix(seed ^ ((i + 1) as u64))) as int;
    lemma_elsewhere(crs, DESTINATION_COUNT as nat, k);
}

/// A board with a destination filter shows only trains that end there.
pub proof fn filter_leaves_matches(services: Seq<ServiceView>, crs: Seq<char>, i: int)
    requires
        0 <= i < ending_at(services, crs).len(),
    ensures
        same_ignoring_case(ending_at(services, crs)[i].destination_crs, crs),
    decreases services.len(),
{
    let rest = ending_at(services.drop_last(), crs);
    if i < rest.len() {
        filter_leaves_matches(services.drop_last(), crs, i);
    }
}

proof fn lemma_platforms_differ(i: int, j: int)
    requires
        0 <= i < j < PLATFORM_COUNT,
    ensures
        platform_at(i) != platform_at(j),
{
    reveal_strlit("1");
    reveal_strlit("2");
    reveal_strlit("3");
    reveal_strlit("4");
    reveal_strlit("5");
    reveal_strlit("6");
    reveal_strlit("7");
    reveal_strlit("8");
    reveal_strlit("9");
    reveal_strlit("10");
    if j < 9 {
        assert(platform_at(i)[0] != platform_at(j)[0]);
    } else {
        assert(platform_at(i).len() != platform_at(j).len());
    }
}

proof fn lemma_platform_position(name: Seq<char>, from: nat)
    requires
        from <= PLATFORM_COUNT,
    ensures
        0 <= platform_position(name, from) < PLATFORM_COUNT,
        platform_at(platform_position(name, from)) == name || forall|j: int|
            from <= j < PLATFORM_COUNT ==> #[trigger] platform_at(j) != name,
    decreases PLATFORM_COUNT - from,
{
    if from < PLATFORM_COUNT && platform_at(from as int) != name {
        lemma_platform_position(name, from + 1);
    }
}

/// A platform change always leads to another platform.
pub proof fn platform_change_changes(s: SimServiceView, seed: u64, phase: u64)
    requires
        phase % 5 == 1,
        !s.is_cancelled,
    ensures
        mutated(s, seed, phase).platform != s.platform,
{
    let p = platform_position(s.platform, 0);
    let offset = 1 + picked((PLATFORM_COUNT - 1) as usize, splitmix(seed ^ phase ^ 3)) as int;
    let q = (p + offset) % (PLATFORM_COUNT as int);
    lemma_platform_position(s.platform, 0);
    if p < q {
        lemma_platforms_differ(p, q);
    } else {
        lemma_platforms_differ(q, p);
    }
}

/// What is said of a train agrees: it is delayed exactly where there is a reason
/// for a delay, cancelled exactly where there is a reason for that, never both at
/// once, and it leaves from one of the platforms.
pub open spec fn agrees(s: SimServiceView) -> bool {
    &&& s.etd_offset_min >= 0
    &&& s.etd_offset_min > 0 <==> s.delay_reason is Some
    &&& s.is_cancelled <==> s.cancel_reason is Some
    &&& s.is_cancelled ==> s.etd_offset_min == 0
    &&& exists|k: int| 0 <= k < PLATFORM_COUNT && s.platform == #[trigger] platform_at(k)
}

pub open spec fn all_agree(services: Seq<SimServiceView>) -> bool {
    forall|i: int| 0 <= i < services.len() ==> agrees(#[trigger] services[i])
}

proof fn lemma_mutated_agrees(s: SimServiceView, seed: u64, phase: u64)
    requires
        agrees(s),
    ensures
        agrees(mutated(s, seed, phase)),
{
    lemma_platform_position(s.platform, 0);
    let to = (platform_position(s.platform, 0) + 1 + picked(
        (PLATFORM_COUNT - 1) as usize,
        splitmix(seed ^ phase ^ 3),
    )) % (PLATFORM_COUNT as int);
    assert(0 <= to < PLATFORM_COUNT);
    let k = choose|k: int| 0 <= k < PLATFORM_COUNT && s.platform == #[trigger] platform_at(k);
    let r = mutated(s, seed, phase);
    assert(r.platform == platform_at(k) || r.platform == platform_at(to));
}

/// One more call keeps what is said of each train in agreement.
pub proof fn tick_keeps_agreement(state: StationStateView)
    requires
        state.services.len() <= u32::MAX,
        all_agree(state.services),
    ensures
        ticked(state).services.len() == state.services.len(),
        all_agree(ticked(state).services),
{
    let calls = state.call_count + 1;
    let phase = (calls / 3) as u64;
    let services = state.services;
    let after = ticked(state).services;
    if calls % 3 == 0 && services.len() > 0 {
        let k = picked(services.len() as usize, splitmix(state.crs_seed ^ phase)) as int;
        assert(0 <= k < services.len());
        lemma_mutated_agrees(services[k], state.crs_seed, phase);
        assert forall|i: int| 0 <= i < after.len() implies agrees(#[trigger] after[i]) by {
            if i != k {
                assert(after[i] == services[i]);
            }
        }
    }
}

/// The state after so many calls.
pub open spec fn after_calls(state: StationStateView, n: nat) -> StationStateView
    decreases n,
{
    if n == 0 {
        state
    } else {
        ticked(after_calls(state, (n - 1) as nat))
    }
}

/// Whatever the number of calls, the trains of a station are those it started
/// with, and what is said of each of them agrees.
pub proof fn every_state_agrees(crs: Seq<char>, num_rows: u32, hour: int, minute: int, n: nat)
    ensures
        ({
            let first = new_station(crs, num_rows as nat, hour, minute);
            let state = after_calls(first, n);
            &&& state.services.len() == num_rows
            &&& all_agree(state.services)
            &&& forall|i: int|
                #![trigger state.services[i]]
                0 <= i < num_rows ==> {
                    &&& state.services[i].service_id == first.services[i].service_id
                    &&& state.services[i].std_h == first.services[i].std_h
                    &&& state.services[i].std_m == first.services[i].std_m
                    &&& state.services[i].destination_crs == first.services[i].destination_crs
                    &&& state.services[i].destination_name == first.services[i].destination_name
                }
        }),
    decreases n,
{
    let first = new_station(crs, num_rows as nat, hour, minute);
    let state = after_calls(first, n);
    if n == 0 {
        lemma_new_trains_agree(crs, num_rows as nat, hour, minute);
    } else {
        let before = after_calls(first, (n - 1) as nat);
        every_state_agrees(crs, num_rows, hour, minute, (n - 1) as nat);
        tick_keeps_agreement(before);
        assert forall|i: int| #![trigger state.services[i]] 0 <= i < num_rows implies {
            &&& state.services[i].service_id == first.services[i].service_id
            &&& state.services[i].std_h == first.services[i].std_h
            &&& state.services[i].std_m == first.services[i].std_m
            &&& state.services[i].destination_crs == first.services[i].destination_crs
            &&& state.services[i].destination_name == first.services[i].destination_name
        } by {
            assert(before.services[i].service_id == first.services[i].service_id);
            trains_stay_on_the_board(before, i);
        }
    }
}

proof fn lemma_new_trains_agree(crs: Seq<char>, num_rows: nat, hour: int, minute: int)
    ensures
        all_agree(new_station(crs, num_rows, hour, minute).services),
{
    let first = new_station(crs, num_rows, hour, minute);
    assert forall|i: int| 0 <= i < first.services.len() implies agrees(
        #[trigger] first.services[i],
    ) by {
        let k = picked(PLATFORM_COUNT, splitmix(first.crs_seed ^ ((i + 100) as u64))) as int;
        assert(0 <= k < PLATFORM_COUNT);
        assert(first.services[i].platform == platform_at(k));
    }
}

/// Every station of the source is in agreement.
pub open spec fn all_stations_agree(stations: Stations) -> bool {
    forall|i: int|
        0 <= i < stations.len() ==> {
            &&& (#[trigger] stations[i]).1.services.len() <= u32::MAX
            &&& all_agree(stations[i].1.services)
        }
}

/// Whatever board is asked for, every station of the source stays in agreement.
/// A source starts without stations, so this holds of every state that it reaches.
pub proof fn boards_keep_agreement(
    stations: Stations,
    crs: Seq<char>,
    num_rows: u32,
    hour: int,
    minute: int,
)
    requires
        all_stations_agree(stations),
    ensures
        all_stations_agree(stations_after(stations, crs, num_rows, hour, minute)),
        all_agree(ticked(state_of(stations, uppercase(crs), num_rows, hour, minute)).services),
{
    let key = uppercase(crs);
    let state = state_of(stations, key, num_rows, hour, minute);
    let after = stations_after(stations, crs, num_rows, hour, minute);
    lemma_key_position(stations, key);
    lemma_new_trains_agree(key, num_rows as nat, hour, minute);
    let n = key_position(stations, key);
    if n < stations.len() {
        assert(stations[n].1 == state);
    }
    tick_keeps_agreement(state);
    assert forall|i: int| 0 <= i < after.len() implies {
        &&& (#[trigger] after[i]).1.services.len() <= u32::MAX
        &&& all_agree(after[i].1.services)
    } by {
        if i != n {
            assert(after[i] == stations[i]);
        }
    }
}

/// A train whose fields agree is shown as cancelled, on time or with a time, as
/// the reasons beside it say, and with a platform.
pub proof fn shown_fields_agree(s: SimServiceView)
    requires
        agrees(s),
    ensures
        ({
            let shown = s.on_board();
            &&& shown.is_cancelled <==> shown.cancel_reason is Some
            &&& shown.is_cancelled ==> shown.etd == "Cancelled"@ && shown.delay_reason is None
            &&& !shown.is_cancelled && shown.delay_reason is None ==> shown.etd == "On time"@
            &&& shown.delay_reason is Some ==> shown.etd == hour_minute(
                s.expected() / 60 % 24,
                s.expected() % 60,
            )
            &&& shown.platform is Some
        }),
{
}

} // verus!
