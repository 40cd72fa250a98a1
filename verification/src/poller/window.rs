//! The services that a user's board has room for.

use crate::darwin::ServiceView;
use crate::domain::{Channel, SubscriptionView};
use crate::poller::diff::{
    digest, first, of_origin, origins, section, sections, shown, with_text, ServiceSnapshot,
    Snapshots, DISPLAY_ROWS,
};
use crate::sorting::{
    ascending, placed, sort, sorted, sorting_keeps_the_values, sorting_leaves_order_alone,
    sorting_puts_in_order, Ranked,
};
use crate::table::{distinct_keys, has_key, pairs, TextMap};
use crate::text::{lemma_lex_total, lemma_lex_transitive, lex_le, lists, precedes, same, texts, views};
use vstd::prelude::*;

verus! {

/// Pairs rank as their snapshots do.
impl Ranked for (String, ServiceSnapshot) {
    open spec fn rank_le(a: (Seq<char>, ServiceView), b: (Seq<char>, ServiceView)) -> bool {
        lex_le(a.1.std, b.1.std)
    }

    fn is_rank_le(a: &(String, ServiceSnapshot), b: &(String, ServiceSnapshot)) -> (r: bool) {
        precedes(a.1.std.as_str(), b.1.std.as_str())
    }

    proof fn rank_total(a: (Seq<char>, ServiceView), b: (Seq<char>, ServiceView)) {
        lemma_lex_total(a.1.std, b.1.std);
    }

    proof fn rank_transitive(
        a: (Seq<char>, ServiceView),
        b: (Seq<char>, ServiceView),
        c: (Seq<char>, ServiceView),
    ) {
        lemma_lex_transitive(a.1.std, b.1.std, c.1.std);
    }
}

/// The stations from which the services leave, in the order of the map.
pub open spec fn stations_of(view: Snapshots) -> Seq<Seq<char>>
    decreases view.len(),
{
    if view.len() == 0 {
        Seq::empty()
    } else {
        with_text(stations_of(view.drop_last()), view.last().1.origin_crs)
    }
}

/// The pairs whose service leaves from a station.
pub open spec fn pairs_of_origin(view: Snapshots, crs: Seq<char>) -> Snapshots
    decreases view.len(),
{
    if view.len() == 0 {
        Seq::empty()
    } else {
        let rest = pairs_of_origin(view.drop_last(), crs);
        if view.last().1.origin_crs == crs {
            rest.push(view.last())
        } else {
            rest
        }
    }
}

/// The first pairs of a station by departure time.
pub open spec fn kept(view: Snapshots, crs: Seq<char>, per_origin: nat) -> Snapshots {
    first(sorted::<(String, ServiceSnapshot)>(pairs_of_origin(view, crs)), per_origin)
}

/// The first pairs of each of the stations, station by station.
pub open spec fn kept_of(view: Snapshots, stations: Seq<Seq<char>>, per_origin: nat) -> Snapshots
    decreases stations.len(),
{
    if stations.len() == 0 {
        Seq::empty()
    } else {
        kept_of(view, stations.drop_last(), per_origin) + kept(view, stations.last(), per_origin)
    }
}

/// The first services of each station by departure time.
pub open spec fn windowed(view: Snapshots, per_origin: nat) -> Snapshots {
    kept_of(view, stations_of(view), per_origin)
}

fn stations_in(view: &TextMap<ServiceSnapshot>) -> (r: Vec<String>)
    ensures
        texts(r@) == stations_of(view@),
{
    let ghost all = view@;
    let mut out: Vec<String> = Vec::new();
    let mut i: usize = 0;
    assert(texts(out@) =~= Seq::<Seq<char>>::empty());
    assert(all.take(0) =~= Seq::<(Seq<char>, ServiceView)>::empty());
    while i < view.entries.len()
        invariant
            0 <= i <= view.entries@.len(),
            all == view@,
            texts(out@) == stations_of(all.take(i as int)),
        decreases view.entries.len() - i,
    {
        assert(all.take(i + 1).drop_last() =~= all.take(i as int));
        let ghost before = texts(out@);
        let s = &view.entries[i].1;
        if !lists(&out, s.origin_crs.as_str()) {
            out.push(s.origin_crs.clone());
            assert(texts(out@) =~= before.push(s.origin_crs@));
        }
        i += 1;
    }
    assert(all.take(i as int) =~= all);
    out
}

fn entries_of(view: &TextMap<ServiceSnapshot>, crs: &str) -> (r: Vec<(String, ServiceSnapshot)>)
    ensures
        views(r@) == pairs_of_origin(view@, crs@),
{
    let ghost all = view@;
    let mut out: Vec<(String, ServiceSnapshot)> = Vec::new();
    let mut i: usize = 0;
    assert(views(out@) =~= Seq::<(Seq<char>, ServiceView)>::empty());
    assert(all.take(0) =~= Seq::<(Seq<char>, ServiceView)>::empty());
    while i < view.entries.len()
        invariant
            0 <= i <= view.entries@.len(),
            all == view@,
            views(out@) == pairs_of_origin(all.take(i as int), crs@),
        decreases view.entries.len() - i,
    {
        assert(all.take(i + 1).drop_last() =~= all.take(i as int));
        let ghost before = views(out@);
        let entry = &view.entries[i];
        if same(entry.1.origin_crs.as_str(), crs) {
            out.push((entry.0.clone(), entry.1.clone()));
            assert(views(out@) =~= before.push((entry.0@, entry.1@)));
        }
        i += 1;
    }
    assert(all.take(i as int) =~= all);
    out
}

/// Keep only the first `per_origin` services per origin CRS (sorted by STD),
/// matching the rows shown in `format_digest`. Services beyond this window are
/// excluded from the diff so they cannot trigger spurious notifications.
pub fn truncate_to_display_window(view: TextMap<ServiceSnapshot>, per_origin: usize) -> (r: TextMap<
    ServiceSnapshot,
>)
    ensures
        r@ == windowed(view@, per_origin as nat),
        view.wf() ==> r.wf(),
{
    let stations = stations_in(&view);
    let ghost codes = texts(stations@);
    let mut out: Vec<(String, ServiceSnapshot)> = Vec::new();
    let mut i: usize = 0;
    assert(pairs(out@) =~= Seq::<(Seq<char>, ServiceView)>::empty());
    assert(codes.take(0) =~= Seq::<Seq<char>>::empty());
    while i < stations.len()
        invariant
            0 <= i <= stations@.len(),
            codes == texts(stations@),
            pairs(out@) == kept_of(view@, codes.take(i as int), per_origin as nat),
        decreases stations.len() - i,
    {
        assert(codes.take(i + 1).drop_last() =~= codes.take(i as int));
        let services = sort(entries_of(&view, stations[i].as_str()));
        let ghost base = pairs(out@);
        let ghost mine = kept(view@, codes[i as int], per_origin as nat);
        let mut k: usize = 0;
        assert(base + mine.take(0) =~= base);
        while k < services.len() && k < per_origin
            invariant
                0 <= k <= mine.len(),
                mine == first(views(services@), per_origin as nat),
                pairs(out@) == base + mine.take(k as int),
            decreases services.len() - k,
        {
            let ghost prior = pairs(out@);
            let entry = &services[k];
            out.push((entry.0.clone(), entry.1.clone()));
            assert(mine[k as int] == (entry.0@, entry.1@));
            assert(pairs(out@) =~= prior.push(mine[k as int]));
            assert(base + mine.take(k + 1) =~= prior.push(mine[k as int]));
            k += 1;
        }
        assert(mine.take(k as int) =~= mine);
        i += 1;
    }
    assert(codes.take(i as int) =~= codes);
    let r = TextMap { entries: out };
    proof {
        if view.wf() {
            window_keeps_keys_distinct(view@, per_origin as nat);
        }
    }
    r
}

// ---------------------------------------------------------------------------
// Laws
// ---------------------------------------------------------------------------

proof fn lemma_pairs_of_origin(view: Snapshots, crs: Seq<char>, p: (Seq<char>, ServiceView))
    ensures
        pairs_of_origin(view, crs).contains(p) <==> view.contains(p) && p.1.origin_crs == crs,
    decreases view.len(),
{
    if view.len() > 0 {
        let t = view.drop_last();
        let rest = pairs_of_origin(t, crs);
        let r = pairs_of_origin(view, crs);
        lemma_pairs_of_origin(t, crs, p);
        if view.contains(p) && p.1.origin_crs == crs {
            let k = choose|k: int| 0 <= k < view.len() && view[k] == p;
            if k < t.len() {
                assert(t[k] == p);
                let j = choose|j: int| 0 <= j < rest.len() && rest[j] == p;
                assert(r[j] == p);
            } else {
                assert(r[r.len() - 1] == p);
            }
        }
        if r.contains(p) {
            let k = choose|k: int| 0 <= k < r.len() && r[k] == p;
            if k < rest.len() {
                assert(rest[k] == p);
                let j = choose|j: int| 0 <= j < t.len() && t[j] == p;
                assert(view[j] == p);
            } else {
                assert(view[view.len() - 1] == p);
            }
        }
    }
}

proof fn lemma_pairs_of_origin_distinct(view: Snapshots, crs: Seq<char>)
    requires
        distinct_keys(view),
    ensures
        distinct_keys(pairs_of_origin(view, crs)),
    decreases view.len(),
{
    if view.len() > 0 {
        let t = view.drop_last();
        let rest = pairs_of_origin(t, crs);
        let r = pairs_of_origin(view, crs);
        lemma_pairs_of_origin_distinct(t, crs);
        assert forall|i: int, j: int| 0 <= i < j < r.len() implies (#[trigger] r[i]).0 != (
        #[trigger] r[j]).0 by {
            if j == rest.len() {
                lemma_pairs_of_origin(t, crs, rest[i]);
                assert(rest.contains(rest[i]));
                let k = choose|k: int| 0 <= k < t.len() && t[k] == rest[i];
                assert(view[k].0 != view[view.len() - 1].0);
            }
        }
    }
}

proof fn lemma_placed_distinct(s: Snapshots, x: (Seq<char>, ServiceView))
    requires
        distinct_keys(s),
        !has_key(s, x.0),
    ensures
        distinct_keys(placed::<(String, ServiceSnapshot)>(s, x)),
        forall|k: Seq<char>|
            #[trigger] has_key(placed::<(String, ServiceSnapshot)>(s, x), k) ==> has_key(s, k) || k
                == x.0,
    decreases s.len(),
{
    let r = placed::<(String, ServiceSnapshot)>(s, x);
    if s.len() > 0 && !<(String, ServiceSnapshot)>::rank_le(s.last(), x) {
        let t = s.drop_last();
        let p = placed::<(String, ServiceSnapshot)>(t, x);
        assert(!has_key(t, x.0)) by {
            if has_key(t, x.0) {
                let k = choose|k: int| 0 <= k < t.len() && (#[trigger] t[k]).0 == x.0;
                assert(s[k].0 == x.0);
            }
        }
        lemma_placed_distinct(t, x);
        assert(!has_key(p, s.last().0)) by {
            if has_key(p, s.last().0) {
                assert(s[s.len() - 1].0 != x.0);
                let k = choose|k: int| 0 <= k < t.len() && (#[trigger] t[k]).0 == s.last().0;
                assert(s[k].0 != s[s.len() - 1].0);
            }
        }
        assert(r == p.push(s.last()));
        assert forall|i: int, j: int| 0 <= i < j < r.len() implies (#[trigger] r[i]).0 != (
        #[trigger] r[j]).0 by {
            if j == p.len() {
                assert(p[i].0 != s.last().0);
            }
        }
        assert forall|k: Seq<char>| #[trigger] has_key(r, k) implies has_key(s, k) || k == x.0 by {
            let i = choose|i: int| 0 <= i < r.len() && (#[trigger] r[i]).0 == k;
            if i < p.len() {
                assert(p[i].0 == k);
                assert(has_key(p, k));
                if k != x.0 {
                    let m = choose|m: int| 0 <= m < t.len() && (#[trigger] t[m]).0 == k;
                    assert(s[m].0 == k);
                }
            } else {
                assert(s[s.len() - 1].0 == k);
            }
        }
    } else {
        assert(r == s.push(x));
        assert forall|k: Seq<char>| #[trigger] has_key(r, k) implies has_key(s, k) || k == x.0 by {
            let i = choose|i: int| 0 <= i < r.len() && (#[trigger] r[i]).0 == k;
            if i < s.len() {
                assert(s[i].0 == k);
            }
        }
    }
}

proof fn lemma_sorted_distinct(s: Snapshots)
    requires
        distinct_keys(s),
    ensures
        distinct_keys(sorted::<(String, ServiceSnapshot)>(s)),
        forall|k: Seq<char>|
            #[trigger] has_key(sorted::<(String, ServiceSnapshot)>(s), k) ==> has_key(s, k),
    decreases s.len(),
{
    if s.len() > 0 {
        let t = s.drop_last();
        let q = sorted::<(String, ServiceSnapshot)>(t);
        lemma_sorted_distinct(t);
        assert(!has_key(q, s.last().0)) by {
            if has_key(q, s.last().0) {
                let k = choose|k: int| 0 <= k < t.len() && (#[trigger] t[k]).0 == s.last().0;
                assert(s[k].0 != s[s.len() - 1].0);
            }
        }
        lemma_placed_distinct(q, s.last());
        assert forall|k: Seq<char>|
            #[trigger] has_key(sorted::<(String, ServiceSnapshot)>(s), k) implies has_key(
            s,
            k,
        ) by {
            if k != s.last().0 {
                let m = choose|m: int| 0 <= m < t.len() && (#[trigger] t[m]).0 == k;
                assert(s[m].0 == k);
            } else {
                assert(s[s.len() - 1].0 == k);
            }
        }
    }
}

/// What is kept of a station is on the map and leaves from that station.
proof fn lemma_kept_from(view: Snapshots, crs: Seq<char>, per_origin: nat, i: int)
    requires
        0 <= i < kept(view, crs, per_origin).len(),
    ensures
        view.contains(kept(view, crs, per_origin)[i]),
        kept(view, crs, per_origin)[i].1.origin_crs == crs,
{
    broadcast use vstd::seq_lib::group_to_multiset_ensures;

    let group = pairs_of_origin(view, crs);
    let ordered = sorted::<(String, ServiceSnapshot)>(group);
    sorting_keeps_the_values::<(String, ServiceSnapshot)>(group);
    let p = kept(view, crs, per_origin)[i];
    assert(ordered[i] == p);
    assert(ordered.contains(p));
    assert(ordered.to_multiset().contains(p));
    assert(group.contains(p));
    lemma_pairs_of_origin(view, crs, p);
}

proof fn lemma_kept_of_from(view: Snapshots, stations: Seq<Seq<char>>, per_origin: nat, i: int)
    requires
        0 <= i < kept_of(view, stations, per_origin).len(),
    ensures
        view.contains(kept_of(view, stations, per_origin)[i]),
        stations.contains(kept_of(view, stations, per_origin)[i].1.origin_crs),
    decreases stations.len(),
{
    let front = kept_of(view, stations.drop_last(), per_origin);
    if i < front.len() {
        lemma_kept_of_from(view, stations.drop_last(), per_origin, i);
        let c = front[i].1.origin_crs;
        let k = choose|k: int| 0 <= k < stations.drop_last().len() && stations.drop_last()[k] == c;
        assert(stations[k] == c);
    } else {
        lemma_kept_from(view, stations.last(), per_origin, i - front.len());
        assert(stations[stations.len() - 1] == stations.last());
    }
}

spec fn no_repeats(v: Seq<Seq<char>>) -> bool {
    forall|i: int, j: int| 0 <= i < j < v.len() ==> #[trigger] v[i] != #[trigger] v[j]
}

proof fn lemma_stations_of(view: Snapshots)
    ensures
        no_repeats(stations_of(view)),
        forall|i: int|
            0 <= i < view.len() ==> stations_of(view).contains((#[trigger] view[i]).1.origin_crs),
    decreases view.len(),
{
    if view.len() > 0 {
        let t = view.drop_last();
        lemma_stations_of(t);
        let front = stations_of(t);
        let all = stations_of(view);
        assert forall|i: int| 0 <= i < view.len() implies all.contains(
            (#[trigger] view[i]).1.origin_crs,
        ) by {
            let c = view[i].1.origin_crs;
            if i < t.len() {
                assert(t[i] == view[i]);
                let k = choose|k: int| 0 <= k < front.len() && front[k] == c;
                assert(all[k] == c);
            } else if !front.contains(c) {
                assert(all[all.len() - 1] == c);
            }
        }
        assert forall|i: int, j: int| 0 <= i < j < all.len() implies #[trigger] all[i]
            != #[trigger] all[j] by {
            if j == front.len() {
                assert(front.contains(front[i]));
            }
        }
    }
}

proof fn lemma_kept_of_distinct(view: Snapshots, stations: Seq<Seq<char>>, per_origin: nat)
    requires
        distinct_keys(view),
        no_repeats(stations),
    ensures
        distinct_keys(kept_of(view, stations, per_origin)),
    decreases stations.len(),
{
    if stations.len() > 0 {
        let before = stations.drop_last();
        lemma_kept_of_distinct(view, before, per_origin);
        let a = kept_of(view, before, per_origin);
        let b = kept(view, stations.last(), per_origin);
        let group = pairs_of_origin(view, stations.last());
        lemma_pairs_of_origin_distinct(view, stations.last());
        lemma_sorted_distinct(group);
        let r = a + b;
        assert forall|i: int, j: int| 0 <= i < j < r.len() implies (#[trigger] r[i]).0 != (
        #[trigger] r[j]).0 by {
            if i < a.len() && j >= a.len() {
                let p = a[i];
                let q = b[j - a.len()];
                lemma_kept_of_from(view, before, per_origin, i);
                lemma_kept_from(view, stations.last(), per_origin, j - a.len());
                if p.0 == q.0 {
                    let m = choose|m: int| 0 <= m < view.len() && view[m] == p;
                    let n = choose|n: int| 0 <= n < view.len() && view[n] == q;
                    assert(m == n);
                    let k = choose|k: int| 0 <= k < before.len() && before[k] == p.1.origin_crs;
                    assert(stations[k] != stations[stations.len() - 1]);
                }
            } else if i >= a.len() {
                assert(b[i - a.len()].0 != b[j - a.len()].0);
            }
        }
    }
}

/// No service stands in the window twice.
pub proof fn window_keeps_keys_distinct(view: Snapshots, per_origin: nat)
    requires
        distinct_keys(view),
    ensures
        distinct_keys(windowed(view, per_origin)),
{
    lemma_stations_of(view);
    lemma_kept_of_distinct(view, stations_of(view), per_origin);
}

/// A view with services on it has a window with services in it.
pub proof fn window_is_not_empty(view: Snapshots, per_origin: nat)
    requires
        view.len() > 0,
        per_origin > 0,
    ensures
        windowed(view, per_origin).len() > 0,
{
    let crs = view.last().1.origin_crs;
    let stations = stations_of(view);
    lemma_stations_of(view);
    assert(stations.contains(view[view.len() - 1].1.origin_crs));
    lemma_kept_of_origin(view, stations, per_origin, crs);
    let group = pairs_of_origin(view, crs);
    sorting_keeps_the_values::<(String, ServiceSnapshot)>(group);
    assert(kept(view, crs, per_origin).len() > 0);
    if windowed(view, per_origin).len() == 0 {
        assert(of_origin(windowed(view, per_origin), crs).len() == 0);
    }
}

/// The window holds services of the view, unchanged, and nothing else.
pub proof fn window_is_part_of_the_view(view: Snapshots, per_origin: nat, i: int)
    requires
        0 <= i < windowed(view, per_origin).len(),
    ensures
        view.contains(windowed(view, per_origin)[i]),
{
    lemma_kept_of_from(view, stations_of(view), per_origin, i);
}

spec fn services(s: Snapshots) -> Seq<ServiceView> {
    Seq::new(s.len(), |i: int| s[i].1)
}

proof fn lemma_origin_services(view: Snapshots, crs: Seq<char>)
    ensures
        services(pairs_of_origin(view, crs)) == of_origin(view, crs),
    decreases view.len(),
{
    if view.len() > 0 {
        lemma_origin_services(view.drop_last(), crs);
        assert(services(pairs_of_origin(view, crs)) =~= of_origin(view, crs));
    } else {
        assert(services(pairs_of_origin(view, crs)) =~= of_origin(view, crs));
    }
}

proof fn lemma_placed_services(s: Snapshots, x: (Seq<char>, ServiceView))
    ensures
        services(placed::<(String, ServiceSnapshot)>(s, x)) == placed::<ServiceSnapshot>(
            services(s),
            x.1,
        ),
    decreases s.len(),
{
    if s.len() > 0 && !<(String, ServiceSnapshot)>::rank_le(s.last(), x) {
        lemma_placed_services(s.drop_last(), x);
        assert(services(s).drop_last() =~= services(s.drop_last()));
        assert(services(placed::<(String, ServiceSnapshot)>(s, x)) =~= placed::<ServiceSnapshot>(
            services(s),
            x.1,
        ));
    } else {
        assert(services(s.push(x)) =~= services(s).push(x.1));
    }
}

proof fn lemma_sorted_services(s: Snapshots)
    ensures
        services(sorted::<(String, ServiceSnapshot)>(s)) == sorted::<ServiceSnapshot>(services(s)),
    decreases s.len(),
{
    if s.len() > 0 {
        lemma_sorted_services(s.drop_last());
        lemma_placed_services(sorted::<(String, ServiceSnapshot)>(s.drop_last()), s.last());
        assert(services(s).drop_last() =~= services(s.drop_last()));
    } else {
        assert(services(sorted::<(String, ServiceSnapshot)>(s)) =~= sorted::<ServiceSnapshot>(
            services(s),
        ));
    }
}

proof fn lemma_of_origin_concat(a: Snapshots, b: Snapshots, crs: Seq<char>)
    ensures
        of_origin(a + b, crs) == of_origin(a, crs) + of_origin(b, crs),
    decreases b.len(),
{
    if b.len() == 0 {
        assert(a + b =~= a);
        assert(of_origin(a, crs) + of_origin(b, crs) =~= of_origin(a, crs));
    } else {
        lemma_of_origin_concat(a, b.drop_last(), crs);
        assert((a + b).drop_last() =~= a + b.drop_last());
        assert(of_origin(a + b, crs) =~= of_origin(a, crs) + of_origin(b, crs));
    }
}

proof fn lemma_of_origin_all(s: Snapshots, crs: Seq<char>)
    requires
        forall|i: int| 0 <= i < s.len() ==> (#[trigger] s[i]).1.origin_crs == crs,
    ensures
        of_origin(s, crs) == services(s),
    decreases s.len(),
{
    if s.len() > 0 {
        assert(s[s.len() - 1].1.origin_crs == crs);
        lemma_of_origin_all(s.drop_last(), crs);
    }
    assert(of_origin(s, crs) =~= services(s));
}

proof fn lemma_of_origin_none(s: Snapshots, crs: Seq<char>)
    requires
        forall|i: int| 0 <= i < s.len() ==> (#[trigger] s[i]).1.origin_crs != crs,
    ensures
        of_origin(s, crs).len() == 0,
    decreases s.len(),
{
    if s.len() > 0 {
        assert(s[s.len() - 1].1.origin_crs != crs);
        lemma_of_origin_none(s.drop_last(), crs);
    }
}

/// The services of one station among what is kept of several.
proof fn lemma_kept_of_origin(
    view: Snapshots,
    stations: Seq<Seq<char>>,
    per_origin: nat,
    crs: Seq<char>,
)
    requires
        no_repeats(stations),
    ensures
        of_origin(kept_of(view, stations, per_origin), crs) == if stations.contains(crs) {
            services(kept(view, crs, per_origin))
        } else {
            Seq::empty()
        },
    decreases stations.len(),
{
    if stations.len() > 0 {
        let before = stations.drop_last();
        let last = stations.last();
        let a = kept_of(view, before, per_origin);
        let b = kept(view, last, per_origin);
        lemma_kept_of_origin(view, before, per_origin, crs);
        lemma_of_origin_concat(a, b, crs);
        assert forall|i: int| 0 <= i < b.len() implies (#[trigger] b[i]).1.origin_crs == last by {
            lemma_kept_from(view, last, per_origin, i);
        }
        if crs == last {
            assert(!before.contains(crs)) by {
                if before.contains(crs) {
                    let k = choose|k: int| 0 <= k < before.len() && before[k] == crs;
                    assert(stations[k] != stations[stations.len() - 1]);
                }
            }
            assert(stations[stations.len() - 1] == crs);
            lemma_of_origin_all(b, crs);
            assert(of_origin(a, crs) + of_origin(b, crs) =~= services(b));
        } else {
            lemma_of_origin_none(b, crs);
            assert(of_origin(a, crs) + of_origin(b, crs) =~= of_origin(a, crs));
            if stations.contains(crs) {
                let k = choose|k: int| 0 <= k < stations.len() && stations[k] == crs;
                assert(before[k] == crs);
            } else if before.contains(crs) {
                let k = choose|k: int| 0 <= k < before.len() && before[k] == crs;
                assert(stations[k] == crs);
            }
        }
    }
}

proof fn lemma_of_origin_empty(view: Snapshots, crs: Seq<char>)
    requires
        !stations_of(view).contains(crs),
    ensures
        of_origin(view, crs).len() == 0,
{
    lemma_stations_of(view);
    assert forall|i: int| 0 <= i < view.len() implies (#[trigger] view[i]).1.origin_crs != crs by {
        assert(stations_of(view).contains(view[i].1.origin_crs));
    }
    lemma_of_origin_none(view, crs);
}

/// For each station the window shows what the whole view would show.
pub proof fn window_shows_the_same(view: Snapshots, crs: Seq<char>)
    ensures
        shown(windowed(view, DISPLAY_ROWS as nat), crs) == shown(view, crs),
        of_origin(windowed(view, DISPLAY_ROWS as nat), crs).len() == 0 <==> of_origin(
            view,
            crs,
        ).len() == 0,
{
    let n = DISPLAY_ROWS as nat;
    let w = windowed(view, n);
    lemma_stations_of(view);
    lemma_kept_of_origin(view, stations_of(view), n, crs);
    let group = pairs_of_origin(view, crs);
    let ordered = sorted::<(String, ServiceSnapshot)>(group);
    let mine = kept(view, crs, n);
    lemma_origin_services(view, crs);
    lemma_sorted_services(group);
    sorting_keeps_the_values::<(String, ServiceSnapshot)>(group);
    let whole = sorted::<ServiceSnapshot>(of_origin(view, crs));
    assert(services(ordered) == whole);
    assert(services(mine) =~= first(whole, n));
    if stations_of(view).contains(crs) {
        assert(of_origin(w, crs) == services(mine));
        sorting_puts_in_order::<ServiceSnapshot>(of_origin(view, crs));
        assert(ascending::<ServiceSnapshot>(first(whole, n)));
        sorting_leaves_order_alone::<ServiceSnapshot>(first(whole, n));
        assert(first(first(whole, n), n) =~= first(whole, n));
    } else {
        lemma_of_origin_empty(view, crs);
        assert(of_origin(view, crs) =~= Seq::<ServiceView>::empty());
        assert(of_origin(w, crs) =~= Seq::<ServiceView>::empty());
    }
}

proof fn lemma_window_sections(
    subs: Seq<SubscriptionView>,
    view: Snapshots,
    changed: Seq<Seq<char>>,
    names: Seq<(Seq<char>, Seq<char>)>,
    channel: Channel,
    stations: Seq<Seq<char>>,
)
    ensures
        sections(subs, windowed(view, DISPLAY_ROWS as nat), changed, names, channel, stations)
            == sections(subs, view, changed, names, channel, stations),
    decreases stations.len(),
{
    if stations.len() > 0 {
        lemma_window_sections(subs, view, changed, names, channel, stations.drop_last());
        window_shows_the_same(view, stations.last());
        let w = windowed(view, DISPLAY_ROWS as nat);
        assert(section(subs, w, changed, names, channel, stations.last()) == section(
            subs,
            view,
            changed,
            names,
            channel,
            stations.last(),
        ));
    }
}

/// The window is what the digest shows: services outside it have no row there.
pub proof fn digest_shows_the_window(
    subs: Seq<SubscriptionView>,
    view: Snapshots,
    changed: Seq<Seq<char>>,
    now: Seq<char>,
    names: Seq<(Seq<char>, Seq<char>)>,
    channel: Channel,
)
    ensures
        digest(subs, windowed(view, DISPLAY_ROWS as nat), changed, now, names, channel) == digest(
            subs,
            view,
            changed,
            now,
            names,
            channel,
        ),
{
    lemma_window_sections(subs, view, changed, names, channel, origins(subs));
}

/// The window has room for so many services of each station.
pub proof fn window_is_no_larger(view: Snapshots, per_origin: nat, crs: Seq<char>)
    ensures
        of_origin(windowed(view, per_origin), crs).len() <= per_origin,
{
    lemma_stations_of(view);
    lemma_kept_of_origin(view, stations_of(view), per_origin, crs);
}

proof fn lemma_kept_of_holds(
    view: Snapshots,
    stations: Seq<Seq<char>>,
    per_origin: nat,
    crs: Seq<char>,
    i: int,
)
    requires
        stations.contains(crs),
        0 <= i < kept(view, crs, per_origin).len(),
    ensures
        kept_of(view, stations, per_origin).contains(kept(view, crs, per_origin)[i]),
    decreases stations.len(),
{
    let t = stations.drop_last();
    let a = kept_of(view, t, per_origin);
    let b = kept(view, stations.last(), per_origin);
    let x = kept(view, crs, per_origin)[i];
    if stations.last() == crs {
        assert((a + b)[a.len() + i] == x);
    } else {
        let k = choose|k: int| 0 <= k < stations.len() && stations[k] == crs;
        assert(t[k] == crs);
        lemma_kept_of_holds(view, t, per_origin, crs, i);
        let j = choose|j: int| 0 <= j < a.len() && a[j] == x;
        assert((a + b)[j] == x);
    }
}

/// A service is left out of the window only for want of room: the services of its
/// station in the window are as many as there is room for, and none of them leaves
/// after it.
pub proof fn window_leaves_out_the_later_trains(
    view: Snapshots,
    per_origin: nat,
    p: (Seq<char>, ServiceView),
    q: (Seq<char>, ServiceView),
)
    requires
        view.contains(p),
        !windowed(view, per_origin).contains(p),
        windowed(view, per_origin).contains(q),
        q.1.origin_crs == p.1.origin_crs,
    ensures
        of_origin(windowed(view, per_origin), p.1.origin_crs).len() == per_origin,
        lex_le(q.1.std, p.1.std),
{
    broadcast use vstd::seq_lib::group_to_multiset_ensures;

    let crs = p.1.origin_crs;
    let stations = stations_of(view);
    let group = pairs_of_origin(view, crs);
    let ordered = sorted::<(String, ServiceSnapshot)>(group);
    let mine = kept(view, crs, per_origin);
    let w = windowed(view, per_origin);
    lemma_stations_of(view);
    lemma_kept_of_origin(view, stations, per_origin, crs);
    lemma_pairs_of_origin(view, crs, p);
    sorting_keeps_the_values::<(String, ServiceSnapshot)>(group);
    sorting_puts_in_order::<(String, ServiceSnapshot)>(group);
    let at = choose|at: int| 0 <= at < view.len() && view[at] == p;
    assert(stations.contains(view[at].1.origin_crs));
    assert(group.to_multiset().contains(p));
    assert(ordered.to_multiset().contains(p));
    let m = choose|m: int| 0 <= m < ordered.len() && ordered[m] == p;
    if m < mine.len() {
        lemma_kept_of_holds(view, stations, per_origin, crs, m);
    }
    assert(m >= mine.len());
    assert(mine.len() == per_origin);
    let k = choose|k: int| 0 <= k < w.len() && w[k] == q;
    lemma_kept_of_in(view, stations, per_origin, k);
    let i = choose|i: int| 0 <= i < mine.len() && mine[i] == q;
    assert(ordered[i] == q);
}

/// What is kept of several stations is what is kept of one of them.
proof fn lemma_kept_of_in(view: Snapshots, stations: Seq<Seq<char>>, per_origin: nat, k: int)
    requires
        0 <= k < kept_of(view, stations, per_origin).len(),
    ensures
        kept(view, kept_of(view, stations, per_origin)[k].1.origin_crs, per_origin).contains(
            kept_of(view, stations, per_origin)[k],
        ),
    decreases stations.len(),
{
    let a = kept_of(view, stations.drop_last(), per_origin);
    if k < a.len() {
        lemma_kept_of_in(view, stations.drop_last(), per_origin, k);
    } else {
        let b = kept(view, stations.last(), per_origin);
        lemma_kept_from(view, stations.last(), per_origin, k - a.len());
        assert(b[k - a.len()] == (a + b)[k]);
    }
}

} // verus!
