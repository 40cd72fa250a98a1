//! What changed on a board, and the message that says so.

use crate::board::{
    html_lines, html_table, plain_lines, plain_table, status, status_text, Row, RowView,
};
use crate::darwin::{Service, ServiceView};
use crate::domain::{Channel, Subscription, SubscriptionView};
use crate::markup::{esc, escaped};
use crate::sorting::{sort, sorted, Ranked};
use crate::table::{distinct_keys, lemma_key_position_is, value_of, TextMap};
use crate::text::{
    clone_opt, clone_texts, decimal, join, join_all, lemma_lex_total, lemma_lex_transitive, lex_le,
    lists, number_text, opt_text, position_of, precedes, same, text_position, texts, views,
};
use vstd::prelude::*;
use vstd::string::*;

pub use crate::board::{col_width, DISPLAY_ROWS};

verus! {

/// A snapshot of a single service at a point in time.
#[derive(Debug)]
pub struct ServiceSnapshot {
    pub service_id: String,
    pub origin_crs: String,
    pub std: String,
    pub etd: String,
    pub platform: Option<String>,
    pub destination_crs: String,
    pub destination_name: String,
    pub is_cancelled: bool,
    pub cancel_reason: Option<String>,
    pub delay_reason: Option<String>,
    pub calling_point_crs: Vec<String>,
}

impl View for ServiceSnapshot {
    type V = ServiceView;

    open spec fn view(&self) -> ServiceView {
        ServiceView {
            service_id: self.service_id@,
            origin_crs: self.origin_crs@,
            std: self.std@,
            etd: self.etd@,
            platform: opt_text(self.platform),
            destination_crs: self.destination_crs@,
            destination_name: self.destination_name@,
            is_cancelled: self.is_cancelled,
            cancel_reason: opt_text(self.cancel_reason),
            delay_reason: opt_text(self.delay_reason),
            calling_point_crs: texts(self.calling_point_crs@),
        }
    }
}

impl Clone for ServiceSnapshot {
    fn clone(&self) -> (r: Self)
        ensures
            r@ == self@,
    {
        ServiceSnapshot {
            service_id: self.service_id.clone(),
            origin_crs: self.origin_crs.clone(),
            std: self.std.clone(),
            etd: self.etd.clone(),
            platform: clone_opt(&self.platform),
            destination_crs: self.destination_crs.clone(),
            destination_name: self.destination_name.clone(),
            is_cancelled: self.is_cancelled,
            cancel_reason: clone_opt(&self.cancel_reason),
            delay_reason: clone_opt(&self.delay_reason),
            calling_point_crs: clone_texts(&self.calling_point_crs),
        }
    }
}

impl ServiceSnapshot {
    /// The snapshot of a service as it stands on the board.
    pub fn from(s: &Service) -> (r: Self)
        ensures
            r@ == s@,
    {
        ServiceSnapshot {
            service_id: s.service_id.clone(),
            origin_crs: s.origin_crs.clone(),
            std: s.std.clone(),
            etd: s.etd.clone(),
            platform: clone_opt(&s.platform),
            destination_crs: s.destination_crs.clone(),
            destination_name: s.destination_name.clone(),
            is_cancelled: s.is_cancelled,
            cancel_reason: clone_opt(&s.cancel_reason),
            delay_reason: clone_opt(&s.delay_reason),
            calling_point_crs: clone_texts(&s.calling_point_crs),
        }
    }
}

/// Snapshots rank by scheduled departure time. The order of texts is the order
/// of times where they are written HH:MM.
impl Ranked for ServiceSnapshot {
    open spec fn rank_le(a: ServiceView, b: ServiceView) -> bool {
        lex_le(a.std, b.std)
    }

    fn is_rank_le(a: &ServiceSnapshot, b: &ServiceSnapshot) -> (r: bool) {
        precedes(a.std.as_str(), b.std.as_str())
    }

    proof fn rank_total(a: ServiceView, b: ServiceView) {
        lemma_lex_total(a.std, b.std);
    }

    proof fn rank_transitive(a: ServiceView, b: ServiceView, c: ServiceView) {
        lemma_lex_transitive(a.std, b.std, c.std);
    }
}

/// The kind of change detected on a single service.
#[derive(Debug, Clone, Copy, PartialEq, Eq, Structural)]
pub enum ChangeKind {
    NewService,
    Cancelled,
    DelayChanged,
    PlatformChanged,
    StdChanged,
    ReasonChanged,
}

#[derive(Debug)]
pub struct ServiceChange {
    pub snapshot: ServiceSnapshot,
    pub kind: ChangeKind,
}

#[verifier::ext_equal]
pub struct ServiceChangeView {
    pub snapshot: ServiceView,
    pub kind: ChangeKind,
}

impl View for ServiceChange {
    type V = ServiceChangeView;

    open spec fn view(&self) -> ServiceChangeView {
        ServiceChangeView { snapshot: self.snapshot@, kind: self.kind }
    }
}

impl Clone for ServiceChange {
    fn clone(&self) -> (r: Self)
        ensures
            r@ == self@,
    {
        ServiceChange { snapshot: self.snapshot.clone(), kind: self.kind }
    }
}

/// The pairs of a map of snapshots.
pub type Snapshots = Seq<(Seq<char>, ServiceView)>;

/// The reason that counts: that of the cancellation before that of the delay.
pub open spec fn reason(s: ServiceView) -> Option<Seq<char>> {
    match s.cancel_reason {
        Some(r) => Some(r),
        None => s.delay_reason,
    }
}

/// One change where the condition holds.
pub open spec fn when(condition: bool, kind: ChangeKind) -> Seq<ChangeKind> {
    if condition {
        seq![kind]
    } else {
        Seq::empty()
    }
}

/// What changed on one service. A service that was not there before is new.
pub open spec fn change_kinds(old: Option<ServiceView>, new: ServiceView) -> Seq<ChangeKind> {
    match old {
        None => seq![ChangeKind::NewService],
        Some(old) => {
            let called_off = new.is_cancelled && !old.is_cancelled;
            when(old.std != new.std, ChangeKind::StdChanged) + when(
                old.etd != new.etd && called_off,
                ChangeKind::Cancelled,
            ) + when(old.etd != new.etd && !called_off, ChangeKind::DelayChanged) + when(
                old.platform != new.platform,
                ChangeKind::PlatformChanged,
            ) + when(reason(old) != reason(new), ChangeKind::ReasonChanged)
        },
    }
}

/// What stood under a key before.
pub open spec fn before(old: Option<Snapshots>, id: Seq<char>) -> Option<ServiceView> {
    match old {
        None => None,
        Some(m) => value_of(m, id),
    }
}

/// One change for each kind, on one service.
pub open spec fn changes_of(old: Option<ServiceView>, new: ServiceView) -> Seq<ServiceChangeView> {
    Seq::new(
        change_kinds(old, new).len(),
        |i: int| ServiceChangeView { snapshot: new, kind: change_kinds(old, new)[i] },
    )
}

/// The changes on all services of the new map, in its order.
pub open spec fn changes(old: Option<Snapshots>, new: Snapshots) -> Seq<ServiceChangeView>
    decreases new.len(),
{
    if new.len() == 0 {
        Seq::empty()
    } else {
        changes(old, new.drop_last()) + changes_of(before(old, new.last().0), new.last().1)
    }
}

fn same_opt(a: &Option<String>, b: &Option<String>) -> (r: bool)
    ensures
        r == (opt_text(*a) == opt_text(*b)),
{
    match (a, b) {
        (Some(x), Some(y)) => same(x.as_str(), y.as_str()),
        (None, None) => true,
        _ => false,
    }
}

fn reason_of(s: &ServiceSnapshot) -> (r: &Option<String>)
    ensures
        opt_text(*r) == reason(s@),
{
    if s.cancel_reason.is_some() {
        &s.cancel_reason
    } else {
        &s.delay_reason
    }
}

/// What changed on one service.
fn kinds(old: Option<&ServiceSnapshot>, new: &ServiceSnapshot) -> (r: Vec<ChangeKind>)
    ensures
        r@ == change_kinds(
            match old {
                Some(o) => Some(o@),
                None => None,
            },
            new@,
        ),
{
    let mut out: Vec<ChangeKind> = Vec::new();
    match old {
        None => {
            out.push(ChangeKind::NewService);
        },
        Some(o) => {
            if !same(o.std.as_str(), new.std.as_str()) {
                out.push(ChangeKind::StdChanged);
            }
            if !same(o.etd.as_str(), new.etd.as_str()) {
                if new.is_cancelled && !o.is_cancelled {
                    out.push(ChangeKind::Cancelled);
                } else {
                    out.push(ChangeKind::DelayChanged);
                }
            }
            if !same_opt(&o.platform, &new.platform) {
                out.push(ChangeKind::PlatformChanged);
            }
            if !same_opt(reason_of(o), reason_of(new)) {
                out.push(ChangeKind::ReasonChanged);
            }
        },
    }
    assert(out@ =~= change_kinds(
        match old {
            Some(o) => Some(o@),
            None => None,
        },
        new@,
    ));
    out
}

/// Compute changes between the old snapshot map and the new one.
///
/// Both maps are keyed by service ID.
pub fn diff(old: Option<&TextMap<ServiceSnapshot>>, new: &TextMap<ServiceSnapshot>) -> (r: Vec<
    ServiceChange,
>)
    ensures
        views(r@) == changes(
            match old {
                Some(o) => Some(o@),
                None => None,
            },
            new@,
        ),
{
    let ghost was = match old {
        Some(o) => Some(o@),
        None => None,
    };
    let mut out: Vec<ServiceChange> = Vec::new();
    let mut i: usize = 0;
    assert(views(out@) =~= Seq::<ServiceChangeView>::empty());
    assert(new@.take(0) =~= Seq::<(Seq<char>, ServiceView)>::empty());
    while i < new.entries.len()
        invariant
            0 <= i <= new.entries@.len(),
            was == (match old {
                Some(o) => Some(o@),
                None => None,
            }),
            views(out@) == changes(was, new@.take(i as int)),
        decreases new.entries.len() - i,
    {
        let entry = &new.entries[i];
        let found = match old {
            Some(o) => o.get(entry.0.as_str()),
            None => None,
        };
        let all = kinds(found, &entry.1);
        let ghost base = views(out@);
        let ghost here = changes_of(before(was, entry.0@), entry.1@);
        let mut k: usize = 0;
        assert(here.take(0) =~= Seq::<ServiceChangeView>::empty());
        assert(base + here.take(0) =~= base);
        while k < all.len()
            invariant
                0 <= k <= all@.len(),
                all@ == change_kinds(before(was, entry.0@), entry.1@),
                here == changes_of(before(was, entry.0@), entry.1@),
                views(out@) == base + here.take(k as int),
            decreases all.len() - k,
        {
            let ghost prior = views(out@);
            out.push(ServiceChange { snapshot: entry.1.clone(), kind: all[k] });
            assert(views(out@) =~= prior.push(here[k as int]));
            assert(base + here.take(k + 1) =~= prior.push(here[k as int]));
            k += 1;
        }
        assert(here.take(k as int) =~= here);
        assert(new@.take(i + 1).drop_last() =~= new@.take(i as int));
        i += 1;
    }
    assert(new@.take(i as int) =~= new@);
    out
}

// ---------------------------------------------------------------------------
// Laws on changes
// ---------------------------------------------------------------------------

/// The two services show alike: times, platform and reason.
pub open spec fn shows_alike(a: ServiceView, b: ServiceView) -> bool {
    &&& a.std == b.std
    &&& a.etd == b.etd
    &&& a.platform == b.platform
    &&& reason(a) == reason(b)
}

/// A service changed unless it was there before and shows as it did.
pub proof fn change_is_what_shows(old: Option<ServiceView>, new: ServiceView)
    ensures
        change_kinds(old, new).len() == 0 <==> old is Some && shows_alike(old->0, new),
{
}

/// The service was there before and shows as it did.
pub open spec fn is_old_news(old: Option<Snapshots>, now: (Seq<char>, ServiceView)) -> bool {
    let was = before(old, now.0);
    was is Some && shows_alike(was->0, now.1)
}

/// There is nothing to tell if and only if every service on the new map was on
/// the old one and shows as it did there.
pub proof fn nothing_to_tell(old: Option<Snapshots>, new: Snapshots)
    ensures
        changes(old, new).len() == 0 <==> forall|i: int|
            0 <= i < new.len() ==> is_old_news(old, #[trigger] new[i]),
    decreases new.len(),
{
    if new.len() > 0 {
        let t = new.drop_last();
        nothing_to_tell(old, t);
        change_is_what_shows(before(old, new.last().0), new.last().1);
        if changes(old, new).len() == 0 {
            assert forall|i: int| 0 <= i < new.len() implies is_old_news(old, #[trigger] new[i]) by {
                if i < t.len() {
                    assert(t[i] == new[i]);
                }
            }
        } else if forall|i: int| 0 <= i < new.len() ==> is_old_news(old, #[trigger] new[i]) {
            assert(is_old_news(old, new[new.len() - 1]));
            assert forall|i: int| 0 <= i < t.len() implies is_old_news(old, #[trigger] t[i]) by {
                assert(is_old_news(old, new[i]));
            }
        }
    }
}

/// A map does not differ from itself.
pub proof fn no_change_without_change(m: Snapshots)
    requires
        distinct_keys(m),
    ensures
        changes(Some(m), m).len() == 0,
{
    assert forall|i: int| 0 <= i < m.len() implies is_old_news(Some(m), #[trigger] m[i]) by {
        lemma_key_position_is(m, m[i].0, i);
    }
    nothing_to_tell(Some(m), m);
}

/// Each change is one on a service of the new map.
pub proof fn changes_are_on_the_new_map(old: Option<Snapshots>, new: Snapshots, i: int)
    requires
        0 <= i < changes(old, new).len(),
    ensures
        exists|k: int| 0 <= k < new.len() && (#[trigger] new[k]).1 == changes(old, new)[i].snapshot,
    decreases new.len(),
{
    let t = new.drop_last();
    if i < changes(old, t).len() {
        changes_are_on_the_new_map(old, t, i);
        let k = choose|k: int| 0 <= k < t.len() && (#[trigger] t[k]).1 == changes(old, t)[i].snapshot;
        assert(new[k] == t[k]);
    } else {
        assert(new[new.len() - 1] == new.last());
    }
}

// ---------------------------------------------------------------------------
// The digest
// ---------------------------------------------------------------------------

/// The text joins the list unless it is there already.
pub open spec fn with_text(v: Seq<Seq<char>>, t: Seq<char>) -> Seq<Seq<char>> {
    if v.contains(t) {
        v
    } else {
        v.push(t)
    }
}

/// The origin stations, in the order in which the subscriptions name them first.
pub open spec fn origins(subs: Seq<SubscriptionView>) -> Seq<Seq<char>>
    decreases subs.len(),
{
    if subs.len() == 0 {
        Seq::empty()
    } else {
        with_text(origins(subs.drop_last()), subs.last().origin_crs)
    }
}

/// The services that leave from a station, in the order of the map.
pub open spec fn of_origin(snapshots: Snapshots, crs: Seq<char>) -> Seq<ServiceView>
    decreases snapshots.len(),
{
    if snapshots.len() == 0 {
        Seq::empty()
    } else {
        let rest = of_origin(snapshots.drop_last(), crs);
        if snapshots.last().1.origin_crs == crs {
            rest.push(snapshots.last().1)
        } else {
            rest
        }
    }
}

/// The first so many values.
pub open spec fn first<T>(s: Seq<T>, n: nat) -> Seq<T> {
    if s.len() <= n {
        s
    } else {
        s.take(n as int)
    }
}

/// The services that a digest shows for a station: the first by departure time.
pub open spec fn shown(snapshots: Snapshots, crs: Seq<char>) -> Seq<ServiceView> {
    first(sorted::<ServiceSnapshot>(of_origin(snapshots, crs)), DISPLAY_ROWS as nat)
}

/// How many stops away the first wanted destination is that the train calls at.
pub open spec fn stops_to(wanted: Seq<Seq<char>>, calls: Seq<Seq<char>>) -> Option<nat>
    decreases wanted.len(),
{
    if wanted.len() == 0 {
        None
    } else if text_position(calls, wanted[0]) < calls.len() {
        Some((text_position(calls, wanted[0]) + 1) as nat)
    } else {
        stops_to(wanted.drop_first(), calls)
    }
}

/// How many stops away the train's first call is that a subscription names.
pub open spec fn stops_for(subs: Seq<SubscriptionView>, s: ServiceView) -> Option<nat>
    decreases subs.len(),
{
    if subs.len() == 0 {
        None
    } else if subs[0].origin_crs == s.origin_crs && stops_to(
        subs[0].destination_filter,
        s.calling_point_crs,
    ) is Some {
        stops_to(subs[0].destination_filter, s.calling_point_crs)
    } else {
        stops_for(subs.drop_first(), s)
    }
}

/// The destination's name, with the number of stops where it is known.
pub open spec fn named_with_stops(name: Seq<char>, stops: Option<nat>) -> Seq<char> {
    match stops {
        Some(n) => name + " "@ + decimal(n),
        None => name,
    }
}

pub open spec fn platform_shown(platform: Option<Seq<char>>) -> Seq<char> {
    match platform {
        Some(p) => p,
        None => "TBC"@,
    }
}

/// The row of a service in a digest.
pub open spec fn digest_row(
    subs: Seq<SubscriptionView>,
    changed: Seq<Seq<char>>,
    s: ServiceView,
) -> RowView {
    RowView {
        prefix: if changed.contains(s.service_id) {
            "* "@
        } else {
            "  "@
        },
        time: s.std,
        dest: named_with_stops(s.destination_name, stops_for(subs, s)),
        status: status(s.is_cancelled, s.cancel_reason, s.std, s.etd, s.delay_reason),
        plat: platform_shown(s.platform),
    }
}

pub open spec fn digest_rows(
    subs: Seq<SubscriptionView>,
    changed: Seq<Seq<char>>,
    services: Seq<ServiceView>,
) -> Seq<RowView> {
    Seq::new(services.len(), |i: int| digest_row(subs, changed, services[i]))
}

/// What a digest says of one station.
struct Section {
    crs: String,
    name: String,
    rows: Vec<String>,
}

#[verifier::ext_equal]
pub struct SectionView {
    pub crs: Seq<char>,
    pub name: Seq<char>,
    pub rows: Seq<Seq<char>>,
}

impl View for Section {
    type V = SectionView;

    closed spec fn view(&self) -> SectionView {
        SectionView { crs: self.crs@, name: self.name@, rows: texts(self.rows@) }
    }
}

/// The section of one station. A station without a name goes by its code.
pub open spec fn section(
    subs: Seq<SubscriptionView>,
    snapshots: Snapshots,
    changed: Seq<Seq<char>>,
    names: Seq<(Seq<char>, Seq<char>)>,
    channel: Channel,
    crs: Seq<char>,
) -> SectionView {
    let rows = digest_rows(subs, changed, shown(snapshots, crs));
    SectionView {
        crs,
        name: match value_of(names, crs) {
            Some(n) => n,
            None => crs,
        },
        rows: match channel {
            Channel::Telegram => html_lines(rows),
            Channel::Twilio => plain_lines(rows),
        },
    }
}

/// The sections of the stations from which a service leaves.
pub open spec fn sections(
    subs: Seq<SubscriptionView>,
    snapshots: Snapshots,
    changed: Seq<Seq<char>>,
    names: Seq<(Seq<char>, Seq<char>)>,
    channel: Channel,
    stations: Seq<Seq<char>>,
) -> Seq<SectionView>
    decreases stations.len(),
{
    if stations.len() == 0 {
        Seq::empty()
    } else {
        let rest = sections(subs, snapshots, changed, names, channel, stations.drop_last());
        if of_origin(snapshots, stations.last()).len() == 0 {
            rest
        } else {
            rest.push(section(subs, snapshots, changed, names, channel, stations.last()))
        }
    }
}

/// A section among others, for Telegram.
pub open spec fn html_section(s: SectionView) -> Seq<char> {
    "<b>"@ + escaped(s.name) + " ("@ + escaped(s.crs) + ")</b>\n<pre>"@ + join(s.rows, "\n"@)
        + "</pre>"@
}

/// A section among others, for SMS.
pub open spec fn plain_section(s: SectionView) -> Seq<char> {
    s.name + " ("@ + s.crs + "):\n"@ + join(s.rows, "\n"@)
}

pub open spec fn section_texts(all: Seq<SectionView>, channel: Channel) -> Seq<Seq<char>> {
    Seq::new(
        all.len(),
        |i: int|
            match channel {
                Channel::Telegram => html_section(all[i]),
                Channel::Twilio => plain_section(all[i]),
            },
    )
}

/// The message that holds the sections.
pub open spec fn digest_text(all: Seq<SectionView>, now: Seq<char>, channel: Channel) -> Seq<char> {
    match channel {
        Channel::Telegram => if all.len() == 1 {
            "<b>"@ + escaped(all[0].name) + " ("@ + escaped(all[0].crs) + ") "@ + escaped(now)
                + "</b>\n<pre>"@ + join(all[0].rows, "\n"@) + "</pre>"@
        } else {
            "<b>Departures "@ + escaped(now) + "</b>\n\n"@ + join(
                section_texts(all, channel),
                "\n\n"@,
            )
        },
        Channel::Twilio => if all.len() == 1 {
            all[0].name + " ("@ + all[0].crs + ") "@ + now + "\n"@ + join(all[0].rows, "\n"@)
        } else {
            "Departures "@ + now + "\n"@ + join(section_texts(all, channel), "\n"@)
        },
    }
}

/// The update message for one user; none where no service leaves from a
/// station that the user watches.
pub open spec fn digest(
    subs: Seq<SubscriptionView>,
    snapshots: Snapshots,
    changed: Seq<Seq<char>>,
    now: Seq<char>,
    names: Seq<(Seq<char>, Seq<char>)>,
    channel: Channel,
) -> Option<Seq<char>> {
    let all = sections(subs, snapshots, changed, names, channel, origins(subs));
    if all.len() == 0 {
        None
    } else {
        Some(digest_text(all, now, channel))
    }
}

/// The origin stations, in the order in which the subscriptions name them first.
pub fn origin_order(subs: &Vec<Subscription>) -> (r: Vec<String>)
    ensures
        texts(r@) == origins(views(subs@)),
{
    let ghost all = views(subs@);
    let mut out: Vec<String> = Vec::new();
    let mut i: usize = 0;
    assert(texts(out@) =~= Seq::<Seq<char>>::empty());
    assert(all.take(0) =~= Seq::<SubscriptionView>::empty());
    while i < subs.len()
        invariant
            0 <= i <= subs@.len(),
            all == views(subs@),
            texts(out@) == origins(all.take(i as int)),
        decreases subs.len() - i,
    {
        assert(all.take(i + 1).drop_last() =~= all.take(i as int));
        let ghost before = texts(out@);
        if !lists(&out, subs[i].origin_crs.as_str()) {
            out.push(subs[i].origin_crs.clone());
            assert(texts(out@) =~= before.push(all[i as int].origin_crs));
        }
        i += 1;
    }
    assert(all.take(i as int) =~= all);
    out
}

fn services_of(snapshots: &TextMap<ServiceSnapshot>, crs: &str) -> (r: Vec<ServiceSnapshot>)
    ensures
        views(r@) == of_origin(snapshots@, crs@),
{
    let ghost all = snapshots@;
    let mut out: Vec<ServiceSnapshot> = Vec::new();
    let mut i: usize = 0;
    assert(views(out@) =~= Seq::<ServiceView>::empty());
    assert(all.take(0) =~= Seq::<(Seq<char>, ServiceView)>::empty());
    while i < snapshots.entries.len()
        invariant
            0 <= i <= snapshots.entries@.len(),
            all == snapshots@,
            views(out@) == of_origin(all.take(i as int), crs@),
        decreases snapshots.entries.len() - i,
    {
        assert(all.take(i + 1).drop_last() =~= all.take(i as int));
        let ghost before = views(out@);
        let s = &snapshots.entries[i].1;
        if same(s.origin_crs.as_str(), crs) {
            out.push(s.clone());
            assert(views(out@) =~= before.push(s@));
        }
        i += 1;
    }
    assert(all.take(i as int) =~= all);
    out
}

fn stops_on_the_way(wanted: &Vec<String>, calls: &Vec<String>) -> (r: Option<u64>)
    ensures
        match r {
            Some(n) => stops_to(texts(wanted@), texts(calls@)) == Some(n as nat),
            None => stops_to(texts(wanted@), texts(calls@)) is None,
        },
{
    let ghost all = texts(wanted@);
    let mut i: usize = 0;
    assert(all.skip(0) =~= all);
    while i < wanted.len()
        invariant
            0 <= i <= wanted@.len(),
            all == texts(wanted@),
            stops_to(all, texts(calls@)) == stops_to(all.skip(i as int), texts(calls@)),
        decreases wanted.len() - i,
    {
        let n = position_of(calls, wanted[i].as_str());
        assert(all.skip(i as int)[0] == wanted@[i as int]@);
        if n < calls.len() {
            return Some(n as u64 + 1);
        }
        assert(all.skip(i as int).drop_first() =~= all.skip(i + 1));
        i += 1;
    }
    None
}

fn stops_wanted(subs: &Vec<Subscription>, s: &ServiceSnapshot) -> (r: Option<u64>)
    ensures
        match r {
            Some(n) => stops_for(views(subs@), s@) == Some(n as nat),
            None => stops_for(views(subs@), s@) is None,
        },
{
    let ghost all = views(subs@);
    let mut i: usize = 0;
    assert(all.skip(0) =~= all);
    while i < subs.len()
        invariant
            0 <= i <= subs@.len(),
            all == views(subs@),
            stops_for(all, s@) == stops_for(all.skip(i as int), s@),
        decreases subs.len() - i,
    {
        assert(all.skip(i as int)[0] == subs@[i as int]@);
        if same(subs[i].origin_crs.as_str(), s.origin_crs.as_str()) {
            let n = stops_on_the_way(&subs[i].destination_filter, &s.calling_point_crs);
            if n.is_some() {
                return n;
            }
        }
        assert(all.skip(i as int).drop_first() =~= all.skip(i + 1));
        i += 1;
    }
    None
}

/// The destination's name, with the number of stops where it is known.
pub fn destination_text(name: &str, stops: Option<u64>) -> (r: String)
    ensures
        r@ == named_with_stops(
            name@,
            match stops {
                Some(n) => Some(n as nat),
                None => None,
            },
        ),
{
    let mut dest = name.to_string();
    if let Some(n) = stops {
        dest.append(" ");
        dest.append(number_text(n).as_str());
    }
    dest
}

pub fn platform_text(platform: &Option<String>) -> (r: String)
    ensures
        r@ == platform_shown(opt_text(*platform)),
{
    match platform {
        Some(p) => p.clone(),
        None => "TBC".to_string(),
    }
}

fn rows_of(subs: &Vec<Subscription>, changed: &Vec<String>, services: &Vec<ServiceSnapshot>) -> (r:
    Vec<Row>)
    ensures
        views(r@) == digest_rows(
            views(subs@),
            texts(changed@),
            first(views(services@), DISPLAY_ROWS as nat),
        ),
{
    let ghost top = first(views(services@), DISPLAY_ROWS as nat);
    let ghost all = digest_rows(views(subs@), texts(changed@), top);
    let mut out: Vec<Row> = Vec::new();
    let mut i: usize = 0;
    while i < services.len() && i < DISPLAY_ROWS
        invariant
            0 <= i <= top.len(),
            top == first(views(services@), DISPLAY_ROWS as nat),
            all == digest_rows(views(subs@), texts(changed@), top),
            views(out@) == all.take(i as int),
        decreases services.len() - i,
    {
        let s = &services[i];
        let ghost before = views(out@);
        let row = Row {
            prefix: if lists(changed, s.service_id.as_str()) {
                "* ".to_string()
            } else {
                "  ".to_string()
            },
            time: s.std.clone(),
            dest: destination_text(s.destination_name.as_str(), stops_wanted(subs, s)),
            status: status_text(
                s.is_cancelled,
                &s.cancel_reason,
                s.std.as_str(),
                s.etd.as_str(),
                &s.delay_reason,
            ),
            plat: platform_text(&s.platform),
        };
        assert(top[i as int] == s@);
        assert(row@ == all[i as int]);
        out.push(row);
        assert(views(out@) =~= before.push(all[i as int]));
        assert(all.take(i + 1) =~= all.take(i as int).push(all[i as int]));
        i += 1;
    }
    assert(all.take(i as int) =~= all);
    out
}

fn collect_sections(
    subs: &Vec<Subscription>,
    snapshots: &TextMap<ServiceSnapshot>,
    changed: &Vec<String>,
    names: &TextMap<String>,
    channel: &Channel,
) -> (r: Vec<Section>)
    ensures
        views(r@) == sections(
            views(subs@),
            snapshots@,
            texts(changed@),
            names@,
            *channel,
            origins(views(subs@)),
        ),
{
    let stations = origin_order(subs);
    let ghost codes = texts(stations@);
    let mut out: Vec<Section> = Vec::new();
    let mut i: usize = 0;
    assert(views(out@) =~= Seq::<SectionView>::empty());
    assert(codes.take(0) =~= Seq::<Seq<char>>::empty());
    while i < stations.len()
        invariant
            0 <= i <= stations@.len(),
            codes == texts(stations@),
            views(out@) == sections(
                views(subs@),
                snapshots@,
                texts(changed@),
                names@,
                *channel,
                codes.take(i as int),
            ),
        decreases stations.len() - i,
    {
        assert(codes.take(i + 1).drop_last() =~= codes.take(i as int));
        let crs = &stations[i];
        let services = services_of(snapshots, crs.as_str());
        let n = services.len();
        if n > 0 {
            let ghost before = views(out@);
            let by_time = sort(services);
            let rows = rows_of(subs, changed, &by_time);
            let lines = match channel {
                Channel::Telegram => html_table(&rows),
                Channel::Twilio => plain_table(&rows),
            };
            let name = match names.get(crs.as_str()) {
                Some(name) => name.clone(),
                None => crs.clone(),
            };
            let part = Section { crs: crs.clone(), name, rows: lines };
            let ghost view = section(
                views(subs@),
                snapshots@,
                texts(changed@),
                names@,
                *channel,
                codes[i as int],
            );
            assert(part@ =~= view);
            out.push(part);
            assert(views(out@) =~= before.push(view));
        }
        i += 1;
    }
    assert(codes.take(i as int) =~= codes);
    out
}

fn section_lines(all: &Vec<Section>, channel: &Channel) -> (r: Vec<String>)
    ensures
        texts(r@) == section_texts(views(all@), *channel),
{
    let ghost lines = section_texts(views(all@), *channel);
    let mut out: Vec<String> = Vec::new();
    let mut i: usize = 0;
    while i < all.len()
        invariant
            0 <= i <= all@.len(),
            lines == section_texts(views(all@), *channel),
            texts(out@) == lines.take(i as int),
        decreases all.len() - i,
    {
        let ghost before = texts(out@);
        let s = &all[i];
        let line = match channel {
            Channel::Telegram => {
                let mut line = "<b>".to_string();
                line.append(esc(s.name.as_str()).as_str());
                line.append(" (");
                line.append(esc(s.crs.as_str()).as_str());
                line.append(")</b>\n<pre>");
                line.append(join_all(&s.rows, "\n").as_str());
                line.append("</pre>");
                line
            },
            Channel::Twilio => {
                let mut line = s.name.clone();
                line.append(" (");
                line.append(s.crs.as_str());
                line.append("):\n");
                line.append(join_all(&s.rows, "\n").as_str());
                line
            },
        };
        out.push(line);
        assert(texts(out@) =~= before.push(lines[i as int]));
        assert(lines.take(i + 1) =~= lines.take(i as int).push(lines[i as int]));
        i += 1;
    }
    assert(lines.take(i as int) =~= lines);
    out
}

/// Build a single consolidated update message for one user.
///
/// `snapshots` is the user's current view: service_id to snapshot, already
/// filtered to only include services the user is interested in.
///
/// `changed_ids` are the service IDs that changed this poll cycle.
/// Changed rows are prefixed with `*`; delayed/cancelled rows show the reason.
///
/// The output format is driven by `channel`: Telegram receives an HTML message
/// with `<pre>`-wrapped, column-aligned rows; Twilio/plain channels receive
/// compact plain text with single-space-separated fields and no markup.
///
/// `station_names` maps CRS codes to display names (e.g. "WAT" to "Waterloo").
/// If a code is not present the CRS is shown in its place.
///
/// Returns `None` if the snapshot is empty.
pub fn format_digest(
    subscriptions: &Vec<Subscription>,
    snapshots: &TextMap<ServiceSnapshot>,
    changed_ids: &Vec<String>,
    now_str: &str,
    station_names: &TextMap<String>,
    channel: &Channel,
) -> (r: Option<String>)
    ensures
        opt_text(r) == digest(
            views(subscriptions@),
            snapshots@,
            texts(changed_ids@),
            now_str@,
            station_names@,
            *channel,
        ),
{
    let all = collect_sections(subscriptions, snapshots, changed_ids, station_names, channel);
    if all.len() == 0 {
        return None;
    }
    let text = match channel {
        Channel::Telegram => {
            if all.len() == 1 {
                let s = &all[0];
                let mut text = "<b>".to_string();
                text.append(esc(s.name.as_str()).as_str());
                text.append(" (");
                text.append(esc(s.crs.as_str()).as_str());
                text.append(") ");
                text.append(esc(now_str).as_str());
                text.append("</b>\n<pre>");
                text.append(join_all(&s.rows, "\n").as_str());
                text.append("</pre>");
                text
            } else {
                let mut text = "<b>Departures ".to_string();
                text.append(esc(now_str).as_str());
                text.append("</b>\n\n");
                text.append(join_all(&section_lines(&all, channel), "\n\n").as_str());
                text
            }
        },
        Channel::Twilio => {
            if all.len() == 1 {
                let s = &all[0];
                let mut text = s.name.clone();
                text.append(" (");
                text.append(s.crs.as_str());
                text.append(") ");
                text.append(now_str);
                text.append("\n");
                text.append(join_all(&s.rows, "\n").as_str());
                text
            } else {
                let mut text = "Departures ".to_string();
                text.append(now_str);
                text.append("\n");
                text.append(join_all(&section_lines(&all, channel), "\n").as_str());
                text
            }
        },
    };
    assert(views(all@)[0] == all@[0]@);
    Some(text)
}

} // verus!
