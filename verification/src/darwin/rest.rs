//! The departure board as the LDBWS REST API (20220120 version) sends it.
//!
//! API: GET https://api1.raildata.org.uk/.../GetDepBoardWithDetails/{crs}
//! Auth: `x-apikey` request header.

use crate::darwin::{Service, ServiceView};
use crate::text::{clone_opt, opt_text, texts, trim, trimmed, views};
use crate::unicode::{to_upper, uppercase};
use vstd::prelude::*;
use vstd::string::*;

verus! {

// ---------------------------------------------------------------------------
// Wire types
// ---------------------------------------------------------------------------

/// A board. The field is absent where the station has no train services.
#[derive(Debug)]
pub struct StationBoard {
    pub train_services: Option<Vec<ServiceItem>>,
}

/// One train. Fields that the API leaves out are empty.
#[derive(Debug)]
pub struct ServiceItem {
    pub service_id: String,
    pub std: String,
    pub etd: String,
    pub platform: Option<String>,
    pub is_cancelled: bool,
    pub cancel_reason: Option<String>,
    pub delay_reason: Option<String>,
    pub destination: Vec<ServiceLocation>,
    /// Subsequent calling points: one group per train leg (for split services).
    pub subsequent_calling_points: Vec<CallingPointGroup>,
}

#[derive(Debug)]
pub struct ServiceLocation {
    pub location_name: String,
    pub crs: String,
}

#[derive(Debug)]
pub struct CallingPointGroup {
    pub calling_points: Vec<CallingPoint>,
}

#[derive(Debug)]
pub struct CallingPoint {
    pub crs: String,
}

#[verifier::ext_equal]
pub struct ServiceItemView {
    pub service_id: Seq<char>,
    pub std: Seq<char>,
    pub etd: Seq<char>,
    pub platform: Option<Seq<char>>,
    pub is_cancelled: bool,
    pub cancel_reason: Option<Seq<char>>,
    pub delay_reason: Option<Seq<char>>,
    /// Name and code of each destination.
    pub destination: Seq<(Seq<char>, Seq<char>)>,
    /// The codes of each group of calling points.
    pub subsequent_calling_points: Seq<Seq<Seq<char>>>,
}

impl View for ServiceLocation {
    type V = (Seq<char>, Seq<char>);

    open spec fn view(&self) -> (Seq<char>, Seq<char>) {
        (self.location_name@, self.crs@)
    }
}

impl View for CallingPoint {
    type V = Seq<char>;

    open spec fn view(&self) -> Seq<char> {
        self.crs@
    }
}

impl View for CallingPointGroup {
    type V = Seq<Seq<char>>;

    open spec fn view(&self) -> Seq<Seq<char>> {
        views(self.calling_points@)
    }
}

impl View for ServiceItem {
    type V = ServiceItemView;

    open spec fn view(&self) -> ServiceItemView {
        ServiceItemView {
            service_id: self.service_id@,
            std: self.std@,
            etd: self.etd@,
            platform: opt_text(self.platform),
            is_cancelled: self.is_cancelled,
            cancel_reason: opt_text(self.cancel_reason),
            delay_reason: opt_text(self.delay_reason),
            destination: views(self.destination@),
            subsequent_calling_points: views(self.subsequent_calling_points@),
        }
    }
}

impl View for StationBoard {
    type V = Option<Seq<ServiceItemView>>;

    open spec fn view(&self) -> Option<Seq<ServiceItemView>> {
        match self.train_services {
            Some(items) => Some(views(items@)),
            None => None,
        }
    }
}

// ---------------------------------------------------------------------------
// From the wire to the domain
// ---------------------------------------------------------------------------

/// The codes behind `so_far` with those of a group: trimmed and in upper case,
/// without the empty ones.
pub open spec fn with_codes(so_far: Seq<Seq<char>>, group: Seq<Seq<char>>) -> Seq<Seq<char>>
    decreases group.len(),
{
    if group.len() == 0 {
        so_far
    } else {
        let rest = with_codes(so_far, group.drop_last());
        let crs = uppercase(trim(group.last()));
        if crs.len() == 0 {
            rest
        } else {
            rest.push(crs)
        }
    }
}

/// The codes of all groups, one after the other.
pub open spec fn all_codes(groups: Seq<Seq<Seq<char>>>) -> Seq<Seq<char>>
    decreases groups.len(),
{
    if groups.len() == 0 {
        Seq::empty()
    } else {
        with_codes(all_codes(groups.drop_last()), groups.last())
    }
}

/// The service that an item describes; an item without an ID is none. The
/// origin is left open.
pub open spec fn service_of_item(item: ServiceItemView) -> Option<ServiceView> {
    if item.service_id.len() == 0 {
        None
    } else {
        Some(
            ServiceView {
                service_id: item.service_id,
                origin_crs: Seq::empty(),
                std: item.std,
                etd: if item.etd.len() == 0 {
                    "Unknown"@
                } else {
                    item.etd
                },
                platform: item.platform,
                destination_crs: if item.destination.len() > 0 {
                    item.destination[0].1
                } else {
                    Seq::empty()
                },
                destination_name: if item.destination.len() > 0 {
                    item.destination[0].0
                } else {
                    Seq::empty()
                },
                is_cancelled: item.is_cancelled,
                cancel_reason: item.cancel_reason,
                delay_reason: item.delay_reason,
                calling_point_crs: all_codes(item.subsequent_calling_points),
            },
        )
    }
}

/// The services that the items describe, in order.
pub open spec fn services_of_items(items: Seq<ServiceItemView>) -> Seq<ServiceView>
    decreases items.len(),
{
    if items.len() == 0 {
        Seq::empty()
    } else {
        let rest = services_of_items(items.drop_last());
        match service_of_item(items.last()) {
            Some(s) => rest.push(s),
            None => rest,
        }
    }
}

/// The services on a board.
pub open spec fn services_of_board(board: Option<Seq<ServiceItemView>>) -> Seq<ServiceView> {
    match board {
        Some(items) => services_of_items(items),
        None => Seq::empty(),
    }
}

fn calling_codes(groups: &Vec<CallingPointGroup>) -> (r: Vec<String>)
    ensures
        texts(r@) == all_codes(views(groups@)),
{
    let ghost all = views(groups@);
    let mut out: Vec<String> = Vec::new();
    let mut i: usize = 0;
    assert(all.take(0) =~= Seq::<Seq<Seq<char>>>::empty());
    assert(texts(out@) =~= Seq::<Seq<char>>::empty());
    while i < groups.len()
        invariant
            0 <= i <= groups@.len(),
            all == views(groups@),
            texts(out@) == all_codes(all.take(i as int)),
        decreases groups.len() - i,
    {
        assert(all.take(i + 1).drop_last() =~= all.take(i as int));
        let points = &groups[i].calling_points;
        let ghost base = texts(out@);
        let ghost group = views(points@);
        let mut k: usize = 0;
        assert(group.take(0) =~= Seq::<Seq<char>>::empty());
        while k < points.len()
            invariant
                0 <= k <= points@.len(),
                group == views(points@),
                texts(out@) == with_codes(base, group.take(k as int)),
            decreases points.len() - k,
        {
            assert(group.take(k + 1).drop_last() =~= group.take(k as int));
            let ghost before = texts(out@);
            let crs = to_upper(trimmed(points[k].crs.as_str()).as_str());
            if !crs.as_str().is_empty() {
                let ghost c = crs@;
                out.push(crs);
                assert(texts(out@) =~= before.push(c));
            }
            k += 1;
        }
        assert(group.take(k as int) =~= group);
        i += 1;
    }
    assert(all.take(i as int) =~= all);
    out
}

/// The service that an item describes; an item without an ID is none.
pub fn service_item_to_domain(item: &ServiceItem) -> (r: Option<Service>)
    ensures
        match r {
            Some(s) => service_of_item(item@) == Some(s@),
            None => service_of_item(item@) is None,
        },
{
    if item.service_id.as_str().is_empty() {
        return None;
    }
    let mut name = String::new();
    let mut crs = String::new();
    if item.destination.len() > 0 {
        name = item.destination[0].location_name.clone();
        crs = item.destination[0].crs.clone();
        assert(item@.destination[0] == (name@, crs@));
    }
    let s = Service {
        service_id: item.service_id.clone(),
        origin_crs: String::new(),
        std: item.std.clone(),
        etd: if item.etd.as_str().is_empty() {
            "Unknown".to_string()
        } else {
            item.etd.clone()
        },
        platform: clone_opt(&item.platform),
        destination_crs: crs,
        destination_name: name,
        is_cancelled: item.is_cancelled,
        cancel_reason: clone_opt(&item.cancel_reason),
        delay_reason: clone_opt(&item.delay_reason),
        calling_point_crs: calling_codes(&item.subsequent_calling_points),
    };
    assert(service_of_item(item@)->0 =~= s@);
    Some(s)
}

/// The services on a board.
pub fn board_services(board: &StationBoard) -> (r: Vec<Service>)
    ensures
        views(r@) == services_of_board(board@),
{
    let mut out: Vec<Service> = Vec::new();
    assert(views(out@) =~= Seq::<ServiceView>::empty());
    match &board.train_services {
        None => {},
        Some(items) => {
            let ghost all = views(items@);
            let mut i: usize = 0;
            assert(all.take(0) =~= Seq::<ServiceItemView>::empty());
            while i < items.len()
                invariant
                    0 <= i <= items@.len(),
                    all == views(items@),
                    views(out@) == services_of_items(all.take(i as int)),
                decreases items.len() - i,
            {
                assert(all.take(i + 1).drop_last() =~= all.take(i as int));
                let ghost before = views(out@);
                if let Some(s) = service_item_to_domain(&items[i]) {
                    let ghost v = s@;
                    out.push(s);
                    assert(views(out@) =~= before.push(v));
                }
                i += 1;
            }
            assert(all.take(i as int) =~= all);
        },
    }
    out
}

/// Every service on a board has an ID and an estimate.
pub proof fn board_services_are_complete(items: Seq<ServiceItemView>, i: int)
    requires
        0 <= i < services_of_items(items).len(),
    ensures
        services_of_items(items)[i].service_id.len() > 0,
        services_of_items(items)[i].etd.len() > 0,
    decreases items.len(),
{
    reveal_strlit("Unknown");
    let rest = services_of_items(items.drop_last());
    if i < rest.len() {
        board_services_are_complete(items.drop_last(), i);
    }
}

} // verus!
