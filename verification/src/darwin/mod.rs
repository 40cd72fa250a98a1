//! National Rail departure boards.

pub mod laws;
pub mod rest;
pub mod simulate;

use crate::clock::{format_utc, utc_format, Timestamp};
use crate::text::{clone_opt, clone_texts, decimal, number_text, opt_text, texts, views};
use crate::unicode::{to_upper, uppercase};
use rest::{board_services, services_of_board, StationBoard};
use vstd::prelude::*;
use vstd::string::*;

verus! {

/// A single service on the departure board.
#[derive(Debug)]
pub struct Service {
    /// Darwin stable service ID.
    pub service_id: String,
    /// 3-letter CRS code of the station this service departs from.
    pub origin_crs: String,
    /// Scheduled departure time (HH:MM).
    pub std: String,
    /// Estimated departure time or status string ("On time", "Delayed", "Cancelled").
    pub etd: String,
    pub platform: Option<String>,
    pub destination_crs: String,
    pub destination_name: String,
    pub is_cancelled: bool,
    pub cancel_reason: Option<String>,
    pub delay_reason: Option<String>,
    /// CRS codes of subsequent calling points (intermediate stops after origin).
    /// Used to match subscriptions that filter by an intermediate station.
    pub calling_point_crs: Vec<String>,
}

#[verifier::ext_equal]
pub struct ServiceView {
    pub service_id: Seq<char>,
    pub origin_crs: Seq<char>,
    pub std: Seq<char>,
    pub etd: Seq<char>,
    pub platform: Option<Seq<char>>,
    pub destination_crs: Seq<char>,
    pub destination_name: Seq<char>,
    pub is_cancelled: bool,
    pub cancel_reason: Option<Seq<char>>,
    pub delay_reason: Option<Seq<char>>,
    pub calling_point_crs: Seq<Seq<char>>,
}

impl View for Service {
    type V = ServiceView;

    open spec fn view(&self) -> ServiceView {
        ServiceView {
            service_id: self.service_id@,
            origin_crs: self.origin_crs@,
            std: self.std@,
            etd: self.etd@,
            platform: opt_text(self.platform),
            destination_crs: self.destination_crs@,
            destination_name: self.destination_name@,
            is_cancelled: self.is_cancelled,
            cancel_reason: opt_text(self.cancel_reason),
            delay_reason: opt_text(self.delay_reason),
            calling_point_crs: texts(self.calling_point_crs@),
        }
    }
}

impl Clone for Service {
    fn clone(&self) -> (r: Self)
        ensures
            r@ == self@,
    {
        Service {
            service_id: self.service_id.clone(),
            origin_crs: self.origin_crs.clone(),
            std: self.std.clone(),
            etd: self.etd.clone(),
            platform: clone_opt(&self.platform),
            destination_crs: self.destination_crs.clone(),
            destination_name: self.destination_name.clone(),
            is_cancelled: self.is_cancelled,
            cancel_reason: clone_opt(&self.cancel_reason),
            delay_reason: clone_opt(&self.delay_reason),
            calling_point_crs: clone_texts(&self.calling_point_crs),
        }
    }
}

#[derive(Debug)]
pub enum DarwinError {
    Http(String),
    Parse(String),
}

pub enum DarwinErrorView {
    Http(Seq<char>),
    Parse(Seq<char>),
}

impl View for DarwinError {
    type V = DarwinErrorView;

    open spec fn view(&self) -> DarwinErrorView {
        match self {
            DarwinError::Http(e) => DarwinErrorView::Http(e@),
            DarwinError::Parse(e) => DarwinErrorView::Parse(e@),
        }
    }
}

impl DarwinErrorView {
    pub open spec fn text(self) -> Seq<char> {
        match self {
            DarwinErrorView::Http(e) => "HTTP error: "@ + e,
            DarwinErrorView::Parse(e) => "Parse error: "@ + e,
        }
    }
}

impl DarwinError {
    /// What went wrong, in words.
    pub fn text(&self) -> (r: String)
        ensures
            r@ == self@.text(),
    {
        match self {
            DarwinError::Http(e) => {
                let mut s = "HTTP error: ".to_string();
                s.append(e.as_str());
                s
            },
            DarwinError::Parse(e) => {
                let mut s = "Parse error: ".to_string();
                s.append(e.as_str());
                s
            },
        }
    }
}

// ---------------------------------------------------------------------------
// Requests
// ---------------------------------------------------------------------------

/// The address of a board.
pub open spec fn board_address(
    endpoint: Seq<char>,
    crs: Seq<char>,
    num_rows: u32,
    filter_crs: Option<Seq<char>>,
) -> Seq<char> {
    endpoint + "/GetDepBoardWithDetails/"@ + crs + "?numRows="@ + decimal(num_rows as nat) + (
    match filter_crs {
        Some(f) => "&filterCrs="@ + f,
        None => Seq::empty(),
    })
}

/// The address of a board, with the number of rows and the destination filter
/// that are asked for.
pub fn board_url(endpoint: &str, crs: &str, num_rows: u32, filter_crs: &Option<String>) -> (r:
    String)
    ensures
        r@ == board_address(endpoint@, crs@, num_rows, opt_text(*filter_crs)),
{
    let mut url = endpoint.to_string();
    url.append("/GetDepBoardWithDetails/");
    url.append(crs);
    url.append("?numRows=");
    url.append(number_text(num_rows as u64).as_str());
    match filter_crs {
        Some(f) => {
            let mut filter = "&filterCrs=".to_string();
            filter.append(f.as_str());
            url.append(filter.as_str());
        },
        None => {
            assert(url@ =~= url@ + Seq::<char>::empty());
        },
    }
    url
}

/// The services with the station that they leave from.
pub open spec fn leaving_from(services: Seq<ServiceView>, crs: Seq<char>) -> Seq<ServiceView> {
    Seq::new(services.len(), |i: int| ServiceView { origin_crs: crs, ..services[i] })
}

/// Enter the station that the services leave from.
pub fn set_origin(services: Vec<Service>, crs: &str) -> (r: Vec<Service>)
    ensures
        views(r@) == leaving_from(views(services@), crs@),
{
    let ghost all = leaving_from(views(services@), crs@);
    let mut out: Vec<Service> = Vec::new();
    let mut i: usize = 0;
    while i < services.len()
        invariant
            0 <= i <= services@.len(),
            all == leaving_from(views(services@), crs@),
            views(out@) == all.take(i as int),
        decreases services.len() - i,
    {
        let ghost before = views(out@);
        let mut s = services[i].clone();
        s.origin_crs = crs.to_string();
        assert(s@ == all[i as int]);
        out.push(s);
        assert(views(out@) =~= before.push(all[i as int]));
        assert(all.take(i + 1) =~= all.take(i as int).push(all[i as int]));
        i += 1;
    }
    assert(all.take(i as int) =~= all);
    out
}

/// The services on a board that was fetched for a station: they leave from
/// that station, whose code is in upper case.
pub fn received(crs: &str, board: &StationBoard) -> (r: Vec<Service>)
    ensures
        views(r@) == leaving_from(services_of_board(board@), uppercase(crs@)),
{
    set_origin(board_services(board), to_upper(crs).as_str())
}

// ---------------------------------------------------------------------------
// Debug capture
// ---------------------------------------------------------------------------

/// The name of the directory for the captures of a day.
pub fn capture_dir_name(now: &Timestamp) -> (r: String)
    requires
        now.wf(),
    ensures
        r@ == utc_format(now.secs, now.nanos, "%d%b%Y"@),
{
    format_utc(now, "%d%b%Y")
}

/// The name of a capture, given the text of its instant.
pub open spec fn capture_name(
    stamp: Seq<char>,
    crs: Seq<char>,
    num_rows: u32,
    filter_crs: Option<Seq<char>>,
) -> Seq<char> {
    stamp + "_"@ + crs + "_rows"@ + decimal(num_rows as nat) + (match filter_crs {
        Some(f) => "_filter"@ + f,
        None => Seq::empty(),
    }) + ".json.gz"@
}

/// The name of a capture, given the text of its instant.
pub fn name_capture(stamp: &str, crs: &str, num_rows: u32, filter_crs: &Option<String>) -> (r: String)
    ensures
        r@ == capture_name(stamp@, crs@, num_rows, opt_text(*filter_crs)),
{
    let mut name = stamp.to_string();
    name.append("_");
    name.append(crs);
    name.append("_rows");
    name.append(number_text(num_rows as u64).as_str());
    let mut filter = String::new();
    if let Some(f) = filter_crs {
        filter.append("_filter");
        filter.append(f.as_str());
        assert(filter@ =~= "_filter"@ + f@);
    }
    name.append(filter.as_str());
    name.append(".json.gz");
    name
}

/// The name of the file in which a response is captured: the UTC instant, the
/// origin CRS, the row count and the destination filter, if any, so that each
/// file is unique and self-describing.
///
/// Example: `2026-06-10T15-30-00.123456Z_WAT_rows149_filterRDG.json.gz`
pub fn capture_file_name(now: &Timestamp, crs: &str, num_rows: u32, filter_crs: &Option<String>) -> (r:
    String)
    requires
        now.wf(),
    ensures
        r@ == capture_name(
            utc_format(now.secs, now.nanos, "%Y-%m-%dT%H-%M-%S%.6fZ"@),
            crs@,
            num_rows,
            opt_text(*filter_crs),
        ),
{
    name_capture(
        format_utc(now, "%Y-%m-%dT%H-%M-%S%.6fZ").as_str(),
        crs,
        num_rows,
        filter_crs,
    )
}

} // verus!
