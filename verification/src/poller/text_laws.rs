//! What stands in the messages besides the rows of the board.

use crate::board::{html_lines, plain_lines};
use crate::domain::{Channel, SubscriptionView};
use crate::markup::escaped;
use crate::poller::diff::{
    digest_rows, digest_text, html_section, origins, plain_section, section, section_texts, shown,
    SectionView, Snapshots,
};
use crate::poller::{expiry_notice, notice_line, notice_lines, station_names};
use crate::stations::StationIndexView;
use crate::table::{lookup_after_insertion, value_of};
use crate::text::{holds, join, lemma_holds, lemma_in_parts, lemma_join_holds};
use crate::unicode::uppercase;
use vstd::prelude::*;
use vstd::string::*;

verus! {

/// The notice has a line for every subscription that is gone.
pub proof fn notice_names_what_is_gone(gone: Seq<SubscriptionView>, i: int)
    requires
        0 <= i < gone.len(),
    ensures
        holds(expiry_notice(gone), notice_line(gone[i])),
{
    let lines = notice_lines(gone);
    let head = (if gone.len() == 1 {
        "Subscription has"@
    } else {
        "Subscriptions have"@
    }) + " expired and been automatically removed:\n"@;
    let tail = "\n\nUse <code>/sub</code> to subscribe again."@;
    assert(lines[i] == notice_line(gone[i]));
    lemma_join_holds(lines, "\n"@, i);
    lemma_holds(head, join(lines, "\n"@), tail, lines[i]);
    assert(expiry_notice(gone) =~= head + join(lines, "\n"@) + tail);
}

/// The line of a subscription that is gone gives its origin and its destinations.
pub proof fn notice_line_gives_everything(sub: SubscriptionView)
    ensures
        holds(notice_line(sub), escaped(sub.origin_crs)),
        sub.destination_filter.len() > 0 ==> holds(
            notice_line(sub),
            escaped(join(sub.destination_filter, ", "@)),
        ),
        sub.destination_filter.len() == 0 ==> holds(notice_line(sub), "all destinations"@),
{
    let line = notice_line(sub);
    let a = "\u{2022} <code>"@;
    let from = escaped(sub.origin_crs);
    let empty = Seq::<char>::empty();
    if sub.destination_filter.len() == 0 {
        reveal_strlit("</code> \u{2192} all destinations");
        reveal_strlit("</code> \u{2192} ");
        reveal_strlit("all destinations");
        assert("</code> \u{2192} all destinations"@ =~= "</code> \u{2192} "@ + "all destinations"@);
        assert(line =~= a + from + "</code> \u{2192} all destinations"@);
        assert(line =~= (a + from + "</code> \u{2192} "@) + "all destinations"@ + empty);
    } else {
        let to = escaped(join(sub.destination_filter, ", "@));
        let b = "</code> \u{2192} <code>"@;
        assert(line =~= a + from + (b + to + "</code>"@));
        assert(line =~= (a + from + b) + to + "</code>"@);
    }
}

/// The stations from which a user watches departures are named as the list names
/// them, and no others.
pub proof fn watched_stations_are_named(
    subs: Seq<SubscriptionView>,
    index: StationIndexView,
    crs: Seq<char>,
)
    ensures
        (exists|i: int| 0 <= i < subs.len() && (#[trigger] subs[i]).origin_crs == crs) && value_of(
            index.by_crs,
            uppercase(crs),
        ) is Some ==> value_of(station_names(subs, index), crs) == Some(
            value_of(index.by_crs, uppercase(crs))->0.name,
        ),
        (forall|i: int| 0 <= i < subs.len() ==> (#[trigger] subs[i]).origin_crs != crs) || value_of(
            index.by_crs,
            uppercase(crs),
        ) is None ==> value_of(station_names(subs, index), crs) is None,
    decreases subs.len(),
{
    if subs.len() > 0 {
        let t = subs.drop_last();
        let s = subs.last();
        watched_stations_are_named(t, index, crs);
        assert(subs[subs.len() - 1] == s);
        assert forall|i: int| 0 <= i < t.len() implies #[trigger] t[i] == subs[i] by {}
        match value_of(index.by_crs, uppercase(s.origin_crs)) {
            Some(station) => {
                lookup_after_insertion(station_names(t, index), s.origin_crs, station.name, crs);
            },
            None => {},
        }
        if exists|i: int| 0 <= i < subs.len() && (#[trigger] subs[i]).origin_crs == crs {
            let i = choose|i: int| 0 <= i < subs.len() && (#[trigger] subs[i]).origin_crs == crs;
            if i < t.len() {
                assert(t[i].origin_crs == crs);
            }
        }
    }
}

/// The stations of a message are those from which the user watches departures, in
/// the order in which the subscriptions name them for the first time.
pub proof fn stations_come_in_the_order_of_the_subscriptions(
    subs: Seq<SubscriptionView>,
    sub: SubscriptionView,
)
    ensures
        origins(Seq::empty()).len() == 0,
        (exists|i: int| 0 <= i < subs.len() && (#[trigger] subs[i]).origin_crs == sub.origin_crs)
            ==> origins(subs.push(sub)) == origins(subs),
        (forall|i: int| 0 <= i < subs.len() ==> (#[trigger] subs[i]).origin_crs != sub.origin_crs)
            ==> origins(subs.push(sub)) == origins(subs).push(sub.origin_crs),
{
    assert(subs.push(sub).drop_last() =~= subs);
    lemma_origin_listed(subs, sub.origin_crs);
}

proof fn lemma_origin_listed(subs: Seq<SubscriptionView>, crs: Seq<char>)
    ensures
        origins(subs).contains(crs) <==> exists|i: int|
            0 <= i < subs.len() && (#[trigger] subs[i]).origin_crs == crs,
    decreases subs.len(),
{
    if subs.len() > 0 {
        let t = subs.drop_last();
        let s = subs.last();
        lemma_origin_listed(t, crs);
        let before = origins(t);
        let after = origins(subs);
        assert(subs[subs.len() - 1] == s);
        if after.contains(crs) {
            let k = after.index_of(crs);
            if before.contains(s.origin_crs) || k < before.len() {
                assert(before[k] == crs);
                assert(before.contains(crs));
                let i = choose|i: int| 0 <= i < t.len() && (#[trigger] t[i]).origin_crs == crs;
                assert(subs[i] == t[i]);
            } else {
                assert(s.origin_crs == crs);
            }
        }
        if exists|i: int| 0 <= i < subs.len() && (#[trigger] subs[i]).origin_crs == crs {
            let i = choose|i: int| 0 <= i < subs.len() && (#[trigger] subs[i]).origin_crs == crs;
            if i < t.len() {
                assert(t[i].origin_crs == crs);
                let k = before.index_of(crs);
                assert(after[k] == crs);
            } else {
                assert(s.origin_crs == crs);
                if !before.contains(crs) {
                    assert(after.last() == crs);
                }
            }
        }
    }
}

proof fn lemma_heading(a: Seq<char>, name: Seq<char>, crs: Seq<char>, now: Seq<char>, end: Seq<char>)
    ensures
        holds(a + name + " ("@ + crs + ") "@ + now + end, name),
        holds(a + name + " ("@ + crs + ") "@ + now + end, crs),
        holds(a + name + " ("@ + crs + ") "@ + now + end, now),
{
    let text = a + name + " ("@ + crs + ") "@ + now + end;
    assert(text =~= a + name + (" ("@ + crs + ") "@ + now + end));
    assert(text =~= (a + name + " ("@) + crs + (") "@ + now + end));
    assert(text =~= (a + name + " ("@ + crs + ") "@) + now + end);
}

proof fn lemma_section_title(a: Seq<char>, name: Seq<char>, crs: Seq<char>, end: Seq<char>)
    ensures
        holds(a + name + " ("@ + crs + end, name),
        holds(a + name + " ("@ + crs + end, crs),
{
    let text = a + name + " ("@ + crs + end;
    assert(text =~= a + name + (" ("@ + crs + end));
    assert(text =~= (a + name + " ("@) + crs + end);
}

proof fn lemma_among_sections(
    a: Seq<char>,
    now: Seq<char>,
    b: Seq<char>,
    parts: Seq<Seq<char>>,
    sep: Seq<char>,
    i: int,
    piece: Seq<char>,
)
    requires
        0 <= i < parts.len(),
        holds(parts[i], piece),
    ensures
        holds(a + now + b + join(parts, sep), now),
        holds(a + now + b + join(parts, sep), piece),
{
    let text = a + now + b + join(parts, sep);
    let empty = Seq::<char>::empty();
    assert(text =~= a + now + (b + join(parts, sep)));
    lemma_in_parts(parts, sep, i, piece);
    lemma_holds(a + now + b, join(parts, sep), empty, piece);
    assert(text =~= (a + now + b) + join(parts, sep) + empty);
}

proof fn lemma_html_message(all: Seq<SectionView>, now: Seq<char>, i: int)
    requires
        0 <= i < all.len(),
    ensures
        ({
            let text = digest_text(all, now, Channel::Telegram);
            &&& holds(text, escaped(now))
            &&& holds(text, escaped(all[i].name))
            &&& holds(text, escaped(all[i].crs))
        }),
{
    let s = all[i];
    let name = escaped(s.name);
    let crs = escaped(s.crs);
    let rows = join(s.rows, "\n"@);
    if all.len() == 1 {
        let end = "</b>\n<pre>"@ + rows + "</pre>"@;
        lemma_heading("<b>"@, name, crs, escaped(now), end);
        assert(digest_text(all, now, Channel::Telegram) =~= "<b>"@ + name + " ("@ + crs + ") "@
            + escaped(now) + end);
    } else {
        let parts = section_texts(all, Channel::Telegram);
        let end = ")</b>\n<pre>"@ + rows + "</pre>"@;
        lemma_section_title("<b>"@, name, crs, end);
        assert(parts[i] == html_section(s));
        assert(parts[i] =~= "<b>"@ + name + " ("@ + crs + end);
        lemma_among_sections("<b>Departures "@, escaped(now), "</b>\n\n"@, parts, "\n\n"@, i, name);
        lemma_among_sections("<b>Departures "@, escaped(now), "</b>\n\n"@, parts, "\n\n"@, i, crs);
    }
}

proof fn lemma_plain_message(all: Seq<SectionView>, now: Seq<char>, i: int)
    requires
        0 <= i < all.len(),
    ensures
        ({
            let text = digest_text(all, now, Channel::Twilio);
            &&& holds(text, now)
            &&& holds(text, all[i].name)
            &&& holds(text, all[i].crs)
        }),
{
    let s = all[i];
    let rows = join(s.rows, "\n"@);
    let empty = Seq::<char>::empty();
    if all.len() == 1 {
        let end = "\n"@ + rows;
        lemma_heading(empty, s.name, s.crs, now, end);
        assert(digest_text(all, now, Channel::Twilio) =~= empty + s.name + " ("@ + s.crs + ") "@
            + now + end);
    } else {
        let parts = section_texts(all, Channel::Twilio);
        let end = "):\n"@ + rows;
        lemma_section_title(empty, s.name, s.crs, end);
        assert(parts[i] == plain_section(s));
        assert(parts[i] =~= empty + s.name + " ("@ + s.crs + end);
        lemma_among_sections("Departures "@, now, "\n"@, parts, "\n"@, i, s.name);
        lemma_among_sections("Departures "@, now, "\n"@, parts, "\n"@, i, s.crs);
    }
}

/// A message gives the time, and the name and the code of every station in it.
pub proof fn message_names_its_stations(
    all: Seq<SectionView>,
    now: Seq<char>,
    channel: Channel,
    i: int,
)
    requires
        0 <= i < all.len(),
    ensures
        ({
            let text = digest_text(all, now, channel);
            &&& channel == Channel::Telegram ==> holds(text, escaped(now)) && holds(
                text,
                escaped(all[i].name),
            ) && holds(text, escaped(all[i].crs))
            &&& channel == Channel::Twilio ==> holds(text, now) && holds(text, all[i].name)
                && holds(text, all[i].crs)
        }),
{
    match channel {
        Channel::Telegram => {
            lemma_html_message(all, now, i);
        },
        Channel::Twilio => {
            lemma_plain_message(all, now, i);
        },
    }
}

/// A section is titled with the name of its station where that is known, and with
/// the code where it is not; its rows are laid out as the channel shows them.
pub proof fn sections_are_titled(
    subs: Seq<SubscriptionView>,
    snapshots: Snapshots,
    changed: Seq<Seq<char>>,
    names: Seq<(Seq<char>, Seq<char>)>,
    crs: Seq<char>,
)
    ensures
        ({
            let html = section(subs, snapshots, changed, names, Channel::Telegram, crs);
            let plain = section(subs, snapshots, changed, names, Channel::Twilio, crs);
            let rows = digest_rows(subs, changed, shown(snapshots, crs));
            &&& html.crs == crs && plain.crs == crs
            &&& value_of(names, crs) is Some ==> html.name == value_of(names, crs)->0
            &&& value_of(names, crs) is None ==> html.name == crs
            &&& plain.name == html.name
            &&& html.rows == html_lines(rows)
            &&& plain.rows == plain_lines(rows)
        }),
{
}

} // verus!
