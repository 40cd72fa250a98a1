//! Rows of a departure board, as both channels show them.

use crate::markup::{esc, escaped};
use crate::sorting::{sort, sorted, sorting_keeps_the_values, sorting_puts_in_order, Ranked};
use crate::text::{byte_len, opt_text, same, texts, views};
use vstd::prelude::*;
use vstd::string::*;

verus! {

/// How many rows a board shows for one station.
pub const DISPLAY_ROWS: usize = 10;

/// The middle one of the lengths by size.
pub open spec fn median(lens: Seq<usize>) -> usize {
    sorted::<usize>(lens)[lens.len() as int / 2]
}

/// Lengths above this are outliers.
pub open spec fn outlier_limit(median: usize) -> usize {
    if 2 * median + 10 > usize::MAX {
        usize::MAX
    } else {
        (2 * median + 10) as usize
    }
}

/// The greatest of the lengths that are within the limit.
pub open spec fn widest(lens: Seq<usize>, limit: usize) -> usize
    decreases lens.len(),
{
    if lens.len() == 0 {
        0
    } else {
        let w = widest(lens.drop_last(), limit);
        if w < lens.last() <= limit {
            lens.last()
        } else {
            w
        }
    }
}

/// The width of a column that holds texts of these lengths.
pub open spec fn column_width(lens: Seq<usize>) -> usize {
    if lens.len() == 0 {
        0
    } else {
        widest(lens, outlier_limit(median(lens)))
    }
}

/// Returns the column width to use for a set of string lengths.
///
/// Uses the median as an anchor and ignores outliers (> 2x median + 10) so that
/// one unusually long station name does not blow out the whole table.
pub fn col_width(lens: &Vec<usize>) -> (r: usize)
    ensures
        r == column_width(lens@),
{
    let n = lens.len();
    if n == 0 {
        return 0;
    }
    proof {
        sorting_keeps_the_values::<usize>(lens@);
    }
    let mut copy: Vec<usize> = Vec::new();
    let mut j: usize = 0;
    while j < n
        invariant
            0 <= j <= n,
            n == lens@.len(),
            copy@ == lens@.take(j as int),
        decreases n - j,
    {
        copy.push(lens[j]);
        assert(lens@.take(j + 1) =~= lens@.take(j as int).push(lens@[j as int]));
        j += 1;
    }
    assert(views(copy@) =~= lens@);
    let by_size = sort(copy);
    assert(views(by_size@) =~= by_size@);
    let m = by_size[n / 2];
    let limit: usize = if m > (usize::MAX - 10) / 2 {
        usize::MAX
    } else {
        2 * m + 10
    };
    let mut w: usize = 0;
    let mut i: usize = 0;
    assert(lens@.take(0) =~= Seq::<usize>::empty());
    while i < n
        invariant
            0 <= i <= n,
            n == lens@.len(),
            w == widest(lens@.take(i as int), limit),
        decreases n - i,
    {
        assert(lens@.take(i + 1).drop_last() =~= lens@.take(i as int));
        let x = lens[i];
        if w < x && x <= limit {
            w = x;
        }
        i += 1;
    }
    assert(lens@.take(i as int) =~= lens@);
    w
}

/// Every text that is no outlier fits its column, and no column is wider than
/// the longest text in it that is no outlier.
pub proof fn column_fits(lens: Seq<usize>, i: int)
    requires
        0 <= i < lens.len(),
    ensures
        lens[i] <= outlier_limit(median(lens)) ==> lens[i] <= column_width(lens),
        column_width(lens) <= outlier_limit(median(lens)),
        lens.contains(column_width(lens)),
{
    let limit = outlier_limit(median(lens));
    sorting_keeps_the_values::<usize>(lens);
    let by_size = sorted::<usize>(lens);
    let m = median(lens);
    assert(by_size.contains(m)) by {
        assert(by_size[lens.len() as int / 2] == m);
    }
    broadcast use vstd::seq_lib::group_to_multiset_ensures;

    assert(by_size.to_multiset().contains(m));
    assert(lens.to_multiset().contains(m));
    let k = choose|k: int| 0 <= k < lens.len() && lens[k] == m;
    lemma_widest(lens, limit, i);
    lemma_widest(lens, limit, k);
    if widest(lens, limit) == 0 {
        assert(lens[k] == 0);
    }
}

proof fn lemma_widest(lens: Seq<usize>, limit: usize, i: int)
    requires
        0 <= i < lens.len(),
    ensures
        lens[i] <= limit ==> lens[i] <= widest(lens, limit),
        widest(lens, limit) <= limit,
        widest(lens, limit) == 0 || lens.contains(widest(lens, limit)),
    decreases lens.len(),
{
    let t = lens.drop_last();
    if i < t.len() {
        lemma_widest(t, limit, i);
    } else if t.len() > 0 {
        lemma_widest(t, limit, 0);
    } else {
        assert(widest(t, limit) == 0);
    }
    let w = widest(lens, limit);
    if t.len() > 0 && t.contains(w) {
        let k = choose|k: int| 0 <= k < t.len() && t[k] == w;
        assert(lens[k] == w);
    }
    if w == lens.last() {
        assert(lens[lens.len() - 1] == w);
    }
}

/// The text with blanks behind it up to the width.
pub open spec fn padded(s: Seq<char>, width: usize) -> Seq<char> {
    if s.len() < width {
        s + Seq::new((width - s.len()) as nat, |i: int| ' ')
    } else {
        s
    }
}

/// The text with blanks behind it up to the width, counted in characters.
pub fn pad(s: &str, width: usize) -> (r: String)
    ensures
        r@ == padded(s@, width),
{
    let n = s.unicode_len();
    let mut out = s.to_string();
    let mut k: usize = n;
    assert(s@ + Seq::new(0, |i: int| ' ') =~= s@);
    while k < width
        invariant
            n == s@.len(),
            n <= k,
            k <= width || k == n,
            out@ == s@ + Seq::new((k - n) as nat, |i: int| ' '),
        decreases width - k,
    {
        out.push(' ');
        assert(out@ =~= s@ + Seq::new((k + 1 - n) as nat, |i: int| ' '));
        k += 1;
    }
    out
}

/// One row of a board.
pub struct Row {
    /// What stands at the start of the row.
    pub prefix: String,
    pub time: String,
    pub dest: String,
    pub status: String,
    pub plat: String,
}

#[verifier::ext_equal]
pub struct RowView {
    pub prefix: Seq<char>,
    pub time: Seq<char>,
    pub dest: Seq<char>,
    pub status: Seq<char>,
    pub plat: Seq<char>,
}

impl View for Row {
    type V = RowView;

    open spec fn view(&self) -> RowView {
        RowView {
            prefix: self.prefix@,
            time: self.time@,
            dest: self.dest@,
            status: self.status@,
            plat: self.plat@,
        }
    }
}

/// Column-aligned, for Telegram's HTML subset. Padding comes before escaping.
pub open spec fn html_row(r: RowView, dest_w: usize, status_w: usize) -> Seq<char> {
    r.prefix + escaped(r.time) + " "@ + escaped(padded(r.dest, dest_w)) + " "@ + escaped(
        padded(r.status, status_w),
    ) + " Pl "@ + escaped(r.plat)
}

/// Compact, for SMS.
pub open spec fn plain_row(r: RowView) -> Seq<char> {
    r.prefix + r.time + " "@ + r.dest + " "@ + r.status + " "@ + (if r.plat == "TBC"@ {
        "--"@
    } else {
        "P"@ + r.plat
    })
}

pub open spec fn dest_lens(rows: Seq<RowView>) -> Seq<usize> {
    Seq::new(rows.len(), |i: int| byte_len(rows[i].dest))
}

pub open spec fn status_lens(rows: Seq<RowView>) -> Seq<usize> {
    Seq::new(rows.len(), |i: int| byte_len(rows[i].status))
}

/// The rows of one table, for Telegram.
pub open spec fn html_lines(rows: Seq<RowView>) -> Seq<Seq<char>> {
    Seq::new(
        rows.len(),
        |i: int|
            html_row(rows[i], column_width(dest_lens(rows)), column_width(status_lens(rows))),
    )
}

/// The rows of one table, for SMS.
pub open spec fn plain_lines(rows: Seq<RowView>) -> Seq<Seq<char>> {
    Seq::new(rows.len(), |i: int| plain_row(rows[i]))
}

pub fn html_table(rows: &Vec<Row>) -> (r: Vec<String>)
    ensures
        texts(r@) == html_lines(views(rows@)),
{
    let ghost all = views(rows@);
    let mut dest_sizes: Vec<usize> = Vec::new();
    let mut status_sizes: Vec<usize> = Vec::new();
    let mut i: usize = 0;
    while i < rows.len()
        invariant
            0 <= i <= rows@.len(),
            all == views(rows@),
            dest_sizes@ == dest_lens(all).take(i as int),
            status_sizes@ == status_lens(all).take(i as int),
        decreases rows.len() - i,
    {
        dest_sizes.push(rows[i].dest.as_str().len());
        status_sizes.push(rows[i].status.as_str().len());
        assert(dest_lens(all).take(i + 1) =~= dest_lens(all).take(i as int).push(
            byte_len(all[i as int].dest),
        ));
        assert(status_lens(all).take(i + 1) =~= status_lens(all).take(i as int).push(
            byte_len(all[i as int].status),
        ));
        i += 1;
    }
    assert(dest_sizes@ =~= dest_lens(all));
    assert(status_sizes@ =~= status_lens(all));
    let dest_w = col_width(&dest_sizes);
    let status_w = col_width(&status_sizes);
    let mut out: Vec<String> = Vec::new();
    let mut k: usize = 0;
    while k < rows.len()
        invariant
            0 <= k <= rows@.len(),
            all == views(rows@),
            dest_w == column_width(dest_lens(all)),
            status_w == column_width(status_lens(all)),
            texts(out@) == html_lines(all).take(k as int),
        decreases rows.len() - k,
    {
        let ghost before = texts(out@);
        let row = &rows[k];
        let mut line = row.prefix.clone();
        line.append(esc(row.time.as_str()).as_str());
        line.append(" ");
        line.append(esc(pad(row.dest.as_str(), dest_w).as_str()).as_str());
        line.append(" ");
        line.append(esc(pad(row.status.as_str(), status_w).as_str()).as_str());
        line.append(" Pl ");
        line.append(esc(row.plat.as_str()).as_str());
        out.push(line);
        assert(texts(out@) =~= before.push(html_row(all[k as int], dest_w, status_w)));
        assert(html_lines(all).take(k + 1) =~= html_lines(all).take(k as int).push(
            html_row(all[k as int], dest_w, status_w),
        ));
        k += 1;
    }
    assert(html_lines(all).take(k as int) =~= html_lines(all));
    out
}

pub fn plain_table(rows: &Vec<Row>) -> (r: Vec<String>)
    ensures
        texts(r@) == plain_lines(views(rows@)),
{
    let ghost all = views(rows@);
    let mut out: Vec<String> = Vec::new();
    let mut k: usize = 0;
    while k < rows.len()
        invariant
            0 <= k <= rows@.len(),
            all == views(rows@),
            texts(out@) == plain_lines(all).take(k as int),
        decreases rows.len() - k,
    {
        let ghost before = texts(out@);
        let row = &rows[k];
        let mut plat = String::new();
        if same(row.plat.as_str(), "TBC") {
            plat.append("--");
        } else {
            plat.append("P");
            plat.append(row.plat.as_str());
        }
        let mut line = row.prefix.clone();
        line.append(row.time.as_str());
        line.append(" ");
        line.append(row.dest.as_str());
        line.append(" ");
        line.append(row.status.as_str());
        line.append(" ");
        line.append(plat.as_str());
        assert(line@ =~= plain_row(all[k as int]));
        out.push(line);
        assert(texts(out@) =~= before.push(plain_row(all[k as int])));
        assert(plain_lines(all).take(k + 1) =~= plain_lines(all).take(k as int).push(
            plain_row(all[k as int]),
        ));
        k += 1;
    }
    assert(plain_lines(all).take(k as int) =~= plain_lines(all));
    out
}

/// What a row says of a train.
///
/// `late_reason` is the reason that a delayed row shows, where it shows one.
pub open spec fn status(
    is_cancelled: bool,
    cancel_reason: Option<Seq<char>>,
    scheduled: Seq<char>,
    expected: Seq<char>,
    late_reason: Option<Seq<char>>,
) -> Seq<char> {
    if is_cancelled {
        "Cancelled \u{2014} "@ + (match cancel_reason {
            Some(reason) => reason,
            None => "reason unknown"@,
        })
    } else if expected == "On time"@ || expected == scheduled {
        "On time"@
    } else {
        "exp "@ + expected + (match late_reason {
            Some(reason) => " \u{2014} "@ + reason,
            None => Seq::empty(),
        })
    }
}

pub fn status_text(
    is_cancelled: bool,
    cancel_reason: &Option<String>,
    scheduled: &str,
    expected: &str,
    late_reason: &Option<String>,
) -> (r: String)
    ensures
        r@ == status(
            is_cancelled,
            opt_text(*cancel_reason),
            scheduled@,
            expected@,
            opt_text(*late_reason),
        ),
{
    if is_cancelled {
        let mut s = "Cancelled \u{2014} ".to_string();
        match cancel_reason {
            Some(reason) => s.append(reason.as_str()),
            None => s.append("reason unknown"),
        }
        s
    } else if same(expected, "On time") || same(expected, scheduled) {
        "On time".to_string()
    } else {
        let mut s = "exp ".to_string();
        s.append(expected);
        match late_reason {
            Some(reason) => {
                let mut tail = " \u{2014} ".to_string();
                tail.append(reason.as_str());
                s.append(tail.as_str());
            },
            None => {
                assert(s@ =~= "exp "@ + expected@ + Seq::<char>::empty());
            },
        }
        s
    }
}

// ---------------------------------------------------------------------------
// Laws
// ---------------------------------------------------------------------------

/// A row says that a train is on time exactly where it is not cancelled and its
/// estimate says so or is the scheduled time.
pub proof fn on_time_means_on_time(
    is_cancelled: bool,
    cancel_reason: Option<Seq<char>>,
    scheduled: Seq<char>,
    expected: Seq<char>,
    late_reason: Option<Seq<char>>,
)
    ensures
        status(is_cancelled, cancel_reason, scheduled, expected, late_reason) == "On time"@
            <==> !is_cancelled && (expected == "On time"@ || expected == scheduled),
{
    reveal_strlit("On time");
    reveal_strlit("exp ");
    reveal_strlit("Cancelled \u{2014} ");
    let s = status(is_cancelled, cancel_reason, scheduled, expected, late_reason);
    if is_cancelled {
        assert(s[0] == 'C');
    } else if expected != "On time"@ && expected != scheduled {
        assert(s[0] == 'e');
    }
    assert("On time"@[0] == 'O');
}

/// Every other estimate stands in the row as it was received, with the reason for
/// the delay behind it where there is one.
pub proof fn estimates_are_shown_as_received(
    cancel_reason: Option<Seq<char>>,
    scheduled: Seq<char>,
    expected: Seq<char>,
    late_reason: Option<Seq<char>>,
)
    requires
        expected != "On time"@,
        expected != scheduled,
    ensures
        ({
            let s = status(false, cancel_reason, scheduled, expected, late_reason);
            &&& s.take(4) == "exp "@
            &&& s.subrange(4, (4 + expected.len()) as int) == expected
            &&& late_reason is None ==> s.len() == 4 + expected.len()
            &&& late_reason is Some ==> s.skip((4 + expected.len()) as int) == " \u{2014} "@
                + late_reason->0
        }),
{
    reveal_strlit("exp ");
    let s = status(false, cancel_reason, scheduled, expected, late_reason);
    assert(s.take(4) =~= "exp "@);
    assert(s.subrange(4, (4 + expected.len()) as int) =~= expected);
    if late_reason is Some {
        assert(s.skip((4 + expected.len()) as int) =~= " \u{2014} "@ + late_reason->0);
    }
}

/// A cancelled train is shown as cancelled whatever its times say, with the reason
/// or that it is unknown.
pub proof fn cancelled_trains_are_shown_as_such(
    cancel_reason: Option<Seq<char>>,
    scheduled: Seq<char>,
    expected: Seq<char>,
    late_reason: Option<Seq<char>>,
)
    ensures
        ({
            let s = status(true, cancel_reason, scheduled, expected, late_reason);
            &&& s.take(12) == "Cancelled \u{2014} "@
            &&& cancel_reason is Some ==> s.skip(12) == cancel_reason->0
            &&& cancel_reason is None ==> s.skip(12) == "reason unknown"@
        }),
{
    reveal_strlit("Cancelled \u{2014} ");
    let s = status(true, cancel_reason, scheduled, expected, late_reason);
    let tail = match cancel_reason {
        Some(reason) => reason,
        None => "reason unknown"@,
    };
    assert(s.take(12) =~= "Cancelled \u{2014} "@);
    assert(s.skip(12) =~= tail);
}

/// Padding keeps the text, puts blanks behind it, and makes it as wide as the
/// column; a text that is wider already stays.
pub proof fn padding_fills_the_column(s: Seq<char>, width: usize)
    ensures
        padded(s, width).take(s.len() as int) == s,
        padded(s, width).len() == if s.len() < width {
            width as nat
        } else {
            s.len()
        },
        forall|i: int| s.len() <= i < padded(s, width).len() ==> #[trigger] padded(s, width)[i]
            == ' ',
{
    assert(padded(s, width).take(s.len() as int) =~= s);
}

/// A row for SMS gives time, destination, status and platform in this order, with
/// one blank between them, behind its mark. A platform that is to be confirmed is
/// shown as two hyphens.
pub proof fn plain_row_gives_everything(r: RowView)
    ensures
        ({
            let s = plain_row(r);
            let a = r.prefix.len() as int;
            let b = a + r.time.len();
            let c = b + 1 + r.dest.len();
            let d = c + 1 + r.status.len();
            &&& s.take(a) == r.prefix
            &&& s.subrange(a, b) == r.time
            &&& s.subrange(b + 1, c) == r.dest
            &&& s.subrange(c + 1, d) == r.status
            &&& s[b] == ' ' && s[c] == ' ' && s[d] == ' '
            &&& r.plat == "TBC"@ ==> s.skip(d + 1) == "--"@
            &&& r.plat != "TBC"@ ==> s[d + 1] == 'P' && s.skip(d + 2) == r.plat
        }),
{
    reveal_strlit(" ");
    reveal_strlit("P");
    let s = plain_row(r);
    let a = r.prefix.len() as int;
    let b = a + r.time.len();
    let c = b + 1 + r.dest.len();
    let d = c + 1 + r.status.len();
    assert(s.take(a) =~= r.prefix);
    assert(s.subrange(a, b) =~= r.time);
    assert(s.subrange(b + 1, c) =~= r.dest);
    assert(s.subrange(c + 1, d) =~= r.status);
    if r.plat == "TBC"@ {
        assert(s.skip(d + 1) =~= "--"@);
    } else {
        assert(s.skip(d + 2) =~= r.plat);
    }
}

/// A row for Telegram gives the same, escaped, with destination and status filled
/// up to their columns.
pub proof fn html_row_gives_everything(rows: Seq<RowView>, i: int)
    requires
        0 <= i < rows.len(),
    ensures
        html_lines(rows).len() == rows.len(),
        ({
            let r = rows[i];
            let s = html_lines(rows)[i];
            let time = escaped(r.time);
            let dest = escaped(padded(r.dest, column_width(dest_lens(rows))));
            let state = escaped(padded(r.status, column_width(status_lens(rows))));
            let a = r.prefix.len() as int;
            let b = a + time.len();
            let c = b + 1 + dest.len();
            let d = c + 1 + state.len();
            &&& s.take(a) == r.prefix
            &&& s.subrange(a, b) == time
            &&& s.subrange(b + 1, c) == dest
            &&& s.subrange(c + 1, d) == state
            &&& s.subrange(d, d + 4) == " Pl "@
            &&& s.skip(d + 4) == escaped(r.plat)
        }),
{
    reveal_strlit(" ");
    reveal_strlit(" Pl ");
    let r = rows[i];
    let s = html_lines(rows)[i];
    let time = escaped(r.time);
    let dest = escaped(padded(r.dest, column_width(dest_lens(rows))));
    let state = escaped(padded(r.status, column_width(status_lens(rows))));
    let a = r.prefix.len() as int;
    let b = a + time.len();
    let c = b + 1 + dest.len();
    let d = c + 1 + state.len();
    assert(s.take(a) =~= r.prefix);
    assert(s.subrange(a, b) =~= time);
    assert(s.subrange(b + 1, c) =~= dest);
    assert(s.subrange(c + 1, d) =~= state);
    assert(s.subrange(d, d + 4) =~= " Pl "@);
    assert(s.skip(d + 4) =~= escaped(r.plat));
}

/// Lengths in order, of which the one in the middle sets the limit: a column is as
/// wide as the longest text that is not longer than twice that and ten more.
pub proof fn outliers_do_not_widen_a_column(lens: Seq<usize>)
    requires
        lens.len() > 0,
    ensures
        exists|s: Seq<usize>|
            {
                &&& #[trigger] s.to_multiset() == lens.to_multiset()
                &&& s.len() == lens.len()
                &&& forall|i: int, j: int| 0 <= i < j < s.len() ==> s[i] <= s[j]
                &&& forall|i: int|
                    0 <= i < lens.len() && #[trigger] lens[i] <= 2 * s[lens.len() as int / 2] + 10
                        ==> lens[i] <= column_width(lens)
                &&& column_width(lens) <= 2 * s[lens.len() as int / 2] + 10
                &&& lens.contains(column_width(lens))
            },
{
    let s = sorted::<usize>(lens);
    sorting_keeps_the_values::<usize>(lens);
    sorting_puts_in_order::<usize>(lens);
    assert forall|i: int, j: int| 0 <= i < j < s.len() implies s[i] <= s[j] by {
        assert(<usize as Ranked>::rank_le(s[i], s[j]));
    }
    assert forall|i: int|
        0 <= i < lens.len() && #[trigger] lens[i] <= 2 * s[lens.len() as int / 2] + 10 implies lens[i]
        <= column_width(lens) by {
        column_fits(lens, i);
    }
    column_fits(lens, 0);
    assert(s.to_multiset() == lens.to_multiset());
}

/// Each column is measured by the texts that stand in it: it is as wide as one of
/// them is long in UTF-8.
pub proof fn columns_are_measured_by_their_texts(rows: Seq<RowView>)
    requires
        rows.len() > 0,
    ensures
        exists|i: int|
            0 <= i < rows.len() && column_width(dest_lens(rows)) == byte_len(
                (#[trigger] rows[i]).dest,
            ),
        exists|i: int|
            0 <= i < rows.len() && column_width(status_lens(rows)) == byte_len(
                (#[trigger] rows[i]).status,
            ),
        forall|i: int|
            0 <= i < rows.len() ==> dest_lens(rows).contains(byte_len((#[trigger] rows[i]).dest)),
        forall|i: int|
            0 <= i < rows.len() ==> status_lens(rows).contains(
                byte_len((#[trigger] rows[i]).status),
            ),
{
    let d = dest_lens(rows);
    let s = status_lens(rows);
    column_fits(d, 0);
    column_fits(s, 0);
    let i = d.index_of(column_width(d));
    assert(column_width(d) == byte_len(rows[i].dest));
    let j = s.index_of(column_width(s));
    assert(column_width(s) == byte_len(rows[j].status));
    assert forall|i: int| 0 <= i < rows.len() implies d.contains(
        byte_len((#[trigger] rows[i]).dest),
    ) by {
        assert(d[i] == byte_len(rows[i].dest));
    }
    assert forall|i: int| 0 <= i < rows.len() implies s.contains(
        byte_len((#[trigger] rows[i]).status),
    ) by {
        assert(s[i] == byte_len(rows[i].status));
    }
}

} // verus!
