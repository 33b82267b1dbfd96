//! What one tick shows: the totals, the leading status codes and the table.
use vstd::prelude::*;
use vstd::string::*;
use crate::control::{Httop, SortBy, ViewState};
use crate::histogram::Histogram;
use crate::request::views;
use crate::stats::{Stats, StatsView};
use crate::table::{join_rows, joined, stable_sort, stable_sorted, Row, RowView, StatusCount};

verus! {

/// How many status codes the status panel shows.
pub const STATUS_PANEL_SIZE: usize = 5;

/// The first `n` of `items`, or all of them where there are no more.
pub open spec fn leading<A>(items: Seq<A>, n: nat) -> Seq<A> {
    if n < items.len() {
        items.take(n as int)
    } else {
        items
    }
}

/// The status panel: the status codes with the most requests first, codes
/// with equal counts in the order in which they were first seen, and no
/// more of them than the panel shows.
pub open spec fn status_panel_of(stats: StatsView) -> Seq<(u16, nat)> {
    leading(stable_sorted::<StatusCount>(stats.status_codes, ()), STATUS_PANEL_SIZE as nat)
}

/// The table: the rows of the paths that have a sample among the recent
/// requests, in stable order by the chosen column, and no more of them than
/// the limit allows.
pub open spec fn table_of(stats: StatsView, state: ViewState) -> Seq<RowView> {
    leading(
        stable_sorted::<Row>(joined(stats.paths, stats.recent_requests), state.sort_by),
        state.display_limit,
    )
}

/// What one tick shows.
#[derive(Debug, PartialEq, Eq)]
pub struct Frame {
    pub total_requests: u64,
    pub bytes_sent: u64,
    pub status_codes: Vec<StatusCount>,
    pub sort_by: SortBy,
    pub rows: Vec<Row>,
}

/// The mathematical value of a [`Frame`].
pub struct FrameView {
    pub total_requests: nat,
    pub bytes_sent: nat,
    pub status_codes: Seq<(u16, nat)>,
    pub sort_by: SortBy,
    pub rows: Seq<RowView>,
}

impl View for Frame {
    type V = FrameView;

    open spec fn view(&self) -> FrameView {
        FrameView {
            total_requests: self.total_requests as nat,
            bytes_sent: self.bytes_sent as nat,
            status_codes: views(self.status_codes@),
            sort_by: self.sort_by,
            rows: views(self.rows@),
        }
    }
}

/// The frame that shows `stats` under the choice `state`.
pub open spec fn frame_of(stats: StatsView, state: ViewState) -> FrameView {
    FrameView {
        total_requests: stats.total_requests,
        bytes_sent: stats.bytes_sent,
        status_codes: status_panel_of(stats),
        sort_by: state.sort_by,
        rows: table_of(stats, state),
    }
}

/// Cuts `items` down to its first `n`.
fn keep_leading<T: View>(items: &mut Vec<T>, n: usize)
    ensures
        views(final(items)@) == leading(views(old(items)@), n as nat),
{
    items.truncate(n);
}

/// The entries of a status histogram, in its order.
pub fn status_counts(histogram: &Histogram<u16>) -> (counts: Vec<StatusCount>)
    requires
        histogram.wf(),
    ensures
        views(counts@) == histogram@,
{
    let mut counts: Vec<StatusCount> = Vec::new();
    let mut i: usize = 0;
    while i < histogram.len()
        invariant
            histogram.wf(),
            i <= histogram@.len(),
            counts@.len() == i,
            forall|j: int| 0 <= j < i ==> (#[trigger] counts@[j])@ == histogram@[j],
        decreases histogram@.len() - i,
    {
        counts.push(StatusCount { status_code: *histogram.key(i), count: histogram.count(i) });
        i += 1;
    }
    counts
}

/// Derives the status panel.
pub fn status_panel(stats: &Stats) -> (panel: Vec<StatusCount>)
    requires
        stats.wf(),
    ensures
        views(panel@) == status_panel_of(stats@),
{
    let mut panel = stable_sort(status_counts(stats.status_codes()), &());
    keep_leading(&mut panel, STATUS_PANEL_SIZE);
    panel
}

/// Derives the table for a sort column and a limit.
pub fn table(stats: &Stats, sort_by: SortBy, display_limit: usize) -> (rows: Vec<Row>)
    requires
        stats.wf(),
    ensures
        views(rows@) == table_of(
            stats@,
            ViewState { sort_by: sort_by, display_limit: display_limit as nat },
        ),
{
    let mut rows = stable_sort(join_rows(stats.paths(), stats.recent_requests()), &sort_by);
    keep_leading(&mut rows, display_limit);
    rows
}

impl Httop {
    /// Derives what a tick shows from a snapshot of the statistics.
    pub fn frame(&self, stats: &Stats) -> (frame: Frame)
        requires
            stats.wf(),
        ensures
            frame@ == frame_of(stats@, self@),
    {
        Frame {
            total_requests: stats.total_requests(),
            bytes_sent: stats.bytes_sent(),
            status_codes: status_panel(stats),
            sort_by: self.sort_by(),
            rows: table(stats, self.sort_by(), self.display_limit()),
        }
    }
}

} // verus!
