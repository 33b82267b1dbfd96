//! Running counters over all requests seen, and the window of the latest.
use vstd::prelude::*;
use vstd::string::*;
use crate::histogram::{bumped, lemma_bumped, tidy, total, Histogram};
use crate::request::{views, Request, RequestView};

verus! {

/// How many of the latest requests are kept.
pub const RECENT_CAPACITY: usize = 100;

/// The latest requests of `requests`, as many as are kept.
pub open spec fn latest(requests: Seq<RequestView>) -> Seq<RequestView> {
    if requests.len() > RECENT_CAPACITY {
        requests.skip(requests.len() - RECENT_CAPACITY)
    } else {
        requests
    }
}

/// The mathematical value of [`Stats`].
pub struct StatsView {
    pub total_requests: nat,
    pub bytes_sent: nat,
    pub status_codes: Seq<(u16, nat)>,
    pub paths: Seq<(Seq<char>, nat)>,
    pub ips: Seq<(Seq<char>, nat)>,
    pub methods: Seq<(Seq<char>, nat)>,
    pub recent_requests: Seq<RequestView>,
}

impl StatsView {
    /// The statistics before any request.
    pub open spec fn empty() -> StatsView {
        StatsView {
            total_requests: 0,
            bytes_sent: 0,
            status_codes: Seq::empty(),
            paths: Seq::empty(),
            ips: Seq::empty(),
            methods: Seq::empty(),
            recent_requests: Seq::empty(),
        }
    }

    /// The statistics after one more request: it counts once in the total
    /// and once in each histogram, its bytes are added, and it becomes the
    /// newest of the recent requests, the oldest leaving if there is no room.
    pub open spec fn recorded(self, request: RequestView) -> StatsView {
        StatsView {
            total_requests: self.total_requests + 1,
            bytes_sent: self.bytes_sent + request.bytes_sent as nat,
            status_codes: bumped(self.status_codes, request.status_code),
            paths: bumped(self.paths, request.path),
            ips: bumped(self.ips, request.ip),
            methods: bumped(self.methods, request.method),
            recent_requests: latest(self.recent_requests.push(request)),
        }
    }

    /// The statistics after a run of requests, recorded first to last.
    pub open spec fn recorded_all(self, requests: Seq<RequestView>) -> StatsView
        decreases requests.len(),
    {
        if requests.len() == 0 {
            self
        } else {
            self.recorded_all(requests.drop_last()).recorded(requests.last())
        }
    }

    /// What holds of the statistics at all times: no more recent requests
    /// than are kept, no label twice in a histogram, and in each histogram
    /// as many occurrences as there were requests.
    pub open spec fn consistent(self) -> bool {
        &&& self.recent_requests.len() <= RECENT_CAPACITY
        &&& tidy(self.status_codes)
        &&& tidy(self.paths)
        &&& tidy(self.ips)
        &&& tidy(self.methods)
        &&& total(self.status_codes) == self.total_requests
        &&& total(self.paths) == self.total_requests
        &&& total(self.ips) == self.total_requests
        &&& total(self.methods) == self.total_requests
    }
}

/// Recording a request keeps the statistics consistent.
pub proof fn lemma_recorded_consistent(stats: StatsView, request: RequestView)
    requires
        stats.consistent(),
    ensures
        stats.recorded(request).consistent(),
{
    lemma_bumped(stats.status_codes, request.status_code);
    lemma_bumped(stats.paths, request.path);
    lemma_bumped(stats.ips, request.ip);
    lemma_bumped(stats.methods, request.method);
}

/// After `n` requests recorded into empty statistics the total is `n`, and
/// the counts of each of the four histograms add up to `n`.
pub proof fn lemma_counts_add_up(requests: Seq<RequestView>)
    ensures
        ({
            let stats = StatsView::empty().recorded_all(requests);
            &&& stats.consistent()
            &&& stats.total_requests == requests.len()
            &&& total(stats.status_codes) == requests.len()
            &&& total(stats.paths) == requests.len()
            &&& total(stats.ips) == requests.len()
            &&& total(stats.methods) == requests.len()
        }),
    decreases requests.len(),
{
    if requests.len() > 0 {
        lemma_counts_add_up(requests.drop_last());
        lemma_recorded_consistent(
            StatsView::empty().recorded_all(requests.drop_last()),
            requests.last(),
        );
    }
}

/// After any run of requests recorded into empty statistics, the recent
/// requests are the latest of the run, in the order of arrival: all of them
/// while they are no more than are kept, and from then on the last of them,
/// each new one displacing the oldest.
pub proof fn lemma_recent_are_latest(requests: Seq<RequestView>)
    ensures
        StatsView::empty().recorded_all(requests).recent_requests == latest(requests),
    decreases requests.len(),
{
    if requests.len() > 0 {
        let earlier = requests.drop_last();
        lemma_recent_are_latest(earlier);
    }
}

/// The bytes of all requests of a run, added up.
pub open spec fn bytes_of(requests: Seq<RequestView>) -> nat
    decreases requests.len(),
{
    if requests.len() == 0 {
        0
    } else {
        bytes_of(requests.drop_last()) + requests.last().bytes_sent as nat
    }
}

/// After any run of requests recorded into empty statistics, the bytes sent
/// are the sum of theirs.
pub proof fn lemma_bytes_add_up(requests: Seq<RequestView>)
    ensures
        StatsView::empty().recorded_all(requests).bytes_sent == bytes_of(requests),
    decreases requests.len(),
{
    if requests.len() > 0 {
        lemma_bytes_add_up(requests.drop_last());
    }
}

/// The aggregate statistics of the dashboard.
pub struct Stats {
    total_requests: u64,
    bytes_sent: u64,
    status_codes: Histogram<u16>,
    paths: Histogram<String>,
    ips: Histogram<String>,
    methods: Histogram<String>,
    recent_requests: Vec<Request>,
}

impl View for Stats {
    type V = StatsView;

    closed spec fn view(&self) -> StatsView {
        StatsView {
            total_requests: self.total_requests as nat,
            bytes_sent: self.bytes_sent as nat,
            status_codes: self.status_codes@,
            paths: self.paths@,
            ips: self.ips@,
            methods: self.methods@,
            recent_requests: views(self.recent_requests@),
        }
    }
}

impl Stats {
    /// The histograms are well-formed and the value is consistent.
    pub closed spec fn wf(&self) -> bool {
        &&& self.status_codes.wf()
        &&& self.paths.wf()
        &&& self.ips.wf()
        &&& self.methods.wf()
        &&& self@.consistent()
    }

    /// Well-formed statistics have a consistent value, with counters that
    /// fit 64 bits.
    pub proof fn lemma_wf(&self)
        requires
            self.wf(),
        ensures
            self@.consistent(),
            self@.total_requests <= u64::MAX,
            self@.bytes_sent <= u64::MAX,
    {
    }

    /// Statistics without any request.
    pub fn new() -> (stats: Stats)
        ensures
            stats.wf(),
            stats@ == StatsView::empty(),
    {
        let stats = Stats {
            total_requests: 0,
            bytes_sent: 0,
            status_codes: Histogram::new(),
            paths: Histogram::new(),
            ips: Histogram::new(),
            methods: Histogram::new(),
            recent_requests: Vec::new(),
        };
        assert(views(stats.recent_requests@) =~= Seq::<RequestView>::empty());
        stats
    }

    /// Whether `update` can take `request`: the total and the bytes sent
    /// must stay within 64 bits.
    pub fn has_room_for(&self, request: &Request) -> (ok: bool)
        ensures
            ok == (self@.total_requests < u64::MAX && self@.bytes_sent + request@.bytes_sent
                <= u64::MAX),
    {
        self.total_requests < u64::MAX && self.bytes_sent <= u64::MAX - request.bytes_sent
    }

    /// Records one request.
    pub fn update(&mut self, request: Request)
        requires
            old(self).wf(),
            old(self)@.total_requests < u64::MAX,
            old(self)@.bytes_sent + request@.bytes_sent <= u64::MAX,
        ensures
            final(self).wf(),
            final(self)@ == old(self)@.recorded(request@),
    {
        proof {
            lemma_recorded_consistent(self@, request@);
        }
        self.total_requests = self.total_requests + 1;
        self.bytes_sent = self.bytes_sent + request.bytes_sent;
        self.status_codes.add(&request.status_code);
        self.paths.add(&request.path);
        self.ips.add(&request.ip);
        self.methods.add(&request.method);
        let ghost before = views(self.recent_requests@);
        self.recent_requests.push(request);
        assert(views(self.recent_requests@) =~= before.push(request@));
        if self.recent_requests.len() > RECENT_CAPACITY {
            self.recent_requests.remove(0);
            assert(views(self.recent_requests@) =~= latest(before.push(request@)));
        }
    }

    /// An independent copy of the statistics as they are now.
    pub fn snapshot(&self) -> (copy: Stats)
        requires
            self.wf(),
        ensures
            copy.wf(),
            copy@ == self@,
    {
        let mut recent: Vec<Request> = Vec::new();
        let mut i: usize = 0;
        while i < self.recent_requests.len()
            invariant
                i <= self.recent_requests@.len(),
                recent@.len() == i,
                forall|j: int| 0 <= j < i ==> (#[trigger] recent@[j])@ == self.recent_requests@[j]@,
            decreases self.recent_requests@.len() - i,
        {
            recent.push(self.recent_requests[i].clone());
            i += 1;
        }
        assert(views(recent@) =~= views(self.recent_requests@));
        Stats {
            total_requests: self.total_requests,
            bytes_sent: self.bytes_sent,
            status_codes: self.status_codes.clone(),
            paths: self.paths.clone(),
            ips: self.ips.clone(),
            methods: self.methods.clone(),
            recent_requests: recent,
        }
    }

    /// The number of requests recorded.
    pub fn total_requests(&self) -> (n: u64)
        ensures
            n == self@.total_requests,
    {
        self.total_requests
    }

    /// The bytes sent in all requests recorded.
    pub fn bytes_sent(&self) -> (n: u64)
        ensures
            n == self@.bytes_sent,
    {
        self.bytes_sent
    }

    /// The requests by status code.
    pub fn status_codes(&self) -> (histogram: &Histogram<u16>)
        requires
            self.wf(),
        ensures
            histogram.wf(),
            histogram@ == self@.status_codes,
    {
        &self.status_codes
    }

    /// The requests by path.
    pub fn paths(&self) -> (histogram: &Histogram<String>)
        requires
            self.wf(),
        ensures
            histogram.wf(),
            histogram@ == self@.paths,
    {
        &self.paths
    }

    /// The requests by address.
    pub fn ips(&self) -> (histogram: &Histogram<String>)
        requires
            self.wf(),
        ensures
            histogram.wf(),
            histogram@ == self@.ips,
    {
        &self.ips
    }

    /// The requests by method.
    pub fn methods(&self) -> (histogram: &Histogram<String>)
        requires
            self.wf(),
        ensures
            histogram.wf(),
            histogram@ == self@.methods,
    {
        &self.methods
    }

    /// The latest requests, oldest first.
    pub fn recent_requests(&self) -> (recent: &Vec<Request>)
        ensures
            views(recent@) == self@.recent_requests,
    {
        &self.recent_requests
    }
}

} // verus!
