//! Search results, the progress of an index, and the ranked buffer that collects matches.

use vstd::prelude::*;
use std::sync::mpsc::Sender;

verus! {

#[verifier::external_type_specification]
#[verifier::external_body]
#[verifier::reject_recursive_types(T)]
pub struct ExSender<T>(Sender<T>);

/// Progress of indexing, in percent.
#[derive(Debug, PartialEq, Eq, Structural)]
pub struct Progress(pub u8);

impl Progress {
    /// Whether the value is a percentage at all, which every progress report is.
    pub fn is_done(&self) -> (r: bool)
        ensures
            r == (self.0 <= 100),
    {
        self.0 <= 100
    }
}

/// Some statistics about an index.
#[derive(Debug, Clone, Copy, PartialEq, Eq, Structural)]
pub struct IndexStat {
    /// Number of distinct headings found.
    pub headings_count: usize,
    /// Number of Markdown paths found.
    pub markdown_paths_count: usize,
}

/// One match: a file, the heading that matched (none for a match on the path), and its rank.
#[derive(Debug, Clone, PartialEq, Eq)]
pub struct ResearchResult {
    pub path: String,
    pub title: Option<String>,
    /// The higher, the earlier in the results.
    pub priority: u32,
}

/// What a result holds, as plain values.
pub ghost struct ResultView {
    pub path: Seq<char>,
    pub title: Option<Seq<char>>,
    pub priority: u32,
}

pub open spec fn opt_view(o: Option<String>) -> Option<Seq<char>> {
    match o {
        Some(s) => Some(s@),
        None => None,
    }
}

impl View for ResearchResult {
    type V = ResultView;

    open spec fn view(&self) -> ResultView {
        ResultView { path: self.path@, title: opt_view(self.title), priority: self.priority }
    }
}

pub open spec fn result_views(s: Seq<ResearchResult>) -> Seq<ResultView> {
    s.map_values(|r: ResearchResult| r@)
}

impl ResearchResult {
    /// A copy holding the same path, title and priority.
    pub fn copy(&self) -> (r: ResearchResult)
        ensures
            r@ == self@,
    {
        let title = match &self.title {
            Some(t) => Some(t.clone()),
            None => None,
        };
        ResearchResult { path: self.path.clone(), title, priority: self.priority }
    }
}

/// Non-increasing priorities.
pub open spec fn sorted_desc(s: Seq<ResultView>) -> bool {
    forall|i: int, j: int| 0 <= i < j < s.len() ==> s[i].priority >= s[j].priority
}

/// Index of the first entry with a priority below `p`, or `s.len()`.
pub open spec fn first_below(s: Seq<ResultView>, p: u32, i: int) -> int
    decreases s.len() - i,
{
    if 0 <= i < s.len() && s[i].priority >= p {
        first_below(s, p, i + 1)
    } else {
        i
    }
}

/// `x` placed after every entry of priority at least its own: equal priorities stay in
/// the order in which they came.
pub open spec fn sorted_insert(s: Seq<ResultView>, x: ResultView) -> Seq<ResultView> {
    s.insert(first_below(s, x.priority, 0), x)
}

/// The lowest priority kept by the quality trim when the best is `m`.
pub open spec fn trim_floor(m: u32) -> int {
    m - m / 4
}

/// The first `limit` entries, without those whose priority is below a quarter under the best.
pub open spec fn ranked(s: Seq<ResultView>, limit: nat) -> Seq<ResultView> {
    let d = s.take(if limit < s.len() { limit as int } else { s.len() as int });
    if d.len() == 0 {
        d
    } else {
        d.filter(|r: ResultView| r.priority >= trim_floor(d[0].priority))
    }
}

pub proof fn lemma_first_below(s: Seq<ResultView>, p: u32, i: int)
    requires
        0 <= i <= s.len(),
    ensures
        i <= first_below(s, p, i) <= s.len(),
        forall|k: int| i <= k < first_below(s, p, i) ==> s[k].priority >= p,
        first_below(s, p, i) < s.len() ==> s[first_below(s, p, i)].priority < p,
    decreases s.len() - i,
{
    if i < s.len() && s[i].priority >= p {
        lemma_first_below(s, p, i + 1);
    }
}

pub proof fn lemma_sorted_insert(s: Seq<ResultView>, x: ResultView)
    requires
        sorted_desc(s),
    ensures
        sorted_desc(sorted_insert(s, x)),
        sorted_insert(s, x).len() == s.len() + 1,
        sorted_insert(s, x).to_multiset() == s.to_multiset().insert(x),
{
    lemma_first_below(s, x.priority, 0);
    let p = first_below(s, x.priority, 0);
    let t = sorted_insert(s, x);
    assert forall|i: int, j: int| 0 <= i < j < t.len() implies t[i].priority >= t[j].priority by {
        if j < p {
        } else if j == p {
        } else if i < p {
            assert(t[j] == s[j - 1]);
            if p < s.len() {
            }
        } else if i == p {
            assert(s[p].priority < x.priority);
            assert(s[p].priority >= s[j - 1].priority || p == j - 1);
        } else {
        }
    }
    vstd::seq_lib::to_multiset_insert(s, p, x);
}

/// Every result of the ranked list is within a quarter of the best, and the list is in
/// non-increasing order of priority.
pub proof fn lemma_ranked_is_trimmed(s: Seq<ResultView>, limit: nat)
    requires
        sorted_desc(s),
    ensures
        sorted_desc(ranked(s, limit)),
        ranked(s, limit).len() <= limit,
        ranked(s, limit).len() > 0 ==> forall|k: int| 0 <= k < ranked(s, limit).len()
            ==> #[trigger] ranked(s, limit)[k].priority >= trim_floor(ranked(s, limit)[0].priority),
        ranked(s, limit).len() > 0 ==> forall|k: int| 0 <= k < ranked(s, limit).len()
            ==> ranked(s, limit)[0].priority >= #[trigger] ranked(s, limit)[k].priority,
{
    let d = s.take(if limit < s.len() { limit as int } else { s.len() as int });
    let r = ranked(s, limit);
    if d.len() > 0 {
        let f = |v: ResultView| v.priority >= trim_floor(d[0].priority);
        lemma_sorted_filter_prefix(d, f, d[0].priority);
        assert(r == d.filter(f));
    }
}

/// On a list in non-increasing order of priority, the filter by a floor keeps a prefix.
proof fn lemma_sorted_filter_prefix(d: Seq<ResultView>, f: spec_fn(ResultView) -> bool, m: u32)
    requires
        sorted_desc(d),
        d.len() > 0,
        m == d[0].priority,
        forall|v: ResultView| #[trigger] f(v) == (v.priority >= trim_floor(m)),
    ensures
        d.filter(f).len() > 0,
        d.filter(f)[0] == d[0],
        d.filter(f).len() <= d.len(),
        forall|k: int| 0 <= k < d.filter(f).len() ==> #[trigger] d.filter(f)[k] == d[k],
    decreases d.len(),
{
    reveal(Seq::filter);
    let e = d.drop_last();
    assert(d.filter(f) == if f(d.last()) { e.filter(f).push(d.last()) } else { e.filter(f) });
    if e.len() == 0 {
        assert(f(d[0]));
        assert(e.filter(f) =~= Seq::<ResultView>::empty());
    } else {
        assert(sorted_desc(e));
        lemma_sorted_filter_prefix(e, f, m);
        if f(d.last()) {
            // every earlier entry passes too, so the kept entries form a prefix
            assert forall|k: int| 0 <= k < e.len() implies f(#[trigger] e[k]) by {
                assert(e[k].priority >= d.last().priority);
            }
            lemma_filter_all(e, f);
        }
        broadcast use vstd::seq_lib::group_filter_ensures;
    }
}

proof fn lemma_filter_all(e: Seq<ResultView>, f: spec_fn(ResultView) -> bool)
    requires
        forall|k: int| 0 <= k < e.len() ==> f(#[trigger] e[k]),
    ensures
        e.filter(f) == e,
    decreases e.len(),
{
    reveal(Seq::filter);
    if e.len() > 0 {
        let g = e.drop_last();
        assert forall|k: int| 0 <= k < g.len() implies f(#[trigger] g[k]) by {
            assert(g[k] == e[k]);
        }
        lemma_filter_all(g, f);
        assert(e.filter(f) == g.filter(f).push(e.last()));
        assert(g.push(e.last()) =~= e);
    }
}

/// The results found so far, kept in non-increasing order of priority, and a channel
/// that each new result is also sent on until the receiving side goes away.
pub struct OrderedResults {
    results: Vec<ResearchResult>,
    tx: Option<Sender<ResearchResult>>,
}

/// Relies on `Sender::send`: an error means that the receiving side is gone.
#[verifier::external_body]
fn send_result(tx: &Sender<ResearchResult>, r: ResearchResult) -> (ok: bool) {
    tx.send(r).is_ok()
}

impl View for OrderedResults {
    type V = Seq<ResultView>;

    closed spec fn view(&self) -> Seq<ResultView> {
        result_views(self.results@)
    }
}

impl OrderedResults {
    pub closed spec fn wf(&self) -> bool {
        sorted_desc(self@)
    }

    /// Whether results are still forwarded on a channel.
    pub closed spec fn forwarding(&self) -> bool {
        self.tx.is_some()
    }

    pub fn new(tx: Option<Sender<ResearchResult>>) -> (r: Self)
        ensures
            r.wf(),
            r@ == Seq::<ResultView>::empty(),
            r.forwarding() == tx.is_some(),
    {
        OrderedResults { results: Vec::new(), tx }
    }

    /// Adds a result after all those of a priority at least its own, and forwards it on
    /// the channel; a failed send stops the forwarding but never drops the result.
    pub fn push(&mut self, result: ResearchResult)
        requires
            old(self).wf(),
        ensures
            final(self).wf(),
            final(self)@ == sorted_insert(old(self)@, result@),
            final(self).forwarding() ==> old(self).forwarding(),
    {
        let ghost old_view = self@;
        proof {
            lemma_first_below(old_view, result.priority, 0);
            lemma_sorted_insert(old_view, result@);
        }
        let n = self.results.len();
        let mut p: usize = 0;
        while p < n && self.results[p].priority >= result.priority
            invariant
                p <= n == self.results@.len(),
                old_view == result_views(self.results@),
                first_below(old_view, result.priority, 0) == first_below(
                    old_view,
                    result.priority,
                    p as int,
                ),
            decreases n - p,
        {
            p = p + 1;
        }
        let sent = result.copy();
        self.results.insert(p, result);
        assert(result_views(self.results@) =~= old_view.insert(p as int, result@));
        let mut stop = false;
        match &self.tx {
            Some(tx) => {
                if !send_result(tx, sent) {
                    stop = true;
                }
            },
            None => {},
        }
        if stop {
            self.tx = None;
        }
    }

    /// The first `max_limit` results in order, cut to those whose priority is at least
    /// `m - m / 4`, `m` being the best priority among them.
    pub fn results(&self, max_limit: usize) -> (r: Vec<ResearchResult>)
        requires
            self.wf(),
        ensures
            result_views(r@) == ranked(self@, max_limit as nat),
    {
        let n = self.results.len();
        let k = if max_limit < n { max_limit } else { n };
        let ghost d = self@.take(k as int);
        let mut out: Vec<ResearchResult> = Vec::new();
        if k == 0 {
            assert(result_views(out@) =~= ranked(self@, max_limit as nat));
            return out;
        }
        let m = self.results[0].priority;
        let floor = m - m / 4;
        let ghost f = |r: ResultView| r.priority >= trim_floor(d[0].priority);
        let mut i: usize = 0;
        while i < k
            invariant
                k <= n == self.results@.len(),
                0 < k,
                d == self@.take(k as int),
                self@ == result_views(self.results@),
                m == d[0].priority,
                floor == trim_floor(m),
                f == (|r: ResultView| r.priority >= trim_floor(d[0].priority)),
                i <= k,
                result_views(out@) == d.take(i as int).filter(f),
            decreases k - i,
        {
            let ghost before = out@;
            assert(d.take(i + 1) =~= d.take(i as int).push(d[i as int]));
            proof {
                d.take(i as int).lemma_filter_push(d[i as int], f);
            }
            if self.results[i].priority >= floor {
                out.push(self.results[i].copy());
                assert(result_views(out@) =~= result_views(before).push(d[i as int]));
            } else {
                assert(out@ == before);
            }
            i = i + 1;
        }
        assert(d.take(k as int) =~= d);
        out
    }

    pub fn len(&self) -> (r: usize)
        ensures
            r == self@.len(),
    {
        self.results.len()
    }
}

} // verus!
