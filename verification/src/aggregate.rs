//! Aggregation of per-server scrape observations into one verdict per
//! identifier.
//!
//! The verdict is characterised over the *multiset* of observations, so it
//! is by construction independent of the order in which servers answered
//! and of which server answered first.

use vstd::prelude::*;
use vstd::multiset::Multiset;
use crate::codec::TorrentStats;

verus! {

/// Tri-state liveness verdict for one identifier.
#[derive(Clone, Copy, Debug, PartialEq, Eq, Structural)]
pub enum Verdict {
    /// At least one server answered with a positive seeder or leecher
    /// count; the fields are the maxima across all answering servers.
    Alive { seeders: u32, leechers: u32 },
    /// At least one server answered, and every answer was (0, 0).
    Dead,
    /// No server answered at all; "unknown", not "dead".
    Failed,
}

/// Some server in the observation set answered.
pub open spec fn has_reply(ms: Multiset<Option<TorrentStats>>) -> bool {
    exists|t: TorrentStats| ms.count(Some(t)) > 0
}

/// Every answer in the observation set reported zero seeders and leechers.
pub open spec fn all_replies_zero(ms: Multiset<Option<TorrentStats>>) -> bool {
    forall|t: TorrentStats| ms.count(Some(t)) > 0 ==> t.seeders == 0 && t.leechers == 0
}

/// `m` is the maximum seeder count over the answers: attained by one of
/// them, and no answer exceeds it.
pub open spec fn max_seeders_is(ms: Multiset<Option<TorrentStats>>, m: u32) -> bool {
    (exists|t: TorrentStats| ms.count(Some(t)) > 0 && t.seeders == m) && (forall|t: TorrentStats|
        ms.count(Some(t)) > 0 ==> t.seeders <= m)
}

/// `m` is the maximum leecher count over the answers.
pub open spec fn max_leechers_is(ms: Multiset<Option<TorrentStats>>, m: u32) -> bool {
    (exists|t: TorrentStats| ms.count(Some(t)) > 0 && t.leechers == m) && (forall|t: TorrentStats|
        ms.count(Some(t)) > 0 ==> t.leechers <= m)
}

/// The verdict rule of the classifier, stated over the multiset of
/// observations gathered for one identifier.
pub open spec fn verdict_matches(ms: Multiset<Option<TorrentStats>>, v: Verdict) -> bool {
    match v {
        Verdict::Failed => !has_reply(ms),
        Verdict::Dead => has_reply(ms) && all_replies_zero(ms),
        Verdict::Alive { seeders, leechers } => has_reply(ms) && !all_replies_zero(ms)
            && max_seeders_is(ms, seeders) && max_leechers_is(ms, leechers),
    }
}

/// Seeder count of an observation, zero when absent.
pub open spec fn obs_seeders(o: Option<TorrentStats>) -> u32 {
    match o {
        Some(t) => t.seeders,
        None => 0,
    }
}

/// Leecher count of an observation, zero when absent.
pub open spec fn obs_leechers(o: Option<TorrentStats>) -> u32 {
    match o {
        Some(t) => t.leechers,
        None => 0,
    }
}

/// The verdict for one identifier, from the full set of per-server
/// observations: `Failed` when none answered, `Dead` when all answers
/// were zero, and otherwise `Alive` with the maximum counts over all
/// answers.
pub fn classify(obs: &Vec<Option<TorrentStats>>) -> (v: Verdict)
    ensures
        verdict_matches(obs@.to_multiset(), v),
{
    broadcast use vstd::seq_lib::group_to_multiset_ensures;

    let mut any: bool = false;
    let mut max_s: u32 = 0;
    let mut max_l: u32 = 0;
    let mut i: usize = 0;
    while i < obs.len()
        invariant
            i <= obs@.len(),
            !any ==> max_s == 0 && max_l == 0,
            !any ==> forall|j: int| 0 <= j < i ==> (#[trigger] obs@[j]) is None,
            forall|j: int|
                0 <= j < i ==> obs_seeders(#[trigger] obs@[j]) <= max_s && obs_leechers(obs@[j])
                    <= max_l,
            any ==> exists|j: int|
                0 <= j < i && (#[trigger] obs@[j]) is Some && obs_seeders(obs@[j]) == max_s,
            any ==> exists|j: int|
                0 <= j < i && (#[trigger] obs@[j]) is Some && obs_leechers(obs@[j]) == max_l,
        decreases obs@.len() - i,
    {
        match obs[i] {
            Some(st) => {
                if !any || st.seeders > max_s {
                    max_s = st.seeders;
                }
                if !any || st.leechers > max_l {
                    max_l = st.leechers;
                }
                any = true;
            },
            None => {},
        }
        i = i + 1;
    }
    let ghost ms = obs@.to_multiset();
    if !any {
        proof {
            assert forall|t: TorrentStats| !(ms.count(Some(t)) > 0) by {
                if ms.count(Some(t)) > 0 {
                    assert(obs@.contains(Some(t)));
                    let j = choose|j: int| 0 <= j < obs@.len() && obs@[j] == Some(t);
                    assert(obs@[j] is None);
                }
            }
        }
        Verdict::Failed
    } else if max_s > 0 || max_l > 0 {
        proof {
            lemma_prefix_maxima(obs@, ms, any, max_s, max_l);
        }
        Verdict::Alive { seeders: max_s, leechers: max_l }
    } else {
        proof {
            lemma_prefix_maxima(obs@, ms, any, max_s, max_l);
        }
        Verdict::Dead
    }
}

/// Carries the loop facts of `classify` over to the multiset view.
proof fn lemma_prefix_maxima(
    obs: Seq<Option<TorrentStats>>,
    ms: Multiset<Option<TorrentStats>>,
    any: bool,
    max_s: u32,
    max_l: u32,
)
    requires
        ms == obs.to_multiset(),
        any,
        forall|j: int|
            0 <= j < obs.len() ==> obs_seeders(#[trigger] obs[j]) <= max_s && obs_leechers(obs[j])
                <= max_l,
        exists|j: int|
            0 <= j < obs.len() && (#[trigger] obs[j]) is Some && obs_seeders(obs[j]) == max_s,
        exists|j: int|
            0 <= j < obs.len() && (#[trigger] obs[j]) is Some && obs_leechers(obs[j]) == max_l,
    ensures
        has_reply(ms),
        max_seeders_is(ms, max_s),
        max_leechers_is(ms, max_l),
        max_s == 0 && max_l == 0 ==> all_replies_zero(ms),
        max_s > 0 || max_l > 0 ==> !all_replies_zero(ms),
{
    broadcast use vstd::seq_lib::group_to_multiset_ensures;

    let js = choose|j: int|
        0 <= j < obs.len() && (#[trigger] obs[j]) is Some && obs_seeders(obs[j]) == max_s;
    let ts = obs[js]->Some_0;
    assert(obs.contains(Some(ts)));
    assert(ms.count(Some(ts)) > 0 && ts.seeders == max_s);
    let jl = choose|j: int|
        0 <= j < obs.len() && (#[trigger] obs[j]) is Some && obs_leechers(obs[j]) == max_l;
    let tl = obs[jl]->Some_0;
    assert(obs.contains(Some(tl)));
    assert(ms.count(Some(tl)) > 0 && tl.leechers == max_l);
    assert forall|t: TorrentStats| ms.count(Some(t)) > 0 implies t.seeders <= max_s && t.leechers
        <= max_l by {
        assert(obs.contains(Some(t)));
        let j = choose|j: int| 0 <= j < obs.len() && obs[j] == Some(t);
        assert(obs_seeders(obs[j]) <= max_s && obs_leechers(obs[j]) <= max_l);
    }
    if max_s > 0 {
        assert(!(ts.seeders == 0 && ts.leechers == 0));
    }
    if max_l > 0 {
        assert(!(tl.seeders == 0 && tl.leechers == 0));
    }
}

/// The verdict is a function of the observation multiset: two verdicts that
/// both match one multiset are equal.
pub proof fn lemma_verdict_unique(ms: Multiset<Option<TorrentStats>>, v1: Verdict, v2: Verdict)
    requires
        verdict_matches(ms, v1),
        verdict_matches(ms, v2),
    ensures
        v1 == v2,
{
    match (v1, v2) {
        (
            Verdict::Alive { seeders: s1, leechers: l1 },
            Verdict::Alive { seeders: s2, leechers: l2 },
        ) => {
            let t1 = choose|t: TorrentStats| ms.count(Some(t)) > 0 && t.seeders == s1;
            let t2 = choose|t: TorrentStats| ms.count(Some(t)) > 0 && t.seeders == s2;
            assert(s1 <= s2 && s2 <= s1);
            let u1 = choose|t: TorrentStats| ms.count(Some(t)) > 0 && t.leechers == l1;
            let u2 = choose|t: TorrentStats| ms.count(Some(t)) > 0 && t.leechers == l2;
            assert(l1 <= l2 && l2 <= l1);
        },
        _ => {},
    }
}

/// Permutation invariance: the verdict computed from a sequence of
/// per-server observations does not depend on the order of that sequence.
/// Two orderings of one observation set support only one common verdict.
pub proof fn lemma_verdict_permutation(
    a: Seq<Option<TorrentStats>>,
    b: Seq<Option<TorrentStats>>,
    v1: Verdict,
    v2: Verdict,
)
    requires
        a.to_multiset() == b.to_multiset(),
        verdict_matches(a.to_multiset(), v1),
        verdict_matches(b.to_multiset(), v2),
    ensures
        v1 == v2,
{
    lemma_verdict_unique(a.to_multiset(), v1, v2);
}

/// If every server came back absent for an identifier, its verdict is
/// `Failed`.
pub proof fn lemma_all_absent_failed(ms: Multiset<Option<TorrentStats>>, v: Verdict)
    requires
        !has_reply(ms),
        verdict_matches(ms, v),
    ensures
        v == Verdict::Failed,
{
}

/// If at least one server answered and every answer was (0, 0), the
/// verdict is `Dead`.
pub proof fn lemma_all_zero_dead(ms: Multiset<Option<TorrentStats>>, v: Verdict)
    requires
        has_reply(ms),
        all_replies_zero(ms),
        verdict_matches(ms, v),
    ensures
        v == Verdict::Dead,
{
}

/// If any answering server reported a positive count, the verdict is
/// `Alive` with the maxima over all answers, which in particular are at
/// least the reported counts.
pub proof fn lemma_positive_alive(
    ms: Multiset<Option<TorrentStats>>,
    t: TorrentStats,
    v: Verdict,
)
    requires
        ms.count(Some(t)) > 0,
        t.seeders > 0 || t.leechers > 0,
        verdict_matches(ms, v),
    ensures
        v is Alive,
        v->Alive_seeders >= t.seeders,
        v->Alive_leechers >= t.leechers,
        max_seeders_is(ms, v->Alive_seeders),
        max_leechers_is(ms, v->Alive_leechers),
{
    assert(has_reply(ms));
    assert(!all_replies_zero(ms));
}

/// Monotonicity under additional evidence: if further observations are
/// added to a set whose verdict is `Alive`, the verdict stays `Alive` and
/// its maxima never decrease.
pub proof fn lemma_alive_monotonic(
    ms1: Multiset<Option<TorrentStats>>,
    ms2: Multiset<Option<TorrentStats>>,
    v1: Verdict,
    v2: Verdict,
)
    requires
        ms1.subset_of(ms2),
        verdict_matches(ms1, v1),
        verdict_matches(ms2, v2),
        v1 is Alive,
    ensures
        v2 is Alive,
        v2->Alive_seeders >= v1->Alive_seeders,
        v2->Alive_leechers >= v1->Alive_leechers,
{
    let s1 = v1->Alive_seeders;
    let l1 = v1->Alive_leechers;
    let ts = choose|t: TorrentStats| ms1.count(Some(t)) > 0 && t.seeders == s1;
    assert(ms2.count(Some(ts)) >= ms1.count(Some(ts)));
    let tl = choose|t: TorrentStats| ms1.count(Some(t)) > 0 && t.leechers == l1;
    assert(ms2.count(Some(tl)) >= ms1.count(Some(tl)));
    let tz = choose|t: TorrentStats| ms1.count(Some(t)) > 0 && !(t.seeders == 0 && t.leechers == 0);
    assert(ms2.count(Some(tz)) >= ms1.count(Some(tz)));
    assert(has_reply(ms2));
    assert(!all_replies_zero(ms2));
}

/// The column of observations for identifier `i`, one entry per server.
pub open spec fn column(per_server: Seq<Seq<Option<TorrentStats>>>, i: int) -> Seq<
    Option<TorrentStats>,
> {
    Seq::new(per_server.len(), |s: int| per_server[s][i])
}

/// Reduces the positional per-server observation rows of one batch to one
/// verdict per identifier: entry `i` of the result classifies the multiset
/// of all servers' observations for identifier `i`.
pub fn classify_batch(per_server: &Vec<Vec<Option<TorrentStats>>>, k: usize) -> (r: Vec<Verdict>)
    requires
        forall|s: int| 0 <= s < per_server@.len() ==> (#[trigger] per_server@[s])@.len() == k,
    ensures
        r@.len() == k,
        forall|i: int|
            0 <= i < k ==> verdict_matches(
                column(per_server@.map_values(|row: Vec<Option<TorrentStats>>| row@), i)
                    .to_multiset(),
                #[trigger] r@[i],
            ),
{
    let ghost rows = per_server@.map_values(|row: Vec<Option<TorrentStats>>| row@);
    let mut r: Vec<Verdict> = Vec::new();
    let mut i: usize = 0;
    while i < k
        invariant
            i <= k,
            r@.len() == i,
            rows == per_server@.map_values(|row: Vec<Option<TorrentStats>>| row@),
            forall|s: int| 0 <= s < per_server@.len() ==> (#[trigger] per_server@[s])@.len() == k,
            forall|j: int|
                0 <= j < i ==> verdict_matches(column(rows, j).to_multiset(), #[trigger] r@[j]),
        decreases k - i,
    {
        let mut col: Vec<Option<TorrentStats>> = Vec::new();
        let mut s: usize = 0;
        while s < per_server.len()
            invariant
                s <= per_server@.len(),
                i < k,
                rows == per_server@.map_values(|row: Vec<Option<TorrentStats>>| row@),
                forall|q: int|
                    0 <= q < per_server@.len() ==> (#[trigger] per_server@[q])@.len() == k,
                col@.len() == s,
                forall|q: int| 0 <= q < s ==> #[trigger] col@[q] == rows[q][i as int],
            decreases per_server@.len() - s,
        {
            col.push(per_server[s][i]);
            s = s + 1;
        }
        proof {
            assert(col@ =~= column(rows, i as int));
        }
        let v = classify(&col);
        r.push(v);
        i = i + 1;
    }
    r
}

/// Aggregate progress counters suitable for a live textual display.
#[derive(Clone, Copy, Debug, PartialEq, Eq, Structural)]
pub struct Progress {
    pub processed: u64,
    pub alive: u64,
    pub dead: u64,
    pub failed: u64,
}

impl Progress {
    /// The processed count always equals the sum of the three outcomes.
    pub open spec fn wf(self) -> bool {
        self.processed == self.alive + self.dead + self.failed
    }

    /// Fresh counters, all zero.
    pub fn new() -> (r: Progress)
        ensures
            r.wf(),
            r.processed == 0,
            r.alive == 0,
            r.dead == 0,
            r.failed == 0,
    {
        Progress { processed: 0, alive: 0, dead: 0, failed: 0 }
    }

    /// Folds one verdict into the counters: the matching outcome and the
    /// processed total each advance by one.
    pub fn record(&mut self, v: &Verdict)
        requires
            old(self).wf(),
            old(self).processed < u64::MAX,
        ensures
            final(self).wf(),
            final(self).processed == old(self).processed + 1,
            final(self).alive == old(self).alive + (if v is Alive { 1int } else { 0int }),
            final(self).dead == old(self).dead + (if v is Dead { 1int } else { 0int }),
            final(self).failed == old(self).failed + (if v is Failed { 1int } else { 0int }),
    {
        self.processed = self.processed + 1;
        match v {
            Verdict::Alive { .. } => {
                self.alive = self.alive + 1;
            },
            Verdict::Dead => {
                self.dead = self.dead + 1;
            },
            Verdict::Failed => {
                self.failed = self.failed + 1;
            },
        }
    }
}

} // verus!
