//! How much of the traced time the device spends computing, transferring, or both.
use vstd::prelude::*;
use std::collections::HashMap;
use crate::bindings::intervals::{
    closed_range, interval_bound_max, interval_complement, interval_intersection, interval_members,
    interval_runs, interval_set_of, interval_union, is_run_list, IntervalSet64,
};
use crate::pdg::compute::Compute;
use crate::pdg::pdg::PDG;
use crate::pdg::transfer::Transfer;

verus! {

broadcast use vstd::std_specs::hash::group_hash_axioms;

/// The kinds of time the statistics tell apart.
#[derive(PartialEq, Eq, Structural, Clone, Copy, Debug)]
pub enum BinOverLapTypes {
    ComputeOnly,
    TransferOnly,
    ComputeTransfer,
}

/// The key of a bin in `overlap_bins`.
pub open spec fn bin_key(b: BinOverLapTypes) -> u64 {
    match b {
        BinOverLapTypes::ComputeOnly => 0,
        BinOverLapTypes::TransferOnly => 1,
        BinOverLapTypes::ComputeTransfer => 2,
    }
}

/// The lengths of the time spent computing only, transferring only, and doing both.
pub struct BinTotals {
    pub compute_only: u64,
    pub transfer_only: u64,
    pub compute_transfer: u64,
}

/// Statistics over the dependence graph of a trace: `overlap_bins` counts, by the key
/// of a bin kind, how many spans fell in it.
pub struct DocumentStatistics<'a> {
    pub graph: &'a PDG,
    pub overlap_bins: HashMap<u64, u64>,
}

/// The instants at which some computation runs: each computation covers
/// `start..=start + duration`; instant 0 is always counted in.
pub open spec fn compute_time(computes: Map<u64, Compute>) -> Set<u64> {
    Set::new(|x: u64| x == 0 || exists|e: u64| #[trigger] computes.contains_key(e)
        && computes[e].start <= x <= computes[e].start + computes[e].duration)
}

/// The instants at which some transfer runs: each covers `start..=start + dur`;
/// instant 0 is always counted in.
pub open spec fn transfer_time(transfers: Map<u64, Transfer>) -> Set<u64> {
    Set::new(|x: u64| x == 0 || exists|e: u64| #[trigger] transfers.contains_key(e)
        && transfers[e].start <= x <= transfers[e].start + transfers[e].dur)
}

/// The sum, over the runs of `d`, of greatest minus least.
pub open spec fn run_widths(d: Seq<(u64, u64)>) -> int
    decreases d.len(),
{
    if d.len() == 0 {
        0
    } else {
        run_widths(d.drop_last()) + (d.last().1 - d.last().0)
    }
}

/// `w` is the sum of greatest minus least over the maximal runs of `s`.
pub open spec fn is_run_width(s: Set<u64>, w: u64) -> bool {
    exists|d: Seq<(u64, u64)>| #[trigger] is_run_list(s, d) && run_widths(d) == w
}

/// Every computation and every transfer ends at `u64::MAX - 1` at the latest.
pub open spec fn spans_fit(computes: Map<u64, Compute>, transfers: Map<u64, Transfer>) -> bool {
    &&& forall|e: u64| #[trigger] computes.contains_key(e) ==> computes[e].start + computes[e].duration <= interval_bound_max()
    &&& forall|e: u64| #[trigger] transfers.contains_key(e) ==> transfers[e].start + transfers[e].dur <= interval_bound_max()
}

/// Whether every computation and every transfer of the graph ends at `u64::MAX - 1`
/// at the latest, which `generate_bins` needs.
pub fn spans_fit_graph(pdg: &PDG) -> (r: bool)
    ensures
        r == spans_fit(pdg.computes@, pdg.transfers@),
{
    let ghost computes = pdg.computes@;
    let ghost items = vstd::std_specs::iter::IteratorSpec::remaining(
        &vstd::std_specs::hash::spec_hash_map_iter(&pdg.computes),
    );
    let mut computes_fit = true;
    for compute in it: pdg.computes.iter()
        invariant
            computes == pdg.computes@,
            it.seq() == items,
            computes_fit <==> forall|j: int| 0 <= j < it.index()
                ==> (#[trigger] it.seq()[j]).1.start + it.seq()[j].1.duration <= interval_bound_max(),
    {
        let (_, compute_val) = compute;
        if compute_val.duration > u64::MAX - 1 || compute_val.start > u64::MAX - 1 - compute_val.duration {
            computes_fit = false;
        }
    }
    let ghost transfers = pdg.transfers@;
    let ghost t_items = vstd::std_specs::iter::IteratorSpec::remaining(
        &vstd::std_specs::hash::spec_hash_map_iter(&pdg.transfers),
    );
    let mut transfers_fit = true;
    for transfer in it: pdg.transfers.iter()
        invariant
            transfers == pdg.transfers@,
            it.seq() == t_items,
            transfers_fit <==> forall|j: int| 0 <= j < it.index()
                ==> (#[trigger] it.seq()[j]).1.start + it.seq()[j].1.dur <= interval_bound_max(),
    {
        let (_, transfer_val) = transfer;
        if transfer_val.dur > u64::MAX - 1 || transfer_val.start > u64::MAX - 1 - transfer_val.dur {
            transfers_fit = false;
        }
    }
    proof {
        assert(computes_fit <==> forall|e: u64| #[trigger] computes.contains_key(e)
            ==> computes[e].start + computes[e].duration <= interval_bound_max()) by {
            if computes_fit {
                assert forall|e: u64| #[trigger] computes.contains_key(e)
                    implies computes[e].start + computes[e].duration <= interval_bound_max() by {
                    assert(items.contains((&e, &computes[e])));
                    let j = choose|j: int| 0 <= j < items.len() && items[j] == (&e, &computes[e]);
                    assert(items[j].1.start + items[j].1.duration <= interval_bound_max());
                }
            } else {
                let j = choose|j: int| 0 <= j < items.len()
                    && !((#[trigger] items[j]).1.start + items[j].1.duration <= interval_bound_max());
                let (k, v) = items[j];
                assert(computes.contains_key(*k) && computes[*k] == *v);
            }
        }
        assert(transfers_fit <==> forall|e: u64| #[trigger] transfers.contains_key(e)
            ==> transfers[e].start + transfers[e].dur <= interval_bound_max()) by {
            if transfers_fit {
                assert forall|e: u64| #[trigger] transfers.contains_key(e)
                    implies transfers[e].start + transfers[e].dur <= interval_bound_max() by {
                    assert(t_items.contains((&e, &transfers[e])));
                    let j = choose|j: int| 0 <= j < t_items.len() && t_items[j] == (&e, &transfers[e]);
                    assert(t_items[j].1.start + t_items[j].1.dur <= interval_bound_max());
                }
            } else {
                let j = choose|j: int| 0 <= j < t_items.len()
                    && !((#[trigger] t_items[j]).1.start + t_items[j].1.dur <= interval_bound_max());
                let (k, v) = t_items[j];
                assert(transfers.contains_key(*k) && transfers[*k] == *v);
            }
        }
    }
    computes_fit && transfers_fit
}

/// The sum of greatest minus least over the runs of an interval set.
fn run_width_total(s: &IntervalSet64) -> (w: u64)
    ensures
        is_run_width(interval_members(*s), w),
{
    let runs = interval_runs(s);
    let mut total: u64 = 0;
    let mut i: usize = 0;
    while i < runs.len()
        invariant
            is_run_list(interval_members(*s), runs@),
            i <= runs.len(),
            total == run_widths(runs@.take(i as int)),
            i > 0 ==> total <= runs@[i - 1].1,
        decreases runs.len() - i,
    {
        let (lower, upper) = runs[i];
        proof {
            assert(runs@.take(i + 1).drop_last() =~= runs@.take(i as int));
            if i > 0 {
                assert(runs@[i - 1].1 + 1 < runs@[i as int].0);
            }
        }
        total = total + (upper - lower);
        i = i + 1;
    }
    proof {
        assert(runs@.take(runs.len() as int) =~= runs@);
    }
    total
}

impl<'a> DocumentStatistics<'a> {
    pub fn new(pdg: &'a PDG) -> (r: DocumentStatistics<'a>)
        ensures
            r.graph == pdg,
            r.overlap_bins@ == Map::<u64, u64>::empty(),
    {
        DocumentStatistics { graph: pdg, overlap_bins: HashMap::new() }
    }

    /// The time the computations and the transfers of the graph take, split into
    /// the instants covered by computations only, by transfers only, and by both;
    /// each is measured as the sum of greatest minus least over its maximal runs.
    pub fn generate_bins(&mut self) -> (r: BinTotals)
        requires
            spans_fit(old(self).graph.computes@, old(self).graph.transfers@),
        ensures
            final(self).graph == old(self).graph,
            final(self).overlap_bins == old(self).overlap_bins,
            is_run_width(compute_time(old(self).graph.computes@).difference(transfer_time(old(self).graph.transfers@)), r.compute_only),
            is_run_width(transfer_time(old(self).graph.transfers@).difference(compute_time(old(self).graph.computes@)), r.transfer_only),
            is_run_width(compute_time(old(self).graph.computes@).intersect(transfer_time(old(self).graph.transfers@)), r.compute_transfer),
    {
        let ghost computes = self.graph.computes@;
        let ghost transfers = self.graph.transfers@;
        let mut compute_interval_set = interval_set_of(0, 0);
        let ghost items = vstd::std_specs::iter::IteratorSpec::remaining(
            &vstd::std_specs::hash::spec_hash_map_iter(&self.graph.computes),
        );
        for compute in it: self.graph.computes.iter()
            invariant
                computes == self.graph.computes@,
                spans_fit(computes, transfers),
                it.seq() == items,
                forall|x: u64| #[trigger] interval_members(compute_interval_set).contains(x) <==> (x == 0
                    || exists|j: int| 0 <= j < it.index() && (#[trigger] it.seq()[j]).1.start <= x
                        <= it.seq()[j].1.start + it.seq()[j].1.duration),
                forall|x: u64| #[trigger] interval_members(compute_interval_set).contains(x) ==> compute_time(computes).contains(x),
        {
            let (key, compute_val) = compute;
            proof {
                assert(computes.contains_key(*key));
                assert(computes[*key] == *compute_val);
            }
            let compute_start = compute_val.start;
            let compute_end = compute_val.start + compute_val.duration;
            let span = interval_set_of(compute_start, compute_end);
            compute_interval_set = interval_union(&compute_interval_set, &span);
        }
        proof {
            assert(interval_members(compute_interval_set) =~= compute_time(computes)) by {
                assert forall|x: u64| compute_time(computes).contains(x) implies interval_members(compute_interval_set).contains(x) by {
                    if x != 0 {
                        let e = choose|e: u64| #[trigger] computes.contains_key(e)
                            && computes[e].start <= x <= computes[e].start + computes[e].duration;
                        assert(items.contains((&e, &computes[e])));
                    }
                }
            }
        }
        let mut transfer_interval_set = interval_set_of(0, 0);
        let ghost t_items = vstd::std_specs::iter::IteratorSpec::remaining(
            &vstd::std_specs::hash::spec_hash_map_iter(&self.graph.transfers),
        );
        for transfer in it: self.graph.transfers.iter()
            invariant
                transfers == self.graph.transfers@,
                spans_fit(computes, transfers),
                it.seq() == t_items,
                forall|x: u64| #[trigger] interval_members(transfer_interval_set).contains(x) <==> (x == 0
                    || exists|j: int| 0 <= j < it.index() && (#[trigger] it.seq()[j]).1.start <= x
                        <= it.seq()[j].1.start + it.seq()[j].1.dur),
                forall|x: u64| #[trigger] interval_members(transfer_interval_set).contains(x) ==> transfer_time(transfers).contains(x),
        {
            let (key, transfer_val) = transfer;
            proof {
                assert(transfers.contains_key(*key));
                assert(transfers[*key] == *transfer_val);
            }
            let transfer_start = transfer_val.start;
            let transfer_end = transfer_val.start + transfer_val.dur;
            let span = interval_set_of(transfer_start, transfer_end);
            transfer_interval_set = interval_union(&transfer_interval_set, &span);
        }
        proof {
            assert(interval_members(transfer_interval_set) =~= transfer_time(transfers)) by {
                assert forall|x: u64| transfer_time(transfers).contains(x) implies interval_members(transfer_interval_set).contains(x) by {
                    if x != 0 {
                        let e = choose|e: u64| #[trigger] transfers.contains_key(e)
                            && transfers[e].start <= x <= transfers[e].start + transfers[e].dur;
                        assert(t_items.contains((&e, &transfers[e])));
                    }
                }
            }
        }

        let compute_transfer_interval_set = interval_intersection(&compute_interval_set, &transfer_interval_set);
        let compute_interval_complement = interval_complement(&compute_interval_set);
        let transfer_interval_complement = interval_complement(&transfer_interval_set);
        let compute_only_set = interval_intersection(&compute_interval_set, &transfer_interval_complement);
        let transfer_only_set = interval_intersection(&transfer_interval_set, &compute_interval_complement);
        proof {
            let c = compute_time(computes);
            let t = transfer_time(transfers);
            assert forall|x: u64| c.contains(x) implies x <= interval_bound_max() by {
                if x != 0 {
                    let e = choose|e: u64| #[trigger] computes.contains_key(e)
                        && computes[e].start <= x <= computes[e].start + computes[e].duration;
                }
            }
            assert forall|x: u64| t.contains(x) implies x <= interval_bound_max() by {
                if x != 0 {
                    let e = choose|e: u64| #[trigger] transfers.contains_key(e)
                        && transfers[e].start <= x <= transfers[e].start + transfers[e].dur;
                }
            }
            assert(interval_members(compute_only_set) =~= c.difference(t));
            assert(interval_members(transfer_only_set) =~= t.difference(c));
        }
        BinTotals {
            compute_only: run_width_total(&compute_only_set),
            transfer_only: run_width_total(&transfer_only_set),
            compute_transfer: run_width_total(&compute_transfer_interval_set),
        }
    }

    /// Whether the transfer, if any, ends before `compute_end`.
    fn check_recursive(&self, transfer: Option<(&u64, &Transfer)>, compute_end: u64) -> (r: bool)
        requires
            match transfer {
                Some((_, t)) => t.start + t.dur <= u64::MAX,
                None => true,
            },
        ensures
            r == match transfer {
                Some((_, t)) => t.start + t.dur < compute_end,
                None => false,
            },
    {
        let val = match transfer {
            Some(v) => {
                let (_, transfer_value) = v;
                let transfer_start_time = transfer_value.start;
                let transfer_duration = transfer_value.dur;
                let transfer_end = transfer_start_time + transfer_duration;
                if transfer_end < compute_end {
                    true
                } else {
                    false
                }
            },
            None => false,
        };
        val
    }

    /// Counts one more span in bin `key`.
    fn count_in_bin(&mut self, key: u64)
        requires
            old(self).overlap_bins@.contains_key(key) ==> old(self).overlap_bins@[key] < u64::MAX,
        ensures
            final(self).graph == old(self).graph,
            final(self).overlap_bins@ == old(self).overlap_bins@.insert(key, bin_count_after(old(self).overlap_bins@, key)),
    {
        match self.overlap_bins.get(&key) {
            Some(n) => {
                let n1 = *n + 1;
                self.overlap_bins.insert(key, n1);
            },
            None => {
                self.overlap_bins.insert(key, 1);
            },
        }
    }

    /// Counts one more span of computation alone.
    fn compute_only_bin(&mut self)
        requires
            old(self).overlap_bins@.contains_key(bin_key(BinOverLapTypes::ComputeOnly))
                ==> old(self).overlap_bins@[bin_key(BinOverLapTypes::ComputeOnly)] < u64::MAX,
        ensures
            final(self).graph == old(self).graph,
            final(self).overlap_bins@ == old(self).overlap_bins@.insert(
                bin_key(BinOverLapTypes::ComputeOnly),
                bin_count_after(old(self).overlap_bins@, bin_key(BinOverLapTypes::ComputeOnly)),
            ),
    {
        self.count_in_bin(0);
    }

    /// Counts one more span of transfer alone.
    fn transfer_only_bin(&mut self)
        requires
            old(self).overlap_bins@.contains_key(bin_key(BinOverLapTypes::TransferOnly))
                ==> old(self).overlap_bins@[bin_key(BinOverLapTypes::TransferOnly)] < u64::MAX,
        ensures
            final(self).graph == old(self).graph,
            final(self).overlap_bins@ == old(self).overlap_bins@.insert(
                bin_key(BinOverLapTypes::TransferOnly),
                bin_count_after(old(self).overlap_bins@, bin_key(BinOverLapTypes::TransferOnly)),
            ),
    {
        self.count_in_bin(1);
    }

    /// Counts one more span of computation and transfer together.
    fn compute_transfer_bin(&mut self)
        requires
            old(self).overlap_bins@.contains_key(bin_key(BinOverLapTypes::ComputeTransfer))
                ==> old(self).overlap_bins@[bin_key(BinOverLapTypes::ComputeTransfer)] < u64::MAX,
        ensures
            final(self).graph == old(self).graph,
            final(self).overlap_bins@ == old(self).overlap_bins@.insert(
                bin_key(BinOverLapTypes::ComputeTransfer),
                bin_count_after(old(self).overlap_bins@, bin_key(BinOverLapTypes::ComputeTransfer)),
            ),
    {
        self.count_in_bin(2);
    }
}

/// The count of bin `key` after one more span: one more than before, or 1 for a new bin.
pub open spec fn bin_count_after(bins: Map<u64, u64>, key: u64) -> u64 {
    if bins.contains_key(key) {
        (bins[key] + 1) as u64
    } else {
        1
    }
}

/// The first run of a run list starts at the least integer of the set and ends before
/// the first integer above it that the set misses.
proof fn lemma_first_run(s: Set<u64>, d: Seq<(u64, u64)>, x: u64)
    requires
        is_run_list(s, d),
        d.len() > 0,
        s.contains(x),
    ensures
        d[0].0 <= x,
        x <= d[0].1 || d[0].1 + 1 < x,
{
    let i = choose|i: int| 0 <= i < d.len() && (#[trigger] d[i]).0 <= x <= d[i].1;
    if i > 0 {
        assert(d[0].1 + 1 < d[i].0);
    }
}

/// The runs that follow the first are the run list of the set without the first run.
proof fn lemma_rest_runs(s: Set<u64>, d: Seq<(u64, u64)>)
    requires
        is_run_list(s, d),
        d.len() > 0,
    ensures
        is_run_list(s.difference(closed_range(d[0].0, d[0].1)), d.drop_first()),
{
    let t = s.difference(closed_range(d[0].0, d[0].1));
    let r = d.drop_first();
    assert forall|i: int, j: int| 0 <= i < j < r.len() implies (#[trigger] r[i]).1 + 1 < (#[trigger] r[j]).0 by {
        assert(d[i + 1].1 + 1 < d[j + 1].0);
    }
    assert forall|x: u64| #[trigger] t.contains(x) <==> exists|i: int| 0 <= i < r.len() && (#[trigger] r[i]).0 <= x <= r[i].1 by {
        if t.contains(x) {
            let i = choose|i: int| 0 <= i < d.len() && (#[trigger] d[i]).0 <= x <= d[i].1;
            assert(i != 0);
            assert(r[i - 1] == d[i]);
        }
        if exists|i: int| 0 <= i < r.len() && (#[trigger] r[i]).0 <= x <= r[i].1 {
            let i = choose|i: int| 0 <= i < r.len() && (#[trigger] r[i]).0 <= x <= r[i].1;
            assert(d[i + 1] == r[i]);
            assert(d[0].1 + 1 < d[i + 1].0);
            assert(s.contains(x));
        }
    }
}

/// A set has one run list: its maximal runs, in order.
pub proof fn lemma_run_list_unique(s: Set<u64>, d1: Seq<(u64, u64)>, d2: Seq<(u64, u64)>)
    requires
        is_run_list(s, d1),
        is_run_list(s, d2),
    ensures
        d1 == d2,
    decreases d1.len(),
{
    if d1.len() == 0 || d2.len() == 0 {
        if d1.len() > 0 {
            assert(s.contains(d1[0].0));
        }
        if d2.len() > 0 {
            assert(s.contains(d2[0].0));
        }
        assert(d1 =~= d2);
    } else {
        assert(s.contains(d1[0].0));
        assert(s.contains(d2[0].0));
        lemma_first_run(s, d2, d1[0].0);
        lemma_first_run(s, d1, d2[0].0);
        assert(d1[0].0 == d2[0].0);
        if d1[0].1 < d2[0].1 {
            let x = (d1[0].1 + 1) as u64;
            assert(s.contains(x));
            lemma_first_run(s, d1, x);
        }
        if d2[0].1 < d1[0].1 {
            let x = (d2[0].1 + 1) as u64;
            assert(s.contains(x));
            lemma_first_run(s, d2, x);
        }
        assert(d1[0] == d2[0]);
        lemma_rest_runs(s, d1);
        lemma_rest_runs(s, d2);
        lemma_run_list_unique(s.difference(closed_range(d1[0].0, d1[0].1)), d1.drop_first(), d2.drop_first());
        assert(d1 =~= d2) by {
            assert forall|i: int| 0 <= i < d1.len() implies d1[i] == d2[i] by {
                if i > 0 {
                    assert(d1[i] == d1.drop_first()[i - 1]);
                    assert(d2[i] == d2.drop_first()[i - 1]);
                }
            }
        }
    }
}

/// The measure of a set by its runs is one number.
pub proof fn lemma_run_width_unique(s: Set<u64>, w1: u64, w2: u64)
    requires
        is_run_width(s, w1),
        is_run_width(s, w2),
    ensures
        w1 == w2,
{
    let d1 = choose|d: Seq<(u64, u64)>| #[trigger] is_run_list(s, d) && run_widths(d) == w1;
    let d2 = choose|d: Seq<(u64, u64)>| #[trigger] is_run_list(s, d) && run_widths(d) == w2;
    lemma_run_list_unique(s, d1, d2);
}

/// Runs in increasing order, each a nonempty range, two of them never touching.
pub open spec fn runs_ordered(d: Seq<(u64, u64)>) -> bool {
    &&& forall|i: int| 0 <= i < d.len() ==> (#[trigger] d[i]).0 <= d[i].1
    &&& forall|i: int, j: int| 0 <= i < j < d.len() ==> (#[trigger] d[i]).1 + 1 < (#[trigger] d[j]).0
}

/// Ordered runs measure at most the distance from the first least to the last greatest.
proof fn lemma_run_widths_span(d: Seq<(u64, u64)>)
    requires
        runs_ordered(d),
    ensures
        run_widths(d) >= 0,
        d.len() > 0 ==> run_widths(d) <= d.last().1 - d[0].0,
    decreases d.len(),
{
    if d.len() > 0 {
        let p = d.drop_last();
        lemma_run_widths_span(p);
        if p.len() > 0 {
            assert(p.last() == d[d.len() - 2]);
            assert(d[d.len() - 2].1 + 1 < d.last().0);
            assert(p[0] == d[0]);
        }
    }
}

/// The measure of runs followed by further runs is the sum of the two measures.
proof fn lemma_run_widths_concat(d1: Seq<(u64, u64)>, d2: Seq<(u64, u64)>)
    ensures
        run_widths(d1 + d2) == run_widths(d1) + run_widths(d2),
    decreases d2.len(),
{
    if d2.len() == 0 {
        assert(d1 + d2 =~= d1);
    } else {
        assert((d1 + d2).drop_last() =~= d1 + d2.drop_last());
        assert((d1 + d2).last() == d2.last());
        lemma_run_widths_concat(d1, d2.drop_last());
    }
}

/// A single run `a..=b` measures `b - a`.
pub proof fn lemma_run_width_of_run(a: u64, b: u64)
    requires
        a <= b,
    ensures
        is_run_width(closed_range(a, b), (b - a) as u64),
{
    let d = seq![(a, b)];
    assert(d.drop_last() =~= Seq::<(u64, u64)>::empty());
    assert(is_run_list(closed_range(a, b), d)) by {
        assert forall|x: u64| #[trigger] closed_range(a, b).contains(x) <==> exists|i: int| 0 <= i < d.len() && (#[trigger] d[i]).0 <= x <= d[i].1 by {
            if closed_range(a, b).contains(x) {
                assert(d[0].0 <= x <= d[0].1);
            }
        }
    }
    assert(run_widths(d.drop_last()) == 0);
    assert(d.last() == (a, b));
    assert(run_widths(d) == b - a);
}

/// The measure by maximal runs is additive: when every integer of `s` lies below every
/// integer of `t` with a gap between them, `s` and `t` together measure the sum of their
/// measures.
pub proof fn lemma_run_width_additive(s: Set<u64>, t: Set<u64>, w1: u64, w2: u64)
    requires
        is_run_width(s, w1),
        is_run_width(t, w2),
        forall|x: u64, y: u64| #[trigger] s.contains(x) && #[trigger] t.contains(y) ==> x + 1 < y,
    ensures
        w1 + w2 <= u64::MAX,
        is_run_width(s.union(t), (w1 + w2) as u64),
{
    let d1 = choose|d: Seq<(u64, u64)>| #[trigger] is_run_list(s, d) && run_widths(d) == w1;
    let d2 = choose|d: Seq<(u64, u64)>| #[trigger] is_run_list(t, d) && run_widths(d) == w2;
    let d = d1 + d2;
    assert forall|i: int, j: int| 0 <= i < j < d.len() implies (#[trigger] d[i]).1 + 1 < (#[trigger] d[j]).0 by {
        if j < d1.len() {
        } else if i >= d1.len() {
            assert(d[i] == d2[i - d1.len()]);
            assert(d[j] == d2[j - d1.len()]);
        } else {
            assert(s.contains(d1[i].1));
            assert(d[j] == d2[j - d1.len()]);
            assert(t.contains(d2[j - d1.len()].0));
        }
    }
    assert forall|i: int| 0 <= i < d.len() implies (#[trigger] d[i]).0 <= d[i].1 by {
        if i >= d1.len() {
            assert(d[i] == d2[i - d1.len()]);
        }
    }
    assert forall|x: u64| #[trigger] s.union(t).contains(x) <==> exists|i: int| 0 <= i < d.len() && (#[trigger] d[i]).0 <= x <= d[i].1 by {
        if s.contains(x) {
            let i = choose|i: int| 0 <= i < d1.len() && (#[trigger] d1[i]).0 <= x <= d1[i].1;
            assert(d[i] == d1[i]);
        } else if t.contains(x) {
            let i = choose|i: int| 0 <= i < d2.len() && (#[trigger] d2[i]).0 <= x <= d2[i].1;
            assert(d[i + d1.len()] == d2[i]);
        }
        if exists|i: int| 0 <= i < d.len() && (#[trigger] d[i]).0 <= x <= d[i].1 {
            let i = choose|i: int| 0 <= i < d.len() && (#[trigger] d[i]).0 <= x <= d[i].1;
            if i < d1.len() {
                assert(d1[i] == d[i]);
                assert(s.contains(x));
            } else {
                assert(d2[i - d1.len()] == d[i]);
                assert(t.contains(x));
            }
        }
    }
    assert(is_run_list(s.union(t), d));
    lemma_run_widths_concat(d1, d2);
    lemma_run_widths_span(d1);
    lemma_run_widths_span(d2);
    if d1.len() > 0 && d2.len() > 0 {
        assert(s.contains(d1.last().1));
        assert(s.contains(d1[0].0));
        assert(t.contains(d2[0].0));
        assert(t.contains(d2.last().1));
    }
    assert(run_widths(d) == (w1 + w2) as u64);
}

} // verus!
