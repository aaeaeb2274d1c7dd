//! Greedy least-loaded-channel assignment: a queue of ticketed visitors is
//! distributed over a fixed number of service windows, each visitor going to
//! the window with the smallest accumulated service time, ties broken by the
//! lowest window index.

use vstd::prelude::*;
use vstd::arithmetic::div_mod::{lemma_div_is_ordered, lemma_div_multiples_vanish};
use vstd::string::StringExecFns;
use std::collections::VecDeque;
use crate::sums::{sum_ints, lemma_sum_push, lemma_sum_update, lemma_sum_lower, lemma_sum_take_le};
use crate::codec::{digit_char, append_digit};

verus! {

/// A queued visitor: the ticket label and the requested service duration.
pub struct Visitor {
    pub ticket: String,
    pub duration: u32,
}

/// A service window: its accumulated service time and the roster of
/// visitors routed to it, in arrival order.
pub struct Window {
    pub total_time: u64,
    pub visitors: Vec<Visitor>,
}

impl Window {
    /// A fresh window: no visitors, no accumulated time.
    pub fn new() -> (w: Window)
        ensures
            w.total_time == 0,
            w.visitors@.len() == 0,
    {
        Window { total_time: 0, visitors: Vec::new() }
    }
}

/// A visitor as plain values: the ticket characters and the duration.
pub type VisitorV = (Seq<char>, u32);

/// A window as plain values: the accumulated time and the roster.
pub type WindowV = (int, Seq<VisitorV>);

pub open spec fn visitor_view(v: Visitor) -> VisitorV {
    (v.ticket@, v.duration)
}

pub open spec fn visitor_views(s: Seq<Visitor>) -> Seq<VisitorV> {
    s.map_values(|v: Visitor| visitor_view(v))
}

pub open spec fn window_view(w: Window) -> WindowV {
    (w.total_time as int, visitor_views(w.visitors@))
}

pub open spec fn window_views(s: Seq<Window>) -> Seq<WindowV> {
    s.map_values(|w: Window| window_view(w))
}

pub open spec fn totals(ws: Seq<WindowV>) -> Seq<int> {
    ws.map_values(|w: WindowV| w.0)
}

pub open spec fn durations(vs: Seq<VisitorV>) -> Seq<int> {
    vs.map_values(|v: VisitorV| v.1 as int)
}

pub open spec fn sum_durations(vs: Seq<VisitorV>) -> int {
    sum_ints(durations(vs))
}

/// The largest single duration in the queue (0 for an empty queue).
pub open spec fn max_duration(vs: Seq<VisitorV>) -> int
    decreases vs.len(),
{
    if vs.len() == 0 {
        0
    } else {
        let m = max_duration(vs.drop_last());
        if vs.last().1 as int > m {
            vs.last().1 as int
        } else {
            m
        }
    }
}

/// Index of the least-loaded window: the first position holding the minimum.
pub open spec fn min_index(ts: Seq<int>) -> int
    decreases ts.len(),
{
    if ts.len() <= 1 {
        0
    } else {
        let m = min_index(ts.drop_last());
        if ts.last() < ts[m] {
            ts.len() - 1
        } else {
            m
        }
    }
}

pub proof fn lemma_min_index_props(ts: Seq<int>)
    requires
        ts.len() >= 1,
    ensures
        0 <= min_index(ts) < ts.len(),
        forall|i: int| 0 <= i < ts.len() ==> ts[min_index(ts)] <= #[trigger] ts[i],
        forall|i: int| 0 <= i < min_index(ts) ==> #[trigger] ts[i] > ts[min_index(ts)],
    decreases ts.len(),
{
    if ts.len() > 1 {
        let sub = ts.drop_last();
        lemma_min_index_props(sub);
        let ms = min_index(sub);
        let m = min_index(ts);
        assert forall|i: int| 0 <= i < ts.len() implies ts[m] <= #[trigger] ts[i] by {
            if i < ts.len() - 1 {
                assert(sub[ms] <= sub[i]);
            }
        }
        assert forall|i: int| 0 <= i < m implies #[trigger] ts[i] > ts[m] by {
            if ts.last() < sub[ms] {
                assert(sub[ms] <= sub[i]);
            } else {
                assert(m == ms);
                assert(sub[i] > sub[ms]);
            }
        }
    }
}

/// The first position holding the minimum is pinned: anything with the
/// characteristic properties equals `min_index`.
pub proof fn lemma_min_index_unique(ts: Seq<int>, k: int)
    requires
        0 <= k < ts.len(),
        forall|i: int| 0 <= i < ts.len() ==> ts[k] <= #[trigger] ts[i],
        forall|i: int| 0 <= i < k ==> #[trigger] ts[i] > ts[k],
    ensures
        k == min_index(ts),
{
    lemma_min_index_props(ts);
    let m = min_index(ts);
    if k < m {
        assert(ts[k] > ts[m]);
        assert(ts[k] <= ts[m]);
    } else if m < k {
        assert(ts[m] > ts[k]);
        assert(ts[m] <= ts[k]);
    }
}

/// The greedy assignment, as a pure function of the visitor sequence and the
/// window count: each visitor in turn goes to the least-loaded window, ties
/// to the lowest index.
pub open spec fn spec_distribute(vs: Seq<VisitorV>, k: nat) -> Seq<WindowV>
    decreases vs.len(),
{
    if vs.len() == 0 {
        Seq::new(k, |i: int| (0int, Seq::<VisitorV>::empty()))
    } else {
        let prev = spec_distribute(vs.drop_last(), k);
        let m = min_index(totals(prev));
        let v = vs.last();
        prev.update(m, (prev[m].0 + v.1, prev[m].1.push(v)))
    }
}

proof fn lemma_sum_zero_seq(k: nat)
    ensures
        sum_ints(Seq::new(k, |i: int| 0int)) == 0,
    decreases k,
{
    if k > 0 {
        assert(Seq::new(k, |i: int| 0int).drop_last() =~= Seq::new((k - 1) as nat, |i: int| 0int));
        lemma_sum_zero_seq((k - 1) as nat);
    }
}

/// Structural facts of the greedy assignment: it always yields exactly `k`
/// windows, each window's total is the sum of its roster's durations, and
/// the window totals add up to the whole queue's duration.
pub proof fn lemma_distribute_invariants(vs: Seq<VisitorV>, k: nat)
    requires
        k >= 1,
    ensures
        spec_distribute(vs, k).len() == k,
        forall|i: int|
            0 <= i < k ==> (#[trigger] spec_distribute(vs, k)[i]).0 == sum_durations(
                spec_distribute(vs, k)[i].1,
            ),
        sum_ints(totals(spec_distribute(vs, k))) == sum_durations(vs),
    decreases vs.len(),
{
    if vs.len() == 0 {
        let ws = spec_distribute(vs, k);
        assert(totals(ws) =~= Seq::new(k, |i: int| 0int));
        lemma_sum_zero_seq(k);
        assert(durations(vs) =~= Seq::<int>::empty());
        assert forall|i: int| 0 <= i < k implies (#[trigger] ws[i]).0 == sum_durations(ws[i].1) by {
            assert(durations(ws[i].1) =~= Seq::<int>::empty());
        }
    } else {
        lemma_distribute_invariants(vs.drop_last(), k);
        let prev = spec_distribute(vs.drop_last(), k);
        let m = min_index(totals(prev));
        let v = vs.last();
        let ws = spec_distribute(vs, k);
        lemma_min_index_props(totals(prev));
        assert(totals(prev).len() == k);
        // the new window's total is the sum of its new roster
        assert(durations(prev[m].1.push(v)) =~= durations(prev[m].1).push(v.1 as int));
        lemma_sum_push(durations(prev[m].1), v.1 as int);
        // the grand total grows by the new duration
        assert(totals(ws) =~= totals(prev).update(m, prev[m].0 + v.1));
        lemma_sum_update(totals(prev), m, prev[m].0 + v.1);
        assert(durations(vs).drop_last() =~= durations(vs.drop_last()));
        assert(sum_durations(vs) == sum_durations(vs.drop_last()) + v.1 as int);
    }
}

/// Every window's total is nonnegative.
pub proof fn lemma_distribute_totals_nonneg(vs: Seq<VisitorV>, k: nat)
    requires
        k >= 1,
    ensures
        forall|i: int| 0 <= i < k ==> (#[trigger] spec_distribute(vs, k)[i]).0 >= 0,
{
    lemma_distribute_invariants(vs, k);
    let ws = spec_distribute(vs, k);
    assert forall|i: int| 0 <= i < k implies (#[trigger] ws[i]).0 >= 0 by {
        lemma_sum_lower(durations(ws[i].1), 0);
    }
}

/// Greedy load-balancing bound: after assigning every visitor, no window's
/// total exceeds the average load (rounded down) plus one maximal single
/// duration.
pub proof fn lemma_greedy_balance(vs: Seq<VisitorV>, k: nat)
    requires
        k >= 1,
    ensures
        forall|i: int|
            0 <= i < k ==> (#[trigger] spec_distribute(vs, k)[i]).0 <= sum_durations(vs) / (
            k as int) + max_duration(vs),
    decreases vs.len(),
{
    lemma_distribute_invariants(vs, k);
    if vs.len() == 0 {
        assert(durations(vs) =~= Seq::<int>::empty());
        lemma_div_multiples_vanish(0, k as int);
        assert((k as int) * 0 == 0) by (nonlinear_arith);
    } else {
        lemma_greedy_balance(vs.drop_last(), k);
        lemma_distribute_invariants(vs.drop_last(), k);
        lemma_distribute_totals_nonneg(vs.drop_last(), k);
        let prev = spec_distribute(vs.drop_last(), k);
        let m = min_index(totals(prev));
        let v = vs.last();
        let d = v.1 as int;
        let ws = spec_distribute(vs, k);
        let s0 = sum_durations(vs.drop_last());
        let s1 = sum_durations(vs);
        let m0 = max_duration(vs.drop_last());
        let m1 = max_duration(vs);
        assert(durations(vs).drop_last() =~= durations(vs.drop_last()));
        assert(s1 == s0 + d);
        lemma_min_index_props(totals(prev));
        // the least-loaded window is at most the average
        let tm = totals(prev)[m];
        lemma_sum_lower(totals(prev), tm);
        assert(sum_ints(totals(prev)) == s0);
        assert(tm * (k as int) == (k as int) * tm) by (nonlinear_arith);
        lemma_div_multiples_vanish(tm, k as int);
        lemma_div_is_ordered((k as int) * tm, s0, k as int);
        assert(tm <= s0 / (k as int));
        lemma_div_is_ordered(s0, s1, k as int);
        // the unchanged windows keep their old bound; the updated one gets
        // at most the old minimum plus one duration
        assert forall|i: int| 0 <= i < k implies (#[trigger] ws[i]).0 <= s1 / (k as int) + m1 by {
            assert(totals(prev)[i] == prev[i].0);
            if i == m {
                assert(ws[i].0 == tm + d);
            } else {
                assert(ws[i].0 == prev[i].0);
                assert(prev[i].0 <= s0 / (k as int) + m0);
            }
        }
    }
}

/// The decimal digits of `n`, most significant first, no leading zeros
/// (except for `n == 0` itself).
pub open spec fn dec_digits(n: nat) -> Seq<char>
    decreases n,
{
    if n < 10 {
        seq![digit_char(n as int)]
    } else {
        dec_digits(n / 10).push(digit_char((n % 10) as int))
    }
}

/// The ticket label for serial number `n`: a `T` followed by the decimal
/// digits of `n`, zero-padded to at least three digits.
pub open spec fn ticket_label(n: nat) -> Seq<char> {
    if n < 10 {
        seq!['T', '0', '0'] + dec_digits(n)
    } else if n < 100 {
        seq!['T', '0'] + dec_digits(n)
    } else {
        seq!['T'] + dec_digits(n)
    }
}

/// The digits collected least-significant-first, read back as characters in
/// display order.
spec fn rev_digit_chars(ds: Seq<u32>) -> Seq<char> {
    Seq::new(ds.len(), |j: int| digit_char(ds[ds.len() - 1 - j] as int))
}

/// Advance the serial counter and render the next ticket label, `T` plus
/// the counter value zero-padded to at least three digits.
pub fn generate_ticket(counter: &mut u32) -> (t: String)
    requires
        *old(counter) < u32::MAX,
    ensures
        *final(counter) == *old(counter) + 1,
        t@ == ticket_label(*final(counter) as nat),
{
    *counter = *counter + 1;
    let n = *counter;
    let mut s = String::from_str("T");
    proof {
        reveal_strlit("T");
    }
    if n < 10 {
        append_digit(&mut s, 0);
        append_digit(&mut s, 0);
    } else if n < 100 {
        append_digit(&mut s, 0);
    }
    let ghost base = s@;
    let mut digits: Vec<u32> = Vec::new();
    let mut m = n;
    proof {
        assert(rev_digit_chars(digits@) =~= Seq::<char>::empty());
        assert(dec_digits(n as nat) + rev_digit_chars(digits@) =~= dec_digits(n as nat));
    }
    while m > 0
        invariant
            forall|j: int| 0 <= j < digits@.len() ==> (#[trigger] digits@[j]) < 10,
            m > 0 ==> dec_digits(n as nat) == dec_digits(m as nat) + rev_digit_chars(digits@),
            m == 0 ==> digits@.len() > 0 && dec_digits(n as nat) == rev_digit_chars(digits@),
        decreases m,
    {
        let ghost old_digits = digits@;
        let ghost old_m = m;
        let d = m % 10;
        digits.push(d);
        m = m / 10;
        proof {
            assert(rev_digit_chars(digits@) =~= seq![digit_char(d as int)] + rev_digit_chars(
                old_digits,
            ));
            if old_m >= 10 {
                assert(dec_digits(old_m as nat) == dec_digits(m as nat).push(
                    digit_char(d as int),
                ));
                assert(dec_digits(m as nat).push(digit_char(d as int)) + rev_digit_chars(
                    old_digits,
                ) =~= dec_digits(m as nat) + rev_digit_chars(digits@));
            } else {
                assert(dec_digits(old_m as nat) =~= seq![digit_char(d as int)]);
                assert(seq![digit_char(d as int)] + rev_digit_chars(old_digits) =~= rev_digit_chars(
                    digits@,
                ));
            }
        }
    }
    let len = digits.len();
    proof {
        assert(dec_digits(n as nat).len() == len);
        assert(s@ + dec_digits(n as nat).take(0) =~= s@);
    }
    let mut j: usize = 0;
    while j < len
        invariant
            j <= len,
            len == digits@.len(),
            len == dec_digits(n as nat).len(),
            forall|l: int| 0 <= l < len ==> (#[trigger] digits@[l]) < 10,
            dec_digits(n as nat) == rev_digit_chars(digits@),
            s@ == base + dec_digits(n as nat).take(j as int),
        decreases len - j,
    {
        let d = digits[len - 1 - j];
        let ghost s_before = s@;
        append_digit(&mut s, d);
        proof {
            assert(rev_digit_chars(digits@)[j as int] == digit_char(
                digits@[len - 1 - j as int] as int,
            ));
            assert(dec_digits(n as nat)[j as int] == digit_char(d as int));
            assert(s_before.push(digit_char(d as int)) =~= base + dec_digits(n as nat).take(
                j as int + 1,
            ));
        }
        j += 1;
    }
    proof {
        assert(dec_digits(n as nat).take(len as int) =~= dec_digits(n as nat));
        if n < 10 {
            assert(base =~= seq!['T', '0', '0']);
        } else if n < 100 {
            assert(base =~= seq!['T', '0']);
        } else {
            assert(base =~= seq!['T']);
        }
        assert(s@ =~= ticket_label(n as nat));
    }
    s
}

/// Drain the queue, routing each visitor in turn to the window with the
/// smallest accumulated service time (ties to the lowest index). The result
/// is exactly the greedy assignment `spec_distribute` over the queue's
/// contents, and so obeys the load-balancing bound of
/// `lemma_greedy_balance`.
pub fn distribute_queue(q: &mut VecDeque<Visitor>, windows_count: usize) -> (ws: Vec<Window>)
    requires
        windows_count >= 1,
        sum_durations(visitor_views(old(q)@)) <= u64::MAX,
    ensures
        final(q)@.len() == 0,
        window_views(ws@) == spec_distribute(visitor_views(old(q)@), windows_count as nat),
{
    let k = windows_count;
    let ghost vs0 = visitor_views(old(q)@);
    let ghost n = vs0.len() as int;
    let mut windows: Vec<Window> = Vec::new();
    let mut i: usize = 0;
    while i < k
        invariant
            i <= k,
            windows@.len() == i,
            forall|j: int|
                0 <= j < i ==> (#[trigger] windows@[j]).total_time == 0 && windows@[j].visitors@
                    .len() == 0,
        decreases k - i,
    {
        windows.push(Window::new());
        i += 1;
    }
    proof {
        let start = spec_distribute(vs0.take(0), k as nat);
        assert(vs0.take(0) =~= Seq::<VisitorV>::empty());
        assert forall|j: int| 0 <= j < k implies window_views(windows@)[j] == start[j] by {
            assert(visitor_views(windows@[j].visitors@) =~= Seq::<VisitorV>::empty());
        }
        assert(window_views(windows@) =~= start);
    }
    let mut processed: Ghost<int> = Ghost(0);
    while q.len() > 0
        invariant
            windows@.len() == k,
            1 <= k,
            0 <= processed@ <= n,
            n == vs0.len(),
            sum_durations(vs0) <= u64::MAX,
            visitor_views(q@) == vs0.skip(processed@),
            window_views(windows@) == spec_distribute(vs0.take(processed@), k as nat),
        decreases q@.len(),
    {
        let ghost p = processed@;
        let ghost q_before = q@;
        match q.pop_front() {
            Some(v) => {
                proof {
                    assert(q_before.len() > 0);
                    assert(visitor_views(q_before).len() == q_before.len());
                    assert(p < n);
                    assert(visitor_views(q_before)[0] == visitor_view(v));
                    assert(vs0.skip(p)[0] == vs0[p + 0]);
                    assert(visitor_view(v) == vs0[p]);
                    assert(q@ == q_before.subrange(1, q_before.len() as int));
                    assert forall|j: int| 0 <= j < q@.len() implies visitor_views(q@)[j] == vs0.skip(
                        p + 1,
                    )[j] by {
                        assert(q@[j] == q_before[j + 1]);
                        assert(visitor_views(q_before)[j + 1] == visitor_view(q_before[j + 1]));
                        assert(vs0.skip(p)[j + 1] == vs0[p + (j + 1)]);
                        assert(vs0.skip(p + 1)[j] == vs0[p + 1 + j]);
                    }
                    assert(visitor_views(q@) =~= vs0.skip(p + 1));
                }
                // least-loaded window, ties to the lowest index
                let mut m: usize = 0;
                let mut j: usize = 1;
                while j < k
                    invariant
                        m < j <= k,
                        windows@.len() == k,
                        forall|l: int|
                            0 <= l < j ==> windows@[m as int].total_time <= (
                            #[trigger] windows@[l]).total_time,
                        forall|l: int|
                            0 <= l < m ==> (#[trigger] windows@[l]).total_time
                                > windows@[m as int].total_time,
                    decreases k - j,
                {
                    if windows[j].total_time < windows[m].total_time {
                        m = j;
                    }
                    j += 1;
                }
                let ghost prev = spec_distribute(vs0.take(p), k as nat);
                proof {
                    assert forall|l: int| 0 <= l < k implies #[trigger] totals(prev)[l]
                        == windows@[l].total_time as int by {
                        assert(prev[l] == window_view(windows@[l]));
                    }
                    assert forall|l: int| 0 <= l < k implies totals(prev)[m as int] <= (
                    #[trigger] totals(prev)[l]) by {}
                    assert forall|l: int| 0 <= l < m implies #[trigger] totals(prev)[l] > totals(
                        prev,
                    )[m as int] by {}
                    lemma_min_index_unique(totals(prev), m as int);
                    // no overflow: the minimum plus one duration stays below
                    // the whole queue's duration
                    lemma_distribute_invariants(vs0.take(p), k as nat);
                    lemma_distribute_totals_nonneg(vs0.take(p), k as nat);
                    let tm = totals(prev)[m as int];
                    lemma_sum_update(totals(prev), m as int, 0);
                    lemma_sum_lower(totals(prev).update(m as int, 0), 0);
                    assert(tm <= sum_durations(vs0.take(p)));
                    assert(durations(vs0.take(p)) =~= durations(vs0).take(p));
                    assert(durations(vs0.take(p + 1)) =~= durations(vs0).take(p + 1));
                    assert(durations(vs0).take(p + 1).drop_last() =~= durations(vs0).take(p));
                    assert forall|l: int| 0 <= l < durations(vs0).len() implies #[trigger] durations(
                        vs0,
                    )[l] >= 0 by {}
                    lemma_sum_take_le(durations(vs0), p + 1);
                    assert(tm + v.duration <= u64::MAX);
                }
                let nt = windows[m].total_time + (v.duration as u64);
                let ghost w_before = windows@;
                windows[m].total_time = nt;
                windows[m].visitors.push(v);
                proof {
                    let vview = visitor_view(v);
                    let d = vview.1 as int;
                    let mi = m as int;
                    let next = prev.update(mi, (prev[mi].0 + d, prev[mi].1.push(vview)));
                    assert forall|l: int| 0 <= l < k implies window_views(windows@)[l] == next[l]
                        by {
                        if l == mi {
                            assert(visitor_views(windows@[mi].visitors@) =~= visitor_views(
                                w_before[mi].visitors@,
                            ).push(vview));
                        } else {
                            assert(windows@[l] == w_before[l]);
                        }
                    }
                    assert(window_views(windows@) =~= next);
                    assert(vs0.take(p + 1).drop_last() =~= vs0.take(p));
                    assert(vs0.take(p + 1).last() == vs0[p]);
                    assert(window_views(windows@) == spec_distribute(vs0.take(p + 1), k as nat));
                }
                processed = Ghost(p + 1);
            },
            None => {
                proof {
                    assert(false);
                }
            },
        }
    }
    proof {
        assert(visitor_views(q@).len() == 0);
        assert(processed@ == n);
        assert(vs0.take(n) =~= vs0);
    }
    windows
}

} // verus!
