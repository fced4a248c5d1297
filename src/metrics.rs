use vstd::prelude::*;

verus! {

broadcast use vstd::std_specs::vec::group_vec_axioms;

/// Largest value a host-side signed 64-bit counter can hold.
pub const I64_MAX_AS_U64: u64 = 0x7fff_ffff_ffff_ffff;

/// Largest child position the host's `getChild(int)` accepts.
pub const MAX_CHILD_POSITION: usize = 0x7fff_ffff;

/// A native counter as the host sees it: values above `i64::MAX` saturate.
pub open spec fn saturated_counter(v: u64) -> i64 {
    if v > I64_MAX_AS_U64 {
        i64::MAX
    } else {
        v as i64
    }
}

/// The metric names the host accounting objects recognise.
pub open spec fn is_reported_name(name: Seq<char>) -> bool {
    ||| name == "input_rows"@
    ||| name == "input_batches"@
    ||| name == "output_rows"@
    ||| name == "output_batches"@
    ||| name == "elapsed_compute"@
    ||| name == "join_time"@
}

/// Converts a native counter to the host's signed representation.
pub fn counter_to_host_value(v: u64) -> (r: i64)
    ensures
        r == saturated_counter(v),
{
    if v > I64_MAX_AS_U64 {
        i64::MAX
    } else {
        v as i64
    }
}

/// Whether a metric of this name is pushed to the host.
pub fn is_reported_metric(name: &String) -> (r: bool)
    ensures
        r == is_reported_name(name@),
{
    *name == "input_rows".to_owned() || *name == "input_batches".to_owned() || *name
        == "output_rows".to_owned() || *name == "output_batches".to_owned() || *name
        == "elapsed_compute".to_owned() || *name == "join_time".to_owned()
}


/// A snapshot of one native plan node: its counters and its children, in
/// the engine's order.
#[derive(Debug)]
pub struct PlanMetrics {
    pub metrics: Vec<(String, u64)>,
    pub children: Vec<PlanMetrics>,
}

/// One host call of a metric walk. `EnterChild(i)` is `getChild(i)` on the
/// current host node, after which calls apply to that child until the
/// matching `LeaveChild`.
#[derive(Clone, Debug, PartialEq, Eq)]
pub enum MetricUpdate {
    Add { name: String, value: i64 },
    EnterChild(i32),
    LeaveChild,
}

/// The mathematical form of a `MetricUpdate`.
pub enum MetricCall {
    Add(Seq<char>, i64),
    EnterChild(int),
    LeaveChild,
}

impl View for MetricUpdate {
    type V = MetricCall;

    open spec fn view(&self) -> MetricCall {
        match self {
            MetricUpdate::Add { name, value } => MetricCall::Add(name@, *value),
            MetricUpdate::EnterChild(i) => MetricCall::EnterChild(*i as int),
            MetricUpdate::LeaveChild => MetricCall::LeaveChild,
        }
    }
}

pub open spec fn calls_of(us: Seq<MetricUpdate>) -> Seq<MetricCall> {
    us.map_values(|u: MetricUpdate| u@)
}

/// The `add` calls for one node's counters: those with a reported name, in
/// order, with saturated values.
pub open spec fn metric_adds(ms: Seq<(String, u64)>) -> Seq<MetricCall>
    decreases ms.len(),
{
    if ms.len() == 0 {
        Seq::empty()
    } else {
        let last = ms.last();
        metric_adds(ms.drop_last()) + if is_reported_name(last.0@) {
            seq![MetricCall::Add(last.0@, saturated_counter(last.1))]
        } else {
            Seq::empty()
        }
    }
}

/// The calls of a walk over `n` that has handled its first `k` children:
/// the node's own adds, then for each child `i` in turn `getChild(i)`, the
/// child's walk, and a return to `n`.
pub open spec fn walk_from(n: PlanMetrics, k: int) -> Seq<MetricCall>
    decreases n, k,
{
    if k <= 0 || k > n.children.len() {
        metric_adds(n.metrics@)
    } else {
        let c = n.children@[k - 1];
        walk_from(n, k - 1) + seq![MetricCall::EnterChild(k - 1)] + walk_from(
            c,
            c.children.len() as int,
        ) + seq![MetricCall::LeaveChild]
    }
}

/// The calls of a whole walk over `n`.
pub open spec fn walk_calls(n: PlanMetrics) -> Seq<MetricCall> {
    walk_from(n, n.children.len() as int)
}

/// Every node of the tree under `n` (children `0..k` of `n` only) has child
/// positions that the host's `int` index can address.
pub open spec fn positions_fit_from(n: PlanMetrics, k: int) -> bool
    decreases n, k,
{
    if k <= 0 || k > n.children.len() {
        n.children.len() <= MAX_CHILD_POSITION
    } else {
        let c = n.children@[k - 1];
        positions_fit_from(n, k - 1) && positions_fit_from(c, c.children.len() as int)
    }
}

pub open spec fn positions_fit(n: PlanMetrics) -> bool {
    positions_fit_from(n, n.children.len() as int)
}

proof fn lemma_positions_fit_child(n: PlanMetrics, k: int, j: int)
    requires
        positions_fit_from(n, k),
        0 <= j < k <= n.children.len(),
    ensures
        positions_fit(n.children@[j]),
    decreases k,
{
    if j < k - 1 {
        lemma_positions_fit_child(n, k - 1, j);
    }
}

proof fn lemma_positions_fit_len(n: PlanMetrics, k: int)
    requires
        positions_fit_from(n, k),
    ensures
        n.children.len() <= MAX_CHILD_POSITION,
    decreases k,
{
    if !(k <= 0 || k > n.children.len()) {
        lemma_positions_fit_len(n, k - 1);
    }
}

/// The number of plan nodes under `n`, counting `n` and the subtrees of its
/// first `k` children.
pub open spec fn node_count_from(n: PlanMetrics, k: int) -> nat
    decreases n, k,
{
    if k <= 0 || k > n.children.len() {
        1
    } else {
        let c = n.children@[k - 1];
        node_count_from(n, k - 1) + node_count_from(c, c.children.len() as int)
    }
}

pub open spec fn node_count(n: PlanMetrics) -> nat {
    node_count_from(n, n.children.len() as int)
}

pub open spec fn is_enter(c: MetricCall) -> bool {
    c is EnterChild
}

pub open spec fn is_leave(c: MetricCall) -> bool {
    c is LeaveChild
}

/// For every counter snapshot, the host receives one `add` per counter whose
/// name is on the allow-list, and none for any other name.
pub proof fn lemma_adds_follow_allow_list(ms: Seq<(String, u64)>)
    ensures
        metric_adds(ms).len() == ms.filter(|m: (String, u64)| is_reported_name(m.0@)).len(),
        forall|j: int|
            0 <= j < metric_adds(ms).len() ==> {
                &&& (#[trigger] metric_adds(ms)[j]) is Add
                &&& is_reported_name(metric_adds(ms)[j]->Add_0)
            },
    decreases ms.len(),
{
    reveal(Seq::filter);
    if ms.len() > 0 {
        lemma_adds_follow_allow_list(ms.drop_last());
        let prev = metric_adds(ms.drop_last());
        assert forall|j: int| 0 <= j < metric_adds(ms).len() implies {
            &&& (#[trigger] metric_adds(ms)[j]) is Add
            &&& is_reported_name(metric_adds(ms)[j]->Add_0)
        } by {
            if j < prev.len() {
                assert(metric_adds(ms)[j] == prev[j]);
            }
        }
    }
}

/// The walk visits every plan node once: it issues one `getChild` per node
/// below the root, each matched by one return to the parent.
pub proof fn lemma_walk_visits_each_node_once(n: PlanMetrics)
    ensures
        walk_calls(n).filter(|c: MetricCall| is_enter(c)).len() + 1 == node_count(n),
        walk_calls(n).filter(|c: MetricCall| is_leave(c)).len() + 1 == node_count(n),
{
    lemma_walk_from_counts(n, n.children.len() as int);
}

/// How a call moves the current host node: down into a child, back up, or
/// not at all.
pub open spec fn depth_change(c: MetricCall) -> int {
    match c {
        MetricCall::EnterChild(_) => 1,
        MetricCall::LeaveChild => -1,
        MetricCall::Add(_, _) => 0,
    }
}

/// How far below its starting node a sequence of calls ends.
pub open spec fn net_depth(s: Seq<MetricCall>) -> int
    decreases s.len(),
{
    if s.len() == 0 {
        0
    } else {
        depth_change(s[0]) + net_depth(s.drop_first())
    }
}

/// The `getChild` positions that `s` asks of one host node, when `s` starts
/// `d` levels below that node (`d == 0`: on the node itself).
pub open spec fn child_positions_at(s: Seq<MetricCall>, d: int) -> Seq<int>
    decreases s.len(),
{
    if s.len() == 0 {
        Seq::empty()
    } else {
        let here = match s[0] {
            MetricCall::EnterChild(i) => if d == 0 {
                seq![i]
            } else {
                Seq::empty()
            },
            _ => Seq::empty(),
        };
        here + child_positions_at(s.drop_first(), d + depth_change(s[0]))
    }
}

/// At every plan node the walk asks the mirrored host node for
/// `getChild(0)`, `getChild(1)`, ..., `getChild(c - 1)`, each once and in
/// that order, where `c` is the node's number of children; none when it has
/// none. Each child's part of the walk is that child's own walk, so this holds
/// at every level of the tree.
pub proof fn lemma_walk_asks_children_in_order(n: PlanMetrics)
    ensures
        child_positions_at(walk_calls(n), 0) == Seq::new(n.children.len() as nat, |i: int| i),
{
    lemma_walk_from_positions(n, n.children.len() as int, 0);
}

proof fn lemma_positions_concat(a: Seq<MetricCall>, b: Seq<MetricCall>, d: int)
    ensures
        child_positions_at(a + b, d) == child_positions_at(a, d) + child_positions_at(
            b,
            d + net_depth(a),
        ),
        net_depth(a + b) == net_depth(a) + net_depth(b),
    decreases a.len(),
{
    if a.len() == 0 {
        assert(a + b =~= b);
        assert(child_positions_at(a, d) =~= Seq::<int>::empty());
    } else {
        assert((a + b).drop_first() =~= a.drop_first() + b);
        assert((a + b)[0] == a[0]);
        lemma_positions_concat(a.drop_first(), b, d + depth_change(a[0]));
        let here = match a[0] {
            MetricCall::EnterChild(i) => if d == 0 {
                seq![i]
            } else {
                Seq::<int>::empty()
            },
            _ => Seq::<int>::empty(),
        };
        assert(child_positions_at(a + b, d) =~= here + child_positions_at(
            a.drop_first() + b,
            d + depth_change(a[0]),
        ));
        assert(child_positions_at(a + b, d) =~= child_positions_at(a, d) + child_positions_at(
            b,
            d + net_depth(a),
        ));
    }
}

proof fn lemma_adds_ask_no_children(s: Seq<MetricCall>, d: int)
    requires
        forall|j: int| 0 <= j < s.len() ==> (#[trigger] s[j]) is Add,
    ensures
        child_positions_at(s, d) == Seq::<int>::empty(),
        net_depth(s) == 0,
    decreases s.len(),
{
    if s.len() > 0 {
        assert(s[0] is Add);
        assert forall|j: int| 0 <= j < s.drop_first().len() implies (#[trigger] s.drop_first()[j]) is Add by {
            assert(s.drop_first()[j] == s[j + 1]);
        }
        lemma_adds_ask_no_children(s.drop_first(), d);
        assert(child_positions_at(s, d) =~= Seq::<int>::empty());
    }
}

proof fn lemma_single_call(c: MetricCall, d: int)
    ensures
        net_depth(seq![c]) == depth_change(c),
        child_positions_at(seq![c], d) == match c {
            MetricCall::EnterChild(i) => if d == 0 {
                seq![i]
            } else {
                Seq::<int>::empty()
            },
            _ => Seq::<int>::empty(),
        },
{
    assert(seq![c].drop_first() =~= Seq::<MetricCall>::empty());
    assert(seq![c][0] == c);
    assert(net_depth(Seq::<MetricCall>::empty()) == 0);
    assert(child_positions_at(Seq::<MetricCall>::empty(), d + depth_change(c)) == Seq::<int>::empty());
    let here = match c {
        MetricCall::EnterChild(i) => if d == 0 {
            seq![i]
        } else {
            Seq::<int>::empty()
        },
        _ => Seq::<int>::empty(),
    };
    assert(child_positions_at(seq![c], d) =~= here + Seq::<int>::empty());
}

proof fn lemma_walk_from_positions(n: PlanMetrics, k: int, d: int)
    requires
        d >= 0,
    ensures
        net_depth(walk_from(n, k)) == 0,
        d > 0 ==> child_positions_at(walk_from(n, k), d) == Seq::<int>::empty(),
        d == 0 && 0 <= k <= n.children.len() ==> child_positions_at(walk_from(n, k), d)
            == Seq::new(k as nat, |i: int| i),
        d == 0 && !(0 <= k <= n.children.len()) ==> child_positions_at(walk_from(n, k), d)
            == Seq::<int>::empty(),
    decreases n, k,
{
    if k <= 0 || k > n.children.len() {
        lemma_adds_follow_allow_list(n.metrics@);
        lemma_adds_ask_no_children(metric_adds(n.metrics@), d);
        assert(Seq::new(0, |i: int| i) =~= Seq::<int>::empty());
    } else {
        let c = n.children@[k - 1];
        lemma_walk_from_positions(n, k - 1, d);
        lemma_walk_from_positions(c, c.children.len() as int, d + 1);
        let a = walk_from(n, k - 1);
        let e = seq![MetricCall::EnterChild(k - 1)];
        let w = walk_from(c, c.children.len() as int);
        let l = seq![MetricCall::LeaveChild];
        assert(walk_from(n, k) == a + e + w + l);
        lemma_single_call(MetricCall::EnterChild(k - 1), d);
        lemma_single_call(MetricCall::LeaveChild, d + 1);
        lemma_positions_concat(a, e, d);
        lemma_positions_concat(a + e, w, d);
        lemma_positions_concat(a + e + w, l, d);
        if d == 0 {
            assert(child_positions_at(walk_from(n, k), d) =~= Seq::new(k as nat, |i: int| i));
        } else {
            assert(child_positions_at(walk_from(n, k), d) =~= Seq::<int>::empty());
        }
    }
}

proof fn lemma_adds_hold_no_moves(ms: Seq<(String, u64)>)
    ensures
        metric_adds(ms).filter(|c: MetricCall| is_enter(c)).len() == 0,
        metric_adds(ms).filter(|c: MetricCall| is_leave(c)).len() == 0,
    decreases ms.len(),
{
    reveal_with_fuel(Seq::filter, 2);
    let pe = |c: MetricCall| is_enter(c);
    let pl = |c: MetricCall| is_leave(c);
    if ms.len() > 0 {
        lemma_adds_hold_no_moves(ms.drop_last());
        let last = ms.last();
        let tail = if is_reported_name(last.0@) {
            seq![MetricCall::Add(last.0@, saturated_counter(last.1))]
        } else {
            Seq::<MetricCall>::empty()
        };
        assert(metric_adds(ms) == metric_adds(ms.drop_last()) + tail);
        Seq::filter_distributes_over_add(metric_adds(ms.drop_last()), tail, pe);
        Seq::filter_distributes_over_add(metric_adds(ms.drop_last()), tail, pl);
        if tail.len() > 0 {
            assert(tail.drop_last() =~= Seq::<MetricCall>::empty());
        }
        assert(tail.filter(pe).len() == 0);
        assert(tail.filter(pl).len() == 0);
    }
}

proof fn lemma_walk_from_counts(n: PlanMetrics, k: int)
    ensures
        walk_from(n, k).filter(|c: MetricCall| is_enter(c)).len() + 1 == node_count_from(n, k),
        walk_from(n, k).filter(|c: MetricCall| is_leave(c)).len() + 1 == node_count_from(n, k),
    decreases n, k,
{
    reveal(Seq::filter);
    if k <= 0 || k > n.children.len() {
        lemma_adds_hold_no_moves(n.metrics@);
    } else {
        let c = n.children@[k - 1];
        lemma_walk_from_counts(n, k - 1);
        lemma_walk_from_counts(c, c.children.len() as int);
        let a = walk_from(n, k - 1);
        let e = seq![MetricCall::EnterChild(k - 1)];
        let w = walk_from(c, c.children.len() as int);
        let l = seq![MetricCall::LeaveChild];
        assert(walk_from(n, k) == a + e + w + l);
        let pe = |x: MetricCall| is_enter(x);
        let pl = |x: MetricCall| is_leave(x);
        Seq::filter_distributes_over_add(a, e, pe);
        Seq::filter_distributes_over_add(a + e, w, pe);
        Seq::filter_distributes_over_add(a + e + w, l, pe);
        Seq::filter_distributes_over_add(a, e, pl);
        Seq::filter_distributes_over_add(a + e, w, pl);
        Seq::filter_distributes_over_add(a + e + w, l, pl);
        reveal_with_fuel(Seq::filter, 2);
        assert(e.drop_last() =~= Seq::<MetricCall>::empty());
        assert(l.drop_last() =~= Seq::<MetricCall>::empty());
        assert(e.filter(pe).len() == 1);
        assert(l.filter(pe).len() == 0);
        assert(e.filter(pl).len() == 0);
        assert(l.filter(pl).len() == 1);
    }
}

proof fn lemma_positions_fit_prefix(n: PlanMetrics, k: int, j: int)
    requires
        positions_fit_from(n, k),
        0 <= j <= k <= n.children.len(),
    ensures
        positions_fit_from(n, j),
    decreases k,
{
    if j < k {
        lemma_positions_fit_prefix(n, k - 1, j);
    }
}

/// Whether every node under `node` has child positions that the host's
/// `getChild(int)` can address, as `spark_metric_updates` requires.
pub fn fits_host_positions(node: &PlanMetrics) -> (r: bool)
    ensures
        r == positions_fit(*node),
    decreases node,
{
    let n = node.children.len();
    if n > MAX_CHILD_POSITION {
        proof {
            if positions_fit(*node) {
                lemma_positions_fit_len(*node, n as int);
            }
        }
        return false;
    }
    let mut i: usize = 0;
    while i < n
        invariant
            i <= n,
            n == node.children.len(),
            n <= MAX_CHILD_POSITION,
            positions_fit_from(*node, i as int),
        decreases n - i,
    {
        if !fits_host_positions(&node.children[i]) {
            proof {
                if positions_fit(*node) {
                    lemma_positions_fit_prefix(*node, n as int, i as int + 1);
                }
            }
            return false;
        }
        i += 1;
    }
    true
}

/// Appends the `add` calls for one node's counters.
pub fn update_metrics(metric_values: &Vec<(String, u64)>, out: &mut Vec<MetricUpdate>)
    ensures
        calls_of(final(out)@) == calls_of(old(out)@) + metric_adds(metric_values@),
{
    let ghost start = out@;
    let mut i: usize = 0;
    while i < metric_values.len()
        invariant
            i <= metric_values.len(),
            calls_of(out@) == calls_of(start) + metric_adds(metric_values@.subrange(0, i as int)),
        decreases metric_values.len() - i,
    {
        let ghost before = out@;
        let (name, value) = &metric_values[i];
        if is_reported_metric(name) {
            out.push(MetricUpdate::Add { name: name.clone(), value: counter_to_host_value(*value) });
        }
        proof {
            let sub = metric_values@.subrange(0, i as int + 1);
            assert(sub.drop_last() =~= metric_values@.subrange(0, i as int));
            assert(calls_of(out@) =~= calls_of(before) + if is_reported_name(name@) {
                seq![MetricCall::Add(name@, saturated_counter(*value))]
            } else {
                Seq::<MetricCall>::empty()
            });
        }
        i += 1;
    }
    assert(metric_values@.subrange(0, metric_values@.len() as int) =~= metric_values@);
}

fn push_walk(node: &PlanMetrics, out: &mut Vec<MetricUpdate>)
    requires
        positions_fit(*node),
    ensures
        calls_of(final(out)@) == calls_of(old(out)@) + walk_calls(*node),
    decreases node,
{
    let ghost start = out@;
    update_metrics(&node.metrics, out);
    proof {
        lemma_positions_fit_len(*node, node.children.len() as int);
    }
    let n = node.children.len();
    let mut i: usize = 0;
    while i < n
        invariant
            i <= n,
            n == node.children.len(),
            n <= MAX_CHILD_POSITION,
            positions_fit(*node),
            calls_of(out@) == calls_of(start) + walk_from(*node, i as int),
        decreases n - i,
    {
        let ghost before = out@;
        proof {
            lemma_positions_fit_child(*node, n as int, i as int);
        }
        out.push(MetricUpdate::EnterChild(i as i32));
        let ghost mid = out@;
        push_walk(&node.children[i], out);
        let ghost mid2 = out@;
        out.push(MetricUpdate::LeaveChild);
        proof {
            assert(calls_of(mid) =~= calls_of(before) + seq![MetricCall::EnterChild(i as int)]);
            assert(calls_of(out@) =~= calls_of(mid2) + seq![MetricCall::LeaveChild]);
            assert(calls_of(out@) =~= calls_of(start) + walk_from(*node, i as int + 1));
        }
        i += 1;
    }
}

/// The host calls that mirror the metrics of the plan under `root` onto the
/// host metric node that corresponds to it, in the order they are issued.
pub fn spark_metric_updates(root: &PlanMetrics) -> (r: Vec<MetricUpdate>)
    requires
        positions_fit(*root),
    ensures
        calls_of(r@) == walk_calls(*root),
{
    let mut out: Vec<MetricUpdate> = Vec::new();
    push_walk(root, &mut out);
    assert(calls_of(Seq::<MetricUpdate>::empty()) =~= Seq::<MetricCall>::empty());
    assert(calls_of(out@) =~= walk_calls(*root));
    out
}

} // verus!
