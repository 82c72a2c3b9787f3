//! The traffic hubs: aggregated edges keyed by peer pair and route, and the
//! per-call stream, both with bounded buffers.

use vstd::prelude::*;

use crate::domain::{
    edge_key_eq, EdgeKey, EdgeStats, EntityId, FlowObservation, HttpObservation, TrafficCall,
    TrafficEdge, Visibility,
};

verus! {

/// The bounded latency sample window per edge.
pub const LATENCY_SAMPLE_LIMIT: usize = 256;

/// How many calls the call stream keeps as history.
pub const TRAFFIC_CALL_HISTORY_LIMIT: usize = 2000;

/// How many calls a slow subscriber may have queued before new ones are
/// dropped for it.
pub const TRAFFIC_CLIENT_QUEUE_SIZE: usize = 1000;

/// The ascending order the percentile marks are taken over.
pub open spec fn u64_leq(a: u64, b: u64) -> bool {
    a <= b
}

/// The ascending order as one shared comparison function.
pub open spec fn leq_fn() -> spec_fn(u64, u64) -> bool {
    |a: u64, b: u64| u64_leq(a, b)
}

/// The sample window in ascending order.
pub open spec fn sorted_of(v: Seq<u64>) -> Seq<u64> {
    v.sort_by(leq_fn())
}

/// The nearest-rank percentile of a sample: the element of the ascending
/// order at index `(len - 1) * pct / 100`, or zero for an empty sample.
pub open spec fn spec_percentile(v: Seq<u64>, pct: int) -> u64 {
    if v.len() == 0 {
        0
    } else {
        sorted_of(v)[(v.len() - 1) * pct / 100]
    }
}

/// The sorted copy of a latency window used for percentiles: the same
/// samples, in ascending order.
pub fn sorted_copy(v: &Vec<u64>) -> (r: Vec<u64>)
    ensures
        r@.len() == v@.len(),
        forall|i: int, j: int| 0 <= i < j < r@.len() ==> (#[trigger] r@[i]) <= (#[trigger] r@[j]),
        forall|x: u64| r@.contains(x) ==> v@.contains(x),
        r@.to_multiset() == v@.to_multiset(),
        r@ == sorted_of(v@),
{
    let mut r: Vec<u64> = Vec::new();
    let mut i: usize = 0;
    proof {
        broadcast use vstd::seq_lib::group_to_multiset_ensures;

        assert(v@.subrange(0, 0) =~= Seq::<u64>::empty());
        assert(r@.to_multiset() =~= v@.subrange(0, 0).to_multiset());
    }
    while i < v.len()
        invariant
            i <= v@.len(),
            r@.len() == i,
            forall|a: int, b: int| 0 <= a < b < r@.len() ==> (#[trigger] r@[a]) <= (#[trigger] r@[b]),
            forall|x: u64| r@.contains(x) ==> v@.contains(x),
            r@.to_multiset() == v@.subrange(0, i as int).to_multiset(),
        decreases v@.len() - i,
    {
        let x = v[i];
        let mut j: usize = 0;
        while j < r.len() && r[j] <= x
            invariant
                j <= r@.len(),
                forall|a: int| 0 <= a < j ==> (#[trigger] r@[a]) <= x,
            decreases r@.len() - j,
        {
            j = j + 1;
        }
        let ghost before = r@;
        r.insert(j, x);
        proof {
            assert forall|a: int, b: int|
                0 <= a < b < r@.len() implies (#[trigger] r@[a]) <= (#[trigger] r@[b]) by {
                if b < j {
                } else if a < j && b == j {
                } else if a < j && b > j {
                    assert(r@[b] == before[b - 1]);
                } else if a == j {
                    assert(r@[b] == before[b - 1]);
                    if b - 1 >= j {
                        if j < before.len() {
                            assert(before[b - 1] >= before[j as int]);
                            assert(before[j as int] > x || before[j as int] >= x);
                        }
                    }
                } else {
                    assert(r@[a] == before[a - 1]);
                    assert(r@[b] == before[b - 1]);
                }
            }
            assert forall|x2: u64| r@.contains(x2) implies v@.contains(x2) by {
                let w = choose|w: int| 0 <= w < r@.len() && r@[w] == x2;
                if w < j {
                    assert(before[w] == x2);
                } else if w > j {
                    assert(before[w - 1] == x2);
                } else {
                    assert(x2 == x);
                    assert(v@[i as int] == x);
                }
            }
            broadcast use vstd::seq_lib::group_to_multiset_ensures;

            assert(r@.to_multiset() =~= before.to_multiset().insert(x)) by {
                vstd::seq_lib::to_multiset_insert(before, j as int, x);
            }
            assert(v@.subrange(0, i + 1) =~= v@.subrange(0, i as int).push(x));
            assert(v@.subrange(0, i + 1).to_multiset() =~= v@.subrange(
                0,
                i as int,
            ).to_multiset().insert(x));
        }
        i = i + 1;
    }
    proof {
        assert(v@.subrange(0, v@.len() as int) =~= v@);
        let leq = leq_fn();
        assert(vstd::relations::total_ordering(leq)) by {
            assert forall|x: u64| #[trigger] leq(x, x) by {}
            assert forall|x: u64, y: u64| #[trigger] leq(x, y) && #[trigger] leq(y, x) implies x
                == y by {}
            assert forall|x: u64, y: u64, z: u64|
                #[trigger] leq(x, y) && #[trigger] leq(y, z) implies leq(x, z) by {}
            assert forall|x: u64, y: u64| #[trigger] leq(x, y) || #[trigger] leq(y, x) by {}
        }
        v@.lemma_sort_by_ensures(leq);
        assert(vstd::relations::sorted_by(r@, leq)) by {
            assert forall|a: int, b: int| 0 <= a < b < r@.len() implies #[trigger] leq(
                r@[a],
                r@[b],
            ) by {
                assert(r@[a] <= r@[b]);
            }
        }
        vstd::seq_lib::lemma_sorted_unique(r@, sorted_of(v@), leq);
        assert(r@ =~= sorted_of(v@));
    }
    r
}

/// The requested percentile of a sorted sample: the element at index
/// `(len - 1) * pct / 100`.
pub fn percentile(sorted: &Vec<u64>, pct: usize) -> (r: u64)
    requires
        pct <= 100,
    ensures
        sorted@.len() == 0 ==> r == 0,
        sorted@.len() > 0 ==> r == sorted@[(sorted@.len() - 1) as int * pct as int / 100],
{
    if sorted.len() == 0 {
        return 0;
    }
    let l128: u128 = (sorted.len() - 1) as u128;
    let p128: u128 = pct as u128;
    proof {
        assert(l128 * p128 <= u128::MAX) by (nonlinear_arith)
            requires
                l128 < 0x1_0000_0000_0000_0000u128,
                p128 <= 100,
        ;
    }
    let wide: u128 = l128 * p128 / 100;
    proof {
        assert((sorted@.len() - 1) as int * pct as int / 100 < sorted@.len()) by (nonlinear_arith)
            requires
                sorted@.len() > 0,
                0 <= pct <= 100,
        ;
        assert(wide == (sorted@.len() - 1) as int * pct as int / 100);
    }
    let idx = wide as usize;
    sorted[idx]
}

/// Recomputes the p50 and p95 marks of one edge from its sample window.
pub fn update_latency_stats(stats: &mut EdgeStats, samples: &Vec<u64>)
    ensures
        final(stats).count == old(stats).count,
        final(stats).bytes_in == old(stats).bytes_in,
        final(stats).bytes_out == old(stats).bytes_out,
        final(stats).errors == old(stats).errors,
        final(stats).visibility == old(stats).visibility,
        samples@.len() == 0 ==> final(stats).p50_ms is None && final(stats).p95_ms is None,
        samples@.len() > 0 ==> final(stats).p50_ms == Some(spec_percentile(samples@, 50))
            && final(stats).p95_ms == Some(spec_percentile(samples@, 95)),
{
    if samples.len() == 0 {
        stats.p50_ms = None;
        stats.p95_ms = None;
        return;
    }
    let sorted = sorted_copy(samples);
    let p50 = percentile(&sorted, 50);
    let p95 = percentile(&sorted, 95);
    stats.p50_ms = Some(p50);
    stats.p95_ms = Some(p95);
}

/// One aggregated edge under construction.
pub struct EdgeState {
    pub key: EdgeKey,
    pub stats: EdgeStats,
    pub latencies: Vec<u64>,
    pub last_seen_ms: u64,
}

/// One subscriber to the call stream, with its bounded queue.
pub struct TrafficClient {
    pub id: u64,
    pub queue: Vec<TrafficCall>,
}

/// A call subscriber's queue is bounded and holds calls in strictly
/// increasing sequence order, all below the hub's next sequence number.
pub open spec fn call_client_wf(c: TrafficClient, next_seq: u64) -> bool {
    &&& c.queue@.len() <= TRAFFIC_CLIENT_QUEUE_SIZE
    &&& forall|i: int, j: int|
        0 <= i < j < c.queue@.len() ==> (#[trigger] c.queue@[i]).seq < (#[trigger] c.queue@[j]).seq
    &&& forall|i: int| 0 <= i < c.queue@.len() ==> (#[trigger] c.queue@[i]).seq < next_seq
}

/// The hub state for aggregated edges, the call stream, and its
/// subscribers.
pub struct TrafficHub {
    pub edges: Vec<EdgeState>,
    pub calls: Vec<TrafficCall>,
    pub next_call_seq: u64,
    pub call_clients: Vec<TrafficClient>,
    pub next_client_id: u64,
}

pub open spec fn traffic_hub_wf(h: TrafficHub) -> bool {
    &&& forall|i: int| 0 <= i < h.edges@.len() ==> (#[trigger] h.edges@[i]).latencies@.len()
        <= LATENCY_SAMPLE_LIMIT
    &&& traffic_hub_wf_calls(h)
    &&& h.next_call_seq >= 1
}

impl TrafficHub {
    pub fn new() -> (r: TrafficHub)
        ensures
            traffic_hub_wf(r),
            r.edges@.len() == 0,
            r.calls@.len() == 0,
            r.call_clients@.len() == 0,
    {
        TrafficHub {
            edges: Vec::new(),
            calls: Vec::new(),
            next_call_seq: 1,
            call_clients: Vec::new(),
            next_client_id: 1,
        }
    }

    /// Registers a new call subscriber under a fresh identity.
    pub fn register_call_client(&mut self) -> (id: u64)
        requires
            traffic_hub_wf(*old(self)),
            old(self).next_client_id < u64::MAX,
        ensures
            traffic_hub_wf(*final(self)),
            final(self).call_clients@.len() == old(self).call_clients@.len() + 1,
            final(self).call_clients@.last().id == id,
            final(self).call_clients@.last().queue@.len() == 0,
            final(self).edges == old(self).edges,
            final(self).calls == old(self).calls,
            final(self).next_call_seq == old(self).next_call_seq,
            forall|t: int|
                0 <= t < old(self).call_clients@.len() ==> #[trigger] final(self).call_clients@[t]
                    == old(self).call_clients@[t],
    {
        let id = self.next_client_id;
        self.next_client_id = id + 1;
        let ghost c0 = self.call_clients@;
        self.call_clients.push(TrafficClient { id, queue: Vec::new() });
        proof {
            assert forall|t: int| 0 <= t < self.call_clients@.len() implies call_client_wf(
                #[trigger] self.call_clients@[t],
                self.next_call_seq,
            ) by {
                if t < c0.len() {
                    assert(self.call_clients@[t] == c0[t]);
                }
            }
        }
        id
    }

    /// Hands a subscriber everything queued for it since the last take, in
    /// sequence order, and empties its queue. An unknown id gets nothing.
    pub fn take_calls(&mut self, id: u64) -> (r: Vec<TrafficCall>)
        requires
            traffic_hub_wf(*old(self)),
        ensures
            traffic_hub_wf(*final(self)),
            final(self).edges == old(self).edges,
            final(self).calls == old(self).calls,
            final(self).next_call_seq == old(self).next_call_seq,
            final(self).call_clients@.len() == old(self).call_clients@.len(),
            forall|i: int, j: int|
                0 <= i < j < r@.len() ==> (#[trigger] r@[i]).seq < (#[trigger] r@[j]).seq,
            forall|t: int|
                0 <= t < old(self).call_clients@.len() && (#[trigger] old(self).call_clients@[
                t]).id == id ==> final(self).call_clients@[t].queue@.len() == 0 && r@ == old(
                    self,
                ).call_clients@[t].queue@,
            forall|t: int|
                0 <= t < old(self).call_clients@.len() && (#[trigger] old(self).call_clients@[
                t]).id != id ==> final(self).call_clients@[t] == old(self).call_clients@[t],
    {
        let mut i: usize = 0;
        while i < self.call_clients.len()
            invariant
                i <= self.call_clients@.len(),
                *self == *old(self),
                traffic_hub_wf(*old(self)),
                forall|t: int|
                    0 <= t < i ==> (#[trigger] old(self).call_clients@[t]).id != id,
            decreases self.call_clients@.len() - i,
        {
            if self.call_clients[i].id == id {
                let mut c = self.call_clients.remove(i);
                let out = c.queue;
                c.queue = Vec::new();
                let ghost cg = c;
                self.call_clients.insert(i, c);
                proof {
                    assert(self.call_clients@ =~= old(self).call_clients@.update(i as int, cg));
                    assert forall|t: int|
                        0 <= t < self.call_clients@.len() implies call_client_wf(
                        #[trigger] self.call_clients@[t],
                        self.next_call_seq,
                    ) by {
                        if t != i {
                            assert(self.call_clients@[t] == old(self).call_clients@[t]);
                        }
                    }
                    assert forall|t: int|
                        0 <= t < old(self).call_clients@.len() && (#[trigger] old(
                            self,
                        ).call_clients@[t]).id == id implies self.call_clients@[t].queue@.len()
                        == 0 && out@ == old(self).call_clients@[t].queue@ by {
                        if t != i {
                            assert(old(self).call_clients@[t].id != id);
                        }
                    }
                }
                return out;
            }
            i = i + 1;
        }
        Vec::new()
    }

    /// Removes a call subscriber; an unknown id removes nothing.
    pub fn unsubscribe_call_client(&mut self, id: u64)
        requires
            traffic_hub_wf(*old(self)),
        ensures
            traffic_hub_wf(*final(self)),
            final(self).edges == old(self).edges,
            final(self).calls == old(self).calls,
            final(self).next_call_seq == old(self).next_call_seq,
            forall|t: int|
                0 <= t < final(self).call_clients@.len() ==> (#[trigger] final(self).call_clients@[
                t]).id != id,
    {
        let mut kept: Vec<TrafficClient> = Vec::new();
        loop
            invariant
                traffic_hub_wf(*self),
                self.edges == old(self).edges,
                self.calls == old(self).calls,
                self.next_call_seq == old(self).next_call_seq,
                self.next_client_id == old(self).next_client_id,
                kept@.len() + self.call_clients@.len() <= old(self).call_clients@.len(),
                forall|t: int|
                    0 <= t < kept@.len() ==> call_client_wf(
                        #[trigger] kept@[t],
                        self.next_call_seq,
                    ) && kept@[t].id != id && kept@[t].id < self.next_client_id,
                forall|i: int, j: int|
                    0 <= i < j < kept@.len() ==> (#[trigger] kept@[i]).id != (#[trigger] kept@[
                    j]).id,
                forall|i: int, j: int|
                    0 <= i < kept@.len() && 0 <= j < self.call_clients@.len() ==> (
                    #[trigger] kept@[i]).id != (#[trigger] self.call_clients@[j]).id,
            decreases self.call_clients@.len(),
        {
            if self.call_clients.len() == 0 {
                break ;
            }
            let ghost pre = self.call_clients@;
            let c = self.call_clients.remove(0);
            proof {
                assert(forall|j: int|
                    0 <= j < self.call_clients@.len() ==> #[trigger] self.call_clients@[j] == pre[
                    j + 1]);
            }
            if c.id != id {
                kept.push(c);
            }
        }
        self.call_clients = kept;
    }

    /// Finds the edge an observation aggregates into.
    fn find_edge(&self, key: &EdgeKey) -> (r: Option<usize>)
        ensures
            match r {
                Some(i) => i < self.edges@.len() && edge_key_eq(self.edges@[i as int].key, *key),
                None => true,
            },
    {
        let mut i: usize = 0;
        while i < self.edges.len()
            invariant
                i <= self.edges@.len(),
            decreases self.edges@.len() - i,
        {
            if self.edges[i].key.same_as(key) {
                return Some(i);
            }
            i = i + 1;
        }
        None
    }

    /// Folds one HTTP observation into its edge: the hit count rises by
    /// one, the byte counters by the observed amounts, the error counter by
    /// exactly one when the status is at least 400 and by nothing
    /// otherwise, the visibility merges monotonically, and a duration joins
    /// the bounded latency window.
    pub fn emit_http(&mut self, http: &HttpObservation) -> (idx: usize)
        requires
            traffic_hub_wf(*old(self)),
            old(self).next_call_seq < u64::MAX,
            old(self).edges@.len() < usize::MAX,
        ensures
            traffic_hub_wf(*final(self)),
            idx < final(self).edges@.len(),
            ({
                let new_edge = final(self).edges@[idx as int];
                let base = if idx < old(self).edges@.len() {
                    old(self).edges@[idx as int].stats
                } else {
                    EdgeStats {
                        count: 0,
                        bytes_in: 0,
                        bytes_out: 0,
                        errors: 0,
                        p50_ms: None,
                        p95_ms: None,
                        visibility: http.attrs.visibility,
                    }
                };
                &&& (idx < old(self).edges@.len() ==> new_edge.key == old(self).edges@[
                    idx as int].key)
                &&& (match http.status {
                    Some(s) => if s >= 400 && base.errors < u64::MAX {
                        new_edge.stats.errors == base.errors + 1
                    } else if s >= 400 {
                        new_edge.stats.errors == u64::MAX
                    } else {
                        new_edge.stats.errors == base.errors
                    },
                    None => new_edge.stats.errors == base.errors,
                })
                &&& new_edge.stats.count == add_sat_spec(base.count, 1)
                &&& new_edge.stats.bytes_in == add_sat_spec(
                    base.bytes_in,
                    match http.bytes_in {
                        Some(b) => b,
                        None => 0,
                    },
                )
                &&& new_edge.stats.bytes_out == add_sat_spec(
                    base.bytes_out,
                    match http.bytes_out {
                        Some(b) => b,
                        None => 0,
                    },
                )
                &&& new_edge.last_seen_ms == http.at_ms
                &&& ({
                    let base_lat = if idx < old(self).edges@.len() {
                        old(self).edges@[idx as int].latencies@
                    } else {
                        Seq::<u64>::empty()
                    };
                    match http.duration_ms {
                        Some(d) => ({
                            let drop: int = if base_lat.len() + 1 > LATENCY_SAMPLE_LIMIT {
                                base_lat.len() + 1 - LATENCY_SAMPLE_LIMIT
                            } else {
                                0
                            };
                            &&& new_edge.latencies@ == base_lat.subrange(
                                drop,
                                base_lat.len() as int,
                            ).push(d)
                            &&& new_edge.stats.p50_ms == Some(
                                spec_percentile(new_edge.latencies@, 50),
                            )
                            &&& new_edge.stats.p95_ms == Some(
                                spec_percentile(new_edge.latencies@, 95),
                            )
                        }),
                        None => new_edge.latencies@ == base_lat && new_edge.stats.p50_ms
                            == base.p50_ms && new_edge.stats.p95_ms == base.p95_ms,
                    }
                })
                &&& new_edge.stats.visibility == crate::domain::spec_merge_visibility(
                    base.visibility,
                    http.attrs.visibility,
                )
                &&& crate::domain::visibility_rank(new_edge.stats.visibility)
                    >= crate::domain::visibility_rank(http.attrs.visibility)
            }),
            // the call stream gains the observation under a fresh sequence
            final(self).calls@.len() > 0,
            final(self).calls@.last().seq == old(self).next_call_seq,
            final(self).next_call_seq == old(self).next_call_seq + 1,
            // every subscriber with room is offered the call; a full queue
            // misses it
            final(self).call_clients@.len() == old(self).call_clients@.len(),
            forall|t: int|
                0 <= t < old(self).call_clients@.len() ==> {
                    let c0 = #[trigger] old(self).call_clients@[t];
                    let c1 = final(self).call_clients@[t];
                    &&& c1.id == c0.id
                    &&& if c0.queue@.len() < TRAFFIC_CLIENT_QUEUE_SIZE {
                        c1.queue@.len() == c0.queue@.len() + 1 && (forall|j: int|
                            0 <= j < c0.queue@.len() ==> c1.queue@[j] == c0.queue@[j])
                            && c1.queue@.last().seq == old(self).next_call_seq
                    } else {
                        c1.queue@ == c0.queue@
                    }
                },
    {
        let key = http_key(http);
        let at_ms = http.at_ms;
        let found = self.find_edge(&key);
        let idx: usize = match found {
            Some(i) => i,
            None => {
                let fresh = EdgeState {
                    key,
                    stats: EdgeStats {
                        count: 0,
                        bytes_in: 0,
                        bytes_out: 0,
                        errors: 0,
                        p50_ms: None,
                        p95_ms: None,
                        visibility: http.attrs.visibility,
                    },
                    latencies: Vec::new(),
                    last_seen_ms: at_ms,
                };
                self.edges.push(fresh);
                self.edges.len() - 1
            },
        };
        let ghost pre_remove = self.edges@;
        let mut edge = self.edges.remove(idx);
        proof {
            if idx < old(self).edges@.len() {
                assert(pre_remove == old(self).edges@);
                assert(edge == old(self).edges@[idx as int]);
            }
        }
        let ghost base_lat = edge.latencies@;
        edge.stats.count = add_sat(edge.stats.count, 1);
        edge.stats.bytes_in = add_sat(
            edge.stats.bytes_in,
            match http.bytes_in {
                Some(b) => b,
                None => 0,
            },
        );
        edge.stats.bytes_out = add_sat(
            edge.stats.bytes_out,
            match http.bytes_out {
                Some(b) => b,
                None => 0,
            },
        );
        let is_error = match http.status {
            Some(s) => s >= 400,
            None => false,
        };
        if is_error {
            edge.stats.errors = add_sat(edge.stats.errors, 1);
        }
        edge.stats.visibility = Visibility::merge(&edge.stats.visibility, &http.attrs.visibility);
        edge.last_seen_ms = at_ms;
        match http.duration_ms {
            Some(d) => {
                let ghost ekey = edge.key;
                let ghost estats = edge.stats;
                let ghost eseen = edge.last_seen_ms;
                let ghost mut ld: int = 0;
                while edge.latencies.len() >= LATENCY_SAMPLE_LIMIT
                    invariant
                        edge.key == ekey,
                        edge.stats == estats,
                        edge.last_seen_ms == eseen,
                        0 <= ld <= base_lat.len(),
                        edge.latencies@ == base_lat.subrange(ld, base_lat.len() as int),
                        ld > 0 ==> edge.latencies@.len() + 1 >= LATENCY_SAMPLE_LIMIT,
                    decreases edge.latencies@.len(),
                {
                    let ghost before = edge.latencies@;
                    let _ = edge.latencies.remove(0);
                    proof {
                        ld = ld + 1;
                        assert(edge.latencies@ =~= base_lat.subrange(ld, base_lat.len() as int));
                    }
                }
                proof {
                    assert(ld == (if base_lat.len() + 1 > LATENCY_SAMPLE_LIMIT {
                        base_lat.len() + 1 - LATENCY_SAMPLE_LIMIT
                    } else {
                        0
                    }));
                }
                edge.latencies.push(d);
                update_latency_stats(&mut edge.stats, &edge.latencies);
            },
            None => {},
        }
        proof {
            assert(edge.latencies@.len() <= LATENCY_SAMPLE_LIMIT);
        }
        let ghost edges_mid = self.edges@;
        let ghost edgeg = edge;
        self.edges.insert(idx, edge);
        proof {
            assert(self.edges@ =~= edges_mid.insert(idx as int, edgeg));
            assert forall|t: int|
                0 <= t < self.edges@.len() implies (#[trigger] self.edges@[t]).latencies@.len()
                <= LATENCY_SAMPLE_LIMIT by {
                if t < idx {
                } else if t == idx {
                } else {
                    assert(self.edges@[t] == edges_mid[t - 1]);
                }
            }
        }
        self.publish_call(http);
        idx
    }

    /// Folds one flow observation into its edge, keyed by source and
    /// destination entity, transport and destination port: the hit count
    /// rises by one, the byte counters by the observed amounts, the
    /// visibility merges monotonically, the last-seen mark takes the
    /// observation's time, and a duration joins the bounded latency window.
    pub fn emit_flow(&mut self, flow: &FlowObservation) -> (idx: usize)
        requires
            traffic_hub_wf(*old(self)),
            old(self).edges@.len() < usize::MAX,
        ensures
            traffic_hub_wf(*final(self)),
            final(self).calls == old(self).calls,
            final(self).call_clients == old(self).call_clients,
            final(self).next_call_seq == old(self).next_call_seq,
            idx < final(self).edges@.len(),
            ({
                let new_edge = final(self).edges@[idx as int];
                let base = if idx < old(self).edges@.len() {
                    old(self).edges@[idx as int].stats
                } else {
                    EdgeStats {
                        count: 0,
                        bytes_in: 0,
                        bytes_out: 0,
                        errors: 0,
                        p50_ms: None,
                        p95_ms: None,
                        visibility: flow.attrs.visibility,
                    }
                };
                &&& (idx < old(self).edges@.len() ==> new_edge.key == old(self).edges@[
                    idx as int].key)
                &&& new_edge.stats.errors == base.errors
                &&& new_edge.stats.count == add_sat_spec(base.count, 1)
                &&& new_edge.stats.bytes_in == add_sat_spec(
                    base.bytes_in,
                    match flow.metrics.bytes_in {
                        Some(b) => b,
                        None => 0,
                    },
                )
                &&& new_edge.stats.bytes_out == add_sat_spec(
                    base.bytes_out,
                    match flow.metrics.bytes_out {
                        Some(b) => b,
                        None => 0,
                    },
                )
                &&& new_edge.last_seen_ms == flow.at_ms
                &&& new_edge.stats.visibility == crate::domain::spec_merge_visibility(
                    base.visibility,
                    flow.attrs.visibility,
                )
                &&& ({
                    let base_lat = if idx < old(self).edges@.len() {
                        old(self).edges@[idx as int].latencies@
                    } else {
                        Seq::<u64>::empty()
                    };
                    match flow.metrics.duration_ms {
                        Some(d) => ({
                            let drop: int = if base_lat.len() + 1 > LATENCY_SAMPLE_LIMIT {
                                base_lat.len() + 1 - LATENCY_SAMPLE_LIMIT
                            } else {
                                0
                            };
                            &&& new_edge.latencies@ == base_lat.subrange(
                                drop,
                                base_lat.len() as int,
                            ).push(d)
                            &&& new_edge.stats.p50_ms == Some(
                                spec_percentile(new_edge.latencies@, 50),
                            )
                            &&& new_edge.stats.p95_ms == Some(
                                spec_percentile(new_edge.latencies@, 95),
                            )
                        }),
                        None => new_edge.latencies@ == base_lat && new_edge.stats.p50_ms
                            == base.p50_ms && new_edge.stats.p95_ms == base.p95_ms,
                    }
                })
            }),
    {
        let key = flow_key(flow);
        let at_ms = flow.at_ms;
        let found = self.find_edge(&key);
        let idx: usize = match found {
            Some(i) => i,
            None => {
                let fresh = EdgeState {
                    key,
                    stats: EdgeStats {
                        count: 0,
                        bytes_in: 0,
                        bytes_out: 0,
                        errors: 0,
                        p50_ms: None,
                        p95_ms: None,
                        visibility: flow.attrs.visibility,
                    },
                    latencies: Vec::new(),
                    last_seen_ms: at_ms,
                };
                self.edges.push(fresh);
                self.edges.len() - 1
            },
        };
        let ghost pre_remove = self.edges@;
        let mut edge = self.edges.remove(idx);
        proof {
            if idx < old(self).edges@.len() {
                assert(pre_remove == old(self).edges@);
                assert(edge == old(self).edges@[idx as int]);
            }
        }
        let ghost base_lat = edge.latencies@;
        edge.stats.count = add_sat(edge.stats.count, 1);
        edge.stats.bytes_in = add_sat(
            edge.stats.bytes_in,
            match flow.metrics.bytes_in {
                Some(b) => b,
                None => 0,
            },
        );
        edge.stats.bytes_out = add_sat(
            edge.stats.bytes_out,
            match flow.metrics.bytes_out {
                Some(b) => b,
                None => 0,
            },
        );
        edge.stats.visibility = Visibility::merge(&edge.stats.visibility, &flow.attrs.visibility);
        edge.last_seen_ms = at_ms;
        match flow.metrics.duration_ms {
            Some(d) => {
                let ghost ekey = edge.key;
                let ghost estats = edge.stats;
                let ghost eseen = edge.last_seen_ms;
                let ghost mut ld: int = 0;
                while edge.latencies.len() >= LATENCY_SAMPLE_LIMIT
                    invariant
                        edge.key == ekey,
                        edge.stats == estats,
                        edge.last_seen_ms == eseen,
                        0 <= ld <= base_lat.len(),
                        edge.latencies@ == base_lat.subrange(ld, base_lat.len() as int),
                        ld > 0 ==> edge.latencies@.len() + 1 >= LATENCY_SAMPLE_LIMIT,
                    decreases edge.latencies@.len(),
                {
                    let ghost before = edge.latencies@;
                    let _ = edge.latencies.remove(0);
                    proof {
                        ld = ld + 1;
                        assert(edge.latencies@ =~= base_lat.subrange(ld, base_lat.len() as int));
                    }
                }
                proof {
                    assert(ld == (if base_lat.len() + 1 > LATENCY_SAMPLE_LIMIT {
                        base_lat.len() + 1 - LATENCY_SAMPLE_LIMIT
                    } else {
                        0
                    }));
                }
                edge.latencies.push(d);
                update_latency_stats(&mut edge.stats, &edge.latencies);
            },
            None => {},
        }
        proof {
            assert(edge.latencies@.len() <= LATENCY_SAMPLE_LIMIT);
        }
        let ghost edges_mid = self.edges@;
        let ghost edgeg = edge;
        self.edges.insert(idx, edge);
        proof {
            assert(self.edges@ =~= edges_mid.insert(idx as int, edgeg));
            assert forall|t: int|
                0 <= t < self.edges@.len() implies (#[trigger] self.edges@[t]).latencies@.len()
                <= LATENCY_SAMPLE_LIMIT by {
                if t < idx {
                } else if t == idx {
                } else {
                    assert(self.edges@[t] == edges_mid[t - 1]);
                }
            }
        }
        idx
    }

    /// Appends one call to the bounded call stream under the next sequence
    /// number — the oldest calls drop first — and offers it to every
    /// subscriber: one whose queue is full misses it.
    fn publish_call(&mut self, http: &HttpObservation)
        requires
            traffic_hub_wf_calls(*old(self)),
            old(self).next_call_seq < u64::MAX,
        ensures
            traffic_hub_wf_calls(*final(self)),
            final(self).edges == old(self).edges,
            final(self).calls@.len() > 0,
            final(self).calls@.last().seq == old(self).next_call_seq,
            final(self).next_call_seq == old(self).next_call_seq + 1,
            final(self).call_clients@.len() == old(self).call_clients@.len(),
            forall|t: int|
                0 <= t < old(self).call_clients@.len() ==> {
                    let c0 = #[trigger] old(self).call_clients@[t];
                    let c1 = final(self).call_clients@[t];
                    &&& c1.id == c0.id
                    &&& if c0.queue@.len() < TRAFFIC_CLIENT_QUEUE_SIZE {
                        c1.queue@.len() == c0.queue@.len() + 1 && (forall|j: int|
                            0 <= j < c0.queue@.len() ==> c1.queue@[j] == c0.queue@[j])
                            && c1.queue@.last().seq == old(self).next_call_seq
                    } else {
                        c1.queue@ == c0.queue@
                    }
                },
    {
        let seq = self.next_call_seq;
        self.next_call_seq = seq + 1;
        let call = TrafficCall {
            seq,
            at_ms: http.at_ms,
            peer: http.peer.clone(),
            method: http.method.clone(),
            path: http.path.clone(),
            status: http.status,
            duration_ms: http.duration_ms,
            bytes_in: http.bytes_in,
            bytes_out: http.bytes_out,
            request_headers: http.request_headers.clone(),
            response_headers: http.response_headers.clone(),
            request_body: http.request_body.clone(),
            response_body: http.response_body.clone(),
            correlation: http.correlation.clone(),
            attrs: http.attrs.clone(),
        };
        let mut ci: usize = 0;
        while ci < self.call_clients.len()
            invariant
                ci <= self.call_clients@.len(),
                self.call_clients@.len() == old(self).call_clients@.len(),
                self.edges == old(self).edges,
                self.calls == old(self).calls,
                self.next_call_seq == old(self).next_call_seq + 1,
                self.next_client_id == old(self).next_client_id,
                traffic_hub_wf_calls(*old(self)),
                old(self).next_call_seq < u64::MAX,
                call.seq == old(self).next_call_seq,
                forall|t: int|
                    ci <= t < self.call_clients@.len() ==> #[trigger] self.call_clients@[t] == old(
                        self,
                    ).call_clients@[t],
                forall|t: int|
                    0 <= t < ci ==> {
                        let c0 = #[trigger] old(self).call_clients@[t];
                        let c1 = self.call_clients@[t];
                        &&& c1.id == c0.id
                        &&& call_client_wf(c1, (old(self).next_call_seq + 1) as u64)
                        &&& if c0.queue@.len() < TRAFFIC_CLIENT_QUEUE_SIZE {
                            c1.queue@.len() == c0.queue@.len() + 1 && (forall|j: int|
                                0 <= j < c0.queue@.len() ==> c1.queue@[j] == c0.queue@[j])
                                && c1.queue@.last().seq == old(self).next_call_seq
                        } else {
                            c1.queue@ == c0.queue@
                        }
                    },
            decreases self.call_clients@.len() - ci,
        {
            let room = self.call_clients[ci].queue.len() < TRAFFIC_CLIENT_QUEUE_SIZE;
            if room {
                let copy = dup_call(&call);
                let mut c = self.call_clients.remove(ci);
                let ghost cb = c;
                c.queue.push(copy);
                proof {
                    assert(call_client_wf(cb, old(self).next_call_seq));
                    assert(forall|j: int|
                        0 <= j < cb.queue@.len() ==> (#[trigger] cb.queue@[j]).seq < old(
                            self,
                        ).next_call_seq);
                    assert(call_client_wf(c, (old(self).next_call_seq + 1) as u64));
                }
                self.call_clients.insert(ci, c);
            } else {
                proof {
                    assert(call_client_wf(self.call_clients@[ci as int], old(self).next_call_seq));
                    assert(call_client_wf(
                        self.call_clients@[ci as int],
                        (old(self).next_call_seq + 1) as u64,
                    ));
                }
            }
            ci = ci + 1;
        }
        let ghost c0 = self.calls@;
        let ghost cmid = self.call_clients@;
        self.calls.push(call);
        while self.calls.len() > TRAFFIC_CALL_HISTORY_LIMIT
            invariant
                self.calls@.len() > 0 ==> self.calls@.last().seq == old(self).next_call_seq,
                forall|i: int, j: int|
                    0 <= i < j < self.calls@.len() ==> (#[trigger] self.calls@[i]).seq
                        < (#[trigger] self.calls@[j]).seq,
                forall|i: int|
                    0 <= i < self.calls@.len() ==> (#[trigger] self.calls@[i]).seq
                        <= old(self).next_call_seq,
                self.calls@.len() > 0,
                self.next_call_seq == old(self).next_call_seq + 1,
                self.next_client_id == old(self).next_client_id,
                self.edges == old(self).edges,
                self.call_clients@ == cmid,
            decreases self.calls@.len(),
        {
            let ghost before = self.calls@;
            let _ = self.calls.remove(0);
            proof {
                assert(forall|k: int|
                    0 <= k < self.calls@.len() ==> #[trigger] self.calls@[k] == before[k + 1]);
            }
        }
        proof {
            assert forall|t: int| 0 <= t < self.call_clients@.len() implies call_client_wf(
                #[trigger] self.call_clients@[t],
                self.next_call_seq,
            ) by {
                let c0 = old(self).call_clients@[t];
                assert(call_client_wf(c0, old(self).next_call_seq));
            }
            assert forall|i: int, j: int|
                0 <= i < j < self.call_clients@.len() implies (#[trigger] self.call_clients@[
            i]).id != (#[trigger] self.call_clients@[j]).id by {
                assert(self.call_clients@[i].id == old(self).call_clients@[i].id);
                assert(self.call_clients@[j].id == old(self).call_clients@[j].id);
            }
            assert forall|t: int|
                0 <= t < self.call_clients@.len() implies (#[trigger] self.call_clients@[t]).id
                < self.next_client_id by {
                assert(self.call_clients@[t].id == old(self).call_clients@[t].id);
            }
        }
    }
}

pub open spec fn traffic_hub_wf_calls(h: TrafficHub) -> bool {
    &&& h.calls@.len() <= TRAFFIC_CALL_HISTORY_LIMIT
    &&& forall|i: int, j: int|
        0 <= i < j < h.calls@.len() ==> (#[trigger] h.calls@[i]).seq < (#[trigger] h.calls@[j]).seq
    &&& forall|i: int| 0 <= i < h.calls@.len() ==> (#[trigger] h.calls@[i]).seq < h.next_call_seq
    &&& forall|t: int|
        0 <= t < h.call_clients@.len() ==> call_client_wf(
            #[trigger] h.call_clients@[t],
            h.next_call_seq,
        )
    &&& forall|i: int, j: int|
        0 <= i < j < h.call_clients@.len() ==> (#[trigger] h.call_clients@[i]).id != (
        #[trigger] h.call_clients@[j]).id
    &&& forall|t: int|
        0 <= t < h.call_clients@.len() ==> (#[trigger] h.call_clients@[t]).id < h.next_client_id
}

/// A copy of one call, sharing its sequence number and timestamp.
fn dup_call(c: &TrafficCall) -> (r: TrafficCall)
    ensures
        r.seq == c.seq,
{
    TrafficCall {
        seq: c.seq,
        at_ms: c.at_ms,
        peer: c.peer.clone(),
        method: c.method.clone(),
        path: c.path.clone(),
        status: c.status,
        duration_ms: c.duration_ms,
        bytes_in: c.bytes_in,
        bytes_out: c.bytes_out,
        request_headers: c.request_headers.clone(),
        response_headers: c.response_headers.clone(),
        request_body: c.request_body.clone(),
        response_body: c.response_body.clone(),
        correlation: c.correlation.clone(),
        attrs: c.attrs.clone(),
    }
}

/// Saturating addition, as a value.
pub open spec fn add_sat_spec(a: u64, b: u64) -> u64 {
    if a + b <= u64::MAX {
        (a + b) as u64
    } else {
        u64::MAX
    }
}

fn add_sat(a: u64, b: u64) -> (r: u64)
    ensures
        r == add_sat_spec(a, b),
        a + b <= u64::MAX ==> r == a + b,
        a + b > u64::MAX ==> r == u64::MAX,
{
    if a <= u64::MAX - b {
        a + b
    } else {
        u64::MAX
    }
}

/// Builds the aggregation key of a flow observation: unknown peers fall
/// back to the unknown entity; the key carries the transport and the
/// destination port.
fn flow_key(flow: &FlowObservation) -> (r: EdgeKey)
{
    let from = match &flow.peer.src {
        Some(e) => e.clone(),
        None => EntityId::Unknown,
    };
    let to = match &flow.peer.dst {
        Some(e) => e.clone(),
        None => EntityId::Unknown,
    };
    EdgeKey::Flow { from, to, transport: flow.flow.transport, port: flow.flow.dst.port }
}

/// Builds the aggregation key of an HTTP observation: unknown peers fall
/// back to the unknown entity, a missing method to `UNKNOWN`, a missing
/// path to `/`.
fn http_key(http: &HttpObservation) -> (r: EdgeKey)
{
    let from = match &http.peer.src {
        Some(e) => e.clone(),
        None => EntityId::Unknown,
    };
    let to = match &http.peer.dst {
        Some(e) => e.clone(),
        None => EntityId::Unknown,
    };
    let method = match &http.method {
        Some(m) => {
            let mv = crate::strings::str_chars(m.as_str());
            let mut upper: Vec<char> = Vec::new();
            let mut i: usize = 0;
            while i < mv.len()
                invariant
                    i <= mv@.len(),
                decreases mv@.len() - i,
            {
                let c = mv[i];
                if 'a' <= c && c <= 'z' {
                    let b: u8 = (c as u8) - 32;
                    upper.push(b as char);
                } else {
                    upper.push(c);
                }
                i = i + 1;
            }
            crate::strings::chars_into_string(upper)
        },
        None => "UNKNOWN".to_owned(),
    };
    let route = match &http.path {
        Some(p) => p.clone(),
        None => "/".to_owned(),
    };
    EdgeKey::Http { from, to, method, route }
}

} // verus!
