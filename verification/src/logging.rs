//! Log plumbing: ANSI escape stripping for raw container output, and the
//! bounded publish/subscribe hub for aggregated log lines.

use vstd::prelude::*;

use crate::domain::LogEvent;

verus! {

/// How many events one subscriber may have queued before new ones drop.
pub const CLIENT_QUEUE_SIZE: usize = 1000;

/// How many events the log hub keeps as history.
pub const HISTORY_LIMIT: usize = 2000;

/// One step of the ANSI stripper: the cleaned bytes of `s` from `i` on.
/// `ESC [`-introduced and lone `0x9b` control sequences run to their final
/// byte in `0x40..=0x7e`; `ESC ]` sequences run to the bell.
pub open spec fn strip_from(s: Seq<u8>, i: int) -> Seq<u8>
    decreases s.len() - i, 2int,
{
    if i < 0 || i >= s.len() {
        Seq::empty()
    } else if s[i] == 0x1b {
        if i + 1 < s.len() && s[i + 1] == 0x5b {
            skip_csi(s, i + 2)
        } else if i + 1 < s.len() && s[i + 1] == 0x5d {
            skip_osc(s, i + 2)
        } else {
            strip_from(s, i + 1)
        }
    } else if s[i] == 0x9b {
        skip_csi(s, i + 1)
    } else {
        seq![s[i]] + strip_from(s, i + 1)
    }
}

pub open spec fn skip_csi(s: Seq<u8>, i: int) -> Seq<u8>
    decreases s.len() - i, 1int,
{
    if i < 0 || i >= s.len() {
        Seq::empty()
    } else if 0x40 <= s[i] <= 0x7e {
        strip_from(s, i + 1)
    } else {
        skip_csi(s, i + 1)
    }
}

pub open spec fn skip_osc(s: Seq<u8>, i: int) -> Seq<u8>
    decreases s.len() - i, 1int,
{
    if i < 0 || i >= s.len() {
        Seq::empty()
    } else if s[i] == 0x07 {
        strip_from(s, i + 1)
    } else {
        skip_osc(s, i + 1)
    }
}

fn strip_bytes_from(s: &[u8], i: usize, out: &mut Vec<u8>)
    requires
        i <= s@.len(),
    ensures
        final(out)@ == old(out)@ + strip_from(s@, i as int),
    decreases s@.len() - i, 2int,
{
    proof {
        reveal_with_fuel(strip_from, 2);
    }
    if i >= s.len() {
        proof {
            assert(out@ =~= out@ + strip_from(s@, i as int));
        }
        return;
    }
    let b = s[i];
    if b == 0x1b {
        if i + 1 < s.len() && s[i + 1] == 0x5b {
            skip_csi_from(s, i + 2, out);
        } else if i + 1 < s.len() && s[i + 1] == 0x5d {
            skip_osc_from(s, i + 2, out);
        } else {
            strip_bytes_from(s, i + 1, out);
        }
    } else if b == 0x9b {
        skip_csi_from(s, i + 1, out);
    } else {
        let ghost before = out@;
        out.push(b);
        strip_bytes_from(s, i + 1, out);
        proof {
            assert(before + seq![s@[i as int]] + strip_from(s@, i + 1) =~= before + (seq![
                s@[i as int],
            ] + strip_from(s@, i + 1)));
        }
    }
}

fn skip_csi_from(s: &[u8], i: usize, out: &mut Vec<u8>)
    requires
        i <= s@.len(),
    ensures
        final(out)@ == old(out)@ + skip_csi(s@, i as int),
    decreases s@.len() - i, 1int,
{
    if i >= s.len() {
        proof {
            assert(out@ =~= out@ + skip_csi(s@, i as int));
        }
        return;
    }
    let b = s[i];
    if 0x40 <= b && b <= 0x7e {
        strip_bytes_from(s, i + 1, out);
    } else {
        skip_csi_from(s, i + 1, out);
    }
}

fn skip_osc_from(s: &[u8], i: usize, out: &mut Vec<u8>)
    requires
        i <= s@.len(),
    ensures
        final(out)@ == old(out)@ + skip_osc(s@, i as int),
    decreases s@.len() - i, 1int,
{
    if i >= s.len() {
        proof {
            assert(out@ =~= out@ + skip_osc(s@, i as int));
        }
        return;
    }
    let b = s[i];
    if b == 0x07 {
        strip_bytes_from(s, i + 1, out);
    } else {
        skip_osc_from(s, i + 1, out);
    }
}

/// The text `String::from_utf8_lossy` decodes from these bytes; a function
/// of the bytes alone.
pub uninterp spec fn lossy_text(s: Seq<u8>) -> Seq<char>;

/// Relies on `String::from_utf8_lossy` from std: the decoding depends on
/// the bytes alone, and bytes that are valid UTF-8 — in particular pure
/// ASCII — decode to exactly those characters.
#[verifier::external_body]
fn utf8_lossy(s: &Vec<u8>) -> (r: String)
    ensures
        r@ == lossy_text(s@),
        (forall|i: int| 0 <= i < s@.len() ==> s@[i] < 0x80) ==> r@ == s@.map_values(
            |b: u8| b as char,
        ),
{
    String::from_utf8_lossy(s.as_slice()).into_owned()
}

/// Strips ANSI escape sequences (CSI, OSC and the single-byte CSI) from raw
/// output bytes and decodes the remainder.
pub fn strip_ansi_codes(s: &[u8]) -> (r: String)
    ensures
        r@ == lossy_text(strip_from(s@, 0)),
        (forall|i: int| 0 <= i < strip_from(s@, 0).len() ==> strip_from(s@, 0)[i] < 0x80)
            ==> r@ == strip_from(s@, 0).map_values(|b: u8| b as char),
{
    let mut out: Vec<u8> = Vec::new();
    strip_bytes_from(s, 0, &mut out);
    utf8_lossy(&out)
}

/// One subscriber of the log hub: an identity and a bounded queue.
pub struct LogClient {
    pub id: u64,
    pub queue: Vec<LogEvent>,
    pub delivered: u64,
}

/// Events a client holds or has taken carry strictly increasing sequence
/// numbers, all assigned by this hub.
pub open spec fn client_wf(c: LogClient, next_seq: u64) -> bool {
    &&& forall|i: int, j: int|
        0 <= i < j < c.queue@.len() ==> (#[trigger] c.queue@[i]).seq < (#[trigger] c.queue@[j]).seq
    &&& forall|i: int| 0 <= i < c.queue@.len() ==> (#[trigger] c.queue@[i]).seq <= next_seq
    &&& forall|i: int| 0 <= i < c.queue@.len() ==> (#[trigger] c.queue@[i]).seq > c.delivered
    &&& c.delivered <= next_seq
}

/// In-memory publish/subscribe buffer for log events: bounded history,
/// bounded per-subscriber queues, a monotone sequence counter.
pub struct LogHub {
    pub history: Vec<LogEvent>,
    pub history_size: usize,
    pub clients: Vec<LogClient>,
    pub next_client_id: u64,
    pub next_seq: u64,
}

pub open spec fn hub_wf(h: LogHub) -> bool {
    &&& h.history_size >= 1
    &&& h.history@.len() <= h.history_size
    &&& forall|i: int, j: int|
        0 <= i < j < h.history@.len() ==> (#[trigger] h.history@[i]).seq
            < (#[trigger] h.history@[j]).seq
    &&& forall|i: int| 0 <= i < h.history@.len() ==> (#[trigger] h.history@[i]).seq <= h.next_seq
    &&& forall|i: int| 0 <= i < h.clients@.len() ==> client_wf(#[trigger] h.clients@[i], h.next_seq)
    &&& forall|i: int, j: int|
        0 <= i < j < h.clients@.len() ==> (#[trigger] h.clients@[i]).id
            != (#[trigger] h.clients@[j]).id
    &&& forall|i: int| 0 <= i < h.clients@.len() ==> (#[trigger] h.clients@[i]).id
        < h.next_client_id
}

fn dup_event(e: &LogEvent) -> (r: LogEvent)
    ensures
        r.seq == e.seq,
        r.service@ == e.service@,
        r.line@ == e.line@,
{
    LogEvent { seq: e.seq, service: e.service.clone(), line: e.line.clone() }
}

impl LogHub {
    pub fn new(history_size: usize) -> (r: LogHub)
        requires
            history_size >= 1,
        ensures
            hub_wf(r),
            r.history@.len() == 0,
            r.clients@.len() == 0,
            r.next_seq == 0,
            r.history_size == history_size,
    {
        LogHub {
            history: Vec::new(),
            history_size,
            clients: Vec::new(),
            next_client_id: 1,
            next_seq: 0,
        }
    }

    /// Publishes one line: assigns the next sequence number, hands a copy to
    /// every subscriber with room in its queue (a full subscriber silently
    /// misses the event but stays subscribed), and appends the event to the
    /// history, dropping the oldest entries over the limit.
    pub fn publish(&mut self, service: &str, line: &str)
        requires
            hub_wf(*old(self)),
            old(self).next_seq < u64::MAX,
        ensures
            hub_wf(*final(self)),
            final(self).next_seq == old(self).next_seq + 1,
            final(self).history_size == old(self).history_size,
            final(self).next_client_id == old(self).next_client_id,
            ({
                let ev = final(self).history@.last();
                &&& final(self).history@.len() > 0
                &&& ev.seq == old(self).next_seq + 1
                &&& ev.line@ == line@
                &&& ev.service@ == (if service@.len() == 0 {
                    "unknown"@
                } else {
                    service@
                })
                &&& ({
                    let k: int = if old(self).history@.len() + 1 > old(self).history_size {
                        old(self).history@.len() + 1 - old(self).history_size
                    } else {
                        0
                    };
                    final(self).history@ == old(self).history@.subrange(
                        k,
                        old(self).history@.len() as int,
                    ).push(ev)
                })
            }),
            final(self).clients@.len() == old(self).clients@.len(),
            forall|i: int|
                0 <= i < old(self).clients@.len() ==> {
                    let c0 = #[trigger] old(self).clients@[i];
                    let c1 = final(self).clients@[i];
                    &&& c1.id == c0.id
                    &&& c1.delivered == c0.delivered
                    &&& if c0.queue@.len() < CLIENT_QUEUE_SIZE {
                        c1.queue@.len() == c0.queue@.len() + 1 && (forall|j: int|
                            0 <= j < c0.queue@.len() ==> c1.queue@[j] == c0.queue@[j])
                            && c1.queue@.last().seq == old(self).next_seq + 1
                            && c1.queue@.last().line@ == line@
                    } else {
                        c1.queue@ == c0.queue@
                    }
                },
    {
        let seq = self.next_seq + 1;
        self.next_seq = seq;
        let service_name: String = if service.unicode_len() == 0 {
            "unknown".to_owned()
        } else {
            service.to_owned()
        };
        let event = LogEvent { seq, service: service_name, line: line.to_owned() };

        let mut i: usize = 0;
        while i < self.clients.len()
            invariant
                i <= self.clients@.len(),
                self.clients@.len() == old(self).clients@.len(),
                self.next_seq == old(self).next_seq + 1,
                self.history_size == old(self).history_size,
                self.next_client_id == old(self).next_client_id,
                self.history == old(self).history,
                hub_wf(*old(self)),
                old(self).next_seq < u64::MAX,
                event.seq == old(self).next_seq + 1,
                event.line@ == line@,
                event.service@ == (if service@.len() == 0 {
                    "unknown"@
                } else {
                    service@
                }),
                forall|t: int|
                    i <= t < self.clients@.len() ==> #[trigger] self.clients@[t] == old(
                        self,
                    ).clients@[t],
                forall|t: int|
                    0 <= t < i ==> {
                        let c0 = #[trigger] old(self).clients@[t];
                        let c1 = self.clients@[t];
                        &&& c1.id == c0.id
                        &&& c1.delivered == c0.delivered
                        &&& client_wf(c1, (old(self).next_seq + 1) as u64)
                        &&& if c0.queue@.len() < CLIENT_QUEUE_SIZE {
                            c1.queue@.len() == c0.queue@.len() + 1 && (forall|j: int|
                                0 <= j < c0.queue@.len() ==> c1.queue@[j] == c0.queue@[j])
                                && c1.queue@.last().seq == old(self).next_seq + 1
                                && c1.queue@.last().line@ == line@
                        } else {
                            c1.queue@ == c0.queue@
                        }
                    },
            decreases self.clients@.len() - i,
        {
            let room = self.clients[i].queue.len() < CLIENT_QUEUE_SIZE;
            if room {
                let copy = dup_event(&event);
                let mut c = self.clients.remove(i);
                let ghost c0 = c;
                c.queue.push(copy);
                proof {
                    assert(client_wf(c0, old(self).next_seq));
                    assert(forall|j: int|
                        0 <= j < c0.queue@.len() ==> (#[trigger] c0.queue@[j]).seq <= old(
                            self,
                        ).next_seq);
                    assert(client_wf(c, (old(self).next_seq + 1) as u64));
                }
                self.clients.insert(i, c);
            } else {
                proof {
                    assert(client_wf(self.clients@[i as int], old(self).next_seq));
                    assert(client_wf(self.clients@[i as int], (old(self).next_seq + 1) as u64));
                }
            }
            i = i + 1;
        }

        let ghost h0 = self.history@;
        let ghost evg = event;
        let ghost cmid = self.clients@;
        self.history.push(event);
        let mut dropped: usize = 0;
        while self.history.len() > self.history_size
            invariant
                self.history@ =~= (h0.push(evg)).subrange(
                    dropped as int,
                    h0.len() as int + 1,
                ),
                dropped <= h0.len(),
                h0.len() <= usize::MAX,
                h0.len() + 1 - dropped == self.history@.len(),
                h0.len() < old(self).history_size ==> dropped == 0,
                dropped > 0 ==> self.history@.len() >= self.history_size,
                self.history_size == old(self).history_size,
                old(self).history_size >= 1,
                self.next_seq == old(self).next_seq + 1,
                self.next_client_id == old(self).next_client_id,
                self.clients@ == cmid,
            decreases self.history@.len(),
        {
            let _ = self.history.remove(0);
            dropped = dropped + 1;
            proof {
                assert(self.history@ =~= (h0.push(evg)).subrange(
                    dropped as int,
                    h0.len() as int + 1,
                ));
            }
        }
        proof {
            assert(self.history@.len() > 0) by {
                assert(old(self).history_size >= 1);
            }
            assert(self.history@.last() == evg);
            assert(self.history@ =~= h0.subrange(dropped as int, h0.len() as int).push(evg)) by {
                assert(forall|j: int|
                    0 <= j < self.history@.len() - 1 ==> #[trigger] self.history@[j] == h0[
                    dropped + j]);
            }
            assert(dropped as int == (if h0.len() + 1 > self.history_size {
                h0.len() + 1 - self.history_size
            } else {
                0
            }));
            assert(forall|i2: int, j2: int|
                0 <= i2 < j2 < self.history@.len() ==> (#[trigger] self.history@[i2]).seq
                    < (#[trigger] self.history@[j2]).seq) by {
                assert(forall|j: int|
                    0 <= j < h0.len() ==> (#[trigger] h0[j]).seq <= old(self).next_seq);
            }
            assert forall|t: int| 0 <= t < self.clients@.len() implies client_wf(
                #[trigger] self.clients@[t],
                self.next_seq,
            ) by {
                let c0 = old(self).clients@[t];
                assert(client_wf(c0, old(self).next_seq));
            }
            assert forall|i2: int, j2: int|
                0 <= i2 < j2 < self.clients@.len() implies (#[trigger] self.clients@[i2]).id
                != (#[trigger] self.clients@[j2]).id by {
                assert(self.clients@[i2].id == old(self).clients@[i2].id);
                assert(self.clients@[j2].id == old(self).clients@[j2].id);
            }
            assert forall|t: int|
                0 <= t < self.clients@.len() implies (#[trigger] self.clients@[t]).id
                < self.next_client_id by {
                assert(self.clients@[t].id == old(self).clients@[t].id);
            }
        }
    }

    /// Registers a new subscriber: a fresh identity, an empty queue, and a
    /// snapshot of the current history delivered before any live event.
    pub fn register_client(&mut self) -> (r: (u64, Vec<LogEvent>))
        requires
            hub_wf(*old(self)),
            old(self).next_client_id < u64::MAX,
        ensures
            hub_wf(*final(self)),
            final(self).history == old(self).history,
            final(self).next_seq == old(self).next_seq,
            final(self).clients@.len() == old(self).clients@.len() + 1,
            forall|i: int|
                0 <= i < old(self).clients@.len() ==> #[trigger] final(self).clients@[i] == old(
                    self,
                ).clients@[i],
            final(self).clients@.last().id == r.0,
            final(self).clients@.last().queue@.len() == 0,
            r.1@.len() == old(self).history@.len(),
            forall|i: int|
                0 <= i < old(self).history@.len() ==> (#[trigger] r.1@[i]).seq == old(
                    self,
                ).history@[i].seq && r.1@[i].line@ == old(self).history@[i].line@
                    && r.1@[i].service@ == old(self).history@[i].service@,
    {
        let id = self.next_client_id;
        self.next_client_id = id + 1;
        self.clients.push(LogClient { id, queue: Vec::new(), delivered: 0 });
        let mut snapshot: Vec<LogEvent> = Vec::new();
        let mut i: usize = 0;
        while i < self.history.len()
            invariant
                i <= self.history@.len(),
                snapshot@.len() == i,
                forall|j: int|
                    0 <= j < i ==> (#[trigger] snapshot@[j]).seq == self.history@[j].seq
                        && snapshot@[j].line@ == self.history@[j].line@ && snapshot@[j].service@
                        == self.history@[j].service@,
                self.history == old(self).history,
            decreases self.history@.len() - i,
        {
            let e = dup_event(&self.history[i]);
            snapshot.push(e);
            i = i + 1;
        }
        (id, snapshot)
    }

    /// Drains the queue of one subscriber: the delivered events carry
    /// strictly increasing sequence numbers, each above everything the
    /// subscriber was handed before, so no event is ever delivered twice.
    pub fn take_events(&mut self, client_idx: usize) -> (r: Vec<LogEvent>)
        requires
            hub_wf(*old(self)),
            client_idx < old(self).clients@.len(),
        ensures
            hub_wf(*final(self)),
            final(self).history == old(self).history,
            final(self).next_seq == old(self).next_seq,
            final(self).clients@.len() == old(self).clients@.len(),
            r@ == old(self).clients@[client_idx as int].queue@,
            forall|i: int, j: int|
                0 <= i < j < r@.len() ==> (#[trigger] r@[i]).seq < (#[trigger] r@[j]).seq,
            forall|i: int|
                0 <= i < r@.len() ==> (#[trigger] r@[i]).seq > old(self).clients@[
                    client_idx as int].delivered,
            final(self).clients@[client_idx as int].queue@.len() == 0,
            final(self).clients@[client_idx as int].id == old(self).clients@[
                client_idx as int].id,
    {
        let mut c = self.clients.remove(client_idx);
        let ghost c0 = c;
        let out = c.queue;
        c.queue = Vec::new();
        if out.len() > 0 {
            let last = out[out.len() - 1].seq;
            proof {
                assert(client_wf(c0, old(self).next_seq));
            }
            c.delivered = last;
        }
        proof {
            assert(client_wf(c, old(self).next_seq));
        }
        self.clients.insert(client_idx, c);
        proof {
            assert(self.clients@ =~= old(self).clients@.update(client_idx as int, self.clients@[
                client_idx as int]));
        }
        out
    }

    /// Removes one subscriber entirely.
    pub fn unsubscribe(&mut self, client_idx: usize)
        requires
            hub_wf(*old(self)),
            client_idx < old(self).clients@.len(),
        ensures
            hub_wf(*final(self)),
            final(self).history == old(self).history,
            final(self).next_seq == old(self).next_seq,
            final(self).clients@ == old(self).clients@.remove(client_idx as int),
    {
        let _ = self.clients.remove(client_idx);
    }
}

} // verus!
