//! The ingress digester: a bounded accumulator for raw reply bytes that
//! carves out one completed response whenever a sentinel arrives, feeding a
//! bounded queue of finished replies.

use vstd::prelude::*;
use crate::bytes::contains;
use crate::bytes::contains_seq;
use crate::bytes::is_match_at;
use crate::bytes::push_all;

verus! {

/// Bound on the accumulated bytes of one reply.
pub const INGRESS_BUF_SIZE: usize = 4096;

/// Bound on completed replies awaiting the engine; one transaction is in
/// flight at a time, so two is headroom.
pub const RES_QUEUE_CAP: usize = 2;

/// Bound on unsolicited messages awaiting the engine.
pub const URC_QUEUE_CAP: usize = 5;

/// Bytes carried over into the next sentinel scan: one less than the longest
/// sentinel, so a sentinel split across two arrivals is still seen.
pub const SENTINEL_WINDOW: usize = 4;

/// The success sentinel `OK`.
pub open spec fn marker_ok() -> Seq<u8> {
    seq![79u8, 75u8]
}

/// The failure sentinel `ERROR`.
pub open spec fn marker_error() -> Seq<u8> {
    seq![69u8, 82u8, 82u8, 79u8, 82u8]
}

/// The bytes hold a completed reply: `OK` or `ERROR` occurs in them.
pub open spec fn has_sentinel(s: Seq<u8>) -> bool {
    contains_seq(s, marker_ok()) || contains_seq(s, marker_error())
}

/// Scans for a reply sentinel: `OK` or `ERROR` anywhere in `buf`.
pub fn check_ok(buf: &[u8]) -> (r: bool)
    ensures
        r == has_sentinel(buf@),
{
    let ok: [u8; 2] = [79, 75];
    let err: [u8; 5] = [69, 82, 82, 79, 82];
    proof {
        assert(ok@ =~= marker_ok());
        assert(err@ =~= marker_error());
    }
    contains(buf, ok.as_slice()) || contains(buf, err.as_slice())
}

/// The accumulator after feeding `chunk`: appended whole, or cut at the
/// buffer bound.
pub open spec fn spec_fed(buf: Seq<u8>, chunk: Seq<u8>) -> Seq<u8> {
    if buf.len() + chunk.len() <= INGRESS_BUF_SIZE {
        buf + chunk
    } else {
        buf + chunk.take(INGRESS_BUF_SIZE - buf.len())
    }
}

/// The part of the fed accumulator that one arrival scans: the carried
/// window of up to four old bytes, and everything new.
pub open spec fn spec_scan_window(old_len: int, fed: Seq<u8>) -> Seq<u8> {
    if old_len > SENTINEL_WINDOW {
        fed.skip(old_len - SENTINEL_WINDOW)
    } else {
        fed
    }
}

/// Feeding `chunk` completes a response: a sentinel stands in the scanned
/// window.
pub open spec fn spec_completes(buf: Seq<u8>, chunk: Seq<u8>) -> bool {
    has_sentinel(spec_scan_window(buf.len() as int, spec_fed(buf, chunk)))
}

/// Law: a sentinel that begins within the last four buffered bytes or
/// anywhere later is found even when it straddles the boundary between two
/// arrivals.
pub proof fn lemma_cross_chunk_sentinel(buf: Seq<u8>, chunk: Seq<u8>, i: int)
    requires
        buf.len() + chunk.len() <= INGRESS_BUF_SIZE,
        i >= buf.len() - (SENTINEL_WINDOW as int),
        is_match_at(buf + chunk, marker_ok(), i) || is_match_at(buf + chunk, marker_error(), i),
    ensures
        spec_completes(buf, chunk),
{
    let fed = spec_fed(buf, chunk);
    assert(fed =~= buf + chunk);
    let start: int = if buf.len() > SENTINEL_WINDOW {
        buf.len() - (SENTINEL_WINDOW as int)
    } else {
        0
    };
    let w = spec_scan_window(buf.len() as int, fed);
    assert(w =~= fed.skip(start));
    if is_match_at(fed, marker_ok(), i) {
        assert(w.subrange(i - start, i - start + marker_ok().len()) =~= fed.subrange(
            i,
            i + marker_ok().len(),
        ));
        assert(is_match_at(w, marker_ok(), i - start));
    } else {
        assert(w.subrange(i - start, i - start + marker_error().len()) =~= fed.subrange(
            i,
            i + marker_error().len(),
        ));
        assert(is_match_at(w, marker_error(), i - start));
    }
}

/// The rolling accumulator and the two bounded queues it feeds, owned by one
/// driver instance.
pub struct Ingress {
    buf: Vec<u8>,
    res_queue: Vec<Vec<u8>>,
    urc_queue: Vec<Vec<u8>>,
}

impl Ingress {
    /// The bytes accumulated toward the next response.
    pub closed spec fn buffer(self) -> Seq<u8> {
        self.buf@
    }

    /// The completed responses awaiting the engine, oldest first.
    pub closed spec fn responses(self) -> Seq<Seq<u8>> {
        self.res_queue.deep_view()
    }

    /// The unsolicited messages awaiting the engine, oldest first.
    pub closed spec fn urcs(self) -> Seq<Seq<u8>> {
        self.urc_queue.deep_view()
    }

    /// Every bound holds.
    pub open spec fn wf(self) -> bool {
        self.buffer().len() <= INGRESS_BUF_SIZE && self.responses().len() <= RES_QUEUE_CAP
            && self.urcs().len() <= URC_QUEUE_CAP
    }

    /// A fresh, empty digester.
    pub fn new() -> (r: Ingress)
        ensures
            r.wf(),
            r.buffer() == Seq::<u8>::empty(),
            r.responses() == Seq::<Seq<u8>>::empty(),
            r.urcs() == Seq::<Seq<u8>>::empty(),
    {
        let r = Ingress { buf: Vec::new(), res_queue: Vec::new(), urc_queue: Vec::new() };
        proof {
            assert(r.buffer() =~= Seq::<u8>::empty());
            assert(r.responses() =~= Seq::<Seq<u8>>::empty());
            assert(r.urcs() =~= Seq::<Seq<u8>>::empty());
        }
        r
    }

    /// Feeds one arrival of raw bytes: appends it to the accumulator within
    /// the buffer bound, scans the carried window and the new bytes for a
    /// sentinel, and on completion hands the whole accumulated reply to the
    /// response queue — dropped if the queue is full — and starts afresh.
    pub fn write(&mut self, chunk: &[u8]) -> (completed: bool)
        requires
            old(self).wf(),
        ensures
            final(self).wf(),
            completed == spec_completes(old(self).buffer(), chunk@),
            final(self).urcs() == old(self).urcs(),
            !completed ==> final(self).buffer() == spec_fed(old(self).buffer(), chunk@)
                && final(self).responses() == old(self).responses(),
            completed ==> final(self).buffer() == Seq::<u8>::empty() && (if old(self).responses().len() < RES_QUEUE_CAP {
                final(self).responses() == old(self).responses().push(
                    spec_fed(old(self).buffer(), chunk@),
                )
            } else {
                final(self).responses() == old(self).responses()
            }),
    {
        let old_len = self.buf.len();
        let room = INGRESS_BUF_SIZE - old_len;
        let take_n = if chunk.len() <= room {
            chunk.len()
        } else {
            room
        };
        let part = vstd::slice::slice_subrange(chunk, 0, take_n);
        push_all(&mut self.buf, part);
        proof {
            if chunk@.len() <= room {
                assert(chunk@.take(take_n as int) =~= chunk@);
            }
            assert(self.buf@ =~= spec_fed(old(self).buffer(), chunk@));
        }
        let start = if old_len > SENTINEL_WINDOW {
            old_len - SENTINEL_WINDOW
        } else {
            0
        };
        let window = vstd::slice::slice_subrange(self.buf.as_slice(), start, self.buf.len());
        proof {
            assert(window@ =~= spec_scan_window(old_len as int, self.buf@));
        }
        let completed = check_ok(window);
        if completed {
            if self.res_queue.len() < RES_QUEUE_CAP {
                let ghost old_q = self.res_queue.deep_view();
                let ghost old_vv = self.res_queue@;
                let full = vstd::slice::slice_to_vec(self.buf.as_slice());
                self.res_queue.push(full);
                proof {
                    assert forall|q: int|
                        0 <= q < self.res_queue.deep_view().len() implies self.res_queue.deep_view()[q]
                        == old_q.push(spec_fed(old(self).buffer(), chunk@))[q] by {
                        if q < old_vv.len() {
                            assert(self.res_queue@[q] == old_vv[q]);
                            assert(old_q[q] == old_vv[q].deep_view());
                        } else {
                            assert(self.res_queue@[q].deep_view() =~= spec_fed(
                                old(self).buffer(),
                                chunk@,
                            ));
                        }
                    }
                    assert(self.res_queue.deep_view() =~= old_q.push(
                        spec_fed(old(self).buffer(), chunk@),
                    ));
                }
            }
            self.buf.clear();
            proof {
                assert(self.buf@ =~= Seq::<u8>::empty());
            }
        }
        completed
    }

    /// Hands out the oldest completed response, when one is waiting.
    pub fn dequeue(&mut self) -> (r: Option<Vec<u8>>)
        requires
            old(self).wf(),
        ensures
            final(self).wf(),
            final(self).buffer() == old(self).buffer(),
            final(self).urcs() == old(self).urcs(),
            old(self).responses().len() == 0 ==> r is None
                && final(self).responses() == old(self).responses(),
            old(self).responses().len() > 0 ==> r is Some
                && r.unwrap()@ == old(self).responses()[0]
                && final(self).responses() == old(self).responses().drop_first(),
    {
        if self.res_queue.len() == 0 {
            None
        } else {
            let ghost old_q = self.res_queue.deep_view();
            let ghost old_vv = self.res_queue@;
            let v = self.res_queue.remove(0);
            proof {
                assert(v.deep_view() =~= v@);
                assert forall|q: int|
                    0 <= q < self.res_queue.deep_view().len() implies self.res_queue.deep_view()[q]
                    == old_q.drop_first()[q] by {
                    assert(self.res_queue@[q] == old_vv[q + 1]);
                    assert(old_q[q + 1] == old_vv[q + 1].deep_view());
                }
                assert(self.res_queue.deep_view() =~= old_q.drop_first());
            }
            Some(v)
        }
    }

    /// Hands out the oldest unsolicited message, when one is waiting.
    pub fn dequeue_urc(&mut self) -> (r: Option<Vec<u8>>)
        requires
            old(self).wf(),
        ensures
            final(self).wf(),
            final(self).buffer() == old(self).buffer(),
            final(self).responses() == old(self).responses(),
            old(self).urcs().len() == 0 ==> r is None && final(self).urcs() == old(self).urcs(),
            old(self).urcs().len() > 0 ==> r is Some && r.unwrap()@ == old(self).urcs()[0]
                && final(self).urcs() == old(self).urcs().drop_first(),
    {
        if self.urc_queue.len() == 0 {
            None
        } else {
            let ghost old_q = self.urc_queue.deep_view();
            let ghost old_vv = self.urc_queue@;
            let v = self.urc_queue.remove(0);
            proof {
                assert(v.deep_view() =~= v@);
                assert forall|q: int|
                    0 <= q < self.urc_queue.deep_view().len() implies self.urc_queue.deep_view()[q]
                    == old_q.drop_first()[q] by {
                    assert(self.urc_queue@[q] == old_vv[q + 1]);
                    assert(old_q[q + 1] == old_vv[q + 1].deep_view());
                }
                assert(self.urc_queue.deep_view() =~= old_q.drop_first());
            }
            Some(v)
        }
    }
}

} // verus!
