//! Real-time playback engine core: a bounded multi-producer channel of
//! sample chunks, and the hardware-callback refill step that drains a
//! leftover carry, pops whole chunks, and zero-fills any underrun.
//!
//! Samples are carried as the raw 32-bit words of their wire encoding; the
//! thin device layer turns them into hardware float samples one for one.

use vstd::prelude::*;

verus! {

use vstd::seq_lib::lemma_flatten_concat;

/// The fixed playback output rate, in samples per second.
pub const PLAYBACK_SAMPLE_RATE: u32 = 24000;

/// Capacity of the playback queue, in chunks; a push onto a full queue
/// drops the chunk (bounded latency over completeness).
pub const QUEUE_CAPACITY: usize = 64;

#[verifier::external_type_specification]
#[verifier::external_body]
#[verifier::reject_recursive_types(T)]
pub struct ExSender<T>(crossbeam_channel::Sender<T>);

#[verifier::external_type_specification]
#[verifier::external_body]
#[verifier::reject_recursive_types(T)]
pub struct ExReceiver<T>(crossbeam_channel::Receiver<T>);

/// Relies on crossbeam_channel's `Clone` for `Sender`: a clone is another
/// producer handle onto the same channel.
pub assume_specification<T>[ <crossbeam_channel::Sender<T> as Clone>::clone ](
    tx: &crossbeam_channel::Sender<T>,
) -> crossbeam_channel::Sender<T>;

/// Relies on crossbeam_channel::bounded: a channel that queues at most
/// `cap` chunks between the producing and the consuming side.
#[verifier::external_body]
fn bounded_chunk_channel(cap: usize) -> (r: (
    crossbeam_channel::Sender<Vec<u32>>,
    crossbeam_channel::Receiver<Vec<u32>>,
)) {
    crossbeam_channel::bounded(cap)
}

/// Relies on crossbeam_channel::Sender::try_send: a non-blocking enqueue
/// that fails rather than waits when the channel is full or disconnected.
/// Success depends on the consumer on another thread, so nothing is
/// promised of the result.
#[verifier::external_body]
fn try_send_chunk(tx: &crossbeam_channel::Sender<Vec<u32>>, chunk: Vec<u32>) -> (r: bool) {
    tx.try_send(chunk).is_ok()
}

/// Relies on crossbeam_channel::Receiver::try_recv: a non-blocking dequeue
/// that hands back a previously sent chunk in sender order, or nothing when
/// the channel is empty or disconnected. What arrives depends on producers
/// on other threads, so nothing is promised of the result.
#[verifier::external_body]
fn try_recv_chunk(rx: &crossbeam_channel::Receiver<Vec<u32>>) -> (r: Option<Vec<u32>>) {
    rx.try_recv().ok()
}

/// Cloneable, thread-transferable producer handle onto the playback queue.
#[derive(Clone)]
pub struct PlaybackHandle {
    tx: crossbeam_channel::Sender<Vec<u32>>,
}

impl PlaybackHandle {
    /// Enqueue a chunk of samples without blocking: a full queue drops the
    /// chunk, and an empty chunk is ignored.
    pub fn add_samples(&self, samples: &[u32]) {
        if samples.len() > 0 {
            let chunk = vstd::slice::slice_to_vec(samples);
            let _ = try_send_chunk(&self.tx, chunk);
        }
    }
}

/// A partially drained chunk carried between consecutive hardware callback
/// invocations: the chunk and the count of samples already consumed.
pub struct Leftover {
    pub chunk: Vec<u32>,
    pub offset: usize,
}

impl Leftover {
    /// The carry invariant: the offset never reaches the chunk length, so a
    /// carry always holds at least one sample still to play.
    pub open spec fn wf(&self) -> bool {
        self.offset < self.chunk@.len()
    }

    /// The samples of the carry still to be played.
    pub open spec fn rest(&self) -> Seq<u32> {
        self.chunk@.skip(self.offset as int)
    }
}

/// The samples still to be played out of an optional carry.
pub open spec fn carry_rest(lo: Option<Leftover>) -> Seq<u32> {
    match lo {
        Option::None => Seq::empty(),
        Option::Some(l) => l.rest(),
    }
}

/// Well-formedness of an optional carry.
pub open spec fn carry_wf(lo: Option<Leftover>) -> bool {
    match lo {
        Option::None => true,
        Option::Some(l) => l.wf(),
    }
}

/// A sequence of zero-valued samples (digital silence).
pub open spec fn silence(n: nat) -> Seq<u32> {
    Seq::new(n, |i: int| 0u32)
}

/// What one refill invocation does, given the chunks the queue handed out
/// during it: the supply is the old carry followed by those chunks; the
/// output holds the supply up to the demanded length, then silence; the new
/// carry holds exactly the unconsumed tail of the supply.
pub open spec fn fill_post(
    old_lo: Option<Leftover>,
    chunks: Seq<Seq<u32>>,
    n: nat,
    out: Seq<u32>,
    new_lo: Option<Leftover>,
) -> bool {
    let supply = carry_rest(old_lo) + chunks.flatten();
    &&& out.len() == n
    &&& if supply.len() >= n {
        out == supply.take(n as int) && carry_rest(new_lo) == supply.skip(n as int)
    } else {
        out == supply + silence((n - supply.len()) as nat) && new_lo is None
    }
}

/// The consuming side of the playback engine: the queue receiver and the
/// leftover carry, owned by the hardware output callback.
pub struct PlaybackConsumer {
    rx: crossbeam_channel::Receiver<Vec<u32>>,
    leftover: Option<Leftover>,
}

impl PlaybackConsumer {
    /// The leftover carry held between refill invocations.
    pub closed spec fn carry(&self) -> Option<Leftover> {
        self.leftover
    }

    pub open spec fn wf(&self) -> bool {
        carry_wf(self.carry())
    }

    /// One hardware-callback refill: first drain the carry into the output,
    /// then pop further chunks while samples still fit, carrying any
    /// remainder, and zero-fill the unfilled tail (graceful underrun).
    ///
    /// Whatever chunks the queue hands out, the output is exactly the
    /// available supply followed by silence, and the carry keeps exactly
    /// the unconsumed tail of the supply. When the old carry alone exceeds
    /// the demand, it survives with its offset advanced by exactly the
    /// demand.
    pub fn fill(&mut self, out: &mut Vec<u32>)
        requires
            old(self).wf(),
        ensures
            final(self).wf(),
            final(out)@.len() == old(out)@.len(),
            exists|chunks: Seq<Seq<u32>>|
                fill_post(
                    old(self).carry(),
                    chunks,
                    old(out)@.len() as nat,
                    final(out)@,
                    final(self).carry(),
                ),
            (match (old(self).carry(), final(self).carry()) {
                (Some(l0), Some(l1)) => l0.rest().len() > old(out)@.len() ==> (l1.chunk@
                    == l0.chunk@ && l1.offset == l0.offset + old(out)@.len()),
                (Some(l0), None) => l0.rest().len() <= old(out)@.len(),
                _ => true,
            }),
    {
        let n = out.len();
        let ghost old_lo = old(self).carry();
        let ghost mut chunks: Seq<Seq<u32>> = Seq::empty();
        let mut written: usize = 0;
        let cur = self.leftover.take();
        if let Some(mut lo) = cur {
            let avail = lo.chunk.len() - lo.offset;
            let take = if n < avail {
                n
            } else {
                avail
            };
            let mut j: usize = 0;
            while j < take
                invariant
                    lo.offset < lo.chunk@.len(),
                    lo.chunk@.len() <= usize::MAX,
                    avail == lo.chunk@.len() - lo.offset,
                    take <= avail,
                    take <= n,
                    n == out@.len(),
                    j <= take,
                    forall|i: int| 0 <= i < j ==> out@[i] == lo.chunk@[lo.offset + i],
                decreases take - j,
            {
                let v = lo.chunk[lo.offset + j];
                out.set(j, v);
                j = j + 1;
            }
            written = take;
            let new_off = lo.offset + take;
            if new_off < lo.chunk.len() {
                self.leftover = Some(Leftover { chunk: lo.chunk, offset: new_off });
            }
        }
        proof {
            assert(chunks.flatten() =~= Seq::<u32>::empty());
            let supply = carry_rest(old_lo) + chunks.flatten();
            assert(supply =~= carry_rest(old_lo));
            assert(out@.take(written as int) =~= supply.take(written as int));
            assert(carry_rest(self.leftover) =~= supply.skip(written as int));
        }
        let ghost lo_pre = self.leftover;
        while written < n
            invariant
                n == out@.len(),
                written <= n,
                carry_wf(self.leftover),
                (match old_lo {
                    Some(l0) => l0.rest().len() > n ==> self.leftover == lo_pre,
                    None => true,
                }),
                written <= carry_rest(old_lo).len() + chunks.flatten().len(),
                written == n || written == carry_rest(old_lo).len() + chunks.flatten().len(),
                out@.take(written as int) == (carry_rest(old_lo) + chunks.flatten()).take(
                    written as int,
                ),
                carry_rest(self.leftover) == (carry_rest(old_lo) + chunks.flatten()).skip(
                    written as int,
                ),
            decreases n - written,
        {
            match try_recv_chunk(&self.rx) {
                Some(chunk) => {
                    // The producer handle never enqueues an empty chunk;
                    // stop rather than spin on one. An empty chunk adds no
                    // samples, so the supply is unchanged either way.
                    if chunk.len() == 0 {
                        break ;
                    }
                    let ghost supply0 = carry_rest(old_lo) + chunks.flatten();
                    proof {
                        lemma_flatten_concat(chunks, seq![chunk@]);
                        seq![chunk@].lemma_flatten_one_element();
                        chunks = chunks + seq![chunk@];
                        assert(chunks.flatten() =~= supply0.skip(carry_rest(old_lo).len() as int)
                            + chunk@);
                        assert(carry_rest(old_lo) + chunks.flatten() =~= supply0 + chunk@);
                    }
                    let clen = chunk.len();
                    let need = n - written;
                    let take = if need < clen {
                        need
                    } else {
                        clen
                    };
                    let ghost w0 = written as int;
                    let ghost out0 = out@;
                    let mut j: usize = 0;
                    while j < take
                        invariant
                            take <= clen,
                            clen == chunk@.len(),
                            w0 + take <= n,
                            w0 == written,
                            n == out@.len(),
                            j <= take,
                            forall|i: int| 0 <= i < j ==> out@[w0 + i] == chunk@[i],
                            forall|i: int| 0 <= i < w0 ==> out@[i] == out0[i],
                        decreases take - j,
                    {
                        let v = chunk[j];
                        out.set(written + j, v);
                        j = j + 1;
                    }
                    proof {
                        assert(out@.take(w0) =~= out0.take(w0));
                    }
                    written = written + take;
                    if take < clen {
                        self.leftover = Some(Leftover { chunk, offset: take });
                        proof {
                            assert(written == n);
                            let supply = supply0 + chunk@;
                            assert(out@.take(written as int) =~= supply.take(written as int));
                            assert(carry_rest(self.leftover) =~= supply.skip(written as int));
                        }
                    } else {
                        proof {
                            let supply = supply0 + chunk@;
                            assert(take == clen);
                            assert(written == supply.len());
                            assert(out@.take(written as int) =~= supply.take(written as int));
                            assert(carry_rest(self.leftover) =~= supply.skip(written as int));
                        }
                    }
                },
                None => {
                    break ;
                },
            }
        }
        let ghost wmid = written as int;
        let ghost out_mid = out@;
        while written < n
            invariant
                n == out@.len(),
                n == out_mid.len(),
                0 <= wmid <= written,
                written <= n,
                forall|i: int| 0 <= i < wmid ==> out@[i] == out_mid[i],
                forall|i: int| wmid <= i < written ==> out@[i] == 0u32,
            decreases n - written,
        {
            let ghost prev = out@;
            out.set(written, 0);
            proof {
                assert forall|i: int| wmid <= i < written + 1 implies out@[i] == 0u32 by {
                    assert(out@ == prev.update(written as int, 0u32));
                    assert(out@[i] == prev.update(written as int, 0u32)[i]);
                    if i < written {
                        assert(prev[i] == 0u32);
                    }
                }
            }
            written = written + 1;
        }
        proof {
            let supply = carry_rest(old_lo) + chunks.flatten();
            assert(out@.take(wmid) =~= out_mid.take(wmid));
            assert(forall|i: int| 0 <= i < wmid ==> out@[i] == out_mid[i]);
            assert(forall|i: int| 0 <= i < wmid ==> out_mid[i] == out_mid.take(wmid)[i]);
            assert(forall|i: int| 0 <= i < wmid ==> supply[i] == supply.take(wmid)[i]);
            assert(forall|i: int| 0 <= i < wmid ==> out@[i] == supply[i]);
            if supply.len() >= n {
                assert(wmid == n as int);
                assert(out@ =~= supply.take(n as int));
            } else {
                assert(wmid == supply.len());
                assert(forall|i: int| wmid <= i < n ==> out@[i] == 0u32);
                assert(out@ =~= supply + silence((n - supply.len()) as nat));
                assert(carry_rest(self.leftover) =~= Seq::<u32>::empty());
                if self.leftover is Some {
                    assert(carry_rest(self.leftover).len() > 0);
                }
            }
            assert(fill_post(old_lo, chunks, n as nat, out@, self.leftover));
        }
    }
}

/// Open the playback engine's queue: a producer handle for sample sources
/// and the consumer state for the hardware output callback. The queue holds
/// at most `QUEUE_CAPACITY` chunks.
pub fn open_playback() -> (r: (PlaybackHandle, PlaybackConsumer))
    ensures
        r.1.wf(),
        r.1.carry() is None,
{
    let (tx, rx) = bounded_chunk_channel(QUEUE_CAPACITY);
    (PlaybackHandle { tx }, PlaybackConsumer { rx, leftover: None })
}

} // verus!
