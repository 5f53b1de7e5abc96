//! The sample-handling state of an RTL-SDR USB dongle.
//!
//! The device itself is reached through its native library by the program
//! that drives it; this module holds what that program reads and decides:
//! the queue that the asynchronous reader offloads chunks of samples into,
//! with its backlog limit, whether the device is read asynchronously, how a
//! request for an amount of samples is served, and how raw bytes become
//! signed complex samples.
use vstd::prelude::*;
use crate::dsp::block::{lemma_flatten_push, ComplexI8, SourceAmount};

verus! {

/// One raw sample byte as the dongle delivers it: an unsigned value with its
/// zero level at 128.
pub type SAMPLE = u8;

/// The bytes that the dongle reads in one synchronous read when the optimal
/// amount is asked for.
pub const OPTIMAL_SYNC_READ: usize = 8192;

/// The bytes at the front of `q` that fit into `room` bytes, taken the way
/// an asynchronous read takes them: whole chunks while they fit, then the
/// part of the first chunk that does not fit that fills `room` exactly. The
/// second component is what remains queued: the rest of a split chunk in
/// front of the untouched chunks behind it.
pub open spec fn take_front(q: Seq<Seq<u8>>, room: nat) -> (Seq<u8>, Seq<Seq<u8>>)
    decreases q.len(),
{
    if q.len() == 0 {
        (Seq::empty(), q)
    } else if q[0].len() > room {
        (q[0].take(room as int), seq![q[0].skip(room as int)] + q.drop_first())
    } else {
        let rest = take_front(q.drop_first(), (room - q[0].len()) as nat);
        (q[0] + rest.0, rest.1)
    }
}

/// Taking from the front of the queue loses and invents no byte: the bytes
/// taken, followed by the bytes that remain queued, are the bytes that were
/// queued.
pub proof fn lemma_take_front_conserves(q: Seq<Seq<u8>>, room: nat)
    ensures
        take_front(q, room).0 + take_front(q, room).1.flatten() == q.flatten(),
    decreases q.len(),
{
    if q.len() == 0 {
        assert(take_front(q, room).0 + take_front(q, room).1.flatten() =~= q.flatten());
    } else if q[0].len() > room {
        let r = seq![q[0].skip(room as int)] + q.drop_first();
        assert(r.drop_first() =~= q.drop_first());
        assert(r.flatten() == q[0].skip(room as int) + q.drop_first().flatten());
        assert(q[0].take(room as int) + q[0].skip(room as int) =~= q[0]);
        assert(take_front(q, room).0 + take_front(q, room).1.flatten() =~= q.flatten());
    } else {
        lemma_take_front_conserves(q.drop_first(), (room - q[0].len()) as nat);
        assert(take_front(q, room).0 + take_front(q, room).1.flatten() =~= q.flatten());
    }
}

/// Taking from the front of the queue keeps chunk boundaries: for some `k`,
/// either every chunk fits (all bytes taken, nothing left), or the chunks
/// before `k` are taken whole, chunk `k` is split after the `r` bytes that
/// fill the room, and what remains queued is the rest of chunk `k` followed
/// by exactly the chunks behind it, unchanged.
pub proof fn lemma_take_front_keeps_chunks(q: Seq<Seq<u8>>, room: nat) -> (k: int)
    ensures
        0 <= k <= q.len(),
        k == q.len() ==> q.flatten().len() <= room
            && take_front(q, room).0 == q.flatten()
            && take_front(q, room).1 == Seq::<Seq<u8>>::empty(),
        k < q.len() ==> {
            let r = room - q.take(k).flatten().len();
            &&& 0 <= r < q[k].len()
            &&& take_front(q, room).0 == q.take(k).flatten() + q[k].take(r)
            &&& take_front(q, room).1 == seq![q[k].skip(r)] + q.skip(k + 1)
        },
    decreases q.len(),
{
    if q.len() == 0 {
        assert(q.take(0) =~= Seq::<Seq<u8>>::empty());
        0
    } else if q[0].len() > room {
        assert(q.take(0) =~= Seq::<Seq<u8>>::empty());
        assert(q.take(0).flatten() == Seq::<u8>::empty());
        assert(q.skip(1) =~= q.drop_first());
        assert(take_front(q, room).0 =~= q.take(0).flatten() + q[0].take(room as int));
        0
    } else {
        let t = q.drop_first();
        let room2 = (room - q[0].len()) as nat;
        let k2 = lemma_take_front_keeps_chunks(t, room2);
        let k = k2 + 1;
        assert(q.take(k).drop_first() =~= t.take(k2));
        assert(q.take(k).first() == q[0]);
        assert(q.take(k).flatten() == q[0] + t.take(k2).flatten());
        assert(q.flatten() == q[0] + t.flatten());
        if k2 < t.len() {
            assert(q.skip(k + 1) =~= t.skip(k2 + 1));
            assert(q[k] == t[k2]);
            let r = room - q.take(k).flatten().len();
            assert(take_front(q, room).0 =~= q.take(k).flatten() + q[k].take(r));
        }
        k
    }
}

/// The bytes taken from the front of the queue are exactly the first
/// `room` queued bytes, or all of them where fewer are queued.
pub proof fn lemma_take_front_prefix(q: Seq<Seq<u8>>, room: nat)
    ensures
        take_front(q, room).0 == q.flatten().take(
            if room < q.flatten().len() { room as int } else { q.flatten().len() as int },
        ),
    decreases q.len(),
{
    if q.len() == 0 {
        assert(take_front(q, room).0 =~= q.flatten().take(0));
    } else if q[0].len() > room {
        assert(q.flatten() == q[0] + q.drop_first().flatten());
        assert(take_front(q, room).0 =~= q.flatten().take(room as int));
    } else {
        let rest = (room - q[0].len()) as nat;
        lemma_take_front_prefix(q.drop_first(), rest);
        let f = q.drop_first().flatten();
        assert(q.flatten() == q[0] + f);
        let k: int = if rest < f.len() { rest as int } else { f.len() as int };
        assert(q[0] + f.take(k) =~= (q[0] + f).take(q[0].len() + k));
    }
}

/// The signed complex samples that the bytes `b` hold: each pair of bytes
/// is one sample, in-phase first, each byte moved down by 128 so that the
/// zero level is 0. A trailing odd byte holds no sample.
pub open spec fn centred_samples(b: Seq<u8>) -> Seq<ComplexI8> {
    Seq::new(
        b.len() / 2,
        |i: int| ComplexI8 { re: (b[2 * i] - 128) as i8, im: (b[2 * i + 1] - 128) as i8 },
    )
}

/// Each centred sample part is its byte less 128, with no wrap-around: the
/// unsigned bytes 0 to 255 become the signed values -128 to 127.
pub proof fn lemma_centred_exact(b: Seq<u8>, i: int)
    requires
        0 <= i < b.len() / 2,
    ensures
        centred_samples(b)[i].re == b[2 * i] - 128,
        centred_samples(b)[i].im == b[2 * i + 1] - 128,
{
}

/// Each pair of bytes makes exactly one sample: there are as many samples
/// as whole pairs of bytes, and no more.
pub proof fn lemma_centred_count(b: Seq<u8>)
    ensures
        centred_samples(b).len() == b.len() / 2,
        centred_samples(b).len() * 2 <= b.len() < centred_samples(b).len() * 2 + 2,
{
}

/// How a request for samples is served.
pub enum SourceRead {
    /// The samples, taken from the asynchronous offload queue.
    Ready(Vec<ComplexI8>),
    /// The device must be read synchronously for at most this many bytes;
    /// `samples_from_bytes` turns what it delivers into samples.
    Sync(usize),
}

/// The signed complex samples that the raw bytes hold: each pair of bytes
/// is one sample, each byte moved down by 128. A trailing odd byte is
/// dropped.
pub fn samples_from_bytes(bytes: Vec<SAMPLE>) -> (out: Vec<ComplexI8>)
    ensures
        out@ == centred_samples(bytes@),
        out@.len() == bytes@.len() / 2,
        forall|i: int|
            0 <= i < out@.len() ==> #[trigger] out@[i].re == bytes@[2 * i] - 128
                && out@[i].im == bytes@[2 * i + 1] - 128,
{
    let len = bytes.len();
    let n = len / 2;
    let mut out: Vec<ComplexI8> = Vec::new();
    let mut i: usize = 0;
    while i < n
        invariant
            len == bytes@.len(),
            n == len / 2,
            i <= n,
            out@ =~= centred_samples(bytes@).take(i as int),
        decreases n - i,
    {
        assert(2 * i + 1 < bytes@.len()) by (nonlinear_arith)
            requires
                i < n,
                n == len / 2,
                len == bytes@.len(),
        ;
        let re = (bytes[2 * i] as i16 - 128) as i8;
        let im = (bytes[2 * i + 1] as i16 - 128) as i8;
        out.push(ComplexI8 { re: re, im: im });
        i = i + 1;
    }
    out
}

/// The state of one RTL-SDR dongle that its reader shares with its user.
pub struct USB {
    index: u32,
    /// Chunks offloaded by the asynchronous reader, oldest first, waiting
    /// to be moved to a more permanent place.
    offload: Vec<Vec<SAMPLE>>,
    /// The maximum number of samples that may be offloaded.
    offloadmaxcnt: usize,
    /// The number of samples currently offloaded.
    offloadcurcnt: usize,
    /// 0 while the asynchronous reader runs, 1 once it has stopped or when
    /// there is none.
    offloadcomm: usize,
}

impl USB {
    /// The device index that the state belongs to.
    pub closed spec fn index(&self) -> u32 {
        self.index
    }

    /// The offloaded chunks, oldest first.
    pub closed spec fn queue(&self) -> Seq<Seq<u8>> {
        self.offload@.map_values(|c: Vec<u8>| c@)
    }

    /// The limit on offloaded samples.
    pub closed spec fn maxcnt(&self) -> nat {
        self.offloadmaxcnt as nat
    }

    /// The number of samples currently offloaded.
    pub closed spec fn curcnt(&self) -> nat {
        self.offloadcurcnt as nat
    }

    /// The reader communication word: 0 while an asynchronous reader runs.
    pub closed spec fn comm(&self) -> nat {
        self.offloadcomm as nat
    }

    /// The bytes waiting in the queue, in order.
    pub open spec fn queued_bytes(&self) -> Seq<u8> {
        self.queue().flatten()
    }

    /// Well-formedness: the count of offloaded samples is the number of
    /// bytes in the queue, and it is no more than the limit.
    pub open spec fn wf(&self) -> bool {
        &&& self.queued_bytes().len() == self.curcnt()
        &&& self.curcnt() <= self.maxcnt()
    }

    /// Whether the states `a` and `b` agree on the device index, the limit
    /// and the reader communication word.
    pub open spec fn same_settings(a: &USB, b: &USB) -> bool {
        &&& a.index() == b.index()
        &&& a.maxcnt() == b.maxcnt()
        &&& a.comm() == b.comm()
    }

    /// The offload backlog never holds more samples than its limit.
    pub proof fn lemma_backlog_bounded(&self)
        requires
            self.wf(),
        ensures
            self.queued_bytes().len() <= self.maxcnt(),
    {
    }

    /// The state of device `index` when it has just been opened. A nonzero
    /// `asyncmemsize` asks for asynchronous reading with a backlog of at
    /// most that many samples; zero asks for synchronous reading.
    pub fn new(index: u32, asyncmemsize: usize) -> (r: USB)
        ensures
            r.wf(),
            r.index() == index,
            r.queue() == Seq::<Seq<u8>>::empty(),
            r.maxcnt() == asyncmemsize,
            r.curcnt() == 0,
            r.comm() == (if asyncmemsize > 0 { 0nat } else { 1nat }),
    {
        let r = USB {
            index: index,
            offload: Vec::new(),
            offloadmaxcnt: asyncmemsize,
            offloadcurcnt: 0,
            offloadcomm: if asyncmemsize > 0 { 0 } else { 1 },
        };
        assert(r.queue() =~= Seq::<Seq<u8>>::empty());
        r
    }

    /// The device index.
    pub fn index_of(&self) -> (r: u32)
        ensures
            r == self.index(),
    {
        self.index
    }

    /// The limit on offloaded samples.
    pub fn offload_limit(&self) -> (r: usize)
        ensures
            r == self.maxcnt(),
    {
        self.offloadmaxcnt
    }

    /// The number of chunks waiting in the queue.
    pub fn pending_chunks(&self) -> (r: usize)
        ensures
            r == self.queue().len(),
    {
        self.offload.len()
    }

    /// Whether the device is read asynchronously, that is whether its
    /// asynchronous reader is still running.
    pub fn isasync(&self) -> (b: bool)
        ensures
            b == (self.comm() == 0),
    {
        if self.offloadcomm == 0 {
            true
        } else {
            false
        }
    }

    /// Offloads a chunk that the asynchronous reader received, unless that
    /// would take the offloaded samples past the limit: then the chunk is
    /// dropped, which keeps the backlog from growing without bound.
    pub fn offload_chunk(&mut self, chunk: Vec<SAMPLE>) -> (accepted: bool)
        requires
            old(self).wf(),
        ensures
            final(self).wf(),
            USB::same_settings(final(self), old(self)),
            accepted == (old(self).curcnt() + chunk@.len() <= old(self).maxcnt()),
            accepted ==> final(self).queue() == old(self).queue().push(chunk@),
            accepted ==> final(self).curcnt() == old(self).curcnt() + chunk@.len(),
            !accepted ==> final(self).queue() == old(self).queue(),
            !accepted ==> final(self).curcnt() == old(self).curcnt(),
    {
        let len = chunk.len();
        if len > self.offloadmaxcnt - self.offloadcurcnt {
            // Too large a backlog: the chunk is dropped.
            return false;
        }
        let ghost q0 = self.queue();
        let ghost c = chunk@;
        self.offloadcurcnt = self.offloadcurcnt + len;
        self.offload.push(chunk);
        proof {
            assert(self.queue() =~= q0.push(c));
            lemma_flatten_push(q0, c);
        }
        true
    }

    /// Takes the oldest offloaded chunk, whatever its size. This is likely
    /// what the reader received in a single USB transfer, and an efficient
    /// way to process the offload queue.
    pub fn asyncreadchunk(&mut self) -> (chunk: Vec<SAMPLE>)
        requires
            old(self).wf(),
            old(self).queue().len() > 0,
        ensures
            final(self).wf(),
            USB::same_settings(final(self), old(self)),
            final(self).curcnt() == old(self).curcnt() - chunk@.len(),
            chunk@ == old(self).queue()[0],
            final(self).queue() == old(self).queue().drop_first(),
            chunk@ + final(self).queued_bytes() == old(self).queued_bytes(),
    {
        let ghost q0 = self.queue();
        let chunk = self.offload.remove(0);
        proof {
            assert(self.queue() =~= q0.drop_first());
            assert(q0.flatten() == q0[0] + q0.drop_first().flatten());
        }
        self.offloadcurcnt = self.offloadcurcnt - chunk.len();
        chunk
    }

    /// Takes at most `maxcnt` samples from the front of the offload queue:
    /// whole chunks while they fit, then the part of the next chunk that
    /// fills `maxcnt` exactly, whose rest stays queued in front.
    pub fn asyncread(&mut self, maxcnt: usize) -> (out: Vec<SAMPLE>)
        requires
            old(self).wf(),
        ensures
            final(self).wf(),
            USB::same_settings(final(self), old(self)),
            out@ == take_front(old(self).queue(), maxcnt as nat).0,
            final(self).queue() == take_front(old(self).queue(), maxcnt as nat).1,
            out@ + final(self).queued_bytes() == old(self).queued_bytes(),
            final(self).curcnt() == old(self).curcnt() - out@.len(),
            final(self).queue().len() <= old(self).queue().len(),
            final(self).queue().len() > 0 ==> {
                let j = old(self).queue().len() - final(self).queue().len();
                &&& final(self).queue()[0].len() <= old(self).queue()[j].len()
                &&& final(self).queue()[0] == old(self).queue()[j].skip(
                    old(self).queue()[j].len() - final(self).queue()[0].len(),
                )
                &&& final(self).queue().drop_first() == old(self).queue().skip(j + 1)
            },
            out@ == old(self).queued_bytes().take(
                if maxcnt < old(self).queued_bytes().len() {
                    maxcnt as int
                } else {
                    old(self).queued_bytes().len() as int
                },
            ),
    {
        let ghost q0 = self.queue();
        let ghost s0 = *self;
        let mut out: Vec<u8> = Vec::new();
        let mut done = false;
        while !done && self.offload.len() > 0
            invariant
                out@.len() <= maxcnt,
                USB::same_settings(self, &s0),
                self.offloadcurcnt == s0.offloadcurcnt,
                done ==> out@ == take_front(q0, maxcnt as nat).0
                    && self.queue() == take_front(q0, maxcnt as nat).1,
                !done ==> take_front(q0, maxcnt as nat).0
                    == out@ + take_front(self.queue(), (maxcnt - out@.len()) as nat).0,
                !done ==> take_front(q0, maxcnt as nat).1
                    == take_front(self.queue(), (maxcnt - out@.len()) as nat).1,
            decreases self.offload@.len() + (if done { 0int } else { 1int }),
        {
            let ghost q = self.queue();
            let ghost room = (maxcnt - out@.len()) as nat;
            let mut first = self.offload.remove(0);
            proof {
                assert(self.queue() =~= q.drop_first());
            }
            if first.len() > maxcnt - out.len() {
                // Only take part of it, and then stop.
                let togo = maxcnt - out.len();
                let rest = first.split_off(togo);
                out.append(&mut first);
                let ghost rest_view = rest@;
                self.offload.insert(0, rest);
                proof {
                    assert(self.queue() =~= seq![rest_view] + q.drop_first());
                    assert(out@ =~= take_front(q0, maxcnt as nat).0);
                }
                done = true;
            } else {
                // Take it all.
                let ghost before = out@;
                out.append(&mut first);
                proof {
                    assert(out@ + take_front(self.queue(), (maxcnt - out@.len()) as nat).0
                        =~= before + take_front(q, room).0);
                }
            }
        }
        proof {
            if !done {
                assert(self.queue() =~= Seq::<Seq<u8>>::empty());
                assert(out@ =~= take_front(q0, maxcnt as nat).0);
            }
            lemma_take_front_conserves(q0, maxcnt as nat);
            lemma_take_front_prefix(q0, maxcnt as nat);
            let k = lemma_take_front_keeps_chunks(q0, maxcnt as nat);
            if k < q0.len() {
                let fq = take_front(q0, maxcnt as nat).1;
                assert(fq.drop_first() =~= q0.skip(k + 1));
                assert(fq.len() == q0.len() - k);
            }
        }
        self.offloadcurcnt = self.offloadcurcnt - out.len();
        out
    }

    /// Serves a request for samples. Asked for at most `cnt` samples, an
    /// asynchronous device takes up to `2 * cnt` bytes from its queue, and a
    /// synchronous one is to be read for that many bytes. Asked for the
    /// optimal amount, an asynchronous device takes its oldest chunk, and a
    /// synchronous one is to be read for `OPTIMAL_SYNC_READ` bytes. Reading
    /// until the end would never terminate, and reading at least an amount
    /// or between two amounts is not offered.
    pub fn read(&mut self, amount: SourceAmount) -> (r: SourceRead)
        requires
            old(self).wf(),
            match amount {
                SourceAmount::AtMost(cnt) => cnt * 2 <= usize::MAX,
                SourceAmount::Optimal => old(self).comm() == 0 ==> old(self).queue().len() > 0,
                _ => false,
            },
        ensures
            final(self).wf(),
            USB::same_settings(final(self), old(self)),
            match amount {
                SourceAmount::AtMost(cnt) => if old(self).comm() == 0 {
                    &&& r matches SourceRead::Ready(v)
                        && v@ == centred_samples(take_front(old(self).queue(), 2 * cnt as nat).0)
                    &&& final(self).queue() == take_front(old(self).queue(), 2 * cnt as nat).1
                } else {
                    &&& r matches SourceRead::Sync(n) && n == cnt * 2
                    &&& final(self).queue() == old(self).queue()
                },
                SourceAmount::Optimal => if old(self).comm() == 0 {
                    &&& r matches SourceRead::Ready(v)
                        && v@ == centred_samples(old(self).queue()[0])
                    &&& final(self).queue() == old(self).queue().drop_first()
                } else {
                    &&& r == SourceRead::Sync(OPTIMAL_SYNC_READ)
                    &&& final(self).queue() == old(self).queue()
                },
                _ => false,
            },
    {
        match amount {
            SourceAmount::AtMost(cnt) => {
                if self.isasync() {
                    let chunk = self.asyncread(cnt * 2);
                    SourceRead::Ready(samples_from_bytes(chunk))
                } else {
                    SourceRead::Sync(cnt * 2)
                }
            },
            SourceAmount::Optimal => {
                if self.isasync() {
                    let chunk = self.asyncreadchunk();
                    SourceRead::Ready(samples_from_bytes(chunk))
                } else {
                    SourceRead::Sync(OPTIMAL_SYNC_READ)
                }
            },
            _ => unreached(),
        }
    }

    /// Records that the asynchronous reader has stopped.
    pub fn async_finished(&mut self)
        requires
            old(self).wf(),
        ensures
            final(self).wf(),
            final(self).comm() == 1,
            final(self).index() == old(self).index(),
            final(self).queue() == old(self).queue(),
            final(self).maxcnt() == old(self).maxcnt(),
            final(self).curcnt() == old(self).curcnt(),
    {
        self.offloadcomm = 1;
    }
}

} // verus!
