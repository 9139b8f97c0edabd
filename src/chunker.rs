//! Byte-bounded chunking of one version's change records, with the span of
//! sequence numbers that each chunk accounts for.
use std::collections::VecDeque;
use vstd::prelude::*;

use crate::change::{usize_cap, Change, CrsqlSeq, CrsqlSeqRange};

verus! {

/// Default byte budget of a chunk sent over the network.
pub const MAX_CHANGES_BYTE_SIZE: usize = 8 * 1024;

/// A chunk as contracts see it: its records and the span it accounts for.
pub type ChunkSpec = (Seq<Change>, CrsqlSeqRange);

/// What a chunker holds, as contracts see it.
pub struct ChunkerState<E> {
    /// Items of the source not pulled yet, in order.
    pub pending: Seq<Result<Change, E>>,
    /// First sequence number of the next chunk.
    pub start: u64,
    /// Last sequence number of the whole span.
    pub last: u64,
    pub max_buf_size: nat,
    pub done: bool,
}

/// Sum of the estimated sizes of `rs`.
pub open spec fn records_size(rs: Seq<Change>) -> nat
    decreases rs.len(),
{
    if rs.len() == 0 {
        0
    } else {
        records_size(rs.drop_last()) + rs.last().estimated_size()
    }
}

/// The records carried by the first `n` items.
pub open spec fn records_of<E>(items: Seq<Result<Change, E>>, n: int) -> Seq<Change> {
    items.take(n).map_values(|x: Result<Change, E>| x->Ok_0)
}

/// A pull ends at item `k`: a fault, the span's last sequence number, or a
/// running size that has reached the budget.
pub open spec fn stops_at<E>(items: Seq<Result<Change, E>>, k: int, last: u64, max: nat) -> bool {
    match items[k] {
        Err(_) => true,
        Ok(c) => c.seq.0 == last || records_size(records_of(items, k + 1)) >= max,
    }
}

pub open spec fn is_first_stop<E>(items: Seq<Result<Change, E>>, k: int, last: u64, max: nat) -> bool {
    &&& 0 <= k < items.len()
    &&& stops_at(items, k, last, max)
    &&& forall|j: int| 0 <= j < k ==> !stops_at(items, j, last, max)
}

pub open spec fn seq_range(start: u64, end: u64) -> CrsqlSeqRange {
    CrsqlSeqRange { start: CrsqlSeq(start), end: CrsqlSeq(end) }
}

/// One pull: the chunker's next state and what the pull yields.
pub open spec fn chunk_step<E>(s: ChunkerState<E>) -> (ChunkerState<E>, Option<Result<ChunkSpec, E>>) {
    if s.done {
        (s, None)
    } else if exists|k: int| is_first_stop(s.pending, k, s.last, s.max_buf_size) {
        let k = choose|k: int| is_first_stop(s.pending, k, s.last, s.max_buf_size);
        let rest = s.pending.skip(k + 1);
        let finished = ChunkerState {
            pending: rest,
            start: s.start,
            last: s.last,
            max_buf_size: s.max_buf_size,
            done: true,
        };
        match s.pending[k] {
            Err(e) => (finished, Some(Err(e))),
            Ok(c) => if c.seq.0 == s.last || k + 1 == s.pending.len() {
                (finished, Some(Ok((records_of(s.pending, k + 1), seq_range(s.start, s.last)))))
            } else {
                (
                    ChunkerState {
                        pending: rest,
                        start: (c.seq.0 + 1) as u64,
                        last: s.last,
                        max_buf_size: s.max_buf_size,
                        done: false,
                    },
                    Some(Ok((records_of(s.pending, k + 1), seq_range(s.start, c.seq.0)))),
                )
            },
        }
    } else {
        (
            ChunkerState {
                pending: Seq::empty(),
                start: s.start,
                last: s.last,
                max_buf_size: s.max_buf_size,
                done: true,
            },
            Some(Ok((records_of(s.pending, s.pending.len() as int), seq_range(s.start, s.last)))),
        )
    }
}

/// What `next` returns, as contracts see it.
pub open spec fn chunk_view<E>(r: Option<Result<(Vec<Change>, CrsqlSeqRange), E>>) -> Option<Result<ChunkSpec, E>> {
    match r {
        None => None,
        Some(Ok((v, rg))) => Some(Ok((v@, rg))),
        Some(Err(e)) => Some(Err(e)),
    }
}

/// A chunk may end at any record but the span's last one, and the next chunk
/// then starts one past it: that start must fit in a `u64`.
pub open spec fn successor_fits<E>(items: Seq<Result<Change, E>>, last: u64) -> bool {
    forall|i: int|
        0 <= i < items.len() && (#[trigger] items[i]) is Ok ==> items[i]->Ok_0.seq.0 < u64::MAX
            || items[i]->Ok_0.seq.0 == last
}

proof fn lemma_first_stop_unique<E>(items: Seq<Result<Change, E>>, k1: int, k2: int, last: u64, max: nat)
    requires
        is_first_stop(items, k1, last, max),
        is_first_stop(items, k2, last, max),
    ensures
        k1 == k2,
{
    if k1 < k2 {
        assert(!stops_at(items, k1, last, max));
    } else if k2 < k1 {
        assert(!stops_at(items, k2, last, max));
    }
}

/// Pulls byte-bounded chunks of change records out of an ordered source.
pub struct ChunkedChanges<E> {
    iter: VecDeque<Result<Change, E>>,
    changes: Vec<Change>,
    last_pushed_seq: CrsqlSeq,
    last_start_seq: CrsqlSeq,
    last_seq: CrsqlSeq,
    max_buf_size: usize,
    buffered_size: usize,
    done: bool,
}

impl<E> View for ChunkedChanges<E> {
    type V = ChunkerState<E>;

    closed spec fn view(&self) -> ChunkerState<E> {
        ChunkerState {
            pending: self.iter@,
            start: self.last_start_seq.0,
            last: self.last_seq.0,
            max_buf_size: self.max_buf_size as nat,
            done: self.done,
        }
    }
}

impl<E> ChunkedChanges<E> {
    /// The accumulator is empty between pulls, and every start to come fits.
    pub closed spec fn wf(&self) -> bool {
        &&& self.changes@.len() == 0
        &&& successor_fits(self.iter@, self.last_seq.0)
    }

    pub fn new(iter: Vec<Result<Change, E>>, start_seq: CrsqlSeq, last_seq: CrsqlSeq, max_buf_size: usize) -> (r: Self)
        requires
            successor_fits(iter@, last_seq.0),
        ensures
            r.wf(),
            r@ == (ChunkerState {
                pending: iter@,
                start: start_seq.0,
                last: last_seq.0,
                max_buf_size: max_buf_size as nat,
                done: false,
            }),
    {
        let mut source = iter;
        let mut queue: VecDeque<Result<Change, E>> = VecDeque::new();
        loop
            invariant
                source@ + queue@ == iter@,
            ensures
                queue@ == iter@,
            decreases source@.len(),
        {
            match source.pop() {
                Some(x) => {
                    queue.push_front(x);
                    assert(source@ + queue@ =~= iter@);
                },
                None => {
                    assert(queue@ =~= iter@);
                    break;
                },
            }
        }
        ChunkedChanges {
            iter: queue,
            changes: Vec::new(),
            last_pushed_seq: CrsqlSeq(0),
            last_start_seq: start_seq,
            last_seq,
            max_buf_size,
            buffered_size: 0,
            done: false,
        }
    }

    pub fn max_buf_size(&self) -> (r: usize)
        ensures
            r == self@.max_buf_size,
    {
        self.max_buf_size
    }

    pub fn set_max_buf_size(&mut self, size: usize)
        requires
            old(self).wf(),
        ensures
            final(self).wf(),
            final(self)@ == (ChunkerState { max_buf_size: size as nat, ..old(self)@ }),
    {
        self.max_buf_size = size;
    }
}

impl<E> ChunkedChanges<E> {
    /// Pulls the next chunk. After the span's last chunk, or after a fault of
    /// the source, it yields `None` from then on.
    pub fn next(&mut self) -> (r: Option<Result<(Vec<Change>, CrsqlSeqRange), E>>)
        requires
            old(self).wf(),
        ensures
            final(self).wf(),
            (final(self)@, chunk_view(r)) == chunk_step(old(self)@),
    {
        if self.done {
            return None;
        }
        self.buffered_size = 0;
        let ghost p0 = self.iter@;
        let ghost last = self.last_seq.0;
        let ghost max = self.max_buf_size as nat;
        let ghost mut n: int = 0;
        assert(records_of(p0, 0) =~= Seq::<Change>::empty());
        loop
            invariant_except_break
                forall|j: int| 0 <= j < n ==> !stops_at(p0, j, last, max),
            invariant
                0 <= n <= p0.len(),
                self.iter@ == p0.skip(n),
                self.changes@ == records_of(p0, n),
                self.buffered_size == usize_cap(records_size(records_of(p0, n))),
                self.last_seq.0 == last,
                self.max_buf_size == max,
                self.last_start_seq == old(self).last_start_seq,
                !self.done,
                p0 == old(self)@.pending,
                last == old(self)@.last,
                max == old(self)@.max_buf_size,
                !old(self)@.done,
                successor_fits(p0, last),
            ensures
                ({
                    ||| n >= 1 && is_first_stop(p0, n - 1, last, max) && p0[n - 1] is Ok && (
                    p0[n - 1]->Ok_0.seq.0 == last || n == p0.len())
                    ||| n == p0.len() && forall|j: int| 0 <= j < n ==> !stops_at(p0, j, last, max)
                }),
            decreases p0.len() - n,
        {
            match self.iter.pop_front() {
                Some(Ok(change)) => {
                    let ghost pushed = change;
                    proof {
                        assert(p0[n] == Ok::<Change, E>(change));
                        assert(records_of(p0, n + 1).drop_last() =~= records_of(p0, n));
                        assert(records_of(p0, n + 1).last() == change);
                        n = n + 1;
                    }
                    self.last_pushed_seq = change.seq;
                    self.buffered_size = self.buffered_size.saturating_add(change.estimated_byte_size());
                    self.changes.push(change);
                    assert(self.changes@ =~= records_of(p0, n));
                    assert(self.iter@ =~= p0.skip(n));
                    if self.last_pushed_seq.0 == self.last_seq.0 {
                        break;
                    }
                    if self.buffered_size >= self.max_buf_size {
                        let start_seq = self.last_start_seq;
                        if self.iter.len() == 0 {
                            break;
                        }
                        self.last_start_seq = CrsqlSeq(self.last_pushed_seq.0 + 1);
                        let mut out: Vec<Change> = Vec::new();
                        std::mem::swap(&mut out, &mut self.changes);
                        let r = Some(Ok((out, CrsqlSeqRange::new(start_seq, self.last_pushed_seq))));
                        proof {
                            assert(is_first_stop(p0, n - 1, last, max));
                            let k = choose|k: int| is_first_stop(p0, k, last, max);
                            lemma_first_stop_unique(p0, k, n - 1, last, max);
                            assert(p0[n - 1] == Ok::<Change, E>(pushed));
                            assert(pushed.seq == self.last_pushed_seq);
                        }
                        return r;
                    }
                },
                None => {
                    break;
                },
                Some(Err(e)) => {
                    self.changes = Vec::new();
                    self.done = true;
                    proof {
                        assert(p0[n] == Err::<Change, E>(e));
                        assert(self.iter@ =~= p0.skip(n + 1));
                        assert(is_first_stop(p0, n, last, max));
                        let k = choose|k: int| is_first_stop(p0, k, last, max);
                        lemma_first_stop_unique(p0, k, n, last, max);
                    }
                    return Some(Err(e));
                },
            }
        }
        self.done = true;
        let mut out: Vec<Change> = Vec::new();
        std::mem::swap(&mut out, &mut self.changes);
        proof {
            if n >= 1 && is_first_stop(p0, n - 1, last, max) {
                let k = choose|k: int| is_first_stop(p0, k, last, max);
                lemma_first_stop_unique(p0, k, n - 1, last, max);
            } else {
                assert(self.iter@ =~= Seq::<Result<Change, E>>::empty());
            }
        }
        Some(Ok((out, CrsqlSeqRange::new(self.last_start_seq, self.last_seq))))
    }
}

/// Pulls up to `fuel` times, stopping at the first pull that yields nothing:
/// the state reached and what the pulls yielded, in order.
pub open spec fn drain<E>(s: ChunkerState<E>, fuel: nat) -> (ChunkerState<E>, Seq<Result<ChunkSpec, E>>)
    decreases fuel,
{
    if fuel == 0 {
        (s, Seq::empty())
    } else {
        match chunk_step(s).1 {
            None => (s, Seq::empty()),
            Some(x) => {
                let (u, rest) = drain(chunk_step(s).0, (fuel - 1) as nat);
                (u, seq![x] + rest)
            },
        }
    }
}

/// A fault-free source of records drawn from `[start, last]`, with strictly
/// increasing sequence numbers.
pub open spec fn sound_source<E>(items: Seq<Result<Change, E>>, start: u64, last: u64) -> bool {
    &&& start <= last
    &&& forall|i: int| 0 <= i < items.len() ==> (#[trigger] items[i]) is Ok
    &&& forall|i: int|
        0 <= i < items.len() ==> start <= (#[trigger] items[i])->Ok_0.seq.0 <= last
    &&& forall|i: int, j: int|
        0 <= i < j < items.len() ==> (#[trigger] items[i])->Ok_0.seq.0 < (#[trigger] items[j])->Ok_0.seq.0
}

/// `ranges` cover `[start, end]` in order, each one non-empty, with no gap
/// and no overlap.
pub open spec fn tiles(ranges: Seq<CrsqlSeqRange>, start: u64, end: u64) -> bool {
    &&& ranges.len() > 0
    &&& ranges[0].start.0 == start
    &&& ranges.last().end.0 == end
    &&& forall|i: int| 0 <= i < ranges.len() ==> (#[trigger] ranges[i]).start.0 <= ranges[i].end.0
    &&& forall|i: int|
        0 <= i < ranges.len() - 1 ==> (#[trigger] ranges[i + 1]).start.0 == ranges[i].end.0 + 1
}

/// The spans of a sequence of successful pulls.
pub open spec fn ranges_of<E>(outs: Seq<Result<ChunkSpec, E>>) -> Seq<CrsqlSeqRange> {
    outs.map_values(|x: Result<ChunkSpec, E>| x->Ok_0.1)
}

/// The records of a sequence of successful pulls, concatenated in order.
pub open spec fn emitted_records<E>(outs: Seq<Result<ChunkSpec, E>>) -> Seq<Change>
    decreases outs.len(),
{
    if outs.len() == 0 {
        Seq::empty()
    } else {
        outs[0]->Ok_0.0 + emitted_records(outs.drop_first())
    }
}

/// Every record of every chunk lies within that chunk's span.
pub open spec fn records_within_ranges<E>(outs: Seq<Result<ChunkSpec, E>>) -> bool {
    forall|i: int, j: int|
        0 <= i < outs.len() && 0 <= j < outs[i]->Ok_0.0.len() ==> outs[i]->Ok_0.1.start.0 <= (
        #[trigger] outs[i]->Ok_0.0[j]).seq.0 <= outs[i]->Ok_0.1.end.0
}

/// Once a chunker has finished, every further pull yields nothing and changes
/// nothing.
pub proof fn lemma_finished_stays_finished<E>(s: ChunkerState<E>)
    requires
        s.done,
    ensures
        chunk_step(s) == (s, None::<Result<ChunkSpec, E>>),
{
}

/// Pulling a fault-free source over `[start, last]` until it yields nothing:
/// every pull succeeds, the spans of the chunks tile `[start, last]` in order,
/// the chunks' records concatenated are exactly the source's records, each
/// record lies within its chunk's span, and the chunker ends finished.
pub proof fn lemma_drain_tiles_span_and_keeps_records<E>(s: ChunkerState<E>, fuel: nat)
    requires
        !s.done,
        sound_source(s.pending, s.start, s.last),
        fuel > s.pending.len(),
    ensures
        ({
            let (t, outs) = drain(s, fuel);
            &&& t.done
            &&& forall|i: int| 0 <= i < outs.len() ==> (#[trigger] outs[i]) is Ok
            &&& tiles(ranges_of(outs), s.start, s.last)
            &&& emitted_records(outs) == records_of(s.pending, s.pending.len() as int)
            &&& records_within_ranges(outs)
        }),
    decreases fuel,
{
    let p = s.pending;
    let (t1, o) = chunk_step(s);
    let (t, outs) = drain(s, fuel);
    if exists|k: int| is_first_stop(p, k, s.last, s.max_buf_size) {
        let k = choose|k: int| is_first_stop(p, k, s.last, s.max_buf_size);
        let c = p[k]->Ok_0;
        assert(p[k] is Ok);
        if c.seq.0 == s.last || k + 1 == p.len() {
            if k + 1 < p.len() {
                assert(p[k + 1]->Ok_0.seq.0 > c.seq.0);
                assert(p[k + 1]->Ok_0.seq.0 <= s.last);
            }
            assert(t1.done);
            lemma_finished_stays_finished(t1);
            assert(outs =~= seq![o.unwrap()]);
            assert(emitted_records(outs.drop_first()) == Seq::<Change>::empty());
            assert(records_of(p, k + 1) =~= records_of(p, p.len() as int));
            assert(emitted_records(outs) =~= records_of(p, p.len() as int));
            assert forall|i: int, j: int|
                0 <= i < outs.len() && 0 <= j < outs[i]->Ok_0.0.len() implies outs[i]->Ok_0.1.start.0
                <= (#[trigger] outs[i]->Ok_0.0[j]).seq.0 <= outs[i]->Ok_0.1.end.0 by {
                assert(outs[i]->Ok_0.0[j] == p[j]->Ok_0);
            }
        } else {
            let next_start = (c.seq.0 + 1) as u64;
            let rest = p.skip(k + 1);
            assert(t1.pending == rest && t1.start == next_start && !t1.done);
            assert(sound_source(rest, next_start, s.last)) by {
                assert forall|i: int| 0 <= i < rest.len() implies next_start <= (
                #[trigger] rest[i])->Ok_0.seq.0 by {
                    assert(rest[i] == p[i + k + 1]);
                    assert(p[k]->Ok_0.seq.0 < p[i + k + 1]->Ok_0.seq.0);
                }
                assert forall|i: int, j: int| 0 <= i < j < rest.len() implies (
                #[trigger] rest[i])->Ok_0.seq.0 < (#[trigger] rest[j])->Ok_0.seq.0 by {
                    assert(rest[i] == p[i + k + 1]);
                    assert(rest[j] == p[j + k + 1]);
                }
                assert(p[k + 1]->Ok_0.seq.0 <= s.last);
                assert(c.seq.0 < p[k + 1]->Ok_0.seq.0);
            }
            lemma_drain_tiles_span_and_keeps_records(t1, (fuel - 1) as nat);
            let (u, outs1) = drain(t1, (fuel - 1) as nat);
            assert(outs == seq![o.unwrap()] + outs1);
            assert(outs.drop_first() =~= outs1);
            let rs = ranges_of(outs);
            let rs1 = ranges_of(outs1);
            assert(rs =~= seq![seq_range(s.start, c.seq.0)] + rs1);
            assert(tiles(rs, s.start, s.last)) by {
                assert forall|i: int| 0 <= i < rs.len() - 1 implies (#[trigger] rs[i + 1]).start.0
                    == rs[i].end.0 + 1 by {
                    if i > 0 {
                        assert(rs[i] == rs1[i - 1]);
                        assert(rs[i + 1] == rs1[i]);
                    }
                }
                assert forall|i: int| 0 <= i < rs.len() implies (#[trigger] rs[i]).start.0
                    <= rs[i].end.0 by {
                    if i > 0 {
                        assert(rs[i] == rs1[i - 1]);
                    }
                }
            }
            assert forall|i: int| 0 <= i < outs.len() implies (#[trigger] outs[i]) is Ok by {
                if i > 0 {
                    assert(outs[i] == outs1[i - 1]);
                }
            }
            assert(records_of(p, k + 1) + records_of(rest, rest.len() as int) =~= records_of(
                p,
                p.len() as int,
            ));
            assert forall|i: int, j: int|
                0 <= i < outs.len() && 0 <= j < outs[i]->Ok_0.0.len() implies outs[i]->Ok_0.1.start.0
                <= (#[trigger] outs[i]->Ok_0.0[j]).seq.0 <= outs[i]->Ok_0.1.end.0 by {
                if i == 0 {
                    assert(outs[i]->Ok_0.0[j] == p[j]->Ok_0);
                    if j < k {
                        assert(p[j]->Ok_0.seq.0 < p[k]->Ok_0.seq.0);
                    }
                } else {
                    assert(outs[i] == outs1[i - 1]);
                    assert(outs1[i - 1]->Ok_0.0[j] == outs[i]->Ok_0.0[j]);
                }
            }
        }
    } else {
        assert forall|i: int| 0 <= i < p.len() implies !stops_at(p, i, s.last, s.max_buf_size) by {
            if stops_at(p, i, s.last, s.max_buf_size) {
                lemma_some_stop_gives_first(p, i, s.last, s.max_buf_size);
            }
        }
        if p.len() > 0 {
            assert(!stops_at(p, p.len() - 1, s.last, s.max_buf_size));
        }
        assert(t1.done);
        lemma_finished_stays_finished(t1);
        assert(outs =~= seq![o.unwrap()]);
        assert(emitted_records(outs.drop_first()) == Seq::<Change>::empty());
        assert(emitted_records(outs) =~= records_of(p, p.len() as int));
        assert forall|i: int, j: int|
            0 <= i < outs.len() && 0 <= j < outs[i]->Ok_0.0.len() implies outs[i]->Ok_0.1.start.0
            <= (#[trigger] outs[i]->Ok_0.0[j]).seq.0 <= outs[i]->Ok_0.1.end.0 by {
            assert(outs[i]->Ok_0.0[j] == p[j]->Ok_0);
        }
    }
}

proof fn lemma_some_stop_gives_first<E>(items: Seq<Result<Change, E>>, i: int, last: u64, max: nat)
    requires
        0 <= i < items.len(),
        stops_at(items, i, last, max),
    ensures
        exists|k: int| is_first_stop(items, k, last, max),
    decreases i,
{
    if forall|j: int| 0 <= j < i ==> !stops_at(items, j, last, max) {
        assert(is_first_stop(items, i, last, max));
    } else {
        let j = choose|j: int| 0 <= j < i && stops_at(items, j, last, max);
        lemma_some_stop_gives_first(items, j, last, max);
    }
}

} // verus!
