//! Streams of images, and the buffer that starts several loads ahead of the one that is awaited.

use std::collections::VecDeque;
use vstd::prelude::*;

verus! {

/// A stream hands out one future after the other. The future does not borrow from the stream, so
/// several of them can run at once.
pub trait AsyncStream: Sized {
    /// What a future of this stream ends with.
    type Item;

    /// The work that the stream hands out.
    type Future;

    /// The futures that the stream has not handed out yet, in order.
    spec fn pending(&self) -> Seq<Self::Future>;

    /// Hands out the next future; `None` once all have been handed out.
    fn next(&mut self) -> (r: Option<Self::Future>)
        ensures
            old(self).pending().len() == 0 ==> r is None && final(self).pending() == old(
                self,
            ).pending(),
            old(self).pending().len() > 0 ==> r == Some(old(self).pending()[0])
                && final(self).pending() == old(self).pending().skip(1),
    ;

    /// A lower and an upper bound on the number of futures still to come.
    fn size_hint(&self) -> (r: (usize, Option<usize>))
        ensures
            r.0 <= self.pending().len(),
            r.1 matches Some(n) ==> self.pending().len() <= n,
        default_ensures
            r == (0usize, None::<usize>),
    {
        (0, None)
    }
}

/// A stream whose futures are started ahead of time, so that at most `max` of them run at once,
/// and handed out in the order of the inner stream. `H` is the handle of a started future.
pub struct Buffered<St: AsyncStream, H> {
    stream: Option<St>,
    queue: VecDeque<H>,
    max: usize,
}

impl<St: AsyncStream, H> Buffered<St, H> {
    /// The futures that have not been started yet.
    pub closed spec fn waiting(&self) -> Seq<St::Future> {
        match self.stream {
            Some(st) => st.pending(),
            None => Seq::empty(),
        }
    }

    /// The handles of the futures that have been started and not been handed out, in order.
    pub closed spec fn started(&self) -> Seq<H> {
        self.queue@
    }

    /// The number of futures that may run at once.
    pub closed spec fn limit(&self) -> nat {
        self.max as nat
    }

    /// The stream has said that nothing is left. It is then dropped, so it cannot be asked again.
    pub closed spec fn ended(&self) -> bool {
        self.stream is None
    }

    /// At least one future may run, and no more run than may.
    pub open spec fn wf(&self) -> bool {
        &&& self.limit() > 0
        &&& self.started().len() <= self.limit()
    }

    /// A buffer over `stream` of which nothing has been started.
    pub fn new(stream: St, buffer_size: usize) -> (r: Self)
        requires
            buffer_size > 0,
        ensures
            r.wf(),
            r.limit() == buffer_size,
            r.started() == Seq::<H>::empty(),
            r.waiting() == stream.pending(),
            !r.ended(),
    {
        Buffered { stream: Some(stream), queue: VecDeque::new(), max: buffer_size }
    }

    /// Starts waiting futures until `max` of them run or none is left, then hands out the handle
    /// of the one that was started first.
    pub fn next<F: Fn(St::Future) -> H>(&mut self, spawn: F) -> (r: Option<H>)
        requires
            old(self).wf(),
            forall|f: St::Future| #[trigger] call_requires(spawn, (f,)),
        ensures
            final(self).wf(),
            advances(spawn, *old(self), r, *final(self)),
            ends(*old(self), *final(self)),
    {
        let ghost all = self.waiting();
        let ghost before = self.queue@;
        let ghost mut fresh: Seq<H> = Seq::empty();
        let ghost mut k: int = 0;
        assert(all.skip(0) =~= all);
        assert(before + fresh =~= before);
        loop
            invariant_except_break
                self.ended() ==> old(self).ended(),
            invariant
                self.max == old(self).max,
                all == old(self).waiting(),
                before == old(self).started(),
                old(self).ended() ==> self.ended(),
                self.max > 0,
                self.queue.len() <= self.max,
                0 <= k <= all.len(),
                k == fresh.len(),
                self.waiting() == all.skip(k),
                self.queue@ == before + fresh,
                spawned(spawn, all.take(k), fresh),
                forall|f: St::Future| #[trigger] call_requires(spawn, (f,)),
            ensures
                self.queue.len() == self.max || k == all.len(),
                self.max == old(self).max,
                before == old(self).started(),
                self.queue@ == before + fresh,
                k == fresh.len(),
                self.queue.len() < self.max ==> self.ended(),
                old(self).ended() ==> self.ended(),
                self.ended() ==> old(self).ended() || self.queue.len() < self.max,
            decreases self.max - self.queue.len(),
        {
            if self.queue.len() >= self.max {
                break;
            }
            let pulled = match &mut self.stream {
                Some(st) => st.next(),
                None => {
                    assert(all.skip(k).len() == 0);
                    break;
                },
            };
            match pulled {
                Some(future) => {
                    assert(future == all.skip(k)[0]);
                    let handle = spawn(future);
                    proof {
                        assert(all.skip(k).skip(1) =~= all.skip(k + 1));
                        assert((before + fresh).push(handle) =~= before + fresh.push(handle));
                        assert(all.take(k + 1) =~= all.take(k).push(all[k]));
                        fresh = fresh.push(handle);
                        k = k + 1;
                    }
                    self.queue.push_back(handle);
                },
                None => {
                    self.stream = None;
                    assert(all.skip(k).len() == 0);
                    assert(self.waiting() =~= all.skip(k));
                    break;
                },
            }
        }
        let ghost full = self.queue@;
        let r = self.queue.pop_front();
        proof {
            assert(spawned(spawn, all.take(k), fresh));
            assert(k == room(*old(self)));
            if full.len() > 0 {
                assert(self.queue@ =~= full.skip(1));
            }
            assert(handed_out(full, r, self.queue@));
        }
        r
    }
}

/// How many futures a buffer starts when it is asked for the next one.
pub open spec fn room<St: AsyncStream, H>(b: Buffered<St, H>) -> int {
    let free = b.limit() - b.started().len();
    if free <= b.waiting().len() {
        free
    } else {
        b.waiting().len() as int
    }
}

/// Whether the stream of a buffer has ended: it stays so, and it becomes so in a call that has room
/// for more futures than the stream has left, and in no other.
pub open spec fn ends<St: AsyncStream, H>(before: Buffered<St, H>, after: Buffered<St, H>) -> bool {
    after.ended() <==> before.ended() || before.limit() - before.started().len()
        > before.waiting().len()
}

/// What asking the buffer `before` for its next future does: it starts as many waiting futures as
/// it has room for, and hands out the oldest handle.
pub open spec fn advances<St: AsyncStream, H, F: Fn(St::Future) -> H>(
    spawn: F,
    before: Buffered<St, H>,
    r: Option<H>,
    after: Buffered<St, H>,
) -> bool {
    let n = room(before);
    &&& after.limit() == before.limit()
    &&& after.waiting() == before.waiting().skip(n)
    &&& exists|h: Seq<H>| #[trigger]
        spawned(spawn, before.waiting().take(n), h) && handed_out(
            before.started() + h,
            r,
            after.started(),
        )
}

/// `handles` are what `spawn` gave for `futures`, one for one.
pub open spec fn spawned<A, H, F: Fn(A) -> H>(spawn: F, futures: Seq<A>, handles: Seq<H>) -> bool {
    &&& futures.len() == handles.len()
    &&& forall|i: int|
        0 <= i < futures.len() ==> call_ensures(spawn, (#[trigger] futures[i],), handles[i])
}

/// The first of `queue` is handed out, and `rest` is what stays.
pub open spec fn handed_out<H>(queue: Seq<H>, r: Option<H>, rest: Seq<H>) -> bool {
    if queue.len() == 0 {
        r is None && rest == queue
    } else {
        r == Some(queue[0]) && rest == queue.skip(1)
    }
}

/// The smaller of two numbers.
pub open spec fn least(a: int, b: int) -> int {
    if a <= b {
        a
    } else {
        b
    }
}

/// A buffer over a stream of `n` futures that has been asked `k` times, where `calls[i]` is the buffer
/// before call `i`, counted from 0, and `results[i]` what that call gave: it has started the first
/// `k - 1 + max` futures, or all if there are fewer, and call `k` gives a handle exactly if `k` is at
/// most `n`.
pub proof fn buffering_runs_ahead<St: AsyncStream, H, F: Fn(St::Future) -> H>(
    spawn: F,
    calls: Seq<Buffered<St, H>>,
    results: Seq<Option<H>>,
    k: int,
)
    requires
        1 <= k <= results.len(),
        calls.len() == results.len() + 1,
        calls[0].wf(),
        calls[0].started().len() == 0,
        forall|i: int|
            0 <= i < results.len() ==> advances(
                spawn,
                #[trigger] calls[i],
                results[i],
                calls[i + 1],
            ),
    ensures
        ({
            let n = calls[0].waiting().len() as int;
            let max = calls[0].limit() as int;
            let begun = least(n, k - 1 + max);
            &&& calls[k].limit() == max
            &&& calls[k].waiting() == calls[0].waiting().skip(begun)
            &&& calls[k].started().len() == begun - least(n, k)
            &&& results[k - 1] is Some <==> k <= n
        }),
    decreases k,
{
    let n = calls[0].waiting().len() as int;
    let max = calls[0].limit() as int;
    let before = calls[k - 1];
    let w = before.waiting();
    assert(calls[0].waiting().skip(0) =~= calls[0].waiting());
    if k > 1 {
        buffering_runs_ahead(spawn, calls, results, k - 1);
    }
    assert(advances(spawn, calls[k - 1], results[k - 1], calls[k - 1 + 1]));
    let m = room(before);
    let h = choose|h: Seq<H>| #[trigger]
        spawned(spawn, w.take(m), h) && handed_out(
            before.started() + h,
            results[k - 1],
            calls[k].started(),
        );
    assert(h.len() == m);
    let begun = if k > 1 {
        least(n, k - 2 + max)
    } else {
        0
    };
    assert(w == calls[0].waiting().skip(begun));
    assert(calls[0].waiting().skip(begun).skip(m) =~= calls[0].waiting().skip(begun + m));
}

/// Everything that a buffer will hand out, where `spawn` gives the handle `g(f)` for a future `f`.
pub open spec fn outlook<St: AsyncStream, H>(b: Buffered<St, H>, g: spec_fn(St::Future) -> H) -> Seq<
    H,
> {
    b.started() + b.waiting().map_values(g)
}

/// A buffer hands out the futures of its stream in the order of the stream, leaves none out, and
/// ends where the stream ends.
pub proof fn buffering_keeps_order<St: AsyncStream, H, F: Fn(St::Future) -> H>(
    spawn: F,
    g: spec_fn(St::Future) -> H,
    before: Buffered<St, H>,
    r: Option<H>,
    after: Buffered<St, H>,
)
    requires
        before.wf(),
        advances(spawn, before, r, after),
        forall|f: St::Future, h: H| #[trigger] call_ensures(spawn, (f,), h) ==> h == g(f),
    ensures
        handed_out(outlook(before, g), r, outlook(after, g)),
{
    let n = room(before);
    let w = before.waiting();
    let h = choose|h: Seq<H>| #[trigger]
        spawned(spawn, w.take(n), h) && handed_out(before.started() + h, r, after.started());
    assert forall|i: int| 0 <= i < n implies h[i] == g(w[i]) by {
        assert(w.take(n)[i] == w[i]);
        assert(call_ensures(spawn, (w.take(n)[i],), h[i]));
    }
    let q = before.started() + h;
    assert(outlook(before, g) =~= q + w.skip(n).map_values(g));
    if q.len() > 0 {
        assert(outlook(after, g) =~= outlook(before, g).skip(1));
    } else {
        assert(w.skip(n).len() == 0);
        assert(outlook(after, g) =~= outlook(before, g));
    }
}

/// What is handed out is what waits longest, and nothing is handed out where nothing waits.
pub proof fn the_oldest_is_handed_out<H>(queue: Seq<H>, r: Option<H>, rest: Seq<H>)
    requires
        handed_out(queue, r, rest),
    ensures
        queue.len() == 0 ==> r is None && rest.len() == 0,
        queue.len() > 0 ==> r == Some(queue.first()) && queue == seq![queue.first()] + rest,
{
    if queue.len() > 0 {
        assert(queue =~= seq![queue.first()] + rest);
    }
}

/// The handles come in the order of the futures of the stream: call `k` gives that of future `k`, counted
/// from 1, and none is given twice or left out.
pub proof fn handles_come_in_order<St: AsyncStream, H, F: Fn(St::Future) -> H>(
    spawn: F,
    g: spec_fn(St::Future) -> H,
    calls: Seq<Buffered<St, H>>,
    results: Seq<Option<H>>,
    k: int,
)
    requires
        1 <= k <= results.len(),
        calls.len() == results.len() + 1,
        calls[0].wf(),
        calls[0].started().len() == 0,
        forall|i: int|
            0 <= i < results.len() ==> advances(
                spawn,
                #[trigger] calls[i],
                results[i],
                calls[i + 1],
            ),
        forall|f: St::Future, h: H| #[trigger] call_ensures(spawn, (f,), h) ==> h == g(f),
    ensures
        k <= calls[0].waiting().len() ==> results[k - 1] == Some(g(calls[0].waiting()[k - 1])),
        k > calls[0].waiting().len() ==> results[k - 1] is None,
{
    lemma_outlook(spawn, g, calls, results, k - 1);
    let all = calls[0].waiting().map_values(g);
    buffering_runs_ahead(spawn, calls, results, k);
    if k > 1 {
        buffering_runs_ahead(spawn, calls, results, k - 1);
    }
    assert(advances(spawn, calls[k - 1], results[k - 1], calls[k - 1 + 1]));
    if k <= calls[0].waiting().len() {
        buffering_keeps_order(spawn, g, calls[k - 1], results[k - 1], calls[k]);
        assert(outlook(calls[k - 1], g)[0] == all[k - 1]);
    }
}

proof fn lemma_outlook<St: AsyncStream, H, F: Fn(St::Future) -> H>(
    spawn: F,
    g: spec_fn(St::Future) -> H,
    calls: Seq<Buffered<St, H>>,
    results: Seq<Option<H>>,
    k: int,
)
    requires
        0 <= k <= results.len(),
        calls.len() == results.len() + 1,
        calls[0].wf(),
        calls[0].started().len() == 0,
        forall|i: int|
            0 <= i < results.len() ==> advances(
                spawn,
                #[trigger] calls[i],
                results[i],
                calls[i + 1],
            ),
        forall|f: St::Future, h: H| #[trigger] call_ensures(spawn, (f,), h) ==> h == g(f),
    ensures
        calls[k].wf(),
        k <= calls[0].waiting().len() ==> outlook(calls[k], g) == calls[0].waiting().map_values(g).skip(
            k,
        ),
    decreases k,
{
    let all = calls[0].waiting().map_values(g);
    if k > 0 {
        lemma_outlook(spawn, g, calls, results, k - 1);
        buffering_runs_ahead(spawn, calls, results, k);
        assert(advances(spawn, calls[k - 1], results[k - 1], calls[k - 1 + 1]));
        buffering_keeps_order(spawn, g, calls[k - 1], results[k - 1], calls[k]);
        if k <= calls[0].waiting().len() {
            assert(all.skip(k - 1).skip(1) =~= all.skip(k));
        }
    } else {
        assert(outlook(calls[0], g) =~= all.skip(0));
    }
}

/// A buffer starts futures until so many run as may, or none is left. A stream that has ended is not asked
/// again; it is found to have ended where a call has room for more futures than it has left.
pub proof fn buffers_are_kept_full<St: AsyncStream, H, F: Fn(St::Future) -> H>(
    spawn: F,
    before: Buffered<St, H>,
    r: Option<H>,
    after: Buffered<St, H>,
)
    requires
        before.wf(),
        advances(spawn, before, r, after),
        ends(before, after),
    ensures
        after.limit() == before.limit(),
        after.waiting().len() > 0 ==> after.started().len() == before.limit() - 1 && r is Some,
        after.waiting().len() == 0 ==> after.started().len() + (if r is Some {
            1int
        } else {
            0int
        }) == before.started().len() + before.waiting().len(),
        before.ended() ==> after.ended(),
        after.ended() && !before.ended() <==> !before.ended() && before.limit()
            > before.started().len() + before.waiting().len(),
{
    let n = room(before);
    let h = choose|h: Seq<H>| #[trigger]
        spawned(spawn, before.waiting().take(n), h) && handed_out(
            before.started() + h,
            r,
            after.started(),
        );
    assert(h.len() == n);
}

} // verus!
