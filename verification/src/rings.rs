//! Bounded first-in-first-out buffers of samples.
use std::collections::VecDeque;
use vstd::prelude::*;

verus! {

/// The last `max` entries, or all when there are no more than that.
pub open spec fn keep_last<T>(s: Seq<T>, max: nat) -> Seq<T> {
    if s.len() > max {
        s.subrange(s.len() - max, s.len() as int)
    } else {
        s
    }
}

/// Drops entries from the front until at most `max` are left.
pub fn drop_oldest<T>(queue: &mut VecDeque<T>, max: usize)
    ensures
        final(queue)@ == keep_last(old(queue)@, max as nat),
{
    while queue.len() > max
        invariant
            queue@.len() <= old(queue)@.len(),
            queue@ == old(queue)@.subrange(
                old(queue)@.len() - queue@.len(),
                old(queue)@.len() as int,
            ),
            queue@.len() >= max || queue@ == old(queue)@,
        decreases queue@.len(),
    {
        let _ = queue.pop_front();
    }
}

/// Appends samples to a ring that holds at most `capacity` of them; the oldest
/// make room.
pub fn push_bounded<S: Copy>(ring: &mut VecDeque<S>, samples: &[S], capacity: usize)
    ensures
        final(ring)@ == keep_last(old(ring)@ + samples@, capacity as nat),
        final(ring)@.len() <= capacity,
{
    extend(ring, samples);
    drop_oldest(ring, capacity);
}

/// Appends samples to an unbounded queue.
pub fn extend<S: Copy>(queue: &mut VecDeque<S>, samples: &[S])
    ensures
        final(queue)@ == old(queue)@ + samples@,
{
    let mut i: usize = 0;
    while i < samples.len()
        invariant
            i <= samples@.len(),
            queue@ =~= old(queue)@ + samples@.take(i as int),
        decreases samples@.len() - i,
    {
        queue.push_back(samples[i]);
        i = i + 1;
    }
    assert(samples@.take(samples@.len() as int) =~= samples@);
}

/// Appends `n` copies of a value.
pub fn extend_with<S: Copy>(queue: &mut VecDeque<S>, x: S, n: usize)
    ensures
        final(queue)@ == old(queue)@ + Seq::new(n as nat, |i: int| x),
{
    let mut i: usize = 0;
    while i < n
        invariant
            i <= n,
            queue@ =~= old(queue)@ + Seq::new(i as nat, |j: int| x),
        decreases n - i,
    {
        queue.push_back(x);
        i = i + 1;
    }
}

/// The contents of a queue, oldest first.
pub fn snapshot<S: Copy>(queue: &VecDeque<S>) -> (r: Vec<S>)
    ensures
        r@ == queue@,
{
    let mut out: Vec<S> = Vec::new();
    let mut i: usize = 0;
    while i < queue.len()
        invariant
            i <= queue@.len(),
            out@ =~= queue@.take(i as int),
        decreases queue@.len() - i,
    {
        out.push(queue[i]);
        i = i + 1;
    }
    assert(queue@.take(queue@.len() as int) =~= queue@);
    out
}

/// Takes the `n` oldest entries out.
pub fn take_front<S: Copy>(queue: &mut VecDeque<S>, n: usize) -> (r: Vec<S>)
    requires
        n <= old(queue)@.len(),
    ensures
        r@ == old(queue)@.take(n as int),
        final(queue)@ == old(queue)@.skip(n as int),
{
    let mut out: Vec<S> = Vec::new();
    while out.len() < n
        invariant
            out@.len() <= n <= old(queue)@.len(),
            out@ =~= old(queue)@.take(out@.len() as int),
            queue@ =~= old(queue)@.skip(out@.len() as int),
        decreases n - out@.len(),
    {
        match queue.pop_front() {
            Some(x) => {
                out.push(x);
            },
            None => {
                assert(false);
            },
        }
    }
    out
}

/// Copies a slice.
pub fn copied<S: Copy>(samples: &[S]) -> (r: Vec<S>)
    ensures
        r@ == samples@,
{
    let mut out: Vec<S> = Vec::new();
    let mut i: usize = 0;
    while i < samples.len()
        invariant
            i <= samples@.len(),
            out@ =~= samples@.take(i as int),
        decreases samples@.len() - i,
    {
        out.push(samples[i]);
        i = i + 1;
    }
    assert(samples@.take(samples@.len() as int) =~= samples@);
    out
}

/// A ring that is fed in two parts holds the same as one fed at once.
pub proof fn lemma_feed_in_parts<S>(held: Seq<S>, a: Seq<S>, b: Seq<S>, capacity: nat)
    ensures
        keep_last(keep_last(held + a, capacity) + b, capacity) == keep_last(
            held + (a + b),
            capacity,
        ),
{
    assert(keep_last(keep_last(held + a, capacity) + b, capacity) =~= keep_last(
        held + (a + b),
        capacity,
    ));
}

/// A ring holds the most recent samples: what it was fed last is its tail.
pub proof fn lemma_most_recent<S>(held: Seq<S>, fed: Seq<S>, capacity: nat)
    requires
        capacity <= fed.len(),
    ensures
        keep_last(held + fed, capacity) == fed.subrange(
            fed.len() - capacity,
            fed.len() as int,
        ),
{
    assert(keep_last(held + fed, capacity) =~= fed.subrange(
        fed.len() - capacity,
        fed.len() as int,
    ));
}

} // verus!
