//! Laws of refreshes on a worker: which window it gets, and which frame a result is for.
use crate::embedding::EmbeddingError;
use crate::refresh::{Received, RefreshChannel};
use vstd::prelude::*;

verus! {

/// An idle worker is handed the very window that is submitted, and nothing waits behind it.
pub proof fn lemma_idle_worker_gets_the_window<N, S: Fn(Vec<N>) -> bool>(
    ch: &mut RefreshChannel<N>,
    window: Vec<N>,
    frame_idx: usize,
    send: &S,
)
    requires
        old(ch).wf(),
        call_ensures(RefreshChannel::<N>::submit::<S>, (ch, window, frame_idx, send), ()),
        old(ch)@.outstanding == 0,
    ensures
        exists|w: Vec<N>, taken: bool|
            {
                &&& #[trigger] call_ensures(*send, (w,), taken)
                &&& w@ == window@
                &&& final(ch)@.outstanding == if taken {
                    1nat
                } else {
                    0nat
                }
            },
        final(ch)@.pending is None,
        final(ch)@.frames == old(ch)@.frames.push(frame_idx),
{
    let taken = choose|taken: bool|
        #[trigger] crate::refresh::offered(window@, *send, taken) && final(ch)@.outstanding == (
        if taken {
            1nat
        } else {
            0nat
        }) && final(ch)@.pending == old(ch)@.pending;
    let w = choose|w: Vec<N>| w@ == window@ && #[trigger] call_ensures(*send, (w,), taken);
    assert(call_ensures(*send, (w,), taken));
}

/// A busy worker leaves the newest window waiting: it takes the place of one that waited
/// before, and so does its frame, while the frame that is being worked on stays first.
pub proof fn lemma_newest_window_waits<N, S: Fn(Vec<N>) -> bool>(
    ch: &mut RefreshChannel<N>,
    window: Vec<N>,
    frame_idx: usize,
    send: &S,
)
    requires
        old(ch).wf(),
        call_ensures(RefreshChannel::<N>::submit::<S>, (ch, window, frame_idx, send), ()),
        old(ch)@.outstanding > 0,
    ensures
        final(ch)@.pending == Some(window@),
        final(ch)@.outstanding == old(ch)@.outstanding,
        final(ch)@.frames.len() == old(ch)@.frames.len() + (if old(ch)@.pending is Some {
            0nat
        } else {
            1nat
        }),
        final(ch)@.frames.last() == frame_idx,
        forall|i: int|
            0 <= i < final(ch)@.frames.len() - 1 ==> #[trigger] final(ch)@.frames[i] == old(
                ch,
            )@.frames[i],
        final(ch)@.frames[0] == old(ch)@.frames[0],
{
}

/// A result that is there comes back with the frame that asked first, and that frame is
/// then answered; the window that waited, if any, goes to the worker.
pub proof fn lemma_result_is_for_the_first_frame<
    N,
    S: Fn(Vec<N>) -> bool,
    R: Fn(bool) -> Received<N>,
>(
    ch: &mut RefreshChannel<N>,
    send: &S,
    receive: &R,
    lost: &str,
    frame_idx: usize,
    embedding: Vec<N>,
    hz: N,
)
    requires
        old(ch).wf(),
        call_ensures(
            RefreshChannel::<N>::try_recv_result::<S, R>,
            (ch, send, receive, lost),
            Ok::<Option<(usize, Vec<N>, N)>, EmbeddingError>(Some((frame_idx, embedding, hz))),
        ),
    ensures
        call_ensures(
            *receive,
            (false,),
            Received::Ready(Ok::<(Vec<N>, N), EmbeddingError>((embedding, hz))),
        ),
        old(ch)@.outstanding == 1,
        frame_idx == old(ch)@.frames[0],
        final(ch)@.frames.len() == old(ch)@.frames.len() - 1,
        forall|i: int|
            0 <= i < final(ch)@.frames.len() ==> #[trigger] final(ch)@.frames[i] == old(
                ch,
            )@.frames[i + 1],
        final(ch)@.pending is None,
        old(ch)@.pending is None ==> final(ch)@.outstanding == 0,
        old(ch)@.pending matches Some(window) ==> exists|w: Vec<N>, taken: bool|
            {
                &&& #[trigger] call_ensures(*send, (w,), taken)
                &&& w@ == window
                &&& final(ch)@.outstanding == if taken {
                    1nat
                } else {
                    0nat
                }
            },
{
    if old(ch)@.pending is Some {
        let window = old(ch)@.pending->0;
        let taken = choose|taken: bool| #[trigger]
            crate::refresh::offered(window, *send, taken) && final(ch)@.outstanding == (if taken {
                1nat
            } else {
                (old(ch)@.outstanding - 1) as nat
            });
        let w = choose|w: Vec<N>| w@ == window && #[trigger] call_ensures(*send, (w,), taken);
        assert(call_ensures(*send, (w,), taken));
    }
}

/// What is submitted to an idle worker and comes back next is labelled with its own frame.
pub proof fn lemma_submitted_frame_comes_back<
    N,
    S: Fn(Vec<N>) -> bool,
    R: Fn(bool) -> Received<N>,
>(
    fresh: RefreshChannel<N>,
    ch: &mut RefreshChannel<N>,
    then: &mut RefreshChannel<N>,
    window: Vec<N>,
    frame_idx: usize,
    send: &S,
    receive: &R,
    lost: &str,
    answered: usize,
    embedding: Vec<N>,
    hz: N,
)
    requires
        call_ensures(RefreshChannel::<N>::new, (), fresh),
        *ch == fresh,
        call_ensures(RefreshChannel::<N>::submit::<S>, (ch, window, frame_idx, send), ()),
        *then == *final(ch),
        call_ensures(
            RefreshChannel::<N>::try_recv_result::<S, R>,
            (then, send, receive, lost),
            Ok::<Option<(usize, Vec<N>, N)>, EmbeddingError>(Some((answered, embedding, hz))),
        ),
    ensures
        answered == frame_idx,
        final(then)@.frames.len() == 0,
        final(then)@.outstanding == 0,
{
}

/// A worker that was asked for nothing is not asked for a result, and one that has none yet,
/// or fails, leaves everything as it was.
pub proof fn lemma_no_result_changes_nothing<
    N,
    S: Fn(Vec<N>) -> bool,
    R: Fn(bool) -> Received<N>,
>(
    ch: &mut RefreshChannel<N>,
    send: &S,
    receive: &R,
    lost: &str,
    r: Result<Option<(usize, Vec<N>, N)>, EmbeddingError>,
)
    requires
        old(ch).wf(),
        call_ensures(
            RefreshChannel::<N>::try_recv_result::<S, R>,
            (ch, send, receive, lost),
            r,
        ),
        !(r matches Ok(Some(_))),
    ensures
        final(ch)@ == old(ch)@,
        r is Ok && old(ch)@.outstanding > 0 ==> call_ensures(*receive, (false,), Received::Empty),
        r is Err ==> old(ch)@.outstanding > 0,
{
}

/// Waiting for everything answers the frames in the order in which they asked, and leaves
/// nothing out and nothing waiting.
pub proof fn lemma_waiting_answers_in_order<
    N,
    S: Fn(Vec<N>) -> bool,
    R: Fn(bool) -> Received<N>,
>(
    ch: &mut RefreshChannel<N>,
    send: &S,
    receive: &R,
    lost: &str,
    results: Vec<(usize, Vec<N>, N)>,
    i: int,
)
    requires
        old(ch).wf(),
        call_ensures(
            RefreshChannel::<N>::drain_blocking::<S, R>,
            (ch, send, receive, lost),
            Ok::<Vec<(usize, Vec<N>, N)>, EmbeddingError>(results),
        ),
        0 <= i < results@.len(),
    ensures
        results@[i].0 == old(ch)@.frames[i],
        call_ensures(
            *receive,
            (true,),
            Received::Ready(Ok::<(Vec<N>, N), EmbeddingError>((results@[i].1, results@[i].2))),
        ),
        old(ch)@.pending is None ==> results@.len() == old(ch)@.outstanding,
        old(ch)@.outstanding <= results@.len() <= old(ch)@.outstanding + 1,
        final(ch)@.outstanding == 0,
        final(ch)@.pending is None,
{
    assert(results@[i].0 == results@[i].0);
}

} // verus!
