//! The session's workflow laws: how composed operator workflows — record,
//! retry, insert — transform the timeline, proved over the state-machine
//! transitions of [`crate::state`].

use vstd::prelude::*;
use crate::state::SessionView;
use crate::state::concat_of;

verus! {

/// The session invariant — a take is in progress exactly while the
/// session is recording or reviewing — is preserved by every transition
/// of the state machine, so it holds of every reachable state: a fresh
/// session satisfies it by construction.
pub proof fn lemma_transitions_preserve_wf(s: SessionView, block: Seq<u32>, i: int)
    requires
        s.wf(),
    ensures
        s.after_start_recording().wf(),
        s.after_stop_recording().wf(),
        s.after_feed(block).wf(),
        s.after_approve().wf(),
        s.after_reject().wf(),
        s.after_retry(i).wf(),
        s.after_insert(i).wf(),
        s.after_delete(i).wf(),
{
}

/// The session state after the capture feed delivers each of `blocks`,
/// in order.
pub open spec fn after_feed_all(s: SessionView, blocks: Seq<Seq<u32>>) -> SessionView
    decreases blocks.len(),
{
    if blocks.len() == 0 {
        s
    } else {
        after_feed_all(s.after_feed(blocks.first()), blocks.skip(1))
    }
}

/// While the session is recording, feeding a run of blocks appends their
/// concatenation to the in-progress take and changes nothing else.
pub proof fn lemma_feed_all_while_recording(s: SessionView, blocks: Seq<Seq<u32>>)
    requires
        s.mode is Recording,
        s.current is Some,
    ensures
        after_feed_all(s, blocks) == (SessionView {
            current: Some(s.current->Some_0 + concat_of(blocks)),
            ..s
        }),
    decreases blocks.len(),
{
    if blocks.len() == 0 {
        assert(s.current->Some_0 + concat_of(blocks) =~= s.current->Some_0);
        assert(after_feed_all(s, blocks) =~~= SessionView {
            current: Some(s.current->Some_0 + concat_of(blocks)),
            ..s
        });
    } else {
        let s1 = s.after_feed(blocks.first());
        lemma_feed_all_while_recording(s1, blocks.skip(1));
        assert(s.current->Some_0 + blocks.first() + concat_of(blocks.skip(1)) =~= s.current->Some_0
            + concat_of(blocks));
        assert(after_feed_all(s, blocks) =~~= SessionView {
            current: Some(s.current->Some_0 + concat_of(blocks)),
            ..s
        });
    }
}

/// The record round trip: starting a take, feeding any run of blocks,
/// stopping, and approving appends exactly one segment to the timeline,
/// holding the blocks' concatenation in delivery order. The session ends
/// Idle with no take in progress, and the rest of the timeline is
/// untouched.
pub proof fn lemma_record_round_trip(s: SessionView, blocks: Seq<Seq<u32>>)
    ensures
        ({
            let done = after_feed_all(
                s.after_start_recording(),
                blocks,
            ).after_stop_recording().after_approve();
            &&& done.project.segments == s.project.segments.push(concat_of(blocks))
            &&& done.project.sample_rate == s.project.sample_rate
            &&& done.project.channels == s.project.channels
            &&& done.mode is Idle
            &&& done.current is None
            &&& done.wf()
        }),
{
    let s1 = s.after_start_recording();
    lemma_feed_all_while_recording(s1, blocks);
    let s2 = after_feed_all(s1, blocks);
    assert(Seq::<u32>::empty() + concat_of(blocks) =~= concat_of(blocks));
    let done = s2.after_stop_recording().after_approve();
    assert(done.project.segments =~~= s.project.segments.push(concat_of(blocks)));
}

/// The retry round trip: retrying segment `i` and approving a take holding
/// data `d` replaces exactly the entry at `i` with `d`, leaving the
/// segment count and every other entry unchanged.
pub proof fn lemma_retry_then_approve(s: SessionView, i: int, d: Seq<u32>)
    requires
        0 <= i < s.project.segments.len(),
    ensures
        ({
            let done = s.after_retry(i).after_feed(d).after_stop_recording().after_approve();
            &&& done.project.segments.len() == s.project.segments.len()
            &&& done.project.segments[i] == d
            &&& forall|j: int|
                0 <= j < s.project.segments.len() && j != i ==> done.project.segments[j]
                    == s.project.segments[j]
            &&& done.mode is Idle
            &&& done.current is None
            &&& done.wf()
        }),
{
    let done = s.after_retry(i).after_feed(d).after_stop_recording().after_approve();
    assert(Seq::<u32>::empty() + d =~= d);
    assert(done.project.segments == s.project.segments.update(i, d));
}

/// The insert round trip: inserting after segment `i` and approving a take
/// holding data `d` grows the timeline by one, places `d` at position
/// `i + 1`, keeps positions `0..=i` in place, and shifts the former
/// occupant of each later position right by one.
pub proof fn lemma_insert_then_approve(s: SessionView, i: int, d: Seq<u32>)
    requires
        0 <= i < s.project.segments.len(),
    ensures
        ({
            let done = s.after_insert(i).after_feed(d).after_stop_recording().after_approve();
            &&& done.project.segments.len() == s.project.segments.len() + 1
            &&& done.project.segments[i + 1] == d
            &&& forall|j: int|
                0 <= j <= i ==> done.project.segments[j] == s.project.segments[j]
            &&& forall|j: int|
                i < j < s.project.segments.len() ==> done.project.segments[j + 1]
                    == s.project.segments[j]
            &&& done.mode is Idle
            &&& done.current is None
            &&& done.wf()
        }),
{
    let done = s.after_insert(i).after_feed(d).after_stop_recording().after_approve();
    assert(Seq::<u32>::empty() + d =~= d);
    assert(done.project.segments == s.project.segments.insert(i + 1, Seq::<u32>::empty() + d));
    s.project.segments.insert_ensures(i + 1, Seq::<u32>::empty() + d);
}

} // verus!
