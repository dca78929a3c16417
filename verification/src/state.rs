//! The session data model: segments, the timeline, and the recorder state
//! machine. Nothing outside this module mutates segments directly.

use vstd::prelude::*;

verus! {

/// A single recording take: an ordered, growable sequence of mono samples.
///
/// Each sample is the raw bit pattern of a 32-bit float amplitude. The
/// session logic only ever moves samples around, never reads amplitudes,
/// so the opaque bit pattern is all it needs to store; the audio front end
/// converts at the boundary.
pub struct Segment {
    pub samples: Vec<u32>,
}

impl View for Segment {
    type V = Seq<u32>;

    open spec fn view(&self) -> Seq<u32> {
        self.samples@
    }
}

impl Segment {
    /// A fresh, empty take.
    pub fn new() -> (r: Segment)
        ensures
            r@ == Seq::<u32>::empty(),
    {
        Segment { samples: Vec::new() }
    }

    /// How many samples the take holds. Its duration in seconds is this
    /// count divided by the sample rate; that division is left to the
    /// audio front end, which owns the float arithmetic.
    pub fn sample_count(&self) -> (n: usize)
        ensures
            n == self@.len(),
    {
        self.samples.len()
    }
}

impl Clone for Segment {
    /// An independent copy of the take, so that playback and retry can use
    /// a snapshot while the original is replaced or grows.
    fn clone(&self) -> (r: Self)
        ensures
            r@ == self@,
    {
        Segment { samples: self.samples.clone() }
    }
}

/// The persistent timeline: every approved take, in playback order, plus
/// the format the takes were recorded at.
pub struct Project {
    pub segments: Vec<Segment>,
    /// Samples per second, e.g. 44100 or 48000 Hz.
    pub sample_rate: u32,
    /// Channel count of the source hardware; the timeline itself always
    /// stores mono data (the down-mix happens before samples reach it).
    pub channels: u16,
    /// The timeline position an in-progress retry or insert targets;
    /// `None` means "append at the end".
    pub editing_index: Option<usize>,
}

/// The sample sequences of a sequence of segments, in the same order.
pub open spec fn seg_views(v: Seq<Segment>) -> Seq<Seq<u32>> {
    Seq::new(v.len(), |i: int| v[i]@)
}

/// The mathematical value of a [`Project`].
#[verifier::ext_equal]
pub struct ProjectView {
    pub segments: Seq<Seq<u32>>,
    pub sample_rate: u32,
    pub channels: u16,
    pub editing_index: Option<int>,
}

impl View for Project {
    type V = ProjectView;

    open spec fn view(&self) -> ProjectView {
        ProjectView {
            segments: seg_views(self.segments@),
            sample_rate: self.sample_rate,
            channels: self.channels,
            editing_index: match self.editing_index {
                Some(i) => Some(i as int),
                None => None,
            },
        }
    }
}

/// The three operator-visible phases of the session.
pub enum AppState {
    Idle,
    Recording,
    /// Capture has stopped; the take awaits the operator's decision.
    Reviewing,
}

/// The session state machine: the in-progress take, the timeline position
/// it targets, and the current phase.
pub struct RecorderState {
    pub state: AppState,
    /// The take currently being recorded or reviewed.
    pub current: Option<Segment>,
    pub project: Project,
    /// Whether the pending edit inserts before `editing_index` rather than
    /// replacing the entry there. Only meaningful while `editing_index`
    /// is set.
    pub is_insertion: bool,
}

/// The mathematical value of a [`RecorderState`].
#[verifier::ext_equal]
pub struct SessionView {
    pub mode: AppState,
    pub current: Option<Seq<u32>>,
    pub project: ProjectView,
    pub is_insertion: bool,
}

impl View for RecorderState {
    type V = SessionView;

    open spec fn view(&self) -> SessionView {
        SessionView {
            mode: self.state,
            current: match self.current {
                Some(seg) => Some(seg@),
                None => None,
            },
            project: self.project@,
            is_insertion: self.is_insertion,
        }
    }
}

/// Where an approved take lands in the timeline, given the stored editing
/// index and insertion flag:
/// - no index: append at the end;
/// - insertion, index within `0..=len`: insert there, shifting later
///   entries right;
/// - replacement, index within `0..len`: overwrite the entry there;
/// - a stale index (the timeline shrank since it was set): fall back to
///   appending rather than dropping the take or going out of bounds.
pub open spec fn placed_segments(
    segs: Seq<Seq<u32>>,
    seg: Seq<u32>,
    idx: Option<int>,
    is_insertion: bool,
) -> Seq<Seq<u32>> {
    match idx {
        Some(i) => {
            if is_insertion && 0 <= i <= segs.len() {
                segs.insert(i, seg)
            } else if !is_insertion && 0 <= i < segs.len() {
                segs.update(i, seg)
            } else {
                segs.push(seg)
            }
        },
        None => segs.push(seg),
    }
}

impl SessionView {
    /// The state-machine invariant: a take is in progress exactly while
    /// the session is recording or reviewing.
    pub open spec fn wf(self) -> bool {
        self.current is Some <==> (self.mode is Recording || self.mode is Reviewing)
    }

    /// The state after `start_recording`: a fresh empty take, targeting
    /// append-at-end, phase Recording.
    pub open spec fn after_start_recording(self) -> SessionView {
        SessionView {
            mode: AppState::Recording,
            current: Some(Seq::empty()),
            is_insertion: false,
            project: ProjectView { editing_index: None, ..self.project },
        }
    }

    /// The state after `stop_recording`: Recording moves to Reviewing;
    /// any other phase is left untouched.
    pub open spec fn after_stop_recording(self) -> SessionView {
        if self.mode is Recording {
            SessionView { mode: AppState::Reviewing, ..self }
        } else {
            self
        }
    }

    /// The state after the capture feed delivers `block`: the samples are
    /// appended to the in-progress take only while recording; otherwise
    /// the block is silently discarded.
    pub open spec fn after_feed(self, block: Seq<u32>) -> SessionView {
        if self.mode is Recording && self.current is Some {
            SessionView { current: Some(self.current->Some_0 + block), ..self }
        } else {
            self
        }
    }

    /// The state after `approve`: the take, if any, lands in the timeline
    /// as [`placed_segments`] says; the editing target and insertion flag
    /// are reset regardless of the branch taken, and the session is Idle.
    pub open spec fn after_approve(self) -> SessionView {
        let segments = match self.current {
            Some(seg) => placed_segments(
                self.project.segments,
                seg,
                self.project.editing_index,
                self.is_insertion,
            ),
            None => self.project.segments,
        };
        SessionView {
            mode: AppState::Idle,
            current: None,
            is_insertion: false,
            project: ProjectView { segments, editing_index: None, ..self.project },
        }
    }

    /// The state after `reject`: the take is discarded, the editing target
    /// cleared, and the timeline left untouched.
    pub open spec fn after_reject(self) -> SessionView {
        SessionView {
            mode: AppState::Idle,
            current: None,
            project: ProjectView { editing_index: None, ..self.project },
            ..self
        }
    }

    /// The state after `retry_segment(i)`: with `i` in range, a fresh take
    /// targets position `i` for replacement; out of range, nothing changes.
    pub open spec fn after_retry(self, i: int) -> SessionView {
        if 0 <= i < self.project.segments.len() {
            SessionView {
                mode: AppState::Recording,
                current: Some(Seq::empty()),
                is_insertion: false,
                project: ProjectView { editing_index: Some(i), ..self.project },
            }
        } else {
            self
        }
    }

    /// The state after `insert_segment(i)`: with `i` in range, a fresh take
    /// targets position `i + 1` for insertion; out of range, nothing
    /// changes.
    pub open spec fn after_insert(self, i: int) -> SessionView {
        if 0 <= i < self.project.segments.len() {
            SessionView {
                mode: AppState::Recording,
                current: Some(Seq::empty()),
                is_insertion: true,
                project: ProjectView { editing_index: Some(i + 1), ..self.project },
            }
        } else {
            self
        }
    }

    /// The state after `delete_segment(i)`: with `i` in range, the entry
    /// there is removed and later entries shift left; out of range,
    /// nothing changes. Phase, take, and editing target are untouched.
    pub open spec fn after_delete(self, i: int) -> SessionView {
        if 0 <= i < self.project.segments.len() {
            SessionView {
                project: ProjectView {
                    segments: self.project.segments.remove(i),
                    ..self.project
                },
                ..self
            }
        } else {
            self
        }
    }
}

impl RecorderState {
    /// A fresh idle session over an empty timeline in the given format.
    pub fn new(sample_rate: u32, channels: u16) -> (r: RecorderState)
        ensures
            r@.mode is Idle,
            r@.current is None,
            r@.is_insertion == false,
            r@.project.segments == Seq::<Seq<u32>>::empty(),
            r@.project.sample_rate == sample_rate,
            r@.project.channels == channels,
            r@.project.editing_index is None,
            r@.wf(),
    {
        let r = RecorderState {
            state: AppState::Idle,
            current: None,
            is_insertion: false,
            project: Project {
                segments: Vec::new(),
                sample_rate,
                channels,
                editing_index: None,
            },
        };
        proof {
            assert(r@.project.segments =~= Seq::<Seq<u32>>::empty());
        }
        r
    }

    /// Begin a new take: valid from any phase. The fresh take targets
    /// append-at-end by default.
    pub fn start_recording(&mut self)
        ensures
            final(self)@ == old(self)@.after_start_recording(),
            final(self)@.wf(),
    {
        self.state = AppState::Recording;
        self.is_insertion = false;
        self.current = Some(Segment::new());
        self.project.editing_index = None;
        proof {
            assert(self@ =~~= old(self)@.after_start_recording());
        }
    }

    /// End capture of the in-progress take and move to Reviewing. Stopping
    /// while Idle or Reviewing does nothing: it must not fabricate a take.
    pub fn stop_recording(&mut self)
        ensures
            final(self)@ == old(self)@.after_stop_recording(),
            old(self)@.wf() ==> final(self)@.wf(),
    {
        if let AppState::Recording = self.state {
            self.state = AppState::Reviewing;
        }
        proof {
            assert(self@ =~~= old(self)@.after_stop_recording());
        }
    }

    /// Accept a block of mono samples from the capture feed. The block is
    /// appended to the in-progress take only while recording; in any other
    /// phase it is silently discarded — that is how "stop" takes effect
    /// without an explicit signal reaching the feed.
    pub fn feed_samples(&mut self, block: &[u32])
        ensures
            final(self)@ == old(self)@.after_feed(block@),
            old(self)@.wf() ==> final(self)@.wf(),
    {
        if matches!(self.state, AppState::Recording) {
            match &mut self.current {
                Some(seg) => {
                    seg.samples.extend_from_slice(block);
                    proof {
                        assert(seg.samples@ =~= old(self).current->Some_0@ + block@);
                    }
                },
                None => {},
            }
        }
        proof {
            assert(self@ =~~= old(self)@.after_feed(block@));
        }
    }

    /// Commit the in-progress take: it lands in the timeline at the
    /// position [`placed_segments`] computes from the stored editing index
    /// and insertion flag, both of which are reset regardless of the
    /// branch taken. The session returns to Idle.
    pub fn approve(&mut self)
        ensures
            final(self)@ == old(self)@.after_approve(),
            final(self)@.mode is Idle,
            final(self)@.current is None,
            final(self)@.project.editing_index is None,
            final(self)@.is_insertion == false,
            final(self)@.wf(),
    {
        let cur = self.current.take();
        let idx_opt = self.project.editing_index;
        self.project.editing_index = None;
        if let Some(seg) = cur {
            let n = self.project.segments.len();
            let ghost old_segs = self.project.segments@;
            let ghost seg_snap = seg;
            match idx_opt {
                Some(idx) => {
                    if self.is_insertion && idx <= n {
                        self.project.segments.insert(idx, seg);
                        proof {
                            lemma_seg_views_insert(old_segs, idx as int, seg_snap);
                        }
                    } else if !self.is_insertion && idx < n {
                        self.project.segments[idx] = seg;
                        proof {
                            lemma_seg_views_update(old_segs, idx as int, seg_snap);
                        }
                    } else {
                        self.project.segments.push(seg);
                        proof {
                            lemma_seg_views_push(old_segs, seg_snap);
                        }
                    }
                },
                None => {
                    self.project.segments.push(seg);
                    proof {
                        lemma_seg_views_push(old_segs, seg_snap);
                    }
                },
            }
        }
        self.state = AppState::Idle;
        self.is_insertion = false;
        proof {
            assert(self@ =~~= old(self)@.after_approve());
        }
    }

    /// Discard the in-progress take and its editing target. Approved
    /// timeline entries are never touched. The session returns to Idle.
    pub fn reject(&mut self)
        ensures
            final(self)@ == old(self)@.after_reject(),
            final(self)@.mode is Idle,
            final(self)@.current is None,
            final(self)@.project.editing_index is None,
            final(self)@.wf(),
    {
        self.current = None;
        self.project.editing_index = None;
        self.state = AppState::Idle;
        proof {
            assert(self@ =~~= old(self)@.after_reject());
        }
    }

    /// Re-record the take at `index`: a fresh take targets that position
    /// for replacement when approved. The existing entry stays in place
    /// until then, so a reject during a retry leaves it untouched.
    /// With `index` out of range nothing changes and `false` comes back.
    pub fn retry_segment(&mut self, index: usize) -> (r: bool)
        ensures
            r == (index < old(self)@.project.segments.len()),
            final(self)@ == old(self)@.after_retry(index as int),
            !r ==> final(self)@ == old(self)@,
            final(self)@.project.segments == old(self)@.project.segments,
            old(self)@.wf() ==> final(self)@.wf(),
    {
        if index >= self.project.segments.len() {
            return false;
        }
        self.project.editing_index = Some(index);
        self.is_insertion = false;
        self.current = Some(Segment::new());
        self.state = AppState::Recording;
        proof {
            assert(self@ =~~= old(self)@.after_retry(index as int));
        }
        true
    }

    /// Record a new take to be inserted after the entry at `after_index`
    /// (that is, at position `after_index + 1`) when approved. With
    /// `after_index` out of range nothing changes and `false` comes back.
    pub fn insert_segment(&mut self, after_index: usize) -> (r: bool)
        ensures
            r == (after_index < old(self)@.project.segments.len()),
            final(self)@ == old(self)@.after_insert(after_index as int),
            !r ==> final(self)@ == old(self)@,
            final(self)@.project.segments == old(self)@.project.segments,
            old(self)@.wf() ==> final(self)@.wf(),
    {
        if after_index >= self.project.segments.len() {
            return false;
        }
        self.project.editing_index = Some(after_index + 1);
        self.is_insertion = true;
        self.current = Some(Segment::new());
        self.state = AppState::Recording;
        proof {
            assert(self@ =~~= old(self)@.after_insert(after_index as int));
        }
        true
    }

    /// Remove the timeline entry at `index` immediately, whatever the
    /// phase; later entries shift left, keeping their relative order.
    /// With `index` out of range nothing changes and `false` comes back.
    ///
    /// A retry or insert pending against a position past the shrunk
    /// timeline is not repaired here: its approval falls back to
    /// appending, as [`placed_segments`] says.
    pub fn delete_segment(&mut self, index: usize) -> (r: bool)
        ensures
            r == (index < old(self)@.project.segments.len()),
            final(self)@ == old(self)@.after_delete(index as int),
            r ==> final(self)@.project.segments.len() == old(self)@.project.segments.len() - 1,
            r ==> forall|j: int|
                0 <= j < index ==> final(self)@.project.segments[j]
                    == old(self)@.project.segments[j],
            r ==> forall|j: int|
                index <= j < final(self)@.project.segments.len()
                    ==> final(self)@.project.segments[j] == old(self)@.project.segments[j + 1],
            !r ==> final(self)@ == old(self)@,
            old(self)@.wf() ==> final(self)@.wf(),
    {
        if index >= self.project.segments.len() {
            return false;
        }
        let ghost old_segs = self.project.segments@;
        self.project.segments.remove(index);
        proof {
            lemma_seg_views_remove(old_segs, index as int);
            assert(self@ =~~= old(self)@.after_delete(index as int));
            seg_views(old_segs).remove_ensures(index as int);
        }
        true
    }

    /// The take at `index`, or nothing when `index` is out of range.
    pub fn get_segment(&self, index: usize) -> (r: Option<&Segment>)
        ensures
            match r {
                Some(seg) => index < self@.project.segments.len() && seg@ == self@.project.segments[index as int],
                None => index >= self@.project.segments.len(),
            },
    {
        if index < self.project.segments.len() {
            Some(&self.project.segments[index])
        } else {
            None
        }
    }

    /// How many approved takes the timeline holds.
    pub fn get_segment_count(&self) -> (r: usize)
        ensures
            r == self@.project.segments.len(),
    {
        self.project.segments.len()
    }

    /// The length of the whole timeline, in samples; see
    /// [`Project::total_samples`].
    pub fn total_samples(&self) -> (n: u128)
        ensures
            n == concat_of(self@.project.segments).len(),
    {
        self.project.total_samples()
    }
}

impl Project {
    /// Every approved sample in playback order: the takes concatenated
    /// front to back, with no gaps and no crossfades. The copy is
    /// independent of the timeline, so a renderer can read it without
    /// holding the session.
    pub fn flattened_samples(&self) -> (r: Vec<u32>)
        ensures
            r@ == concat_of(self@.segments),
    {
        let mut all: Vec<u32> = Vec::new();
        let n = self.segments.len();
        let mut i: usize = 0;
        proof {
            assert(self@.segments.take(0) =~= Seq::<Seq<u32>>::empty());
        }
        while i < n
            invariant
                n == self@.segments.len(),
                i <= n,
                all@ == concat_of(self@.segments.take(i as int)),
            decreases n - i,
        {
            let ghost prev = all@;
            all.extend_from_slice(self.segments[i].samples.as_slice());
            proof {
                assert(all@ =~= prev + self@.segments[i as int]);
                lemma_concat_of_push(self@.segments.take(i as int), self@.segments[i as int]);
                assert(self@.segments.take(i as int).push(self@.segments[i as int])
                    =~= self@.segments.take(i + 1));
            }
            i += 1;
        }
        proof {
            assert(self@.segments.take(n as int) =~= self@.segments);
        }
        all
    }

    /// The length of the flattened timeline, in samples. The duration in
    /// seconds is this count divided by the sample rate; that division is
    /// left to the audio front end, which owns the float arithmetic.
    pub fn total_samples(&self) -> (n: u128)
        ensures
            n == concat_of(self@.segments).len(),
    {
        let count = self.segments.len();
        let mut total: u128 = 0;
        let mut i: usize = 0;
        proof {
            assert(self@.segments.take(0) =~= Seq::<Seq<u32>>::empty());
        }
        while i < count
            invariant
                count == self@.segments.len(),
                i <= count,
                total == concat_of(self@.segments.take(i as int)).len(),
                total <= i as u128 * (usize::MAX as u128),
            decreases count - i,
        {
            let l = self.segments[i].samples.len();
            proof {
                lemma_concat_of_push(self@.segments.take(i as int), self@.segments[i as int]);
                assert(self@.segments.take(i as int).push(self@.segments[i as int])
                    =~= self@.segments.take(i + 1));
                assert(total + (l as u128) <= (i as u128 + 1) * (usize::MAX as u128))
                    by (nonlinear_arith)
                    requires
                        total <= i as u128 * (usize::MAX as u128),
                        l as u128 <= usize::MAX as u128,
                ;
                assert((i as u128 + 1) * (usize::MAX as u128) <= u128::MAX) by (nonlinear_arith)
                    requires
                        i as u128 + 1 <= usize::MAX as u128,
                        usize::MAX as u128 <= 0xffff_ffff_ffff_ffffu128,
                ;
            }
            total = total + (l as u128);
            i += 1;
        }
        proof {
            assert(self@.segments.take(count as int) =~= self@.segments);
        }
        total
    }
}

/// All approved samples in playback order: the takes' sample sequences
/// concatenated front to back, with no gaps.
pub open spec fn concat_of(blocks: Seq<Seq<u32>>) -> Seq<u32>
    decreases blocks.len(),
{
    if blocks.len() == 0 {
        Seq::empty()
    } else {
        blocks.first() + concat_of(blocks.skip(1))
    }
}

/// Concatenation peels one block off the back as well as off the front.
proof fn lemma_concat_of_push(blocks: Seq<Seq<u32>>, block: Seq<u32>)
    ensures
        concat_of(blocks.push(block)) == concat_of(blocks) + block,
    decreases blocks.len(),
{
    if blocks.len() == 0 {
        assert(blocks.push(block).skip(1) =~= Seq::<Seq<u32>>::empty());
        assert(blocks.push(block).first() == block);
        assert(concat_of(blocks.push(block)) == block + concat_of(Seq::<Seq<u32>>::empty()));
        assert(block + Seq::<u32>::empty() =~= concat_of(blocks) + block);
    } else {
        assert(blocks.push(block).first() == blocks.first());
        assert(blocks.push(block).skip(1) =~= blocks.skip(1).push(block));
        lemma_concat_of_push(blocks.skip(1), block);
        assert(blocks.first() + (concat_of(blocks.skip(1)) + block) =~= (blocks.first()
            + concat_of(blocks.skip(1))) + block);
    }
}

proof fn lemma_seg_views_push(v: Seq<Segment>, seg: Segment)
    ensures
        seg_views(v.push(seg)) == seg_views(v).push(seg@),
{
    assert(seg_views(v.push(seg)) =~= seg_views(v).push(seg@));
}

proof fn lemma_seg_views_insert(v: Seq<Segment>, i: int, seg: Segment)
    requires
        0 <= i <= v.len(),
    ensures
        seg_views(v.insert(i, seg)) == seg_views(v).insert(i, seg@),
{
    v.insert_ensures(i, seg);
    seg_views(v).insert_ensures(i, seg@);
    assert(seg_views(v.insert(i, seg)) =~= seg_views(v).insert(i, seg@));
}

proof fn lemma_seg_views_update(v: Seq<Segment>, i: int, seg: Segment)
    requires
        0 <= i < v.len(),
    ensures
        seg_views(v.update(i, seg)) == seg_views(v).update(i, seg@),
{
    assert(seg_views(v.update(i, seg)) =~= seg_views(v).update(i, seg@));
}

proof fn lemma_seg_views_remove(v: Seq<Segment>, i: int)
    requires
        0 <= i < v.len(),
    ensures
        seg_views(v.remove(i)) == seg_views(v).remove(i),
{
    v.remove_ensures(i);
    seg_views(v).remove_ensures(i);
    assert(seg_views(v.remove(i)) =~= seg_views(v).remove(i));
}

} // verus!
