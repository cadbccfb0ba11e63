//! The fixed-memory drafter.
use vstd::prelude::*;
use crate::microdecoder::{RESIDUAL_DEPTHS, RESIDUAL_VOCAB};

verus! {

/// Buckets of the transition sketch per depth.
pub const TRANSITION_BUCKETS: usize = 64;

/// The code that no bucket has learned.
pub const EMPTY_TRANSITION_CODE: u16 = 65_535;

/// One bounded counter: a transition and how often it has held up.
#[derive(Clone, Copy, Debug, PartialEq, Eq, Structural)]
pub struct TransitionBucket {
    /// Code of the previous frame.
    pub source: u16,
    /// Code that followed it.
    pub target: u16,
    /// How often, net of what contradicted it.
    pub count: u32,
}

/// A bucket that has learned nothing.
pub open spec fn empty_bucket() -> TransitionBucket {
    TransitionBucket { source: 65_535, target: 65_535, count: 0 }
}

/// A bucket after seeing `source` followed by `target`: a repeat counts up, a contradiction
/// counts down, and a bucket with nothing left learns the new transition.
pub open spec fn learned(bucket: TransitionBucket, source: int, target: int) -> TransitionBucket {
    if bucket.source == source && bucket.target == target {
        TransitionBucket {
            count: if bucket.count < u32::MAX {
                (bucket.count + 1) as u32
            } else {
                u32::MAX
            },
            ..bucket
        }
    } else if bucket.count == 0 {
        TransitionBucket { source: source as u16, target: target as u16, count: 1 }
    } else {
        TransitionBucket { count: (bucket.count - 1) as u32, ..bucket }
    }
}

/// What one depth proposes after code `source`: what its bucket has learned of that code, and
/// otherwise the code again.
pub open spec fn proposal(buckets: Seq<TransitionBucket>, source: int) -> int {
    let bucket = buckets[source % (TRANSITION_BUCKETS as int)];
    if bucket.source == source && bucket.count > 0 {
        bucket.target as int
    } else {
        source
    }
}

/// Proposes residual codes from the previous frame and a sixty-four-entry sketch per depth.
///
/// A collision, a cold start or a bad guess can only make its proposals worse; every proposal is
/// verified before it is emitted.
#[derive(Clone, Debug, PartialEq, Eq)]
pub struct FrankenMtpDrafter {
    previous_frame: Option<[usize; 15]>,
    transitions: Vec<Vec<TransitionBucket>>,
}

impl FrankenMtpDrafter {
    /// The last observed codes, where any were.
    pub closed spec fn previous(&self) -> Option<Seq<usize>> {
        match self.previous_frame {
            Some(codes) => Some(codes@),
            None => None,
        }
    }

    /// The buckets of one depth.
    pub closed spec fn buckets(&self, depth: int) -> Seq<TransitionBucket> {
        self.transitions@[depth]@
    }

    /// Sixty-four buckets per depth, and only codes of the vocabulary in them.
    pub closed spec fn wf(&self) -> bool {
        &&& self.transitions@.len() == RESIDUAL_DEPTHS
        &&& forall|d: int|
            0 <= d < RESIDUAL_DEPTHS ==> (#[trigger] self.transitions@[d])@.len()
                == TRANSITION_BUCKETS
        &&& forall|d: int, b: int|
            0 <= d < RESIDUAL_DEPTHS && 0 <= b < TRANSITION_BUCKETS && (
            #[trigger] self.transitions@[d]@[b]).count > 0 ==> self.transitions@[d]@[b].target
                < RESIDUAL_VOCAB
        &&& match self.previous() {
            Some(codes) => forall|d: int|
                0 <= d < RESIDUAL_DEPTHS ==> #[trigger] codes[d] < RESIDUAL_VOCAB,
            None => true,
        }
    }

    /// That nothing has been observed: no frame, and no transition in any bucket.
    pub open spec fn cold(&self) -> bool {
        &&& self.previous() is None
        &&& forall|d: int, b: int|
            0 <= d < RESIDUAL_DEPTHS && 0 <= b < TRANSITION_BUCKETS ==> #[trigger] self.buckets(
                d,
            )[b] == empty_bucket()
    }

    /// That `codes` is what this drafter proposes: zeros when cold, and otherwise one proposal
    /// per depth.
    pub open spec fn drafts(&self, codes: Seq<usize>) -> bool {
        &&& codes.len() == RESIDUAL_DEPTHS
        &&& forall|d: int|
            0 <= d < RESIDUAL_DEPTHS ==> #[trigger] codes[d] == (match self.previous() {
                None => 0,
                Some(previous) => proposal(self.buckets(d), previous[d] as int),
            })
    }

    /// That `next` is this drafter after observing `codes`: one bucket per depth has learned, the
    /// one of the code before.
    pub open spec fn learns(&self, next: Self, codes: Seq<usize>) -> bool {
        &&& next.previous() == Some(codes)
        &&& forall|d: int, b: int|
            0 <= d < RESIDUAL_DEPTHS && 0 <= b < TRANSITION_BUCKETS ==> #[trigger]
                next.buckets(d)[b] == (match self.previous() {
                None => self.buckets(d)[b],
                Some(previous) => if b == previous[d] as int % (TRANSITION_BUCKETS as int) {
                    learned(self.buckets(d)[b], previous[d] as int, codes[d] as int)
                } else {
                    self.buckets(d)[b]
                },
            })
    }

    /// Starts cold.
    pub fn new() -> (drafter: Self)
        ensures
            drafter.wf(),
            drafter.cold(),
    {
        let empty = TransitionBucket {
            source: EMPTY_TRANSITION_CODE,
            target: EMPTY_TRANSITION_CODE,
            count: 0,
        };
        let mut transitions: Vec<Vec<TransitionBucket>> = Vec::new();
        for depth in 0..RESIDUAL_DEPTHS
            invariant
                empty == empty_bucket(),
                transitions@.len() == depth,
                forall|d: int|
                    0 <= d < depth ==> (#[trigger] transitions@[d])@ == crate::rows::filled(
                        TRANSITION_BUCKETS as int,
                        empty_bucket(),
                    ),
        {
            transitions.push(crate::rows::fill(TRANSITION_BUCKETS, empty));
        }
        FrankenMtpDrafter { previous_frame: None, transitions }
    }

    /// Proposes one residual code at each depth.
    pub fn draft(&self) -> (codes: [usize; 15])
        requires
            self.wf(),
        ensures
            forall|d: int| 0 <= d < RESIDUAL_DEPTHS ==> #[trigger] codes@[d] < RESIDUAL_VOCAB,
            self.drafts(codes@),
    {
        let mut codes: [usize; 15] = [0;15];
        match &self.previous_frame {
            None => codes,
            Some(previous) => {
                for depth in 0..RESIDUAL_DEPTHS
                    invariant
                        self.wf(),
                        self.previous_frame == Some(*previous),
                        self.previous() == Some(previous@),
                        forall|d: int|
                            0 <= d < depth ==> {
                                &&& #[trigger] codes@[d] < RESIDUAL_VOCAB
                                &&& codes@[d] == proposal(self.buckets(d), previous@[d] as int)
                            },
                {
                    let source: usize = previous[depth];
                    let slot: usize = source % TRANSITION_BUCKETS;
                    let bucket = self.transitions[depth][slot];
                    proof {
                        assert(source == previous@[depth as int]);
                        assert(self.previous()->0[depth as int] < RESIDUAL_VOCAB);
                        assert(bucket == self.transitions@[depth as int]@[slot as int]);
                        assert(self.buckets(depth as int)[slot as int] == bucket);
                    }
                    if bucket.source as usize == source && bucket.count > 0 {
                        codes[depth] = bucket.target as usize;
                    } else {
                        codes[depth] = source;
                    }
                }
                codes
            },
        }
    }

    /// Learns from a verified frame before the next one is drafted.
    pub fn observe(&mut self, codes: &[usize; 15])
        requires
            old(self).wf(),
            forall|d: int| 0 <= d < RESIDUAL_DEPTHS ==> #[trigger] codes@[d] < RESIDUAL_VOCAB,
        ensures
            final(self).wf(),
            old(self).learns(*final(self), codes@),
    {
        let ghost start = *self;
        match self.previous_frame {
            None => {},
            Some(previous) => {
                for depth in 0..RESIDUAL_DEPTHS
                    invariant
                        self.wf(),
                        start.wf(),
                        self.previous_frame == start.previous_frame,
                        start.previous_frame == Some(previous),
                        forall|d: int|
                            0 <= d < RESIDUAL_DEPTHS ==> #[trigger] codes@[d] < RESIDUAL_VOCAB,
                        forall|d: int, b: int|
                            depth <= d < RESIDUAL_DEPTHS && 0 <= b < TRANSITION_BUCKETS
                                ==> #[trigger] self.transitions@[d]@[b]
                                == start.transitions@[d]@[b],
                        forall|d: int, b: int|
                            0 <= d < depth && 0 <= b < TRANSITION_BUCKETS ==> #[trigger]
                                self.transitions@[d]@[b] == (if b == previous@[d] as int % (
                            TRANSITION_BUCKETS as int) {
                                learned(
                                    start.transitions@[d]@[b],
                                    previous@[d] as int,
                                    codes@[d] as int,
                                )
                            } else {
                                start.transitions@[d]@[b]
                            }),
                {
                    let source: usize = previous[depth];
                    let target: usize = codes[depth];
                    let slot: usize = source % TRANSITION_BUCKETS;
                    let bucket = self.transitions[depth][slot];
                    let next = if bucket.source as usize == source && bucket.target as usize
                        == target {
                        TransitionBucket {
                            source: bucket.source,
                            target: bucket.target,
                            count: bucket.count.saturating_add(1),
                        }
                    } else if bucket.count == 0 {
                        TransitionBucket {
                            source: source as u16,
                            target: target as u16,
                            count: 1,
                        }
                    } else {
                        TransitionBucket {
                            source: bucket.source,
                            target: bucket.target,
                            count: bucket.count - 1,
                        }
                    };
                    self.transitions[depth][slot] = next;
                }
            },
        }
        self.previous_frame = Some(*codes);
    }
}

/// A cold drafter that has seen one frame proposes that frame again.
pub proof fn law_first_draft_repeats(
    cold: FrankenMtpDrafter,
    next: FrankenMtpDrafter,
    codes: Seq<usize>,
    again: Seq<usize>,
)
    requires
        cold.cold(),
        codes.len() == RESIDUAL_DEPTHS,
        forall|d: int| 0 <= d < RESIDUAL_DEPTHS ==> #[trigger] codes[d] < RESIDUAL_VOCAB,
        cold.learns(next, codes),
        next.drafts(again),
    ensures
        again == codes,
{
    assert forall|d: int| 0 <= d < RESIDUAL_DEPTHS implies #[trigger] again[d] == codes[d] by {
        let b = codes[d] as int % (TRANSITION_BUCKETS as int);
        assert(next.buckets(d)[b] == cold.buckets(d)[b]);
    }
    assert(again =~= codes);
}

/// The codes of one depth over some frames.
pub open spec fn column(frames: Seq<Seq<usize>>, depth: int) -> Seq<usize> {
    Seq::new(frames.len(), |i: int| frames[i][depth])
}

/// That `drafters` are a cold drafter, and what it is after each of `frames`.
pub open spec fn watches(drafters: Seq<FrankenMtpDrafter>, frames: Seq<Seq<usize>>) -> bool {
    &&& drafters.len() == frames.len() + 1
    &&& drafters[0].cold()
    &&& forall|i: int|
        0 <= i < frames.len() ==> drafters[i].learns(drafters[i + 1], #[trigger] frames[i])
}

/// What a bucket has learned from the codes of its depth.
pub open spec fn sketch(codes: Seq<usize>, b: int) -> TransitionBucket
    decreases codes.len(),
{
    if codes.len() < 2 {
        empty_bucket()
    } else {
        let before = sketch(codes.drop_last(), b);
        let source = codes[codes.len() - 2] as int;
        if b == source % (TRANSITION_BUCKETS as int) {
            learned(before, source, codes.last() as int)
        } else {
            before
        }
    }
}

/// What is proposed after the codes of a depth.
pub open spec fn proposed(codes: Seq<usize>) -> int {
    if codes.len() == 0 {
        0
    } else {
        let source = codes.last() as int;
        let bucket = sketch(codes, source % (TRANSITION_BUCKETS as int));
        if bucket.source == source && bucket.count > 0 {
            bucket.target as int
        } else {
            source
        }
    }
}

/// The buckets of a depth are what its codes have made them.
proof fn lemma_buckets_are_sketches(
    drafters: Seq<FrankenMtpDrafter>,
    frames: Seq<Seq<usize>>,
    depth: int,
    b: int,
)
    requires
        watches(drafters, frames),
        0 <= depth < RESIDUAL_DEPTHS,
        0 <= b < TRANSITION_BUCKETS,
    ensures
        drafters.last().buckets(depth)[b] == sketch(column(frames, depth), b),
        drafters.last().previous() == if frames.len() == 0 {
            None
        } else {
            Some(frames.last())
        },
    decreases frames.len(),
{
    let n = frames.len() as int;
    if n > 0 {
        let fewer = frames.drop_last();
        let earlier = drafters.drop_last();
        assert forall|i: int| 0 <= i < fewer.len() implies earlier[i].learns(
            earlier[i + 1],
            #[trigger] fewer[i],
        ) by {
            assert(drafters[i].learns(drafters[i + 1], frames[i]));
        }
        lemma_buckets_are_sketches(earlier, fewer, depth, b);
        assert(drafters[n - 1].learns(drafters[n], frames[n - 1]));
        assert(column(frames, depth).drop_last() =~= column(fewer, depth));
        assert(drafters[n].buckets(depth)[b] == drafters.last().buckets(depth)[b]);
    }
}

/// A proposal owes only to codes seen at its own depth: it is a function of them alone, whatever
/// the other depths have seen.
pub proof fn law_depths_are_drafted_apart(
    drafters: Seq<FrankenMtpDrafter>,
    frames: Seq<Seq<usize>>,
    codes: Seq<usize>,
    depth: int,
)
    requires
        watches(drafters, frames),
        drafters.last().drafts(codes),
        0 <= depth < RESIDUAL_DEPTHS,
    ensures
        codes[depth] == proposed(column(frames, depth)),
{
    if frames.len() == 0 {
        lemma_buckets_are_sketches(drafters, frames, depth, 0);
    } else {
        let source = frames.last()[depth] as int;
        lemma_buckets_are_sketches(drafters, frames, depth, source % (TRANSITION_BUCKETS as int));
    }
    assert(codes[depth] == codes[depth]);
}

/// What a bucket counts was seen: its target followed its source.
proof fn lemma_sketch_was_seen(codes: Seq<usize>, b: int)
    requires
        forall|i: int| 0 <= i < codes.len() ==> #[trigger] codes[i] < RESIDUAL_VOCAB,
        sketch(codes, b).count > 0,
    ensures
        exists|i: int|
            0 < i < codes.len() && codes[i - 1] == sketch(codes, b).source && #[trigger] codes[i]
                == sketch(codes, b).target,
    decreases codes.len(),
{
    if codes.len() >= 2 {
        let fewer = codes.drop_last();
        let n = codes.len() - 1;
        let before = sketch(fewer, b);
        let now = sketch(codes, b);
        if before.count > 0 {
            assert forall|i: int| 0 <= i < fewer.len() implies #[trigger] fewer[i]
                < RESIDUAL_VOCAB by {
                assert(codes[i] < RESIDUAL_VOCAB);
            }
            lemma_sketch_was_seen(fewer, b);
            let i = choose|i: int|
                0 < i < fewer.len() && fewer[i - 1] == before.source && #[trigger] fewer[i]
                    == before.target;
            assert(codes[i] == before.target && codes[i - 1] == before.source);
        } else {
            assert(codes[n] < RESIDUAL_VOCAB && codes[n - 1] < RESIDUAL_VOCAB);
            assert(codes[n] == now.target && codes[n - 1] == now.source);
        }
    }
}

/// What is proposed at a depth was seen there: the last code again, or a code that has followed it.
pub proof fn law_proposals_were_seen(codes: Seq<usize>)
    requires
        codes.len() > 0,
        forall|i: int| 0 <= i < codes.len() ==> #[trigger] codes[i] < RESIDUAL_VOCAB,
    ensures
        proposed(codes) == codes.last() || exists|i: int|
            0 < i < codes.len() && codes[i - 1] == codes.last() && #[trigger] codes[i] == proposed(
                codes,
            ),
{
    let b = codes.last() as int % (TRANSITION_BUCKETS as int);
    if sketch(codes, b).count > 0 {
        lemma_sketch_was_seen(codes, b);
    }
}

/// A bucket with nothing in it learns a transition at once, and proposes it.
pub proof fn law_empty_bucket_learns(bucket: TransitionBucket, source: int, target: int)
    requires
        bucket.count == 0,
        0 <= source < RESIDUAL_VOCAB,
        0 <= target < RESIDUAL_VOCAB,
    ensures
        learned(bucket, source, target).source == source,
        learned(bucket, source, target).target == target,
        learned(bucket, source, target).count == 1,
{
}

/// What a bucket knows is only forgotten one contradiction at a time.
pub proof fn law_bucket_forgets_slowly(bucket: TransitionBucket, source: int, target: int)
    requires
        bucket.count > 0,
    ensures
        learned(bucket, source, target).source == bucket.source,
        learned(bucket, source, target).target == bucket.target,
        learned(bucket, source, target).count >= bucket.count - 1,
{
}

impl Default for FrankenMtpDrafter {
    fn default() -> (drafter: Self)
        ensures
            drafter.wf(),
            drafter.cold(),
    {
        Self::new()
    }
}

} // verus!
