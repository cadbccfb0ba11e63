//! Adaptive microdecoder depth, the canaries that guard it, and bit allocation over depths.
use vstd::prelude::*;
use crate::arith::{
    self, binary, constant, count, relation, truncate, unary, Arithmetic, Binary, Check, Constant,
    Relation, Unary,
};
use crate::rows::fill;
use crate::text::{self, numbered};

verus! {

/// Number of non-primary acoustic residual depths per frame.
pub const RESIDUAL_DEPTHS: usize = 15;

/// Vocabulary width for residual codebooks.
pub const RESIDUAL_VOCAB: usize = 2_048;

/// The depth at which an easy frame may stop.
pub const EARLY_EXIT_DEPTH: usize = 10;

/// The depth a fricative frame has to reach.
pub const FRICATIVE_DEPTH: usize = 14;

/// Steps of the water-filling search.
pub const WATER_STEPS: usize = 30;

/// The fewest bits a depth is given.
pub const FEWEST_BITS: usize = 4;

/// The most bits a depth is given.
pub const MOST_BITS: usize = 8;

/// Why a canary tripped.
#[derive(Clone, Copy, Debug, PartialEq, Eq, Structural)]
pub enum CanaryFailure {
    /// High-frequency energy collapsed.
    HighFrequencyLoss,
    /// A fricative stopped too early.
    SibilanceDistortion,
    /// The speaker embedding drifted from the reference.
    SpeakerIdentityDrift,
}

/// What the canaries say of a frame.
#[derive(Clone, Copy, Debug, PartialEq, Eq, Structural)]
pub enum CanaryVerdict {
    /// No canary tripped.
    Pass,
    /// A canary tripped; the frame's early exit has to be reverted.
    Trip(CanaryFailure),
}

/// How the depth of a frame is chosen.
pub struct AdaptiveDepthConfig<A: Arithmetic> {
    /// The depth no frame stops before.
    pub min_depth: usize,
    /// The full depth.
    pub max_depth: usize,
    /// Whether sibilants always run at full depth.
    pub sibilance_protection: bool,
    /// The entropy above which a frame is difficult.
    pub entropy_threshold: A::Scalar,
}

impl<A: Arithmetic> Default for AdaptiveDepthConfig<A> {
    /// Depths eight to fifteen, with sibilants protected.
    fn default() -> (config: Self)
        ensures
            config.min_depth == 8,
            config.max_depth == RESIDUAL_DEPTHS,
            config.sibilance_protection,
            arith::pure::<A>() ==> config.entropy_threshold == arith::cst::<A>(
                Constant::EntropyThreshold,
            ),
    {
        AdaptiveDepthConfig {
            min_depth: 8,
            max_depth: RESIDUAL_DEPTHS,
            sibilance_protection: true,
            entropy_threshold: constant::<A>(Constant::EntropyThreshold),
        }
    }
}

impl<A: Arithmetic> AdaptiveDepthConfig<A> {
    /// The depth of an easy frame: ten, kept between the two bounds, the upper one last.
    pub open spec fn early_depth(&self) -> int {
        let raised = if self.min_depth > EARLY_EXIT_DEPTH {
            self.min_depth as int
        } else {
            EARLY_EXIT_DEPTH as int
        };
        if raised > self.max_depth {
            self.max_depth as int
        } else {
            raised
        }
    }

    /// Whether a frame runs at full depth: a protected sibilant, or a difficult frame.
    pub open spec fn runs_full(&self, entropy: A::Scalar, is_sibilance_candidate: bool) -> bool {
        ||| self.sibilance_protection && is_sibilance_candidate
        ||| arith::rel::<A>(Relation::Less, self.entropy_threshold, entropy)
    }

    /// The depth of a frame.
    pub open spec fn depth_of(&self, entropy: A::Scalar, is_sibilance_candidate: bool) -> int {
        if self.runs_full(entropy, is_sibilance_candidate) {
            self.max_depth as int
        } else {
            self.early_depth()
        }
    }
}

/// The frames of the first `n` depths.
pub open spec fn frames_of(counts: Seq<usize>, n: int) -> int
    decreases n,
{
    if n <= 0 {
        0
    } else {
        frames_of(counts, n - 1) + counts[n - 1]
    }
}

/// The depth steps of the first `n` depths.
pub open spec fn steps_of(counts: Seq<usize>, n: int) -> int
    decreases n,
{
    if n <= 0 {
        0
    } else {
        steps_of(counts, n - 1) + (n - 1) * counts[n - 1]
    }
}

/// Chooses a depth for every frame, and keeps count.
pub struct AdaptiveDepthController<A: Arithmetic> {
    config: AdaptiveDepthConfig<A>,
    depth_histogram: [usize; 16],
    canary_trips: usize,
}

impl<A: Arithmetic> AdaptiveDepthController<A> {
    /// How it chooses.
    pub closed spec fn settings(&self) -> AdaptiveDepthConfig<A> {
        self.config
    }

    /// Frames run at each depth, from zero to fifteen.
    pub closed spec fn counts(&self) -> Seq<usize> {
        self.depth_histogram@
    }

    /// Canary trips reported.
    pub closed spec fn trips(&self) -> int {
        self.canary_trips as int
    }

    /// Frames counted.
    pub open spec fn frames(&self) -> int {
        frames_of(self.counts(), RESIDUAL_DEPTHS + 1)
    }

    /// Depth steps counted.
    pub open spec fn steps(&self) -> int {
        steps_of(self.counts(), RESIDUAL_DEPTHS + 1)
    }

    /// A controller that has seen no frame.
    pub fn new(config: AdaptiveDepthConfig<A>) -> (controller: Self)
        ensures
            controller.settings() == config,
            controller.counts() == Seq::new(16, |i: int| 0usize),
            controller.trips() == 0,
    {
        let controller = AdaptiveDepthController {
            config,
            depth_histogram: [0;16],
            canary_trips: 0,
        };
        proof {
            assert(controller.counts() =~= Seq::new(16, |i: int| 0usize));
        }
        controller
    }

    /// Chooses the depth of a frame from the entropy of the talker's logits and from whether the
    /// frame may be a sibilant, and counts the frame where its depth is one of the fifteen.
    pub fn decide_depth(&mut self, talker_logits_entropy: A::Scalar, is_sibilance_candidate: bool)
        -> (depth: usize)
        requires
            forall|d: int|
                0 <= d <= RESIDUAL_DEPTHS ==> #[trigger] old(self).counts()[d] < usize::MAX,
        ensures
            depth == old(self).settings().max_depth || depth
                == old(self).settings().early_depth(),
            old(self).settings().sibilance_protection && is_sibilance_candidate ==> depth
                == old(self).settings().max_depth,
            arith::pure::<A>() ==> depth == old(self).settings().depth_of(
                talker_logits_entropy,
                is_sibilance_candidate,
            ),
            final(self).settings() == old(self).settings(),
            final(self).trips() == old(self).trips(),
            final(self).counts() == (if depth <= RESIDUAL_DEPTHS {
                old(self).counts().update(
                    depth as int,
                    (old(self).counts()[depth as int] + 1) as usize,
                )
            } else {
                old(self).counts()
            }),
    {
        let chosen: usize = if self.config.sibilance_protection && is_sibilance_candidate {
            self.config.max_depth
        } else if relation::<A>(
            Relation::Less,
            self.config.entropy_threshold,
            talker_logits_entropy,
        ) {
            self.config.max_depth
        } else {
            let raised: usize = if self.config.min_depth > EARLY_EXIT_DEPTH {
                self.config.min_depth
            } else {
                EARLY_EXIT_DEPTH
            };
            if raised > self.config.max_depth {
                self.config.max_depth
            } else {
                raised
            }
        };
        if chosen <= RESIDUAL_DEPTHS {
            let seen: usize = self.depth_histogram[chosen];
            assert(seen == self.counts()[chosen as int]);
            self.depth_histogram[chosen] = seen + 1;
        }
        chosen
    }

    /// Counts a canary trip.
    pub fn report_canary_trip(&mut self, failure: CanaryFailure)
        requires
            old(self).trips() < usize::MAX,
        ensures
            final(self).trips() == old(self).trips() + 1,
            final(self).settings() == old(self).settings(),
            final(self).counts() == old(self).counts(),
    {
        self.canary_trips = self.canary_trips + 1;
    }

    /// Canary trips reported so far.
    pub fn canary_trip_count(&self) -> (trips: usize)
        ensures
            trips == self.trips(),
    {
        self.canary_trips
    }

    /// The mean depth of the frames counted, and the full depth where there were none.
    pub fn mean_depth<W: Arithmetic>(&self) -> (mean: W::Scalar)
        requires
            self.frames() <= usize::MAX,
            self.steps() <= usize::MAX,
        ensures
            arith::pure::<W>() ==> mean == (if self.frames() == 0 {
                arith::num::<W>(RESIDUAL_DEPTHS)
            } else {
                arith::bin::<W>(
                    Binary::Div,
                    arith::num::<W>(self.steps() as usize),
                    arith::num::<W>(self.frames() as usize),
                )
            }),
    {
        let mut frames: usize = 0;
        let mut steps: usize = 0;
        for depth in 0..16usize
            invariant
                self.frames() <= usize::MAX,
                self.steps() <= usize::MAX,
                frames == frames_of(self.counts(), depth as int),
                steps == steps_of(self.counts(), depth as int),
        {
            let seen: usize = self.depth_histogram[depth];
            proof {
                assert(seen == self.counts()[depth as int]);
                lemma_counts_grow(self.counts(), depth + 1, RESIDUAL_DEPTHS + 1);
                lemma_counts_grow(self.counts(), 0, depth as int);
                assert(0 <= depth * seen) by (nonlinear_arith)
                    requires
                        depth >= 0,
                        seen >= 0,
                ;
            }
            frames = frames + seen;
            steps = steps + depth * seen;
        }
        if frames == 0 {
            count::<W>(RESIDUAL_DEPTHS)
        } else {
            binary::<W>(Binary::Div, count::<W>(steps), count::<W>(frames))
        }
    }
}

/// More depths hold at least as many frames and steps.
proof fn lemma_counts_grow(counts: Seq<usize>, m: int, n: int)
    requires
        0 <= m <= n,
    ensures
        frames_of(counts, m) <= frames_of(counts, n),
        steps_of(counts, m) <= steps_of(counts, n),
    decreases n - m,
{
    if m < n {
        lemma_counts_grow(counts, m, n - 1);
        assert(0 <= (n - 1) * counts[n - 1]) by (nonlinear_arith)
            requires
                n >= 1,
                counts[n - 1] >= 0,
        ;
    }
}

/// One more frame at depth `d` is one more frame and `d` more steps, once `d` is among the depths.
proof fn lemma_one_more(counts: Seq<usize>, d: int, n: int)
    requires
        0 <= d < counts.len(),
        0 <= n <= counts.len(),
        counts[d] < usize::MAX,
    ensures
        frames_of(counts.update(d, (counts[d] + 1) as usize), n) == frames_of(counts, n) + (if d
            < n {
            1int
        } else {
            0
        }),
        steps_of(counts.update(d, (counts[d] + 1) as usize), n) == steps_of(counts, n) + (if d < n {
            d
        } else {
            0
        }),
    decreases n,
{
    if n > 0 {
        lemma_one_more(counts, d, n - 1);
        let next = counts.update(d, (counts[d] + 1) as usize);
        if d == n - 1 {
            assert(d * (counts[d] + 1) == d * counts[d] + d) by (nonlinear_arith);
        } else {
            assert(next[n - 1] == counts[n - 1]);
        }
    }
}

/// Evaluates a frame against the canaries.
#[derive(Clone, Debug, Default)]
pub struct SurgeryCanaryDetector;

/// What the canaries say: a fricative that stopped before its depth trips first, then energy
/// below half of the nominal.
pub open spec fn verdict_of<A: Arithmetic>(
    executed_depth: int,
    is_fricative_phoneme: bool,
    high_freq_energy_ratio: A::Scalar,
) -> CanaryVerdict {
    if is_fricative_phoneme && executed_depth < FRICATIVE_DEPTH {
        CanaryVerdict::Trip(CanaryFailure::SibilanceDistortion)
    } else if arith::rel::<A>(
        Relation::Less,
        high_freq_energy_ratio,
        arith::cst::<A>(Constant::Half),
    ) {
        CanaryVerdict::Trip(CanaryFailure::HighFrequencyLoss)
    } else {
        CanaryVerdict::Pass
    }
}

impl SurgeryCanaryDetector {
    /// Checks a frame for sibilance distortion and for a loss of high frequencies.
    pub fn evaluate_frame<A: Arithmetic>(
        &self,
        executed_depth: usize,
        is_fricative_phoneme: bool,
        high_freq_energy_ratio: A::Scalar,
    ) -> (verdict: CanaryVerdict)
        ensures
            is_fricative_phoneme && executed_depth < FRICATIVE_DEPTH <==> verdict
                == CanaryVerdict::Trip(CanaryFailure::SibilanceDistortion),
            verdict != CanaryVerdict::Trip(CanaryFailure::SpeakerIdentityDrift),
            arith::pure::<A>() ==> verdict == verdict_of::<A>(
                executed_depth as int,
                is_fricative_phoneme,
                high_freq_energy_ratio,
            ),
    {
        if is_fricative_phoneme && executed_depth < FRICATIVE_DEPTH {
            return CanaryVerdict::Trip(CanaryFailure::SibilanceDistortion);
        }
        if relation::<A>(
            Relation::Less,
            high_freq_energy_ratio,
            constant::<A>(Constant::Half),
        ) {
            return CanaryVerdict::Trip(CanaryFailure::HighFrequencyLoss);
        }
        CanaryVerdict::Pass
    }
}

/// The logarithm of a variance, floored.
pub open spec fn log_variance<A: Arithmetic>(v: A::Scalar) -> A::Scalar {
    arith::un::<A>(
        Unary::Ln,
        arith::bin::<A>(Binary::Max, v, arith::cst::<A>(Constant::VarianceFloor)),
    )
}

/// The logarithms of variances.
pub open spec fn log_variances<A: Arithmetic>(variances: Seq<A::Scalar>) -> Seq<A::Scalar> {
    Seq::new(variances.len(), |i: int| log_variance::<A>(variances[i]))
}

/// Half the height of a depth above a water level, rounded.
pub open spec fn rounded_height<A: Arithmetic>(
    log_variance: A::Scalar,
    level: A::Scalar,
) -> A::Scalar {
    arith::un::<A>(
        Unary::Round,
        arith::bin::<A>(
            Binary::Mul,
            arith::cst::<A>(Constant::Half),
            arith::bin::<A>(Binary::Sub, log_variance, level),
        ),
    )
}

/// A whole number of bits, kept between the fewest and the most.
pub open spec fn kept_bits(bits: usize) -> u8 {
    if bits < FEWEST_BITS {
        FEWEST_BITS as u8
    } else if bits > MOST_BITS {
        MOST_BITS as u8
    } else {
        bits as u8
    }
}

/// The bits a depth is given at one water level: half its height above the level, rounded, kept
/// between the fewest and the most.
pub open spec fn bits_of<A: Arithmetic>(log_variance: A::Scalar, level: A::Scalar) -> u8 {
    let rounded = rounded_height::<A>(log_variance, level);
    if arith::rel::<A>(Relation::Less, rounded, arith::num::<A>(FEWEST_BITS)) {
        FEWEST_BITS as u8
    } else if arith::rel::<A>(Relation::Less, arith::num::<A>(MOST_BITS), rounded) {
        MOST_BITS as u8
    } else {
        kept_bits(arith::trunc::<A>(rounded))
    }
}

/// The bits of every depth at one water level.
pub open spec fn all_bits<A: Arithmetic>(logs: Seq<A::Scalar>, level: A::Scalar) -> Seq<u8> {
    Seq::new(logs.len(), |i: int| bits_of::<A>(logs[i], level))
}

/// The fewest bits for every depth.
pub open spec fn fewest_bits() -> Seq<u8> {
    Seq::new(RESIDUAL_DEPTHS as nat, |i: int| FEWEST_BITS as u8)
}

/// That every depth has between the fewest and the most bits.
pub open spec fn in_range(bits: Seq<u8>) -> bool {
    forall|i: int| 0 <= i < bits.len() ==> FEWEST_BITS <= #[trigger] bits[i] <= MOST_BITS
}

/// The bits of the first `n` depths together.
pub open spec fn spent(bits: Seq<u8>, n: int) -> int
    decreases n,
{
    if n <= 0 {
        0
    } else {
        spent(bits, n - 1) + bits[n - 1]
    }
}

/// That an allocation stays within the budget: its bits are at most the target for every depth.
pub open spec fn within<A: Arithmetic>(bits: Seq<u8>, target: A::Scalar) -> bool {
    arith::rel::<A>(
        Relation::AtMost,
        arith::num::<A>(spent(bits, bits.len() as int) as usize),
        arith::bin::<A>(Binary::Mul, arith::num::<A>(RESIDUAL_DEPTHS), target),
    )
}

/// The middle of two bounds.
pub open spec fn middle<A: Arithmetic>(bounds: (A::Scalar, A::Scalar)) -> A::Scalar {
    arith::bin::<A>(
        Binary::Mul,
        arith::bin::<A>(Binary::Add, bounds.0, bounds.1),
        arith::cst::<A>(Constant::Half),
    )
}

/// The water level's bounds after `n` steps: each step moves one of them to the middle, the upper
/// one where the middle stays within the budget.
pub open spec fn water_bounds<A: Arithmetic>(
    logs: Seq<A::Scalar>,
    target: A::Scalar,
    n: int,
) -> (A::Scalar, A::Scalar)
    decreases n,
{
    if n <= 0 {
        let bound = arith::cst::<A>(Constant::WaterBound);
        (arith::un::<A>(Unary::Neg, bound), bound)
    } else {
        let bounds = water_bounds::<A>(logs, target, n - 1);
        let level = middle::<A>(bounds);
        if within::<A>(all_bits::<A>(logs, level), target) {
            (bounds.0, level)
        } else {
            (level, bounds.1)
        }
    }
}

/// The level that step `n` tries.
pub open spec fn level_of<A: Arithmetic>(
    logs: Seq<A::Scalar>,
    target: A::Scalar,
    n: int,
) -> A::Scalar {
    middle::<A>(water_bounds::<A>(logs, target, n))
}

/// The last of the first `n` levels that stays within the budget gives its bits, and where none
/// does, every depth has the fewest.
pub open spec fn best_bits<A: Arithmetic>(
    logs: Seq<A::Scalar>,
    target: A::Scalar,
    n: int,
) -> Seq<u8>
    decreases n,
{
    if n <= 0 {
        fewest_bits()
    } else {
        let bits = all_bits::<A>(logs, level_of::<A>(logs, target, n - 1));
        if within::<A>(bits, target) {
            bits
        } else {
            best_bits::<A>(logs, target, n - 1)
        }
    }
}

/// The allocation.
pub open spec fn allocation_of<A: Arithmetic>(variances: Seq<A::Scalar>, target: A::Scalar) -> Seq<
    u8,
> {
    best_bits::<A>(log_variances::<A>(variances), target, WATER_STEPS as int)
}

/// The bits a depth is given at one water level.
fn bits_at<A: Arithmetic>(log_variance: A::Scalar, level: A::Scalar) -> (bits: u8)
    ensures
        FEWEST_BITS <= bits <= MOST_BITS,
        arith::pure::<A>() ==> bits == bits_of::<A>(log_variance, level),
{
    let height = binary::<A>(Binary::Sub, log_variance, level);
    let rounded = unary::<A>(
        Unary::Round,
        binary::<A>(Binary::Mul, constant::<A>(Constant::Half), height),
    );
    if relation::<A>(Relation::Less, rounded, count::<A>(FEWEST_BITS)) {
        return FEWEST_BITS as u8;
    }
    if relation::<A>(Relation::Less, count::<A>(MOST_BITS), rounded) {
        return MOST_BITS as u8;
    }
    let bits: usize = truncate::<A>(rounded);
    if bits < FEWEST_BITS {
        FEWEST_BITS as u8
    } else if bits > MOST_BITS {
        MOST_BITS as u8
    } else {
        bits as u8
    }
}

/// Allocates bits over depths by reverse water-filling.
pub struct Af1BitAllocator<A: Arithmetic> {
    /// The average number of bits to spend.
    pub target_average_bits: A::Scalar,
}

/// The name of one depth in an allocation table.
pub open spec fn depth_name(depth: int) -> Seq<char> {
    "residual_codebook_depth_"@ + text::decimal_of(depth as nat)
}

impl<A: Arithmetic> Af1BitAllocator<A> {
    /// An allocator for a budget.
    pub fn new(target_average_bits: A::Scalar) -> (allocator: Self)
        ensures
            allocator.target_average_bits == target_average_bits,
    {
        Af1BitAllocator { target_average_bits }
    }

    /// Allocates bits to fifteen depths from their variances.
    ///
    /// Every depth has between four and eight bits, and all of them together no more than the
    /// target for every depth, where the target leaves room for the fewest.
    pub fn allocate_depth_bits(&self, depth_variances: &[A::Scalar]) -> (bits: Vec<u8>)
        requires
            depth_variances@.len() == RESIDUAL_DEPTHS,
        ensures
            bits@.len() == RESIDUAL_DEPTHS,
            in_range(bits@),
            arith::pure::<A>() ==> {
                &&& within::<A>(fewest_bits(), self.target_average_bits) ==> within::<A>(
                    bits@,
                    self.target_average_bits,
                )
                &&& bits@ == allocation_of::<A>(depth_variances@, self.target_average_bits)
                &&& keeps_order::<A>() && levels_are_finite::<A>(
                    depth_variances@,
                    self.target_average_bits,
                ) ==> forall|i: int, j: int|
                    #![trigger bits@[i], bits@[j]]
                    0 <= i < RESIDUAL_DEPTHS && 0 <= j < RESIDUAL_DEPTHS && arith::rel::<A>(
                        Relation::AtMost,
                        depth_variances@[j],
                        depth_variances@[i],
                    ) ==> bits@[j] <= bits@[i]
            },
    {
        let mut logs: Vec<A::Scalar> = Vec::new();
        for i in 0..RESIDUAL_DEPTHS
            invariant
                depth_variances@.len() == RESIDUAL_DEPTHS,
                logs@.len() == i,
                arith::pure::<A>() ==> forall|j: int|
                    0 <= j < i ==> #[trigger] logs@[j] == log_variance::<A>(depth_variances@[j]),
        {
            let floored = binary::<A>(
                Binary::Max,
                depth_variances[i],
                constant::<A>(Constant::VarianceFloor),
            );
            logs.push(unary::<A>(Unary::Ln, floored));
        }
        let budget = binary::<A>(
            Binary::Mul,
            count::<A>(RESIDUAL_DEPTHS),
            self.target_average_bits,
        );
        let mut high = constant::<A>(Constant::WaterBound);
        let mut low = unary::<A>(Unary::Neg, high);
        let mut best: Vec<u8> = fill(RESIDUAL_DEPTHS, FEWEST_BITS as u8);
        proof {
            assert(best@ =~= fewest_bits());
            if arith::pure::<A>() {
                assert(logs@ =~= log_variances::<A>(depth_variances@));
            }
        }
        for step in 0..WATER_STEPS
            invariant
                logs@.len() == RESIDUAL_DEPTHS,
                best@.len() == RESIDUAL_DEPTHS,
                in_range(best@),
                arith::pure::<A>() ==> {
                    &&& budget == arith::bin::<A>(
                        Binary::Mul,
                        arith::num::<A>(RESIDUAL_DEPTHS),
                        self.target_average_bits,
                    )
                    &&& (low, high) == water_bounds::<A>(
                        logs@,
                        self.target_average_bits,
                        step as int,
                    )
                    &&& best@ == best_bits::<A>(logs@, self.target_average_bits, step as int)
                    &&& within::<A>(fewest_bits(), self.target_average_bits) ==> within::<A>(
                        best@,
                        self.target_average_bits,
                    )
                },
        {
            let level = binary::<A>(
                Binary::Mul,
                binary::<A>(Binary::Add, low, high),
                constant::<A>(Constant::Half),
            );
            let mut total: usize = 0;
            let mut current: Vec<u8> = Vec::new();
            for i in 0..RESIDUAL_DEPTHS
                invariant
                    logs@.len() == RESIDUAL_DEPTHS,
                    current@.len() == i,
                    in_range(current@),
                    total == spent(current@, i as int),
                    total <= i * MOST_BITS,
                    arith::pure::<A>() ==> forall|j: int|
                        0 <= j < i ==> #[trigger] current@[j] == bits_of::<A>(logs@[j], level),
            {
                let bits: u8 = bits_at::<A>(logs[i], level);
                let ghost before = current@;
                current.push(bits);
                proof {
                    lemma_spent_alike(before, current@, i as int);
                }
                total = total + bits as usize;
            }
            proof {
                if arith::pure::<A>() {
                    assert(current@ =~= all_bits::<A>(logs@, level));
                }
            }
            if relation::<A>(Relation::AtMost, count::<A>(total), budget) {
                high = level;
                best = current;
            } else {
                low = level;
            }
        }
        proof {
            let target = self.target_average_bits;
            if arith::pure::<A>() && keeps_order::<A>() && levels_are_finite::<A>(
                depth_variances@,
                target,
            ) {
                assert forall|i: int, j: int|
                    #![trigger best@[i], best@[j]]
                    0 <= i < RESIDUAL_DEPTHS && 0 <= j < RESIDUAL_DEPTHS && arith::rel::<A>(
                        Relation::AtMost,
                        depth_variances@[j],
                        depth_variances@[i],
                    ) implies best@[j] <= best@[i] by {
                    law_larger_variances_get_no_fewer_bits::<A>(depth_variances@, target, i, j);
                }
            }
        }
        best
    }

    /// The allocation as a table: one named entry per depth, counted from one.
    pub fn to_allocation_table(&self, depth_bits: &[u8]) -> (table: Vec<(String, u8)>)
        ensures
            table@.len() == depth_bits@.len(),
            forall|d: int|
                0 <= d < depth_bits@.len() ==> {
                    &&& (#[trigger] table@[d]).0@ == depth_name(d + 1)
                    &&& table@[d].1 == depth_bits@[d]
                },
    {
        let mut table: Vec<(String, u8)> = Vec::new();
        for depth in 0..depth_bits.len()
            invariant
                table@.len() == depth,
                forall|d: int|
                    0 <= d < depth ==> {
                        &&& (#[trigger] table@[d]).0@ == depth_name(d + 1)
                        &&& table@[d].1 == depth_bits@[d]
                    },
        {
            table.push((numbered("residual_codebook_depth_", depth + 1), depth_bits[depth]));
        }
        table
    }
}

/// Bits that are alike spend alike.
proof fn lemma_spent_alike(a: Seq<u8>, b: Seq<u8>, n: int)
    requires
        n <= a.len(),
        n <= b.len(),
        forall|i: int| 0 <= i < n ==> a[i] == b[i],
    ensures
        spent(a, n) == spent(b, n),
    decreases n,
{
    if n > 0 {
        lemma_spent_alike(a, b, n - 1);
    }
}

/// A protected sibilant runs at full depth, whatever its entropy.
pub proof fn law_sibilants_run_at_full_depth<A: Arithmetic>(
    config: AdaptiveDepthConfig<A>,
    entropy: A::Scalar,
)
    requires
        config.sibilance_protection,
    ensures
        config.depth_of(entropy, true) == config.max_depth,
{
}

/// No frame stops before the lower bound, none runs past the upper one, and none stops before
/// depth ten that has ten to run.
pub proof fn law_depth_stays_in_bounds<A: Arithmetic>(
    config: AdaptiveDepthConfig<A>,
    entropy: A::Scalar,
    is_sibilance_candidate: bool,
)
    requires
        config.min_depth <= config.max_depth,
    ensures
        config.min_depth <= config.depth_of(entropy, is_sibilance_candidate) <= config.max_depth,
        config.max_depth >= EARLY_EXIT_DEPTH ==> config.depth_of(entropy, is_sibilance_candidate)
            >= EARLY_EXIT_DEPTH,
{
}

/// A protected sibilant whose full depth is all fifteen never trips the sibilance canary.
pub proof fn law_protected_sibilants_pass_their_canary<A: Arithmetic>(
    config: AdaptiveDepthConfig<A>,
    entropy: A::Scalar,
    ratio: A::Scalar,
)
    requires
        config.sibilance_protection,
        config.max_depth == RESIDUAL_DEPTHS,
    ensures
        verdict_of::<A>(config.depth_of(entropy, true), true, ratio) != CanaryVerdict::Trip(
            CanaryFailure::SibilanceDistortion,
        ),
{
}

/// Counting a frame at depth `d` adds one frame and `d` steps, so that the mean is the mean of the
/// depths that were chosen.
pub proof fn law_a_frame_counts_once(counts: Seq<usize>, d: int)
    requires
        counts.len() == RESIDUAL_DEPTHS + 1,
        0 <= d <= RESIDUAL_DEPTHS,
        counts[d] < usize::MAX,
    ensures
        frames_of(counts.update(d, (counts[d] + 1) as usize), RESIDUAL_DEPTHS + 1) == frames_of(
            counts,
            RESIDUAL_DEPTHS + 1,
        ) + 1,
        steps_of(counts.update(d, (counts[d] + 1) as usize), RESIDUAL_DEPTHS + 1) == steps_of(
            counts,
            RESIDUAL_DEPTHS + 1,
        ) + d,
{
    lemma_one_more(counts, d, RESIDUAL_DEPTHS + 1);
}

/// Every depth has between the fewest and the most bits.
pub proof fn law_bits_stay_in_range<A: Arithmetic>(
    logs: Seq<A::Scalar>,
    target: A::Scalar,
    n: int,
)
    ensures
        in_range(best_bits::<A>(logs, target, n)),
    decreases n,
{
    if n > 0 {
        law_bits_stay_in_range::<A>(logs, target, n - 1);
    }
}

/// The budget holds wherever the fewest bits for every depth are within it.
pub proof fn law_the_budget_holds<A: Arithmetic>(logs: Seq<A::Scalar>, target: A::Scalar, n: int)
    requires
        within::<A>(fewest_bits(), target),
    ensures
        within::<A>(best_bits::<A>(logs, target, n), target),
    decreases n,
{
    if n > 0 {
        law_the_budget_holds::<A>(logs, target, n - 1);
    }
}

/// That the primitives of the allocation keep the order of their arguments.
pub open spec fn keeps_order<A: Arithmetic>() -> bool {
    &&& forall|a: A::Scalar, b: A::Scalar|
        arith::rel::<A>(Relation::AtMost, a, b) ==> #[trigger] arith::rel::<A>(
            Relation::AtMost,
            log_variance::<A>(a),
            log_variance::<A>(b),
        )
    &&& forall|a: A::Scalar, b: A::Scalar, level: A::Scalar|
        arith::chk::<A>(Check::Finite, level) && arith::rel::<A>(Relation::AtMost, a, b)
            ==> #[trigger] arith::rel::<A>(
            Relation::AtMost,
            rounded_height::<A>(a, level),
            rounded_height::<A>(b, level),
        )
    &&& forall|a: A::Scalar, b: A::Scalar, c: A::Scalar|
        #[trigger] arith::rel::<A>(Relation::AtMost, a, b) && #[trigger] arith::rel::<A>(
            Relation::Less,
            b,
            c,
        ) ==> arith::rel::<A>(Relation::Less, a, c)
    &&& forall|a: A::Scalar, b: A::Scalar, c: A::Scalar|
        #[trigger] arith::rel::<A>(Relation::Less, c, a) && #[trigger] arith::rel::<A>(
            Relation::AtMost,
            a,
            b,
        ) ==> arith::rel::<A>(Relation::Less, c, b)
    &&& forall|a: A::Scalar, b: A::Scalar| #[trigger]
        arith::rel::<A>(Relation::AtMost, a, b) ==> arith::trunc::<A>(a) <= arith::trunc::<A>(b)
}

/// That every water level tried is a finite number.
pub open spec fn levels_are_finite<A: Arithmetic>(
    variances: Seq<A::Scalar>,
    target: A::Scalar,
) -> bool {
    forall|n: int|
        0 <= n < WATER_STEPS ==> arith::chk::<A>(
            Check::Finite,
            #[trigger] level_of::<A>(log_variances::<A>(variances), target, n),
        )
}

/// Where the primitives keep order and every level tried is finite, a depth of larger variance is
/// given no fewer bits.
pub proof fn law_larger_variances_get_no_fewer_bits<A: Arithmetic>(
    variances: Seq<A::Scalar>,
    target: A::Scalar,
    i: int,
    j: int,
)
    requires
        variances.len() == RESIDUAL_DEPTHS,
        0 <= i < variances.len(),
        0 <= j < variances.len(),
        arith::rel::<A>(Relation::AtMost, variances[j], variances[i]),
        keeps_order::<A>(),
        levels_are_finite::<A>(variances, target),
    ensures
        allocation_of::<A>(variances, target)[j] <= allocation_of::<A>(variances, target)[i],
{
    lemma_order_is_kept::<A>(variances, target, i, j, WATER_STEPS as int);
}

/// The same after `n` levels.
proof fn lemma_order_is_kept<A: Arithmetic>(
    variances: Seq<A::Scalar>,
    target: A::Scalar,
    i: int,
    j: int,
    n: int,
)
    requires
        variances.len() == RESIDUAL_DEPTHS,
        0 <= i < variances.len(),
        0 <= j < variances.len(),
        arith::rel::<A>(Relation::AtMost, variances[j], variances[i]),
        keeps_order::<A>(),
        n <= WATER_STEPS,
        levels_are_finite::<A>(variances, target),
    ensures
        best_bits::<A>(log_variances::<A>(variances), target, n)[j] <= best_bits::<A>(
            log_variances::<A>(variances),
            target,
            n,
        )[i],
    decreases n,
{
    if n > 0 {
        let logs = log_variances::<A>(variances);
        let level = level_of::<A>(logs, target, n - 1);
        lemma_order_is_kept::<A>(variances, target, i, j, n - 1);
        assert(arith::rel::<A>(
            Relation::AtMost,
            log_variance::<A>(variances[j]),
            log_variance::<A>(variances[i]),
        ));
        assert(arith::rel::<A>(
            Relation::AtMost,
            rounded_height::<A>(logs[j], level),
            rounded_height::<A>(logs[i], level),
        ));
        assert(bits_of::<A>(logs[j], level) <= bits_of::<A>(logs[i], level));
    }
}

/// Two depths of one variance are given the same bits.
pub proof fn law_equal_variances_get_equal_bits<A: Arithmetic>(
    variances: Seq<A::Scalar>,
    target: A::Scalar,
    i: int,
    j: int,
)
    requires
        variances.len() == RESIDUAL_DEPTHS,
        0 <= i < variances.len(),
        0 <= j < variances.len(),
        variances[i] == variances[j],
    ensures
        allocation_of::<A>(variances, target)[i] == allocation_of::<A>(variances, target)[j],
{
    lemma_equal_bits::<A>(log_variances::<A>(variances), target, i, j, WATER_STEPS as int);
}

/// The same after `n` levels.
proof fn lemma_equal_bits<A: Arithmetic>(
    logs: Seq<A::Scalar>,
    target: A::Scalar,
    i: int,
    j: int,
    n: int,
)
    requires
        logs.len() == RESIDUAL_DEPTHS,
        0 <= i < logs.len(),
        0 <= j < logs.len(),
        logs[i] == logs[j],
    ensures
        best_bits::<A>(logs, target, n)[i] == best_bits::<A>(logs, target, n)[j],
    decreases n,
{
    if n > 0 {
        lemma_equal_bits::<A>(logs, target, i, j, n - 1);
    }
}

/// No two depths share a name in the table.
pub proof fn law_depth_names_are_distinct(i: int, j: int)
    requires
        0 <= i,
        0 <= j,
        depth_name(i) == depth_name(j),
    ensures
        i == j,
{
    let prefix = "residual_codebook_depth_"@;
    let a = text::decimal_of(i as nat);
    let b = text::decimal_of(j as nat);
    assert(depth_name(i).skip(prefix.len() as int) =~= a);
    assert(depth_name(j).skip(prefix.len() as int) =~= b);
    text::law_decimal_is_injective(i as nat, j as nat);
}

} // verus!
