//! Draft engines that propose a whole frame of residual codes.
//!
//! Every engine here only proposes. What it proposes is verified before a code is emitted, so a
//! poor engine costs time and never changes a frame.
use vstd::prelude::*;
use vstd::string::StringExecFns;
use crate::arith::{self, binary, constant, count, relation, truncate, unary, Arithmetic, Binary, Constant, Relation, Unary};
use crate::rows::{self, fill};
use crate::text::{self, decimal};

verus! {

/// Number of acoustic residual depths predicted per frame.
pub const RESIDUAL_DEPTHS: usize = 15;

/// Number of residual vocabulary classes per depth.
pub const RESIDUAL_VOCAB: usize = 2_048;

/// The largest magnitude of a stored weight.
pub const DRAFT_PEAK: usize = 127;

/// Which kind of engine a stored draft holds.
#[derive(Clone, Copy, Debug, PartialEq, Eq, Structural)]
pub enum DrafterType {
    /// A distilled student.
    DistilledMtp,
    /// Parallel heads.
    ParallelHeads,
}

/// What a stored draft says of itself.
#[derive(Clone, Debug)]
pub struct DraftHeader {
    /// Hash of the model the draft was made for.
    pub base_model_hash: String,
    /// Version of the engine interface it was made for.
    pub engine_abi_version: u32,
    /// The kind of engine.
    pub drafter_type: DrafterType,
    /// The engine's name.
    pub drafter_name: String,
    /// Whether the draft has been switched off.
    pub is_kill_switched: bool,
    /// The depths it drafts, counted from one.
    pub target_layers: Vec<u32>,
    /// Further facts, by ascending key.
    pub metadata: Vec<(String, String)>,
}

/// One stored weight matrix.
#[derive(Clone, Debug)]
pub struct DraftTensor<S> {
    /// The tensor's name.
    pub name: String,
    /// Rows of the matrix.
    pub rows: usize,
    /// Columns of the matrix.
    pub cols: usize,
    /// One scale per row.
    pub scales: Vec<S>,
    /// The weights, row by row.
    pub data: Vec<i8>,
}

/// A draft engine in the form in which it is stored.
#[derive(Clone, Debug)]
pub struct DraftArtifact<S> {
    /// What it says of itself.
    pub header: DraftHeader,
    /// Its one weight matrix.
    pub tensor: DraftTensor<S>,
}

/// The words that tell one engine's stored draft from another's.
pub struct DraftLabels {
    /// The kind of engine.
    pub drafter_type: DrafterType,
    /// The engine's name.
    pub drafter_name: &'static str,
    /// Its place in the ladder.
    pub ladder_rung: &'static str,
    /// Its architecture.
    pub architecture: &'static str,
    /// The name of its weight matrix.
    pub tensor: &'static str,
}

/// The sum of the first `n` products, left to right from `seed`.
pub open spec fn seeded_dot<A: Arithmetic>(
    seed: A::Scalar,
    x: Seq<A::Scalar>,
    y: Seq<A::Scalar>,
    n: int,
) -> A::Scalar
    decreases n,
{
    if n <= 0 {
        seed
    } else {
        arith::bin::<A>(
            Binary::Add,
            seeded_dot::<A>(seed, x, y, n - 1),
            arith::bin::<A>(Binary::Mul, x[n - 1], y[n - 1]),
        )
    }
}

/// A starting weight: a whole number below a hundred, as a fraction around zero.
pub open spec fn start_weight<A: Arithmetic>(i: int, factor: int, shift: int) -> A::Scalar {
    arith::bin::<A>(
        Binary::Sub,
        arith::bin::<A>(
            Binary::Div,
            arith::num::<A>(((i * factor + shift) % 100) as usize),
            arith::cst::<A>(Constant::Hundred),
        ),
        arith::cst::<A>(Constant::Half),
    )
}

/// The code a projection stands for: its scaled magnitude, rounded down, on top of `bonus`, inside
/// the vocabulary.
pub open spec fn code_of<A: Arithmetic>(value: A::Scalar, scale: Constant, bonus: int) -> int {
    (arith::trunc::<A>(
        arith::bin::<A>(Binary::Mul, arith::un::<A>(Unary::Abs, value), arith::cst::<A>(scale)),
    ) + bonus) % (RESIDUAL_VOCAB as int)
}

/// A weight as stored: scaled to the peak, cut off there, and rounded toward zero.
pub open spec fn stored_weight<A: Arithmetic>(w: A::Scalar) -> int {
    let peak = arith::cst::<A>(Constant::DraftPeak);
    let floor = arith::un::<A>(Unary::Neg, peak);
    let scaled = arith::bin::<A>(Binary::Mul, w, peak);
    if arith::rel::<A>(Relation::Less, scaled, floor) {
        -DRAFT_PEAK
    } else if arith::rel::<A>(Relation::Less, peak, scaled) {
        DRAFT_PEAK as int
    } else if arith::rel::<A>(Relation::Less, scaled, arith::cst::<A>(Constant::Zero)) {
        -at_most_peak(arith::trunc::<A>(arith::un::<A>(Unary::Neg, scaled)) as int)
    } else {
        at_most_peak(arith::trunc::<A>(scaled) as int)
    }
}

/// A magnitude cut off at the peak.
pub open spec fn at_most_peak(n: int) -> int {
    if n > DRAFT_PEAK {
        DRAFT_PEAK as int
    } else {
        n
    }
}

/// The codes of a frame, where there is one.
pub open spec fn codes_of(previous: Option<&[usize; 15]>) -> Option<Seq<usize>> {
    match previous {
        Some(codes) => Some(codes@),
        None => None,
    }
}

/// That `metadata` holds the three facts of a ladder draft, by ascending key.
pub open spec fn describes(
    metadata: Seq<(String, String)>,
    labels: DraftLabels,
    hidden_size: int,
) -> bool {
    &&& metadata.len() == 3
    &&& metadata[0].0@ == "architecture"@
    &&& metadata[0].1@ == labels.architecture@
    &&& metadata[1].0@ == "hidden_size"@
    &&& metadata[1].1@ == text::decimal_of(hidden_size as nat)
    &&& metadata[2].0@ == "ladder_rung"@
    &&& metadata[2].1@ == labels.ladder_rung@
}

/// That `draft` is how an engine with these labels and `[15, hidden_size]` weights is stored.
pub open spec fn packages<A: Arithmetic>(
    draft: DraftArtifact<A::Scalar>,
    labels: DraftLabels,
    hidden_size: int,
    weights: Seq<A::Scalar>,
    base_model_hash: Seq<char>,
    engine_abi_version: u32,
) -> bool {
    &&& draft.header.base_model_hash@ == base_model_hash
    &&& draft.header.engine_abi_version == engine_abi_version
    &&& draft.header.drafter_type == labels.drafter_type
    &&& draft.header.drafter_name@ == labels.drafter_name@
    &&& !draft.header.is_kill_switched
    &&& draft.header.target_layers@ == Seq::new(
        RESIDUAL_DEPTHS as nat,
        |i: int| (i + 1) as u32,
    )
    &&& describes(draft.header.metadata@, labels, hidden_size)
    &&& draft.tensor.name@ == labels.tensor@
    &&& draft.tensor.rows == RESIDUAL_DEPTHS
    &&& draft.tensor.cols == hidden_size
    &&& draft.tensor.data@.len() == weights.len()
    &&& draft.tensor.scales@.len() == RESIDUAL_DEPTHS
    &&& forall|i: int|
        0 <= i < weights.len() ==> -DRAFT_PEAK <= #[trigger] draft.tensor.data@[i] <= DRAFT_PEAK
    &&& arith::pure::<A>() ==> {
        &&& draft.tensor.scales@ == rows::filled(
            RESIDUAL_DEPTHS as int,
            arith::cst::<A>(Constant::One),
        )
        &&& forall|i: int|
            0 <= i < weights.len() ==> #[trigger] draft.tensor.data@[i] == stored_weight::<A>(
                weights[i],
            )
    }
}

/// The left-to-right sum of products from a seed, over the width both vectors have.
fn seeded_dot_product<A: Arithmetic>(
    seed: A::Scalar,
    x: &[A::Scalar],
    y: &[A::Scalar],
    offset: usize,
    n: usize,
) -> (r: A::Scalar)
    requires
        n <= x@.len(),
        offset + n <= y@.len(),
    ensures
        arith::pure::<A>() ==> r == seeded_dot::<A>(seed, x@, y@.skip(offset as int), n as int),
{
    let mut sum = seed;
    let stored: usize = y.len();
    for i in 0..n
        invariant
            n <= x@.len(),
            offset + n <= y@.len(),
            stored == y@.len(),
            arith::pure::<A>() ==> sum == seeded_dot::<A>(
                seed,
                x@,
                y@.skip(offset as int),
                i as int,
            ),
    {
        proof {
            assert(y@.skip(offset as int)[i as int] == y@[offset + i]);
        }
        sum = binary::<A>(Binary::Add, sum, binary::<A>(Binary::Mul, x[i], y[offset + i]));
    }
    sum
}

/// The code a projection stands for.
fn code_for<A: Arithmetic>(value: A::Scalar, scale: Constant, bonus: usize) -> (code: usize)
    ensures
        code < RESIDUAL_VOCAB,
        arith::pure::<A>() ==> code == code_of::<A>(value, scale, bonus as int),
{
    let magnitude = unary::<A>(Unary::Abs, value);
    let steps: usize = truncate::<A>(
        binary::<A>(Binary::Mul, magnitude, constant::<A>(scale)),
    );
    proof {
        vstd::arithmetic::div_mod::lemma_add_mod_noop(
            steps as int,
            bonus as int,
            RESIDUAL_VOCAB as int,
        );
    }
    (steps % RESIDUAL_VOCAB + bonus % RESIDUAL_VOCAB) % RESIDUAL_VOCAB
}

/// The starting weights of `[15, hidden_size]` heads.
fn start_weights<A: Arithmetic>(hidden_size: usize, factor: usize, shift: usize) -> (out: Vec<
    A::Scalar,
>)
    requires
        RESIDUAL_DEPTHS * hidden_size <= usize::MAX,
        factor <= 100,
        shift <= 100,
    ensures
        out@.len() == RESIDUAL_DEPTHS * hidden_size,
        arith::pure::<A>() ==> forall|i: int|
            0 <= i < out@.len() ==> #[trigger] out@[i] == start_weight::<A>(
                i,
                factor as int,
                shift as int,
            ),
{
    let n: usize = RESIDUAL_DEPTHS * hidden_size;
    let mut out: Vec<A::Scalar> = Vec::new();
    for i in 0..n
        invariant
            out@.len() == i,
            factor <= 100,
            shift <= 100,
            arith::pure::<A>() ==> forall|j: int|
                0 <= j < i ==> #[trigger] out@[j] == start_weight::<A>(
                    j,
                    factor as int,
                    shift as int,
                ),
    {
        let low: usize = i % 100;
        proof {
            assert(low * factor <= 100 * 100) by (nonlinear_arith)
                requires
                    low <= 100,
                    factor <= 100,
            ;
            vstd::arithmetic::div_mod::lemma_mul_mod_noop_left(i as int, factor as int, 100);
            vstd::arithmetic::div_mod::lemma_add_mod_noop(low * factor, shift as int, 100);
            vstd::arithmetic::div_mod::lemma_add_mod_noop(i * factor, shift as int, 100);
        }
        let step: usize = (low * factor + shift) % 100;
        assert(step == (i * factor + shift) % 100);
        let fraction = binary::<A>(
            Binary::Div,
            count::<A>(step),
            constant::<A>(Constant::Hundred),
        );
        out.push(binary::<A>(Binary::Sub, fraction, constant::<A>(Constant::Half)));
    }
    out
}

/// A magnitude cut off at the peak.
fn cut_at_peak(n: usize) -> (r: usize)
    ensures
        r == at_most_peak(n as int),
{
    if n > DRAFT_PEAK {
        DRAFT_PEAK
    } else {
        n
    }
}

/// A weight as stored.
fn store_weight<A: Arithmetic>(w: A::Scalar) -> (r: i8)
    ensures
        -DRAFT_PEAK <= r <= DRAFT_PEAK,
        arith::pure::<A>() ==> r == stored_weight::<A>(w),
{
    let peak = constant::<A>(Constant::DraftPeak);
    let floor = unary::<A>(Unary::Neg, peak);
    let scaled = binary::<A>(Binary::Mul, w, peak);
    if relation::<A>(Relation::Less, scaled, floor) {
        -127
    } else if relation::<A>(Relation::Less, peak, scaled) {
        127
    } else if relation::<A>(Relation::Less, scaled, constant::<A>(Constant::Zero)) {
        let steps: usize = cut_at_peak(truncate::<A>(unary::<A>(Unary::Neg, scaled)));
        -(steps as i8)
    } else {
        let steps: usize = cut_at_peak(truncate::<A>(scaled));
        steps as i8
    }
}

/// An engine in the form in which it is stored.
fn package<A: Arithmetic>(
    labels: DraftLabels,
    hidden_size: usize,
    weights: &Vec<A::Scalar>,
    base_model_hash: &str,
    engine_abi_version: u32,
) -> (draft: DraftArtifact<A::Scalar>)
    ensures
        packages::<A>(
            draft,
            labels,
            hidden_size as int,
            weights@,
            base_model_hash@,
            engine_abi_version,
        ),
{
    let mut target_layers: Vec<u32> = Vec::new();
    for depth in 0..15u32
        invariant
            target_layers@ == Seq::new(depth as nat, |i: int| (i + 1) as u32),
    {
        target_layers.push(depth + 1);
        proof {
            assert(target_layers@ =~= Seq::new((depth + 1) as nat, |i: int| (i + 1) as u32));
        }
    }
    let mut metadata: Vec<(String, String)> = Vec::new();
    metadata.push((String::from_str("architecture"), String::from_str(labels.architecture)));
    metadata.push((String::from_str("hidden_size"), decimal(hidden_size)));
    metadata.push((String::from_str("ladder_rung"), String::from_str(labels.ladder_rung)));
    let mut data: Vec<i8> = Vec::new();
    for i in 0..weights.len()
        invariant
            data@.len() == i,
            forall|j: int| 0 <= j < i ==> -DRAFT_PEAK <= #[trigger] data@[j] <= DRAFT_PEAK,
            arith::pure::<A>() ==> forall|j: int|
                0 <= j < i ==> #[trigger] data@[j] == stored_weight::<A>(weights@[j]),
    {
        data.push(store_weight::<A>(weights[i]));
    }
    let header = DraftHeader {
        base_model_hash: String::from_str(base_model_hash),
        engine_abi_version,
        drafter_type: labels.drafter_type,
        drafter_name: String::from_str(labels.drafter_name),
        is_kill_switched: false,
        target_layers,
        metadata,
    };
    let tensor = DraftTensor {
        name: String::from_str(labels.tensor),
        rows: RESIDUAL_DEPTHS,
        cols: hidden_size,
        scales: fill(RESIDUAL_DEPTHS, constant::<A>(Constant::One)),
        data,
    };
    DraftArtifact { header, tensor }
}

/// What every draft engine of the ladder does.
pub trait SpeculativeDrafter<A: Arithmetic>: Sized {
    /// That the engine's weights have its shape.
    open spec fn wf(&self) -> bool {
        true
    }

    /// That it may propose `code` at one depth. An engine that says no more may propose any code.
    open spec fn proposes(
        &self,
        talker_hidden: Seq<A::Scalar>,
        previous_codes: Option<Seq<usize>>,
        depth: int,
        code: int,
    ) -> bool {
        true
    }

    /// That it may become `next` once it has observed `codes`.
    open spec fn learns(&self, next: Self, codes: Seq<usize>) -> bool {
        true
    }

    /// That it may be stored as `draft`.
    open spec fn stored_as(
        &self,
        draft: DraftArtifact<A::Scalar>,
        base_model_hash: Seq<char>,
        engine_abi_version: u32,
    ) -> bool {
        true
    }

    /// Proposes a code at each of the fifteen depths.
    fn draft(
        &mut self,
        talker_hidden: &[A::Scalar],
        previous_codes: Option<&[usize; 15]>,
    ) -> (codes: [usize; 15])
        requires
            old(self).wf(),
        ensures
            final(self).wf(),
            forall|d: int| 0 <= d < RESIDUAL_DEPTHS ==> #[trigger] codes@[d] < RESIDUAL_VOCAB,
            arith::pure::<A>() ==> forall|d: int|
                0 <= d < RESIDUAL_DEPTHS ==> old(self).proposes(
                    talker_hidden@,
                    codes_of(previous_codes),
                    d,
                    #[trigger] codes@[d] as int,
                ),
    ;

    /// Observes the codes that verification left standing.
    fn observe(&mut self, verified_codes: &[usize; 15])
        requires
            old(self).wf(),
        ensures
            final(self).wf(),
            old(self).learns(*final(self), verified_codes@),
    ;

    /// The engine in the form in which it is stored.
    fn to_draft_artifact(&self, base_model_hash: &str, engine_abi_version: u32) -> (draft:
        DraftArtifact<A::Scalar>)
        requires
            self.wf(),
        ensures
            self.stored_as(draft, base_model_hash@, engine_abi_version),
    ;
}

/// A distilled one-layer student.
///
/// One projection per depth, on top of the code of the previous frame.
pub struct DistilledMicroDrafter<A: Arithmetic> {
    /// Width of the talker's hidden state.
    pub hidden_size: usize,
    /// `[15, hidden_size]` projection weights.
    pub projection_weights: Vec<A::Scalar>,
    /// The codes of the previous frame, where one was observed.
    pub last_frame: Option<[usize; 15]>,
}

impl<A: Arithmetic> DistilledMicroDrafter<A> {
    /// The codes it remembers.
    pub open spec fn memory(&self) -> Option<Seq<usize>> {
        match self.last_frame {
            Some(codes) => Some(codes@),
            None => None,
        }
    }

    /// The labels of its stored draft.
    pub open spec fn labels() -> DraftLabels {
        DraftLabels {
            drafter_type: DrafterType::DistilledMtp,
            drafter_name: "distilled-student-micro-v2",
            ladder_rung: "2",
            architecture: "distilled_1layer_student",
            tensor: "student_projection",
        }
    }

    /// The projection's code on top of the previous frame's: the codes given, and otherwise the
    /// codes remembered.
    pub open spec fn proposal(
        &self,
        talker_hidden: Seq<A::Scalar>,
        previous_codes: Option<Seq<usize>>,
        depth: int,
    ) -> int {
        let previous = match previous_codes {
            Some(codes) => Some(codes),
            None => self.memory(),
        };
        let width = if talker_hidden.len() < self.hidden_size {
            talker_hidden.len() as int
        } else {
            self.hidden_size as int
        };
        code_of::<A>(
            seeded_dot::<A>(
                arith::cst::<A>(Constant::Zero),
                talker_hidden,
                self.projection_weights@.skip(depth * self.hidden_size),
                width,
            ),
            Constant::DistilledScale,
            match previous {
                Some(codes) => codes[depth] as int,
                None => 0,
            },
        )
    }

    /// A drafter with the starting weights and nothing observed.
    pub fn new(hidden_size: usize) -> (drafter: Self)
        requires
            hidden_size > 0,
            RESIDUAL_DEPTHS * hidden_size <= usize::MAX,
        ensures
            drafter.wf(),
            drafter.hidden_size == hidden_size,
            drafter.memory() is None,
            arith::pure::<A>() ==> forall|i: int|
                0 <= i < RESIDUAL_DEPTHS * hidden_size ==> #[trigger] drafter.projection_weights@[i]
                    == start_weight::<A>(i, 31, 7),
    {
        let projection_weights = start_weights::<A>(hidden_size, 31, 7);
        DistilledMicroDrafter { hidden_size, projection_weights, last_frame: None }
    }
}

impl<A: Arithmetic> SpeculativeDrafter<A> for DistilledMicroDrafter<A> {
    open spec fn wf(&self) -> bool {
        self.projection_weights@.len() == RESIDUAL_DEPTHS * self.hidden_size
    }

    open spec fn proposes(
        &self,
        talker_hidden: Seq<A::Scalar>,
        previous_codes: Option<Seq<usize>>,
        depth: int,
        code: int,
    ) -> bool {
        code == self.proposal(talker_hidden, previous_codes, depth)
    }

    open spec fn learns(&self, next: Self, codes: Seq<usize>) -> bool {
        &&& next.hidden_size == self.hidden_size
        &&& next.projection_weights == self.projection_weights
        &&& next.memory() == Some(codes)
    }

    open spec fn stored_as(
        &self,
        draft: DraftArtifact<A::Scalar>,
        base_model_hash: Seq<char>,
        engine_abi_version: u32,
    ) -> bool {
        packages::<A>(
            draft,
            Self::labels(),
            self.hidden_size as int,
            self.projection_weights@,
            base_model_hash,
            engine_abi_version,
        )
    }

    fn draft(
        &mut self,
        talker_hidden: &[A::Scalar],
        previous_codes: Option<&[usize; 15]>,
    ) -> (codes: [usize; 15])
        ensures
            *final(self) == *old(self),
    {
        let hidden: usize = self.hidden_size;
        let limit: usize = if talker_hidden.len() < hidden {
            talker_hidden.len()
        } else {
            hidden
        };
        let mut codes: [usize; 15] = [0;15];
        for depth in 0..RESIDUAL_DEPTHS
            invariant
                *self == *old(self),
                self.wf(),
                hidden == self.hidden_size,
                limit == if talker_hidden@.len() < hidden {
                    talker_hidden@.len() as int
                } else {
                    hidden as int
                },
                forall|d: int| 0 <= d < depth ==> #[trigger] codes@[d] < RESIDUAL_VOCAB,
                arith::pure::<A>() ==> forall|d: int|
                    0 <= d < depth ==> #[trigger] codes@[d] == self.proposal(
                        talker_hidden@,
                        codes_of(previous_codes),
                        d,
                    ),
        {
            proof {
                rows::lemma_row_bounds(depth as int, RESIDUAL_DEPTHS as int, hidden as int);
                assert((depth + 1) * hidden == depth * hidden + hidden) by (nonlinear_arith);
                assert((depth + 1) * hidden <= RESIDUAL_DEPTHS * hidden) by (nonlinear_arith)
                    requires
                        depth + 1 <= RESIDUAL_DEPTHS,
                ;
            }
            let stored: usize = self.projection_weights.len();
            let projected = seeded_dot_product::<A>(
                constant::<A>(Constant::Zero),
                talker_hidden,
                self.projection_weights.as_slice(),
                depth * hidden,
                limit,
            );
            let bonus: usize = match previous_codes {
                Some(previous) => previous[depth],
                None => match self.last_frame {
                    Some(previous) => previous[depth],
                    None => 0,
                },
            };
            codes[depth] = code_for::<A>(projected, Constant::DistilledScale, bonus);
        }
        codes
    }

    fn observe(&mut self, verified_codes: &[usize; 15]) {
        self.last_frame = Some(*verified_codes);
    }

    fn to_draft_artifact(&self, base_model_hash: &str, engine_abi_version: u32) -> (draft:
        DraftArtifact<A::Scalar>) {
        let labels = DraftLabels {
            drafter_type: DrafterType::DistilledMtp,
            drafter_name: "distilled-student-micro-v2",
            ladder_rung: "2",
            architecture: "distilled_1layer_student",
            tensor: "student_projection",
        };
        package::<A>(
            labels,
            self.hidden_size,
            &self.projection_weights,
            base_model_hash,
            engine_abi_version,
        )
    }
}

/// Fifteen linear heads off the talker's hidden state, with no recurrence.
pub struct ParallelHeadsDrafter<A: Arithmetic> {
    /// Width of the talker's hidden state.
    pub hidden_size: usize,
    /// `[15, hidden_size]` head weights.
    pub head_weights: Vec<A::Scalar>,
    /// One bias per head.
    pub head_biases: Vec<A::Scalar>,
}

impl<A: Arithmetic> ParallelHeadsDrafter<A> {
    /// The labels of its stored draft.
    pub open spec fn labels() -> DraftLabels {
        DraftLabels {
            drafter_type: DrafterType::ParallelHeads,
            drafter_name: "parallel-15heads-drafter-v3",
            ladder_rung: "3",
            architecture: "15_parallel_heads",
            tensor: "head_weights",
        }
    }

    /// The head's code; the previous frame plays no part.
    pub open spec fn proposal(
        &self,
        talker_hidden: Seq<A::Scalar>,
        previous_codes: Option<Seq<usize>>,
        depth: int,
    ) -> int {
        let width = if talker_hidden.len() < self.hidden_size {
            talker_hidden.len() as int
        } else {
            self.hidden_size as int
        };
        code_of::<A>(
            seeded_dot::<A>(
                self.head_biases@[depth],
                talker_hidden,
                self.head_weights@.skip(depth * self.hidden_size),
                width,
            ),
            Constant::ParallelScale,
            0,
        )
    }

    /// Heads with the starting weights and biases.
    pub fn new(hidden_size: usize) -> (drafter: Self)
        requires
            hidden_size > 0,
            RESIDUAL_DEPTHS * hidden_size <= usize::MAX,
        ensures
            drafter.wf(),
            drafter.hidden_size == hidden_size,
            arith::pure::<A>() ==> {
                &&& forall|i: int|
                    0 <= i < RESIDUAL_DEPTHS * hidden_size ==> #[trigger] drafter.head_weights@[i]
                        == start_weight::<A>(i, 17, 13)
                &&& forall|i: int|
                    0 <= i < RESIDUAL_DEPTHS ==> #[trigger] drafter.head_biases@[i] == arith::un::<
                        A,
                    >(
                        Unary::Sin,
                        arith::bin::<A>(
                            Binary::Mul,
                            arith::num::<A>(i as usize),
                            arith::cst::<A>(Constant::Tenth),
                        ),
                    )
            },
    {
        let head_weights = start_weights::<A>(hidden_size, 17, 13);
        let mut head_biases: Vec<A::Scalar> = Vec::new();
        for i in 0..RESIDUAL_DEPTHS
            invariant
                head_biases@.len() == i,
                arith::pure::<A>() ==> forall|j: int|
                    0 <= j < i ==> #[trigger] head_biases@[j] == arith::un::<A>(
                        Unary::Sin,
                        arith::bin::<A>(
                            Binary::Mul,
                            arith::num::<A>(j as usize),
                            arith::cst::<A>(Constant::Tenth),
                        ),
                    ),
        {
            let angle = binary::<A>(
                Binary::Mul,
                count::<A>(i),
                constant::<A>(Constant::Tenth),
            );
            head_biases.push(unary::<A>(Unary::Sin, angle));
        }
        ParallelHeadsDrafter { hidden_size, head_weights, head_biases }
    }
}

impl<A: Arithmetic> SpeculativeDrafter<A> for ParallelHeadsDrafter<A> {
    open spec fn wf(&self) -> bool {
        &&& self.head_weights@.len() == RESIDUAL_DEPTHS * self.hidden_size
        &&& self.head_biases@.len() == RESIDUAL_DEPTHS
    }

    open spec fn proposes(
        &self,
        talker_hidden: Seq<A::Scalar>,
        previous_codes: Option<Seq<usize>>,
        depth: int,
        code: int,
    ) -> bool {
        code == self.proposal(talker_hidden, previous_codes, depth)
    }

    /// Nothing is remembered.
    open spec fn learns(&self, next: Self, codes: Seq<usize>) -> bool {
        next == *self
    }

    open spec fn stored_as(
        &self,
        draft: DraftArtifact<A::Scalar>,
        base_model_hash: Seq<char>,
        engine_abi_version: u32,
    ) -> bool {
        packages::<A>(
            draft,
            Self::labels(),
            self.hidden_size as int,
            self.head_weights@,
            base_model_hash,
            engine_abi_version,
        )
    }

    fn draft(
        &mut self,
        talker_hidden: &[A::Scalar],
        previous_codes: Option<&[usize; 15]>,
    ) -> (codes: [usize; 15])
        ensures
            *final(self) == *old(self),
    {
        let hidden: usize = self.hidden_size;
        let limit: usize = if talker_hidden.len() < hidden {
            talker_hidden.len()
        } else {
            hidden
        };
        let mut codes: [usize; 15] = [0;15];
        for depth in 0..RESIDUAL_DEPTHS
            invariant
                *self == *old(self),
                self.wf(),
                hidden == self.hidden_size,
                limit == if talker_hidden@.len() < hidden {
                    talker_hidden@.len() as int
                } else {
                    hidden as int
                },
                forall|d: int| 0 <= d < depth ==> #[trigger] codes@[d] < RESIDUAL_VOCAB,
                arith::pure::<A>() ==> forall|d: int|
                    0 <= d < depth ==> #[trigger] codes@[d] == self.proposal(
                        talker_hidden@,
                        codes_of(previous_codes),
                        d,
                    ),
        {
            proof {
                rows::lemma_row_bounds(depth as int, RESIDUAL_DEPTHS as int, hidden as int);
                assert((depth + 1) * hidden == depth * hidden + hidden) by (nonlinear_arith);
                assert((depth + 1) * hidden <= RESIDUAL_DEPTHS * hidden) by (nonlinear_arith)
                    requires
                        depth + 1 <= RESIDUAL_DEPTHS,
                ;
            }
            let stored: usize = self.head_weights.len();
            let logit = seeded_dot_product::<A>(
                self.head_biases[depth],
                talker_hidden,
                self.head_weights.as_slice(),
                depth * hidden,
                limit,
            );
            codes[depth] = code_for::<A>(logit, Constant::ParallelScale, 0);
        }
        codes
    }

    fn observe(&mut self, verified_codes: &[usize; 15]) {
    }

    fn to_draft_artifact(&self, base_model_hash: &str, engine_abi_version: u32) -> (draft:
        DraftArtifact<A::Scalar>) {
        let labels = DraftLabels {
            drafter_type: DrafterType::ParallelHeads,
            drafter_name: "parallel-15heads-drafter-v3",
            ladder_rung: "3",
            architecture: "15_parallel_heads",
            tensor: "head_weights",
        };
        package::<A>(
            labels,
            self.hidden_size,
            &self.head_weights,
            base_model_hash,
            engine_abi_version,
        )
    }
}

/// The sizes of the first `n` blocks together, or of all of them where there are fewer.
pub open spec fn reach_of(block_sizes: Seq<usize>, n: int) -> int
    decreases n,
{
    if n <= 0 {
        0
    } else if n > block_sizes.len() {
        reach_of(block_sizes, n - 1)
    } else {
        reach_of(block_sizes, n - 1) + block_sizes[n - 1]
    }
}

/// Verification in stages: a block of depths is verified only once the blocks before it stand.
pub struct TreeVerifyController {
    /// Depths per block.
    pub block_sizes: Vec<usize>,
}

impl Default for TreeVerifyController {
    /// Three blocks: depths one to three, four to eight, and nine to fifteen.
    fn default() -> (controller: Self)
        ensures
            controller.block_sizes@ == seq![3usize, 5, 7],
    {
        let controller = TreeVerifyController { block_sizes: vec![3, 5, 7] };
        proof {
            assert(controller.block_sizes@ =~= seq![3usize, 5, 7]);
        }
        controller
    }
}

impl TreeVerifyController {
    /// Whether to verify the block behind stage `stage_idx`: the accepted prefix covers every
    /// block up to that stage.
    pub fn should_verify_next_block(&self, stage_idx: usize, accepted_prefix: usize) -> (next: bool)
        requires
            stage_idx < usize::MAX,
            reach_of(self.block_sizes@, stage_idx + 1) <= usize::MAX,
        ensures
            next == (accepted_prefix >= reach_of(self.block_sizes@, stage_idx + 1)),
    {
        let stages: usize = stage_idx + 1;
        let blocks: usize = self.block_sizes.len();
        let taken: usize = if stages < blocks {
            stages
        } else {
            blocks
        };
        proof {
            lemma_reach_stops(self.block_sizes@, stages as int);
        }
        let mut required: usize = 0;
        for i in 0..taken
            invariant
                taken <= self.block_sizes@.len(),
                required == reach_of(self.block_sizes@, i as int),
                reach_of(self.block_sizes@, taken as int) <= usize::MAX,
        {
            proof {
                lemma_reach_grows(self.block_sizes@, i + 1, taken as int);
            }
            required = required + self.block_sizes[i];
        }
        accepted_prefix >= required
    }

    /// The acceptance rate at which speculation pays for itself, where one verified depth costs
    /// `sku_multiplier` of a decoded one: every rate where that is not a positive number.
    pub fn break_even_alpha<W: Arithmetic>(sku_multiplier: W::Scalar) -> (alpha: W::Scalar)
        ensures
            arith::pure::<W>() ==> alpha == break_even_of::<W>(sku_multiplier),
    {
        let zero = constant::<W>(Constant::Zero);
        let one = constant::<W>(Constant::One);
        if relation::<W>(Relation::AtMost, sku_multiplier, zero) || !relation::<W>(
            Relation::AtMost,
            sku_multiplier,
            sku_multiplier,
        ) {
            return one;
        }
        let alpha = binary::<W>(
            Binary::Div,
            one,
            binary::<W>(Binary::Mul, count::<W>(RESIDUAL_DEPTHS), sku_multiplier),
        );
        if relation::<W>(Relation::Less, alpha, zero) {
            zero
        } else if relation::<W>(Relation::Less, one, alpha) {
            one
        } else {
            alpha
        }
    }
}

/// The break-even rate: one over fifteen multipliers, inside `[0, 1]`; one where the multiplier is
/// not positive, or not a number at all, which alone is not at most itself.
pub open spec fn break_even_of<W: Arithmetic>(sku_multiplier: W::Scalar) -> W::Scalar {
    let zero = arith::cst::<W>(Constant::Zero);
    let one = arith::cst::<W>(Constant::One);
    if arith::rel::<W>(Relation::AtMost, sku_multiplier, zero) || !arith::rel::<W>(
        Relation::AtMost,
        sku_multiplier,
        sku_multiplier,
    ) {
        one
    } else {
        let alpha = arith::bin::<W>(
            Binary::Div,
            one,
            arith::bin::<W>(Binary::Mul, arith::num::<W>(RESIDUAL_DEPTHS), sku_multiplier),
        );
        if arith::rel::<W>(Relation::Less, alpha, zero) {
            zero
        } else if arith::rel::<W>(Relation::Less, one, alpha) {
            one
        } else {
            alpha
        }
    }
}

/// Past the last block nothing more is required.
proof fn lemma_reach_stops(block_sizes: Seq<usize>, n: int)
    requires
        n >= 0,
    ensures
        n >= block_sizes.len() ==> reach_of(block_sizes, n) == reach_of(
            block_sizes,
            block_sizes.len() as int,
        ),
    decreases n,
{
    if n > block_sizes.len() {
        lemma_reach_stops(block_sizes, n - 1);
    }
}

/// More blocks reach at least as far.
proof fn lemma_reach_grows(block_sizes: Seq<usize>, m: int, n: int)
    requires
        m <= n,
    ensures
        reach_of(block_sizes, m) <= reach_of(block_sizes, n),
    decreases n - m,
{
    if m < n {
        lemma_reach_grows(block_sizes, m, n - 1);
    }
}

/// A prefix that carries verification past a later stage carries it past every earlier one, so
/// a block that fails ends the cascade.
pub proof fn law_stages_cascade(block_sizes: Seq<usize>, early: int, late: int, accepted_prefix: int)
    requires
        0 <= early <= late,
        accepted_prefix >= reach_of(block_sizes, late + 1),
    ensures
        accepted_prefix >= reach_of(block_sizes, early + 1),
{
    lemma_reach_grows(block_sizes, early + 1, late + 1);
}

/// The default blocks cover each of the fifteen depths once: the first ends at three, the second at
/// eight, and the last at fifteen.
pub proof fn law_default_blocks_cover_every_depth(block_sizes: Seq<usize>, stage: int)
    requires
        block_sizes == seq![3usize, 5, 7],
        stage >= 0,
    ensures
        reach_of(block_sizes, stage + 1) == (if stage == 0 {
            3
        } else if stage == 1 {
            8
        } else {
            RESIDUAL_DEPTHS as int
        }),
{
    reveal_with_fuel(reach_of, 4);
    if stage >= 2 {
        lemma_reach_stops(block_sizes, stage + 1);
    }
}

/// What a student proposes from the codes it is given, it proposes from the same codes observed.
pub proof fn law_observed_codes_stand_in_for_given_ones<A: Arithmetic>(
    drafter: DistilledMicroDrafter<A>,
    next: DistilledMicroDrafter<A>,
    talker_hidden: Seq<A::Scalar>,
    codes: Seq<usize>,
    depth: int,
)
    requires
        drafter.learns(next, codes),
    ensures
        next.proposal(talker_hidden, None, depth) == drafter.proposal(
            talker_hidden,
            Some(codes),
            depth,
        ),
{
}

/// Parallel heads propose from the hidden state alone: neither the codes given nor the codes
/// observed change a proposal.
pub proof fn law_parallel_heads_have_no_recurrence<A: Arithmetic>(
    drafter: ParallelHeadsDrafter<A>,
    next: ParallelHeadsDrafter<A>,
    talker_hidden: Seq<A::Scalar>,
    observed: Seq<usize>,
    given: Option<Seq<usize>>,
    depth: int,
)
    requires
        drafter.learns(next, observed),
    ensures
        next.proposal(talker_hidden, given, depth) == drafter.proposal(talker_hidden, None, depth),
{
}

} // verus!
