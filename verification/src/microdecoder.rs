//! The residual-code microdecoder: the sequential loop that produces codes 1 to 15 of a frame.
//!
//! One frame is sixteen positions, and an off-by-one in the head placement still produces
//! plausible audio, so the index map is a value that proofs and tests can speak of:
//!
//! | position | embedding source | scored by | produces |
//! |---|---|---|---|
//! | 0 | the talker's hidden state | nothing | nothing |
//! | 1 | the talker's codec embedding of `c0` | head 0 | `c1` |
//! | 2 to 15 | residual table `p - 2` of `c_{p-1}` | head `p - 1` | `c_p` |
//!
//! Attention is plain causal, keys and values start over at every frame boundary, and each
//! residual conditions the next depth.
use vstd::prelude::*;
use crate::arith;
use crate::arith::{
    binary, constant, count, relation, unary, Arithmetic, Binary, Constant, Relation, Unary,
};
use crate::kernels;
use crate::kernels::rope;
use crate::ranking;
use crate::rows::store;

pub mod drafter;
pub mod frame;
pub mod laws;
pub mod layer;

pub use drafter::FrankenMtpDrafter;
pub use frame::{
    decode_frame_greedy, decode_frame_greedy_speculative, decode_frame_with_selector,
    decode_frame_with_selector_q8, score_head_refined, verify_frame_draft, verify_frame_draft_q8,
    DraftVerification,
    GreedySpeculativeFrame, MicroQuantRoute, MicrodecoderWeights, HEAD_REFINE_CANDIDATES,
};
pub use layer::{
    layer_block_q8, layer_step, layer_step_q8, layer_step_with_rotary, FrameKvState, FrameState,
    LayerWeights, MicroLayerQuant,
};

verus! {

/// Codes per frame: one primary code and fifteen residuals.
pub const CODES_PER_FRAME: usize = 16;

/// Positions in one microdecoder frame.
pub const FRAME_POSITIONS: usize = 16;

/// Residual depths this loop predicts.
pub const RESIDUAL_DEPTHS: usize = 15;

/// Vocabulary of the talker's codec embedding, used at position 1 only.
pub const TALKER_CODEC_VOCAB: usize = 3_072;

/// Vocabulary of each residual embedding and head.
pub const RESIDUAL_VOCAB: usize = 2_048;

/// Microdecoder geometry.
#[derive(Clone, Copy, Debug)]
pub struct MicrodecoderConfig<S> {
    /// Model width.
    pub hidden_size: usize,
    /// Depth of the transformer.
    pub num_layers: usize,
    /// Query heads.
    pub num_q_heads: usize,
    /// Key/value heads.
    pub num_kv_heads: usize,
    /// Width of one head.
    pub head_dim: usize,
    /// SwiGLU inner width.
    pub intermediate_size: usize,
    /// Rotary base.
    pub rope_theta: S,
    /// RMSNorm epsilon, under the square root.
    pub rms_eps: S,
}

/// The shipped microdecoder geometry.
pub fn default_microdecoder_config<A: Arithmetic>() -> (config: MicrodecoderConfig<A::Scalar>)
    ensures
        config.hidden_size == 1_024,
        config.num_layers == 5,
        config.num_q_heads == 16,
        config.num_kv_heads == 8,
        config.head_dim == 128,
        config.intermediate_size == 3_072,
        arith::pure::<A>() ==> config.rope_theta == arith::cst::<A>(Constant::MicroRopeTheta),
        arith::pure::<A>() ==> config.rms_eps == arith::cst::<A>(Constant::MicroRmsEpsilon),
{
    MicrodecoderConfig {
        hidden_size: 1_024,
        num_layers: 5,
        num_q_heads: 16,
        num_kv_heads: 8,
        head_dim: 128,
        intermediate_size: 3_072,
        rope_theta: constant::<A>(Constant::MicroRopeTheta),
        rms_eps: constant::<A>(Constant::MicroRmsEpsilon),
    }
}

impl<S> MicrodecoderConfig<S> {
    /// Query projection width.
    pub open spec fn queries(&self) -> int {
        self.num_q_heads * self.head_dim
    }

    /// Key/value projection width.
    pub open spec fn keys(&self) -> int {
        self.num_kv_heads * self.head_dim
    }

    /// Query heads that share one key/value head.
    pub open spec fn group(&self) -> int {
        self.num_q_heads as int / self.num_kv_heads as int
    }

    /// That the widths can be counted, heads can be halved for the rotation, and the key/value
    /// heads are shared out evenly.
    pub open spec fn valid(&self) -> bool {
        &&& self.queries() + 2 * self.keys() <= usize::MAX
        &&& 2 * self.intermediate_size <= usize::MAX
        &&& 16 * self.hidden_size <= usize::MAX
        &&& self.head_dim % 2 == 0
        &&& self.num_kv_heads > 0
        &&& self.group() > 0
        &&& self.num_q_heads == self.num_kv_heads * self.group()
    }

    /// Query projection width.
    pub fn q_width(&self) -> (width: usize)
        requires
            self.queries() <= usize::MAX,
        ensures
            width == self.queries(),
    {
        self.num_q_heads * self.head_dim
    }

    /// Key/value projection width.
    pub fn kv_width(&self) -> (width: usize)
        requires
            self.keys() <= usize::MAX,
        ensures
            width == self.keys(),
    {
        self.num_kv_heads * self.head_dim
    }

    /// Query heads that share one key/value head.
    pub fn q_per_kv(&self) -> (heads: usize)
        requires
            self.num_kv_heads > 0,
        ensures
            heads == self.group(),
    {
        self.num_q_heads / self.num_kv_heads
    }
}

/// Which table a position's embedding comes from, and which head scores it.
#[derive(Clone, Copy, Debug, PartialEq, Eq, Structural)]
pub enum PositionRole {
    /// Position 0: the talker's hidden state conditions the frame and is never scored.
    Conditioning,
    /// Position 1: `c0` through the talker's own table.
    PrimaryCodeEmbedding {
        /// Head that scores this position.
        head: usize,
    },
    /// Every later position: the previous code through its own residual table.
    ResidualEmbedding {
        /// Residual table of this position.
        table: usize,
        /// Head that scores this position.
        head: usize,
    },
}

/// The role of one position in the frame.
pub open spec fn role_of(position: int) -> PositionRole {
    if position == 0 {
        PositionRole::Conditioning
    } else if position == 1 {
        PositionRole::PrimaryCodeEmbedding { head: 0 }
    } else {
        PositionRole::ResidualEmbedding {
            table: (position - 2) as usize,
            head: (position - 1) as usize,
        }
    }
}

/// The head that scores a position, where one does.
pub open spec fn scoring_head(role: PositionRole) -> Option<int> {
    match role {
        PositionRole::Conditioning => None,
        PositionRole::PrimaryCodeEmbedding { head } => Some(head as int),
        PositionRole::ResidualEmbedding { table, head } => Some(head as int),
    }
}

/// The role of one position in the frame.
pub fn position_role(position: usize) -> (role: PositionRole)
    requires
        position < FRAME_POSITIONS,
    ensures
        role == role_of(position as int),
{
    if position == 0 {
        PositionRole::Conditioning
    } else if position == 1 {
        PositionRole::PrimaryCodeEmbedding { head: 0 }
    } else {
        PositionRole::ResidualEmbedding { table: position - 2, head: position - 1 }
    }
}

/// Every head scores exactly one position, and position 0 is scored by none.
pub proof fn law_heads_score_once(head: int)
    requires
        0 <= head < RESIDUAL_DEPTHS,
    ensures
        scoring_head(role_of(0)) is None,
        scoring_head(role_of(head + 1)) == Some(head),
        forall|p: int|
            0 <= p < FRAME_POSITIONS && #[trigger] scoring_head(role_of(p)) == Some(head) ==> p
                == head + 1,
{
}

/// Every residual table embeds exactly one position.
pub proof fn law_tables_embed_once(table: int)
    requires
        0 <= table < RESIDUAL_DEPTHS - 1,
    ensures
        role_of(table + 2) matches PositionRole::ResidualEmbedding { table: t, .. } && t == table,
        forall|p: int|
            0 <= p < FRAME_POSITIONS ==> (#[trigger] role_of(p) matches
                PositionRole::ResidualEmbedding { table: t, .. } && t == table ==> p == table + 2),
{
}

/// The scan for the largest of the first `n` values: a later value wins only by being larger.
pub open spec fn argmax_of<A: Arithmetic>(x: Seq<A::Scalar>, n: int) -> int
    decreases n,
{
    if n <= 1 {
        0
    } else {
        let best = argmax_of::<A>(x, n - 1);
        if arith::rel::<A>(Relation::Less, x[best], x[n - 1]) {
            n - 1
        } else {
            best
        }
    }
}

/// Greedy selection: the lowest index wins a tie.
pub fn argmax<A: Arithmetic>(logits: &[A::Scalar]) -> (best: usize)
    requires
        logits@.len() > 0,
    ensures
        best < logits@.len(),
        arith::pure::<A>() ==> best == argmax_of::<A>(logits@, logits@.len() as int),
{
    let mut best: usize = 0;
    for index in 1..logits.len()
        invariant
            logits@.len() > 0,
            best < logits@.len(),
            1 <= index,
            arith::pure::<A>() ==> best == argmax_of::<A>(logits@, index as int),
    {
        if relation::<A>(Relation::Less, logits[best], logits[index]) {
            best = index;
        }
    }
    best
}

/// Where the numbers are weakly ordered, the scan finds the lowest index of a largest value.
pub proof fn law_argmax_takes_the_lowest_largest<A: Arithmetic>(x: Seq<A::Scalar>, n: int)
    requires
        1 <= n <= x.len(),
        ranking::weakly_ordered::<A>(Relation::Less, x),
    ensures
        0 <= argmax_of::<A>(x, n) < n,
        forall|i: int|
            0 <= i < argmax_of::<A>(x, n) ==> #[trigger] arith::rel::<A>(
                Relation::Less,
                x[i],
                x[argmax_of::<A>(x, n)],
            ),
        forall|i: int|
            0 <= i < n ==> !#[trigger] arith::rel::<A>(
                Relation::Less,
                x[argmax_of::<A>(x, n)],
                x[i],
            ),
    decreases n,
{
    if n > 1 {
        law_argmax_takes_the_lowest_largest::<A>(x, n - 1);
        let best = argmax_of::<A>(x, n - 1);
        if arith::rel::<A>(Relation::Less, x[best], x[n - 1]) {
            assert forall|i: int| 0 <= i < n - 1 implies #[trigger] arith::rel::<A>(
                Relation::Less,
                x[i],
                x[n - 1],
            ) by {
                assert(arith::rel::<A>(Relation::Less, x[best], x[i]) || arith::rel::<A>(
                    Relation::Less,
                    x[i],
                    x[n - 1],
                ));
            }
            assert forall|i: int| 0 <= i < n implies !#[trigger] arith::rel::<A>(
                Relation::Less,
                x[n - 1],
                x[i],
            ) by {
                if arith::rel::<A>(Relation::Less, x[n - 1], x[i]) {
                    assert(arith::rel::<A>(Relation::Less, x[best], x[n - 1]));
                    assert(arith::rel::<A>(Relation::Less, x[best], x[i]));
                }
            }
        }
    }
}

/// The reciprocal root mean square of a row, epsilon under the root.
pub open spec fn micro_rms_scale<A: Arithmetic>(x: Seq<A::Scalar>, eps: A::Scalar) -> A::Scalar {
    arith::bin::<A>(
        Binary::Div,
        arith::cst::<A>(Constant::One),
        arith::un::<A>(
            Unary::Sqrt,
            arith::bin::<A>(
                Binary::Add,
                arith::bin::<A>(
                    Binary::Div,
                    kernels::dot::<A>(x, x, x.len() as int),
                    arith::num::<A>(x.len() as usize),
                ),
                eps,
            ),
        ),
    )
}

/// Weight-only RMSNorm with a left-to-right sum of squares.
pub open spec fn micro_rms<A: Arithmetic>(
    x: Seq<A::Scalar>,
    weight: Seq<A::Scalar>,
    eps: A::Scalar,
) -> Seq<A::Scalar> {
    Seq::new(
        x.len(),
        |i: int|
            arith::bin::<A>(
                Binary::Mul,
                arith::bin::<A>(Binary::Mul, x[i], micro_rms_scale::<A>(x, eps)),
                weight[i],
            ),
    )
}

/// Weight-only RMSNorm with a left-to-right sum of squares.
pub fn rms_norm<A: Arithmetic>(x: &[A::Scalar], weight: &[A::Scalar], eps: A::Scalar) -> (out: Vec<
    A::Scalar,
>)
    requires
        x@.len() == weight@.len(),
    ensures
        out@.len() == x@.len(),
        arith::pure::<A>() ==> out@ == micro_rms::<A>(x@, weight@, eps),
{
    let squares = kernels::dot_product::<A>(x, x);
    let mean = binary::<A>(Binary::Div, squares, count::<A>(x.len()));
    let root = unary::<A>(Unary::Sqrt, binary::<A>(Binary::Add, mean, eps));
    let scale = binary::<A>(Binary::Div, constant::<A>(Constant::One), root);
    proof {
        if arith::pure::<A>() {
            assert(x.len() == x@.len());
            assert(scale == micro_rms_scale::<A>(x@, eps));
        }
    }
    let mut out: Vec<A::Scalar> = Vec::new();
    for i in 0..x.len()
        invariant
            x@.len() == weight@.len(),
            arith::pure::<A>() ==> scale == micro_rms_scale::<A>(x@, eps),
            out@.len() == i,
            arith::pure::<A>() ==> forall|j: int|
                0 <= j < i ==> #[trigger] out@[j] == micro_rms::<A>(x@, weight@, eps)[j],
    {
        let scaled = binary::<A>(Binary::Mul, x[i], scale);
        out.push(binary::<A>(Binary::Mul, scaled, weight[i]));
    }
    proof {
        if arith::pure::<A>() {
            assert(out@ =~= micro_rms::<A>(x@, weight@, eps));
        }
    }
    out
}

/// The rotary angle of one pair at one position.
pub open spec fn micro_angle<A: Arithmetic>(
    theta: A::Scalar,
    position: usize,
    index: int,
    width: usize,
) -> A::Scalar {
    let exponent = arith::bin::<A>(
        Binary::Div,
        arith::bin::<A>(
            Binary::Mul,
            arith::cst::<A>(Constant::Two),
            arith::num::<A>(index as usize),
        ),
        arith::num::<A>(width),
    );
    let frequency = arith::bin::<A>(
        Binary::Div,
        arith::cst::<A>(Constant::One),
        arith::bin::<A>(Binary::Pow, theta, exponent),
    );
    arith::bin::<A>(Binary::Mul, arith::num::<A>(position), frequency)
}

/// One rotary row: `op` of each pair's angle, the second half repeating the first.
pub open spec fn micro_rope_row<A: Arithmetic>(
    op: Unary,
    theta: A::Scalar,
    position: usize,
    width: usize,
) -> Seq<A::Scalar> {
    let half = width as int / 2;
    Seq::new(
        width as nat,
        |i: int|
            arith::un::<A>(
                op,
                micro_angle::<A>(
                    theta,
                    position,
                    if i < half {
                        i
                    } else {
                        i - half
                    },
                    width,
                ),
            ),
    )
}

/// One rotary row.
fn rope_row<A: Arithmetic>(
    op: Unary,
    theta: A::Scalar,
    position: usize,
    width: usize,
) -> (out: Vec<A::Scalar>)
    requires
        width % 2 == 0,
    ensures
        out@.len() == width,
        arith::pure::<A>() ==> out@ == micro_rope_row::<A>(op, theta, position, width),
{
    let half: usize = width / 2;
    let mut out: Vec<A::Scalar> = Vec::new();
    for i in 0..width
        invariant
            half + half == width,
            half == width as int / 2,
            out@.len() == i,
            arith::pure::<A>() ==> forall|j: int|
                0 <= j < i ==> #[trigger] out@[j] == micro_rope_row::<A>(
                    op,
                    theta,
                    position,
                    width,
                )[j],
    {
        let index: usize = if i < half {
            i
        } else {
            i - half
        };
        let doubled = binary::<A>(Binary::Mul, constant::<A>(Constant::Two), count::<A>(index));
        let exponent = binary::<A>(Binary::Div, doubled, count::<A>(width));
        let power = binary::<A>(Binary::Pow, theta, exponent);
        let frequency = binary::<A>(Binary::Div, constant::<A>(Constant::One), power);
        let angle = binary::<A>(Binary::Mul, count::<A>(position), frequency);
        out.push(unary::<A>(op, angle));
    }
    proof {
        if arith::pure::<A>() {
            assert(out@ =~= micro_rope_row::<A>(op, theta, position, width));
        }
    }
    out
}

/// The microdecoder's own rotary table, a distinct type so that it cannot be taken for the
/// talker's or the codec's.
pub struct RopeTable<A: Arithmetic> {
    head_dim: usize,
    cos: Vec<Vec<A::Scalar>>,
    sin: Vec<Vec<A::Scalar>>,
}

impl<A: Arithmetic> RopeTable<A> {
    /// Width of one row.
    pub closed spec fn width(&self) -> int {
        self.head_dim as int
    }

    /// The cosine row of one position.
    pub closed spec fn cosines(&self, position: int) -> Seq<A::Scalar> {
        self.cos@[position]@
    }

    /// The sine row of one position.
    pub closed spec fn sines(&self, position: int) -> Seq<A::Scalar> {
        self.sin@[position]@
    }

    /// One row of each kind per position of the frame.
    pub closed spec fn wf(&self) -> bool {
        &&& self.head_dim % 2 == 0
        &&& self.cos@.len() == FRAME_POSITIONS
        &&& self.sin@.len() == FRAME_POSITIONS
        &&& forall|p: int|
            0 <= p < FRAME_POSITIONS ==> (#[trigger] self.cos@[p])@.len() == self.head_dim
        &&& forall|p: int|
            0 <= p < FRAME_POSITIONS ==> (#[trigger] self.sin@[p])@.len() == self.head_dim
    }

    /// That the rows are those of a configuration's rotary base.
    pub open spec fn turns(&self, config: MicrodecoderConfig<A::Scalar>) -> bool {
        forall|p: int|
            0 <= p < FRAME_POSITIONS ==> {
                &&& #[trigger] self.cosines(p) == micro_rope_row::<A>(
                    Unary::Cos,
                    config.rope_theta,
                    p as usize,
                    config.head_dim,
                )
                &&& self.sines(p) == micro_rope_row::<A>(
                    Unary::Sin,
                    config.rope_theta,
                    p as usize,
                    config.head_dim,
                )
            }
    }

    /// Width of one row.
    pub fn row_width(&self) -> (width: usize)
        ensures
            width == self.width(),
    {
        self.head_dim
    }

    /// Builds the table of the frame's positions.
    pub fn new(config: &MicrodecoderConfig<A::Scalar>) -> (table: Self)
        requires
            config.head_dim % 2 == 0,
        ensures
            table.wf(),
            table.width() == config.head_dim,
            arith::pure::<A>() ==> table.turns(*config),
    {
        let mut cos: Vec<Vec<A::Scalar>> = Vec::new();
        let mut sin: Vec<Vec<A::Scalar>> = Vec::new();
        for position in 0..FRAME_POSITIONS
            invariant
                config.head_dim % 2 == 0,
                cos@.len() == position,
                sin@.len() == position,
                forall|p: int|
                    0 <= p < position ==> (#[trigger] cos@[p])@.len() == config.head_dim,
                forall|p: int|
                    0 <= p < position ==> (#[trigger] sin@[p])@.len() == config.head_dim,
                arith::pure::<A>() ==> forall|p: int|
                    0 <= p < position ==> (#[trigger] cos@[p])@ == micro_rope_row::<A>(
                        Unary::Cos,
                        config.rope_theta,
                        p as usize,
                        config.head_dim,
                    ),
                arith::pure::<A>() ==> forall|p: int|
                    0 <= p < position ==> (#[trigger] sin@[p])@ == micro_rope_row::<A>(
                        Unary::Sin,
                        config.rope_theta,
                        p as usize,
                        config.head_dim,
                    ),
        {
            cos.push(rope_row::<A>(Unary::Cos, config.rope_theta, position, config.head_dim));
            sin.push(rope_row::<A>(Unary::Sin, config.rope_theta, position, config.head_dim));
        }
        RopeTable { head_dim: config.head_dim, cos, sin }
    }

    /// The cosine and sine row of one position.
    pub fn row(&self, position: usize) -> (result: (&[A::Scalar], &[A::Scalar]))
        requires
            self.wf(),
            position < FRAME_POSITIONS,
        ensures
            result.0@ == self.cosines(position as int),
            result.1@ == self.sines(position as int),
            result.0@.len() == self.width(),
            result.1@.len() == self.width(),
            self.width() % 2 == 0,
            0 <= self.width() <= usize::MAX,
    {
        (self.cos[position].as_slice(), self.sin[position].as_slice())
    }

    /// Rotates one head at one position.
    pub fn apply(&self, x: &mut [A::Scalar], position: usize)
        requires
            self.wf(),
            position < FRAME_POSITIONS,
            old(x)@.len() == self.width(),
        ensures
            final(x)@.len() == old(x)@.len(),
            arith::pure::<A>() ==> final(x)@ == kernels::rope_of::<A>(
                old(x)@,
                self.cosines(position as int),
                self.sines(position as int),
            ),
    {
        let (cos, sin) = self.row(position);
        apply_rope_row::<A>(x, cos, sin);
    }
}

/// Rotates one head by half, with explicit rotary rows.
pub fn apply_rope_row<A: Arithmetic>(
    x: &mut [A::Scalar],
    cos: &[A::Scalar],
    sin: &[A::Scalar],
)
    requires
        old(x)@.len() == cos@.len(),
        old(x)@.len() == sin@.len(),
        old(x)@.len() % 2 == 0,
    ensures
        final(x)@.len() == old(x)@.len(),
        arith::pure::<A>() ==> final(x)@ == kernels::rope_of::<A>(old(x)@, cos@, sin@),
{
    let rotated = rope::<A>(x, cos, sin);
    store(x, rotated.as_slice());
}

} // verus!
