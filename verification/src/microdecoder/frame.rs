//! One frame through the microdecoder: the sequential loop and the block verifier.
use vstd::prelude::*;
use vstd::slice::slice_to_vec;
use crate::arith;
use crate::arith::{constant, Constant, Relation};
use crate::kernels;
use crate::kernels::{dot_product, matvec};
use crate::microdecoder;
use crate::microdecoder::drafter::FrankenMtpDrafter;
use crate::microdecoder::layer;
use crate::microdecoder::layer::{
    block_rows, layer_step, layer_step_q8, FrameKvState, FrameState, LayerWeights, MicroLayerQuant,
    PackedLayer,
};
use crate::microdecoder::{
    argmax, position_role, rms_norm, MicrodecoderConfig, PositionRole, RopeTable, FRAME_POSITIONS,
    RESIDUAL_DEPTHS, RESIDUAL_VOCAB,
};
use crate::quant;
use crate::quant::{Quantized, QuantizedMatrix};
use crate::ranking;
use crate::ranking::take_largest;
use crate::rows;
use crate::rows::{fill, row_of};

verus! {

/// Candidates recomputed exactly after eight-bit head scoring.
pub const HEAD_REFINE_CANDIDATES: usize = 96;

/// Everything the loop needs for one frame.
#[derive(Clone, Copy, Debug)]
pub struct MicrodecoderWeights<'a, S> {
    /// The layers, in order.
    pub layers: &'a [LayerWeights<'a, S>],
    /// The talker's own codec embedding, `[TALKER_CODEC_VOCAB, hidden]`, for position 1 only.
    pub talker_codec_embedding: &'a [S],
    /// One `[RESIDUAL_VOCAB, hidden]` embedding per depth, for every later position.
    pub residual_embeddings: &'a [&'a [S]],
    /// One `[RESIDUAL_VOCAB, hidden]` head per depth.
    pub heads: &'a [&'a [S]],
    /// RMSNorm weight before each head, `[hidden]`.
    pub final_norm: &'a [S],
}

/// The packed layers, the packed heads where the heads are packed too, and the kernel.
pub struct MicroQuantRoute<'a, Q: Quantized> {
    /// One packed body per layer.
    pub layers: &'a [MicroLayerQuant<Q>],
    /// Packed heads for coarse scoring; `None` scores every head exactly.
    pub heads: Option<&'a [QuantizedMatrix<Q>]>,
    /// The kernel that runs them.
    pub mode: Q::Mode,
}

impl<'a, S> MicrodecoderWeights<'a, S> {
    /// That tables, heads and norm have the counts and shapes the geometry gives them. A packed
    /// body leaves only the norms of a layer to be read here.
    pub open spec fn fits(&self, config: MicrodecoderConfig<S>, packed: bool) -> bool {
        &&& self.layers@.len() == config.num_layers
        &&& forall|i: int|
            0 <= i < self.layers@.len() ==> {
                &&& (#[trigger] self.layers@[i]).norms_fit(config)
                &&& packed || self.layers@[i].fits(config)
            }
        &&& self.heads@.len() == RESIDUAL_DEPTHS
        &&& forall|i: int|
            0 <= i < self.heads@.len() ==> (#[trigger] self.heads@[i])@.len() == RESIDUAL_VOCAB
                * config.hidden_size
        &&& self.residual_embeddings@.len() == RESIDUAL_DEPTHS - 1
        &&& forall|i: int|
            0 <= i < self.residual_embeddings@.len() ==> (
            #[trigger] self.residual_embeddings@[i])@.len() >= RESIDUAL_VOCAB * config.hidden_size
        &&& self.final_norm@.len() == config.hidden_size
    }
}

/// What a packed route holds.
pub struct PackedRoute<Q: Quantized> {
    /// One packed body per layer.
    pub layers: Seq<MicroLayerQuant<Q>>,
    /// The packed heads, where the heads are packed.
    pub heads: Option<Seq<QuantizedMatrix<Q>>>,
    /// The kernel that runs them.
    pub mode: Q::Mode,
}

impl<Q: Quantized> PackedRoute<Q> {
    /// That the route packs every layer, and every head or none.
    pub open spec fn fits(&self, config: MicrodecoderConfig<Q::Scalar>) -> bool {
        &&& self.layers.len() == config.num_layers
        &&& forall|i: int|
            0 <= i < self.layers.len() ==> (#[trigger] self.layers[i]).fits(config)
        &&& match self.heads {
            Some(heads) => {
                &&& heads.len() == RESIDUAL_DEPTHS
                &&& forall|i: int|
                    0 <= i < heads.len() ==> {
                        &&& (#[trigger] heads[i]).outputs() == RESIDUAL_VOCAB
                        &&& heads[i].inputs() == config.hidden_size
                    }
            },
            None => true,
        }
    }
}

impl<'a, Q: Quantized> MicroQuantRoute<'a, Q> {
    /// What the route holds.
    pub open spec fn view(&self) -> PackedRoute<Q> {
        PackedRoute {
            layers: self.layers@,
            heads: match self.heads {
                Some(heads) => Some(heads@),
                None => None,
            },
            mode: self.mode,
        }
    }
}

/// What a route holds, where there is one.
pub open spec fn packed_of<'a, Q: Quantized>(route: Option<&MicroQuantRoute<'a, Q>>) -> Option<
    PackedRoute<Q>,
> {
    match route {
        Some(route) => Some(route@),
        None => None,
    }
}

/// What a frame reads besides its own state.
pub struct FrameInputs<'a, Q: Quantized> {
    /// Geometry.
    pub config: MicrodecoderConfig<Q::Scalar>,
    /// Rotary rows.
    pub rope: RopeTable<Q>,
    /// Weights.
    pub weights: MicrodecoderWeights<'a, Q::Scalar>,
    /// The packed route, where the layers run on one.
    pub route: Option<PackedRoute<Q>>,
    /// The talker's hidden state.
    pub talker_hidden: Seq<Q::Scalar>,
    /// The frame's primary code.
    pub primary_code: int,
}

impl<'a, Q: Quantized> FrameInputs<'a, Q> {
    /// That every part has the shape the geometry gives it, and the primary code a row.
    pub open spec fn fits(&self) -> bool {
        &&& self.config.valid()
        &&& self.rope.wf()
        &&& self.rope.width() == self.config.head_dim
        &&& self.weights.fits(self.config, self.route is Some)
        &&& self.talker_hidden.len() == self.config.hidden_size
        &&& 0 <= self.primary_code
        &&& self.primary_code * self.config.hidden_size + self.config.hidden_size
            <= self.weights.talker_codec_embedding@.len()
        &&& match self.route {
            Some(route) => route.fits(self.config),
            None => true,
        }
    }

    /// The packed body of one layer, where the layers run packed.
    pub open spec fn body(&self, i: int) -> Option<PackedLayer<Q>> {
        match self.route {
            Some(route) => Some(PackedLayer { layer: route.layers[i], mode: route.mode }),
            None => None,
        }
    }

    /// The input row of one position, given the residual codes before it.
    pub open spec fn input_row(&self, codes: Seq<usize>, p: int) -> Seq<Q::Scalar> {
        let hidden = self.config.hidden_size as int;
        match microdecoder::role_of(p) {
            PositionRole::Conditioning => self.talker_hidden,
            PositionRole::PrimaryCodeEmbedding { .. } => rows::row(
                self.weights.talker_codec_embedding@,
                self.primary_code,
                hidden,
            ),
            PositionRole::ResidualEmbedding { table, .. } => rows::row(
                self.weights.residual_embeddings@[table as int]@,
                codes[p - 2] as int,
                hidden,
            ),
        }
    }

    /// The input rows of the first `n` positions.
    pub open spec fn input_rows(&self, codes: Seq<usize>, n: int) -> Seq<Seq<Q::Scalar>> {
        Seq::new(n as nat, |p: int| self.input_row(codes, p))
    }

    /// Rows after the first `l` layers.
    pub open spec fn stack_rows(&self, x: Seq<Seq<Q::Scalar>>, l: int) -> Seq<Seq<Q::Scalar>>
        decreases l,
    {
        if l <= 0 {
            x
        } else {
            layer::layer_rows::<Q>(
                self.config,
                self.weights.layers@[l - 1],
                self.body(l - 1),
                self.rope,
                self.stack_rows(x, l - 1),
            )
        }
    }

    /// What layer `l` has cached after the first `n` of its input rows.
    pub open spec fn cached(&self, x: Seq<Seq<Q::Scalar>>, l: int, n: int) -> kernels::KvRows<
        Q::Scalar,
    > {
        layer::cache_after::<Q>(
            self.config,
            self.weights.layers@[l],
            self.body(l),
            self.rope,
            self.stack_rows(x, l),
            n,
        )
    }

    /// The scores one head gives a finished row.
    pub open spec fn scores(&self, head: int, hidden: Seq<Q::Scalar>) -> Seq<Q::Scalar> {
        let normed = microdecoder::micro_rms::<Q>(
            hidden,
            self.weights.final_norm@,
            self.config.rms_eps,
        );
        let exact = kernels::matvec_of::<Q>(
            self.weights.heads@[head]@,
            normed,
            RESIDUAL_VOCAB as int,
        );
        match self.packed_heads() {
            Some(heads) => refined_of::<Q>(
                quant::projected::<Q>(
                    self.route->0.mode,
                    normed,
                    heads[head],
                    0,
                    RESIDUAL_VOCAB as int,
                ),
                exact,
            ),
            None => exact,
        }
    }

    /// The packed heads, where the heads are packed.
    pub open spec fn packed_heads(&self) -> Option<Seq<QuantizedMatrix<Q>>> {
        match self.route {
            Some(route) => route.heads,
            None => None,
        }
    }

    /// The logits of residual depth `depth`, which read only the codes before it.
    pub open spec fn logits(&self, codes: Seq<usize>, depth: int) -> Seq<Q::Scalar> {
        let x = self.input_rows(codes, depth + 2);
        self.scores(depth, self.stack_rows(x, self.config.num_layers as int)[depth + 1])
    }

    /// The logits of every residual depth.
    pub open spec fn all_logits(&self, codes: Seq<usize>) -> Seq<Seq<Q::Scalar>> {
        Seq::new(RESIDUAL_DEPTHS as nat, |d: int| self.logits(codes, d))
    }

    /// That every code is the largest logit of its own depth, given the codes before it.
    pub open spec fn greedy(&self, codes: Seq<usize>) -> bool {
        &&& codes.len() == RESIDUAL_DEPTHS
        &&& forall|d: int|
            0 <= d < RESIDUAL_DEPTHS ==> #[trigger] codes[d] == microdecoder::argmax_of::<Q>(
                self.logits(codes, d),
                RESIDUAL_VOCAB as int,
            )
    }
}

/// The tokens whose scores are recomputed: the largest coarse scores.
pub open spec fn candidates_of<Q: Quantized>(coarse: Seq<Q::Scalar>) -> Seq<bool> {
    ranking::taken_after::<Q>(
        Relation::Less,
        coarse,
        rows::filled(coarse.len() as int, false),
        HEAD_REFINE_CANDIDATES as int,
    )
}

/// Exact scores for the best coarse candidates; nothing else can be picked.
pub open spec fn refined_of<Q: Quantized>(
    coarse: Seq<Q::Scalar>,
    exact: Seq<Q::Scalar>,
) -> Seq<Q::Scalar> {
    let kept = candidates_of::<Q>(coarse);
    Seq::new(
        coarse.len(),
        |t: int|
            if kept[t] {
                exact[t]
            } else {
                arith::cst::<Q>(Constant::NegativeInfinity)
            },
    )
}

/// A candidate keeps its exact score, and every other token is out of reach.
pub proof fn law_refined_scores_are_exact<Q: Quantized>(
    coarse: Seq<Q::Scalar>,
    exact: Seq<Q::Scalar>,
    t: int,
)
    requires
        coarse.len() == exact.len(),
        0 <= t < coarse.len(),
    ensures
        refined_of::<Q>(coarse, exact)[t] == (if candidates_of::<Q>(coarse)[t] {
            exact[t]
        } else {
            arith::cst::<Q>(Constant::NegativeInfinity)
        }),
{
}

/// Where the coarse scores are weakly ordered, the candidates are the largest of them: as many
/// as are kept, and no token left out scores above one kept.
pub proof fn law_candidates_are_the_largest<Q: Quantized>(coarse: Seq<Q::Scalar>)
    requires
        ranking::weakly_ordered::<Q>(Relation::Less, coarse),
    ensures
        candidates_of::<Q>(coarse).len() == coarse.len(),
        ranking::count_set(candidates_of::<Q>(coarse), coarse.len() as int) == if coarse.len()
            < HEAD_REFINE_CANDIDATES {
            coarse.len() as int
        } else {
            HEAD_REFINE_CANDIDATES as int
        },
        forall|k: int, u: int|
            0 <= k < coarse.len() && 0 <= u < coarse.len() && candidates_of::<Q>(coarse)[k]
                && !candidates_of::<Q>(coarse)[u] ==> !#[trigger] arith::rel::<Q>(
                Relation::Less,
                coarse[k],
                coarse[u],
            ),
{
    let none = rows::filled(coarse.len() as int, false);
    ranking::lemma_count_bounds(none, coarse.len() as int);
    ranking::law_taken_are_the_largest::<Q>(
        Relation::Less,
        coarse,
        none,
        HEAD_REFINE_CANDIDATES as int,
    );
}

/// Scores one head coarsely, then exactly for the best candidates.
pub fn score_head_refined<Q: Quantized>(
    packed: &QuantizedMatrix<Q>,
    head: &[Q::Scalar],
    normed: &[Q::Scalar],
    mode: Q::Mode,
) -> (logits: Vec<Q::Scalar>)
    requires
        packed.outputs() == RESIDUAL_VOCAB,
        packed.inputs() == normed@.len(),
        head@.len() == RESIDUAL_VOCAB * normed@.len(),
    ensures
        logits@.len() == RESIDUAL_VOCAB,
        layer::exact::<Q>() ==> logits@ == refined_of::<Q>(
            quant::projected::<Q>(mode, normed@, *packed, 0, RESIDUAL_VOCAB as int),
            kernels::matvec_of::<Q>(head@, normed@, RESIDUAL_VOCAB as int),
        ),
{
    let hidden: usize = normed.len();
    let coarse = packed.project(mode, normed, 0, RESIDUAL_VOCAB);
    let kept = take_largest::<Q>(
        Relation::Less,
        coarse.as_slice(),
        fill(RESIDUAL_VOCAB, false),
        HEAD_REFINE_CANDIDATES,
    );
    let mut logits: Vec<Q::Scalar> = Vec::new();
    let unreachable = constant::<Q>(Constant::NegativeInfinity);
    let ghost expected = refined_of::<Q>(
        coarse@,
        kernels::matvec_of::<Q>(head@, normed@, RESIDUAL_VOCAB as int),
    );
    for token in 0..RESIDUAL_VOCAB
        invariant
            hidden == normed@.len(),
            head@.len() == RESIDUAL_VOCAB * hidden,
            coarse@.len() == RESIDUAL_VOCAB,
            kept@.len() == RESIDUAL_VOCAB,
            arith::pure::<Q>() ==> kept@ == candidates_of::<Q>(coarse@),
            arith::pure::<Q>() ==> unreachable == arith::cst::<Q>(Constant::NegativeInfinity),
            expected == refined_of::<Q>(
                coarse@,
                kernels::matvec_of::<Q>(head@, normed@, RESIDUAL_VOCAB as int),
            ),
            logits@.len() == token,
            arith::pure::<Q>() ==> forall|j: int|
                0 <= j < token ==> #[trigger] logits@[j] == expected[j],
    {
        if kept[token] {
            proof {
                rows::lemma_row_bounds(token as int, RESIDUAL_VOCAB as int, hidden as int);
            }
            logits.push(dot_product::<Q>(row_of(head, token, hidden), normed));
        } else {
            logits.push(unreachable);
        }
    }
    proof {
        if arith::pure::<Q>() {
            assert(logits@ =~= expected);
        }
    }
    logits
}

/// Scores one finished row through one head.
fn score_row<'a, Q: Quantized>(
    config: &MicrodecoderConfig<Q::Scalar>,
    weights: &MicrodecoderWeights<'a, Q::Scalar>,
    route: Option<&'a MicroQuantRoute<'a, Q>>,
    head: usize,
    hidden: &[Q::Scalar],
    Ghost(frame): Ghost<FrameInputs<'a, Q>>,
) -> (logits: Vec<Q::Scalar>)
    requires
        frame.fits(),
        frame.config == *config,
        frame.weights == *weights,
        frame.route == packed_of(route),
        head < RESIDUAL_DEPTHS,
        hidden@.len() == config.hidden_size,
    ensures
        logits@.len() == RESIDUAL_VOCAB,
        layer::exact::<Q>() ==> logits@ == frame.scores(head as int, hidden@),
{
    let normed = rms_norm::<Q>(hidden, weights.final_norm, config.rms_eps);
    match route {
        Some(packed) => match packed.heads {
            Some(heads) => score_head_refined::<Q>(
                &heads[head],
                weights.heads[head],
                normed.as_slice(),
                packed.mode,
            ),
            None => matvec::<Q>(weights.heads[head], normed.as_slice(), RESIDUAL_VOCAB),
        },
        None => matvec::<Q>(weights.heads[head], normed.as_slice(), RESIDUAL_VOCAB),
    }
}

/// One row of a `[vocab, hidden]` embedding table.
fn embedding_row<T: Copy>(table: &[T], token: usize, hidden: usize) -> (row: Vec<T>)
    requires
        token * hidden + hidden <= table@.len(),
    ensures
        row@ == rows::row(table@, token as int, hidden as int),
        row@.len() == hidden,
{
    slice_to_vec(row_of(table, token, hidden))
}

/// The input row of one position.
fn input_row<'a, Q: Quantized>(
    config: &MicrodecoderConfig<Q::Scalar>,
    weights: &MicrodecoderWeights<'a, Q::Scalar>,
    talker_hidden: &[Q::Scalar],
    primary_code: usize,
    codes: &[usize],
    position: usize,
    Ghost(frame): Ghost<FrameInputs<'a, Q>>,
) -> (row: Vec<Q::Scalar>)
    requires
        frame.fits(),
        frame.config == *config,
        frame.weights == *weights,
        frame.talker_hidden == talker_hidden@,
        frame.primary_code == primary_code,
        position < FRAME_POSITIONS,
        position >= 2 ==> position - 2 < codes@.len() && codes@[position - 2] < RESIDUAL_VOCAB,
    ensures
        row@ == frame.input_row(codes@, position as int),
        row@.len() == config.hidden_size,
{
    match position_role(position) {
        PositionRole::Conditioning => slice_to_vec(talker_hidden),
        PositionRole::PrimaryCodeEmbedding { head } => embedding_row(
            weights.talker_codec_embedding,
            primary_code,
            config.hidden_size,
        ),
        PositionRole::ResidualEmbedding { table, head } => {
            proof {
                rows::lemma_row_bounds(
                    codes@[position - 2] as int,
                    RESIDUAL_VOCAB as int,
                    config.hidden_size as int,
                );
            }
            embedding_row(
                weights.residual_embeddings[table],
                codes[position - 2],
                config.hidden_size,
            )
        },
    }
}

impl<'a, Q: Quantized> FrameInputs<'a, Q> {
    /// The stack keeps the number of rows.
    pub proof fn lemma_stack_len(&self, x: Seq<Seq<Q::Scalar>>, l: int)
        ensures
            self.stack_rows(x, l).len() == x.len(),
        decreases l,
    {
        if l > 0 {
            self.lemma_stack_len(x, l - 1);
        }
    }

    /// A position's row depends only on that position and the ones before it, at every depth of
    /// the stack.
    pub proof fn law_stack_is_causal(&self, x: Seq<Seq<Q::Scalar>>, n: int, l: int)
        requires
            0 <= n <= x.len(),
        ensures
            self.stack_rows(x.take(n), l) == self.stack_rows(x, l).take(n),
        decreases l,
    {
        if l > 0 {
            self.law_stack_is_causal(x, n, l - 1);
            self.lemma_stack_len(x, l - 1);
            layer::law_layer_is_causal::<Q>(
                self.config,
                self.weights.layers@[l - 1],
                self.body(l - 1),
                self.rope,
                self.stack_rows(x, l - 1),
                n,
            );
        }
    }

    /// The caches after `n` positions do not depend on later positions.
    pub proof fn lemma_cached_is_causal(&self, x: Seq<Seq<Q::Scalar>>, n: int, l: int)
        requires
            0 <= n <= x.len(),
            0 <= l,
        ensures
            self.cached(x.take(n), l, n) == self.cached(x, l, n),
    {
        self.law_stack_is_causal(x, n, l);
        self.lemma_stack_len(x, l);
        self.lemma_stack_len(x.take(n), l);
        let short = self.stack_rows(x.take(n), l);
        let long = self.stack_rows(x, l);
        assert(short.take(n) =~= long.take(n));
        layer::lemma_cache_is_causal::<Q>(
            self.config,
            self.weights.layers@[l],
            self.body(l),
            self.rope,
            short,
            long,
            n,
        );
    }

    /// Logits at one depth read only the codes before that depth.
    pub proof fn law_logits_read_earlier_codes(
        &self,
        a: Seq<usize>,
        b: Seq<usize>,
        depth: int,
    )
        requires
            0 <= depth < RESIDUAL_DEPTHS,
            depth <= a.len(),
            depth <= b.len(),
            a.take(depth) == b.take(depth),
        ensures
            self.logits(a, depth) == self.logits(b, depth),
    {
        assert forall|p: int| 0 <= p < depth + 2 implies #[trigger] self.input_row(a, p)
            == self.input_row(b, p) by {
            if p >= 2 {
                assert(a[p - 2] == a.take(depth)[p - 2]);
                assert(b[p - 2] == b.take(depth)[p - 2]);
            }
        }
        assert(self.input_rows(a, depth + 2) =~= self.input_rows(b, depth + 2));
    }

    /// A whole frame at once scores every depth as the sequential loop does.
    pub proof fn law_block_scores_match(&self, codes: Seq<usize>, depth: int)
        requires
            codes.len() >= RESIDUAL_DEPTHS - 1,
            0 <= depth < RESIDUAL_DEPTHS,
        ensures
            self.scores(
                depth,
                self.stack_rows(
                    self.input_rows(codes, FRAME_POSITIONS as int),
                    self.config.num_layers as int,
                )[depth + 1],
            ) == self.logits(codes, depth),
    {
        let x = self.input_rows(codes, FRAME_POSITIONS as int);
        let l = self.config.num_layers as int;
        assert(x.take(depth + 2) =~= self.input_rows(codes, depth + 2));
        self.law_stack_is_causal(x, depth + 2, l);
        self.lemma_stack_len(x, l);
    }

    /// At most one frame of codes is greedy.
    pub proof fn law_greedy_codes_are_unique(&self, a: Seq<usize>, b: Seq<usize>)
        requires
            self.greedy(a),
            self.greedy(b),
        ensures
            a == b,
    {
        self.lemma_greedy_prefix(a, b, RESIDUAL_DEPTHS as int);
        assert(a.take(RESIDUAL_DEPTHS as int) =~= a);
        assert(b.take(RESIDUAL_DEPTHS as int) =~= b);
    }

    /// A draft is accepted whole exactly when it is the greedy frame.
    pub proof fn law_accepted_whole_means_greedy(&self, drafted: Seq<usize>)
        requires
            drafted.len() == RESIDUAL_DEPTHS,
        ensures
            (accepted_from::<Q>(self.all_logits(drafted), drafted, 0) == RESIDUAL_DEPTHS)
                == self.greedy(drafted),
    {
        let logits = self.all_logits(drafted);
        law_accepted_prefix::<Q>(logits, drafted, 0);
        let n = accepted_from::<Q>(logits, drafted, 0);
        assert forall|d: int| 0 <= d < RESIDUAL_DEPTHS implies (
        #[trigger] logits[d]).len() == RESIDUAL_VOCAB by {}
        if n == RESIDUAL_DEPTHS {
            assert forall|d: int| 0 <= d < RESIDUAL_DEPTHS implies #[trigger] drafted[d]
                == microdecoder::argmax_of::<Q>(
                self.logits(drafted, d),
                RESIDUAL_VOCAB as int,
            ) by {
                assert(logits[d].len() == RESIDUAL_VOCAB);
            }
        } else if self.greedy(drafted) {
            assert(logits[n].len() == RESIDUAL_VOCAB);
            assert(drafted[n] == microdecoder::argmax_of::<Q>(
                self.logits(drafted, n),
                RESIDUAL_VOCAB as int,
            ));
        }
    }

    /// Speculation never changes what is emitted: a draft accepted whole is what the sequential
    /// greedy loop emits.
    pub proof fn law_speculation_keeps_the_codes(
        &self,
        drafted: Seq<usize>,
        sequential: Seq<usize>,
    )
        requires
            drafted.len() == RESIDUAL_DEPTHS,
            accepted_from::<Q>(self.all_logits(drafted), drafted, 0) == RESIDUAL_DEPTHS,
            self.greedy(sequential),
        ensures
            drafted == sequential,
    {
        self.law_accepted_whole_means_greedy(drafted);
        self.law_greedy_codes_are_unique(drafted, sequential);
    }

    /// That the caches hold the first `n` positions, given the codes before them.
    pub open spec fn reached(&self, state: FrameState<Q>, codes: Seq<usize>, n: int) -> bool {
        &&& forall|i: int|
            0 <= i < self.config.num_layers ==> (#[trigger] state.layers@[i]).kv().keys.len() == n
        &&& layer::exact::<Q>() ==> forall|i: int|
            0 <= i < self.config.num_layers ==> (#[trigger] state.layers@[i]).kv() == self.cached(
                self.input_rows(codes, n),
                i,
                n,
            )
    }

    /// One more code changes neither what led to it nor the positions before its own.
    pub proof fn lemma_code_pushed(&self, state: FrameState<Q>, codes: Seq<usize>, code: usize)
        requires
            codes.len() < RESIDUAL_DEPTHS,
            self.reached(state, codes, 2int + codes.len()),
        ensures
            self.reached(state, codes.push(code), 2int + codes.len()),
            forall|d: int|
                0 <= d <= codes.len() ==> #[trigger] self.logits(codes.push(code), d)
                    == self.logits(codes, d),
    {
        let longer = codes.push(code);
        assert(self.input_rows(longer, 2int + codes.len()) =~= self.input_rows(
            codes,
            2int + codes.len(),
        ));
        assert forall|d: int| 0 <= d <= codes.len() implies #[trigger] self.logits(longer, d)
            == self.logits(codes, d) by {
            assert(longer.take(d) =~= codes.take(d));
            self.law_logits_read_earlier_codes(longer, codes, d);
        }
    }

    /// Greedy codes agree depth by depth.
    proof fn lemma_greedy_prefix(&self, a: Seq<usize>, b: Seq<usize>, n: int)
        requires
            self.greedy(a),
            self.greedy(b),
            0 <= n <= RESIDUAL_DEPTHS,
        ensures
            a.take(n) == b.take(n),
        decreases n,
    {
        if n > 0 {
            self.lemma_greedy_prefix(a, b, n - 1);
            self.law_logits_read_earlier_codes(a, b, n - 1);
            assert(a[n - 1] == b[n - 1]);
            assert(a.take(n) =~= a.take(n - 1).push(a[n - 1]));
            assert(b.take(n) =~= b.take(n - 1).push(b[n - 1]));
        }
    }
}

/// What one frame reads.
pub open spec fn frame_of<'a, Q: Quantized>(
    config: MicrodecoderConfig<Q::Scalar>,
    rope: RopeTable<Q>,
    weights: MicrodecoderWeights<'a, Q::Scalar>,
    route: Option<&'a MicroQuantRoute<'a, Q>>,
    talker_hidden: Seq<Q::Scalar>,
    primary_code: usize,
) -> FrameInputs<'a, Q> {
    FrameInputs {
        config,
        rope,
        weights,
        route: packed_of(route),
        talker_hidden,
        primary_code: primary_code as int,
    }
}

/// That a selector may pick `code` from a row of logits.
pub open spec fn may_select<S, F: FnMut(&[S]) -> usize>(
    select: F,
    logits: Seq<S>,
    code: usize,
) -> bool {
    exists|row: &[S]| row@ == logits && #[trigger] call_ensures(select, (row,), code)
}

/// That a row of logits is one of the last depth's only. The code picked there is embedded nowhere.
pub open spec fn scored_last<'a, Q: Quantized>(
    frame: FrameInputs<'a, Q>,
    logits: Seq<Q::Scalar>,
) -> bool {
    &&& layer::exact::<Q>()
    &&& forall|codes: Seq<usize>, d: int|
        0 <= d < RESIDUAL_DEPTHS - 1 ==> logits != #[trigger] frame.logits(codes, d)
}

/// That a selector takes every full row of logits, and picks a residual code from every one whose
/// code is embedded.
pub open spec fn selects_codes<'a, Q: Quantized, F: FnMut(&[Q::Scalar]) -> usize>(
    frame: FrameInputs<'a, Q>,
    select: F,
) -> bool {
    &&& forall|row: &[Q::Scalar]|
        row@.len() == RESIDUAL_VOCAB ==> #[trigger] call_requires(select, (row,))
    &&& forall|row: &[Q::Scalar], code: usize|
        row@.len() == RESIDUAL_VOCAB && #[trigger] call_ensures(select, (row,), code) ==> code
            < RESIDUAL_VOCAB || scored_last::<Q>(frame, row@)
}

/// That selected codes are residual codes, but for a last one that only the last depth's row gives.
pub open spec fn codes_fit<'a, Q: Quantized>(frame: FrameInputs<'a, Q>, codes: Seq<usize>) -> bool {
    &&& forall|d: int| 0 <= d < RESIDUAL_DEPTHS - 1 ==> #[trigger] codes[d] < RESIDUAL_VOCAB
    &&& codes[RESIDUAL_DEPTHS - 1] < RESIDUAL_VOCAB || scored_last::<Q>(
        frame,
        frame.logits(codes, RESIDUAL_DEPTHS - 1),
    )
}

/// Runs every layer over one position.
fn step_layers<'a, Q: Quantized>(
    config: &MicrodecoderConfig<Q::Scalar>,
    rope: &RopeTable<Q>,
    weights: &MicrodecoderWeights<'a, Q::Scalar>,
    route: Option<&'a MicroQuantRoute<'a, Q>>,
    state: &mut FrameState<Q>,
    row: Vec<Q::Scalar>,
    position: usize,
    Ghost(frame): Ghost<FrameInputs<'a, Q>>,
    Ghost(x): Ghost<Seq<Seq<Q::Scalar>>>,
) -> (hidden: Vec<Q::Scalar>)
    requires
        frame.fits(),
        frame.config == *config,
        frame.rope == *rope,
        frame.weights == *weights,
        frame.route == packed_of(route),
        position < FRAME_POSITIONS,
        x.len() == position + 1,
        row@ == x[position as int],
        row@.len() == config.hidden_size,
        old(state).serves(*config),
        forall|i: int|
            0 <= i < config.num_layers ==> (#[trigger] old(state).layers@[i]).kv().keys.len()
                == position,
        layer::exact::<Q>() ==> forall|i: int|
            0 <= i < config.num_layers ==> (#[trigger] old(state).layers@[i]).kv()
                == frame.cached(x, i, position as int),
    ensures
        final(state).serves(*config),
        forall|i: int|
            0 <= i < config.num_layers ==> (#[trigger] final(state).layers@[i]).kv().keys.len()
                == position + 1,
        hidden@.len() == config.hidden_size,
        layer::exact::<Q>() ==> hidden@ == frame.stack_rows(
            x,
            config.num_layers as int,
        )[position as int],
        layer::exact::<Q>() ==> forall|i: int|
            0 <= i < config.num_layers ==> (#[trigger] final(state).layers@[i]).kv()
                == frame.cached(x, i, position + 1),
{
    let mut hidden = row;
    let n: usize = weights.layers.len();
    for index in 0..n
        invariant
            n == config.num_layers,
            frame.fits(),
            frame.config == *config,
            frame.rope == *rope,
            frame.weights == *weights,
            frame.route == packed_of(route),
            position < FRAME_POSITIONS,
            x.len() == position + 1,
            hidden@.len() == config.hidden_size,
            state.serves(*config),
            forall|i: int|
                0 <= i < n ==> (#[trigger] state.layers@[i]).kv().keys.len() == position + if i
                    < index {
                    1int
                } else {
                    0
                },
            layer::exact::<Q>() ==> hidden@ == frame.stack_rows(x, index as int)[position as int],
            layer::exact::<Q>() ==> forall|i: int|
                0 <= i < n ==> (#[trigger] state.layers@[i]).kv() == frame.cached(
                    x,
                    i,
                    position + if i < index {
                        1int
                    } else {
                        0
                    },
                ),
    {
        proof {
            frame.lemma_stack_len(x, index as int);
            assert(weights.layers@[index as int].norms_fit(*config));
            assert(state.layers@[index as int].serves(*config));
        }
        let ghost before = state.layers@;
        hidden = match route {
            Some(packed) => {
                proof {
                    assert(packed.layers@[index as int].fits(*config));
                }
                let (cos, sin) = rope.row(position);
                layer_step_q8::<Q>(
                    config,
                    &weights.layers[index],
                    &packed.layers[index],
                    cos,
                    sin,
                    hidden.as_slice(),
                    &mut state.layers[index],
                    packed.mode,
                )
            },
            None => layer_step::<Q>(
                config,
                rope,
                &weights.layers[index],
                hidden.as_slice(),
                position,
                &mut state.layers[index],
            ),
        };
        proof {
            assert(state.layers@ =~= before.update(index as int, state.layers@[index as int]));
            assert forall|i: int| 0 <= i < n implies (#[trigger] state.layers@[i]).serves(
                *config,
            ) by {
                if i != index {
                    assert(state.layers@[i] == before[i]);
                }
            }
            assert forall|i: int|
                0 <= i < n implies (#[trigger] state.layers@[i]).kv().keys.len() == position + if i
                < index + 1 {
                1int
            } else {
                0
            } by {
                if i != index {
                    assert(state.layers@[i] == before[i]);
                }
            }
            if layer::exact::<Q>() {
                assert forall|i: int| 0 <= i < n implies (#[trigger] state.layers@[i]).kv()
                    == frame.cached(
                    x,
                    i,
                    position + if i < index + 1 {
                        1int
                    } else {
                        0
                    },
                ) by {
                    if i != index {
                        assert(state.layers@[i] == before[i]);
                    } else {
                        assert(before[i].kv() == frame.cached(x, i, position as int));
                    }
                }
            }
        }
    }
    hidden
}

/// Runs one position: its input row through the layers, and, past the conditioning position, the
/// row that comes out through its head.
pub(crate) fn run_position<'a, Q: Quantized>(
    config: &MicrodecoderConfig<Q::Scalar>,
    rope: &RopeTable<Q>,
    weights: &MicrodecoderWeights<'a, Q::Scalar>,
    route: Option<&'a MicroQuantRoute<'a, Q>>,
    state: &mut FrameState<Q>,
    talker_hidden: &[Q::Scalar],
    primary_code: usize,
    codes: &[usize],
    position: usize,
    Ghost(frame): Ghost<FrameInputs<'a, Q>>,
) -> (logits: Vec<Q::Scalar>)
    requires
        frame == frame_of::<Q>(*config, *rope, *weights, route, talker_hidden@, primary_code),
        frame.fits(),
        position < FRAME_POSITIONS,
        codes@.len() == if position <= 1 {
            0
        } else {
            position - 1
        },
        forall|d: int| 0 <= d < codes@.len() ==> #[trigger] codes@[d] < RESIDUAL_VOCAB,
        old(state).serves(*config),
        frame.reached(*old(state), codes@, position as int),
    ensures
        final(state).serves(*config),
        frame.reached(*final(state), codes@, position + 1),
        position > 0 ==> logits@.len() == RESIDUAL_VOCAB,
        position > 0 && layer::exact::<Q>() ==> logits@ == frame.logits(codes@, position - 1),
{
    let ghost x = frame.input_rows(codes@, position + 1);
    let row = input_row::<Q>(
        config,
        weights,
        talker_hidden,
        primary_code,
        codes,
        position,
        Ghost(frame),
    );
    proof {
        assert(x.take(position as int) =~= frame.input_rows(codes@, position as int));
        if layer::exact::<Q>() {
            assert forall|i: int| 0 <= i < config.num_layers implies (
            #[trigger] state.layers@[i]).kv() == frame.cached(x, i, position as int) by {
                frame.lemma_cached_is_causal(x, position as int, i);
            }
        }
    }
    let hidden = step_layers::<Q>(
        config,
        rope,
        weights,
        route,
        state,
        row,
        position,
        Ghost(frame),
        Ghost(x),
    );
    if position > 0 {
        score_row::<Q>(config, weights, route, position - 1, hidden.as_slice(), Ghost(frame))
    } else {
        Vec::new()
    }
}

/// The sequential loop on either route.
fn decode_loop<'a, Q: Quantized, F: FnMut(&[Q::Scalar]) -> usize>(
    config: &MicrodecoderConfig<Q::Scalar>,
    rope: &RopeTable<Q>,
    weights: &MicrodecoderWeights<'a, Q::Scalar>,
    route: Option<&'a MicroQuantRoute<'a, Q>>,
    state: &mut FrameState<Q>,
    talker_hidden: &[Q::Scalar],
    primary_code: usize,
    select: F,
) -> (codes: Vec<usize>)
    requires
        frame_of::<Q>(*config, *rope, *weights, route, talker_hidden@, primary_code).fits(),
        old(state).serves(*config),
        selects_codes::<Q, F>(
            frame_of::<Q>(*config, *rope, *weights, route, talker_hidden@, primary_code),
            select,
        ),
    ensures
        codes@.len() == RESIDUAL_DEPTHS,
        codes_fit::<Q>(
            frame_of::<Q>(*config, *rope, *weights, route, talker_hidden@, primary_code),
            codes@,
        ),
        final(state).serves(*config),
        forall|i: int|
            0 <= i < config.num_layers ==> (#[trigger] final(state).layers@[i]).kv().keys.len()
                == FRAME_POSITIONS,
        layer::exact::<Q>() ==> {
            let frame = frame_of::<Q>(
                *config,
                *rope,
                *weights,
                route,
                talker_hidden@,
                primary_code,
            );
            &&& forall|d: int|
                0 <= d < RESIDUAL_DEPTHS ==> may_select::<Q::Scalar, F>(
                    select,
                    frame.logits(codes@, d),
                    #[trigger] codes@[d],
                )
            &&& forall|i: int|
                0 <= i < config.num_layers ==> (#[trigger] final(state).layers@[i]).kv()
                    == frame.cached(
                    frame.input_rows(codes@, FRAME_POSITIONS as int),
                    i,
                    FRAME_POSITIONS as int,
                )
        },
{
    let ghost frame = frame_of::<Q>(
        *config,
        *rope,
        *weights,
        route,
        talker_hidden@,
        primary_code,
    );
    let mut select = select;
    let ghost chooser = select;
    state.reset();
    proof {
        if layer::exact::<Q>() {
            assert forall|i: int| 0 <= i < config.num_layers implies (
            #[trigger] state.layers@[i]).kv() == frame.cached(
                frame.input_rows(Seq::empty(), 0),
                i,
                0,
            ) by {}
        }
    }
    let mut codes: Vec<usize> = Vec::new();
    for position in 0..FRAME_POSITIONS
        invariant
            frame == frame_of::<Q>(*config, *rope, *weights, route, talker_hidden@, primary_code),
            frame.fits(),
            select == chooser,
            selects_codes::<Q, F>(frame, select),
            state.serves(*config),
            codes@.len() == if position <= 1 {
                0
            } else {
                position - 1
            },
            forall|d: int|
                0 <= d < codes@.len() && d < RESIDUAL_DEPTHS - 1 ==> #[trigger] codes@[d]
                    < RESIDUAL_VOCAB,
            codes@.len() == RESIDUAL_DEPTHS ==> codes_fit::<Q>(frame, codes@),
            frame.reached(*state, codes@, position as int),
            layer::exact::<Q>() ==> forall|d: int|
                0 <= d < codes@.len() ==> may_select::<Q::Scalar, F>(
                    chooser,
                    frame.logits(codes@, d),
                    #[trigger] codes@[d],
                ),
    {
        let logits = run_position::<Q>(
            config,
            rope,
            weights,
            route,
            state,
            talker_hidden,
            primary_code,
            codes.as_slice(),
            position,
            Ghost(frame),
        );
        if position > 0 {
            let ghost earlier = codes@;
            let scores = logits.as_slice();
            let code: usize = select(scores);
            proof {
                assert(call_ensures(chooser, (scores,), code));
            }
            codes.push(code);
            proof {
                frame.lemma_code_pushed(*state, earlier, code);
                if layer::exact::<Q>() {
                    assert forall|e: int| 0 <= e < codes@.len() implies may_select::<
                        Q::Scalar,
                        F,
                    >(chooser, frame.logits(codes@, e), #[trigger] codes@[e]) by {
                        assert(frame.logits(codes@, e) == frame.logits(earlier, e));
                        if e < earlier.len() {
                            assert(codes@[e] == earlier[e]);
                        } else {
                            assert(scores@ == frame.logits(codes@, e));
                        }
                    }
                }
            }
        }
    }
    codes
}

/// The sequential loop on the plain weights, with the selection of each code left to the caller.
///
/// Every code is embedded as the next position's input, so no depth can be computed before the
/// one ahead of it. The frame starts from empty caches whatever they held.
pub fn decode_frame_with_selector<'a, Q: Quantized, F: FnMut(&[Q::Scalar]) -> usize>(
    config: &MicrodecoderConfig<Q::Scalar>,
    rope: &RopeTable<Q>,
    weights: &MicrodecoderWeights<'a, Q::Scalar>,
    state: &mut FrameState<Q>,
    talker_hidden: &[Q::Scalar],
    primary_code: usize,
    select: F,
) -> (codes: Vec<usize>)
    requires
        frame_of::<Q>(*config, *rope, *weights, None, talker_hidden@, primary_code).fits(),
        old(state).serves(*config),
        selects_codes::<Q, F>(
            frame_of::<Q>(*config, *rope, *weights, None, talker_hidden@, primary_code),
            select,
        ),
    ensures
        codes@.len() == RESIDUAL_DEPTHS,
        codes_fit::<Q>(
            frame_of::<Q>(*config, *rope, *weights, None, talker_hidden@, primary_code),
            codes@,
        ),
        final(state).serves(*config),
        forall|i: int|
            0 <= i < config.num_layers ==> (#[trigger] final(state).layers@[i]).kv().keys.len()
                == FRAME_POSITIONS,
        layer::exact::<Q>() ==> {
            let frame = frame_of::<Q>(*config, *rope, *weights, None, talker_hidden@, primary_code);
            &&& forall|d: int|
                0 <= d < RESIDUAL_DEPTHS ==> may_select::<Q::Scalar, F>(
                    select,
                    frame.logits(codes@, d),
                    #[trigger] codes@[d],
                )
            &&& forall|i: int|
                0 <= i < config.num_layers ==> (#[trigger] final(state).layers@[i]).kv()
                    == frame.cached(
                    frame.input_rows(codes@, FRAME_POSITIONS as int),
                    i,
                    FRAME_POSITIONS as int,
                )
        },
{
    decode_loop::<Q, F>(config, rope, weights, None, state, talker_hidden, primary_code, select)
}

/// [`decode_frame_with_selector`] with the layers, and the heads where the route packs them, on
/// the eight-bit kernels.
pub fn decode_frame_with_selector_q8<'a, Q: Quantized, F: FnMut(&[Q::Scalar]) -> usize>(
    config: &MicrodecoderConfig<Q::Scalar>,
    rope: &RopeTable<Q>,
    weights: &MicrodecoderWeights<'a, Q::Scalar>,
    route: &'a MicroQuantRoute<'a, Q>,
    state: &mut FrameState<Q>,
    talker_hidden: &[Q::Scalar],
    primary_code: usize,
    select: F,
) -> (codes: Vec<usize>)
    requires
        frame_of::<Q>(*config, *rope, *weights, Some(route), talker_hidden@, primary_code).fits(),
        old(state).serves(*config),
        selects_codes::<Q, F>(
            frame_of::<Q>(*config, *rope, *weights, Some(route), talker_hidden@, primary_code),
            select,
        ),
    ensures
        codes@.len() == RESIDUAL_DEPTHS,
        codes_fit::<Q>(
            frame_of::<Q>(*config, *rope, *weights, Some(route), talker_hidden@, primary_code),
            codes@,
        ),
        final(state).serves(*config),
        forall|i: int|
            0 <= i < config.num_layers ==> (#[trigger] final(state).layers@[i]).kv().keys.len()
                == FRAME_POSITIONS,
        layer::exact::<Q>() ==> {
            let frame = frame_of::<Q>(
                *config,
                *rope,
                *weights,
                Some(route),
                talker_hidden@,
                primary_code,
            );
            &&& forall|d: int|
                0 <= d < RESIDUAL_DEPTHS ==> may_select::<Q::Scalar, F>(
                    select,
                    frame.logits(codes@, d),
                    #[trigger] codes@[d],
                )
            &&& forall|i: int|
                0 <= i < config.num_layers ==> (#[trigger] final(state).layers@[i]).kv()
                    == frame.cached(
                    frame.input_rows(codes@, FRAME_POSITIONS as int),
                    i,
                    FRAME_POSITIONS as int,
                )
        },
{
    decode_loop::<Q, F>(
        config,
        rope,
        weights,
        Some(route),
        state,
        talker_hidden,
        primary_code,
        select,
    )
}

/// The greedy sequential loop on either route.
fn decode_greedy<'a, Q: Quantized>(
    config: &MicrodecoderConfig<Q::Scalar>,
    rope: &RopeTable<Q>,
    weights: &MicrodecoderWeights<'a, Q::Scalar>,
    route: Option<&'a MicroQuantRoute<'a, Q>>,
    state: &mut FrameState<Q>,
    talker_hidden: &[Q::Scalar],
    primary_code: usize,
) -> (codes: Vec<usize>)
    requires
        frame_of::<Q>(*config, *rope, *weights, route, talker_hidden@, primary_code).fits(),
        old(state).serves(*config),
    ensures
        codes@.len() == RESIDUAL_DEPTHS,
        forall|d: int| 0 <= d < RESIDUAL_DEPTHS ==> #[trigger] codes@[d] < RESIDUAL_VOCAB,
        final(state).serves(*config),
        forall|i: int|
            0 <= i < config.num_layers ==> (#[trigger] final(state).layers@[i]).kv().keys.len()
                == FRAME_POSITIONS,
        layer::exact::<Q>() ==> frame_of::<Q>(
            *config,
            *rope,
            *weights,
            route,
            talker_hidden@,
            primary_code,
        ).greedy(codes@),
{
    let pick = |row: &[Q::Scalar]| -> (code: usize)
        requires
            row@.len() == RESIDUAL_VOCAB,
        ensures
            code < RESIDUAL_VOCAB,
            arith::pure::<Q>() ==> code == microdecoder::argmax_of::<Q>(
                row@,
                RESIDUAL_VOCAB as int,
            ),
        { argmax::<Q>(row) };
    let codes = decode_loop::<Q, _>(
        config,
        rope,
        weights,
        route,
        state,
        talker_hidden,
        primary_code,
        pick,
    );
    proof {
        if layer::exact::<Q>() {
            let frame = frame_of::<Q>(
                *config,
                *rope,
                *weights,
                route,
                talker_hidden@,
                primary_code,
            );
            assert forall|d: int| 0 <= d < RESIDUAL_DEPTHS implies #[trigger] codes@[d]
                == microdecoder::argmax_of::<Q>(
                frame.logits(codes@, d),
                RESIDUAL_VOCAB as int,
            ) by {
                let logits = frame.logits(codes@, d);
                let row = choose|row: &[Q::Scalar]|
                    row@ == logits && #[trigger] call_ensures(pick, (row,), codes@[d]);
                assert(may_select(pick, logits, codes@[d]));
                assert(row@.len() == RESIDUAL_VOCAB);
            }
        }
    }
    codes
}

/// The sequential loop that takes the largest logit at every depth.
pub fn decode_frame_greedy<'a, Q: Quantized>(
    config: &MicrodecoderConfig<Q::Scalar>,
    rope: &RopeTable<Q>,
    weights: &MicrodecoderWeights<'a, Q::Scalar>,
    state: &mut FrameState<Q>,
    talker_hidden: &[Q::Scalar],
    primary_code: usize,
) -> (codes: Vec<usize>)
    requires
        frame_of::<Q>(*config, *rope, *weights, None, talker_hidden@, primary_code).fits(),
        old(state).serves(*config),
    ensures
        codes@.len() == RESIDUAL_DEPTHS,
        forall|d: int| 0 <= d < RESIDUAL_DEPTHS ==> #[trigger] codes@[d] < RESIDUAL_VOCAB,
        final(state).serves(*config),
        forall|i: int|
            0 <= i < config.num_layers ==> (#[trigger] final(state).layers@[i]).kv().keys.len()
                == FRAME_POSITIONS,
        layer::exact::<Q>() ==> frame_of::<Q>(
            *config,
            *rope,
            *weights,
            None,
            talker_hidden@,
            primary_code,
        ).greedy(codes@),
{
    decode_greedy::<Q>(config, rope, weights, None, state, talker_hidden, primary_code)
}

/// Logits of one verification pass: row `d` is head `d` at position `d + 1`, and predicts code
/// `d + 1`.
pub struct DraftVerification<Q: Quantized> {
    logits: Vec<Vec<Q::Scalar>>,
}

/// How many leading draft codes are the largest logit of their own row, counted from `from`.
pub open spec fn accepted_from<Q: Quantized>(
    logits: Seq<Seq<Q::Scalar>>,
    drafted: Seq<usize>,
    from: int,
) -> int
    decreases logits.len() - from,
{
    if from < logits.len() && microdecoder::argmax_of::<Q>(
        logits[from],
        logits[from].len() as int,
    ) == drafted[from] {
        1 + accepted_from::<Q>(logits, drafted, from + 1)
    } else {
        0
    }
}

impl<Q: Quantized> DraftVerification<Q> {
    /// The rows.
    pub closed spec fn rows(&self) -> Seq<Seq<Q::Scalar>> {
        rows::deep(self.logits@)
    }

    /// One row over the whole vocabulary per depth.
    pub open spec fn wf(&self) -> bool {
        &&& self.rows().len() == RESIDUAL_DEPTHS
        &&& rows::uniform(self.rows(), RESIDUAL_VOCAB as int)
    }

    /// One row of logits per residual depth.
    pub fn logits(&self) -> (logits: &[Vec<Q::Scalar>])
        ensures
            rows::deep(logits@) == self.rows(),
    {
        self.logits.as_slice()
    }

    /// The largest logit of every row.
    pub fn greedy_codes(&self) -> (codes: Vec<usize>)
        requires
            self.wf(),
        ensures
            codes@.len() == RESIDUAL_DEPTHS,
            forall|d: int| 0 <= d < RESIDUAL_DEPTHS ==> #[trigger] codes@[d] < RESIDUAL_VOCAB,
            arith::pure::<Q>() ==> forall|d: int|
                0 <= d < RESIDUAL_DEPTHS ==> #[trigger] codes@[d] == microdecoder::argmax_of::<Q>(
                    self.rows()[d],
                    RESIDUAL_VOCAB as int,
                ),
    {
        let mut codes: Vec<usize> = Vec::new();
        for d in 0..self.logits.len()
            invariant
                self.wf(),
                codes@.len() == d,
                forall|e: int| 0 <= e < d ==> #[trigger] codes@[e] < RESIDUAL_VOCAB,
                arith::pure::<Q>() ==> forall|e: int|
                    0 <= e < d ==> #[trigger] codes@[e] == microdecoder::argmax_of::<Q>(
                        self.rows()[e],
                        RESIDUAL_VOCAB as int,
                    ),
        {
            proof {
                assert(self.rows()[d as int] == self.logits@[d as int]@);
            }
            codes.push(argmax::<Q>(self.logits[d].as_slice()));
        }
        codes
    }

    /// How many leading draft codes strict greedy verification accepts. One mismatch ends it: the
    /// causal context of everything after has changed.
    pub fn accepted_greedy_prefix_len(&self, drafted_codes: &[usize]) -> (accepted: usize)
        requires
            self.wf(),
            drafted_codes@.len() == RESIDUAL_DEPTHS,
        ensures
            accepted <= RESIDUAL_DEPTHS,
            arith::pure::<Q>() ==> accepted == accepted_from::<Q>(self.rows(), drafted_codes@, 0),
    {
        let mut accepted: usize = 0;
        while accepted < self.logits.len()
            invariant
                self.wf(),
                drafted_codes@.len() == RESIDUAL_DEPTHS,
                accepted <= RESIDUAL_DEPTHS,
                arith::pure::<Q>() ==> accepted + accepted_from::<Q>(
                    self.rows(),
                    drafted_codes@,
                    accepted as int,
                ) == accepted_from::<Q>(self.rows(), drafted_codes@, 0),
            decreases RESIDUAL_DEPTHS - accepted,
        {
            proof {
                assert(self.rows()[accepted as int] == self.logits@[accepted as int]@);
            }
            if argmax::<Q>(self.logits[accepted].as_slice()) != drafted_codes[accepted] {
                return accepted;
            }
            accepted = accepted + 1;
        }
        accepted
    }
}

/// The accepted prefix holds the largest logit of every row in it and ends at the first row
/// whose largest logit is another code.
pub proof fn law_accepted_prefix<Q: Quantized>(
    logits: Seq<Seq<Q::Scalar>>,
    drafted: Seq<usize>,
    from: int,
)
    requires
        0 <= from <= logits.len(),
    ensures
        0 <= accepted_from::<Q>(logits, drafted, from) <= logits.len() - from,
        forall|d: int|
            from <= d < from + accepted_from::<Q>(logits, drafted, from)
                ==> microdecoder::argmax_of::<Q>(logits[d], logits[d].len() as int)
                == #[trigger] drafted[d],
        from + accepted_from::<Q>(logits, drafted, from) < logits.len() ==> {
            let d = from + accepted_from::<Q>(logits, drafted, from);
            microdecoder::argmax_of::<Q>(logits[d], logits[d].len() as int) != drafted[d]
        },
    decreases logits.len() - from,
{
    if from < logits.len() && microdecoder::argmax_of::<Q>(
        logits[from],
        logits[from].len() as int,
    ) == drafted[from] {
        law_accepted_prefix::<Q>(logits, drafted, from + 1);
    }
}

/// One layer over the rows of a frame on the plain weights, position by position.
fn plain_rows<'a, Q: Quantized>(
    config: &MicrodecoderConfig<Q::Scalar>,
    rope: &RopeTable<Q>,
    weights: &LayerWeights<'a, Q::Scalar>,
    x: &Vec<Vec<Q::Scalar>>,
) -> (out: Vec<Vec<Q::Scalar>>)
    requires
        config.valid(),
        weights.fits(*config),
        rope.wf(),
        rope.width() == config.head_dim,
        x@.len() <= FRAME_POSITIONS,
        rows::uniform(rows::deep(x@), config.hidden_size as int),
    ensures
        out@.len() == x@.len(),
        rows::uniform(rows::deep(out@), config.hidden_size as int),
        arith::pure::<Q>() ==> rows::deep(out@) == layer::layer_rows::<Q>(
            *config,
            *weights,
            None,
            *rope,
            rows::deep(x@),
        ),
{
    let mut state = FrameKvState::<Q>::new(config);
    let mut out: Vec<Vec<Q::Scalar>> = Vec::new();
    let ghost expected = layer::layer_rows::<Q>(*config, *weights, None, *rope, rows::deep(x@));
    for p in 0..x.len()
        invariant
            config.valid(),
            weights.fits(*config),
            rope.wf(),
            rope.width() == config.head_dim,
            x@.len() <= FRAME_POSITIONS,
            rows::uniform(rows::deep(x@), config.hidden_size as int),
            expected == layer::layer_rows::<Q>(*config, *weights, None, *rope, rows::deep(x@)),
            state.serves(*config),
            arith::pure::<Q>() ==> state.kv() == layer::cache_after::<Q>(
                *config,
                *weights,
                None,
                *rope,
                rows::deep(x@),
                p as int,
            ),
            out@.len() == p,
            forall|j: int| 0 <= j < p ==> (#[trigger] out@[j])@.len() == config.hidden_size,
            arith::pure::<Q>() ==> forall|j: int|
                0 <= j < p ==> (#[trigger] out@[j])@ == expected[j],
    {
        proof {
            assert(rows::deep(x@)[p as int] == x@[p as int]@);
        }
        out.push(layer_step::<Q>(config, rope, weights, x[p].as_slice(), p, &mut state));
    }
    proof {
        if arith::pure::<Q>() {
            assert(rows::deep(out@) =~= expected);
        }
    }
    out
}

/// The input rows of a whole frame: talker state, primary code, then the draft.
fn frame_input_block<'a, Q: Quantized>(
    config: &MicrodecoderConfig<Q::Scalar>,
    weights: &MicrodecoderWeights<'a, Q::Scalar>,
    talker_hidden: &[Q::Scalar],
    primary_code: usize,
    drafted_codes: &[usize],
    Ghost(frame): Ghost<FrameInputs<'a, Q>>,
) -> (out: Vec<Vec<Q::Scalar>>)
    requires
        frame.fits(),
        frame.config == *config,
        frame.weights == *weights,
        frame.talker_hidden == talker_hidden@,
        frame.primary_code == primary_code,
        drafted_codes@.len() == RESIDUAL_DEPTHS,
        forall|d: int|
            0 <= d < RESIDUAL_DEPTHS ==> #[trigger] drafted_codes@[d] < RESIDUAL_VOCAB,
    ensures
        rows::deep(out@) == frame.input_rows(drafted_codes@, FRAME_POSITIONS as int),
        rows::uniform(rows::deep(out@), config.hidden_size as int),
{
    let mut out: Vec<Vec<Q::Scalar>> = Vec::new();
    for p in 0..FRAME_POSITIONS
        invariant
            frame.fits(),
            frame.config == *config,
            frame.weights == *weights,
            frame.talker_hidden == talker_hidden@,
            frame.primary_code == primary_code,
            drafted_codes@.len() == RESIDUAL_DEPTHS,
            forall|d: int|
                0 <= d < RESIDUAL_DEPTHS ==> #[trigger] drafted_codes@[d] < RESIDUAL_VOCAB,
            out@.len() == p,
            forall|j: int| 0 <= j < p ==> (#[trigger] out@[j])@.len() == config.hidden_size,
            forall|j: int|
                0 <= j < p ==> (#[trigger] out@[j])@ == frame.input_row(drafted_codes@, j),
    {
        out.push(
            input_row::<Q>(
                config,
                weights,
                talker_hidden,
                primary_code,
                drafted_codes,
                p,
                Ghost(frame),
            ),
        );
    }
    proof {
        assert(rows::deep(out@) =~= frame.input_rows(drafted_codes@, FRAME_POSITIONS as int));
    }
    out
}

/// Scores every position but the first of a finished frame through its own head.
fn score_frame_heads<'a, Q: Quantized>(
    config: &MicrodecoderConfig<Q::Scalar>,
    weights: &MicrodecoderWeights<'a, Q::Scalar>,
    route: Option<&'a MicroQuantRoute<'a, Q>>,
    hidden: &Vec<Vec<Q::Scalar>>,
    Ghost(frame): Ghost<FrameInputs<'a, Q>>,
) -> (logits: Vec<Vec<Q::Scalar>>)
    requires
        frame.fits(),
        frame.config == *config,
        frame.weights == *weights,
        frame.route == packed_of(route),
        hidden@.len() == FRAME_POSITIONS,
        rows::uniform(rows::deep(hidden@), config.hidden_size as int),
    ensures
        logits@.len() == RESIDUAL_DEPTHS,
        rows::uniform(rows::deep(logits@), RESIDUAL_VOCAB as int),
        layer::exact::<Q>() ==> forall|d: int|
            0 <= d < RESIDUAL_DEPTHS ==> (#[trigger] logits@[d])@ == frame.scores(
                d,
                hidden@[d + 1]@,
            ),
{
    let mut logits: Vec<Vec<Q::Scalar>> = Vec::new();
    for d in 0..RESIDUAL_DEPTHS
        invariant
            frame.fits(),
            frame.config == *config,
            frame.weights == *weights,
            frame.route == packed_of(route),
            hidden@.len() == FRAME_POSITIONS,
            rows::uniform(rows::deep(hidden@), config.hidden_size as int),
            logits@.len() == d,
            forall|e: int| 0 <= e < d ==> (#[trigger] logits@[e])@.len() == RESIDUAL_VOCAB,
            layer::exact::<Q>() ==> forall|e: int|
                0 <= e < d ==> (#[trigger] logits@[e])@ == frame.scores(e, hidden@[e + 1]@),
    {
        proof {
            assert(rows::deep(hidden@)[d + 1] == hidden@[d + 1]@);
        }
        logits.push(
            score_row::<Q>(config, weights, route, d, hidden[d + 1].as_slice(), Ghost(frame)),
        );
    }
    logits
}

/// Verifies one draft on either route, a layer at a time over the whole frame.
fn verify_draft<'a, Q: Quantized>(
    config: &MicrodecoderConfig<Q::Scalar>,
    rope: &RopeTable<Q>,
    weights: &MicrodecoderWeights<'a, Q::Scalar>,
    route: Option<&'a MicroQuantRoute<'a, Q>>,
    talker_hidden: &[Q::Scalar],
    primary_code: usize,
    drafted_codes: &[usize],
) -> (verification: DraftVerification<Q>)
    requires
        frame_of::<Q>(*config, *rope, *weights, route, talker_hidden@, primary_code).fits(),
        drafted_codes@.len() == RESIDUAL_DEPTHS,
        forall|d: int|
            0 <= d < RESIDUAL_DEPTHS ==> #[trigger] drafted_codes@[d] < RESIDUAL_VOCAB,
    ensures
        verification.wf(),
        layer::exact::<Q>() ==> forall|d: int|
            0 <= d < RESIDUAL_DEPTHS ==> #[trigger] verification.rows()[d] == frame_of::<Q>(
                *config,
                *rope,
                *weights,
                route,
                talker_hidden@,
                primary_code,
            ).logits(drafted_codes@, d),
{
    let ghost frame = frame_of::<Q>(
        *config,
        *rope,
        *weights,
        route,
        talker_hidden@,
        primary_code,
    );
    let mut hidden = frame_input_block::<Q>(
        config,
        weights,
        talker_hidden,
        primary_code,
        drafted_codes,
        Ghost(frame),
    );
    let ghost x = frame.input_rows(drafted_codes@, FRAME_POSITIONS as int);
    let n: usize = weights.layers.len();
    proof {
        assert(rows::deep(hidden@).len() == FRAME_POSITIONS);
    }
    for index in 0..n
        invariant
            n == config.num_layers,
            frame.fits(),
            frame.config == *config,
            frame.rope == *rope,
            frame.weights == *weights,
            frame.route == packed_of(route),
            hidden@.len() == FRAME_POSITIONS,
            rows::uniform(rows::deep(hidden@), config.hidden_size as int),
            layer::exact::<Q>() ==> rows::deep(hidden@) == frame.stack_rows(x, index as int),
    {
        proof {
            assert(weights.layers@[index as int].norms_fit(*config));
        }
        hidden = match route {
            Some(packed) => {
                proof {
                    assert(packed.layers@[index as int].fits(*config));
                }
                block_rows::<Q>(
                    config,
                    &weights.layers[index],
                    &packed.layers[index],
                    rope,
                    &hidden,
                    packed.mode,
                )
            },
            None => plain_rows::<Q>(config, rope, &weights.layers[index], &hidden),
        };
    }
    let logits = score_frame_heads::<Q>(config, weights, route, &hidden, Ghost(frame));
    let verification = DraftVerification { logits };
    proof {
        if layer::exact::<Q>() {
            assert forall|d: int| 0 <= d < RESIDUAL_DEPTHS implies #[trigger] verification.rows()[d]
                == frame.logits(drafted_codes@, d) by {
                assert(logits@[d]@ == frame.scores(d, hidden@[d + 1]@));
                assert(rows::deep(hidden@)[d + 1] == hidden@[d + 1]@);
                frame.law_block_scores_match(drafted_codes@, d);
            }
        }
    }
    verification
}

/// Verifies one draft on the plain weights.
///
/// Position 0 is the talker's hidden state, position 1 embeds the primary code, and every later
/// position a drafted code. The last drafted code has no position, but its row is scored and it
/// takes part in acceptance.
pub fn verify_frame_draft<'a, Q: Quantized>(
    config: &MicrodecoderConfig<Q::Scalar>,
    rope: &RopeTable<Q>,
    weights: &MicrodecoderWeights<'a, Q::Scalar>,
    talker_hidden: &[Q::Scalar],
    primary_code: usize,
    drafted_codes: &[usize],
) -> (verification: DraftVerification<Q>)
    requires
        frame_of::<Q>(*config, *rope, *weights, None, talker_hidden@, primary_code).fits(),
        drafted_codes@.len() == RESIDUAL_DEPTHS,
        forall|d: int|
            0 <= d < RESIDUAL_DEPTHS ==> #[trigger] drafted_codes@[d] < RESIDUAL_VOCAB,
    ensures
        verification.wf(),
        layer::exact::<Q>() ==> forall|d: int|
            0 <= d < RESIDUAL_DEPTHS ==> #[trigger] verification.rows()[d] == frame_of::<Q>(
                *config,
                *rope,
                *weights,
                None,
                talker_hidden@,
                primary_code,
            ).logits(drafted_codes@, d),
{
    verify_draft::<Q>(config, rope, weights, None, talker_hidden, primary_code, drafted_codes)
}

/// [`verify_frame_draft`] on the packed route, one pass over each layer's body per frame.
pub fn verify_frame_draft_q8<'a, Q: Quantized>(
    config: &MicrodecoderConfig<Q::Scalar>,
    rope: &RopeTable<Q>,
    weights: &MicrodecoderWeights<'a, Q::Scalar>,
    route: &'a MicroQuantRoute<'a, Q>,
    talker_hidden: &[Q::Scalar],
    primary_code: usize,
    drafted_codes: &[usize],
) -> (verification: DraftVerification<Q>)
    requires
        frame_of::<Q>(*config, *rope, *weights, Some(route), talker_hidden@, primary_code).fits(),
        drafted_codes@.len() == RESIDUAL_DEPTHS,
        forall|d: int|
            0 <= d < RESIDUAL_DEPTHS ==> #[trigger] drafted_codes@[d] < RESIDUAL_VOCAB,
    ensures
        verification.wf(),
        layer::exact::<Q>() ==> forall|d: int|
            0 <= d < RESIDUAL_DEPTHS ==> #[trigger] verification.rows()[d] == frame_of::<Q>(
                *config,
                *rope,
                *weights,
                Some(route),
                talker_hidden@,
                primary_code,
            ).logits(drafted_codes@, d),
{
    verify_draft::<Q>(
        config,
        rope,
        weights,
        Some(route),
        talker_hidden,
        primary_code,
        drafted_codes,
    )
}

/// A proposal, its verification and, where it was rejected, its repair.
#[derive(Clone, Debug, PartialEq, Eq)]
pub struct GreedySpeculativeFrame {
    /// What the drafter proposed.
    pub drafted_codes: [usize; 15],
    /// What was emitted.
    pub codes: [usize; 15],
    /// How many leading proposals were accepted.
    pub accepted_prefix_len: usize,
    /// Whether a rejection made the sequential loop run.
    pub repaired: bool,
}

/// Drafts a frame, verifies the draft, and falls back to the sequential loop on a mismatch.
///
/// Verification and repair run the same route, so the emitted codes are those of that route's
/// greedy sequential loop whatever was proposed. The caches are left empty on both exits, so the
/// caller cannot tell from them whether the draft was lucky.
pub fn decode_frame_greedy_speculative<'a, Q: Quantized>(
    config: &MicrodecoderConfig<Q::Scalar>,
    rope: &RopeTable<Q>,
    weights: &MicrodecoderWeights<'a, Q::Scalar>,
    route: Option<&'a MicroQuantRoute<'a, Q>>,
    state: &mut FrameState<Q>,
    drafter: &mut FrankenMtpDrafter,
    talker_hidden: &[Q::Scalar],
    primary_code: usize,
) -> (result: GreedySpeculativeFrame)
    requires
        frame_of::<Q>(*config, *rope, *weights, route, talker_hidden@, primary_code).fits(),
        old(state).serves(*config),
        old(drafter).wf(),
    ensures
        final(state).serves(*config),
        final(state).fresh(),
        final(drafter).wf(),
        final(drafter).previous() == Some(result.codes@),
        forall|d: int| 0 <= d < RESIDUAL_DEPTHS ==> #[trigger] result.codes@[d] < RESIDUAL_VOCAB,
        old(drafter).drafts(result.drafted_codes@),
        old(drafter).learns(*final(drafter), result.codes@),
        result.accepted_prefix_len <= RESIDUAL_DEPTHS,
        result.repaired == (result.accepted_prefix_len < RESIDUAL_DEPTHS),
        !result.repaired ==> result.codes == result.drafted_codes,
        layer::exact::<Q>() ==> {
            let frame = frame_of::<Q>(
                *config,
                *rope,
                *weights,
                route,
                talker_hidden@,
                primary_code,
            );
            &&& frame.greedy(result.codes@)
            &&& result.accepted_prefix_len == accepted_from::<Q>(
                frame.all_logits(result.drafted_codes@),
                result.drafted_codes@,
                0,
            )
        },
{
    let ghost frame = frame_of::<Q>(
        *config,
        *rope,
        *weights,
        route,
        talker_hidden@,
        primary_code,
    );
    let drafted_codes = drafter.draft();
    let verification = verify_draft::<Q>(
        config,
        rope,
        weights,
        route,
        talker_hidden,
        primary_code,
        drafted_codes.as_slice(),
    );
    let accepted: usize = verification.accepted_greedy_prefix_len(drafted_codes.as_slice());
    proof {
        if layer::exact::<Q>() {
            assert(verification.rows() =~= frame.all_logits(drafted_codes@));
            law_accepted_prefix::<Q>(verification.rows(), drafted_codes@, 0);
        }
    }
    let (codes, repaired) = if accepted == RESIDUAL_DEPTHS {
        (drafted_codes, false)
    } else {
        let sequential = decode_greedy::<Q>(
            config,
            rope,
            weights,
            route,
            state,
            talker_hidden,
            primary_code,
        );
        (code_array(&sequential), true)
    };
    state.reset();
    drafter.observe(&codes);
    proof {
        if layer::exact::<Q>() && !repaired {
            assert forall|d: int| 0 <= d < RESIDUAL_DEPTHS implies #[trigger] codes@[d]
                == microdecoder::argmax_of::<Q>(
                frame.logits(codes@, d),
                RESIDUAL_VOCAB as int,
            ) by {
                assert(verification.rows()[d] == frame.logits(codes@, d));
            }
        }
    }
    GreedySpeculativeFrame { drafted_codes, codes, accepted_prefix_len: accepted, repaired }
}

/// The codes of a frame as an array.
fn code_array(codes: &Vec<usize>) -> (out: [usize; 15])
    requires
        codes@.len() == RESIDUAL_DEPTHS,
    ensures
        out@ == codes@,
{
    let mut out: [usize; 15] = [0;15];
    for d in 0..RESIDUAL_DEPTHS
        invariant
            codes@.len() == RESIDUAL_DEPTHS,
            forall|e: int| 0 <= e < d ==> #[trigger] out@[e] == codes@[e],
    {
        out[d] = codes[d];
    }
    proof {
        assert(out@ =~= codes@);
    }
    out
}

} // verus!
