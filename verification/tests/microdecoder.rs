//! The microdecoder on single-precision values and eight-bit matrices.
use ftts_model_qwen::arith::{Arithmetic, Binary, Check, Constant, Reduction, Relation, Unary};
use ftts_model_qwen::kernels::matvec;
use ftts_model_qwen::microdecoder::{
    argmax, decode_frame_greedy, decode_frame_greedy_speculative, decode_frame_with_selector,
    decode_frame_with_selector_q8, default_microdecoder_config, layer_block_q8, layer_step,
    layer_step_q8, layer_step_with_rotary, position_role, rms_norm, score_head_refined,
    verify_frame_draft, verify_frame_draft_q8, FrameKvState, FrameState, FrankenMtpDrafter,
    LayerWeights, MicroLayerQuant, MicroQuantRoute, MicrodecoderConfig, MicrodecoderWeights,
    PositionRole, RopeTable, CODES_PER_FRAME, FRAME_POSITIONS, HEAD_REFINE_CANDIDATES,
    RESIDUAL_DEPTHS, RESIDUAL_VOCAB, TALKER_CODEC_VOCAB,
};
use ftts_model_qwen::quant::{Quantized, QuantizedMatrix};
use ftts_model_qwen::shapes::frame_has_expected_shapes;

/// Single-precision arithmetic, every sum taken left to right.
#[derive(Clone, Copy)]
struct Single;

impl Arithmetic for Single {
    type Scalar = f32;

    fn constant(name: Constant) -> f32 {
        match name {
            Constant::Zero => 0.0,
            Constant::One => 1.0,
            Constant::Two => 2.0,
            Constant::Half => 0.5,
            Constant::FracOneSqrtTwo => std::f32::consts::FRAC_1_SQRT_2,
            Constant::CodecRmsEpsilon => 1e-5,
            Constant::CodecRopeTheta => 10_000.0,
            Constant::CodebookUsageEpsilon => 1e-5,
            Constant::SnakeEpsilon => 1e-9,
            Constant::ConvNextEpsilon => 1e-6,
            Constant::MicroRopeTheta => 1.0e6,
            Constant::MicroRmsEpsilon => 1e-6,
            Constant::EncoderNormEpsilon => 1e-5,
            Constant::EncoderAttentionScale => 0.125,
            Constant::PoolingEpsilon => 1e-12,
            Constant::MelFloor => 1e-5,
            Constant::Tau => std::f32::consts::TAU,
            Constant::MagnitudeEpsilon => 1e-9,
            Constant::LinearHzPerMel => 200.0 / 3.0,
            Constant::LogStartHz => 1000.0,
            Constant::LogStep => 0.068_751_78,
            Constant::RepetitionPenalty => 1.05,
            Constant::Temperature => 0.9,
            Constant::NegativeInfinity => f32::NEG_INFINITY,
            Constant::Infinity => f32::INFINITY,
            Constant::Hundred => 100.0,
            Constant::DistilledScale => 1000.0,
            Constant::ParallelScale => 777.0,
            Constant::Tenth => 0.1,
            Constant::DraftPeak => 127.0,
            Constant::DefaultAlpha => 0.01,
            Constant::EntropyThreshold => 2.5,
            Constant::WaterBound => 20.0,
            Constant::VarianceFloor => 1e-6,
        }
    }

    fn count(n: usize) -> f32 {
        n as f32
    }

    fn unary(op: Unary, a: f32) -> f32 {
        match op {
            Unary::Neg => -a,
            Unary::Abs => a.abs(),
            Unary::Recip => a.recip(),
            Unary::Sqrt => a.sqrt(),
            Unary::Exp => a.exp(),
            Unary::ExpMinusOne => a.exp_m1(),
            Unary::Ln => a.ln(),
            Unary::Sin => a.sin(),
            Unary::Cos => a.cos(),
            Unary::Tanh => a.tanh(),
            Unary::Erf => {
                let t = 1.0 / (1.0 + 0.327_591_1 * a.abs());
                let poly = t
                    * (0.254_829_6
                        + t * (-0.284_496_74
                            + t * (1.421_413_7 + t * (-1.453_152 + t * 1.061_405_4))));
                let magnitude = 1.0 - poly * (-a * a).exp();
                if a < 0.0 { -magnitude } else { magnitude }
            }
            Unary::ClampUnit => a.clamp(-1.0, 1.0),
            Unary::Round => a.round(),
        }
    }

    fn binary(op: Binary, a: f32, b: f32) -> f32 {
        match op {
            Binary::Add => a + b,
            Binary::Sub => a - b,
            Binary::Mul => a * b,
            Binary::Div => a / b,
            Binary::Max => a.max(b),
            Binary::Min => a.min(b),
            Binary::Pow => a.powf(b),
        }
    }

    fn relation(op: Relation, a: f32, b: f32) -> bool {
        match op {
            Relation::Less => a < b,
            Relation::AtMost => a <= b,
            Relation::TotallyBelow => a.total_cmp(&b).is_lt(),
        }
    }

    fn check(op: Check, a: f32) -> bool {
        match op {
            Check::Finite => a.is_finite(),
            Check::UndefinedOrInfinite => a.is_nan() || a == f32::INFINITY,
        }
    }

    fn truncate(a: f32) -> usize {
        a as usize
    }

    fn reduce(_op: Reduction, x: &[f32], y: &[f32], seed: Option<f32>) -> f32 {
        let mut sum = seed.unwrap_or(0.0);
        for (a, b) in x.iter().zip(y) {
            sum += a * b;
        }
        sum
    }
}

/// Which way an integer sum runs.
#[derive(Clone, Copy, Debug)]
enum Kernel {
    Forward,
    Backward,
}

/// Every kernel of the engine.
const KERNELS: [Kernel; 2] = [Kernel::Forward, Kernel::Backward];

/// Eight-bit rows with one scale each.
struct Packed {
    values: Vec<i8>,
    scales: Vec<f32>,
    k: usize,
}

/// One row in eight bits, and the scale that undoes it.
fn quantize_row(row: &[f32]) -> (Vec<i8>, f32) {
    let peak = row.iter().fold(0.0_f32, |peak, v| peak.max(v.abs()));
    let scale = if peak == 0.0 { 1.0 } else { peak / 127.0 };
    let values = row
        .iter()
        .map(|v| (v / scale).round().clamp(-127.0, 127.0) as i8)
        .collect();
    (values, scale)
}

impl Quantized for Single {
    type Matrix = Packed;
    type Mode = Kernel;

    fn quantize(weights: &[f32], n: usize, k: usize) -> Packed {
        let mut packed = Packed {
            values: Vec::new(),
            scales: Vec::new(),
            k,
        };
        for row in 0..n {
            let (values, scale) = quantize_row(&weights[row * k..(row + 1) * k]);
            packed.values.extend(values);
            packed.scales.push(scale);
        }
        packed
    }

    fn assemble(values: &[i8], scales: &[f32], _n: usize, k: usize) -> Packed {
        Packed {
            values: values.to_vec(),
            scales: scales.to_vec(),
            k,
        }
    }

    fn stack(upper: &Packed, lower: &Packed) -> Packed {
        let mut values = upper.values.clone();
        values.extend_from_slice(&lower.values);
        let mut scales = upper.scales.clone();
        scales.extend_from_slice(&lower.scales);
        Packed {
            values,
            scales,
            k: upper.k,
        }
    }

    fn project(mode: Kernel, x: &[f32], matrix: &Packed, output: usize) -> f32 {
        let (row, scale) = quantize_row(x);
        let weights = &matrix.values[output * matrix.k..(output + 1) * matrix.k];
        let products = row
            .iter()
            .zip(weights)
            .map(|(a, b)| i32::from(*a) * i32::from(*b));
        let sum: i32 = match mode {
            Kernel::Forward => products.sum(),
            Kernel::Backward => products.rev().sum(),
        };
        sum as f32 * (scale * matrix.scales[output])
    }
}

fn weights_of(len: usize, seed: u32) -> Vec<f32> {
    let mut state = seed.wrapping_mul(2_654_435_761).wrapping_add(1);
    (0..len)
        .map(|_| {
            state = state.wrapping_mul(1_664_525).wrapping_add(1_013_904_223);
            (state >> 8) as f32 / f32::from(u16::MAX) / 256.0 - 0.5
        })
        .collect()
}

fn tiny() -> MicrodecoderConfig<f32> {
    MicrodecoderConfig {
        hidden_size: 8,
        num_layers: 2,
        num_q_heads: 4,
        num_kv_heads: 2,
        head_dim: 4,
        intermediate_size: 16,
        rope_theta: 1.0e6,
        rms_eps: 1e-6,
    }
}

struct TestLayer {
    input_norm: Vec<f32>,
    q_proj: Vec<f32>,
    k_proj: Vec<f32>,
    v_proj: Vec<f32>,
    q_norm: Vec<f32>,
    k_norm: Vec<f32>,
    o_proj: Vec<f32>,
    post_attention_norm: Vec<f32>,
    gate_proj: Vec<f32>,
    up_proj: Vec<f32>,
    down_proj: Vec<f32>,
}

impl TestLayer {
    fn new(config: &MicrodecoderConfig<f32>) -> Self {
        Self::new_seeded(config, 1)
    }

    fn new_seeded(config: &MicrodecoderConfig<f32>, seed: u32) -> Self {
        Self {
            input_norm: vec![1.0; config.hidden_size],
            q_proj: weights_of(config.q_width() * config.hidden_size, seed),
            k_proj: weights_of(config.kv_width() * config.hidden_size, seed + 1),
            v_proj: weights_of(config.kv_width() * config.hidden_size, seed + 2),
            q_norm: vec![1.0; config.head_dim],
            k_norm: vec![1.0; config.head_dim],
            o_proj: weights_of(config.hidden_size * config.q_width(), seed + 3),
            post_attention_norm: vec![1.0; config.hidden_size],
            gate_proj: weights_of(config.intermediate_size * config.hidden_size, seed + 4),
            up_proj: weights_of(config.intermediate_size * config.hidden_size, seed + 5),
            down_proj: weights_of(config.hidden_size * config.intermediate_size, seed + 6),
        }
    }

    fn borrow(&self) -> LayerWeights<'_, f32> {
        LayerWeights {
            input_norm: &self.input_norm,
            q_proj: &self.q_proj,
            k_proj: &self.k_proj,
            v_proj: &self.v_proj,
            q_norm: &self.q_norm,
            k_norm: &self.k_norm,
            o_proj: &self.o_proj,
            post_attention_norm: &self.post_attention_norm,
            gate_proj: &self.gate_proj,
            up_proj: &self.up_proj,
            down_proj: &self.down_proj,
        }
    }
}

/// Owns a whole microdecoder's worth of small weights.
struct TestBundle {
    layers_owned: Vec<TestLayer>,
    talker_codec_embedding: Vec<f32>,
    residual_embeddings: Vec<Vec<f32>>,
    heads: Vec<Vec<f32>>,
    final_norm: Vec<f32>,
}

impl TestBundle {
    fn new(config: &MicrodecoderConfig<f32>) -> Self {
        Self::seeded(config, 100, 1, 200, 300, 400)
    }

    fn seeded(
        config: &MicrodecoderConfig<f32>,
        layer: u32,
        step: u32,
        codec: u32,
        table: u32,
        head: u32,
    ) -> Self {
        Self {
            layers_owned: (0..config.num_layers)
                .map(|i| TestLayer::new_seeded(config, layer + i as u32 * step))
                .collect(),
            talker_codec_embedding: weights_of(TALKER_CODEC_VOCAB * config.hidden_size, codec),
            residual_embeddings: (0..RESIDUAL_DEPTHS - 1)
                .map(|i| weights_of(RESIDUAL_VOCAB * config.hidden_size, table + i as u32))
                .collect(),
            heads: (0..RESIDUAL_DEPTHS)
                .map(|i| weights_of(RESIDUAL_VOCAB * config.hidden_size, head + i as u32))
                .collect(),
            final_norm: vec![1.0; config.hidden_size],
        }
    }

    fn views(&self) -> (Vec<LayerWeights<'_, f32>>, Vec<&[f32]>, Vec<&[f32]>) {
        (
            self.layers_owned.iter().map(TestLayer::borrow).collect(),
            self.residual_embeddings.iter().map(Vec::as_slice).collect(),
            self.heads.iter().map(Vec::as_slice).collect(),
        )
    }

    fn weights<'a>(
        &'a self,
        layers: &'a [LayerWeights<'a, f32>],
        embeddings: &'a [&'a [f32]],
        heads: &'a [&'a [f32]],
    ) -> MicrodecoderWeights<'a, f32> {
        MicrodecoderWeights {
            layers,
            talker_codec_embedding: &self.talker_codec_embedding,
            residual_embeddings: embeddings,
            heads,
            final_norm: &self.final_norm,
        }
    }
}

fn embedding_row(table: &[f32], token: usize, hidden: usize) -> Vec<f32> {
    table[token * hidden..(token + 1) * hidden].to_vec()
}

/// What enters one position, the drafted codes standing for the codes before it.
fn position_input(
    config: &MicrodecoderConfig<f32>,
    weights: &MicrodecoderWeights<'_, f32>,
    talker_hidden: &[f32],
    primary_code: usize,
    drafted_codes: &[usize],
    position: usize,
) -> Vec<f32> {
    match position_role(position) {
        PositionRole::Conditioning => talker_hidden.to_vec(),
        PositionRole::PrimaryCodeEmbedding { .. } => embedding_row(
            weights.talker_codec_embedding,
            primary_code,
            config.hidden_size,
        ),
        PositionRole::ResidualEmbedding { table, .. } => embedding_row(
            weights.residual_embeddings[table],
            drafted_codes[position - 2],
            config.hidden_size,
        ),
    }
}

/// Teacher-forced sequential reference: position by position, each layer with its own cache.
fn sequential_draft_logits(
    config: &MicrodecoderConfig<f32>,
    rope: &RopeTable<Single>,
    weights: &MicrodecoderWeights<'_, f32>,
    talker_hidden: &[f32],
    primary_code: usize,
    drafted_codes: &[usize],
) -> Vec<Vec<f32>> {
    assert_eq!(drafted_codes.len(), RESIDUAL_DEPTHS);
    let mut state = FrameState::<Single>::new(config);
    state.reset();
    let mut logits = Vec::new();
    for position in 0..FRAME_POSITIONS {
        let mut hidden = position_input(
            config,
            weights,
            talker_hidden,
            primary_code,
            drafted_codes,
            position,
        );
        for (index, layer) in weights.layers.iter().enumerate() {
            hidden = layer_step::<Single>(
                config,
                rope,
                layer,
                &hidden,
                position,
                &mut state.layers[index],
            );
        }
        let head = match position_role(position) {
            PositionRole::Conditioning => continue,
            PositionRole::PrimaryCodeEmbedding { head }
            | PositionRole::ResidualEmbedding { head, .. } => head,
        };
        let normed = rms_norm::<Single>(&hidden, weights.final_norm, config.rms_eps);
        logits.push(matvec::<Single>(weights.heads[head], &normed, RESIDUAL_VOCAB));
    }
    logits
}

#[test]
fn pinned_geometry_matches_the_code_predictor_config() {
    let config = default_microdecoder_config::<Single>();
    assert_eq!(config.num_layers, 5, "the microdecoder is 5 layers");
    assert_eq!(config.q_width(), 2048);
    assert_eq!(config.kv_width(), 1024);
    assert_eq!(CODES_PER_FRAME, 16);
    assert_eq!(RESIDUAL_DEPTHS, 15);
    assert_eq!(
        FRAME_POSITIONS,
        1 + RESIDUAL_DEPTHS,
        "one conditioning position plus 15 residual slots"
    );
}

#[test]
fn position_one_is_scored_by_head_zero() {
    assert_eq!(position_role(0), PositionRole::Conditioning);
    assert_eq!(
        position_role(1),
        PositionRole::PrimaryCodeEmbedding { head: 0 },
        "position 1 must be scored, by head 0"
    );
}

#[test]
fn position_one_uses_the_talker_table_and_the_rest_use_per_depth_tables() {
    assert!(
        matches!(position_role(1), PositionRole::PrimaryCodeEmbedding { .. }),
        "position 1 must not read a per-depth table"
    );
    assert_ne!(
        TALKER_CODEC_VOCAB, RESIDUAL_VOCAB,
        "the two tables have different vocabularies"
    );
    assert_eq!(
        position_role(2),
        PositionRole::ResidualEmbedding { table: 0, head: 1 }
    );
    assert_eq!(
        position_role(15),
        PositionRole::ResidualEmbedding {
            table: 13,
            head: 14
        }
    );
}

#[test]
fn every_residual_depth_is_scored_exactly_once_by_a_distinct_head() {
    let mut heads: Vec<usize> = (0..FRAME_POSITIONS)
        .filter_map(|p| match position_role(p) {
            PositionRole::Conditioning => None,
            PositionRole::PrimaryCodeEmbedding { head }
            | PositionRole::ResidualEmbedding { head, .. } => Some(head),
        })
        .collect();
    assert_eq!(heads.len(), RESIDUAL_DEPTHS, "15 scored positions");
    heads.sort_unstable();
    heads.dedup();
    assert_eq!(
        heads,
        (0..RESIDUAL_DEPTHS).collect::<Vec<_>>(),
        "heads 0..14 each score exactly one position"
    );
}

#[test]
fn embedding_tables_cover_positions_two_through_fifteen_without_gaps() {
    let mut tables: Vec<usize> = (2..FRAME_POSITIONS)
        .map(|p| match position_role(p) {
            PositionRole::ResidualEmbedding { table, .. } => table,
            other => panic!("position {p} should embed per-depth, got {other:?}"),
        })
        .collect();
    tables.sort_unstable();
    assert_eq!(tables, (0..RESIDUAL_DEPTHS - 1).collect::<Vec<_>>());
}

#[test]
fn argmax_takes_the_lowest_index_on_a_tie() {
    assert_eq!(
        argmax::<Single>(&[0.0, 1.0, 1.0]),
        1,
        "ties resolve to the lower index"
    );
    assert_eq!(argmax::<Single>(&[3.0, 1.0, 2.0]), 0);
    assert_eq!(argmax::<Single>(&[-5.0, -1.0]), 1);
}

#[test]
fn rope_is_the_microdecoders_own_sixteen_position_table() {
    let config = default_microdecoder_config::<Single>();
    let rope = RopeTable::<Single>::new(&config);
    let original = weights_of(config.head_dim, 5);
    let mut x = original.clone();
    rope.apply(&mut x, 0);
    for (a, b) in original.iter().zip(x.iter()) {
        assert!((a - b).abs() < 1e-6, "position 0 must not rotate");
    }
    let mut y = original.clone();
    rope.apply(&mut y, 7);
    let before = original.iter().map(|v| v * v).sum::<f32>();
    let after = y.iter().map(|v| v * v).sum::<f32>();
    assert!((before - after).abs() < 1e-4, "rotation must preserve norm");
    assert!(
        original
            .iter()
            .zip(y.iter())
            .any(|(a, b)| (a - b).abs() > 1e-6),
        "position 7 must actually rotate"
    );
}

#[test]
fn a_rotary_row_turns_each_pair_by_its_angle() {
    let config = MicrodecoderConfig {
        head_dim: 4,
        ..tiny()
    };
    let rope = RopeTable::<Single>::new(&config);
    let mut x = [1.0_f32, 1.0, 0.0, 0.0];
    rope.apply(&mut x, 1);
    let slow = 1.0e6_f32.powf(0.5).recip();
    assert!((x[0] - 1.0_f32.cos()).abs() < 1e-6);
    assert!((x[2] - 1.0_f32.sin()).abs() < 1e-6);
    assert!((x[1] - slow.cos()).abs() < 1e-6);
    assert!((x[3] - slow.sin()).abs() < 1e-6);
}

#[test]
fn rms_norm_divides_by_the_root_of_the_mean_square() {
    let out = rms_norm::<Single>(&[3.0, 4.0], &[1.0, 2.0], 0.0);
    let root = 12.5_f32.sqrt();
    assert!((out[0] - 3.0 / root).abs() < 1e-6);
    assert!((out[1] - 8.0 / root).abs() < 1e-6);
}

#[test]
fn kv_state_resets_at_the_frame_boundary() {
    let config = tiny();
    let mut state = FrameKvState::<Single>::new(&config);
    state.push(
        &weights_of(config.kv_width(), 1),
        &weights_of(config.kv_width(), 2),
    );
    state.push(
        &weights_of(config.kv_width(), 3),
        &weights_of(config.kv_width(), 4),
    );
    assert_eq!(state.len(), 2);
    state.reset();
    assert!(
        state.is_empty(),
        "frame N must not see frame N-1's microdecoder KV"
    );
}

#[test]
fn a_layer_step_preserves_width_and_grows_the_cache_by_one() {
    let config = tiny();
    let rope = RopeTable::<Single>::new(&config);
    let owned = TestLayer::new(&config);
    let layer = owned.borrow();
    let mut state = FrameKvState::<Single>::new(&config);
    let hidden = weights_of(config.hidden_size, 9);
    let out = layer_step::<Single>(&config, &rope, &layer, &hidden, 0, &mut state);
    assert_eq!(out.len(), config.hidden_size);
    assert_eq!(state.len(), 1);
    assert!(out.iter().all(|v| v.is_finite()));
}

#[test]
fn the_loop_leaves_exactly_one_frame_cached_per_layer() {
    let config = tiny();
    let rope = RopeTable::<Single>::new(&config);
    let bundle = TestBundle::new(&config);
    let (layers, embeddings, heads) = bundle.views();
    let weights = bundle.weights(&layers, &embeddings, &heads);
    let mut state = FrameState::<Single>::new(&config);
    state.layers[0].push(
        &weights_of(config.kv_width(), 77),
        &weights_of(config.kv_width(), 78),
    );

    let hidden = weights_of(config.hidden_size, 30);
    let codes = decode_frame_greedy::<Single>(&config, &rope, &weights, &mut state, &hidden, 5);

    assert_eq!(codes.len(), RESIDUAL_DEPTHS, "15 residual codes per frame");
    assert!(codes.iter().all(|c| *c < RESIDUAL_VOCAB));
    assert_eq!(state.layer_count(), config.num_layers);
    for layer in 0..config.num_layers {
        assert_eq!(
            state.len(layer),
            FRAME_POSITIONS,
            "layer {layer} must cache exactly this frame's 16 positions"
        );
    }
}

#[test]
fn a_different_primary_code_can_change_later_residuals() {
    let config = tiny();
    let rope = RopeTable::<Single>::new(&config);
    let bundle = TestBundle::new(&config);
    let (layers, embeddings, heads) = bundle.views();
    let weights = bundle.weights(&layers, &embeddings, &heads);
    let hidden = weights_of(config.hidden_size, 31);

    let mut state_a = FrameState::<Single>::new(&config);
    let a = decode_frame_greedy::<Single>(&config, &rope, &weights, &mut state_a, &hidden, 0);
    let mut state_b = FrameState::<Single>::new(&config);
    let b = decode_frame_greedy::<Single>(&config, &rope, &weights, &mut state_b, &hidden, 11);

    assert_eq!(a.len(), b.len());
    assert!(
        a != b,
        "c0 must be able to influence the residual stream: {a:?} vs {b:?}"
    );
}

#[test]
fn greedy_decode_is_deterministic() {
    let config = tiny();
    let rope = RopeTable::<Single>::new(&config);
    let bundle = TestBundle::new(&config);
    let (layers, embeddings, heads) = bundle.views();
    let weights = bundle.weights(&layers, &embeddings, &heads);
    let hidden = weights_of(config.hidden_size, 32);

    let mut first_state = FrameState::<Single>::new(&config);
    let first =
        decode_frame_greedy::<Single>(&config, &rope, &weights, &mut first_state, &hidden, 3);
    let mut second_state = FrameState::<Single>::new(&config);
    let second =
        decode_frame_greedy::<Single>(&config, &rope, &weights, &mut second_state, &hidden, 3);
    assert_eq!(first, second, "greedy decode must be reproducible");
}

#[test]
fn block_verifier_logits_match_teacher_forced_sequential_rows() {
    let config = tiny();
    let rope = RopeTable::<Single>::new(&config);
    let bundle = TestBundle::new(&config);
    let (layers, embeddings, heads) = bundle.views();
    let weights = bundle.weights(&layers, &embeddings, &heads);
    let talker_hidden = weights_of(config.hidden_size, 33);
    let drafted_codes: Vec<usize> = (0..RESIDUAL_DEPTHS)
        .map(|depth| (depth * 137 + 11) % RESIDUAL_VOCAB)
        .collect();

    let expected =
        sequential_draft_logits(&config, &rope, &weights, &talker_hidden, 17, &drafted_codes);
    let verified = verify_frame_draft::<Single>(
        &config,
        &rope,
        &weights,
        &talker_hidden,
        17,
        &drafted_codes,
    );

    assert_eq!(
        verified.logits(),
        expected.as_slice(),
        "every verifier row must equal the sequential engine for the same causal prefix"
    );
}

#[test]
fn block_verifier_accepts_the_complete_sequential_greedy_draft() {
    let config = tiny();
    let rope = RopeTable::<Single>::new(&config);
    let bundle = TestBundle::new(&config);
    let (layers, embeddings, heads) = bundle.views();
    let weights = bundle.weights(&layers, &embeddings, &heads);
    let talker_hidden = weights_of(config.hidden_size, 34);
    let mut state = FrameState::<Single>::new(&config);
    let sequential =
        decode_frame_greedy::<Single>(&config, &rope, &weights, &mut state, &talker_hidden, 19);
    let verified =
        verify_frame_draft::<Single>(&config, &rope, &weights, &talker_hidden, 19, &sequential);

    assert_eq!(verified.greedy_codes(), sequential);
    assert_eq!(
        verified.accepted_greedy_prefix_len(&sequential),
        RESIDUAL_DEPTHS,
        "the exact sequential greedy trajectory must be fully accepted"
    );
}

#[test]
fn block_verifier_rejects_the_suffix_after_its_first_mismatched_draft_id() {
    let config = tiny();
    let rope = RopeTable::<Single>::new(&config);
    let bundle = TestBundle::new(&config);
    let (layers, embeddings, heads) = bundle.views();
    let weights = bundle.weights(&layers, &embeddings, &heads);
    let talker_hidden = weights_of(config.hidden_size, 35);
    let mut state = FrameState::<Single>::new(&config);
    let sequential =
        decode_frame_greedy::<Single>(&config, &rope, &weights, &mut state, &talker_hidden, 23);
    let verified =
        verify_frame_draft::<Single>(&config, &rope, &weights, &talker_hidden, 23, &sequential);
    let mut mismatched = sequential;
    let first_mismatch: usize = 6;
    mismatched[first_mismatch] = (mismatched[first_mismatch] + 1) % RESIDUAL_VOCAB;

    assert_eq!(
        verified.accepted_greedy_prefix_len(&mismatched),
        first_mismatch,
        "a rejected id must invalidate its causal suffix"
    );
}

#[test]
fn drafter_uses_previous_frame_then_learns_bounded_transitions() {
    let mut drafter = FrankenMtpDrafter::new();
    assert_eq!(drafter.draft(), [0; RESIDUAL_DEPTHS], "cold draft");
    assert_eq!(drafter, FrankenMtpDrafter::default());

    let first = [10; RESIDUAL_DEPTHS];
    let second = [20; RESIDUAL_DEPTHS];
    drafter.observe(&first);
    assert_eq!(drafter.draft(), first, "previous-frame proposal");
    drafter.observe(&second);
    drafter.observe(&first);

    assert_eq!(
        drafter.draft(),
        second,
        "the bounded sketch must prefer its observed 10-to-20 transition over a raw copy"
    );
}

#[test]
fn a_depth_is_drafted_from_its_own_codes() {
    let mut drafter = FrankenMtpDrafter::new();
    let mut other = FrankenMtpDrafter::new();
    for step in 0..40_usize {
        let mut codes = [0; RESIDUAL_DEPTHS];
        for (depth, code) in codes.iter_mut().enumerate() {
            *code = (step * step * (depth + 3)) % 70;
        }
        drafter.observe(&codes);
        for (depth, code) in codes.iter_mut().enumerate() {
            if depth != 4 {
                *code = (step * 11 + depth) % 90;
            }
        }
        other.observe(&codes);
        assert_eq!(drafter.draft()[4], other.draft()[4]);
    }
    assert_ne!(drafter, other);
}

#[test]
fn a_frame_of_other_shapes_is_told() {
    let config = tiny();
    let rope = RopeTable::<Single>::new(&config);
    let layer = TestLayer::new(&config);
    let layers = [layer.borrow(), layer.borrow()];
    let table = vec![0.0_f32; RESIDUAL_VOCAB * config.hidden_size];
    let tables = vec![table.as_slice(); RESIDUAL_DEPTHS];
    let norm = vec![1.0_f32; config.hidden_size];
    let weights = MicrodecoderWeights {
        layers: &layers,
        talker_codec_embedding: &table,
        residual_embeddings: &tables[1..],
        heads: &tables,
        final_norm: &norm,
    };
    let fits = |config: &MicrodecoderConfig<f32>, hidden: &[f32], code: usize| {
        frame_has_expected_shapes(config, &rope, &weights, None, hidden, code)
    };
    assert!(fits(&config, &norm, RESIDUAL_VOCAB - 1));
    assert!(!fits(&config, &norm, RESIDUAL_VOCAB), "no row");
    assert!(!fits(&config, &norm, usize::MAX), "no row");
    assert!(!fits(&config, &norm[1..], 0), "a narrower state");
    let mut other = tiny();
    other.intermediate_size = 15;
    assert!(!fits(&other, &norm, 0), "another geometry");
    other = tiny();
    other.head_dim = 3;
    assert!(!other.is_valid() && tiny().is_valid());
    assert!(!fits(&other, &norm, 0));
}

#[test]
fn a_contradicted_transition_is_forgotten() {
    let mut drafter = FrankenMtpDrafter::new();
    let source = [10; RESIDUAL_DEPTHS];
    drafter.observe(&source);
    drafter.observe(&[20; RESIDUAL_DEPTHS]);
    drafter.observe(&source);
    drafter.observe(&[30; RESIDUAL_DEPTHS]);
    drafter.observe(&source);
    assert_eq!(drafter.draft(), source, "one of each leaves nothing learned");
    drafter.observe(&[30; RESIDUAL_DEPTHS]);
    drafter.observe(&source);
    assert_eq!(drafter.draft(), [30; RESIDUAL_DEPTHS]);
}

#[test]
fn speculative_greedy_full_accept_matches_the_authoritative_frame() {
    let config = tiny();
    let rope = RopeTable::<Single>::new(&config);
    let bundle = TestBundle::new(&config);
    let (layers, embeddings, heads) = bundle.views();
    let weights = bundle.weights(&layers, &embeddings, &heads);
    let talker_hidden = weights_of(config.hidden_size, 37);
    let mut sequential_state = FrameState::<Single>::new(&config);
    let sequential: [usize; RESIDUAL_DEPTHS] = decode_frame_greedy::<Single>(
        &config,
        &rope,
        &weights,
        &mut sequential_state,
        &talker_hidden,
        31,
    )
    .try_into()
    .expect("sequential decode has fifteen residuals");

    let mut drafter = FrankenMtpDrafter::new();
    drafter.observe(&sequential);
    let mut speculative_state = FrameState::<Single>::new(&config);
    let result = decode_frame_greedy_speculative::<Single>(
        &config,
        &rope,
        &weights,
        None,
        &mut speculative_state,
        &mut drafter,
        &talker_hidden,
        31,
    );

    assert_eq!(result.drafted_codes, sequential);
    assert_eq!(result.accepted_prefix_len, RESIDUAL_DEPTHS);
    assert!(!result.repaired, "a fully accepted draft needs no repair");
    assert_eq!(result.codes, sequential, "strict output must be exact");
}

#[test]
fn speculative_greedy_repair_discards_a_stale_rejected_suffix() {
    let config = tiny();
    let rope = RopeTable::<Single>::new(&config);
    let bundle = TestBundle::new(&config);
    let (layers, embeddings, heads) = bundle.views();
    let weights = bundle.weights(&layers, &embeddings, &heads);
    let talker_hidden = weights_of(config.hidden_size, 38);
    let mut sequential_state = FrameState::<Single>::new(&config);
    let sequential: [usize; RESIDUAL_DEPTHS] = decode_frame_greedy::<Single>(
        &config,
        &rope,
        &weights,
        &mut sequential_state,
        &talker_hidden,
        41,
    )
    .try_into()
    .expect("sequential decode has fifteen residuals");

    let first_mismatch: usize = 6;
    let mut stale_draft = sequential;
    stale_draft[first_mismatch] = (stale_draft[first_mismatch] + 1) % RESIDUAL_VOCAB;
    let mut drafter = FrankenMtpDrafter::new();
    drafter.observe(&stale_draft);
    let mut speculative_state = FrameState::<Single>::new(&config);
    let result = decode_frame_greedy_speculative::<Single>(
        &config,
        &rope,
        &weights,
        None,
        &mut speculative_state,
        &mut drafter,
        &talker_hidden,
        41,
    );

    assert_eq!(result.drafted_codes, stale_draft);
    assert_eq!(result.accepted_prefix_len, first_mismatch);
    assert!(result.repaired, "the mismatched draft must enter repair");
    assert_eq!(
        result.codes, sequential,
        "repair must use the authoritative frame"
    );
    assert_ne!(
        result.codes[first_mismatch..],
        stale_draft[first_mismatch..],
        "the rejected causal suffix must not be emitted from the stale draft"
    );
}

#[test]
fn microdecoder_block_matches_sequential_q8_bit_for_bit() {
    let config = tiny();
    let rope = RopeTable::<Single>::new(&config);
    let layer = TestLayer::new(&config);
    let borrowed = layer.borrow();
    let quant = MicroLayerQuant::<Single>::quantize(&config, &borrowed);

    for mode in KERNELS {
        for seed in 0..6_u32 {
            let hidden = weights_of(FRAME_POSITIONS * config.hidden_size, 4_000 + seed);

            let mut state = FrameKvState::<Single>::new(&config);
            let mut sequential = Vec::new();
            for position in 0..FRAME_POSITIONS {
                let (cos, sin) = rope.row(position);
                let row =
                    &hidden[position * config.hidden_size..(position + 1) * config.hidden_size];
                sequential.extend_from_slice(&layer_step_q8::<Single>(
                    &config, &borrowed, &quant, cos, sin, row, &mut state, mode,
                ));
            }

            let blocked =
                layer_block_q8::<Single>(&config, &borrowed, &quant, &rope, &hidden, mode);

            assert_eq!(
                blocked.len(),
                sequential.len(),
                "{mode:?}/seed {seed}: block output shape must match the sequential schedule"
            );
            for (index, (block, step)) in blocked.iter().zip(sequential.iter()).enumerate() {
                assert!(
                    block.to_bits() == step.to_bits(),
                    "{mode:?}/seed {seed}: element {index} diverged: {block:?} vs {step:?}"
                );
            }
        }
    }
}

#[test]
fn speculation_never_changes_the_emitted_codes() {
    let config = tiny();
    let rope = RopeTable::<Single>::new(&config);
    let bundle = TestBundle::new(&config);
    let (layers, embeddings, heads) = bundle.views();
    let weights = bundle.weights(&layers, &embeddings, &heads);
    let quant: Vec<MicroLayerQuant<Single>> = layers
        .iter()
        .map(|layer| MicroLayerQuant::quantize(&config, layer))
        .collect();

    for mode in KERNELS {
        let q8 = MicroQuantRoute {
            layers: &quant,
            heads: None,
            mode,
        };

        for (label, route) in [("f32", None), ("q8", Some(&q8))] {
            for seed in 0..3_u32 {
                let talker_hidden = weights_of(config.hidden_size, 880 + seed);
                let primary_code = (seed as usize * 29) % TALKER_CODEC_VOCAB;

                let mut reference_state = FrameState::<Single>::new(&config);
                let expected: Vec<usize> = match route {
                    Some(route) => decode_frame_with_selector_q8(
                        &config,
                        &rope,
                        &weights,
                        route,
                        &mut reference_state,
                        &talker_hidden,
                        primary_code,
                        argmax::<Single>,
                    ),
                    None => decode_frame_greedy::<Single>(
                        &config,
                        &rope,
                        &weights,
                        &mut reference_state,
                        &talker_hidden,
                        primary_code,
                    ),
                };

                let exact: [usize; RESIDUAL_DEPTHS] = expected
                    .clone()
                    .try_into()
                    .expect("greedy decode emits fifteen residuals");
                let mut wrong = exact;
                wrong[RESIDUAL_DEPTHS / 2] = (wrong[RESIDUAL_DEPTHS / 2] + 7) % RESIDUAL_VOCAB;

                let mut cold = FrankenMtpDrafter::new();
                let mut right = FrankenMtpDrafter::new();
                right.observe(&exact);
                let mut stale = FrankenMtpDrafter::new();
                stale.observe(&wrong);

                for (draft_label, drafter) in [
                    ("cold", &mut cold),
                    ("exact", &mut right),
                    ("stale", &mut stale),
                ] {
                    let mut state = FrameState::<Single>::new(&config);
                    let result = decode_frame_greedy_speculative(
                        &config,
                        &rope,
                        &weights,
                        route,
                        &mut state,
                        drafter,
                        &talker_hidden,
                        primary_code,
                    );
                    assert_eq!(
                        result.codes.to_vec(),
                        expected,
                        "{mode:?}/{label}/{draft_label}/seed {seed}: speculation changed the codes"
                    );
                    assert_eq!(
                        result.repaired,
                        result.accepted_prefix_len != RESIDUAL_DEPTHS,
                        "{mode:?}/{label}/{draft_label}/seed {seed}: repair flag"
                    );
                    match draft_label {
                        "exact" => assert!(
                            !result.repaired && result.accepted_prefix_len == RESIDUAL_DEPTHS,
                            "{mode:?}/{label}: an exact draft must be accepted whole"
                        ),
                        "stale" => assert!(
                            result.repaired,
                            "{mode:?}/{label}: a stale draft must be repaired"
                        ),
                        _ => {}
                    }
                }
            }
        }
    }
}

#[test]
fn packed_verifier_matches_the_scalar_verifier_on_the_same_quantized_body() {
    let config = tiny();
    let rope = RopeTable::<Single>::new(&config);
    let bundle = TestBundle::seeded(&config, 500, 8, 11, 20, 40);
    let (borrowed, embeddings, heads) = bundle.views();
    let weights = bundle.weights(&borrowed, &embeddings, &heads);
    let quant: Vec<MicroLayerQuant<Single>> = borrowed
        .iter()
        .map(|layer| MicroLayerQuant::quantize(&config, layer))
        .collect();

    for mode in KERNELS {
        for seed in 0..4_u32 {
            let route = MicroQuantRoute {
                layers: &quant,
                heads: None,
                mode,
            };
            let talker_hidden = weights_of(config.hidden_size, 700 + seed);
            let drafted: Vec<usize> = (0..RESIDUAL_DEPTHS)
                .map(|depth| (depth * 137 + seed as usize * 31) % RESIDUAL_VOCAB)
                .collect();
            let primary_code = (seed as usize * 17) % TALKER_CODEC_VOCAB;

            let mut hidden: Vec<Vec<f32>> = (0..FRAME_POSITIONS)
                .map(|position| {
                    position_input(
                        &config,
                        &weights,
                        &talker_hidden,
                        primary_code,
                        &drafted,
                        position,
                    )
                })
                .collect();
            for (layer, layer_quant) in borrowed.iter().zip(quant.iter()) {
                let mut state = FrameKvState::<Single>::new(&config);
                hidden = (0..FRAME_POSITIONS)
                    .map(|position| {
                        let (cos, sin) = rope.row(position);
                        layer_step_q8::<Single>(
                            &config,
                            layer,
                            layer_quant,
                            cos,
                            sin,
                            &hidden[position],
                            &mut state,
                            mode,
                        )
                    })
                    .collect();
            }
            let expected: Vec<Vec<f32>> = (0..RESIDUAL_DEPTHS)
                .map(|depth| {
                    let normed =
                        rms_norm::<Single>(&hidden[depth + 1], weights.final_norm, config.rms_eps);
                    matvec::<Single>(weights.heads[depth], &normed, RESIDUAL_VOCAB)
                })
                .collect();

            let packed = verify_frame_draft_q8(
                &config,
                &rope,
                &weights,
                &route,
                &talker_hidden,
                primary_code,
                &drafted,
            );

            assert_eq!(
                packed.logits().len(),
                expected.len(),
                "{mode:?}/seed {seed}: row count"
            );
            for (depth, (fast, slow)) in packed.logits().iter().zip(expected.iter()).enumerate() {
                for (token, (a, b)) in fast.iter().zip(slow.iter()).enumerate() {
                    assert!(
                        a.to_bits() == b.to_bits(),
                        "{mode:?}/seed {seed}: depth {depth} token {token}: {a:?} vs {b:?}"
                    );
                }
            }
        }
    }
}

#[test]
fn q8_block_verifier_accepts_the_sequential_q8_draft_with_refined_heads() {
    let config = tiny();
    let rope = RopeTable::<Single>::new(&config);
    let bundle = TestBundle::seeded(&config, 800, 8, 61, 70, 90);
    let (borrowed, embeddings, heads) = bundle.views();
    let weights = bundle.weights(&borrowed, &embeddings, &heads);
    let quant: Vec<MicroLayerQuant<Single>> = borrowed
        .iter()
        .map(|layer| MicroLayerQuant::quantize(&config, layer))
        .collect();
    let heads_q8: Vec<QuantizedMatrix<Single>> = bundle
        .heads
        .iter()
        .map(|head| QuantizedMatrix::quantize(head, RESIDUAL_VOCAB, config.hidden_size))
        .collect();

    for mode in KERNELS {
        let route = MicroQuantRoute {
            layers: &quant,
            heads: Some(&heads_q8),
            mode,
        };
        for seed in 0..3_u32 {
            let talker_hidden = weights_of(config.hidden_size, 950 + seed);
            let primary = (seed as usize * 29) % TALKER_CODEC_VOCAB;
            let mut state = FrameState::<Single>::new(&config);
            let sequential = decode_frame_with_selector_q8(
                &config,
                &rope,
                &weights,
                &route,
                &mut state,
                &talker_hidden,
                primary,
                argmax::<Single>,
            );
            let verified = verify_frame_draft_q8(
                &config,
                &rope,
                &weights,
                &route,
                &talker_hidden,
                primary,
                &sequential,
            );
            assert_eq!(
                verified.greedy_codes(),
                sequential,
                "{mode:?} seed {seed}: verifier rows must reproduce the sequential trajectory"
            );
            assert_eq!(
                verified.accepted_greedy_prefix_len(&sequential),
                RESIDUAL_DEPTHS,
                "{mode:?} seed {seed}: the exact sequential draft must be fully accepted"
            );
        }
    }
}

#[test]
fn refined_head_scoring_reproduces_the_full_f32_top_50_exactly() {
    let hidden_size = 64_usize;
    let vocab = RESIDUAL_VOCAB;
    for seed in 0..12_u32 {
        let head = weights_of(vocab * hidden_size, 300 + seed);
        let normed = weights_of(hidden_size, 900 + seed);
        let head_q8 = QuantizedMatrix::<Single>::quantize(&head, vocab, hidden_size);

        let full = matvec::<Single>(&head, &normed, vocab);
        let refined = score_head_refined(&head_q8, &head, &normed, Kernel::Forward);

        let mut order: Vec<usize> = (0..vocab).collect();
        order.sort_by(|&a, &b| full[b].partial_cmp(&full[a]).unwrap().then(a.cmp(&b)));
        for &token in &order[..50] {
            assert_eq!(
                refined[token].to_bits(),
                full[token].to_bits(),
                "seed {seed}: top-50 token {token} missing or inexact in the refined row"
            );
        }
        assert_eq!(
            argmax::<Single>(&refined),
            argmax::<Single>(&full),
            "seed {seed}: argmax drifted"
        );
        assert_eq!(
            refined.iter().filter(|v| v.is_finite()).count(),
            HEAD_REFINE_CANDIDATES,
            "seed {seed}: every other token is out of reach"
        );
    }
}

#[test]
fn q8_layer_step_is_bit_identical_across_every_available_tier() {
    let config = tiny();
    let layer = TestLayer::new(&config);
    let weights = layer.borrow();
    let quant = MicroLayerQuant::<Single>::quantize(&config, &weights);
    let rope = RopeTable::<Single>::new(&config);
    let hidden = weights_of(config.hidden_size, 42);

    let mut reference: Option<Vec<f32>> = None;
    for mode in KERNELS {
        let mut state = FrameKvState::<Single>::new(&config);
        let (cos, sin) = rope.row(0);
        let out = layer_step_q8::<Single>(
            &config, &weights, &quant, cos, sin, &hidden, &mut state, mode,
        );
        match &reference {
            None => reference = Some(out),
            Some(expected) => {
                assert_eq!(expected.len(), out.len());
                for (index, (a, b)) in expected.iter().zip(&out).enumerate() {
                    assert_eq!(
                        a.to_bits(),
                        b.to_bits(),
                        "{mode:?} differs at element {index}"
                    );
                }
            }
        }
    }
}

#[test]
fn q8_layer_step_tracks_the_f32_reference_on_tiny_geometry() {
    let config = tiny();
    let layer = TestLayer::new(&config);
    let weights = layer.borrow();
    let quant = MicroLayerQuant::<Single>::quantize(&config, &weights);
    let rope = RopeTable::<Single>::new(&config);
    let hidden = weights_of(config.hidden_size, 42);

    let mut f32_state = FrameKvState::<Single>::new(&config);
    let expected = layer_step::<Single>(&config, &rope, &weights, &hidden, 0, &mut f32_state);

    let mut q8_state = FrameKvState::<Single>::new(&config);
    let (cos, sin) = rope.row(0);
    let actual = layer_step_q8::<Single>(
        &config,
        &weights,
        &quant,
        cos,
        sin,
        &hidden,
        &mut q8_state,
        Kernel::Backward,
    );

    let dot = |a: &[f32], b: &[f32]| a.iter().zip(b).map(|(x, y)| x * y).sum::<f32>();
    let cosine = dot(&expected, &actual)
        / (dot(&expected, &expected).sqrt() * dot(&actual, &actual).sqrt());
    assert!(
        cosine > 0.99,
        "the packed layer step diverged from the exact one: cosine {cosine}"
    );
}

#[test]
fn a_selector_decides_every_residual_and_sees_the_scores() {
    let config = tiny();
    let rope = RopeTable::<Single>::new(&config);
    let bundle = TestBundle::new(&config);
    let (layers, embeddings, heads) = bundle.views();
    let weights = bundle.weights(&layers, &embeddings, &heads);
    let hidden = weights_of(config.hidden_size, 45);
    let mut seen: Vec<Vec<f32>> = Vec::new();
    let mut state = FrameState::<Single>::new(&config);
    let codes = decode_frame_with_selector::<Single, _>(
        &config,
        &rope,
        &weights,
        &mut state,
        &hidden,
        2,
        |scores: &[f32]| {
            seen.push(scores.to_vec());
            seen.len() * 3
        },
    );
    let drafted: Vec<usize> = (1..=RESIDUAL_DEPTHS).map(|n| n * 3).collect();
    assert_eq!(codes, drafted);
    let expected = sequential_draft_logits(&config, &rope, &weights, &hidden, 2, &drafted);
    assert_eq!(seen, expected);
}

#[test]
fn a_layer_step_takes_the_rotary_row_it_is_given() {
    let config = tiny();
    let rope = RopeTable::<Single>::new(&config);
    let layer = TestLayer::new(&config);
    let weights = layer.borrow();
    let hidden = weights_of(config.hidden_size, 47);
    let mut by_position = FrameKvState::<Single>::new(&config);
    let mut by_row = FrameKvState::<Single>::new(&config);
    for position in 0..3 {
        let (cos, sin) = rope.row(position);
        assert_eq!(
            layer_step::<Single>(&config, &rope, &weights, &hidden, position, &mut by_position),
            layer_step_with_rotary::<Single>(&config, &weights, cos, sin, &hidden, &mut by_row),
        );
    }
}
