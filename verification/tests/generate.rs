//! Checkpoints, the generator, and what surrounds it.
use std::sync::Arc;

use ftts_model_qwen::arith::{Arithmetic, Binary, Check, Constant, Reduction, Relation, Unary};
use ftts_model_qwen::checkpoint::decoder_plan::{
    codec_tensor_len, codec_tensor_name, CODEC_TENSORS,
};
use ftts_model_qwen::checkpoint::plan::{
    tensor_elided, tensor_name, StackShape, MICRO_BASE, TABLE_BASE, TENSOR_COUNT,
};
use ftts_model_qwen::checkpoint::{
    CheckpointError, CodecCheckpoint, CopiedRows, FileStore, HotElision, ShapeSpec,
    TalkerCheckpoint, TensorStore, TextEmbeddingTable, WidenedTensors, TALKER_HIDDEN,
    TEXT_EMBED_WIDTH, TEXT_VOCAB, TTS_BOS_TOKEN_ID, TTS_EOS_TOKEN_ID, TTS_PAD_TOKEN_ID,
};
use ftts_model_qwen::codec::CodecError;
use ftts_model_qwen::generate::taps::{frame_tap, prefill_tap, tap_hash_u32, TapRoute};
use ftts_model_qwen::generate::{
    can_prepare_int8_route, causal_mask, hot_elision_from_environment, install_tap_sink,
    micro_layers_from_artifact, prepare_int8_route, set_taps_enabled, CodeFrame, ColdTextRows, FeedbackTables, FrameStep,
    GenerationError, QwenGenerator, QwenGeneratorConfig, RouteSettings, Taps, TalkerWork,
    TextEmbeddingWeights, UtteranceStart,
};
use ftts_model_qwen::kernels::matvec;
use ftts_model_qwen::microdecoder::{
    argmax, decode_frame_greedy, decode_frame_with_selector_q8, rms_norm, FrameState,
    LayerWeights, MicrodecoderConfig, MicrodecoderWeights, RopeTable, RESIDUAL_DEPTHS,
    RESIDUAL_VOCAB,
};
use ftts_model_qwen::prompt::{extract_prompt_text_ids, CloneMode, PromptHeader, PromptMode};
use ftts_model_qwen::quant::Quantized;
use ftts_model_qwen::sampler::{
    SamplingMode, Widens, CODEC_EOS_TOKEN_ID, TALKER_MIN_NEW_TOKENS,
};
use ftts_model_qwen::storage::{widen_tensor, Artifact, Bits, StoredDtype, StoredTensor};
use ftts_model_qwen::talker::{
    form_frame_input, TalkerConfig, TalkerLayerWeights, TalkerWeights, PRIMARY_CODE_VOCAB_SIZE,
};
use ftts_model_qwen::tensor_file::{TensorFile, TensorView};

/// Single-precision arithmetic, every sum taken left to right.
#[derive(Clone, Copy)]
struct Single;

impl Arithmetic for Single {
    type Scalar = f32;

    fn constant(name: Constant) -> f32 {
        match name {
            Constant::Zero => 0.0,
            Constant::One => 1.0,
            Constant::Two => 2.0,
            Constant::Half => 0.5,
            Constant::FracOneSqrtTwo => std::f32::consts::FRAC_1_SQRT_2,
            Constant::CodecRmsEpsilon => 1e-5,
            Constant::CodecRopeTheta => 10_000.0,
            Constant::CodebookUsageEpsilon => 1e-5,
            Constant::SnakeEpsilon => 1e-9,
            Constant::ConvNextEpsilon => 1e-6,
            Constant::MicroRopeTheta => 1.0e6,
            Constant::MicroRmsEpsilon => 1e-6,
            Constant::EncoderNormEpsilon => 1e-5,
            Constant::EncoderAttentionScale => 0.125,
            Constant::PoolingEpsilon => 1e-12,
            Constant::MelFloor => 1e-5,
            Constant::Tau => std::f32::consts::TAU,
            Constant::MagnitudeEpsilon => 1e-9,
            Constant::LinearHzPerMel => 200.0 / 3.0,
            Constant::LogStartHz => 1000.0,
            Constant::LogStep => 0.068_751_78,
            Constant::RepetitionPenalty => 1.05,
            Constant::Temperature => 0.9,
            Constant::NegativeInfinity => f32::NEG_INFINITY,
            Constant::Infinity => f32::INFINITY,
            Constant::Hundred => 100.0,
            Constant::DistilledScale => 1000.0,
            Constant::ParallelScale => 777.0,
            Constant::Tenth => 0.1,
            Constant::DraftPeak => 127.0,
            Constant::DefaultAlpha => 0.01,
            Constant::EntropyThreshold => 2.5,
            Constant::WaterBound => 20.0,
            Constant::VarianceFloor => 1e-6,
        }
    }

    fn count(n: usize) -> f32 {
        n as f32
    }

    fn unary(op: Unary, a: f32) -> f32 {
        match op {
            Unary::Neg => -a,
            Unary::Abs => a.abs(),
            Unary::Recip => a.recip(),
            Unary::Sqrt => a.sqrt(),
            Unary::Exp => a.exp(),
            Unary::ExpMinusOne => a.exp_m1(),
            Unary::Ln => a.ln(),
            Unary::Sin => a.sin(),
            Unary::Cos => a.cos(),
            Unary::Tanh => a.tanh(),
            Unary::Erf => {
                let t = 1.0 / (1.0 + 0.327_591_1 * a.abs());
                let poly = t
                    * (0.254_829_6
                        + t * (-0.284_496_74
                            + t * (1.421_413_7 + t * (-1.453_152 + t * 1.061_405_4))));
                let magnitude = 1.0 - poly * (-a * a).exp();
                if a < 0.0 { -magnitude } else { magnitude }
            }
            Unary::ClampUnit => a.clamp(-1.0, 1.0),
            Unary::Round => a.round(),
        }
    }

    fn binary(op: Binary, a: f32, b: f32) -> f32 {
        match op {
            Binary::Add => a + b,
            Binary::Sub => a - b,
            Binary::Mul => a * b,
            Binary::Div => a / b,
            Binary::Max => a.max(b),
            Binary::Min => a.min(b),
            Binary::Pow => a.powf(b),
        }
    }

    fn relation(op: Relation, a: f32, b: f32) -> bool {
        match op {
            Relation::Less => a < b,
            Relation::AtMost => a <= b,
            Relation::TotallyBelow => a.total_cmp(&b).is_lt(),
        }
    }

    fn check(op: Check, a: f32) -> bool {
        match op {
            Check::Finite => a.is_finite(),
            Check::UndefinedOrInfinite => a.is_nan() || a == f32::INFINITY,
        }
    }

    fn truncate(a: f32) -> usize {
        a as usize
    }

    fn reduce(_op: Reduction, x: &[f32], y: &[f32], seed: Option<f32>) -> f32 {
        let mut sum = seed.unwrap_or(0.0);
        for (a, b) in x.iter().zip(y) {
            sum += a * b;
        }
        sum
    }
}

/// Double-precision arithmetic, every sum taken left to right.
#[derive(Clone, Copy)]
struct Double;

impl Arithmetic for Double {
    type Scalar = f64;

    fn constant(name: Constant) -> f64 {
        match name {
            Constant::Zero => 0.0,
            Constant::One => 1.0,
            Constant::Two => 2.0,
            Constant::Half => 0.5,
            Constant::FracOneSqrtTwo => std::f64::consts::FRAC_1_SQRT_2,
            Constant::CodecRmsEpsilon => 1e-5,
            Constant::CodecRopeTheta => 10_000.0,
            Constant::CodebookUsageEpsilon => 1e-5,
            Constant::SnakeEpsilon => 1e-9,
            Constant::ConvNextEpsilon => 1e-6,
            Constant::MicroRopeTheta => 1.0e6,
            Constant::MicroRmsEpsilon => 1e-6,
            Constant::EncoderNormEpsilon => 1e-5,
            Constant::EncoderAttentionScale => 0.125,
            Constant::PoolingEpsilon => 1e-12,
            Constant::MelFloor => 1e-5,
            Constant::Tau => std::f64::consts::TAU,
            Constant::MagnitudeEpsilon => 1e-9,
            Constant::LinearHzPerMel => 200.0 / 3.0,
            Constant::LogStartHz => 1000.0,
            Constant::LogStep => 0.068_751_777_420_949_11,
            Constant::RepetitionPenalty => 1.05,
            Constant::Temperature => 0.9,
            Constant::NegativeInfinity => f64::NEG_INFINITY,
            Constant::Infinity => f64::INFINITY,
            Constant::Hundred => 100.0,
            Constant::DistilledScale => 1000.0,
            Constant::ParallelScale => 777.0,
            Constant::Tenth => 0.1,
            Constant::DraftPeak => 127.0,
            Constant::DefaultAlpha => 0.01,
            Constant::EntropyThreshold => 2.5,
            Constant::WaterBound => 20.0,
            Constant::VarianceFloor => 1e-6,
        }
    }

    fn count(n: usize) -> f64 {
        n as f64
    }

    fn unary(op: Unary, a: f64) -> f64 {
        match op {
            Unary::Neg => -a,
            Unary::Abs => a.abs(),
            Unary::Recip => a.recip(),
            Unary::Sqrt => a.sqrt(),
            Unary::Exp => a.exp(),
            Unary::ExpMinusOne => a.exp_m1(),
            Unary::Ln => a.ln(),
            Unary::Sin => a.sin(),
            Unary::Cos => a.cos(),
            Unary::Tanh => a.tanh(),
            Unary::Erf => {
                let t = 1.0 / (1.0 + 0.327_591_1 * a.abs());
                let poly = t
                    * (0.254_829_6
                        + t * (-0.284_496_74
                            + t * (1.421_413_7 + t * (-1.453_152 + t * 1.061_405_4))));
                let magnitude = 1.0 - poly * (-a * a).exp();
                if a < 0.0 { -magnitude } else { magnitude }
            }
            Unary::ClampUnit => a.clamp(-1.0, 1.0),
            Unary::Round => a.round(),
        }
    }

    fn binary(op: Binary, a: f64, b: f64) -> f64 {
        match op {
            Binary::Add => a + b,
            Binary::Sub => a - b,
            Binary::Mul => a * b,
            Binary::Div => a / b,
            Binary::Max => a.max(b),
            Binary::Min => a.min(b),
            Binary::Pow => a.powf(b),
        }
    }

    fn relation(op: Relation, a: f64, b: f64) -> bool {
        match op {
            Relation::Less => a < b,
            Relation::AtMost => a <= b,
            Relation::TotallyBelow => a.total_cmp(&b).is_lt(),
        }
    }

    fn check(op: Check, a: f64) -> bool {
        match op {
            Check::Finite => a.is_finite(),
            Check::UndefinedOrInfinite => a.is_nan() || a == f64::INFINITY,
        }
    }

    fn truncate(a: f64) -> usize {
        a as usize
    }

    fn reduce(_op: Reduction, x: &[f64], y: &[f64], seed: Option<f64>) -> f64 {
        let mut sum = seed.unwrap_or(0.0);
        for (a, b) in x.iter().zip(y) {
            sum += a * b;
        }
        sum
    }
}

impl Widens<Single> for Double {
    fn widen(a: f32) -> f64 {
        f64::from(a)
    }

    fn unit(bits: u64) -> f64 {
        (bits >> 11) as f64 * (1.0 / (1_u64 << 53) as f64)
    }
}

/// Which way an integer sum runs.
#[derive(Clone, Copy, Debug)]
enum Kernel {
    Forward,
    Backward,
}

/// Every kernel of the engine.
const KERNELS: [Kernel; 2] = [Kernel::Forward, Kernel::Backward];

/// Eight-bit rows with one scale each.
struct Packed {
    values: Vec<i8>,
    scales: Vec<f32>,
    k: usize,
}

/// One row in eight bits, and the scale that undoes it.
fn quantize_row(row: &[f32]) -> (Vec<i8>, f32) {
    let peak = row.iter().fold(0.0_f32, |peak, v| peak.max(v.abs()));
    let scale = if peak == 0.0 { 1.0 } else { peak / 127.0 };
    let values = row
        .iter()
        .map(|v| (v / scale).round().clamp(-127.0, 127.0) as i8)
        .collect();
    (values, scale)
}

impl Quantized for Single {
    type Matrix = Packed;
    type Mode = Kernel;

    fn quantize(weights: &[f32], n: usize, k: usize) -> Packed {
        let mut packed = Packed {
            values: Vec::new(),
            scales: Vec::new(),
            k,
        };
        for row in 0..n {
            let (values, scale) = quantize_row(&weights[row * k..(row + 1) * k]);
            packed.values.extend(values);
            packed.scales.push(scale);
        }
        packed
    }

    fn assemble(values: &[i8], scales: &[f32], _n: usize, k: usize) -> Packed {
        Packed {
            values: values.to_vec(),
            scales: scales.to_vec(),
            k,
        }
    }

    fn stack(upper: &Packed, lower: &Packed) -> Packed {
        let mut values = upper.values.clone();
        values.extend_from_slice(&lower.values);
        let mut scales = upper.scales.clone();
        scales.extend_from_slice(&lower.scales);
        Packed {
            values,
            scales,
            k: upper.k,
        }
    }

    fn project(mode: Kernel, x: &[f32], matrix: &Packed, output: usize) -> f32 {
        let (row, scale) = quantize_row(x);
        let weights = &matrix.values[output * matrix.k..(output + 1) * matrix.k];
        let products = row
            .iter()
            .zip(weights)
            .map(|(a, b)| i32::from(*a) * i32::from(*b));
        let sum: i32 = match mode {
            Kernel::Forward => products.sum(),
            Kernel::Backward => products.rev().sum(),
        };
        sum as f32 * (scale * matrix.scales[output])
    }
}

impl Bits for Single {
    fn from_bits(bits: u32) -> f32 {
        f32::from_bits(bits)
    }

    fn from_whole(value: i8) -> f32 {
        f32::from(value)
    }
}

const HIDDEN: usize = 8;
const CODE_GROUP_COUNT: usize = 16;

fn talker_config() -> TalkerConfig<f32> {
    TalkerConfig {
        hidden_size: HIDDEN,
        intermediate_size: 4,
        num_attention_heads: 2,
        num_key_value_heads: 1,
        head_dim: 4,
        rms_norm_eps: 1e-6,
        qk_norm_eps: 1e-6,
    }
}

fn microdecoder_config() -> MicrodecoderConfig<f32> {
    MicrodecoderConfig {
        hidden_size: HIDDEN,
        num_layers: 2,
        num_q_heads: 4,
        num_kv_heads: 2,
        head_dim: 4,
        intermediate_size: 16,
        rope_theta: 1.0e6,
        rms_eps: 1e-6,
    }
}

/// Owns every tensor the generator borrows. Zeroed projections make each layer an identity over
/// the residual stream, so a test controls outputs through the heads alone.
struct TinyWeights {
    norm: Vec<f32>,
    head_norm: Vec<f32>,
    codec_head: Vec<f32>,
    micro_q: Vec<f32>,
    micro_kv: Vec<f32>,
    micro_o: Vec<f32>,
    micro_mlp: Vec<f32>,
    micro_down: Vec<f32>,
    talker_codec_embedding: Vec<f32>,
    residual_feedback: Vec<Vec<f32>>,
    micro_residual_embeddings: Vec<Vec<f32>>,
    micro_heads: Vec<Vec<f32>>,
    text_table: Vec<f32>,
    text_fc1: Vec<f32>,
    text_fc1_bias: Vec<f32>,
    text_fc2: Vec<f32>,
    text_fc2_bias: Vec<f32>,
}

impl TinyWeights {
    fn new(eos_logit: f32) -> Self {
        let micro = microdecoder_config();
        let mut codec_head = vec![0.0_f32; PRIMARY_CODE_VOCAB_SIZE * HIDDEN];
        if eos_logit != 0.0 {
            let row = CODEC_EOS_TOKEN_ID as usize * HIDDEN;
            codec_head[row..row + HIDDEN].fill(eos_logit);
        }
        Self {
            norm: vec![1.0; HIDDEN],
            head_norm: vec![1.0; 4],
            codec_head,
            micro_q: vec![0.0; micro.q_width() * HIDDEN],
            micro_kv: vec![0.0; micro.kv_width() * HIDDEN],
            micro_o: vec![0.0; HIDDEN * micro.q_width()],
            micro_mlp: vec![0.0; micro.intermediate_size * HIDDEN],
            micro_down: vec![0.0; HIDDEN * micro.intermediate_size],
            talker_codec_embedding: vec![0.0; PRIMARY_CODE_VOCAB_SIZE * HIDDEN],
            residual_feedback: vec![vec![0.0; RESIDUAL_VOCAB * HIDDEN]; CODE_GROUP_COUNT - 1],
            micro_residual_embeddings: vec![
                vec![0.0; RESIDUAL_VOCAB * HIDDEN];
                RESIDUAL_DEPTHS - 1
            ],
            micro_heads: vec![vec![0.0; RESIDUAL_VOCAB * HIDDEN]; RESIDUAL_DEPTHS],
            text_table: (0..4 * 4).map(|v| 0.01 * v as f32).collect(),
            text_fc1: vec![0.1; 4 * 4],
            text_fc1_bias: vec![0.0; 4],
            text_fc2: vec![0.1; HIDDEN * 4],
            text_fc2_bias: vec![0.5; HIDDEN],
        }
    }

    fn micro_layer(&self) -> LayerWeights<'_, f32> {
        LayerWeights {
            input_norm: &self.norm,
            q_proj: &self.micro_q,
            k_proj: &self.micro_kv,
            v_proj: &self.micro_kv,
            q_norm: &self.head_norm,
            k_norm: &self.head_norm,
            o_proj: &self.micro_o,
            post_attention_norm: &self.norm,
            gate_proj: &self.micro_mlp,
            up_proj: &self.micro_mlp,
            down_proj: &self.micro_down,
        }
    }

    fn views(&self) -> Views<'_> {
        Views {
            layers: vec![self.micro_layer(); 2],
            residual: self
                .micro_residual_embeddings
                .iter()
                .map(Vec::as_slice)
                .collect(),
            heads: self.micro_heads.iter().map(Vec::as_slice).collect(),
            talker: vec![talker_layer(&[1.0; 64], &[0.0; 256]); 28],
        }
    }
}

/// What a generator borrows of its weights.
struct Views<'w> {
    layers: Vec<LayerWeights<'w, f32>>,
    residual: Vec<&'w [f32]>,
    heads: Vec<&'w [f32]>,
    talker: Vec<TalkerLayerWeights<'w, f32>>,
}

/// The eight-bit route on both stacks, as a process has it that says nothing.
fn settings() -> RouteSettings<'static, Kernel> {
    RouteSettings {
        armed: true,
        artifact_q8: None,
        scope: "",
        mode: Kernel::Forward,
    }
}

/// The plain weights.
fn unarmed() -> RouteSettings<'static, Kernel> {
    RouteSettings {
        armed: false,
        ..settings()
    }
}

fn header() -> PromptHeader<f32> {
    PromptHeader {
        role: vec![vec![0.5; HIDDEN]; 3],
        codec_prefill: vec![vec![0.25; HIDDEN]; 3],
        tts_bos: vec![0.5; HIDDEN],
        tts_pad: vec![0.5; HIDDEN],
    }
}

/// A cold-row source over `(id, row)` pairs at width 4.
struct FixedColdRows {
    ids: Vec<u32>,
    rows: Vec<f32>,
}

impl ColdTextRows<f32> for FixedColdRows {
    fn gather_rows(&self, ids: &[u32]) -> Result<(Vec<u32>, Vec<f32>), GenerationError> {
        let mut got_ids = Vec::new();
        let mut rows = Vec::new();
        for &id in ids {
            let Ok(slot) = self.ids.binary_search(&id) else {
                return Err(GenerationError::Source(format!("no cold row for id {id}")));
            };
            got_ids.push(id);
            rows.extend_from_slice(&self.rows[slot * 4..(slot + 1) * 4]);
        }
        Ok((got_ids, rows))
    }
}

type Config<'w> = QwenGeneratorConfig<'w, Single, FixedColdRows>;

fn config<'w>(
    weights: &'w TinyWeights,
    views: &'w Views<'w>,
    seed: u64,
    mode: SamplingMode,
) -> Config<'w> {
    QwenGeneratorConfig {
        talker_config: talker_config(),
        talker_weights: TalkerWeights {
            layers: views.talker.clone(),
            final_norm: &weights.norm,
            codec_head: &weights.codec_head,
        },
        text: TextEmbeddingWeights {
            table: &weights.text_table,
            gathered: &[0, 1, 2, 3],
            embed_width: 4,
            fc1_weight: &weights.text_fc1,
            fc1_bias: &weights.text_fc1_bias,
            fc2_weight: &weights.text_fc2,
            fc2_bias: &weights.text_fc2_bias,
        },
        cold_rows: None,
        feedback: FeedbackTables {
            talker_codec: &weights.talker_codec_embedding,
            residual: weights
                .residual_feedback
                .iter()
                .map(Vec::as_slice)
                .collect(),
        },
        microdecoder_config: microdecoder_config(),
        microdecoder_weights: MicrodecoderWeights {
            layers: &views.layers,
            talker_codec_embedding: &weights.talker_codec_embedding,
            residual_embeddings: &views.residual,
            heads: &views.heads,
            final_norm: &weights.norm,
        },
        prompt_mode: PromptMode {
            clone_mode: CloneMode::XVector,
            non_streaming_mode: false,
        },
        header: header(),
        tts_eos: vec![0.5; HIDDEN],
        reference: None,
        sampling_mode: mode,
        seed,
    }
}

/// A generator with the talker it speaks to: a causal one, whose answer is the norm of the last
/// row and a share of the rows before it.
struct Speaker<'w> {
    generator: QwenGenerator<'w, Single, FixedColdRows>,
    weights: &'w TinyWeights,
    share: f32,
    rows: Vec<f32>,
}

impl<'w> Speaker<'w> {
    fn new(config: Config<'w>, weights: &'w TinyWeights) -> Self {
        Self {
            generator: QwenGenerator::new(config, &settings()),
            weights,
            share: 0.0,
            rows: Vec::new(),
        }
    }

    fn serve(&mut self, work: TalkerWork<f32>) {
        assert_eq!(work.rows.len(), work.count * HIDDEN);
        if work.first_position == 0 {
            self.rows.clear();
        }
        assert_eq!(self.rows.len(), work.first_position * HIDDEN);
        assert!(self.generator.awaits_talker());
        self.rows.extend_from_slice(&work.rows);
        let mut mixed = self.rows[self.rows.len() - HIDDEN..].to_vec();
        for row in self.rows.chunks(HIDDEN) {
            for (sum, value) in mixed.iter_mut().zip(row) {
                *sum += self.share * value;
            }
        }
        let hidden = rms_norm::<Single>(&mixed, &self.weights.norm, 1e-6);
        let logits =
            matvec::<Single>(&self.weights.codec_head, &hidden, PRIMARY_CODE_VOCAB_SIZE);
        self.generator.park(hidden, logits);
    }

    fn begin(&mut self, ids: &[u32], start: UtteranceStart) -> Result<(), GenerationError> {
        let work = self.generator.begin_utterance(ids, start)?;
        self.serve(work);
        Ok(())
    }

    fn next(&mut self) -> Result<Step, GenerationError> {
        Ok(match self.generator.next_frame::<Double>()? {
            FrameStep::Frame { frame, work } => {
                self.serve(work);
                Step::Frame(frame)
            }
            FrameStep::Finished => Step::Finished,
            FrameStep::AwaitingText => Step::AwaitingText,
        })
    }
}

#[derive(Debug, PartialEq)]
enum Step {
    Frame(CodeFrame),
    Finished,
    AwaitingText,
}

fn prepared(body: &[u32]) -> Vec<u32> {
    let mut ids = vec![151_644, 77_091, 198];
    ids.extend_from_slice(body);
    ids.extend_from_slice(&[151_645, 198, 151_644, 77_091, 198]);
    ids
}

fn drive(
    weights: &TinyWeights,
    seed: u64,
    mode: SamplingMode,
    max_frames: usize,
) -> Vec<CodeFrame> {
    let views = weights.views();
    let mut speaker = Speaker::new(config(weights, &views, seed, mode), weights);
    speaker
        .begin(&prepared(&[1, 2]), UtteranceStart::Fresh)
        .expect("valid tiny prompt");
    let mut frames = Vec::new();
    for _ in 0..max_frames {
        match speaker.next().expect("frame generation succeeds") {
            Step::Frame(frame) => frames.push(frame),
            Step::Finished => break,
            Step::AwaitingText => panic!("fresh utterance must never await text"),
        }
    }
    frames
}

#[test]
fn next_frame_before_begin_utterance_is_an_error_not_a_panic() {
    let weights = TinyWeights::new(0.0);
    let views = weights.views();
    let mut generator =
        QwenGenerator::new(config(&weights, &views, 1, SamplingMode::CanonicalGreedy), &settings());
    assert!(generator.next_frame::<Double>().is_err());
}

#[test]
fn next_frame_before_the_talker_answered_is_an_error() {
    let weights = TinyWeights::new(0.0);
    let views = weights.views();
    let mut generator =
        QwenGenerator::new(config(&weights, &views, 1, SamplingMode::CanonicalGreedy), &settings());
    generator
        .begin_utterance(&prepared(&[1]), UtteranceStart::Fresh)
        .expect("valid tiny prompt");
    assert_eq!(
        generator.next_frame::<Double>().err(),
        Some(GenerationError::TalkerPending)
    );
}

#[test]
fn malformed_wrapper_surfaces_as_a_generation_error() {
    let weights = TinyWeights::new(0.0);
    let views = weights.views();
    let mut generator =
        QwenGenerator::new(config(&weights, &views, 1, SamplingMode::CanonicalGreedy), &settings());
    assert!(generator
        .begin_utterance(&[1, 2, 3], UtteranceStart::Fresh)
        .is_err());
}

#[test]
fn frames_have_sixteen_codes_and_the_kv_cache_grows_one_position_per_frame() {
    let weights = TinyWeights::new(0.0);
    let views = weights.views();
    let mut speaker = Speaker::new(
        config(&weights, &views, 1, SamplingMode::CanonicalGreedy),
        &weights,
    );
    speaker
        .begin(&prepared(&[1, 2]), UtteranceStart::Fresh)
        .expect("valid tiny prompt");
    let prefill_len = speaker.generator.cached_positions();
    assert_eq!(prefill_len, 6);

    let frame = match speaker.next().expect("frame generation succeeds") {
        Step::Frame(frame) => frame,
        other => panic!("all-zero heads cannot reach EOS or stall, got {other:?}"),
    };
    assert_eq!(frame.codes.len(), CODE_GROUP_COUNT);
    assert!((frame.codes[0] as usize) < PRIMARY_CODE_VOCAB_SIZE);
    assert!(frame
        .codes
        .iter()
        .skip(1)
        .all(|&code| (code as usize) < RESIDUAL_VOCAB));
    assert_eq!(speaker.generator.cached_positions(), prefill_len + 1);
}

#[test]
fn eos_ends_the_utterance_after_min_new_tokens_and_none_is_sticky() {
    let weights = TinyWeights::new(1.0);
    let frames = drive(&weights, 1, SamplingMode::CanonicalGreedy, 10);
    assert_eq!(frames.len(), TALKER_MIN_NEW_TOKENS);

    let views = weights.views();
    let mut speaker = Speaker::new(
        config(&weights, &views, 1, SamplingMode::CanonicalGreedy),
        &weights,
    );
    speaker
        .begin(&prepared(&[1, 2]), UtteranceStart::Fresh)
        .expect("valid tiny prompt");
    while matches!(speaker.next().expect("frames succeed"), Step::Frame(_)) {}
    assert_eq!(
        speaker.next().expect("finished utterance is stable"),
        Step::Finished,
        "EOS must be sticky until the next begin_utterance"
    );
}

#[test]
fn same_seed_and_artifact_produce_byte_identical_code_streams() {
    let weights = TinyWeights::new(1.0);
    let left = drive(&weights, 42, SamplingMode::Production, 6);
    let right = drive(&weights, 42, SamplingMode::Production, 6);
    assert!(!left.is_empty());
    assert_eq!(left, right);
}

#[test]
fn begin_utterance_resets_state_for_a_fresh_utterance() {
    let weights = TinyWeights::new(0.0);
    let views = weights.views();
    let mut speaker = Speaker::new(
        config(&weights, &views, 1, SamplingMode::CanonicalGreedy),
        &weights,
    );
    speaker
        .begin(&prepared(&[1, 2]), UtteranceStart::Fresh)
        .expect("valid tiny prompt");
    assert!(
        matches!(
            speaker.next().expect("frame generation succeeds"),
            Step::Frame(_)
        ),
        "frame emitted"
    );

    speaker
        .begin(&prepared(&[1, 2]), UtteranceStart::Fresh)
        .expect("second utterance");
    assert_eq!(
        speaker.generator.cached_positions(),
        6,
        "a new utterance must not inherit the previous positions"
    );
}

#[test]
fn full_utterance_streamed_kv_matches_causally_replayed_prefill() {
    let weights = TinyWeights::new(1.0);
    let views = weights.views();
    let mut streamed = Speaker::new(
        config(&weights, &views, 1, SamplingMode::CanonicalGreedy),
        &weights,
    );
    streamed.share = 0.025;
    let initial_prefill = vec![0.25; 3 * HIDDEN];
    let trailing = vec![vec![0.5; HIDDEN], vec![0.75; HIDDEN]];
    let work = streamed
        .generator
        .begin_with_prefill(&initial_prefill, 3, trailing.clone())
        .expect("valid test prefill");
    streamed.serve(work);

    let mut frames = Vec::new();
    while let Step::Frame(frame) = streamed
        .next()
        .expect("streamed frame generation succeeds")
    {
        frames.push(frame);
    }
    assert_eq!(frames.len(), TALKER_MIN_NEW_TOKENS);

    let mut replay_prefill = initial_prefill;
    for (frame_index, frame) in frames.iter().enumerate() {
        let mut states = Vec::new();
        for (depth, &code) in frame.codes.iter().enumerate() {
            let table = if depth == 0 {
                &weights.talker_codec_embedding
            } else {
                &weights.residual_feedback[depth - 1]
            };
            states.push(table[code as usize * HIDDEN..(code as usize + 1) * HIDDEN].to_vec());
        }
        replay_prefill
            .extend_from_slice(&form_frame_input::<Single>(&states, &trailing[frame_index]));
    }

    let mut replayed = Speaker::new(
        config(&weights, &views, 1, SamplingMode::CanonicalGreedy),
        &weights,
    );
    replayed.share = 0.025;
    let primary_codes = frames.iter().map(|frame| frame.codes[0]).collect();
    let work = replayed
        .generator
        .begin_with_replay(&replay_prefill, 3 + frames.len(), trailing, primary_codes)
        .expect("replayed prefill is valid");
    replayed.serve(work);

    assert_eq!(
        streamed.rows, replayed.rows,
        "single positions and a causal replay must hand the talker the same rows"
    );
    assert_eq!(
        streamed.generator.cached_positions(),
        replayed.generator.cached_positions()
    );
    assert!(
        streamed.generator.utterance_state() != replayed.generator.utterance_state(),
        "the streamed side has decided, the replayed side has not"
    );
    assert_eq!(
        replayed.next().expect("replayed terminal decision"),
        Step::Finished,
        "the replayed state must make the same EOS decision"
    );
    assert_eq!(
        streamed.next().expect("streamed EOS must stay sticky"),
        Step::Finished
    );
    assert!(streamed.generator.utterance_state().is_some());
    assert_eq!(
        streamed.generator.utterance_state(),
        replayed.generator.utterance_state(),
        "cached decode and causal replay must park the same next-frame state"
    );
    assert_eq!(
        streamed.rows, replayed.rows,
        "the aligned terminal decisions must not have reached the talker"
    );
}

#[test]
fn a_replay_of_the_wrong_length_is_refused() {
    let weights = TinyWeights::new(1.0);
    let views = weights.views();
    let mut generator =
        QwenGenerator::new(config(&weights, &views, 1, SamplingMode::CanonicalGreedy), &settings());
    assert!(generator.utterance_state().is_none());
    let refused = generator.begin_with_replay(&[0.0; HIDDEN], 2, Vec::new(), vec![7]);
    assert!(matches!(
        refused,
        Err(GenerationError::PrefillShape {
            hidden: HIDDEN,
            values: HIDDEN,
            seq: 2
        })
    ));
    assert!(generator.utterance_state().is_none());
}

/// Text in pieces, appended at odd moments with calls that wait in between, is spoken as the whole.
#[test]
fn waiting_and_late_pieces_change_no_frame() {
    let weights = TinyWeights::new(0.0);
    let views = weights.views();
    let mode = SamplingMode::Production;
    let mut whole = Speaker::new(config(&weights, &views, 9, mode), &weights);
    whole.share = 0.05;
    whole
        .begin(&prepared(&[1, 2, 3, 1]), UtteranceStart::Fresh)
        .expect("valid tiny prompt");
    let mut pieces = Speaker::new(config(&weights, &views, 9, mode), &weights);
    pieces.share = 0.05;
    pieces
        .begin(&prepared(&[1]), UtteranceStart::Continuation)
        .expect("valid tiny prompt");

    let mut given = Vec::new();
    for call in 0..12 {
        match call {
            2 => pieces
                .generator
                .append_text(&prepared(&[2, 3]))
                .expect("open text"),
            4 => pieces
                .generator
                .append_text(&prepared(&[1]))
                .expect("open text"),
            8 => pieces.generator.finish_text().expect("open text"),
            _ => {}
        }
        let before = pieces.generator.utterance_state().cloned();
        match pieces.next().expect("frame generation succeeds") {
            Step::AwaitingText => {
                assert!(pieces.generator.utterance_state() == before.as_ref());
            }
            step => given.push(step),
        }
    }
    assert!(given.len() >= 6 && given.len() < 12);
    for step in given {
        assert_eq!(step, whole.next().expect("frame generation succeeds"));
    }
    assert_eq!(
        pieces.generator.cached_positions(),
        whole.generator.cached_positions()
    );
    assert_eq!(pieces.rows, whole.rows);
}

#[test]
fn a_generator_tells_which_parts_do_not_fit() {
    let weights = TinyWeights::new(0.0);
    let views = weights.views();
    let mode = SamplingMode::CanonicalGreedy;
    assert!(config(&weights, &views, 1, mode).has_expected_shapes(None));
    assert!(config(&weights, &views, 1, mode).is_countable(1_000));
    assert!(!config(&weights, &views, 1, mode).is_countable(usize::MAX));

    let mut other = config(&weights, &views, 1, mode);
    other.tts_eos.pop();
    assert!(!other.has_expected_shapes(None));
    let mut other = config(&weights, &views, 1, mode);
    other.text.gathered = &[0, 2, 1, 3];
    assert!(!other.has_expected_shapes(None));
    let mut other = config(&weights, &views, 1, mode);
    other.feedback.residual.pop();
    assert!(!other.has_expected_shapes(None));
    let mut other = config(&weights, &views, 1, mode);
    other.microdecoder_config.num_kv_heads = 3;
    assert!(!other.has_expected_shapes(None));
    let mut other = config(&weights, &views, 1, mode);
    other.microdecoder_weights.heads = &views.heads[1..];
    assert!(!other.has_expected_shapes(None));
    assert!(QwenGenerator::new(config(&weights, &views, 1, mode), &settings()).is_countable(4));
}

/// A continuation may reach an id outside the gathered set through the cold-row source, with the
/// frames of a whole-text run whose table had that id from the start.
#[test]
fn appends_outside_the_initial_gather_resolve_through_the_cold_row_source() {
    let weights = TinyWeights::new(1.0);
    let views = weights.views();
    let extended_table: Vec<f32> = weights
        .text_table
        .iter()
        .copied()
        .chain([0.16, 0.17, 0.18, 0.19])
        .collect();

    let mut whole_config = config(&weights, &views, 7, SamplingMode::CanonicalGreedy);
    whole_config.text.table = &extended_table;
    whole_config.text.gathered = &[0, 1, 2, 3, 4];
    let mut whole = Speaker::new(whole_config, &weights);
    whole
        .begin(&prepared(&[1, 4, 2]), UtteranceStart::Fresh)
        .expect("whole-text begin");
    let mut whole_frames = Vec::new();
    for _ in 0..32 {
        match whole.next().expect("whole frame") {
            Step::Frame(frame) => whole_frames.push(frame),
            Step::Finished => break,
            Step::AwaitingText => panic!("whole run must not stall"),
        }
    }

    let source = FixedColdRows {
        ids: vec![4],
        rows: vec![0.16, 0.17, 0.18, 0.19],
    };
    let mut cont_config = config(&weights, &views, 7, SamplingMode::CanonicalGreedy);
    cont_config.cold_rows = Some(&source);
    let mut cont = Speaker::new(cont_config, &weights);
    cont.begin(&prepared(&[1]), UtteranceStart::Continuation)
        .expect("continuation begin");
    let mut cont_frames = Vec::new();
    let mut fed = 0;
    for _ in 0..64 {
        match cont.next().expect("continuation frame") {
            Step::Frame(frame) => cont_frames.push(frame),
            Step::Finished => break,
            Step::AwaitingText => match fed {
                0 => {
                    cont.generator
                        .append_text(&prepared(&[4]))
                        .expect("cold-id append");
                    fed = 1;
                }
                1 => {
                    cont.generator
                        .append_text(&prepared(&[2]))
                        .expect("warm-id append");
                    fed = 2;
                }
                _ => cont.generator.finish_text().expect("finish"),
            },
        }
    }
    assert_eq!(
        cont_frames, whole_frames,
        "cold-row-resolved continuation diverged from the extended-table whole run"
    );
    assert_eq!(
        cont.rows, whole.rows,
        "the talker was given the same rows in both runs"
    );

    let mut bare = Speaker::new(
        config(&weights, &views, 7, SamplingMode::CanonicalGreedy),
        &weights,
    );
    bare.begin(&prepared(&[1]), UtteranceStart::Continuation)
        .expect("continuation begin");
    let error = bare
        .generator
        .append_text(&prepared(&[4]))
        .expect_err("cold append without a source must fail closed");
    assert_eq!(error, GenerationError::NoColdRows { count: 1, first: 4 });
    assert!(
        error.message().contains("cold-row"),
        "error names the missing capability: {}",
        error.message()
    );
    assert_eq!(
        bare.next().expect("still runs"),
        Step::AwaitingText,
        "the utterance survives a refused append"
    );
}

#[test]
fn a_source_that_answers_wrongly_is_refused() {
    let weights = TinyWeights::new(1.0);
    let views = weights.views();
    let source = FixedColdRows {
        ids: vec![9],
        rows: vec![0.0; 4],
    };
    let mut cont_config = config(&weights, &views, 7, SamplingMode::CanonicalGreedy);
    cont_config.cold_rows = Some(&source);
    let mut cont = Speaker::new(cont_config, &weights);
    cont.begin(&prepared(&[1]), UtteranceStart::Continuation)
        .expect("continuation begin");
    assert_eq!(
        cont.generator.append_text(&prepared(&[4])),
        Err(GenerationError::Source("no cold row for id 4".to_string()))
    );
    cont.generator
        .append_text(&prepared(&[9]))
        .expect("the source has this one");
}

#[test]
fn a_stalled_then_resumed_continuation_matches_the_whole_text_run() {
    let weights = TinyWeights::new(1.0);
    let views = weights.views();
    let mut whole = Speaker::new(
        config(&weights, &views, 7, SamplingMode::CanonicalGreedy),
        &weights,
    );
    whole
        .begin(&prepared(&[1, 2, 3]), UtteranceStart::Fresh)
        .expect("whole-text begin");

    let mut stalled = Speaker::new(
        config(&weights, &views, 7, SamplingMode::CanonicalGreedy),
        &weights,
    );
    stalled
        .begin(&prepared(&[1]), UtteranceStart::Continuation)
        .expect("continuation begin");

    let positions_before = stalled.generator.cached_positions();
    for poll in 0..3 {
        assert_eq!(
            stalled.next().expect("stalled poll succeeds"),
            Step::AwaitingText,
            "poll {poll}: an exhausted open continuation must stall, not consume pad"
        );
    }
    assert_eq!(
        stalled.generator.cached_positions(),
        positions_before,
        "stalled polls must not grow the cache"
    );

    stalled
        .generator
        .append_text(&prepared(&[2, 3]))
        .expect("append resumes the stream");
    stalled
        .generator
        .finish_text()
        .expect("finish the text stream");

    let mut stalled_frames = Vec::new();
    for _ in 0..6 {
        match stalled.next().expect("resumed frame") {
            Step::Frame(frame) => stalled_frames.push(frame),
            Step::Finished => break,
            Step::AwaitingText => panic!("finished stream must not stall again"),
        }
    }
    let mut whole_frames = Vec::new();
    for _ in 0..stalled_frames.len() {
        match whole.next().expect("whole frame") {
            Step::Frame(frame) => whole_frames.push(frame),
            Step::Finished => break,
            Step::AwaitingText => panic!("whole-text utterance must never await text"),
        }
    }
    assert_eq!(
        stalled_frames, whole_frames,
        "a stalled-then-resumed run diverged from the never-stalled run"
    );
    assert_eq!(stalled.rows, whole.rows);
}

/// Runs a continuation with a scripted feed, the first chunk starting it and the later ones
/// appended whenever it stalls, and asserts that its frames are those of the whole text.
fn assert_drip_feed_matches_whole(chunks: &[&[u32]], label: &str) {
    let weights = TinyWeights::new(1.0);
    let views = weights.views();
    let whole_ids: Vec<u32> = chunks
        .iter()
        .flat_map(|chunk| chunk.iter().copied())
        .collect();
    let mut whole = Speaker::new(
        config(&weights, &views, 7, SamplingMode::CanonicalGreedy),
        &weights,
    );
    whole
        .begin(&prepared(&whole_ids), UtteranceStart::Fresh)
        .expect("whole-text begin");
    let mut whole_frames = Vec::new();
    for _ in 0..64 {
        match whole.next().expect("whole frame") {
            Step::Frame(frame) => whole_frames.push(frame),
            Step::Finished => break,
            Step::AwaitingText => panic!("{label}: whole-text run stalled"),
        }
    }

    let mut drip = Speaker::new(
        config(&weights, &views, 7, SamplingMode::CanonicalGreedy),
        &weights,
    );
    drip.begin(&prepared(chunks[0]), UtteranceStart::Continuation)
        .expect("continuation begin");
    let mut pending = chunks[1..].iter();
    let mut finished_text = false;
    let mut drip_frames = Vec::new();
    let mut stalls = 0_usize;
    for _ in 0..512 {
        match drip.next().expect("drip frame") {
            Step::Frame(frame) => drip_frames.push(frame),
            Step::Finished => break,
            Step::AwaitingText => {
                stalls += 1;
                match pending.next() {
                    Some(chunk) => drip.generator.append_text(&prepared(chunk)).expect("append"),
                    None => {
                        assert!(!finished_text, "{label}: stalled after finish_text");
                        drip.generator.finish_text().expect("finish");
                        finished_text = true;
                    }
                }
            }
        }
    }
    assert_eq!(
        drip_frames, whole_frames,
        "{label}: drip-fed codes diverged from whole-text codes (stalls={stalls})"
    );
    if finished_text {
        assert!(
            stalls >= chunks.len().saturating_sub(1),
            "{label}: expected a stall per boundary, saw {stalls}"
        );
    }
}

#[test]
fn single_token_drip_feed_stalling_at_every_boundary_matches_whole_text() {
    assert_drip_feed_matches_whole(&[&[1], &[2], &[3], &[0]], "every-boundary drip");
}

#[test]
fn finish_text_timing_is_equivalence_preserving() {
    assert_drip_feed_matches_whole(&[&[1]], "finish-before-first-frame");
    assert_drip_feed_matches_whole(&[&[1], &[2]], "finish-during-stall");
}

#[test]
fn random_chunk_boundaries_always_match_the_whole_text_run() {
    let mut state: u64 = 0x00C0_FFEE_D00D_5EED;
    let mut next = move |bound: u64| {
        state = state
            .wrapping_mul(6_364_136_223_846_793_005)
            .wrapping_add(1_442_695_040_888_963_407);
        (state >> 33) % bound
    };
    for case in 0..24 {
        let token_count = 2 + next(6) as usize;
        let ids: Vec<u32> = (0..token_count).map(|_| next(4) as u32).collect();
        let mut chunks: Vec<Vec<u32>> = vec![vec![ids[0]]];
        for &id in &ids[1..] {
            if next(2) == 0 {
                chunks.push(Vec::new());
            }
            chunks.last_mut().expect("nonempty").push(id);
        }
        let chunk_slices: Vec<&[u32]> = chunks.iter().map(Vec::as_slice).collect();
        assert_drip_feed_matches_whole(&chunk_slices, &format!("fuzz case {case} ids={ids:?}"));
    }
}

#[test]
fn chunked_appends_match_whole_text_bit_for_bit() {
    let weights = TinyWeights::new(1.0);
    let views = weights.views();
    let mut whole = Speaker::new(
        config(&weights, &views, 7, SamplingMode::CanonicalGreedy),
        &weights,
    );
    whole
        .begin(&prepared(&[1, 2, 3]), UtteranceStart::Fresh)
        .expect("whole-text begin");

    let mut chunked = Speaker::new(
        config(&weights, &views, 7, SamplingMode::CanonicalGreedy),
        &weights,
    );
    chunked
        .begin(&prepared(&[1, 2]), UtteranceStart::Continuation)
        .expect("continuation begin");
    let mut chunked_frames = Vec::new();
    for frame_index in 0..6 {
        if frame_index == 1 {
            chunked
                .generator
                .append_text(&prepared(&[3]))
                .expect("append before the consuming frame");
        }
        if frame_index == 2 {
            chunked
                .generator
                .finish_text()
                .expect("finish the text stream");
        }
        match chunked.next().expect("chunked frame") {
            Step::Frame(frame) => chunked_frames.push(frame),
            Step::Finished => break,
            Step::AwaitingText => panic!("chunked run stalled: append landed late"),
        }
    }

    let mut whole_frames = Vec::new();
    for _ in 0..chunked_frames.len() {
        match whole.next().expect("whole frame") {
            Step::Frame(frame) => whole_frames.push(frame),
            Step::Finished => break,
            Step::AwaitingText => panic!("whole-text utterance must never await text"),
        }
    }

    assert_eq!(
        chunked_frames, whole_frames,
        "chunk-fed codes diverged from whole-text codes"
    );
    assert_eq!(
        chunked.generator.cached_positions(),
        whole.generator.cached_positions(),
        "appended text must not shift talker positions"
    );
    assert_eq!(chunked.rows, whole.rows);
}

#[test]
fn continuation_holds_the_terminal_until_finish_text() {
    let weights = TinyWeights::new(1.0);
    let views = weights.views();
    let mut marked = config(&weights, &views, 7, SamplingMode::CanonicalGreedy);
    marked.tts_eos = vec![0.75; HIDDEN];
    let mut speaker = Speaker::new(marked, &weights);
    speaker
        .begin(&prepared(&[1]), UtteranceStart::Continuation)
        .expect("continuation begin");
    assert_eq!(
        speaker.next().expect("stalls"),
        Step::AwaitingText,
        "the terminal EOS must be held out of the stream"
    );

    speaker
        .generator
        .finish_text()
        .expect("finish releases the terminal");
    assert!(matches!(speaker.next().expect("a frame"), Step::Frame(_)));
    assert_eq!(
        speaker.rows[speaker.rows.len() - HIDDEN..],
        [0.75; HIDDEN],
        "finish_text must append exactly the configured tts_eos row"
    );
}

#[test]
fn continuation_errors_are_clean_not_panics() {
    let weights = TinyWeights::new(1.0);
    let views = weights.views();
    let mut speaker = Speaker::new(
        config(&weights, &views, 7, SamplingMode::CanonicalGreedy),
        &weights,
    );
    assert_eq!(
        speaker.generator.append_text(&prepared(&[1])),
        Err(GenerationError::NotBegun {
            call: "append_text"
        }),
        "before begin"
    );
    assert_eq!(
        speaker.generator.finish_text(),
        Err(GenerationError::NotBegun {
            call: "finish_text"
        }),
        "finish before begin"
    );

    speaker
        .begin(&prepared(&[1]), UtteranceStart::Fresh)
        .expect("fresh begin");
    assert_eq!(
        speaker.generator.append_text(&prepared(&[2])),
        Err(GenerationError::AppendToFresh),
        "append on a fresh utterance is rejected"
    );
    assert_eq!(
        speaker.generator.finish_text(),
        Err(GenerationError::FinishFresh),
        "finish on a fresh utterance is rejected"
    );

    speaker
        .begin(&prepared(&[1]), UtteranceStart::Continuation)
        .expect("continuation begin");
    speaker.generator.finish_text().expect("first finish");
    assert_eq!(
        speaker.generator.finish_text(),
        Err(GenerationError::FinishTwice),
        "double finish is rejected"
    );
    assert_eq!(
        speaker.generator.append_text(&prepared(&[2])),
        Err(GenerationError::AppendAfterFinish),
        "append after finish"
    );
    while matches!(speaker.next().expect("frames succeed"), Step::Frame(_)) {}
    assert_eq!(
        speaker.generator.append_text(&prepared(&[2])),
        Err(GenerationError::AppendAfterEos)
    );
}

#[test]
fn non_streaming_prompts_reject_continuations() {
    let weights = TinyWeights::new(1.0);
    let views = weights.views();
    let mut whole = config(&weights, &views, 7, SamplingMode::CanonicalGreedy);
    whole.prompt_mode.non_streaming_mode = true;
    let mut generator = QwenGenerator::new(whole, &settings());
    let error = generator
        .begin_utterance(&prepared(&[1]), UtteranceStart::Continuation)
        .expect_err("non-streaming must reject continuations");
    assert!(
        error.message().contains("streaming x-vector"),
        "error should name the requirement: {}",
        error.message()
    );
}

#[test]
fn append_cost_fits_inside_one_frame_budget() {
    let weights = TinyWeights::new(1.0);
    let views = weights.views();
    let mut speaker = Speaker::new(
        config(&weights, &views, 7, SamplingMode::CanonicalGreedy),
        &weights,
    );
    speaker
        .begin(&prepared(&[1]), UtteranceStart::Continuation)
        .expect("begin");
    let chunk = prepared(&[2; 25]);
    let started = std::time::Instant::now();
    speaker
        .generator
        .append_text(&chunk)
        .expect("append succeeds");
    let elapsed = started.elapsed();
    assert!(
        elapsed < std::time::Duration::from_millis(80),
        "append cost {elapsed:?} exceeded the 80 ms frame budget"
    );
}

#[test]
fn prompts_outside_the_gathered_set_and_odd_prefills_are_refused() {
    let weights = TinyWeights::new(1.0);
    let views = weights.views();
    let mut generator =
        QwenGenerator::new(config(&weights, &views, 7, SamplingMode::CanonicalGreedy), &settings());
    assert_eq!(
        generator
            .begin_utterance(&prepared(&[1, 9]), UtteranceStart::Fresh)
            .err(),
        Some(GenerationError::UngatheredToken { id: 9 })
    );
    assert_eq!(
        generator
            .begin_with_prefill(&[0.0; 12], 2, Vec::new())
            .err(),
        Some(GenerationError::PrefillShape {
            hidden: 8,
            values: 12,
            seq: 2
        })
    );
}

#[test]
fn a_causal_mask_closes_what_is_ahead() {
    let open = 0.0;
    let closed = f32::NEG_INFINITY;
    assert_eq!(
        causal_mask::<Single>(3),
        vec![open, closed, closed, open, open, closed, open, open, open]
    );
}

#[test]
fn taps_speak_only_where_they_are_asked_for() {
    let mut taps = Taps::<u8>::new(false);
    assert!(!taps.taps_active());
    assert!(matches!(taps.route(), TapRoute::Silent));
    set_taps_enabled(&mut taps, true);
    assert!(matches!(taps.route(), TapRoute::Standard));
    install_tap_sink(&mut taps, 4);
    install_tap_sink(&mut taps, 5);
    assert!(
        matches!(taps.route(), TapRoute::Sink(&4)),
        "the first sink stays"
    );
    assert!(Taps::<u8>::new(true).taps_active());
}

#[test]
fn tap_lines_hash_by_fnv() {
    // FNV-1a over the four little-endian bytes of each word.
    let mut expected: u64 = 0xcbf2_9ce4_8422_2325;
    for byte in [1_u8, 0, 0, 0] {
        expected = (expected ^ u64::from(byte)).wrapping_mul(0x0000_0100_0000_01b3);
    }
    assert_eq!(tap_hash_u32(&[1]), expected);
    assert_eq!(
        prefill_tap(0xab, 1),
        "ftts-tap prefill ph=00000000000000ab plog=0000000000000001"
    );
    assert_eq!(
        frame_tap(3, 1, 2, 16, 4, 5),
        "ftts-tap f=3 pl=0000000000000001 p=2 r=0000000000000010 nh=0000000000000004 \
         nl=0000000000000005"
    );
}

#[test]
fn elision_follows_the_armed_scope() {
    let both = hot_elision_from_environment(true, None, "both");
    assert!(both.talker && both.micro);
    let talker = hot_elision_from_environment(true, Some("on"), "talker");
    assert!(talker.talker && !talker.micro);
    let off = hot_elision_from_environment(true, Some("off"), "both");
    assert!(!off.talker && !off.micro);
    let unarmed = hot_elision_from_environment(false, None, "both");
    assert!(!unarmed.talker && !unarmed.micro);
}

fn talker_layer(norms: &[f32], zeros: &[f32]) -> TalkerLayerWeights<'static, f32> {
    let norms: &'static [f32] = norms.to_vec().leak();
    let zeros: &'static [f32] = zeros.to_vec().leak();
    let config = talker_config();
    let queries = config.num_attention_heads * config.head_dim;
    let keys = config.num_key_value_heads * config.head_dim;
    TalkerLayerWeights {
        input_layernorm: &norms[..HIDDEN],
        q_proj: &zeros[..queries * HIDDEN],
        k_proj: &zeros[..keys * HIDDEN],
        v_proj: &zeros[..keys * HIDDEN],
        q_norm: &norms[..config.head_dim],
        k_norm: &norms[..config.head_dim],
        o_proj: &zeros[..HIDDEN * queries],
        post_attention_layernorm: &norms[..HIDDEN],
        gate_proj: &zeros[..config.intermediate_size * HIDDEN],
        up_proj: &zeros[..config.intermediate_size * HIDDEN],
        down_proj: &zeros[..HIDDEN * config.intermediate_size],
    }
}

#[test]
fn an_armed_route_packs_the_stacks_of_its_scope() {
    let weights = TinyWeights::new(1.0);
    let views = weights.views();
    let micro = MicrodecoderWeights {
        layers: &views.layers,
        talker_codec_embedding: &weights.talker_codec_embedding,
        residual_embeddings: &views.residual,
        heads: &views.heads,
        final_norm: &weights.norm,
    };
    let talker = TalkerWeights {
        layers: vec![talker_layer(&[1.0; 64], &[0.0; 256]); 28],
        final_norm: &weights.norm,
        codec_head: &weights.codec_head,
    };
    let route = |armed, scope| {
        let settings = RouteSettings {
            armed,
            scope,
            ..settings()
        };
        prepare_int8_route::<Single>(
            &settings,
            &talker_config(),
            &talker,
            &microdecoder_config(),
            &micro,
            None,
        )
    };
    let packable = |armed, scope, talker_config: &TalkerConfig<f32>| {
        let settings = RouteSettings {
            armed,
            scope,
            ..settings()
        };
        can_prepare_int8_route::<Single>(
            &settings,
            talker_config,
            &talker,
            &microdecoder_config(),
            &micro,
            None,
        )
    };
    let mut wider = talker_config();
    wider.intermediate_size = 5;
    assert!(packable(true, "both", &talker_config()));
    assert!(!packable(true, "both", &wider), "a stack of other shapes");
    assert!(packable(true, "micro", &wider), "and one left out");
    assert!(packable(false, "both", &wider), "or not armed");

    assert!(route(false, "both").is_none());
    let both = route(true, "both").expect("armed");
    assert_eq!(both.talker().len(), 28);
    let packed = both.micro_route().expect("the microdecoder is packed");
    assert_eq!(packed.layers.len(), 2);
    assert_eq!(packed.heads.map(<[_]>::len), Some(RESIDUAL_DEPTHS));

    // A packed body of zeros is the identity that the exact one is.
    let mut speaker = Speaker {
        generator: QwenGenerator::new_with_prepared_int8(
            config(&weights, &views, 1, SamplingMode::CanonicalGreedy),
            Some(Arc::new(both)),
        ),
        weights: &weights,
        share: 0.0,
        rows: Vec::new(),
    };
    let mut plain = Speaker {
        generator: QwenGenerator::new(
            config(&weights, &views, 1, SamplingMode::CanonicalGreedy),
            &unarmed(),
        ),
        weights: &weights,
        share: 0.0,
        rows: Vec::new(),
    };
    plain
        .begin(&prepared(&[1, 2]), UtteranceStart::Fresh)
        .expect("valid tiny prompt");
    speaker
        .begin(&prepared(&[1, 2]), UtteranceStart::Fresh)
        .expect("valid tiny prompt");
    let mut frames = Vec::new();
    while let Step::Frame(frame) = speaker.next().expect("frames succeed") {
        frames.push(frame);
    }
    assert!(!frames.is_empty());
    for frame in &frames {
        assert_eq!(
            plain.next().expect("frames succeed"),
            Step::Frame(frame.clone())
        );
    }
    assert_eq!(
        frames,
        drive(&weights, 1, SamplingMode::CanonicalGreedy, 10)
    );
}

#[test]
fn a_generator_runs_on_the_route_of_its_process() {
    let weights = TinyWeights::new(1.0);
    let views = weights.views();
    let mode = SamplingMode::CanonicalGreedy;
    let made = |armed, scope| {
        let settings = RouteSettings {
            armed,
            scope,
            ..settings()
        };
        let config = config(&weights, &views, 1, mode);
        assert!(config.is_buildable(&settings, None));
        QwenGenerator::new(config, &settings)
    };
    let both = made(true, "");
    assert_eq!(both.packed_talker().map(<[_]>::len), Some(28));
    let route = both.int8_route().expect("armed");
    assert!(route.micro_route().is_some());
    assert!(matches!(route.mode(), Kernel::Forward));

    let micro = made(true, "micro");
    assert!(micro.packed_talker().is_none());
    assert!(micro
        .int8_route()
        .is_some_and(|route| route.micro_route().is_some()));
    let talker = made(true, "talker");
    assert_eq!(talker.packed_talker().map(<[_]>::len), Some(28));
    assert!(talker
        .int8_route()
        .is_some_and(|route| route.micro_route().is_none()));
    let plain = made(false, "");
    assert!(plain.int8_route().is_none() && plain.packed_talker().is_none());

    // A layer without projections can only run packed, and there is nothing to pack it from.
    let mut views = weights.views();
    views.layers[1].q_proj = &[];
    let config = config(&weights, &views, 1, mode);
    assert!(!config.is_buildable(&settings(), None));
    assert!(!config.is_buildable(&unarmed(), None));
}

/// A packed microdecoder scores what its packed layers give, not what the plain ones give.
#[test]
fn an_armed_generator_reads_its_packed_layers() {
    let mut weights = TinyWeights::new(0.0);
    for (i, weight) in weights.micro_down.iter_mut().enumerate() {
        *weight = ((i * 7 + 3) % 11) as f32 * 0.1 - 0.5;
    }
    for (i, weight) in weights.micro_mlp.iter_mut().enumerate() {
        *weight = ((i * 5 + 1) % 13) as f32 * 0.1 - 0.6;
    }
    for (d, head) in weights.micro_heads.iter_mut().enumerate() {
        for (i, weight) in head.iter_mut().enumerate() {
            *weight = ((i * 31 + d * 17) % 97) as f32 * 0.01 - 0.5;
        }
    }
    let views = weights.views();
    let mode = SamplingMode::CanonicalGreedy;
    let hidden: Vec<f32> = (0..HIDDEN).map(|i| 0.3 * i as f32 - 1.0).collect();
    let mut logits = vec![0.0; PRIMARY_CODE_VOCAB_SIZE];
    logits[5] = 1.0;
    let frame_of = |settings: &RouteSettings<'static, Kernel>| {
        let mut generator = QwenGenerator::new(config(&weights, &views, 1, mode), settings);
        generator
            .begin_utterance(&prepared(&[1, 2]), UtteranceStart::Fresh)
            .expect("valid tiny prompt");
        generator.park(hidden.clone(), logits.clone());
        match generator.next_frame::<Double>().expect("frame") {
            FrameStep::Frame { frame, .. } => frame.codes,
            _ => panic!("a frame is due"),
        }
    };
    let config = microdecoder_config();
    let micro = MicrodecoderWeights {
        layers: &views.layers,
        talker_codec_embedding: &weights.talker_codec_embedding,
        residual_embeddings: &views.residual,
        heads: &views.heads,
        final_norm: &weights.norm,
    };
    let rope = RopeTable::<Single>::new(&config);
    let mut state = FrameState::<Single>::new(&config);
    let plain = decode_frame_greedy::<Single>(&config, &rope, &micro, &mut state, &hidden, 5);
    let int8 = prepare_int8_route::<Single>(
        &settings(),
        &talker_config(),
        &TalkerWeights {
            layers: views.talker.clone(),
            final_norm: &weights.norm,
            codec_head: &weights.codec_head,
        },
        &config,
        &micro,
        None,
    )
    .expect("armed");
    let route = int8.micro_route().expect("packed");
    let packed = decode_frame_with_selector_q8::<Single, _>(
        &config,
        &rope,
        &micro,
        &route,
        &mut state,
        &hidden,
        5,
        |row: &[f32]| argmax::<Single>(row),
    );
    let codes = |residuals: &[usize]| {
        let mut codes = vec![5_u32];
        codes.extend(residuals.iter().map(|&code| code as u32));
        codes
    };
    assert_eq!(frame_of(&unarmed()), codes(&plain));
    assert_eq!(frame_of(&settings()), codes(&packed));
}

#[test]
fn a_layer_missing_from_the_artifact_is_not_packed_from_it() {
    let empty = Artifact { tensors: vec![] };
    assert!(micro_layers_from_artifact::<Single>(&empty, &microdecoder_config(), 2).is_none());
    let none = micro_layers_from_artifact::<Single>(&empty, &microdecoder_config(), 0)
        .expect("nothing is asked of it");
    assert!(none.is_empty());
}

/// Rows of half singles, distinct in both bytes.
fn cold_rows(rows: usize) -> Vec<u8> {
    (0..rows * TEXT_EMBED_WIDTH)
        .flat_map(|i| {
            u16::try_from((i * 7 + 1) % 30_000)
                .unwrap_or(1)
                .to_le_bytes()
        })
        .collect()
}

#[test]
fn provided_rows_reconstruct_exactly_what_the_mapped_table_would_have_gathered() {
    let cold = cold_rows(4);
    let ids = [900_u32, 12, 900, 4, 77];
    let mut distinct = ids.to_vec();
    distinct.sort_unstable();
    distinct.dedup();
    assert_eq!(distinct, [4, 12, 77, 900]);

    let row_bytes = TEXT_EMBED_WIDTH * 2;
    let provided: Vec<u8> = (0..distinct.len())
        .flat_map(|slot| cold[slot * row_bytes..(slot + 1) * row_bytes].to_vec())
        .collect();
    let table = match TextEmbeddingTable::<Single>::from_provided_rows(&ids, &provided) {
        Ok(table) => table,
        Err(error) => panic!("well-formed rows: {}", error.message()),
    };

    assert_eq!(table.gathered_ids(), distinct.as_slice());
    for (slot, id) in distinct.iter().enumerate() {
        let row = table.row(*id).expect("every supplied id resolves");
        let expected: Vec<u32> = cold[slot * row_bytes..(slot + 1) * row_bytes]
            .chunks(2)
            .map(|p| u32::from(u16::from_le_bytes([p[0], p[1]])) << 16)
            .collect();
        assert_eq!(
            row.iter().map(|v| v.to_bits()).collect::<Vec<_>>(),
            expected,
            "row for id {id} must widen bit-for-bit"
        );
    }
    assert!(table.covers(&[4, 900]));
    assert!(!table.covers(&[4, 5]));
    assert!(table.row(5).is_none());
}

#[test]
fn provided_rows_refuse_a_buffer_that_does_not_match_the_ids() {
    let width = TEXT_EMBED_WIDTH * 2;
    let two_rows = vec![0_u8; width * 2];
    let provide = TextEmbeddingTable::<Single>::from_provided_rows;
    assert!(provide(&[1, 2, 3], &two_rows).is_err());
    assert!(provide(&[1, 2], &two_rows).is_ok());
    assert!(provide(&[1, TEXT_VOCAB as u32], &two_rows).is_err());
}

#[test]
fn copied_rows_are_gathered_whole_or_not_at_all() {
    let row = |value: f32| Some(vec![value; TEXT_EMBED_WIDTH]);
    let mut held = CopiedRows {
        len: TEXT_VOCAB * TEXT_EMBED_WIDTH,
        row_len: TEXT_EMBED_WIDTH,
        copies: vec![row(1.0), row(2.0)],
    };
    let gather = |held: &CopiedRows<f32>, ids: &[u32]| {
        TextEmbeddingTable::<Single>::gather(Some(held), "voice", ids)
    };
    let table = gather(&held, &[8, 3, 8]).ok().expect("both rows were copied");
    assert_eq!(table.gathered_ids(), [3, 8]);
    assert_eq!(table.row(8).expect("gathered")[0], 2.0);

    let size = |result: Result<TextEmbeddingTable<Single>, CheckpointError>| match result {
        Err(CheckpointError::TensorShape {
            expected, actual, ..
        }) => (expected, actual),
        _ => panic!("a size was to be refused"),
    };
    assert_eq!(size(gather(&held, &[3, 151_936])), (TEXT_VOCAB, 151_937));
    held.copies[1] = None;
    held.row_len = 7;
    assert_eq!(size(gather(&held, &[3, 8])), (TEXT_EMBED_WIDTH, 7));
    held.len = 10;
    assert_eq!(
        size(gather(&held, &[3])),
        (TEXT_VOCAB * TEXT_EMBED_WIDTH, 10)
    );
    assert!(matches!(
        TextEmbeddingTable::<Single>::gather(None, "voice", &[]),
        Err(CheckpointError::MissingTensor { .. })
    ));
}

#[test]
fn the_wrapper_written_here_is_the_wrapper_prompt_strips() {
    let text = [9707u32, 13];
    let wrapped = TalkerCheckpoint::<Single>::wrap_target_ids(&text);
    assert_eq!(wrapped.len(), text.len() + 8);
    let extracted = extract_prompt_text_ids(&wrapped, None)
        .expect("the wrapper we wrote must be the wrapper prompt accepts");
    assert_eq!(extracted.target, text);
}

#[test]
fn the_gathered_id_set_covers_every_position_the_prompt_can_reach() {
    let wrapped = TalkerCheckpoint::<Single>::wrap_target_ids(&[9707, 13]);
    let ids = TalkerCheckpoint::<Single>::utterance_text_ids(&wrapped);
    for id in wrapped {
        assert!(ids.contains(&id), "wrapped id {id} must be gathered");
    }
    for special in [TTS_PAD_TOKEN_ID, TTS_BOS_TOKEN_ID, TTS_EOS_TOKEN_ID] {
        assert!(ids.contains(&special), "special {special} must be gathered");
    }
}

#[test]
fn a_transposed_projection_is_refused_by_its_declared_axes() {
    let q_proj = ShapeSpec::Matrix {
        rows: Some(2048),
        cols: 1024,
    };
    assert!(q_proj.check("q", &[2048, 1024]).is_ok());
    let error = match q_proj.check("q", &[1024, 2048]) {
        Err(error) => error.message(),
        Ok(()) => panic!("a transposed store must refuse"),
    };
    assert!(error.contains("transposed"), "{error}");

    let head = ShapeSpec::Matrix {
        rows: None,
        cols: 1024,
    };
    assert!(head.check("head", &[2048, 1024]).is_ok());
    assert!(head.check("head", &[1024, 2048]).is_err());

    let norm = ShapeSpec::Vector(1024);
    assert!(norm.check("norm", &[1024]).is_ok());
    assert!(norm.check("norm", &[1, 1024]).is_err());
}

#[test]
fn a_speaker_vector_of_the_wrong_width_is_refused() {
    let error = CheckpointError::SpeakerWidth {
        expected: TALKER_HIDDEN,
        actual: 512,
    };
    assert!(error.message().contains("512"));
    assert!(error.message().contains("1024"));
}

#[test]
fn q8_artifact_tensor_widens_with_its_per_output_channel_scales() {
    let tensor = "test.q8.weight";
    let scales = "test.q8.weight.scales";
    let mut payload = Vec::new();
    payload.extend_from_slice(&0.25_f32.to_le_bytes());
    payload.extend_from_slice(&0.5_f32.to_le_bytes());
    let artifact = Artifact {
        tensors: vec![
            StoredTensor {
                name: tensor.to_string(),
                dtype: StoredDtype::Q8,
                shape: vec![2, 3],
                scales: Some(scales.to_string()),
                payload: Ok([-2_i8, 1, 127, 3, -4, 0]
                    .iter()
                    .map(|v| v.to_ne_bytes()[0])
                    .collect()),
            },
            StoredTensor {
                name: scales.to_string(),
                dtype: StoredDtype::F32,
                shape: vec![2],
                scales: None,
                payload: Ok(payload),
            },
        ],
    };
    assert_eq!(
        widen_tensor::<Single>(&artifact, tensor).expect("q8 tensor widens"),
        vec![-0.5, 0.25, 31.75, 1.5, -2.0, 0.0]
    );
}

#[test]
fn every_storage_fault_has_an_artifact_that_gives_it() {
    let fault = |dtype, shape: Vec<u64>, scales: Option<&str>, payload| {
        let artifact = Artifact {
            tensors: vec![StoredTensor {
                name: "t".to_string(),
                dtype,
                shape,
                scales: scales.map(str::to_string),
                payload,
            }],
        };
        widen_tensor::<Single>(&artifact, "t").is_err()
    };
    assert!(fault(StoredDtype::F32, vec![2], None, Ok(vec![0; 7])));
    assert!(fault(StoredDtype::Bf16, vec![2], None, Ok(vec![0; 5])));
    assert!(fault(StoredDtype::Q8, vec![1, 2], None, Ok(vec![0; 2])));
    assert!(fault(
        StoredDtype::Q8,
        vec![1, 2],
        Some("absent"),
        Ok(vec![0; 2])
    ));
    assert!(fault(StoredDtype::Q4, vec![2], None, Ok(vec![0; 1])));
    assert!(fault(
        StoredDtype::F32,
        vec![u64::MAX, 2],
        None,
        Ok(vec![])
    ));
    assert!(fault(
        StoredDtype::F32,
        vec![1],
        None,
        Err("torn".to_string())
    ));
    assert!(!fault(StoredDtype::F32, vec![1], None, Ok(vec![0; 4])));
}

#[test]
fn a_widened_tensor_is_taken_once() {
    let mut store = WidenedTensors::<Single>::new();
    assert!(store.is_empty());
    assert!(store.insert_f32_le("t", &[0; 6]).is_err());
    assert!(store.insert_f32_le("t", &1.5_f32.to_le_bytes()).is_ok());
    assert!(store.insert_f32_le("t", &2.5_f32.to_le_bytes()).is_ok());
    assert_eq!(store.len(), 1, "a second tensor of one name replaces it");
    assert_eq!(store.take_widened("codec", "t").ok(), Some(vec![2.5]));
    assert!(matches!(
        store.take_widened("codec", "t"),
        Err(CheckpointError::MissingTensor { .. })
    ));
}

#[test]
fn an_elision_leaves_everything_widened_by_default() {
    let elision = HotElision::default();
    assert!(!elision.talker && !elision.micro);
}

fn empty_tensor(name: String, dtype: StoredDtype, shape: Vec<u64>) -> StoredTensor {
    let scales = Some(format!("{name}.scales"));
    StoredTensor {
        name,
        dtype,
        shape,
        scales,
        payload: Ok(vec![]),
    }
}

#[test]
fn a_layer_is_elided_whole_or_not_at_all() {
    let mut artifact = Artifact {
        tensors: (0..11)
            .map(|j| empty_tensor(tensor_name(MICRO_BASE + j), StoredDtype::Q8, vec![]))
            .collect(),
    };
    let both = HotElision {
        talker: true,
        micro: true,
    };
    let elided = |artifact: &Artifact, elision| -> Vec<usize> {
        (0..TENSOR_COUNT)
            .filter(|&i| tensor_elided(artifact, elision, i))
            .collect()
    };
    let hot = elided(&artifact, both);
    assert_eq!(hot.len(), 7, "four projections of attention and three of the branch");
    assert!(hot.iter().all(|&i| (MICRO_BASE..TABLE_BASE).contains(&i)));
    let talker_only = HotElision {
        talker: true,
        micro: false,
    };
    assert!(elided(&artifact, talker_only).is_empty());
    let spoiled = hot[3] - MICRO_BASE;
    artifact.tensors[spoiled].dtype = StoredDtype::Bf16;
    assert!(
        elided(&artifact, both).is_empty(),
        "one projection that is not held in eight bits keeps its whole layer"
    );
}

fn shipped_shapes() -> (StackShape, StackShape) {
    let shape = || StackShape {
        hidden: 1_024,
        query: 2_048,
        key: 1_024,
        head: 128,
        inner: 3_072,
    };
    (shape(), shape())
}

fn load(tensors: Vec<StoredTensor>) -> Result<TalkerCheckpoint<Single>, CheckpointError> {
    let (talker, micro) = shipped_shapes();
    TalkerCheckpoint::load_fttsq_mapped(
        Artifact { tensors },
        "voice",
        talker,
        micro,
        HotElision::default(),
    )
}

#[test]
fn a_talker_checkpoint_names_the_first_tensor_it_misses() {
    match load(vec![]) {
        Err(CheckpointError::MissingTensor { path, tensor }) => {
            assert_eq!(path, "voice");
            assert_eq!(tensor, "talker.model.layers.0.input_layernorm.weight");
        }
        _ => panic!("an empty artifact has no tensor"),
    }
}

fn load_views(views: Vec<TensorView<f32>>) -> Result<TalkerCheckpoint<Single>, CheckpointError> {
    let (talker, micro) = shipped_shapes();
    TalkerCheckpoint::load(TensorFile { views }, "voice", talker, micro)
}

#[test]
fn a_file_is_looked_at_as_an_artifact_is() {
    match load_views(vec![]) {
        Err(CheckpointError::MissingTensor { path, tensor }) => {
            assert_eq!(path, "voice");
            assert_eq!(tensor, "talker.model.layers.0.input_layernorm.weight");
        }
        _ => panic!("an empty file has no tensor"),
    }
    let transposed = TensorView {
        name: "talker.model.layers.5.mlp.down_proj.weight".to_string(),
        shape: vec![3_072, 0],
        values: vec![],
    };
    match load_views(vec![transposed]) {
        Err(CheckpointError::TensorAxes { tensor, actual, .. }) => {
            assert_eq!(tensor, "talker.model.layers.5.mlp.down_proj.weight");
            assert_eq!(actual, vec![3_072, 0]);
        }
        _ => panic!("the axes are looked at first"),
    }
}

#[test]
fn a_codec_file_is_a_store_that_keeps_its_tensors() {
    let file = TensorFile {
        views: vec![TensorView {
            name: "x".to_string(),
            shape: vec![2],
            values: vec![Some(1.0), Some(-2.0)],
        }],
    };
    let mut store: FileStore<'_, Single> = FileStore(&file);
    assert_eq!(store.take_widened("codec", "x"), Ok(vec![1.0, -2.0]));
    assert_eq!(store.take_widened("codec", "x"), Ok(vec![1.0, -2.0]));
    match CodecCheckpoint::<Single>::load_from_file(&file, "codec") {
        Err(CheckpointError::MissingTensor { path, tensor }) => {
            assert_eq!(path, "codec");
            assert_eq!(
                tensor,
                "decoder.quantizer.rvq_first.vq.layers.0._codebook.embedding_sum"
            );
        }
        _ => panic!("the codebooks come first"),
    }
}

#[test]
fn a_transposed_export_is_refused_before_anything_is_widened() {
    let transposed = empty_tensor(
        "talker.model.layers.5.self_attn.q_proj.weight".to_string(),
        StoredDtype::Bf16,
        vec![1_024, 2_048],
    );
    match load(vec![transposed]) {
        Err(CheckpointError::TensorAxes { tensor, actual, .. }) => {
            assert_eq!(tensor, "talker.model.layers.5.self_attn.q_proj.weight");
            assert_eq!(actual, vec![1_024, 2_048]);
        }
        _ => panic!("the axes are looked at first"),
    }
}

#[test]
fn a_cold_table_of_another_shape_is_refused() {
    let gather = |tensors| {
        TextEmbeddingTable::<Single>::gather_fttsq(&Artifact { tensors }, "voice", &[1])
            .err()
            .map(|error| error.message())
            .expect("no such table")
    };
    assert!(gather(vec![]).contains("talker.model.text_embedding.weight"));
    let narrow = empty_tensor(
        "talker.model.text_embedding.weight".to_string(),
        StoredDtype::Bf16,
        vec![4, 2_048],
    );
    assert!(
        gather(vec![narrow]).contains("expected cold embedding shape [151936, 2048], found [4, 2048]")
    );
}

/// Tensors of the shipped codec, made up where they are asked for.
struct MadeUp;

impl TensorStore<f32> for MadeUp {
    fn take_widened(&mut self, _label: &str, name: &str) -> Result<Vec<f32>, CheckpointError> {
        let len = if name.ends_with(".embedding_sum") {
            2_048 * 256
        } else if name.ends_with(".cluster_usage") {
            return Ok(vec![1.0; 2_048]);
        } else {
            (0..CODEC_TENSORS)
                .find(|&i| codec_tensor_name(i) == name)
                .map_or(0, codec_tensor_len)
        };
        let scale = 1.0 / (1.0 + (len as f32).sqrt());
        Ok((0..len as u32)
            .map(|i| (i.wrapping_mul(2_654_435_761) >> 16) as f32 / 65_536.0 * scale - 0.4 * scale)
            .collect())
    }
}

#[test]
fn a_checkpoint_streams_what_it_decodes() {
    let codec = CodecCheckpoint::<Single>::load_from_store(&mut MadeUp, "codec").expect("loads");
    assert!(codec.has_expected_shapes());
    let codes: Vec<i32> = (0..16).map(|i| i * 61 % 2_048).collect();
    let mut state = codec.stream_state();
    let mut output = vec![0.5];
    assert!(matches!(
        codec.stream_push(&mut state, &[2_048; 16], 1, &mut output),
        Err(CheckpointError::Codec(CodecError::InvalidCode {
            frame: 0,
            group: 0,
            code: 2_048
        }))
    ));
    assert!(matches!(
        codec.stream_push(&mut state, &codes[..15], 1, &mut output),
        Err(CheckpointError::Codec(CodecError::CodeLayout))
    ));
    assert_eq!(output, [0.5], "a refused packet changes nothing");
    codec
        .stream_push(&mut state, &codes, 1, &mut output)
        .expect("valid codes");

    let whole = codec.decode(&codes, 1).expect("valid codes");
    assert_eq!(whole.len(), 1_920);
    assert!(whole.iter().any(|sample| *sample != whole[0]));
    assert_eq!(output[0], 0.5);
    assert_eq!(output[1..], whole[..]);
}
