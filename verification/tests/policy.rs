//! Prompts, sampling, and the policies around speculation and depth.
use ftts_model_qwen::af3::{
    set_af3_monitor_override, FrankenMtpEProcessConfig, FrankenMtpEProcessMonitor,
    MonitorDecision, MonitorSwitch,
};
use ftts_model_qwen::arith::{Arithmetic, Binary, Check, Constant, Reduction, Relation, Unary};
use ftts_model_qwen::drafter_ladder::{
    DistilledMicroDrafter, DrafterType, ParallelHeadsDrafter, SpeculativeDrafter,
    TreeVerifyController, RESIDUAL_DEPTHS, RESIDUAL_VOCAB,
};
use ftts_model_qwen::prompt::{
    assemble_prompt, extract_prompt_text_ids, CloneMode, HiddenState, PromptAssemblyInput,
    PromptError, PromptHeader, PromptMode,
};
use ftts_model_qwen::sampler::{
    apply_top_p, production_probability, QwenSampler, SamplerError, SamplingMode, SplitMix64,
    Widens, CODEC_EOS_TOKEN_ID, MICRODECODER_VOCAB_SIZE, TALKER_MAX_NEW_TOKENS,
    TALKER_VOCAB_SIZE, TOP_K,
};
use ftts_model_qwen::surgery::{
    AdaptiveDepthConfig, AdaptiveDepthController, Af1BitAllocator, CanaryFailure, CanaryVerdict,
    SurgeryCanaryDetector,
};

/// Single-precision arithmetic, every sum taken left to right.
#[derive(Clone, Copy)]
struct Single;

impl Arithmetic for Single {
    type Scalar = f32;

    fn constant(name: Constant) -> f32 {
        match name {
            Constant::Zero => 0.0,
            Constant::One => 1.0,
            Constant::Two => 2.0,
            Constant::Half => 0.5,
            Constant::FracOneSqrtTwo => std::f32::consts::FRAC_1_SQRT_2,
            Constant::CodecRmsEpsilon => 1e-5,
            Constant::CodecRopeTheta => 10_000.0,
            Constant::CodebookUsageEpsilon => 1e-5,
            Constant::SnakeEpsilon => 1e-9,
            Constant::ConvNextEpsilon => 1e-6,
            Constant::MicroRopeTheta => 1.0e6,
            Constant::MicroRmsEpsilon => 1e-6,
            Constant::EncoderNormEpsilon => 1e-5,
            Constant::EncoderAttentionScale => 0.125,
            Constant::PoolingEpsilon => 1e-12,
            Constant::MelFloor => 1e-5,
            Constant::Tau => std::f32::consts::TAU,
            Constant::MagnitudeEpsilon => 1e-9,
            Constant::LinearHzPerMel => 200.0 / 3.0,
            Constant::LogStartHz => 1000.0,
            Constant::LogStep => 0.068_751_78,
            Constant::RepetitionPenalty => 1.05,
            Constant::Temperature => 0.9,
            Constant::NegativeInfinity => f32::NEG_INFINITY,
            Constant::Infinity => f32::INFINITY,
            Constant::Hundred => 100.0,
            Constant::DistilledScale => 1000.0,
            Constant::ParallelScale => 777.0,
            Constant::Tenth => 0.1,
            Constant::DraftPeak => 127.0,
            Constant::DefaultAlpha => 0.01,
            Constant::EntropyThreshold => 2.5,
            Constant::WaterBound => 20.0,
            Constant::VarianceFloor => 1e-6,
        }
    }

    fn count(n: usize) -> f32 {
        n as f32
    }

    fn unary(op: Unary, a: f32) -> f32 {
        match op {
            Unary::Neg => -a,
            Unary::Abs => a.abs(),
            Unary::Recip => a.recip(),
            Unary::Sqrt => a.sqrt(),
            Unary::Exp => a.exp(),
            Unary::ExpMinusOne => a.exp_m1(),
            Unary::Ln => a.ln(),
            Unary::Sin => a.sin(),
            Unary::Cos => a.cos(),
            Unary::Tanh => a.tanh(),
            Unary::Erf => {
                let t = 1.0 / (1.0 + 0.327_591_1 * a.abs());
                let poly = t
                    * (0.254_829_6
                        + t * (-0.284_496_74
                            + t * (1.421_413_7 + t * (-1.453_152 + t * 1.061_405_4))));
                let magnitude = 1.0 - poly * (-a * a).exp();
                if a < 0.0 { -magnitude } else { magnitude }
            }
            Unary::ClampUnit => a.clamp(-1.0, 1.0),
            Unary::Round => a.round(),
        }
    }

    fn binary(op: Binary, a: f32, b: f32) -> f32 {
        match op {
            Binary::Add => a + b,
            Binary::Sub => a - b,
            Binary::Mul => a * b,
            Binary::Div => a / b,
            Binary::Max => a.max(b),
            Binary::Min => a.min(b),
            Binary::Pow => a.powf(b),
        }
    }

    fn relation(op: Relation, a: f32, b: f32) -> bool {
        match op {
            Relation::Less => a < b,
            Relation::AtMost => a <= b,
            Relation::TotallyBelow => a.total_cmp(&b).is_lt(),
        }
    }

    fn check(op: Check, a: f32) -> bool {
        match op {
            Check::Finite => a.is_finite(),
            Check::UndefinedOrInfinite => a.is_nan() || a == f32::INFINITY,
        }
    }

    fn truncate(a: f32) -> usize {
        a as usize
    }

    fn reduce(_op: Reduction, x: &[f32], y: &[f32], seed: Option<f32>) -> f32 {
        let mut sum = seed.unwrap_or(0.0);
        for (a, b) in x.iter().zip(y) {
            sum += a * b;
        }
        sum
    }
}

/// Double-precision arithmetic, every sum taken left to right.
#[derive(Clone, Copy)]
struct Double;

impl Arithmetic for Double {
    type Scalar = f64;

    fn constant(name: Constant) -> f64 {
        match name {
            Constant::Zero => 0.0,
            Constant::One => 1.0,
            Constant::Two => 2.0,
            Constant::Half => 0.5,
            Constant::FracOneSqrtTwo => std::f64::consts::FRAC_1_SQRT_2,
            Constant::CodecRmsEpsilon => 1e-5,
            Constant::CodecRopeTheta => 10_000.0,
            Constant::CodebookUsageEpsilon => 1e-5,
            Constant::SnakeEpsilon => 1e-9,
            Constant::ConvNextEpsilon => 1e-6,
            Constant::MicroRopeTheta => 1.0e6,
            Constant::MicroRmsEpsilon => 1e-6,
            Constant::EncoderNormEpsilon => 1e-5,
            Constant::EncoderAttentionScale => 0.125,
            Constant::PoolingEpsilon => 1e-12,
            Constant::MelFloor => 1e-5,
            Constant::Tau => std::f64::consts::TAU,
            Constant::MagnitudeEpsilon => 1e-9,
            Constant::LinearHzPerMel => 200.0 / 3.0,
            Constant::LogStartHz => 1000.0,
            Constant::LogStep => 0.068_751_777_420_949_11,
            Constant::RepetitionPenalty => 1.05,
            Constant::Temperature => 0.9,
            Constant::NegativeInfinity => f64::NEG_INFINITY,
            Constant::Infinity => f64::INFINITY,
            Constant::Hundred => 100.0,
            Constant::DistilledScale => 1000.0,
            Constant::ParallelScale => 777.0,
            Constant::Tenth => 0.1,
            Constant::DraftPeak => 127.0,
            Constant::DefaultAlpha => 0.01,
            Constant::EntropyThreshold => 2.5,
            Constant::WaterBound => 20.0,
            Constant::VarianceFloor => 1e-6,
        }
    }

    fn count(n: usize) -> f64 {
        n as f64
    }

    fn unary(op: Unary, a: f64) -> f64 {
        match op {
            Unary::Neg => -a,
            Unary::Abs => a.abs(),
            Unary::Recip => a.recip(),
            Unary::Sqrt => a.sqrt(),
            Unary::Exp => a.exp(),
            Unary::ExpMinusOne => a.exp_m1(),
            Unary::Ln => a.ln(),
            Unary::Sin => a.sin(),
            Unary::Cos => a.cos(),
            Unary::Tanh => a.tanh(),
            Unary::Erf => {
                let t = 1.0 / (1.0 + 0.327_591_1 * a.abs());
                let poly = t
                    * (0.254_829_6
                        + t * (-0.284_496_74
                            + t * (1.421_413_7 + t * (-1.453_152 + t * 1.061_405_4))));
                let magnitude = 1.0 - poly * (-a * a).exp();
                if a < 0.0 { -magnitude } else { magnitude }
            }
            Unary::ClampUnit => a.clamp(-1.0, 1.0),
            Unary::Round => a.round(),
        }
    }

    fn binary(op: Binary, a: f64, b: f64) -> f64 {
        match op {
            Binary::Add => a + b,
            Binary::Sub => a - b,
            Binary::Mul => a * b,
            Binary::Div => a / b,
            Binary::Max => a.max(b),
            Binary::Min => a.min(b),
            Binary::Pow => a.powf(b),
        }
    }

    fn relation(op: Relation, a: f64, b: f64) -> bool {
        match op {
            Relation::Less => a < b,
            Relation::AtMost => a <= b,
            Relation::TotallyBelow => a.total_cmp(&b).is_lt(),
        }
    }

    fn check(op: Check, a: f64) -> bool {
        match op {
            Check::Finite => a.is_finite(),
            Check::UndefinedOrInfinite => a.is_nan() || a == f64::INFINITY,
        }
    }

    fn truncate(a: f64) -> usize {
        a as usize
    }

    fn reduce(_op: Reduction, x: &[f64], y: &[f64], seed: Option<f64>) -> f64 {
        let mut sum = seed.unwrap_or(0.0);
        for (a, b) in x.iter().zip(y) {
            sum += a * b;
        }
        sum
    }
}

impl Widens<Single> for Double {
    fn widen(a: f32) -> f64 {
        f64::from(a)
    }

    fn unit(bits: u64) -> f64 {
        (bits >> 11) as f64 * (1.0 / (1_u64 << 53) as f64)
    }
}

fn v(value: f32) -> HiddenState<f32> {
    vec![value, value + 0.25]
}

fn sum(left: HiddenState<f32>, right: HiddenState<f32>) -> HiddenState<f32> {
    left.iter().zip(&right).map(|(a, b)| a + b).collect()
}

fn input(mode: PromptMode) -> PromptAssemblyInput<f32> {
    PromptAssemblyInput {
        mode,
        header: PromptHeader {
            role: vec![v(10.0), v(11.0), v(12.0)],
            codec_prefill: vec![
                v(20.0),
                v(21.0),
                v(22.0),
                v(23.0),
                v(24.0),
                v(25.0),
                v(26.0),
            ],
            tts_bos: v(100.0),
            tts_pad: v(200.0),
        },
        target_text: vec![v(300.0), v(301.0), v(302.0)],
        reference_text: Some(vec![v(400.0), v(401.0)]),
        reference_codec: Some(vec![v(500.0), v(501.0), v(502.0), v(503.0)]),
        tts_eos: v(600.0),
        hold_tts_eos: false,
    }
}

fn mode_of(clone_mode: CloneMode, non_streaming_mode: bool) -> PromptMode {
    PromptMode {
        clone_mode,
        non_streaming_mode,
    }
}

#[test]
fn all_four_template_shape_formulas_and_prefixes_are_exact() {
    let cases = [
        (mode_of(CloneMode::Icl, false), 14, 1, 11),
        (mode_of(CloneMode::Icl, true), 20, 1, 11),
        (mode_of(CloneMode::XVector, false), 10, 3, 9),
        (mode_of(CloneMode::XVector, true), 14, 1, 9),
    ];
    for (mode, prompt_len, trailing_len, prefix_len) in cases {
        let output = assemble_prompt::<Single>(input(mode)).expect("valid shape fixture");
        assert_eq!(output.prefill.len(), prompt_len, "{mode:?}");
        assert_eq!(output.trailing_text_hidden.len(), trailing_len, "{mode:?}");
        assert_eq!(output.target_independent_prefix_len, prefix_len, "{mode:?}");
    }
}

#[test]
fn streaming_icl_sums_elementwise_and_only_trails_uncovered_text() {
    let output =
        assemble_prompt::<Single>(input(PromptMode::streaming_icl())).expect("valid ICL prompt");
    assert_eq!(output.prefill[9], sum(v(400.0), v(26.0)));
    assert_eq!(output.trailing_text_hidden, vec![v(600.0)]);
}

#[test]
fn xvector_streaming_default_consumes_bos_once() {
    let output = assemble_prompt::<Single>(input(mode_of(CloneMode::XVector, false)))
        .expect("valid x-vector prompt");
    assert_eq!(
        output.prefill.len(),
        10,
        "header plus exactly one target/BOS position"
    );
    assert_eq!(output.prefill[9], sum(v(300.0), v(26.0)));
    assert_eq!(
        output.trailing_text_hidden,
        vec![v(301.0), v(302.0), v(600.0)]
    );
}

#[test]
fn empty_target_follows_zero_length_streaming_behavior_without_inventing_a_token() {
    let mut fixture = input(mode_of(CloneMode::XVector, false));
    fixture.target_text.clear();
    let output = assemble_prompt::<Single>(fixture).expect("empty target remains representable");
    assert_eq!(output.prefill.len(), 9);
    assert_eq!(output.trailing_text_hidden, vec![v(600.0)]);
}

#[test]
fn trap_3_asymmetric_wrapper_slices_remain_named_and_checked() {
    let target = [
        151_644, 77_091, 198, 7, 8, 151_645, 198, 151_644, 77_091, 198,
    ];
    let reference = [151_644, 77_091, 198, 9, 10, 151_645, 198];
    let ids = extract_prompt_text_ids(&target, Some(&reference)).expect("valid wrappers");
    assert_eq!(ids.target, [7, 8]);
    assert_eq!(ids.reference, Some(vec![9, 10]));
}

#[test]
fn malformed_wrapper_is_not_silently_sliced() {
    assert!(matches!(
        extract_prompt_text_ids(&[151_644, 77_091, 198], None),
        Err(PromptError::InvalidWrapper { kind: "target" })
    ));
}

#[test]
fn a_malformed_reference_is_named() {
    let target = [
        151_644, 77_091, 198, 7, 151_645, 198, 151_644, 77_091, 198,
    ];
    let error = extract_prompt_text_ids(&target, Some(&[151_644, 77_091, 198, 9]))
        .expect_err("no suffix");
    assert_eq!(error, PromptError::InvalidWrapper { kind: "reference" });
    assert_eq!(error.message(), "invalid reference assistant wrapper");
}

#[test]
fn every_prompt_error_has_an_input_that_gives_it() {
    let mut short = input(PromptMode::streaming_icl());
    short.header.role.pop();
    assert_eq!(
        assemble_prompt::<Single>(short).expect_err("two role states"),
        PromptError::InvalidHeader
    );

    let mut unread = input(PromptMode::streaming_icl());
    unread.reference_text = None;
    assert_eq!(
        assemble_prompt::<Single>(unread).expect_err("no reference text"),
        PromptError::MissingIclReferenceText
    );

    let mut unheard = input(PromptMode::streaming_icl());
    unheard.reference_codec = None;
    assert_eq!(
        assemble_prompt::<Single>(unheard).expect_err("no reference codec"),
        PromptError::MissingIclReferenceCodec
    );

    let mut ragged = input(PromptMode::streaming_icl());
    ragged.target_text[1].push(0.0);
    assert!(assemble_prompt::<Single>(ragged).is_err());
}

fn talker_logits() -> Vec<f32> {
    vec![0.0; TALKER_VOCAB_SIZE]
}

fn microdecoder_logits() -> Vec<f32> {
    vec![0.0; MICRODECODER_VOCAB_SIZE]
}

fn talk(
    sampler: &mut QwenSampler,
    logits: &[f32],
    history: &[u32],
    mode: SamplingMode,
) -> Result<u32, SamplerError> {
    sampler.select_talker::<Single, Double>(logits, history, mode)
}

fn greedy(logits: &[f32], history: &[u32]) -> u32 {
    talk(
        &mut QwenSampler::seeded(1),
        logits,
        history,
        SamplingMode::CanonicalGreedy,
    )
    .expect("valid talker logits")
}

#[test]
fn production_draws_concentrate_on_a_peaked_mode() {
    let mut logits = vec![5.5_f32; TALKER_VOCAB_SIZE];
    logits[125] = 26.5;
    let mut sampler = QwenSampler::seeded(0);
    let mut peak_hits = 0usize;
    for _ in 0..200 {
        let pick = talk(&mut sampler, &logits, &[], SamplingMode::Production).expect("valid row");
        assert!(
            pick < MICRODECODER_VOCAB_SIZE as u32 || pick == CODEC_EOS_TOKEN_ID,
            "suppressed special {pick} must never be drawn"
        );
        if pick == 125 {
            peak_hits += 1;
        }
    }
    assert!(
        peak_hits >= 195,
        "a 21-logit peak after T=0.9 holds ~all mass; drawn only {peak_hits}/200 times"
    );

    let flat = vec![5.5_f32; TALKER_VOCAB_SIZE];
    let mut distinct = std::collections::BTreeSet::new();
    for _ in 0..200 {
        distinct
            .insert(talk(&mut sampler, &flat, &[], SamplingMode::Production).expect("valid row"));
    }
    assert!(
        distinct.len() >= 20,
        "200 draws over a flat top-{TOP_K} produced only {} distinct tokens",
        distinct.len()
    );
}

#[test]
fn contract_a_l3_talker_suppress_mask_keeps_only_codes_and_eos() {
    let mut logits = talker_logits();
    logits[2_148] = 100.0;
    logits[CODEC_EOS_TOKEN_ID as usize] = 99.0;
    logits[2_047] = 98.0;
    assert_eq!(
        greedy(&logits, &[10, 11]),
        CODEC_EOS_TOKEN_ID,
        "EOS alone survives the tail suppress mask"
    );
}

#[test]
fn contract_a_l3_talker_repetition_penalty_is_sign_dependent_for_negative_scores() {
    let mut logits = vec![f32::NEG_INFINITY; TALKER_VOCAB_SIZE];
    logits[7] = -1.0;
    logits[8] = -1.04;
    assert_eq!(
        greedy(&logits, &[7, 12]),
        8,
        "a repeated negative score is multiplied by 1.05"
    );
}

#[test]
fn contract_a_l3_talker_repetition_penalty_applies_once_per_distinct_token() {
    let mut logits = vec![f32::NEG_INFINITY; TALKER_VOCAB_SIZE];
    logits[7] = 10.0;
    logits[8] = 9.0;
    assert_eq!(
        greedy(&logits, &[7, 7, 7, 7]),
        7,
        "four repeats must penalize 10.0 exactly once (9.52), keeping it above the 9.0 rival"
    );
}

#[test]
fn contract_a_l3_a_sustained_code_does_not_decay_into_a_spurious_eos() {
    let mut logits = vec![f32::NEG_INFINITY; TALKER_VOCAB_SIZE];
    logits[1657] = 28.425;
    logits[CODEC_EOS_TOKEN_ID as usize] = 24.146;
    assert_eq!(
        greedy(&logits, &[1221, 1014, 1657, 1657, 1657, 1657]),
        1657,
        "a sustained code must not be penalized below EOS by its own repetition"
    );
}

#[test]
fn contract_a_l3_talker_min_new_tokens_masks_eos_before_two_group_zero_codes() {
    let mut logits = talker_logits();
    logits[CODEC_EOS_TOKEN_ID as usize] = 100.0;
    logits[7] = 99.0;
    assert_eq!(
        greedy(&logits, &[6]),
        7,
        "EOS must remain unavailable until two codes were generated"
    );
}

#[test]
fn contract_a_l3_talker_penalty_accepts_group_zero_history_only() {
    let mut logits = talker_logits();
    logits[9] = 5.05;
    logits[10] = 5.2;
    assert_eq!(
        greedy(&logits, &[10, 11]),
        9,
        "only the supplied group-0 code is penalized"
    );
}

#[test]
fn contract_a_l3_effective_talker_max_new_tokens_is_generation_config_value() {
    assert_eq!(TALKER_MAX_NEW_TOKENS, 8_192);
}

#[test]
fn contract_a_l3_microdecoder_raw_argmax_has_no_talker_processors() {
    let mut logits = microdecoder_logits();
    logits[2_047] = 10.0;

    let token = QwenSampler::seeded(1)
        .select_microdecoder::<Single, Double>(&logits, SamplingMode::CanonicalGreedy)
        .expect("valid microdecoder logits");

    assert_eq!(
        token, 2_047,
        "microdecoder support is its full raw 2048-token head"
    );
}

#[test]
fn production_sampling_is_deterministic_for_our_seeded_rng() {
    let mut logits = microdecoder_logits();
    logits[2] = 1.0;
    logits[3] = 0.5;
    let mut left = QwenSampler::seeded(42);
    let mut right = QwenSampler::seeded(42);
    let left_tokens: Vec<u32> = (0..32)
        .map(|_| left.select_microdecoder::<Single, Double>(&logits, SamplingMode::Production))
        .collect::<Result<_, _>>()
        .expect("valid logits");
    let right_tokens: Vec<u32> = (0..32)
        .map(|_| right.select_microdecoder::<Single, Double>(&logits, SamplingMode::Production))
        .collect::<Result<_, _>>()
        .expect("valid logits");
    assert_eq!(left_tokens, right_tokens);
}

#[test]
fn the_generator_gives_the_published_stream() {
    let mut rng = SplitMix64::seeded(1_234_567);
    assert_eq!(rng.next_u64(), 6_457_827_717_110_365_317);
    assert_eq!(rng.next_u64(), 3_203_168_211_198_807_973);
}

#[test]
fn greedy_and_failing_selections_draw_nothing() {
    let mut logits = microdecoder_logits();
    for (i, logit) in logits.iter_mut().enumerate() {
        *logit = (i % 17) as f32 * 0.1;
    }
    let dead = [f32::NEG_INFINITY; MICRODECODER_VOCAB_SIZE];
    let mut alone = QwenSampler::seeded(11);
    let mut among = QwenSampler::seeded(11);
    let mut other = QwenSampler::seeded(12);
    let mut differs = false;
    for _ in 0..24 {
        let mode = SamplingMode::CanonicalGreedy;
        assert!(among.select_microdecoder::<Single, Double>(&logits, mode).is_ok());
        assert!(talk(&mut among, &talker_logits(), &[], mode).is_ok());
        let mode = SamplingMode::Production;
        assert!(among.select_microdecoder::<Single, Double>(&dead, mode).is_err());
        assert!(among.select_microdecoder::<Single, Double>(&logits[1..], mode).is_err());
        assert!(talk(&mut among, &talker_logits(), &[3_072], mode).is_err());
        let token = alone.select_microdecoder::<Single, Double>(&logits, mode);
        assert_eq!(
            among.select_microdecoder::<Single, Double>(&logits, mode),
            token
        );
        differs |= other.select_microdecoder::<Single, Double>(&logits, mode) != token;
    }
    assert!(differs, "another seed selects other tokens");
}

#[test]
fn every_sampler_error_has_an_input_that_gives_it() {
    let mut sampler = QwenSampler::seeded(3);
    let short = talk(&mut sampler, &[0.0; 4], &[], SamplingMode::Production);
    assert_eq!(
        short,
        Err(SamplerError::UnexpectedLogitCount {
            level: "talker",
            expected: 3_072,
            actual: 4
        })
    );
    assert_eq!(
        short.expect_err("short row").message(),
        "talker sampler expected 3072 logits, received 4"
    );
    assert_eq!(
        talk(
            &mut sampler,
            &talker_logits(),
            &[7, 3_072],
            SamplingMode::CanonicalGreedy
        ),
        Err(SamplerError::InvalidTalkerHistoryToken(3_072))
    );
    let mut infinite = talker_logits();
    infinite[40] = f32::INFINITY;
    assert_eq!(
        talk(&mut sampler, &infinite, &[], SamplingMode::CanonicalGreedy),
        Err(SamplerError::NonFiniteLogit { index: 40 })
    );
    assert_eq!(
        sampler.select_microdecoder::<Single, Double>(
            &[f32::NEG_INFINITY; MICRODECODER_VOCAB_SIZE],
            SamplingMode::Production
        ),
        Err(SamplerError::NoCandidate)
    );
}

#[test]
fn the_probability_of_a_draw_is_a_softmax_over_the_candidates() {
    let mut logits = vec![f32::NEG_INFINITY; MICRODECODER_VOCAB_SIZE];
    logits[4] = 0.9;
    logits[9] = 0.0;
    let expected = 1.0 / (1.0 + (-1.0_f64).exp());
    let actual = production_probability::<Single, Double>(&logits, 4);
    assert!((actual - expected).abs() < 1e-6, "{actual} vs {expected}");
    assert_eq!(production_probability::<Single, Double>(&logits, 5), 0.0);
    assert_eq!(production_probability::<Single, Double>(&logits, 5_000), 0.0);
}

#[test]
fn the_probability_limit_keeps_the_largest_scores() {
    let scores = [0.2_f32.ln(), f32::NEG_INFINITY, 0.5_f32.ln(), 0.3_f32.ln()];
    let limited = apply_top_p::<Single, Double>(&scores, 0.6);
    assert_eq!(limited[0], f32::NEG_INFINITY);
    assert_eq!(limited[1], f32::NEG_INFINITY);
    assert_eq!(limited[2], scores[2]);
    assert_eq!(limited[3], scores[3]);
    let least = apply_top_p::<Single, Double>(&scores, 0.0);
    assert_eq!(least[2], scores[2]);
    assert_eq!(least[3], f32::NEG_INFINITY);
    assert_eq!(apply_top_p::<Single, Double>(&scores, 1.0), scores.to_vec());
    let masked = [f32::NEG_INFINITY; 3];
    assert_eq!(apply_top_p::<Single, Double>(&masked, 0.5), masked.to_vec());
}

type Monitor = FrankenMtpEProcessMonitor<Double>;
type Parameters = FrankenMtpEProcessConfig<Double>;

fn unforced() -> MonitorSwitch {
    MonitorSwitch::default()
}

#[test]
fn default_config_has_valid_mathematical_bounds() {
    let config = Parameters::default();
    assert_eq!(config.p0, 0.10);
    assert_eq!(config.lambda, 2.0);
    assert_eq!(config.alpha, 0.01);
    assert_eq!(config.threshold(), 100.0);

    let anomaly_mult = 1.0 + config.lambda * (1.0 - config.p0);
    assert!((anomaly_mult - 2.8).abs() < 1e-6);

    let normal_mult = 1.0 + config.lambda * (0.0 - config.p0);
    assert!((normal_mult - 0.8).abs() < 1e-6);
}

#[test]
fn deterministic_fallback_when_alpha_zero() {
    let config = Parameters::new(0.10, 2.0, 0.0);
    assert_eq!(config.threshold(), f64::INFINITY);
    let mut monitor = Monitor::new(config);
    assert!(
        monitor.is_demoted(&unforced()),
        "alpha <= 0 must immediately demote speculation"
    );

    let decision = monitor.observe(&unforced(), false);
    assert_eq!(decision, MonitorDecision::Disabled);
}

#[test]
fn fault_injection_broken_drafter_trips_alarm_in_bounded_steps() {
    let mut monitor = Monitor::new(Parameters::new(0.10, 2.0, 0.01));
    for step in 1..=4 {
        let decision = monitor.observe(&unforced(), true);
        assert!(
            matches!(decision, MonitorDecision::Healthy { .. }),
            "step {step} should still be below threshold"
        );
        assert!(!monitor.is_demoted(&unforced()));
    }

    match monitor.observe(&unforced(), true) {
        MonitorDecision::Alarm { e_value, steps } => {
            assert_eq!(steps, 5);
            assert!(e_value >= 100.0);
        }
        other => panic!("expected Alarm, got {other:?}"),
    }
    assert!(monitor.is_demoted(&unforced()), "monitor must now be demoted");

    let next_decision = monitor.observe(&unforced(), false);
    assert_eq!(next_decision, MonitorDecision::Demoted);
    assert!(monitor.is_demoted(&unforced()));
}

#[test]
fn healthy_stream_contracts_e_value_and_never_alarms() {
    let mut monitor = Monitor::default();
    for _ in 0..100 {
        let decision = monitor.observe(&unforced(), false);
        assert!(matches!(decision, MonitorDecision::Healthy { .. }));
    }
    assert!(monitor.e_value() < 1e-6);
    assert!(!monitor.is_demoted(&unforced()));
    assert_eq!(monitor.steps(), 100);
    assert_eq!(monitor.anomalies(), 0);
}

#[test]
fn reset_restores_initial_state() {
    let mut monitor = Monitor::default();
    for _ in 0..6 {
        monitor.observe(&unforced(), true);
    }
    assert!(monitor.is_demoted(&unforced()));
    assert_eq!(monitor.steps(), 5, "nothing is counted behind the alarm");

    monitor.reset();
    assert!(!monitor.is_demoted(&unforced()));
    assert_eq!(monitor.e_value(), 1.0);
    assert_eq!(monitor.steps(), 0);
    assert_eq!(monitor.anomalies(), 0);
}

#[test]
fn ville_inequality_false_alarm_rate_under_null() {
    let trials = 1000;
    let horizon = 50;
    let mut false_alarms = 0;
    let alpha = 0.05;
    let mut lcg_state: u64 = 0xdeadbeef12345678;
    let mut next_u64 = || {
        lcg_state = lcg_state
            .wrapping_mul(6364136223846793005)
            .wrapping_add(1442695040888963407);
        lcg_state
    };

    for _ in 0..trials {
        let mut monitor = Monitor::new(Parameters::new(0.10, 2.0, alpha));
        for _ in 0..horizon {
            let rand_val = (next_u64() % 1000) as f64 / 1000.0;
            let is_anomaly = rand_val < 0.05;
            if let MonitorDecision::Alarm { .. } = monitor.observe(&unforced(), is_anomaly) {
                false_alarms += 1;
                break;
            }
        }
    }

    let empirical_false_alarm_rate = false_alarms as f64 / trials as f64;
    assert!(
        empirical_false_alarm_rate <= alpha,
        "empirical false alarm rate {empirical_false_alarm_rate} exceeded alpha {alpha}"
    );
}

#[test]
fn the_switch_overrules_the_monitor_and_leaves_no_trace() {
    let mut switch = MonitorSwitch::default();
    let mut monitor = Monitor::default();
    monitor.observe(&switch, true);
    let stake = monitor.e_value();

    set_af3_monitor_override(&mut switch, Some(false));
    assert!(monitor.is_demoted(&switch));
    assert_eq!(monitor.observe(&switch, true), MonitorDecision::Demoted);

    set_af3_monitor_override(&mut switch, Some(true));
    assert!(!monitor.is_demoted(&switch));
    assert_eq!(
        monitor.observe(&switch, true),
        MonitorDecision::Healthy { e_value: stake }
    );
    assert_eq!(monitor.steps(), 1);

    set_af3_monitor_override(&mut switch, None);
    monitor.observe(&switch, false);
    assert_eq!(monitor.steps(), 2);
}

#[test]
fn settings_out_of_bounds_give_way_to_defaults() {
    let config = Parameters::from_settings(Some(1.5), Some(20.0), Some(-1.0));
    assert_eq!((config.p0, config.lambda, config.alpha), (0.10, 2.0, -1.0));
    let config = Parameters::from_settings(Some(0.25), Some(3.5), None);
    assert_eq!((config.p0, config.lambda, config.alpha), (0.25, 3.5, 0.01));
    let monitor = Monitor::new(Parameters::from_settings(None, None, Some(0.5)));
    assert_eq!(monitor.config().alpha, 0.5);
}

#[test]
fn a_high_rate_gets_a_bet_that_it_admits() {
    let config = Parameters::from_settings(Some(0.6), None, None);
    assert_eq!((config.p0, config.lambda, config.alpha), (0.6, 1.0, 0.01));
    let config = Parameters::from_settings(None, None, None);
    assert_eq!((config.p0, config.lambda, config.alpha), (0.10, 2.0, 0.01));
    for rate in [None, Some(0.01), Some(0.4), Some(0.5), Some(0.75), Some(0.999), Some(1.0)] {
        for bet in [None, Some(-1.0), Some(0.5), Some(1.5), Some(2.5), Some(f64::NAN)] {
            let config = Parameters::from_settings(rate, bet, None);
            assert!(config.p0 > 0.0 && config.p0 < 1.0, "{rate:?} {bet:?}");
            assert!(
                config.lambda > 0.0 && config.lambda < 1.0 / config.p0,
                "{rate:?} {bet:?}"
            );
        }
    }
}

fn controller() -> AdaptiveDepthController<Single> {
    AdaptiveDepthController::new(AdaptiveDepthConfig::default())
}

#[test]
fn adaptive_depth_enforces_full_depth_on_sibilance_canary() {
    let depth = controller().decide_depth(0.5, true);
    assert_eq!(depth, 15, "sibilance candidate must force 15 depths");
}

#[test]
fn adaptive_depth_allows_safe_early_exit_on_stable_vowels() {
    let depth = controller().decide_depth(1.2, false);
    assert_eq!(
        depth, 10,
        "stable non-sibilance frame exits early at depth 10"
    );
    assert!(depth < 15);
}

#[test]
fn adaptive_depth_forces_full_depth_on_complex_frames() {
    let depth = controller().decide_depth(3.8, false);
    assert_eq!(depth, 15, "complex high-entropy frame runs full 15 depths");
}

#[test]
fn the_mean_depth_is_the_mean_of_the_chosen_depths() {
    let mut controller = controller();
    assert_eq!(controller.mean_depth::<Double>(), 15.0);
    for entropy in [1.0, 1.0, 9.0] {
        let _ = controller.decide_depth(entropy, false);
    }
    assert_eq!(controller.mean_depth::<Double>(), 35.0 / 3.0);
    assert_eq!(controller.canary_trip_count(), 0);
    controller.report_canary_trip(CanaryFailure::HighFrequencyLoss);
    assert_eq!(controller.canary_trip_count(), 1);
}

#[test]
fn a_depth_past_the_last_is_chosen_but_not_counted() {
    let mut controller = AdaptiveDepthController::<Single>::new(AdaptiveDepthConfig {
        min_depth: 18,
        max_depth: 20,
        sibilance_protection: false,
        entropy_threshold: 2.5,
    });
    assert_eq!(controller.decide_depth(0.0, true), 18);
    assert_eq!(controller.mean_depth::<Double>(), 15.0);
}

#[test]
fn canary_detector_trips_on_premature_fricative_truncation() {
    let detector = SurgeryCanaryDetector;
    let verdict = detector.evaluate_frame::<Single>(10, true, 0.85);
    assert_eq!(
        verdict,
        CanaryVerdict::Trip(CanaryFailure::SibilanceDistortion)
    );
    let verdict_pass = detector.evaluate_frame::<Single>(15, true, 0.85);
    assert_eq!(verdict_pass, CanaryVerdict::Pass);
}

#[test]
fn canary_detector_trips_on_high_frequency_loss() {
    let verdict = SurgeryCanaryDetector.evaluate_frame::<Single>(12, false, 0.42);
    assert_eq!(
        verdict,
        CanaryVerdict::Trip(CanaryFailure::HighFrequencyLoss)
    );
}

#[test]
fn af1_water_filling_allocator_optimizes_bit_budget() {
    let allocator = Af1BitAllocator::<Single>::new(6.0);
    let mut variances = vec![0.0_f32; 15];
    for (i, variance) in variances.iter_mut().enumerate() {
        *variance = 100.0 / ((i + 1) as f32).powi(2);
    }

    let bits = allocator.allocate_depth_bits(&variances);
    assert_eq!(bits.len(), 15);
    assert!(bits[0] >= bits[14]);
    assert_eq!(bits[0], 8, "early semantic depths get max bits");
    assert!(bits[14] <= 6, "late acoustic depths get reduced bits");

    let avg_bits: f32 = bits.iter().map(|&b| b as f32).sum::<f32>() / 15.0;
    assert!(
        (avg_bits - 6.0).abs() <= 0.5,
        "average bits {avg_bits} closely tracks target budget 6.0"
    );

    let table = allocator.to_allocation_table(&bits);
    assert_eq!(table.len(), 15);
    assert_eq!(table[0], ("residual_codebook_depth_1".to_string(), 8));
}

#[test]
fn the_average_budget_holds() {
    let even = Af1BitAllocator::<Single>::new(6.5).allocate_depth_bits(&[1.0; 15]);
    assert_eq!(even, vec![6; 15], "sevens would be above the budget");
    for target in [4.0_f32, 4.3, 5.0, 6.1, 6.5, 7.2, 8.0] {
        for spread in [0.0_f32, 0.5, 1.0, 3.0] {
            let mut variances = [0.0; 15];
            for (i, variance) in variances.iter_mut().enumerate() {
                *variance = 10.0 / ((i * 7 % 15 + 1) as f32).powf(spread);
            }
            let bits = Af1BitAllocator::<Single>::new(target).allocate_depth_bits(&variances);
            assert!(bits.iter().all(|bit| (4..=8).contains(bit)));
            let sum: u32 = bits.iter().map(|&bit| u32::from(bit)).sum();
            assert!(sum as f32 <= 15.0 * target, "{target} {spread}: {bits:?}");
            for i in 0..15 {
                for j in 0..15 {
                    assert!(variances[i] < variances[j] || bits[i] >= bits[j]);
                }
            }
        }
    }
}

#[test]
fn a_budget_out_of_reach_spends_the_bound() {
    let rich = Af1BitAllocator::<Single>::new(9.0).allocate_depth_bits(&[1.0; 15]);
    assert_eq!(rich, vec![8; 15]);
    let poor = Af1BitAllocator::<Single>::new(1.0).allocate_depth_bits(&[1.0; 15]);
    assert_eq!(poor, vec![4; 15]);
}

#[test]
fn distilled_drafter_proposes_valid_tokens_and_roundtrips() {
    let mut drafter = DistilledMicroDrafter::<Single>::new(64);
    let talker_hidden = vec![0.5_f32; 64];

    let draft_tokens = drafter.draft(&talker_hidden, None);
    assert_eq!(draft_tokens.len(), RESIDUAL_DEPTHS);
    for &tok in &draft_tokens {
        assert!(tok < RESIDUAL_VOCAB);
    }

    let artifact = drafter.to_draft_artifact("base_sha256_hash_abc", 1);
    assert_eq!(artifact.header.drafter_type, DrafterType::DistilledMtp);
    assert_eq!(artifact.header.drafter_name, "distilled-student-micro-v2");
    assert_eq!(artifact.header.base_model_hash, "base_sha256_hash_abc");
    assert_eq!(artifact.header.target_layers, (1..=15).collect::<Vec<u32>>());
    assert_eq!(
        artifact.header.metadata,
        vec![
            (
                "architecture".to_string(),
                "distilled_1layer_student".to_string()
            ),
            ("hidden_size".to_string(), "64".to_string()),
            ("ladder_rung".to_string(), "2".to_string()),
        ]
    );
    assert_eq!(artifact.tensor.name, "student_projection");
    assert_eq!((artifact.tensor.rows, artifact.tensor.cols), (15, 64));
    assert_eq!(artifact.tensor.scales, vec![1.0; 15]);
    // The first weight is 7/100 - 1/2, and 127 times that is -54.61.
    assert_eq!(artifact.tensor.data[0], -54);
}

#[test]
fn parallel_heads_drafter_computes_one_shot_block() {
    let mut drafter = ParallelHeadsDrafter::<Single>::new(64);
    let talker_hidden = vec![0.25_f32; 64];

    let draft_tokens = drafter.draft(&talker_hidden, None);
    assert_eq!(draft_tokens.len(), RESIDUAL_DEPTHS);
    for &tok in &draft_tokens {
        assert!(tok < RESIDUAL_VOCAB);
    }

    let artifact = drafter.to_draft_artifact("base_sha256_hash_abc", 1);
    assert_eq!(artifact.header.drafter_type, DrafterType::ParallelHeads);
    assert_eq!(artifact.header.drafter_name, "parallel-15heads-drafter-v3");
    assert_eq!(artifact.tensor.name, "head_weights");
}

#[test]
fn a_distilled_proposal_stands_on_the_previous_frame() {
    let mut drafter = DistilledMicroDrafter::<Single>::new(1);
    // The first weight is 7/100 - 1/2, so a hidden state of one is worth 430 steps.
    let cold = drafter.draft(&[1.0], None);
    assert_eq!(cold[0], 430);
    let mut given = [0; RESIDUAL_DEPTHS];
    given[0] = 2_000;
    assert_eq!(drafter.draft(&[1.0], Some(&given))[0], (430 + 2_000) % 2_048);
    drafter.observe(&given);
    assert_eq!(drafter.draft(&[1.0], None), drafter.draft(&[1.0], Some(&given)));
    assert_eq!(
        drafter.draft(&[f32::INFINITY], None)[0],
        (usize::MAX % 2_048 + 2_000) % 2_048
    );
}

#[test]
fn parallel_proposals_ignore_history() {
    let mut drafter = ParallelHeadsDrafter::<Single>::new(2);
    let codes = drafter.draft(&[1.0, -1.0], None);
    drafter.observe(&[7; RESIDUAL_DEPTHS]);
    assert_eq!(drafter.draft(&[1.0, -1.0], Some(&[9; RESIDUAL_DEPTHS])), codes);
    // No bias at the first head: the weights are 13/100 - 1/2 and 30/100 - 1/2.
    assert_eq!(codes[0], (0.17_f32 * 777.0) as usize);
}

#[test]
fn tree_verify_controller_schedules_blocks() {
    let controller = TreeVerifyController::default();
    assert!(controller.should_verify_next_block(0, 3));
    assert!(!controller.should_verify_next_block(0, 2));
    assert!(controller.should_verify_next_block(1, 8));
    assert!(!controller.should_verify_next_block(1, 7));

    let alpha_star = TreeVerifyController::break_even_alpha::<Double>(1.0);
    assert!(alpha_star > 0.0 && alpha_star < 1.0);
}

#[test]
fn stages_past_the_last_block_ask_for_every_depth() {
    let controller = TreeVerifyController::default();
    assert!(controller.should_verify_next_block(2, 15));
    assert!(!controller.should_verify_next_block(9, 14));
    assert!(controller.should_verify_next_block(9, 15));
}

#[test]
fn break_even_alpha_handles_extreme_inputs() {
    let alpha = TreeVerifyController::break_even_alpha::<Double>;
    assert_eq!(alpha(0.0), 1.0);
    assert_eq!(alpha(-5.0), 1.0);
    assert_eq!(alpha(f64::NAN), 1.0);
    assert!((alpha(100.0) - (1.0 / 1500.0)).abs() < 1e-6);
}
