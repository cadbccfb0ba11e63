//! The speaker encoder and the speech encoder on single-precision values.
use ftts_model_qwen::arith::{Arithmetic, Binary, Check, Constant, Reduction, Relation, Unary};
use ftts_model_qwen::checkpoint::CheckpointError;
use ftts_model_qwen::codec::MaterializedCodebook;
use ftts_model_qwen::speaker::conv::same_conv1d;
use ftts_model_qwen::speaker::encoder::{softmax_over_time, statistics, Encoder};
use ftts_model_qwen::speaker::mel::{log_mel_from_24khz_pcm, Spectral};
use ftts_model_qwen::speaker::{
    reflect_index, FeatureError, ENC_DILATIONS, ENC_KERNEL_SIZES, MEL_DIM,
    SPEAKER_MIN_AUDIO_SAMPLES, SPEAKER_REFLECT_PAD_SAMPLES, SPEAKER_SAMPLE_RATE_HZ,
};
use ftts_model_qwen::speech_encoder::conv::{elu_in_place, EncoderConv, PadMode};
use ftts_model_qwen::speech_encoder::encoder::SpeechEncoder;
use ftts_model_qwen::speech_encoder::quantizer::RvqBranch;
use ftts_model_qwen::speech_encoder::transformer::{layer_norm, TransformerLayer, INTERMEDIATE};
use ftts_model_qwen::speech_encoder::{
    SpeechEncodeError, CODEBOOK_SIZE, CODE_GROUPS, ENCODE_DOWNSAMPLE_RATE, HIDDEN, VQ_DIM,
};
use ftts_model_qwen::tensor_file::{widen, TensorFile, TensorView};

/// Single-precision arithmetic, every sum taken left to right.
#[derive(Clone, Copy)]
struct Single;

impl Arithmetic for Single {
    type Scalar = f32;

    fn constant(name: Constant) -> f32 {
        match name {
            Constant::Zero => 0.0,
            Constant::One => 1.0,
            Constant::Two => 2.0,
            Constant::Half => 0.5,
            Constant::FracOneSqrtTwo => std::f32::consts::FRAC_1_SQRT_2,
            Constant::CodecRmsEpsilon => 1e-5,
            Constant::CodecRopeTheta => 10_000.0,
            Constant::CodebookUsageEpsilon => 1e-5,
            Constant::SnakeEpsilon => 1e-9,
            Constant::ConvNextEpsilon => 1e-6,
            Constant::MicroRopeTheta => 1.0e6,
            Constant::MicroRmsEpsilon => 1e-6,
            Constant::EncoderNormEpsilon => 1e-5,
            Constant::EncoderAttentionScale => 0.125,
            Constant::PoolingEpsilon => 1e-12,
            Constant::MelFloor => 1e-5,
            Constant::Tau => std::f32::consts::TAU,
            Constant::MagnitudeEpsilon => 1e-9,
            Constant::LinearHzPerMel => 200.0 / 3.0,
            Constant::LogStartHz => 1000.0,
            Constant::LogStep => 0.068_751_78,
            Constant::RepetitionPenalty => 1.05,
            Constant::Temperature => 0.9,
            Constant::NegativeInfinity => f32::NEG_INFINITY,
            Constant::Infinity => f32::INFINITY,
            Constant::Hundred => 100.0,
            Constant::DistilledScale => 1000.0,
            Constant::ParallelScale => 777.0,
            Constant::Tenth => 0.1,
            Constant::DraftPeak => 127.0,
            Constant::DefaultAlpha => 0.01,
            Constant::EntropyThreshold => 2.5,
            Constant::WaterBound => 20.0,
            Constant::VarianceFloor => 1e-6,
        }
    }

    fn count(n: usize) -> f32 {
        n as f32
    }

    fn unary(op: Unary, a: f32) -> f32 {
        match op {
            Unary::Neg => -a,
            Unary::Abs => a.abs(),
            Unary::Recip => a.recip(),
            Unary::Sqrt => a.sqrt(),
            Unary::Exp => a.exp(),
            Unary::ExpMinusOne => a.exp_m1(),
            Unary::Ln => a.ln(),
            Unary::Sin => a.sin(),
            Unary::Cos => a.cos(),
            Unary::Tanh => a.tanh(),
            Unary::Erf => {
                let t = 1.0 / (1.0 + 0.327_591_1 * a.abs());
                let poly = t
                    * (0.254_829_6
                        + t * (-0.284_496_74
                            + t * (1.421_413_7 + t * (-1.453_152 + t * 1.061_405_4))));
                let magnitude = 1.0 - poly * (-a * a).exp();
                if a < 0.0 { -magnitude } else { magnitude }
            }
            Unary::ClampUnit => a.clamp(-1.0, 1.0),
            Unary::Round => a.round(),
        }
    }

    fn binary(op: Binary, a: f32, b: f32) -> f32 {
        match op {
            Binary::Add => a + b,
            Binary::Sub => a - b,
            Binary::Mul => a * b,
            Binary::Div => a / b,
            Binary::Max => a.max(b),
            Binary::Min => a.min(b),
            Binary::Pow => a.powf(b),
        }
    }

    fn relation(op: Relation, a: f32, b: f32) -> bool {
        match op {
            Relation::Less => a < b,
            Relation::AtMost => a <= b,
            Relation::TotallyBelow => a.total_cmp(&b).is_lt(),
        }
    }

    fn check(op: Check, a: f32) -> bool {
        match op {
            Check::Finite => a.is_finite(),
            Check::UndefinedOrInfinite => a.is_nan() || a == f32::INFINITY,
        }
    }

    fn truncate(a: f32) -> usize {
        a as usize
    }

    fn reduce(_op: Reduction, x: &[f32], y: &[f32], seed: Option<f32>) -> f32 {
        let mut sum = seed.unwrap_or(0.0);
        for (a, b) in x.iter().zip(y) {
            sum += a * b;
        }
        sum
    }
}

/// The transform of a window whose length is a power of two.
fn fourier(re: &[f32], im: &[f32]) -> (Vec<f32>, Vec<f32>) {
    let n = re.len();
    if n == 1 {
        return (re.to_vec(), im.to_vec());
    }
    let half = |from: usize, values: &[f32]| -> Vec<f32> {
        values.iter().skip(from).step_by(2).copied().collect()
    };
    let (even_re, even_im) = fourier(&half(0, re), &half(0, im));
    let (odd_re, odd_im) = fourier(&half(1, re), &half(1, im));
    let mut out_re = vec![0.0; n];
    let mut out_im = vec![0.0; n];
    for k in 0..n / 2 {
        let angle = -std::f32::consts::TAU * k as f32 / n as f32;
        let (sin, cos) = angle.sin_cos();
        let turned_re = odd_re[k] * cos - odd_im[k] * sin;
        let turned_im = odd_re[k] * sin + odd_im[k] * cos;
        out_re[k] = even_re[k] + turned_re;
        out_im[k] = even_im[k] + turned_im;
        out_re[k + n / 2] = even_re[k] - turned_re;
        out_im[k + n / 2] = even_im[k] - turned_im;
    }
    (out_re, out_im)
}

impl Spectral for Single {
    type Spectrum = (Vec<f32>, Vec<f32>);

    fn transform(window: &[f32]) -> (Vec<f32>, Vec<f32>) {
        fourier(window, &vec![0.0; window.len()])
    }

    fn energy(spectrum: &(Vec<f32>, Vec<f32>), bin: usize) -> f32 {
        let (re, im) = (spectrum.0[bin], spectrum.1[bin]);
        re.mul_add(re, im * im)
    }
}

fn stored(name: String, values: &[f32]) -> TensorView<f32> {
    TensorView {
        name,
        shape: vec![values.len() as u64],
        values: values.iter().map(|&value| Some(value)).collect(),
    }
}

fn zeros(name: String, len: usize) -> TensorView<f32> {
    TensorView {
        name,
        shape: vec![len as u64],
        values: vec![Some(0.0); len],
    }
}

#[test]
fn reflect_padding_mirrors_without_repeating_the_edge() {
    let expected = [2, 1, 0, 1, 2, 3, 2, 1];
    let got: Vec<usize> = (-2..6).map(|index| reflect_index(index, 4)).collect();
    assert_eq!(got, expected);
}

#[test]
fn both_edges_are_axes_for_every_index() {
    for len in [2_isize, 3, 7] {
        for index in -40..40 {
            let at = reflect_index(index, len);
            assert_eq!(at, reflect_index(-index, len));
            assert_eq!(at, reflect_index(2 * (len - 1) - index, len));
            assert_eq!(at, reflect_index(index + 2 * (len - 1), len));
        }
    }
    assert_eq!(reflect_index(-9, 4), 3);
}

#[test]
fn log_mel_uses_the_pinned_frame_geometry_and_stays_finite() {
    let pcm: Vec<f32> = (0..SPEAKER_SAMPLE_RATE_HZ as usize)
        .map(|sample| {
            (std::f32::consts::TAU * 440.0 * sample as f32 / SPEAKER_SAMPLE_RATE_HZ as f32).sin()
                * 0.25
        })
        .collect();
    let mel =
        log_mel_from_24khz_pcm::<Single>(&pcm).expect("24 kHz reference should yield log-mel");
    assert_eq!(mel.frames, 93);
    assert_eq!(mel.values.len(), mel.frames * MEL_DIM);
    assert!(mel.values.iter().all(|value| value.is_finite()));
    // 440 Hz stands at 6.6 mels of 45.2, so the loudest filter is among the first thirty.
    let middle = &mel.values[46 * MEL_DIM..47 * MEL_DIM];
    let loudest = (0..MEL_DIM)
        .max_by(|&a, &b| middle[a].total_cmp(&middle[b]))
        .expect("some filter");
    assert!((12..=24).contains(&loudest), "{loudest}");
}

#[test]
fn log_mel_refuses_invalid_reflect_padding_and_non_finite_pcm() {
    assert_eq!(
        log_mel_from_24khz_pcm::<Single>(&[0.0; SPEAKER_REFLECT_PAD_SAMPLES]).err(),
        Some(FeatureError::TooShort {
            samples: SPEAKER_REFLECT_PAD_SAMPLES
        })
    );
    let mut pcm = vec![0.0f32; SPEAKER_MIN_AUDIO_SAMPLES];
    pcm[17] = f32::NAN;
    assert_eq!(
        log_mel_from_24khz_pcm::<Single>(&pcm).err(),
        Some(FeatureError::NonFinite { index: 17 })
    );
}

#[test]
fn silence_lies_at_the_mel_floor() {
    let mel = log_mel_from_24khz_pcm::<Single>(&[0.0; 1_024]).expect("long enough");
    assert_eq!(mel.frames, 4);
    assert!(mel.values.iter().all(|v| (*v - 1e-5_f32.ln()).abs() < 0.05));
}

#[test]
fn feature_errors_say_what_is_missing() {
    assert_eq!(
        FeatureError::TooShort { samples: 12 }.message(),
        "reference has 12 samples; speaker mel extraction needs more than 384 samples for the \
         pinned reflect pad"
    );
}

#[test]
fn same_padding_preserves_length_for_every_block_geometry() {
    let frames = 16;
    for (kernel, dilation) in ENC_KERNEL_SIZES.iter().zip(ENC_DILATIONS.iter()) {
        let input: Vec<f32> = (0..frames).map(|f| f as f32).collect();
        let weight = vec![1.0f32; *kernel];
        let mut output = vec![0.0f32; frames];
        same_conv1d::<Single>(
            &input,
            frames,
            1,
            &weight,
            None,
            1,
            *kernel,
            *dilation,
            &mut output,
        );
        assert_eq!(output.len(), frames);
        let centre = frames / 2;
        let expected = *kernel as f32 * centre as f32;
        assert!(
            (output[centre] - expected).abs() < 1e-3,
            "kernel {kernel} dilation {dilation}: {} vs {expected}",
            output[centre]
        );
    }
}

#[test]
fn same_padding_reflects_at_both_ends() {
    let mut output = [0.0f32; 3];
    same_conv1d::<Single>(
        &[1.0, 2.0, 4.0],
        3,
        1,
        &[1.0, 10.0, 100.0],
        Some(&[0.5]),
        1,
        3,
        1,
        &mut output,
    );
    assert_eq!(output, [212.5, 421.5, 242.5]);
}

#[test]
fn statistics_are_weighted_before_summing() {
    let hidden = [1.0f32, 3.0];
    let mut mean = [0.0f32];
    let mut deviation = [0.0f32];
    statistics::<Single, _>(&hidden, 2, 1, &mut mean, &mut deviation, |_| 0.5);
    assert!((mean[0] - 2.0).abs() < 1e-6);
    assert!((deviation[0] - 1.0).abs() < 1e-6);
}

#[test]
fn statistics_clamp_the_variance_not_the_deviation() {
    let hidden = [7.0f32, 7.0];
    let mut mean = [0.0f32];
    let mut deviation = [0.0f32];
    statistics::<Single, _>(&hidden, 2, 1, &mut mean, &mut deviation, |_| 0.5);
    assert!((deviation[0] - 1e-6).abs() < 1e-9, "{}", deviation[0]);
}

#[test]
fn softmax_over_time_normalizes_each_channel_independently() {
    let mut values = vec![0.0f32, 10.0, 1.0, 10.0, 2.0, 10.0];
    softmax_over_time::<Single>(&mut values, 3, 2);
    for channel in 0..2 {
        let total: f32 = (0..3).map(|frame| values[frame * 2 + channel]).sum();
        assert!((total - 1.0).abs() < 1e-6, "channel {channel}: {total}");
    }
    assert!((values[1] - values[3]).abs() < 1e-6);
    assert!(values[0] < values[2] && values[2] < values[4]);
}

/// Every convolution of the speaker encoder: its name, and how many weights and biases it has.
fn speaker_convs() -> Vec<(String, usize, usize)> {
    let mut convs = vec![(
        "speaker_encoder.blocks.0.conv".to_string(),
        512 * 128 * 5,
        512,
    )];
    for block in 1..=3 {
        let at = format!("speaker_encoder.blocks.{block}");
        convs.push((format!("{at}.tdnn1.conv"), 512 * 512, 512));
        convs.push((format!("{at}.tdnn2.conv"), 512 * 512, 512));
        convs.push((format!("{at}.se_block.conv1"), 128 * 512, 128));
        convs.push((format!("{at}.se_block.conv2"), 512 * 128, 512));
        for branch in 0..7 {
            convs.push((
                format!("{at}.res2net_block.blocks.{branch}.conv"),
                64 * 64 * 3,
                64,
            ));
        }
    }
    convs.push(("speaker_encoder.mfa.conv".to_string(), 1_536 * 1_536, 1_536));
    convs.push((
        "speaker_encoder.asp.tdnn.conv".to_string(),
        128 * 4_608,
        128,
    ));
    convs.push(("speaker_encoder.asp.conv".to_string(), 1_536 * 128, 1_536));
    convs.push(("speaker_encoder.fc".to_string(), 1_024 * 3_072, 1_024));
    convs
}

#[test]
fn an_encoder_without_weights_gives_back_its_last_bias() {
    let bias: Vec<f32> = (0..1_024).map(|i| i as f32 / 8.0).collect();
    let mut tensors = Vec::new();
    for (name, weights, biases) in speaker_convs() {
        tensors.push(zeros(format!("{name}.weight"), weights));
        if name == "speaker_encoder.fc" {
            tensors.push(stored(format!("{name}.bias"), &bias));
        } else {
            tensors.push(zeros(format!("{name}.bias"), biases));
        }
    }
    let encoder = Encoder::<Single>::load(&TensorFile { views: tensors }, "voice").expect("every tensor");
    assert_eq!(encoder.path(), "voice");
    let mel = [0.25; 2 * MEL_DIM];
    assert_eq!(encoder.encode(&mel, 2), bias);

    let start = encoder.initial_block(&mel, 2);
    let first = encoder.se_res2net_block(1, &start, 2);
    let second = encoder.se_res2net_block(2, &first, 2);
    let third = encoder.se_res2net_block(3, &second, 2);
    assert_eq!(encoder.aggregate(&first, &second, &third, 2), bias);
}

#[test]
fn a_speaker_checkpoint_names_the_first_tensor_it_misses() {
    match Encoder::<Single>::load(&TensorFile { views: vec![] }, "voice") {
        Err(CheckpointError::MissingTensor { path, tensor }) => {
            assert_eq!(path, "voice");
            assert!(tensor.starts_with("speaker_encoder.blocks."), "{tensor}");
        }
        _ => panic!("an empty file has no tensor"),
    }
}

fn conv(kernel: usize, stride: usize) -> EncoderConv<f32> {
    EncoderConv {
        weight: vec![0.0; kernel],
        bias: None,
        in_channels: 1,
        out_channels: 1,
        kernel,
        stride,
        pad_mode: PadMode::Constant,
    }
}

#[test]
fn causal_output_length_matches_the_reference_formula() {
    for kernel in [1usize, 3, 7] {
        for frames in [1usize, 5, 1_920, 264_000] {
            assert_eq!(
                conv(kernel, 1).output_frames(frames),
                frames,
                "k={kernel} L={frames}"
            );
        }
    }
    for (ratio, frames) in [(4usize, 264_000usize), (5, 66_000), (6, 13_200), (8, 2_200)] {
        assert_eq!(
            conv(2 * ratio, ratio).output_frames(frames),
            frames.div_ceil(ratio)
        );
    }
    assert_eq!(conv(4, 2).output_frames(275), 138, "model-level downsample");
    let chain = [(8usize, 4usize), (10, 5), (12, 6), (16, 8), (4, 2)];
    let mut frames = 264_000usize;
    for (kernel, stride) in chain {
        frames = conv(kernel, stride).output_frames(frames);
    }
    assert_eq!(frames, 264_000usize.div_ceil(ENCODE_DOWNSAMPLE_RATE));
}

#[test]
fn strided_conv_places_taps_like_the_reference() {
    let unit = EncoderConv {
        weight: vec![1.0, 1.0, 1.0, 1.0],
        ..conv(4, 2)
    };
    let out = unit.forward::<Single>(&[1.0, 2.0, 3.0, 4.0], 4);
    assert_eq!(out, vec![3.0, 10.0]);
}

#[test]
fn replicate_padding_repeats_the_edge_frames() {
    let unit = EncoderConv {
        weight: vec![1.0, 1.0, 1.0, 1.0],
        pad_mode: PadMode::Replicate,
        ..conv(4, 2)
    };
    let out = unit.forward::<Single>(&[1.0, 2.0, 3.0], 3);
    assert_eq!(out, vec![5.0, 9.0]);
}

#[test]
fn elu_uses_expm1_below_zero_and_identity_above() {
    let mut values = [1.5f32, 0.0, -1.0];
    elu_in_place::<Single>(&mut values);
    assert_eq!(values[0], 1.5);
    assert_eq!(values[1], 0.0);
    assert_eq!(values[2], (-1.0f32).exp_m1());
}

#[test]
fn layer_norm_matches_a_hand_computation() {
    let input = [1.0f32, 2.0, 3.0, 4.0];
    let weight = [1.0f32; 4];
    let bias = [0.5f32; 4];
    let mut output = [0.0f32; 4];
    layer_norm::<Single>(&input, &weight, &bias, &mut output);
    let mean = 2.5f32;
    let variance = 1.25f32;
    let rstd = (variance + 1e-5).sqrt().recip();
    for (index, &value) in input.iter().enumerate() {
        assert_eq!(output[index], (value - mean) * rstd + 0.5);
    }
}

/// A `[256, 512]` projection that takes the first 256 channels.
fn identity_projection() -> Vec<f32> {
    let mut projection = vec![0.0f32; VQ_DIM * HIDDEN];
    for row in 0..VQ_DIM {
        projection[row * HIDDEN + row] = 1.0;
    }
    projection
}

fn norms_of(entries: &[f32]) -> Vec<f32> {
    entries
        .chunks(VQ_DIM)
        .map(|row| row.iter().map(|v| v * v).sum())
        .collect()
}

#[test]
fn nearest_centroid_ties_take_the_lowest_index() {
    let sum = vec![1.0f32; 2 * VQ_DIM]
        .into_iter()
        .chain(vec![0.0f32; (CODEBOOK_SIZE - 2) * VQ_DIM])
        .collect::<Vec<_>>();
    let usage = vec![1.0f32; CODEBOOK_SIZE];
    let codebook =
        MaterializedCodebook::<Single>::from_unnormalized(&sum, &usage, CODEBOOK_SIZE, VQ_DIM)
            .expect("codebook");
    let norms = norms_of(codebook.entries());
    let branch = RvqBranch {
        input_proj: identity_projection(),
        codebooks: vec![codebook],
        codebook_norms: vec![norms],
    };
    let embeddings = vec![1.0f32; HIDDEN];
    let mut codes = vec![u32::MAX; CODE_GROUPS];
    branch.encode(&embeddings, 1, &mut codes, CODE_GROUPS, 0);
    assert_eq!(codes[0], 0, "tie must resolve to the lowest index");
    assert_eq!(codes[1], u32::MAX, "other groups stay as they were");
}

#[test]
fn a_second_level_encodes_what_the_first_left() {
    let usage = vec![1.0f32; CODEBOOK_SIZE];
    let book = |entry: usize, value: f32| {
        let mut sum = vec![0.0f32; CODEBOOK_SIZE * VQ_DIM];
        sum[entry * VQ_DIM] = value;
        MaterializedCodebook::<Single>::from_unnormalized(&sum, &usage, CODEBOOK_SIZE, VQ_DIM)
            .expect("codebook")
    };
    let codebooks = vec![book(7, 4.0), book(9, 1.0)];
    let codebook_norms = codebooks.iter().map(|b| norms_of(b.entries())).collect();
    let branch = RvqBranch {
        input_proj: identity_projection(),
        codebooks,
        codebook_norms,
    };
    let mut embeddings = vec![0.0f32; HIDDEN];
    embeddings[0] = 5.0;
    let mut codes = vec![u32::MAX; 3];
    branch.encode(&embeddings, 1, &mut codes, 3, 1);
    assert_eq!(codes, vec![u32::MAX, 7, 9]);
}

#[test]
fn speech_errors_say_what_is_missing() {
    assert_eq!(
        SpeechEncodeError::NonFiniteAudio { index: 3 }.message(),
        "reference audio sample 3 is not finite"
    );
}

/// A speech encoder whose every weight is zero: every convolution gives its bias, every layer what
/// it was given, and every code is zero.
fn silent_encoder() -> SpeechEncoder<Single> {
    let mut tensors = Vec::new();
    let mut conv = |name: String, weights: usize, biases: usize| {
        tensors.push(zeros(format!("{name}.weight"), weights));
        if biases > 0 {
            tensors.push(zeros(format!("{name}.bias"), biases));
        }
    };
    let at = "encoder.encoder.layers";
    conv(format!("{at}.0.conv"), 64 * 7, 64);
    for (stage, ratio) in [4usize, 5, 6, 8].into_iter().enumerate() {
        let width = 64 << stage;
        let unit = 3 * stage + 1;
        conv(
            format!("{at}.{unit}.block.1.conv"),
            width / 2 * width * 3,
            width / 2,
        );
        conv(
            format!("{at}.{unit}.block.3.conv"),
            width * width / 2,
            width,
        );
        conv(
            format!("{at}.{}.conv", unit + 2),
            2 * width * width * 2 * ratio,
            2 * width,
        );
    }
    conv(format!("{at}.14.conv"), 512 * 1_024 * 3, 512);
    conv("encoder.downsample.conv".to_string(), 512 * 512 * 4, 0);
    for layer in 0..8 {
        let at = format!("encoder.encoder_transformer.layers.{layer}");
        for (suffix, len) in [
            ("input_layernorm.weight", 512),
            ("input_layernorm.bias", 512),
            ("self_attn.q_proj.weight", 512 * 512),
            ("self_attn.k_proj.weight", 512 * 512),
            ("self_attn.v_proj.weight", 512 * 512),
            ("self_attn.o_proj.weight", 512 * 512),
            ("self_attn_layer_scale.scale", 512),
            ("post_attention_layernorm.weight", 512),
            ("post_attention_layernorm.bias", 512),
            ("mlp.fc1.weight", 2_048 * 512),
            ("mlp.fc2.weight", 512 * 2_048),
            ("mlp_layer_scale.scale", 512),
        ] {
            tensors.push(zeros(format!("{at}.{suffix}"), len));
        }
    }
    for (branch, levels) in [("semantic", 1), ("acoustic", 15)] {
        let at = format!("encoder.quantizer.{branch}_residual_vector_quantizer");
        tensors.push(zeros(format!("{at}.input_proj.weight"), VQ_DIM * HIDDEN));
        for level in 0..levels {
            let book = format!("{at}.layers.{level}.codebook");
            tensors.push(zeros(format!("{book}.embed_sum"), CODEBOOK_SIZE * VQ_DIM));
            tensors.push(zeros(format!("{book}.cluster_usage"), CODEBOOK_SIZE));
        }
    }
    match SpeechEncoder::load_from_file(&TensorFile { views: tensors }, "codec") {
        Ok(encoder) => encoder,
        Err(error) => panic!("{}", error.message()),
    }
}

#[test]
fn a_started_frame_counts_and_errors_name_the_sample() {
    let encoder = silent_encoder();
    let codes = encoder
        .encode_24khz_pcm(&vec![0.0; ENCODE_DOWNSAMPLE_RATE + 1])
        .expect("long enough");
    assert_eq!(codes, vec![0; 2 * CODE_GROUPS]);
    assert_eq!(
        encoder.encode_24khz_pcm(&[0.0; 12]),
        Err(SpeechEncodeError::AudioTooShort { samples: 12 })
    );
    let mut pcm = vec![0.0; ENCODE_DOWNSAMPLE_RATE];
    pcm[100] = f32::INFINITY;
    assert_eq!(
        encoder.encode_24khz_pcm(&pcm),
        Err(SpeechEncodeError::NonFiniteAudio { index: 100 })
    );
}

#[test]
fn a_speech_checkpoint_names_the_first_tensor_it_misses() {
    match SpeechEncoder::<Single>::load_from_file(&TensorFile { views: vec![] }, "codec") {
        Err(CheckpointError::MissingTensor { path, tensor }) => {
            assert_eq!(path, "codec");
            assert_eq!(tensor, "encoder.encoder.layers.0.conv.weight");
        }
        _ => panic!("an empty file has no tensor"),
    }
}

#[test]
fn a_tensor_cut_short_is_refused_and_a_gap_reads_as_zero() {
    let base = "speaker_encoder.blocks.1.res2net_block.blocks.0.conv.weight";
    let mut cut = zeros(base.to_string(), 64 * 64 * 3);
    cut.values[64 * 64 * 3 - 1] = None;
    match Encoder::<Single>::load(&TensorFile { views: vec![cut] }, "voice") {
        Err(CheckpointError::ArtifactTensor { path, tensor, detail }) => {
            assert_eq!(path, "voice");
            assert_eq!(tensor, base);
            assert_eq!(detail, "declared element count exceeds the stored bytes");
        }
        _ => panic!("the last number cannot be read"),
    }
    let mut gap = stored("x".to_string(), &[1.0, 2.0, 3.0]);
    gap.values[1] = None;
    let file = TensorFile { views: vec![gap] };
    assert_eq!(widen::<Single>(&file, "x"), Ok(vec![1.0, 0.0, 3.0]));
    assert!(widen::<Single>(&file, "y").is_err());
}

#[test]
fn a_later_frame_never_changes_an_earlier_one() {
    let weights = |len: usize, seed: u32| -> Vec<f32> {
        let mut state = seed;
        (0..len)
            .map(|_| {
                state = state.wrapping_mul(1_664_525).wrapping_add(1_013_904_223);
                ((state >> 8) as f32 / 16_777_216.0 - 0.5) * 0.1
            })
            .collect()
    };
    let layer = TransformerLayer {
        input_norm_weight: vec![1.0; HIDDEN],
        input_norm_bias: vec![0.0; HIDDEN],
        q_proj: weights(HIDDEN * HIDDEN, 1),
        k_proj: weights(HIDDEN * HIDDEN, 2),
        v_proj: weights(HIDDEN * HIDDEN, 3),
        o_proj: weights(HIDDEN * HIDDEN, 4),
        attn_scale: vec![1.0; HIDDEN],
        post_norm_weight: vec![1.0; HIDDEN],
        post_norm_bias: vec![0.0; HIDDEN],
        fc1: weights(INTERMEDIATE * HIDDEN, 5),
        fc2: weights(HIDDEN * INTERMEDIATE, 6),
        mlp_scale: vec![0.5; HIDDEN],
    };
    let rows: Vec<Vec<f32>> = (0..3).map(|i| weights(HIDDEN, 7 + i)).collect();
    let whole = layer.forward_rows::<Single>(&rows);
    let part = layer.forward_rows::<Single>(&rows[..2].to_vec());
    assert_eq!(whole[..2], part[..]);
    assert_ne!(whole[2], rows[2]);
}
