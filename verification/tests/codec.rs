//! The codec decoder on single-precision values.
use ftts_model_qwen::arith::{Arithmetic, Binary, Check, Constant, Reduction, Relation, Unary};
use ftts_model_qwen::codec::{
    causal_conv1d, causal_transpose_conv1d, codec_rope_rows, decode_codec_offline,
    forward_codec_pre_transformer, forward_codec_transformer_step,
    require_i32_safe_u8s8_reduction, snake_beta_in_place, CausalConvStream, CausalConvWeights,
    CausalTransposeConvStream, CausalTransposeConvWeights, CodecConfig, CodecConvNextWeights,
    CodecDecoderBlockWeights, CodecDecoderWeights, CodecError, CodecKvCache,
    CodecPreTransformerWeights, CodecResidualUnitWeights, CodecStreamingState,
    CodecTransformerLayerWeights, CodecUpsampleStageWeights, MaterializedCodebook,
    SplitResidualVectorQuantizer, CODEC_MAX_INT8_REDUCTION_K, CODEC_MAX_U8S8_ACCUMULATOR,
};

/// Single-precision arithmetic, every sum taken left to right.
#[derive(Clone, Copy)]
struct Single;

impl Arithmetic for Single {
    type Scalar = f32;

    fn constant(name: Constant) -> f32 {
        match name {
            Constant::Zero => 0.0,
            Constant::One => 1.0,
            Constant::Two => 2.0,
            Constant::Half => 0.5,
            Constant::FracOneSqrtTwo => std::f32::consts::FRAC_1_SQRT_2,
            Constant::CodecRmsEpsilon => 1e-5,
            Constant::CodecRopeTheta => 10_000.0,
            Constant::CodebookUsageEpsilon => 1e-5,
            Constant::SnakeEpsilon => 1e-9,
            Constant::ConvNextEpsilon => 1e-6,
            Constant::MicroRopeTheta => 1.0e6,
            Constant::MicroRmsEpsilon => 1e-6,
            Constant::EncoderNormEpsilon => 1e-5,
            Constant::EncoderAttentionScale => 0.125,
            Constant::PoolingEpsilon => 1e-12,
            Constant::MelFloor => 1e-5,
            Constant::Tau => std::f32::consts::TAU,
            Constant::MagnitudeEpsilon => 1e-9,
            Constant::LinearHzPerMel => 200.0 / 3.0,
            Constant::LogStartHz => 1000.0,
            Constant::LogStep => 0.068_751_78,
            Constant::RepetitionPenalty => 1.05,
            Constant::Temperature => 0.9,
            Constant::NegativeInfinity => f32::NEG_INFINITY,
            Constant::Infinity => f32::INFINITY,
            Constant::Hundred => 100.0,
            Constant::DistilledScale => 1000.0,
            Constant::ParallelScale => 777.0,
            Constant::Tenth => 0.1,
            Constant::DraftPeak => 127.0,
            Constant::DefaultAlpha => 0.01,
            Constant::EntropyThreshold => 2.5,
            Constant::WaterBound => 20.0,
            Constant::VarianceFloor => 1e-6,
        }
    }

    fn count(n: usize) -> f32 {
        n as f32
    }

    fn unary(op: Unary, a: f32) -> f32 {
        match op {
            Unary::Neg => -a,
            Unary::Abs => a.abs(),
            Unary::Recip => a.recip(),
            Unary::Sqrt => a.sqrt(),
            Unary::Exp => a.exp(),
            Unary::ExpMinusOne => a.exp_m1(),
            Unary::Ln => a.ln(),
            Unary::Sin => a.sin(),
            Unary::Cos => a.cos(),
            Unary::Tanh => a.tanh(),
            Unary::Erf => {
                let t = 1.0 / (1.0 + 0.327_591_1 * a.abs());
                let poly = t
                    * (0.254_829_6
                        + t * (-0.284_496_74
                            + t * (1.421_413_7 + t * (-1.453_152 + t * 1.061_405_4))));
                let magnitude = 1.0 - poly * (-a * a).exp();
                if a < 0.0 { -magnitude } else { magnitude }
            }
            Unary::ClampUnit => a.clamp(-1.0, 1.0),
            Unary::Round => a.round(),
        }
    }

    fn binary(op: Binary, a: f32, b: f32) -> f32 {
        match op {
            Binary::Add => a + b,
            Binary::Sub => a - b,
            Binary::Mul => a * b,
            Binary::Div => a / b,
            Binary::Max => a.max(b),
            Binary::Min => a.min(b),
            Binary::Pow => a.powf(b),
        }
    }

    fn relation(op: Relation, a: f32, b: f32) -> bool {
        match op {
            Relation::Less => a < b,
            Relation::AtMost => a <= b,
            Relation::TotallyBelow => a.total_cmp(&b).is_lt(),
        }
    }

    fn check(op: Check, a: f32) -> bool {
        match op {
            Check::Finite => a.is_finite(),
            Check::UndefinedOrInfinite => a.is_nan() || a == f32::INFINITY,
        }
    }

    fn truncate(a: f32) -> usize {
        a as usize
    }

    fn reduce(_op: Reduction, x: &[f32], y: &[f32], seed: Option<f32>) -> f32 {
        let mut sum = seed.unwrap_or(0.0);
        for (a, b) in x.iter().zip(y) {
            sum += a * b;
        }
        sum
    }
}

fn small_config() -> CodecConfig<f32> {
    CodecConfig {
        groups: 2,
        codebook_size: 2,
        codebook_dim: 2,
        codec_latent_dim: 2,
        transformer_latent_dim: 2,
        transformer_hidden_dim: 2,
        attention_heads: 1,
        attention_head_dim: 2,
        transformer_intermediate_dim: 2,
        sliding_window: 2,
        rms_norm_eps: 1e-5,
    }
}

#[test]
fn codebook_materialization_clamps_usage_before_lookup() {
    let table =
        MaterializedCodebook::<Single>::from_unnormalized(&[2.0, 4.0, 3.0, 6.0], &[2.0, 1e-8], 2, 2)
            .expect("well-shaped table materializes");
    assert_eq!(&table.entries()[..2], &[1.0, 2.0]);
    assert_eq!(&table.entries()[2..], &[300_000.0, 600_000.0]);
}

#[test]
fn split_rvq_adds_semantic_and_acoustic_projected_branches() {
    let config = small_config();
    let first =
        MaterializedCodebook::<Single>::from_unnormalized(&[2.0, 4.0, 0.0, 0.0], &[2.0, 1.0], 2, 2)
            .expect("first table");
    let rest =
        MaterializedCodebook::<Single>::from_unnormalized(&[3.0, 6.0, 0.0, 0.0], &[3.0, 1.0], 2, 2)
            .expect("rest table");
    let quantizer = SplitResidualVectorQuantizer {
        first_codebook: &first,
        rest_codebooks: std::slice::from_ref(&rest),
        first_output_proj: &[1.0, 0.0, 0.0, 1.0],
        rest_output_proj: &[1.0, 0.0, 0.0, 1.0],
    };
    let mut output = [0.0f32; 2];
    quantizer
        .decode(config, &[0, 0], 1, &mut output)
        .expect("valid ids");
    assert_eq!(output, [2.0, 4.0]);
}

#[test]
fn codec_rope_is_identity_at_zero_and_uses_theta_10000() {
    let mut cos = [0.0f32; 4];
    let mut sin = [0.0f32; 4];
    codec_rope_rows::<Single>(0, 4, &mut cos, &mut sin);
    assert_eq!(cos, [1.0; 4]);
    assert_eq!(sin, [0.0; 4]);
    codec_rope_rows::<Single>(1, 4, &mut cos, &mut sin);
    assert!((cos[0] - 1.0f32.cos()).abs() < 1e-6);
    assert!((cos[1] - (1.0f32 / 100.0).cos()).abs() < 1e-6);
    assert_eq!(cos[0], cos[2]);
    assert_eq!(sin[1], sin[3]);
}

#[test]
fn snake_beta_exponentiates_log_parameters() {
    let mut values = [core::f32::consts::FRAC_PI_2];
    snake_beta_in_place::<Single>(&mut values, 1, &[0.0], &[0.0]);
    assert!((values[0] - (core::f32::consts::FRAC_PI_2 + 1.0)).abs() < 1e-5);
}

#[test]
fn causal_conv_streaming_equals_one_shot() {
    let input = [1.0f32, 2.0, 3.0, 4.0, 5.0];
    let weight = [1.0f32, 2.0, 3.0];
    let mut offline = [0.0f32; 5];
    causal_conv1d::<Single>(&input, 5, 1, &weight, None, 1, 3, 1, &mut offline);
    assert_eq!(offline, [3.0, 8.0, 14.0, 20.0, 26.0]);
    let mut stream = CausalConvStream::<Single>::new(1, 3, 1);
    let mut first = Vec::new();
    let mut second = Vec::new();
    stream.push(&input[..2], 2, &weight, None, 1, &mut first);
    stream.push(&input[2..], 3, &weight, None, 1, &mut second);
    first.extend(second);
    assert_eq!(first, offline);
}

#[test]
fn causal_transpose_trims_the_right_padding() {
    let input = [1.0f32, 2.0];
    let weight = [1.0f32, 10.0, 100.0, 1_000.0];
    let mut output = [0.0f32; 4];
    causal_transpose_conv1d::<Single>(&input, 2, 1, &weight, None, 1, 4, 2, &mut output);
    assert_eq!(output, [1.0, 10.0, 102.0, 1_020.0]);
}

#[test]
fn causal_transpose_streaming_equals_one_shot_with_overlap() {
    let input = [1.0f32, 2.0, 3.0];
    let weight = [1.0f32, 10.0, 100.0, 1_000.0];
    let mut offline = [0.0f32; 6];
    causal_transpose_conv1d::<Single>(&input, 3, 1, &weight, None, 1, 4, 2, &mut offline);

    let mut stream = CausalTransposeConvStream::<Single>::new(1, 1, 4, 2);
    let mut packet = Vec::new();
    let mut packeted = Vec::new();
    stream.push(&input[..1], 1, &weight, None, &mut packet);
    packeted.extend_from_slice(&packet);
    stream.push(&input[1..], 2, &weight, None, &mut packet);
    packeted.extend_from_slice(&packet);

    assert_eq!(packeted, offline);
    stream.clear();
    stream.push(&input, 3, &weight, None, &mut packet);
    assert_eq!(packet, offline);
}

#[test]
fn codec_k_7168_has_the_documented_i32_headroom() {
    require_i32_safe_u8s8_reduction(CODEC_MAX_INT8_REDUCTION_K).expect("binding K fits i32");
    assert_eq!(CODEC_MAX_U8S8_ACCUMULATOR, 232_135_680);
    assert!(CODEC_MAX_U8S8_ACCUMULATOR < i64::from(i32::MAX));
    assert_eq!(
        require_i32_safe_u8s8_reduction(CODEC_MAX_INT8_REDUCTION_K * 10),
        Err(CodecError::I32AccumulatorOverflow {
            reduction_k: CODEC_MAX_INT8_REDUCTION_K * 10
        })
    );
}

#[test]
fn transformer_keeps_a_bounded_cache_and_layerscale_branches() {
    let config = small_config();
    let norm = [1.0f32; 2];
    let zeros_hidden = [0.0f32; 4];
    let zeros_attention = [0.0f32; 4];
    let zero_down = [0.0f32; 4];
    let scales = [0.01f32; 2];
    let weights = CodecTransformerLayerWeights {
        input_layernorm: &norm,
        q_proj: &zeros_hidden,
        k_proj: &zeros_hidden,
        v_proj: &zeros_hidden,
        o_proj: &zeros_attention,
        self_attn_layer_scale: &scales,
        post_attention_layernorm: &norm,
        gate_proj: &zeros_hidden,
        up_proj: &zeros_hidden,
        down_proj: &zero_down,
        mlp_layer_scale: &scales,
    };
    let mut cache = CodecKvCache::<Single>::new(config);
    let mut state = [3.0f32, -4.0];
    for position in 0..3 {
        forward_codec_transformer_step::<Single>(config, weights, position, &mut state, &mut cache);
    }
    assert_eq!(state, [3.0, -4.0]);
    assert_eq!(
        cache.len(),
        2,
        "cache evicts exactly the oldest position at the window"
    );
}

#[test]
fn pre_transformer_packet_execution_is_exactly_whole_sequence_execution() {
    let config = small_config();
    let norm = [1.0f32; 2];
    let identity = [1.0f32, 0.0, 0.0, 1.0];
    let zero = [0.0f32; 4];
    let scale = [1.0f32; 2];
    let layer = CodecTransformerLayerWeights {
        input_layernorm: &norm,
        q_proj: &identity,
        k_proj: &identity,
        v_proj: &identity,
        o_proj: &identity,
        self_attn_layer_scale: &scale,
        post_attention_layernorm: &norm,
        gate_proj: &zero,
        up_proj: &zero,
        down_proj: &zero,
        mlp_layer_scale: &scale,
    };
    let layers = [layer];
    let weights = CodecPreTransformerWeights {
        input_proj: &identity,
        input_proj_bias: &[0.0; 2],
        layers: &layers,
        final_norm: &norm,
        output_proj: &identity,
        output_proj_bias: &[0.0; 2],
    };
    let input = [1.0f32, -2.0, 3.0, 4.0, -5.0, 6.0];
    let mut whole_sequence = [0.0f32; 6];
    let mut whole_cache = [CodecKvCache::<Single>::new(config)];
    forward_codec_pre_transformer::<Single>(
        config,
        &weights,
        0,
        &input,
        3,
        &mut whole_cache,
        &mut whole_sequence,
    );

    let mut packet_cache = [CodecKvCache::<Single>::new(config)];
    let mut packeted = [0.0f32; 6];
    for frame in 0..3 {
        forward_codec_pre_transformer::<Single>(
            config,
            &weights,
            frame,
            &input[frame * 2..(frame + 1) * 2],
            1,
            &mut packet_cache,
            &mut packeted[frame * 2..(frame + 1) * 2],
        );
    }
    assert_eq!(packeted, whole_sequence);
}

#[test]
fn offline_codec_graph_emits_exactly_1920_samples_per_frame() {
    let config = small_config();
    let first = MaterializedCodebook::<Single>::from_unnormalized(&[1.0, 0.0, 0.0, 0.0], &[1.0; 2], 2, 2)
        .expect("first codebook");
    let rest = MaterializedCodebook::<Single>::from_unnormalized(&[0.0; 4], &[1.0; 2], 2, 2)
        .expect("rest codebook");
    let rest_codebooks = [rest];
    let quantizer = SplitResidualVectorQuantizer {
        first_codebook: &first,
        rest_codebooks: &rest_codebooks,
        first_output_proj: &[1.0, 0.0, 0.0, 1.0],
        rest_output_proj: &[0.0; 4],
    };

    let two_channels = [0.0f32; 2];
    let two_by_two = [1.0f32, 0.0, 0.0, 1.0];
    let pre_conv_weight = [
        0.0f32, 0.0, 0.1, 0.0, 0.0, 0.0, 0.0, 0.0, 0.0, 0.0, 0.0, 0.0,
    ];
    let pre_conv = CausalConvWeights {
        weight: &pre_conv_weight,
        bias: &two_channels,
        input_channels: 2,
        output_channels: 2,
        kernel: 3,
        dilation: 1,
    };
    let pre_transformer = CodecPreTransformerWeights {
        input_proj: &two_by_two,
        input_proj_bias: &two_channels,
        layers: &[],
        final_norm: &[1.0; 2],
        output_proj: &two_by_two,
        output_proj_bias: &two_channels,
    };
    let latent_transposed_weight = [0.1f32, 0.1, 0.0, 0.0, 0.0, 0.0, 0.0, 0.0];
    let latent_transposed = CausalTransposeConvWeights {
        weight: &latent_transposed_weight,
        bias: &two_channels,
        input_channels: 2,
        output_channels: 2,
        kernel: 2,
        stride: 2,
    };
    let convnext = CodecConvNextWeights {
        depthwise_weight: &[0.0; 14],
        depthwise_bias: &two_channels,
        norm_weight: &[1.0; 2],
        norm_bias: &two_channels,
        pwconv1: &[0.0; 16],
        pwconv1_bias: &[0.0; 8],
        pwconv2: &[0.0; 16],
        pwconv2_bias: &two_channels,
        gamma: &two_channels,
    };
    let latent_upsample = [
        CodecUpsampleStageWeights {
            transposed: latent_transposed,
            convnext,
        },
        CodecUpsampleStageWeights {
            transposed: latent_transposed,
            convnext,
        },
    ];
    let decoder_input_weight = [
        0.0f32, 0.0, 0.0, 0.0, 0.0, 0.0, 0.1, 0.0, 0.0, 0.0, 0.0, 0.0, 0.0, 0.0,
    ];
    let decoder_input = CausalConvWeights {
        weight: &decoder_input_weight,
        bias: &[0.0],
        input_channels: 2,
        output_channels: 1,
        kernel: 7,
        dilation: 1,
    };
    let one_channel = [0.0f32; 1];
    let residual_at_dilation = |dilation| CodecResidualUnitWeights {
        first_alpha_log: &one_channel,
        first_beta_log: &one_channel,
        first_conv: CausalConvWeights {
            weight: &[0.0; 7],
            bias: &one_channel,
            input_channels: 1,
            output_channels: 1,
            kernel: 7,
            dilation,
        },
        second_alpha_log: &one_channel,
        second_beta_log: &one_channel,
        second_conv: CausalConvWeights {
            weight: &[0.0],
            bias: &one_channel,
            input_channels: 1,
            output_channels: 1,
            kernel: 1,
            dilation: 1,
        },
    };
    let residual_units = [
        residual_at_dilation(1),
        residual_at_dilation(3),
        residual_at_dilation(9),
    ];
    let block_8_weight = [
        0.1f32, 0.0, 0.0, 0.0, 0.0, 0.0, 0.0, 0.0, 0.1, 0.0, 0.0, 0.0, 0.0, 0.0, 0.0, 0.0,
    ];
    let block_5_weight = [0.1f32, 0.0, 0.0, 0.0, 0.0, 0.1, 0.0, 0.0, 0.0, 0.0];
    let block_4_weight = [0.1f32, 0.0, 0.0, 0.0, 0.1, 0.0, 0.0, 0.0];
    let block_3_weight = [0.1f32, 0.0, 0.0, 0.1, 0.0, 0.0];
    let decoder_blocks = [
        CodecDecoderBlockWeights {
            alpha_log: &one_channel,
            beta_log: &one_channel,
            transposed: CausalTransposeConvWeights {
                weight: &block_8_weight,
                bias: &one_channel,
                input_channels: 1,
                output_channels: 1,
                kernel: 16,
                stride: 8,
            },
            residual_units,
        },
        CodecDecoderBlockWeights {
            alpha_log: &one_channel,
            beta_log: &one_channel,
            transposed: CausalTransposeConvWeights {
                weight: &block_5_weight,
                bias: &one_channel,
                input_channels: 1,
                output_channels: 1,
                kernel: 10,
                stride: 5,
            },
            residual_units,
        },
        CodecDecoderBlockWeights {
            alpha_log: &one_channel,
            beta_log: &one_channel,
            transposed: CausalTransposeConvWeights {
                weight: &block_4_weight,
                bias: &one_channel,
                input_channels: 1,
                output_channels: 1,
                kernel: 8,
                stride: 4,
            },
            residual_units,
        },
        CodecDecoderBlockWeights {
            alpha_log: &one_channel,
            beta_log: &one_channel,
            transposed: CausalTransposeConvWeights {
                weight: &block_3_weight,
                bias: &one_channel,
                input_channels: 1,
                output_channels: 1,
                kernel: 6,
                stride: 3,
            },
            residual_units,
        },
    ];
    let weights = CodecDecoderWeights {
        pre_conv,
        pre_transformer,
        latent_upsample,
        decoder_input,
        decoder_blocks,
        final_alpha_log: &one_channel,
        final_beta_log: &one_channel,
        final_conv: CausalConvWeights {
            weight: &[0.0, 0.0, 0.0, 0.0, 0.0, 0.0, 0.1],
            bias: &one_channel,
            input_channels: 1,
            output_channels: 1,
            kernel: 7,
            dilation: 1,
        },
    };

    let codes = [0, 0, 0, 0];
    let waveform = decode_codec_offline::<Single>(config, quantizer, &weights, &codes, 2)
        .expect("well-shaped model graph");
    assert_eq!(waveform.len(), 3_840);
    assert!(waveform.iter().all(|sample| sample.is_finite()));
    assert!(
        waveform
            .iter()
            .any(|sample| sample.is_normal() || sample.is_subnormal())
    );

    let mut stream = CodecStreamingState::<Single>::new(config, &weights);
    let mut packet = Vec::new();
    let mut packeted = Vec::new();
    stream
        .push(quantizer, &weights, &codes[..2], 1, &mut packet)
        .expect("first codec packet");
    packeted.extend_from_slice(&packet);
    stream
        .push(quantizer, &weights, &codes[2..], 1, &mut packet)
        .expect("second codec packet");
    packeted.extend_from_slice(&packet);
    assert_eq!(packeted, waveform);

    stream.clear();
    stream
        .push(quantizer, &weights, &codes, 2, &mut packet)
        .expect("reset codec stream");
    assert_eq!(packet, waveform);
}
