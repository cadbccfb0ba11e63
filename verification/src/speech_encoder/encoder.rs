//! The encoder: what it reads from a checkpoint, and the way from samples to codes.
use vstd::prelude::*;
use vstd::string::StringExecFns;
use crate::arith;
use crate::arith::{Arithmetic, Check};
use crate::checkpoint;
use crate::checkpoint::{artifact_tensor_error, widen_exact, CheckpointError};
use crate::codec::quantizer;
use crate::codec::quantizer::MaterializedCodebook;
use crate::codec::CodecError;
use crate::kernels;
use crate::kernels::{dot_product, find_unusable};
use crate::rows;
use crate::rows::{fill, join_rows, row_of};
use crate::speech_encoder::conv;
use crate::speech_encoder::conv::{elu_all, EncoderConv, PadMode, ResidualUnit};
use crate::speech_encoder::quantizer as rvq;
use crate::speech_encoder::quantizer::RvqBranch;
use crate::speech_encoder::transformer::TransformerLayer;
use crate::speech_encoder::{
    SpeechEncodeError, CODEBOOK_SIZE, CODE_GROUPS, ENCODE_DOWNSAMPLE_RATE, HIDDEN, VQ_DIM,
};
use crate::tensor_file;
use crate::tensor_file::{widen, TensorFile};
use crate::text;
use crate::text::{join, join_number, numbered};

verus! {

/// Convolutions: the stem, three per stage, the last of the stack and the final downsampling.
pub const CONVS: usize = 15;

/// Transformer layers.
pub const TRANSFORMER_LAYERS: usize = 8;

/// Channels that stage `s` reads.
pub open spec fn stage_channels(s: int) -> usize {
    if s == 0 {
        64
    } else if s == 1 {
        128
    } else if s == 2 {
        256
    } else {
        512
    }
}

/// By how much stage `s` shortens the sequence.
pub open spec fn stage_ratio(s: int) -> usize {
    if s == 0 {
        4
    } else if s == 1 {
        5
    } else if s == 2 {
        6
    } else {
        8
    }
}

/// The geometry of one convolution.
#[derive(Clone, Copy, Debug)]
pub struct Geometry {
    /// Channels read.
    pub input: usize,
    /// Channels written.
    pub output: usize,
    /// Taps.
    pub kernel: usize,
    /// Frames from one output to the next.
    pub stride: usize,
}

/// The geometry of convolution `c`.
pub open spec fn geometry_of(c: int) -> Geometry {
    if c == 0 {
        Geometry { input: 1, output: 64, kernel: 7, stride: 1 }
    } else if c == 13 {
        Geometry { input: 1_024, output: 512, kernel: 3, stride: 1 }
    } else if c == 14 {
        Geometry { input: 512, output: 512, kernel: 4, stride: 2 }
    } else {
        let channels = stage_channels((c - 1) / 3);
        let ratio = stage_ratio((c - 1) / 3);
        let k = (c - 1) % 3;
        if k == 0 {
            Geometry { input: channels, output: channels / 2, kernel: 3, stride: 1 }
        } else if k == 1 {
            Geometry { input: channels / 2, output: channels, kernel: 1, stride: 1 }
        } else {
            Geometry {
                input: channels,
                output: (2 * channels) as usize,
                kernel: (2 * ratio) as usize,
                stride: ratio,
            }
        }
    }
}

/// The geometry of convolution `c`.
fn geometry(c: usize) -> (shape: Geometry)
    requires
        c < CONVS,
    ensures
        shape == geometry_of(c as int),
{
    if c == 0 {
        Geometry { input: 1, output: 64, kernel: 7, stride: 1 }
    } else if c == 13 {
        Geometry { input: 1_024, output: 512, kernel: 3, stride: 1 }
    } else if c == 14 {
        Geometry { input: 512, output: 512, kernel: 4, stride: 2 }
    } else {
        let s: usize = (c - 1) / 3;
        let channels: usize = if s == 0 {
            64
        } else if s == 1 {
            128
        } else if s == 2 {
            256
        } else {
            512
        };
        let ratio: usize = if s == 0 {
            4
        } else if s == 1 {
            5
        } else if s == 2 {
            6
        } else {
            8
        };
        let k: usize = (c - 1) % 3;
        if k == 0 {
            Geometry { input: channels, output: channels / 2, kernel: 3, stride: 1 }
        } else if k == 1 {
            Geometry { input: channels / 2, output: channels, kernel: 1, stride: 1 }
        } else {
            Geometry {
                input: channels,
                output: 2 * channels,
                kernel: 2 * ratio,
                stride: ratio,
            }
        }
    }
}

/// Where convolution `c` stands in a checkpoint.
pub open spec fn conv_base_of(c: int) -> Seq<char> {
    if c == 0 {
        "encoder.encoder.layers.0.conv"@
    } else if c == 13 {
        "encoder.encoder.layers.14.conv"@
    } else if c == 14 {
        "encoder.downsample.conv"@
    } else {
        let s = (c - 1) / 3;
        let k = (c - 1) % 3;
        if k == 0 {
            "encoder.encoder.layers."@ + text::decimal_of((3 * s + 1) as nat) + ".block.1.conv"@
        } else if k == 1 {
            "encoder.encoder.layers."@ + text::decimal_of((3 * s + 1) as nat) + ".block.3.conv"@
        } else {
            "encoder.encoder.layers."@ + text::decimal_of((3 * s + 3) as nat) + ".conv"@
        }
    }
}

/// Where convolution `c` stands in a checkpoint.
fn conv_base(c: usize) -> (base: String)
    requires
        c < CONVS,
    ensures
        base@ == conv_base_of(c as int),
{
    if c == 0 {
        String::from_str("encoder.encoder.layers.0.conv")
    } else if c == 13 {
        String::from_str("encoder.encoder.layers.14.conv")
    } else if c == 14 {
        String::from_str("encoder.downsample.conv")
    } else {
        let s: usize = (c - 1) / 3;
        let k: usize = (c - 1) % 3;
        if k == 0 {
            join_number("encoder.encoder.layers.", 3 * s + 1, ".block.1.conv")
        } else if k == 1 {
            join_number("encoder.encoder.layers.", 3 * s + 1, ".block.3.conv")
        } else {
            join_number("encoder.encoder.layers.", 3 * s + 3, ".conv")
        }
    }
}

/// Behind a layer's name: tensor `j`.
pub open spec fn layer_suffix(j: int) -> Seq<char> {
    if j == 0 {
        ".input_layernorm.weight"@
    } else if j == 1 {
        ".input_layernorm.bias"@
    } else if j == 2 {
        ".self_attn.q_proj.weight"@
    } else if j == 3 {
        ".self_attn.k_proj.weight"@
    } else if j == 4 {
        ".self_attn.v_proj.weight"@
    } else if j == 5 {
        ".self_attn.o_proj.weight"@
    } else if j == 6 {
        ".self_attn_layer_scale.scale"@
    } else if j == 7 {
        ".post_attention_layernorm.weight"@
    } else if j == 8 {
        ".post_attention_layernorm.bias"@
    } else if j == 9 {
        ".mlp.fc1.weight"@
    } else if j == 10 {
        ".mlp.fc2.weight"@
    } else {
        ".mlp_layer_scale.scale"@
    }
}

/// Behind a layer's name: tensor `j`.
fn suffix(j: usize) -> (text: &'static str)
    requires
        j < 12,
    ensures
        text@ == layer_suffix(j as int),
{
    if j == 0 {
        ".input_layernorm.weight"
    } else if j == 1 {
        ".input_layernorm.bias"
    } else if j == 2 {
        ".self_attn.q_proj.weight"
    } else if j == 3 {
        ".self_attn.k_proj.weight"
    } else if j == 4 {
        ".self_attn.v_proj.weight"
    } else if j == 5 {
        ".self_attn.o_proj.weight"
    } else if j == 6 {
        ".self_attn_layer_scale.scale"
    } else if j == 7 {
        ".post_attention_layernorm.weight"
    } else if j == 8 {
        ".post_attention_layernorm.bias"
    } else if j == 9 {
        ".mlp.fc1.weight"
    } else if j == 10 {
        ".mlp.fc2.weight"
    } else {
        ".mlp_layer_scale.scale"
    }
}

/// The length of tensor `j` of a layer.
pub open spec fn layer_len(j: int) -> int {
    if 2 <= j <= 5 {
        262_144
    } else if j == 9 || j == 10 {
        1_048_576
    } else {
        512
    }
}

/// The name of tensor `i`, in the order in which tensors are read: convolutions with their
/// biases, layers, and the final downsampling.
pub open spec fn name_of(i: int) -> Seq<char> {
    if i < 28 {
        if i % 2 == 0 {
            conv_base_of(i / 2) + ".weight"@
        } else {
            conv_base_of(i / 2) + ".bias"@
        }
    } else if i < 124 {
        "encoder.encoder_transformer.layers."@ + text::decimal_of(((i - 28) / 12) as nat)
            + layer_suffix((i - 28) % 12)
    } else {
        conv_base_of(14) + ".weight"@
    }
}

/// The length of tensor `i`.
pub open spec fn len_of(i: int) -> int {
    if i < 28 {
        let shape = geometry_of(i / 2);
        if i % 2 == 0 {
            shape.output * shape.input * shape.kernel
        } else {
            shape.output as int
        }
    } else if i < 124 {
        layer_len((i - 28) % 12)
    } else {
        let shape = geometry_of(14);
        shape.output * shape.input * shape.kernel
    }
}

/// That tensor `i` is there, and as long as it must be.
pub open spec fn loads<A: Arithmetic>(file: TensorFile<A::Scalar>, i: int) -> bool {
    checkpoint::exact_tensor::<A>(file, name_of(i), len_of(i)) is Some
}

/// That `error` is why tensor `i` cannot be had.
pub open spec fn refuses<A: Arithmetic>(
    file: TensorFile<A::Scalar>,
    path: Seq<char>,
    i: int,
    error: CheckpointError,
) -> bool {
    checkpoint::exact_refused::<A>(file, path, name_of(i), len_of(i), error)
}

/// Frames of a waveform: every started stride of the whole chain gives one.
pub open spec fn frames_of(samples: int) -> int {
    conv::ceil_div(samples, ENCODE_DOWNSAMPLE_RATE as int)
}

/// Frames after the stem and the first `s` stages.
pub open spec fn frames_after(samples: int, s: int) -> int
    decreases s,
{
    if s <= 0 {
        samples
    } else {
        conv::ceil_div(frames_after(samples, s - 1), stage_ratio(s - 1) as int)
    }
}

/// The chain of strides gives one frame for every started stretch of samples, and no stage runs
/// short.
pub proof fn law_chain_counts_started_frames(samples: int)
    requires
        samples >= ENCODE_DOWNSAMPLE_RATE,
    ensures
        conv::ceil_div(frames_after(samples, 4), 2) == frames_of(samples),
        frames_after(samples, 0) == samples,
        frames_after(samples, 1) >= 480,
        frames_after(samples, 2) >= 96,
        frames_after(samples, 3) >= 16,
        frames_after(samples, 4) >= 2,
        forall|s: int| 0 <= s <= 4 ==> #[trigger] frames_after(samples, s) <= samples,
        frames_of(samples) <= samples,
{
    reveal_with_fuel(frames_after, 5);
    let a = frames_after(samples, 1);
    let b = frames_after(samples, 2);
    let c = frames_after(samples, 3);
    let d = frames_after(samples, 4);
    assert(a == conv::ceil_div(samples, 4));
    assert(b == conv::ceil_div(a, 5));
    assert(c == conv::ceil_div(b, 6));
    assert(d == conv::ceil_div(c, 8));
    conv::law_ceilings_compose(samples, 4, 5);
    conv::law_ceilings_compose(samples, 20, 6);
    conv::law_ceilings_compose(samples, 120, 8);
    conv::law_ceilings_compose(samples, 960, 2);
    assert forall|s: int| 0 <= s <= 4 implies #[trigger] frames_after(samples, s) <= samples by {
        assert(s == 0 || s == 1 || s == 2 || s == 3 || s == 4);
    }
}

/// The encoder.
pub struct SpeechEncoder<A: Arithmetic> {
    convs: Vec<EncoderConv<A::Scalar>>,
    layers: Vec<TransformerLayer<A::Scalar>>,
    semantic: RvqBranch<A>,
    acoustic: RvqBranch<A>,
}

/// That a convolution has the geometry of convolution `c`.
pub open spec fn conv_is<S: Copy>(conv: EncoderConv<S>, c: int) -> bool {
    &&& conv.fits()
    &&& conv.in_channels == geometry_of(c).input
    &&& conv.out_channels == geometry_of(c).output
    &&& conv.kernel == geometry_of(c).kernel
    &&& conv.stride == geometry_of(c).stride
    &&& conv.pad_mode == if c == 14 {
        PadMode::Replicate
    } else {
        PadMode::Constant
    }
    &&& (conv.bias is Some) == (c != 14)
}

/// One sample per row.
pub open spec fn sample_rows<S>(pcm: Seq<S>) -> Seq<Seq<S>> {
    Seq::new(pcm.len(), |i: int| seq![pcm[i]])
}

impl<A: Arithmetic> SpeechEncoder<A> {
    /// Convolution `c`.
    pub closed spec fn conv(&self, c: int) -> EncoderConv<A::Scalar> {
        self.convs@[c]
    }

    /// Layer `l`.
    pub closed spec fn layer(&self, l: int) -> TransformerLayer<A::Scalar> {
        self.layers@[l]
    }

    /// The branch of the first code.
    pub closed spec fn first_branch(&self) -> RvqBranch<A> {
        self.semantic
    }

    /// The branch of the other codes.
    pub closed spec fn other_branch(&self) -> RvqBranch<A> {
        self.acoustic
    }

    /// That every part has its shape.
    pub closed spec fn wf(&self) -> bool {
        &&& self.convs@.len() == CONVS
        &&& forall|c: int| 0 <= c < CONVS ==> conv_is(#[trigger] self.convs@[c], c)
        &&& self.layers@.len() == TRANSFORMER_LAYERS
        &&& forall|l: int| 0 <= l < TRANSFORMER_LAYERS ==> (#[trigger] self.layers@[l]).fits()
        &&& self.semantic.fits()
        &&& self.semantic.codebooks@.len() == 1
        &&& self.acoustic.fits()
        &&& self.acoustic.codebooks@.len() == 15
    }

    /// The parts of an encoder have their shapes.
    pub proof fn lemma_parts(&self)
        requires
            self.wf(),
        ensures
            forall|c: int| 0 <= c < CONVS ==> conv_is(#[trigger] self.conv(c), c),
            forall|l: int| 0 <= l < TRANSFORMER_LAYERS ==> (#[trigger] self.layer(l)).fits(),
            self.first_branch().fits(),
            self.first_branch().codebooks@.len() == 1,
            self.other_branch().fits(),
            self.other_branch().codebooks@.len() == 15,
    {
    }

    /// The residual unit of stage `s`.
    pub open spec fn unit(&self, s: int) -> ResidualUnit<'_, A::Scalar> {
        ResidualUnit { conv_a: &self.conv(3 * s + 1), conv_b: &self.conv(3 * s + 2) }
    }

    /// Rows after the stem and the first `s` stages.
    pub open spec fn staged(&self, pcm: Seq<A::Scalar>, s: int) -> Seq<Seq<A::Scalar>>
        decreases s,
    {
        if s <= 0 {
            self.conv(0).applied::<A>(sample_rows(pcm))
        } else {
            let x = self.unit(s - 1).applied::<A>(self.staged(pcm, s - 1));
            self.conv(3 * s).applied::<A>(conv::elu_rows::<A>(x))
        }
    }

    /// Rows after the first `l` layers.
    pub open spec fn layered(&self, x: Seq<Seq<A::Scalar>>, l: int) -> Seq<Seq<A::Scalar>>
        decreases l,
    {
        if l <= 0 {
            x
        } else {
            self.layer(l - 1).applied::<A>(self.layered(x, l - 1))
        }
    }

    /// The rows that are quantized.
    pub open spec fn embedded(&self, pcm: Seq<A::Scalar>) -> Seq<Seq<A::Scalar>> {
        let x = self.conv(13).applied::<A>(conv::elu_rows::<A>(self.staged(pcm, 4)));
        self.conv(14).applied::<A>(self.layered(x, TRANSFORMER_LAYERS as int))
    }

    /// Code `g` of a row. Both branches read the row itself: the second does not see what the
    /// first leaves.
    pub open spec fn code(&self, x: Seq<A::Scalar>, g: int) -> int {
        if g == 0 {
            self.first_branch().code(x, 0)
        } else {
            self.other_branch().code(x, g - 1)
        }
    }

    /// One stage over rows.
    fn stage(&self, s: usize, x: &Vec<Vec<A::Scalar>>) -> (out: Vec<Vec<A::Scalar>>)
        requires
            self.wf(),
            s < 4,
            rows::uniform(rows::deep(x@), stage_channels(s as int) as int),
            x@.len() >= 8,
            x@.len() + 1_920 <= usize::MAX,
        ensures
            out@.len() == conv::ceil_div(x@.len() as int, stage_ratio(s as int) as int),
            rows::uniform(rows::deep(out@), 2 * stage_channels(s as int)),
            arith::pure::<A>() ==> rows::deep(out@) == self.conv(3 * s + 3).applied::<A>(
                conv::elu_rows::<A>(self.unit(s as int).applied::<A>(rows::deep(x@))),
            ),
    {
        proof {
            assert((3 * s) as int / 3 == s && (3 * s) as int % 3 == 0);
            assert((3 * s + 1) as int / 3 == s && (3 * s + 1) as int % 3 == 1);
            assert((3 * s + 2) as int / 3 == s && (3 * s + 2) as int % 3 == 2);
            assert(conv_is(self.convs@[3 * s + 1], 3 * s + 1));
            assert(conv_is(self.convs@[3 * s + 2], 3 * s + 2));
            assert(conv_is(self.convs@[3 * s + 3], 3 * s + 3));
        }
        let unit = ResidualUnit { conv_a: &self.convs[3 * s + 1], conv_b: &self.convs[3 * s + 2] };
        let hidden = unit.forward_rows::<A>(x);
        let hidden = elu_all::<A>(&hidden, self.convs[3 * s + 1].in_channels);
        self.convs[3 * s + 3].forward_rows::<A>(&hidden)
    }

    /// Every sample as a row.
    fn spread(pcm: &[A::Scalar]) -> (out: Vec<Vec<A::Scalar>>)
        ensures
            out@.len() == pcm@.len(),
            rows::uniform(rows::deep(out@), 1),
            rows::deep(out@) == sample_rows(pcm@),
    {
        let mut out: Vec<Vec<A::Scalar>> = Vec::new();
        for i in 0..pcm.len()
            invariant
                out@.len() == i,
                forall|j: int| 0 <= j < i ==> (#[trigger] out@[j])@ == seq![pcm@[j]],
        {
            let mut row: Vec<A::Scalar> = Vec::new();
            row.push(pcm[i]);
            proof {
                assert(row@ =~= seq![pcm@[i as int]]);
            }
            out.push(row);
        }
        proof {
            assert(rows::deep(out@) =~= sample_rows(pcm@));
        }
        out
    }

    /// The rows that are quantized.
    fn embed(&self, pcm: &[A::Scalar]) -> (out: Vec<Vec<A::Scalar>>)
        requires
            self.wf(),
            pcm@.len() >= ENCODE_DOWNSAMPLE_RATE,
            pcm@.len() + 1_920 <= usize::MAX,
        ensures
            out@.len() == frames_of(pcm@.len() as int),
            rows::uniform(rows::deep(out@), HIDDEN as int),
            arith::pure::<A>() ==> rows::deep(out@) == self.embedded(pcm@),
    {
        let ghost n = pcm@.len() as int;
        proof {
            law_chain_counts_started_frames(n);
            assert(conv_is(self.convs@[0], 0));
            assert(conv_is(self.convs@[13], 13));
            assert(conv_is(self.convs@[14], 14));
        }
        let samples = Self::spread(pcm);
        let mut hidden = self.convs[0].forward_rows::<A>(&samples);
        for s in 0..4usize
            invariant
                self.wf(),
                n == pcm@.len(),
                n >= ENCODE_DOWNSAMPLE_RATE,
                n + 1_920 <= usize::MAX,
                hidden@.len() == frames_after(n, s as int),
                rows::uniform(
                    rows::deep(hidden@),
                    if s < 4 {
                        stage_channels(s as int) as int
                    } else {
                        1_024
                    },
                ),
                arith::pure::<A>() ==> rows::deep(hidden@) == self.staged(pcm@, s as int),
        {
            proof {
                law_chain_counts_started_frames(n);
                assert(frames_after(n, s as int) <= n);
            }
            hidden = self.stage(s, &hidden);
        }
        let hidden = elu_all::<A>(&hidden, 1_024);
        let mut hidden = self.convs[13].forward_rows::<A>(&hidden);
        let ghost start = rows::deep(hidden@);
        for l in 0..TRANSFORMER_LAYERS
            invariant
                self.wf(),
                hidden@.len() == start.len(),
                rows::uniform(rows::deep(hidden@), HIDDEN as int),
                arith::pure::<A>() ==> rows::deep(hidden@) == self.layered(start, l as int),
        {
            proof {
                assert(self.layers@[l as int].fits());
            }
            hidden = self.layers[l].forward_rows::<A>(&hidden);
        }
        proof {
            assert(frames_after(n, 4) <= n);
        }
        self.convs[14].forward_rows::<A>(&hidden)
    }

    /// Encodes a mono waveform: sixteen codes for every started frame, frame by frame.
    pub fn encode_24khz_pcm(&self, pcm: &[A::Scalar]) -> (result: Result<
        Vec<u32>,
        SpeechEncodeError,
    >)
        requires
            self.wf(),
            pcm@.len() + 1_920 <= usize::MAX,
        ensures
            match result {
                Ok(codes) => {
                    &&& pcm@.len() >= ENCODE_DOWNSAMPLE_RATE
                    &&& arith::pure::<A>() ==> kernels::first_unusable::<A>(pcm@, 0) is None
                    &&& codes@.len() == frames_of(pcm@.len() as int) * CODE_GROUPS
                    &&& forall|t: int, g: int|
                        #![trigger rows::row(codes@, t, CODE_GROUPS as int)[g]]
                        0 <= t < frames_of(pcm@.len() as int) && 0 <= g < CODE_GROUPS ==> {
                            let code = rows::row(codes@, t, CODE_GROUPS as int)[g];
                            &&& code < CODEBOOK_SIZE
                            &&& arith::pure::<A>() ==> code == self.code(
                                self.embedded(pcm@)[t],
                                g,
                            )
                        }
                },
                Err(SpeechEncodeError::AudioTooShort { samples }) => {
                    &&& pcm@.len() < ENCODE_DOWNSAMPLE_RATE
                    &&& samples == pcm@.len()
                },
                Err(SpeechEncodeError::NonFiniteAudio { index }) => {
                    &&& pcm@.len() >= ENCODE_DOWNSAMPLE_RATE
                    &&& index < pcm@.len()
                    &&& arith::pure::<A>() ==> kernels::first_unusable::<A>(pcm@, 0) == Some(
                        index as int,
                    )
                },
            },
    {
        let samples: usize = pcm.len();
        if samples < ENCODE_DOWNSAMPLE_RATE {
            return Err(SpeechEncodeError::AudioTooShort { samples });
        }
        if let Some(index) = find_unusable::<A>(pcm) {
            return Err(SpeechEncodeError::NonFiniteAudio { index });
        }
        let embedded = self.embed(pcm);
        let frames: usize = embedded.len();
        let flat = join_rows(&embedded);
        proof {
            rows::lemma_flatten_len(rows::deep(embedded@), HIDDEN as int);
            assert(frames * 16 <= samples + 1_920);
        }
        let mut codes = fill(frames * CODE_GROUPS, 0u32);
        self.semantic.encode(flat.as_slice(), frames, codes.as_mut_slice(), CODE_GROUPS, 0);
        let ghost first = codes@;
        self.acoustic.encode(flat.as_slice(), frames, codes.as_mut_slice(), CODE_GROUPS, 1);
        proof {
            let w = CODE_GROUPS as int;
            assert forall|t: int, g: int|
                #![trigger rows::row(codes@, t, w)[g]]
                0 <= t < frames && 0 <= g < w implies {
                let code = rows::row(codes@, t, w)[g];
                &&& code < CODEBOOK_SIZE
                &&& arith::pure::<A>() ==> code == self.code(self.embedded(pcm@)[t], g)
            } by {
                rows::lemma_flatten_row(rows::deep(embedded@), HIDDEN as int, t);
                if g == 0 {
                    assert(rows::row(codes@, t, w)[g] == rows::row(first, t, w)[g]);
                    assert(rows::row(first, t, w)[0int + 0] < CODEBOOK_SIZE);
                } else {
                    assert(rows::row(codes@, t, w)[1 + (g - 1)] < CODEBOOK_SIZE);
                }
            }
        }
        Ok(codes)
    }
}

/// Where the first branch stands in a checkpoint.
pub open spec fn first_prefix() -> Seq<char> {
    "encoder.quantizer.semantic_residual_vector_quantizer"@
}

/// Where the second branch stands in a checkpoint.
pub open spec fn other_prefix() -> Seq<char> {
    "encoder.quantizer.acoustic_residual_vector_quantizer"@
}

/// The name of a codebook's sums.
pub open spec fn sum_name(prefix: Seq<char>, l: int) -> Seq<char> {
    prefix + (".layers."@ + text::decimal_of(l as nat) + ".codebook.embed_sum"@)
}

/// The name of a codebook's usage counts.
pub open spec fn usage_name(prefix: Seq<char>, l: int) -> Seq<char> {
    prefix + (".layers."@ + text::decimal_of(l as nat) + ".codebook.cluster_usage"@)
}

/// That a codebook's tensors are there and have its shape.
pub open spec fn book_stored<A: Arithmetic>(
    file: TensorFile<A::Scalar>,
    prefix: Seq<char>,
    l: int,
) -> bool {
    &&& tensor_file::widened::<A>(file, sum_name(prefix, l)) matches Ok(sum) && sum.len()
        == CODEBOOK_SIZE * VQ_DIM
    &&& tensor_file::widened::<A>(file, usage_name(prefix, l)) matches Ok(usage)
        && usage.len() == CODEBOOK_SIZE
}

/// That a codebook can be had: its tensors are there, have its shape, and count finite usage.
pub open spec fn book_loads<A: Arithmetic>(
    file: TensorFile<A::Scalar>,
    prefix: Seq<char>,
    l: int,
) -> bool {
    let usage = tensor_file::widened::<A>(file, usage_name(prefix, l))->Ok_0;
    &&& book_stored::<A>(file, prefix, l)
    &&& arith::pure::<A>() ==> forall|e: int|
        0 <= e < CODEBOOK_SIZE ==> arith::chk::<A>(Check::Finite, #[trigger] usage[e])
}

/// That a branch of `levels` codebooks can be had.
pub open spec fn branch_loads<A: Arithmetic>(
    file: TensorFile<A::Scalar>,
    prefix: Seq<char>,
    levels: int,
) -> bool {
    &&& checkpoint::exact_tensor::<A>(
        file,
        prefix + ".input_proj.weight"@,
        (VQ_DIM * HIDDEN) as int,
    ) is Some
    &&& forall|l: int| 0 <= l < levels ==> #[trigger] book_loads::<A>(file, prefix, l)
}

/// That a codebook and the squared lengths of its entries have their shapes.
pub open spec fn level_fits<A: Arithmetic>(
    book: MaterializedCodebook<A>,
    norms: Seq<A::Scalar>,
) -> bool {
    &&& book.wf()
    &&& book.size() == CODEBOOK_SIZE
    &&& book.width() == VQ_DIM
    &&& norms.len() == CODEBOOK_SIZE
}

/// That a codebook is the one its tensors make, with the squared lengths of its entries.
pub open spec fn book_is<A: Arithmetic>(
    file: TensorFile<A::Scalar>,
    prefix: Seq<char>,
    l: int,
    book: MaterializedCodebook<A>,
    norms: Seq<A::Scalar>,
) -> bool {
    let sum = tensor_file::widened::<A>(file, sum_name(prefix, l))->Ok_0;
    let usage = tensor_file::widened::<A>(file, usage_name(prefix, l))->Ok_0;
    forall|e: int|
        0 <= e < CODEBOOK_SIZE ==> {
            &&& #[trigger] book.entry(e) == quantizer::entry_of::<A>(
                sum,
                usage,
                VQ_DIM as int,
                e,
            )
            &&& norms[e] == rvq::square_of::<A>(book.entry(e))
        }
}

/// That `error` is why a codebook cannot be had: a tensor that does not widen, shapes that do not
/// fit, or a usage count that is not finite.
pub open spec fn book_refused<A: Arithmetic>(
    file: TensorFile<A::Scalar>,
    path: Seq<char>,
    prefix: Seq<char>,
    l: int,
    error: CheckpointError,
) -> bool {
    match (
        tensor_file::widened::<A>(file, sum_name(prefix, l)),
        tensor_file::widened::<A>(file, usage_name(prefix, l)),
    ) {
        (Err(fault), _) => error.reports(path, fault),
        (Ok(_), Err(fault)) => error.reports(path, fault),
        (Ok(sum), Ok(usage)) => if sum.len() != CODEBOOK_SIZE * VQ_DIM || usage.len()
            != CODEBOOK_SIZE {
            error == CheckpointError::Codec(CodecError::CodebookShape)
        } else {
            &&& error matches CheckpointError::Codec(CodecError::NonFiniteClusterUsage { row })
                && row < CODEBOOK_SIZE && (arith::pure::<A>() ==> !arith::chk::<A>(
                Check::Finite,
                usage[row as int],
            ) && forall|e: int|
                0 <= e < row ==> arith::chk::<A>(Check::Finite, #[trigger] usage[e]))
        },
    }
}

/// That `error` is why a branch of `levels` codebooks cannot be had.
pub open spec fn branch_refused<A: Arithmetic>(
    file: TensorFile<A::Scalar>,
    path: Seq<char>,
    prefix: Seq<char>,
    levels: int,
    error: CheckpointError,
) -> bool {
    let name = prefix + ".input_proj.weight"@;
    let len = (VQ_DIM * HIDDEN) as int;
    if checkpoint::exact_tensor::<A>(file, name, len) is None {
        checkpoint::exact_refused::<A>(file, path, name, len, error)
    } else {
        exists|l: int|
            {
                &&& 0 <= l < levels
                &&& forall|k: int| 0 <= k < l ==> #[trigger] book_loads::<A>(file, prefix, k)
                &&& #[trigger] book_refused::<A>(file, path, prefix, l, error)
            }
    }
}

/// That a branch is the one its tensors make.
pub open spec fn branch_is<A: Arithmetic>(
    file: TensorFile<A::Scalar>,
    prefix: Seq<char>,
    branch: RvqBranch<A>,
) -> bool {
    &&& checkpoint::exact_tensor::<A>(
        file,
        prefix + ".input_proj.weight"@,
        (VQ_DIM * HIDDEN) as int,
    ) == Some(branch.input_proj@)
    &&& forall|l: int|
        0 <= l < branch.codebooks@.len() ==> #[trigger] book_is::<A>(
            file,
            prefix,
            l,
            branch.codebooks@[l],
            branch.codebook_norms@[l]@,
        )
}

/// The squared lengths of a codebook's entries.
fn entry_norms<A: Arithmetic>(book: &MaterializedCodebook<A>) -> (norms: Vec<A::Scalar>)
    requires
        book.wf(),
        book.size() == CODEBOOK_SIZE,
        book.width() == VQ_DIM,
    ensures
        norms@.len() == CODEBOOK_SIZE,
        arith::pure::<A>() ==> forall|e: int|
            0 <= e < CODEBOOK_SIZE ==> #[trigger] norms@[e] == rvq::square_of::<A>(book.entry(e)),
{
    let table = book.entries();
    let mut norms: Vec<A::Scalar> = Vec::new();
    for e in 0..CODEBOOK_SIZE
        invariant
            table@ == book.table(),
            book.wf(),
            book.size() == CODEBOOK_SIZE,
            book.width() == VQ_DIM,
            norms@.len() == e,
            arith::pure::<A>() ==> forall|j: int|
                0 <= j < e ==> #[trigger] norms@[j] == rvq::square_of::<A>(book.entry(j)),
    {
        proof {
            rows::lemma_row_bounds(e as int, CODEBOOK_SIZE as int, VQ_DIM as int);
        }
        let row = row_of(table, e, VQ_DIM);
        norms.push(dot_product::<A>(row, row));
    }
    norms
}

/// Reads one codebook.
fn load_book<A: Arithmetic>(
    file: &TensorFile<A::Scalar>,
    path: &str,
    prefix: &str,
    level: usize,
) -> (result: Result<MaterializedCodebook<A>, CheckpointError>)
    ensures
        match result {
            Ok(book) => {
                &&& book_loads::<A>(*file, prefix@, level as int)
                &&& book.wf()
                &&& book.size() == CODEBOOK_SIZE
                &&& book.width() == VQ_DIM
                &&& arith::pure::<A>() ==> forall|e: int|
                    0 <= e < CODEBOOK_SIZE ==> #[trigger] book.entry(e) == quantizer::entry_of::<A>(
                        tensor_file::widened::<A>(
                            *file,
                            sum_name(prefix@, level as int),
                        )->Ok_0,
                        tensor_file::widened::<A>(
                            *file,
                            usage_name(prefix@, level as int),
                        )->Ok_0,
                        VQ_DIM as int,
                        e,
                    )
            },
            Err(error) => book_refused::<A>(*file, path@, prefix@, level as int, error),
        },
{
    let tail = join_number(".layers.", level, ".codebook.embed_sum");
    let name = join(prefix, tail.as_str());
    let sum = match widen::<A>(file, name.as_str()) {
        Ok(sum) => sum,
        Err(fault) => {
            return Err(artifact_tensor_error(path, fault));
        },
    };
    let tail = join_number(".layers.", level, ".codebook.cluster_usage");
    let name = join(prefix, tail.as_str());
    let usage = match widen::<A>(file, name.as_str()) {
        Ok(usage) => usage,
        Err(fault) => {
            return Err(artifact_tensor_error(path, fault));
        },
    };
    match MaterializedCodebook::<A>::from_unnormalized(
        sum.as_slice(),
        usage.as_slice(),
        CODEBOOK_SIZE,
        VQ_DIM,
    ) {
        Ok(book) => {
            proof {
                if arith::pure::<A>() {
                    assert forall|e: int| 0 <= e < CODEBOOK_SIZE implies #[trigger] book.entry(e)
                        == quantizer::entry_of::<A>(sum@, usage@, VQ_DIM as int, e) by {
                        assert(arith::chk::<A>(Check::Finite, usage@[e]));
                    }
                }
            }
            Ok(book)
        },
        Err(error) => Err(CheckpointError::Codec(error)),
    }
}

/// Reads one branch.
fn load_branch<A: Arithmetic>(
    file: &TensorFile<A::Scalar>,
    path: &str,
    prefix: &str,
    levels: usize,
) -> (result: Result<RvqBranch<A>, CheckpointError>)
    ensures
        match result {
            Ok(branch) => {
                &&& branch_loads::<A>(*file, prefix@, levels as int)
                &&& branch.fits()
                &&& branch.codebooks@.len() == levels
                &&& arith::pure::<A>() ==> branch_is::<A>(
                    *file,
                    prefix@,
                    branch,
                )
            },
            Err(error) => branch_refused::<A>(*file, path@, prefix@, levels as int, error),
        },
{
    let name = join(prefix, ".input_proj.weight");
    let input_proj = match widen_exact::<A>(file, path, name.as_str(), VQ_DIM * HIDDEN) {
        Ok(input_proj) => input_proj,
        Err(error) => {
            return Err(error);
        },
    };
    let mut codebooks: Vec<MaterializedCodebook<A>> = Vec::new();
    let mut codebook_norms: Vec<Vec<A::Scalar>> = Vec::new();
    for level in 0..levels
        invariant
            checkpoint::exact_tensor::<A>(
                *file,
                prefix@ + ".input_proj.weight"@,
                (VQ_DIM * HIDDEN) as int,
            ) is Some,
            codebooks@.len() == level,
            codebook_norms@.len() == level,
            forall|k: int| 0 <= k < level ==> #[trigger] book_loads::<A>(*file, prefix@, k),
            forall|l: int|
                0 <= l < level ==> level_fits::<A>(
                    #[trigger] codebooks@[l],
                    codebook_norms@[l]@,
                ),
            arith::pure::<A>() ==> forall|l: int|
                0 <= l < level ==> #[trigger] book_is::<A>(
                    *file,
                    prefix@,
                    l,
                    codebooks@[l],
                    codebook_norms@[l]@,
                ),
    {
        let ghost books = codebooks@;
        let ghost squares = codebook_norms@;
        let book = match load_book::<A>(file, path, prefix, level) {
            Ok(book) => book,
            Err(error) => {
                proof {
                    assert(book_refused::<A>(*file, path@, prefix@, level as int, error));
                }
                return Err(error);
            },
        };
        let norms = entry_norms::<A>(&book);
        proof {
            if arith::pure::<A>() {
                assert forall|e: int| 0 <= e < CODEBOOK_SIZE implies norms@[e]
                    == rvq::square_of::<A>(#[trigger] book.entry(e)) by {
                    assert(norms@[e] == rvq::square_of::<A>(book.entry(e)));
                }
                assert(book_is::<A>(*file, prefix@, level as int, book, norms@));
            }
        }
        codebook_norms.push(norms);
        codebooks.push(book);
        proof {
            assert forall|l: int| 0 <= l < level + 1 implies level_fits::<A>(
                #[trigger] codebooks@[l],
                codebook_norms@[l]@,
            ) by {
                if l < level {
                    assert(codebooks@[l] == books[l] && codebook_norms@[l] == squares[l]);
                } else {
                    assert(codebooks@[l] == book && codebook_norms@[l] == norms);
                }
            }
            if arith::pure::<A>() {
                assert forall|l: int| 0 <= l < level + 1 implies #[trigger] book_is::<A>(
                    *file,
                    prefix@,
                    l,
                    codebooks@[l],
                    codebook_norms@[l]@,
                ) by {
                    if l < level {
                        assert(book_is::<A>(*file, prefix@, l, books[l], squares[l]@));
                    }
                }
            }
        }
    }
    Ok(RvqBranch { input_proj, codebooks, codebook_norms })
}

/// The tensors of a layer, in order.
pub open spec fn layer_tensors<S>(layer: TransformerLayer<S>) -> Seq<Seq<S>> {
    seq![
        layer.input_norm_weight@,
        layer.input_norm_bias@,
        layer.q_proj@,
        layer.k_proj@,
        layer.v_proj@,
        layer.o_proj@,
        layer.attn_scale@,
        layer.post_norm_weight@,
        layer.post_norm_bias@,
        layer.fc1@,
        layer.fc2@,
        layer.mlp_scale@,
    ]
}

/// Makes a layer of its tensors.
fn make_layer<S: Copy>(tensors: Vec<Vec<S>>) -> (layer: TransformerLayer<S>)
    requires
        tensors@.len() == 12,
        forall|j: int| 0 <= j < 12 ==> (#[trigger] tensors@[j])@.len() == layer_len(j),
    ensures
        layer.fits(),
        layer_tensors(layer) == rows::deep(tensors@),
{
    let mut tensors = tensors;
    let ghost given = tensors@;
    proof {
        assert(given[0]@.len() == layer_len(0));
        assert(given[1]@.len() == layer_len(1));
        assert(given[2]@.len() == layer_len(2));
        assert(given[3]@.len() == layer_len(3));
        assert(given[4]@.len() == layer_len(4));
        assert(given[5]@.len() == layer_len(5));
        assert(given[6]@.len() == layer_len(6));
        assert(given[7]@.len() == layer_len(7));
        assert(given[8]@.len() == layer_len(8));
        assert(given[9]@.len() == layer_len(9));
        assert(given[10]@.len() == layer_len(10));
        assert(given[11]@.len() == layer_len(11));
    }
    let mlp_scale = tensors.pop().unwrap();
    let fc2 = tensors.pop().unwrap();
    let fc1 = tensors.pop().unwrap();
    let post_norm_bias = tensors.pop().unwrap();
    let post_norm_weight = tensors.pop().unwrap();
    let attn_scale = tensors.pop().unwrap();
    let o_proj = tensors.pop().unwrap();
    let v_proj = tensors.pop().unwrap();
    let k_proj = tensors.pop().unwrap();
    let q_proj = tensors.pop().unwrap();
    let input_norm_bias = tensors.pop().unwrap();
    let input_norm_weight = tensors.pop().unwrap();
    let layer = TransformerLayer {
        input_norm_weight,
        input_norm_bias,
        q_proj,
        k_proj,
        v_proj,
        o_proj,
        attn_scale,
        post_norm_weight,
        post_norm_bias,
        fc1,
        fc2,
        mlp_scale,
    };
    proof {
        assert(layer_tensors(layer) =~= rows::deep(given));
    }
    layer
}

/// The length of tensor `j` of a layer.
fn layer_tensor_len(j: usize) -> (len: usize)
    requires
        j < 12,
    ensures
        len == layer_len(j as int),
{
    if 2 <= j && j <= 5 {
        262_144
    } else if j == 9 || j == 10 {
        1_048_576
    } else {
        512
    }
}

/// That a convolution with a bias is the stored one.
#[verifier::opaque]
pub open spec fn conv_stored<A: Arithmetic>(
    file: TensorFile<A::Scalar>,
    conv: EncoderConv<A::Scalar>,
    c: int,
) -> bool {
    &&& checkpoint::exact_tensor::<A>(file, name_of(2 * c), len_of(2 * c)) == Some(conv.weight@)
    &&& checkpoint::exact_tensor::<A>(file, name_of(2 * c + 1), len_of(2 * c + 1)) == Some(
        conv.bias->0@,
    )
}

impl<A: Arithmetic> SpeechEncoder<A> {
    /// That every tensor is the stored one.
    pub open spec fn holds(&self, file: TensorFile<A::Scalar>) -> bool {
        &&& forall|c: int|
            0 <= c < 14 ==> {
                &&& checkpoint::exact_tensor::<A>(file, name_of(2 * c), len_of(2 * c)) == Some(
                    (#[trigger] self.conv(c)).weight@,
                )
                &&& checkpoint::exact_tensor::<A>(
                    file,
                    name_of(2 * c + 1),
                    len_of(2 * c + 1),
                ) == Some(self.conv(c).bias->0@)
            }
        &&& forall|l: int, j: int|
            0 <= l < TRANSFORMER_LAYERS && 0 <= j < 12 ==> checkpoint::exact_tensor::<A>(
                file,
                name_of(28 + 12 * l + j),
                len_of(28 + 12 * l + j),
            ) == Some(#[trigger] layer_tensors(self.layer(l))[j])
        &&& checkpoint::exact_tensor::<A>(file, name_of(124), len_of(124)) == Some(
            self.conv(14).weight@,
        )
    }

    /// Reads one convolution.
    fn load_conv(file: &TensorFile<A::Scalar>, path: &str, c: usize) -> (result: Result<
        EncoderConv<A::Scalar>,
        (usize, CheckpointError),
    >)
        requires
            c < CONVS,
        ensures
            match result {
                Ok(conv) => {
                    let i = if c == 14 {
                        124
                    } else {
                        2 * c as int
                    };
                    &&& conv_is(conv, c as int)
                    &&& loads::<A>(*file, i)
                    &&& c != 14 ==> loads::<A>(*file, i + 1)
                    &&& arith::pure::<A>() ==> {
                        &&& checkpoint::exact_tensor::<A>(
                            *file,
                            name_of(i),
                            len_of(i),
                        ) == Some(conv.weight@)
                        &&& c != 14 ==> checkpoint::exact_tensor::<A>(
                            *file,
                            name_of(i + 1),
                            len_of(i + 1),
                        ) == Some(conv.bias->0@)
                    }
                },
                Err((i, error)) => {
                    &&& i == (if c == 14 {
                        124
                    } else {
                        2 * c as int
                    }) || (c != 14 && i == 2 * c + 1 && loads::<A>(*file, 2 * c as int))
                    &&& !loads::<A>(*file, i as int)
                    &&& refuses::<A>(*file, path@, i as int, error)
                },
            },
    {
        let shape = geometry(c);
        let base = conv_base(c);
        let (input, output, kernel) = (shape.input, shape.output, shape.kernel);
        let at: usize = if c == 14 {
            124
        } else {
            2 * c
        };
        proof {
            assert((2 * c) as int / 2 == c && (2 * c) as int % 2 == 0);
            assert((2 * c + 1) as int / 2 == c && (2 * c + 1) as int % 2 == 1);
            assert(output * input <= 1_024 * 1_024 && output * input * kernel <= 1_024 * 1_024
                * 16) by (nonlinear_arith)
                requires
                    output <= 1_024,
                    input <= 1_024,
                    kernel <= 16,
            ;
        }
        let name = join(base.as_str(), ".weight");
        let weight = match widen_exact::<A>(
            file,
            path,
            name.as_str(),
            output * input * kernel,
        ) {
            Ok(weight) => weight,
            Err(error) => {
                return Err((at, error));
            },
        };
        let bias = if c == 14 {
            None
        } else {
            let name = join(base.as_str(), ".bias");
            match widen_exact::<A>(file, path, name.as_str(), output) {
                Ok(bias) => Some(bias),
                Err(error) => {
                    return Err((at + 1, error));
                },
            }
        };
        let pad_mode = if c == 14 {
            PadMode::Replicate
        } else {
            PadMode::Constant
        };
        Ok(
            EncoderConv {
                weight,
                bias,
                in_channels: input,
                out_channels: output,
                kernel,
                stride: shape.stride,
                pad_mode,
            },
        )
    }

    /// Reads one transformer layer.
    fn load_layer(file: &TensorFile<A::Scalar>, path: &str, l: usize) -> (result: Result<
        TransformerLayer<A::Scalar>,
        (usize, CheckpointError),
    >)
        requires
            l < TRANSFORMER_LAYERS,
        ensures
            match result {
                Ok(layer) => {
                    &&& layer.fits()
                    &&& forall|j: int|
                        28 + 12 * l <= j < 40 + 12 * l ==> #[trigger] loads::<A>(*file, j)
                    &&& arith::pure::<A>() ==> forall|j: int|
                        0 <= j < 12 ==> checkpoint::exact_tensor::<A>(
                            *file,
                            name_of(28 + 12 * l + j),
                            len_of(28 + 12 * l + j),
                        ) == Some(#[trigger] layer_tensors(layer)[j])
                },
                Err((i, error)) => {
                    &&& 28 + 12 * l <= i < 40 + 12 * l
                    &&& forall|j: int|
                        28 + 12 * l <= j < i ==> #[trigger] loads::<A>(*file, j)
                    &&& !loads::<A>(*file, i as int)
                    &&& refuses::<A>(*file, path@, i as int, error)
                },
            },
    {
        let base = numbered("encoder.encoder_transformer.layers.", l);
        let mut tensors: Vec<Vec<A::Scalar>> = Vec::new();
        for j in 0..12usize
            invariant
                l < TRANSFORMER_LAYERS,
                base@ == "encoder.encoder_transformer.layers."@ + text::decimal_of(l as nat),
                tensors@.len() == j,
                forall|k: int| 0 <= k < j ==> (#[trigger] tensors@[k])@.len() == layer_len(k),
                forall|k: int|
                    28 + 12 * l <= k < 28 + 12 * l + j ==> #[trigger] loads::<A>(*file, k),
                arith::pure::<A>() ==> forall|k: int|
                    0 <= k < j ==> checkpoint::exact_tensor::<A>(
                        *file,
                        name_of(28 + 12 * l + k),
                        len_of(28 + 12 * l + k),
                    ) == Some((#[trigger] tensors@[k])@),
        {
            let at: usize = 28 + 12 * l + j;
            proof {
                assert((at - 28) as int / 12 == l && (at - 28) as int % 12 == j);
            }
            let name = join(base.as_str(), suffix(j));
            match widen_exact::<A>(file, path, name.as_str(), layer_tensor_len(j)) {
                Ok(tensor) => {
                    proof {
                        assert(loads::<A>(*file, at as int));
                    }
                    tensors.push(tensor);
                },
                Err(error) => {
                    return Err((at, error));
                },
            }
        }
        let ghost given = tensors@;
        let layer = make_layer(tensors);
        proof {
            if arith::pure::<A>() {
                assert forall|j: int| 0 <= j < 12 implies checkpoint::exact_tensor::<A>(
                    *file,
                    name_of(28 + 12 * l + j),
                    len_of(28 + 12 * l + j),
                ) == Some(#[trigger] layer_tensors(layer)[j]) by {
                    assert(layer_tensors(layer)[j] == rows::deep(given)[j]);
                    assert(given[j]@ == layer_tensors(layer)[j]);
                }
            }
        }
        Ok(layer)
    }

    /// Reads the encoder: convolutions, layers, the final downsampling, then both branches.
    ///
    /// The first tensor that cannot be had is the error.
    #[verifier::rlimit(40)]
    pub fn load_from_file(file: &TensorFile<A::Scalar>, path: &str) -> (result: Result<
        Self,
        CheckpointError,
    >)
        ensures
            match result {
                Ok(encoder) => {
                    &&& encoder.wf()
                    &&& forall|i: int| 0 <= i < 125 ==> #[trigger] loads::<A>(*file, i)
                    &&& branch_loads::<A>(*file, first_prefix(), 1)
                    &&& branch_loads::<A>(*file, other_prefix(), 15)
                    &&& arith::pure::<A>() ==> {
                        &&& encoder.holds(*file)
                        &&& branch_is::<A>(*file, first_prefix(), encoder.first_branch())
                        &&& branch_is::<A>(*file, other_prefix(), encoder.other_branch())
                    }
                },
                Err(error) => {
                    ||| exists|i: int|
                        {
                            &&& 0 <= i < 125
                            &&& forall|j: int| 0 <= j < i ==> #[trigger] loads::<A>(*file, j)
                            &&& !loads::<A>(*file, i)
                            &&& #[trigger] refuses::<A>(*file, path@, i, error)
                        }
                    ||| {
                        &&& forall|i: int| 0 <= i < 125 ==> #[trigger] loads::<A>(*file, i)
                        &&& {
                            ||| branch_refused::<A>(*file, path@, first_prefix(), 1, error)
                            ||| {
                                &&& branch_loads::<A>(*file, first_prefix(), 1)
                                &&& branch_refused::<A>(*file, path@, other_prefix(), 15, error)
                            }
                        }
                    }
                },
            },
    {
        let mut convs: Vec<EncoderConv<A::Scalar>> = Vec::new();
        for c in 0..14usize
            invariant
                convs@.len() == c,
                forall|i: int| 0 <= i < 2 * c ==> #[trigger] loads::<A>(*file, i),
                forall|j: int| 0 <= j < c ==> conv_is(#[trigger] convs@[j], j),
                arith::pure::<A>() ==> forall|j: int|
                    0 <= j < c ==> conv_stored::<A>(*file, #[trigger] convs@[j], j),
        {
            match Self::load_conv(file, path, c) {
                Ok(conv) => {
                    proof {
                        if arith::pure::<A>() {
                            assert(conv_stored::<A>(*file, conv, c as int)) by {
                                reveal(conv_stored);
                            }
                        }
                    }
                    convs.push(conv);
                },
                Err((i, error)) => {
                    proof {
                        assert(refuses::<A>(*file, path@, i as int, error));
                    }
                    return Err(error);
                },
            }
        }
        let mut layers: Vec<TransformerLayer<A::Scalar>> = Vec::new();
        for l in 0..TRANSFORMER_LAYERS
            invariant
                layers@.len() == l,
                forall|i: int| 0 <= i < 28 + 12 * l ==> #[trigger] loads::<A>(*file, i),
                forall|k: int| 0 <= k < l ==> (#[trigger] layers@[k]).fits(),
                arith::pure::<A>() ==> forall|k: int, j: int|
                    0 <= k < l && 0 <= j < 12 ==> checkpoint::exact_tensor::<A>(
                        *file,
                        name_of(28 + 12 * k + j),
                        len_of(28 + 12 * k + j),
                    ) == Some(#[trigger] layer_tensors(layers@[k])[j]),
        {
            match Self::load_layer(file, path, l) {
                Ok(layer) => {
                    layers.push(layer);
                },
                Err((i, error)) => {
                    proof {
                        assert(refuses::<A>(*file, path@, i as int, error));
                    }
                    return Err(error);
                },
            }
        }
        match Self::load_conv(file, path, 14) {
            Ok(conv) => {
                convs.push(conv);
            },
            Err((i, error)) => {
                proof {
                    assert(refuses::<A>(*file, path@, i as int, error));
                }
                return Err(error);
            },
        }
        let semantic = match load_branch::<A>(
            file,
            path,
            "encoder.quantizer.semantic_residual_vector_quantizer",
            1,
        ) {
            Ok(branch) => branch,
            Err(error) => {
                return Err(error);
            },
        };
        let acoustic = match load_branch::<A>(
            file,
            path,
            "encoder.quantizer.acoustic_residual_vector_quantizer",
            15,
        ) {
            Ok(branch) => branch,
            Err(error) => {
                return Err(error);
            },
        };
        let encoder = SpeechEncoder { convs, layers, semantic, acoustic };
        proof {
            if arith::pure::<A>() {
                reveal(conv_stored);
                assert forall|c: int| 0 <= c < 14 implies conv_stored::<A>(
                    *file,
                    #[trigger] encoder.conv(c),
                    c,
                ) by {}
            }
        }
        Ok(encoder)
    }
}

} // verus!
