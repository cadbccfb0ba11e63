//! What no packet schedule can change about the causal convolutions.
use vstd::prelude::*;
use crate::arith::Arithmetic;
use crate::codec::conv;

verus! {

/// Keeping the latest `n` frames of what was kept, packet after packet, keeps the latest `n`
/// frames of everything seen.
pub proof fn law_latest_of_latest<T>(past: Seq<T>, packet: Seq<T>, n: int)
    requires
        n >= 0,
    ensures
        conv::latest(conv::latest(past, n) + packet, n) == conv::latest(past + packet, n),
{
    assert(conv::latest(conv::latest(past, n) + packet, n) =~= conv::latest(past + packet, n));
}

/// Output frame `t` of a causal convolution reads no later input frame: the outputs of a prefix
/// are a prefix of the outputs.
pub proof fn law_conv_is_causal<A: Arithmetic>(
    x: Seq<Seq<A::Scalar>>,
    n: int,
    input_channels: int,
    weight: Seq<A::Scalar>,
    bias: Option<Seq<A::Scalar>>,
    output_channels: int,
    kernel: int,
    dilation: int,
)
    requires
        0 <= n <= x.len(),
        kernel > 0,
        dilation > 0,
    ensures
        conv::conv_of::<A>(
            x,
            input_channels,
            weight,
            bias,
            output_channels,
            kernel,
            dilation,
        ).take(n) == conv::conv_of::<A>(
            x.take(n),
            input_channels,
            weight,
            bias,
            output_channels,
            kernel,
            dilation,
        ),
{
    let whole = conv::conv_of::<A>(
        x,
        input_channels,
        weight,
        bias,
        output_channels,
        kernel,
        dilation,
    );
    let cut = conv::conv_of::<A>(
        x.take(n),
        input_channels,
        weight,
        bias,
        output_channels,
        kernel,
        dilation,
    );
    assert forall|t: int| 0 <= t < n implies whole[t] == cut[t] by {
        lemma_columns_agree::<A>(x, t, x.take(n), t, input_channels, kernel, dilation);
    }
    assert(whole.take(n) =~= cut);
}

/// That `past` frames before `t` in one sequence and before `u` in another lies the same frame,
/// or the left padding.
spec fn reads_alike<T>(x: Seq<T>, t: int, y: Seq<T>, u: int, past: int) -> bool {
    &&& (t - past >= 0) == (u - past >= 0)
    &&& t - past >= 0 ==> x[t - past] == y[u - past]
}

/// Two unfolded inputs agree where every tap reads the same value.
proof fn lemma_columns_agree<A: Arithmetic>(
    x: Seq<Seq<A::Scalar>>,
    t: int,
    y: Seq<Seq<A::Scalar>>,
    u: int,
    channels: int,
    kernel: int,
    dilation: int,
)
    requires
        kernel > 0,
        dilation > 0,
        forall|past: int|
            0 <= past <= (kernel - 1) * dilation ==> #[trigger] reads_alike(x, t, y, u, past),
    ensures
        conv::column_of::<A>(x, t, channels, kernel, dilation) == conv::column_of::<A>(
            y,
            u,
            channels,
            kernel,
            dilation,
        ),
{
    let left = Seq::new(
        channels as nat,
        |c: int|
            Seq::new(
                kernel as nat,
                |tap: int| conv::tap_value::<A>(x, t, c, (kernel - 1 - tap) * dilation),
            ),
    );
    let right = Seq::new(
        channels as nat,
        |c: int|
            Seq::new(
                kernel as nat,
                |tap: int| conv::tap_value::<A>(y, u, c, (kernel - 1 - tap) * dilation),
            ),
    );
    assert forall|c: int| 0 <= c < left.len() implies left[c] == right[c] by {
        assert forall|tap: int| 0 <= tap < kernel implies left[c][tap] == right[c][tap] by {
            let past = (kernel - 1 - tap) * dilation;
            assert(0 <= past <= (kernel - 1) * dilation) by (nonlinear_arith)
                requires
                    past == (kernel - 1 - tap) * dilation,
                    0 <= tap < kernel,
                    0 < dilation,
            ;
            assert(reads_alike(x, t, y, u, past));
        }
        assert(left[c] =~= right[c]);
    }
    assert(left =~= right);
}

/// What a stream emits for a packet is what the whole-sequence convolution emits there.
pub proof fn law_conv_stream_matches<A: Arithmetic>(
    past: Seq<Seq<A::Scalar>>,
    packet: Seq<Seq<A::Scalar>>,
    input_channels: int,
    weight: Seq<A::Scalar>,
    bias: Option<Seq<A::Scalar>>,
    output_channels: int,
    kernel: int,
    dilation: int,
)
    requires
        kernel > 0,
        dilation > 0,
    ensures
        conv::conv_of::<A>(
            conv::latest(past, (kernel - 1) * dilation) + packet,
            input_channels,
            weight,
            bias,
            output_channels,
            kernel,
            dilation,
        ).skip(conv::latest(past, (kernel - 1) * dilation).len() as int) == conv::conv_of::<A>(
            past + packet,
            input_channels,
            weight,
            bias,
            output_channels,
            kernel,
            dilation,
        ).skip(past.len() as int),
{
    let keep = (kernel - 1) * dilation;
    assert(0 <= keep) by (nonlinear_arith)
        requires
            keep == (kernel - 1) * dilation,
            kernel > 0,
            dilation > 0,
    ;
    let kept = conv::latest(past, keep);
    let x = kept + packet;
    let y = past + packet;
    let short = conv::conv_of::<A>(
        x,
        input_channels,
        weight,
        bias,
        output_channels,
        kernel,
        dilation,
    );
    let long = conv::conv_of::<A>(
        y,
        input_channels,
        weight,
        bias,
        output_channels,
        kernel,
        dilation,
    );
    let short_tail = short.skip(kept.len() as int);
    let long_tail = long.skip(past.len() as int);
    assert forall|i: int| 0 <= i < packet.len() implies #[trigger] short_tail[i]
        == long_tail[i] by {
        lemma_columns_agree::<A>(
            x,
            kept.len() + i,
            y,
            past.len() + i,
            input_channels,
            kernel,
            dilation,
        );
    }
    assert(short_tail =~= long_tail);
}

/// The sums of two transposed convolutions agree where the same frames land on the same taps.
proof fn lemma_transposed_sums_agree<A: Arithmetic>(
    x: Seq<Seq<A::Scalar>>,
    t: int,
    y: Seq<Seq<A::Scalar>>,
    u: int,
    weight: Seq<A::Scalar>,
    input_channels: int,
    output_channels: int,
    kernel: int,
    stride: int,
    o: int,
    n: int,
)
    requires
        n <= kernel,
        forall|tap: int|
            0 <= tap < kernel ==> match #[trigger] conv::landing_frame(
                t,
                tap,
                stride,
                x.len() as int,
            ) {
                Some(f) => {
                    &&& conv::landing_frame(u, tap, stride, y.len() as int) is Some
                    &&& x[f] == y[conv::landing_frame(u, tap, stride, y.len() as int)->0]
                },
                None => conv::landing_frame(u, tap, stride, y.len() as int) is None,
            },
    ensures
        conv::transposed_sum::<A>(
            x,
            weight,
            input_channels,
            output_channels,
            kernel,
            stride,
            t,
            o,
            n,
        ) == conv::transposed_sum::<A>(
            y,
            weight,
            input_channels,
            output_channels,
            kernel,
            stride,
            u,
            o,
            n,
        ),
    decreases n,
{
    if n > 0 {
        lemma_transposed_sums_agree::<A>(
            x,
            t,
            y,
            u,
            weight,
            input_channels,
            output_channels,
            kernel,
            stride,
            o,
            n - 1,
        );
        let landed = conv::landing_frame(t, n - 1, stride, x.len() as int);
    }
}

/// Moving an output sample by whole input frames moves the frame that lands on it by as many.
proof fn lemma_landing_shift(t: int, tap: int, stride: int, frames: int, shift: int)
    requires
        stride > 0,
        shift >= 0,
        tap <= t || (t - tap) % stride != 0 || t - tap + shift * stride < 0,
    ensures
        conv::landing_frame(t + shift * stride, tap, stride, frames + shift) == (
        match conv::landing_frame(t, tap, stride, frames) {
            Some(f) => Some(f + shift),
            None => None,
        }),
{
    let a = t - tap;
    assert(t + shift * stride - tap == stride * shift + a) by (nonlinear_arith)
        requires
            a == t - tap,
    ;
    vstd::arithmetic::div_mod::lemma_mod_multiples_vanish(shift, a, stride);
    vstd::arithmetic::div_mod::lemma_div_multiples_vanish_fancy(shift, 0, stride);
    vstd::arithmetic::div_mod::lemma_hoist_over_denominator(a, shift, stride as nat);
    assert(a + shift * stride == stride * shift + a) by (nonlinear_arith);
    assert(0 <= shift * stride) by (nonlinear_arith)
        requires
            shift >= 0,
            stride > 0,
    ;
}

/// Output samples of a prefix are a prefix of the output samples, `stride` per input frame.
pub proof fn law_transposed_is_causal<A: Arithmetic>(
    x: Seq<Seq<A::Scalar>>,
    n: int,
    input_channels: int,
    weight: Seq<A::Scalar>,
    bias: Option<Seq<A::Scalar>>,
    output_channels: int,
    kernel: int,
    stride: int,
)
    requires
        0 <= n <= x.len(),
        stride > 0,
    ensures
        conv::transposed_of::<A>(
            x,
            input_channels,
            weight,
            bias,
            output_channels,
            kernel,
            stride,
        ).take(n * stride) == conv::transposed_of::<A>(
            x.take(n),
            input_channels,
            weight,
            bias,
            output_channels,
            kernel,
            stride,
        ),
{
    let whole = conv::transposed_of::<A>(
        x,
        input_channels,
        weight,
        bias,
        output_channels,
        kernel,
        stride,
    );
    let cut = conv::transposed_of::<A>(
        x.take(n),
        input_channels,
        weight,
        bias,
        output_channels,
        kernel,
        stride,
    );
    assert(0 <= n * stride <= x.len() * stride) by (nonlinear_arith)
        requires
            0 <= n <= x.len(),
            stride > 0,
    ;
    assert forall|t: int| 0 <= t < n * stride implies whole[t] == cut[t] by {
        assert forall|o: int| 0 <= o < whole[t].len() implies whole[t][o] == cut[t][o] by {
            assert forall|tap: int| 0 <= tap < kernel implies match #[trigger] conv::landing_frame(
                t,
                tap,
                stride,
                x.len() as int,
            ) {
                Some(f) => {
                    &&& conv::landing_frame(t, tap, stride, n) is Some
                    &&& x[f] == x.take(n)[conv::landing_frame(t, tap, stride, n)->0]
                },
                None => conv::landing_frame(t, tap, stride, n) is None,
            } by {
                if tap <= t {
                    let f = (t - tap) / stride;
                    vstd::arithmetic::div_mod::lemma_fundamental_div_mod(t - tap, stride);
                    assert(f < n) by (nonlinear_arith)
                        requires
                            t - tap == stride * f + (t - tap) % stride,
                            (t - tap) % stride >= 0,
                            t - tap < n * stride,
                            stride > 0,
                    ;
                    vstd::arithmetic::div_mod::lemma_div_pos_is_pos(t - tap, stride);
                }
            }
            lemma_transposed_sums_agree::<A>(
                x,
                t,
                x.take(n),
                t,
                weight,
                input_channels,
                output_channels,
                kernel,
                stride,
                o,
                kernel,
            );
        }
        assert(whole[t] =~= cut[t]);
    }
    assert(whole.take(n * stride) =~= cut);
}

/// What a transposed stream emits for a packet is what the whole-sequence form emits there.
pub proof fn law_transposed_stream_matches<A: Arithmetic>(
    past: Seq<Seq<A::Scalar>>,
    packet: Seq<Seq<A::Scalar>>,
    input_channels: int,
    weight: Seq<A::Scalar>,
    bias: Option<Seq<A::Scalar>>,
    output_channels: int,
    kernel: int,
    stride: int,
)
    requires
        stride > 0,
        kernel > 0,
    ensures
        conv::transposed_of::<A>(
            conv::latest(past, (kernel - 1) / stride) + packet,
            input_channels,
            weight,
            bias,
            output_channels,
            kernel,
            stride,
        ).skip((conv::latest(past, (kernel - 1) / stride).len() * stride) as int)
            == conv::transposed_of::<A>(
            past + packet,
            input_channels,
            weight,
            bias,
            output_channels,
            kernel,
            stride,
        ).skip((past.len() * stride) as int),
{
    let keep = (kernel - 1) / stride;
    vstd::arithmetic::div_mod::lemma_div_pos_is_pos(kernel - 1, stride);
    vstd::arithmetic::div_mod::lemma_fundamental_div_mod(kernel - 1, stride);
    let kept = conv::latest(past, keep);
    let shift = past.len() - kept.len();
    let x = kept + packet;
    let y = past + packet;
    let short = conv::transposed_of::<A>(
        x,
        input_channels,
        weight,
        bias,
        output_channels,
        kernel,
        stride,
    );
    let long = conv::transposed_of::<A>(
        y,
        input_channels,
        weight,
        bias,
        output_channels,
        kernel,
        stride,
    );
    let from = kept.len() * stride;
    let skipped = past.len() * stride;
    assert(from >= 0 && skipped == from + shift * stride && x.len() * stride == from + packet.len()
        * stride && y.len() * stride == skipped + packet.len() * stride && packet.len() * stride
        >= 0) by (nonlinear_arith)
        requires
            from == kept.len() * stride,
            skipped == past.len() * stride,
            shift == past.len() - kept.len(),
            x.len() == kept.len() + packet.len(),
            y.len() == past.len() + packet.len(),
            stride > 0,
            kept.len() >= 0,
            packet.len() >= 0,
    ;
    let short_tail = short.skip(from as int);
    let long_tail = long.skip(skipped as int);
    assert forall|i: int| 0 <= i < packet.len() * stride implies #[trigger] short_tail[i]
        == long_tail[i] by {
        let t = from + i;
        let u = skipped + i;
        assert forall|o: int| 0 <= o < short[t].len() implies short[t][o] == long[u][o] by {
            assert forall|tap: int| 0 <= tap < kernel implies match #[trigger] conv::landing_frame(
                t,
                tap,
                stride,
                x.len() as int,
            ) {
                Some(f) => {
                    &&& conv::landing_frame(u, tap, stride, y.len() as int) is Some
                    &&& x[f] == y[conv::landing_frame(u, tap, stride, y.len() as int)->0]
                },
                None => conv::landing_frame(u, tap, stride, y.len() as int) is None,
            } by {
                if shift > 0 {
                    assert(kept.len() == keep);
                    if tap > t && (t - tap) % stride == 0 {
                        let q = (t - tap) / stride;
                        vstd::arithmetic::div_mod::lemma_fundamental_div_mod(t - tap, stride);
                        assert(false) by (nonlinear_arith)
                            requires
                                t - tap == stride * q,
                                t - tap < 0,
                                t >= keep * stride,
                                tap <= kernel - 1,
                                kernel - 1 == stride * keep + (kernel - 1) % stride,
                                0 <= (kernel - 1) % stride < stride,
                                stride > 0,
                        ;
                    }
                }
                if shift == 0 {
                    assert(kept =~= past);
                    assert(shift * stride == 0);
                } else {
                    lemma_landing_shift(t, tap, stride, x.len() as int, shift);
                }
                if tap <= t {
                    vstd::arithmetic::div_mod::lemma_div_pos_is_pos(t - tap, stride);
                }
            }
            lemma_transposed_sums_agree::<A>(
                x,
                t,
                y,
                u,
                weight,
                input_channels,
                output_channels,
                kernel,
                stride,
                o,
                kernel,
            );
        }
        assert(short[t] =~= long[u]);
    }
    assert(short_tail =~= long_tail);
}

/// The sums of two depthwise convolutions agree where every tap reads the same frame.
proof fn lemma_depthwise_sums_agree<A: Arithmetic>(
    x: Seq<Seq<A::Scalar>>,
    t: int,
    y: Seq<Seq<A::Scalar>>,
    u: int,
    weight: Seq<A::Scalar>,
    bias: Seq<A::Scalar>,
    kernel: int,
    c: int,
    n: int,
)
    requires
        n <= kernel,
        forall|past: int|
            0 <= past <= kernel - 1 ==> #[trigger] reads_alike(x, t, y, u, past),
    ensures
        conv::depthwise_sum::<A>(x, weight, bias, kernel, t, c, n) == conv::depthwise_sum::<A>(
            y,
            weight,
            bias,
            kernel,
            u,
            c,
            n,
        ),
    decreases n,
{
    if n > 0 {
        lemma_depthwise_sums_agree::<A>(x, t, y, u, weight, bias, kernel, c, n - 1);
        assert(reads_alike(x, t, y, u, kernel - 1 - (n - 1)));
    }
}

/// The outputs of a prefix are a prefix of the outputs.
pub proof fn law_depthwise_is_causal<A: Arithmetic>(
    x: Seq<Seq<A::Scalar>>,
    n: int,
    channels: int,
    weight: Seq<A::Scalar>,
    bias: Seq<A::Scalar>,
    kernel: int,
)
    requires
        0 <= n <= x.len(),
    ensures
        conv::depthwise_of::<A>(x, channels, weight, bias, kernel).take(n)
            == conv::depthwise_of::<A>(x.take(n), channels, weight, bias, kernel),
{
    let whole = conv::depthwise_of::<A>(x, channels, weight, bias, kernel);
    let cut = conv::depthwise_of::<A>(x.take(n), channels, weight, bias, kernel);
    assert forall|t: int| 0 <= t < n implies whole[t] == cut[t] by {
        assert forall|c: int| 0 <= c < whole[t].len() implies whole[t][c] == cut[t][c] by {
            lemma_depthwise_sums_agree::<A>(
                x,
                t,
                x.take(n),
                t,
                weight,
                bias,
                kernel,
                c,
                kernel,
            );
        }
        assert(whole[t] =~= cut[t]);
    }
    assert(whole.take(n) =~= cut);
}

/// What a depthwise stream emits for a packet is what the whole-sequence form emits there.
pub proof fn law_depthwise_stream_matches<A: Arithmetic>(
    past: Seq<Seq<A::Scalar>>,
    packet: Seq<Seq<A::Scalar>>,
    channels: int,
    weight: Seq<A::Scalar>,
    bias: Seq<A::Scalar>,
    kernel: int,
)
    requires
        kernel > 0,
    ensures
        conv::depthwise_of::<A>(
            conv::latest(past, kernel - 1) + packet,
            channels,
            weight,
            bias,
            kernel,
        ).skip(conv::latest(past, kernel - 1).len() as int) == conv::depthwise_of::<A>(
            past + packet,
            channels,
            weight,
            bias,
            kernel,
        ).skip(past.len() as int),
{
    let kept = conv::latest(past, kernel - 1);
    let x = kept + packet;
    let y = past + packet;
    let short = conv::depthwise_of::<A>(x, channels, weight, bias, kernel);
    let long = conv::depthwise_of::<A>(y, channels, weight, bias, kernel);
    let short_tail = short.skip(kept.len() as int);
    let long_tail = long.skip(past.len() as int);
    assert forall|i: int| 0 <= i < packet.len() implies #[trigger] short_tail[i]
        == long_tail[i] by {
        assert forall|c: int| 0 <= c < short_tail[i].len() implies #[trigger] short_tail[i][c]
            == long_tail[i][c] by {
            lemma_depthwise_sums_agree::<A>(
                x,
                kept.len() + i,
                y,
                past.len() + i,
                weight,
                bias,
                kernel,
                c,
                kernel,
            );
        }
        assert(short_tail[i] =~= long_tail[i]);
    }
    assert(short_tail =~= long_tail);
}

} // verus!
