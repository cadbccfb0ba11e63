//! What a log-mel frame holds, said without the way it is computed.
use vstd::prelude::*;
use crate::algebra;
use crate::algebra::{minus, one, over, plus, sum_over, times, zero};
use crate::arith;
use crate::arith::{Arithmetic, Binary, Constant, Relation, Unary};
use crate::kernel_laws;
use crate::rows;
use crate::speaker;
use crate::speaker::mel;
use crate::speaker::mel::{log_mel_from_24khz_pcm, LogMel, Spectral, SPEAKER_BINS};
use crate::speaker::{FeatureError, SPEAKER_FFT_SIZE, SPEAKER_HOP_SAMPLES, SPEAKER_REFLECT_PAD_SAMPLES};

verus! {

/// The window falls to zero at its beginning and rises by half a cosine: a value and half the cosine
/// of its turn make one half.
pub proof fn law_the_window_is_a_raised_cosine<A: Arithmetic>(i: int, turn: A::Scalar)
    requires
        algebra::subtractive::<A>(),
        0 <= i < SPEAKER_FFT_SIZE,
        turn == over::<A>(
            times::<A>(arith::cst::<A>(Constant::Tau), arith::num::<A>(i as usize)),
            arith::num::<A>(1_024),
        ),
    ensures
        plus::<A>(
            mel::hann::<A>(i),
            times::<A>(arith::cst::<A>(Constant::Half), arith::un::<A>(Unary::Cos, turn)),
        ) == arith::cst::<A>(Constant::Half),
{
    reveal(algebra::subtractive);
    let half = arith::cst::<A>(Constant::Half);
    let part = times::<A>(half, arith::un::<A>(Unary::Cos, turn));
    assert(plus::<A>(minus::<A>(half, part), part) == half);
}

/// The waveform stands whole inside the mirrored one, and each end is as far inside as the mirrored
/// sample is outside.
pub proof fn law_the_ends_are_mirrored<S>(pcm: Seq<S>, i: int, k: int)
    requires
        pcm.len() > SPEAKER_REFLECT_PAD_SAMPLES,
        0 <= i < pcm.len(),
        0 <= k <= SPEAKER_REFLECT_PAD_SAMPLES,
    ensures
        mel::padded_of(pcm).len() == pcm.len() + 768,
        mel::padded_of(pcm)[384 + i] == pcm[i],
        mel::padded_of(pcm)[384 - k] == pcm[k],
        k >= 1 ==> mel::padded_of(pcm)[384 + pcm.len() - 1 + k] == pcm[pcm.len() - 1 - k],
{
    let n = pcm.len() as int;
    let period = 2 * (n - 1);
    vstd::arithmetic::div_mod::lemma_small_mod(i as nat, period as nat);
    if k == 0 {
        vstd::arithmetic::div_mod::lemma_small_mod(0, period as nat);
    } else {
        vstd::arithmetic::div_mod::lemma_fundamental_div_mod_converse(
            -k,
            period,
            -1,
            period - k,
        );
        if n - 1 + k == period {
            vstd::arithmetic::div_mod::lemma_fundamental_div_mod_converse(period, period, 1, 0);
        } else {
            vstd::arithmetic::div_mod::lemma_small_mod((n - 1 + k) as nat, period as nat);
        }
        assert(speaker::reflected(-k, n) == k);
        assert(speaker::reflected(n - 1 + k, n) == n - 1 - k);
    }
    assert(speaker::reflected(i, n) == i);
}

/// Window `t` is cut 256 samples after the one before, and each sample is weighed by the window's
/// value at its place.
pub proof fn law_windows_are_cut_at_every_hop<A: Arithmetic>(padded: Seq<A::Scalar>, t: int, i: int)
    requires
        algebra::units::<A>(),
        0 <= i < SPEAKER_FFT_SIZE,
    ensures
        mel::window_of::<A>(padded, t).len() == 1_024,
        mel::hann::<A>(i) == one::<A>() ==> mel::window_of::<A>(padded, t)[i] == padded[256 * t
            + i],
        padded[256 * t + i] == one::<A>() ==> mel::window_of::<A>(padded, t)[i] == mel::hann::<A>(
            i,
        ),
        mel::hann::<A>(i) == zero::<A>() ==> mel::window_of::<A>(padded, t)[i] == zero::<A>(),
{
    assert(t * SPEAKER_HOP_SAMPLES + i == 256 * t + i);
}

/// Below the point where the scale turns logarithmic, mel and hertz are proportional, and turning
/// hertz to mel and back gives the hertz.
pub proof fn law_low_frequencies_come_back<A: Arithmetic>(hz: A::Scalar)
    requires
        !arith::rel::<A>(Relation::AtMost, arith::cst::<A>(Constant::LogStartHz), hz),
        !arith::rel::<A>(
            Relation::AtMost,
            over::<A>(
                arith::cst::<A>(Constant::LogStartHz),
                arith::cst::<A>(Constant::LinearHzPerMel),
            ),
            over::<A>(hz, arith::cst::<A>(Constant::LinearHzPerMel)),
        ),
        times::<A>(
            over::<A>(hz, arith::cst::<A>(Constant::LinearHzPerMel)),
            arith::cst::<A>(Constant::LinearHzPerMel),
        ) == hz,
    ensures
        times::<A>(mel::mel_of::<A>(hz), arith::cst::<A>(Constant::LinearHzPerMel)) == hz,
        mel::hz_of::<A>(mel::mel_of::<A>(hz)) == hz,
{
}

/// From that point on the scale is logarithmic, and turning hertz to mel and back gives the hertz.
pub proof fn law_high_frequencies_come_back<A: Arithmetic>(
    hz: A::Scalar,
    start: A::Scalar,
    raised: A::Scalar,
)
    requires
        start == over::<A>(
            arith::cst::<A>(Constant::LogStartHz),
            arith::cst::<A>(Constant::LinearHzPerMel),
        ),
        raised == arith::un::<A>(
            Unary::Ln,
            over::<A>(hz, arith::cst::<A>(Constant::LogStartHz)),
        ),
        arith::rel::<A>(Relation::AtMost, arith::cst::<A>(Constant::LogStartHz), hz),
        arith::rel::<A>(
            Relation::AtMost,
            start,
            plus::<A>(start, over::<A>(raised, arith::cst::<A>(Constant::LogStep))),
        ),
        forall|v: A::Scalar| minus::<A>(#[trigger] plus::<A>(start, v), start) == v,
        times::<A>(
            arith::cst::<A>(Constant::LogStep),
            over::<A>(raised, arith::cst::<A>(Constant::LogStep)),
        ) == raised,
        arith::un::<A>(Unary::Exp, raised) == over::<A>(hz, arith::cst::<A>(Constant::LogStartHz)),
        times::<A>(
            arith::cst::<A>(Constant::LogStartHz),
            over::<A>(hz, arith::cst::<A>(Constant::LogStartHz)),
        ) == hz,
    ensures
        mel::mel_of::<A>(hz) == plus::<A>(
            start,
            over::<A>(raised, arith::cst::<A>(Constant::LogStep)),
        ),
        mel::hz_of::<A>(mel::mel_of::<A>(hz)) == hz,
{
    let steps = over::<A>(raised, arith::cst::<A>(Constant::LogStep));
    assert(minus::<A>(plus::<A>(start, steps), start) == steps);
}

/// The edges of the bands are evenly spaced in mel: edge `i` stands `i / 129` of the way from the mel
/// of zero to that of half the sample rate. The first edge is the one and the last is the other.
pub proof fn law_band_edges_span_the_scale<A: Arithmetic>(i: int, low: A::Scalar, high: A::Scalar)
    requires
        algebra::units::<A>(),
        0 <= i < 130,
        low == mel::mel_of::<A>(zero::<A>()),
        high == mel::mel_of::<A>(
            over::<A>(arith::num::<A>(24_000), arith::cst::<A>(Constant::Two)),
        ),
        plus::<A>(low, minus::<A>(high, low)) == high,
    ensures
        over::<A>(arith::num::<A>(i as usize), arith::num::<A>(129)) == zero::<A>()
            ==> mel::edge_of::<A>(i) == mel::hz_of::<A>(low),
        over::<A>(arith::num::<A>(i as usize), arith::num::<A>(129)) == one::<A>()
            ==> mel::edge_of::<A>(i) == mel::hz_of::<A>(high),
        low == zero::<A>() && minus::<A>(high, low) == one::<A>() ==> mel::edge_of::<A>(i)
            == mel::hz_of::<A>(over::<A>(arith::num::<A>(i as usize), arith::num::<A>(129))),
{
}

/// A band is a triangle of unit area: two over its width at its centre, and nothing at its edges.
pub proof fn law_bands_are_triangles_of_unit_area<A: Arithmetic>(
    lower: A::Scalar,
    center: A::Scalar,
    upper: A::Scalar,
)
    requires
        algebra::units::<A>(),
        over::<A>(minus::<A>(center, lower), minus::<A>(center, lower)) == one::<A>(),
        over::<A>(minus::<A>(upper, center), minus::<A>(upper, center)) == one::<A>(),
        over::<A>(minus::<A>(lower, lower), minus::<A>(center, lower)) == zero::<A>(),
        over::<A>(minus::<A>(upper, upper), minus::<A>(upper, center)) == zero::<A>(),
        arith::bin::<A>(Binary::Min, one::<A>(), one::<A>()) == one::<A>(),
        arith::bin::<A>(Binary::Max, one::<A>(), zero::<A>()) == one::<A>(),
        arith::bin::<A>(Binary::Max, zero::<A>(), zero::<A>()) == zero::<A>(),
        arith::bin::<A>(
            Binary::Min,
            zero::<A>(),
            over::<A>(minus::<A>(upper, lower), minus::<A>(upper, center)),
        ) == zero::<A>(),
        arith::bin::<A>(
            Binary::Min,
            over::<A>(minus::<A>(upper, lower), minus::<A>(center, lower)),
            zero::<A>(),
        ) == zero::<A>(),
    ensures
        mel::band_weight::<A>(lower, center, upper, center) == over::<A>(
            arith::cst::<A>(Constant::Two),
            minus::<A>(upper, lower),
        ),
        mel::band_weight::<A>(lower, center, upper, lower) == zero::<A>(),
        mel::band_weight::<A>(lower, center, upper, upper) == zero::<A>(),
{
}

/// Band `mel` spans three edges in a row, and bin `bin` stands at `24000 bin / 1024` hertz.
pub proof fn law_bands_overlap_their_neighbours<A: Arithmetic>(band: int, bin: int)
    requires
        0 <= band < 128,
        0 <= bin < 513,
    ensures
        mel::filter_of::<A>(band).len() == 513,
        mel::filter_of::<A>(band)[bin] == mel::band_weight::<A>(
            mel::edge_of::<A>(band),
            mel::edge_of::<A>(band + 1),
            mel::edge_of::<A>(band + 2),
            over::<A>(
                times::<A>(arith::num::<A>(24_000), arith::num::<A>(bin as usize)),
                arith::num::<A>(1_024),
            ),
        ),
{
}

/// The square of a bin's magnitude is its energy and epsilon.
pub proof fn law_magnitudes_square_to_the_energy<F: Spectral>(
    window: Seq<F::Scalar>,
    bin: int,
    energy: F::Scalar,
)
    requires
        0 <= bin < 513,
        energy == plus::<F>(
            mel::energy_of::<F>(mel::spectrum_of::<F>(window), bin as usize),
            arith::cst::<F>(Constant::MagnitudeEpsilon),
        ),
        times::<F>(arith::un::<F>(Unary::Sqrt, energy), arith::un::<F>(Unary::Sqrt, energy))
            == energy,
    ensures
        mel::magnitudes_of::<F>(window).len() == 513,
        times::<F>(mel::magnitudes_of::<F>(window)[bin], mel::magnitudes_of::<F>(window)[bin])
            == energy,
{
}

/// The exponential of a log-mel value is the sum over all bins of the band's weight times the bin's
/// magnitude, floored.
pub proof fn law_mel_values_sum_the_band<F: Spectral>(
    window: Seq<F::Scalar>,
    band: int,
    sum: F::Scalar,
)
    requires
        algebra::additive::<F>(),
        0 <= band < 128,
        sum == arith::bin::<F>(
            Binary::Max,
            sum_over::<F>(
                |bin: int|
                    times::<F>(
                        mel::filter_of::<F>(band)[bin],
                        mel::magnitudes_of::<F>(window)[bin],
                    ),
                513,
            ),
            arith::cst::<F>(Constant::MelFloor),
        ),
        arith::un::<F>(Unary::Exp, arith::un::<F>(Unary::Ln, sum)) == sum,
    ensures
        mel::mel_row_of::<F>(window).len() == 128,
        arith::un::<F>(Unary::Exp, mel::mel_row_of::<F>(window)[band]) == sum,
{
    kernel_laws::law_dot_sums_every_product::<F>(
        mel::filter_of::<F>(band),
        mel::magnitudes_of::<F>(window),
        SPEAKER_BINS as int,
    );
}

/// Each frame is the log-mel row of its own window of the mirrored waveform.
pub proof fn law_frames_come_from_their_windows<F: Spectral>(pcm: Seq<F::Scalar>, t: int)
    requires
        0 <= t < mel::frames_of(pcm.len() as int),
    ensures
        mel::log_mel_of::<F>(pcm).len() == mel::frames_of(pcm.len() as int),
        mel::log_mel_of::<F>(pcm)[t] == mel::mel_row_of::<F>(
            mel::window_of::<F>(mel::padded_of(pcm), t),
        ),
{
}

/// Whatever waveform [`log_mel_from_24khz_pcm`] accepts, frame `t` that it returns is the log-mel row of
/// the window that begins `256 t` samples into the mirrored waveform.
pub proof fn law_returned_frames_come_from_their_windows<F: Spectral>(
    pcm: &[F::Scalar],
    features: LogMel<F::Scalar>,
    t: int,
)
    requires
        mel::pure_spectral::<F>(),
        2 * pcm@.len() + 2 * SPEAKER_REFLECT_PAD_SAMPLES <= isize::MAX,
        call_ensures(
            log_mel_from_24khz_pcm::<F>,
            (pcm,),
            Ok::<LogMel<F::Scalar>, FeatureError>(features),
        ),
        0 <= t < features.frames,
    ensures
        features.frames == mel::frames_of(pcm@.len() as int),
        features.values@.len() == features.frames * 128,
        features.values@.subrange(t * 128, t * 128 + 128) == mel::mel_row_of::<F>(
            mel::window_of::<F>(mel::padded_of(pcm@), t),
        ),
{
    let frames = mel::log_mel_of::<F>(pcm@);
    assert(rows::uniform(frames, 128));
    rows::lemma_flatten_row(frames, 128, t);
}

} // verus!
