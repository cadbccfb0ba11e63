//! Log-mel features: mirrored ends, windows, magnitudes, mel filters, logarithms.
use vstd::prelude::*;
use crate::arith;
use crate::arith::{
    binary, constant, count, relation, unary, Arithmetic, Binary, Constant, Relation, Unary,
};
use crate::kernels;
use crate::kernels::{dot_product, find_unusable};
use crate::rows;
use crate::rows::join_rows;
use crate::speaker;
use crate::speaker::{
    reflect_index, FeatureError, MEL_DIM, SPEAKER_FFT_SIZE, SPEAKER_HOP_SAMPLES,
    SPEAKER_MIN_AUDIO_SAMPLES, SPEAKER_REFLECT_PAD_SAMPLES, SPEAKER_SAMPLE_RATE_HZ,
};

verus! {

/// The Fourier transform of one number format on one machine.
pub trait Spectral: Arithmetic {
    /// One transformed window.
    type Spectrum;

    /// Transforms one real window.
    fn transform(window: &[Self::Scalar]) -> Self::Spectrum;

    /// The squared magnitude of one bin: the real part squared and added in one fused step to
    /// the square of the imaginary part.
    fn energy(spectrum: &Self::Spectrum, bin: usize) -> Self::Scalar;
}

/// That `r` is a spectrum the engine may return for a window.
pub open spec fn may_transform<F: Spectral>(window: Seq<F::Scalar>, r: F::Spectrum) -> bool {
    exists|given: &[F::Scalar]|
        given@ == window && #[trigger] call_ensures(<F as Spectral>::transform, (given,), r)
}

/// That `r` is an energy the engine may return for a bin.
pub open spec fn may_energy<F: Spectral>(
    spectrum: F::Spectrum,
    bin: usize,
    r: F::Scalar,
) -> bool {
    call_ensures(<F as Spectral>::energy, (&spectrum, bin), r)
}

/// That arithmetic and transform are functions of their arguments.
pub open spec fn pure_spectral<F: Spectral>() -> bool {
    arith::pure::<F>() && pure_transform::<F>()
}

/// That the transform is a function of its arguments.
#[verifier::opaque]
pub open spec fn pure_transform<F: Spectral>() -> bool {
    &&& forall|w: Seq<F::Scalar>, r: F::Spectrum, s: F::Spectrum|
        #![trigger may_transform::<F>(w, r), may_transform::<F>(w, s)]
        may_transform::<F>(w, r) && may_transform::<F>(w, s) ==> r == s
    &&& forall|x: F::Spectrum, b: usize, r: F::Scalar, s: F::Scalar|
        #![trigger may_energy::<F>(x, b, r), may_energy::<F>(x, b, s)]
        may_energy::<F>(x, b, r) && may_energy::<F>(x, b, s) ==> r == s
}

/// The spectrum of a window.
#[verifier::opaque]
pub open spec fn spectrum_of<F: Spectral>(window: Seq<F::Scalar>) -> F::Spectrum {
    choose|r: F::Spectrum| may_transform::<F>(window, r)
}

/// The energy of a bin.
#[verifier::opaque]
pub open spec fn energy_of<F: Spectral>(spectrum: F::Spectrum, bin: usize) -> F::Scalar {
    choose|r: F::Scalar| may_energy::<F>(spectrum, bin, r)
}

/// Transforms one window.
fn transform<F: Spectral>(window: &[F::Scalar]) -> (r: F::Spectrum)
    ensures
        pure_spectral::<F>() ==> r == spectrum_of::<F>(window@),
{
    reveal(pure_transform);
    reveal(spectrum_of);
    let r = <F as Spectral>::transform(window);
    assert(call_ensures(<F as Spectral>::transform, (window,), r));
    assert(may_transform::<F>(window@, r));
    r
}

/// The energy of one bin.
fn energy<F: Spectral>(spectrum: &F::Spectrum, bin: usize) -> (r: F::Scalar)
    ensures
        pure_spectral::<F>() ==> r == energy_of::<F>(*spectrum, bin),
{
    reveal(pure_transform);
    reveal(energy_of);
    let r = <F as Spectral>::energy(spectrum, bin);
    assert(may_energy::<F>(*spectrum, bin, r));
    r
}

/// Bins of a real window's spectrum.
pub const SPEAKER_BINS: usize = 513;

/// Log-mel features, frame by frame.
#[derive(Clone, Debug, PartialEq)]
pub struct LogMel<S> {
    /// Frames.
    pub frames: usize,
    /// The frames, end to end.
    pub values: Vec<S>,
}

/// A waveform with both ends mirrored.
pub open spec fn padded_of<S>(pcm: Seq<S>) -> Seq<S> {
    Seq::new(
        (pcm.len() + 2 * SPEAKER_REFLECT_PAD_SAMPLES) as nat,
        |i: int|
            pcm[speaker::reflected(i - SPEAKER_REFLECT_PAD_SAMPLES, pcm.len() as int)],
    )
}

/// How many windows a waveform has.
pub open spec fn frames_of(samples: int) -> int {
    (samples + 2 * SPEAKER_REFLECT_PAD_SAMPLES - SPEAKER_FFT_SIZE) / (SPEAKER_HOP_SAMPLES as int)
        + 1
}

/// Every whole window of the mirrored waveform counts, and only whole windows do.
pub proof fn law_frames_are_whole_windows(samples: int)
    requires
        samples >= SPEAKER_MIN_AUDIO_SAMPLES,
    ensures
        frames_of(samples) >= 1,
        (frames_of(samples) - 1) * SPEAKER_HOP_SAMPLES + SPEAKER_FFT_SIZE <= samples + 2
            * SPEAKER_REFLECT_PAD_SAMPLES,
        frames_of(samples) * SPEAKER_HOP_SAMPLES + SPEAKER_FFT_SIZE > samples + 2
            * SPEAKER_REFLECT_PAD_SAMPLES,
{
}

/// The periodic Hann window.
pub open spec fn hann<A: Arithmetic>(i: int) -> A::Scalar {
    let half = arith::cst::<A>(Constant::Half);
    let turn = arith::bin::<A>(
        Binary::Div,
        arith::bin::<A>(Binary::Mul, arith::cst::<A>(Constant::Tau), arith::num::<A>(i as usize)),
        arith::num::<A>(SPEAKER_FFT_SIZE),
    );
    arith::bin::<A>(
        Binary::Sub,
        half,
        arith::bin::<A>(Binary::Mul, half, arith::un::<A>(Unary::Cos, turn)),
    )
}

/// Where the logarithmic part of the mel scale begins, in mel.
pub open spec fn log_start_mel<A: Arithmetic>() -> A::Scalar {
    arith::bin::<A>(
        Binary::Div,
        arith::cst::<A>(Constant::LogStartHz),
        arith::cst::<A>(Constant::LinearHzPerMel),
    )
}

/// Hertz as mel.
pub open spec fn mel_of<A: Arithmetic>(hz: A::Scalar) -> A::Scalar {
    let start = arith::cst::<A>(Constant::LogStartHz);
    if arith::rel::<A>(Relation::AtMost, start, hz) {
        arith::bin::<A>(
            Binary::Add,
            log_start_mel::<A>(),
            arith::bin::<A>(
                Binary::Div,
                arith::un::<A>(Unary::Ln, arith::bin::<A>(Binary::Div, hz, start)),
                arith::cst::<A>(Constant::LogStep),
            ),
        )
    } else {
        arith::bin::<A>(Binary::Div, hz, arith::cst::<A>(Constant::LinearHzPerMel))
    }
}

/// Mel as hertz.
pub open spec fn hz_of<A: Arithmetic>(mel: A::Scalar) -> A::Scalar {
    let start = log_start_mel::<A>();
    if arith::rel::<A>(Relation::AtMost, start, mel) {
        arith::bin::<A>(
            Binary::Mul,
            arith::cst::<A>(Constant::LogStartHz),
            arith::un::<A>(
                Unary::Exp,
                arith::bin::<A>(
                    Binary::Mul,
                    arith::cst::<A>(Constant::LogStep),
                    arith::bin::<A>(Binary::Sub, mel, start),
                ),
            ),
        )
    } else {
        arith::bin::<A>(Binary::Mul, mel, arith::cst::<A>(Constant::LinearHzPerMel))
    }
}

/// Edge `i` of the mel bands, in hertz: evenly spaced in mel up to half the sample rate.
pub open spec fn edge_of<A: Arithmetic>(i: int) -> A::Scalar {
    let low = mel_of::<A>(arith::cst::<A>(Constant::Zero));
    let high = mel_of::<A>(
        arith::bin::<A>(
            Binary::Div,
            arith::num::<A>(SPEAKER_SAMPLE_RATE_HZ as usize),
            arith::cst::<A>(Constant::Two),
        ),
    );
    let fraction = arith::bin::<A>(
        Binary::Div,
        arith::num::<A>(i as usize),
        arith::num::<A>((MEL_DIM + 1) as usize),
    );
    hz_of::<A>(
        arith::bin::<A>(
            Binary::Add,
            low,
            arith::bin::<A>(Binary::Mul, arith::bin::<A>(Binary::Sub, high, low), fraction),
        ),
    )
}

/// The frequency of a bin.
pub open spec fn bin_hz<A: Arithmetic>(bin: int) -> A::Scalar {
    arith::bin::<A>(
        Binary::Div,
        arith::bin::<A>(
            Binary::Mul,
            arith::num::<A>(SPEAKER_SAMPLE_RATE_HZ as usize),
            arith::num::<A>(bin as usize),
        ),
        arith::num::<A>(SPEAKER_FFT_SIZE),
    )
}

/// The weight of a frequency in a triangular band of unit area.
pub open spec fn band_weight<A: Arithmetic>(
    lower: A::Scalar,
    center: A::Scalar,
    upper: A::Scalar,
    frequency: A::Scalar,
) -> A::Scalar {
    let rising = arith::bin::<A>(
        Binary::Div,
        arith::bin::<A>(Binary::Sub, frequency, lower),
        arith::bin::<A>(Binary::Sub, center, lower),
    );
    let falling = arith::bin::<A>(
        Binary::Div,
        arith::bin::<A>(Binary::Sub, upper, frequency),
        arith::bin::<A>(Binary::Sub, upper, center),
    );
    arith::bin::<A>(
        Binary::Mul,
        arith::bin::<A>(
            Binary::Max,
            arith::bin::<A>(Binary::Min, rising, falling),
            arith::cst::<A>(Constant::Zero),
        ),
        arith::bin::<A>(
            Binary::Div,
            arith::cst::<A>(Constant::Two),
            arith::bin::<A>(Binary::Sub, upper, lower),
        ),
    )
}

/// The weights of one mel band.
pub open spec fn filter_of<A: Arithmetic>(mel: int) -> Seq<A::Scalar> {
    Seq::new(
        SPEAKER_BINS as nat,
        |bin: int|
            band_weight::<A>(
                edge_of::<A>(mel),
                edge_of::<A>(mel + 1),
                edge_of::<A>(mel + 2),
                bin_hz::<A>(bin),
            ),
    )
}

/// Window `t` of a mirrored waveform.
pub open spec fn window_of<A: Arithmetic>(padded: Seq<A::Scalar>, t: int) -> Seq<A::Scalar> {
    Seq::new(
        SPEAKER_FFT_SIZE as nat,
        |i: int|
            arith::bin::<A>(Binary::Mul, padded[t * SPEAKER_HOP_SAMPLES + i], hann::<A>(i)),
    )
}

/// The magnitudes of a window.
pub open spec fn magnitudes_of<F: Spectral>(window: Seq<F::Scalar>) -> Seq<F::Scalar> {
    Seq::new(
        SPEAKER_BINS as nat,
        |bin: int|
            arith::un::<F>(
                Unary::Sqrt,
                arith::bin::<F>(
                    Binary::Add,
                    energy_of::<F>(spectrum_of::<F>(window), bin as usize),
                    arith::cst::<F>(Constant::MagnitudeEpsilon),
                ),
            ),
    )
}

/// The log-mel values of a window.
pub open spec fn mel_row_of<F: Spectral>(window: Seq<F::Scalar>) -> Seq<F::Scalar> {
    Seq::new(
        MEL_DIM as nat,
        |mel: int|
            arith::un::<F>(
                Unary::Ln,
                arith::bin::<F>(
                    Binary::Max,
                    kernels::dot::<F>(
                        filter_of::<F>(mel),
                        magnitudes_of::<F>(window),
                        SPEAKER_BINS as int,
                    ),
                    arith::cst::<F>(Constant::MelFloor),
                ),
            ),
    )
}

/// The log-mel frames of a waveform.
pub open spec fn log_mel_of<F: Spectral>(pcm: Seq<F::Scalar>) -> Seq<Seq<F::Scalar>> {
    Seq::new(
        frames_of(pcm.len() as int) as nat,
        |t: int| mel_row_of::<F>(window_of::<F>(padded_of(pcm), t)),
    )
}

/// Mirrors both ends of a waveform.
fn pad<S: Copy>(pcm: &[S]) -> (padded: Vec<S>)
    requires
        pcm@.len() > 0,
        2 * pcm@.len() + 2 * SPEAKER_REFLECT_PAD_SAMPLES <= isize::MAX,
    ensures
        padded@ == padded_of(pcm@),
{
    let n: usize = pcm.len();
    let mut padded: Vec<S> = Vec::new();
    for i in 0..n + 2 * SPEAKER_REFLECT_PAD_SAMPLES
        invariant
            n == pcm@.len(),
            n > 0,
            2 * n + 2 * SPEAKER_REFLECT_PAD_SAMPLES <= isize::MAX,
            padded@.len() == i,
            forall|j: int| 0 <= j < i ==> #[trigger] padded@[j] == padded_of(pcm@)[j],
    {
        let offset: isize = i as isize - SPEAKER_REFLECT_PAD_SAMPLES as isize;
        padded.push(pcm[reflect_index(offset, n as isize)]);
    }
    proof {
        assert(padded@ =~= padded_of(pcm@));
    }
    padded
}

/// The periodic Hann window.
fn periodic_hann<A: Arithmetic>() -> (window: Vec<A::Scalar>)
    ensures
        window@.len() == SPEAKER_FFT_SIZE,
        arith::pure::<A>() ==> forall|i: int|
            0 <= i < SPEAKER_FFT_SIZE ==> #[trigger] window@[i] == hann::<A>(i),
{
    let half = constant::<A>(Constant::Half);
    let tau = constant::<A>(Constant::Tau);
    let size = count::<A>(SPEAKER_FFT_SIZE);
    let mut window: Vec<A::Scalar> = Vec::new();
    for i in 0..SPEAKER_FFT_SIZE
        invariant
            arith::pure::<A>() ==> half == arith::cst::<A>(Constant::Half),
            arith::pure::<A>() ==> tau == arith::cst::<A>(Constant::Tau),
            arith::pure::<A>() ==> size == arith::num::<A>(SPEAKER_FFT_SIZE),
            window@.len() == i,
            arith::pure::<A>() ==> forall|j: int|
                0 <= j < i ==> #[trigger] window@[j] == hann::<A>(j),
    {
        let turn = binary::<A>(Binary::Div, binary::<A>(Binary::Mul, tau, count::<A>(i)), size);
        let cosine = unary::<A>(Unary::Cos, turn);
        window.push(binary::<A>(Binary::Sub, half, binary::<A>(Binary::Mul, half, cosine)));
    }
    window
}

/// Hertz as mel.
fn hz_to_slaney_mel<A: Arithmetic>(hz: A::Scalar) -> (mel: A::Scalar)
    ensures
        arith::pure::<A>() ==> mel == mel_of::<A>(hz),
{
    let linear = constant::<A>(Constant::LinearHzPerMel);
    let start = constant::<A>(Constant::LogStartHz);
    if relation::<A>(Relation::AtMost, start, hz) {
        let start_mel = binary::<A>(Binary::Div, start, linear);
        let log = unary::<A>(Unary::Ln, binary::<A>(Binary::Div, hz, start));
        let steps = binary::<A>(Binary::Div, log, constant::<A>(Constant::LogStep));
        binary::<A>(Binary::Add, start_mel, steps)
    } else {
        binary::<A>(Binary::Div, hz, linear)
    }
}

/// Mel as hertz.
fn slaney_mel_to_hz<A: Arithmetic>(mel: A::Scalar) -> (hz: A::Scalar)
    ensures
        arith::pure::<A>() ==> hz == hz_of::<A>(mel),
{
    let linear = constant::<A>(Constant::LinearHzPerMel);
    let start = constant::<A>(Constant::LogStartHz);
    let start_mel = binary::<A>(Binary::Div, start, linear);
    if relation::<A>(Relation::AtMost, start_mel, mel) {
        let past = binary::<A>(Binary::Sub, mel, start_mel);
        let log = binary::<A>(Binary::Mul, constant::<A>(Constant::LogStep), past);
        binary::<A>(Binary::Mul, start, unary::<A>(Unary::Exp, log))
    } else {
        binary::<A>(Binary::Mul, mel, linear)
    }
}

/// The edges of the mel bands, in hertz.
fn band_edges<A: Arithmetic>() -> (edges: Vec<A::Scalar>)
    ensures
        edges@.len() == MEL_DIM + 2,
        arith::pure::<A>() ==> forall|i: int|
            0 <= i < MEL_DIM + 2 ==> #[trigger] edges@[i] == edge_of::<A>(i),
{
    let low = hz_to_slaney_mel::<A>(constant::<A>(Constant::Zero));
    let rate = count::<A>(SPEAKER_SAMPLE_RATE_HZ as usize);
    let high = hz_to_slaney_mel::<A>(
        binary::<A>(Binary::Div, rate, constant::<A>(Constant::Two)),
    );
    let bands = count::<A>(MEL_DIM + 1);
    let ghost low_of = mel_of::<A>(arith::cst::<A>(Constant::Zero));
    let ghost high_of = mel_of::<A>(
        arith::bin::<A>(
            Binary::Div,
            arith::num::<A>(SPEAKER_SAMPLE_RATE_HZ as usize),
            arith::cst::<A>(Constant::Two),
        ),
    );
    let mut edges: Vec<A::Scalar> = Vec::new();
    for i in 0..MEL_DIM + 2
        invariant
            low_of == mel_of::<A>(arith::cst::<A>(Constant::Zero)),
            high_of == mel_of::<A>(
                arith::bin::<A>(
                    Binary::Div,
                    arith::num::<A>(SPEAKER_SAMPLE_RATE_HZ as usize),
                    arith::cst::<A>(Constant::Two),
                ),
            ),
            arith::pure::<A>() ==> low == low_of,
            arith::pure::<A>() ==> high == high_of,
            arith::pure::<A>() ==> bands == arith::num::<A>((MEL_DIM + 1) as usize),
            edges@.len() == i,
            arith::pure::<A>() ==> forall|j: int|
                0 <= j < i ==> #[trigger] edges@[j] == edge_of::<A>(j),
    {
        let fraction = binary::<A>(Binary::Div, count::<A>(i), bands);
        let span = binary::<A>(Binary::Sub, high, low);
        let mel = binary::<A>(Binary::Add, low, binary::<A>(Binary::Mul, span, fraction));
        edges.push(slaney_mel_to_hz::<A>(mel));
    }
    edges
}

/// The mel filters.
fn slaney_mel_filterbank<A: Arithmetic>() -> (filters: Vec<Vec<A::Scalar>>)
    ensures
        filters@.len() == MEL_DIM,
        forall|mel: int| 0 <= mel < MEL_DIM ==> (#[trigger] filters@[mel])@.len() == SPEAKER_BINS,
        arith::pure::<A>() ==> forall|mel: int|
            0 <= mel < MEL_DIM ==> (#[trigger] filters@[mel])@ == filter_of::<A>(mel),
{
    let edges = band_edges::<A>();
    let rate = count::<A>(SPEAKER_SAMPLE_RATE_HZ as usize);
    let size = count::<A>(SPEAKER_FFT_SIZE);
    let zero = constant::<A>(Constant::Zero);
    let two = constant::<A>(Constant::Two);
    let mut filters: Vec<Vec<A::Scalar>> = Vec::new();
    for mel in 0..MEL_DIM
        invariant
            edges@.len() == MEL_DIM + 2,
            arith::pure::<A>() ==> forall|i: int|
                0 <= i < MEL_DIM + 2 ==> #[trigger] edges@[i] == edge_of::<A>(i),
            arith::pure::<A>() ==> rate == arith::num::<A>(SPEAKER_SAMPLE_RATE_HZ as usize),
            arith::pure::<A>() ==> size == arith::num::<A>(SPEAKER_FFT_SIZE),
            arith::pure::<A>() ==> zero == arith::cst::<A>(Constant::Zero),
            arith::pure::<A>() ==> two == arith::cst::<A>(Constant::Two),
            filters@.len() == mel,
            forall|m: int| 0 <= m < mel ==> (#[trigger] filters@[m])@.len() == SPEAKER_BINS,
            arith::pure::<A>() ==> forall|m: int|
                0 <= m < mel ==> (#[trigger] filters@[m])@ == filter_of::<A>(m),
    {
        let lower = edges[mel];
        let center = edges[mel + 1];
        let upper = edges[mel + 2];
        let normalization = binary::<A>(
            Binary::Div,
            two,
            binary::<A>(Binary::Sub, upper, lower),
        );
        let mut filter: Vec<A::Scalar> = Vec::new();
        for bin in 0..SPEAKER_BINS
            invariant
                mel < MEL_DIM,
                arith::pure::<A>() ==> lower == edge_of::<A>(mel as int),
                arith::pure::<A>() ==> center == edge_of::<A>(mel + 1),
                arith::pure::<A>() ==> upper == edge_of::<A>(mel + 2),
                arith::pure::<A>() ==> rate == arith::num::<A>(SPEAKER_SAMPLE_RATE_HZ as usize),
                arith::pure::<A>() ==> size == arith::num::<A>(SPEAKER_FFT_SIZE),
                arith::pure::<A>() ==> zero == arith::cst::<A>(Constant::Zero),
                arith::pure::<A>() ==> normalization == arith::bin::<A>(
                    Binary::Div,
                    arith::cst::<A>(Constant::Two),
                    arith::bin::<A>(Binary::Sub, upper, lower),
                ),
                filter@.len() == bin,
                arith::pure::<A>() ==> forall|b: int|
                    0 <= b < bin ==> #[trigger] filter@[b] == filter_of::<A>(mel as int)[b],
        {
            let frequency = binary::<A>(
                Binary::Div,
                binary::<A>(Binary::Mul, rate, count::<A>(bin)),
                size,
            );
            let rising = binary::<A>(
                Binary::Div,
                binary::<A>(Binary::Sub, frequency, lower),
                binary::<A>(Binary::Sub, center, lower),
            );
            let falling = binary::<A>(
                Binary::Div,
                binary::<A>(Binary::Sub, upper, frequency),
                binary::<A>(Binary::Sub, upper, center),
            );
            let height = binary::<A>(
                Binary::Max,
                binary::<A>(Binary::Min, rising, falling),
                zero,
            );
            filter.push(binary::<A>(Binary::Mul, height, normalization));
        }
        proof {
            if arith::pure::<A>() {
                assert(filter@ =~= filter_of::<A>(mel as int));
            }
        }
        filters.push(filter);
    }
    filters
}

/// One window of a mirrored waveform.
fn cut_window<A: Arithmetic>(padded: &[A::Scalar], shape: &[A::Scalar], t: usize) -> (window: Vec<
    A::Scalar,
>)
    requires
        shape@.len() == SPEAKER_FFT_SIZE,
        t * SPEAKER_HOP_SAMPLES + SPEAKER_FFT_SIZE <= padded@.len(),
        arith::pure::<A>() ==> forall|i: int|
            0 <= i < SPEAKER_FFT_SIZE ==> #[trigger] shape@[i] == hann::<A>(i),
    ensures
        window@.len() == SPEAKER_FFT_SIZE,
        arith::pure::<A>() ==> window@ == window_of::<A>(padded@, t as int),
{
    let n: usize = padded.len();
    let start: usize = t * SPEAKER_HOP_SAMPLES;
    let mut window: Vec<A::Scalar> = Vec::new();
    for i in 0..SPEAKER_FFT_SIZE
        invariant
            n == padded@.len(),
            shape@.len() == SPEAKER_FFT_SIZE,
            start == t * SPEAKER_HOP_SAMPLES,
            start + SPEAKER_FFT_SIZE <= n,
            arith::pure::<A>() ==> forall|j: int|
                0 <= j < SPEAKER_FFT_SIZE ==> #[trigger] shape@[j] == hann::<A>(j),
            window@.len() == i,
            arith::pure::<A>() ==> forall|j: int|
                0 <= j < i ==> #[trigger] window@[j] == window_of::<A>(padded@, t as int)[j],
    {
        window.push(binary::<A>(Binary::Mul, padded[start + i], shape[i]));
    }
    proof {
        if arith::pure::<A>() {
            assert(window@ =~= window_of::<A>(padded@, t as int));
        }
    }
    window
}

/// The log-mel values of one window.
fn mel_row<F: Spectral>(window: &[F::Scalar], filters: &Vec<Vec<F::Scalar>>) -> (row: Vec<
    F::Scalar,
>)
    requires
        filters@.len() == MEL_DIM,
        forall|mel: int| 0 <= mel < MEL_DIM ==> (#[trigger] filters@[mel])@.len() == SPEAKER_BINS,
        arith::pure::<F>() ==> forall|mel: int|
            0 <= mel < MEL_DIM ==> (#[trigger] filters@[mel])@ == filter_of::<F>(mel),
    ensures
        row@.len() == MEL_DIM,
        pure_spectral::<F>() ==> row@ == mel_row_of::<F>(window@),
{
    let spectrum = transform::<F>(window);
    let epsilon = constant::<F>(Constant::MagnitudeEpsilon);
    let floor = constant::<F>(Constant::MelFloor);
    let mut magnitudes: Vec<F::Scalar> = Vec::new();
    for bin in 0..SPEAKER_BINS
        invariant
            pure_spectral::<F>() ==> spectrum == spectrum_of::<F>(window@),
            pure_spectral::<F>() ==> epsilon == arith::cst::<F>(Constant::MagnitudeEpsilon),
            magnitudes@.len() == bin,
            pure_spectral::<F>() ==> forall|b: int|
                0 <= b < bin ==> #[trigger] magnitudes@[b] == magnitudes_of::<F>(window@)[b],
    {
        let power = binary::<F>(Binary::Add, energy::<F>(&spectrum, bin), epsilon);
        magnitudes.push(unary::<F>(Unary::Sqrt, power));
    }
    proof {
        if pure_spectral::<F>() {
            assert(magnitudes@ =~= magnitudes_of::<F>(window@));
        }
    }
    let mut row: Vec<F::Scalar> = Vec::new();
    for mel in 0..MEL_DIM
        invariant
            filters@.len() == MEL_DIM,
            forall|m: int| 0 <= m < MEL_DIM ==> (#[trigger] filters@[m])@.len() == SPEAKER_BINS,
            arith::pure::<F>() ==> forall|m: int|
                0 <= m < MEL_DIM ==> (#[trigger] filters@[m])@ == filter_of::<F>(m),
            magnitudes@.len() == SPEAKER_BINS,
            pure_spectral::<F>() ==> magnitudes@ == magnitudes_of::<F>(window@),
            pure_spectral::<F>() ==> floor == arith::cst::<F>(Constant::MelFloor),
            row@.len() == mel,
            pure_spectral::<F>() ==> forall|m: int|
                0 <= m < mel ==> #[trigger] row@[m] == mel_row_of::<F>(window@)[m],
    {
        proof {
            assert(filters@[mel as int]@.len() == SPEAKER_BINS);
        }
        let sum = dot_product::<F>(filters[mel].as_slice(), magnitudes.as_slice());
        row.push(unary::<F>(Unary::Ln, binary::<F>(Binary::Max, sum, floor)));
    }
    proof {
        if pure_spectral::<F>() {
            assert(row@ =~= mel_row_of::<F>(window@));
        }
    }
    row
}

/// The log-mel features of a mono waveform at the encoder's sample rate.
pub fn log_mel_from_24khz_pcm<F: Spectral>(pcm: &[F::Scalar]) -> (result: Result<
    LogMel<F::Scalar>,
    FeatureError,
>)
    requires
        2 * pcm@.len() + 2 * SPEAKER_REFLECT_PAD_SAMPLES <= isize::MAX,
    ensures
        match result {
            Ok(mel) => {
                &&& pcm@.len() >= SPEAKER_MIN_AUDIO_SAMPLES
                &&& mel.frames == frames_of(pcm@.len() as int)
                &&& mel.values@.len() == mel.frames * MEL_DIM
                &&& arith::pure::<F>() ==> kernels::first_unusable::<F>(pcm@, 0) is None
                &&& pure_spectral::<F>() ==> mel.values@ == log_mel_of::<F>(pcm@).flatten()
            },
            Err(FeatureError::TooShort { samples }) => {
                &&& pcm@.len() < SPEAKER_MIN_AUDIO_SAMPLES
                &&& samples == pcm@.len()
            },
            Err(FeatureError::NonFinite { index }) => {
                &&& pcm@.len() >= SPEAKER_MIN_AUDIO_SAMPLES
                &&& index < pcm@.len()
                &&& arith::pure::<F>() ==> kernels::first_unusable::<F>(pcm@, 0) == Some(index as int)
            },
        },
{
    let samples: usize = pcm.len();
    if samples < SPEAKER_MIN_AUDIO_SAMPLES {
        return Err(FeatureError::TooShort { samples });
    }
    if let Some(index) = find_unusable::<F>(pcm) {
        return Err(FeatureError::NonFinite { index });
    }
    let padded = pad(pcm);
    let frames: usize = (padded.len() - SPEAKER_FFT_SIZE) / SPEAKER_HOP_SAMPLES + 1;
    let filters = slaney_mel_filterbank::<F>();
    let shape = periodic_hann::<F>();
    let mut mel: Vec<Vec<F::Scalar>> = Vec::new();
    for t in 0..frames
        invariant
            frames == frames_of(pcm@.len() as int),
            pcm@.len() >= SPEAKER_MIN_AUDIO_SAMPLES,
            padded@ == padded_of(pcm@),
            filters@.len() == MEL_DIM,
            forall|m: int| 0 <= m < MEL_DIM ==> (#[trigger] filters@[m])@.len() == SPEAKER_BINS,
            arith::pure::<F>() ==> forall|m: int|
                0 <= m < MEL_DIM ==> (#[trigger] filters@[m])@ == filter_of::<F>(m),
            shape@.len() == SPEAKER_FFT_SIZE,
            arith::pure::<F>() ==> forall|i: int|
                0 <= i < SPEAKER_FFT_SIZE ==> #[trigger] shape@[i] == hann::<F>(i),
            mel@.len() == t,
            forall|j: int| 0 <= j < t ==> (#[trigger] mel@[j])@.len() == MEL_DIM,
            pure_spectral::<F>() ==> forall|j: int|
                0 <= j < t ==> (#[trigger] mel@[j])@ == log_mel_of::<F>(pcm@)[j],
    {
        proof {
            law_frames_are_whole_windows(pcm@.len() as int);
        }
        let window = cut_window::<F>(padded.as_slice(), shape.as_slice(), t);
        mel.push(mel_row::<F>(window.as_slice(), &filters));
    }
    proof {
        assert forall|j: int| 0 <= j < rows::deep(mel@).len() implies (
        #[trigger] rows::deep(mel@)[j]).len() == MEL_DIM by {
            assert(mel@[j]@.len() == MEL_DIM);
        }
        rows::lemma_flatten_len(rows::deep(mel@), MEL_DIM as int);
        if pure_spectral::<F>() {
            assert(rows::deep(mel@) =~= log_mel_of::<F>(pcm@));
        }
    }
    Ok(LogMel { frames, values: join_rows(&mel) })
}

} // verus!
