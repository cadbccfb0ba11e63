//! Prompt assembly for voice cloning.
//!
//! The four prompt geometries are laid out here from rows that have already been embedded and
//! projected. What is decided is only which rows meet at which position.
use vstd::prelude::*;
use vstd::slice::{slice_subrange, slice_to_vec};
use vstd::string::StringExecFns;
use crate::arith;
use crate::arith::{Arithmetic, Binary};
use crate::kernels;
use crate::kernels::zip_with;
use crate::rows;
use crate::rows::{concat_rows, copy_rows};
use crate::text;
use crate::text::append_decimal;

verus! {

/// Whether a voice clone is conditioned on reference codes or on a speaker vector only.
#[derive(Clone, Copy, Debug, PartialEq, Eq, Structural)]
pub enum CloneMode {
    /// Reference codec frames and transcript condition the talker.
    Icl,
    /// A speaker vector conditions the common header.
    XVector,
}

/// The four prompt variants.
#[derive(Clone, Copy, Debug, PartialEq, Eq, Structural)]
pub struct PromptMode {
    /// What conditions the talker.
    pub clone_mode: CloneMode,
    /// Whether the whole text stands in the prompt rather than trailing it frame by frame.
    pub non_streaming_mode: bool,
}

impl PromptMode {
    /// The default of voice cloning: streaming, on reference codes.
    pub fn streaming_icl() -> (mode: Self)
        ensures
            mode == (PromptMode { clone_mode: CloneMode::Icl, non_streaming_mode: false }),
    {
        PromptMode { clone_mode: CloneMode::Icl, non_streaming_mode: false }
    }

    /// Whether the text trails the prompt.
    pub fn streaming(self) -> (streaming: bool)
        ensures
            streaming == !self.non_streaming_mode,
    {
        !self.non_streaming_mode
    }
}

/// The tokens every wrapper starts with.
pub const ROLE_PREFIX_IDS: [u32; 3] = [151_644, 77_091, 198];

/// The tokens a wrapped target ends with.
pub const TARGET_SUFFIX_IDS: [u32; 5] = [151_645, 198, 151_644, 77_091, 198];

/// The tokens a wrapped reference ends with.
pub const REFERENCE_SUFFIX_IDS: [u32; 2] = [151_645, 198];

/// The tokens every wrapper starts with.
pub open spec fn role_prefix() -> Seq<u32> {
    seq![151_644u32, 77_091u32, 198u32]
}

/// The tokens a wrapped target ends with.
pub open spec fn target_suffix() -> Seq<u32> {
    seq![151_645u32, 198u32, 151_644u32, 77_091u32, 198u32]
}

/// The tokens a wrapped reference ends with.
pub open spec fn reference_suffix() -> Seq<u32> {
    seq![151_645u32, 198u32]
}

/// That `ids` is a body between the role prefix and a suffix.
pub open spec fn is_wrapped(ids: Seq<u32>, suffix: Seq<u32>) -> bool {
    exists|body: Seq<u32>| ids == #[trigger] wrapped(body, suffix)
}

/// A body between the role prefix and a suffix.
pub open spec fn wrapped(body: Seq<u32>, suffix: Seq<u32>) -> Seq<u32> {
    role_prefix() + body + suffix
}

/// Token ids without their wrappers.
#[derive(Clone, Debug, PartialEq, Eq)]
pub struct PromptTextIds {
    /// The text to speak.
    pub target: Vec<u32>,
    /// The transcript of the reference, where there is one.
    pub reference: Option<Vec<u32>>,
}

/// Why a prompt was not assembled.
#[derive(Clone, Debug, PartialEq, Eq)]
pub enum PromptError {
    /// Token ids do not carry the expected wrapper.
    InvalidWrapper {
        /// Which ids.
        kind: &'static str,
    },
    /// The header lacks three role states, or codec pad and BOS.
    InvalidHeader,
    /// Reference codes condition the talker, and their transcript is missing.
    MissingIclReferenceText,
    /// Reference codes condition the talker, and they are missing.
    MissingIclReferenceCodec,
    /// A hidden state has another width than the text pad.
    WidthMismatch {
        /// Width of the text pad.
        expected: usize,
        /// Width of the state.
        actual: usize,
    },
}

impl PromptError {
    /// The message of an error.
    pub open spec fn text(&self) -> Seq<char> {
        match self {
            PromptError::InvalidWrapper { kind } => "invalid "@ + kind@ + " assistant wrapper"@,
            PromptError::InvalidHeader =>
                "prompt header requires three role states and codec pad/BOS"@,
            PromptError::MissingIclReferenceText => "ICL prompt lacks reference transcript states"@,
            PromptError::MissingIclReferenceCodec => "ICL prompt lacks reference codec states"@,
            PromptError::WidthMismatch { expected, actual } => "hidden-state width "@
                + text::decimal_of(*actual as nat) + " differs from "@ + text::decimal_of(
                *expected as nat,
            ),
        }
    }

    /// The message of an error.
    pub fn message(&self) -> (message: String)
        ensures
            message@ == self.text(),
    {
        match self {
            PromptError::InvalidWrapper { kind } => {
                let mut message = String::from_str("invalid ");
                message.append(kind);
                message.append(" assistant wrapper");
                message
            },
            PromptError::InvalidHeader => String::from_str(
                "prompt header requires three role states and codec pad/BOS",
            ),
            PromptError::MissingIclReferenceText => String::from_str(
                "ICL prompt lacks reference transcript states",
            ),
            PromptError::MissingIclReferenceCodec => String::from_str(
                "ICL prompt lacks reference codec states",
            ),
            PromptError::WidthMismatch { expected, actual } => {
                let mut message = String::from_str("hidden-state width ");
                append_decimal(&mut message, *actual);
                message.append(" differs from ");
                append_decimal(&mut message, *expected);
                message
            },
        }
    }
}

/// That `ids` holds `part` from `at` on.
fn holds_at(ids: &[u32], at: usize, part: &[u32]) -> (holds: bool)
    requires
        at + part@.len() <= ids@.len(),
    ensures
        holds == (ids@.subrange(at as int, at + part@.len()) == part@),
{
    let n: usize = ids.len();
    for i in 0..part.len()
        invariant
            n == ids@.len(),
            at + part@.len() <= n,
            forall|j: int| 0 <= j < i ==> ids@[at + j] == #[trigger] part@[j],
    {
        if ids[at + i] != part[i] {
            proof {
                assert(ids@.subrange(at as int, at + part@.len())[i as int] == ids@[at + i]);
            }
            return false;
        }
    }
    proof {
        assert(ids@.subrange(at as int, at + part@.len()) =~= part@);
    }
    true
}

/// Takes the body out of its wrapper.
pub fn extract_wrapped(ids: &[u32], suffix: &[u32], kind: &'static str) -> (result: Result<
    Vec<u32>,
    PromptError,
>)
    ensures
        match result {
            Ok(body) => ids@ == wrapped(body@, suffix@),
            Err(error) => {
                &&& !is_wrapped(ids@, suffix@)
                &&& error matches PromptError::InvalidWrapper { kind: k } && k == kind
            },
        },
{
    let prefix: [u32; 3] = ROLE_PREFIX_IDS;
    let n: usize = ids.len();
    proof {
        assert(prefix@ =~= role_prefix());
        assert forall|body: Seq<u32>| ids@ == #[trigger] wrapped(body, suffix@) implies {
            &&& n == 3 + body.len() + suffix@.len()
            &&& ids@.subrange(0, 3) == role_prefix()
            &&& ids@.subrange(n - suffix@.len(), n as int) == suffix@
        } by {
            assert(ids@.subrange(0, 3) =~= role_prefix());
            assert(ids@.subrange(n - suffix@.len(), n as int) =~= suffix@);
        }
    }
    if n < 3 || n - 3 < suffix.len() {
        return Err(PromptError::InvalidWrapper { kind });
    }
    let end: usize = n - suffix.len();
    if !holds_at(ids, 0, prefix.as_slice()) || !holds_at(ids, end, suffix) {
        return Err(PromptError::InvalidWrapper { kind });
    }
    let body = slice_to_vec(slice_subrange(ids, 3, end));
    proof {
        assert(ids@ =~= wrapped(body@, suffix@));
    }
    Ok(body)
}

/// That `error` is why target and reference ids cannot be taken out of their wrappers.
pub open spec fn wrapper_refused(
    target: Seq<u32>,
    reference: Option<Seq<u32>>,
    error: PromptError,
) -> bool {
    match error {
        PromptError::InvalidWrapper { kind } => {
            ||| kind@ == "target"@ && !is_wrapped(target, target_suffix())
            ||| {
                &&& kind@ == "reference"@
                &&& is_wrapped(target, target_suffix())
                &&& reference matches Some(whole) && !is_wrapped(whole, reference_suffix())
            }
        },
        _ => false,
    }
}

/// The ids inside a wrapper.
pub open spec fn body_of(ids: Seq<u32>, suffix: Seq<u32>) -> Seq<u32> {
    ids.subrange(3, ids.len() - suffix.len())
}

/// What is wrapped is what is found inside the wrapper.
pub proof fn law_body_is_unwrapped(body: Seq<u32>, suffix: Seq<u32>)
    ensures
        body_of(wrapped(body, suffix), suffix) == body,
{
    assert(body_of(wrapped(body, suffix), suffix) =~= body);
}

/// Takes target and reference ids out of their wrappers; the two end differently.
pub fn extract_prompt_text_ids(
    target_wrapped: &[u32],
    reference_wrapped: Option<&[u32]>,
) -> (result: Result<PromptTextIds, PromptError>)
    ensures
        match result {
            Ok(ids) => {
                &&& target_wrapped@ == wrapped(ids.target@, target_suffix())
                &&& match (ids.reference, reference_wrapped) {
                    (Some(body), Some(whole)) => whole@ == wrapped(body@, reference_suffix()),
                    (None, None) => true,
                    _ => false,
                }
            },
            Err(error) => wrapper_refused(
                target_wrapped@,
                match reference_wrapped {
                    Some(whole) => Some(whole@),
                    None => None,
                },
                error,
            ),
        },
{
    let suffix: [u32; 5] = TARGET_SUFFIX_IDS;
    proof {
        assert(suffix@ =~= target_suffix());
    }
    let target = match extract_wrapped(target_wrapped, suffix.as_slice(), "target") {
        Ok(target) => target,
        Err(error) => {
            return Err(error);
        },
    };
    proof {
        assert(is_wrapped(target_wrapped@, target_suffix()));
    }
    let reference = match reference_wrapped {
        None => None,
        Some(whole) => {
            let suffix: [u32; 2] = REFERENCE_SUFFIX_IDS;
            proof {
                assert(suffix@ =~= reference_suffix());
            }
            match extract_wrapped(whole, suffix.as_slice(), "reference") {
                Ok(reference) => Some(reference),
                Err(error) => {
                    return Err(error);
                },
            }
        },
    };
    Ok(PromptTextIds { target, reference })
}

/// A wrapper holds one body only, so extraction undoes wrapping.
pub proof fn law_wrapper_holds_one_body(a: Seq<u32>, b: Seq<u32>, suffix: Seq<u32>)
    requires
        wrapped(a, suffix) == wrapped(b, suffix),
    ensures
        a == b,
{
    let whole = wrapped(a, suffix);
    assert(whole.len() == 3 + a.len() + suffix.len());
    assert(wrapped(b, suffix).len() == 3 + b.len() + suffix.len());
    assert(a =~= whole.subrange(3, 3int + a.len()));
    assert(b =~= wrapped(b, suffix).subrange(3, 3int + b.len()));
}

/// One row at the talker's input.
pub type HiddenState<S> = Vec<S>;

/// The rows of the common header.
///
/// `codec_prefill` ends in codec pad and codec BOS. The BOS row is held back from the header: the
/// codec stream, or the first text position, consumes it.
#[derive(Clone, Debug)]
pub struct PromptHeader<S> {
    /// The three role rows.
    pub role: Vec<HiddenState<S>>,
    /// Tags, the speaker where there is one, codec pad and codec BOS.
    pub codec_prefill: Vec<HiddenState<S>>,
    /// Text BOS.
    pub tts_bos: HiddenState<S>,
    /// Text pad.
    pub tts_pad: HiddenState<S>,
}

/// Everything one prompt is assembled from.
#[derive(Clone, Debug)]
pub struct PromptAssemblyInput<S> {
    /// Which prompt.
    pub mode: PromptMode,
    /// The common header.
    pub header: PromptHeader<S>,
    /// Rows of the text to speak.
    pub target_text: Vec<HiddenState<S>>,
    /// Rows of the reference transcript.
    pub reference_text: Option<Vec<HiddenState<S>>>,
    /// One row per reference frame.
    pub reference_codec: Option<Vec<HiddenState<S>>>,
    /// Text EOS.
    pub tts_eos: HiddenState<S>,
    /// Whether EOS is held back for text that is still to come. Only a streaming prompt on a
    /// speaker vector holds it back.
    pub hold_tts_eos: bool,
}

/// The talker's prompt and the text rows that follow it, one per frame.
#[derive(Clone, Debug)]
pub struct PromptAssembly<S> {
    /// The prompt.
    pub prefill: Vec<HiddenState<S>>,
    /// What trails it.
    pub trailing_text_hidden: Vec<HiddenState<S>>,
    /// How many leading rows do not depend on the text to speak.
    pub target_independent_prefix_len: usize,
}

/// The rows, or none where there are none.
pub open spec fn optional_rows<S>(rows: Option<Vec<HiddenState<S>>>) -> Seq<Seq<S>> {
    match rows {
        Some(rows) => rows::deep(rows@),
        None => Seq::empty(),
    }
}

/// The width of the first row that is not `width` wide.
pub open spec fn first_mismatch<S>(states: Seq<Seq<S>>, width: int) -> Option<int>
    decreases states.len(),
{
    if states.len() == 0 {
        None
    } else if states[0].len() != width {
        Some(states[0].len() as int)
    } else {
        first_mismatch(states.skip(1), width)
    }
}

impl<S> PromptAssemblyInput<S> {
    /// The width every row must have.
    pub open spec fn width(&self) -> int {
        self.header.tts_pad@.len() as int
    }

    /// Three role rows, and at least codec pad and codec BOS.
    pub open spec fn header_fits(&self) -> bool {
        self.header.role@.len() == 3 && self.header.codec_prefill@.len() >= 2
    }

    /// The reference transcript.
    pub open spec fn reference_rows(&self) -> Seq<Seq<S>> {
        optional_rows(self.reference_text)
    }

    /// The reference frames.
    pub open spec fn codec_rows(&self) -> Seq<Seq<S>> {
        optional_rows(self.reference_codec)
    }

    /// Every row, in the order in which their widths are looked at.
    pub open spec fn all_rows(&self) -> Seq<Seq<S>> {
        rows::deep(self.header.role@) + rows::deep(self.header.codec_prefill@)
            + seq![self.header.tts_bos@, self.header.tts_pad@, self.tts_eos@] + rows::deep(
            self.target_text@,
        ) + self.reference_rows() + self.codec_rows()
    }

    /// Codec BOS.
    pub open spec fn codec_bos(&self) -> Seq<S> {
        self.header.codec_prefill@[self.header.codec_prefill@.len() - 1]@
    }

    /// Codec pad.
    pub open spec fn codec_pad(&self) -> Seq<S> {
        self.header.codec_prefill@[self.header.codec_prefill@.len() - 2]@
    }

    /// The transcript, the text and EOS.
    pub open spec fn text_stream(&self) -> Seq<Seq<S>> {
        self.reference_rows() + rows::deep(self.target_text@) + seq![self.tts_eos@]
    }

    /// Codec BOS and the reference frames.
    pub open spec fn codec_stream(&self) -> Seq<Seq<S>> {
        seq![self.codec_bos()] + self.codec_rows()
    }

    /// How many rows the header has.
    pub open spec fn header_len(&self) -> int {
        self.header.role@.len() + self.header.codec_prefill@.len() - 1
    }

    /// That the positions of the prompt can be counted.
    pub open spec fn countable(&self) -> bool {
        self.header_len() + self.text_stream().len() + self.codec_stream().len() <= usize::MAX
    }

    /// What trails the prompt.
    pub open spec fn trailing(&self) -> Seq<Seq<S>> {
        let pad = seq![self.header.tts_pad@];
        if self.mode.non_streaming_mode {
            pad
        } else {
            match self.mode.clone_mode {
                CloneMode::Icl => if self.text_stream().len() > self.codec_stream().len() {
                    self.text_stream().skip(self.codec_stream().len() as int)
                } else {
                    pad
                },
                CloneMode::XVector => self.uncovered() + if self.hold_tts_eos {
                    Seq::empty()
                } else {
                    seq![self.tts_eos@]
                },
            }
        }
    }

    /// The text that the first position of a speaker-vector prompt does not cover.
    pub open spec fn uncovered(&self) -> Seq<Seq<S>> {
        if self.target_text@.len() == 0 {
            Seq::empty()
        } else {
            rows::deep(self.target_text@).skip(1)
        }
    }

    /// How many leading rows of the prompt do not depend on the text to speak.
    pub open spec fn prefix_len(&self) -> int {
        let reference = self.reference_rows().len() as int;
        let codec = self.codec_stream().len() as int;
        match self.mode.clone_mode {
            CloneMode::XVector => self.header_len(),
            CloneMode::Icl => if !self.mode.non_streaming_mode && codec < reference {
                self.header_len() + codec
            } else {
                self.header_len() + reference
            },
        }
    }

    /// That `error` is why no prompt can be assembled.
    pub open spec fn refused(&self, error: PromptError) -> bool {
        match error {
            PromptError::InvalidHeader => !self.header_fits(),
            PromptError::WidthMismatch { expected, actual } => {
                &&& self.header_fits()
                &&& expected == self.width()
                &&& first_mismatch(self.all_rows(), self.width()) == Some(actual as int)
            },
            PromptError::MissingIclReferenceText => {
                &&& self.header_fits()
                &&& first_mismatch(self.all_rows(), self.width()) is None
                &&& self.mode.clone_mode == CloneMode::Icl
                &&& self.reference_text is None
            },
            PromptError::MissingIclReferenceCodec => {
                &&& self.header_fits()
                &&& first_mismatch(self.all_rows(), self.width()) is None
                &&& self.mode.clone_mode == CloneMode::Icl
                &&& self.reference_text is Some
                &&& self.reference_codec is None
            },
            PromptError::InvalidWrapper { .. } => false,
        }
    }
}

/// Every row added to one other row.
pub open spec fn added_to<A: Arithmetic>(
    states: Seq<Seq<A::Scalar>>,
    other: Seq<A::Scalar>,
) -> Seq<Seq<A::Scalar>> {
    Seq::new(states.len(), |i: int| kernels::zip::<A>(Binary::Add, states[i], other))
}

/// The header: role rows alone, then every codec row but BOS on text pad, the last on text BOS.
pub open spec fn header_of<A: Arithmetic>(input: PromptAssemblyInput<A::Scalar>) -> Seq<
    Seq<A::Scalar>,
> {
    let codec = input.header.codec_prefill@;
    rows::deep(input.header.role@) + Seq::new(
        (codec.len() - 1) as nat,
        |i: int|
            kernels::zip::<A>(
                Binary::Add,
                if i + 2 == codec.len() {
                    input.header.tts_bos@
                } else {
                    input.header.tts_pad@
                },
                codec[i]@,
            ),
    )
}

/// The text stream and the codec stream side by side, text pad where the text has run out.
pub open spec fn paired_of<A: Arithmetic>(
    text: Seq<Seq<A::Scalar>>,
    codec: Seq<Seq<A::Scalar>>,
    pad: Seq<A::Scalar>,
) -> Seq<Seq<A::Scalar>> {
    Seq::new(
        codec.len(),
        |i: int|
            kernels::zip::<A>(
                Binary::Add,
                if i < text.len() {
                    text[i]
                } else {
                    pad
                },
                codec[i],
            ),
    )
}

/// The prompt.
pub open spec fn prefill_of<A: Arithmetic>(input: PromptAssemblyInput<A::Scalar>) -> Seq<
    Seq<A::Scalar>,
> {
    let header = header_of::<A>(input);
    let target = rows::deep(input.target_text@);
    let pad = input.header.tts_pad@;
    match (input.mode.clone_mode, input.mode.non_streaming_mode) {
        (CloneMode::Icl, true) => header + added_to::<A>(input.text_stream(), input.codec_pad())
            + added_to::<A>(input.codec_stream(), pad),
        (CloneMode::Icl, false) => header + paired_of::<A>(
            input.text_stream(),
            input.codec_stream(),
            pad,
        ),
        (CloneMode::XVector, true) => header + added_to::<A>(
            target + seq![input.tts_eos@],
            input.codec_pad(),
        ) + seq![kernels::zip::<A>(Binary::Add, pad, input.codec_bos())],
        (CloneMode::XVector, false) => if target.len() == 0 {
            header
        } else {
            header + seq![kernels::zip::<A>(Binary::Add, target[0], input.codec_bos())]
        },
    }
}

/// The first mismatch of two lists is in the first, or else in the second.
proof fn lemma_first_mismatch_concat<S>(a: Seq<Seq<S>>, b: Seq<Seq<S>>, width: int)
    ensures
        first_mismatch(a + b, width) == (if first_mismatch(a, width) is Some {
            first_mismatch(a, width)
        } else {
            first_mismatch(b, width)
        }),
    decreases a.len(),
{
    if a.len() == 0 {
        assert(a + b =~= b);
    } else if a[0].len() == width {
        assert((a + b).skip(1) =~= a.skip(1) + b);
        lemma_first_mismatch_concat(a.skip(1), b, width);
    }
}

/// Where there is no mismatch, every row has the width.
pub proof fn lemma_no_mismatch_is_uniform<S>(states: Seq<Seq<S>>, width: int)
    ensures
        (first_mismatch(states, width) is None) == rows::uniform(states, width),
        first_mismatch(states, width) matches Some(w) ==> w != width,
    decreases states.len(),
{
    if states.len() > 0 {
        lemma_no_mismatch_is_uniform(states.skip(1), width);
        if first_mismatch(states, width) is None {
            assert forall|i: int| 0 <= i < states.len() implies (#[trigger] states[i]).len()
                == width by {
                if i > 0 {
                    assert(states.skip(1)[i - 1].len() == width);
                }
            }
        } else if rows::uniform(states, width) {
            assert(states[0].len() == width);
            assert forall|i: int| 0 <= i < states.skip(1).len() implies (
            #[trigger] states.skip(1)[i]).len() == width by {
                assert(states[i + 1].len() == width);
            }
        }
    }
}

/// The width of the first row that is not `width` wide.
fn find_mismatch<S>(states: &Vec<Vec<S>>, width: usize) -> (found: Option<usize>)
    ensures
        match found {
            Some(actual) => first_mismatch(rows::deep(states@), width as int) == Some(
                actual as int,
            ),
            None => first_mismatch(rows::deep(states@), width as int) is None,
        },
{
    let ghost all = rows::deep(states@);
    proof {
        assert(all.skip(0) =~= all);
    }
    for i in 0..states.len()
        invariant
            all == rows::deep(states@),
            first_mismatch(all.skip(i as int), width as int) == first_mismatch(
                all,
                width as int,
            ),
    {
        proof {
            assert(all.skip(i as int).skip(1) =~= all.skip(i + 1));
            assert(all.skip(i as int)[0] == states@[i as int]@);
        }
        if states[i].len() != width {
            return Some(states[i].len());
        }
    }
    None
}

/// The width of the first row of an input that does not fit.
fn find_input_mismatch<S>(input: &PromptAssemblyInput<S>) -> (found: Option<usize>)
    ensures
        match found {
            Some(actual) => first_mismatch(input.all_rows(), input.width()) == Some(actual as int),
            None => first_mismatch(input.all_rows(), input.width()) is None,
        },
{
    let width: usize = input.header.tts_pad.len();
    let ghost w = width as int;
    let ghost role = rows::deep(input.header.role@);
    let ghost codec = rows::deep(input.header.codec_prefill@);
    let ghost marks = seq![input.header.tts_bos@, input.header.tts_pad@, input.tts_eos@];
    let ghost target = rows::deep(input.target_text@);
    proof {
        lemma_first_mismatch_concat(role, codec, w);
        lemma_first_mismatch_concat(role + codec, marks, w);
        lemma_first_mismatch_concat(role + codec + marks, target, w);
        lemma_first_mismatch_concat(role + codec + marks + target, input.reference_rows(), w);
        lemma_first_mismatch_concat(
            role + codec + marks + target + input.reference_rows(),
            input.codec_rows(),
            w,
        );
        assert(marks.skip(1).skip(1) =~= seq![input.tts_eos@]);
        assert(marks.skip(1)[0] == input.header.tts_pad@);
        assert(marks.skip(1).skip(1).skip(1) =~= Seq::<Seq<S>>::empty());
        reveal_with_fuel(first_mismatch, 4);
    }
    if let Some(actual) = find_mismatch(&input.header.role, width) {
        return Some(actual);
    }
    if let Some(actual) = find_mismatch(&input.header.codec_prefill, width) {
        return Some(actual);
    }
    if input.header.tts_bos.len() != width {
        return Some(input.header.tts_bos.len());
    }
    if input.tts_eos.len() != width {
        return Some(input.tts_eos.len());
    }
    if let Some(actual) = find_mismatch(&input.target_text, width) {
        return Some(actual);
    }
    if let Some(states) = &input.reference_text {
        if let Some(actual) = find_mismatch(states, width) {
            return Some(actual);
        }
    }
    if let Some(states) = &input.reference_codec {
        if let Some(actual) = find_mismatch(states, width) {
            return Some(actual);
        }
    }
    None
}

/// Appends every row added to one other row.
fn append_added<A: Arithmetic>(
    out: &mut Vec<Vec<A::Scalar>>,
    states: &Vec<Vec<A::Scalar>>,
    other: &[A::Scalar],
)
    requires
        rows::uniform(rows::deep(states@), other@.len() as int),
        rows::uniform(rows::deep(old(out)@), other@.len() as int),
    ensures
        final(out)@.len() == old(out)@.len() + states@.len(),
        rows::uniform(rows::deep(final(out)@), other@.len() as int),
        arith::pure::<A>() ==> rows::deep(final(out)@) == rows::deep(old(out)@) + added_to::<A>(
            rows::deep(states@),
            other@,
        ),
{
    let ghost start = out@;
    for i in 0..states.len()
        invariant
            rows::uniform(rows::deep(states@), other@.len() as int),
            rows::uniform(rows::deep(out@), other@.len() as int),
            out@.len() == start.len() + i,
            arith::pure::<A>() ==> rows::deep(out@) == rows::deep(start) + added_to::<A>(
                rows::deep(states@),
                other@,
            ).take(i as int),
    {
        let ghost before = rows::deep(out@);
        proof {
            assert(rows::deep(states@)[i as int] == states@[i as int]@);
        }
        let sum = zip_with::<A>(Binary::Add, states[i].as_slice(), other);
        let ghost added = sum@;
        out.push(sum);
        proof {
            assert(rows::deep(out@) =~= before.push(added));
            if arith::pure::<A>() {
                assert(rows::deep(out@) =~= rows::deep(start) + added_to::<A>(
                    rows::deep(states@),
                    other@,
                ).take(i + 1));
            }
        }
    }
    proof {
        if arith::pure::<A>() {
            let all = added_to::<A>(rows::deep(states@), other@);
            assert(all.take(states@.len() as int) =~= all);
        }
    }
}

/// The header rows.
fn header_rows<A: Arithmetic>(input: &PromptAssemblyInput<A::Scalar>) -> (out: Vec<Vec<A::Scalar>>)
    requires
        input.header_fits(),
        rows::uniform(input.all_rows(), input.width()),
    ensures
        out@.len() == input.header_len(),
        rows::uniform(rows::deep(out@), input.width()),
        arith::pure::<A>() ==> rows::deep(out@) == header_of::<A>(*input),
{
    proof {
        lemma_parts_are_uniform(*input);
    }
    let ghost w = input.width();
    let n: usize = input.header.codec_prefill.len() - 1;
    let mut out: Vec<Vec<A::Scalar>> = rows::copy_rows(&input.header.role);
    let ghost expected = header_of::<A>(*input);
    for i in 0..n
        invariant
            w == input.width(),
            input.header.role@.len() == 3,
            n + 1 == input.header.codec_prefill@.len(),
            rows::uniform(rows::deep(input.header.codec_prefill@), w),
            input.header.tts_bos@.len() == w,
            expected == header_of::<A>(*input),
            out@.len() == 3 + i,
            rows::uniform(rows::deep(out@), w),
            arith::pure::<A>() ==> rows::deep(out@) == expected.take(3 + i),
    {
        let ghost before = rows::deep(out@);
        proof {
            assert(rows::deep(input.header.codec_prefill@)[i as int]
                == input.header.codec_prefill@[i as int]@);
        }
        let codec = input.header.codec_prefill[i].as_slice();
        let sum = if i + 1 == n {
            zip_with::<A>(Binary::Add, input.header.tts_bos.as_slice(), codec)
        } else {
            zip_with::<A>(Binary::Add, input.header.tts_pad.as_slice(), codec)
        };
        let ghost added = sum@;
        out.push(sum);
        proof {
            assert(rows::deep(out@) =~= before.push(added));
            if arith::pure::<A>() {
                assert(added == expected[3 + i]);
                assert(rows::deep(out@) =~= expected.take(3 + i + 1));
            }
        }
    }
    proof {
        if arith::pure::<A>() {
            assert(expected.take(3 + n) =~= expected);
        }
    }
    out
}

/// Where all rows have one width, so have the rows of every part.
proof fn lemma_parts_are_uniform<S>(input: PromptAssemblyInput<S>)
    requires
        rows::uniform(input.all_rows(), input.width()),
    ensures
        rows::uniform(rows::deep(input.header.role@), input.width()),
        rows::uniform(rows::deep(input.header.codec_prefill@), input.width()),
        input.header.tts_bos@.len() == input.width(),
        input.tts_eos@.len() == input.width(),
        rows::uniform(rows::deep(input.target_text@), input.width()),
        rows::uniform(input.reference_rows(), input.width()),
        rows::uniform(input.codec_rows(), input.width()),
{
    let w = input.width();
    let role = rows::deep(input.header.role@);
    let codec = rows::deep(input.header.codec_prefill@);
    let marks = seq![input.header.tts_bos@, input.header.tts_pad@, input.tts_eos@];
    let target = rows::deep(input.target_text@);
    lemma_no_mismatch_is_uniform(input.all_rows(), w);
    lemma_first_mismatch_concat(role, codec, w);
    lemma_first_mismatch_concat(role + codec, marks, w);
    lemma_first_mismatch_concat(role + codec + marks, target, w);
    lemma_first_mismatch_concat(role + codec + marks + target, input.reference_rows(), w);
    lemma_first_mismatch_concat(
        role + codec + marks + target + input.reference_rows(),
        input.codec_rows(),
        w,
    );
    lemma_no_mismatch_is_uniform(role, w);
    lemma_no_mismatch_is_uniform(codec, w);
    lemma_no_mismatch_is_uniform(marks, w);
    lemma_no_mismatch_is_uniform(target, w);
    lemma_no_mismatch_is_uniform(input.reference_rows(), w);
    lemma_no_mismatch_is_uniform(input.codec_rows(), w);
    assert(marks[0].len() == w);
    assert(marks[2].len() == w);
}

/// One more row of the same width.
proof fn lemma_uniform_push<S>(states: Seq<Seq<S>>, last: Seq<S>, w: int)
    requires
        rows::uniform(states, w),
        last.len() == w,
    ensures
        rows::uniform(states.push(last), w),
{
}

/// The prompt on reference codes.
fn assemble_icl<A: Arithmetic>(
    input: &PromptAssemblyInput<A::Scalar>,
    header: Vec<Vec<A::Scalar>>,
    reference_text: &Vec<Vec<A::Scalar>>,
    reference_codec: &Vec<Vec<A::Scalar>>,
) -> (assembly: PromptAssembly<A::Scalar>)
    requires
        input.header_fits(),
        input.countable(),
        input.mode.clone_mode == CloneMode::Icl,
        input.reference_text == Some(*reference_text),
        input.reference_codec == Some(*reference_codec),
        rows::uniform(input.all_rows(), input.width()),
        header@.len() == input.header_len(),
        rows::uniform(rows::deep(header@), input.width()),
        arith::pure::<A>() ==> rows::deep(header@) == header_of::<A>(*input),
    ensures
        assembly.prefill@.len() == prefill_of::<A>(*input).len(),
        rows::uniform(rows::deep(assembly.prefill@), input.width()),
        arith::pure::<A>() ==> rows::deep(assembly.prefill@) == prefill_of::<A>(*input),
        rows::deep(assembly.trailing_text_hidden@) == input.trailing(),
        assembly.target_independent_prefix_len == input.prefix_len(),
{
    proof {
        lemma_parts_are_uniform(*input);
    }
    let ghost w = input.width();
    let n: usize = input.header.codec_prefill.len();
    let codec_bos = input.header.codec_prefill[n - 1].as_slice();
    let codec_pad = input.header.codec_prefill[n - 2].as_slice();
    proof {
        assert(rows::deep(input.header.codec_prefill@)[n - 1] == codec_bos@);
        assert(rows::deep(input.header.codec_prefill@)[n - 2] == codec_pad@);
    }
    let mut text_stream = concat_rows(reference_text, &input.target_text);
    let ghost open = rows::deep(text_stream@);
    text_stream.push(slice_to_vec(input.tts_eos.as_slice()));
    let mut codec_stream: Vec<Vec<A::Scalar>> = Vec::new();
    codec_stream.push(slice_to_vec(codec_bos));
    let codec_stream = concat_rows(&codec_stream, reference_codec);
    proof {
        rows::lemma_uniform_concat(
            input.reference_rows(),
            rows::deep(input.target_text@),
            w,
        );
        assert(rows::deep(text_stream@) =~= open.push(input.tts_eos@));
        assert(rows::deep(text_stream@) =~= input.text_stream());
        assert(rows::deep(codec_stream@) =~= input.codec_stream());
        lemma_uniform_push(open, input.tts_eos@, w);
        rows::lemma_uniform_concat(seq![codec_bos@], input.codec_rows(), w);
    }
    let header_len: usize = header.len();
    let prefix_len: usize = header_len + reference_text.len();
    let mut prefill = header;
    proof {
        assert(rows::deep(text_stream@).len() == text_stream@.len());
        assert(rows::deep(codec_stream@).len() == codec_stream@.len());
    }
    if input.mode.non_streaming_mode {
        append_added::<A>(&mut prefill, &text_stream, codec_pad);
        append_added::<A>(&mut prefill, &codec_stream, input.header.tts_pad.as_slice());
        let mut trailing: Vec<Vec<A::Scalar>> = Vec::new();
        trailing.push(slice_to_vec(input.header.tts_pad.as_slice()));
        proof {
            assert(rows::deep(trailing@) =~= input.trailing());
        }
        return PromptAssembly {
            prefill,
            trailing_text_hidden: trailing,
            target_independent_prefix_len: prefix_len,
        };
    }
    let ghost header = rows::deep(prefill@);
    let ghost paired = paired_of::<A>(
        input.text_stream(),
        input.codec_stream(),
        input.header.tts_pad@,
    );
    for i in 0..codec_stream.len()
        invariant
            w == input.width(),
            rows::deep(text_stream@) == input.text_stream(),
            rows::deep(codec_stream@) == input.codec_stream(),
            rows::uniform(rows::deep(text_stream@), w),
            rows::uniform(rows::deep(codec_stream@), w),
            paired == paired_of::<A>(
                input.text_stream(),
                input.codec_stream(),
                input.header.tts_pad@,
            ),
            prefill@.len() == header.len() + i,
            rows::uniform(rows::deep(prefill@), w),
            arith::pure::<A>() ==> rows::deep(prefill@) == header + paired.take(i as int),
    {
        let ghost before = rows::deep(prefill@);
        proof {
            assert(rows::deep(codec_stream@)[i as int] == codec_stream@[i as int]@);
            assert(rows::deep(text_stream@).len() == text_stream@.len());
            if i < text_stream@.len() {
                assert(rows::deep(text_stream@)[i as int] == text_stream@[i as int]@);
            }
        }
        let sum = if i < text_stream.len() {
            zip_with::<A>(Binary::Add, text_stream[i].as_slice(), codec_stream[i].as_slice())
        } else {
            zip_with::<A>(
                Binary::Add,
                input.header.tts_pad.as_slice(),
                codec_stream[i].as_slice(),
            )
        };
        let ghost added = sum@;
        prefill.push(sum);
        proof {
            assert(rows::deep(prefill@) =~= before.push(added));
            if arith::pure::<A>() {
                assert(added == paired[i as int]);
                assert(rows::deep(prefill@) =~= header + paired.take(i + 1));
            }
        }
    }
    proof {
        if arith::pure::<A>() {
            assert(paired.take(codec_stream@.len() as int) =~= paired);
        }
    }
    let trailing = if text_stream.len() > codec_stream.len() {
        rows::tail_rows(&text_stream, codec_stream.len())
    } else {
        let mut trailing: Vec<Vec<A::Scalar>> = Vec::new();
        trailing.push(slice_to_vec(input.header.tts_pad.as_slice()));
        trailing
    };
    proof {
        assert(rows::deep(trailing@) =~= input.trailing());
    }
    let covered: usize = header_len + codec_stream.len();
    PromptAssembly {
        prefill,
        trailing_text_hidden: trailing,
        target_independent_prefix_len: if covered < prefix_len {
            covered
        } else {
            prefix_len
        },
    }
}

/// The prompt on a speaker vector.
fn assemble_xvector<A: Arithmetic>(
    input: &PromptAssemblyInput<A::Scalar>,
    header: Vec<Vec<A::Scalar>>,
) -> (assembly: PromptAssembly<A::Scalar>)
    requires
        input.header_fits(),
        input.mode.clone_mode == CloneMode::XVector,
        rows::uniform(input.all_rows(), input.width()),
        header@.len() == input.header_len(),
        rows::uniform(rows::deep(header@), input.width()),
        arith::pure::<A>() ==> rows::deep(header@) == header_of::<A>(*input),
    ensures
        assembly.prefill@.len() == prefill_of::<A>(*input).len(),
        rows::uniform(rows::deep(assembly.prefill@), input.width()),
        arith::pure::<A>() ==> rows::deep(assembly.prefill@) == prefill_of::<A>(*input),
        rows::deep(assembly.trailing_text_hidden@) == input.trailing(),
        assembly.target_independent_prefix_len == input.prefix_len(),
{
    proof {
        lemma_parts_are_uniform(*input);
    }
    let ghost w = input.width();
    let n: usize = input.header.codec_prefill.len();
    let codec_bos = input.header.codec_prefill[n - 1].as_slice();
    let codec_pad = input.header.codec_prefill[n - 2].as_slice();
    proof {
        assert(rows::deep(input.header.codec_prefill@)[n - 1] == codec_bos@);
        assert(rows::deep(input.header.codec_prefill@)[n - 2] == codec_pad@);
    }
    let header_len: usize = header.len();
    let mut prefill = header;
    let mut trailing: Vec<Vec<A::Scalar>> = Vec::new();
    if input.mode.non_streaming_mode {
        let mut states = rows::copy_rows(&input.target_text);
        states.push(slice_to_vec(input.tts_eos.as_slice()));
        proof {
            lemma_uniform_push(rows::deep(input.target_text@), input.tts_eos@, w);
            assert(rows::deep(states@) =~= rows::deep(input.target_text@).push(input.tts_eos@));
            assert(rows::deep(states@) =~= rows::deep(input.target_text@) + seq![input.tts_eos@]);
            assert(rows::deep(states@).len() == states@.len());
        }
        append_added::<A>(&mut prefill, &states, codec_pad);
        let ghost before = rows::deep(prefill@);
        let sum = zip_with::<A>(Binary::Add, input.header.tts_pad.as_slice(), codec_bos);
        let ghost added = sum@;
        prefill.push(sum);
        trailing.push(slice_to_vec(input.header.tts_pad.as_slice()));
        proof {
            assert(rows::deep(prefill@) =~= before.push(added));
            lemma_uniform_push(before, added, w);
            if arith::pure::<A>() {
                assert(rows::deep(prefill@) =~= prefill_of::<A>(*input));
            }
            assert(rows::deep(trailing@) =~= input.trailing());
        }
    } else {
        if input.target_text.len() > 0 {
            proof {
                assert(rows::deep(input.target_text@)[0] == input.target_text@[0]@);
            }
            let ghost before = rows::deep(prefill@);
            let sum = zip_with::<A>(Binary::Add, input.target_text[0].as_slice(), codec_bos);
            let ghost added = sum@;
            prefill.push(sum);
            trailing = rows::tail_rows(&input.target_text, 1);
            proof {
                assert(rows::deep(prefill@) =~= before.push(added));
                lemma_uniform_push(before, added, w);
                if arith::pure::<A>() {
                    assert(rows::deep(prefill@) =~= prefill_of::<A>(*input));
                }
            }
        }
        proof {
            assert(rows::deep(trailing@) =~= input.uncovered());
        }
        if !input.hold_tts_eos {
            let ghost before = rows::deep(trailing@);
            trailing.push(slice_to_vec(input.tts_eos.as_slice()));
            proof {
                assert(rows::deep(trailing@) =~= before.push(input.tts_eos@));
            }
        }
        proof {
            assert(rows::deep(trailing@) =~= input.trailing());
        }
    }
    PromptAssembly {
        prefill,
        trailing_text_hidden: trailing,
        target_independent_prefix_len: header_len,
    }
}

/// Assembles one prompt.
///
/// An empty text follows the zero-length streaming rule: no first position is invented, and only
/// EOS trails.
pub fn assemble_prompt<A: Arithmetic>(input: PromptAssemblyInput<A::Scalar>) -> (result: Result<
    PromptAssembly<A::Scalar>,
    PromptError,
>)
    requires
        input.countable(),
    ensures
        match result {
            Ok(assembly) => {
                &&& input.header_fits()
                &&& first_mismatch(input.all_rows(), input.width()) is None
                &&& input.mode.clone_mode == CloneMode::Icl ==> input.reference_text is Some
                    && input.reference_codec is Some
                &&& assembly.prefill@.len() == prefill_of::<A>(input).len()
                &&& rows::uniform(rows::deep(assembly.prefill@), input.width())
                &&& arith::pure::<A>() ==> rows::deep(assembly.prefill@) == prefill_of::<A>(input)
                &&& rows::deep(assembly.trailing_text_hidden@) == input.trailing()
                &&& assembly.target_independent_prefix_len == input.prefix_len()
            },
            Err(error) => input.refused(error),
        },
{
    if input.header.role.len() != 3 || input.header.codec_prefill.len() < 2 {
        return Err(PromptError::InvalidHeader);
    }
    if let Some(actual) = find_input_mismatch(&input) {
        return Err(PromptError::WidthMismatch { expected: input.header.tts_pad.len(), actual });
    }
    proof {
        lemma_no_mismatch_is_uniform(input.all_rows(), input.width());
    }
    let header = header_rows::<A>(&input);
    match input.mode.clone_mode {
        CloneMode::Icl => match &input.reference_text {
            None => Err(PromptError::MissingIclReferenceText),
            Some(reference_text) => match &input.reference_codec {
                None => Err(PromptError::MissingIclReferenceCodec),
                Some(reference_codec) => Ok(
                    assemble_icl::<A>(&input, header, reference_text, reference_codec),
                ),
            },
        },
        CloneMode::XVector => Ok(assemble_xvector::<A>(&input, header)),
    }
}

/// The four prompt lengths, and how much text trails each.
pub proof fn law_prompt_lengths<A: Arithmetic>(input: PromptAssemblyInput<A::Scalar>)
    requires
        input.header_fits(),
    ensures
        ({
            let header = input.header_len();
            let text = input.text_stream().len();
            let codec = input.codec_stream().len();
            let target = input.target_text@.len();
            let prefill = prefill_of::<A>(input).len();
            let trailing = input.trailing().len();
            match (input.mode.clone_mode, input.mode.non_streaming_mode) {
                (CloneMode::Icl, true) => prefill == header + text + codec && trailing == 1,
                (CloneMode::Icl, false) => prefill == header + codec && trailing == (if text
                    > codec {
                    text - codec
                } else {
                    1
                }),
                (CloneMode::XVector, true) => prefill == header + target + 2 && trailing == 1,
                (CloneMode::XVector, false) => {
                    let held = if input.hold_tts_eos {
                        0int
                    } else {
                        1
                    };
                    if target == 0 {
                        prefill == header && trailing == held
                    } else {
                        prefill == header + 1 && trailing == target - 1 + held
                    }
                },
            }
        }),
{
}

/// The text to speak leaves the target-independent prefix of a prompt unchanged.
pub proof fn law_prefix_is_independent_of_the_target<A: Arithmetic>(
    a: PromptAssemblyInput<A::Scalar>,
    b: PromptAssemblyInput<A::Scalar>,
)
    requires
        a.header_fits(),
        b == (PromptAssemblyInput { target_text: b.target_text, ..a }),
    ensures
        a.prefix_len() == b.prefix_len(),
        0 <= a.prefix_len() <= prefill_of::<A>(a).len(),
        a.prefix_len() <= prefill_of::<A>(b).len(),
        prefill_of::<A>(a).take(a.prefix_len()) == prefill_of::<A>(b).take(a.prefix_len()),
{
    let n = a.prefix_len();
    let x = prefill_of::<A>(a);
    let y = prefill_of::<A>(b);
    assert(header_of::<A>(a) == header_of::<A>(b));
    assert(a.codec_stream() == b.codec_stream());
    assert(a.reference_rows() == b.reference_rows());
    assert(header_of::<A>(a).len() == a.header_len());
    assert forall|i: int| 0 <= i < n implies #[trigger] x[i] == y[i] by {
        let h = a.header_len();
        if i < h {
            assert(x[i] == header_of::<A>(a)[i]);
            assert(y[i] == header_of::<A>(b)[i]);
        } else {
            assert(i - h < a.reference_rows().len());
            assert(a.text_stream()[i - h] == a.reference_rows()[i - h]);
            assert(b.text_stream()[i - h] == b.reference_rows()[i - h]);
        }
    }
    assert(x.take(n) =~= y.take(n));
}

/// What trails a prompt whose rows are equally wide is as wide.
pub proof fn lemma_trailing_is_uniform<S>(input: PromptAssemblyInput<S>)
    requires
        first_mismatch(input.all_rows(), input.width()) is None,
    ensures
        rows::uniform(input.trailing(), input.width()),
{
    let w = input.width();
    let all = input.all_rows();
    lemma_no_mismatch_is_uniform(all, w);
    let before = rows::deep(input.header.role@) + rows::deep(input.header.codec_prefill@);
    let n = before.len() as int;
    let target = rows::deep(input.target_text@);
    let reference = input.reference_rows();
    assert(all[n + 1] == input.header.tts_pad@);
    assert(all[n + 2] == input.tts_eos@);
    assert forall|i: int| 0 <= i < target.len() implies (#[trigger] target[i]).len() == w by {
        assert(all[n + 3 + i] == target[i]);
    }
    assert forall|i: int| 0 <= i < reference.len() implies (#[trigger] reference[i]).len() == w by {
        assert(all[n + 3 + target.len() + i] == reference[i]);
    }
    assert(all[n + 2].len() == w);
    rows::lemma_uniform_concat(reference, target, w);
    assert(rows::uniform(seq![input.tts_eos@], w));
    rows::lemma_uniform_concat(reference + target, seq![input.tts_eos@], w);
    if input.text_stream().len() > input.codec_stream().len() {
        rows::lemma_uniform_skip(input.text_stream(), input.codec_stream().len() as int, w);
    }
    if target.len() > 0 {
        rows::lemma_uniform_skip(target, 1, w);
    }
    rows::lemma_uniform_concat(input.uncovered(), seq![input.tts_eos@], w);
    rows::lemma_uniform_concat(input.uncovered(), Seq::empty(), w);
}

/// That two headers hold the same rows.
pub open spec fn same_header<S>(a: PromptHeader<S>, b: PromptHeader<S>) -> bool {
    &&& rows::deep(a.role@) == rows::deep(b.role@)
    &&& rows::deep(a.codec_prefill@) == rows::deep(b.codec_prefill@)
    &&& a.tts_bos@ == b.tts_bos@
    &&& a.tts_pad@ == b.tts_pad@
}

/// A copy of a header.
pub fn copy_header<S: Copy>(header: &PromptHeader<S>) -> (copy: PromptHeader<S>)
    ensures
        same_header(copy, *header),
{
    PromptHeader {
        role: copy_rows(&header.role),
        codec_prefill: copy_rows(&header.codec_prefill),
        tts_bos: slice_to_vec(header.tts_bos.as_slice()),
        tts_pad: slice_to_vec(header.tts_pad.as_slice()),
    }
}

} // verus!
