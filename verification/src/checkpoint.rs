//! Hydration: from stored tensors to the weights the model borrows.
//!
//! The talker, microdecoder and embeddings come from one artifact ([`talker`]), the codec decoder
//! from another ([`decoder`]). The text embedding is the largest tensor of all and an utterance
//! touches a few dozen of its rows, so only those are widened ([`embedding`]).
use vstd::prelude::*;
use vstd::slice::slice_to_vec;
use vstd::string::StringExecFns;
use crate::arith;
use crate::arith::Arithmetic;
use crate::codec::CodecError;
use crate::storage;
use crate::storage::TensorFault;
use crate::tensor_file;
use crate::tensor_file::{widen, TensorFile};
use crate::text;
use crate::text::{append_decimal, append_list, join_number};

pub mod decoder;
pub mod decoder_laws;
pub mod decoder_plan;
pub mod embedding;
pub mod naming_laws;
pub mod plan;
pub mod store;
pub mod talker;

pub use self::decoder::CodecCheckpoint;
pub use self::embedding::{CopiedRows, TextEmbeddingTable};
pub use self::store::{FileStore, TensorStore, WidenedTensors};
pub use self::talker::TalkerCheckpoint;

verus! {

/// Talker decoder layers.
pub const TALKER_LAYER_COUNT: usize = 28;

/// Code groups per frame: one primary code and fifteen residuals.
pub const CODE_GROUP_COUNT: usize = 16;

/// Width of the talker's hidden state.
pub const TALKER_HIDDEN: usize = 1_024;

/// Width of one text-embedding row, before the projection narrows it.
pub const TEXT_EMBED_WIDTH: usize = 2_048;

/// Rows of the text embedding.
pub const TEXT_VOCAB: usize = 151_936;

/// Closes the assistant wrapper.
pub const IM_END_TOKEN_ID: u32 = 151_645;

/// Newline, the third id of the role prefix and of the target suffix.
pub const NEWLINE_TOKEN_ID: u32 = 198;

/// Text pad, summed into every codec-only header position.
pub const TTS_PAD_TOKEN_ID: u32 = 151_671;

/// Text BOS, which marks the last header position.
pub const TTS_BOS_TOKEN_ID: u32 = 151_672;

/// Text EOS, which trails the text.
pub const TTS_EOS_TOKEN_ID: u32 = 151_673;

/// Codec pad.
pub const CODEC_PAD_ID: usize = 2_148;

/// Codec BOS.
pub const CODEC_BOS_ID: usize = 2_149;

/// Opens the think block.
pub const CODEC_THINK_ID: usize = 2_154;

/// BOS of the think block.
pub const CODEC_THINK_BOS_ID: usize = 2_156;

/// EOS of the think block.
pub const CODEC_THINK_EOS_ID: usize = 2_157;

/// English, inside the think block.
pub const CODEC_LANGUAGE_ENGLISH_ID: usize = 2_050;

/// A checkpoint that cannot be hydrated.
#[derive(Clone, Debug, PartialEq, Eq)]
pub enum CheckpointError {
    /// The source could not be opened.
    Open {
        /// Where.
        path: String,
        /// Why not.
        detail: String,
    },
    /// A required tensor is absent.
    MissingTensor {
        /// Where.
        path: String,
        /// Which.
        tensor: String,
    },
    /// A tensor holds another number of elements than required.
    TensorShape {
        /// Which.
        tensor: String,
        /// Elements required.
        expected: usize,
        /// Elements held.
        actual: usize,
    },
    /// A tensor declares other axes than required. A transposed projection holds the right number
    /// of elements, and only its axes show it.
    TensorAxes {
        /// Which.
        tensor: String,
        /// Axes required.
        expected: String,
        /// Axes declared.
        actual: Vec<usize>,
    },
    /// A stored tensor cannot be widened safely.
    ArtifactTensor {
        /// Where.
        path: String,
        /// Which.
        tensor: String,
        /// Why not.
        detail: String,
    },
    /// A speaker vector has the wrong width.
    SpeakerWidth {
        /// Width required.
        expected: usize,
        /// Width supplied.
        actual: usize,
    },
    /// The codec refused.
    Codec(CodecError),
}

impl CheckpointError {
    /// The message of an error.
    pub open spec fn text(&self) -> Seq<char> {
        match self {
            CheckpointError::Open { path, detail } => "cannot open checkpoint "@ + path@ + ": "@
                + detail@,
            CheckpointError::MissingTensor { path, tensor } => "checkpoint "@ + path@
                + " has no tensor `"@ + tensor@
                + "`; this is not a pinned Qwen3-TTS checkpoint"@,
            CheckpointError::TensorShape { tensor, expected, actual } => "tensor `"@ + tensor@
                + "` holds "@ + text::decimal_of(*actual as nat) + " elements, expected "@
                + text::decimal_of(*expected as nat),
            CheckpointError::TensorAxes { tensor, expected, actual } => "tensor `"@ + tensor@
                + "` declares shape "@ + text::list_of(text::lengths(actual@)) + ", expected "@
                + expected@ + "; a transposed or reshaped export cannot be hydrated"@,
            CheckpointError::ArtifactTensor { path, tensor, detail } => "canonical artifact "@
                + path@ + " cannot hydrate tensor `"@ + tensor@ + "`: "@ + detail@,
            CheckpointError::SpeakerWidth { expected, actual } => "speaker embedding is "@
                + text::decimal_of(*actual as nat) + " floats wide, expected "@ + text::decimal_of(
                *expected as nat,
            ),
            CheckpointError::Codec(error) => "codec decode failed: "@ + error.text(),
        }
    }

    /// The message of an error.
    pub fn message(&self) -> (message: String)
        ensures
            message@ == self.text(),
    {
        match self {
            CheckpointError::Open { path, detail } => {
                let mut message = String::from_str("cannot open checkpoint ");
                message.append(path.as_str());
                message.append(": ");
                message.append(detail.as_str());
                message
            },
            CheckpointError::MissingTensor { path, tensor } => {
                let mut message = String::from_str("checkpoint ");
                message.append(path.as_str());
                message.append(" has no tensor `");
                message.append(tensor.as_str());
                message.append("`; this is not a pinned Qwen3-TTS checkpoint");
                message
            },
            CheckpointError::TensorShape { tensor, expected, actual } => {
                let mut message = String::from_str("tensor `");
                message.append(tensor.as_str());
                message.append("` holds ");
                append_decimal(&mut message, *actual);
                message.append(" elements, expected ");
                append_decimal(&mut message, *expected);
                message
            },
            CheckpointError::TensorAxes { tensor, expected, actual } => {
                let mut message = String::from_str("tensor `");
                message.append(tensor.as_str());
                message.append("` declares shape ");
                append_list(&mut message, actual.as_slice());
                message.append(", expected ");
                message.append(expected.as_str());
                message.append("; a transposed or reshaped export cannot be hydrated");
                message
            },
            CheckpointError::ArtifactTensor { path, tensor, detail } => {
                let mut message = String::from_str("canonical artifact ");
                message.append(path.as_str());
                message.append(" cannot hydrate tensor `");
                message.append(tensor.as_str());
                message.append("`: ");
                message.append(detail.as_str());
                message
            },
            CheckpointError::SpeakerWidth { expected, actual } => {
                let mut message = join_number(
                    "speaker embedding is ",
                    *actual,
                    " floats wide, expected ",
                );
                append_decimal(&mut message, *expected);
                message
            },
            CheckpointError::Codec(error) => {
                let mut message = String::from_str("codec decode failed: ");
                message.append(error.message().as_str());
                message
            },
        }
    }

    /// That the error reports a fault of a tensor of `path`.
    pub open spec fn reports(&self, path: Seq<char>, fault: storage::Fault) -> bool {
        match fault {
            storage::Fault::Missing(name) => self matches CheckpointError::MissingTensor {
                path: p,
                tensor,
            } && p@ == path && tensor@ == name,
            storage::Fault::Wrong(name, why) => self matches CheckpointError::ArtifactTensor {
                path: p,
                tensor,
                detail,
            } && p@ == path && tensor@ == name && detail@ == why,
        }
    }
}

/// Reports a fault of a tensor of `path`.
pub fn artifact_tensor_error(path: &str, fault: TensorFault) -> (error: CheckpointError)
    ensures
        error.reports(path@, fault.fault()),
{
    match fault {
        TensorFault::Missing { tensor } => CheckpointError::MissingTensor {
            path: String::from_str(path),
            tensor,
        },
        TensorFault::Wrong { tensor, detail } => CheckpointError::ArtifactTensor {
            path: String::from_str(path),
            tensor,
            detail,
        },
    }
}

/// A tensor of a file, where it widens to `expected` numbers.
pub open spec fn exact_tensor<A: Arithmetic>(
    file: TensorFile<A::Scalar>,
    name: Seq<char>,
    expected: int,
) -> Option<Seq<A::Scalar>> {
    match tensor_file::widened::<A>(file, name) {
        Ok(values) => if values.len() == expected {
            Some(values)
        } else {
            None
        },
        Err(_) => None,
    }
}

/// That `error` is why a tensor of a file does not widen to `expected` numbers.
pub open spec fn exact_refused<A: Arithmetic>(
    file: TensorFile<A::Scalar>,
    path: Seq<char>,
    name: Seq<char>,
    expected: int,
    error: CheckpointError,
) -> bool {
    match tensor_file::widened::<A>(file, name) {
        Ok(values) => {
            &&& values.len() != expected
            &&& error matches CheckpointError::TensorShape { tensor, expected: want, actual }
                && tensor@ == name && want == expected && actual == values.len()
        },
        Err(fault) => error.reports(path, fault),
    }
}

/// Widens a tensor of a file that must hold `expected` numbers.
pub fn widen_exact<A: Arithmetic>(
    file: &TensorFile<A::Scalar>,
    path: &str,
    name: &str,
    expected: usize,
) -> (result: Result<Vec<A::Scalar>, CheckpointError>)
    ensures
        match result {
            Ok(values) => {
                &&& exact_tensor::<A>(*file, name@, expected as int) is Some
                &&& values@.len() == expected
                &&& arith::pure::<A>() ==> exact_tensor::<A>(
                    *file,
                    name@,
                    expected as int,
                ) == Some(values@)
            },
            Err(error) => {
                &&& exact_tensor::<A>(*file, name@, expected as int) is None
                &&& exact_refused::<A>(*file, path@, name@, expected as int, error)
            },
        },
{
    match widen::<A>(file, name) {
        Ok(values) => {
            if values.len() != expected {
                return Err(
                    CheckpointError::TensorShape {
                        tensor: String::from_str(name),
                        expected,
                        actual: values.len(),
                    },
                );
            }
            Ok(values)
        },
        Err(fault) => Err(artifact_tensor_error(path, fault)),
    }
}

/// The axes a tensor must declare.
///
/// A matrix may leave its rows open, as a vocabulary; its columns still catch every transpose.
#[derive(Clone, Copy, Debug, PartialEq, Eq)]
pub enum ShapeSpec {
    /// One axis.
    Vector(usize),
    /// Two axes.
    Matrix {
        /// Rows, where they are fixed.
        rows: Option<usize>,
        /// Columns.
        cols: usize,
    },
}

impl ShapeSpec {
    /// That declared axes are the required ones.
    pub open spec fn admits(&self, shape: Seq<usize>) -> bool {
        match self {
            ShapeSpec::Vector(n) => shape == seq![*n],
            ShapeSpec::Matrix { rows, cols } => {
                &&& shape.len() == 2
                &&& shape[1] == *cols
                &&& rows matches Some(r) ==> shape[0] == r
            },
        }
    }

    /// The axes as they are written out.
    pub open spec fn text(&self) -> Seq<char> {
        match self {
            ShapeSpec::Vector(n) => "["@ + text::decimal_of(*n as nat) + "]"@,
            ShapeSpec::Matrix { rows: Some(r), cols } => "["@ + text::decimal_of(*r as nat) + ", "@
                + text::decimal_of(*cols as nat) + "]"@,
            ShapeSpec::Matrix { rows: None, cols } => "[_, "@ + text::decimal_of(*cols as nat)
                + "]"@,
        }
    }

    /// The axes as they are written out.
    pub fn describe(&self) -> (text: String)
        ensures
            text@ == self.text(),
    {
        match self {
            ShapeSpec::Vector(n) => join_number("[", *n, "]"),
            ShapeSpec::Matrix { rows, cols } => match rows {
                Some(r) => {
                    let mut text = join_number("[", *r, ", ");
                    append_decimal(&mut text, *cols);
                    text.append("]");
                    text
                },
                None => join_number("[_, ", *cols, "]"),
            },
        }
    }

    /// Refuses a tensor that declares other axes.
    pub fn check(&self, tensor: &str, shape: &[usize]) -> (result: Result<(), CheckpointError>)
        ensures
            match result {
                Ok(()) => self.admits(shape@),
                Err(error) => !self.admits(shape@) && self.refuses(error, tensor@, shape@),
            },
    {
        let admitted = match self {
            ShapeSpec::Vector(n) => shape.len() == 1 && shape[0] == *n,
            ShapeSpec::Matrix { rows, cols } => shape.len() == 2 && shape[1] == *cols && (
            match rows {
                Some(r) => shape[0] == *r,
                None => true,
            }),
        };
        if admitted {
            proof {
                if let ShapeSpec::Vector(n) = self {
                    assert(shape@ =~= seq![*n]);
                }
            }
            Ok(())
        } else {
            Err(
                CheckpointError::TensorAxes {
                    tensor: String::from_str(tensor),
                    expected: self.describe(),
                    actual: slice_to_vec(shape),
                },
            )
        }
    }

    /// That an error refuses a tensor for its axes.
    pub open spec fn refuses(
        &self,
        error: CheckpointError,
        name: Seq<char>,
        shape: Seq<usize>,
    ) -> bool {
        error matches CheckpointError::TensorAxes { tensor, expected, actual } && tensor@ == name
            && expected@ == self.text() && actual@ == shape
    }
}

/// A matrix with different axes is refused when it is stored the other way round.
pub proof fn law_transposed_matrices_are_refused(rows: Option<usize>, cols: usize, r: usize)
    requires
        rows matches Some(n) ==> r == n,
        r != cols,
    ensures
        (ShapeSpec::Matrix { rows, cols }).admits(seq![r, cols]),
        !(ShapeSpec::Matrix { rows, cols }).admits(seq![cols, r]),
{
}

/// Which stacks may leave their eight-bit projections unwidened.
#[derive(Clone, Copy, Debug, PartialEq, Eq, Structural)]
pub struct HotElision {
    /// The talker's projections.
    pub talker: bool,
    /// The microdecoder's projections.
    pub micro: bool,
}

impl Default for HotElision {
    fn default() -> (elision: Self)
        ensures
            !elision.talker,
            !elision.micro,
    {
        HotElision { talker: false, micro: false }
    }
}

} // verus!
