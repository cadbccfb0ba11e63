//! The talker's checkpoint: talker, microdecoder, feedback tables and text projection.
use vstd::prelude::*;
use vstd::slice::slice_to_vec;
use vstd::string::StringExecFns;
use crate::arith;
use crate::checkpoint::embedding;
use crate::checkpoint::embedding::{CopiedRows, TextEmbeddingTable};
use crate::checkpoint::plan;
use crate::checkpoint::plan::{
    tensor_axes, tensor_elided, tensor_name, StackShape, HEAD_BASE, MICRO_BASE, MICRO_LAYER_COUNT,
    SINGLE_BASE, TABLE_BASE, TENSOR_COUNT,
};
use crate::checkpoint::{
    artifact_tensor_error, CheckpointError, HotElision, ShapeSpec, CODEC_BOS_ID, CODEC_PAD_ID,
    CODEC_THINK_BOS_ID, CODEC_THINK_EOS_ID, CODEC_THINK_ID, IM_END_TOKEN_ID, NEWLINE_TOKEN_ID,
    TALKER_HIDDEN, TALKER_LAYER_COUNT, TEXT_EMBED_WIDTH, TEXT_VOCAB, TTS_BOS_TOKEN_ID,
    TTS_EOS_TOKEN_ID, TTS_PAD_TOKEN_ID,
};
use crate::generate::{FeedbackTables, TextEmbeddingWeights};
use crate::ids;
use crate::microdecoder::{LayerWeights, MicrodecoderWeights};
use crate::prompt;
use crate::prompt::{PromptHeader, ROLE_PREFIX_IDS};
use crate::rows;
use crate::rows::{append_row, row_of};
use crate::storage;
use crate::storage::{widen_tensor, Artifact, Bits};
use crate::talker;
use crate::talker::{project_embedding, TalkerLayerWeights, TalkerWeights, TextProjection};
use crate::tensor_file;
use crate::tensor_file::{widen, TensorFile};

verus! {

/// Declared axes as lengths; one that cannot be counted is as long as can be.
pub open spec fn extents_of(shape: Seq<u64>) -> Seq<usize> {
    Seq::new(
        shape.len(),
        |i: int|
            if shape[i] <= usize::MAX {
                shape[i] as usize
            } else {
                usize::MAX
            },
    )
}

/// Declared axes as lengths.
fn extents(shape: &Vec<u64>) -> (out: Vec<usize>)
    ensures
        out@ == extents_of(shape@),
{
    let mut out: Vec<usize> = Vec::new();
    for i in 0..shape.len()
        invariant
            out@.len() == i,
            forall|j: int| 0 <= j < i ==> #[trigger] out@[j] == extents_of(shape@)[j],
    {
        out.push(
            if shape[i] <= usize::MAX as u64 {
                shape[i] as usize
            } else {
                usize::MAX
            },
        );
    }
    proof {
        assert(out@ =~= extents_of(shape@));
    }
    out
}

/// Where a checkpoint's tensors stand.
pub enum Origin<S> {
    /// In a verified artifact.
    Artifact(Artifact),
    /// In a parsed file.
    File(TensorFile<S>),
}

/// What a checkpoint is hydrated from, and how.
pub struct Hydration<S> {
    /// Where the tensors stand.
    pub origin: Origin<S>,
    /// What is left unwidened.
    pub elision: HotElision,
    /// The talker's widths.
    pub talker: StackShape,
    /// The microdecoder's widths.
    pub micro: StackShape,
}

impl<S> Hydration<S> {
    /// That tensor `i` is left unwidened. A file leaves none.
    pub open spec fn elided(&self, i: int) -> bool {
        match self.origin {
            Origin::Artifact(artifact) => plan::elided(artifact, self.elision, i),
            Origin::File(_) => false,
        }
    }

    /// The axes that a tensor declares.
    pub open spec fn shape(&self, name: Seq<char>) -> Option<Seq<u64>> {
        match self.origin {
            Origin::Artifact(artifact) => match artifact.found(name) {
                Some(entry) => Some(entry.shape@),
                None => None,
            },
            Origin::File(file) => match file.found(name) {
                Some(view) => Some(view.shape@),
                None => None,
            },
        }
    }

    /// What a tensor widens to.
    pub open spec fn widened<B: Bits<Scalar = S>>(&self, name: Seq<char>) -> Result<
        Seq<S>,
        storage::Fault,
    > {
        match self.origin {
            Origin::Artifact(artifact) => storage::widened_tensor::<B>(artifact, name),
            Origin::File(file) => tensor_file::widened::<B>(file, name),
        }
    }

    /// That tensor `i` declares the axes it must, where it is widened and there at all.
    pub open spec fn axes_admitted(&self, i: int) -> bool {
        ||| self.elided(i)
        ||| match self.shape(plan::name_of(i)) {
            None => true,
            Some(shape) => plan::axes_of(self.talker, self.micro, i).admits(extents_of(shape)),
        }
    }

    /// What tensor `i` becomes: nothing where it is left unwidened.
    pub open spec fn tensor<B: Bits<Scalar = S>>(&self, i: int) -> Result<Seq<S>, storage::Fault> {
        if self.elided(i) {
            Ok(Seq::empty())
        } else {
            self.widened::<B>(plan::name_of(i))
        }
    }

    /// That tensor `i` is the first whose axes are refused.
    pub open spec fn first_refused(&self, i: int) -> bool {
        &&& 0 <= i < TENSOR_COUNT
        &&& !self.axes_admitted(i)
        &&& forall|j: int| 0 <= j < i ==> #[trigger] self.axes_admitted(j)
    }

    /// That all axes are admitted and tensor `i` is the first that cannot be widened.
    pub open spec fn first_fault<B: Bits<Scalar = S>>(&self, i: int) -> bool {
        &&& 0 <= i < TENSOR_COUNT
        &&& forall|j: int| 0 <= j < TENSOR_COUNT ==> #[trigger] self.axes_admitted(j)
        &&& self.tensor::<B>(i) is Err
        &&& forall|j: int| 0 <= j < i ==> #[trigger] self.tensor::<B>(j) is Ok
    }

    /// That every tensor can be had.
    pub open spec fn complete<B: Bits<Scalar = S>>(&self) -> bool {
        &&& forall|i: int| 0 <= i < TENSOR_COUNT ==> #[trigger] self.axes_admitted(i)
        &&& forall|i: int| 0 <= i < TENSOR_COUNT ==> #[trigger] self.tensor::<B>(i) is Ok
    }

    /// That `error` says which tensor cannot be had, and why.
    pub open spec fn fails<B: Bits<Scalar = S>>(
        &self,
        label: Seq<char>,
        error: CheckpointError,
    ) -> bool {
        ||| exists|i: int| #[trigger]
            self.first_refused(i) && plan::axes_of(self.talker, self.micro, i).refuses(
                error,
                plan::name_of(i),
                extents_of(self.shape(plan::name_of(i))->0),
            )
        ||| exists|i: int| #[trigger]
            self.first_fault::<B>(i) && error.reports(label, self.tensor::<B>(i)->Err_0)
    }

    /// That the widths can be told from a length that cannot be counted, and the tensors of a file
    /// are as long as they declare.
    pub open spec fn countable(&self) -> bool {
        &&& self.talker.countable()
        &&& self.micro.countable()
        &&& self.origin matches Origin::File(file) ==> file.counted()
    }
}

/// That a length is what axes ask for.
pub open spec fn length_fits(axes: ShapeSpec, len: int) -> bool {
    match axes {
        ShapeSpec::Vector(n) => len == n,
        ShapeSpec::Matrix { rows: Some(r), cols } => len == r * cols,
        ShapeSpec::Matrix { rows: None, cols } => exists|r: int| 0 <= r && len == #[trigger] (r
            * cols),
    }
}

/// A view that is found is one of the file's.
proof fn lemma_found_is_counted<S>(file: TensorFile<S>, name: Seq<char>, from: int)
    requires
        file.counted(),
        0 <= from,
    ensures
        tensor_file::view_from(file.views@, name, from) matches Some(view) ==> view.counted(),
    decreases file.views@.len() - from,
{
    if from < file.views@.len() {
        lemma_found_is_counted(file, name, from + 1);
    }
}

/// A widened tensor is as long as its axes declare.
proof fn lemma_widened_len<B: Bits>(source: Hydration<B::Scalar>, name: Seq<char>)
    requires
        source.countable(),
    ensures
        source.widened::<B>(name) matches Ok(values) ==> {
            &&& source.shape(name) is Some
            &&& storage::axes_product(
                source.shape(name)->0,
                source.shape(name)->0.len() as int,
            ) == Some(values.len() as int)
        },
{
    if let Origin::File(file) = source.origin {
        lemma_found_is_counted(file, name, 0);
    }
}

/// A tensor with admitted axes is as long as they ask for.
proof fn lemma_admitted_len(axes: ShapeSpec, shape: Seq<u64>, len: int)
    requires
        axes.admits(extents_of(shape)),
        storage::axes_product(shape, shape.len() as int) == Some(len),
        match axes {
            ShapeSpec::Vector(n) => n < usize::MAX,
            ShapeSpec::Matrix { rows: Some(r), cols } => r < usize::MAX && cols < usize::MAX,
            ShapeSpec::Matrix { rows: None, cols } => cols < usize::MAX,
        },
    ensures
        length_fits(axes, len),
{
    let ext = extents_of(shape);
    assert(ext.len() == shape.len());
    reveal_with_fuel(storage::axes_product, 3);
    match axes {
        ShapeSpec::Vector(n) => {
            assert(ext[0] == n);
            assert(shape[0] == n);
            assert(1 * shape[0] == n) by (nonlinear_arith)
                requires
                    shape[0] == n,
            ;
        },
        ShapeSpec::Matrix { rows, cols } => {
            assert(ext[1] == cols);
            assert(shape[1] == cols);
            assert(1 * shape[0] == shape[0]) by (nonlinear_arith);
            assert(len == shape[0] * cols);
            if let Some(r) = rows {
                assert(ext[0] == r);
                assert(shape[0] == r);
            } else {
                let r = shape[0] as int;
                assert(len == r * cols);
            }
        },
    }
}

/// Where the rows of the text embedding come from.
enum TextEmbeddingSource {
    /// From the file, opened anew.
    File,
    /// From the artifact.
    Artifact(Artifact),
    /// From the caller: the artifact was let go.
    Released,
}

/// The talker's checkpoint.
pub struct TalkerCheckpoint<B: Bits> {
    path: String,
    text: TextEmbeddingSource,
    tensors: Vec<Vec<B::Scalar>>,
    hydration: Ghost<Hydration<B::Scalar>>,
}

/// Widens every tensor.
///
/// Declared axes are looked at before anything is widened, so that a transposed export is refused
/// at once. A projection is left unwidened only where its stack may leave it and the artifact
/// holds every projection of its layer in eight bits.
fn load_with<B: Bits>(
    origin: &Origin<B::Scalar>,
    label: &str,
    talker: StackShape,
    micro: StackShape,
    elision: HotElision,
) -> (result: Result<Vec<Vec<B::Scalar>>, CheckpointError>)
    ensures
        ({
            let source = Hydration { origin: *origin, elision, talker, micro };
            match result {
                Ok(tensors) => {
                    &&& source.complete::<B>()
                    &&& tensors@.len() == TENSOR_COUNT
                    &&& forall|i: int|
                        0 <= i < TENSOR_COUNT ==> (#[trigger] tensors@[i])@.len()
                            == source.tensor::<B>(i)->Ok_0.len()
                    &&& storage::pure_bits::<B>() ==> forall|i: int|
                        0 <= i < TENSOR_COUNT ==> (#[trigger] tensors@[i])@ == source.tensor::<B>(
                            i,
                        )->Ok_0
                },
                Err(error) => source.fails::<B>(label@, error),
            }
        }),
{
    let ghost source = Hydration { origin: *origin, elision, talker, micro };
    for i in 0..TENSOR_COUNT
        invariant
            source == (Hydration { origin: *origin, elision, talker, micro }),
            forall|j: int| 0 <= j < i ==> #[trigger] source.axes_admitted(j),
    {
        if !left_unwidened::<B>(origin, elision, i) {
            let name = tensor_name(i);
            if let Some(declared) = declared_shape::<B>(origin, name.as_str()) {
                let shape = extents(declared);
                let axes = tensor_axes(&talker, &micro, i);
                if let Err(error) = axes.check(name.as_str(), shape.as_slice()) {
                    proof {
                        assert(source.first_refused(i as int));
                    }
                    return Err(error);
                }
            }
        }
    }
    let mut tensors: Vec<Vec<B::Scalar>> = Vec::new();
    for i in 0..TENSOR_COUNT
        invariant
            source == (Hydration { origin: *origin, elision, talker, micro }),
            forall|j: int| 0 <= j < TENSOR_COUNT ==> #[trigger] source.axes_admitted(j),
            tensors@.len() == i,
            forall|j: int| 0 <= j < i ==> #[trigger] source.tensor::<B>(j) is Ok,
            forall|j: int|
                0 <= j < i ==> (#[trigger] tensors@[j])@.len() == source.tensor::<B>(
                    j,
                )->Ok_0.len(),
            storage::pure_bits::<B>() ==> forall|j: int|
                0 <= j < i ==> (#[trigger] tensors@[j])@ == source.tensor::<B>(j)->Ok_0,
    {
        if left_unwidened::<B>(origin, elision, i) {
            tensors.push(Vec::new());
            proof {
                assert(tensors@[i as int]@ =~= Seq::<B::Scalar>::empty());
            }
        } else {
            let name = tensor_name(i);
            let widened = match origin {
                Origin::Artifact(artifact) => widen_tensor::<B>(artifact, name.as_str()),
                Origin::File(file) => widen::<B>(file, name.as_str()),
            };
            match widened {
                Err(fault) => {
                    proof {
                        assert(source.first_fault::<B>(i as int));
                    }
                    return Err(artifact_tensor_error(label, fault));
                },
                Ok(values) => {
                    tensors.push(values);
                },
            }
        }
    }
    Ok(tensors)
}

/// Whether tensor `i` is left unwidened.
fn left_unwidened<B: Bits>(origin: &Origin<B::Scalar>, elision: HotElision, i: usize) -> (skip: bool)
    requires
        i < TENSOR_COUNT,
    ensures
        forall|talker: StackShape, micro: StackShape|
            skip == #[trigger] (Hydration { origin: *origin, elision, talker, micro }).elided(
                i as int,
            ),
{
    match origin {
        Origin::Artifact(artifact) => tensor_elided(artifact, elision, i),
        Origin::File(_) => false,
    }
}

/// The axes that a tensor declares.
fn declared_shape<'a, B: Bits>(origin: &'a Origin<B::Scalar>, name: &str) -> (shape: Option<
    &'a Vec<u64>,
>)
    ensures
        forall|elision: HotElision, talker: StackShape, micro: StackShape|
            #[trigger] (Hydration { origin: *origin, elision, talker, micro }).shape(name@) == (
            match shape {
                Some(shape) => Some(shape@),
                None => None,
            }),
{
    match origin {
        Origin::Artifact(artifact) => match artifact.tensor(name) {
            Some(entry) => Some(&entry.shape),
            None => None,
        },
        Origin::File(file) => match file.view(name) {
            Some(view) => Some(&view.shape),
            None => None,
        },
    }
}

impl<B: Bits> TalkerCheckpoint<B> {
    /// What the checkpoint was hydrated from.
    pub closed spec fn source(&self) -> Hydration<B::Scalar> {
        self.hydration@
    }

    /// The label of the source.
    pub closed spec fn label(&self) -> Seq<char> {
        self.path@
    }

    /// The artifact, until it is released.
    pub closed spec fn held(&self) -> Option<Artifact> {
        match self.text {
            TextEmbeddingSource::Artifact(artifact) => Some(artifact),
            _ => None,
        }
    }

    /// That the rows of the text embedding are read from the file, opened anew.
    pub closed spec fn reopened(&self) -> bool {
        self.text is File
    }

    /// The numbers of tensor `i`.
    pub closed spec fn tensor(&self, i: int) -> Seq<B::Scalar> {
        self.tensors@[i]@
    }

    /// Every tensor is there, as long as its axes ask for where it is widened, and empty where
    /// it is not.
    pub closed spec fn wf(&self) -> bool {
        &&& self.tensors@.len() == TENSOR_COUNT
        &&& self.source().countable()
        &&& forall|i: int|
            0 <= i < TENSOR_COUNT ==> self.tensor_fits(i, (#[trigger] self.tensors@[i])@.len() as int)
    }

    /// That tensor `i` may have length `len`.
    pub open spec fn tensor_fits(&self, i: int, len: int) -> bool {
        let source = self.source();
        if source.elided(i) {
            len == 0
        } else {
            length_fits(plan::axes_of(source.talker, source.micro, i), len)
        }
    }

    /// That the tensors are what the source widens to.
    pub open spec fn exact(&self) -> bool {
        forall|i: int|
            0 <= i < TENSOR_COUNT ==> self.source().tensor::<B>(i) == Ok::<
                Seq<B::Scalar>,
                storage::Fault,
            >(#[trigger] self.tensor(i))
    }

    /// A checkpoint of widened tensors.
    fn assemble(
        label: &str,
        text: TextEmbeddingSource,
        tensors: Vec<Vec<B::Scalar>>,
        Ghost(source): Ghost<Hydration<B::Scalar>>,
    ) -> (checkpoint: Self)
        requires
            source.countable(),
            source.complete::<B>(),
            tensors@.len() == TENSOR_COUNT,
            forall|i: int|
                0 <= i < TENSOR_COUNT ==> (#[trigger] tensors@[i])@.len() == source.tensor::<B>(
                    i,
                )->Ok_0.len(),
            storage::pure_bits::<B>() ==> forall|i: int|
                0 <= i < TENSOR_COUNT ==> (#[trigger] tensors@[i])@ == source.tensor::<B>(i)->Ok_0,
        ensures
            checkpoint.wf(),
            checkpoint.source() == source,
            checkpoint.label() == label@,
            checkpoint.text == text,
            storage::pure_bits::<B>() ==> checkpoint.exact(),
    {
        let checkpoint = TalkerCheckpoint {
            path: String::from_str(label),
            text,
            tensors,
            hydration: Ghost(source),
        };
        proof {
            assert forall|i: int| 0 <= i < TENSOR_COUNT implies checkpoint.tensor_fits(
                i,
                (#[trigger] checkpoint.tensors@[i])@.len() as int,
            ) by {
                assert(source.tensor::<B>(i) is Ok);
                assert(source.axes_admitted(i));
                let name = plan::name_of(i);
                if !source.elided(i) {
                    lemma_widened_len::<B>(source, name);
                    lemma_admitted_len(
                        plan::axes_of(source.talker, source.micro, i),
                        source.shape(name)->0,
                        checkpoint.tensors@[i]@.len() as int,
                    );
                }
            }
            if storage::pure_bits::<B>() {
                assert forall|i: int| 0 <= i < TENSOR_COUNT implies source.tensor::<B>(i) == Ok::<
                    Seq<B::Scalar>,
                    storage::Fault,
                >(#[trigger] checkpoint.tensor(i)) by {
                    assert(source.tensor::<B>(i) is Ok);
                    assert(tensors@[i]@ == source.tensor::<B>(i)->Ok_0);
                }
            }
        }
        checkpoint
    }

    /// Hydrates from a parsed file. Nothing is left unwidened, and the rows of the text embedding
    /// are read when they are needed.
    pub fn load(
        file: TensorFile<B::Scalar>,
        label: &str,
        talker: StackShape,
        micro: StackShape,
    ) -> (result: Result<Self, CheckpointError>)
        requires
            (Hydration {
                origin: Origin::File(file),
                elision: (HotElision { talker: false, micro: false }),
                talker,
                micro,
            }).countable(),
        ensures
            ({
                let source = Hydration {
                    origin: Origin::File(file),
                    elision: HotElision { talker: false, micro: false },
                    talker,
                    micro,
                };
                match result {
                    Ok(checkpoint) => {
                        &&& source.complete::<B>()
                        &&& checkpoint.wf()
                        &&& checkpoint.source() == source
                        &&& checkpoint.label() == label@
                        &&& checkpoint.held() is None
                        &&& checkpoint.reopened()
                        &&& storage::pure_bits::<B>() ==> checkpoint.exact()
                    },
                    Err(error) => source.fails::<B>(label@, error),
                }
            }),
    {
        let elision = HotElision { talker: false, micro: false };
        let origin = Origin::File(file);
        let ghost source = Hydration { origin, elision, talker, micro };
        match load_with::<B>(&origin, label, talker, micro, elision) {
            Ok(tensors) => Ok(
                Self::assemble(label, TextEmbeddingSource::File, tensors, Ghost(source)),
            ),
            Err(error) => Err(error),
        }
    }

    /// Hydrates from a verified artifact, which stays at hand for the rows of the text embedding.
    pub fn load_fttsq_mapped(
        artifact: Artifact,
        label: &str,
        talker: StackShape,
        micro: StackShape,
        elision: HotElision,
    ) -> (result: Result<Self, CheckpointError>)
        requires
            (Hydration::<B::Scalar> {
                origin: Origin::Artifact(artifact),
                elision,
                talker,
                micro,
            }).countable(),
        ensures
            ({
                let source = Hydration {
                    origin: Origin::Artifact(artifact),
                    elision,
                    talker,
                    micro,
                };
                match result {
                    Ok(checkpoint) => {
                        &&& source.complete::<B>()
                        &&& checkpoint.wf()
                        &&& checkpoint.source() == source
                        &&& checkpoint.label() == label@
                        &&& checkpoint.held() == Some(artifact)
                        &&& !checkpoint.reopened()
                        &&& storage::pure_bits::<B>() ==> checkpoint.exact()
                    },
                    Err(error) => source.fails::<B>(label@, error),
                }
            }),
    {
        let origin = Origin::Artifact(artifact);
        let ghost source = Hydration { origin, elision, talker, micro };
        match load_with::<B>(&origin, label, talker, micro, elision) {
            Ok(tensors) => {
                let text = match origin {
                    Origin::Artifact(artifact) => TextEmbeddingSource::Artifact(artifact),
                    Origin::File(_) => TextEmbeddingSource::File,
                };
                Ok(Self::assemble(label, text, tensors, Ghost(source)))
            },
            Err(error) => Err(error),
        }
    }
}

/// Where an id stands in a list.
pub open spec fn slot_of(ids: Seq<u32>, id: u32) -> int {
    choose|slot: int| 0 <= slot < ids.len() && ids[slot] == id
}

impl<B: Bits> TalkerCheckpoint<B> {
    /// One text id through its embedding and the projection.
    pub open spec fn text_state(&self, table: TextEmbeddingTable<B>, id: u32) -> Seq<B::Scalar> {
        talker::projected_of::<B>(
            self.tensor(SINGLE_BASE + 4),
            self.tensor(SINGLE_BASE + 5),
            self.tensor(SINGLE_BASE + 6),
            self.tensor(SINGLE_BASE + 7),
            table.row_at(slot_of(table.ids(), id)),
        )
    }

    /// One code's row at the talker's input.
    pub open spec fn codec_state(&self, id: int) -> Seq<B::Scalar> {
        rows::row(self.tensor(SINGLE_BASE + 2), id, TALKER_HIDDEN as int)
    }

    /// How many rows the talker's codec embedding has.
    pub open spec fn codec_rows(&self) -> int {
        self.tensor(SINGLE_BASE + 2).len() as int / TALKER_HIDDEN as int
    }

    /// The label of the source.
    pub fn path(&self) -> (path: &str)
        ensures
            path@ == self.label(),
    {
        self.path.as_str()
    }

    /// The artifact, until it is released.
    pub fn artifact(&self) -> (artifact: Option<&Artifact>)
        ensures
            match artifact {
                Some(a) => self.held() == Some(*a),
                None => self.held() is None,
            },
    {
        match &self.text {
            TextEmbeddingSource::Artifact(artifact) => Some(artifact),
            _ => None,
        }
    }

    /// Lets the artifact go. The widened tensors stay; from then on the rows of the text
    /// embedding must be provided. Tells whether there was anything to let go: a file is opened
    /// anew for its rows, and stays where it is.
    pub fn release_artifact(&mut self) -> (released: bool)
        requires
            old(self).wf(),
        ensures
            final(self).wf(),
            final(self).held() is None,
            released == (old(self).held() is Some),
            final(self).reopened() == old(self).reopened(),
            final(self).source() == old(self).source(),
            final(self).label() == old(self).label(),
            forall|i: int| #[trigger] final(self).tensor(i) == old(self).tensor(i),
    {
        let released = match &self.text {
            TextEmbeddingSource::Artifact(_) => true,
            _ => false,
        };
        if released {
            self.text = TextEmbeddingSource::Released;
        }
        released
    }

    /// Whether the rows of the text embedding are read from the file, opened anew.
    pub fn reopens(&self) -> (reopens: bool)
        ensures
            reopens == self.reopened(),
    {
        match &self.text {
            TextEmbeddingSource::File => true,
            _ => false,
        }
    }

    /// Gathers the rows of the text embedding that some ids need: from the artifact, or from what
    /// a reader copied out of the file.
    ///
    /// A released artifact refuses: an empty table would surface as wrong audio.
    pub fn gather_text_rows(
        &self,
        copied: Option<&CopiedRows<B::Scalar>>,
        ids: &[u32],
    ) -> (result: Result<TextEmbeddingTable<B>, CheckpointError>)
        ensures
            match self.held() {
                None => if self.reopened() {
                    embedding::gathers_from::<B>(copied, self.label(), ids@, result)
                } else {
                    result matches Err(error) && error.reports(
                        self.label(),
                        storage::Fault::Missing(
                            "talker.model.text_embedding.weight (artifact released; supply rows via TextEmbeddingTable::from_provided_rows)"@,
                        ),
                    )
                },
                Some(artifact) => match result {
                    Ok(table) => {
                        &&& embedding::cold_fault::<B>(artifact) is None
                        &&& embedding::in_vocabulary(ids@)
                        &&& table.wf()
                        &&& ids::distinct_of(table.ids(), ids@)
                        &&& storage::pure_bits::<B>() ==> forall|slot: int|
                            0 <= slot < table.ids().len() ==> #[trigger] table.row_at(slot)
                                == embedding::cold_row::<B>(artifact, table.ids()[slot] as int)
                    },
                    Err(error) => match embedding::cold_fault::<B>(artifact) {
                        Some(fault) => error.reports(self.label(), fault),
                        None => exists|id: u32| #[trigger]
                            embedding::smallest_over(ids@, id) && embedding::reports_size(
                                error,
                                TEXT_VOCAB as int,
                                embedding::rows_asked(id),
                            ),
                    },
                },
            },
    {
        match &self.text {
            TextEmbeddingSource::File => TextEmbeddingTable::<B>::gather(
                copied,
                self.path.as_str(),
                ids,
            ),
            TextEmbeddingSource::Artifact(artifact) => TextEmbeddingTable::<B>::gather_fttsq(
                artifact,
                self.path.as_str(),
                ids,
            ),
            TextEmbeddingSource::Released => Err(
                CheckpointError::MissingTensor {
                    path: String::from_str(self.path.as_str()),
                    tensor: String::from_str(
                        "talker.model.text_embedding.weight (artifact released; supply rows via TextEmbeddingTable::from_provided_rows)",
                    ),
                },
            ),
        }
    }

    /// Every text id one utterance can reach: the wrapped text, the three text marks and the role
    /// prefix.
    pub fn utterance_text_ids(wrapped_target: &[u32]) -> (ids: Vec<u32>)
        ensures
            ids@ == wrapped_target@ + seq![TTS_PAD_TOKEN_ID, TTS_BOS_TOKEN_ID, TTS_EOS_TOKEN_ID]
                + prompt::role_prefix(),
    {
        let mut ids = slice_to_vec(wrapped_target);
        ids.push(TTS_PAD_TOKEN_ID);
        ids.push(TTS_BOS_TOKEN_ID);
        ids.push(TTS_EOS_TOKEN_ID);
        ids.push(ROLE_PREFIX_IDS[0]);
        ids.push(ROLE_PREFIX_IDS[1]);
        ids.push(ROLE_PREFIX_IDS[2]);
        proof {
            assert(ids@ =~= wrapped_target@ + seq![
                TTS_PAD_TOKEN_ID,
                TTS_BOS_TOKEN_ID,
                TTS_EOS_TOKEN_ID,
            ] + prompt::role_prefix());
        }
        ids
    }

    /// Wraps text ids as the prompt expects to find them.
    pub fn wrap_target_ids(text_ids: &[u32]) -> (wrapped: Vec<u32>)
        ensures
            wrapped@ == prompt::wrapped(text_ids@, prompt::target_suffix()),
    {
        let mut wrapped: Vec<u32> = Vec::new();
        wrapped.push(ROLE_PREFIX_IDS[0]);
        wrapped.push(ROLE_PREFIX_IDS[1]);
        wrapped.push(ROLE_PREFIX_IDS[2]);
        append_row(&mut wrapped, text_ids);
        wrapped.push(IM_END_TOKEN_ID);
        wrapped.push(NEWLINE_TOKEN_ID);
        wrapped.push(ROLE_PREFIX_IDS[0]);
        wrapped.push(ROLE_PREFIX_IDS[1]);
        wrapped.push(ROLE_PREFIX_IDS[2]);
        proof {
            assert(wrapped@ =~= prompt::wrapped(text_ids@, prompt::target_suffix()));
        }
        wrapped
    }

    /// A tensor as a slice.
    fn slice(&self, i: usize) -> (values: &[B::Scalar])
        requires
            self.wf(),
            i < TENSOR_COUNT,
        ensures
            values@ == self.tensor(i as int),
            self.tensor_fits(i as int, values@.len() as int),
    {
        proof {
            assert(self.tensor_fits(i as int, self.tensors@[i as int]@.len() as int));
        }
        self.tensors[i].as_slice()
    }

    /// The talker's layers, in order.
    pub fn talker_layer_weights<'a>(&'a self) -> (layers: Vec<TalkerLayerWeights<'a, B::Scalar>>)
        requires
            self.wf(),
        ensures
            layers@.len() == TALKER_LAYER_COUNT,
            forall|l: int|
                0 <= l < TALKER_LAYER_COUNT ==> {
                    let at = 11 * l;
                    &&& (#[trigger] layers@[l]).input_layernorm@ == self.tensor(at)
                    &&& layers@[l].q_proj@ == self.tensor(at + 1)
                    &&& layers@[l].k_proj@ == self.tensor(at + 2)
                    &&& layers@[l].v_proj@ == self.tensor(at + 3)
                    &&& layers@[l].q_norm@ == self.tensor(at + 4)
                    &&& layers@[l].k_norm@ == self.tensor(at + 5)
                    &&& layers@[l].o_proj@ == self.tensor(at + 6)
                    &&& layers@[l].post_attention_layernorm@ == self.tensor(at + 7)
                    &&& layers@[l].gate_proj@ == self.tensor(at + 8)
                    &&& layers@[l].up_proj@ == self.tensor(at + 9)
                    &&& layers@[l].down_proj@ == self.tensor(at + 10)
                },
    {
        let mut layers: Vec<TalkerLayerWeights<'a, B::Scalar>> = Vec::new();
        for l in 0..TALKER_LAYER_COUNT
            invariant
                self.wf(),
                layers@.len() == l,
                forall|m: int|
                    0 <= m < l ==> {
                        let at = 11 * m;
                        &&& (#[trigger] layers@[m]).input_layernorm@ == self.tensor(at)
                        &&& layers@[m].q_proj@ == self.tensor(at + 1)
                        &&& layers@[m].k_proj@ == self.tensor(at + 2)
                        &&& layers@[m].v_proj@ == self.tensor(at + 3)
                        &&& layers@[m].q_norm@ == self.tensor(at + 4)
                        &&& layers@[m].k_norm@ == self.tensor(at + 5)
                        &&& layers@[m].o_proj@ == self.tensor(at + 6)
                        &&& layers@[m].post_attention_layernorm@ == self.tensor(at + 7)
                        &&& layers@[m].gate_proj@ == self.tensor(at + 8)
                        &&& layers@[m].up_proj@ == self.tensor(at + 9)
                        &&& layers@[m].down_proj@ == self.tensor(at + 10)
                    },
        {
            let at: usize = 11 * l;
            layers.push(
                TalkerLayerWeights {
                    input_layernorm: self.slice(at),
                    q_proj: self.slice(at + 1),
                    k_proj: self.slice(at + 2),
                    v_proj: self.slice(at + 3),
                    q_norm: self.slice(at + 4),
                    k_norm: self.slice(at + 5),
                    o_proj: self.slice(at + 6),
                    post_attention_layernorm: self.slice(at + 7),
                    gate_proj: self.slice(at + 8),
                    up_proj: self.slice(at + 9),
                    down_proj: self.slice(at + 10),
                },
            );
        }
        layers
    }

    /// The talker's weights over its layers.
    pub fn talker_weights<'a>(&'a self, layers: &[TalkerLayerWeights<'a, B::Scalar>]) -> (weights:
        TalkerWeights<'a, B::Scalar>)
        requires
            self.wf(),
        ensures
            weights.layers@ == layers@,
            weights.final_norm@ == self.tensor(SINGLE_BASE as int),
            weights.final_norm@.len() == TALKER_HIDDEN,
            weights.codec_head@ == self.tensor(SINGLE_BASE + 1),
    {
        TalkerWeights {
            layers: slice_to_vec(layers),
            final_norm: self.slice(SINGLE_BASE),
            codec_head: self.slice(SINGLE_BASE + 1),
        }
    }

    /// The microdecoder's layers, in order.
    pub fn microdecoder_layer_weights<'a>(&'a self) -> (layers: Vec<LayerWeights<'a, B::Scalar>>)
        requires
            self.wf(),
        ensures
            layers@.len() == MICRO_LAYER_COUNT,
            forall|l: int|
                0 <= l < MICRO_LAYER_COUNT ==> {
                    let at = MICRO_BASE + 11 * l;
                    &&& (#[trigger] layers@[l]).input_norm@ == self.tensor(at)
                    &&& layers@[l].q_proj@ == self.tensor(at + 1)
                    &&& layers@[l].k_proj@ == self.tensor(at + 2)
                    &&& layers@[l].v_proj@ == self.tensor(at + 3)
                    &&& layers@[l].q_norm@ == self.tensor(at + 4)
                    &&& layers@[l].k_norm@ == self.tensor(at + 5)
                    &&& layers@[l].o_proj@ == self.tensor(at + 6)
                    &&& layers@[l].post_attention_norm@ == self.tensor(at + 7)
                    &&& layers@[l].gate_proj@ == self.tensor(at + 8)
                    &&& layers@[l].up_proj@ == self.tensor(at + 9)
                    &&& layers@[l].down_proj@ == self.tensor(at + 10)
                },
    {
        let mut layers: Vec<LayerWeights<'a, B::Scalar>> = Vec::new();
        for l in 0..MICRO_LAYER_COUNT
            invariant
                self.wf(),
                layers@.len() == l,
                forall|m: int|
                    0 <= m < l ==> {
                        let at = MICRO_BASE + 11 * m;
                        &&& (#[trigger] layers@[m]).input_norm@ == self.tensor(at)
                        &&& layers@[m].q_proj@ == self.tensor(at + 1)
                        &&& layers@[m].k_proj@ == self.tensor(at + 2)
                        &&& layers@[m].v_proj@ == self.tensor(at + 3)
                        &&& layers@[m].q_norm@ == self.tensor(at + 4)
                        &&& layers@[m].k_norm@ == self.tensor(at + 5)
                        &&& layers@[m].o_proj@ == self.tensor(at + 6)
                        &&& layers@[m].post_attention_norm@ == self.tensor(at + 7)
                        &&& layers@[m].gate_proj@ == self.tensor(at + 8)
                        &&& layers@[m].up_proj@ == self.tensor(at + 9)
                        &&& layers@[m].down_proj@ == self.tensor(at + 10)
                    },
        {
            let at: usize = MICRO_BASE + 11 * l;
            layers.push(
                LayerWeights {
                    input_norm: self.slice(at),
                    q_proj: self.slice(at + 1),
                    k_proj: self.slice(at + 2),
                    v_proj: self.slice(at + 3),
                    q_norm: self.slice(at + 4),
                    k_norm: self.slice(at + 5),
                    o_proj: self.slice(at + 6),
                    post_attention_norm: self.slice(at + 7),
                    gate_proj: self.slice(at + 8),
                    up_proj: self.slice(at + 9),
                    down_proj: self.slice(at + 10),
                },
            );
        }
        layers
    }

    /// Some tensors as slices.
    fn slices<'a>(&'a self, from: usize, n: usize) -> (tables: Vec<&'a [B::Scalar]>)
        requires
            self.wf(),
            from + n <= TENSOR_COUNT,
        ensures
            tables@.len() == n,
            forall|t: int|
                0 <= t < n ==> (#[trigger] tables@[t])@ == self.tensor(from + t),
    {
        let mut tables: Vec<&'a [B::Scalar]> = Vec::new();
        for t in 0..n
            invariant
                self.wf(),
                from + n <= TENSOR_COUNT,
                tables@.len() == t,
                forall|u: int| 0 <= u < t ==> (#[trigger] tables@[u])@ == self.tensor(from + u),
        {
            tables.push(self.slice(from + t));
        }
        tables
    }

    /// The fifteen residual embeddings.
    pub fn residual_embedding_slices<'a>(&'a self) -> (tables: Vec<&'a [B::Scalar]>)
        requires
            self.wf(),
        ensures
            tables@.len() == 15,
            forall|t: int|
                0 <= t < 15 ==> (#[trigger] tables@[t])@ == self.tensor(TABLE_BASE + t),
    {
        self.slices(TABLE_BASE, 15)
    }

    /// The fifteen residual heads.
    pub fn microdecoder_head_slices<'a>(&'a self) -> (heads: Vec<&'a [B::Scalar]>)
        requires
            self.wf(),
        ensures
            heads@.len() == 15,
            forall|t: int| 0 <= t < 15 ==> (#[trigger] heads@[t])@ == self.tensor(HEAD_BASE + t),
    {
        self.slices(HEAD_BASE, 15)
    }

    /// The microdecoder's weights, over its layers, the residual embeddings it reads and the
    /// heads.
    pub fn microdecoder_weights<'a>(
        &'a self,
        layers: &'a [LayerWeights<'a, B::Scalar>],
        residual: &'a [&'a [B::Scalar]],
        heads: &'a [&'a [B::Scalar]],
    ) -> (weights: MicrodecoderWeights<'a, B::Scalar>)
        requires
            self.wf(),
        ensures
            weights.layers == layers,
            weights.residual_embeddings == residual,
            weights.heads == heads,
            weights.talker_codec_embedding@ == self.tensor(SINGLE_BASE + 2),
            weights.final_norm@ == self.tensor(SINGLE_BASE + 3),
            weights.final_norm@.len() == TALKER_HIDDEN,
    {
        MicrodecoderWeights {
            layers,
            talker_codec_embedding: self.slice(SINGLE_BASE + 2),
            residual_embeddings: residual,
            heads,
            final_norm: self.slice(SINGLE_BASE + 3),
        }
    }

    /// The projection of text embeddings to the talker's width.
    pub fn text_projection<'a>(&'a self) -> (projection: TextProjection<'a, B::Scalar>)
        requires
            self.wf(),
        ensures
            projection.fc1_weight@ == self.tensor(SINGLE_BASE + 4),
            projection.fc1_bias@ == self.tensor(SINGLE_BASE + 5),
            projection.fc2_weight@ == self.tensor(SINGLE_BASE + 6),
            projection.fc2_bias@ == self.tensor(SINGLE_BASE + 7),
            projection.fits(TEXT_EMBED_WIDTH as int, TALKER_HIDDEN as int),
    {
        TextProjection {
            fc1_weight: self.slice(SINGLE_BASE + 4),
            fc1_bias: self.slice(SINGLE_BASE + 5),
            fc2_weight: self.slice(SINGLE_BASE + 6),
            fc2_bias: self.slice(SINGLE_BASE + 7),
        }
    }

    /// The tables whose rows are summed into the talker's next input.
    pub fn feedback_tables<'a>(&'a self, residual: &'a [&'a [B::Scalar]]) -> (tables:
        FeedbackTables<'a, B::Scalar>)
        requires
            self.wf(),
        ensures
            tables.talker_codec@ == self.tensor(SINGLE_BASE + 2),
            tables.residual@ == residual@,
    {
        FeedbackTables {
            talker_codec: self.slice(SINGLE_BASE + 2),
            residual: slice_to_vec(residual),
        }
    }

    /// The gathered text embeddings and their projection.
    pub fn text_weights<'a>(&'a self, table: &'a TextEmbeddingTable<B>) -> (weights:
        TextEmbeddingWeights<'a, B::Scalar>)
        requires
            self.wf(),
            table.wf(),
        ensures
            weights.fits(TALKER_HIDDEN as int),
            weights.table@ == table.values(),
            weights.gathered@ == table.ids(),
            weights.embed_width == TEXT_EMBED_WIDTH,
            weights.fc1_weight@ == self.tensor(SINGLE_BASE + 4),
            weights.fc1_bias@ == self.tensor(SINGLE_BASE + 5),
            weights.fc2_weight@ == self.tensor(SINGLE_BASE + 6),
            weights.fc2_bias@ == self.tensor(SINGLE_BASE + 7),
    {
        let projection = self.text_projection();
        TextEmbeddingWeights {
            table: table.compact_rows(),
            gathered: table.gathered_ids(),
            embed_width: TEXT_EMBED_WIDTH,
            fc1_weight: projection.fc1_weight,
            fc1_bias: projection.fc1_bias,
            fc2_weight: projection.fc2_weight,
            fc2_bias: projection.fc2_bias,
        }
    }

    /// Projects the embedding of one text id.
    fn project_text_id(&self, table: &TextEmbeddingTable<B>, id: u32) -> (state: Vec<B::Scalar>)
        requires
            self.wf(),
            table.wf(),
            table.ids().contains(id),
        ensures
            state@.len() == TALKER_HIDDEN,
            arith::pure::<B>() ==> state@ == self.text_state(*table, id),
    {
        match table.row(id) {
            Some(embed) => {
                proof {
                    let slot = choose|slot: int|
                        0 <= slot < table.ids().len() && #[trigger] table.ids()[slot] == id && embed@
                            == table.row_at(slot);
                    assert(slot == slot_of(table.ids(), id));
                }
                project_embedding::<B>(&self.text_projection(), embed)
            },
            None => {
                proof {
                    assert(false);
                }
                Vec::new()
            },
        }
    }

    /// Text ids through their embeddings and the projection.
    pub fn project_text_ids(&self, table: &TextEmbeddingTable<B>, ids: &[u32]) -> (states: Vec<
        Vec<B::Scalar>,
    >)
        requires
            self.wf(),
            table.wf(),
            forall|i: int| 0 <= i < ids@.len() ==> table.ids().contains(#[trigger] ids@[i]),
        ensures
            states@.len() == ids@.len(),
            rows::uniform(rows::deep(states@), TALKER_HIDDEN as int),
            arith::pure::<B>() ==> forall|i: int|
                0 <= i < ids@.len() ==> (#[trigger] states@[i])@ == self.text_state(
                    *table,
                    ids@[i],
                ),
    {
        let mut states: Vec<Vec<B::Scalar>> = Vec::new();
        for i in 0..ids.len()
            invariant
                self.wf(),
                table.wf(),
                forall|j: int| 0 <= j < ids@.len() ==> table.ids().contains(#[trigger] ids@[j]),
                states@.len() == i,
                forall|j: int| 0 <= j < i ==> (#[trigger] states@[j])@.len() == TALKER_HIDDEN,
                arith::pure::<B>() ==> forall|j: int|
                    0 <= j < i ==> (#[trigger] states@[j])@ == self.text_state(*table, ids@[j]),
        {
            states.push(self.project_text_id(table, ids[i]));
        }
        states
    }

    /// One code's row at the talker's input.
    fn codec_row(&self, id: usize) -> (state: Vec<B::Scalar>)
        requires
            self.wf(),
            id < self.codec_rows(),
        ensures
            state@ == self.codec_state(id as int),
            state@.len() == TALKER_HIDDEN,
    {
        let table = self.slice(SINGLE_BASE + 2);
        proof {
            assert(id * 1_024 + 1_024 <= table@.len());
        }
        slice_to_vec(row_of(table, id, TALKER_HIDDEN))
    }

    /// The header of a prompt on a speaker vector: the role, the think block with its language,
    /// the speaker, codec pad and codec BOS.
    ///
    /// There is no default speaker. A vector of another width is refused: cut or filled up, it
    /// would make a prompt that is wrong in a way only listening could tell.
    pub fn xvector_header(
        &self,
        table: &TextEmbeddingTable<B>,
        speaker: &[B::Scalar],
        language_id: usize,
    ) -> (result: Result<PromptHeader<B::Scalar>, CheckpointError>)
        requires
            self.wf(),
            table.wf(),
            speaker@.len() == TALKER_HIDDEN ==> {
                &&& self.codec_rows() > CODEC_THINK_EOS_ID
                &&& self.codec_rows() > language_id
                &&& forall|i: int|
                    0 <= i < 3 ==> table.ids().contains(#[trigger] prompt::role_prefix()[i])
                &&& table.ids().contains(TTS_BOS_TOKEN_ID)
                &&& table.ids().contains(TTS_PAD_TOKEN_ID)
            },
        ensures
            match result {
                Err(error) => {
                    &&& speaker@.len() != TALKER_HIDDEN
                    &&& error matches CheckpointError::SpeakerWidth { expected, actual } && expected
                        == TALKER_HIDDEN && actual == speaker@.len()
                },
                Ok(header) => {
                    &&& speaker@.len() == TALKER_HIDDEN
                    &&& header.role@.len() == 3
                    &&& rows::uniform(rows::deep(header.role@), TALKER_HIDDEN as int)
                    &&& rows::deep(header.codec_prefill@) == seq![
                        self.codec_state(CODEC_THINK_ID as int),
                        self.codec_state(CODEC_THINK_BOS_ID as int),
                        self.codec_state(language_id as int),
                        self.codec_state(CODEC_THINK_EOS_ID as int),
                        speaker@,
                        self.codec_state(CODEC_PAD_ID as int),
                        self.codec_state(CODEC_BOS_ID as int),
                    ]
                    &&& header.tts_bos@.len() == TALKER_HIDDEN
                    &&& header.tts_pad@.len() == TALKER_HIDDEN
                    &&& arith::pure::<B>() ==> {
                        &&& forall|i: int|
                            0 <= i < 3 ==> (#[trigger] header.role@[i])@ == self.text_state(
                                *table,
                                prompt::role_prefix()[i],
                            )
                        &&& header.tts_bos@ == self.text_state(*table, TTS_BOS_TOKEN_ID)
                        &&& header.tts_pad@ == self.text_state(*table, TTS_PAD_TOKEN_ID)
                    }
                },
            },
    {
        if speaker.len() != TALKER_HIDDEN {
            return Err(
                CheckpointError::SpeakerWidth { expected: TALKER_HIDDEN, actual: speaker.len() },
            );
        }
        let prefix: [u32; 3] = ROLE_PREFIX_IDS;
        proof {
            assert(prefix@ =~= prompt::role_prefix());
        }
        let role = self.project_text_ids(table, prefix.as_slice());
        let mut codec_prefill: Vec<Vec<B::Scalar>> = Vec::new();
        codec_prefill.push(self.codec_row(CODEC_THINK_ID));
        codec_prefill.push(self.codec_row(CODEC_THINK_BOS_ID));
        codec_prefill.push(self.codec_row(language_id));
        codec_prefill.push(self.codec_row(CODEC_THINK_EOS_ID));
        codec_prefill.push(slice_to_vec(speaker));
        codec_prefill.push(self.codec_row(CODEC_PAD_ID));
        codec_prefill.push(self.codec_row(CODEC_BOS_ID));
        proof {
            assert(rows::deep(codec_prefill@) =~= seq![
                self.codec_state(CODEC_THINK_ID as int),
                self.codec_state(CODEC_THINK_BOS_ID as int),
                self.codec_state(language_id as int),
                self.codec_state(CODEC_THINK_EOS_ID as int),
                speaker@,
                self.codec_state(CODEC_PAD_ID as int),
                self.codec_state(CODEC_BOS_ID as int),
            ]);
        }
        Ok(
            PromptHeader {
                role,
                codec_prefill,
                tts_bos: self.project_text_id(table, TTS_BOS_TOKEN_ID),
                tts_pad: self.project_text_id(table, TTS_PAD_TOKEN_ID),
            },
        )
    }

    /// The state that trails the text.
    pub fn tts_eos(&self, table: &TextEmbeddingTable<B>) -> (state: Vec<B::Scalar>)
        requires
            self.wf(),
            table.wf(),
            table.ids().contains(TTS_EOS_TOKEN_ID),
        ensures
            state@.len() == TALKER_HIDDEN,
            arith::pure::<B>() ==> state@ == self.text_state(*table, TTS_EOS_TOKEN_ID),
    {
        self.project_text_id(table, TTS_EOS_TOKEN_ID)
    }
}

/// What is wrapped here is what the prompt unwraps.
pub proof fn law_wrapped_text_is_unwrapped(text: Seq<u32>, extracted: Seq<u32>)
    requires
        prompt::wrapped(text, prompt::target_suffix()) == prompt::wrapped(
            extracted,
            prompt::target_suffix(),
        ),
    ensures
        extracted == text,
{
    prompt::law_wrapper_holds_one_body(text, extracted, prompt::target_suffix());
}

/// A table gathered for an utterance covers every id its prompt can reach.
pub proof fn law_gathered_ids_cover_the_prompt(wrapped: Seq<u32>, gathered: Seq<u32>, id: u32)
    requires
        ids::distinct_of(
            gathered,
            wrapped + seq![TTS_PAD_TOKEN_ID, TTS_BOS_TOKEN_ID, TTS_EOS_TOKEN_ID]
                + prompt::role_prefix(),
        ),
        wrapped.contains(id) || id == TTS_PAD_TOKEN_ID || id == TTS_BOS_TOKEN_ID || id
            == TTS_EOS_TOKEN_ID || prompt::role_prefix().contains(id),
    ensures
        gathered.contains(id),
{
    let marks = seq![TTS_PAD_TOKEN_ID, TTS_BOS_TOKEN_ID, TTS_EOS_TOKEN_ID];
    let all = wrapped + marks + prompt::role_prefix();
    let n = wrapped.len() as int;
    if wrapped.contains(id) {
        let k = choose|k: int| 0 <= k < wrapped.len() && wrapped[k] == id;
        assert(all[k] == id);
    } else if prompt::role_prefix().contains(id) {
        let k = choose|k: int|
            0 <= k < prompt::role_prefix().len() && prompt::role_prefix()[k] == id;
        assert(all[n + 3 + k] == id);
    } else {
        assert(all[n] == TTS_PAD_TOKEN_ID);
        assert(all[n + 1] == TTS_BOS_TOKEN_ID);
        assert(all[n + 2] == TTS_EOS_TOKEN_ID);
    }
    assert(all.contains(id));
}

} // verus!
