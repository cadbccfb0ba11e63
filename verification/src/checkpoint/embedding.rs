//! The rows of the text embedding that an utterance needs.
use vstd::prelude::*;
use vstd::string::StringExecFns;
use crate::arith;
use crate::arith::{binary, Binary};
use crate::checkpoint::{
    artifact_tensor_error, CheckpointError, TEXT_EMBED_WIDTH, TEXT_VOCAB,
};
use crate::ids;
use crate::ids::{locate, sorted_distinct};
use crate::rows;
use crate::storage;
use crate::storage::{
    from_whole, signed, widen_halves, widen_single_tensor, widen_singles, Artifact, Bits,
    StoredDtype, TensorFault,
};
use crate::text;
use crate::text::{append_axes, join_number};

verus! {

/// The smallest id outside the vocabulary, where one is.
pub open spec fn smallest_over(ids: Seq<u32>, id: u32) -> bool {
    &&& ids.contains(id)
    &&& id >= TEXT_VOCAB
    &&& forall|x: u32| #[trigger] ids.contains(x) && x >= TEXT_VOCAB ==> id <= x
}

/// That every id is in the vocabulary.
pub open spec fn in_vocabulary(ids: Seq<u32>) -> bool {
    forall|x: u32| #[trigger] ids.contains(x) ==> x < TEXT_VOCAB
}

/// That an error reports a text embedding of the wrong size.
pub open spec fn reports_size(error: CheckpointError, wanted: int, held: int) -> bool {
    error matches CheckpointError::TensorShape { tensor, expected, actual } && tensor@
        == "talker.model.text_embedding.weight"@ && expected == wanted && actual == held
}

/// Gathered rows, one per distinct id, in ascending order of the ids.
///
/// An id that was not gathered has no row; it can never be mistaken for a row of zeros.
pub struct TextEmbeddingTable<B: Bits> {
    rows: Vec<B::Scalar>,
    gathered: Vec<u32>,
}

/// A sorted list of vocabulary ids is no longer than the vocabulary.
proof fn lemma_ascending_is_short(sorted: Seq<u32>, n: int)
    requires
        ids::ascending(sorted),
        0 <= n <= sorted.len(),
    ensures
        n > 0 ==> sorted[n - 1] >= n - 1,
    decreases n,
{
    if n > 1 {
        lemma_ascending_is_short(sorted, n - 1);
        assert(sorted[n - 2] < sorted[n - 1]);
    }
}

/// The distinct ids of a list, or the smallest that is outside the vocabulary.
fn gathered_ids_of(ids: &[u32]) -> (result: Result<Vec<u32>, CheckpointError>)
    ensures
        match result {
            Ok(sorted) => {
                &&& in_vocabulary(ids@)
                &&& ids::distinct_of(sorted@, ids@)
                &&& sorted@.len() <= TEXT_VOCAB
                &&& forall|i: int|
                    0 <= i < sorted@.len() ==> #[trigger] sorted@[i] < TEXT_VOCAB
            },
            Err(error) => exists|id: u32| #[trigger]
                smallest_over(ids@, id) && reports_size(
                    error,
                    TEXT_VOCAB as int,
                    rows_asked(id),
                ),
        },
{
    let sorted = sorted_distinct(ids);
    for i in 0..sorted.len()
        invariant
            ids::distinct_of(sorted@, ids@),
            forall|j: int| 0 <= j < i ==> #[trigger] sorted@[j] < TEXT_VOCAB,
    {
        let id: u32 = sorted[i];
        if id as usize >= TEXT_VOCAB {
            proof {
                assert(sorted@.contains(id));
                assert forall|x: u32| #[trigger] ids@.contains(x) && x >= TEXT_VOCAB implies id
                    <= x by {
                    assert(sorted@.contains(x));
                    let k = choose|k: int| 0 <= k < sorted@.len() && sorted@[k] == x;
                    if k < i {
                        assert(sorted@[k] < TEXT_VOCAB);
                    } else if k > i {
                        assert(sorted@[i as int] < sorted@[k]);
                    }
                }
                assert(smallest_over(ids@, id));
            }
            return Err(
                CheckpointError::TensorShape {
                    tensor: String::from_str("talker.model.text_embedding.weight"),
                    expected: TEXT_VOCAB,
                    actual: (id as usize).saturating_add(1),
                },
            );
        }
    }
    proof {
        lemma_ascending_is_short(sorted@, sorted@.len() as int);
        if sorted@.len() > 0 {
            assert(sorted@[sorted@.len() - 1] < TEXT_VOCAB);
        }
        assert forall|x: u32| #[trigger] ids@.contains(x) implies x < TEXT_VOCAB by {
            assert(sorted@.contains(x));
        }
    }
    Ok(sorted)
}

/// How many rows a table needs for an id to have one, as far as that can be counted.
pub open spec fn rows_asked(id: u32) -> int {
    if id + 1 <= usize::MAX {
        id + 1
    } else {
        usize::MAX as int
    }
}

impl<B: Bits> TextEmbeddingTable<B> {
    /// The gathered ids.
    pub closed spec fn ids(&self) -> Seq<u32> {
        self.gathered@
    }

    /// Their rows, end to end.
    pub closed spec fn values(&self) -> Seq<B::Scalar> {
        self.rows@
    }

    /// Ascending ids, and one row for each.
    pub open spec fn wf(&self) -> bool {
        &&& ids::ascending(self.ids())
        &&& self.values().len() == self.ids().len() * TEXT_EMBED_WIDTH
    }

    /// The row of the id at `slot`.
    pub open spec fn row_at(&self, slot: int) -> Seq<B::Scalar> {
        rows::row(self.values(), slot, TEXT_EMBED_WIDTH as int)
    }

    /// A table from rows the caller has read, one half-single row per distinct id, in ascending
    /// order of the ids.
    ///
    /// A short buffer is refused rather than filled up: a row of zeros would pass for an
    /// embedding.
    pub fn from_provided_rows(ids: &[u32], rows_bf16: &[u8]) -> (result: Result<
        Self,
        CheckpointError,
    >)
        ensures
            match result {
                Ok(table) => {
                    &&& in_vocabulary(ids@)
                    &&& table.wf()
                    &&& ids::distinct_of(table.ids(), ids@)
                    &&& rows_bf16@.len() == table.ids().len() * TEXT_EMBED_WIDTH * 2
                    &&& storage::pure_bits::<B>() ==> table.values() == storage::halves_of::<B>(
                        rows_bf16@,
                    )
                },
                Err(error) => {
                    ||| exists|id: u32| #[trigger]
                        smallest_over(ids@, id) && reports_size(
                            error,
                            TEXT_VOCAB as int,
                            rows_asked(id),
                        )
                    ||| {
                        &&& in_vocabulary(ids@)
                        &&& exists|sorted: Seq<u32>| #[trigger]
                            ids::distinct_of(sorted, ids@) && rows_bf16@.len() != sorted.len()
                                * TEXT_EMBED_WIDTH * 2 && reports_size(
                                error,
                                sorted.len() * TEXT_EMBED_WIDTH * 2,
                                rows_bf16@.len() as int,
                            )
                    }
                },
            },
    {
        let gathered = match gathered_ids_of(ids) {
            Err(error) => {
                return Err(error);
            },
            Ok(gathered) => gathered,
        };
        let expected: usize = gathered.len() * TEXT_EMBED_WIDTH * 2;
        if rows_bf16.len() != expected {
            proof {
                assert(ids::distinct_of(gathered@, ids@));
            }
            return Err(
                CheckpointError::TensorShape {
                    tensor: String::from_str("talker.model.text_embedding.weight"),
                    expected,
                    actual: rows_bf16.len(),
                },
            );
        }
        Ok(TextEmbeddingTable { rows: widen_halves::<B>(rows_bf16), gathered })
    }

    /// Whether every id was gathered.
    pub fn covers(&self, ids: &[u32]) -> (covered: bool)
        requires
            self.wf(),
        ensures
            covered == (forall|i: int|
                0 <= i < ids@.len() ==> self.ids().contains(#[trigger] ids@[i])),
    {
        for i in 0..ids.len()
            invariant
                self.wf(),
                forall|j: int| 0 <= j < i ==> self.ids().contains(#[trigger] ids@[j]),
        {
            if !ids::holds(self.gathered.as_slice(), ids[i]) {
                proof {
                    assert(!self.ids().contains(ids@[i as int]));
                }
                return false;
            }
        }
        true
    }

    /// The gathered ids, ascending.
    pub fn gathered_ids(&self) -> (ids: &[u32])
        ensures
            ids@ == self.ids(),
    {
        self.gathered.as_slice()
    }

    /// The rows, end to end.
    pub fn compact_rows(&self) -> (rows: &[B::Scalar])
        ensures
            rows@ == self.values(),
    {
        self.rows.as_slice()
    }

    /// The row of one id, where it was gathered.
    pub fn row(&self, id: u32) -> (row: Option<&[B::Scalar]>)
        requires
            self.wf(),
        ensures
            match row {
                Some(row) => {
                    &&& row@.len() == TEXT_EMBED_WIDTH
                    &&& exists|slot: int|
                        0 <= slot < self.ids().len() && #[trigger] self.ids()[slot] == id && row@
                            == self.row_at(slot)
                },
                None => !self.ids().contains(id),
            },
    {
        match locate(self.gathered.as_slice(), id) {
            Err(_) => None,
            Ok(slot) => {
                proof {
                    rows::lemma_row_bounds(
                        slot as int,
                        self.ids().len() as int,
                        TEXT_EMBED_WIDTH as int,
                    );
                    assert(self.ids()[slot as int] == id);
                }
                Some(rows::row_of(self.rows.as_slice(), slot, TEXT_EMBED_WIDTH))
            },
        }
    }
}

/// How many bytes a row of the stored embedding takes.
pub open spec fn row_bytes(dtype: StoredDtype) -> int {
    match dtype {
        StoredDtype::Bf16 => TEXT_EMBED_WIDTH * 2,
        StoredDtype::F32 => TEXT_EMBED_WIDTH * 4,
        StoredDtype::Q8 => TEXT_EMBED_WIDTH as int,
        StoredDtype::Q4 => 0,
    }
}

/// What is wrong with the stored embedding as a whole, where something is.
pub open spec fn cold_fault<B: Bits>(artifact: Artifact) -> Option<storage::Fault> {
    let name = "talker.model.text_embedding.weight"@;
    match artifact.found(name) {
        None => Some(storage::Fault::Missing(name)),
        Some(entry) => if entry.shape@ != seq![TEXT_VOCAB as u64, TEXT_EMBED_WIDTH as u64] {
            Some(
                storage::Fault::Wrong(
                    name,
                    "expected cold embedding shape [151936, 2048], found "@ + text::list_of(
                        text::axes(entry.shape@),
                    ),
                ),
            )
        } else {
            match entry.payload {
                Err(why) => Some(storage::Fault::Wrong(name, why@)),
                Ok(bytes) => if entry.dtype == StoredDtype::Q4 {
                    Some(
                        storage::Fault::Wrong(
                            name,
                            "q4 cold embeddings are not admitted by the f32 baseline loader"@,
                        ),
                    )
                } else if bytes@.len() != TEXT_VOCAB * row_bytes(entry.dtype) {
                    Some(
                        storage::Fault::Wrong(
                            name,
                            "cold embedding payload length does not match its declared shape"@,
                        ),
                    )
                } else if entry.dtype == StoredDtype::Q8 {
                    match entry.scales {
                        None => Some(
                            storage::Fault::Wrong(
                                name,
                                "q8 cold embedding is missing its per-row scales"@,
                            ),
                        ),
                        Some(scales) => match storage::singles_tensor::<B>(artifact, scales@) {
                            Err(fault) => Some(fault),
                            Ok(values) => if values.len() != TEXT_VOCAB {
                                Some(
                                    storage::Fault::Wrong(
                                        name,
                                        "q8 cold embedding has 151936 rows but "@
                                            + text::decimal_of(values.len()) + " scales"@,
                                    ),
                                )
                            } else {
                                None
                            },
                        },
                    }
                } else {
                    None
                },
            }
        },
    }
}

/// One row of the stored embedding.
pub open spec fn cold_row<B: Bits>(artifact: Artifact, row: int) -> Seq<B::Scalar> {
    let entry = artifact.found("talker.model.text_embedding.weight"@)->0;
    let bytes = rows::row(entry.payload->Ok_0@, row, row_bytes(entry.dtype));
    match entry.dtype {
        StoredDtype::Bf16 => storage::halves_of::<B>(bytes),
        StoredDtype::F32 => storage::singles_of::<B>(bytes),
        _ => {
            let scale = storage::singles_tensor::<B>(artifact, entry.scales->0@)->Ok_0[row];
            Seq::new(
                bytes.len(),
                |i: int|
                    arith::bin::<B>(
                        Binary::Mul,
                        storage::whole_of::<B>(storage::signed_of(bytes[i])),
                        scale,
                    ),
            )
        },
    }
}

/// Something wrong with the stored embedding.
fn cold_wrong(detail: &str) -> (fault: TensorFault)
    ensures
        fault.fault() == storage::Fault::Wrong("talker.model.text_embedding.weight"@, detail@),
{
    TensorFault::Wrong {
        tensor: String::from_str("talker.model.text_embedding.weight"),
        detail: String::from_str(detail),
    }
}

/// The stored embedding after every question about it as a whole.
struct ColdSource<'a, B: Bits> {
    dtype: StoredDtype,
    bytes: &'a [u8],
    scales: Vec<B::Scalar>,
}

/// Opens the stored embedding.
fn open_cold<'a, B: Bits>(artifact: &'a Artifact) -> (result: Result<
    ColdSource<'a, B>,
    TensorFault,
>)
    ensures
        match result {
            Ok(source) => {
                let entry = artifact.found("talker.model.text_embedding.weight"@)->0;
                &&& cold_fault::<B>(*artifact) is None
                &&& source.dtype == entry.dtype
                &&& source.dtype != StoredDtype::Q4
                &&& source.bytes@ == entry.payload->Ok_0@
                &&& source.bytes@.len() == TEXT_VOCAB * row_bytes(source.dtype)
                &&& source.dtype == StoredDtype::Q8 ==> {
                    &&& source.scales@.len() == TEXT_VOCAB
                    &&& storage::pure_bits::<B>() ==> source.scales@ == storage::singles_tensor::<
                        B,
                    >(*artifact, entry.scales->0@)->Ok_0
                }
            },
            Err(fault) => cold_fault::<B>(*artifact) == Some(fault.fault()),
        },
{
    let entry = match artifact.tensor("talker.model.text_embedding.weight") {
        None => {
            return Err(
                TensorFault::Missing {
                    tensor: String::from_str("talker.model.text_embedding.weight"),
                },
            );
        },
        Some(entry) => entry,
    };
    if entry.shape.len() != 2 || entry.shape[0] != TEXT_VOCAB as u64 || entry.shape[1]
        != TEXT_EMBED_WIDTH as u64 {
        let mut detail = String::from_str("expected cold embedding shape [151936, 2048], found ");
        append_axes(&mut detail, entry.shape.as_slice());
        return Err(cold_wrong(detail.as_str()));
    }
    proof {
        assert(entry.shape@ =~= seq![TEXT_VOCAB as u64, TEXT_EMBED_WIDTH as u64]);
    }
    let bytes = match &entry.payload {
        Err(why) => {
            return Err(cold_wrong(why.as_str()));
        },
        Ok(bytes) => bytes.as_slice(),
    };
    let width: usize = match entry.dtype {
        StoredDtype::Bf16 => TEXT_EMBED_WIDTH * 2,
        StoredDtype::F32 => TEXT_EMBED_WIDTH * 4,
        StoredDtype::Q8 => TEXT_EMBED_WIDTH,
        StoredDtype::Q4 => {
            return Err(
                cold_wrong("q4 cold embeddings are not admitted by the f32 baseline loader"),
            );
        },
    };
    if bytes.len() != TEXT_VOCAB * width {
        return Err(
            cold_wrong("cold embedding payload length does not match its declared shape"),
        );
    }
    if entry.dtype != StoredDtype::Q8 {
        return Ok(ColdSource { dtype: entry.dtype, bytes, scales: Vec::new() });
    }
    let name = match &entry.scales {
        None => {
            return Err(cold_wrong("q8 cold embedding is missing its per-row scales"));
        },
        Some(name) => name,
    };
    let scales = match widen_single_tensor::<B>(artifact, name.as_str()) {
        Err(fault) => {
            return Err(fault);
        },
        Ok(scales) => scales,
    };
    if scales.len() != TEXT_VOCAB {
        let detail = join_number(
            "q8 cold embedding has 151936 rows but ",
            scales.len(),
            " scales",
        );
        return Err(cold_wrong(detail.as_str()));
    }
    Ok(ColdSource { dtype: entry.dtype, bytes, scales })
}

/// Reads one row of the stored embedding.
fn read_cold_row<'a, B: Bits>(source: &ColdSource<'a, B>, row: usize) -> (out: Vec<B::Scalar>)
    requires
        row < TEXT_VOCAB,
        source.dtype != StoredDtype::Q4,
        source.bytes@.len() == TEXT_VOCAB * row_bytes(source.dtype),
        source.dtype == StoredDtype::Q8 ==> source.scales@.len() == TEXT_VOCAB,
    ensures
        out@.len() == TEXT_EMBED_WIDTH,
        storage::pure_bits::<B>() ==> ({
            let bytes = rows::row(source.bytes@, row as int, row_bytes(source.dtype));
            match source.dtype {
                StoredDtype::Bf16 => out@ == storage::halves_of::<B>(bytes),
                StoredDtype::F32 => out@ == storage::singles_of::<B>(bytes),
                _ => out@ == Seq::new(
                    bytes.len(),
                    |i: int|
                        arith::bin::<B>(
                            Binary::Mul,
                            storage::whole_of::<B>(storage::signed_of(bytes[i])),
                            source.scales@[row as int],
                        ),
                ),
            }
        }),
{
    match source.dtype {
        StoredDtype::Bf16 => {
            let bytes = rows::row_of(source.bytes, row, TEXT_EMBED_WIDTH * 2);
            widen_halves::<B>(bytes)
        },
        StoredDtype::F32 => {
            let bytes = rows::row_of(source.bytes, row, TEXT_EMBED_WIDTH * 4);
            widen_singles::<B>(bytes)
        },
        _ => {
            let bytes = rows::row_of(source.bytes, row, TEXT_EMBED_WIDTH);
            let scale = source.scales[row];
            let mut out: Vec<B::Scalar> = Vec::new();
            let ghost expected = Seq::new(
                bytes@.len(),
                |i: int|
                    arith::bin::<B>(
                        Binary::Mul,
                        storage::whole_of::<B>(storage::signed_of(bytes@[i])),
                        scale,
                    ),
            );
            for i in 0..bytes.len()
                invariant
                    expected == Seq::new(
                        bytes@.len(),
                        |i: int|
                            arith::bin::<B>(
                                Binary::Mul,
                                storage::whole_of::<B>(storage::signed_of(bytes@[i])),
                                scale,
                            ),
                    ),
                    out@.len() == i,
                    storage::pure_bits::<B>() ==> forall|j: int|
                        0 <= j < i ==> #[trigger] out@[j] == expected[j],
            {
                out.push(binary::<B>(Binary::Mul, from_whole::<B>(signed(bytes[i])), scale));
            }
            proof {
                if storage::pure_bits::<B>() {
                    assert(out@ =~= expected);
                }
            }
            out
        },
    }
}

impl<B: Bits> TextEmbeddingTable<B> {
    /// Gathers the rows of some ids from a stored embedding.
    pub fn gather_fttsq(artifact: &Artifact, path: &str, ids: &[u32]) -> (result: Result<
        Self,
        CheckpointError,
    >)
        ensures
            match result {
                Ok(table) => {
                    &&& cold_fault::<B>(*artifact) is None
                    &&& in_vocabulary(ids@)
                    &&& table.wf()
                    &&& ids::distinct_of(table.ids(), ids@)
                    &&& storage::pure_bits::<B>() ==> forall|slot: int|
                        0 <= slot < table.ids().len() ==> #[trigger] table.row_at(slot)
                            == cold_row::<B>(*artifact, table.ids()[slot] as int)
                },
                Err(error) => match cold_fault::<B>(*artifact) {
                    Some(fault) => error.reports(path@, fault),
                    None => exists|id: u32| #[trigger]
                        smallest_over(ids@, id) && reports_size(
                            error,
                            TEXT_VOCAB as int,
                            rows_asked(id),
                        ),
                },
            },
    {
        let source = match open_cold::<B>(artifact) {
            Err(fault) => {
                return Err(artifact_tensor_error(path, fault));
            },
            Ok(source) => source,
        };
        let gathered = match gathered_ids_of(ids) {
            Err(error) => {
                return Err(error);
            },
            Ok(gathered) => gathered,
        };
        let mut parts: Vec<Vec<B::Scalar>> = Vec::new();
        for slot in 0..gathered.len()
            invariant
                cold_fault::<B>(*artifact) is None,
                forall|i: int|
                    0 <= i < gathered@.len() ==> #[trigger] gathered@[i] < TEXT_VOCAB,
                source.dtype == artifact.found("talker.model.text_embedding.weight"@)->0.dtype,
                source.dtype != StoredDtype::Q4,
                source.bytes@ == artifact.found(
                    "talker.model.text_embedding.weight"@,
                )->0.payload->Ok_0@,
                source.bytes@.len() == TEXT_VOCAB * row_bytes(source.dtype),
                source.dtype == StoredDtype::Q8 ==> {
                    &&& source.scales@.len() == TEXT_VOCAB
                    &&& storage::pure_bits::<B>() ==> source.scales@ == storage::singles_tensor::<
                        B,
                    >(
                        *artifact,
                        artifact.found("talker.model.text_embedding.weight"@)->0.scales->0@,
                    )->Ok_0
                },
                parts@.len() == slot,
                forall|j: int| 0 <= j < slot ==> (#[trigger] parts@[j])@.len() == TEXT_EMBED_WIDTH,
                storage::pure_bits::<B>() ==> forall|j: int|
                    0 <= j < slot ==> (#[trigger] parts@[j])@ == cold_row::<B>(
                        *artifact,
                        gathered@[j] as int,
                    ),
        {
            parts.push(read_cold_row::<B>(&source, gathered[slot] as usize));
        }
        let values = rows::join_rows(&parts);
        proof {
            rows::lemma_flatten_len(rows::deep(parts@), TEXT_EMBED_WIDTH as int);
        }
        let table = TextEmbeddingTable { rows: values, gathered };
        proof {
            if storage::pure_bits::<B>() {
                assert forall|slot: int| 0 <= slot < table.ids().len() implies #[trigger]
                    table.row_at(slot) == cold_row::<B>(
                    *artifact,
                    table.ids()[slot] as int,
                ) by {
                    rows::lemma_flatten_row(rows::deep(parts@), TEXT_EMBED_WIDTH as int, slot);
                    assert(parts@[slot]@ == cold_row::<B>(*artifact, gathered@[slot] as int));
                }
            }
        }
        Ok(table)
    }
}

/// What a reader of rows found of the text embedding in a file, and the rows it copied.
pub struct CopiedRows<S> {
    /// How many numbers the tensor holds.
    pub len: usize,
    /// How many numbers one of its rows holds.
    pub row_len: usize,
    /// One copy per distinct id, in ascending order of the ids; none where a copy was refused.
    pub copies: Vec<Option<Vec<S>>>,
}

impl<S> CopiedRows<S> {
    /// That the row at `slot` was copied whole.
    pub open spec fn copied(&self, slot: int) -> bool {
        &&& slot < self.copies@.len()
        &&& self.copies@[slot] is Some
        &&& self.copies@[slot]->0@.len() == TEXT_EMBED_WIDTH
    }

    /// That nothing is wrong with the id at `slot`.
    pub open spec fn serves(&self, sorted: Seq<u32>, slot: int) -> bool {
        sorted[slot] < TEXT_VOCAB && self.copied(slot)
    }

    /// That an error reports what is wrong with the id at `slot`: it is outside the vocabulary, or
    /// its copy was refused.
    pub open spec fn refuses(&self, error: CheckpointError, sorted: Seq<u32>, slot: int) -> bool {
        if sorted[slot] >= TEXT_VOCAB {
            reports_size(error, TEXT_VOCAB as int, rows_asked(sorted[slot]))
        } else {
            reports_size(error, TEXT_EMBED_WIDTH as int, self.row_len as int)
        }
    }

    /// That the id at `slot` is the first something is wrong with.
    pub open spec fn first_refused(&self, sorted: Seq<u32>, slot: int) -> bool {
        &&& 0 <= slot < sorted.len()
        &&& !self.serves(sorted, slot)
        &&& forall|j: int| 0 <= j < slot ==> #[trigger] self.serves(sorted, j)
    }
}

/// That `result` is what copied rows give for the distinct ids `sorted`: a table of every row where
/// nothing is wrong, and otherwise the first thing that is.
pub open spec fn gathers<B: Bits>(
    held: CopiedRows<B::Scalar>,
    sorted: Seq<u32>,
    result: Result<TextEmbeddingTable<B>, CheckpointError>,
) -> bool {
    match result {
        Ok(table) => {
            &&& table.wf()
            &&& table.ids() == sorted
            &&& forall|slot: int|
                0 <= slot < sorted.len() ==> #[trigger] held.serves(sorted, slot)
            &&& forall|slot: int|
                0 <= slot < sorted.len() ==> #[trigger] table.row_at(slot)
                    == held.copies@[slot]->0@
        },
        Err(error) => exists|slot: int| #[trigger]
            held.first_refused(sorted, slot) && held.refuses(error, sorted, slot),
    }
}

/// That `result` is what a reader of rows gives for ids: the tensor is missing, has another size, or
/// gives its rows.
pub open spec fn gathers_from<B: Bits>(
    held: Option<&CopiedRows<B::Scalar>>,
    path: Seq<char>,
    ids: Seq<u32>,
    result: Result<TextEmbeddingTable<B>, CheckpointError>,
) -> bool {
    match held {
        None => result matches Err(error) && error.reports(
            path,
            storage::Fault::Missing("talker.model.text_embedding.weight"@),
        ),
        Some(held) => if held.len != TEXT_VOCAB * TEXT_EMBED_WIDTH {
            result matches Err(error) && reports_size(
                error,
                TEXT_VOCAB * TEXT_EMBED_WIDTH,
                held.len as int,
            )
        } else {
            exists|sorted: Seq<u32>| #[trigger]
                ids::distinct_of(sorted, ids) && gathers::<B>(*held, sorted, result)
        },
    }
}

/// A table from copied rows.
fn gather_copies<B: Bits>(held: &CopiedRows<B::Scalar>, gathered: Vec<u32>) -> (result: Result<
    TextEmbeddingTable<B>,
    CheckpointError,
>)
    requires
        ids::ascending(gathered@),
    ensures
        gathers::<B>(*held, gathered@, result),
{
    let mut values: Vec<B::Scalar> = Vec::new();
    let ghost mut parts: Seq<Seq<B::Scalar>> = Seq::empty();
    for slot in 0..gathered.len()
        invariant
            parts.len() == slot,
            rows::uniform(parts, TEXT_EMBED_WIDTH as int),
            values@ == parts.flatten(),
            forall|j: int| 0 <= j < slot ==> #[trigger] held.serves(gathered@, j),
            forall|j: int| 0 <= j < slot ==> #[trigger] parts[j] == held.copies@[j]->0@,
    {
        let id: u32 = gathered[slot];
        if id as usize >= TEXT_VOCAB {
            proof {
                assert(held.first_refused(gathered@, slot as int));
            }
            return Err(cold_size(TEXT_VOCAB, (id as usize).saturating_add(1)));
        }
        if slot >= held.copies.len() {
            proof {
                assert(held.first_refused(gathered@, slot as int));
            }
            return Err(cold_size(TEXT_EMBED_WIDTH, held.row_len));
        }
        match &held.copies[slot] {
            Some(copy) if copy.len() == TEXT_EMBED_WIDTH => {
                proof {
                    assert(held.serves(gathered@, slot as int));
                    parts.lemma_flatten_push(copy@);
                    parts = parts.push(copy@);
                }
                rows::append_row(&mut values, copy.as_slice());
            },
            _ => {
                proof {
                    assert(held.first_refused(gathered@, slot as int));
                }
                return Err(cold_size(TEXT_EMBED_WIDTH, held.row_len));
            },
        }
    }
    proof {
        rows::lemma_flatten_len(parts, TEXT_EMBED_WIDTH as int);
        assert forall|slot: int| 0 <= slot < gathered@.len() implies rows::row(
            values@,
            slot,
            TEXT_EMBED_WIDTH as int,
        ) == held.copies@[slot]->0@ by {
            rows::lemma_flatten_row(parts, TEXT_EMBED_WIDTH as int, slot);
        }
    }
    Ok(TextEmbeddingTable { rows: values, gathered })
}

impl<B: Bits> TextEmbeddingTable<B> {
    /// A table from the rows a reader copied out of a file, where it found the tensor.
    ///
    /// A refused copy is an error: a row left at zero would pass for an embedding.
    pub fn gather(held: Option<&CopiedRows<B::Scalar>>, path: &str, ids: &[u32]) -> (result: Result<
        Self,
        CheckpointError,
    >)
        ensures
            gathers_from::<B>(held, path@, ids@, result),
    {
        match held {
            None => Err(
                CheckpointError::MissingTensor {
                    path: String::from_str(path),
                    tensor: String::from_str("talker.model.text_embedding.weight"),
                },
            ),
            Some(held) => if held.len != TEXT_VOCAB * TEXT_EMBED_WIDTH {
                Err(cold_size(TEXT_VOCAB * TEXT_EMBED_WIDTH, held.len))
            } else {
                let gathered = sorted_distinct(ids);
                assert(ids::distinct_of(gathered@, ids@));
                gather_copies::<B>(held, gathered)
            },
        }
    }
}

/// A text embedding of the wrong size.
fn cold_size(expected: usize, actual: usize) -> (error: CheckpointError)
    ensures
        reports_size(error, expected as int, actual as int),
{
    CheckpointError::TensorShape {
        tensor: String::from_str("talker.model.text_embedding.weight"),
        expected,
        actual,
    }
}

/// Rows that the caller reads from an embedding stored in half singles, one per distinct id in
/// ascending order, give the same table as gathering them.
pub proof fn law_provided_rows_match_gathered_rows<B: Bits>(
    artifact: Artifact,
    ids: Seq<u32>,
    provided: Seq<u8>,
    given: TextEmbeddingTable<B>,
    gathered: TextEmbeddingTable<B>,
)
    requires
        cold_fault::<B>(artifact) is None,
        artifact.found("talker.model.text_embedding.weight"@)->0.dtype == StoredDtype::Bf16,
        in_vocabulary(ids),
        given.wf(),
        gathered.wf(),
        ids::distinct_of(given.ids(), ids),
        ids::distinct_of(gathered.ids(), ids),
        provided.len() == given.ids().len() * (TEXT_EMBED_WIDTH * 2),
        forall|slot: int|
            0 <= slot < given.ids().len() ==> rows::row(
                provided,
                slot,
                TEXT_EMBED_WIDTH * 2,
            ) == rows::row(
                artifact.found("talker.model.text_embedding.weight"@)->0.payload->Ok_0@,
                #[trigger] given.ids()[slot] as int,
                TEXT_EMBED_WIDTH * 2,
            ),
        given.values() == storage::halves_of::<B>(provided),
        forall|slot: int|
            0 <= slot < gathered.ids().len() ==> #[trigger] gathered.row_at(slot) == cold_row::<B>(
                artifact,
                gathered.ids()[slot] as int,
            ),
    ensures
        given.ids() == gathered.ids(),
        given.values() == gathered.values(),
{
    ids::law_sorting_is_unique(given.ids(), gathered.ids(), ids);
    let n = given.ids().len() as int;
    let w = TEXT_EMBED_WIDTH as int;
    assert forall|slot: int| 0 <= slot < n implies #[trigger] given.row_at(slot)
        == gathered.row_at(slot) by {
        rows::lemma_row_bounds(slot, n, w);
        rows::lemma_row_bounds(slot, n, 2 * w);
        let bytes = rows::row(provided, slot, 2 * w);
        assert(given.ids()[slot] == gathered.ids()[slot]);
        assert(gathered.row_at(slot) == storage::halves_of::<B>(bytes));
        assert(slot * (2 * w) == 2 * (slot * w)) by (nonlinear_arith);
        assert(given.row_at(slot) =~= storage::halves_of::<B>(bytes));
    }
    rows::lemma_flatten_unstack(given.values(), n, w);
    rows::lemma_flatten_unstack(gathered.values(), n, w);
    let a = rows::unstack(given.values(), n, w);
    let b = rows::unstack(gathered.values(), n, w);
    assert forall|slot: int| 0 <= slot < n implies #[trigger] a[slot] == b[slot] by {
        assert(given.row_at(slot) == gathered.row_at(slot));
    }
    assert(a =~= b);
}

} // verus!
