//! What stored bytes stand for.
use vstd::prelude::*;
use crate::algebra;
use crate::algebra::{one, zero};
use crate::checkpoint::embedding;
use crate::rows;
use crate::storage;
use crate::storage::{Artifact, Bits, StoredDtype};

verus! {

/// A half single is the single whose lower half is zero: a payload of halves widens to what the
/// singles widen to that hold the same bytes behind two zeros each.
pub proof fn law_halves_are_the_upper_half_of_singles<B: Bits>(halves: Seq<u8>, singles: Seq<u8>)
    requires
        halves.len() % 2 == 0,
        singles.len() == 2 * halves.len(),
        forall|i: int|
            0 <= 2 * i < halves.len() ==> {
                &&& #[trigger] singles[4 * i] == 0
                &&& singles[4 * i + 1] == 0
                &&& singles[4 * i + 2] == halves[2 * i]
                &&& singles[4 * i + 3] == halves[2 * i + 1]
            },
    ensures
        storage::halves_of::<B>(halves) == storage::singles_of::<B>(singles),
{
    let a = storage::halves_of::<B>(halves);
    let b = storage::singles_of::<B>(singles);
    assert(a.len() == b.len());
    assert forall|i: int| 0 <= i < a.len() implies #[trigger] a[i] == b[i] by {
        assert(singles[4 * i] == 0);
        assert(storage::half_bits(halves, 2 * i) == storage::single_bits(singles, 4 * i));
    }
    assert(a =~= b);
}

/// The bytes of a single stand low byte first: they give back the word they were cut from.
pub proof fn law_singles_come_back(word: u32, bytes: Seq<u8>)
    requires
        bytes.len() == 4,
        bytes[0] == word % 256,
        bytes[1] == word / 256 % 256,
        bytes[2] == word / 65_536 % 256,
        bytes[3] == word / 16_777_216,
    ensures
        storage::single_bits(bytes, 0) == word,
{
}

/// A byte of an eight-bit payload counts from -128 to 127, and two bytes stand for one number only
/// where they are one byte.
pub proof fn law_bytes_are_signed(byte: u8)
    ensures
        -128 <= storage::signed_of(byte) <= 127,
        storage::signed_of(byte) >= 0 ==> storage::signed_of(byte) == byte,
        storage::signed_of(byte) < 0 ==> storage::signed_of(byte) + 256 == byte,
{
}

/// Each row of an eight-bit payload has its own scale: one passes its whole numbers, and zero silences
/// it.
pub proof fn law_rows_have_their_own_scales<B: Bits>(
    bytes: Seq<u8>,
    scales: Seq<B::Scalar>,
    width: int,
    row: int,
    c: int,
)
    requires
        algebra::units::<B>(),
        0 < width,
        bytes.len() == scales.len() * width,
        0 <= row < scales.len(),
        0 <= c < width,
    ensures
        0 <= row * width + c < bytes.len(),
        storage::scaled_of::<B>(bytes, scales, width).len() == bytes.len(),
        scales[row] == one::<B>() ==> storage::scaled_of::<B>(bytes, scales, width)[row * width + c]
            == storage::whole_of::<B>(storage::signed_of(bytes[row * width + c])),
        storage::whole_of::<B>(storage::signed_of(bytes[row * width + c])) == one::<B>()
            ==> storage::scaled_of::<B>(bytes, scales, width)[row * width + c] == scales[row],
        scales[row] == zero::<B>() ==> storage::scaled_of::<B>(bytes, scales, width)[row * width
            + c] == zero::<B>(),
{
    rows::lemma_row_bounds(row, scales.len() as int, width);
    vstd::arithmetic::div_mod::lemma_fundamental_div_mod_converse(
        row * width + c,
        width,
        row,
        c,
    );
}

/// A row of the text embedding that is read alone is that row of the whole embedding widened, in every
/// format it is stored in.
pub proof fn law_cold_rows_are_rows_of_the_table<B: Bits>(
    artifact: Artifact,
    values: Seq<B::Scalar>,
    row: int,
)
    requires
        embedding::cold_fault::<B>(artifact) is None,
        storage::widened_tensor::<B>(artifact, "talker.model.text_embedding.weight"@) == Ok::<
            Seq<B::Scalar>,
            storage::Fault,
        >(values),
        0 <= row < 151_936,
    ensures
        values.len() == 151_936 * 2_048,
        embedding::cold_row::<B>(artifact, row) == values.subrange(
            row * 2_048,
            row * 2_048 + 2_048,
        ),
{
    let name = "talker.model.text_embedding.weight"@;
    let entry = artifact.found(name)->0;
    let bytes = entry.payload->Ok_0@;
    let size = embedding::row_bytes(entry.dtype);
    let cut = rows::row(bytes, row, size);
    let whole = values.subrange(row * 2_048, row * 2_048 + 2_048);
    rows::lemma_row_bounds(row, 151_936, size);
    rows::lemma_row_bounds(row, 151_936, 2_048);
    let alone = embedding::cold_row::<B>(artifact, row);
    assert(entry.shape@[0] == 151_936);
    match entry.dtype {
        StoredDtype::Bf16 => {
            assert(values == storage::halves_of::<B>(bytes));
            assert(size == 4_096);
            assert(row * size == 2 * (row * 2_048)) by (nonlinear_arith)
                requires
                    size == 4_096,
            ;
            assert forall|i: int| 0 <= i < 2_048 implies #[trigger] alone[i] == whole[i] by {
                assert(storage::half_bits(cut, 2 * i) == storage::half_bits(
                    bytes,
                    2 * (row * 2_048 + i),
                ));
            }
            assert(alone =~= whole);
        },
        StoredDtype::F32 => {
            assert(values == storage::singles_of::<B>(bytes));
            assert(size == 8_192);
            assert(row * size == 4 * (row * 2_048)) by (nonlinear_arith)
                requires
                    size == 8_192,
            ;
            assert forall|i: int| 0 <= i < 2_048 implies #[trigger] alone[i] == whole[i] by {
                assert(storage::single_bits(cut, 4 * i) == storage::single_bits(
                    bytes,
                    4 * (row * 2_048 + i),
                ));
            }
            assert(alone =~= whole);
        },
        StoredDtype::Q8 => {
            let scales = storage::singles_tensor::<B>(artifact, entry.scales->0@)->Ok_0;
            let count = entry.count()->0;
            assert(count == 151_936 * 2_048);
            assert(count / 151_936 == 2_048);
            assert(values == storage::scaled_of::<B>(bytes, scales, 2_048));
            assert forall|i: int| 0 <= i < 2_048 implies #[trigger] alone[i] == whole[i] by {
                vstd::arithmetic::div_mod::lemma_fundamental_div_mod_converse(
                    row * 2_048 + i,
                    2_048,
                    row,
                    i,
                );
            }
            assert(alone =~= whole);
        },
        StoredDtype::Q4 => {},
    }
}

} // verus!
