//! Stored tensors: how their bytes widen into numbers, and how they are found by name.
use vstd::prelude::*;
use vstd::string::StringExecFns;
use crate::arith;
use crate::arith::{binary, Arithmetic, Binary};
use crate::text;
use crate::text::append_decimal;

verus! {

/// How stored bits become numbers.
pub trait Bits: Arithmetic {
    /// The number that the bits of an IEEE single encode.
    fn from_bits(bits: u32) -> Self::Scalar;

    /// A small whole number.
    fn from_whole(value: i8) -> Self::Scalar;
}

/// That `r` is a number the engine may read from bits.
pub open spec fn may_from_bits<B: Bits>(bits: u32, r: B::Scalar) -> bool {
    call_ensures(B::from_bits, (bits,), r)
}

/// That `r` is a number the engine may make of a whole number.
pub open spec fn may_from_whole<B: Bits>(value: i8, r: B::Scalar) -> bool {
    call_ensures(B::from_whole, (value,), r)
}

/// That the engine's arithmetic and its reading of bits are functions of their arguments.
pub open spec fn pure_bits<B: Bits>() -> bool {
    arith::pure::<B>() && pure_reading::<B>()
}

/// That the engine's reading of bits is a function of the bits.
#[verifier::opaque]
pub open spec fn pure_reading<B: Bits>() -> bool {
    &&& forall|b: u32, r: B::Scalar, s: B::Scalar|
        #![trigger may_from_bits::<B>(b, r), may_from_bits::<B>(b, s)]
        may_from_bits::<B>(b, r) && may_from_bits::<B>(b, s) ==> r == s
    &&& forall|v: i8, r: B::Scalar, s: B::Scalar|
        #![trigger may_from_whole::<B>(v, r), may_from_whole::<B>(v, s)]
        may_from_whole::<B>(v, r) && may_from_whole::<B>(v, s) ==> r == s
}

/// The number that bits encode.
#[verifier::opaque]
pub open spec fn number_of<B: Bits>(bits: u32) -> B::Scalar {
    choose|r: B::Scalar| may_from_bits::<B>(bits, r)
}

/// A small whole number.
#[verifier::opaque]
pub open spec fn whole_of<B: Bits>(value: i8) -> B::Scalar {
    choose|r: B::Scalar| may_from_whole::<B>(value, r)
}

/// Reads one number from its bits.
pub fn from_bits<B: Bits>(bits: u32) -> (r: B::Scalar)
    ensures
        pure_bits::<B>() ==> r == number_of::<B>(bits),
{
    reveal(pure_reading);
    reveal(number_of);
    let r = B::from_bits(bits);
    assert(may_from_bits::<B>(bits, r));
    r
}

/// Makes a number of a small whole number.
pub fn from_whole<B: Bits>(value: i8) -> (r: B::Scalar)
    ensures
        pure_bits::<B>() ==> r == whole_of::<B>(value),
{
    reveal(pure_reading);
    reveal(whole_of);
    let r = B::from_whole(value);
    assert(may_from_whole::<B>(value, r));
    r
}

/// The bits of a number stored as the upper half of an IEEE single, low byte first.
pub open spec fn half_bits(bytes: Seq<u8>, at: int) -> int {
    (bytes[at] + 256 * bytes[at + 1]) * 65_536
}

/// The bits of a stored IEEE single, low byte first.
pub open spec fn single_bits(bytes: Seq<u8>, at: int) -> int {
    bytes[at] + 256 * bytes[at + 1] + 65_536 * bytes[at + 2] + 16_777_216 * bytes[at + 3]
}

/// The whole number that a byte stands for in two's complement.
pub open spec fn signed_of(byte: u8) -> i8 {
    if byte < 128 {
        byte as i8
    } else {
        (byte - 256) as i8
    }
}

/// The numbers of a payload of half singles.
pub open spec fn halves_of<B: Bits>(bytes: Seq<u8>) -> Seq<B::Scalar> {
    Seq::new(bytes.len() / 2, |i: int| number_of::<B>(half_bits(bytes, 2 * i) as u32))
}

/// The numbers of a payload of singles.
pub open spec fn singles_of<B: Bits>(bytes: Seq<u8>) -> Seq<B::Scalar> {
    Seq::new(bytes.len() / 4, |i: int| number_of::<B>(single_bits(bytes, 4 * i) as u32))
}

/// The numbers of an eight-bit payload, one scale per row.
pub open spec fn scaled_of<B: Bits>(
    bytes: Seq<u8>,
    scales: Seq<B::Scalar>,
    width: int,
) -> Seq<B::Scalar> {
    Seq::new(
        bytes.len(),
        |i: int|
            arith::bin::<B>(Binary::Mul, whole_of::<B>(signed_of(bytes[i])), scales[i / width]),
    )
}

/// Widens a payload of half singles.
pub fn widen_halves<B: Bits>(bytes: &[u8]) -> (out: Vec<B::Scalar>)
    ensures
        out@.len() == bytes@.len() / 2,
        pure_bits::<B>() ==> out@ == halves_of::<B>(bytes@),
{
    let n: usize = bytes.len() / 2;
    let total: usize = bytes.len();
    let mut out: Vec<B::Scalar> = Vec::new();
    for i in 0..n
        invariant
            total == bytes@.len(),
            n == bytes@.len() / 2,
            out@.len() == i,
            pure_bits::<B>() ==> forall|j: int|
                0 <= j < i ==> #[trigger] out@[j] == halves_of::<B>(bytes@)[j],
    {
        let low: u32 = bytes[2 * i] as u32;
        let high: u32 = bytes[2 * i + 1] as u32;
        out.push(from_bits::<B>((low + 256 * high) * 65_536));
    }
    proof {
        if pure_bits::<B>() {
            assert(out@ =~= halves_of::<B>(bytes@));
        }
    }
    out
}

/// Widens a payload of singles.
pub fn widen_singles<B: Bits>(bytes: &[u8]) -> (out: Vec<B::Scalar>)
    ensures
        out@.len() == bytes@.len() / 4,
        pure_bits::<B>() ==> out@ == singles_of::<B>(bytes@),
{
    let n: usize = bytes.len() / 4;
    let total: usize = bytes.len();
    let mut out: Vec<B::Scalar> = Vec::new();
    for i in 0..n
        invariant
            total == bytes@.len(),
            n == bytes@.len() / 4,
            out@.len() == i,
            pure_bits::<B>() ==> forall|j: int|
                0 <= j < i ==> #[trigger] out@[j] == singles_of::<B>(bytes@)[j],
    {
        let b0: u32 = bytes[4 * i] as u32;
        let b1: u32 = bytes[4 * i + 1] as u32;
        let b2: u32 = bytes[4 * i + 2] as u32;
        let b3: u32 = bytes[4 * i + 3] as u32;
        out.push(from_bits::<B>(b0 + 256 * b1 + 65_536 * b2 + 16_777_216 * b3));
    }
    proof {
        if pure_bits::<B>() {
            assert(out@ =~= singles_of::<B>(bytes@));
        }
    }
    out
}

/// The whole number that a byte stands for in two's complement.
pub fn signed(byte: u8) -> (value: i8)
    ensures
        value == signed_of(byte),
{
    if byte < 128 {
        byte as i8
    } else {
        (byte as i16 - 256) as i8
    }
}

/// Widens an eight-bit payload, one scale per row.
pub fn widen_scaled<B: Bits>(bytes: &[u8], scales: &[B::Scalar], width: usize) -> (out: Vec<
    B::Scalar,
>)
    requires
        width > 0,
        bytes@.len() == scales@.len() * width,
    ensures
        out@.len() == bytes@.len(),
        pure_bits::<B>() ==> out@ == scaled_of::<B>(bytes@, scales@, width as int),
{
    let mut out: Vec<B::Scalar> = Vec::new();
    for i in 0..bytes.len()
        invariant
            width > 0,
            bytes@.len() == scales@.len() * width,
            out@.len() == i,
            pure_bits::<B>() ==> forall|j: int|
                0 <= j < i ==> #[trigger] out@[j] == scaled_of::<B>(
                    bytes@,
                    scales@,
                    width as int,
                )[j],
    {
        proof {
            let rows = scales@.len() as int;
            assert((i as int) / (width as int) < rows) by (nonlinear_arith)
                requires
                    0 <= i < rows * width,
                    width > 0,
            ;
        }
        let value = from_whole::<B>(signed(bytes[i]));
        out.push(binary::<B>(Binary::Mul, value, scales[i / width]));
    }
    proof {
        if pure_bits::<B>() {
            assert(out@ =~= scaled_of::<B>(bytes@, scales@, width as int));
        }
    }
    out
}

/// How a stored tensor holds its numbers.
#[derive(Clone, Copy, Debug, PartialEq, Eq, Structural)]
pub enum StoredDtype {
    /// The upper half of an IEEE single.
    Bf16,
    /// An IEEE single.
    F32,
    /// Eight-bit whole numbers with one scale per row.
    Q8,
    /// Four-bit whole numbers.
    Q4,
}

impl StoredDtype {
    /// The name of a storage.
    pub open spec fn text(&self) -> Seq<char> {
        match self {
            StoredDtype::Bf16 => "bf16"@,
            StoredDtype::F32 => "f32"@,
            StoredDtype::Q8 => "q8"@,
            StoredDtype::Q4 => "q4"@,
        }
    }

    /// The name of a storage.
    pub fn name(&self) -> (name: &'static str)
        ensures
            name@ == self.text(),
    {
        match self {
            StoredDtype::Bf16 => "bf16",
            StoredDtype::F32 => "f32",
            StoredDtype::Q8 => "q8",
            StoredDtype::Q4 => "q4",
        }
    }
}

/// One stored tensor.
#[derive(Debug)]
pub struct StoredTensor {
    /// Its name.
    pub name: String,
    /// How it holds its numbers.
    pub dtype: StoredDtype,
    /// Its declared axes.
    pub shape: Vec<u64>,
    /// The name of the tensor that holds its scales.
    pub scales: Option<String>,
    /// Its bytes, or why they cannot be had.
    pub payload: Result<Vec<u8>, String>,
}

/// A verified artifact: tensors by name.
#[derive(Debug)]
pub struct Artifact {
    /// The tensors.
    pub tensors: Vec<StoredTensor>,
}

/// The first tensor of a name, from `from` on.
pub open spec fn found_from(tensors: Seq<StoredTensor>, name: Seq<char>, from: int) -> Option<
    StoredTensor,
>
    decreases tensors.len() - from,
{
    if from >= tensors.len() {
        None
    } else if tensors[from].name@ == name {
        Some(tensors[from])
    } else {
        found_from(tensors, name, from + 1)
    }
}

/// The product of the first `n` axes, where every partial product can be counted.
pub open spec fn axes_product(shape: Seq<u64>, n: int) -> Option<int>
    decreases n,
{
    if n <= 0 {
        Some(1)
    } else {
        match axes_product(shape, n - 1) {
            None => None,
            Some(before) => if before * shape[n - 1] <= u64::MAX {
                Some(before * shape[n - 1])
            } else {
                None
            },
        }
    }
}

impl StoredTensor {
    /// How many numbers the axes declare, where that can be counted.
    pub open spec fn count(&self) -> Option<int> {
        match axes_product(self.shape@, self.shape@.len() as int) {
            Some(n) => if n <= usize::MAX {
                Some(n)
            } else {
                None
            },
            None => None,
        }
    }

    /// How many numbers the axes declare, where that can be counted.
    pub fn element_count(&self) -> (count: Option<usize>)
        ensures
            match count {
                Some(n) => self.count() == Some(n as int),
                None => self.count() is None,
            },
    {
        match axes_count(&self.shape) {
            Some(n) => if n <= usize::MAX as u64 {
                Some(n as usize)
            } else {
                None
            },
            None => None,
        }
    }

    /// That the tensor is held in eight bits with scales.
    pub open spec fn is_q8(&self) -> bool {
        self.dtype == StoredDtype::Q8 && self.scales is Some
    }
}

/// What could not be counted stays so.
proof fn lemma_product_stays_none(shape: Seq<u64>, n: int, m: int)
    requires
        0 <= n <= m,
        axes_product(shape, n) is None,
    ensures
        axes_product(shape, m) is None,
    decreases m,
{
    if n < m {
        lemma_product_stays_none(shape, n, m - 1);
    }
}

/// The product of axes, where every partial product can be counted.
pub fn axes_count(shape: &Vec<u64>) -> (count: Option<u64>)
    ensures
        match count {
            Some(n) => axes_product(shape@, shape@.len() as int) == Some(n as int),
            None => axes_product(shape@, shape@.len() as int) is None,
        },
{
    let mut product: u64 = 1;
    for i in 0..shape.len()
        invariant
            axes_product(shape@, i as int) == Some(product as int),
    {
        match product.checked_mul(shape[i]) {
            Some(next) => {
                product = next;
            },
            None => {
                proof {
                    lemma_product_stays_none(shape@, i + 1, shape@.len() as int);
                }
                return None;
            },
        }
    }
    Some(product)
}

/// Whether two texts are the same.
pub fn same_text(a: &str, b: &str) -> (same: bool)
    ensures
        same == (a@ == b@),
{
    let a = String::from_str(a);
    let b = String::from_str(b);
    a == b
}

impl Artifact {
    /// The tensor of a name.
    pub open spec fn found(&self, name: Seq<char>) -> Option<StoredTensor> {
        found_from(self.tensors@, name, 0)
    }

    /// The tensor of a name.
    pub fn tensor(&self, name: &str) -> (tensor: Option<&StoredTensor>)
        ensures
            match tensor {
                Some(t) => self.found(name@) == Some(*t) && t.name@ == name@,
                None => self.found(name@) is None,
            },
    {
        for i in 0..self.tensors.len()
            invariant
                self.found(name@) == found_from(self.tensors@, name@, i as int),
        {
            if same_text(self.tensors[i].name.as_str(), name) {
                return Some(&self.tensors[i]);
            }
        }
        None
    }
}

/// Why a tensor was not widened: it is absent, or something about it is wrong.
pub enum Fault {
    /// No tensor of this name.
    Missing(Seq<char>),
    /// The named tensor, and what is wrong with it.
    Wrong(Seq<char>, Seq<char>),
}

/// A tensor that was not widened.
#[derive(Clone, Debug, PartialEq, Eq)]
pub enum TensorFault {
    /// No tensor of this name.
    Missing {
        /// The name.
        tensor: String,
    },
    /// Something about a tensor is wrong.
    Wrong {
        /// Its name.
        tensor: String,
        /// What is wrong.
        detail: String,
    },
}

impl TensorFault {
    /// What the fault says.
    pub open spec fn fault(&self) -> Fault {
        match self {
            TensorFault::Missing { tensor } => Fault::Missing(tensor@),
            TensorFault::Wrong { tensor, detail } => Fault::Wrong(tensor@, detail@),
        }
    }
}

/// A tensor that is not there.
fn missing(tensor: &str) -> (fault: TensorFault)
    ensures
        fault.fault() == Fault::Missing(tensor@),
{
    TensorFault::Missing { tensor: String::from_str(tensor) }
}

/// Something wrong with a tensor.
fn wrong(tensor: &str, detail: &str) -> (fault: TensorFault)
    ensures
        fault.fault() == Fault::Wrong(tensor@, detail@),
{
    TensorFault::Wrong { tensor: String::from_str(tensor), detail: String::from_str(detail) }
}

/// What a tensor of singles widens to.
pub open spec fn singles_tensor<B: Bits>(artifact: Artifact, name: Seq<char>) -> Result<
    Seq<B::Scalar>,
    Fault,
> {
    match artifact.found(name) {
        None => Err(Fault::Missing(name)),
        Some(entry) => if entry.dtype != StoredDtype::F32 {
            Err(Fault::Wrong(name, "expected f32 scales, found "@ + entry.dtype.text()))
        } else {
            match (entry.count(), entry.payload) {
                (None, _) => Err(Fault::Wrong(name, "logical element count exceeds usize"@)),
                (Some(_), Err(why)) => Err(Fault::Wrong(name, why@)),
                (Some(n), Ok(bytes)) => if bytes@.len() != 4 * n {
                    Err(
                        Fault::Wrong(
                            name,
                            "f32 payload length does not match its logical element count"@,
                        ),
                    )
                } else {
                    Ok(singles_of::<B>(bytes@))
                },
            }
        },
    }
}

/// Widens a tensor of singles.
pub fn widen_single_tensor<B: Bits>(artifact: &Artifact, name: &str) -> (result: Result<
    Vec<B::Scalar>,
    TensorFault,
>)
    ensures
        match (result, singles_tensor::<B>(*artifact, name@)) {
            (Ok(values), Ok(expected)) => {
                &&& values@.len() == expected.len()
                &&& pure_bits::<B>() ==> values@ == expected
            },
            (Err(fault), Err(expected)) => fault.fault() == expected,
            _ => false,
        },
{
    let entry = match artifact.tensor(name) {
        None => {
            return Err(missing(name));
        },
        Some(entry) => entry,
    };
    if entry.dtype != StoredDtype::F32 {
        let detail = text::join("expected f32 scales, found ", entry.dtype.name());
        return Err(wrong(name, detail.as_str()));
    }
    let count: usize = match entry.element_count() {
        None => {
            return Err(wrong(name, "logical element count exceeds usize"));
        },
        Some(count) => count,
    };
    match &entry.payload {
        Err(why) => Err(wrong(name, why.as_str())),
        Ok(bytes) => {
            if bytes.len() % 4 != 0 || bytes.len() / 4 != count {
                return Err(
                    wrong(name, "f32 payload length does not match its logical element count"),
                );
            }
            Ok(widen_singles::<B>(bytes.as_slice()))
        },
    }
}

/// What an eight-bit tensor of `count` numbers widens to.
pub open spec fn scaled_tensor<B: Bits>(
    artifact: Artifact,
    name: Seq<char>,
    entry: StoredTensor,
    count: int,
    bytes: Seq<u8>,
) -> Result<Seq<B::Scalar>, Fault> {
    let rows = if entry.shape@.len() > 0 && entry.shape@[0] <= usize::MAX {
        entry.shape@[0] as int
    } else {
        0
    };
    if rows == 0 {
        Err(Fault::Wrong(name, "q8 tensor must have a non-empty row axis"@))
    } else if count / rows == 0 {
        Err(Fault::Wrong(name, "q8 tensor shape has zero-width output channels"@))
    } else if count / rows * rows != count || bytes.len() != count {
        Err(Fault::Wrong(name, "q8 payload length does not match its logical matrix shape"@))
    } else {
        match entry.scales {
            None => Err(Fault::Wrong(name, "q8 tensor is missing its per-row scales"@)),
            Some(scales) => match singles_tensor::<B>(artifact, scales@) {
                Err(fault) => Err(fault),
                Ok(values) => if values.len() != rows {
                    Err(
                        Fault::Wrong(
                            name,
                            "q8 tensor has "@ + text::decimal_of(rows as nat)
                                + " output rows but "@ + text::decimal_of(values.len())
                                + " scales"@,
                        ),
                    )
                } else {
                    Ok(scaled_of::<B>(bytes, values, count / rows))
                },
            },
        }
    }
}

/// What a stored tensor widens to.
pub open spec fn widened_tensor<B: Bits>(artifact: Artifact, name: Seq<char>) -> Result<
    Seq<B::Scalar>,
    Fault,
> {
    match artifact.found(name) {
        None => Err(Fault::Missing(name)),
        Some(entry) => match (entry.count(), entry.payload) {
            (None, _) => Err(Fault::Wrong(name, "logical element count exceeds usize"@)),
            (Some(_), Err(why)) => Err(Fault::Wrong(name, why@)),
            (Some(n), Ok(bytes)) => match entry.dtype {
                StoredDtype::Bf16 => if bytes@.len() != 2 * n {
                    Err(
                        Fault::Wrong(
                            name,
                            "bf16 payload length does not match its logical element count"@,
                        ),
                    )
                } else {
                    Ok(halves_of::<B>(bytes@))
                },
                StoredDtype::F32 => singles_tensor::<B>(artifact, name),
                StoredDtype::Q8 => scaled_tensor::<B>(artifact, name, entry, n, bytes@),
                StoredDtype::Q4 => Err(
                    Fault::Wrong(name, "q4 storage is not admitted by the f32 baseline loader"@),
                ),
            },
        },
    }
}

/// Widens an eight-bit tensor of `count` numbers.
fn widen_scaled_tensor<B: Bits>(
    artifact: &Artifact,
    name: &str,
    entry: &StoredTensor,
    count: usize,
    bytes: &[u8],
) -> (result: Result<Vec<B::Scalar>, TensorFault>)
    ensures
        match (result, scaled_tensor::<B>(*artifact, name@, *entry, count as int, bytes@)) {
            (Ok(values), Ok(expected)) => {
                &&& values@.len() == expected.len()
                &&& pure_bits::<B>() ==> values@ == expected
            },
            (Err(fault), Err(expected)) => fault.fault() == expected,
            _ => false,
        },
{
    let rows: usize = if entry.shape.len() > 0 && entry.shape[0] <= usize::MAX as u64 {
        entry.shape[0] as usize
    } else {
        0
    };
    if rows == 0 {
        return Err(wrong(name, "q8 tensor must have a non-empty row axis"));
    }
    let width: usize = count / rows;
    if width == 0 {
        return Err(wrong(name, "q8 tensor shape has zero-width output channels"));
    }
    if count % rows != 0 || bytes.len() != count {
        proof {
            assert(count as int / rows as int * rows as int + count as int % rows as int
                == count as int) by (nonlinear_arith)
                requires
                    rows > 0,
            ;
        }
        return Err(wrong(name, "q8 payload length does not match its logical matrix shape"));
    }
    proof {
        assert(count as int / rows as int * rows as int + count as int % rows as int
            == count as int) by (nonlinear_arith)
            requires
                rows > 0,
        ;
    }
    let scales_name = match &entry.scales {
        None => {
            return Err(wrong(name, "q8 tensor is missing its per-row scales"));
        },
        Some(scales_name) => scales_name,
    };
    let scales = match widen_single_tensor::<B>(artifact, scales_name.as_str()) {
        Err(fault) => {
            return Err(fault);
        },
        Ok(scales) => scales,
    };
    if scales.len() != rows {
        let mut detail = text::join_number("q8 tensor has ", rows, " output rows but ");
        append_decimal(&mut detail, scales.len());
        detail.append(" scales");
        return Err(wrong(name, detail.as_str()));
    }
    proof {
        assert(rows * width == width * rows) by (nonlinear_arith);
    }
    Ok(widen_scaled::<B>(bytes, scales.as_slice(), width))
}

/// Widens a stored tensor.
///
/// Eight-bit matrices hold one signed byte per number, row by row, and one scale per row.
pub fn widen_tensor<B: Bits>(artifact: &Artifact, name: &str) -> (result: Result<
    Vec<B::Scalar>,
    TensorFault,
>)
    ensures
        match (result, widened_tensor::<B>(*artifact, name@)) {
            (Ok(values), Ok(expected)) => {
                &&& values@.len() == expected.len()
                &&& pure_bits::<B>() ==> values@ == expected
            },
            (Err(fault), Err(expected)) => fault.fault() == expected,
            _ => false,
        },
{
    let entry = match artifact.tensor(name) {
        None => {
            return Err(missing(name));
        },
        Some(entry) => entry,
    };
    let count: usize = match entry.element_count() {
        None => {
            return Err(wrong(name, "logical element count exceeds usize"));
        },
        Some(count) => count,
    };
    let bytes = match &entry.payload {
        Err(why) => {
            return Err(wrong(name, why.as_str()));
        },
        Ok(bytes) => bytes.as_slice(),
    };
    match entry.dtype {
        StoredDtype::Bf16 => {
            if bytes.len() % 2 != 0 || bytes.len() / 2 != count {
                return Err(
                    wrong(name, "bf16 payload length does not match its logical element count"),
                );
            }
            Ok(widen_halves::<B>(bytes))
        },
        StoredDtype::F32 => widen_single_tensor::<B>(artifact, name),
        StoredDtype::Q8 => widen_scaled_tensor::<B>(artifact, name, entry, count, bytes),
        StoredDtype::Q4 => Err(
            wrong(name, "q4 storage is not admitted by the f32 baseline loader"),
        ),
    }
}

} // verus!
