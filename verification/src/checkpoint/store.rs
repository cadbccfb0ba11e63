//! Where the codec decoder's tensors come from.
use vstd::prelude::*;
use vstd::string::StringExecFns;
use crate::arith;
use crate::arith::Arithmetic;
use crate::checkpoint::{artifact_tensor_error, CheckpointError};
use crate::storage;
use crate::storage::{same_text, widen_singles, Bits};
use crate::tensor_file;
use crate::tensor_file::{widen, TensorFile};

verus! {

/// What a store answered, without the buffer that holds it.
pub open spec fn reply_of<S>(result: Result<Vec<S>, CheckpointError>) -> Result<
    Seq<S>,
    CheckpointError,
> {
    match result {
        Ok(values) => Ok(values@),
        Err(error) => Err(error),
    }
}

/// A source of widened tensors, each handed over once.
pub trait TensorStore<S>: Sized {
    /// That the store may give `reply` to a request for `name`, and is `next` afterwards. A store
    /// that says no more may give any reply.
    open spec fn answers(
        &self,
        next: Self,
        path: Seq<char>,
        name: Seq<char>,
        reply: Result<Seq<S>, CheckpointError>,
    ) -> bool {
        true
    }

    /// Hands over one tensor. One that is absent, or already handed over, is an error.
    fn take_widened(&mut self, path: &str, name: &str) -> (result: Result<Vec<S>, CheckpointError>)
        ensures
            old(self).answers(*final(self), path@, name@, reply_of(result)),
    ;
}

/// A store over a parsed file: every tensor taken is a fresh copy.
pub struct FileStore<'a, A: Arithmetic>(pub &'a TensorFile<A::Scalar>);

impl<'a, A: Arithmetic> TensorStore<A::Scalar> for FileStore<'a, A> {
    /// A tensor is what it widens to, as often as it is asked for.
    open spec fn answers(
        &self,
        next: Self,
        path: Seq<char>,
        name: Seq<char>,
        reply: Result<Seq<A::Scalar>, CheckpointError>,
    ) -> bool {
        &&& next == *self
        &&& match (reply, tensor_file::widened::<A>(*self.0, name)) {
            (Ok(values), Ok(expected)) => {
                &&& values.len() == expected.len()
                &&& arith::pure::<A>() ==> values == expected
            },
            (Err(error), Err(fault)) => error.reports(path, fault),
            _ => false,
        }
    }

    fn take_widened(&mut self, path: &str, name: &str) -> (result: Result<
        Vec<A::Scalar>,
        CheckpointError,
    >) {
        match widen::<A>(self.0, name) {
            Ok(values) => Ok(values),
            Err(fault) => Err(artifact_tensor_error(path, fault)),
        }
    }
}

/// One held tensor.
struct HeldTensor<S> {
    name: String,
    values: Vec<S>,
}

/// Tensors that were widened as they arrived.
pub struct WidenedTensors<B: Bits> {
    entries: Vec<HeldTensor<B::Scalar>>,
}

impl<B: Bits> WidenedTensors<B> {
    /// That `values` is held under `name`.
    pub closed spec fn holds(&self, name: Seq<char>, values: Seq<B::Scalar>) -> bool {
        exists|i: int|
            0 <= i < self.entries@.len() && (#[trigger] self.entries@[i]).name@ == name
                && self.entries@[i].values@ == values
    }

    /// How many tensors are held.
    pub closed spec fn count(&self) -> int {
        self.entries@.len() as int
    }

    /// Every name is held once.
    pub closed spec fn wf(&self) -> bool {
        forall|i: int, j: int|
            0 <= i < j < self.entries@.len() ==> (#[trigger] self.entries@[i]).name@ != (
            #[trigger] self.entries@[j]).name@
    }

    /// Holds nothing.
    pub fn new() -> (store: Self)
        ensures
            store.wf(),
            store.count() == 0,
            forall|n: Seq<char>, v: Seq<B::Scalar>| !#[trigger] store.holds(n, v),
    {
        WidenedTensors { entries: Vec::new() }
    }

    /// Where a name is held.
    fn find(&self, name: &str) -> (at: Option<usize>)
        ensures
            match at {
                Some(i) => i < self.entries@.len() && self.entries@[i as int].name@ == name@,
                None => forall|i: int|
                    0 <= i < self.entries@.len() ==> (#[trigger] self.entries@[i]).name@ != name@,
            },
    {
        for i in 0..self.entries.len()
            invariant
                forall|j: int| 0 <= j < i ==> (#[trigger] self.entries@[j]).name@ != name@,
        {
            if same_text(self.entries[i].name.as_str(), name) {
                return Some(i);
            }
        }
        None
    }

    /// Widens a tensor of singles and holds it under a name, in place of what was held there.
    pub fn insert_f32_le(&mut self, name: &str, bytes: &[u8]) -> (result: Result<
        (),
        CheckpointError,
    >)
        requires
            old(self).wf(),
        ensures
            final(self).wf(),
            match result {
                Ok(()) => {
                    &&& bytes@.len() % 4 == 0
                    &&& exists|values: Seq<B::Scalar>|
                        {
                            &&& #[trigger] final(self).holds(name@, values)
                            &&& values.len() == bytes@.len() / 4
                            &&& storage::pure_bits::<B>() ==> values == storage::singles_of::<B>(
                                bytes@,
                            )
                        }
                    &&& forall|n: Seq<char>, v: Seq<B::Scalar>|
                        n != name@ ==> #[trigger] final(self).holds(n, v) == old(self).holds(n, v)
                    &&& final(self).count() == old(self).count() + if exists|
                        v: Seq<B::Scalar>,
                    | #[trigger] old(self).holds(name@, v) {
                        0int
                    } else {
                        1
                    }
                },
                Err(error) => {
                    &&& bytes@.len() % 4 != 0
                    &&& *final(self) == *old(self)
                    &&& error matches CheckpointError::TensorShape { tensor, expected, actual }
                        && tensor@ == name@ && expected == bytes@.len() / 4 * 4 && actual
                        == bytes@.len()
                },
            },
    {
        if bytes.len() % 4 != 0 {
            return Err(
                CheckpointError::TensorShape {
                    tensor: String::from_str(name),
                    expected: bytes.len() / 4 * 4,
                    actual: bytes.len(),
                },
            );
        }
        let ghost before = *self;
        let widened = widen_singles::<B>(bytes);
        let ghost expected = widened@;
        match self.find(name) {
            Some(i) => {
                proof {
                    assert(before.holds(name@, before.entries@[i as int].values@));
                }
                self.entries.set(i, HeldTensor { name: String::from_str(name), values: widened });
                proof {
                    assert(self.entries@[i as int].name@ == name@);
                    assert(self.holds(name@, expected));
                    assert forall|n: Seq<char>, v: Seq<B::Scalar>| n != name@ implies #[trigger]
                        self.holds(n, v) == before.holds(n, v) by {
                        if self.holds(n, v) {
                            let k = choose|k: int|
                                0 <= k < self.entries@.len() && (#[trigger] self.entries@[k]).name@ == n
                                    && self.entries@[k].values@ == v;
                            assert(before.entries@[k].name@ == n);
                            assert(before.entries@[k].values@ == v);
                        }
                        if before.holds(n, v) {
                            let k = choose|k: int|
                                0 <= k < before.entries@.len() && (#[trigger] before.entries@[k]).name@ == n
                                    && before.entries@[k].values@ == v;
                            assert(self.entries@[k].name@ == n);
                            assert(self.entries@[k].values@ == v);
                        }
                    }
                }
            },
            None => {
                proof {
                    assert forall|v: Seq<B::Scalar>| !#[trigger] before.holds(name@, v) by {
                        if before.holds(name@, v) {
                            let k = choose|k: int|
                                0 <= k < before.entries@.len() && (#[trigger] before.entries@[k]).name@
                                    == name@ && before.entries@[k].values@ == v;
                            assert(before.entries@[k].name@ != name@);
                        }
                    }
                }
                self.entries.push(HeldTensor { name: String::from_str(name), values: widened });
                proof {
                    let last = before.entries@.len() as int;
                    assert(self.entries@[last].name@ == name@);
                    assert(self.holds(name@, expected));
                    assert forall|i: int, j: int| 0 <= i < j < self.entries@.len() implies (#[trigger] self.entries@[i]).name@ != (#[trigger] self.entries@[j]).name@ by {
                        assert(self.entries@[i] == before.entries@[i]);
                        if j < last {
                            assert(self.entries@[j] == before.entries@[j]);
                        }
                    }
                    assert forall|n: Seq<char>, v: Seq<B::Scalar>| n != name@ implies #[trigger]
                        self.holds(n, v) == before.holds(n, v) by {
                        if self.holds(n, v) {
                            let k = choose|k: int|
                                0 <= k < self.entries@.len() && (#[trigger] self.entries@[k]).name@ == n
                                    && self.entries@[k].values@ == v;
                            assert(before.entries@[k].name@ == n);
                            assert(before.entries@[k].values@ == v);
                        }
                        if before.holds(n, v) {
                            let k = choose|k: int|
                                0 <= k < before.entries@.len() && (#[trigger] before.entries@[k]).name@ == n
                                    && before.entries@[k].values@ == v;
                            assert(self.entries@[k].name@ == n);
                            assert(self.entries@[k].values@ == v);
                        }
                    }
                }
            },
        }
        Ok(())
    }

    /// How many tensors are held.
    pub fn len(&self) -> (n: usize)
        ensures
            n == self.count(),
    {
        self.entries.len()
    }

    /// Whether nothing is held.
    pub fn is_empty(&self) -> (empty: bool)
        ensures
            empty == (self.count() == 0),
    {
        self.entries.len() == 0
    }

    /// Hands over one tensor and keeps nothing of it.
    pub fn take(&mut self, path: &str, name: &str) -> (result: Result<
        Vec<B::Scalar>,
        CheckpointError,
    >)
        ensures
            old(self).wf() ==> final(self).wf(),
            match result {
                Ok(values) => {
                    &&& old(self).holds(name@, values@)
                    &&& final(self).count() == old(self).count() - 1
                    &&& old(self).wf() ==> forall|v: Seq<B::Scalar>|
                        !#[trigger] final(self).holds(name@, v)
                    &&& forall|n: Seq<char>, v: Seq<B::Scalar>|
                        n != name@ ==> #[trigger] final(self).holds(n, v) == old(self).holds(n, v)
                },
                Err(error) => {
                    &&& forall|v: Seq<B::Scalar>| !#[trigger] old(self).holds(name@, v)
                    &&& *final(self) == *old(self)
                    &&& error.reports(path@, storage::Fault::Missing(name@))
                },
            },
    {
        let ghost before = *self;
        match self.find(name) {
            None => {
                proof {
                    assert forall|v: Seq<B::Scalar>| !#[trigger] before.holds(name@, v) by {
                        if before.holds(name@, v) {
                            let k = choose|k: int|
                                0 <= k < before.entries@.len() && (#[trigger] before.entries@[k]).name@
                                    == name@ && before.entries@[k].values@ == v;
                            assert(before.entries@[k].name@ != name@);
                        }
                    }
                }
                Err(
                    CheckpointError::MissingTensor {
                        path: String::from_str(path),
                        tensor: String::from_str(name),
                    },
                )
            },
            Some(at) => {
                let values = self.entries.remove(at).values;
                proof {
                    let i = at as int;
                    assert(before.entries@[i].name@ == name@);
                    assert(before.holds(name@, values@));
                    if before.wf() {
                    assert forall|j: int, k: int| 0 <= j < k < self.entries@.len() implies (#[trigger] self.entries@[j]).name@ != (#[trigger] self.entries@[k]).name@ by {
                        let a = if j < i {
                            j
                        } else {
                            j + 1
                        };
                        let b = if k < i {
                            k
                        } else {
                            k + 1
                        };
                        assert(before.entries@[a].name@ != before.entries@[b].name@);
                    }
                    assert forall|v: Seq<B::Scalar>| !#[trigger] self.holds(name@, v) by {
                        if self.holds(name@, v) {
                            let k = choose|k: int|
                                0 <= k < self.entries@.len() && (#[trigger] self.entries@[k]).name@ == name@
                                    && self.entries@[k].values@ == v;
                            let a = if k < i {
                                k
                            } else {
                                k + 1
                            };
                            assert(before.entries@[a].name@ == name@);
                            if a < i {
                                assert(before.entries@[a].name@ != before.entries@[i].name@);
                            } else {
                                assert(before.entries@[i].name@ != before.entries@[a].name@);
                            }
                        }
                    }
                    }
                    assert forall|n: Seq<char>, v: Seq<B::Scalar>| n != name@ implies #[trigger]
                        self.holds(n, v) == before.holds(n, v) by {
                        if self.holds(n, v) {
                            let k = choose|k: int|
                                0 <= k < self.entries@.len() && (#[trigger] self.entries@[k]).name@ == n
                                    && self.entries@[k].values@ == v;
                            let a = if k < i {
                                k
                            } else {
                                k + 1
                            };
                            assert(before.entries@[a].name@ == n);
                            assert(before.entries@[a].values@ == v);
                        }
                        if before.holds(n, v) {
                            let k = choose|k: int|
                                0 <= k < before.entries@.len() && (#[trigger] before.entries@[k]).name@ == n
                                    && before.entries@[k].values@ == v;
                            let a = if k < i {
                                k
                            } else {
                                k - 1
                            };
                            assert(k != i);
                            assert(self.entries@[a].name@ == n);
                            assert(self.entries@[a].values@ == v);
                        }
                    }
                }
                Ok(values)
            },
        }
    }
}

impl<B: Bits> TensorStore<B::Scalar> for WidenedTensors<B> {
    /// A held tensor is handed over and no longer held; any other is missing, and nothing changes.
    open spec fn answers(
        &self,
        next: Self,
        path: Seq<char>,
        name: Seq<char>,
        reply: Result<Seq<B::Scalar>, CheckpointError>,
    ) -> bool {
        &&& self.wf() ==> next.wf()
        &&& match reply {
            Ok(values) => {
                &&& self.holds(name, values)
                &&& next.count() == self.count() - 1
                &&& self.wf() ==> forall|v: Seq<B::Scalar>| !#[trigger] next.holds(name, v)
                &&& forall|n: Seq<char>, v: Seq<B::Scalar>|
                    n != name ==> #[trigger] next.holds(n, v) == self.holds(n, v)
            },
            Err(error) => {
                &&& forall|v: Seq<B::Scalar>| !#[trigger] self.holds(name, v)
                &&& next == *self
                &&& error.reports(path, storage::Fault::Missing(name))
            },
        }
    }

    fn take_widened(&mut self, path: &str, name: &str) -> (result: Result<
        Vec<B::Scalar>,
        CheckpointError,
    >) {
        self.take(path, name)
    }
}

impl<B: Bits> Default for WidenedTensors<B> {
    fn default() -> (store: Self)
        ensures
            store.wf(),
            store.count() == 0,
    {
        Self::new()
    }
}

} // verus!
