//! Tensors of a parsed file, as its reader offers them number by number.
use vstd::prelude::*;
use vstd::string::StringExecFns;
use crate::arith;
use crate::arith::{constant, Arithmetic, Constant};
use crate::storage;
use crate::storage::{axes_count, same_text, TensorFault};

verus! {

/// One tensor of a file.
#[derive(Debug)]
pub struct TensorView<S> {
    /// Its name.
    pub name: String,
    /// Its declared axes.
    pub shape: Vec<u64>,
    /// Its numbers, each where the stored bytes reach that far.
    pub values: Vec<Option<S>>,
}

impl<S> TensorView<S> {
    /// That there are as many numbers as the axes declare.
    pub open spec fn counted(&self) -> bool {
        storage::axes_product(self.shape@, self.shape@.len() as int) == Some(
            self.values@.len() as int,
        )
    }

    /// That the stored bytes end before the last number.
    pub open spec fn cut_short(&self) -> bool {
        self.values@.len() > 0 && self.values@.last() is None
    }
}

/// The first tensor of a name, from `from` on.
pub open spec fn view_from<S>(views: Seq<TensorView<S>>, name: Seq<char>, from: int) -> Option<
    TensorView<S>,
>
    decreases views.len() - from,
{
    if from >= views.len() {
        None
    } else if views[from].name@ == name {
        Some(views[from])
    } else {
        view_from(views, name, from + 1)
    }
}

/// A parsed file: tensors by name.
#[derive(Debug)]
pub struct TensorFile<S> {
    /// The tensors.
    pub views: Vec<TensorView<S>>,
}

impl<S> TensorFile<S> {
    /// The tensor of a name.
    pub open spec fn found(&self, name: Seq<char>) -> Option<TensorView<S>> {
        view_from(self.views@, name, 0)
    }

    /// That every tensor has as many numbers as its axes declare.
    pub open spec fn counted(&self) -> bool {
        forall|i: int| 0 <= i < self.views@.len() ==> (#[trigger] self.views@[i]).counted()
    }

    /// Whether every tensor has as many numbers as its axes declare.
    pub fn is_counted(&self) -> (counted: bool)
        ensures
            counted == self.counted(),
    {
        for i in 0..self.views.len()
            invariant
                forall|j: int| 0 <= j < i ==> (#[trigger] self.views@[j]).counted(),
        {
            let fits = match axes_count(&self.views[i].shape) {
                Some(n) => n == self.views[i].values.len() as u64,
                None => false,
            };
            if !fits {
                proof {
                    assert(!self.views@[i as int].counted());
                }
                return false;
            }
        }
        true
    }

    /// The tensor of a name.
    pub fn view(&self, name: &str) -> (view: Option<&TensorView<S>>)
        ensures
            match view {
                Some(v) => self.found(name@) == Some(*v) && v.name@ == name@,
                None => self.found(name@) is None,
            },
    {
        for i in 0..self.views.len()
            invariant
                self.found(name@) == view_from(self.views@, name@, i as int),
        {
            if same_text(self.views[i].name.as_str(), name) {
                return Some(&self.views[i]);
            }
        }
        None
    }
}

/// What a tensor of a file widens to. A number that the bytes do not reach reads as zero, unless
/// it is the last: then the tensor is refused.
pub open spec fn widened<A: Arithmetic>(file: TensorFile<A::Scalar>, name: Seq<char>) -> Result<
    Seq<A::Scalar>,
    storage::Fault,
> {
    match file.found(name) {
        None => Err(storage::Fault::Missing(name)),
        Some(view) => if view.cut_short() {
            Err(
                storage::Fault::Wrong(
                    name,
                    "declared element count exceeds the stored bytes"@,
                ),
            )
        } else {
            Ok(
                Seq::new(
                    view.values@.len(),
                    |i: int|
                        match view.values@[i] {
                            Some(value) => value,
                            None => arith::cst::<A>(Constant::Zero),
                        },
                ),
            )
        },
    }
}

/// Widens a tensor of a file.
pub fn widen<A: Arithmetic>(file: &TensorFile<A::Scalar>, name: &str) -> (result: Result<
    Vec<A::Scalar>,
    TensorFault,
>)
    ensures
        match (result, widened::<A>(*file, name@)) {
            (Ok(values), Ok(expected)) => {
                &&& values@.len() == expected.len()
                &&& arith::pure::<A>() ==> values@ == expected
            },
            (Err(fault), Err(expected)) => fault.fault() == expected,
            _ => false,
        },
{
    let view = match file.view(name) {
        None => {
            return Err(TensorFault::Missing { tensor: String::from_str(name) });
        },
        Some(view) => view,
    };
    let n: usize = view.values.len();
    if n > 0 && view.values[n - 1].is_none() {
        return Err(
            TensorFault::Wrong {
                tensor: String::from_str(name),
                detail: String::from_str("declared element count exceeds the stored bytes"),
            },
        );
    }
    let zero = constant::<A>(Constant::Zero);
    let mut out: Vec<A::Scalar> = Vec::new();
    for i in 0..n
        invariant
            n == view.values@.len(),
            file.found(name@) == Some(*view),
            !view.cut_short(),
            arith::pure::<A>() ==> zero == arith::cst::<A>(Constant::Zero),
            out@.len() == i,
            arith::pure::<A>() ==> forall|j: int|
                0 <= j < i ==> #[trigger] out@[j] == widened::<A>(*file, name@)->Ok_0[j],
    {
        out.push(
            match view.values[i] {
                Some(value) => value,
                None => zero,
            },
        );
    }
    proof {
        if arith::pure::<A>() {
            assert(out@ =~= widened::<A>(*file, name@)->Ok_0);
        }
    }
    Ok(out)
}

} // verus!
