//! Embeddings of text tokens: those gathered before an utterance, and those fetched during it.
use vstd::prelude::*;
use vstd::slice::slice_to_vec;
use crate::arith;
use crate::arith::Arithmetic;
use crate::generate::error::GenerationError;
use crate::ids;
use crate::ids::{locate, sorted_distinct};
use crate::rows;
use crate::rows::row_of;
use crate::talker;
use crate::talker::{project_embedding, TextProjection};

verus! {

/// The gathered text embeddings and their projection to the talker's width.
#[derive(Clone, Copy, Debug)]
pub struct TextEmbeddingWeights<'a, S> {
    /// One row of `embed_width` per gathered token, in the order of `gathered`.
    pub table: &'a [S],
    /// The gathered tokens, ascending.
    pub gathered: &'a [u32],
    /// Width of an embedding.
    pub embed_width: usize,
    /// First layer of the projection, `[intermediate, embed_width]`.
    pub fc1_weight: &'a [S],
    /// Its bias, `[intermediate]`.
    pub fc1_bias: &'a [S],
    /// Second layer, `[hidden, intermediate]`.
    pub fc2_weight: &'a [S],
    /// Its bias, `[hidden]`.
    pub fc2_bias: &'a [S],
}

/// A source of embeddings for tokens that were not gathered before the utterance began.
///
/// It is asked between frames, and only for tokens that are missing.
pub trait ColdTextRows<S> {
    /// Tokens and their rows, laid end to end, that cover `ids`.
    fn gather_rows(&self, ids: &[u32]) -> Result<(Vec<u32>, Vec<S>), GenerationError>;
}

/// That `reply` is what a source may answer when asked for `ids`.
pub open spec fn may_reply<S, C: ColdTextRows<S>>(
    source: &C,
    ids: Seq<u32>,
    reply: Result<(Vec<u32>, Vec<S>), GenerationError>,
) -> bool {
    exists|asked: &[u32]| asked@ == ids && #[trigger] call_ensures(
        <C as ColdTextRows<S>>::gather_rows,
        (source, asked),
        reply,
    )
}

/// Embeddings by token.
pub type Embeddings<S> = Map<u32, Seq<S>>;

impl<'a, S> TextEmbeddingWeights<'a, S> {
    /// That the rows, the projection and `hidden` fit each other.
    pub open spec fn fits(&self, hidden: int) -> bool {
        &&& self.embed_width > 0
        &&& self.table@.len() % self.embed_width as nat == 0
        &&& self.gathered@.len() * self.embed_width <= self.table@.len()
        &&& ids::ascending(self.gathered@)
        &&& self.fc2_bias@.len() == hidden
        &&& self.fc1_weight@.len() == self.fc1_bias@.len() * self.embed_width
        &&& self.fc2_weight@.len() == hidden * self.fc1_bias@.len()
    }

    /// The embedding of a token: gathered, or fetched since.
    pub open spec fn embedding(&self, fetched: Embeddings<S>, id: u32) -> Seq<S> {
        if self.gathered@.contains(id) {
            rows::row(self.table@, self.gathered@.index_of(id), self.embed_width as int)
        } else {
            fetched[id]
        }
    }

    /// That a token has an embedding.
    pub open spec fn covers(&self, fetched: Embeddings<S>, id: u32) -> bool {
        self.gathered@.contains(id) || fetched.contains_key(id)
    }

    /// The first of some tokens that has no embedding.
    pub open spec fn first_uncovered(&self, fetched: Embeddings<S>, ids: Seq<u32>) -> Option<u32>
        decreases ids.len(),
    {
        if ids.len() == 0 {
            None
        } else if !self.covers(fetched, ids[0]) {
            Some(ids[0])
        } else {
            self.first_uncovered(fetched, ids.skip(1))
        }
    }

    /// A token at the talker's width.
    pub open spec fn state<A: Arithmetic<Scalar = S>>(
        &self,
        fetched: Embeddings<S>,
        id: u32,
    ) -> Seq<S> {
        talker::projected_of::<A>(
            self.fc1_weight@,
            self.fc1_bias@,
            self.fc2_weight@,
            self.fc2_bias@,
            self.embedding(fetched, id),
        )
    }

    /// Tokens at the talker's width.
    pub open spec fn states<A: Arithmetic<Scalar = S>>(
        &self,
        fetched: Embeddings<S>,
        ids: Seq<u32>,
    ) -> Seq<Seq<S>> {
        Seq::new(ids.len(), |i: int| self.state::<A>(fetched, ids[i]))
    }
}

/// Which of some tokens have no embedding.
pub open spec fn uncovered_of<'a, S>(
    text: TextEmbeddingWeights<'a, S>,
    fetched: Embeddings<S>,
    ids: Seq<u32>,
) -> Seq<u32> {
    ids.filter(|id: u32| !text.covers(fetched, id))
}

/// What is fetched after the first `n` tokens of a reply. A token fetched before keeps its row,
/// and of a token that the reply repeats the first row counts.
pub open spec fn with_reply<S>(
    fetched: Embeddings<S>,
    ids: Seq<u32>,
    data: Seq<S>,
    width: int,
    n: int,
) -> Embeddings<S>
    decreases n,
{
    if n <= 0 {
        fetched
    } else {
        let before = with_reply(fetched, ids, data, width, n - 1);
        if before.contains_key(ids[n - 1]) {
            before
        } else {
            before.insert(ids[n - 1], rows::row(data, n - 1, width))
        }
    }
}

/// The first of some tokens that a reply leaves out.
pub open spec fn left_out(asked: Seq<u32>, ids: Seq<u32>) -> Option<u32>
    decreases asked.len(),
{
    if asked.len() == 0 {
        None
    } else if !ids.contains(asked[0]) {
        Some(asked[0])
    } else {
        left_out(asked.skip(1), ids)
    }
}

/// A reply that leaves nothing out holds every token asked for.
pub proof fn lemma_nothing_left_out(asked: Seq<u32>, ids: Seq<u32>, id: u32)
    requires
        left_out(asked, ids) is None,
        asked.contains(id),
    ensures
        ids.contains(id),
    decreases asked.len(),
{
    let k = choose|k: int| 0 <= k < asked.len() && asked[k] == id;
    if k > 0 {
        assert(asked.skip(1)[k - 1] == id);
        assert(asked.skip(1).contains(id));
        lemma_nothing_left_out(asked.skip(1), ids, id);
    }
}

/// Where every token has an embedding, none is uncovered.
pub proof fn lemma_all_covered<'a, S>(
    text: TextEmbeddingWeights<'a, S>,
    fetched: Embeddings<S>,
    ids: Seq<u32>,
)
    requires
        forall|i: int| 0 <= i < ids.len() ==> text.covers(fetched, #[trigger] ids[i]),
    ensures
        text.first_uncovered(fetched, ids) is None,
    decreases ids.len(),
{
    if ids.len() > 0 {
        assert(text.covers(fetched, ids[0]));
        assert forall|i: int| 0 <= i < ids.skip(1).len() implies text.covers(
            fetched,
            #[trigger] ids.skip(1)[i],
        ) by {
            assert(text.covers(fetched, ids[i + 1]));
        }
        lemma_all_covered(text, fetched, ids.skip(1));
    }
}

/// A token that a reply brings has an embedding after it, and no token loses its own.
pub proof fn law_taken_rows_cover_the_reply<S>(
    fetched: Embeddings<S>,
    ids: Seq<u32>,
    data: Seq<S>,
    width: int,
    n: int,
    id: u32,
)
    requires
        0 <= n <= ids.len(),
    ensures
        with_reply(fetched, ids, data, width, n).contains_key(id) == (fetched.contains_key(id)
            || ids.take(n).contains(id)),
        fetched.contains_key(id) ==> with_reply(fetched, ids, data, width, n)[id] == fetched[id],
    decreases n,
{
    if n > 0 {
        law_taken_rows_cover_the_reply(fetched, ids, data, width, n - 1, id);
        let short = ids.take(n - 1);
        let long = ids.take(n);
        assert(long =~= short.push(ids[n - 1]));
        if short.contains(id) {
            let k = choose|k: int| 0 <= k < short.len() && short[k] == id;
            assert(long[k] == id);
        }
        if ids[n - 1] == id {
            assert(long[n - 1] == id);
        }
        if long.contains(id) {
            let k = choose|k: int| 0 <= k < long.len() && long[k] == id;
            if k < n - 1 {
                assert(short[k] == id);
            }
        }
    }
}

/// Rows fetched since the generator was made, by token.
pub struct FetchedRows<S> {
    ids: Vec<u32>,
    rows: Vec<Vec<S>>,
}

impl<S: Copy> FetchedRows<S> {
    /// The rows by token.
    pub closed spec fn view(&self) -> Embeddings<S> {
        Map::new(
            |id: u32| self.ids@.contains(id),
            |id: u32| self.rows@[self.ids@.index_of(id)]@,
        )
    }

    /// Tokens in order, and a row of `width` for each.
    pub closed spec fn wf(&self, width: int) -> bool {
        &&& ids::ascending(self.ids@)
        &&& self.rows@.len() == self.ids@.len()
        &&& rows::uniform(rows::deep(self.rows@), width)
    }

    /// Every fetched row has the width.
    pub proof fn lemma_widths(&self, width: int)
        requires
            self.wf(width),
        ensures
            forall|id: u32| #[trigger] self@.contains_key(id) ==> self@[id].len() == width,
    {
        assert forall|id: u32| #[trigger] self@.contains_key(id) implies self@[id].len()
            == width by {
            let at = self.ids@.index_of(id);
            assert(rows::deep(self.rows@)[at].len() == width);
        }
    }

    /// Nothing fetched.
    pub fn new() -> (fetched: Self)
        ensures
            forall|width: int| #[trigger] fetched.wf(width),
            fetched@ == Map::<u32, Seq<S>>::empty(),
    {
        let fetched = FetchedRows { ids: Vec::new(), rows: Vec::new() };
        proof {
            assert(fetched@ =~= Map::<u32, Seq<S>>::empty());
        }
        fetched
    }

    /// The row of a token.
    pub fn get(&self, id: u32) -> (row: Option<&[S]>)
        requires
            exists|width: int| self.wf(width),
        ensures
            match row {
                Some(values) => self@.contains_key(id) && values@ == self@[id],
                None => !self@.contains_key(id),
            },
    {
        match locate(self.ids.as_slice(), id) {
            Ok(at) => {
                proof {
                    assert(self.ids@.contains(id));
                    assert(self.ids@.index_of(id) == at);
                }
                Some(self.rows[at].as_slice())
            },
            Err(_) => None,
        }
    }

    /// Keeps one more row.
    fn insert(&mut self, id: u32, row: Vec<S>)
        requires
            old(self).wf(row@.len() as int),
            !old(self)@.contains_key(id),
        ensures
            final(self).wf(row@.len() as int),
            final(self)@ == old(self)@.insert(id, row@),
    {
        let ghost width = row@.len() as int;
        match locate(self.ids.as_slice(), id) {
            Ok(at) => {
                proof {
                    assert(self.ids@[at as int] == id);
                    assert(self.ids@.contains(id));
                }
            },
            Err(at) => {
                let ghost before = *self;
                self.ids.insert(at, id);
                self.rows.insert(at, row);
                proof {
                    ids::lemma_insert_keeps_order(before.ids@, id, at as int);
                    assert(self.ids@ =~= before.ids@.insert(at as int, id));
                    assert(self.rows@ =~= before.rows@.insert(at as int, row));
                    assert forall|k: int| 0 <= k < rows::deep(self.rows@).len() implies (
                    #[trigger] rows::deep(self.rows@)[k]).len() == width by {
                        if k < at {
                            assert(rows::deep(before.rows@)[k].len() == width);
                        } else if k > at {
                            assert(rows::deep(before.rows@)[k - 1].len() == width);
                        }
                    }
                    assert forall|x: u32| #[trigger] self@.contains_key(x) implies self@[x]
                        == before@.insert(id, row@)[x] by {
                        let k = self.ids@.index_of(x);
                        assert(self.ids@[k] == x);
                        if x == id {
                            assert(self.ids@[at as int] == id);
                            assert(k == at);
                        } else {
                            let j = if k < at {
                                k
                            } else {
                                k - 1
                            };
                            assert(before.ids@[j] == x);
                            assert(before.ids@.contains(x));
                            let m = before.ids@.index_of(x);
                            assert(before.ids@[m] == x);
                            assert(m == j);
                        }
                    }
                    assert(self@ =~= before@.insert(id, row@));
                }
            },
        }
    }

    /// Takes in what a source answered when asked for `asked`.
    pub fn take_in(
        &mut self,
        asked: &[u32],
        ids: &[u32],
        data: &[S],
        width: usize,
    ) -> (result: Result<(), GenerationError>)
        requires
            old(self).wf(width as int),
            width > 0,
        ensures
            final(self).wf(width as int),
            match result {
                Ok(()) => {
                    &&& ids@.len() * width == data@.len()
                    &&& left_out(asked@, ids@) is None
                    &&& final(self)@ == with_reply(
                        old(self)@,
                        ids@,
                        data@,
                        width as int,
                        ids@.len() as int,
                    )
                },
                Err(GenerationError::ColdRowShape { rows: held, ids: count, width: wide }) => {
                    &&& ids@.len() * width != data@.len()
                    &&& held == data@.len() / width as nat
                    &&& count == ids@.len()
                    &&& wide == width
                    &&& final(self)@ == old(self)@
                },
                Err(GenerationError::ColdRowMissing { id }) => {
                    &&& ids@.len() * width == data@.len()
                    &&& left_out(asked@, ids@) == Some(id)
                    &&& final(self)@ == old(self)@
                },
                Err(_) => false,
            },
    {
        let n: usize = ids.len();
        let values: usize = data.len();
        let fits = match n.checked_mul(width) {
            Some(expected) => expected == values,
            None => false,
        };
        if !fits {
            return Err(
                GenerationError::ColdRowShape { rows: values / width, ids: n, width },
            );
        }
        if let Some(id) = find_left_out(asked, ids) {
            return Err(GenerationError::ColdRowMissing { id });
        }
        let ghost before = self@;
        for slot in 0..n
            invariant
                n == ids@.len(),
                n * width == data@.len(),
                width > 0,
                data@.len() <= usize::MAX,
                self.wf(width as int),
                self@ == with_reply(before, ids@, data@, width as int, slot as int),
        {
            if self.get(ids[slot]).is_none() {
                proof {
                    rows::lemma_row_bounds(slot as int, n as int, width as int);
                }
                self.insert(ids[slot], slice_to_vec(row_of(data, slot, width)));
            }
        }
        Ok(())
    }
}

/// The first of some tokens that a reply leaves out.
fn find_left_out(asked: &[u32], ids: &[u32]) -> (id: Option<u32>)
    ensures
        id == left_out(asked@, ids@),
{
    proof {
        assert(asked@.skip(0) =~= asked@);
    }
    for i in 0..asked.len()
        invariant
            left_out(asked@, ids@) == left_out(asked@.skip(i as int), ids@),
    {
        proof {
            assert(asked@.skip(i as int).skip(1) =~= asked@.skip(i + 1));
        }
        if !listed(ids, asked[i]) {
            return Some(asked[i]);
        }
    }
    None
}

/// Whether a list holds a token.
fn listed(ids: &[u32], id: u32) -> (found: bool)
    ensures
        found == ids@.contains(id),
{
    for i in 0..ids.len()
        invariant
            forall|j: int| 0 <= j < i ==> #[trigger] ids@[j] != id,
    {
        if ids[i] == id {
            return true;
        }
    }
    false
}

impl<'a, S: Copy> TextEmbeddingWeights<'a, S> {
    /// The projection.
    fn projection(&self) -> (projection: TextProjection<'a, S>)
        ensures
            projection.fc1_weight == self.fc1_weight,
            projection.fc1_bias == self.fc1_bias,
            projection.fc2_weight == self.fc2_weight,
            projection.fc2_bias == self.fc2_bias,
    {
        TextProjection {
            fc1_weight: self.fc1_weight,
            fc1_bias: self.fc1_bias,
            fc2_weight: self.fc2_weight,
            fc2_bias: self.fc2_bias,
        }
    }

    /// The embedding of a token, where there is one.
    fn find<'b>(&'b self, fetched: &'b FetchedRows<S>, id: u32) -> (row: Option<&'b [S]>)
        requires
            self.fits(self.fc2_bias@.len() as int),
            fetched.wf(self.embed_width as int),
        ensures
            match row {
                Some(values) => {
                    &&& self.covers(fetched@, id)
                    &&& values@ == self.embedding(fetched@, id)
                    &&& values@.len() == self.embed_width
                },
                None => !self.covers(fetched@, id),
            },
    {
        match locate(self.gathered, id) {
            Ok(slot) => {
                proof {
                    assert(self.gathered@.contains(id));
                    assert(self.gathered@[self.gathered@.index_of(id)] == id);
                    assert(self.gathered@.index_of(id) == slot);
                    rows::lemma_row_bounds(
                        slot as int,
                        self.gathered@.len() as int,
                        self.embed_width as int,
                    );
                }
                Some(row_of(self.table, slot, self.embed_width))
            },
            Err(_) => {
                proof {
                    fetched.lemma_widths(self.embed_width as int);
                }
                fetched.get(id)
            },
        }
    }

    /// Tokens embedded and projected to the talker's width.
    pub fn project_text_ids<A: Arithmetic<Scalar = S>>(
        &self,
        fetched: &FetchedRows<S>,
        ids: &[u32],
    ) -> (result: Result<Vec<Vec<S>>, GenerationError>)
        requires
            self.fits(self.fc2_bias@.len() as int),
            fetched.wf(self.embed_width as int),
        ensures
            match result {
                Ok(states) => {
                    &&& self.first_uncovered(fetched@, ids@) is None
                    &&& states@.len() == ids@.len()
                    &&& rows::uniform(rows::deep(states@), self.fc2_bias@.len() as int)
                    &&& arith::pure::<A>() ==> rows::deep(states@) == self.states::<A>(
                        fetched@,
                        ids@,
                    )
                },
                Err(GenerationError::UngatheredToken { id }) => self.first_uncovered(fetched@, ids@)
                    == Some(id),
                Err(_) => false,
            },
    {
        let projection = self.projection();
        let mut states: Vec<Vec<S>> = Vec::new();
        proof {
            assert(ids@.skip(0) =~= ids@);
        }
        for i in 0..ids.len()
            invariant
                self.fits(self.fc2_bias@.len() as int),
                fetched.wf(self.embed_width as int),
                projection.fc1_weight == self.fc1_weight,
                projection.fc1_bias == self.fc1_bias,
                projection.fc2_weight == self.fc2_weight,
                projection.fc2_bias == self.fc2_bias,
                self.first_uncovered(fetched@, ids@) == self.first_uncovered(
                    fetched@,
                    ids@.skip(i as int),
                ),
                states@.len() == i,
                forall|j: int|
                    0 <= j < i ==> (#[trigger] states@[j])@.len() == self.fc2_bias@.len(),
                arith::pure::<A>() ==> forall|j: int|
                    0 <= j < i ==> (#[trigger] states@[j])@ == self.state::<A>(fetched@, ids@[j]),
        {
            proof {
                assert(ids@.skip(i as int).skip(1) =~= ids@.skip(i + 1));
            }
            match self.find(fetched, ids[i]) {
                Some(row) => {
                    states.push(project_embedding::<A>(&projection, row));
                },
                None => {
                    return Err(GenerationError::UngatheredToken { id: ids[i] });
                },
            }
        }
        proof {
            if arith::pure::<A>() {
                assert(rows::deep(states@) =~= self.states::<A>(fetched@, ids@));
            }
        }
        Ok(states)
    }

    /// The tokens that have no embedding, each once, in order.
    pub fn missing(&self, fetched: &FetchedRows<S>, ids: &[u32]) -> (missing: Vec<u32>)
        requires
            self.fits(self.fc2_bias@.len() as int),
            fetched.wf(self.embed_width as int),
        ensures
            ids::distinct_of(missing@, uncovered_of(*self, fetched@, ids@)),
    {
        let mut found: Vec<u32> = Vec::new();
        let ghost lacking = |id: u32| !self.covers(fetched@, id);
        proof {
            assert(ids@.take(0) =~= Seq::<u32>::empty());
            assert(Seq::<u32>::empty().filter(lacking) =~= Seq::<u32>::empty()) by {
                reveal(Seq::filter);
            }
        }
        for i in 0..ids.len()
            invariant
                self.fits(self.fc2_bias@.len() as int),
                fetched.wf(self.embed_width as int),
                lacking == (|id: u32| !self.covers(fetched@, id)),
                found@ == ids@.take(i as int).filter(lacking),
        {
            proof {
                let longer = ids@.take(i + 1);
                assert(longer.drop_last() =~= ids@.take(i as int));
                assert(longer.last() == ids@[i as int]);
                reveal(Seq::filter);
            }
            if self.find(fetched, ids[i]).is_none() {
                found.push(ids[i]);
            }
        }
        proof {
            assert(ids@.take(ids@.len() as int) =~= ids@);
        }
        sorted_distinct(found.as_slice())
    }
}

} // verus!
