//! What the embedding provider is asked and what is made of its answer.
use vstd::prelude::*;
use vstd::slice::slice_to_vec;
use vstd::string::StringExecFns;
use crate::order::{lemma_insert_by_at, stable_sort};

verus! {

/// One embedding of an answer, with the place of its input among the
/// inputs. Each number of the embedding is held as the 32 bits of its
/// floating-point form.
#[derive(Debug, Clone)]
pub struct EmbeddingItem {
    pub index: usize,
    pub embedding: Vec<u32>,
}

/// An item as contracts see it.
pub type ItemView = (nat, Seq<u32>);

/// The views of `items`.
pub open spec fn item_views(items: Seq<EmbeddingItem>) -> Seq<ItemView> {
    Seq::new(items.len(), |i: int| (items[i].index as nat, items[i].embedding@))
}

/// Whether `a` answers an earlier input than `b`.
pub open spec fn answers_earlier(a: ItemView, b: ItemView) -> bool {
    a.0 < b.0
}

/// The embeddings of `items`.
pub open spec fn embeddings_of(items: Seq<ItemView>) -> Seq<Seq<u32>> {
    Seq::new(items.len(), |i: int| items[i].1)
}

/// The views of `embeddings`.
pub open spec fn embedding_views(embeddings: Seq<Vec<u32>>) -> Seq<Seq<u32>> {
    Seq::new(embeddings.len(), |i: int| embeddings[i]@)
}

/// The value of the header that carries `token`.
pub fn bearer_header(token: &str) -> (header: String)
    ensures
        header@ == "Bearer "@ + token@,
{
    String::from_str("Bearer ").concat(token)
}

/// What is said of a request that the provider refused with `status` and
/// the answer `body`.
pub fn failure_message(status: &str, body: &str) -> (text: String)
    ensures
        text@ == "embeddings request failed with "@ + status@ + ": "@ + body@,
{
    String::from_str("embeddings request failed with ").concat(status).concat(": ").concat(body)
}

/// The embeddings of an answer in the order of the inputs that they answer;
/// items that name the same input keep their order.
pub fn order_embeddings(items: &Vec<EmbeddingItem>) -> (embeddings: Vec<Vec<u32>>)
    ensures
        embedding_views(embeddings@) == embeddings_of(
            stable_sort(item_views(items@), |a: ItemView, b: ItemView| answers_earlier(a, b)),
        ),
{
    let ghost before = |a: ItemView, b: ItemView| answers_earlier(a, b);
    let ghost all = item_views(items@);
    let mut places: Vec<usize> = Vec::new();
    let mut embeddings: Vec<Vec<u32>> = Vec::new();
    let mut i: usize = 0;
    while i < items.len()
        invariant
            i <= items@.len(),
            all == item_views(items@),
            before == (|a: ItemView, b: ItemView| answers_earlier(a, b)),
            places@.len() == embeddings@.len(),
            Seq::new(places@.len(), |k: int| (places@[k] as nat, embeddings@[k]@)) == stable_sort(
                all.subrange(0, i as int),
                before,
            ),
        decreases items@.len() - i,
    {
        let item = &items[i];
        let ghost done = Seq::new(places@.len(), |k: int| (places@[k] as nat, embeddings@[k]@));
        assert(all.subrange(0, i + 1).drop_last() == all.subrange(0, i as int));
        assert(all.subrange(0, i + 1).last() == (item.index as nat, item.embedding@));
        let mut at: usize = places.len();
        while at > 0 && item.index < places[at - 1]
            invariant
                at <= places@.len(),
                places@.len() == embeddings@.len(),
                done == Seq::new(places@.len(), |k: int| (places@[k] as nat, embeddings@[k]@)),
                before == (|a: ItemView, b: ItemView| answers_earlier(a, b)),
                forall|j: int|
                    at <= j < done.len() ==> before(
                        (item.index as nat, item.embedding@),
                        #[trigger] done[j],
                    ),
            decreases at,
        {
            at -= 1;
            assert(done[at as int] == (places@[at as int] as nat, embeddings@[at as int]@));
        }
        proof {
            if at > 0 {
                assert(done[at - 1] == (places@[at - 1] as nat, embeddings@[at - 1]@));
            }
            lemma_insert_by_at(done, (item.index as nat, item.embedding@), before, at as int);
        }
        places.insert(at, item.index);
        embeddings.insert(at, slice_to_vec(item.embedding.as_slice()));
        assert(Seq::new(places@.len(), |k: int| (places@[k] as nat, embeddings@[k]@)) == done.insert(
            at as int,
            (item.index as nat, item.embedding@),
        ));
        i += 1;
    }
    assert(all.subrange(0, i as int) == all);
    assert(embedding_views(embeddings@) == embeddings_of(stable_sort(all, before)));
    embeddings
}

} // verus!
