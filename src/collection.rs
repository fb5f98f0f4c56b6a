//! The collection of all items of one run, gathered from independently
//! processed batches.
use vstd::prelude::*;

use crate::content::Content;
use crate::error::ItemError;

verus! {

/// Relies on chrono::Utc::now and DateTime::timestamp_millis: the time of
/// the call in milliseconds since the Unix epoch.
#[verifier::external_body]
fn now_millis() -> (r: i64) {
    chrono::Utc::now().timestamp_millis()
}

/// Everything the site shows, and when it was gathered.
#[derive(Debug)]
pub struct AvailableContent {
    /// When the run started, in milliseconds since the Unix epoch
    pub at: i64,
    pub content: Vec<Content>,
}

impl Default for AvailableContent {
    /// An empty collection stamped with the current time.
    fn default() -> (r: AvailableContent)
        ensures
            r.content@.len() == 0,
    {
        AvailableContent { at: now_millis(), content: Vec::new() }
    }
}

impl AvailableContent {
    /// An empty collection stamped `at`.
    pub fn at_time(at: i64) -> (r: AvailableContent)
        ensures
            r.at == at,
            r.content@.len() == 0,
    {
        AvailableContent { at, content: Vec::new() }
    }

    /// Adds one item at the end.
    pub fn push(&mut self, item: Content)
        ensures
            final(self).at == old(self).at,
            final(self).content@ == old(self).content@.push(item),
    {
        self.content.push(item);
    }

    /// Moves the items of `other` to the end of this collection.
    pub fn append(&mut self, other: AvailableContent)
        ensures
            final(self).at == old(self).at,
            final(self).content@ == old(self).content@ + other.content@,
    {
        let mut other = other;
        self.content.append(&mut other.content);
    }
}

/// The first failure among `rs`.
pub open spec fn first_error(rs: Seq<Result<Content, ItemError>>) -> Option<ItemError>
    decreases rs.len(),
{
    if rs.len() == 0 {
        None
    } else {
        match first_error(rs.drop_last()) {
            Some(e) => Some(e),
            None => match rs.last() {
                Err(e) => Some(e),
                Ok(_) => None,
            },
        }
    }
}

/// The items of `rs`, where every result is one.
pub open spec fn items_of(rs: Seq<Result<Content, ItemError>>) -> Seq<Content> {
    rs.map_values(|r: Result<Content, ItemError>| r->Ok_0)
}

pub open spec fn batches_view(bs: Seq<Vec<Result<Content, ItemError>>>) -> Seq<
    Seq<Result<Content, ItemError>>,
> {
    bs.map_values(|b: Vec<Result<Content, ItemError>>| b@)
}

pub proof fn lemma_first_error_none(rs: Seq<Result<Content, ItemError>>)
    ensures
        first_error(rs) is None <==> forall|i: int| 0 <= i < rs.len() ==> #[trigger] rs[i] is Ok,
    decreases rs.len(),
{
    if rs.len() > 0 {
        lemma_first_error_none(rs.drop_last());
        if first_error(rs) is None {
            assert forall|i: int| 0 <= i < rs.len() implies #[trigger] rs[i] is Ok by {
                if i < rs.len() - 1 {
                    assert(rs.drop_last()[i] == rs[i]);
                }
            }
        } else if first_error(rs.drop_last()) is Some {
            let i = choose|i: int| 0 <= i < rs.len() - 1 && !(#[trigger] rs.drop_last()[i] is Ok);
            assert(rs[i] == rs.drop_last()[i]);
        }
    }
}

pub proof fn lemma_first_error_append(
    a: Seq<Result<Content, ItemError>>,
    b: Seq<Result<Content, ItemError>>,
)
    ensures
        first_error(a + b) == match first_error(a) {
            Some(e) => Some(e),
            None => first_error(b),
        },
    decreases b.len(),
{
    if b.len() == 0 {
        assert(a + b =~= a);
    } else {
        assert((a + b).drop_last() =~= a + b.drop_last());
        lemma_first_error_append(a, b.drop_last());
    }
}

/// Gathers the results of all batches, in batch order: the first failure,
/// or a collection stamped `at` with every item.
pub fn collect_batches(at: i64, batches: Vec<Vec<Result<Content, ItemError>>>) -> (r: Result<
    AvailableContent,
    ItemError,
>)
    ensures
        match first_error(batches_view(batches@).flatten()) {
            Some(e) => r == Err::<AvailableContent, _>(e),
            None => r matches Ok(a) && a.at == at && a.content@ == items_of(
                batches_view(batches@).flatten(),
            ),
        },
{
    let ghost bv = batches_view(batches@);
    let mut acc = AvailableContent::at_time(at);
    let ghost mut done: Seq<Seq<Result<Content, ItemError>>> = seq![];
    assert(items_of(done.flatten()) =~= acc.content@);
    for batch in bit: batches
        invariant
            bv == batches_view(bit.seq()),
            bv == batches_view(batches@),
            done == bv.take(bit.index() as int),
            first_error(done.flatten()) is None,
            acc.at == at,
            acc.content@ == items_of(done.flatten()),
    {
        let ghost flat = done.flatten();
        let ghost bidx = bit.index() as int;
        let ghost b = batch@;
        assert(bv[bidx] == b);
        assert(bv.take(bidx + 1) =~= done.push(b));
        let mut part = AvailableContent::at_time(at);
        assert(items_of(b.take(0)) =~= part.content@);
        assert(b.take(0) =~= Seq::<Result<Content, ItemError>>::empty());
        for res in rit: batch
            invariant
                rit.seq() == b,
                bv == batches_view(batches@),
                0 <= bidx < bv.len(),
                bv[bidx] == b,
                bv.take(bidx + 1) == done.push(b),
                flat == done.flatten(),
                first_error(flat) is None,
                first_error(b.take(rit.index() as int)) is None,
                part.at == at,
                part.content@ == items_of(b.take(rit.index() as int)),
        {
            let ghost i = rit.index();
            assert(b.take(i + 1).drop_last() =~= b.take(i as int));
            assert(b.take(i + 1).last() == res);
            match res {
                Ok(c) => {
                    part.push(c);
                    assert(part.content@ =~= items_of(b.take(i + 1)));
                },
                Err(e) => {
                    proof {
                        assert(b.take(i + 1) + b.skip(i + 1) =~= b);
                        lemma_first_error_append(b.take(i + 1), b.skip(i + 1));
                        lemma_first_error_append(flat, b);
                        assert(bv =~= bv.take(bidx + 1) + bv.skip(bidx + 1));
                        vstd::seq_lib::lemma_flatten_concat(bv.take(bidx + 1), bv.skip(bidx + 1));
                        done.lemma_flatten_push(b);
                        lemma_first_error_append(flat + b, bv.skip(bidx + 1).flatten());
                        assert(first_error(b.take(i + 1)) == Some(e));
                        assert(first_error(b) == Some(e));
                        assert(first_error(flat + b) == Some(e));
                        assert(bv.flatten() == (flat + b) + bv.skip(bidx + 1).flatten());
                    }
                    return Err(e);
                },
            }
        }
        assert(b.take(b.len() as int) =~= b);
        proof {
            lemma_first_error_append(flat, b);
            done.lemma_flatten_push(b);
            assert(items_of(flat + b) =~= items_of(flat) + items_of(b));
        }
        acc.append(part);
        proof {
            done = done.push(b);
        }
    }
    assert(done =~= bv);
    Ok(acc)
}

} // verus!

verus! {

/// Sequences with the same elements keep them alike under any map.
proof fn lemma_map_same_multiset<A, B>(s1: Seq<A>, s2: Seq<A>, f: spec_fn(A) -> B)
    requires
        s1.to_multiset() == s2.to_multiset(),
    ensures
        s1.map_values(f).to_multiset() == s2.map_values(f).to_multiset(),
    decreases s1.len(),
{
    broadcast use vstd::seq_lib::group_to_multiset_ensures;

    if s1.len() == 0 {
        vstd::seq_lib::to_multiset_len(s2);
        assert(s1.map_values(f) =~= Seq::<B>::empty());
        assert(s2.map_values(f) =~= Seq::<B>::empty());
    } else {
        let a = s1[0];
        vstd::seq_lib::to_multiset_contains(s2, a);
        vstd::seq_lib::to_multiset_contains(s1, a);
        assert(s1.contains(a));
        let j = choose|j: int| 0 <= j < s2.len() && s2[j] == a;
        let t1 = s1.drop_first();
        let t2 = s2.remove(j);
        assert(s1.remove(0) =~= t1);
        vstd::seq_lib::to_multiset_remove(s1, 0);
        vstd::seq_lib::to_multiset_remove(s2, j);
        lemma_map_same_multiset(t1, t2, f);
        assert(s1.map_values(f) =~= t1.map_values(f).insert(0, f(a)));
        assert(s2.map_values(f) =~= t2.map_values(f).insert(j, f(a)));
        vstd::seq_lib::to_multiset_insert(t1.map_values(f), 0, f(a));
        vstd::seq_lib::to_multiset_insert(t2.map_values(f), j, f(a));
    }
}

/// Gathering loses and duplicates nothing, whatever the batching: where no
/// result failed, the collection holds the item of each result, one for one;
/// and two batchings of the same results, in any grouping and any order,
/// either both fail or both give collections of the same items.
pub proof fn lemma_gathering_is_loss_free(
    b1: Seq<Seq<Result<Content, ItemError>>>,
    b2: Seq<Seq<Result<Content, ItemError>>>,
)
    requires
        b1.flatten().to_multiset() == b2.flatten().to_multiset(),
    ensures
        first_error(b1.flatten()) is None <==> first_error(b2.flatten()) is None,
        first_error(b1.flatten()) is None ==> {
            &&& items_of(b1.flatten()).len() == b1.flatten().len()
            &&& forall|i: int|
                0 <= i < b1.flatten().len() ==> b1.flatten()[i] == Ok::<Content, ItemError>(
                    #[trigger] items_of(b1.flatten())[i],
                )
            &&& items_of(b1.flatten()).to_multiset() == items_of(b2.flatten()).to_multiset()
        },
{
    let s1 = b1.flatten();
    let s2 = b2.flatten();
    lemma_first_error_none(s1);
    lemma_first_error_none(s2);
    assert forall|x: Result<Content, ItemError>| s1.contains(x) <==> s2.contains(x) by {
        vstd::seq_lib::to_multiset_contains(s1, x);
        vstd::seq_lib::to_multiset_contains(s2, x);
    }
    if first_error(s1) is None {
        assert forall|j: int| 0 <= j < s2.len() implies #[trigger] s2[j] is Ok by {
            assert(s2.contains(s2[j]));
            let i = choose|i: int| 0 <= i < s1.len() && s1[i] == s2[j];
            assert(s1[i] is Ok);
        }
    }
    if first_error(s2) is None {
        assert forall|i: int| 0 <= i < s1.len() implies #[trigger] s1[i] is Ok by {
            assert(s1.contains(s1[i]));
            let j = choose|j: int| 0 <= j < s2.len() && s2[j] == s1[i];
            assert(s2[j] is Ok);
        }
    }
    lemma_map_same_multiset(s1, s2, |r: Result<Content, ItemError>| r->Ok_0);
}

} // verus!

verus! {

/// The items among `rs`, in order.
pub open spec fn successes(rs: Seq<Result<Content, ItemError>>) -> Seq<Content>
    decreases rs.len(),
{
    if rs.len() == 0 {
        seq![]
    } else {
        successes(rs.drop_last()) + match rs.last() {
            Ok(c) => seq![c],
            Err(_) => seq![],
        }
    }
}

/// The failures among `rs`, in order.
pub open spec fn failures(rs: Seq<Result<Content, ItemError>>) -> Seq<ItemError>
    decreases rs.len(),
{
    if rs.len() == 0 {
        seq![]
    } else {
        failures(rs.drop_last()) + match rs.last() {
            Ok(_) => seq![],
            Err(e) => seq![e],
        }
    }
}

/// Every result is either kept as an item or reported as a failure.
pub proof fn lemma_lenient_gathering_accounts_for_all(rs: Seq<Result<Content, ItemError>>)
    ensures
        successes(rs).len() + failures(rs).len() == rs.len(),
        first_error(rs) is None ==> successes(rs) == items_of(rs) && failures(rs).len() == 0,
    decreases rs.len(),
{
    if rs.len() > 0 {
        lemma_lenient_gathering_accounts_for_all(rs.drop_last());
        if first_error(rs) is None {
            assert(items_of(rs) =~= items_of(rs.drop_last()).push(rs.last()->Ok_0));
        }
    }
}

proof fn lemma_successes_failures_append(
    a: Seq<Result<Content, ItemError>>,
    b: Seq<Result<Content, ItemError>>,
)
    ensures
        successes(a + b) == successes(a) + successes(b),
        failures(a + b) == failures(a) + failures(b),
    decreases b.len(),
{
    if b.len() == 0 {
        assert(a + b =~= a);
        assert(successes(a) + successes(b) =~= successes(a));
        assert(failures(a) + failures(b) =~= failures(a));
    } else {
        assert((a + b).drop_last() =~= a + b.drop_last());
        lemma_successes_failures_append(a, b.drop_last());
        assert(successes(a + b) =~= successes(a) + successes(b));
        assert(failures(a + b) =~= failures(a) + failures(b));
    }
}

/// Gathers the results of all batches, in batch order, skipping failures:
/// a collection stamped `at` with every item, and every failure.
pub fn collect_batches_lenient(at: i64, batches: Vec<Vec<Result<Content, ItemError>>>) -> (r: (
    AvailableContent,
    Vec<ItemError>,
))
    ensures
        r.0.at == at,
        r.0.content@ == successes(batches_view(batches@).flatten()),
        r.1@ == failures(batches_view(batches@).flatten()),
{
    let ghost bv = batches_view(batches@);
    let mut acc = AvailableContent::at_time(at);
    let mut errors: Vec<ItemError> = Vec::new();
    let ghost mut done: Seq<Seq<Result<Content, ItemError>>> = seq![];
    assert(successes(done.flatten()) =~= acc.content@);
    assert(failures(done.flatten()) =~= errors@);
    for batch in bit: batches
        invariant
            bv == batches_view(bit.seq()),
            bv == batches_view(batches@),
            done == bv.take(bit.index() as int),
            acc.at == at,
            acc.content@ == successes(done.flatten()),
            errors@ == failures(done.flatten()),
    {
        let ghost flat = done.flatten();
        let ghost bidx = bit.index() as int;
        let ghost b = batch@;
        assert(bv[bidx] == b);
        assert(bv.take(bidx + 1) =~= done.push(b));
        let ghost acc0 = acc.content@;
        let ghost err0 = errors@;
        assert(b.take(0) =~= Seq::<Result<Content, ItemError>>::empty());
        assert(acc.content@ =~= acc0 + successes(b.take(0)));
        assert(errors@ =~= err0 + failures(b.take(0)));
        for res in rit: batch
            invariant
                rit.seq() == b,
                acc.at == at,
                acc.content@ == acc0 + successes(b.take(rit.index() as int)),
                errors@ == err0 + failures(b.take(rit.index() as int)),
        {
            let ghost i = rit.index();
            assert(b.take(i + 1).drop_last() =~= b.take(i as int));
            assert(b.take(i + 1).last() == res);
            match res {
                Ok(c) => {
                    acc.push(c);
                    assert(acc.content@ =~= acc0 + successes(b.take(i + 1)));
                    assert(errors@ =~= err0 + failures(b.take(i + 1)));
                },
                Err(e) => {
                    errors.push(e);
                    assert(acc.content@ =~= acc0 + successes(b.take(i + 1)));
                    assert(errors@ =~= err0 + failures(b.take(i + 1)));
                },
            }
        }
        assert(b.take(b.len() as int) =~= b);
        proof {
            lemma_successes_failures_append(flat, b);
            done.lemma_flatten_push(b);
            done = done.push(b);
        }
    }
    assert(done =~= bv);
    (acc, errors)
}

} // verus!
