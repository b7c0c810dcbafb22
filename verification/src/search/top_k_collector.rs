//! Collection of the best hits of a segment.
use super::sort_repr::InternalSortValueRepr;
use crate::sort;
use crate::sort::{Ranked, Sortable};
use vstd::prelude::*;

verus! {

impl Ranked for InternalSortValueRepr {
    /// Larger representations go first.
    open spec fn ranks_before(self, other: InternalSortValueRepr) -> bool {
        other.below(self)
    }

    proof fn ranks_asymmetric(a: InternalSortValueRepr, b: InternalSortValueRepr) {
    }

    proof fn ranks_weakly(
        a: InternalSortValueRepr,
        b: InternalSortValueRepr,
        c: InternalSortValueRepr,
    ) {
    }
}

impl Sortable for InternalSortValueRepr {
    fn goes_before(&self, other: &InternalSortValueRepr) -> (before: bool) {
        other.is_below(self)
    }
}

/// The first `k` elements, or all of them.
pub open spec fn at_most<T>(s: Seq<T>, k: nat) -> Seq<T> {
    if s.len() <= k {
        s
    } else {
        s.take(k as int)
    }
}

/// The `k` largest representations, the largest first.
pub open spec fn best(reprs: Seq<InternalSortValueRepr>, k: nat) -> Seq<InternalSortValueRepr> {
    at_most(sort::sorted(reprs), k)
}

/// Keeps the `k` largest representations it is given.
pub struct TopKComputer {
    top_k: usize,
    /// The largest first.
    kept: Vec<InternalSortValueRepr>,
}

impl View for TopKComputer {
    type V = Seq<InternalSortValueRepr>;

    closed spec fn view(&self) -> Seq<InternalSortValueRepr> {
        self.kept@
    }
}

impl TopKComputer {
    /// How many representations are kept at most.
    pub closed spec fn limit(&self) -> nat {
        self.top_k as nat
    }

    /// What is kept is in order, and within the limit.
    pub open spec fn wf(&self) -> bool {
        &&& sort::is_sorted(self@)
        &&& self@.len() <= self.limit()
    }

    /// A computer that keeps `top_k` representations.
    pub fn new(top_k: usize) -> (computer: TopKComputer)
        ensures
            computer.wf(),
            computer.limit() == top_k,
            computer@ == Seq::<InternalSortValueRepr>::empty(),
    {
        TopKComputer { top_k, kept: Vec::new() }
    }

    /// Takes one more representation into account.
    pub fn push(&mut self, repr: InternalSortValueRepr)
        requires
            old(self).wf(),
        ensures
            final(self).wf(),
            final(self).limit() == old(self).limit(),
            final(self)@ == at_most(sort::insert_ranked(old(self)@, repr), old(self).limit()),
    {
        let ghost before = self.kept@;
        let ghost target = sort::insert_ranked(before, repr);
        proof {
            sort::lemma_insert_sorted(before, repr);
            assert(before.take(before.len() as int) =~= before);
            assert(target + before.skip(before.len() as int) =~= target);
        }
        let mut position: usize = self.kept.len();
        while position > 0 && repr.goes_before(&self.kept[position - 1])
            invariant
                self.kept@ == before,
                position <= before.len(),
                target == sort::insert_ranked(before.take(position as int), repr) + before.skip(
                    position as int,
                ),
            decreases position,
        {
            proof {
                let p = position as int;
                assert(before.take(p).drop_last() =~= before.take(p - 1));
                assert(before.take(p).last() == before[p - 1]);
                assert(sort::insert_ranked(before.take(p - 1), repr).push(before[p - 1])
                    + before.skip(p) =~= sort::insert_ranked(before.take(p - 1), repr)
                    + before.skip(p - 1));
            }
            position = position - 1;
        }
        proof {
            let p = position as int;
            assert(target =~= before.take(p).push(repr) + before.skip(p));
            assert(target =~= before.insert(p, repr));
        }
        if position < self.top_k {
            self.kept.insert(position, repr);
            if self.kept.len() > self.top_k {
                self.kept.truncate(self.top_k);
            }
            proof {
                assert(self.kept@ =~= at_most(target, self.top_k as nat));
            }
        } else {
            proof {
                assert(position == before.len());
                assert(target.take(self.top_k as int) =~= before);
            }
        }
        proof {
            let kept = self.kept@;
            assert forall|i: int, j: int| 0 <= i < j < kept.len() implies !(
            #[trigger] kept[j]).ranks_before(#[trigger] kept[i]) by {
                assert(kept[i] == target[i] && kept[j] == target[j]);
            }
        }
    }

    /// What is kept, the largest first.
    pub fn to_sorted_vec(&self) -> (reprs: Vec<InternalSortValueRepr>)
        ensures
            reprs@ == self@,
    {
        let mut reprs: Vec<InternalSortValueRepr> = Vec::new();
        for i in 0..self.kept.len()
            invariant
                reprs@ == self.kept@.take(i as int),
        {
            reprs.push(self.kept[i]);
            proof {
                assert(self.kept@.take(i + 1) =~= self.kept@.take(i as int).push(
                    self.kept@[i as int],
                ));
            }
        }
        proof {
            assert(self.kept@.take(self.kept@.len() as int) =~= self.kept@);
        }
        reprs
    }
}

/// A hit of a segment of a split.
pub struct PartialHit {
    pub split_id: String,
    pub segment_ord: u32,
    pub sort_value: InternalSortValueRepr,
}

/// Collects the best hits of a segment, after a search after boundary if there is one.
pub struct QuickwitSegmentTopKCollector {
    split_id: String,
    /// Splits only have 1 segment so this should always be 0.
    segment_ord: u32,
    top_k_hits: TopKComputer,
    search_after_opt: Option<InternalSortValueRepr>,
}

/// Whether a hit comes after the boundary.
pub open spec fn is_after(
    repr: InternalSortValueRepr,
    search_after_opt: Option<InternalSortValueRepr>,
) -> bool {
    match search_after_opt {
        Some(search_after) => repr.below(search_after),
        None => true,
    }
}

/// The representations after the collection of one more hit.
pub open spec fn collected(
    kept: Seq<InternalSortValueRepr>,
    repr: InternalSortValueRepr,
    search_after_opt: Option<InternalSortValueRepr>,
    top_k: nat,
) -> Seq<InternalSortValueRepr> {
    if is_after(repr, search_after_opt) {
        at_most(sort::insert_ranked(kept, repr), top_k)
    } else {
        kept
    }
}

/// The representations after the collection of several hits.
pub open spec fn collected_all(
    kept: Seq<InternalSortValueRepr>,
    reprs: Seq<InternalSortValueRepr>,
    search_after_opt: Option<InternalSortValueRepr>,
    top_k: nat,
) -> Seq<InternalSortValueRepr>
    decreases reprs.len(),
{
    if reprs.len() == 0 {
        kept
    } else {
        collected(
            collected_all(kept, reprs.drop_last(), search_after_opt, top_k),
            reprs.last(),
            search_after_opt,
            top_k,
        )
    }
}

impl QuickwitSegmentTopKCollector {
    /// The split that the segment belongs to.
    pub closed spec fn split(&self) -> Seq<char> {
        self.split_id@
    }

    /// The ordinal of the segment.
    pub closed spec fn segment(&self) -> u32 {
        self.segment_ord
    }

    /// How many hits are kept at most.
    pub closed spec fn limit(&self) -> nat {
        self.top_k_hits.limit()
    }

    /// The boundary that hits have to come after.
    pub closed spec fn boundary(&self) -> Option<InternalSortValueRepr> {
        self.search_after_opt
    }

    /// The hits kept, the best first.
    pub closed spec fn kept(&self) -> Seq<InternalSortValueRepr> {
        self.top_k_hits@
    }

    /// The hits kept are in order, and within the limit.
    pub closed spec fn wf(&self) -> bool {
        self.top_k_hits.wf()
    }

    /// Whether only the hits kept differ from `other`.
    pub open spec fn same_settings(&self, other: &QuickwitSegmentTopKCollector) -> bool {
        &&& self.split() == other.split()
        &&& self.segment() == other.segment()
        &&& self.limit() == other.limit()
        &&& self.boundary() == other.boundary()
    }

    /// A collector of the `top_k` best hits that come after `search_after_opt`.
    pub fn new(
        split_id: String,
        segment_ord: u32,
        top_k: usize,
        search_after_opt: Option<InternalSortValueRepr>,
    ) -> (collector: QuickwitSegmentTopKCollector)
        ensures
            collector.wf(),
            collector.split() == split_id@,
            collector.segment() == segment_ord,
            collector.limit() == top_k,
            collector.boundary() == search_after_opt,
            collector.kept() == Seq::<InternalSortValueRepr>::empty(),
    {
        QuickwitSegmentTopKCollector {
            split_id,
            segment_ord,
            top_k_hits: TopKComputer::new(top_k),
            search_after_opt,
        }
    }

    /// Collects a block of hits.
    pub fn collect_top_k_block(&mut self, reprs: &[InternalSortValueRepr])
        requires
            old(self).wf(),
        ensures
            final(self).wf(),
            final(self).same_settings(old(self)),
            final(self).kept() == collected_all(
                old(self).kept(),
                reprs@,
                old(self).boundary(),
                old(self).limit(),
            ),
    {
        proof {
            assert(reprs@.take(0) =~= Seq::empty());
        }
        let ghost before = *self;
        for i in 0..reprs.len()
            invariant
                self.wf(),
                self.same_settings(&before),
                self.kept() == collected_all(
                    before.kept(),
                    reprs@.take(i as int),
                    before.boundary(),
                    before.limit(),
                ),
        {
            self.collect_top_k(reprs[i]);
            proof {
                assert(reprs@.take(i + 1).drop_last() =~= reprs@.take(i as int));
            }
        }
        proof {
            assert(reprs@.take(reprs@.len() as int) =~= reprs@);
        }
    }

    /// Collects one hit.
    pub fn collect_top_k(&mut self, repr: InternalSortValueRepr)
        requires
            old(self).wf(),
        ensures
            final(self).wf(),
            final(self).same_settings(old(self)),
            final(self).kept() == collected(
                old(self).kept(),
                repr,
                old(self).boundary(),
                old(self).limit(),
            ),
    {
        if let Some(search_after) = &self.search_after_opt {
            if !repr.is_below(search_after) {
                return ;
            }
        }
        self.top_k_hits.push(repr);
    }

    /// The hits kept, the best first.
    pub fn get_top_k(&self) -> (hits: Vec<PartialHit>)
        ensures
            hits@.len() == self.kept().len(),
            forall|i: int|
                0 <= i < hits@.len() ==> {
                    &&& (#[trigger] hits@[i]).split_id@ == self.split()
                    &&& hits@[i].segment_ord == self.segment()
                    &&& hits@[i].sort_value == self.kept()[i]
                },
    {
        let reprs = self.top_k_hits.to_sorted_vec();
        let mut hits: Vec<PartialHit> = Vec::new();
        for i in 0..reprs.len()
            invariant
                reprs@ == self.kept(),
                hits@.len() == i,
                forall|k: int|
                    0 <= k < i ==> {
                        &&& (#[trigger] hits@[k]).split_id@ == self.split()
                        &&& hits@[k].segment_ord == self.segment()
                        &&& hits@[k].sort_value == self.kept()[k]
                    },
        {
            hits.push(
                PartialHit {
                    split_id: self.split_id.clone(),
                    segment_ord: self.segment_ord,
                    sort_value: reprs[i],
                },
            );
        }
        hits
    }
}

/// Dropping what is beyond the limit before an insertion makes no difference after it.
proof fn lemma_at_most_insert(s: Seq<InternalSortValueRepr>, x: InternalSortValueRepr, k: nat)
    requires
        sort::is_sorted(s),
    ensures
        at_most(sort::insert_ranked(at_most(s, k), x), k) == at_most(sort::insert_ranked(s, x), k),
    decreases s.len(),
{
    if s.len() > k {
        let front = s.drop_last();
        assert(at_most(front, k) =~= at_most(s, k));
        assert forall|i: int, j: int| 0 <= i < j < front.len() implies !(
        #[trigger] front[j]).ranks_before(#[trigger] front[i]) by {
            assert(front[i] == s[i] && front[j] == s[j]);
        }
        lemma_at_most_insert(front, x, k);
        sort::lemma_insert_sorted(s, x);
        sort::lemma_insert_sorted(front, x);
        if x.ranks_before(s.last()) {
            assert(at_most(sort::insert_ranked(s, x), k) =~= at_most(
                sort::insert_ranked(front, x),
                k,
            ));
        } else {
            // `x` goes last, beyond the limit. It goes last among the first ones too.
            let inserted = sort::insert_ranked(front, x);
            if front.len() > 0 && x.ranks_before(front.last()) {
                assert(!s[s.len() - 1].ranks_before(s[s.len() - 2]));
                InternalSortValueRepr::ranks_weakly(x, s.last(), front.last());
            }
            assert(inserted == front.push(x));
            assert(at_most(inserted, k) =~= s.take(k as int));
            assert(at_most(s.push(x), k) =~= s.take(k as int));
        }
    }
}

/// The hits that come after a boundary.
pub open spec fn after_boundary(
    reprs: Seq<InternalSortValueRepr>,
    search_after_opt: Option<InternalSortValueRepr>,
) -> Seq<InternalSortValueRepr>
    decreases reprs.len(),
{
    if reprs.len() == 0 {
        reprs
    } else {
        let front = after_boundary(reprs.drop_last(), search_after_opt);
        if is_after(reprs.last(), search_after_opt) {
            front.push(reprs.last())
        } else {
            front
        }
    }
}

/// Starting from nothing, what is kept after the collection of some hits are the largest ones
/// among those that come after the boundary, the largest first.
pub proof fn law_top_k_are_the_best(
    reprs: Seq<InternalSortValueRepr>,
    search_after_opt: Option<InternalSortValueRepr>,
    top_k: nat,
)
    ensures
        collected_all(Seq::empty(), reprs, search_after_opt, top_k) == best(
            after_boundary(reprs, search_after_opt),
            top_k,
        ),
    decreases reprs.len(),
{
    if reprs.len() == 0 {
        assert(sort::sorted(reprs) =~= Seq::empty());
    } else {
        let front = reprs.drop_last();
        law_top_k_are_the_best(front, search_after_opt, top_k);
        let kept = after_boundary(front, search_after_opt);
        if is_after(reprs.last(), search_after_opt) {
            sort::lemma_sorted(kept);
            lemma_at_most_insert(sort::sorted(kept), reprs.last(), top_k);
            assert(kept.push(reprs.last()).drop_last() =~= kept);
        }
    }
}

/// Every hit that comes after the boundary is kept, or at least as good hits fill the limit.
pub proof fn law_no_better_hit_is_lost(
    reprs: Seq<InternalSortValueRepr>,
    search_after_opt: Option<InternalSortValueRepr>,
    top_k: nat,
    i: int,
)
    requires
        0 <= i < reprs.len(),
        is_after(reprs[i], search_after_opt),
    ensures
        ({
            let kept = collected_all(Seq::empty(), reprs, search_after_opt, top_k);
            ||| kept.contains(reprs[i])
            ||| kept.len() == top_k && forall|j: int|
                0 <= j < kept.len() ==> !(#[trigger] kept[j]).below(reprs[i])
        }),
{
    broadcast use vstd::seq_lib::group_to_multiset_ensures;

    law_top_k_are_the_best(reprs, search_after_opt, top_k);
    let candidates = after_boundary(reprs, search_after_opt);
    lemma_after_boundary_contains(reprs, search_after_opt, i);
    let all = sort::sorted(candidates);
    sort::lemma_sorted(candidates);
    assert(candidates.to_multiset().contains(reprs[i]));
    assert(all.contains(reprs[i]));
    let p = choose|p: int| 0 <= p < all.len() && all[p] == reprs[i];
    let kept = best(candidates, top_k);
    if p < kept.len() {
        assert(kept[p] == reprs[i]);
    } else {
        assert forall|j: int| 0 <= j < kept.len() implies !(#[trigger] kept[j]).below(reprs[i]) by {
            assert(kept[j] == all[j]);
            assert(!all[p].ranks_before(all[j]));
        }
    }
}

proof fn lemma_after_boundary_contains(
    reprs: Seq<InternalSortValueRepr>,
    search_after_opt: Option<InternalSortValueRepr>,
    i: int,
)
    requires
        0 <= i < reprs.len(),
        is_after(reprs[i], search_after_opt),
    ensures
        after_boundary(reprs, search_after_opt).contains(reprs[i]),
    decreases reprs.len(),
{
    let front = after_boundary(reprs.drop_last(), search_after_opt);
    let all = after_boundary(reprs, search_after_opt);
    if i == reprs.len() - 1 {
        assert(all[all.len() - 1] == reprs[i]);
    } else {
        lemma_after_boundary_contains(reprs.drop_last(), search_after_opt, i);
        let k = choose|k: int| 0 <= k < front.len() && front[k] == reprs[i];
        assert(all[k] == reprs[i]);
    }
}

/// The hits that come after a boundary are those below it.
proof fn lemma_after_boundary_filters(
    reprs: Seq<InternalSortValueRepr>,
    search_after_opt: Option<InternalSortValueRepr>,
)
    ensures
        after_boundary(reprs, search_after_opt) == reprs.filter(
            |repr: InternalSortValueRepr|
                match search_after_opt {
                    Some(search_after) => repr.below(search_after),
                    None => true,
                },
        ),
    decreases reprs.len(),
{
    reveal(Seq::filter);
    if reprs.len() > 0 {
        lemma_after_boundary_filters(reprs.drop_last(), search_after_opt);
    }
}

/// A hit is a candidate exactly if it is below the boundary in the order of whole representations,
/// or there is no boundary. From the candidates come as many hits as there are, up to the limit, each
/// as often as it was collected at most, the largest first. No candidate that is left out is larger
/// than any hit that is kept.
pub proof fn law_page_follows_the_boundary(
    reprs: Seq<InternalSortValueRepr>,
    search_after_opt: Option<InternalSortValueRepr>,
    top_k: nat,
)
    ensures
        ({
            let kept = collected_all(Seq::empty(), reprs, search_after_opt, top_k);
            let candidates = reprs.filter(
                |repr: InternalSortValueRepr|
                    match search_after_opt {
                        Some(search_after) => repr.below(search_after),
                        None => true,
                    },
            );
            &&& kept.len() == if candidates.len() <= top_k {
                candidates.len()
            } else {
                top_k
            }
            &&& kept.to_multiset().subset_of(candidates.to_multiset())
            &&& forall|i: int, j: int|
                0 <= i < j < kept.len() ==> !(#[trigger] kept[i]).below(#[trigger] kept[j])
            &&& forall|i: int| #![trigger kept[i]]
                0 <= i < kept.len() ==> {
                    &&& reprs.contains(kept[i])
                    &&& search_after_opt is Some ==> kept[i].below(search_after_opt->0)
                }
            &&& forall|i: int| #![trigger reprs[i]]
                0 <= i < reprs.len() && (search_after_opt is None || reprs[i].below(
                    search_after_opt->0,
                )) ==> kept.contains(reprs[i]) || (kept.len() == top_k && forall|j: int|
                    0 <= j < kept.len() ==> !(#[trigger] kept[j]).below(reprs[i]))
        }),
{
    broadcast use vstd::seq_lib::group_to_multiset_ensures;

    let pred = |repr: InternalSortValueRepr|
        match search_after_opt {
            Some(search_after) => repr.below(search_after),
            None => true,
        };
    let candidates = reprs.filter(pred);
    let kept = collected_all(Seq::empty(), reprs, search_after_opt, top_k);
    lemma_after_boundary_filters(reprs, search_after_opt);
    law_top_k_are_the_best(reprs, search_after_opt, top_k);
    let all = sort::sorted(candidates);
    sort::lemma_sorted(candidates);
    assert(kept == at_most(all, top_k));
    assert(all =~= kept + all.skip(kept.len() as int));
    vstd::seq_lib::lemma_multiset_commutative(kept, all.skip(kept.len() as int));
    assert(kept.to_multiset().subset_of(candidates.to_multiset()));
    assert forall|i: int, j: int| 0 <= i < j < kept.len() implies !(#[trigger] kept[i]).below(
        #[trigger] kept[j],
    ) by {
        assert(kept[i] == all[i] && kept[j] == all[j]);
        assert(!all[j].ranks_before(all[i]));
    }
    assert forall|i: int| #![trigger kept[i]] 0 <= i < kept.len() implies {
        &&& reprs.contains(kept[i])
        &&& search_after_opt is Some ==> kept[i].below(search_after_opt->0)
    } by {
        assert(kept.contains(kept[i]));
        assert(kept.to_multiset().contains(kept[i]));
        assert(candidates.to_multiset().contains(kept[i]));
        assert(candidates.contains(kept[i]));
        reprs.lemma_filter_contains_rev(pred, kept[i]);
        let k = choose|k: int| 0 <= k < candidates.len() && candidates[k] == kept[i];
        reprs.lemma_filter_pred(pred, k);
    }
    assert forall|i: int| #![trigger reprs[i]]
        0 <= i < reprs.len() && (search_after_opt is None || reprs[i].below(
            search_after_opt->0,
        )) implies kept.contains(reprs[i]) || (kept.len() == top_k && forall|j: int|
        0 <= j < kept.len() ==> !(#[trigger] kept[j]).below(reprs[i])) by {
        law_no_better_hit_is_lost(reprs, search_after_opt, top_k, i);
    }
}

/// Hits can be collected in blocks of any size: the page is the same.
pub proof fn law_blocks_make_no_difference(
    kept: Seq<InternalSortValueRepr>,
    first: Seq<InternalSortValueRepr>,
    second: Seq<InternalSortValueRepr>,
    search_after_opt: Option<InternalSortValueRepr>,
    top_k: nat,
)
    ensures
        collected_all(
            collected_all(kept, first, search_after_opt, top_k),
            second,
            search_after_opt,
            top_k,
        ) == collected_all(kept, first + second, search_after_opt, top_k),
    decreases second.len(),
{
    if second.len() == 0 {
        assert(first + second =~= first);
    } else {
        law_blocks_make_no_difference(kept, first, second.drop_last(), search_after_opt, top_k);
        assert((first + second).drop_last() =~= first + second.drop_last());
    }
}

/// The next page starts right after the last hit of a full one: with that hit as the boundary, no
/// hit of the page comes again, and whatever was left out is a candidate, unless it equals that hit.
pub proof fn law_pages_do_not_overlap(
    reprs: Seq<InternalSortValueRepr>,
    search_after_opt: Option<InternalSortValueRepr>,
    top_k: nat,
    i: int,
)
    requires
        0 <= i < reprs.len(),
        search_after_opt is Some ==> reprs[i].below(search_after_opt->0),
        0 < top_k,
        collected_all(Seq::empty(), reprs, search_after_opt, top_k).len() == top_k,
    ensures
        ({
            let page = collected_all(Seq::empty(), reprs, search_after_opt, top_k);
            &&& forall|k: int| 0 <= k < page.len() ==> !is_after(#[trigger] page[k], Some(page.last()))
            &&& page.contains(reprs[i]) || is_after(reprs[i], Some(page.last()))
        }),
{
    law_page_follows_the_boundary(reprs, search_after_opt, top_k);
    let page = collected_all(Seq::empty(), reprs, search_after_opt, top_k);
    let last = page[page.len() - 1];
    assert forall|k: int| 0 <= k < page.len() implies !is_after(#[trigger] page[k], Some(last)) by {
        if k < page.len() - 1 {
            assert(!page[k].below(page[page.len() - 1]));
        }
    }
    if !page.contains(reprs[i]) {
        assert(!last.below(reprs[i]));
        assert(page.contains(last));
    }
}

/// Collecting hits changes none of the settings: the split, the segment, how many hits are kept, and
/// the boundary.
pub proof fn law_settings_stay(before: QuickwitSegmentTopKCollector, after: QuickwitSegmentTopKCollector)
    requires
        after.same_settings(&before),
    ensures
        after.split() == before.split(),
        after.segment() == before.segment(),
        after.limit() == before.limit(),
        after.boundary() == before.boundary(),
{
}

} // verus!
