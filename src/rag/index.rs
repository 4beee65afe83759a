//! An in-memory nearest-neighbour index over stored texts.
use vstd::prelude::*;
use vstd::relations::injective_on;
use vstd::set_lib::{lemma_int_range, lemma_map_size, lemma_subset_equality, set_int_range};
use rayon::prelude::{IntoParallelRefIterator, ParallelIterator, IndexedParallelIterator};

verus! {

/// One stored memory.
#[derive(Debug, Clone)]
pub struct MemoryItem {
    pub id: u64,
    pub embedding: Vec<i32>,
    pub content: String,
}

/// Memories in insertion order, with the id that the next one gets.
#[derive(Debug, Clone)]
pub struct VectorIndex {
    pub items: Vec<MemoryItem>,
    pub next_id: u64,
}

/// From this many items on, distances are computed in parallel.
pub const PARALLEL_THRESHOLD: usize = 64;

/// Squared Euclidean distance over the first `n` components.
pub open spec fn sq_dist_upto(a: Seq<i32>, b: Seq<i32>, n: int) -> int
    decreases n,
{
    if n <= 0 {
        0
    } else {
        sq_dist_upto(a, b, n - 1) + (a[n - 1] - b[n - 1]) * (a[n - 1] - b[n - 1])
    }
}

/// Squared Euclidean distance over the components that both vectors have.
pub open spec fn sq_dist(a: Seq<i32>, b: Seq<i32>) -> int {
    sq_dist_upto(a, b, if a.len() < b.len() { a.len() as int } else { b.len() as int })
}

/// Item `i` comes before item `j` in a search: it is nearer, or as near and older.
pub open spec fn ranks_before(d: Seq<int>, i: int, j: int) -> bool {
    d[i] < d[j] || (d[i] == d[j] && i < j)
}

/// Number of items among the first `m` that come before item `i`.
pub open spec fn count_before(d: Seq<int>, i: int, m: int) -> nat
    decreases m,
{
    if m <= 0 {
        0
    } else {
        count_before(d, i, m - 1) + if ranks_before(d, m - 1, i) {
            1nat
        } else {
            0nat
        }
    }
}

/// Position of item `i` when all items are ordered by distance, ties by age.
pub open spec fn rank(d: Seq<int>, i: int) -> nat {
    count_before(d, i, d.len() as int)
}

/// `new` is `old` with one more memory, holding `text` and `embedding` under the next id.
pub open spec fn is_added(old: VectorIndex, new: VectorIndex, text: Seq<char>, embedding: Seq<i32>) -> bool {
    &&& new.next_id == old.next_id + 1
    &&& new.items@.len() == old.items@.len() + 1
    &&& new.items@.subrange(0, old.items@.len() as int) == old.items@
    &&& new.items@.last().id == old.next_id
    &&& new.items@.last().embedding@ == embedding
    &&& new.items@.last().content@ == text
}

/// `r` holds the texts of the `min(k, n)` items of `index` nearest to `q`,
/// nearest first, items at equal distance in insertion order.
pub open spec fn is_search_result(index: VectorIndex, q: Seq<i32>, k: int, r: Seq<String>) -> bool {
    &&& r.len() == if k < index.items@.len() { k } else { index.items@.len() as int }
    &&& forall|i: int|
        0 <= i < index.items@.len() && rank(index.distances(q), i) < r.len()
            ==> #[trigger] r[rank(index.distances(q), i) as int]@ == index.items@[i].content@
}

impl VectorIndex {
    /// The distances of all items from `q`, in insertion order.
    pub open spec fn distances(&self, q: Seq<i32>) -> Seq<int> {
        Seq::new(self.items@.len(), |i: int| sq_dist(self.items@[i].embedding@, q))
    }

    /// Ids run from zero in insertion order, and `next_id` is the next one.
    pub open spec fn wf(&self) -> bool {
        &&& self.next_id == self.items@.len()
        &&& forall|i: int| 0 <= i < self.items@.len() ==> #[trigger] self.items@[i].id == i
    }

    pub fn new() -> (r: Self)
        ensures
            r.items@.len() == 0,
            r.next_id == 0,
            r.wf(),
    {
        VectorIndex { items: Vec::new(), next_id: 0 }
    }

    /// Appends a memory under the next id and returns that id.
    pub fn add(&mut self, text_content: String, embedding: Vec<i32>) -> (r: u64)
        requires
            old(self).next_id < u64::MAX,
        ensures
            r == old(self).next_id,
            is_added(*old(self), *final(self), text_content@, embedding@),
            old(self).wf() ==> final(self).wf(),
    {
        let id = self.next_id;
        self.next_id = self.next_id + 1;
        self.items.push(MemoryItem { id, embedding, content: text_content });
        assert(self.items@.subrange(0, old(self).items@.len() as int) =~= old(self).items@);
        id
    }

    /// Texts of the `k` items nearest to `query_vector` by Euclidean distance,
    /// nearest first; items at equal distance come in insertion order.
    pub fn search(&self, query_vector: &Vec<i32>, k: usize) -> (r: Vec<String>)
        ensures
            is_search_result(*self, query_vector@, k as int, r@),
    {
        let n = self.items.len();
        if n == 0 || k == 0 {
            return Vec::new();
        }
        let dists = if n >= PARALLEL_THRESHOLD {
            parallel_distances(&self.items, query_vector)
        } else {
            item_distances(&self.items, query_vector)
        };
        let ghost d = self.distances(query_vector@);
        assert(dists@.map_values(|x: u128| x as int) =~= d);
        let m: usize = if k < n { k } else { n };
        let mut r: Vec<String> = Vec::new();
        while r.len() < m
            invariant
                r@.len() <= m,
            decreases m - r@.len(),
        {
            r.push(String::new());
        }
        let mut i: usize = 0;
        while i < n
            invariant
                n == self.items@.len(),
                dists@.len() == n,
                dists@.map_values(|x: u128| x as int) == d,
                d == self.distances(query_vector@),
                r@.len() == m,
                i <= n,
                forall|j: int|
                    0 <= j < i && rank(d, j) < m ==> #[trigger] r@[rank(d, j) as int]@
                        == self.items@[j].content@,
            decreases n - i,
        {
            let p = position_of(&dists, i);
            if p < m {
                proof {
                    assert forall|j: int| 0 <= j < i && rank(d, j) < m implies rank(d, j) != p by {
                        lemma_rank_injective(d, j, i as int);
                    }
                }
                r.set(p, self.items[i].content.clone());
            }
            i += 1;
        }
        r
    }
}

/// Squared Euclidean distance of `a` and `b` over their common components.
pub fn squared_distance(a: &Vec<i32>, b: &Vec<i32>) -> (r: u128)
    ensures
        r == sq_dist(a@, b@),
{
    let n = if a.len() < b.len() { a.len() } else { b.len() };
    let mut acc: u128 = 0;
    let mut i: usize = 0;
    while i < n
        invariant
            n <= a@.len(),
            n <= b@.len(),
            n <= usize::MAX,
            i <= n,
            acc == sq_dist_upto(a@, b@, i as int),
            acc <= i * 0xFFFF_FFFF_FFFF_FFFF,
        decreases n - i,
    {
        let x = a[i] as i64 - b[i] as i64;
        let ax: u128 = if x >= 0 { x as u128 } else { (-x) as u128 };
        assert(ax <= 0xFFFF_FFFF);
        assert(ax * ax <= 0xFFFF_FFFF * 0xFFFF_FFFF) by (nonlinear_arith)
            requires
                ax <= 0xFFFF_FFFF,
        ;
        assert(ax * ax == x * x) by (nonlinear_arith)
            requires
                ax == x || ax == -x,
        ;
        assert(acc + ax * ax <= (i + 1) * 0xFFFF_FFFF_FFFF_FFFF) by (nonlinear_arith)
            requires
                acc <= i * 0xFFFF_FFFF_FFFF_FFFF,
                ax * ax <= 0xFFFF_FFFF * 0xFFFF_FFFF,
        ;
        assert((i + 1) * 0xFFFF_FFFF_FFFF_FFFF <= 0xFFFF_FFFF_FFFF_FFFF * 0xFFFF_FFFF_FFFF_FFFF)
            by (nonlinear_arith)
            requires
                i + 1 <= 0xFFFF_FFFF_FFFF_FFFF,
        ;
        acc = acc + ax * ax;
        i += 1;
    }
    acc
}

/// Distances of all items from `q`, one after the other.
fn item_distances(items: &Vec<MemoryItem>, q: &Vec<i32>) -> (r: Vec<u128>)
    ensures
        r@.len() == items@.len(),
        forall|i: int|
            0 <= i < items@.len() ==> #[trigger] r@[i] == sq_dist(items@[i].embedding@, q@),
{
    let mut r: Vec<u128> = Vec::new();
    let mut i: usize = 0;
    while i < items.len()
        invariant
            i <= items@.len(),
            r@.len() == i,
            forall|j: int| 0 <= j < i ==> #[trigger] r@[j] == sq_dist(items@[j].embedding@, q@),
        decreases items@.len() - i,
    {
        r.push(squared_distance(&items[i].embedding, q));
        i += 1;
    }
    r
}

/// Distances of all items from `q`, computed in parallel.
///
/// Relies on rayon's `par_iter().map(..).collect()` into a `Vec`, which keeps the
/// order of the items; each distance is `squared_distance`.
#[verifier::external_body]
fn parallel_distances(items: &Vec<MemoryItem>, q: &Vec<i32>) -> (r: Vec<u128>)
    ensures
        r@.len() == items@.len(),
        forall|i: int|
            0 <= i < items@.len() ==> #[trigger] r@[i] == sq_dist(items@[i].embedding@, q@),
{
    items.par_iter().map(|item| squared_distance(&item.embedding, q)).collect()
}

/// Position of item `i` among all items, ordered by distance and then by age.
fn position_of(dists: &Vec<u128>, i: usize) -> (r: usize)
    requires
        i < dists@.len(),
    ensures
        r == rank(dists@.map_values(|x: u128| x as int), i as int),
        r < dists@.len(),
{
    let ghost d = dists@.map_values(|x: u128| x as int);
    let n = dists.len();
    let mut c: usize = 0;
    let mut l: usize = 0;
    while l < n
        invariant
            n == dists@.len() == d.len(),
            d == dists@.map_values(|x: u128| x as int),
            i < n,
            l <= n,
            c == count_before(d, i as int, l as int),
            c <= l,
            l > i ==> c < l,
        decreases n - l,
    {
        if dists[l] < dists[i] || (dists[l] == dists[i] && l < i) {
            c += 1;
        }
        l += 1;
    }
    c
}

/// Distinct items have distinct positions.
pub proof fn lemma_rank_injective(d: Seq<int>, i: int, j: int)
    requires
        0 <= i < d.len(),
        0 <= j < d.len(),
        i != j,
    ensures
        rank(d, i) != rank(d, j),
{
    if ranks_before(d, i, j) {
        lemma_count_before_mono(d, i, j, d.len() as int);
    } else {
        lemma_count_before_mono(d, j, i, d.len() as int);
    }
}

/// Positions lie below the item count.
pub proof fn lemma_rank_bound(d: Seq<int>, i: int)
    requires
        0 <= i < d.len(),
    ensures
        rank(d, i) < d.len(),
{
    lemma_count_before_bound(d, i, d.len() as int);
}

proof fn lemma_count_before_bound(d: Seq<int>, i: int, m: int)
    requires
        0 <= i < d.len(),
        0 <= m <= d.len(),
    ensures
        count_before(d, i, m) <= m,
        m > i ==> count_before(d, i, m) < m,
    decreases m,
{
    if m > 0 {
        lemma_count_before_bound(d, i, m - 1);
    }
}

/// Every position below the item count is the position of exactly one item.
pub proof fn lemma_rank_onto(d: Seq<int>, p: int)
    requires
        0 <= p < d.len(),
    ensures
        exists|i: int| 0 <= i < d.len() && rank(d, i) == p,
{
    let n = d.len() as int;
    let dom = set_int_range(0, n);
    let f = |i: int| rank(d, i) as int;
    let img = dom.map(f);
    lemma_int_range(0, n);
    assert(injective_on(f, dom)) by {
        assert forall|x1: int, x2: int|
            dom.contains(x1) && dom.contains(x2) && #[trigger] f(x1) == #[trigger] f(x2) implies x1
            == x2 by {
            if x1 != x2 {
                lemma_rank_injective(d, x1, x2);
            }
        }
    }
    lemma_map_size(dom, img, f);
    assert(img.subset_of(dom)) by {
        assert forall|y: int| img.contains(y) implies dom.contains(y) by {
            let x = choose|x: int| dom.contains(x) && f(x) == y;
            lemma_rank_bound(d, x);
        }
    }
    lemma_subset_equality(img, dom);
    assert(dom.contains(p));
    assert(img.contains(p));
    let x = choose|x: int| dom.contains(x) && f(x) == p;
    assert(0 <= x < n && rank(d, x) == p);
}

/// `t` is the text of the item at position `p` in a search for `q`.
pub open spec fn is_text_at_position(index: VectorIndex, q: Seq<i32>, p: int, t: Seq<char>) -> bool {
    exists|i: int|
        0 <= i < index.items@.len() && rank(index.distances(q), i) == p
            && index.items@[i].content@ == t
}

/// Each text of a search result is the text of the item at that position:
/// the result is the list of the nearest items' texts, in order, and nothing else.
pub proof fn lemma_search_result_positions(index: VectorIndex, q: Seq<i32>, k: int, r: Seq<String>)
    requires
        is_search_result(index, q, k, r),
    ensures
        forall|p: int| 0 <= p < r.len() ==> is_text_at_position(index, q, p, #[trigger] r[p]@),
{
    assert forall|p: int| 0 <= p < r.len() implies is_text_at_position(index, q, p, #[trigger] r[p]@) by {
        let d = index.distances(q);
        lemma_rank_onto(d, p);
        let i = choose|i: int| 0 <= i < d.len() && rank(d, i) == p;
        assert(r[rank(d, i) as int]@ == index.items@[i].content@);
    }
}

proof fn lemma_count_before_mono(d: Seq<int>, i: int, j: int, m: int)
    requires
        0 <= i < d.len(),
        0 <= j < d.len(),
        ranks_before(d, i, j),
        0 <= m <= d.len(),
    ensures
        count_before(d, j, m) >= count_before(d, i, m) + if i < m {
            1int
        } else {
            0int
        },
    decreases m,
{
    if m > 0 {
        lemma_count_before_mono(d, i, j, m - 1);
    }
}

/// A query equal to a stored vector, with no older item at distance zero,
/// finds that item first: its text leads the results of any search with `k >= 1`.
pub proof fn lemma_self_match(index: VectorIndex, q: Seq<i32>, j: int, k: int, r: Seq<String>)
    requires
        0 <= j < index.items@.len(),
        index.items@[j].embedding@ == q,
        forall|l: int| 0 <= l < j ==> sq_dist(#[trigger] index.items@[l].embedding@, q) != 0,
        is_search_result(index, q, k, r),
        k >= 1,
    ensures
        rank(index.distances(q), j) == 0,
        r.len() >= 1,
        r[0]@ == index.items@[j].content@,
{
    let d = index.distances(q);
    lemma_sq_dist_self(q, q.len() as int);
    assert forall|l: int| 0 <= l < d.len() implies !ranks_before(d, l, j) by {
        lemma_sq_dist_nonneg(index.items@[l].embedding@, q, sq_len(index.items@[l].embedding@, q));
    }
    lemma_count_zero(d, j, d.len() as int);
}

spec fn sq_len(a: Seq<i32>, b: Seq<i32>) -> int {
    if a.len() < b.len() {
        a.len() as int
    } else {
        b.len() as int
    }
}

proof fn lemma_count_zero(d: Seq<int>, j: int, m: int)
    requires
        0 <= m <= d.len(),
        forall|l: int| 0 <= l < d.len() ==> !ranks_before(d, l, j),
    ensures
        count_before(d, j, m) == 0,
    decreases m,
{
    if m > 0 {
        lemma_count_zero(d, j, m - 1);
    }
}

proof fn lemma_sq_dist_self(a: Seq<i32>, n: int)
    requires
        n <= a.len(),
    ensures
        sq_dist_upto(a, a, n) == 0,
    decreases n,
{
    if n > 0 {
        lemma_sq_dist_self(a, n - 1);
    }
}

proof fn lemma_sq_dist_nonneg(a: Seq<i32>, b: Seq<i32>, n: int)
    ensures
        sq_dist_upto(a, b, n) >= 0,
    decreases n,
{
    if n > 0 {
        lemma_sq_dist_nonneg(a, b, n - 1);
        let x = a[n - 1] - b[n - 1];
        assert(x * x >= 0) by (nonlinear_arith);
    }
}

} // verus!
