//! A card list with its data file, and the priority-weighted draw of exam cards.
use crate::card::{Card, CardList, CardView};
use rand::rngs::StdRng;
use rand::seq::SliceRandom;
use rand::Rng;
use vstd::prelude::*;

verus! {

/// rand's standard generator, carried through as an opaque value.
#[verifier::external_type_specification]
#[verifier::external_body]
pub struct ExStdRng(rand::rngs::StdRng);

/// Relies on rand's `Rng::gen_range`: a value of the half-open range `[0, bound)`.
/// It panics on an empty range, so `bound` must be positive.
#[verifier::external_body]
fn draw_below(rng: &mut StdRng, bound: u128) -> (r: u128)
    requires
        bound > 0,
    ensures
        r < bound,
{
    rng.gen_range(0..bound)
}

/// Relies on rand's `SliceRandom::shuffle`: it only swaps elements, so the
/// same items remain, each as often as before.
#[verifier::external_body]
fn shuffle_indices(v: &mut Vec<usize>, rng: &mut StdRng)
    ensures
        final(v)@.to_multiset() == old(v)@.to_multiset(),
{
    v.shuffle(rng)
}

/// The least priority of a non-empty sequence of cards.
pub open spec fn min_priority(s: Seq<CardView>) -> int
    decreases s.len(),
{
    if s.len() <= 1 {
        if s.len() == 0 {
            0
        } else {
            s[0].priority as int
        }
    } else {
        let m = min_priority(s.drop_last());
        let p = s.last().priority as int;
        if p < m {
            p
        } else {
            m
        }
    }
}

/// The offset that maps the least priority to exactly one.
pub open spec fn offset_of(s: Seq<CardView>) -> int {
    1 - min_priority(s)
}

/// The weight with which card `i` is drawn.
pub open spec fn weight_of(s: Seq<CardView>, i: int) -> int {
    s[i].priority + offset_of(s)
}

/// The sum of a sequence of weights.
pub open spec fn weight_sum(w: Seq<u128>) -> int
    decreases w.len(),
{
    if w.len() == 0 {
        0
    } else {
        weight_sum(w.drop_last()) + w.last()
    }
}

/// `idx` tells, for each position of `r`, which card of `pool` stands there,
/// and no card of the pool is used twice.
pub open spec fn is_draw(r: Seq<CardView>, pool: Seq<CardView>, idx: Seq<usize>) -> bool {
    &&& idx.len() == r.len()
    &&& idx.no_duplicates()
    &&& forall|k: int|
        #![trigger idx[k]]
        0 <= k < idx.len() ==> idx[k] < pool.len() && r[k] == pool[idx[k] as int]
}

/// Indices into a pool of `n` cards, none of them twice.
pub open spec fn distinct_below(s: Seq<usize>, n: nat) -> bool {
    &&& s.no_duplicates()
    &&& forall|k: int| 0 <= k < s.len() ==> s[k] < n
}

/// The smaller of two numbers.
pub open spec fn min_nat(a: nat, b: nat) -> nat {
    if a < b {
        a
    } else {
        b
    }
}

proof fn lemma_min_priority(s: Seq<CardView>)
    requires
        s.len() > 0,
    ensures
        forall|i: int| 0 <= i < s.len() ==> min_priority(s) <= s[i].priority,
        exists|i: int| 0 <= i < s.len() && min_priority(s) == s[i].priority,
    decreases s.len(),
{
    if s.len() > 1 {
        let t = s.drop_last();
        lemma_min_priority(t);
        assert forall|i: int| 0 <= i < s.len() implies min_priority(s) <= s[i].priority by {
            if i < t.len() {
                assert(s[i] == t[i]);
            }
        }
        let j = choose|j: int| 0 <= j < t.len() && min_priority(t) == t[j].priority;
        assert(s[j] == t[j]);
        if s.last().priority < min_priority(t) {
            assert(min_priority(s) == s[s.len() - 1].priority);
        } else {
            assert(min_priority(s) == s[j].priority);
        }
    } else {
        assert(min_priority(s) == s[0].priority);
    }
}

proof fn lemma_weight_sum_take(w: Seq<u128>, i: int)
    requires
        0 <= i < w.len(),
    ensures
        weight_sum(w.take(i + 1)) == weight_sum(w.take(i)) + w[i],
{
    assert(w.take(i + 1).drop_last() =~= w.take(i));
}

proof fn lemma_weight_sum_update(w: Seq<u128>, i: int, v: u128)
    requires
        0 <= i < w.len(),
    ensures
        weight_sum(w.update(i, v)) == weight_sum(w) - w[i] + v,
    decreases w.len(),
{
    let u = w.update(i, v);
    if i < w.len() - 1 {
        assert(u.drop_last() =~= w.drop_last().update(i, v));
        lemma_weight_sum_update(w.drop_last(), i, v);
    } else {
        assert(u.drop_last() =~= w.drop_last());
    }
}

proof fn lemma_weight_sum_ge(w: Seq<u128>, j: int)
    requires
        0 <= j < w.len(),
    ensures
        weight_sum(w) >= w[j],
    decreases w.len(),
{
    lemma_weight_sum_nonneg(w.drop_last());
    if j < w.len() - 1 {
        lemma_weight_sum_ge(w.drop_last(), j);
    }
}

proof fn lemma_weight_sum_nonneg(w: Seq<u128>)
    ensures
        weight_sum(w) >= 0,
    decreases w.len(),
{
    if w.len() > 0 {
        lemma_weight_sum_nonneg(w.drop_last());
    }
}

proof fn lemma_weight_sum_bound(w: Seq<u128>, b: int)
    requires
        forall|i: int| 0 <= i < w.len() ==> w[i] <= b,
    ensures
        weight_sum(w) <= w.len() * b,
    decreases w.len(),
{
    if w.len() > 0 {
        lemma_weight_sum_bound(w.drop_last(), b);
        assert(weight_sum(w) <= (w.len() - 1) * b + b);
        assert((w.len() - 1) * b + b == w.len() * b) by (nonlinear_arith);
    }
}

/// A sequence of distinct indices below `n` has at most `n` items, and
/// exactly `n` when it holds every index below `n`.
proof fn lemma_distinct_count(s: Seq<usize>, n: nat)
    requires
        distinct_below(s, n),
        n <= usize::MAX + 1,
    ensures
        s.len() <= n,
        (forall|j: usize| j < n ==> s.contains(j)) ==> s.len() == n,
    decreases n,
{
    if n == 0 {
        if s.len() > 0 {
            assert(s[0] < 0);
        }
    } else {
        let m = (n - 1) as nat;
        if s.contains(m as usize) {
            let p = choose|p: int| 0 <= p < s.len() && s[p] == m as usize;
            let t = s.remove(p);
            assert forall|k: int| 0 <= k < t.len() implies t[k] < m by {
                if k < p {
                    assert(t[k] == s[k]);
                } else {
                    assert(t[k] == s[k + 1]);
                }
            }
            assert(t.no_duplicates()) by {
                assert forall|a: int, b: int| 0 <= a < t.len() && 0 <= b < t.len() && a != b
                    implies t[a] != t[b] by {
                    let a2 = if a < p { a } else { a + 1 };
                    let b2 = if b < p { b } else { b + 1 };
                    assert(t[a] == s[a2] && t[b] == s[b2]);
                }
            }
            lemma_distinct_count(t, m);
            if forall|j: usize| j < n ==> s.contains(j) {
                assert forall|j: usize| j < m implies t.contains(j) by {
                    assert(s.contains(j));
                    let q = choose|q: int| 0 <= q < s.len() && s[q] == j;
                    assert(q != p);
                    if q < p {
                        assert(t[q] == j);
                    } else {
                        assert(t[q - 1] == j);
                    }
                }
            }
        } else {
            assert forall|k: int| 0 <= k < s.len() implies s[k] < m by {
                assert(s[k] != m as usize);
            }
            lemma_distinct_count(s, m);
            if forall|j: usize| j < n ==> s.contains(j) {
                assert(s.contains(m as usize));
            }
        }
    }
}

/// Removing the last drawn card from a draw, and its place from the pool,
/// leaves a draw from the smaller pool; so a draw that uses the whole pool
/// holds each card exactly as often as the pool does.
proof fn lemma_draw_multiset(r: Seq<CardView>, pool: Seq<CardView>, idx: Seq<usize>)
    requires
        is_draw(r, pool, idx),
        r.len() == pool.len(),
    ensures
        r.to_multiset() == pool.to_multiset(),
    decreases r.len(),
{
    broadcast use vstd::multiset::group_multiset_axioms;

    if r.len() == 0 {
        assert(r =~= pool);
    } else {
        let n = r.len() - 1;
        let p = idx[n] as int;
        let r2 = r.drop_last();
        let pool2 = pool.remove(p);
        let idx2 = idx.drop_last().map_values(
            |i: usize|
                if i as int > p {
                    (i - 1) as usize
                } else {
                    i
                },
        );
        assert forall|k: int| #![trigger idx2[k]] 0 <= k < idx2.len() implies idx2[k] < pool2.len()
            && r2[k] == pool2[idx2[k] as int] by {
            assert(idx[k] != idx[n]);
            assert(r2[k] == r[k]);
            assert(idx[k] < pool.len() && r[k] == pool[idx[k] as int]);
        }
        assert(idx2.no_duplicates()) by {
            assert forall|a: int, b: int| 0 <= a < idx2.len() && 0 <= b < idx2.len() && a != b
                implies idx2[a] != idx2[b] by {
                assert(idx[a] != idx[b]);
                assert(idx[a] != idx[n] && idx[b] != idx[n]);
            }
        }
        lemma_draw_multiset(r2, pool2, idx2);
        assert(r2.push(r[n]) =~= r);
        vstd::seq_lib::to_multiset_build(r2, r[n]);
        vstd::seq_lib::to_multiset_remove(pool, p);
        assert(r[n] == pool[p]);
        assert(pool.to_multiset().count(pool[p]) > 0) by {
            vstd::seq_lib::to_multiset_contains(pool, pool[p]);
            assert(pool.contains(pool[p]));
        }
        assert(pool.to_multiset() =~= pool2.to_multiset().insert(pool[p]));
    }
}

/// Drawing as many cards as the pool holds draws each card of the pool:
/// with the distinct places that `is_draw` asks for, the draw is a
/// rearrangement of the whole pool, without duplicates or omissions.
pub proof fn lemma_full_draw_is_permutation(
    r: Seq<CardView>,
    pool: Seq<CardView>,
    idx: Seq<usize>,
)
    requires
        is_draw(r, pool, idx),
        r.len() == pool.len(),
        pool.len() <= usize::MAX,
    ensures
        forall|j: usize| j < pool.len() ==> #[trigger] idx.contains(j),
        r.to_multiset() == pool.to_multiset(),
{
    lemma_draw_multiset(r, pool, idx);
    assert forall|j: usize| j < pool.len() implies #[trigger] idx.contains(j) by {
        if !idx.contains(j) {
            let t = idx.push(j);
            assert(distinct_below(t, pool.len())) by {
                assert forall|k: int| 0 <= k < t.len() implies t[k] < pool.len() by {
                    if k < idx.len() {
                        assert(t[k] == idx[k]);
                        assert(idx[k] < pool.len());
                    } else {
                        assert(t[k] == j);
                    }
                }
                assert forall|a: int, b: int| 0 <= a < t.len() && 0 <= b < t.len() && a != b
                    implies t[a] != t[b] by {
                    if a == idx.len() {
                        assert(t[b] == idx[b]);
                        if idx[b] == j {
                            assert(idx.contains(j));
                        }
                    } else if b == idx.len() {
                        assert(t[a] == idx[a]);
                        if idx[a] == j {
                            assert(idx.contains(j));
                        }
                    } else {
                        assert(t[a] == idx[a] && t[b] == idx[b]);
                    }
                }
            }
            lemma_distinct_count(t, pool.len());
        }
    }
}

/// The position that a draw `r` below the total weight falls on, when the
/// weights are laid end to end in order.
pub fn weighted_index(w: &Vec<u128>, r: u128) -> (i: usize)
    requires
        r < weight_sum(w@),
    ensures
        i < w@.len(),
        weight_sum(w@.take(i as int)) <= r < weight_sum(w@.take(i as int + 1)),
{
    let mut rest: u128 = r;
    let mut i: usize = 0;
    while i < w.len()
        invariant
            i <= w@.len(),
            rest + weight_sum(w@.take(i as int)) == r,
            r < weight_sum(w@),
        decreases w@.len() - i,
    {
        proof {
            lemma_weight_sum_take(w@, i as int);
        }
        if rest < w[i] {
            return i;
        }
        rest = rest - w[i];
        i += 1;
    }
    assert(w@.take(i as int) =~= w@);
    0
}

/// Draws up to `max_num_problem` distinct indices, each time with chance in
/// proportion to the weights of the indices not drawn yet. Each weight is at
/// most 2^64, so that the total fits in a `u128`.
pub fn draw_indices(weights: &Vec<u128>, max_num_problem: usize, rng: &mut StdRng) -> (r: Vec<
    usize,
>)
    requires
        forall|i: int| 0 <= i < weights@.len() ==> 1 <= #[trigger] weights@[i] <= u64::MAX as int + 1,
    ensures
        r@.len() == min_nat(max_num_problem as nat, weights@.len()),
        distinct_below(r@, weights@.len()),
{
    let n = weights.len();
    let mut w: Vec<u128> = Vec::new();
    let mut sum: u128 = 0;
    while w.len() < n
        invariant
            n == weights@.len(),
            w@.len() <= n,
            forall|j: int| 0 <= j < w@.len() ==> w@[j] == weights@[j],
            sum == weight_sum(w@),
            forall|i: int| 0 <= i < weights@.len() ==> 1 <= #[trigger] weights@[i] <= u64::MAX as int + 1,
        decreases n - w@.len(),
    {
        let x = weights[w.len()];
        proof {
            lemma_weight_sum_bound(w@, u64::MAX as int + 1);
            assert(w@.len() * (u64::MAX as int + 1) <= (usize::MAX as int) * (u64::MAX as int
                + 1)) by (nonlinear_arith)
                requires
                    w@.len() <= usize::MAX,
            ;
            assert(w@.push(x).drop_last() =~= w@);
        }
        sum = sum + x;
        w.push(x);
    }
    assert(w@ =~= weights@);
    let mut chosen: Vec<usize> = Vec::new();
    while chosen.len() < max_num_problem && sum > 0
        invariant
            n == weights@.len(),
            w@.len() == n,
            forall|j: int|
                0 <= j < n ==> #[trigger] w@[j] == if chosen@.contains(j as usize) {
                    0
                } else {
                    weights@[j]
                },
            forall|i: int| 0 <= i < weights@.len() ==> 1 <= weights@[i],
            distinct_below(chosen@, n as nat),
            chosen@.len() <= max_num_problem,
            sum == weight_sum(w@),
        decreases sum,
    {
        let x = draw_below(rng, sum);
        let i = weighted_index(&w, x);
        proof {
            lemma_weight_sum_take(w@, i as int);
        }
        let wi = w[i];
        proof {
            lemma_weight_sum_update(w@, i as int, 0);
            lemma_weight_sum_ge(w@, i as int);
            assert(!chosen@.contains(i));
        }
        sum = sum - wi;
        let ghost before = chosen@;
        chosen.push(i);
        w.set(i, 0);
        proof {
            assert forall|j: int| 0 <= j < n implies #[trigger] w@[j] == if chosen@.contains(
                j as usize,
            ) {
                0
            } else {
                weights@[j]
            } by {
                if j != i {
                    assert(chosen@.contains(j as usize) == before.contains(j as usize)) by {
                        if chosen@.contains(j as usize) {
                            let k = choose|k: int|
                                0 <= k < chosen@.len() && chosen@[k] == j as usize;
                            assert(before[k] == j as usize);
                        }
                        if before.contains(j as usize) {
                            let k = choose|k: int|
                                0 <= k < before.len() && before[k] == j as usize;
                            assert(chosen@[k] == j as usize);
                        }
                    }
                } else {
                    assert(chosen@[chosen@.len() - 1] == i);
                }
            }
            assert(chosen@.no_duplicates()) by {
                assert forall|a: int, b: int|
                    0 <= a < chosen@.len() && 0 <= b < chosen@.len() && a != b implies chosen@[a]
                    != chosen@[b] by {
                    if a == before.len() {
                        assert(chosen@[b] == before[b]);
                    } else if b == before.len() {
                        assert(chosen@[a] == before[a]);
                    }
                }
            }
        }
    }
    proof {
        lemma_distinct_count(chosen@, n as nat);
        if sum == 0 {
            assert forall|j: usize| j < n implies chosen@.contains(j) by {
                lemma_weight_sum_ge(w@, j as int);
                assert(w@[j as int] == if chosen@.contains(j) {
                    0
                } else {
                    weights@[j as int]
                });
            }
        }
    }
    chosen
}

/// A card list together with the path of the data file that it was read from.
#[derive(Clone, Debug, Default)]
pub struct Book {
    pub card_file: String,
    pub card_list: CardList,
}

impl Book {
    /// A book of the cards read from `card_file`, with the empty cards dropped.
    pub fn try_new(card_file: String, card_list: CardList) -> (r: Book)
        ensures
            r.card_file@ == card_file@,
            r.card_list@ == card_list@.filter(|c: CardView| !c.is_blank()),
    {
        let mut card_list = card_list;
        card_list.drop_empty_card();
        Book { card_file, card_list }
    }

    /// The path of the card data file.
    pub fn card_file(&self) -> (r: &String)
        ensures
            r == &self.card_file,
    {
        &self.card_file
    }

    /// Draws up to `max_num_problem` distinct cards, each with chance in
    /// proportion to its weight among the cards not drawn yet, and then puts
    /// the drawn cards in a random order.
    pub fn pick_up_card_list_randomly_according_to_priority(
        &self,
        max_num_problem: usize,
        rng: &mut StdRng,
    ) -> (r: Vec<Card>)
        ensures
            r@.len() == min_nat(max_num_problem as nat, self.card_list@.len()),
            self.card_list@.len() == 0 ==> r@.len() == 0,
            exists|idx: Seq<usize>| is_draw(crate::card::card_views(r@), self.card_list@, idx),
            max_num_problem >= self.card_list@.len() ==> crate::card::card_views(r@).to_multiset()
                == self.card_list@.to_multiset(),
    {
        let cards = &self.card_list.card;
        let weights = self.card_list.effective_weights();
        let mut idx = draw_indices(&weights, max_num_problem, rng);
        let ghost drawn = idx@;
        shuffle_indices(&mut idx, rng);
        proof {
            broadcast use vstd::seq_lib::to_multiset_len, vstd::seq_lib::to_multiset_contains;

            drawn.lemma_multiset_has_no_duplicates();
            assert forall|x: usize| idx@.to_multiset().contains(x) implies idx@.to_multiset().count(
                x,
            ) == 1 by {}
            idx@.lemma_multiset_has_no_duplicates_conv();
            vstd::seq_lib::to_multiset_len(idx@);
            vstd::seq_lib::to_multiset_len(drawn);
            assert forall|k: int| 0 <= k < idx@.len() implies idx@[k] < cards@.len() by {
                assert(idx@.to_multiset().count(idx@[k]) > 0);
                assert(drawn.contains(idx@[k]));
            }
        }
        let mut r: Vec<Card> = Vec::new();
        let mut k: usize = 0;
        while k < idx.len()
            invariant
                k <= idx@.len(),
                idx@.len() == min_nat(max_num_problem as nat, self.card_list@.len()),
                r@.len() == k,
                forall|q: int| 0 <= q < idx@.len() ==> idx@[q] < cards@.len(),
                forall|q: int| 0 <= q < k ==> r@[q]@ == cards@[idx@[q] as int]@,
            decreases idx@.len() - k,
        {
            r.push(cards[idx[k]].copy());
            k += 1;
        }
        proof {
            let rv = crate::card::card_views(r@);
            assert(is_draw(rv, self.card_list@, idx@));
            if max_num_problem >= self.card_list@.len() {
                lemma_full_draw_is_permutation(rv, self.card_list@, idx@);
            }
        }
        r
    }
}

impl CardList {
    /// The offset that, added to every priority, maps the least one to exactly one.
    pub fn priority_offset(&self) -> (r: i128)
        requires
            self.card@.len() > 0,
        ensures
            r == offset_of(self@),
    {
        let mut m: i64 = self.card[0].priority;
        let mut i: usize = 1;
        while i < self.card.len()
            invariant
                1 <= i <= self.card@.len(),
                m == min_priority(self@.take(i as int)),
            decreases self.card@.len() - i,
        {
            proof {
                assert(self@.take(i as int + 1).drop_last() =~= self@.take(i as int));
            }
            if self.card[i].priority < m {
                m = self.card[i].priority;
            }
            i += 1;
        }
        assert(self@.take(i as int) =~= self@);
        1 - (m as i128)
    }

    /// The weight of each card: its priority plus the offset, so that the
    /// least weight is one and every card can be drawn.
    pub fn effective_weights(&self) -> (w: Vec<u128>)
        ensures
            w@.len() == self@.len(),
            forall|i: int| 0 <= i < w@.len() ==> w@[i] == weight_of(self@, i),
            forall|i: int| 0 <= i < w@.len() ==> 1 <= #[trigger] w@[i] <= u64::MAX as int + 1,
    {
        let mut w: Vec<u128> = Vec::new();
        if self.card.len() == 0 {
            return w;
        }
        let offset = self.priority_offset();
        proof {
            lemma_min_priority(self@);
            let j = choose|j: int| 0 <= j < self@.len() && min_priority(self@) == self@[j].priority;
            assert(min_priority(self@) >= i64::MIN);
        }
        let mut i: usize = 0;
        while i < self.card.len()
            invariant
                i <= self.card@.len(),
                self@.len() > 0,
                offset == offset_of(self@),
                w@.len() == i,
                forall|j: int| 0 <= j < i ==> w@[j] == weight_of(self@, j),
                forall|j: int| 0 <= j < i ==> 1 <= #[trigger] w@[j] <= u64::MAX as int + 1,
                forall|j: int| 0 <= j < self@.len() ==> min_priority(self@) <= self@[j].priority,
                min_priority(self@) >= i64::MIN,
            decreases self.card@.len() - i,
        {
            assert(min_priority(self@) <= self@[i as int].priority);
            let x = (self.card[i].priority as i128 + offset) as u128;
            w.push(x);
            i += 1;
        }
        w
    }

    /// Removes every empty card, keeping the order of the others.
    pub fn drop_empty_card(&mut self)
        ensures
            final(self)@ == old(self)@.filter(|c: CardView| !c.is_blank()),
    {
        let mut kept: Vec<Card> = Vec::new();
        let mut i: usize = 0;
        while i < self.card.len()
            invariant
                i <= self.card@.len(),
                crate::card::card_views(kept@) == self@.take(i as int).filter(
                    |c: CardView| !c.is_blank(),
                ),
            decreases self.card@.len() - i,
        {
            let ghost pred = |c: CardView| !c.is_blank();
            proof {
                assert(self@.take(i as int + 1) =~= self@.take(i as int).push(self@[i as int]));
                self@.take(i as int).lemma_filter_push(self@[i as int], pred);
            }
            if !self.card[i].is_empty() {
                let c = self.card[i].copy();
                let ghost old_kept = kept@;
                kept.push(c);
                assert(crate::card::card_views(kept@) =~= crate::card::card_views(old_kept).push(
                    self@[i as int],
                ));
            }
            i += 1;
        }
        assert(self@.take(i as int) =~= self@);
        self.card = kept;
    }
}

} // verus!
