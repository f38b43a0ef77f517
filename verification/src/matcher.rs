//! The tile matcher and its candidate pool.
//!
//! The pool is the working subset of the catalog during one pass over the
//! grid. It holds tile identities in catalog order. A match leaves the pool
//! when uniqueness is asked for, and the pool is refilled from the whole
//! catalog when it is empty or when nothing in it is close enough.

use vstd::prelude::*;
use crate::catalog::Catalog;
use crate::color::{
    calculate_squared_distance, closer_than, squared_distance, squared_threshold, Rgb,
    MAX_SQUARED_DISTANCE,
};

verus! {

/// How many scans one target colour may take: the first, and one more over a
/// refilled pool.
pub const MAX_ATTEMPTS: usize = 2;

/// The pool that holds every tile of a catalog of `n` tiles, in catalog
/// order.
pub open spec fn full_pool(n: nat) -> Seq<usize> {
    Seq::new(n, |i: int| i as usize)
}

/// A pool over a catalog of `n` tiles holds identities of that catalog, in
/// increasing order: a part of the catalog in catalog order, nothing twice.
pub open spec fn pool_fits(pool: Seq<usize>, n: nat) -> bool {
    &&& forall|k: int| 0 <= k < pool.len() ==> #[trigger] pool[k] < n
    &&& forall|i: int, j: int| 0 <= i < j < pool.len() ==> #[trigger] pool[i] < #[trigger] pool[j]
}

/// The squared distance between `target` and the colour of the tile at
/// position `k` of the pool.
pub open spec fn entry_distance(colors: Seq<Rgb>, pool: Seq<usize>, target: Rgb, k: int) -> int {
    squared_distance(colors[pool[k] as int], target)
}

/// Some tile in the pool is closer to `target` than `threshold`.
pub open spec fn has_candidate(
    colors: Seq<Rgb>,
    pool: Seq<usize>,
    target: Rgb,
    threshold: int,
) -> bool {
    exists|k: int|
        0 <= k < pool.len() && closer_than(
            #[trigger] entry_distance(colors, pool, target, k),
            threshold,
        )
}

/// Position `p` of the pool is the one a scan settles on: its tile is closer
/// to `target` than `threshold`, no tile in the pool is closer than it, and
/// every tile before it is farther.
pub open spec fn is_choice(
    colors: Seq<Rgb>,
    pool: Seq<usize>,
    target: Rgb,
    threshold: int,
    p: int,
) -> bool {
    &&& 0 <= p < pool.len()
    &&& closer_than(entry_distance(colors, pool, target, p), threshold)
    &&& forall|k: int|
        0 <= k < p ==> entry_distance(colors, pool, target, p) < #[trigger] entry_distance(
            colors,
            pool,
            target,
            k,
        )
    &&& forall|k: int|
        p < k < pool.len() ==> entry_distance(colors, pool, target, p) <= #[trigger] entry_distance(
            colors,
            pool,
            target,
            k,
        )
}

/// The position a scan of the pool settles on.
pub open spec fn choice(colors: Seq<Rgb>, pool: Seq<usize>, target: Rgb, threshold: int) -> int {
    choose|p: int| is_choice(colors, pool, target, threshold, p)
}

/// What one scan of `pool` gives: the identity of the chosen tile and the
/// pool afterwards, without that tile when `unique` is set; or no tile and
/// a refilled pool.
pub open spec fn attempt_outcome(
    colors: Seq<Rgb>,
    pool: Seq<usize>,
    target: Rgb,
    threshold: int,
    unique: bool,
) -> (Option<usize>, Seq<usize>) {
    if has_candidate(colors, pool, target, threshold) {
        let p = choice(colors, pool, target, threshold);
        (
            Some(pool[p]),
            if unique {
                pool.remove(p)
            } else {
                pool
            },
        )
    } else {
        (None, full_pool(colors.len()))
    }
}

/// What matching one target colour gives, starting from `pool`: an empty
/// pool is refilled first; then one scan, and if it finds nothing, one more
/// over the refilled pool.
pub open spec fn find_outcome(
    colors: Seq<Rgb>,
    pool: Seq<usize>,
    target: Rgb,
    threshold: int,
    unique: bool,
) -> (Option<usize>, Seq<usize>) {
    let first = if pool.len() == 0 {
        full_pool(colors.len())
    } else {
        pool
    };
    let tried = attempt_outcome(colors, first, target, threshold, unique);
    if tried.0.is_some() {
        tried
    } else {
        attempt_outcome(colors, full_pool(colors.len()), target, threshold, unique)
    }
}

/// A scan settles on at most one position: ties go to the earliest.
pub proof fn lemma_choice_unique(
    colors: Seq<Rgb>,
    pool: Seq<usize>,
    target: Rgb,
    threshold: int,
    p: int,
    q: int,
)
    requires
        is_choice(colors, pool, target, threshold, p),
        is_choice(colors, pool, target, threshold, q),
    ensures
        p == q,
        choice(colors, pool, target, threshold) == p,
        has_candidate(colors, pool, target, threshold),
{
    if p < q {
        assert(entry_distance(colors, pool, target, q) < entry_distance(colors, pool, target, p));
        assert(entry_distance(colors, pool, target, p) <= entry_distance(colors, pool, target, q));
    } else if q < p {
        assert(entry_distance(colors, pool, target, p) < entry_distance(colors, pool, target, q));
        assert(entry_distance(colors, pool, target, q) <= entry_distance(colors, pool, target, p));
    }
    let c = choice(colors, pool, target, threshold);
    if c < p {
        assert(entry_distance(colors, pool, target, p) < entry_distance(colors, pool, target, c));
        assert(entry_distance(colors, pool, target, c) <= entry_distance(colors, pool, target, p));
    } else if p < c {
        assert(entry_distance(colors, pool, target, c) < entry_distance(colors, pool, target, p));
        assert(entry_distance(colors, pool, target, p) <= entry_distance(colors, pool, target, c));
    }
}

/// The full pool fits its catalog.
pub proof fn lemma_full_pool_fits(n: nat)
    requires
        n <= usize::MAX,
    ensures
        pool_fits(full_pool(n), n),
        full_pool(n).len() == n,
{
}

/// Taking one identity out of a fitting pool leaves a fitting pool.
pub proof fn lemma_remove_keeps_fit(pool: Seq<usize>, n: nat, p: int)
    requires
        pool_fits(pool, n),
        0 <= p < pool.len(),
    ensures
        pool_fits(pool.remove(p), n),
        pool.remove(p).len() == pool.len() - 1,
{
    let rest = pool.remove(p);
    assert forall|k: int| 0 <= k < rest.len() implies #[trigger] rest[k] < n by {
        if k < p {
            assert(rest[k] == pool[k]);
        } else {
            assert(rest[k] == pool[k + 1]);
        }
    }
    assert forall|i: int, j: int| 0 <= i < j < rest.len() implies #[trigger] rest[i]
        < #[trigger] rest[j] by {
        let a = if i < p {
            i
        } else {
            i + 1
        };
        let b = if j < p {
            j
        } else {
            j + 1
        };
        assert(rest[i] == pool[a]);
        assert(rest[j] == pool[b]);
    }
}

/// Matching keeps the pool fitting, and changes its size only by taking one
/// identity out, which happens only when uniqueness is asked for, or by
/// refilling it to the size of the catalog.
pub proof fn lemma_find_pool_step(
    colors: Seq<Rgb>,
    pool: Seq<usize>,
    target: Rgb,
    threshold: int,
    unique: bool,
)
    requires
        pool_fits(pool, colors.len()),
        colors.len() <= usize::MAX,
    ensures
        ({
            let (found, next) = find_outcome(colors, pool, target, threshold, unique);
            let n = colors.len();
            &&& pool_fits(next, n)
            &&& found matches Some(id) ==> id < n
            &&& found.is_none() ==> next == full_pool(n)
            &&& found.is_some() && !unique ==> next == pool || next == full_pool(n)
            &&& found.is_some() && unique ==> next.len() == pool.len() - 1 || next.len() == n - 1
        }),
{
    let n = colors.len();
    let full = full_pool(n);
    lemma_full_pool_fits(n);
    let first = if pool.len() == 0 {
        full
    } else {
        pool
    };
    if has_candidate(colors, first, target, threshold) {
        lemma_choice_exists(colors, first, target, threshold);
        let p = choice(colors, first, target, threshold);
        lemma_remove_keeps_fit(first, n, p);
    } else if has_candidate(colors, full, target, threshold) {
        lemma_choice_exists(colors, full, target, threshold);
        let p = choice(colors, full, target, threshold);
        lemma_remove_keeps_fit(full, n, p);
    }
}

/// Among the first `len` positions of the pool, the earliest one whose tile
/// is nearest to `target`.
pub open spec fn nearest_within(colors: Seq<Rgb>, pool: Seq<usize>, target: Rgb, len: int) -> int
    decreases len,
{
    if len <= 1 {
        0
    } else {
        let before = nearest_within(colors, pool, target, len - 1);
        if entry_distance(colors, pool, target, len - 1) < entry_distance(
            colors,
            pool,
            target,
            before,
        ) {
            len - 1
        } else {
            before
        }
    }
}

/// `nearest_within` is a position among the first `len`, no position among
/// them is nearer, and every earlier one is farther.
pub proof fn lemma_nearest_within(colors: Seq<Rgb>, pool: Seq<usize>, target: Rgb, len: int)
    requires
        1 <= len <= pool.len(),
    ensures
        0 <= nearest_within(colors, pool, target, len) < len,
        forall|k: int|
            0 <= k < nearest_within(colors, pool, target, len) ==> entry_distance(
                colors,
                pool,
                target,
                nearest_within(colors, pool, target, len),
            ) < #[trigger] entry_distance(colors, pool, target, k),
        forall|k: int|
            nearest_within(colors, pool, target, len) < k < len ==> entry_distance(
                colors,
                pool,
                target,
                nearest_within(colors, pool, target, len),
            ) <= #[trigger] entry_distance(colors, pool, target, k),
    decreases len,
{
    if len > 1 {
        lemma_nearest_within(colors, pool, target, len - 1);
    }
}

/// Where some tile of the pool is close enough, a scan settles on a
/// position.
pub proof fn lemma_choice_exists(colors: Seq<Rgb>, pool: Seq<usize>, target: Rgb, threshold: int)
    requires
        has_candidate(colors, pool, target, threshold),
    ensures
        is_choice(colors, pool, target, threshold, choice(colors, pool, target, threshold)),
{
    let k = choose|k: int|
        0 <= k < pool.len() && closer_than(
            #[trigger] entry_distance(colors, pool, target, k),
            threshold,
        );
    let len = pool.len() as int;
    lemma_nearest_within(colors, pool, target, len);
    let p = nearest_within(colors, pool, target, len);
    assert(entry_distance(colors, pool, target, p) <= entry_distance(colors, pool, target, k));
    assert(is_choice(colors, pool, target, threshold, p));
}

/// The matcher of one pass over the grid: a catalog and the pool drawn from
/// it.
pub struct Matcher<'a> {
    catalog: &'a Catalog,
    pool: Vec<usize>,
}

impl<'a> Matcher<'a> {
    /// The average colours of the catalog that the matcher draws from.
    pub closed spec fn colors(&self) -> Seq<Rgb> {
        self.catalog.colors()
    }

    /// The identities in the pool, in pool order.
    pub closed spec fn pool(&self) -> Seq<usize> {
        self.pool@
    }

    /// The pool fits the catalog.
    pub open spec fn wf(&self) -> bool {
        pool_fits(self.pool(), self.colors().len())
    }

    /// A matcher over `catalog` with an empty pool.
    pub fn new(catalog: &'a Catalog) -> (matcher: Matcher<'a>)
        ensures
            matcher.wf(),
            matcher.colors() == catalog.colors(),
            matcher.pool() == Seq::<usize>::empty(),
    {
        Matcher { catalog, pool: Vec::new() }
    }

    /// The number of identities in the pool.
    pub fn pool_len(&self) -> (n: usize)
        ensures
            n == self.pool().len(),
    {
        self.pool.len()
    }

    /// The identities in the pool, in pool order.
    pub fn pool_ids(&self) -> (ids: Vec<usize>)
        ensures
            ids@ == self.pool(),
    {
        self.pool.clone()
    }

    /// Replaces the pool by the whole catalog, in catalog order.
    fn refill(&mut self)
        ensures
            final(self).colors() == old(self).colors(),
            final(self).pool() == full_pool(old(self).colors().len()),
            final(self).wf(),
    {
        let n: usize = self.catalog.len();
        let mut fresh: Vec<usize> = Vec::new();
        let mut id: usize = 0;
        while id < n
            invariant
                id <= n,
                fresh@.len() == id,
                forall|k: int| 0 <= k < id ==> fresh@[k] == k,
            decreases n - id,
        {
            fresh.push(id);
            id = id + 1;
        }
        proof {
            assert(fresh@ =~= full_pool(n as nat));
        }
        self.pool = fresh;
    }

    /// Scans the pool once, front to back, for the tile nearest to `target`
    /// among those closer than `threshold`, and gives its position in the
    /// pool.
    fn scan(&self, threshold: usize, target: &Rgb) -> (best: Option<usize>)
        requires
            self.wf(),
        ensures
            match best {
                Some(p) => is_choice(self.colors(), self.pool(), *target, threshold as int, p as int),
                None => !has_candidate(self.colors(), self.pool(), *target, threshold as int),
            },
    {
        let ghost colors = self.colors();
        let ghost pool = self.pool();
        let mut best: Option<usize> = None;
        let mut value: u32 = squared_threshold(threshold);
        let mut k: usize = 0;
        while k < self.pool.len()
            invariant
                k <= self.pool@.len(),
                self.wf(),
                colors == self.colors(),
                pool == self.pool(),
                match best {
                    None => {
                        &&& forall|d2: int|
                            0 <= d2 <= MAX_SQUARED_DISTANCE ==> (d2 < value <==> #[trigger] closer_than(
                                d2,
                                threshold as int,
                            ))
                        &&& forall|j: int|
                            0 <= j < k ==> !closer_than(
                                #[trigger] entry_distance(colors, pool, *target, j),
                                threshold as int,
                            )
                    },
                    Some(p) => {
                        &&& p < k
                        &&& value == entry_distance(colors, pool, *target, p as int)
                        &&& closer_than(value as int, threshold as int)
                        &&& forall|j: int|
                            0 <= j < p ==> value < #[trigger] entry_distance(colors, pool, *target, j)
                        &&& forall|j: int|
                            p < j < k ==> value <= #[trigger] entry_distance(colors, pool, *target, j)
                    },
                },
            decreases self.pool@.len() - k,
        {
            let id: usize = self.pool[k];
            let color: Rgb = self.catalog.color(id);
            let d2: u32 = calculate_squared_distance(&color, target);
            assert(d2 == entry_distance(colors, pool, *target, k as int));
            if d2 < value {
                value = d2;
                best = Some(k);
            }
            k = k + 1;
        }
        best
    }

    /// Matches one target colour: the identity of the tile to place, or
    /// `None` where no tile is close enough.
    ///
    /// An empty pool is refilled first. The pool is scanned once, front to
    /// back; the nearest tile closer than `threshold` wins, the earliest of
    /// them on a tie. With `unique` set the winner leaves the pool. Where the
    /// scan finds nothing, the pool is refilled and scanned once more.
    pub fn find(&mut self, unique: bool, threshold: usize, target: &Rgb) -> (found: Option<usize>)
        requires
            old(self).wf(),
        ensures
            final(self).wf(),
            final(self).colors() == old(self).colors(),
            (found, final(self).pool()) == find_outcome(
                old(self).colors(),
                old(self).pool(),
                *target,
                threshold as int,
                unique,
            ),
            found matches Some(id) ==> id < old(self).colors().len(),
    {
        let ghost colors = self.colors();
        let ghost full = full_pool(colors.len());
        if self.pool.len() == 0 {
            self.refill();
        }
        let ghost first = self.pool();
        let mut attempt: usize = 0;
        while attempt < MAX_ATTEMPTS
            invariant
                attempt <= MAX_ATTEMPTS,
                self.wf(),
                self.colors() == colors,
                full == full_pool(colors.len()),
                attempt == 0 ==> self.pool() == first,
                attempt >= 1 ==> self.pool() == full && !has_candidate(
                    colors,
                    first,
                    *target,
                    threshold as int,
                ),
                attempt >= 2 ==> !has_candidate(colors, full, *target, threshold as int),
                (if old(self).pool().len() == 0 {
                    full
                } else {
                    old(self).pool()
                }) == first,
                colors == old(self).colors(),
            decreases MAX_ATTEMPTS - attempt,
        {
            match self.scan(threshold, target) {
                Some(p) => {
                    proof {
                        lemma_choice_unique(
                            colors,
                            self.pool(),
                            *target,
                            threshold as int,
                            p as int,
                            p as int,
                        );
                        lemma_remove_keeps_fit(self.pool(), colors.len(), p as int);
                    }
                    let id: usize = self.pool[p];
                    if unique {
                        self.pool.remove(p);
                    }
                    return Some(id);
                },
                None => {
                    self.refill();
                },
            }
            attempt = attempt + 1;
        }
        None
    }
}

} // verus!
