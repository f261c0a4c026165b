//! The keys of one provider, and the choice of one of them.

use crate::clock::{rand_u32, MAX_NANOS};
use crate::error::LlmBrokerError;
use crate::load_balancer::key_info::{KeyInfo, Provider, RotationStrategy};
use vstd::prelude::*;
#[allow(unused_imports)]
use crate::error::says_no_keys;
#[allow(unused_imports)]
use crate::load_balancer::key_info::{opt_str, provider_name, KeyView};
#[allow(unused_imports)]
use crate::load_balancer::key_laws::law_looking_changes_no_answer;
#[allow(unused_imports)]
use crate::clock::{drawn, is_reading, readings, taken_from, Clock};

verus! {

/// What a pool is to its users. The cursor counts the turns of the rotation.
#[verifier::ext_equal]
pub struct PoolView {
    pub provider: Provider,
    pub keys: Seq<KeyView>,
    pub strategy: RotationStrategy,
    pub cursor: usize,
}

/// What came of the attempt to choose a key of a pool.
#[derive(Debug, Clone, Copy, PartialEq, Eq, Structural)]
pub enum Choice {
    /// The key at this position was chosen.
    Key(usize),
    /// No key may be used.
    NoKeys,
    /// Keys may be used, but their weights add up to zero, or to more than a
    /// `u32` holds: no weighted draw is defined.
    Unweighted,
}

/// The views of a list of keys.
pub open spec fn key_views(keys: Seq<KeyInfo>) -> Seq<KeyView> {
    keys.map_values(|k: KeyInfo| k@)
}

/// The clocks of a list of keys.
pub open spec fn clocks_of(keys: Seq<KeyInfo>) -> Seq<Clock> {
    keys.map_values(|k: KeyInfo| k.own_clock())
}

/// What is seen of a list of keys.
pub open spec fn ref_views(keys: Seq<&KeyInfo>) -> Seq<KeyView> {
    keys.map_values(|k: &KeyInfo| k@)
}

/// The clocks of a list of keys.
pub open spec fn ref_clocks(keys: Seq<&KeyInfo>) -> Seq<Clock> {
    keys.map_values(|k: &KeyInfo| k.own_clock())
}

/// The clocks at the given positions.
pub open spec fn clocks_at(clocks: Seq<Clock>, at: Seq<int>) -> Seq<Clock> {
    at.map_values(|i: int| clocks[i])
}

/// A list of positions as mathematical integers.
pub open spec fn positions(indices: Seq<usize>) -> Seq<int> {
    indices.map_values(|i: usize| i as int)
}

/// The keys after each was asked once, the `i`-th at the time `times[i]`.
pub open spec fn asked(keys: Seq<KeyView>, model: Option<Seq<char>>, times: Seq<u128>) -> Seq<
    KeyView,
> {
    Seq::new(keys.len(), |i: int| keys[i].availability_for(model, times[i]).0)
}

/// The positions, in order, of the keys that say yes when asked.
pub open spec fn candidates(
    keys: Seq<KeyView>,
    model: Option<Seq<char>>,
    times: Seq<u128>,
) -> Seq<int>
    decreases keys.len(),
{
    if keys.len() == 0 {
        Seq::empty()
    } else {
        let last = keys.len() - 1;
        let before = candidates(keys.drop_last(), model, times);
        if keys[last].availability_for(model, times[last]).1 {
            before.push(last)
        } else {
            before
        }
    }
}

/// The sum of the weights of the keys at the given positions.
pub open spec fn total_weight(keys: Seq<KeyView>, among: Seq<int>) -> nat
    decreases among.len(),
{
    if among.len() == 0 {
        0
    } else {
        total_weight(keys, among.drop_last()) + keys[among.last()].weight as nat
    }
}

/// The positions laid side by side, each as wide as its key is heavy: the one
/// that `draw` hits.
pub open spec fn weighted_pick(keys: Seq<KeyView>, among: Seq<int>, draw: int) -> int
    decreases among.len(),
{
    if among.len() <= 1 || draw >= total_weight(keys, among.drop_last()) {
        among.last()
    } else {
        weighted_pick(keys, among.drop_last(), draw)
    }
}

/// The first of the given positions whose rank is least.
pub open spec fn first_least(ranks: Seq<u64>, among: Seq<int>) -> int
    decreases among.len(),
{
    if among.len() <= 1 {
        among.last()
    } else {
        let before = first_least(ranks, among.drop_last());
        if ranks[among.last()] < ranks[before] {
            among.last()
        } else {
            before
        }
    }
}

/// How often each key was selected.
pub open spec fn usages(keys: Seq<KeyView>) -> Seq<u64> {
    keys.map_values(|k: KeyView| k.state.usage_count)
}

/// How long the last response of each key took.
pub open spec fn latencies(keys: Seq<KeyView>) -> Seq<u64> {
    keys.map_values(|k: KeyView| k.latency())
}

/// The first position whose key was selected least often.
pub open spec fn least_used_pick(keys: Seq<KeyView>, among: Seq<int>) -> int {
    first_least(usages(keys), among)
}

/// The first position whose key responded fastest; a key that has not been
/// measured counts as the fastest there can be.
pub open spec fn fastest_pick(keys: Seq<KeyView>, among: Seq<int>) -> int {
    first_least(latencies(keys), among)
}

/// A weighted draw among the given positions is defined.
pub open spec fn weights_usable(keys: Seq<KeyView>, among: Seq<int>) -> bool {
    0 < total_weight(keys, among) <= u32::MAX
}

/// The first position at which a key has the given id.
pub open spec fn position_of(keys: Seq<KeyView>, id: Seq<char>) -> Option<int>
    decreases keys.len(),
{
    if keys.len() == 0 {
        None
    } else {
        match position_of(keys.drop_last(), id) {
            Some(i) => Some(i),
            None => if keys.last().id == id {
                Some(keys.len() - 1)
            } else {
                None
            },
        }
    }
}

impl PoolView {
    /// The position that the strategy picks, if any key may be used.
    pub open spec fn pick(self, among: Seq<int>, random: u32) -> int {
        match self.strategy {
            RotationStrategy::RoundRobin => among[self.cursor as int % among.len() as int],
            RotationStrategy::WeightedRandom => weighted_pick(
                self.keys,
                among,
                random as int % total_weight(self.keys, among) as int,
            ),
            RotationStrategy::LeastUsed => least_used_pick(self.keys, among),
            RotationStrategy::LatencyBased => fastest_pick(self.keys, among),
        }
    }

    /// Where the cursor stands after a pick: only the rotation moves it, and it
    /// wraps after `usize::MAX`.
    pub open spec fn next_cursor(self) -> usize {
        if !(self.strategy is RoundRobin) {
            self.cursor
        } else if self.cursor == usize::MAX {
            0
        } else {
            (self.cursor + 1) as usize
        }
    }

    /// The pool after the windows of all keys were looked at, the `i`-th at the time
    /// `times[i]`.
    pub open spec fn looked_at(self, times: Seq<u128>) -> PoolView {
        PoolView {
            keys: Seq::new(self.keys.len(), |i: int| self.keys[i].looked_at(times[i])),
            ..self
        }
    }

    /// The pool with this key at the given position.
    pub open spec fn with_key(self, i: int, key: KeyView) -> PoolView {
        PoolView { keys: self.keys.update(i, key), ..self }
    }

    /// A request is served: the windows of all keys are looked at, one of the keys
    /// that may serve the request is picked, and the request is counted against that
    /// key alone, which is marked as used.
    pub open spec fn choose_key(
        self,
        model: Option<Seq<char>>,
        times: Seq<u128>,
        random: u32,
    ) -> (PoolView, Choice) {
        let among = candidates(self.keys, model, times);
        let pool = self.looked_at(times);
        if among.len() == 0 {
            (pool, Choice::NoKeys)
        } else if self.strategy is WeightedRandom && !weights_usable(self.keys, among) {
            (pool, Choice::Unweighted)
        } else {
            let i = self.pick(among, random);
            (
                PoolView {
                    cursor: self.next_cursor(),
                    ..pool.with_key(i, self.keys[i].sent(times[i]))
                },
                Choice::Key(i as usize),
            )
        }
    }

    /// With what the keys say when asked at the given times, a choice is defined.
    pub open spec fn can_choose(self, model: Option<Seq<char>>, times: Seq<u128>) -> bool {
        self.strategy is WeightedRandom && candidates(self.keys, model, times).len() > 0
            ==> weights_usable(self.keys, candidates(self.keys, model, times))
    }

    /// Whatever the keys say when asked, a choice is defined.
    pub open spec fn can_always_choose(self, model: Option<Seq<char>>) -> bool {
        forall|times: Seq<u128>|
            times.len() == self.keys.len() ==> #[trigger] self.can_choose(model, times)
    }

    /// The pool after the first key with the given id has failed.
    pub open spec fn key_failed(self, id: Seq<char>, cooldown: u128, now: u128) -> PoolView {
        match position_of(self.keys, id) {
            Some(i) => PoolView {
                keys: self.keys.update(i, self.keys[i].failed(cooldown, now)),
                ..self
            },
            None => self,
        }
    }

    /// The pool after a response to a request with the first key of the given id.
    pub open spec fn key_timed(self, id: Seq<char>, nanos: u64) -> PoolView {
        match position_of(self.keys, id) {
            Some(i) => PoolView {
                keys: self.keys.update(i, self.keys[i].timed(nanos)),
                ..self
            },
            None => self,
        }
    }

    /// Every key has spent its quota, and there is one.
    pub open spec fn all_limited(self, times: Seq<u128>) -> bool {
        self.keys.len() > 0 && forall|i: int|
            0 <= i < self.keys.len() ==> (#[trigger] self.keys[i]).rate_limited(times[i])
    }

    /// Some key has spent its quota.
    pub open spec fn some_limited(self, times: Seq<u128>) -> bool {
        exists|i: int|
            0 <= i < self.keys.len() && (#[trigger] self.keys[i]).rate_limited(times[i])
    }

    /// One of the first `n` keys says yes when asked.
    pub open spec fn yes_before(self, n: int, times: Seq<u128>) -> bool {
        exists|j: int|
            0 <= j < n && (#[trigger] self.keys[j]).availability(times[j]).1
    }

    /// The keys are asked one after the other, until one says yes: what becomes
    /// of the pool, and whether there are keys and all of them said no.
    pub open spec fn ask_until_yes(self, times: Seq<u128>) -> (PoolView, bool) {
        (
            PoolView {
                keys: Seq::new(
                    self.keys.len(),
                    |i: int|
                        if self.yes_before(i, times) {
                            self.keys[i]
                        } else {
                            self.keys[i].availability(times[i]).0
                        },
                ),
                ..self
            },
            self.keys.len() > 0 && !self.yes_before(self.keys.len() as int, times),
        )
    }
}

/// The key at a position of a pool is handed out: `key` is what is handed out, with
/// its clock, `left` is what is left of it when it is given back, and `after` is the
/// pool then, with its clocks. It is the pool's own key: what is done to it is done to
/// the pool.
pub open spec fn handed_out(
    pool: PoolView,
    clocks: Seq<Clock>,
    i: int,
    key: (KeyView, Clock),
    left: (KeyView, Clock),
    after: (PoolView, Seq<Clock>),
) -> bool {
    &&& 0 <= i < pool.keys.len() == clocks.len()
    &&& key == (pool.keys[i], clocks[i])
    &&& after == (pool.with_key(i, left.0), clocks.update(i, left.1))
    &&& left == (after.0.keys[i], after.1[i])
}

/// The positions of the keys that have spent their quota, in order.
pub open spec fn limited_positions(keys: Seq<KeyView>, times: Seq<u128>) -> Seq<int>
    decreases keys.len(),
{
    if keys.len() == 0 {
        Seq::empty()
    } else {
        let last = keys.len() - 1;
        let before = limited_positions(keys.drop_last(), times);
        if keys[last].rate_limited(times[last]) {
            before.push(last)
        } else {
            before
        }
    }
}

/// The keys at the given positions.
pub open spec fn at_positions(keys: Seq<KeyView>, at: Seq<int>) -> Seq<KeyView> {
    at.map_values(|i: int| keys[i])
}

/// Every position that `candidates` lists is one of a key that says yes; they
/// ascend, and no such key is left out.
pub proof fn lemma_candidates(keys: Seq<KeyView>, model: Option<Seq<char>>, times: Seq<u128>)
    ensures
        forall|j: int|
            0 <= j < candidates(keys, model, times).len() ==> {
                let i = #[trigger] candidates(keys, model, times)[j];
                0 <= i < keys.len() && keys[i].availability_for(model, times[i]).1
            },
        forall|j: int, k: int|
            0 <= j < k < candidates(keys, model, times).len() ==> #[trigger] candidates(
                keys,
                model,
                times,
            )[j] < #[trigger] candidates(keys, model, times)[k],
        forall|i: int|
            0 <= i < keys.len() && #[trigger] keys[i].availability_for(model, times[i]).1
                ==> candidates(keys, model, times).contains(i),
    decreases keys.len(),
{
    if keys.len() > 0 {
        let rest = keys.drop_last();
        let last = keys.len() - 1;
        let before = candidates(rest, model, times);
        lemma_candidates(rest, model, times);
        let all = candidates(keys, model, times);
        assert forall|j: int| 0 <= j < all.len() implies {
            let i = #[trigger] all[j];
            0 <= i < keys.len() && keys[i].availability_for(model, times[i]).1
        } by {
            if j < before.len() {
                assert(all[j] == before[j]);
                assert(rest[before[j]] == keys[before[j]]);
            }
        }
        assert forall|i: int|
            0 <= i < keys.len() && #[trigger] keys[i].availability_for(
                model,
                times[i],
            ).1 implies all.contains(i) by {
            if i < last {
                assert(rest[i] == keys[i]);
                assert(rest[i].availability_for(model, times[i]).1);
                let j = choose|j: int| 0 <= j < before.len() && before[j] == i;
                assert(all[j] == i);
            } else {
                assert(all[all.len() - 1] == i);
            }
        }
    }
}

/// A key that is found among the first `n` is found among all.
proof fn lemma_position_stays(keys: Seq<KeyView>, id: Seq<char>, n: int)
    requires
        0 <= n <= keys.len(),
        position_of(keys.take(n), id) is Some,
    ensures
        position_of(keys, id) == position_of(keys.take(n), id),
    decreases keys.len(),
{
    if n < keys.len() {
        assert(keys.drop_last().take(n) =~= keys.take(n));
        lemma_position_stays(keys.drop_last(), id, n);
    } else {
        assert(keys.take(n) =~= keys);
    }
}

proof fn lemma_total_weight_grows(keys: Seq<KeyView>, among: Seq<int>, n: int)
    requires
        0 <= n <= among.len(),
    ensures
        total_weight(keys, among.take(n)) <= total_weight(keys, among),
    decreases among.len(),
{
    if n < among.len() {
        lemma_total_weight_grows(keys, among.drop_last(), n);
        assert(among.drop_last().take(n) =~= among.take(n));
    } else {
        assert(among.take(n) =~= among);
    }
}

proof fn lemma_total_weight_step(keys: Seq<KeyView>, among: Seq<int>, n: int)
    requires
        0 <= n < among.len(),
    ensures
        total_weight(keys, among.take(n + 1)) == total_weight(keys, among.take(n))
            + keys[among[n]].weight,
{
    assert(among.take(n + 1).drop_last() =~= among.take(n));
}

/// A draw hits the position whose stretch it lies in.
pub proof fn lemma_weighted_pick(keys: Seq<KeyView>, among: Seq<int>, draw: int, n: int)
    requires
        0 <= n < among.len(),
        total_weight(keys, among.take(n)) <= draw < total_weight(keys, among.take(n + 1)),
    ensures
        weighted_pick(keys, among, draw) == among[n],
    decreases among.len(),
{
    let rest = among.drop_last();
    if n == among.len() - 1 {
        assert(among.take(n) =~= rest);
    } else {
        lemma_total_weight_grows(keys, rest, n + 1);
        assert(rest.take(n + 1) =~= among.take(n + 1));
        assert(rest.take(n) =~= among.take(n));
        lemma_weighted_pick(keys, rest, draw, n);
    }
}

/// A draw hits one of the positions.
proof fn lemma_weighted_pick_member(keys: Seq<KeyView>, among: Seq<int>, draw: int)
    requires
        among.len() > 0,
    ensures
        among.contains(weighted_pick(keys, among, draw)),
    decreases among.len(),
{
    if among.len() <= 1 || draw >= total_weight(keys, among.drop_last()) {
        assert(among[among.len() - 1] == among.last());
    } else {
        let rest = among.drop_last();
        lemma_weighted_pick_member(keys, rest, draw);
        let j = choose|j: int|
            0 <= j < rest.len() && rest[j] == weighted_pick(keys, rest, draw);
        assert(among[j] == rest[j]);
    }
}

/// No position has a lesser rank than the one that is picked, and those that stand
/// before it have greater ones.
pub proof fn lemma_first_least(ranks: Seq<u64>, among: Seq<int>)
    requires
        among.len() > 0,
    ensures
        exists|j: int|
            0 <= j < among.len() && #[trigger] among[j] == first_least(ranks, among) && (
            forall|k: int| 0 <= k < j ==> ranks[#[trigger] among[k]] > ranks[among[j]]),
        forall|k: int|
            0 <= k < among.len() ==> ranks[#[trigger] among[k]] >= ranks[first_least(
                ranks,
                among,
            )],
    decreases among.len(),
{
    let last = among.len() - 1;
    assert(among[last] == among.last());
    if among.len() > 1 {
        let rest = among.drop_last();
        lemma_first_least(ranks, rest);
        let before = first_least(ranks, rest);
        let b = choose|j: int|
            0 <= j < rest.len() && #[trigger] rest[j] == before && (forall|k: int|
                0 <= k < j ==> ranks[#[trigger] rest[k]] > ranks[rest[j]]);
        assert(among[b] == rest[b]);
        assert forall|k: int| 0 <= k < last implies ranks[#[trigger] among[k]]
            >= ranks[before] by {
            assert(rest[k] == among[k]);
        }
        assert forall|k: int| 0 <= k < b implies ranks[#[trigger] among[k]] > ranks[before] by {
            assert(rest[k] == among[k]);
        }
    }
}

/// The strategy picks one of the positions that it is given.
pub proof fn lemma_pick_member(pool: PoolView, among: Seq<int>, random: u32)
    requires
        among.len() > 0,
    ensures
        among.contains(pool.pick(among, random)),
{
    match pool.strategy {
        RotationStrategy::WeightedRandom => {
            lemma_weighted_pick_member(
                pool.keys,
                among,
                random as int % total_weight(pool.keys, among) as int,
            );
        },
        RotationStrategy::LeastUsed => {
            lemma_first_least(usages(pool.keys), among);
        },
        RotationStrategy::LatencyBased => {
            lemma_first_least(latencies(pool.keys), among);
        },
        RotationStrategy::RoundRobin => {
            let turn = pool.cursor as int % among.len() as int;
            assert(among[turn] == pool.pick(among, random));
        },
    }
}

/// The keys of one provider.
pub struct KeyPool {
    pub(crate) provider: Provider,
    pub(crate) keys: Vec<KeyInfo>,
    pub(crate) strategy: RotationStrategy,
    pub(crate) current_index: usize,
}

impl View for KeyPool {
    type V = PoolView;

    open(crate) spec fn view(&self) -> PoolView {
        PoolView {
            provider: self.provider,
            keys: key_views(self.keys@),
            strategy: self.strategy,
            cursor: self.current_index,
        }
    }
}

/// A pool as it comes into being.
pub open spec fn new_pool(provider: Provider, strategy: RotationStrategy) -> PoolView {
    PoolView { provider, keys: Seq::empty(), strategy, cursor: 0 }
}

impl KeyPool {
    /// The clocks of the keys.
    pub open(crate) spec fn key_clocks(&self) -> Seq<Clock> {
        clocks_of(self.keys@)
    }

    /// A pool without keys, in rotation.
    pub fn new(provider: Provider) -> (pool: KeyPool)
        ensures
            pool@ == new_pool(provider, RotationStrategy::RoundRobin),
            pool.key_clocks() == Seq::<Clock>::empty(),
    {
        let pool = KeyPool {
            provider,
            keys: Vec::new(),
            strategy: RotationStrategy::default(),
            current_index: 0,
        };
        assert(key_views(pool.keys@) =~= Seq::empty());
        pool
    }

    /// Sets the strategy.
    pub fn with_strategy(self, strategy: RotationStrategy) -> (pool: KeyPool)
        ensures
            pool@ == (PoolView { strategy, ..self@ }),
            pool.key_clocks() == self.key_clocks(),
    {
        let mut pool = self;
        pool.strategy = strategy;
        pool
    }

    /// Puts a key behind those that are there.
    pub fn add_key(&mut self, key: KeyInfo)
        ensures
            final(self)@ == (PoolView { keys: old(self)@.keys.push(key@), ..old(self)@ }),
            final(self).key_clocks() == old(self).key_clocks().push(key.own_clock()),
    {
        let ghost before = self.keys@;
        self.keys.push(key);
        assert(key_views(self.keys@) =~= key_views(before).push(key@));
        assert(clocks_of(self.keys@) =~= clocks_of(before).push(key.own_clock()));
    }

    /// The provider of the pool.
    pub fn provider(&self) -> (provider: &Provider)
        ensures
            *provider == self@.provider,
    {
        &self.provider
    }

    /// The strategy of the pool.
    pub fn strategy(&self) -> (strategy: &RotationStrategy)
        ensures
            *strategy == self@.strategy,
    {
        &self.strategy
    }

    /// The keys of the pool, in the order in which they were added.
    pub fn keys(&self) -> (keys: &[KeyInfo])
        ensures
            key_views(keys@) == self@.keys,
            clocks_of(keys@) == self.key_clocks(),
    {
        self.keys.as_slice()
    }

    /// Reads the clock of every key.
    pub fn read_clocks(&self) -> (times: Vec<u128>)
        ensures
            times@.len() == self@.keys.len(),
            readings(times@),
            taken_from(self.key_clocks(), times@),
    {
        let mut times: Vec<u128> = Vec::new();
        let mut i: usize = 0;
        while i < self.keys.len()
            invariant
                i <= self.keys.len(),
                times@.len() == i,
                readings(times@),
                taken_from(self.key_clocks().take(i as int), times@),
            decreases self.keys.len() - i,
        {
            let ghost clocks = self.key_clocks();
            assert(clocks[i as int] == self.keys@[i as int].own_clock());
            assert(clocks.take(i + 1) =~= clocks.take(i as int).push(clocks[i as int]));
            times.push(self.keys[i].now());
            i = i + 1;
        }
        assert(self.key_clocks().take(i as int) =~= self.key_clocks());
        times
    }

    /// Asks every key once, the `i`-th at the time `times[i]`, and lists the
    /// positions of those that say yes.
    pub fn ask_all_at(&mut self, model: Option<&str>, times: &Vec<u128>) -> (found: Vec<usize>)
        requires
            times@.len() == old(self)@.keys.len(),
        ensures
            final(self)@ == (PoolView {
                keys: asked(old(self)@.keys, opt_str(model), times@),
                ..old(self)@
            }),
            positions(found@) == candidates(old(self)@.keys, opt_str(model), times@),
            final(self).key_clocks() == old(self).key_clocks(),
    {
        let ghost before = self@;
        let ghost clocks = self.key_clocks();
        let ghost m = opt_str(model);
        let n: usize = self.keys.len();
        let mut found: Vec<usize> = Vec::new();
        let mut i: usize = 0;
        while i < n
            invariant
                i <= n == self.keys@.len() == before.keys.len() == times@.len(),
                m == opt_str(model),
                self@ == (PoolView { keys: self@.keys, ..before }),
                forall|j: int|
                    0 <= j < i ==> #[trigger] self@.keys[j] == before.keys[j].availability_for(
                        m,
                        times@[j],
                    ).0,
                forall|j: int| i <= j < n ==> #[trigger] self@.keys[j] == before.keys[j],
                positions(found@) == candidates(before.keys.take(i as int), m, times@),
                self.key_clocks() == clocks,
            decreases n - i,
        {
            let ghost at = self@.keys;
            let ghost listed = found@;
            assert(self@.keys[i as int] == before.keys[i as int]);
            let now: u128 = times[i];
            let yes = self.keys[i].is_available_for_at(model, now);
            proof {
                assert(self.key_clocks() =~= clocks);
                assert(self@.keys =~= at.update(i as int, self.keys@[i as int]@));
                assert(before.keys.take(i + 1).drop_last() =~= before.keys.take(i as int));
            }
            if yes {
                found.push(i);
                assert(positions(found@) =~= positions(listed).push(i as int));
            }
            i = i + 1;
        }
        assert(before.keys.take(n as int) =~= before.keys);
        assert(self@.keys =~= asked(before.keys, m, times@));
        found
    }

    /// Lists the positions of the keys that may serve a request, the `i`-th at the
    /// time `times[i]`. Nothing is counted.
    pub fn able_keys_at(&self, model: Option<&str>, times: &Vec<u128>) -> (found: Vec<usize>)
        requires
            times@.len() == self@.keys.len(),
        ensures
            positions(found@) == candidates(self@.keys, opt_str(model), times@),
    {
        let ghost all = self@.keys;
        let ghost m = opt_str(model);
        let mut found: Vec<usize> = Vec::new();
        let mut i: usize = 0;
        while i < self.keys.len()
            invariant
                i <= self.keys@.len() == times@.len(),
                all == self@.keys,
                m == opt_str(model),
                positions(found@) == candidates(all.take(i as int), m, times@),
            decreases self.keys.len() - i,
        {
            let ghost listed = found@;
            assert(all.take(i + 1).drop_last() =~= all.take(i as int));
            assert(all[i as int] == self.keys@[i as int]@);
            if self.keys[i].may_serve_at(model, times[i]) {
                found.push(i);
                assert(positions(found@) =~= positions(listed).push(i as int));
            }
            i = i + 1;
        }
        assert(all.take(i as int) =~= all);
        found
    }

    /// Looks at the windows of all keys, the `i`-th at the time `times[i]`.
    pub fn look_at_all(&mut self, times: &Vec<u128>)
        requires
            times@.len() == old(self)@.keys.len(),
        ensures
            final(self)@ == old(self)@.looked_at(times@),
            final(self).key_clocks() == old(self).key_clocks(),
    {
        let ghost before = self@;
        let ghost clocks = self.key_clocks();
        let n: usize = self.keys.len();
        let mut i: usize = 0;
        while i < n
            invariant
                i <= n == self.keys@.len() == before.keys.len() == times@.len(),
                self@ == (PoolView { keys: self@.keys, ..before }),
                forall|j: int|
                    0 <= j < i ==> #[trigger] self@.keys[j] == before.keys[j].looked_at(times@[j]),
                forall|j: int| i <= j < n ==> #[trigger] self@.keys[j] == before.keys[j],
                self.key_clocks() == clocks,
            decreases n - i,
        {
            let ghost at = self@.keys;
            assert(self@.keys[i as int] == before.keys[i as int]);
            let now: u128 = times[i];
            self.keys[i].look_at(now);
            assert(self@.keys =~= at.update(i as int, self.keys@[i as int]@));
            assert(self.key_clocks() =~= clocks);
            i = i + 1;
        }
        assert(self@.keys =~= before.looked_at(times@).keys);
    }

    /// The keys at the given positions.
    fn keys_at(&self, at: &Vec<usize>) -> (keys: Vec<&KeyInfo>)
        requires
            forall|j: int| 0 <= j < at@.len() ==> #[trigger] at@[j] < self@.keys.len(),
        ensures
            ref_views(keys@) == at_positions(self@.keys, positions(at@)),
            ref_clocks(keys@) == clocks_at(self.key_clocks(), positions(at@)),
    {
        let mut keys: Vec<&KeyInfo> = Vec::new();
        let mut j: usize = 0;
        while j < at.len()
            invariant
                j <= at.len(),
                keys@.len() == j,
                forall|i: int| 0 <= i < at@.len() ==> #[trigger] at@[i] < self@.keys.len(),
                forall|i: int|
                    0 <= i < j ==> (#[trigger] keys@[i])@ == self@.keys[at@[i] as int]
                        && keys@[i].own_clock() == self.key_clocks()[at@[i] as int],
            decreases at.len() - j,
        {
            keys.push(&self.keys[at[j]]);
            j = j + 1;
        }
        assert(ref_views(keys@) =~= at_positions(self@.keys, positions(at@)));
        assert(ref_clocks(keys@) =~= clocks_at(self.key_clocks(), positions(at@)));
        keys
    }

    /// Asks every key at its time, and returns those that say yes.
    pub fn available_keys_at(&mut self, model: Option<&str>, times: &Vec<u128>) -> (keys: Vec<
        &KeyInfo,
    >)
        requires
            times@.len() == old(self)@.keys.len(),
        ensures
            final(self)@ == (PoolView {
                keys: asked(old(self)@.keys, opt_str(model), times@),
                ..old(self)@
            }),
            ref_views(keys@) == at_positions(
                final(self)@.keys,
                candidates(old(self)@.keys, opt_str(model), times@),
            ),
            ref_clocks(keys@) == clocks_at(
                final(self).key_clocks(),
                candidates(old(self)@.keys, opt_str(model), times@),
            ),
            final(self).key_clocks() == old(self).key_clocks(),
    {
        let ghost before = self@;
        let found = self.ask_all_at(model, times);
        proof {
            lemma_candidates(before.keys, opt_str(model), times@);
            assert forall|j: int| 0 <= j < found@.len() implies #[trigger] found@[j]
                < self@.keys.len() by {
                assert(positions(found@)[j] == found@[j]);
            }
        }
        self.keys_at(&found)
    }

    /// Asks every key now, and returns those that say yes.
    pub fn available_keys(&mut self) -> (keys: Vec<&KeyInfo>)
        ensures
            exists|times: Seq<u128>|
                times.len() == old(self)@.keys.len() && readings(times) && taken_from(
                    old(self).key_clocks(),
                    times,
                ) && final(self)@ == (
                PoolView {
                    keys: #[trigger] asked(old(self)@.keys, None, times),
                    ..old(self)@
                }) && ref_views(keys@) == at_positions(
                    final(self)@.keys,
                    candidates(old(self)@.keys, None, times),
                ) && ref_clocks(keys@) == clocks_at(
                    final(self).key_clocks(),
                    candidates(old(self)@.keys, None, times),
                ),
            final(self).key_clocks() == old(self).key_clocks(),
    {
        let times = self.read_clocks();
        self.available_keys_at(None, &times)
    }

    /// Asks every key for a model now, and returns those that say yes.
    pub fn available_keys_for_model(&mut self, model: &str) -> (keys: Vec<&KeyInfo>)
        ensures
            exists|times: Seq<u128>|
                times.len() == old(self)@.keys.len() && readings(times) && taken_from(
                    old(self).key_clocks(),
                    times,
                ) && final(self)@ == (
                PoolView {
                    keys: #[trigger] asked(old(self)@.keys, Some(model@), times),
                    ..old(self)@
                }) && ref_views(keys@) == at_positions(
                    final(self)@.keys,
                    candidates(old(self)@.keys, Some(model@), times),
                ) && ref_clocks(keys@) == clocks_at(
                    final(self).key_clocks(),
                    candidates(old(self)@.keys, Some(model@), times),
                ),
            final(self).key_clocks() == old(self).key_clocks(),
    {
        let times = self.read_clocks();
        self.available_keys_at(Some(model), &times)
    }

    /// The keys that have spent their quota.
    pub fn rate_limited_keys_at<'a>(&'a self, times: &Vec<u128>) -> (keys: Vec<&'a KeyInfo>)
        requires
            times@.len() == self@.keys.len(),
        ensures
            ref_views(keys@) == at_positions(
                self@.keys,
                limited_positions(self@.keys, times@),
            ),
            ref_clocks(keys@) == clocks_at(
                self.key_clocks(),
                limited_positions(self@.keys, times@),
            ),
    {
        let ghost all = self@.keys;
        let mut found: Vec<usize> = Vec::new();
        let mut i: usize = 0;
        while i < self.keys.len()
            invariant
                i <= self.keys@.len() == times@.len(),
                all == self@.keys,
                forall|j: int| 0 <= j < found@.len() ==> #[trigger] found@[j] < i,
                positions(found@) == limited_positions(all.take(i as int), times@),
            decreases self.keys.len() - i,
        {
            let ghost listed = found@;
            assert(all.take(i + 1).drop_last() =~= all.take(i as int));
            if self.keys[i].is_rate_limited_at(times[i]) {
                found.push(i);
                assert(positions(found@) =~= positions(listed).push(i as int));
            }
            i = i + 1;
        }
        assert(all.take(i as int) =~= all);
        self.keys_at(&found)
    }

    /// The keys that have spent their quota.
    pub fn rate_limited_keys(&self) -> (keys: Vec<&KeyInfo>)
        ensures
            exists|times: Seq<u128>|
                times.len() == self@.keys.len() && readings(times) && taken_from(
                    self.key_clocks(),
                    times,
                ) && ref_views(keys@)
                    == at_positions(
                    self@.keys,
                    #[trigger] limited_positions(self@.keys, times),
                ) && ref_clocks(keys@) == clocks_at(
                    self.key_clocks(),
                    limited_positions(self@.keys, times),
                ),
    {
        let times = self.read_clocks();
        self.rate_limited_keys_at(&times)
    }

    /// Whether some key has spent its quota.
    pub fn has_rate_limited_keys_at(&self, times: &Vec<u128>) -> (some: bool)
        requires
            times@.len() == self@.keys.len(),
        ensures
            some == self@.some_limited(times@),
    {
        let mut i: usize = 0;
        while i < self.keys.len()
            invariant
                i <= self.keys@.len() == times@.len(),
                forall|j: int|
                    0 <= j < i ==> !(#[trigger] self@.keys[j]).rate_limited(times@[j]),
            decreases self.keys.len() - i,
        {
            assert(self@.keys[i as int] == self.keys@[i as int]@);
            if self.keys[i].is_rate_limited_at(times[i]) {
                return true;
            }
            i = i + 1;
        }
        false
    }

    /// Whether some key has spent its quota.
    pub fn has_rate_limited_keys(&self) -> (some: bool)
        ensures
            exists|times: Seq<u128>|
                times.len() == self@.keys.len() && readings(times) && taken_from(
                    self.key_clocks(),
                    times,
                ) && some
                    == #[trigger] self@.some_limited(times),
    {
        let times = self.read_clocks();
        self.has_rate_limited_keys_at(&times)
    }

    /// Whether there are keys and all of them have spent their quota.
    pub fn all_keys_rate_limited_at(&self, times: &Vec<u128>) -> (all: bool)
        requires
            times@.len() == self@.keys.len(),
        ensures
            all == self@.all_limited(times@),
    {
        if self.keys.len() == 0 {
            return false;
        }
        let mut i: usize = 0;
        while i < self.keys.len()
            invariant
                i <= self.keys@.len() == times@.len(),
                forall|j: int|
                    0 <= j < i ==> (#[trigger] self@.keys[j]).rate_limited(times@[j]),
            decreases self.keys.len() - i,
        {
            assert(self@.keys[i as int] == self.keys@[i as int]@);
            if !self.keys[i].is_rate_limited_at(times[i]) {
                return false;
            }
            i = i + 1;
        }
        true
    }

    /// Whether there are keys and all of them have spent their quota.
    pub fn all_keys_rate_limited(&self) -> (all: bool)
        ensures
            exists|times: Seq<u128>|
                times.len() == self@.keys.len() && readings(times) && taken_from(
                    self.key_clocks(),
                    times,
                ) && all
                    == #[trigger] self@.all_limited(times),
    {
        let times = self.read_clocks();
        self.all_keys_rate_limited_at(&times)
    }

    /// Asks the keys one after the other until one says yes. Returns whether
    /// there are keys and all of them said no.
    pub fn all_keys_unavailable_at(&mut self, times: &Vec<u128>) -> (all: bool)
        requires
            times@.len() == old(self)@.keys.len(),
        ensures
            (final(self)@, all) == old(self)@.ask_until_yes(times@),
            final(self).key_clocks() == old(self).key_clocks(),
    {
        let ghost before = self@;
        let ghost clocks = self.key_clocks();
        let n: usize = self.keys.len();
        let mut i: usize = 0;
        while i < n
            invariant
                i <= n == self.keys@.len() == before.keys.len() == times@.len(),
                before == old(self)@,
                self@ == (PoolView { keys: self@.keys, ..before }),
                !before.yes_before(i as int, times@),
                forall|j: int|
                    0 <= j < i ==> #[trigger] self@.keys[j] == before.keys[j].availability(
                        times@[j],
                    ).0,
                forall|j: int| i <= j < n ==> #[trigger] self@.keys[j] == before.keys[j],
                self.key_clocks() == clocks,
                clocks == old(self).key_clocks(),
            decreases n - i,
        {
            let ghost at = self@.keys;
            assert(self@.keys[i as int] == before.keys[i as int]);
            let now: u128 = times[i];
            let yes = self.keys[i].is_available_at(now);
            assert(self.key_clocks() =~= clocks);
            assert(self@.keys =~= at.update(i as int, self.keys@[i as int]@));
            if yes {
                assert(before.keys[i as int].availability(times@[i as int]).1);
                proof {
                    assert forall|j: int| 0 <= j < n implies #[trigger] self@.keys[j]
                        == before.ask_until_yes(times@).0.keys[j] by {
                        if j <= i {
                            assert(!before.yes_before(j, times@));
                        } else {
                            assert(before.yes_before(j, times@));
                        }
                    }
                    assert(before.yes_before(n as int, times@));
                    assert(self@.keys =~= before.ask_until_yes(times@).0.keys);
                }
                return false;
            }
            i = i + 1;
        }
        proof {
            assert forall|j: int| 0 <= j < n implies #[trigger] self@.keys[j]
                == before.ask_until_yes(times@).0.keys[j] by {
                assert(!before.yes_before(j, times@));
            }
            assert(self@.keys =~= before.ask_until_yes(times@).0.keys);
        }
        n > 0
    }

    /// Asks the keys one after the other until one says yes. Returns whether
    /// there are keys and all of them said no.
    pub fn all_keys_unavailable(&mut self) -> (all: bool)
        ensures
            exists|times: Seq<u128>|
                times.len() == old(self)@.keys.len() && readings(times) && taken_from(
                    old(self).key_clocks(),
                    times,
                ) && (final(self)@, all)
                    == #[trigger] old(self)@.ask_until_yes(times),
            final(self).key_clocks() == old(self).key_clocks(),
    {
        let times = self.read_clocks();
        self.all_keys_unavailable_at(&times)
    }

    /// Takes the next turn of the rotation.
    fn select_round_robin(&mut self, among: &Vec<usize>) -> (i: usize)
        requires
            among@.len() > 0,
            old(self)@.strategy is RoundRobin,
        ensures
            i as int == positions(among@)[old(self)@.cursor as int % among@.len() as int],
            final(self)@ == (PoolView { cursor: old(self)@.next_cursor(), ..old(self)@ }),
            final(self).key_clocks() == old(self).key_clocks(),
    {
        let turn: usize = self.current_index;
        self.current_index = turn.wrapping_add(1);
        among[turn % among.len()]
    }

    /// The sum of the weights of the keys at the given positions; `None` if it is
    /// more than a `u32` holds.
    fn weight_sum(&self, among: &Vec<usize>) -> (sum: Option<u32>)
        requires
            forall|j: int| 0 <= j < among@.len() ==> #[trigger] among@[j] < self@.keys.len(),
        ensures
            match sum {
                Some(sum) => sum == total_weight(self@.keys, positions(among@)),
                None => total_weight(self@.keys, positions(among@)) > u32::MAX,
            },
    {
        let ghost keys = self@.keys;
        let ghost at = positions(among@);
        let mut total: u32 = 0;
        let mut n: usize = 0;
        while n < among.len()
            invariant
                n <= among@.len() == at.len(),
                keys == self@.keys,
                at == positions(among@),
                forall|j: int| 0 <= j < among@.len() ==> #[trigger] among@[j] < self@.keys.len(),
                total == total_weight(keys, at.take(n as int)),
            decreases among.len() - n,
        {
            proof {
                lemma_total_weight_step(keys, at, n as int);
                lemma_total_weight_grows(keys, at, n + 1);
                assert(at[n as int] == among@[n as int]);
                assert(keys[at[n as int]] == self.keys@[among@[n as int] as int]@);
            }
            match total.checked_add(self.keys[among[n]].weight) {
                Some(sum) => {
                    total = sum;
                },
                None => {
                    return None;
                },
            }
            n = n + 1;
        }
        assert(at.take(n as int) =~= at);
        Some(total)
    }

    /// Draws among the given positions by weight. The sum of the weights is `total`.
    fn select_weighted_random(&self, among: &Vec<usize>, total: u32, random: u32) -> (i: usize)
        requires
            forall|j: int| 0 <= j < among@.len() ==> #[trigger] among@[j] < self@.keys.len(),
            weights_usable(self@.keys, positions(among@)),
            total == total_weight(self@.keys, positions(among@)),
        ensures
            i as int == weighted_pick(
                self@.keys,
                positions(among@),
                random as int % total_weight(self@.keys, positions(among@)) as int,
            ),
    {
        let ghost keys = self@.keys;
        let ghost at = positions(among@);
        let draw: u32 = random % total;
        let mut rest: u32 = draw;
        let mut m: usize = 0;
        assert(at.take(0) =~= Seq::empty());
        while m < among.len()
            invariant
                m <= among@.len() == at.len(),
                keys == self@.keys,
                at == positions(among@),
                forall|j: int| 0 <= j < among@.len() ==> #[trigger] among@[j] < self@.keys.len(),
                draw == total_weight(keys, at.take(m as int)) + rest,
                weights_usable(keys, at),
                draw == random as int % total_weight(keys, at) as int,
            decreases among.len() - m,
        {
            let weight: u32 = self.keys[among[m]].weight;
            proof {
                lemma_total_weight_step(keys, at, m as int);
                assert(at[m as int] == among@[m as int]);
                assert(keys[at[m as int]] == self.keys@[among@[m as int] as int]@);
            }
            if rest < weight {
                proof {
                    lemma_weighted_pick(keys, at, draw as int, m as int);
                }
                return among[m];
            }
            rest = rest - weight;
            m = m + 1;
        }
        proof {
            assert(at.take(m as int) =~= at);
            assert(false);
        }
        among[0]
    }

    /// The first of the given positions whose key was selected least often.
    fn select_least_used(&self, among: &Vec<usize>) -> (i: usize)
        requires
            among@.len() > 0,
            forall|j: int| 0 <= j < among@.len() ==> #[trigger] among@[j] < self@.keys.len(),
        ensures
            i as int == least_used_pick(self@.keys, positions(among@)),
    {
        let ghost ranks = usages(self@.keys);
        let ghost at = positions(among@);
        let mut best: usize = among[0];
        let mut n: usize = 1;
        assert(at.take(1).last() == best);
        while n < among.len()
            invariant
                1 <= n <= among@.len() == at.len(),
                ranks == usages(self@.keys),
                at == positions(among@),
                best < self@.keys.len(),
                forall|j: int| 0 <= j < among@.len() ==> #[trigger] among@[j] < self@.keys.len(),
                best as int == first_least(ranks, at.take(n as int)),
            decreases among.len() - n,
        {
            let next: usize = among[n];
            proof {
                assert(at.take(n + 1).drop_last() =~= at.take(n as int));
                assert(at.take(n + 1).last() == next);
                assert(ranks[next as int] == self.keys@[next as int]@.state.usage_count);
                assert(ranks[best as int] == self.keys@[best as int]@.state.usage_count);
            }
            if self.keys[next].usage_count() < self.keys[best].usage_count() {
                best = next;
            }
            n = n + 1;
        }
        assert(at.take(n as int) =~= at);
        best
    }

    /// The first of the given positions whose key responded fastest.
    fn select_fastest(&self, among: &Vec<usize>) -> (i: usize)
        requires
            among@.len() > 0,
            forall|j: int| 0 <= j < among@.len() ==> #[trigger] among@[j] < self@.keys.len(),
        ensures
            i as int == fastest_pick(self@.keys, positions(among@)),
    {
        let ghost ranks = latencies(self@.keys);
        let ghost at = positions(among@);
        let mut best: usize = among[0];
        let mut n: usize = 1;
        assert(at.take(1).last() == best);
        while n < among.len()
            invariant
                1 <= n <= among@.len() == at.len(),
                ranks == latencies(self@.keys),
                at == positions(among@),
                best < self@.keys.len(),
                forall|j: int| 0 <= j < among@.len() ==> #[trigger] among@[j] < self@.keys.len(),
                best as int == first_least(ranks, at.take(n as int)),
            decreases among.len() - n,
        {
            let next: usize = among[n];
            proof {
                assert(at.take(n + 1).drop_last() =~= at.take(n as int));
                assert(at.take(n + 1).last() == next);
                assert(ranks[next as int] == self.keys@[next as int]@.latency());
                assert(ranks[best as int] == self.keys@[best as int]@.latency());
            }
            if self.keys[next].latency() < self.keys[best].latency() {
                best = next;
            }
            n = n + 1;
        }
        assert(at.take(n as int) =~= at);
        best
    }

    /// Serves a request: looks at the windows of all keys, the `i`-th at the time
    /// `times[i]`, picks one of the keys that may serve the request, counts the request
    /// against it, and marks it as used.
    pub fn choose_key_at(
        &mut self,
        model: Option<&str>,
        times: &Vec<u128>,
        random: u32,
    ) -> (choice: Choice)
        requires
            times@.len() == old(self)@.keys.len(),
        ensures
            (final(self)@, choice) == old(self)@.choose_key(opt_str(model), times@, random),
            final(self)@.keys.len() == old(self)@.keys.len(),
            choice matches Choice::Key(i) ==> i < final(self)@.keys.len(),
            final(self).key_clocks() == old(self).key_clocks(),
    {
        let ghost before = self@;
        let ghost clocks = self.key_clocks();
        let ghost m = opt_str(model);
        let among = self.able_keys_at(model, times);
        let ghost at = positions(among@);
        proof {
            lemma_candidates(before.keys, m, times@);
            assert forall|j: int| 0 <= j < among@.len() implies #[trigger] among@[j]
                < self@.keys.len() by {
                assert(at[j] == among@[j]);
            }
        }
        if among.len() == 0 {
            self.look_at_all(times);
            return Choice::NoKeys;
        }
        let i: usize = match self.strategy {
            RotationStrategy::RoundRobin => self.select_round_robin(&among),
            RotationStrategy::WeightedRandom => {
                let total: u32 = match self.weight_sum(&among) {
                    Some(total) => total,
                    None => 0,
                };
                if total == 0 {
                    self.look_at_all(times);
                    return Choice::Unweighted;
                }
                self.select_weighted_random(&among, total, random)
            },
            RotationStrategy::LeastUsed => self.select_least_used(&among),
            RotationStrategy::LatencyBased => self.select_fastest(&among),
        };
        proof {
            assert(i as int == before.pick(at, random));
            lemma_pick_member(before, at, random);
            let j = choose|j: int| 0 <= j < at.len() && at[j] == i;
            assert(at[j] == among@[j]);
            assert(i < before.keys.len());
        }
        self.look_at_all(times);
        let ghost seen = self@.keys;
        assert(seen.len() == self.keys@.len());
        assert(seen[i as int] == self.keys@[i as int]@);
        let now: u128 = times[i];
        self.keys[i].check_rate_limit_at(now);
        self.keys[i].mark_used_at(now);
        proof {
            law_looking_changes_no_answer(before.keys[i as int], m, now);
            assert(self@.keys =~= seen.update(i as int, before.keys[i as int].sent(now)));
            assert(self.key_clocks() =~= clocks);
        }
        Choice::Key(i)
    }

    /// The first position at which a key has the given id.
    pub fn find_key(&self, key_id: &str) -> (found: Option<usize>)
        ensures
            match found {
                Some(i) => i < self@.keys.len() && position_of(self@.keys, key_id@) == Some(i as int),
                None => position_of(self@.keys, key_id@) is None,
            },
    {
        let ghost keys = self@.keys;
        let wanted = key_id.to_owned();
        let mut i: usize = 0;
        while i < self.keys.len()
            invariant
                i <= self.keys@.len(),
                keys == self@.keys,
                wanted@ == key_id@,
                position_of(keys.take(i as int), key_id@) is None,
            decreases self.keys.len() - i,
        {
            proof {
                assert(keys.take(i + 1).drop_last() =~= keys.take(i as int));
                assert(keys.take(i + 1).last() == self.keys@[i as int]@);
            }
            if self.keys[i].id == wanted {
                proof {
                    lemma_position_stays(keys, key_id@, i + 1);
                }
                return Some(i);
            }
            i = i + 1;
        }
        assert(keys.take(i as int) =~= keys);
        None
    }

    /// Rests the first key with the given id, if there is one, from the time
    /// `now` of its clock on.
    pub fn mark_key_failed_at(&mut self, key_id: &str, cooldown: u128, now: u128)
        requires
            cooldown <= MAX_NANOS,
            now <= MAX_NANOS,
        ensures
            final(self)@ == old(self)@.key_failed(key_id@, cooldown, now),
            final(self).key_clocks() == old(self).key_clocks(),
    {
        if let Some(i) = self.find_key(key_id) {
            let ghost keys = self@.keys;
            let ghost clocks = self.key_clocks();
            assert(keys[i as int] == self.keys@[i as int]@);
            self.keys[i].set_cooldown_at(cooldown, now);
            assert(self@.keys =~= keys.update(i as int, self.keys@[i as int]@));
            assert(self.key_clocks() =~= clocks);
        }
    }

    /// Rests the first key with the given id, if there is one, from now on.
    pub fn mark_key_failed(&mut self, key_id: &str, cooldown: u128)
        requires
            cooldown <= MAX_NANOS,
        ensures
            exists|now: u128|
                now <= MAX_NANOS && (position_of(old(self)@.keys, key_id@) matches Some(i)
                    ==> is_reading(old(self).key_clocks()[i], now)) && final(self)@
                    == #[trigger] old(self)@.key_failed(key_id@, cooldown, now),
            final(self).key_clocks() == old(self).key_clocks(),
    {
        let now: u128 = match self.find_key(key_id) {
            Some(i) => {
                assert(self.key_clocks()[i as int] == self.keys@[i as int].own_clock());
                self.keys[i].now()
            },
            None => 0,
        };
        self.mark_key_failed_at(key_id, cooldown, now)
    }

    /// Notes how long a response to a request with the first key of the given id
    /// took, if there is one.
    pub fn note_latency(&mut self, key_id: &str, nanos: u64)
        ensures
            final(self)@ == old(self)@.key_timed(key_id@, nanos),
            final(self).key_clocks() == old(self).key_clocks(),
    {
        if let Some(i) = self.find_key(key_id) {
            let ghost keys = self@.keys;
            let ghost clocks = self.key_clocks();
            assert(keys[i as int] == self.keys@[i as int]@);
            self.keys[i].note_latency(nanos);
            assert(self@.keys =~= keys.update(i as int, self.keys@[i as int]@));
            assert(self.key_clocks() =~= clocks);
        }
    }

    /// Hands out the key at a position.
    pub(crate) fn hand_out(&mut self, i: usize) -> (key: &mut KeyInfo)
        requires
            i < old(self)@.keys.len(),
        ensures
            handed_out(
                old(self)@,
                old(self).key_clocks(),
                i as int,
                (key@, key.own_clock()),
                (final(key)@, final(key).own_clock()),
                (final(self)@, final(self).key_clocks()),
            ),
    {
        let ghost before = self@;
        let ghost clocks = self.key_clocks();
        let ghost keys = self.keys@;
        assert(before.keys[i as int] == keys[i as int]@);
        assert(clocks[i as int] == keys[i as int].own_clock());
        proof {
            assert forall|key: KeyInfo|
                key_views(#[trigger] keys.update(i as int, key)) == before.keys.update(
                    i as int,
                    key@,
                ) && clocks_of(keys.update(i as int, key)) == clocks.update(
                    i as int,
                    key.own_clock(),
                ) by {
                let updated = keys.update(i as int, key);
                assert(key_views(updated) =~= before.keys.update(i as int, key@));
                assert(clocks_of(updated) =~= clocks.update(i as int, key.own_clock()));
            }
        }
        &mut self.keys[i]
    }

    /// Serves a request now. The reply is `None` if the keys that may be used
    /// admit no weighted draw.
    pub fn try_select_key(&mut self, model: Option<&str>) -> (reply: Option<
        Result<&mut KeyInfo, LlmBrokerError>,
    >)
        ensures
            exists|times: Seq<u128>, random: u32|
                times.len() == old(self)@.keys.len() && readings(times) && taken_from(
                    old(self).key_clocks(),
                    times,
                ) && drawn(random) && {
                    let (pool, choice) = #[trigger] old(self)@.choose_key(
                        opt_str(model),
                        times,
                        random,
                    );
                    match choice {
                        Choice::Key(i) => reply matches Some(Ok(key)) && handed_out(
                            pool,
                            old(self).key_clocks(),
                            i as int,
                            (key@, key.own_clock()),
                            (final(key)@, final(key).own_clock()),
                            (final(self)@, final(self).key_clocks()),
                        ),
                        Choice::NoKeys => (reply matches Some(Err(error)) && says_no_keys(
                            error,
                            provider_name(pool.provider),
                        )) && final(self)@ == pool && final(self).key_clocks()
                            == old(self).key_clocks(),
                        Choice::Unweighted => reply is None && final(self)@ == pool
                            && final(self).key_clocks() == old(self).key_clocks(),
                    }
                },
    {
        let times = self.read_clocks();
        let random: u32 = rand_u32();
        match self.choose_key_at(model, &times, random) {
            Choice::Key(i) => Some(Ok(self.hand_out(i))),
            Choice::NoKeys => Some(
                Err(LlmBrokerError::NoKeysAvailable(self.provider.name().to_owned())),
            ),
            Choice::Unweighted => None,
        }
    }

    /// Serves a request now: one of the keys that may serve it is picked by the
    /// strategy, the request is counted against it, and the key is handed out. It is
    /// the pool's own key: what is done to it is done to the pool.
    pub fn select_key(&mut self, model: Option<&str>) -> (reply: Result<
        &mut KeyInfo,
        LlmBrokerError,
    >)
        requires
            old(self)@.can_always_choose(opt_str(model)),
        ensures
            exists|times: Seq<u128>, random: u32|
                times.len() == old(self)@.keys.len() && readings(times) && taken_from(
                    old(self).key_clocks(),
                    times,
                ) && drawn(random) && {
                    let (pool, choice) = #[trigger] old(self)@.choose_key(
                        opt_str(model),
                        times,
                        random,
                    );
                    match choice {
                        Choice::Key(i) => reply matches Ok(key) && handed_out(
                            pool,
                            old(self).key_clocks(),
                            i as int,
                            (key@, key.own_clock()),
                            (final(key)@, final(key).own_clock()),
                            (final(self)@, final(self).key_clocks()),
                        ),
                        Choice::NoKeys => (reply matches Err(error) && says_no_keys(
                            error,
                            provider_name(pool.provider),
                        )) && final(self)@ == pool && final(self).key_clocks()
                            == old(self).key_clocks(),
                        Choice::Unweighted => false,
                    }
                },
    {
        let times = self.read_clocks();
        let random: u32 = rand_u32();
        assert(self@.can_choose(opt_str(model), times@));
        match self.choose_key_at(model, &times, random) {
            Choice::Key(i) => Ok(self.hand_out(i)),
            // A draw is always defined here.
            _ => Err(LlmBrokerError::NoKeysAvailable(self.provider.name().to_owned())),
        }
    }
}

} // verus!
