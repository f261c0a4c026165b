//! Pools of keys, one for each provider, and the choice of a key from them.

pub mod balancer_laws;
pub mod key_info;
pub mod key_laws;
pub mod key_pool;
pub mod pool_laws;

pub use crate::load_balancer::key_pool::KeyPool;

use crate::clock::{rand_u32, MAX_NANOS};
use crate::error::LlmBrokerError;
use crate::load_balancer::key_info::{KeyInfo, Provider, RotationStrategy};
use crate::load_balancer::key_pool::Choice;
use vstd::prelude::*;
#[allow(unused_imports)]
use crate::clock::{drawn, is_reading, readings, taken_from, Clock};
#[allow(unused_imports)]
use crate::error::says_no_keys;
#[allow(unused_imports)]
use crate::load_balancer::key_info::{opt_str, provider_name, KeyView};
#[allow(unused_imports)]
use crate::load_balancer::key_pool::{new_pool, position_of, PoolView};

verus! {

/// What a load balancer is to its users: its pools in the order in which they
/// were made, and the strategy of the pools to come.
#[verifier::ext_equal]
pub struct BalancerView {
    pub pools: Seq<(Provider, PoolView)>,
    pub default_strategy: RotationStrategy,
}

/// The readings that one pool needs to serve a request: the clock of each of its
/// keys, and a random number.
pub struct PoolReads {
    pub times: Vec<u128>,
    pub random: u32,
}

/// The readings of one pool.
pub struct PoolReadsView {
    pub times: Seq<u128>,
    pub random: u32,
}

impl View for PoolReads {
    type V = PoolReadsView;

    open spec fn view(&self) -> PoolReadsView {
        PoolReadsView { times: self.times@, random: self.random }
    }
}

/// The readings of all pools.
pub open spec fn reads_views(reads: Seq<PoolReads>) -> Seq<PoolReadsView> {
    reads.map_values(|r: PoolReads| r@)
}

/// What came of the attempt to choose a key of any pool.
#[derive(Debug, Clone, Copy, PartialEq, Eq, Structural)]
pub enum AnyChoice {
    /// A key was chosen: the position of its pool, and its position there.
    Key(usize, usize),
    /// No key may be used.
    NoKeys,
    /// The pool at this position admits no weighted draw.
    Unweighted(usize),
}

/// What a request for any model is given.
pub enum AnyKey<'a> {
    /// The chosen key, and its provider. It is the balancer's own key: what is done to
    /// it is done to the balancer.
    Key(&'a mut KeyInfo, Provider),
    /// No key may be used.
    NoKeys,
    /// The pool of this provider admits no weighted draw.
    Unweighted(Provider),
}

/// The key at position `k` of the pool at position `i` is handed out: `key` is what is
/// handed out, with its clock, `left` is what is left of it when it is given back, and
/// `after` is the balancer then, with the clocks of its keys.
pub open spec fn handed_out_of(
    balancer: BalancerView,
    clocks: Seq<Seq<Clock>>,
    i: int,
    k: int,
    key: (KeyView, Clock),
    left: (KeyView, Clock),
    after: (BalancerView, Seq<Seq<Clock>>),
) -> bool {
    &&& 0 <= i < balancer.pools.len() == clocks.len()
    &&& 0 <= k < balancer.pools[i].1.keys.len() == clocks[i].len()
    &&& key == (balancer.pools[i].1.keys[k], clocks[i][k])
    &&& after == (
        balancer.with_key(i, k, left.0),
        clocks.update(i, clocks[i].update(k, left.1)),
    )
    &&& left == (after.0.pools[i].1.keys[k], after.1[i][k])
}

/// The position of a provider's pool.
pub open spec fn pool_position(pools: Seq<(Provider, PoolView)>, provider: Provider) -> Option<int>
    decreases pools.len(),
{
    if pools.len() == 0 {
        None
    } else if pools.last().0 == provider {
        Some(pools.len() - 1)
    } else {
        pool_position(pools.drop_last(), provider)
    }
}

/// There is one reading for each key of each pool.
pub open spec fn reads_fit(pools: Seq<(Provider, PoolView)>, reads: Seq<PoolReadsView>) -> bool {
    reads.len() == pools.len() && forall|i: int|
        0 <= i < pools.len() ==> (#[trigger] reads[i]).times.len() == pools[i].1.keys.len()
}

/// Such readings can be taken: times from clocks, and random numbers by a draw.
pub open spec fn reads_taken(pools: Seq<(Provider, PoolView)>, reads: Seq<PoolReadsView>) -> bool {
    reads_fit(pools, reads) && forall|i: int|
        0 <= i < reads.len() ==> readings((#[trigger] reads[i]).times) && drawn(reads[i].random)
}

/// The times of these readings were read from these clocks, pool by pool.
pub open spec fn reads_from(clocks: Seq<Seq<Clock>>, reads: Seq<PoolReadsView>) -> bool {
    reads.len() == clocks.len() && forall|i: int|
        0 <= i < reads.len() ==> taken_from(clocks[i], (#[trigger] reads[i]).times)
}

/// A request for any model is offered to the pools from position `i` on, until
/// one of them has an answer.
pub open spec fn choose_any_from(
    pools: Seq<(Provider, PoolView)>,
    reads: Seq<PoolReadsView>,
    i: int,
) -> (Seq<(Provider, PoolView)>, AnyChoice)
    decreases pools.len() - i,
{
    if i < 0 || i >= pools.len() {
        (pools, AnyChoice::NoKeys)
    } else {
        let (pool, choice) = pools[i].1.choose_key(None, reads[i].times, reads[i].random);
        let after = pools.update(i, (pools[i].0, pool));
        match choice {
            Choice::Key(k) => (after, AnyChoice::Key(i as usize, k)),
            Choice::Unweighted => (after, AnyChoice::Unweighted(i as usize)),
            Choice::NoKeys => choose_any_from(after, reads, i + 1),
        }
    }
}

/// The id and the quota of the first key of the first pool that has keys.
pub open spec fn first_key_of(pools: Seq<(Provider, PoolView)>) -> Option<(Seq<char>, Option<u32>)>
    decreases pools.len(),
{
    if pools.len() == 0 {
        None
    } else if pools[0].1.keys.len() > 0 {
        Some((pools[0].1.keys[0].id, pools[0].1.keys[0].max_rpm))
    } else {
        first_key_of(pools.drop_first())
    }
}

impl BalancerView {
    /// No provider has two pools.
    pub open spec fn distinct(self) -> bool {
        forall|i: int, j: int|
            0 <= i < j < self.pools.len() ==> (#[trigger] self.pools[i]).0 != (
            #[trigger] self.pools[j]).0
    }

    /// The pool of a provider, if there is one.
    pub open spec fn pool_of(self, provider: Provider) -> Option<PoolView> {
        match pool_position(self.pools, provider) {
            Some(i) => Some(self.pools[i].1),
            None => None,
        }
    }

    /// A provider has a pool with a key of this id.
    pub open spec fn has_key(self, provider: Provider, id: Seq<char>) -> bool {
        self.pool_of(provider) matches Some(pool) && position_of(pool.keys, id) is Some
    }

    /// The pool of a provider, or the one that would be made for it.
    pub open spec fn pool_or_new(self, provider: Provider) -> PoolView {
        match self.pool_of(provider) {
            Some(pool) => pool,
            None => new_pool(provider, self.default_strategy),
        }
    }

    /// The balancer with this pool for a provider: in the place of the one that
    /// it had, or behind all others.
    pub open spec fn with_pool(self, provider: Provider, pool: PoolView) -> BalancerView {
        BalancerView {
            pools: match pool_position(self.pools, provider) {
                Some(i) => self.pools.update(i, (provider, pool)),
                None => self.pools.push((provider, pool)),
            },
            ..self
        }
    }

    /// The balancer with this key at position `k` of the pool at position `i`.
    pub open spec fn with_key(self, i: int, k: int, key: KeyView) -> BalancerView {
        BalancerView {
            pools: self.pools.update(i, (self.pools[i].0, self.pools[i].1.with_key(k, key))),
            ..self
        }
    }

    /// Every pool is kept under its own provider.
    pub open spec fn housed(self) -> bool {
        forall|i: int|
            0 <= i < self.pools.len() ==> (#[trigger] self.pools[i]).1.provider
                == self.pools[i].0
    }

    /// The balancer after a key of a provider has failed.
    pub open spec fn failure(
        self,
        provider: Provider,
        id: Seq<char>,
        cooldown: u128,
        now: u128,
    ) -> BalancerView {
        match self.pool_of(provider) {
            Some(pool) => self.with_pool(provider, pool.key_failed(id, cooldown, now)),
            None => self,
        }
    }

    /// The balancer after a response to a request with a key of a provider.
    pub open spec fn timed(self, provider: Provider, id: Seq<char>, nanos: u64) -> BalancerView {
        match self.pool_of(provider) {
            Some(pool) => self.with_pool(provider, pool.key_timed(id, nanos)),
            None => self,
        }
    }

    /// Every pool has keys and all of them have spent their quotas.
    pub open spec fn all_limited(self, reads: Seq<PoolReadsView>) -> bool {
        forall|i: int|
            0 <= i < self.pools.len() ==> (#[trigger] self.pools[i]).1.all_limited(
                reads[i].times,
            )
    }

    /// A request for any model is offered to one pool after the other.
    pub open spec fn choose_any(self, reads: Seq<PoolReadsView>) -> (BalancerView, AnyChoice) {
        let (pools, choice) = choose_any_from(self.pools, reads, 0);
        (BalancerView { pools, ..self }, choice)
    }
}

/// A key that is given back as it was handed out leaves the balancer as it was.
pub proof fn lemma_given_back(balancer: BalancerView, clocks: Seq<Seq<Clock>>, i: int, k: int)
    requires
        0 <= i < balancer.pools.len() == clocks.len(),
        0 <= k < balancer.pools[i].1.keys.len() == clocks[i].len(),
    ensures
        balancer.with_key(i, k, balancer.pools[i].1.keys[k]) == balancer,
        clocks.update(i, clocks[i].update(k, clocks[i][k])) == clocks,
{
    let pool = balancer.pools[i].1;
    assert(pool.with_key(k, pool.keys[k]).keys =~= pool.keys);
    assert(balancer.with_key(i, k, pool.keys[k]).pools =~= balancer.pools);
    assert(clocks[i].update(k, clocks[i][k]) =~= clocks[i]);
    assert(clocks.update(i, clocks[i]) =~= clocks);
}

/// The position of a pool, if one is found, is that of the provider's pool.
pub proof fn lemma_pool_position(pools: Seq<(Provider, PoolView)>, provider: Provider)
    ensures
        match pool_position(pools, provider) {
            Some(i) => 0 <= i < pools.len() && pools[i].0 == provider,
            None => forall|i: int| 0 <= i < pools.len() ==> (#[trigger] pools[i]).0 != provider,
        },
    decreases pools.len(),
{
    if pools.len() > 0 && pools.last().0 != provider {
        let rest = pools.drop_last();
        lemma_pool_position(rest, provider);
        match pool_position(rest, provider) {
            Some(i) => {
                assert(pools[i] == rest[i]);
            },
            None => {
                assert forall|i: int| 0 <= i < pools.len() implies (#[trigger] pools[i]).0
                    != provider by {
                    if i < rest.len() {
                        assert(rest[i] == pools[i]);
                    }
                }
            },
        }
    }
}

/// In a balancer without doubles, the pool that is keyed by a provider is the
/// one at its position.
pub proof fn lemma_pool_position_unique(balancer: BalancerView, i: int)
    requires
        balancer.distinct(),
        0 <= i < balancer.pools.len(),
    ensures
        pool_position(balancer.pools, balancer.pools[i].0) == Some(i),
{
    lemma_pool_position(balancer.pools, balancer.pools[i].0);
    let found = pool_position(balancer.pools, balancer.pools[i].0);
    assert(found is Some) by {
        if found is None {
            assert(balancer.pools[i].0 != balancer.pools[i].0);
        }
    }
    let j = found->0;
    if j < i {
        assert(balancer.pools[j].0 != balancer.pools[i].0);
    } else if i < j {
        assert(balancer.pools[i].0 != balancer.pools[j].0);
    }
}

/// To set the pool of a provider makes no doubles.
pub proof fn lemma_with_pool_distinct(balancer: BalancerView, provider: Provider, pool: PoolView)
    requires
        balancer.distinct(),
    ensures
        balancer.with_pool(provider, pool).distinct(),
{
    lemma_pool_position(balancer.pools, provider);
    let after = balancer.with_pool(provider, pool);
    assert forall|i: int, j: int| 0 <= i < j < after.pools.len() implies (
    #[trigger] after.pools[i]).0 != (#[trigger] after.pools[j]).0 by {
        assert(i < balancer.pools.len());
        assert(after.pools[i].0 == balancer.pools[i].0);
        if j < balancer.pools.len() {
            assert(after.pools[j].0 == balancer.pools[j].0);
        }
    }
}

/// One provider and its pool.
pub struct PoolEntry {
    pub provider: Provider,
    pub pool: KeyPool,
}

impl View for PoolEntry {
    type V = (Provider, PoolView);

    open spec fn view(&self) -> (Provider, PoolView) {
        (self.provider, self.pool@)
    }
}

/// The views of a list of pools.
pub open spec fn entry_views(entries: Seq<PoolEntry>) -> Seq<(Provider, PoolView)> {
    entries.map_values(|e: PoolEntry| e@)
}

/// The clocks of the keys of a list of pools.
pub open spec fn entry_clocks(entries: Seq<PoolEntry>) -> Seq<Seq<Clock>> {
    entries.map_values(|e: PoolEntry| e.pool.key_clocks())
}

/// The pools of all providers.
pub struct LoadBalancer {
    pub(crate) entries: Vec<PoolEntry>,
    pub(crate) default_strategy: RotationStrategy,
}

impl View for LoadBalancer {
    type V = BalancerView;

    open(crate) spec fn view(&self) -> BalancerView {
        BalancerView {
            pools: entry_views(self.entries@),
            default_strategy: self.default_strategy,
        }
    }
}

impl Default for LoadBalancer {
    fn default() -> (balancer: LoadBalancer)
        ensures
            balancer@ == (BalancerView {
                pools: Seq::empty(),
                default_strategy: RotationStrategy::RoundRobin,
            }),
            balancer@.distinct(),
            balancer@.housed(),
    {
        LoadBalancer::new()
    }
}

impl LoadBalancer {
    /// The clocks of all keys, pool by pool.
    pub open(crate) spec fn key_clocks(&self) -> Seq<Seq<Clock>> {
        entry_clocks(self.entries@)
    }

    /// A balancer without pools, whose pools to come are in rotation.
    pub fn new() -> (balancer: LoadBalancer)
        ensures
            balancer@ == (BalancerView {
                pools: Seq::empty(),
                default_strategy: RotationStrategy::RoundRobin,
            }),
            balancer@.distinct(),
            balancer@.housed(),
    {
        let balancer = LoadBalancer {
            entries: Vec::new(),
            default_strategy: RotationStrategy::default(),
        };
        assert(entry_views(balancer.entries@) =~= Seq::empty());
        balancer
    }

    /// Sets the strategy of the pools to come; those that are there keep theirs.
    pub fn with_strategy(self, strategy: RotationStrategy) -> (balancer: LoadBalancer)
        ensures
            balancer@ == (BalancerView { default_strategy: strategy, ..self@ }),
            balancer.key_clocks() == self.key_clocks(),
    {
        let mut balancer = self;
        balancer.default_strategy = strategy;
        balancer
    }

    /// The position of a provider's pool.
    fn find_pool(&self, provider: Provider) -> (found: Option<usize>)
        ensures
            match found {
                Some(i) => i < self@.pools.len() && pool_position(self@.pools, provider) == Some(
                    i as int,
                ) && self@.pools[i as int].0 == provider,
                None => pool_position(self@.pools, provider) is None,
            },
    {
        let ghost pools = self@.pools;
        let mut n: usize = self.entries.len();
        assert(pools.take(n as int) =~= pools);
        while n > 0
            invariant
                n <= self.entries@.len(),
                pools == self@.pools,
                pool_position(pools, provider) == pool_position(pools.take(n as int), provider),
            decreases n,
        {
            proof {
                assert(pools.take(n as int).drop_last() =~= pools.take(n - 1));
                assert(pools.take(n as int).last() == self.entries@[n - 1]@);
            }
            if self.entries[n - 1].provider == provider {
                return Some(n - 1);
            }
            n = n - 1;
        }
        None
    }

    /// The pool of a provider; it is made, with the strategy of the balancer, if
    /// there is none.
    pub fn get_or_create_pool(&mut self, provider: Provider) -> (pool: &mut KeyPool)
        ensures
            pool@ == old(self)@.pool_or_new(provider),
            final(self)@ == old(self)@.with_pool(provider, final(pool)@),
            old(self)@.distinct() ==> final(self)@.distinct(),
            match pool_position(old(self)@.pools, provider) {
                Some(i) => pool.key_clocks() == old(self).key_clocks()[i]
                    && final(self).key_clocks() == old(self).key_clocks().update(
                    i,
                    final(pool).key_clocks(),
                ),
                None => pool.key_clocks() == Seq::<Clock>::empty() && final(self).key_clocks()
                    == old(self).key_clocks().push(final(pool).key_clocks()),
            },
    {
        let ghost before = self@;
        let ghost clocks = self.key_clocks();
        let i: usize = match self.find_pool(provider) {
            Some(i) => i,
            None => {
                let ghost entries = self.entries@;
                let pool = KeyPool::new(provider).with_strategy(self.default_strategy);
                self.entries.push(PoolEntry { provider, pool });
                assert(entry_views(self.entries@) =~= entry_views(entries).push(
                    (provider, pool@),
                ));
                self.entries.len() - 1
            },
        };
        let ghost made = self.entries@;
        assert(made[i as int]@ == self@.pools[i as int]);
        proof {
            assert forall|entry: PoolEntry| entry.provider == provider implies entry_views(
                #[trigger] made.update(i as int, entry),
            ) == before.with_pool(provider, entry.pool@).pools by {
                assert(entry_views(made.update(i as int, entry)) =~= before.with_pool(
                    provider,
                    entry.pool@,
                ).pools);
            }
            assert forall|entry: PoolEntry| #[trigger]
                entry_clocks(made.update(i as int, entry)) == (match pool_position(
                before.pools,
                provider,
            ) {
                Some(at) => clocks.update(at, entry.pool.key_clocks()),
                None => clocks.push(entry.pool.key_clocks()),
            }) by {
                assert(entry_clocks(made.update(i as int, entry)) =~= (match pool_position(
                    before.pools,
                    provider,
                ) {
                    Some(at) => clocks.update(at, entry.pool.key_clocks()),
                    None => clocks.push(entry.pool.key_clocks()),
                }));
            }
            if before.distinct() {
                assert forall|pool: PoolView| #[trigger]
                    before.with_pool(provider, pool).distinct() by {
                    lemma_with_pool_distinct(before, provider, pool);
                }
            }
        }
        &mut self.entries[i].pool
    }

    /// The pool of a provider, if there is one.
    pub fn pool(&self, provider: &Provider) -> (pool: Option<&KeyPool>)
        ensures
            match pool {
                Some(pool) => self@.pool_of(*provider) == Some(pool@)
                    && self.key_clocks().contains(pool.key_clocks()) && pool.key_clocks()
                    == self.key_clocks()[pool_position(self@.pools, *provider)->0],
                None => self@.pool_of(*provider) is None,
            },
    {
        match self.find_pool(*provider) {
            Some(i) => {
                assert(self@.pools[i as int] == self.entries@[i as int]@);
                assert(self.key_clocks()[i as int] == self.entries@[i as int].pool.key_clocks());
                Some(&self.entries[i].pool)
            },
            None => None,
        }
    }

    /// All pools, in the order in which they were made.
    pub fn pools(&self) -> (entries: &Vec<PoolEntry>)
        ensures
            entry_views(entries@) == self@.pools,
            entry_clocks(entries@) == self.key_clocks(),
    {
        &self.entries
    }

    /// What follows for the balancer when one of its pools changes.
    proof fn lemma_pool_changes(&self, i: int)
        requires
            0 <= i < self.entries@.len(),
            pool_position(self@.pools, self.entries@[i].provider) == Some(i),
        ensures
            self@.pools[i] == self.entries@[i]@,
            self.key_clocks()[i] == self.entries@[i].pool.key_clocks(),
            forall|entry: PoolEntry|
                entry.provider == self.entries@[i].provider ==> ({
                    let changed = #[trigger] self.entries@.update(i, entry);
                    let after = self@.with_pool(entry.provider, entry.pool@);
                    &&& entry_views(changed) == after.pools
                    &&& entry_clocks(changed) == self.key_clocks().update(
                        i,
                        entry.pool.key_clocks(),
                    )
                    &&& self@.distinct() ==> after.distinct()
                }),
            forall|pool: PoolView, k: int, key: KeyView|
                self@.with_pool(
                    self.entries@[i].provider,
                    #[trigger] pool.with_key(k, key),
                ) == self@.with_pool(self.entries@[i].provider, pool).with_key(i, k, key),
    {
        let provider = self.entries@[i].provider;
        assert forall|pool: PoolView, k: int, key: KeyView|
            self@.with_pool(provider, #[trigger] pool.with_key(k, key)) == self@.with_pool(
                provider,
                pool,
            ).with_key(i, k, key) by {
            assert(self@.with_pool(provider, pool.with_key(k, key)).pools =~= self@.with_pool(
                provider,
                pool,
            ).with_key(i, k, key).pools);
        }
        assert forall|entry: PoolEntry| entry.provider == self.entries@[i].provider implies ({
            let changed = #[trigger] self.entries@.update(i, entry);
            let after = self@.with_pool(entry.provider, entry.pool@);
            &&& entry_views(changed) == after.pools
            &&& entry_clocks(changed) == self.key_clocks().update(i, entry.pool.key_clocks())
            &&& self@.distinct() ==> after.distinct()
        }) by {
            let changed = self.entries@.update(i, entry);
            let after = self@.with_pool(entry.provider, entry.pool@);
            assert(entry_views(changed) =~= after.pools);
            assert(entry_clocks(changed) =~= self.key_clocks().update(
                i,
                entry.pool.key_clocks(),
            ));
            if self@.distinct() {
                lemma_with_pool_distinct(self@, entry.provider, entry.pool@);
            }
        }
    }

    /// Serves a request to a provider now; a provider without a pool has no keys. The
    /// reply is `None` if the keys that may be used admit no weighted draw.
    pub fn try_select_key(&mut self, provider: &Provider, model: Option<&str>) -> (reply: Option<
        Result<&mut KeyInfo, LlmBrokerError>,
    >)
        ensures
            old(self)@.distinct() ==> final(self)@.distinct(),
            match old(self)@.pool_of(*provider) {
                None => final(self)@ == old(self)@ && final(self).key_clocks()
                    == old(self).key_clocks() && (reply matches Some(Err(error))
                    && says_no_keys(error, provider_name(*provider))),
                Some(before) => exists|times: Seq<u128>, random: u32|
                    times.len() == before.keys.len() && readings(times) && taken_from(
                        old(self).key_clocks()[pool_position(
                            old(self)@.pools,
                            *provider,
                        )->0],
                        times,
                    ) && drawn(random) && {
                        let (pool, choice) = #[trigger] before.choose_key(
                            opt_str(model),
                            times,
                            random,
                        );
                        let after = old(self)@.with_pool(*provider, pool);
                        match choice {
                            Choice::Key(k) => reply matches Some(Ok(key)) && handed_out_of(
                                after,
                                old(self).key_clocks(),
                                pool_position(old(self)@.pools, *provider)->0,
                                k as int,
                                (key@, key.own_clock()),
                                (final(key)@, final(key).own_clock()),
                                (final(self)@, final(self).key_clocks()),
                            ),
                            Choice::NoKeys => (reply matches Some(Err(error)) && says_no_keys(
                                error,
                                provider_name(pool.provider),
                            )) && final(self)@ == after && final(self).key_clocks()
                                == old(self).key_clocks(),
                            Choice::Unweighted => reply is None && final(self)@ == after
                                && final(self).key_clocks() == old(self).key_clocks(),
                        }
                    },
            },
    {
        match self.find_pool(*provider) {
            Some(i) => {
                proof {
                    self.lemma_pool_changes(i as int);
                }
                self.entries[i].pool.try_select_key(model)
            },
            None => Some(Err(LlmBrokerError::NoKeysAvailable(provider.name().to_owned()))),
        }
    }

    /// Serves a request to a provider now; a provider without a pool has no keys. The
    /// key that is handed out is the balancer's own: what is done to it is done to the
    /// balancer.
    pub fn select_key(&mut self, provider: &Provider, model: Option<&str>) -> (reply: Result<
        &mut KeyInfo,
        LlmBrokerError,
    >)
        requires
            old(self)@.pool_of(*provider) matches Some(pool) ==> pool.can_always_choose(
                opt_str(model),
            ),
        ensures
            old(self)@.distinct() ==> final(self)@.distinct(),
            match old(self)@.pool_of(*provider) {
                None => final(self)@ == old(self)@ && final(self).key_clocks()
                    == old(self).key_clocks() && (reply matches Err(error) && says_no_keys(
                    error,
                    provider_name(*provider),
                )),
                Some(before) => exists|times: Seq<u128>, random: u32|
                    times.len() == before.keys.len() && readings(times) && taken_from(
                        old(self).key_clocks()[pool_position(
                            old(self)@.pools,
                            *provider,
                        )->0],
                        times,
                    ) && drawn(random) && {
                        let (pool, choice) = #[trigger] before.choose_key(
                            opt_str(model),
                            times,
                            random,
                        );
                        let after = old(self)@.with_pool(*provider, pool);
                        match choice {
                            Choice::Key(k) => reply matches Ok(key) && handed_out_of(
                                after,
                                old(self).key_clocks(),
                                pool_position(old(self)@.pools, *provider)->0,
                                k as int,
                                (key@, key.own_clock()),
                                (final(key)@, final(key).own_clock()),
                                (final(self)@, final(self).key_clocks()),
                            ),
                            Choice::NoKeys => (reply matches Err(error) && says_no_keys(
                                error,
                                provider_name(pool.provider),
                            )) && final(self)@ == after && final(self).key_clocks()
                                == old(self).key_clocks(),
                            Choice::Unweighted => false,
                        }
                    },
            },
    {
        match self.find_pool(*provider) {
            Some(i) => {
                proof {
                    self.lemma_pool_changes(i as int);
                }
                self.entries[i].pool.select_key(model)
            },
            None => Err(LlmBrokerError::NoKeysAvailable(provider.name().to_owned())),
        }
    }

    /// Rests a key of a provider, if both are there, from the time `now` of the
    /// key's clock on.
    pub fn mark_failure_at(&mut self, provider: &Provider, key_id: &str, cooldown: u128, now: u128)
        requires
            cooldown <= MAX_NANOS,
            now <= MAX_NANOS,
        ensures
            final(self)@ == old(self)@.failure(*provider, key_id@, cooldown, now),
            old(self)@.distinct() ==> final(self)@.distinct(),
            final(self).key_clocks() == old(self).key_clocks(),
    {
        if let Some(i) = self.find_pool(*provider) {
            let ghost before = self@;
            let ghost clocks = self.key_clocks();
            assert(before.pools[i as int] == self.entries@[i as int]@);
            self.entries[i].pool.mark_key_failed_at(key_id, cooldown, now);
            proof {
                assert(self@.pools =~= before.pools.update(
                    i as int,
                    (*provider, self.entries@[i as int].pool@),
                ));
                assert(self.key_clocks() =~= clocks);
                if before.distinct() {
                    lemma_with_pool_distinct(before, *provider, self.entries@[i as int].pool@);
                }
            }
        }
    }

    /// Notes how long a response to a request with a key of a provider took, if both
    /// are there.
    pub fn note_latency(&mut self, provider: &Provider, key_id: &str, nanos: u64)
        ensures
            final(self)@ == old(self)@.timed(*provider, key_id@, nanos),
            old(self)@.distinct() ==> final(self)@.distinct(),
            final(self).key_clocks() == old(self).key_clocks(),
    {
        if let Some(i) = self.find_pool(*provider) {
            let ghost before = self@;
            let ghost clocks = self.key_clocks();
            assert(before.pools[i as int] == self.entries@[i as int]@);
            self.entries[i].pool.note_latency(key_id, nanos);
            proof {
                assert(self@.pools =~= before.pools.update(
                    i as int,
                    (*provider, self.entries@[i as int].pool@),
                ));
                assert(self.key_clocks() =~= clocks);
                if before.distinct() {
                    lemma_with_pool_distinct(before, *provider, self.entries@[i as int].pool@);
                }
            }
        }
    }

    /// The clock of a key of a provider, if there is such a key.
    pub open spec fn clock_of_key(&self, provider: Provider, id: Seq<char>) -> Clock {
        let i = pool_position(self@.pools, provider)->0;
        self.key_clocks()[i][position_of(self@.pools[i].1.keys, id)->0]
    }

    /// Reads the clock of a key of a provider; the time is zero where there is no
    /// such key.
    pub(crate) fn key_time(&self, provider: &Provider, key_id: &str) -> (now: u128)
        ensures
            now <= MAX_NANOS,
            !self@.has_key(*provider, key_id@) ==> now == 0,
            self@.has_key(*provider, key_id@) ==> is_reading(
                self.clock_of_key(*provider, key_id@),
                now,
            ),
    {
        match self.pool(provider) {
            Some(pool) => match pool.find_key(key_id) {
                Some(k) => pool.keys[k].now(),
                None => 0,
            },
            None => 0,
        }
    }

    /// Rests a key of a provider, if both are there, from now on.
    pub fn mark_failure(&mut self, provider: &Provider, key_id: &str, cooldown: u128)
        requires
            cooldown <= MAX_NANOS,
        ensures
            exists|now: u128|
                now <= MAX_NANOS && (old(self)@.has_key(*provider, key_id@) ==> is_reading(
                    old(self).clock_of_key(*provider, key_id@),
                    now,
                )) && final(self)@ == #[trigger] old(self)@.failure(
                    *provider,
                    key_id@,
                    cooldown,
                    now,
                ),
            old(self)@.distinct() ==> final(self)@.distinct(),
            final(self).key_clocks() == old(self).key_clocks(),
    {
        let now: u128 = self.key_time(provider, key_id);
        self.mark_failure_at(provider, key_id, cooldown, now)
    }

    /// Reads the clocks of all keys, and draws a random number for each pool.
    pub fn read_all(&self) -> (reads: Vec<PoolReads>)
        ensures
            reads_taken(self@.pools, reads_views(reads@)),
            reads_from(self.key_clocks(), reads_views(reads@)),
    {
        let mut reads: Vec<PoolReads> = Vec::new();
        let mut i: usize = 0;
        while i < self.entries.len()
            invariant
                i <= self.entries@.len(),
                reads@.len() == i,
                forall|j: int|
                    0 <= j < i ==> (#[trigger] reads@[j])@.times.len()
                        == self@.pools[j].1.keys.len() && readings(reads@[j]@.times) && drawn(
                        reads@[j]@.random,
                    ) && taken_from(self.key_clocks()[j], reads@[j]@.times),
            decreases self.entries.len() - i,
        {
            assert(self@.pools[i as int] == self.entries@[i as int]@);
            assert(self.key_clocks()[i as int] == self.entries@[i as int].pool.key_clocks());
            let times = self.entries[i].pool.read_clocks();
            let random: u32 = rand_u32();
            reads.push(PoolReads { times, random });
            i = i + 1;
        }
        reads
    }

    /// Offers a request for any model to one pool after the other, with the given
    /// readings.
    pub fn choose_any_at(&mut self, reads: &Vec<PoolReads>) -> (choice: AnyChoice)
        requires
            reads_fit(old(self)@.pools, reads_views(reads@)),
        ensures
            (final(self)@, choice) == old(self)@.choose_any(reads_views(reads@)),
            choice matches AnyChoice::Key(i, k) ==> i < final(self)@.pools.len() && k
                < final(self)@.pools[i as int].1.keys.len(),
            choice matches AnyChoice::Unweighted(i) ==> i < final(self)@.pools.len(),
            old(self)@.distinct() ==> final(self)@.distinct(),
            final(self).key_clocks() == old(self).key_clocks(),
    {
        let ghost before = self@;
        let ghost clocks = self.key_clocks();
        let ghost rv = reads_views(reads@);
        let mut i: usize = 0;
        while i < self.entries.len()
            invariant
                i <= self.entries@.len() == before.pools.len() == reads@.len(),
                rv == reads_views(reads@),
                before == old(self)@,
                clocks == old(self).key_clocks(),
                self.key_clocks() == clocks,
                self.default_strategy == before.default_strategy,
                reads_fit(self@.pools, rv),
                before.distinct() ==> self@.distinct(),
                choose_any_from(before.pools, rv, 0) == choose_any_from(
                    self@.pools,
                    rv,
                    i as int,
                ),
            decreases self.entries.len() - i,
        {
            let ghost at = self@.pools;
            assert(at[i as int] == self.entries@[i as int]@);
            assert(rv[i as int] == reads@[i as int]@);
            let choice = self.entries[i].pool.choose_key_at(None, &reads[i].times, reads[i].random);
            proof {
                let pool = self.entries@[i as int].pool@;
                assert(self@.pools =~= at.update(i as int, (at[i as int].0, pool)));
                assert(pool.keys.len() == at[i as int].1.keys.len());
                assert(self.key_clocks() =~= clocks);
                assert forall|j: int| 0 <= j < self@.pools.len() implies (#[trigger] rv[j]).times.len()
                    == self@.pools[j].1.keys.len() by {
                    assert(rv[j].times.len() == at[j].1.keys.len());
                }
                assert forall|j: int| 0 <= j < self@.pools.len() implies (
                #[trigger] self@.pools[j]).0 == at[j].0 by {}
            }
            match choice {
                Choice::Key(k) => {
                    return AnyChoice::Key(i, k);
                },
                Choice::Unweighted => {
                    return AnyChoice::Unweighted(i);
                },
                Choice::NoKeys => {},
            }
            i = i + 1;
        }
        AnyChoice::NoKeys
    }

    /// Hands out the key at position `k` of the pool at position `i`.
    fn hand_out(&mut self, i: usize, k: usize) -> (key: &mut KeyInfo)
        requires
            i < old(self)@.pools.len(),
            k < old(self)@.pools[i as int].1.keys.len(),
        ensures
            handed_out_of(
                old(self)@,
                old(self).key_clocks(),
                i as int,
                k as int,
                (key@, key.own_clock()),
                (final(key)@, final(key).own_clock()),
                (final(self)@, final(self).key_clocks()),
            ),
            old(self)@.distinct() ==> final(self)@.distinct(),
    {
        let ghost before = self@;
        let ghost clocks = self.key_clocks();
        let ghost entries = self.entries@;
        assert(before.pools[i as int] == entries[i as int]@);
        assert(clocks[i as int] == entries[i as int].pool.key_clocks());
        proof {
            assert forall|entry: PoolEntry| entry.provider == entries[i as int].provider implies ({
                let changed = #[trigger] entries.update(i as int, entry);
                &&& entry_views(changed) == before.pools.update(
                    i as int,
                    (entry.provider, entry.pool@),
                )
                &&& entry_clocks(changed) == clocks.update(i as int, entry.pool.key_clocks())
            }) by {
                let changed = entries.update(i as int, entry);
                assert(entry_views(changed) =~= before.pools.update(
                    i as int,
                    (entry.provider, entry.pool@),
                ));
                assert(entry_clocks(changed) =~= clocks.update(
                    i as int,
                    entry.pool.key_clocks(),
                ));
            }
        }
        self.entries[i].pool.hand_out(k)
    }

    /// Gives a request for any model the key that is chosen with the given
    /// readings.
    pub fn select_any_at(&mut self, reads: &Vec<PoolReads>) -> (given: AnyKey<'_>)
        requires
            reads_fit(old(self)@.pools, reads_views(reads@)),
        ensures
            ({
                let (after, choice) = old(self)@.choose_any(reads_views(reads@));
                match choice {
                    AnyChoice::Key(i, k) => given matches AnyKey::Key(key, provider) && provider
                        == after.pools[i as int].0 && handed_out_of(
                        after,
                        old(self).key_clocks(),
                        i as int,
                        k as int,
                        (key@, key.own_clock()),
                        (final(key)@, final(key).own_clock()),
                        (final(self)@, final(self).key_clocks()),
                    ),
                    AnyChoice::NoKeys => given is NoKeys && final(self)@ == after
                        && final(self).key_clocks() == old(self).key_clocks(),
                    AnyChoice::Unweighted(i) => (given matches AnyKey::Unweighted(provider)
                        && provider == after.pools[i as int].0) && final(self)@ == after
                        && final(self).key_clocks() == old(self).key_clocks(),
                }
            }),
            old(self)@.distinct() ==> final(self)@.distinct(),
    {
        match self.choose_any_at(reads) {
            AnyChoice::Key(i, k) => {
                assert(self@.pools[i as int] == self.entries@[i as int]@);
                let provider = self.entries[i].provider;
                AnyKey::Key(self.hand_out(i, k), provider)
            },
            AnyChoice::NoKeys => AnyKey::NoKeys,
            AnyChoice::Unweighted(i) => {
                assert(self@.pools[i as int] == self.entries@[i as int]@);
                AnyKey::Unweighted(self.entries[i].provider)
            },
        }
    }

    /// Gives a request for any model a key, now.
    pub fn select_any(&mut self) -> (given: AnyKey<'_>)
        ensures
            exists|reads: Seq<PoolReadsView>|
                reads_taken(old(self)@.pools, reads) && reads_from(
                    old(self).key_clocks(),
                    reads,
                ) && {
                    let (after, choice) = #[trigger] old(self)@.choose_any(reads);
                    match choice {
                        AnyChoice::Key(i, k) => given matches AnyKey::Key(key, provider) && provider
                            == after.pools[i as int].0 && handed_out_of(
                            after,
                            old(self).key_clocks(),
                            i as int,
                            k as int,
                            (key@, key.own_clock()),
                            (final(key)@, final(key).own_clock()),
                            (final(self)@, final(self).key_clocks()),
                        ),
                        AnyChoice::NoKeys => given is NoKeys && final(self)@ == after
                            && final(self).key_clocks() == old(self).key_clocks(),
                        AnyChoice::Unweighted(i) => (given matches AnyKey::Unweighted(provider)
                            && provider == after.pools[i as int].0) && final(self)@ == after
                            && final(self).key_clocks() == old(self).key_clocks(),
                    }
                },
            old(self)@.distinct() ==> final(self)@.distinct(),
    {
        let reads = self.read_all();
        self.select_any_at(&reads)
    }

    /// Whether every pool has keys and all of them have spent their quotas, with
    /// the given readings. This holds of a balancer without pools.
    pub fn all_pools_limited_at(&self, reads: &Vec<PoolReads>) -> (limited: bool)
        requires
            reads_fit(self@.pools, reads_views(reads@)),
        ensures
            limited == self@.all_limited(reads_views(reads@)),
    {
        let ghost rv = reads_views(reads@);
        let mut i: usize = 0;
        while i < self.entries.len()
            invariant
                i <= self.entries@.len() == reads@.len(),
                rv == reads_views(reads@),
                reads_fit(self@.pools, rv),
                forall|j: int|
                    0 <= j < i ==> (#[trigger] self@.pools[j]).1.all_limited(rv[j].times),
            decreases self.entries.len() - i,
        {
            assert(self@.pools[i as int] == self.entries@[i as int]@);
            assert(rv[i as int] == reads@[i as int]@);
            if !self.entries[i].pool.all_keys_rate_limited_at(&reads[i].times) {
                return false;
            }
            i = i + 1;
        }
        true
    }

    /// The id and the quota of the first key there is.
    pub fn first_key(&self) -> (first: Option<(String, Option<u32>)>)
        ensures
            match first {
                Some((id, max_rpm)) => first_key_of(self@.pools) == Some((id@, max_rpm)),
                None => first_key_of(self@.pools) is None,
            },
    {
        let ghost pools = self@.pools;
        let mut i: usize = 0;
        assert(pools.skip(0) =~= pools);
        while i < self.entries.len()
            invariant
                i <= self.entries@.len(),
                pools == self@.pools,
                first_key_of(pools) == first_key_of(pools.skip(i as int)),
            decreases self.entries.len() - i,
        {
            proof {
                assert(pools.skip(i as int).drop_first() =~= pools.skip(i + 1));
                assert(pools.skip(i as int)[0] == self.entries@[i as int]@);
            }
            if self.entries[i].pool.keys.len() > 0 {
                let key = &self.entries[i].pool.keys[0];
                assert(pools.skip(i as int)[0].1.keys[0] == key@);
                return Some((key.id.clone(), key.max_rpm));
            }
            i = i + 1;
        }
        None
    }
}

} // verus!
