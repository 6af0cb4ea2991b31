use vstd::prelude::*;

use crate::calendar::{day_of, secs_until_next_midnight, SECS_PER_DAY};
use crate::merge::{aggregate, collect_points, is_forecast_of, surviving_points};
use crate::query::{QueryKey, WeatherQuery};
use crate::series::{copy_series, weather_items, RawPoint, WeatherData, WeatherDataVec};

verus! {

/// One cached answer: the merged series for a query.
struct CacheEntry {
    key: WeatherQuery,
    value: WeatherDataVec,
}

/// What the entries answer for `key`: the last entry stored under it.
spec fn cache_lookup(entries: Seq<CacheEntry>, key: QueryKey) -> Option<Seq<WeatherData>>
    decreases entries.len(),
{
    if entries.len() == 0 {
        None
    } else if entries.last().key@ == key {
        Some(weather_items(entries.last().value))
    } else {
        cache_lookup(entries.drop_last(), key)
    }
}

spec fn answer_of(found: Option<Seq<WeatherData>>) -> Seq<WeatherData> {
    match found {
        Some(s) => s,
        None => Seq::empty(),
    }
}

spec fn entries_view(entries: Seq<CacheEntry>) -> Map<QueryKey, Seq<WeatherData>> {
    Map::new(
        |k: QueryKey| cache_lookup(entries, k) is Some,
        |k: QueryKey| answer_of(cache_lookup(entries, k)),
    )
}

proof fn lemma_lookup_update(entries: Seq<CacheEntry>, i: int, e: CacheEntry, k: QueryKey)
    requires
        0 <= i < entries.len(),
        entries[i].key@ == e.key@,
        forall|j: int| i < j < entries.len() ==> (#[trigger] entries[j]).key@ != e.key@,
    ensures
        cache_lookup(entries.update(i, e), k) == if k == e.key@ {
            Some(weather_items(e.value))
        } else {
            cache_lookup(entries, k)
        },
    decreases entries.len(),
{
    let n = entries.len();
    if i == n - 1 {
        assert(entries.update(i, e).drop_last() =~= entries.drop_last());
    } else {
        assert(entries.update(i, e).drop_last() =~= entries.drop_last().update(i, e));
        assert(entries[n - 1].key@ != e.key@);
        lemma_lookup_update(entries.drop_last(), i, e, k);
    }
}

/// The aggregation engine: an ordered list of provider handles and the cache
/// of merged answers. Fetching is left to the caller, which asks `lookup`
/// first and, on a miss, fetches from every provider and hands the outcomes
/// to `merge_and_store`.
pub struct Aggregator<P> {
    weather_apis: Vec<P>,
    cache: Vec<CacheEntry>,
}

impl<P> Aggregator<P> {
    /// The provider handles, in registration order.
    pub closed spec fn apis(&self) -> Seq<P> {
        self.weather_apis@
    }

    /// The cached answers, by query.
    pub closed spec fn cache_view(&self) -> Map<QueryKey, Seq<WeatherData>> {
        entries_view(self.cache@)
    }

    /// An engine with no providers and an empty cache.
    pub fn new() -> (r: Self)
        ensures
            r.apis() == Seq::<P>::empty(),
            r.cache_view() == Map::<QueryKey, Seq<WeatherData>>::empty(),
    {
        let r = Self { weather_apis: Vec::new(), cache: Vec::new() };
        assert(r.cache_view() =~= Map::<QueryKey, Seq<WeatherData>>::empty());
        r
    }

    /// Registers one more provider after the others.
    pub fn add_api(self, api: P) -> (r: Self)
        ensures
            r.apis() == self.apis().push(api),
            r.cache_view() == self.cache_view(),
    {
        let mut r = self;
        r.weather_apis.push(api);
        r
    }

    /// The providers to fan a query out to, in registration order.
    pub fn weather_apis(&self) -> (r: &Vec<P>)
        ensures
            r@ == self.apis(),
    {
        &self.weather_apis
    }

    /// Index of the last cache entry stored under `query`, if any.
    fn find_entry(&self, query: &WeatherQuery) -> (r: Option<usize>)
        ensures
            match r {
                Some(i) => {
                    &&& i < self.cache@.len()
                    &&& self.cache@[i as int].key@ == query@
                    &&& forall|j: int|
                        i < j < self.cache@.len() ==> (#[trigger] self.cache@[j]).key@ != query@
                    &&& cache_lookup(self.cache@, query@) == Some(
                        weather_items(self.cache@[i as int].value),
                    )
                },
                None => cache_lookup(self.cache@, query@) is None,
            },
    {
        let mut i: usize = self.cache.len();
        assert(self.cache@.take(i as int) =~= self.cache@);
        while i > 0
            invariant
                i <= self.cache@.len(),
                forall|j: int| i <= j < self.cache@.len() ==> (#[trigger] self.cache@[j]).key@ != query@,
                cache_lookup(self.cache@, query@) == cache_lookup(self.cache@.take(i as int), query@),
            decreases i,
        {
            assert(self.cache@.take(i as int).drop_last() =~= self.cache@.take(i - 1));
            if self.cache[i - 1].key.same_as(query) {
                return Some(i - 1);
            }
            i = i - 1;
        }
        None
    }

    /// Cache check: the stored answer for `query`, if there is one. A miss
    /// means the caller is to fetch from every provider.
    pub fn lookup(&self, query: &WeatherQuery) -> (r: Option<WeatherDataVec>)
        ensures
            r is Some <==> self.cache_view().contains_key(query@),
            r matches Some(s) ==> weather_items(s) == self.cache_view()[query@],
    {
        match self.find_entry(query) {
            Some(i) => Some(copy_series(&self.cache[i].value)),
            None => None,
        }
    }

    /// Stores `series` as the answer for `query`, replacing any earlier one.
    fn store(&mut self, query: WeatherQuery, series: WeatherDataVec)
        ensures
            final(self).apis() == old(self).apis(),
            final(self).cache_view() == old(self).cache_view().insert(query@, weather_items(series)),
    {
        let ghost before = self.cache@;
        let ghost key = query@;
        let ghost items = weather_items(series);
        let found = self.find_entry(&query);
        let e = CacheEntry { key: query, value: series };
        match found {
            Some(i) => {
                self.cache.set(i, e);
                proof {
                    assert forall|k: QueryKey| #[trigger]
                        cache_lookup(self.cache@, k) == if k == key {
                            Some(items)
                        } else {
                            cache_lookup(before, k)
                        } by {
                        lemma_lookup_update(before, i as int, e, k);
                    }
                }
            },
            None => {
                self.cache.push(e);
                proof {
                    assert(self.cache@.drop_last() =~= before);
                }
            },
        }
        assert(self.cache_view() =~= entries_view(before).insert(key, items));
    }

    /// The rest of a resolution after a miss: merges what the providers that
    /// succeeded returned (`None` for one that failed), caches the merged
    /// series under `query`, and returns it. When every provider failed the
    /// series is empty, and it is cached all the same.
    pub fn merge_and_store(
        &mut self,
        query: WeatherQuery,
        results: &Vec<Option<Vec<RawPoint>>>,
    ) -> (series: WeatherDataVec)
        ensures
            is_forecast_of(weather_items(series), surviving_points(results@)),
            final(self).apis() == old(self).apis(),
            final(self).cache_view() == old(self).cache_view().insert(
                query@,
                weather_items(series),
            ),
    {
        let points = collect_points(results);
        let series = aggregate(&points);
        self.store(query, copy_series(&series));
        series
    }

    /// Empties the whole cache at once.
    pub fn clear_cache(&mut self)
        ensures
            final(self).apis() == old(self).apis(),
            final(self).cache_view() == Map::<QueryKey, Seq<WeatherData>>::empty(),
    {
        self.cache = Vec::new();
        assert(self.cache_view() =~= Map::<QueryKey, Seq<WeatherData>>::empty());
    }

    /// Arms the cleanup timer when the engine starts at instant `now`: the
    /// seconds until the next UTC midnight strictly after it.
    pub fn started(&self, now: i64) -> (secs: u64)
        ensures
            secs as int == (day_of(now as int) + 1) * (SECS_PER_DAY as int) - now,
    {
        secs_until_next_midnight(now)
    }

    /// The timer fired at instant `now`: empties the cache and re-arms for the
    /// following UTC midnight, returning the seconds until then.
    pub fn cache_cleanup(&mut self, now: i64) -> (secs: u64)
        ensures
            final(self).apis() == old(self).apis(),
            final(self).cache_view() == Map::<QueryKey, Seq<WeatherData>>::empty(),
            secs as int == (day_of(now as int) + 1) * (SECS_PER_DAY as int) - now,
    {
        self.clear_cache();
        secs_until_next_midnight(now)
    }
}

/// The cache after storing each (query, series) pair of `stores` in turn.
pub open spec fn after_stores(
    cache: Map<QueryKey, Seq<WeatherData>>,
    stores: Seq<(QueryKey, Seq<WeatherData>)>,
) -> Map<QueryKey, Seq<WeatherData>>
    decreases stores.len(),
{
    if stores.len() == 0 {
        cache
    } else {
        after_stores(cache, stores.drop_last()).insert(stores.last().0, stores.last().1)
    }
}

/// A cache hit answers the most recent merge result stored for exactly that
/// query: once `series` is stored under `key`, stores for other queries leave
/// it in place, so `lookup` returns it and no provider is asked.
pub proof fn law_hit_returns_latest(
    cache: Map<QueryKey, Seq<WeatherData>>,
    key: QueryKey,
    series: Seq<WeatherData>,
    later: Seq<(QueryKey, Seq<WeatherData>)>,
)
    requires
        forall|i: int| 0 <= i < later.len() ==> (#[trigger] later[i]).0 != key,
    ensures
        after_stores(cache.insert(key, series), later).contains_key(key),
        after_stores(cache.insert(key, series), later)[key] == series,
    decreases later.len(),
{
    if later.len() > 0 {
        assert forall|i: int| 0 <= i < later.len() - 1 implies (#[trigger] later.drop_last()[i]).0 != key by {
            assert(later.drop_last()[i] == later[i]);
        }
        assert(later[later.len() - 1].0 != key);
        law_hit_returns_latest(cache, key, series, later.drop_last());
    }
}

/// The midnight cleanup forgets everything: after it, a query is answered
/// from the cache only once a new merge result has been stored for it, so the
/// next resolution of a query cached before midnight fetches again.
pub proof fn law_cleanup_forgets(key: QueryKey, later: Seq<(QueryKey, Seq<WeatherData>)>)
    requires
        forall|i: int| 0 <= i < later.len() ==> (#[trigger] later[i]).0 != key,
    ensures
        !after_stores(Map::<QueryKey, Seq<WeatherData>>::empty(), later).contains_key(key),
    decreases later.len(),
{
    if later.len() > 0 {
        assert forall|i: int| 0 <= i < later.len() - 1 implies (#[trigger] later.drop_last()[i]).0 != key by {
            assert(later.drop_last()[i] == later[i]);
        }
        assert(later[later.len() - 1].0 != key);
        law_cleanup_forgets(key, later.drop_last());
    }
}

} // verus!
