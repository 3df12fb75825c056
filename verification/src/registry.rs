use vstd::prelude::*;
use crate::cache::{CacheContext, CacheType, cache_settings, context_key, same_context};
use crate::seqs::{any, first_idx, is_first, lemma_first_idx, lemma_is_first_unique, lemma_none_first};

verus! {

/// Cached data and the time it was stored (in seconds since the Unix epoch).
#[derive(Debug)]
pub struct CacheEntry<D> {
    pub data: D,
    pub updated_at: u64,
}

/// What a fetch of cached data reports back: the data and when it was fetched, or
/// why the fetch failed.
#[derive(Debug)]
pub enum CacheResponse<D> {
    Updated { ty: CacheType, ctx: CacheContext, data: D, ts: u64 },
    FetchFailed { ty: CacheType, ctx: CacheContext, error: String },
}

/// A record of the registry as seen by the contracts: its key (a kind of data and a
/// hashed context) and either the data with its time or the error of the last fetch.
pub type RecordModel<D> = ((CacheType, Seq<char>), Result<(D, u64), Seq<char>>);

/// The registry of what the cache holds: for a kind of data and a hashed context, the
/// entry last stored or the error of the last fetch. Each key occurs at most once.
#[verifier::reject_recursive_types(D)]
#[derive(Debug)]
pub struct CacheRegistry<D> {
    records: Vec<((CacheType, String), Result<CacheEntry<D>, String>)>,
}

/// The contract's form of a stored value.
pub open spec fn value_view<D>(v: Result<CacheEntry<D>, String>) -> Result<(D, u64), Seq<char>> {
    match v {
        Ok(e) => Ok((e.data, e.updated_at)),
        Err(s) => Err(s@),
    }
}

/// The contract's form of the records.
pub open spec fn records_view<D>(v: Seq<((CacheType, String), Result<CacheEntry<D>, String>)>) -> Seq<RecordModel<D>> {
    v.map_values(|r: ((CacheType, String), Result<CacheEntry<D>, String>)| ((r.0.0, r.0.1@), value_view(r.1)))
}

/// Selects the record of a key.
pub open spec fn record_is<D>(k: (CacheType, Seq<char>)) -> spec_fn(RecordModel<D>) -> bool {
    |r: RecordModel<D>| r.0 == k
}

/// Each key occurs at most once.
pub open spec fn unique_records<D>(s: Seq<RecordModel<D>>) -> bool {
    forall|i: int, j: int| 0 <= i < s.len() && 0 <= j < s.len() && i != j ==> s[i].0 != s[j].0
}

/// What is stored under a key.
pub open spec fn stored<D>(s: Seq<RecordModel<D>>, k: (CacheType, Seq<char>)) -> Option<Result<(D, u64), Seq<char>>> {
    let i = first_idx(s, record_is(k));
    if i >= 0 {
        Some(s[i].1)
    } else {
        None
    }
}

/// The records with `v` stored under `k`, in place of what was stored there.
pub open spec fn store<D>(s: Seq<RecordModel<D>>, k: (CacheType, Seq<char>), v: Result<(D, u64), Seq<char>>) -> Seq<
    RecordModel<D>,
> {
    let i = first_idx(s, record_is(k));
    if i >= 0 {
        s.update(i, (k, v))
    } else {
        s.push((k, v))
    }
}

/// The records without the record of `k`.
pub open spec fn unstore<D>(s: Seq<RecordModel<D>>, k: (CacheType, Seq<char>)) -> Seq<RecordModel<D>> {
    let i = first_idx(s, record_is(k));
    if i >= 0 {
        s.remove(i)
    } else {
        s
    }
}

/// How long data of a kind stays fresh, in seconds.
pub open spec fn ttl_of(t: CacheType) -> int {
    cache_settings(t).0
}

/// What a lookup of key `k` at time `now` gives: the error of the last fetch; the data
/// when it was stored less than its freshness ago (a time after `now` counting as no
/// time); nothing when the data is stale or nothing is stored.
pub open spec fn looked_up<D>(s: Seq<RecordModel<D>>, k: (CacheType, Seq<char>), now: u64) -> Option<Result<D, Seq<char>>> {
    match stored(s, k) {
        Some(Ok((d, t))) => if (if now >= t { now - t } else { 0 }) < ttl_of(k.0) {
            Some(Ok(d))
        } else {
            None
        },
        Some(Err(e)) => Some(Err(e)),
        None => None,
    }
}

impl<D> View for CacheRegistry<D> {
    type V = Seq<RecordModel<D>>;

    closed spec fn view(&self) -> Seq<RecordModel<D>> {
        records_view(self.records@)
    }
}

impl<D> CacheRegistry<D> {
    /// Each key occurs at most once.
    pub open spec fn wf(&self) -> bool {
        unique_records(self@)
    }

    /// An empty registry.
    pub fn new() -> (r: Self)
        ensures
            r.wf(),
            r@ == Seq::<RecordModel<D>>::empty(),
    {
        let r = CacheRegistry { records: Vec::new() };
        assert(r@ =~= Seq::<RecordModel<D>>::empty());
        r
    }

    /// The position of the record of a key.
    fn position(&self, ty: CacheType, key: &str) -> (r: Option<usize>)
        ensures
            match r {
                Some(i) => i < self@.len() && first_idx(self@, record_is((ty, key@))) == i as int,
                None => first_idx(self@, record_is((ty, key@))) == -1,
            },
    {
        let ghost v = self@;
        let ghost f = record_is::<D>((ty, key@));
        let mut i: usize = 0;
        while i < self.records.len()
            invariant
                v == self@,
                f == record_is::<D>((ty, key@)),
                i <= self.records.len(),
                forall|j: int| 0 <= j < i ==> !f(v[j]),
            decreases self.records.len() - i,
        {
            let same = self.records[i].0.0 == ty && crate::text::str_eq(self.records[i].0.1.as_str(), key);
            assert(v[i as int].0 == (self.records@[i as int].0.0, self.records@[i as int].0.1@));
            if same {
                assert(is_first(v, f, i as int));
                proof {
                    lemma_is_first_unique(v, f, i as int);
                }
                return Some(i);
            }
            i = i + 1;
        }
        proof {
            lemma_none_first(v, f);
        }
        None
    }

    /// Stores a value under a key, in place of what was stored there.
    pub fn record(&mut self, ty: CacheType, key: String, value: Result<CacheEntry<D>, String>)
        requires
            old(self).wf(),
        ensures
            final(self).wf(),
            final(self)@ == store(old(self)@, (ty, key@), value_view(value)),
    {
        let ghost s0 = self@;
        let ghost k = (ty, key@);
        let ghost v = value_view(value);
        match self.position(ty, key.as_str()) {
            Some(i) => {
                self.records.set(i, ((ty, key), value));
                assert(self@ =~= s0.update(i as int, (k, v)));
                assert forall|x: int, y: int| 0 <= x < self@.len() && 0 <= y < self@.len() && x != y implies self@[x].0
                    != self@[y].0 by {
                    if x != i && y != i {
                        assert(self@[x] == s0[x] && self@[y] == s0[y]);
                    } else if x == i {
                        assert(s0[x].0 == k);
                        assert(self@[y] == s0[y]);
                    } else {
                        assert(s0[y].0 == k);
                        assert(self@[x] == s0[x]);
                    }
                }
            },
            None => {
                self.records.push(((ty, key), value));
                assert(self@ =~= s0.push((k, v)));
                proof {
                    lemma_first_idx(s0, record_is::<D>(k));
                }
                assert forall|x: int, y: int| 0 <= x < self@.len() && 0 <= y < self@.len() && x != y implies self@[x].0
                    != self@[y].0 by {
                    if x == s0.len() {
                        if record_is::<D>(k)(s0[y]) {
                            assert(any(s0, record_is::<D>(k)));
                        }
                    } else if y == s0.len() {
                        if record_is::<D>(k)(s0[x]) {
                            assert(any(s0, record_is::<D>(k)));
                        }
                    } else {
                        assert(self@[x] == s0[x] && self@[y] == s0[y]);
                    }
                }
            },
        }
    }

    /// Takes the record of a key out of the registry.
    pub fn discard(&mut self, ty: CacheType, key: &str)
        requires
            old(self).wf(),
        ensures
            final(self).wf(),
            final(self)@ == unstore(old(self)@, (ty, key@)),
    {
        let ghost s0 = self@;
        match self.position(ty, key) {
            Some(i) => {
                self.records.remove(i);
                assert(self@ =~= s0.remove(i as int));
                assert forall|x: int, y: int| 0 <= x < self@.len() && 0 <= y < self@.len() && x != y implies self@[x].0
                    != self@[y].0 by {
                    let x2 = if x < i { x } else { x + 1 };
                    let y2 = if y < i { y } else { y + 1 };
                    assert(self@[x] == s0[x2]);
                    assert(self@[y] == s0[y2]);
                }
            },
            None => {},
        }
    }

    /// Looks a key up at time `now` (see `looked_up`).
    pub fn lookup(&self, ty: CacheType, key: &str, now: u64) -> (r: Option<Result<&D, &String>>)
        ensures
            match r {
                Some(Ok(d)) => looked_up(self@, (ty, key@), now) == Some(Ok::<D, Seq<char>>(*d)),
                Some(Err(e)) => looked_up(self@, (ty, key@), now) == Some(Err::<D, Seq<char>>(e@)),
                None => looked_up(self@, (ty, key@), now) is None,
            },
    {
        match self.position(ty, key) {
            Some(i) => {
                assert(self@[i as int].1 == value_view(self.records@[i as int].1));
                match &self.records[i].1 {
                    Ok(e) => {
                        let age = now.saturating_sub(e.updated_at);
                        if age < ty.config().ttl_secs {
                            Some(Ok(&e.data))
                        } else {
                            None
                        }
                    },
                    Err(s) => Some(Err(s)),
                }
            },
            None => None,
        }
    }

    /// Records what a fetch reported, under the key of its kind and context.
    pub fn apply_response(&mut self, res: CacheResponse<D>)
        requires
            old(self).wf(),
        ensures
            final(self).wf(),
            final(self)@ == store(old(self)@, context_key(response_type(res), response_ctx(res)), response_value(res)),
    {
        match res {
            CacheResponse::Updated { ty, ctx, data, ts } => {
                let key = ctx.hashed_key(ty);
                self.record(ty, key, Ok(CacheEntry { data, updated_at: ts }));
            },
            CacheResponse::FetchFailed { ty, ctx, error } => {
                let key = ctx.hashed_key(ty);
                self.record(ty, key, Err(error));
            },
        }
    }

    /// Stores data fetched elsewhere under the key of its kind and context, stamped with
    /// the time `now`.
    pub fn warm(&mut self, ty: CacheType, ctx: &CacheContext, data: D, now: u64)
        requires
            old(self).wf(),
        ensures
            final(self).wf(),
            final(self)@ == store(old(self)@, context_key(ty, *ctx), Ok::<(D, u64), Seq<char>>((data, now))),
    {
        let key = ctx.hashed_key(ty);
        self.record(ty, key, Ok(CacheEntry { data, updated_at: now }));
    }

    /// Takes the record of a kind and context out of the registry.
    pub fn discard_context(&mut self, ty: CacheType, ctx: &CacheContext)
        requires
            old(self).wf(),
        ensures
            final(self).wf(),
            final(self)@ == unstore(old(self)@, context_key(ty, *ctx)),
    {
        let key = ctx.hashed_key(ty);
        self.discard(ty, key.as_str());
    }

    /// Looks up what is stored for a kind and context at time `now` (see `looked_up`):
    /// the fresh data, the error of the last fetch, or nothing, when a fetch is due.
    pub fn lookup_context(&self, ty: CacheType, ctx: &CacheContext, now: u64) -> (r: Option<Result<&D, &String>>)
        ensures
            match r {
                Some(Ok(d)) => looked_up(self@, context_key(ty, *ctx), now) == Some(Ok::<D, Seq<char>>(*d)),
                Some(Err(e)) => looked_up(self@, context_key(ty, *ctx), now) == Some(Err::<D, Seq<char>>(e@)),
                None => looked_up(self@, context_key(ty, *ctx), now) is None,
            },
    {
        let key = ctx.hashed_key(ty);
        self.lookup(ty, key.as_str(), now)
    }
}

/// The context a fetch reported on.
pub open spec fn response_ctx<D>(r: CacheResponse<D>) -> CacheContext {
    match r {
        CacheResponse::Updated { ctx, .. } => ctx,
        CacheResponse::FetchFailed { ctx, .. } => ctx,
    }
}

/// The kind of data a fetch reported on.
pub open spec fn response_type<D>(r: CacheResponse<D>) -> CacheType {
    match r {
        CacheResponse::Updated { ty, .. } => ty,
        CacheResponse::FetchFailed { ty, .. } => ty,
    }
}

/// What a fetch reported, as stored: the data and its time, or the error.
pub open spec fn response_value<D>(r: CacheResponse<D>) -> Result<(D, u64), Seq<char>> {
    match r {
        CacheResponse::Updated { data, ts, .. } => Ok((data, ts)),
        CacheResponse::FetchFailed { error, .. } => Err(error@),
    }
}

// ---- laws of the registry ----

/// After a value is stored under a key, the registry holds that value there.
pub proof fn law_store_then_read<D>(s: Seq<RecordModel<D>>, k: (CacheType, Seq<char>), v: Result<(D, u64), Seq<char>>)
    ensures
        stored(store(s, k, v), k) == Some(v),
{
    let f = record_is::<D>(k);
    lemma_first_idx(s, f);
    let i = first_idx(s, f);
    if i >= 0 {
        let b = s.update(i, (k, v));
        assert forall|j: int| 0 <= j < i implies !f(b[j]) by {
            assert(b[j] == s[j]);
        }
        assert(is_first(b, f, i));
        lemma_is_first_unique(b, f, i);
    } else {
        let b = s.push((k, v));
        assert forall|j: int| 0 <= j < s.len() implies !f(b[j]) by {
            assert(b[j] == s[j]);
            if f(s[j]) {
                assert(any(s, f));
            }
        }
        assert(is_first(b, f, s.len() as int));
        lemma_is_first_unique(b, f, s.len() as int);
    }
}

/// Storing under one key leaves what is stored under every other key.
pub proof fn law_store_keeps_others<D>(
    s: Seq<RecordModel<D>>,
    k: (CacheType, Seq<char>),
    v: Result<(D, u64), Seq<char>>,
    other: (CacheType, Seq<char>),
)
    requires
        other != k,
    ensures
        stored(store(s, k, v), other) == stored(s, other),
{
    let f = record_is::<D>(k);
    let g = record_is::<D>(other);
    lemma_first_idx(s, f);
    lemma_first_idx(s, g);
    let i = first_idx(s, f);
    let b = store(s, k, v);
    assert forall|j: int| 0 <= j < b.len() implies (g(b[j]) <==> (j < s.len() && g(s[j]))) && (j < s.len() && g(s[j])
        ==> b[j] == s[j]) by {
        if i >= 0 {
            if j != i {
                assert(b[j] == s[j]);
            }
        } else if j < s.len() {
            assert(b[j] == s[j]);
        }
    }
    if any(s, g) {
        let j = first_idx(s, g);
        assert(is_first(b, g, j));
        lemma_is_first_unique(b, g, j);
    } else {
        assert forall|j: int| 0 <= j < b.len() implies !g(b[j]) by {
            if j < s.len() && g(s[j]) {
                assert(any(s, g));
            }
        }
        lemma_none_first(b, g);
    }
}

/// Once a key is discarded, nothing is stored under it (each key occurring once).
pub proof fn law_discard_then_read<D>(s: Seq<RecordModel<D>>, k: (CacheType, Seq<char>))
    requires
        unique_records(s),
    ensures
        stored(unstore(s, k), k) is None,
{
    let f = record_is::<D>(k);
    lemma_first_idx(s, f);
    let i = first_idx(s, f);
    let b = unstore(s, k);
    if i >= 0 {
        assert forall|j: int| 0 <= j < b.len() implies !f(b[j]) by {
            let j2 = if j < i { j } else { j + 1 };
            assert(b[j] == s[j2]);
            if j >= i {
                assert(s[j2].0 != s[i].0);
            }
        }
    } else {
        assert forall|j: int| 0 <= j < b.len() implies !f(b[j]) by {
            if f(s[j]) {
                assert(any(s, f));
            }
        }
    }
    lemma_none_first(b, f);
}

/// Data that was just stored is found again while it is fresh, and no longer once its
/// freshness has passed; an error that was stored is given back.
pub proof fn law_lookup_after_store<D>(
    s: Seq<RecordModel<D>>,
    k: (CacheType, Seq<char>),
    v: Result<(D, u64), Seq<char>>,
    now: u64,
)
    ensures
        v matches Ok((d, t)) ==> (t <= now && now - t < ttl_of(k.0) ==> looked_up(store(s, k, v), k, now) == Some(
            Ok::<D, Seq<char>>(d),
        )),
        v matches Ok((d, t)) ==> (t <= now && now - t >= ttl_of(k.0) ==> looked_up(store(s, k, v), k, now) is None),
        v matches Err(e) ==> looked_up(store(s, k, v), k, now) == Some(Err::<D, Seq<char>>(e)),
{
    law_store_then_read(s, k, v);
}

/// Data stored for a kind and context is read back, while fresh, for any context that
/// agrees with it.
pub proof fn law_context_read_after_warm<D>(
    s: Seq<RecordModel<D>>,
    ty: CacheType,
    a: CacheContext,
    b: CacheContext,
    d: D,
    t: u64,
    now: u64,
)
    requires
        same_context(a, b),
        t <= now,
        now - t < ttl_of(ty),
    ensures
        looked_up(store(s, context_key(ty, a), Ok::<(D, u64), Seq<char>>((d, t))), context_key(ty, b), now) == Some(
            Ok::<D, Seq<char>>(d),
        ),
{
    crate::cache::law_same_context_same_key(ty, a, b);
    law_lookup_after_store(s, context_key(ty, a), Ok::<(D, u64), Seq<char>>((d, t)), now);
}

/// After a kind and context are discarded, nothing is found for any context that agrees
/// with it.
pub proof fn law_context_gone_after_discard<D>(s: Seq<RecordModel<D>>, ty: CacheType, a: CacheContext, b: CacheContext, now: u64)
    requires
        unique_records(s),
        same_context(a, b),
    ensures
        looked_up(unstore(s, context_key(ty, a)), context_key(ty, b), now) is None,
{
    crate::cache::law_same_context_same_key(ty, a, b);
    law_discard_then_read(s, context_key(ty, a));
}

} // verus!
