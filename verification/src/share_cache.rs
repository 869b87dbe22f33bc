//! Signed requests that are kept for a while.

use moka::sync::Cache;

use vstd::prelude::*;

verus! {

/// What a request is for: a path, and what is done with it by its number.
pub type PresignKey = (String, u32);

/// A signed request: its method, its address and its headers.
pub type PresignedRequest = (String, String, Vec<(String, String)>);

/// A map that forgets what it was given, in time.
#[verifier::external_type_specification]
#[verifier::external_body]
#[verifier::reject_recursive_types(K)]
#[verifier::reject_recursive_types(V)]
#[verifier::reject_recursive_types(S)]
pub struct ExCache<K, V, S>(moka::sync::Cache<K, V, S>);

pub struct SignedView {
    pub method: Seq<char>,
    pub uri: Seq<char>,
    pub headers: Seq<(Seq<char>, Seq<char>)>,
}

pub open spec fn signed_view(r: PresignedRequest) -> SignedView {
    SignedView {
        method: r.0@,
        uri: r.1@,
        headers: r.2@.map_values(|h: (String, String)| (h.0@, h.1@)),
    }
}

pub open spec fn nothing_given() -> Map<(Seq<char>, u32), SignedView> {
    Map::empty()
}

/// What a cache was given last for each request.
pub uninterp spec fn given(cache: Cache<PresignKey, PresignedRequest>) -> Map<(Seq<char>, u32), SignedView>;

/// How long a cache keeps what it was given, in seconds.
pub uninterp spec fn lifetime(cache: Cache<PresignKey, PresignedRequest>) -> u64;

/// Makes a cache with `moka::sync::CacheBuilder::time_to_live` and `build`: it was given nothing,
/// and keeps what it is given for that many seconds. `build` panics beyond a thousand years.
#[verifier::external_body]
fn new_cache(seconds: u64) -> (r: Cache<PresignKey, PresignedRequest>)
    requires
        seconds <= 1000 * 365 * 24 * 3600,
    ensures
        given(r) == nothing_given(),
        lifetime(r) == seconds,
{
    Cache::builder().time_to_live(std::time::Duration::from_secs(seconds)).build()
}

/// Asks a cache with `moka::sync::Cache::get`: it gives what it was given last for the request,
/// or nothing where it was given nothing. That it gives nothing once the time is over is not
/// stated, as the result rests on the clock.
#[verifier::external_body]
fn cache_get(cache: &Cache<PresignKey, PresignedRequest>, key: &PresignKey) -> (r: Option<PresignedRequest>)
    ensures
        r matches Some(signed) ==> given(*cache).contains_key((key.0@, key.1)) && signed_view(signed) == given(*cache)[(
            key.0@,
            key.1,
        )],
{
    cache.get(key)
}

/// Gives a cache a signed request with `moka::sync::Cache::insert`: it takes the place of the one
/// that the cache had for the request.
#[verifier::external_body]
fn cache_insert(cache: &mut Cache<PresignKey, PresignedRequest>, key: PresignKey, signed: PresignedRequest)
    ensures
        given(*final(cache)) == given(*old(cache)).insert((key.0@, key.1), signed_view(signed)),
        lifetime(*final(cache)) == lifetime(*old(cache)),
{
    cache.insert(key, signed);
}

pub struct SharePresignedCacheManager {
    cache: Cache<PresignKey, PresignedRequest>,
}

impl SharePresignedCacheManager {
    /// What was set last for each request.
    pub closed spec fn last_set(&self) -> Map<(Seq<char>, u32), SignedView> {
        given(self.cache)
    }

    pub closed spec fn keeps_for(&self) -> u64 {
        lifetime(self.cache)
    }

    /// A manager that has nothing yet.
    ///
    /// Signatures expire after an hour. They are dropped ten minutes before that.
    pub fn init() -> (r: SharePresignedCacheManager)
        ensures
            r.last_set() == nothing_given(),
            r.keeps_for() == 3000,
    {
        SharePresignedCacheManager { cache: new_cache(3000) }
    }

    /// Get a presign request.
    ///
    /// Whether a request that was set is still there rests on the clock and is left open; one
    /// that is there is the one that was set last, and there is none where none was set.
    pub fn get(&self, path: &str, op: u32) -> (r: Option<PresignedRequest>)
        ensures
            !self.last_set().contains_key((path@, op)) ==> r is None,
            r matches Some(signed) ==> self.last_set().contains_key((path@, op)) && signed_view(signed)
                == self.last_set()[(path@, op)],
    {
        let key: PresignKey = (path.to_owned(), op);
        cache_get(&self.cache, &key)
    }

    /// Set a presigned request.
    ///
    /// This operation will update the expiry time about this request.
    pub fn set(&mut self, path: &str, op: u32, signed: PresignedRequest)
        ensures
            final(self).last_set() == old(self).last_set().insert((path@, op), signed_view(signed)),
            final(self).keeps_for() == old(self).keeps_for(),
    {
        let key: PresignKey = (path.to_owned(), op);
        cache_insert(&mut self.cache, key, signed);
    }
}

/// What is set for a request is all that can be had for it, until something else is set, and
/// nothing changes for other requests.
pub proof fn last_set_wins(
    before: Map<(Seq<char>, u32), SignedView>,
    key: (Seq<char>, u32),
    signed: SignedView,
    other: (Seq<char>, u32),
)
    requires
        other != key,
    ensures
        before.insert(key, signed)[key] == signed,
        before.insert(key, signed).contains_key(other) == before.contains_key(other),
        before.contains_key(other) ==> before.insert(key, signed)[other] == before[other],
{
}

}
