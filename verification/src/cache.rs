use vstd::prelude::*;
use crate::game::{GameLoader, GameVersion, GameVersionModel, LoaderModel};
use crate::resource_type::ResourceType;
use std::hash::{Hash, Hasher};

verus! {

/// The kinds of data kept in the cache.
#[derive(Clone, Copy, Debug, PartialEq, Eq, Structural, Hash)]
pub enum CacheType {
    GameLoaders,
    GameVersions,
    Search,
    ProjectSlug,
    ProjectMetadata,
    ProjectVersions,
    ProjectIcons,
}

/// How a kind of cached data is kept: how long it stays fresh (in seconds), the
/// directory it is stored in, and how many fetches of it may run at once.
#[derive(Debug)]
pub struct CacheConfig {
    pub ttl_secs: u64,
    pub sub_dir: String,
    pub concurrency: usize,
}

pub open spec fn minutes(n: int) -> int {
    n * 60
}

pub open spec fn hours(n: int) -> int {
    n * 3600
}

pub open spec fn days(n: int) -> int {
    n * 86400
}

/// The freshness (in seconds), directory and parallelism of each kind of cached data.
pub open spec fn cache_settings(t: CacheType) -> (int, Seq<char>, int) {
    match t {
        CacheType::GameLoaders => (days(7), "loaders"@, 2),
        CacheType::GameVersions => (hours(2), "versions"@, 2),
        CacheType::Search => (minutes(5), "search"@, 2),
        CacheType::ProjectSlug => (hours(5), "prj_slug"@, 4),
        CacheType::ProjectMetadata => (hours(5), "prj_metadata"@, 4),
        CacheType::ProjectVersions => (hours(5), "prj_versions"@, 4),
        CacheType::ProjectIcons => (days(14), "prj_icons"@, 3),
    }
}

/// All kinds of cached data.
pub fn cache_types() -> (r: Vec<CacheType>)
    ensures
        r@ == seq![
            CacheType::GameLoaders,
            CacheType::GameVersions,
            CacheType::Search,
            CacheType::ProjectSlug,
            CacheType::ProjectMetadata,
            CacheType::ProjectVersions,
            CacheType::ProjectIcons,
        ],
{
    let mut r: Vec<CacheType> = Vec::new();
    r.push(CacheType::GameLoaders);
    r.push(CacheType::GameVersions);
    r.push(CacheType::Search);
    r.push(CacheType::ProjectSlug);
    r.push(CacheType::ProjectMetadata);
    r.push(CacheType::ProjectVersions);
    r.push(CacheType::ProjectIcons);
    assert(r@ =~= seq![
        CacheType::GameLoaders,
        CacheType::GameVersions,
        CacheType::Search,
        CacheType::ProjectSlug,
        CacheType::ProjectMetadata,
        CacheType::ProjectVersions,
        CacheType::ProjectIcons,
    ]);
    r
}

impl CacheType {
    /// How this kind of data is kept (see `cache_settings`).
    pub fn config(&self) -> (r: CacheConfig)
        ensures
            (r.ttl_secs as int, r.sub_dir@, r.concurrency as int) == cache_settings(*self),
    {
        match self {
            CacheType::GameLoaders => CacheConfig {
                ttl_secs: 7 * 86400,
                sub_dir: crate::text::owned("loaders"),
                concurrency: 2,
            },
            CacheType::GameVersions => CacheConfig {
                ttl_secs: 2 * 3600,
                sub_dir: crate::text::owned("versions"),
                concurrency: 2,
            },
            CacheType::Search => CacheConfig { ttl_secs: 5 * 60, sub_dir: crate::text::owned("search"), concurrency: 2 },
            CacheType::ProjectSlug => CacheConfig {
                ttl_secs: 5 * 3600,
                sub_dir: crate::text::owned("prj_slug"),
                concurrency: 4,
            },
            CacheType::ProjectMetadata => CacheConfig {
                ttl_secs: 5 * 3600,
                sub_dir: crate::text::owned("prj_metadata"),
                concurrency: 4,
            },
            CacheType::ProjectVersions => CacheConfig {
                ttl_secs: 5 * 3600,
                sub_dir: crate::text::owned("prj_versions"),
                concurrency: 4,
            },
            CacheType::ProjectIcons => CacheConfig {
                ttl_secs: 14 * 86400,
                sub_dir: crate::text::owned("prj_icons"),
                concurrency: 3,
            },
        }
    }
}

/// What a cached piece of data is about: any of an id, a resource type, a game version
/// and a loader.
#[derive(Debug, Hash)]
pub struct CacheContext {
    pub id: Option<String>,
    pub resource_type: Option<ResourceType>,
    pub version: Option<GameVersion>,
    pub loader: Option<GameLoader>,
}

/// The lowercase hexadecimal digit of a value below 16.
pub open spec fn hex_digit(d: nat) -> char {
    if d < 10 {
        ((d + 48) as u8) as char
    } else {
        ((d + 87) as u8) as char
    }
}

/// The lowercase hexadecimal digits of `n`, without leading zeros ("0" for zero).
pub open spec fn hex(n: nat) -> Seq<char>
    decreases n,
{
    if n < 16 {
        seq![hex_digit(n)]
    } else {
        hex(n / 16).push(hex_digit(n % 16))
    }
}

fn hex_char(d: u64) -> (c: char)
    requires
        d < 16,
    ensures
        c == hex_digit(d as nat),
{
    if d < 10 {
        ((d + 48) as u8) as char
    } else {
        ((d + 87) as u8) as char
    }
}

/// The lowercase hexadecimal digits of a number (as `format!("{:x}", n)` writes them).
pub fn hex_string(n: u64) -> (r: String)
    ensures
        r@ == hex(n as nat),
    decreases n,
{
    let mut digits: Vec<char> = Vec::new();
    if n < 16 {
        digits.push(hex_char(n));
        assert(digits@ =~= hex(n as nat));
        return crate::text::string_from_chars(&digits);
    }
    let head = hex_string(n / 16);
    let tail = hex_char(n % 16);
    digits.push(tail);
    let t = crate::text::string_from_chars(&digits);
    let r = crate::text::concat(head.as_str(), t.as_str());
    assert(r@ =~= hex(n as nat));
    r
}

/// What `std::hash::DefaultHasher` gives for a kind of data and the id, type, version
/// and loader of a context, fed in that order through their derived `Hash`. The standard
/// library leaves the algorithm unspecified, so no value is stated; but
/// `DefaultHasher::new()` starts from fixed keys (no per-process seed) and the derived
/// impls hash the fields' contents only, so within one build of the program the number
/// depends on these values alone.
pub uninterp spec fn context_hash_of(
    ty: CacheType,
    id: Option<Seq<char>>,
    rt: Option<ResourceType>,
    version: Option<GameVersionModel>,
    loader: Option<LoaderModel>,
) -> u64;

/// The views of a context's fields.
pub open spec fn opt_text(o: Option<String>) -> Option<Seq<char>> {
    match o {
        Some(s) => Some(s@),
        None => None,
    }
}

pub open spec fn opt_version(o: Option<GameVersion>) -> Option<GameVersionModel> {
    match o {
        Some(v) => Some(v@),
        None => None,
    }
}

pub open spec fn opt_loader(o: Option<GameLoader>) -> Option<LoaderModel> {
    match o {
        Some(l) => Some(l@),
        None => None,
    }
}

/// The hash of a kind of data and a context (see `context_hash_of`).
pub open spec fn hash_of(ty: CacheType, ctx: CacheContext) -> u64 {
    context_hash_of(ty, opt_text(ctx.id), ctx.resource_type, opt_version(ctx.version), opt_loader(ctx.loader))
}

/// The registry key of a kind of data and a context: the kind, and the hash in lowercase
/// hexadecimal.
pub open spec fn context_key(ty: CacheType, ctx: CacheContext) -> (CacheType, Seq<char>) {
    (ty, hex(hash_of(ty, ctx) as nat))
}

/// Calls `std::hash::DefaultHasher::new()`, feeds it the kind of data, then the id, type,
/// version and loader of the context (their derived `Hash`), and returns `finish()`: the
/// number named `context_hash_of` of these values.
#[verifier::external_body]
fn context_hash(ty: CacheType, ctx: &CacheContext) -> (r: u64)
    ensures
        r == context_hash_of(ty, opt_text(ctx.id), ctx.resource_type, opt_version(ctx.version), opt_loader(ctx.loader)),
{
    let mut hasher = std::hash::DefaultHasher::new();
    ty.hash(&mut hasher);
    ctx.id.hash(&mut hasher);
    ctx.resource_type.hash(&mut hasher);
    ctx.version.hash(&mut hasher);
    ctx.loader.hash(&mut hasher);
    hasher.finish()
}

impl CacheContext {
    /// The key the data of a kind for this context is stored under: the hash of both,
    /// in lowercase hexadecimal.
    pub fn hashed_key(&self, ty: CacheType) -> (r: String)
        ensures
            (ty, r@) == context_key(ty, *self),
    {
        let h = context_hash(ty, self);
        hex_string(h)
    }
}

/// A lowercase hexadecimal digit.
pub open spec fn is_hex_char(c: char) -> bool {
    (48 <= (c as int) && (c as int) <= 57) || (97 <= (c as int) && (c as int) <= 102)
}

spec fn pow16(k: nat) -> nat
    decreases k,
{
    if k == 0 {
        1
    } else {
        16 * pow16((k - 1) as nat)
    }
}

proof fn lemma_hex_shape(n: nat, k: nat)
    requires
        k >= 1,
        n < pow16(k),
    ensures
        1 <= hex(n).len() <= k,
        forall|i: int| 0 <= i < hex(n).len() ==> is_hex_char(#[trigger] hex(n)[i]),
    decreases n,
{
    if n < 16 {
        assert(is_hex_char(hex_digit(n)));
    } else {
        let q = pow16((k - 1) as nat);
        assert(k >= 2) by {
            if k == 1 {
                assert(pow16(0) == 1);
            }
        }
        assert(n / 16 < q) by (nonlinear_arith)
            requires
                n < 16 * q,
        ;
        lemma_hex_shape(n / 16, (k - 1) as nat);
        let h = hex(n / 16);
        assert(is_hex_char(hex_digit(n % 16)));
        assert forall|i: int| 0 <= i < hex(n).len() implies is_hex_char(#[trigger] hex(n)[i]) by {
            if i < h.len() {
                assert(hex(n)[i] == h[i]);
            }
        }
    }
}

/// Every key is one to sixteen lowercase hexadecimal digits.
pub proof fn law_key_shape(ty: CacheType, ctx: CacheContext)
    ensures
        1 <= context_key(ty, ctx).1.len() <= 16,
        forall|i: int| 0 <= i < context_key(ty, ctx).1.len() ==> is_hex_char(#[trigger] context_key(ty, ctx).1[i]),
{
    let n = hash_of(ty, ctx) as nat;
    assert(pow16(16) == 0x1_0000_0000_0000_0000) by {
        reveal_with_fuel(pow16, 17);
    }
    lemma_hex_shape(n, 16);
}

/// Two contexts that agree on all their fields.
pub open spec fn same_context(a: CacheContext, b: CacheContext) -> bool {
    &&& opt_text(a.id) == opt_text(b.id)
    &&& a.resource_type == b.resource_type
    &&& opt_version(a.version) == opt_version(b.version)
    &&& opt_loader(a.loader) == opt_loader(b.loader)
}

/// The same kind of data and contexts that agree give the same key.
pub proof fn law_same_context_same_key(ty: CacheType, a: CacheContext, b: CacheContext)
    requires
        same_context(a, b),
    ensures
        context_key(ty, a) == context_key(ty, b),
{
}

} // verus!
