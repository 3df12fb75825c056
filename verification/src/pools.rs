use vstd::prelude::*;
use crate::cache::{CacheContext, CacheType, context_hash_of, context_key, hex};
use crate::game::{GameLoader, GameVersion, GameVersionModel, LoaderModel};
use crate::lnk::ProjectLnk;
use crate::registry::{
    CacheRegistry, RecordModel, looked_up, store, ttl_of, unique_records, unstore, law_discard_then_read,
    law_lookup_after_store,
};
use crate::resource_type::ResourceType;

verus! {

/// The registry key of the loaders of a resource type.
pub open spec fn loaders_key(rt: ResourceType) -> (CacheType, Seq<char>) {
    (CacheType::GameLoaders, hex(context_hash_of(CacheType::GameLoaders, None, Some(rt), None, None) as nat))
}

/// The registry key of the project a slug stands for.
pub open spec fn slug_key(slug: Seq<char>) -> (CacheType, Seq<char>) {
    (CacheType::ProjectSlug, hex(context_hash_of(CacheType::ProjectSlug, Some(slug), None, None, None) as nat))
}

/// The registry key of a project's metadata.
pub open spec fn metadata_key(project: Seq<char>, rt: ResourceType) -> (CacheType, Seq<char>) {
    (CacheType::ProjectMetadata, hex(context_hash_of(CacheType::ProjectMetadata, Some(project), Some(rt), None, None) as nat))
}

/// The registry key of a project's versions for a game version and loader.
pub open spec fn versions_key(project: Seq<char>, rt: ResourceType, version: GameVersionModel, loader: LoaderModel) -> (
    CacheType,
    Seq<char>,
) {
    (
        CacheType::ProjectVersions,
        hex(context_hash_of(CacheType::ProjectVersions, Some(project), Some(rt), Some(version), Some(loader)) as nat),
    )
}

/// The contract's form of what a read of the registry gives.
pub open spec fn read_view<D>(r: Option<Result<&D, &String>>) -> Option<Result<D, Seq<char>>> {
    match r {
        Some(Ok(d)) => Some(Ok(*d)),
        Some(Err(e)) => Some(Err(e@)),
        None => None,
    }
}

/// The lists of game loaders known for each resource type, kept in the cache registry.
pub struct GameLoaderPool;

impl GameLoaderPool {
    /// The context the loaders of a resource type are cached under: the type alone.
    pub fn prepare_request(resource_type: ResourceType) -> (r: CacheContext)
        ensures
            r.id is None,
            r.resource_type == Some(resource_type),
            r.version is None,
            r.loader is None,
    {
        CacheContext { id: None, resource_type: Some(resource_type), version: None, loader: None }
    }

    /// The first loader with the given id, if any.
    pub fn find_loader_by_id(loaders: &Vec<GameLoader>, id: &str) -> (r: Option<GameLoader>)
        ensures
            match r {
                Some(l) => exists|k: int|
                    0 <= k < loaders@.len() && (#[trigger] loaders@[k])@.id == id@ && l@ == loaders@[k]@ && forall|j: int|
                        0 <= j < k ==> loaders@[j]@.id != id@,
                None => forall|k: int| 0 <= k < loaders@.len() ==> (#[trigger] loaders@[k])@.id != id@,
            },
    {
        let mut i: usize = 0;
        while i < loaders.len()
            invariant
                i <= loaders.len(),
                forall|j: int| 0 <= j < i ==> (#[trigger] loaders@[j])@.id != id@,
            decreases loaders.len() - i,
        {
            if crate::text::str_eq(loaders[i].id.as_str(), id) {
                let l = loaders[i].clone();
                assert(loaders@[i as int]@.id == id@);
                return Some(l);
            }
            i = i + 1;
        }
        None
    }

    /// Stores loaders fetched elsewhere for a resource type, stamped with `now`.
    pub fn warm_loader<D>(reg: &mut CacheRegistry<D>, resource_type: ResourceType, data: D, now: u64)
        requires
            old(reg).wf(),
        ensures
            final(reg).wf(),
            final(reg)@ == store(old(reg)@, loaders_key(resource_type), Ok::<(D, u64), Seq<char>>((data, now))),
    {
        let ctx = Self::prepare_request(resource_type);
        reg.warm(CacheType::GameLoaders, &ctx, data, now);
    }

    /// The loaders stored for a resource type at time `now`: the fresh data, the error of
    /// the last fetch, or nothing, when a fetch is due (see `looked_up`).
    pub fn get_loaders<D>(reg: &CacheRegistry<D>, resource_type: ResourceType, now: u64) -> (r: Option<Result<&D, &String>>)
        ensures
            read_view(r) == looked_up(reg@, loaders_key(resource_type), now),
    {
        let ctx = Self::prepare_request(resource_type);
        reg.lookup_context(CacheType::GameLoaders, &ctx, now)
    }
}

/// What the remote service tells of projects (slugs, metadata, versions), kept in the
/// cache registry.
pub struct RTProjectPool;

impl RTProjectPool {
    /// The context a project's metadata is cached under: its id and resource type.
    pub fn metadata_prepare_request(project: &ProjectLnk, resource_type: ResourceType) -> (r: CacheContext)
        ensures
            r.id matches Some(s) && s@ == project@,
            r.resource_type == Some(resource_type),
            r.version is None,
            r.loader is None,
    {
        CacheContext { id: project.to_context_id(), resource_type: Some(resource_type), version: None, loader: None }
    }

    /// The context a project's versions for a game version and loader are cached under.
    pub fn versions_prepare_request(
        project: &ProjectLnk,
        resource_type: ResourceType,
        version: &GameVersion,
        loader: &GameLoader,
    ) -> (r: CacheContext)
        ensures
            r.id matches Some(s) && s@ == project@,
            r.resource_type == Some(resource_type),
            r.version matches Some(v) && v@ == version@,
            r.loader matches Some(l) && l@ == loader@,
    {
        CacheContext {
            id: project.to_context_id(),
            resource_type: Some(resource_type),
            version: Some(version.clone()),
            loader: Some(loader.clone()),
        }
    }

    /// The context the project a slug stands for is cached under: the slug alone.
    pub fn slug_context(slug: String) -> (r: CacheContext)
        ensures
            r.id matches Some(s) && s@ == slug@,
            r.resource_type is None,
            r.version is None,
            r.loader is None,
    {
        CacheContext { id: Some(slug), resource_type: None, version: None, loader: None }
    }

    /// Stores, for a slug, the project it stands for (`data`), stamped with `now`.
    pub fn warm_slug<D>(reg: &mut CacheRegistry<D>, slug: String, data: D, now: u64)
        requires
            old(reg).wf(),
        ensures
            final(reg).wf(),
            final(reg)@ == store(old(reg)@, slug_key(slug@), Ok::<(D, u64), Seq<char>>((data, now))),
    {
        let ctx = Self::slug_context(slug);
        reg.warm(CacheType::ProjectSlug, &ctx, data, now);
    }

    /// Stores a project's metadata fetched elsewhere, stamped with `now`.
    pub fn warm_metadata<D>(reg: &mut CacheRegistry<D>, project: &ProjectLnk, resource_type: ResourceType, data: D, now: u64)
        requires
            old(reg).wf(),
        ensures
            final(reg).wf(),
            final(reg)@ == store(old(reg)@, metadata_key(project@, resource_type), Ok::<(D, u64), Seq<char>>((data, now))),
    {
        let ctx = Self::metadata_prepare_request(project, resource_type);
        reg.warm(CacheType::ProjectMetadata, &ctx, data, now);
    }

    /// Forgets a project's metadata, so that it is fetched again.
    pub fn clear_metadata<D>(reg: &mut CacheRegistry<D>, project: &ProjectLnk, resource_type: ResourceType)
        requires
            old(reg).wf(),
        ensures
            final(reg).wf(),
            final(reg)@ == unstore(old(reg)@, metadata_key(project@, resource_type)),
    {
        let ctx = Self::metadata_prepare_request(project, resource_type);
        reg.discard_context(CacheType::ProjectMetadata, &ctx);
    }

    /// The project stored for a slug at time `now` (see `looked_up`).
    pub fn get_project_by_slug<'a, D>(reg: &'a CacheRegistry<D>, slug: &str, now: u64) -> (r: Option<Result<&'a D, &'a String>>)
        ensures
            read_view(r) == looked_up(reg@, slug_key(slug@), now),
    {
        let ctx = Self::slug_context(crate::text::owned(slug));
        reg.lookup_context(CacheType::ProjectSlug, &ctx, now)
    }

    /// A project's metadata stored at time `now` (see `looked_up`).
    pub fn get_metadata<'a, D>(
        reg: &'a CacheRegistry<D>,
        project: &ProjectLnk,
        resource_type: ResourceType,
        now: u64,
    ) -> (r: Option<Result<&'a D, &'a String>>)
        ensures
            read_view(r) == looked_up(reg@, metadata_key(project@, resource_type), now),
    {
        let ctx = Self::metadata_prepare_request(project, resource_type);
        reg.lookup_context(CacheType::ProjectMetadata, &ctx, now)
    }

    /// A project's versions for a game version and loader stored at time `now` (see
    /// `looked_up`).
    pub fn get_versions<'a, D>(
        reg: &'a CacheRegistry<D>,
        project: &ProjectLnk,
        resource_type: ResourceType,
        version: &GameVersion,
        loader: &GameLoader,
        now: u64,
    ) -> (r: Option<Result<&'a D, &'a String>>)
        ensures
            read_view(r) == looked_up(reg@, versions_key(project@, resource_type, version@, loader@), now),
    {
        let ctx = Self::versions_prepare_request(project, resource_type, version, loader);
        reg.lookup_context(CacheType::ProjectVersions, &ctx, now)
    }
}

/// Loaders stored for a resource type are read back for that type while fresh.
pub proof fn law_warmed_loaders_read_back<D>(s: Seq<RecordModel<D>>, rt: ResourceType, d: D, t: u64, now: u64)
    requires
        t <= now,
        now - t < ttl_of(CacheType::GameLoaders),
    ensures
        looked_up(store(s, loaders_key(rt), Ok::<(D, u64), Seq<char>>((d, t))), loaders_key(rt), now) == Some(
            Ok::<D, Seq<char>>(d),
        ),
{
    law_lookup_after_store(s, loaders_key(rt), Ok::<(D, u64), Seq<char>>((d, t)), now);
}

/// The project stored for a slug is read back for that slug while fresh.
pub proof fn law_warmed_slug_read_back<D>(s: Seq<RecordModel<D>>, slug: Seq<char>, d: D, t: u64, now: u64)
    requires
        t <= now,
        now - t < ttl_of(CacheType::ProjectSlug),
    ensures
        looked_up(store(s, slug_key(slug), Ok::<(D, u64), Seq<char>>((d, t))), slug_key(slug), now) == Some(
            Ok::<D, Seq<char>>(d),
        ),
{
    law_lookup_after_store(s, slug_key(slug), Ok::<(D, u64), Seq<char>>((d, t)), now);
}

/// A project's metadata stored is read back while fresh; once cleared, nothing is found
/// (so a fetch is due).
pub proof fn law_warmed_metadata_read_back<D>(
    s: Seq<RecordModel<D>>,
    project: Seq<char>,
    rt: ResourceType,
    d: D,
    t: u64,
    now: u64,
)
    requires
        t <= now,
        now - t < ttl_of(CacheType::ProjectMetadata),
    ensures
        looked_up(store(s, metadata_key(project, rt), Ok::<(D, u64), Seq<char>>((d, t))), metadata_key(project, rt), now)
            == Some(Ok::<D, Seq<char>>(d)),
{
    law_lookup_after_store(s, metadata_key(project, rt), Ok::<(D, u64), Seq<char>>((d, t)), now);
}

/// After a project's metadata is cleared, nothing is found for it (so a fetch is due).
pub proof fn law_cleared_metadata_gone<D>(s: Seq<RecordModel<D>>, project: Seq<char>, rt: ResourceType, now: u64)
    requires
        unique_records(s),
    ensures
        looked_up(unstore(s, metadata_key(project, rt)), metadata_key(project, rt), now) is None,
{
    law_discard_then_read(s, metadata_key(project, rt));
}

} // verus!
