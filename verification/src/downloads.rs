use vstd::prelude::*;
use crate::config::ConfigModel;
use crate::list_actions::{ListActions, effective_dir};
use crate::effect::{Effect, EffectModel};
use crate::lnk::{ListLnk, ProjectLnk};
use crate::project_actions::ProjectActions;
use crate::project::{DepModel, ProjectDependency, ProjectDependencyType, lnk_ids};
use crate::project_list::{ListModel, ProjectList, config_for, has_id, proj, type_configured};
use crate::project_status::{has_text, texts};
use crate::remote::{RTProjectDependency, RTProjectVersion};
use crate::resource_type::ResourceType;
use crate::state::{RDState, StateModel, find_list, list_of};
use crate::seqs::keep;

verus! {

/// A download to start: the file of a version of a project, into a directory.
#[derive(Debug)]
pub struct DownloadRequest {
    pub project: ProjectLnk,
    pub resource_type: ResourceType,
    pub version_id: String,
    pub artifact_id: String,
    pub artifact_hash: String,
    pub directory: String,
}

/// The abstract value of a download request.
pub struct DownloadModel {
    pub project: Seq<char>,
    pub resource_type: ResourceType,
    pub version_id: Seq<char>,
    pub artifact_id: Seq<char>,
    pub artifact_hash: Seq<char>,
    pub directory: Seq<char>,
}

impl View for DownloadRequest {
    type V = DownloadModel;

    open spec fn view(&self) -> DownloadModel {
        DownloadModel {
            project: self.project@,
            resource_type: self.resource_type,
            version_id: self.version_id@,
            artifact_id: self.artifact_id@,
            artifact_hash: self.artifact_hash@,
            directory: self.directory@,
        }
    }
}

pub open spec fn requests_view(v: Seq<DownloadRequest>) -> Seq<DownloadModel> {
    v.map_values(|r: DownloadRequest| r@)
}

/// The projects a version of the list requires (dependencies of the required kind).
pub open spec fn required_of(deps: Seq<DepModel>) -> Seq<Seq<char>> {
    keep(deps, |d: DepModel| d.dtype == ProjectDependencyType::Required).map_values(|d: DepModel| d.project)
}

/// The projects a version from the remote service requires.
pub open spec fn rt_required_of(deps: Seq<RTProjectDependency>) -> Seq<Seq<char>> {
    keep(deps, |d: RTProjectDependency| d.dependency_type == ProjectDependencyType::Required).map_values(
        |d: RTProjectDependency| d.project@,
    )
}

/// The directory the files of a type of the list go to.
pub open spec fn dir_for(c: ConfigModel, l: ListModel, rt: ResourceType) -> Seq<char> {
    effective_dir(c, l.id, rt, config_for(l.type_config, rt)->0.download_dir)
}

/// Every project of the list that has a version has settings for its type.
pub open spec fn versions_configured(l: ListModel) -> bool {
    forall|i: int|
        0 <= i < l.projects.len() && (#[trigger] l.projects[i]).version is Some ==> type_configured(
            l.type_config,
            l.projects[i].rtype,
        )
}

/// Downloading a project of the list with its required dependencies, the projects in
/// `t` being taken care of already: nothing for one of them, one without a version or
/// one the list does not hold (or past `depth` levels); otherwise its version's file,
/// unless a file with its hash was found, then its required dependencies in turn. Gives
/// the requests and the projects taken care of afterwards.
pub open spec fn plan_project(
    c: ConfigModel,
    l: ListModel,
    found: Seq<Seq<char>>,
    t: Seq<Seq<char>>,
    p: Seq<char>,
    depth: nat,
) -> (Seq<DownloadModel>, Seq<Seq<char>>)
    decreases depth, 0nat,
{
    if depth == 0 || t.contains(p) || !has_id(l.projects, p) || proj(l.projects, p).version is None {
        (Seq::empty(), t)
    } else {
        let q = proj(l.projects, p);
        let v = q.version->0;
        let own = if found.contains(v.artifact_hash) {
            Seq::empty()
        } else {
            seq![
                DownloadModel {
                    project: p,
                    resource_type: q.rtype,
                    version_id: v.version_id,
                    artifact_id: v.artifact_id,
                    artifact_hash: v.artifact_hash,
                    directory: dir_for(c, l, q.rtype),
                },
            ]
        };
        let rest = plan_deps(c, l, found, t.push(p), required_of(v.deps), (depth - 1) as nat);
        (own + rest.0, rest.1)
    }
}

/// `plan_project` for each of the projects in turn.
pub open spec fn plan_deps(
    c: ConfigModel,
    l: ListModel,
    found: Seq<Seq<char>>,
    t: Seq<Seq<char>>,
    ds: Seq<Seq<char>>,
    depth: nat,
) -> (Seq<DownloadModel>, Seq<Seq<char>>)
    decreases depth, ds.len(),
{
    if ds.len() == 0 {
        (Seq::empty(), t)
    } else {
        let a = plan_deps(c, l, found, t, ds.drop_last(), depth);
        let b = plan_project(c, l, found, a.1, ds.last(), depth);
        (a.0 + b.0, b.1)
    }
}

/// Downloading a given version of a project: nothing when it is taken care of already;
/// otherwise its file (when the list holds the project and no file with its hash was
/// found), then its required dependencies as the list has them.
pub open spec fn plan_version(
    c: ConfigModel,
    l: ListModel,
    found: Seq<Seq<char>>,
    t: Seq<Seq<char>>,
    p: Seq<char>,
    v: RTProjectVersion,
    rt: ResourceType,
    depth: nat,
) -> (Seq<DownloadModel>, Seq<Seq<char>>) {
    if t.contains(p) {
        (Seq::empty(), t)
    } else {
        let own = if found.contains(v.artifact_hash@) || !has_id(l.projects, p) {
            Seq::empty()
        } else {
            seq![
                DownloadModel {
                    project: p,
                    resource_type: rt,
                    version_id: v.version_id@,
                    artifact_id: v.artifact_id@,
                    artifact_hash: v.artifact_hash@,
                    directory: dir_for(c, l, rt),
                },
            ]
        };
        let rest = plan_deps(c, l, found, t.push(p), rt_required_of(v.depended_on@), depth);
        (own + rest.0, rest.1)
    }
}

/// The versions known for a project (its first entry), if any.
pub open spec fn versions_for(vs: Seq<(ProjectLnk, Vec<RTProjectVersion>)>, p: Seq<char>) -> Option<Seq<RTProjectVersion>>
    decreases vs.len(),
{
    if vs.len() == 0 {
        None
    } else if vs[0].0@ == p {
        Some(vs[0].1@)
    } else {
        versions_for(vs.drop_first(), p)
    }
}

/// The first version with the given hash, if any.
pub open spec fn with_hash(vs: Seq<RTProjectVersion>, h: Seq<char>) -> Option<RTProjectVersion>
    decreases vs.len(),
{
    if vs.len() == 0 {
        None
    } else if vs[0].artifact_hash@ == h {
        Some(vs[0])
    } else {
        with_hash(vs.drop_first(), h)
    }
}

/// The version chosen among the known ones: the one with the hash of the project's
/// current version when there is one, else the first (the newest).
pub open spec fn choose_version(vs: Seq<RTProjectVersion>, current: Option<Seq<char>>) -> Option<RTProjectVersion> {
    let first = if vs.len() > 0 {
        Some(vs[0])
    } else {
        None
    };
    match current {
        Some(h) => match with_hash(vs, h) {
            Some(v) => Some(v),
            None => first,
        },
        None => first,
    }
}

/// The type of a requested project: its own when the list holds it, else mods.
pub open spec fn requested_type(l: ListModel, p: Seq<char>) -> ResourceType {
    if has_id(l.projects, p) {
        proj(l.projects, p).rtype
    } else {
        ResourceType::Mod
    }
}

/// The hash of the file of a project's current version, if any.
pub open spec fn current_hash(l: ListModel, p: Seq<char>) -> Option<Seq<char>> {
    if has_id(l.projects, p) && proj(l.projects, p).version is Some {
        Some(proj(l.projects, p).version->0.artifact_hash)
    } else {
        None
    }
}

/// One requested project, with the version asked for or none: skipped when its type has
/// no settings; otherwise the version asked for, or the one chosen among the known
/// versions, is downloaded with its dependencies.
pub open spec fn plan_request(
    c: ConfigModel,
    l: ListModel,
    found: Seq<Seq<char>>,
    vs: Seq<(ProjectLnk, Vec<RTProjectVersion>)>,
    t: Seq<Seq<char>>,
    e: (ProjectLnk, Option<RTProjectVersion>),
    depth: nat,
) -> (Seq<DownloadModel>, Seq<Seq<char>>) {
    let p = e.0@;
    let rt = requested_type(l, p);
    if !type_configured(l.type_config, rt) {
        (Seq::empty(), t)
    } else {
        let chosen = match e.1 {
            Some(v) => Some(v),
            None => match versions_for(vs, p) {
                Some(list) => choose_version(list, current_hash(l, p)),
                None => None,
            },
        };
        match chosen {
            Some(v) => plan_version(c, l, found, t, p, v, rt, depth),
            None => (Seq::empty(), t),
        }
    }
}

/// `plan_request` for each requested project in turn, from nothing taken care of.
pub open spec fn plan_requests(
    c: ConfigModel,
    l: ListModel,
    found: Seq<Seq<char>>,
    vs: Seq<(ProjectLnk, Vec<RTProjectVersion>)>,
    rs: Seq<(ProjectLnk, Option<RTProjectVersion>)>,
    depth: nat,
) -> (Seq<DownloadModel>, Seq<Seq<char>>)
    decreases rs.len(),
{
    if rs.len() == 0 {
        (Seq::empty(), Seq::empty())
    } else {
        let a = plan_requests(c, l, found, vs, rs.drop_last(), depth);
        let b = plan_request(c, l, found, vs, a.1, rs.last(), depth);
        (a.0 + b.0, b.1)
    }
}

/// The directory the files of a type of the list go to (see `dir_for`).
fn directory_for(state: &RDState, list: &ProjectList, rt: ResourceType) -> (r: String)
    requires
        list.wf(),
        type_configured(list@.type_config, rt),
    ensures
        r@ == dir_for(state@.config, list@, rt),
{
    let base = match list.get_resource_type(&rt) {
        Some(c) => c.download_dir.clone(),
        None => String::new(),
    };
    ListActions::get_effective_download_dir(state, &list.get_lnk(), rt, base.as_str())
}

/// Downloads a project of the list with its required dependencies (see `plan_project`).
fn download_project(
    state: &RDState,
    list: &ProjectList,
    found: &Vec<String>,
    triggered: &mut Vec<ProjectLnk>,
    out: &mut Vec<DownloadRequest>,
    p: &ProjectLnk,
    depth: usize,
)
    requires
        list.wf(),
        versions_configured(list@),
    ensures
        ({
            let r = plan_project(state@.config, list@, texts(found@), lnk_ids(old(triggered)@), p@, depth as nat);
            &&& requests_view(final(out)@) == requests_view(old(out)@) + r.0
            &&& lnk_ids(final(triggered)@) == r.1
        }),
    decreases depth,
{
    let ghost c = state@.config;
    let ghost l = list@;
    let ghost fd = texts(found@);
    let ghost t0 = lnk_ids(triggered@);
    let ghost out0 = requests_view(out@);
    if depth == 0 {
        return ;
    }
    if crate::paste::has_lnk(triggered, p) {
        return ;
    }
    let q = match list.get_project(p) {
        Some(q) => q,
        None => return ,
    };
    let v = match q.get_version() {
        Some(v) => v,
        None => return ,
    };
    let rt = q.resource_type;
    proof {
        crate::project_list::lemma_index_of_present(l.projects, p@);
        let k = crate::project_list::index_of(l.projects, p@);
        assert(l.projects[k].version is Some);
    }
    let ghost qm = q@;
    let ghost vm = v@;
    triggered.push(p.clone());
    assert(lnk_ids(triggered@) =~= t0.push(p@));
    if !has_text(found, v.artifact_hash.as_str()) {
        let dir = directory_for(state, list, rt);
        out.push(
            DownloadRequest {
                project: p.clone(),
                resource_type: rt,
                version_id: v.version_id.clone(),
                artifact_id: v.artifact_id.clone(),
                artifact_hash: v.artifact_hash.clone(),
                directory: dir,
            },
        );
    }
    let ghost own = requests_view(out@).skip(out0.len() as int);
    assert(requests_view(out@) =~= out0 + own);
    let deps = v.get_depended_ons();
    let ghost dm = vm.deps;
    let ghost f = |d: DepModel| d.dtype == ProjectDependencyType::Required;
    let ghost t1 = t0.push(p@);
    let mut i: usize = 0;
    assert(keep(dm.take(0), f).map_values(|d: DepModel| d.project) =~= Seq::<Seq<char>>::empty());
    while i < deps.len()
        invariant
            i <= deps@.len(),
            deps@.map_values(|d: ProjectDependency| d@) == dm,
            list.wf(),
            versions_configured(list@),
            l == list@,
            c == state@.config,
            fd == texts(found@),
            depth >= 1,
            f == (|d: DepModel| d.dtype == ProjectDependencyType::Required),
            ({
                let r = plan_deps(c, l, fd, t1, keep(dm.take(i as int), f).map_values(|d: DepModel| d.project), (depth - 1) as nat);
                &&& requests_view(out@) == out0 + own + r.0
                &&& lnk_ids(triggered@) == r.1
            }),
        decreases deps@.len() - i,
    {
        proof {
            crate::seqs::lemma_keep_step(dm, f, i as int);
        }
        let d = &deps[i];
        assert(dm[i as int] == d@);
        if d.dependency_type == ProjectDependencyType::Required {
            let ghost prev = keep(dm.take(i as int), f).map_values(|x: DepModel| x.project);
            let ghost outb = requests_view(out@);
            let ghost tb = lnk_ids(triggered@);
            download_project(state, list, found, triggered, out, &d.project, depth - 1);
            proof {
                let nxt = keep(dm.take(i + 1), f).map_values(|x: DepModel| x.project);
                assert(keep(dm.take(i + 1), f) == keep(dm.take(i as int), f).push(dm[i as int]));
                assert(nxt =~= prev.push(d.project@));
                assert(nxt.drop_last() =~= prev);
                assert(nxt.last() == d.project@);
                let a = plan_deps(c, l, fd, t1, prev, (depth - 1) as nat);
                let b = plan_project(c, l, fd, a.1, d.project@, (depth - 1) as nat);
                assert(requests_view(out@) =~= out0 + own + (a.0 + b.0));
            }
        } else {
            proof {
                assert(keep(dm.take(i + 1), f) == keep(dm.take(i as int), f));
            }
        }
        i = i + 1;
    }
    proof {
        assert(dm.take(deps@.len() as int) =~= dm);
        assert(required_of(vm.deps) == keep(dm, f).map_values(|d: DepModel| d.project));
        assert(qm == proj(l.projects, p@));
    }
}

/// Downloads a given version of a project with its required dependencies (see
/// `plan_version`).
fn download_version(
    state: &RDState,
    list: &ProjectList,
    found: &Vec<String>,
    triggered: &mut Vec<ProjectLnk>,
    out: &mut Vec<DownloadRequest>,
    p: &ProjectLnk,
    v: &RTProjectVersion,
    rt: ResourceType,
    depth: usize,
)
    requires
        list.wf(),
        versions_configured(list@),
        type_configured(list@.type_config, rt),
    ensures
        ({
            let r = plan_version(state@.config, list@, texts(found@), lnk_ids(old(triggered)@), p@, *v, rt, depth as nat);
            &&& requests_view(final(out)@) == requests_view(old(out)@) + r.0
            &&& lnk_ids(final(triggered)@) == r.1
        }),
{
    let ghost c = state@.config;
    let ghost l = list@;
    let ghost fd = texts(found@);
    let ghost t0 = lnk_ids(triggered@);
    let ghost out0 = requests_view(out@);
    if crate::paste::has_lnk(triggered, p) {
        return ;
    }
    triggered.push(p.clone());
    assert(lnk_ids(triggered@) =~= t0.push(p@));
    if !has_text(found, v.artifact_hash.as_str()) && list.has_project(p) {
        let dir = directory_for(state, list, rt);
        out.push(
            DownloadRequest {
                project: p.clone(),
                resource_type: rt,
                version_id: v.version_id.clone(),
                artifact_id: v.artifact_id.clone(),
                artifact_hash: v.artifact_hash.clone(),
                directory: dir,
            },
        );
    }
    let ghost own = requests_view(out@).skip(out0.len() as int);
    assert(requests_view(out@) =~= out0 + own);
    let ghost dm = v.depended_on@;
    let ghost f = |d: RTProjectDependency| d.dependency_type == ProjectDependencyType::Required;
    let ghost t1 = t0.push(p@);
    let mut i: usize = 0;
    assert(keep(dm.take(0), f).map_values(|d: RTProjectDependency| d.project@) =~= Seq::<Seq<char>>::empty());
    while i < v.depended_on.len()
        invariant
            i <= dm.len(),
            dm == v.depended_on@,
            list.wf(),
            versions_configured(list@),
            l == list@,
            c == state@.config,
            fd == texts(found@),
            f == (|d: RTProjectDependency| d.dependency_type == ProjectDependencyType::Required),
            ({
                let r = plan_deps(c, l, fd, t1, keep(dm.take(i as int), f).map_values(|d: RTProjectDependency| d.project@), depth as nat);
                &&& requests_view(out@) == out0 + own + r.0
                &&& lnk_ids(triggered@) == r.1
            }),
        decreases dm.len() - i,
    {
        proof {
            crate::seqs::lemma_keep_step(dm, f, i as int);
        }
        let d = &v.depended_on[i];
        if d.dependency_type == ProjectDependencyType::Required {
            let ghost prev = keep(dm.take(i as int), f).map_values(|x: RTProjectDependency| x.project@);
            download_project(state, list, found, triggered, out, &d.project, depth);
            proof {
                let nxt = keep(dm.take(i + 1), f).map_values(|x: RTProjectDependency| x.project@);
                assert(keep(dm.take(i + 1), f) == keep(dm.take(i as int), f).push(dm[i as int]));
                assert(nxt =~= prev.push(d.project@));
                assert(nxt.drop_last() =~= prev);
                assert(nxt.last() == d.project@);
                let a = plan_deps(c, l, fd, t1, prev, depth as nat);
                let b = plan_project(c, l, fd, a.1, d.project@, depth as nat);
                assert(requests_view(out@) =~= out0 + own + (a.0 + b.0));
            }
        } else {
            proof {
                assert(keep(dm.take(i + 1), f) == keep(dm.take(i as int), f));
            }
        }
        i = i + 1;
    }
    proof {
        assert(dm.take(dm.len() as int) =~= dm);
    }
}

/// The versions known for a project (see `versions_for`).
fn find_versions<'a>(vs: &'a Vec<(ProjectLnk, Vec<RTProjectVersion>)>, p: &ProjectLnk) -> (r: Option<&'a Vec<RTProjectVersion>>)
    ensures
        match r {
            Some(v) => versions_for(vs@, p@) == Some(v@),
            None => versions_for(vs@, p@) is None,
        },
{
    let mut i: usize = 0;
    assert(vs@.skip(0) =~= vs@);
    while i < vs.len()
        invariant
            i <= vs@.len(),
            versions_for(vs@, p@) == versions_for(vs@.skip(i as int), p@),
        decreases vs@.len() - i,
    {
        assert(vs@.skip(i as int)[0] == vs@[i as int]);
        if vs[i].0 == *p {
            return Some(&vs[i].1);
        }
        assert(vs@.skip(i as int).drop_first() =~= vs@.skip(i + 1));
        i = i + 1;
    }
    assert(vs@.skip(i as int) =~= Seq::<(ProjectLnk, Vec<RTProjectVersion>)>::empty());
    None
}

/// The first version with the given hash (see `with_hash`).
fn find_with_hash<'a>(vs: &'a Vec<RTProjectVersion>, h: &str) -> (r: Option<&'a RTProjectVersion>)
    ensures
        match r {
            Some(v) => with_hash(vs@, h@) == Some(*v),
            None => with_hash(vs@, h@) is None,
        },
{
    let mut i: usize = 0;
    assert(vs@.skip(0) =~= vs@);
    while i < vs.len()
        invariant
            i <= vs@.len(),
            with_hash(vs@, h@) == with_hash(vs@.skip(i as int), h@),
        decreases vs@.len() - i,
    {
        assert(vs@.skip(i as int)[0] == vs@[i as int]);
        if crate::text::str_eq(vs[i].artifact_hash.as_str(), h) {
            return Some(&vs[i]);
        }
        assert(vs@.skip(i as int).drop_first() =~= vs@.skip(i + 1));
        i = i + 1;
    }
    assert(vs@.skip(i as int) =~= Seq::<RTProjectVersion>::empty());
    None
}

/// The files to download for the requested projects of a list, each with the version
/// asked for or else one of the versions known for it (see `plan_requests`): each
/// project is taken care of once, its required dependencies (as the list has them) in
/// turn, and no file is asked for whose hash is among `found_hashes`. `versions` pairs a
/// project with the versions the remote service lists for the list's game version and
/// loader, newest first.
pub fn plan_downloads(
    state: &RDState,
    list: &ProjectList,
    requested: &Vec<(ProjectLnk, Option<RTProjectVersion>)>,
    versions: &Vec<(ProjectLnk, Vec<RTProjectVersion>)>,
    found_hashes: &Vec<String>,
) -> (r: Vec<DownloadRequest>)
    requires
        list.wf(),
        versions_configured(list@),
    ensures
        requests_view(r@) == plan_requests(
            state@.config,
            list@,
            texts(found_hashes@),
            versions@,
            requested@,
            list@.projects.len(),
        ).0,
        forall|i: int, j: int| 0 <= i < j < r@.len() ==> (#[trigger] r@[i]).project@ != (#[trigger] r@[j]).project@,
        forall|i: int| 0 <= i < r@.len() ==> !texts(found_hashes@).contains((#[trigger] r@[i]).artifact_hash@),
        forall|i: int| 0 <= i < r@.len() ==> has_id(list@.projects, (#[trigger] r@[i]).project@),
{
    let ghost c = state@.config;
    let ghost l = list@;
    let ghost fd = texts(found_hashes@);
    let depth = list.projects.len();
    assert(depth == l.projects.len());
    let mut out: Vec<DownloadRequest> = Vec::new();
    let mut triggered: Vec<ProjectLnk> = Vec::new();
    let mut i: usize = 0;
    assert(requested@.take(0) =~= Seq::<(ProjectLnk, Option<RTProjectVersion>)>::empty());
    assert(requests_view(out@) =~= Seq::<DownloadModel>::empty());
    assert(lnk_ids(triggered@) =~= Seq::<Seq<char>>::empty());
    while i < requested.len()
        invariant
            i <= requested@.len(),
            list.wf(),
            versions_configured(list@),
            l == list@,
            c == state@.config,
            fd == texts(found_hashes@),
            depth == l.projects.len(),
            ({
                let r = plan_requests(c, l, fd, versions@, requested@.take(i as int), depth as nat);
                &&& requests_view(out@) == r.0
                &&& lnk_ids(triggered@) == r.1
            }),
        decreases requested@.len() - i,
    {
        let e = &requested[i];
        let p = &e.0;
        let ghost outb = requests_view(out@);
        proof {
            assert(requested@.take(i + 1).drop_last() =~= requested@.take(i as int));
            assert(requested@.take(i + 1).last() == *e);
        }
        let rt = match list.get_project(p) {
            Some(q) => q.resource_type,
            None => ResourceType::Mod,
        };
        assert(rt == requested_type(l, p@));
        let configured = match list.get_resource_type(&rt) {
            Some(_) => true,
            None => false,
        };
        if configured {
            let current: Option<&String> = match list.get_project(p) {
                Some(q) => match q.get_version() {
                    Some(v) => Some(&v.artifact_hash),
                    None => None,
                },
                None => None,
            };
            let ghost cur_view = match current {
                Some(h) => Some(h@),
                None => None::<Seq<char>>,
            };
            assert(cur_view == current_hash(l, p@));
            let chosen: Option<&RTProjectVersion> = match &e.1 {
                Some(v) => Some(v),
                None => match find_versions(versions, p) {
                    Some(vs) => {
                        let by_hash = match current {
                            Some(h) => find_with_hash(vs, h.as_str()),
                            None => None,
                        };
                        match by_hash {
                            Some(v) => Some(v),
                            None => if vs.len() > 0 {
                                Some(&vs[0])
                            } else {
                                None
                            },
                        }
                    },
                    None => None,
                },
            };
            match chosen {
                Some(v) => {
                    download_version(state, list, found_hashes, &mut triggered, &mut out, p, v, rt, depth);
                },
                None => {},
            }
        }
        i = i + 1;
    }
    assert(requested@.take(requested@.len() as int) =~= requested@);
    proof {
        law_downloads_once_and_missing(c, l, fd, versions@, requested@, depth as nat);
        let rv = requests_view(out@);
        assert forall|i: int| 0 <= i < out@.len() implies rv[i] == (#[trigger] out@[i])@ by {}
        assert forall|i: int, j: int| 0 <= i < j < out@.len() implies (#[trigger] out@[i]).project@ != (#[trigger] out@[j]).project@ by {
            assert(rv[i] == out@[i]@ && rv[j] == out@[j]@);
            assert(rv[i].project != rv[j].project);
        }
        assert forall|i: int| 0 <= i < out@.len() implies !fd.contains((#[trigger] out@[i]).artifact_hash@) by {
            assert(rv[i] == out@[i]@);
            assert(!fd.contains(rv[i].artifact_hash));
        }
        assert forall|i: int| 0 <= i < out@.len() implies has_id(l.projects, (#[trigger] out@[i]).project@) by {
            assert(rv[i] == out@[i]@);
            assert(has_id(l.projects, rv[i].project));
        }
    }
    out
}

/// `t2` is `t` with projects added after it, none of them twice nor already in `t`.
pub open spec fn grows_fresh(t: Seq<Seq<char>>, t2: Seq<Seq<char>>) -> bool {
    &&& t2.len() >= t.len()
    &&& forall|k: int| 0 <= k < t.len() ==> t2[k] == t[k]
    &&& forall|k1: int, k2: int| 0 <= k1 < k2 < t2.len() && k2 >= t.len() ==> t2[k1] != t2[k2]
}

/// `x` is among the projects `t2` holds after `t`'s.
pub open spec fn added_in(t: Seq<Seq<char>>, t2: Seq<Seq<char>>, x: Seq<char>) -> bool {
    exists|k: int| t.len() <= k < t2.len() && t2[k] == x
}

/// Each request is for a project of the list added to `t` on the way to `t2` (one each,
/// in order), and for a file whose hash was not found.
pub open spec fn requests_ok(r: Seq<DownloadModel>, t: Seq<Seq<char>>, t2: Seq<Seq<char>>, found: Seq<Seq<char>>, l: ListModel) -> bool {
    &&& forall|i: int| 0 <= i < r.len() ==> !found.contains(#[trigger] r[i].artifact_hash)
    &&& forall|i: int| 0 <= i < r.len() ==> has_id(l.projects, #[trigger] r[i].project)
    &&& forall|i: int| 0 <= i < r.len() ==> added_in(t, t2, (#[trigger] r[i]).project)
    &&& forall|i: int, j: int| 0 <= i < j < r.len() ==> (#[trigger] r[i]).project != (#[trigger] r[j]).project
}

proof fn lemma_requests_concat(
    a: Seq<DownloadModel>,
    b: Seq<DownloadModel>,
    t: Seq<Seq<char>>,
    t1: Seq<Seq<char>>,
    t2: Seq<Seq<char>>,
    found: Seq<Seq<char>>,
    l: ListModel,
)
    requires
        grows_fresh(t, t1),
        grows_fresh(t1, t2),
        requests_ok(a, t, t1, found, l),
        requests_ok(b, t1, t2, found, l),
    ensures
        grows_fresh(t, t2),
        requests_ok(a + b, t, t2, found, l),
{
    let r = a + b;
    assert forall|k: int| 0 <= k < t.len() implies t2[k] == t[k] by {
        assert(t2[k] == t1[k]);
    }
    assert forall|k1: int, k2: int| 0 <= k1 < k2 < t2.len() && k2 >= t.len() implies t2[k1] != t2[k2] by {
        if k2 < t1.len() {
            assert(t2[k1] == t1[k1] && t2[k2] == t1[k2]);
        }
    }
    assert forall|i: int| 0 <= i < r.len() implies added_in(t, t2, (#[trigger] r[i]).project) by {
        if i < a.len() {
            assert(r[i] == a[i]);
            assert(added_in(t, t1, a[i].project));
            let k = choose|k: int| t.len() <= k < t1.len() && t1[k] == a[i].project;
            assert(t2[k] == t1[k]);
            assert(t.len() <= k < t2.len() && t2[k] == r[i].project);
        } else {
            assert(r[i] == b[i - a.len()]);
            assert(added_in(t1, t2, b[i - a.len()].project));
            let k = choose|k: int| t1.len() <= k < t2.len() && t2[k] == b[i - a.len()].project;
            assert(t.len() <= k < t2.len() && t2[k] == r[i].project);
        }
    }
    assert forall|i: int, j: int| 0 <= i < j < r.len() implies (#[trigger] r[i]).project != (#[trigger] r[j]).project by {
        if j < a.len() {
            assert(r[i] == a[i] && r[j] == a[j]);
        } else if i >= a.len() {
            assert(r[i] == b[i - a.len()] && r[j] == b[j - a.len()]);
        } else {
            assert(r[i] == a[i] && r[j] == b[j - a.len()]);
            assert(added_in(t, t1, a[i].project));
            assert(added_in(t1, t2, b[j - a.len()].project));
            let ki = choose|k: int| t.len() <= k < t1.len() && t1[k] == a[i].project;
            let kj = choose|k: int| t1.len() <= k < t2.len() && t2[k] == b[j - a.len()].project;
            assert(t2[ki] == t1[ki]);
        }
    }
    assert forall|i: int| 0 <= i < r.len() implies !found.contains(#[trigger] r[i].artifact_hash) && has_id(l.projects, r[i].project) by {
        if i < a.len() {
            assert(r[i] == a[i]);
        } else {
            assert(r[i] == b[i - a.len()]);
        }
    }
}

/// A request for `p`, added first after `t`, followed by requests for later projects.
proof fn lemma_requests_own(
    own: Seq<DownloadModel>,
    rest: Seq<DownloadModel>,
    t: Seq<Seq<char>>,
    p: Seq<char>,
    t2: Seq<Seq<char>>,
    found: Seq<Seq<char>>,
    l: ListModel,
)
    requires
        !t.contains(p),
        grows_fresh(t.push(p), t2),
        requests_ok(rest, t.push(p), t2, found, l),
        own.len() <= 1,
        own.len() == 1 ==> own[0].project == p && !found.contains(own[0].artifact_hash) && has_id(l.projects, p),
    ensures
        grows_fresh(t, t2),
        requests_ok(own + rest, t, t2, found, l),
{
    let t1 = t.push(p);
    assert(grows_fresh(t, t1)) by {
        assert forall|k1: int, k2: int| 0 <= k1 < k2 < t1.len() && k2 >= t.len() implies t1[k1] != t1[k2] by {
            assert(t1[k2] == p);
            assert(t1[k1] == t[k1]);
        }
    }
    assert(requests_ok(own, t, t1, found, l)) by {
        if own.len() == 1 {
            assert(t1[t.len() as int] == p);
            assert(added_in(t, t1, own[0].project));
        }
    }
    lemma_requests_concat(own, rest, t, t1, t2, found, l);
}

proof fn lemma_plan_project(c: ConfigModel, l: ListModel, found: Seq<Seq<char>>, t: Seq<Seq<char>>, p: Seq<char>, depth: nat)
    ensures
        grows_fresh(t, plan_project(c, l, found, t, p, depth).1),
        requests_ok(plan_project(c, l, found, t, p, depth).0, t, plan_project(c, l, found, t, p, depth).1, found, l),
    decreases depth, 0nat,
{
    if depth == 0 || t.contains(p) || !has_id(l.projects, p) || proj(l.projects, p).version is None {
    } else {
        let q = proj(l.projects, p);
        let v = q.version->0;
        let ds = required_of(v.deps);
        lemma_plan_deps(c, l, found, t.push(p), ds, (depth - 1) as nat);
        let rest = plan_deps(c, l, found, t.push(p), ds, (depth - 1) as nat);
        let own = if found.contains(v.artifact_hash) {
            Seq::<DownloadModel>::empty()
        } else {
            seq![
                DownloadModel {
                    project: p,
                    resource_type: q.rtype,
                    version_id: v.version_id,
                    artifact_id: v.artifact_id,
                    artifact_hash: v.artifact_hash,
                    directory: dir_for(c, l, q.rtype),
                },
            ]
        };
        lemma_requests_own(own, rest.0, t, p, rest.1, found, l);
    }
}

proof fn lemma_plan_deps(c: ConfigModel, l: ListModel, found: Seq<Seq<char>>, t: Seq<Seq<char>>, ds: Seq<Seq<char>>, depth: nat)
    ensures
        grows_fresh(t, plan_deps(c, l, found, t, ds, depth).1),
        requests_ok(plan_deps(c, l, found, t, ds, depth).0, t, plan_deps(c, l, found, t, ds, depth).1, found, l),
    decreases depth, ds.len(),
{
    if ds.len() == 0 {
    } else {
        let a = plan_deps(c, l, found, t, ds.drop_last(), depth);
        lemma_plan_deps(c, l, found, t, ds.drop_last(), depth);
        lemma_plan_project(c, l, found, a.1, ds.last(), depth);
        let b = plan_project(c, l, found, a.1, ds.last(), depth);
        lemma_requests_concat(a.0, b.0, t, a.1, b.1, found, l);
    }
}

proof fn lemma_plan_requests(
    c: ConfigModel,
    l: ListModel,
    found: Seq<Seq<char>>,
    vs: Seq<(ProjectLnk, Vec<RTProjectVersion>)>,
    rs: Seq<(ProjectLnk, Option<RTProjectVersion>)>,
    depth: nat,
)
    ensures
        grows_fresh(Seq::empty(), plan_requests(c, l, found, vs, rs, depth).1),
        requests_ok(plan_requests(c, l, found, vs, rs, depth).0, Seq::empty(), plan_requests(c, l, found, vs, rs, depth).1, found, l),
    decreases rs.len(),
{
    if rs.len() > 0 {
        let a = plan_requests(c, l, found, vs, rs.drop_last(), depth);
        lemma_plan_requests(c, l, found, vs, rs.drop_last(), depth);
        let e = rs.last();
        let p = e.0@;
        let rt = requested_type(l, p);
        let b = plan_request(c, l, found, vs, a.1, e, depth);
        if type_configured(l.type_config, rt) {
            let chosen = match e.1 {
                Some(v) => Some(v),
                None => match versions_for(vs, p) {
                    Some(list) => choose_version(list, current_hash(l, p)),
                    None => None,
                },
            };
            if chosen is Some {
                let v = chosen->0;
                if !a.1.contains(p) {
                    let ds = rt_required_of(v.depended_on@);
                    lemma_plan_deps(c, l, found, a.1.push(p), ds, depth);
                    let rest = plan_deps(c, l, found, a.1.push(p), ds, depth);
                    let own = if found.contains(v.artifact_hash@) || !has_id(l.projects, p) {
                        Seq::<DownloadModel>::empty()
                    } else {
                        seq![
                            DownloadModel {
                                project: p,
                                resource_type: rt,
                                version_id: v.version_id@,
                                artifact_id: v.artifact_id@,
                                artifact_hash: v.artifact_hash@,
                                directory: dir_for(c, l, rt),
                            },
                        ]
                    };
                    lemma_requests_own(own, rest.0, a.1, p, rest.1, found, l);
                }
            }
        }
        assert(grows_fresh(a.1, b.1) && requests_ok(b.0, a.1, b.1, found, l));
        lemma_requests_concat(a.0, b.0, Seq::empty(), a.1, b.1, found, l);
    }
}

/// The request for the file of the current version of a project of the list.
pub open spec fn held_request(c: ConfigModel, l: ListModel, x: Seq<char>) -> DownloadModel {
    let q = proj(l.projects, x);
    DownloadModel {
        project: x,
        resource_type: q.rtype,
        version_id: q.version->0.version_id,
        artifact_id: q.version->0.artifact_id,
        artifact_hash: q.version->0.artifact_hash,
        directory: dir_for(c, l, q.rtype),
    }
}

/// Project `x` of the list has a version whose file was not found.
pub open spec fn missing_file(l: ListModel, found: Seq<Seq<char>>, x: Seq<char>) -> bool {
    &&& has_id(l.projects, x)
    &&& proj(l.projects, x).version is Some
    &&& !found.contains(proj(l.projects, x).version->0.artifact_hash)
}

/// Every project added after `t` on the way to `t2` whose file is missing has the request
/// for the file of its current version among `r`.
spec fn requests_complete(c: ConfigModel, r: Seq<DownloadModel>, t: Seq<Seq<char>>, t2: Seq<Seq<char>>, found: Seq<Seq<char>>, l: ListModel) -> bool {
    forall|k: int|
        t.len() <= k < t2.len() && missing_file(l, found, #[trigger] t2[k]) ==> r.contains(held_request(c, l, t2[k]))
}

proof fn lemma_complete_concat(
    c: ConfigModel,
    a: Seq<DownloadModel>,
    b: Seq<DownloadModel>,
    t: Seq<Seq<char>>,
    t1: Seq<Seq<char>>,
    t2: Seq<Seq<char>>,
    found: Seq<Seq<char>>,
    l: ListModel,
)
    requires
        grows_fresh(t, t1),
        grows_fresh(t1, t2),
        requests_complete(c, a, t, t1, found, l),
        requests_complete(c, b, t1, t2, found, l),
    ensures
        requests_complete(c, a + b, t, t2, found, l),
{
    assert forall|k: int| t.len() <= k < t2.len() && missing_file(l, found, #[trigger] t2[k]) implies (a + b).contains(
        held_request(c, l, t2[k]),
    ) by {
        let h = held_request(c, l, t2[k]);
        if k < t1.len() {
            assert(t2[k] == t1[k]);
            let i = choose|i: int| 0 <= i < a.len() && a[i] == h;
            assert((a + b)[i] == h);
        } else {
            let i = choose|i: int| 0 <= i < b.len() && b[i] == h;
            assert((a + b)[a.len() + i] == h);
        }
    }
}

/// Taking care of a project (with levels left) adds it, unless it is taken care of
/// already or is not a project of the list with a version; and each project added on the
/// way whose file is missing gets its request.
proof fn lemma_plan_project_complete(c: ConfigModel, l: ListModel, found: Seq<Seq<char>>, t: Seq<Seq<char>>, p: Seq<char>, depth: nat)
    ensures
        requests_complete(c, plan_project(c, l, found, t, p, depth).0, t, plan_project(c, l, found, t, p, depth).1, found, l),
        depth > 0 && has_id(l.projects, p) && proj(l.projects, p).version is Some ==> plan_project(
            c,
            l,
            found,
            t,
            p,
            depth,
        ).1.contains(p),
    decreases depth, 0nat,
{
    let r = plan_project(c, l, found, t, p, depth);
    lemma_plan_project(c, l, found, t, p, depth);
    if depth == 0 || t.contains(p) || !has_id(l.projects, p) || proj(l.projects, p).version is None {
        if t.contains(p) {
            let k = choose|k: int| 0 <= k < t.len() && t[k] == p;
            assert(r.1[k] == t[k]);
        }
    } else {
        let q = proj(l.projects, p);
        let v = q.version->0;
        let t1 = t.push(p);
        let ds = required_of(v.deps);
        lemma_plan_deps(c, l, found, t1, ds, (depth - 1) as nat);
        lemma_plan_deps_complete(c, l, found, t1, ds, (depth - 1) as nat);
        let rest = plan_deps(c, l, found, t1, ds, (depth - 1) as nat);
        let own = if found.contains(v.artifact_hash) {
            Seq::<DownloadModel>::empty()
        } else {
            seq![held_request(c, l, p)]
        };
        assert(r.0 == own + rest.0);
        assert(rest.1[t.len() as int] == t1[t.len() as int]);
        assert forall|k: int| t.len() <= k < r.1.len() && missing_file(l, found, #[trigger] r.1[k]) implies r.0.contains(
            held_request(c, l, r.1[k]),
        ) by {
            let h = held_request(c, l, r.1[k]);
            if k == t.len() {
                assert(r.0[0] == h);
            } else {
                let i = choose|i: int| 0 <= i < rest.0.len() && rest.0[i] == h;
                assert(r.0[own.len() + i] == h);
            }
        }
    }
}

/// Taking care of projects in turn (with levels left) adds each of them that is a
/// project of the list with a version, and each project added on the way whose file is
/// missing gets its request.
proof fn lemma_plan_deps_complete(c: ConfigModel, l: ListModel, found: Seq<Seq<char>>, t: Seq<Seq<char>>, ds: Seq<Seq<char>>, depth: nat)
    ensures
        requests_complete(c, plan_deps(c, l, found, t, ds, depth).0, t, plan_deps(c, l, found, t, ds, depth).1, found, l),
        forall|j: int|
            0 <= j < ds.len() && depth > 0 && has_id(l.projects, #[trigger] ds[j]) && proj(l.projects, ds[j]).version is Some
                ==> plan_deps(c, l, found, t, ds, depth).1.contains(ds[j]),
    decreases depth, ds.len(),
{
    if ds.len() > 0 {
        let pre = ds.drop_last();
        let a = plan_deps(c, l, found, t, pre, depth);
        lemma_plan_deps(c, l, found, t, pre, depth);
        lemma_plan_deps_complete(c, l, found, t, pre, depth);
        lemma_plan_project(c, l, found, a.1, ds.last(), depth);
        lemma_plan_project_complete(c, l, found, a.1, ds.last(), depth);
        let b = plan_project(c, l, found, a.1, ds.last(), depth);
        lemma_complete_concat(c, a.0, b.0, t, a.1, b.1, found, l);
        assert forall|j: int|
            0 <= j < ds.len() && depth > 0 && has_id(l.projects, #[trigger] ds[j]) && proj(l.projects, ds[j]).version is Some
                implies b.1.contains(ds[j]) by {
            if j < pre.len() {
                assert(pre[j] == ds[j]);
                let k = choose|k: int| 0 <= k < a.1.len() && a.1[k] == ds[j];
                assert(b.1[k] == a.1[k]);
            }
        }
    }
}

/// The downloads planned for requested projects are for projects of the list, at most
/// one per project, and never for a file whose hash was found.
pub proof fn law_downloads_once_and_missing(
    c: ConfigModel,
    l: ListModel,
    found: Seq<Seq<char>>,
    vs: Seq<(ProjectLnk, Vec<RTProjectVersion>)>,
    rs: Seq<(ProjectLnk, Option<RTProjectVersion>)>,
    depth: nat,
)
    ensures
        ({
            let r = plan_requests(c, l, found, vs, rs, depth).0;
            &&& forall|i: int, j: int| 0 <= i < j < r.len() ==> (#[trigger] r[i]).project != (#[trigger] r[j]).project
            &&& forall|i: int| 0 <= i < r.len() ==> !found.contains(#[trigger] r[i].artifact_hash)
            &&& forall|i: int| 0 <= i < r.len() ==> has_id(l.projects, #[trigger] r[i].project)
        }),
{
    lemma_plan_requests(c, l, found, vs, rs, depth);
}

/// The first version with a hash is found whenever some version has it, and only then.
proof fn lemma_with_hash(vs: Seq<RTProjectVersion>, h: Seq<char>)
    ensures
        (exists|j: int| 0 <= j < vs.len() && (#[trigger] vs[j]).artifact_hash@ == h) ==> (with_hash(vs, h) is Some
            && with_hash(vs, h)->0.artifact_hash@ == h),
        (forall|j: int| 0 <= j < vs.len() ==> (#[trigger] vs[j]).artifact_hash@ != h) ==> with_hash(vs, h) is None,
    decreases vs.len(),
{
    if vs.len() > 0 {
        let rest = vs.drop_first();
        lemma_with_hash(rest, h);
        if vs[0].artifact_hash@ != h {
            if exists|j: int| 0 <= j < vs.len() && (#[trigger] vs[j]).artifact_hash@ == h {
                let j = choose|j: int| 0 <= j < vs.len() && (#[trigger] vs[j]).artifact_hash@ == h;
                assert(rest[j - 1] == vs[j]);
            }
            if forall|j: int| 0 <= j < vs.len() ==> (#[trigger] vs[j]).artifact_hash@ != h {
                assert forall|j: int| 0 <= j < rest.len() implies (#[trigger] rest[j]).artifact_hash@ != h by {
                    assert(rest[j] == vs[j + 1]);
                }
            }
        }
    }
}

/// Which version is downloaded for a project of the list requested without a version
/// (after any earlier requests, which did not take care of it), when its type has
/// settings and versions are known for it: with no current version, the first (newest)
/// of the known versions; with a current version whose file is among the known ones,
/// that file; with a current version whose file is not among them, again the newest.
/// Its request comes right after those of the earlier requests, into the directory of
/// its type, unless a file with the chosen hash was found.
pub proof fn law_download_chooses_version(
    c: ConfigModel,
    l: ListModel,
    found: Seq<Seq<char>>,
    vs: Seq<(ProjectLnk, Vec<RTProjectVersion>)>,
    rs: Seq<(ProjectLnk, Option<RTProjectVersion>)>,
    p: ProjectLnk,
    list: Seq<RTProjectVersion>,
    depth: nat,
)
    requires
        has_id(l.projects, p@),
        type_configured(l.type_config, proj(l.projects, p@).rtype),
        versions_for(vs, p@) == Some(list),
        !plan_requests(c, l, found, vs, rs, depth).1.contains(p@),
    ensures
        ({
            let n = plan_requests(c, l, found, vs, rs, depth).0.len();
            let r = plan_requests(c, l, found, vs, rs.push((p, None)), depth).0;
            let q = proj(l.projects, p@);
            &&& r.take(n as int) == plan_requests(c, l, found, vs, rs, depth).0
            &&& (q.version is None && list.len() > 0 && !found.contains(list[0].artifact_hash@)) ==> r.len() > n
                && r[n as int] == (DownloadModel {
                project: p@,
                resource_type: q.rtype,
                version_id: list[0].version_id@,
                artifact_id: list[0].artifact_id@,
                artifact_hash: list[0].artifact_hash@,
                directory: dir_for(c, l, q.rtype),
            })
            &&& (q.version is Some && !found.contains(q.version->0.artifact_hash) && exists|j: int|
                0 <= j < list.len() && (#[trigger] list[j]).artifact_hash@ == q.version->0.artifact_hash) ==> r.len()
                > n && r[n as int].project == p@ && r[n as int].artifact_hash == q.version->0.artifact_hash
                && r[n as int].directory == dir_for(c, l, q.rtype)
            &&& (q.version is Some && list.len() > 0 && !found.contains(list[0].artifact_hash@) && forall|j: int|
                0 <= j < list.len() ==> (#[trigger] list[j]).artifact_hash@ != q.version->0.artifact_hash) ==> r.len()
                > n && r[n as int] == (DownloadModel {
                project: p@,
                resource_type: q.rtype,
                version_id: list[0].version_id@,
                artifact_id: list[0].artifact_id@,
                artifact_hash: list[0].artifact_hash@,
                directory: dir_for(c, l, q.rtype),
            })
        }),
{
    let rs2 = rs.push((p, None));
    assert(rs2.drop_last() == rs);
    assert(rs2.last() == (p, None::<RTProjectVersion>));
    let a = plan_requests(c, l, found, vs, rs, depth);
    let b = plan_request(c, l, found, vs, a.1, (p, None), depth);
    assert(plan_requests(c, l, found, vs, rs2, depth) == (a.0 + b.0, b.1));
    assert((a.0 + b.0).take(a.0.len() as int) =~= a.0);
    let q = proj(l.projects, p@);
    match q.version {
        Some(v) => lemma_with_hash(list, v.artifact_hash),
        None => {},
    }
}

/// A project requested with a given version (after earlier requests that did not take
/// care of it): nothing is planned for it when its type has no settings. Otherwise its
/// file is requested right after the earlier requests (when the list holds it and no
/// file with that hash was found), into the directory of its type; and each project that
/// the version requires, that the list holds with a version whose file is missing and
/// that no earlier request took care of, gets the request for the file of its own
/// current version.
pub proof fn law_download_brings_required(
    c: ConfigModel,
    l: ListModel,
    found: Seq<Seq<char>>,
    vs: Seq<(ProjectLnk, Vec<RTProjectVersion>)>,
    rs: Seq<(ProjectLnk, Option<RTProjectVersion>)>,
    p: ProjectLnk,
    v: RTProjectVersion,
    depth: nat,
)
    requires
        !plan_requests(c, l, found, vs, rs, depth).1.contains(p@),
    ensures
        ({
            let a = plan_requests(c, l, found, vs, rs, depth);
            let n = a.0.len();
            let r = plan_requests(c, l, found, vs, rs.push((p, Some(v))), depth).0;
            let rt = requested_type(l, p@);
            &&& !type_configured(l.type_config, rt) ==> r == a.0
            &&& r.take(n as int) == a.0
            &&& (type_configured(l.type_config, rt) && has_id(l.projects, p@) && !found.contains(v.artifact_hash@))
                ==> r.len() > n && r[n as int] == (DownloadModel {
                project: p@,
                resource_type: proj(l.projects, p@).rtype,
                version_id: v.version_id@,
                artifact_id: v.artifact_id@,
                artifact_hash: v.artifact_hash@,
                directory: dir_for(c, l, proj(l.projects, p@).rtype),
            })
            &&& forall|d: Seq<char>|
                type_configured(l.type_config, rt) && depth > 0 && #[trigger] rt_required_of(v.depended_on@).contains(d)
                    && d != p@ && !a.1.contains(d) && missing_file(l, found, d) ==> r.contains(held_request(c, l, d))
        }),
{
    let rs2 = rs.push((p, Some(v)));
    assert(rs2.drop_last() == rs);
    assert(rs2.last() == (p, Some(v)));
    let a = plan_requests(c, l, found, vs, rs, depth);
    let b = plan_request(c, l, found, vs, a.1, (p, Some(v)), depth);
    assert(plan_requests(c, l, found, vs, rs2, depth) == (a.0 + b.0, b.1));
    assert((a.0 + b.0).take(a.0.len() as int) =~= a.0);
    let rt = requested_type(l, p@);
    if !type_configured(l.type_config, rt) {
        assert(a.0 + b.0 =~= a.0);
    } else {
        let t1 = a.1.push(p@);
        let ds = rt_required_of(v.depended_on@);
        lemma_plan_deps(c, l, found, t1, ds, depth);
        lemma_plan_deps_complete(c, l, found, t1, ds, depth);
        let rest = plan_deps(c, l, found, t1, ds, depth);
        let own = if found.contains(v.artifact_hash@) || !has_id(l.projects, p@) {
            Seq::<DownloadModel>::empty()
        } else {
            seq![
                DownloadModel {
                    project: p@,
                    resource_type: rt,
                    version_id: v.version_id@,
                    artifact_id: v.artifact_id@,
                    artifact_hash: v.artifact_hash@,
                    directory: dir_for(c, l, rt),
                },
            ]
        };
        assert(b.0 == own + rest.0);
        let r = a.0 + b.0;
        assert forall|d: Seq<char>|
            depth > 0 && #[trigger] ds.contains(d) && d != p@ && !a.1.contains(d) && missing_file(l, found, d)
                implies r.contains(held_request(c, l, d)) by {
            let j = choose|j: int| 0 <= j < ds.len() && ds[j] == d;
            assert(rest.1.contains(ds[j]));
            let k = choose|k: int| 0 <= k < rest.1.len() && rest.1[k] == d;
            if k < t1.len() {
                assert(rest.1[k] == t1[k]);
                if k < a.1.len() {
                    assert(t1[k] == a.1[k]);
                }
            }
            let h = held_request(c, l, d);
            let i = choose|i: int| 0 <= i < rest.0.len() && rest.0[i] == h;
            assert(r[a.0.len() + own.len() + i] == h);
        }
    }
}

/// The version to select for a project, if any: when its type has settings and versions
/// are known for it, the newest, unless its file is the one the project has.
pub open spec fn update_of(l: ListModel, vs: Seq<(ProjectLnk, Vec<RTProjectVersion>)>, p: Seq<char>) -> Option<Seq<char>> {
    if !type_configured(l.type_config, requested_type(l, p)) {
        None
    } else {
        match versions_for(vs, p) {
            Some(list) => if list.len() > 0 && Some(list[0].artifact_hash@) != current_hash(l, p) {
                Some(list[0].version_id@)
            } else {
                None
            },
            None => None,
        }
    }
}

/// The version selections asked for, for each project in turn (see `update_of`).
pub open spec fn update_effects(l: ListModel, vs: Seq<(ProjectLnk, Vec<RTProjectVersion>)>, ps: Seq<Seq<char>>) -> Seq<
    EffectModel,
>
    decreases ps.len(),
{
    if ps.len() == 0 {
        Seq::empty()
    } else {
        update_effects(l, vs, ps.drop_last()) + match update_of(l, vs, ps.last()) {
            Some(id) => seq![EffectModel::SelectProjectVersion { list: l.id, project: ps.last(), version_id: id }],
            None => Seq::empty(),
        }
    }
}

/// The projects of the list that are not marked archived, in order.
pub open spec fn unarchived_ids(l: ListModel) -> Seq<Seq<char>> {
    keep(l.projects, |q: crate::project::ProjectModel| !q.archived).map_values(|q: crate::project::ProjectModel| q.id)
}

impl ProjectActions {
    /// Selects the newest version of each of the projects that has a newer file (see
    /// `update_of`); `versions` pairs a project with the versions the remote service
    /// lists for the list's game version and loader, newest first. The list must be held.
    pub fn update_version_for_projects(
        state: &mut RDState,
        list_lnk: &ListLnk,
        projects: Vec<ProjectLnk>,
        versions: &Vec<(ProjectLnk, Vec<RTProjectVersion>)>,
    )
        requires
            list_of(old(state)@.lists, list_lnk@) is Some,
        ensures
            final(state)@ == (StateModel {
                effects: old(state)@.effects + update_effects(
                    list_of(old(state)@.lists, list_lnk@)->0,
                    versions@,
                    lnk_ids(projects@),
                ),
                ..old(state)@
            }),
    {
        let ghost s0 = state@;
        let li = match find_list(&state.lists, list_lnk) {
            Some(i) => i,
            None => return ,
        };
        let ghost l = s0.lists[li as int];
        let ghost ps = lnk_ids(projects@);
        let mut k: usize = 0;
        assert(s0.effects + update_effects(l, versions@, ps.take(0)) =~= s0.effects);
        while k < projects.len()
            invariant
                k <= projects@.len(),
                li < state.lists.len(),
                l == state@.lists[li as int],
                l == state.lists@[li as int]@,
                l.id == list_lnk@,
                ps == lnk_ids(projects@),
                state@ == (StateModel { effects: s0.effects + update_effects(l, versions@, ps.take(k as int)), ..s0 }),
            decreases projects@.len() - k,
        {
            proof {
                assert(ps.take(k + 1).drop_last() =~= ps.take(k as int));
                assert(ps.take(k + 1).last() == projects@[k as int]@);
            }
            let p = &projects[k];
            let ghost before = state@.effects;
            let list = &state.lists[li];
            let rt = match list.get_project(p) {
                Some(q) => q.resource_type,
                None => ResourceType::Mod,
            };
            assert(rt == requested_type(l, p@));
            let mut selected: Option<String> = None;
            if list.has_type_config(rt) {
                match find_versions(versions, p) {
                    Some(vs) => {
                        if vs.len() > 0 {
                            let same = match list.get_project(p) {
                                Some(q) => match q.get_version() {
                                    Some(v) => crate::text::str_eq(v.artifact_hash.as_str(), vs[0].artifact_hash.as_str()),
                                    None => false,
                                },
                                None => false,
                            };
                            if !same {
                                selected = Some(vs[0].version_id.clone());
                            }
                        }
                    },
                    None => {},
                }
            }
            assert(crate::cache::opt_text(selected) == update_of(l, versions@, p@));
            match selected {
                Some(version_id) => {
                    state.dispatch(
                        Effect::SelectProjectVersion { list: list_lnk.clone(), project: p.clone(), version_id },
                    );
                },
                None => {},
            }
            assert(state@.effects =~= s0.effects + update_effects(l, versions@, ps.take(k + 1)));
            k = k + 1;
        }
        assert(ps.take(projects@.len() as int) =~= ps);
    }

    /// Selects the newest version for every project of the list not marked archived (see
    /// `update_version_for_projects`). The list must be held.
    pub fn update_version_for_all_projects(
        state: &mut RDState,
        list_lnk: &ListLnk,
        versions: &Vec<(ProjectLnk, Vec<RTProjectVersion>)>,
    )
        requires
            list_of(old(state)@.lists, list_lnk@) is Some,
        ensures
            final(state)@ == (StateModel {
                effects: old(state)@.effects + update_effects(
                    list_of(old(state)@.lists, list_lnk@)->0,
                    versions@,
                    unarchived_ids(list_of(old(state)@.lists, list_lnk@)->0),
                ),
                ..old(state)@
            }),
    {
        let li = match find_list(&state.lists, list_lnk) {
            Some(i) => i,
            None => return ,
        };
        let ghost l = state@.lists[li as int];
        let ghost f = |q: crate::project::ProjectModel| !q.archived;
        let list = &state.lists[li];
        let mut projects: Vec<ProjectLnk> = Vec::new();
        let mut k: usize = 0;
        assert(lnk_ids(projects@) =~= keep(l.projects.take(0), f).map_values(|q: crate::project::ProjectModel| q.id));
        while k < list.projects.len()
            invariant
                k <= list.projects@.len(),
                l == list@,
                l.projects.len() == list.projects@.len(),
                f == (|q: crate::project::ProjectModel| !q.archived),
                lnk_ids(projects@) == keep(l.projects.take(k as int), f).map_values(|q: crate::project::ProjectModel| q.id),
            decreases list.projects@.len() - k,
        {
            proof {
                crate::seqs::lemma_keep_step(l.projects, f, k as int);
            }
            assert(l.projects[k as int] == list.projects@[k as int]@);
            if !list.projects[k].is_archived() {
                let ghost p0 = projects@;
                projects.push(list.projects[k].get_lnk());
                assert(lnk_ids(projects@) =~= lnk_ids(p0).push(l.projects[k as int].id));
            }
            k = k + 1;
        }
        assert(l.projects.take(l.projects.len() as int) =~= l.projects);
        Self::update_version_for_projects(state, list_lnk, projects, versions);
    }
}

} // verus!
