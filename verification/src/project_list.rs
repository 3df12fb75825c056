use vstd::prelude::*;
use crate::clock::now_millis;
use crate::game::{GameLoader, GameVersion, GameVersionModel, LoaderModel};
use crate::lnk::{ListLnk, ProjectLnk};
use crate::mutation::{MutationModel, MutationOutcome, MutationResult, accumulated, plain};
use crate::project::{
    DepModel, Project, ProjectDependencyType, ProjectModel, ProjectVersion, ProjectVersionModel, dep_index,
    dep_projects, effective_type, first_index, has_dep, is_cleanable, is_first_index, lnk_ids, needs_managing,
    remove_first,
};
use crate::resource_type::{ResourceType, type_rank};

verus! {

/// The name and game version of a list.
#[derive(Debug)]
pub struct ListMetadata {
    pub name: String,
    pub game_version: GameVersion,
}

/// The abstract value of the settings of one resource type in a list.
#[verifier::ext_equal]
pub struct TypeConfigModel {
    pub loader: LoaderModel,
    pub download_dir: Seq<char>,
}

/// The loader and download directory a list uses for one resource type.
#[derive(Debug)]
pub struct ProjectTypeConfig {
    pub loader: GameLoader,
    pub download_dir: String,
}

impl View for ProjectTypeConfig {
    type V = TypeConfigModel;

    open spec fn view(&self) -> TypeConfigModel {
        TypeConfigModel { loader: self.loader@, download_dir: self.download_dir@ }
    }
}

impl Clone for ProjectTypeConfig {
    fn clone(&self) -> (r: Self)
        ensures
            r@ == self@,
    {
        ProjectTypeConfig { loader: self.loader.clone(), download_dir: self.download_dir.clone() }
    }
}

impl ProjectTypeConfig {
    pub fn new(loader: GameLoader, download_dir: String) -> (r: ProjectTypeConfig)
        ensures
            r@ == (TypeConfigModel { loader: loader@, download_dir: download_dir@ }),
    {
        ProjectTypeConfig { loader, download_dir }
    }

    pub fn get_loader(&self) -> (r: &GameLoader)
        ensures
            r@ == self@.loader,
    {
        &self.loader
    }

    pub fn get_download_dir(&self) -> (r: &str)
        ensures
            r@ == self@.download_dir,
    {
        self.download_dir.as_str()
    }

    pub fn set_download_dir(&mut self, download_dir: String)
        ensures
            final(self)@ == (TypeConfigModel { download_dir: download_dir@, ..old(self)@ }),
    {
        self.download_dir = download_dir;
    }
}

/// The format version, update setting and creation time of a list.
#[derive(Debug)]
pub struct ListConfig {
    pub version: u32,
    pub do_updates: Option<bool>,
    /// Milliseconds since the Unix epoch at which the list was created.
    pub created_at: i64,
}

/// The abstract value of a project list.
#[verifier::ext_equal]
pub struct ListModel {
    pub id: Seq<char>,
    pub name: Seq<char>,
    pub game_version: GameVersionModel,
    pub type_config: Seq<(ResourceType, TypeConfigModel)>,
    pub projects: Seq<ProjectModel>,
    pub config_version: u32,
    pub do_updates: Option<bool>,
    pub created_at: int,
}

/// A list of projects, with the settings of each resource type it holds.
#[derive(Debug)]
pub struct ProjectList {
    pub list_id: String,
    pub metadata: ListMetadata,
    pub type_config: Vec<(ResourceType, ProjectTypeConfig)>,
    pub projects: Vec<Project>,
    pub config: ListConfig,
}

pub open spec fn config_entries(v: Seq<(ResourceType, ProjectTypeConfig)>) -> Seq<(ResourceType, TypeConfigModel)> {
    v.map_values(|e: (ResourceType, ProjectTypeConfig)| (e.0, e.1@))
}

pub open spec fn project_models(v: Seq<Project>) -> Seq<ProjectModel> {
    v.map_values(|p: Project| p@)
}

impl View for ProjectList {
    type V = ListModel;

    open spec fn view(&self) -> ListModel {
        ListModel {
            id: self.list_id@,
            name: self.metadata.name@,
            game_version: self.metadata.game_version@,
            type_config: config_entries(self.type_config@),
            projects: project_models(self.projects@),
            config_version: self.config.version,
            do_updates: self.config.do_updates,
            created_at: self.config.created_at as int,
        }
    }
}

// ------------------------------------------------------------------
// The model of the projects of a list
// ------------------------------------------------------------------

/// The ids of the projects, in order.
pub open spec fn ids(ps: Seq<ProjectModel>) -> Seq<Seq<char>> {
    ps.map_values(|p: ProjectModel| p.id)
}

pub open spec fn has_id(ps: Seq<ProjectModel>, id: Seq<char>) -> bool {
    ids(ps).contains(id)
}

/// No two projects share an id.
pub open spec fn unique_ids(ps: Seq<ProjectModel>) -> bool {
    forall|i: int, j: int| 0 <= i < ps.len() && 0 <= j < ps.len() && i != j ==> ps[i].id != ps[j].id
}

/// The position of the project with the given id (-1 when absent).
pub open spec fn index_of(ps: Seq<ProjectModel>, id: Seq<char>) -> int {
    first_index(ids(ps), id)
}

/// The project with the given id.
pub open spec fn proj(ps: Seq<ProjectModel>, id: Seq<char>) -> ProjectModel {
    ps[index_of(ps, id)]
}

/// No two type settings are for the same type.
pub open spec fn unique_types(tc: Seq<(ResourceType, TypeConfigModel)>) -> bool {
    forall|i: int, j: int| 0 <= i < tc.len() && 0 <= j < tc.len() && i != j ==> tc[i].0 != tc[j].0
}

impl ProjectList {
    /// The list is well formed: project ids are unique, and so are the types it has settings for.
    pub open spec fn wf(&self) -> bool {
        &&& unique_ids(self@.projects)
        &&& unique_types(self@.type_config)
    }
}

/// In a sequence with unique ids, the position of a present id is the position holding it.
pub proof fn lemma_index_of_unique(ps: Seq<ProjectModel>, i: int)
    requires
        unique_ids(ps),
        0 <= i < ps.len(),
    ensures
        index_of(ps, ps[i].id) == i,
        has_id(ps, ps[i].id),
{
    let m = ids(ps);
    assert(m[i] == ps[i].id);
    assert(is_first_index(m, ps[i].id, i));
    assert(m.contains(ps[i].id));
}

/// Finds the project with the given id.
pub fn find_project(projects: &Vec<Project>, id: &ProjectLnk) -> (r: Option<usize>)
    ensures
        match r {
            Some(i) => has_id(project_models(projects@), id@) && index_of(project_models(projects@), id@) == i
                && i < projects@.len() && projects@[i as int]@.id == id@,
            None => !has_id(project_models(projects@), id@) && index_of(project_models(projects@), id@) == -1,
        },
{
    let ghost ps = project_models(projects@);
    let ghost m = ids(ps);
    let mut i: usize = 0;
    while i < projects.len()
        invariant
            ps == project_models(projects@),
            m == ids(ps),
            i <= projects.len(),
            forall|j: int| 0 <= j < i ==> m[j] != id@,
        decreases projects.len() - i,
    {
        if projects[i].is_lnk(id) {
            assert(m[i as int] == id@);
            assert(is_first_index(m, id@, i as int));
            return Some(i);
        }
        i = i + 1;
    }
    assert(!exists|k: int| is_first_index(m, id@, k));
    assert(!m.contains(id@));
    None
}


/// Replacing a project by one with the same id keeps the ids.
pub proof fn lemma_update_keeps_ids(ps: Seq<ProjectModel>, i: int, q: ProjectModel)
    requires
        0 <= i < ps.len(),
        q.id == ps[i].id,
    ensures
        ids(ps.update(i, q)) == ids(ps),
        unique_ids(ps) ==> unique_ids(ps.update(i, q)),
{
    assert(ids(ps.update(i, q)) =~= ids(ps));
}

/// Removing a project keeps the others unique.
pub proof fn lemma_remove_keeps_unique(ps: Seq<ProjectModel>, i: int)
    requires
        0 <= i < ps.len(),
        unique_ids(ps),
    ensures
        unique_ids(ps.remove(i)),
        ids(ps.remove(i)) == ids(ps).remove(i),
{
    assert(ids(ps.remove(i)) =~= ids(ps).remove(i));
    let r = ps.remove(i);
    assert forall|a: int, b: int| 0 <= a < r.len() && 0 <= b < r.len() && a != b implies r[a].id != r[b].id by {
        let a2 = if a < i { a } else { a + 1 };
        let b2 = if b < i { b } else { b + 1 };
        assert(r[a] == ps[a2]);
        assert(r[b] == ps[b2]);
    }
}

// ---- dependent records ----

/// `ps` where the project `d` (if present) records `p` as a dependent (once).
pub open spec fn with_dependent(ps: Seq<ProjectModel>, d: Seq<char>, p: Seq<char>) -> Seq<ProjectModel> {
    let i = index_of(ps, d);
    if 0 <= i {
        ps.update(
            i,
            ProjectModel {
                dependents: if ps[i].dependents.contains(p) {
                    ps[i].dependents
                } else {
                    ps[i].dependents.push(p)
                },
                ..ps[i]
            },
        )
    } else {
        ps
    }
}

/// `with_dependent` applied for each of `ds`, in order.
pub open spec fn with_dependent_all(ps: Seq<ProjectModel>, ds: Seq<Seq<char>>, p: Seq<char>) -> Seq<ProjectModel>
    decreases ds.len(),
{
    if ds.len() == 0 {
        ps
    } else {
        with_dependent(with_dependent_all(ps, ds.drop_last(), p), ds.last(), p)
    }
}

/// `ps` where the project `d` (if present) no longer records `p` as a dependent
/// (its first record of `p` is removed).
pub open spec fn without_dependent(ps: Seq<ProjectModel>, d: Seq<char>, p: Seq<char>) -> Seq<ProjectModel> {
    let i = index_of(ps, d);
    if 0 <= i {
        ps.update(i, ProjectModel { dependents: remove_first(ps[i].dependents, p), ..ps[i] })
    } else {
        ps
    }
}

/// `without_dependent` applied for each of `ds`, in order.
pub open spec fn without_dependent_all(ps: Seq<ProjectModel>, ds: Seq<Seq<char>>, p: Seq<char>) -> Seq<ProjectModel>
    decreases ds.len(),
{
    if ds.len() == 0 {
        ps
    } else {
        without_dependent(without_dependent_all(ps, ds.drop_last(), p), ds.last(), p)
    }
}

pub proof fn lemma_with_dependent_all_ids(ps: Seq<ProjectModel>, ds: Seq<Seq<char>>, p: Seq<char>)
    ensures
        ids(with_dependent_all(ps, ds, p)) == ids(ps),
        unique_ids(ps) ==> unique_ids(with_dependent_all(ps, ds, p)),
    decreases ds.len(),
{
    if ds.len() > 0 {
        let prev = with_dependent_all(ps, ds.drop_last(), p);
        lemma_with_dependent_all_ids(ps, ds.drop_last(), p);
        let i = index_of(prev, ds.last());
        if 0 <= i {
            assert(is_first_index(ids(prev), ds.last(), i));
            let q = ProjectModel {
                dependents: if prev[i].dependents.contains(p) {
                    prev[i].dependents
                } else {
                    prev[i].dependents.push(p)
                },
                ..prev[i]
            };
            lemma_update_keeps_ids(prev, i, q);
        }
    }
}

pub proof fn lemma_without_dependent_all_ids(ps: Seq<ProjectModel>, ds: Seq<Seq<char>>, p: Seq<char>)
    ensures
        ids(without_dependent_all(ps, ds, p)) == ids(ps),
        unique_ids(ps) ==> unique_ids(without_dependent_all(ps, ds, p)),
    decreases ds.len(),
{
    if ds.len() > 0 {
        let prev = without_dependent_all(ps, ds.drop_last(), p);
        lemma_without_dependent_all_ids(ps, ds.drop_last(), p);
        let i = index_of(prev, ds.last());
        if 0 <= i {
            assert(is_first_index(ids(prev), ds.last(), i));
            let q = ProjectModel { dependents: remove_first(prev[i].dependents, p), ..prev[i] };
            lemma_update_keeps_ids(prev, i, q);
        }
    }
}

/// Clearing the dependencies of the version of `p`: the version depends on nothing
/// any more and every project it depended on forgets `p` as a dependent.
/// Nothing changes (and the report is "not found") when `p` is absent or has no version.
pub open spec fn clear_spec(ps: Seq<ProjectModel>, p: Seq<char>) -> (Seq<ProjectModel>, MutationModel) {
    let i = index_of(ps, p);
    if i < 0 || ps[i].version is None {
        (ps, plain(MutationOutcome::NotFound))
    } else {
        let v = ps[i].version.unwrap();
        let ds = dep_projects(v.deps);
        let ps1 = ps.update(
            i,
            ProjectModel { version: Some(ProjectVersionModel { deps: Seq::empty(), ..v }), ..ps[i] },
        );
        (
            without_dependent_all(ps1, ds, p),
            MutationModel {
                outcome: MutationOutcome::DependenciesCleared,
                target: Some(p),
                added: Seq::empty(),
                changed: seq![p] + ds,
                removed: Seq::empty(),
            },
        )
    }
}

pub proof fn lemma_clear_spec_ids(ps: Seq<ProjectModel>, p: Seq<char>)
    ensures
        ids(clear_spec(ps, p).0) == ids(ps),
        unique_ids(ps) ==> unique_ids(clear_spec(ps, p).0),
{
    let i = index_of(ps, p);
    if !(i < 0 || ps[i].version is None) {
        assert(is_first_index(ids(ps), p, i));
        let v = ps[i].version.unwrap();
        let ds = dep_projects(v.deps);
        let q = ProjectModel { version: Some(ProjectVersionModel { deps: Seq::empty(), ..v }), ..ps[i] };
        lemma_update_keeps_ids(ps, i, q);
        lemma_without_dependent_all_ids(ps.update(i, q), ds, p);
    }
}

impl ProjectList {
    /// Records `p` as a dependent of the project `d`, when `d` is in the list.
    fn add_dependent_to(&mut self, d: &ProjectLnk, p: &ProjectLnk)
        ensures
            final(self)@ == (ListModel { projects: with_dependent(old(self)@.projects, d@, p@), ..old(self)@ }),
    {
        let ghost ps = self@.projects;
        match find_project(&self.projects, d) {
            Some(i) => {
                self.projects[i].add_dependent(p.clone());
                assert(self@.projects =~= with_dependent(ps, d@, p@));
            },
            None => {},
        }
    }

    /// Forgets `p` as a dependent of the project `d`, when `d` is in the list.
    fn remove_dependent_from(&mut self, d: &ProjectLnk, p: &ProjectLnk)
        ensures
            final(self)@ == (ListModel { projects: without_dependent(old(self)@.projects, d@, p@), ..old(self)@ }),
    {
        let ghost ps = self@.projects;
        match find_project(&self.projects, d) {
            Some(i) => {
                self.projects[i].remove_dependent(p);
                assert(self@.projects =~= without_dependent(ps, d@, p@));
            },
            None => {},
        }
    }

    /// Clears the dependencies of the version of a project (see `clear_spec`).
    fn clear_dependencies_internal(&mut self, project: &ProjectLnk) -> (r: MutationResult)
        ensures
            final(self)@ == (ListModel { projects: clear_spec(old(self)@.projects, project@).0, ..old(self)@ }),
            r@ == clear_spec(old(self)@.projects, project@).1,
    {
        let ghost ps = self@.projects;
        let i = match find_project(&self.projects, project) {
            Some(i) => i,
            None => {
                return MutationResult::not_found();
            },
        };
        if !self.projects[i].has_version() {
            return MutationResult::not_found();
        }
        let mut mutation = MutationResult::new(MutationOutcome::DependenciesCleared).with_target(project.clone());
        let mut first = Vec::new();
        first.push(project.clone());
        assert(lnk_ids(first@) =~= seq![project@]);
        mutation.add_changed(first);

        let depended_on_projects = self.projects[i].clear_version_depended_ons();
        let ghost ds = lnk_ids(depended_on_projects@);
        let ghost ps1 = self@.projects;
        proof {
            let v = ps[i as int].version.unwrap();
            assert(ps1 =~= ps.update(
                i as int,
                ProjectModel { version: Some(ProjectVersionModel { deps: Seq::empty(), ..v }), ..ps[i as int] },
            ));
        }
        let mut k: usize = 0;
        while k < depended_on_projects.len()
            invariant
                k <= depended_on_projects.len(),
                ds == lnk_ids(depended_on_projects@),
                self@ == (ListModel { projects: without_dependent_all(ps1, ds.take(k as int), project@), ..old(self)@ }),
            decreases depended_on_projects.len() - k,
        {
            self.remove_dependent_from(&depended_on_projects[k], project);
            assert(ds.take(k + 1).drop_last() =~= ds.take(k as int));
            k = k + 1;
        }
        assert(ds.take(ds.len() as int) =~= ds);
        mutation.add_changed(depended_on_projects);
        mutation
    }
}


// ---- orphan cleanup ----

/// The ids of the cleanable projects (not chosen by hand, nothing depends on them), in order.
pub open spec fn cleanable_ids(ps: Seq<ProjectModel>) -> Seq<Seq<char>>
    decreases ps.len(),
{
    if ps.len() == 0 {
        Seq::empty()
    } else {
        let r = cleanable_ids(ps.drop_last());
        if is_cleanable(ps.last()) {
            r.push(ps.last().id)
        } else {
            r
        }
    }
}

/// Every project that `cleanable_ids` names is cleanable, and every cleanable
/// project is named.
pub proof fn lemma_cleanable_ids(ps: Seq<ProjectModel>)
    ensures
        forall|i: int| 0 <= i < ps.len() && is_cleanable(ps[i]) ==> cleanable_ids(ps).contains(ps[i].id),
        cleanable_ids(ps).len() == 0 <==> (forall|i: int| 0 <= i < ps.len() ==> !is_cleanable(ps[i])),
    decreases ps.len(),
{
    if ps.len() > 0 {
        let pre = ps.drop_last();
        lemma_cleanable_ids(pre);
        assert forall|i: int| 0 <= i < ps.len() && is_cleanable(ps[i]) implies cleanable_ids(ps).contains(ps[i].id) by {
            if i < ps.len() - 1 {
                assert(pre[i] == ps[i]);
                assert(cleanable_ids(pre).contains(ps[i].id));
                let j = choose|j: int| 0 <= j < cleanable_ids(pre).len() && cleanable_ids(pre)[j] == ps[i].id;
                if is_cleanable(ps.last()) {
                    assert(cleanable_ids(ps)[j] == ps[i].id);
                }
            } else {
                assert(cleanable_ids(ps).last() == ps[i].id);
            }
        }
        if cleanable_ids(ps).len() == 0 {
            assert forall|i: int| 0 <= i < ps.len() implies !is_cleanable(ps[i]) by {
                if is_cleanable(ps[i]) {
                    assert(cleanable_ids(ps).contains(ps[i].id));
                }
            }
        }
        if forall|i: int| 0 <= i < ps.len() ==> !is_cleanable(ps[i]) {
            assert(!is_cleanable(ps.last()));
            assert forall|i: int| 0 <= i < pre.len() implies !is_cleanable(pre[i]) by {
                assert(pre[i] == ps[i]);
            }
        }
    }
}

/// One step of the cleanup: clear the dependencies of `x`, then remove it.
pub open spec fn purge_one(ps: Seq<ProjectModel>, m: MutationModel, x: Seq<char>) -> (Seq<ProjectModel>, MutationModel) {
    let c = clear_spec(ps, x);
    let m1 = accumulated(m, c.1);
    if has_id(c.0, x) {
        (c.0.remove(index_of(c.0, x)), MutationModel { removed: m1.removed.push(x), ..m1 })
    } else {
        (c.0, m1)
    }
}

/// `purge_one` for each of `xs`, in order.
pub open spec fn purge_all(ps: Seq<ProjectModel>, m: MutationModel, xs: Seq<Seq<char>>) -> (Seq<ProjectModel>, MutationModel)
    decreases xs.len(),
{
    if xs.len() == 0 {
        (ps, m)
    } else {
        let pre = purge_all(ps, m, xs.drop_last());
        purge_one(pre.0, pre.1, xs.last())
    }
}

/// Removing orphans until none is left: each round removes every project that is
/// cleanable at its start; rounds stop when no project is cleanable.
pub open spec fn cleanup_spec(ps: Seq<ProjectModel>, m: MutationModel) -> (Seq<ProjectModel>, MutationModel)
    decreases ps.len(),
{
    let xs = cleanable_ids(ps);
    if xs.len() == 0 {
        (ps, m)
    } else {
        let r = purge_all(ps, m, xs);
        if r.0.len() < ps.len() {
            cleanup_spec(r.0, r.1)
        } else {
            r
        }
    }
}

pub proof fn lemma_purge_one(ps: Seq<ProjectModel>, m: MutationModel, x: Seq<char>)
    requires
        unique_ids(ps),
    ensures
        unique_ids(purge_one(ps, m, x).0),
        purge_one(ps, m, x).0.len() <= ps.len(),
        has_id(ps, x) ==> purge_one(ps, m, x).0.len() < ps.len(),
{
    let c = clear_spec(ps, x);
    lemma_clear_spec_ids(ps, x);
    assert(c.0.len() == ids(c.0).len());
    if has_id(c.0, x) {
        let i = index_of(c.0, x);
        assert(ids(c.0).contains(x));
        let w = choose|j: int| 0 <= j < ids(c.0).len() && ids(c.0)[j] == x;
        assert(is_first_index(ids(c.0), x, i) || !exists|k: int| is_first_index(ids(c.0), x, k));
        if !exists|k: int| is_first_index(ids(c.0), x, k) {
            lemma_index_of_unique(c.0, w);
        }
        lemma_remove_keeps_unique(c.0, i);
    }
}

pub proof fn lemma_purge_all(ps: Seq<ProjectModel>, m: MutationModel, xs: Seq<Seq<char>>)
    requires
        unique_ids(ps),
    ensures
        unique_ids(purge_all(ps, m, xs).0),
        purge_all(ps, m, xs).0.len() <= ps.len(),
        xs.len() > 0 && has_id(ps, xs[0]) ==> purge_all(ps, m, xs).0.len() < ps.len(),
    decreases xs.len(),
{
    if xs.len() > 0 {
        let pre = purge_all(ps, m, xs.drop_last());
        lemma_purge_all(ps, m, xs.drop_last());
        lemma_purge_one(pre.0, pre.1, xs.last());
        if xs.len() == 1 {
            assert(xs.drop_last().len() == 0);
            assert(xs.last() == xs[0]);
        } else {
            assert(xs.drop_last()[0] == xs[0]);
        }
    }
}

impl ProjectList {
    /// The links of the cleanable projects, in order.
    fn cleanable_lnks(&self) -> (r: Vec<ProjectLnk>)
        ensures
            lnk_ids(r@) == cleanable_ids(self@.projects),
    {
        let ghost ps = self@.projects;
        let mut r: Vec<ProjectLnk> = Vec::new();
        let mut i: usize = 0;
        while i < self.projects.len()
            invariant
                ps == self@.projects,
                i <= self.projects.len(),
                lnk_ids(r@) == cleanable_ids(ps.take(i as int)),
            decreases self.projects.len() - i,
        {
            assert(ps.take(i + 1).drop_last() =~= ps.take(i as int));
            assert(ps.take(i + 1).last() == ps[i as int]);
            if self.projects[i].is_cleanable_dependency() {
                let ghost before = r@;
                r.push(self.projects[i].get_lnk());
                assert(lnk_ids(r@) =~= lnk_ids(before).push(ps[i as int].id));
            }
            i = i + 1;
        }
        assert(ps.take(ps.len() as int) =~= ps);
        r
    }

    /// Removes orphaned dependencies until none is left (see `cleanup_spec`).
    fn cleanup_orphaned_dependencies(&mut self) -> (r: MutationResult)
        requires
            old(self).wf(),
        ensures
            final(self).wf(),
            final(self)@ == (ListModel {
                projects: cleanup_spec(old(self)@.projects, plain(MutationOutcome::OrphansCleared)).0,
                ..old(self)@
            }),
            r@ == cleanup_spec(old(self)@.projects, plain(MutationOutcome::OrphansCleared)).1,
    {
        let ghost ps0 = self@.projects;
        let mut mutation = MutationResult::new(MutationOutcome::OrphansCleared);
        loop
            invariant
                self.wf(),
                self@ == (ListModel { projects: self@.projects, ..old(self)@ }),
                cleanup_spec(self@.projects, mutation@) == cleanup_spec(ps0, plain(MutationOutcome::OrphansCleared)),
            ensures
                self.wf(),
                self@ == (ListModel { projects: self@.projects, ..old(self)@ }),
                (self@.projects, mutation@) == cleanup_spec(ps0, plain(MutationOutcome::OrphansCleared)),
            decreases self.projects.len(),
        {
            let to_remove = self.cleanable_lnks();
            if to_remove.len() == 0 {
                break;
            }
            let ghost cur = self@.projects;
            let ghost m0 = mutation@;
            let ghost xs = lnk_ids(to_remove@);
            let mut k: usize = 0;
            while k < to_remove.len()
                invariant
                    k <= to_remove.len(),
                    xs == lnk_ids(to_remove@),
                    unique_ids(cur),
                    self.wf(),
                    self@ == (ListModel { projects: self@.projects, ..old(self)@ }),
                    (self@.projects, mutation@) == purge_all(cur, m0, xs.take(k as int)),
                decreases to_remove.len() - k,
            {
                let ghost before_ps = self@.projects;
                let ghost before_m = mutation@;
                assert(xs.take(k + 1).drop_last() =~= xs.take(k as int));
                assert(xs.take(k + 1).last() == xs[k as int]);
                let x = &to_remove[k];
                let c = self.clear_dependencies_internal(x);
                mutation.chain(c);
                proof {
                    lemma_clear_spec_ids(before_ps, x@);
                }
                match find_project(&self.projects, x) {
                    Some(pos) => {
                        proof {
                            lemma_remove_keeps_unique(self@.projects, pos as int);
                        }
                        self.projects.remove(pos);
                        let mut one = Vec::new();
                        one.push(x.clone());
                        assert(lnk_ids(one@) =~= seq![x@]);
                        mutation.add_removed(one);
                        assert(self@.projects =~= purge_one(before_ps, before_m, x@).0);
                        assert(mutation@.removed =~= purge_one(before_ps, before_m, x@).1.removed);
                    },
                    None => {},
                }
                k = k + 1;
            }
            assert(xs.take(xs.len() as int) =~= xs);
            proof {
                lemma_cleanable_ids(cur);
                let w = xs[0];
                assert(cleanable_ids(cur).contains(w) || true);
                lemma_purge_all(cur, m0, xs);
                lemma_cleanable_first_present(cur);
            }
        }
        mutation
    }
}

/// The first cleanable id is the id of a project of the sequence.
pub proof fn lemma_cleanable_first_present(ps: Seq<ProjectModel>)
    ensures
        cleanable_ids(ps).len() > 0 ==> has_id(ps, cleanable_ids(ps)[0]),
    decreases ps.len(),
{
    if ps.len() > 0 {
        let pre = ps.drop_last();
        lemma_cleanable_first_present(pre);
        if cleanable_ids(ps).len() > 0 {
            if cleanable_ids(pre).len() > 0 {
                assert(cleanable_ids(ps)[0] == cleanable_ids(pre)[0]);
                let j = choose|j: int| 0 <= j < ids(pre).len() && ids(pre)[j] == cleanable_ids(pre)[0];
                assert(ids(ps)[j] == ids(pre)[j]);
            } else {
                assert(cleanable_ids(ps)[0] == ps.last().id);
                assert(ids(ps)[ps.len() - 1] == ps.last().id);
            }
        }
    }
}


// ---- the operations on projects ----

/// A report naming a target and nothing else.
pub open spec fn targeted(outcome: MutationOutcome, x: Seq<char>) -> MutationModel {
    MutationModel { target: Some(x), ..plain(outcome) }
}

/// Adding a project: a new id is appended (it must come without a version);
/// an existing id is promoted to a hand-chosen project when the new one is
/// hand-chosen and the existing one is not; otherwise nothing changes.
pub open spec fn add_spec(ps: Seq<ProjectModel>, p: ProjectModel) -> (Seq<ProjectModel>, MutationModel) {
    if has_id(ps, p.id) {
        let i = index_of(ps, p.id);
        if p.manual && !ps[i].manual {
            (ps.update(i, ProjectModel { manual: true, ..ps[i] }), plain(MutationOutcome::ProjectPromoted))
        } else {
            (ps, plain(MutationOutcome::AlreadyExists))
        }
    } else {
        (ps.push(p), MutationModel { added: seq![p.id], ..targeted(MutationOutcome::ProjectAdded, p.id) })
    }
}

/// Removing a project: absent ids give "not found"; a project that others depend
/// on is only demoted (no longer hand-chosen); otherwise its dependencies are
/// cleared, it is removed, and orphaned dependencies are cleaned up.
pub open spec fn remove_spec(ps: Seq<ProjectModel>, x: Seq<char>) -> (Seq<ProjectModel>, MutationModel) {
    if !has_id(ps, x) {
        (ps, plain(MutationOutcome::NotFound))
    } else {
        let i = index_of(ps, x);
        if ps[i].dependents.len() > 0 {
            (ps.update(i, ProjectModel { manual: false, ..ps[i] }), targeted(MutationOutcome::ProjectDemoted, x))
        } else {
            let r = purge_one(ps, targeted(MutationOutcome::ProjectRemoved, x), x);
            let c = cleanup_spec(r.0, plain(MutationOutcome::OrphansCleared));
            (c.0, accumulated(r.1, c.1))
        }
    }
}

/// Whether every dependency of a version is on a project of the list.
pub open spec fn deps_present(ps: Seq<ProjectModel>, v: ProjectVersionModel) -> bool {
    forall|k: int| 0 <= k < v.deps.len() ==> has_id(ps, #[trigger] v.deps[k].project)
}

/// Adding a version to a project: each project it depends on records the project
/// as a dependent, then the version is set.
pub open spec fn add_version_spec(ps: Seq<ProjectModel>, x: Seq<char>, v: ProjectVersionModel) -> (Seq<ProjectModel>, MutationModel) {
    if !has_id(ps, x) {
        (ps, plain(MutationOutcome::NotFound))
    } else {
        let ds = dep_projects(v.deps);
        let ps1 = with_dependent_all(ps, ds, x);
        let i = index_of(ps1, x);
        (
            ps1.update(i, ProjectModel { version: Some(v), ..ps1[i] }),
            MutationModel { changed: ds.push(x), ..targeted(MutationOutcome::VersionAdded, x) },
        )
    }
}

/// Removing the version of a project: its dependencies are cleared, the version
/// removed, and orphaned dependencies cleaned up. A project without a version is
/// left as it is ("unchanged").
pub open spec fn remove_version_spec(ps: Seq<ProjectModel>, x: Seq<char>) -> (Seq<ProjectModel>, MutationModel) {
    if !has_id(ps, x) {
        (ps, plain(MutationOutcome::NotFound))
    } else if ps[index_of(ps, x)].version is None {
        (ps, plain(MutationOutcome::Unchanged))
    } else {
        let c = clear_spec(ps, x);
        let m1 = accumulated(targeted(MutationOutcome::VersionRemoved, x), c.1);
        let i = index_of(c.0, x);
        let ps2 = c.0.update(i, ProjectModel { version: None, ..c.0[i] });
        let cl = cleanup_spec(ps2, plain(MutationOutcome::OrphansCleared));
        (cl.0, accumulated(m1, cl.1))
    }
}

pub proof fn lemma_index_stable(ps: Seq<ProjectModel>, qs: Seq<ProjectModel>, x: Seq<char>)
    requires
        ids(qs) == ids(ps),
    ensures
        index_of(qs, x) == index_of(ps, x),
        has_id(qs, x) == has_id(ps, x),
        qs.len() == ps.len(),
{
    assert(ids(qs).len() == qs.len());
    assert(ids(ps).len() == ps.len());
}

/// A present id has a position holding it.
pub proof fn lemma_index_of_present(ps: Seq<ProjectModel>, x: Seq<char>)
    requires
        unique_ids(ps),
        has_id(ps, x),
    ensures
        0 <= index_of(ps, x) < ps.len(),
        ps[index_of(ps, x)].id == x,
{
    let w = choose|j: int| 0 <= j < ids(ps).len() && ids(ps)[j] == x;
    lemma_index_of_unique(ps, w);
}

impl ProjectList {
    /// Adds a project (see `add_spec`).
    pub fn add_project(&mut self, project_target: Project) -> (r: MutationResult)
        requires
            old(self).wf(),
            !has_id(old(self)@.projects, project_target@.id) ==> project_target@.version is None,
        ensures
            final(self).wf(),
            final(self)@ == (ListModel { projects: add_spec(old(self)@.projects, project_target@).0, ..old(self)@ }),
            r@ == add_spec(old(self)@.projects, project_target@).1,
    {
        let ghost ps = self@.projects;
        let lnk = project_target.get_lnk();
        match find_project(&self.projects, &lnk) {
            Some(i) => {
                if project_target.is_manual() && !self.projects[i].is_manual() {
                    self.projects[i].set_manual(true);
                    proof {
                        lemma_update_keeps_ids(ps, i as int, ProjectModel { manual: true, ..ps[i as int] });
                    }
                    assert(self@.projects =~= add_spec(ps, project_target@).0);
                    MutationResult::new(MutationOutcome::ProjectPromoted)
                } else {
                    MutationResult::new(MutationOutcome::AlreadyExists)
                }
            },
            None => {
                let mut mutation = MutationResult::new(MutationOutcome::ProjectAdded).with_target(lnk.clone());
                let mut one = Vec::new();
                one.push(lnk);
                assert(lnk_ids(one@) =~= seq![project_target@.id]);
                mutation.add_added(one);
                self.projects.push(project_target);
                assert(self@.projects =~= ps.push(project_target@));
                proof {
                    let n = ps.len() as int;
                    assert forall|a: int, b: int|
                        0 <= a < n + 1 && 0 <= b < n + 1 && a != b implies self@.projects[a].id
                        != self@.projects[b].id by {
                        if a == n {
                            assert(ids(ps)[b] == ps[b].id);
                        } else if b == n {
                            assert(ids(ps)[a] == ps[a].id);
                        }
                    }
                }
                mutation
            },
        }
    }

    /// Removes a project (see `remove_spec`).
    pub fn remove_project(&mut self, project: &ProjectLnk) -> (r: MutationResult)
        requires
            old(self).wf(),
        ensures
            final(self).wf(),
            final(self)@ == (ListModel { projects: remove_spec(old(self)@.projects, project@).0, ..old(self)@ }),
            r@ == remove_spec(old(self)@.projects, project@).1,
    {
        let ghost ps = self@.projects;
        let i = match find_project(&self.projects, project) {
            Some(i) => i,
            None => {
                return MutationResult::not_found();
            },
        };
        if self.projects[i].has_dependents() {
            self.projects[i].set_manual(false);
            proof {
                lemma_update_keeps_ids(ps, i as int, ProjectModel { manual: false, ..ps[i as int] });
            }
            assert(self@.projects =~= remove_spec(ps, project@).0);
            return MutationResult::new(MutationOutcome::ProjectDemoted).with_target(project.clone());
        }
        let mut mutation = MutationResult::new(MutationOutcome::ProjectRemoved).with_target(project.clone());
        let ghost m0 = mutation@;
        mutation.chain(self.clear_dependencies_internal(project));
        proof {
            lemma_clear_spec_ids(ps, project@);
            lemma_index_stable(ps, clear_spec(ps, project@).0, project@);
        }
        let pos = find_project(&self.projects, project).unwrap();
        proof {
            lemma_remove_keeps_unique(self@.projects, pos as int);
        }
        self.projects.remove(pos);
        let mut one = Vec::new();
        one.push(project.clone());
        assert(lnk_ids(one@) =~= seq![project@]);
        mutation.add_removed(one);
        assert(self@.projects =~= purge_one(ps, m0, project@).0);
        assert(mutation@ =~= purge_one(ps, m0, project@).1);
        mutation.chain(self.cleanup_orphaned_dependencies());
        mutation
    }

    /// Adds a version to a project (see `add_version_spec`). Every project the
    /// version depends on must be in the list.
    pub fn add_version(&mut self, project: &ProjectLnk, version: ProjectVersion) -> (r: MutationResult)
        requires
            old(self).wf(),
            has_id(old(self)@.projects, project@) ==> deps_present(old(self)@.projects, version@),
        ensures
            final(self).wf(),
            final(self)@ == (ListModel {
                projects: add_version_spec(old(self)@.projects, project@, version@).0,
                ..old(self)@
            }),
            r@ == add_version_spec(old(self)@.projects, project@, version@).1,
    {
        let ghost ps = self@.projects;
        if find_project(&self.projects, project).is_none() {
            return MutationResult::not_found();
        }
        let mut mutation = MutationResult::new(MutationOutcome::VersionAdded).with_target(project.clone());
        let ghost ds = dep_projects(version@.deps);
        let mut changed: Vec<ProjectLnk> = Vec::new();
        let mut k: usize = 0;
        while k < version.depended_on.len()
            invariant
                k <= version.depended_on.len(),
                ds == dep_projects(version@.deps),
                deps_present(ps, version@),
                self@ == (ListModel { projects: with_dependent_all(ps, ds.take(k as int), project@), ..old(self)@ }),
                lnk_ids(changed@) == ds.take(k as int),
                unique_ids(ps),
                unique_types(self@.type_config),
            decreases version.depended_on.len() - k,
        {
            let d = &version.depended_on[k].project;
            assert(version@.deps[k as int].project == d@);
            proof {
                lemma_with_dependent_all_ids(ps, ds.take(k as int), project@);
                lemma_index_stable(ps, with_dependent_all(ps, ds.take(k as int), project@), d@);
            }
            self.add_dependent_to(d, project);
            assert(ds.take(k + 1).drop_last() =~= ds.take(k as int));
            let ghost before = changed@;
            changed.push(d.clone());
            assert(lnk_ids(changed@) =~= lnk_ids(before).push(d@));
            assert(ds.take(k + 1) =~= ds.take(k as int).push(d@));
            k = k + 1;
        }
        assert(ds.take(ds.len() as int) =~= ds);
        proof {
            lemma_with_dependent_all_ids(ps, ds, project@);
            lemma_index_stable(ps, with_dependent_all(ps, ds, project@), project@);
            lemma_index_of_present(ps, project@);
        }
        mutation.add_changed(changed);
        let ghost ps1 = self@.projects;
        let i = find_project(&self.projects, project).unwrap();
        self.projects[i].set_version(version);
        proof {
            lemma_update_keeps_ids(ps1, i as int, ProjectModel { version: Some(version@), ..ps1[i as int] });
        }
        assert(self@.projects =~= add_version_spec(ps, project@, version@).0);
        let mut one = Vec::new();
        one.push(project.clone());
        assert(lnk_ids(one@) =~= seq![project@]);
        mutation.add_changed(one);
        assert(mutation@.changed =~= ds.push(project@));
        mutation
    }

    /// Removes the version of a project (see `remove_version_spec`).
    pub fn remove_version(&mut self, project: &ProjectLnk) -> (r: MutationResult)
        requires
            old(self).wf(),
        ensures
            final(self).wf(),
            final(self)@ == (ListModel {
                projects: remove_version_spec(old(self)@.projects, project@).0,
                ..old(self)@
            }),
            r@ == remove_version_spec(old(self)@.projects, project@).1,
    {
        let ghost ps = self@.projects;
        let i = match find_project(&self.projects, project) {
            Some(i) => i,
            None => {
                return MutationResult::not_found();
            },
        };
        if !self.projects[i].has_version() {
            return MutationResult::unchanged();
        }
        let mut mutation = MutationResult::new(MutationOutcome::VersionRemoved).with_target(project.clone());
        mutation.chain(self.clear_dependencies_internal(project));
        proof {
            lemma_clear_spec_ids(ps, project@);
            lemma_index_stable(ps, clear_spec(ps, project@).0, project@);
        }
        let ghost ps1 = self@.projects;
        let j = find_project(&self.projects, project).unwrap();
        let _ = self.projects[j].clear_project_version();
        proof {
            lemma_update_keeps_ids(ps1, j as int, ProjectModel { version: None, ..ps1[j as int] });
        }
        assert(self@.projects =~= ps1.update(j as int, ProjectModel { version: None, ..ps1[j as int] }));
        mutation.chain(self.cleanup_orphaned_dependencies());
        mutation
    }
}


/// Changing the manual type of the dependency of `x`'s version on `d`: the report
/// gives the old and new effective types and whether tracking changed; when the
/// dependency stops being tracked, `d` forgets `x` as a dependent and orphans are
/// cleaned up; when it starts being tracked, `d` records `x`. Absent projects, a
/// missing version or a missing dependency give "not found".
pub open spec fn set_override_spec(
    ps: Seq<ProjectModel>,
    x: Seq<char>,
    d: Seq<char>,
    new: Option<bool>,
) -> (Seq<ProjectModel>, MutationModel) {
    if !has_id(ps, x) || !has_id(ps, d) {
        (ps, plain(MutationOutcome::NotFound))
    } else {
        let i = index_of(ps, x);
        match ps[i].version {
            None => (ps, plain(MutationOutcome::NotFound)),
            Some(v) => {
                if !has_dep(v.deps, d) {
                    (ps, plain(MutationOutcome::NotFound))
                } else {
                    let k = dep_index(v.deps, d);
                    let dep = v.deps[k];
                    let old_should = needs_managing(dep.dtype, dep.manual);
                    let new_should = needs_managing(dep.dtype, new);
                    let m0 = MutationModel {
                        changed: seq![x],
                        ..plain(
                            MutationOutcome::OverrideUpdated {
                                old: effective_type(dep.dtype, dep.manual),
                                new: effective_type(dep.dtype, new),
                                management_changed: old_should != new_should,
                            },
                        )
                    };
                    let ps1 = ps.update(
                        i,
                        ProjectModel {
                            version: Some(
                                ProjectVersionModel { deps: v.deps.update(k, DepModel { manual: new, ..dep }), ..v },
                            ),
                            ..ps[i]
                        },
                    );
                    if old_should && !new_should {
                        let cl = cleanup_spec(without_dependent(ps1, d, x), plain(MutationOutcome::OrphansCleared));
                        let m1 = accumulated(m0, cl.1);
                        (cl.0, MutationModel { changed: m1.changed.push(d), ..m1 })
                    } else if !old_should && new_should {
                        (with_dependent(ps1, d, x), MutationModel { changed: m0.changed.push(d), ..m0 })
                    } else {
                        (ps1, MutationModel { changed: m0.changed.push(d), ..m0 })
                    }
                }
            },
        }
    }
}

/// A project counts as archived when it is archived and no present project that
/// depends on it is unarchived.
pub open spec fn archived_spec(ps: Seq<ProjectModel>, x: Seq<char>) -> bool {
    let p = proj(ps, x);
    &&& p.archived
    &&& forall|k: int|
        0 <= k < p.dependents.len() ==> !(has_id(ps, #[trigger] p.dependents[k]) && !proj(
            ps,
            p.dependents[k],
        ).archived)
}

/// Only an archived project counts as archived, and a project that some present,
/// unarchived project depends on never counts as archived, whatever its own flag says;
/// an archived project none of whose present dependents is unarchived does.
pub proof fn law_archived_needs_archived_dependents(ps: Seq<ProjectModel>, x: Seq<char>, d: Seq<char>)
    ensures
        archived_spec(ps, x) ==> proj(ps, x).archived,
        proj(ps, x).dependents.contains(d) && has_id(ps, d) && !proj(ps, d).archived ==> !archived_spec(ps, x),
        proj(ps, x).archived && (forall|e: Seq<char>|
            proj(ps, x).dependents.contains(e) && has_id(ps, e) ==> proj(ps, e).archived) ==> archived_spec(ps, x),
{
    let p = proj(ps, x);
    if p.dependents.contains(d) && has_id(ps, d) && !proj(ps, d).archived {
        let k = choose|k: int| 0 <= k < p.dependents.len() && p.dependents[k] == d;
        assert(has_id(ps, p.dependents[k]) && !proj(ps, p.dependents[k]).archived);
    }
    if p.archived && (forall|e: Seq<char>| p.dependents.contains(e) && has_id(ps, e) ==> proj(ps, e).archived) {
        assert forall|k: int| 0 <= k < p.dependents.len() implies !(has_id(ps, #[trigger] p.dependents[k])
            && !proj(ps, p.dependents[k]).archived) by {
            assert(p.dependents.contains(p.dependents[k]));
        }
    }
}

/// The version that the dependent `dd` asks of `x`, when `dd` is present, has a
/// version with a dependency on `x` of the wanted kind (required, or incompatible
/// when `disallowed`), and names a version.
pub open spec fn dependent_version_pick(
    ps: Seq<ProjectModel>,
    x: Seq<char>,
    dd: Seq<char>,
    disallowed: bool,
) -> Option<Seq<char>> {
    if !has_id(ps, dd) {
        None
    } else {
        match proj(ps, dd).version {
            None => None,
            Some(v) => {
                if !has_dep(v.deps, x) {
                    None
                } else {
                    let dep = v.deps[dep_index(v.deps, x)];
                    let t = effective_type(dep.dtype, dep.manual);
                    let wanted = if disallowed {
                        t == ProjectDependencyType::Incompatible
                    } else {
                        t == ProjectDependencyType::Required
                    };
                    if wanted {
                        dep.version_id
                    } else {
                        None
                    }
                }
            },
        }
    }
}

/// The versions asked of `x` by the dependents `dds`, in order, each once.
pub open spec fn dependent_versions(
    ps: Seq<ProjectModel>,
    x: Seq<char>,
    dds: Seq<Seq<char>>,
    disallowed: bool,
) -> Seq<Seq<char>>
    decreases dds.len(),
{
    if dds.len() == 0 {
        Seq::empty()
    } else {
        let acc = dependent_versions(ps, x, dds.drop_last(), disallowed);
        match dependent_version_pick(ps, x, dds.last(), disallowed) {
            Some(v) => if acc.contains(v) {
                acc
            } else {
                acc.push(v)
            },
            None => acc,
        }
    }
}

impl ProjectList {
    /// Changes the manual type of a dependency (see `set_override_spec`).
    pub fn set_manual_dependency_type(
        &mut self,
        project: &ProjectLnk,
        depended_on_project: &ProjectLnk,
        new_manual_dependency_type: Option<bool>,
    ) -> (r: MutationResult)
        requires
            old(self).wf(),
        ensures
            final(self).wf(),
            final(self)@ == (ListModel {
                projects: set_override_spec(
                    old(self)@.projects,
                    project@,
                    depended_on_project@,
                    new_manual_dependency_type,
                ).0,
                ..old(self)@
            }),
            r@ == set_override_spec(old(self)@.projects, project@, depended_on_project@, new_manual_dependency_type).1,
    {
        let ghost ps = self@.projects;
        let i = match find_project(&self.projects, project) {
            Some(i) => i,
            None => {
                return MutationResult::not_found();
            },
        };
        if find_project(&self.projects, depended_on_project).is_none() {
            return MutationResult::not_found();
        }
        let (dtype, old_manual) = match self.projects[i].get_version() {
            None => {
                return MutationResult::not_found();
            },
            Some(v) => match v.get_depended_on(depended_on_project) {
                None => {
                    return MutationResult::not_found();
                },
                Some(dep) => (dep.dependency_type, dep.manual_dependency_type),
            },
        };
        let old_should_manage = dtype.needs_managing(old_manual);
        let new_should_manage = dtype.needs_managing(new_manual_dependency_type);
        let management_changed = old_should_manage != new_should_manage;
        let mut mutation = MutationResult::new(
            MutationOutcome::OverrideUpdated {
                old: dtype.get_effective_type(old_manual),
                new: dtype.get_effective_type(new_manual_dependency_type),
                management_changed,
            },
        );
        proof {
            crate::project::lemma_dep_index(ps[i as int].version.unwrap().deps, depended_on_project@);
        }
        self.projects[i].set_version_dep_manual_type(depended_on_project, new_manual_dependency_type);
        proof {
            let v = ps[i as int].version.unwrap();
            let k = dep_index(v.deps, depended_on_project@);
            let q = ProjectModel {
                version: Some(
                    ProjectVersionModel {
                        deps: v.deps.update(k, DepModel { manual: new_manual_dependency_type, ..v.deps[k] }),
                        ..v
                    },
                ),
                ..ps[i as int]
            };
            lemma_update_keeps_ids(ps, i as int, q);
            assert(self@.projects =~= ps.update(i as int, q));
        }
        let mut one = Vec::new();
        one.push(project.clone());
        assert(lnk_ids(one@) =~= seq![project@]);
        mutation.add_changed(one);
        let ghost ps1 = self@.projects;
        if old_should_manage && !new_should_manage {
            self.remove_dependent_from(depended_on_project, project);
            proof {
                let one = seq![depended_on_project@];
                assert(one.drop_last() =~= Seq::<Seq<char>>::empty());
                reveal_with_fuel(without_dependent_all, 2);
                assert(without_dependent_all(ps1, one, project@) == without_dependent(ps1, depended_on_project@, project@));
                lemma_without_dependent_all_ids(ps1, one, project@);
            }
            mutation.chain(self.cleanup_orphaned_dependencies());
        } else if !old_should_manage && new_should_manage {
            self.add_dependent_to(depended_on_project, project);
            proof {
                let one = seq![depended_on_project@];
                assert(one.drop_last() =~= Seq::<Seq<char>>::empty());
                reveal_with_fuel(with_dependent_all, 2);
                assert(with_dependent_all(ps1, one, project@) == with_dependent(ps1, depended_on_project@, project@));
                lemma_with_dependent_all_ids(ps1, one, project@);
            }
        }
        let ghost mb = mutation@;
        let mut two = Vec::new();
        two.push(depended_on_project.clone());
        assert(lnk_ids(two@) =~= seq![depended_on_project@]);
        mutation.add_changed(two);
        assert(mutation@.changed =~= mb.changed.push(depended_on_project@));
        mutation
    }

    /// Whether a project counts as archived (see `archived_spec`); the project must be in the list.
    pub fn is_project_archived(&self, project: &ProjectLnk) -> (r: bool)
        requires
            has_id(self@.projects, project@),
        ensures
            r == archived_spec(self@.projects, project@),
    {
        let i = find_project(&self.projects, project).unwrap();
        if !self.projects[i].is_archived() {
            return false;
        }
        let dependents = self.projects[i].get_dependents();
        let ghost p = self@.projects[i as int];
        let mut k: usize = 0;
        while k < dependents.len()
            invariant
                k <= dependents.len(),
                lnk_ids(dependents@) == p.dependents,
                p == proj(self@.projects, project@),
                forall|j: int|
                    0 <= j < k ==> !(has_id(self@.projects, #[trigger] p.dependents[j]) && !proj(
                        self@.projects,
                        p.dependents[j],
                    ).archived),
            decreases dependents.len() - k,
        {
            let d = &dependents[k];
            assert(p.dependents[k as int] == d@);
            match find_project(&self.projects, d) {
                Some(j) => {
                    if !self.projects[j].is_archived() {
                        return false;
                    }
                },
                None => {},
            }
            k = k + 1;
        }
        true
    }

    /// The versions that dependents of a project ask of it (see `dependent_versions`).
    pub fn get_dependents_versions_ids(&self, project: &ProjectLnk, disallowed_mode: bool) -> (r: Vec<String>)
        ensures
            r@.map_values(|s: String| s@) == if has_id(self@.projects, project@) {
                dependent_versions(
                    self@.projects,
                    project@,
                    proj(self@.projects, project@).dependents,
                    disallowed_mode,
                )
            } else {
                Seq::empty()
            },
    {
        let mut versions: Vec<String> = Vec::new();
        let ghost ps = self@.projects;
        let i = match find_project(&self.projects, project) {
            Some(i) => i,
            None => {
                assert(versions@.map_values(|s: String| s@) =~= Seq::<Seq<char>>::empty());
                return versions;
            },
        };
        let dependents = self.projects[i].get_dependents();
        let ghost dds = lnk_ids(dependents@);
        let mut k: usize = 0;
        while k < dependents.len()
            invariant
                k <= dependents.len(),
                dds == lnk_ids(dependents@),
                dds == proj(ps, project@).dependents,
                ps == self@.projects,
                versions@.map_values(|s: String| s@) == dependent_versions(ps, project@, dds.take(k as int), disallowed_mode),
            decreases dependents.len() - k,
        {
            let dd = &dependents[k];
            assert(dds.take(k + 1).drop_last() =~= dds.take(k as int));
            assert(dds.take(k + 1).last() == dd@);
            let pick: Option<String> = match find_project(&self.projects, dd) {
                None => None,
                Some(j) => match self.projects[j].get_version() {
                    None => None,
                    Some(v) => match v.get_depended_on(project) {
                        None => None,
                        Some(dep) => {
                            let t = dep.dependency_type.get_effective_type(dep.manual_dependency_type);
                            let wanted = if disallowed_mode {
                                t.is_negative()
                            } else {
                                t.is_positive()
                            };
                            if wanted {
                                crate::project::clone_opt_string(&dep.version_id)
                            } else {
                                None
                            }
                        },
                    },
                },
            };
            assert(crate::project::opt_view(pick) == dependent_version_pick(ps, project@, dd@, disallowed_mode));
            match pick {
                Some(vid) => {
                    if !contains_string(&versions, &vid) {
                        let ghost before = versions@.map_values(|s: String| s@);
                        versions.push(vid);
                        assert(versions@.map_values(|s: String| s@) =~= before.push(vid@));
                    }
                },
                None => {},
            }
            k = k + 1;
        }
        assert(dds.take(dds.len() as int) =~= dds);
        versions
    }
}

/// Whether `v` holds a string equal to `s`.
pub fn contains_string(v: &Vec<String>, s: &String) -> (r: bool)
    ensures
        r == v@.map_values(|x: String| x@).contains(s@),
{
    let ghost m = v@.map_values(|x: String| x@);
    let mut i: usize = 0;
    while i < v.len()
        invariant
            m == v@.map_values(|x: String| x@),
            i <= v.len(),
            forall|j: int| 0 <= j < i ==> m[j] != s@,
        decreases v.len() - i,
    {
        if v[i] == *s {
            assert(m[i as int] == s@);
            return true;
        }
        i = i + 1;
    }
    false
}


// ---- laws ----

/// No project of the sequence is cleanable.
pub open spec fn no_orphans(ps: Seq<ProjectModel>) -> bool {
    forall|i: int| 0 <= i < ps.len() ==> !is_cleanable(#[trigger] ps[i])
}

/// The cleanup leaves no orphan behind, and keeps ids unique.
pub proof fn lemma_cleanup_no_orphans(ps: Seq<ProjectModel>, m: MutationModel)
    requires
        unique_ids(ps),
    ensures
        no_orphans(cleanup_spec(ps, m).0),
        unique_ids(cleanup_spec(ps, m).0),
    decreases ps.len(),
{
    lemma_cleanable_ids(ps);
    let xs = cleanable_ids(ps);
    if xs.len() > 0 {
        let r = purge_all(ps, m, xs);
        lemma_purge_all(ps, m, xs);
        lemma_cleanable_first_present(ps);
        lemma_cleanup_no_orphans(r.0, r.1);
    }
}

/// Removing a project that nothing depends on leaves no orphaned dependency in the list.
pub proof fn law_remove_leaves_no_orphans(ps: Seq<ProjectModel>, x: Seq<char>)
    requires
        unique_ids(ps),
        has_id(ps, x),
        proj(ps, x).dependents.len() == 0,
    ensures
        no_orphans(remove_spec(ps, x).0),
{
    let r = purge_one(ps, targeted(MutationOutcome::ProjectRemoved, x), x);
    lemma_purge_one(ps, targeted(MutationOutcome::ProjectRemoved, x), x);
    lemma_cleanup_no_orphans(r.0, plain(MutationOutcome::OrphansCleared));
}

/// Removing a version leaves no orphaned dependency in the list.
pub proof fn law_remove_version_leaves_no_orphans(ps: Seq<ProjectModel>, x: Seq<char>)
    requires
        unique_ids(ps),
        has_id(ps, x),
        ps[index_of(ps, x)].version is Some,
    ensures
        no_orphans(remove_version_spec(ps, x).0),
{
    let c = clear_spec(ps, x);
    lemma_clear_spec_ids(ps, x);
    lemma_index_stable(ps, c.0, x);
    lemma_index_of_present(c.0, x);
    let i = index_of(c.0, x);
    let q = ProjectModel { version: None, ..c.0[i] };
    lemma_update_keeps_ids(c.0, i, q);
    lemma_cleanup_no_orphans(c.0.update(i, q), plain(MutationOutcome::OrphansCleared));
}

/// A project that others depend on is not removed: it stays in the list and is
/// only no longer hand-chosen.
pub proof fn law_remove_demotes_depended_on(ps: Seq<ProjectModel>, x: Seq<char>)
    requires
        unique_ids(ps),
        has_id(ps, x),
        proj(ps, x).dependents.len() > 0,
    ensures
        has_id(remove_spec(ps, x).0, x),
        !proj(remove_spec(ps, x).0, x).manual,
        remove_spec(ps, x).0.len() == ps.len(),
{
    lemma_index_of_present(ps, x);
    let i = index_of(ps, x);
    let q = ProjectModel { manual: false, ..ps[i] };
    lemma_update_keeps_ids(ps, i, q);
    lemma_index_stable(ps, ps.update(i, q), x);
}

/// After adding a project, the list holds a project with its id.
pub proof fn law_added_project_is_present(ps: Seq<ProjectModel>, p: ProjectModel)
    ensures
        has_id(add_spec(ps, p).0, p.id),
{
    if !has_id(ps, p.id) {
        assert(ids(ps.push(p)) =~= ids(ps).push(p.id));
        assert(ids(ps.push(p))[ps.len() as int] == p.id);
    } else {
        let i = index_of(ps, p.id);
        if p.manual && !ps[i].manual {
            lemma_first_index_valid(ids(ps), p.id);
            lemma_update_keeps_ids(ps, i, ProjectModel { manual: true, ..ps[i] });
        }
    }
}

proof fn lemma_first_index_valid(s: Seq<Seq<char>>, x: Seq<char>)
    requires
        s.contains(x),
    ensures
        0 <= first_index(s, x) < s.len(),
{
    crate::project::lemma_first_index(s, x);
}

/// Adding a new hand-chosen project (without version or dependents) to a list
/// without orphans and then removing it gives back the list as it was.
pub proof fn law_add_then_remove(ps: Seq<ProjectModel>, p: ProjectModel)
    requires
        unique_ids(ps),
        no_orphans(ps),
        !has_id(ps, p.id),
        p.manual,
        p.version is None,
        p.dependents.len() == 0,
    ensures
        remove_spec(add_spec(ps, p).0, p.id).0 == ps,
{
    let ps2 = ps.push(p);
    let n = ps.len() as int;
    assert(add_spec(ps, p).0 == ps2);
    assert(ids(ps2) =~= ids(ps).push(p.id));
    assert forall|a: int, b: int| 0 <= a < n + 1 && 0 <= b < n + 1 && a != b implies ps2[a].id != ps2[b].id by {
        if a == n {
            assert(ids(ps)[b] == ps[b].id);
        } else if b == n {
            assert(ids(ps)[a] == ps[a].id);
        }
    }
    lemma_index_of_unique(ps2, n);
    assert(ps2[n] == p);
    assert(clear_spec(ps2, p.id).0 == ps2);
    assert(ps2.remove(n) =~= ps);
    let r = purge_one(ps2, targeted(MutationOutcome::ProjectRemoved, p.id), p.id);
    assert(r.0 == ps);
    lemma_cleanable_ids(ps);
    assert(cleanable_ids(ps).len() == 0);
}


/// Adding a project keeps every project the list held.
pub proof fn law_add_keeps_projects(ps: Seq<ProjectModel>, p: ProjectModel, x: Seq<char>)
    requires
        has_id(ps, x),
    ensures
        has_id(add_spec(ps, p).0, x),
{
    if !has_id(ps, p.id) {
        assert(ids(ps.push(p)) =~= ids(ps).push(p.id));
        let k = choose|k: int| 0 <= k < ids(ps).len() && ids(ps)[k] == x;
        assert(ids(ps.push(p))[k] == x);
    } else {
        let i = index_of(ps, p.id);
        if p.manual && !ps[i].manual {
            lemma_first_index_valid(ids(ps), p.id);
            lemma_update_keeps_ids(ps, i, ProjectModel { manual: true, ..ps[i] });
        }
    }
}

/// Adding a version to a project keeps every project the list held.
pub proof fn law_add_version_keeps_projects(ps: Seq<ProjectModel>, x: Seq<char>, v: ProjectVersionModel, y: Seq<char>)
    requires
        unique_ids(ps),
        has_id(ps, y),
    ensures
        has_id(add_version_spec(ps, x, v).0, y),
{
    if has_id(ps, x) {
        let ds = dep_projects(v.deps);
        let ps1 = with_dependent_all(ps, ds, x);
        lemma_with_dependent_all_ids(ps, ds, x);
        lemma_index_stable(ps, ps1, x);
        lemma_index_of_present(ps, x);
        let i = index_of(ps1, x);
        lemma_update_keeps_ids(ps1, i, ProjectModel { version: Some(v), ..ps1[i] });
    }
}

/// Recording dependents changes no project's hand-chosen flag.
pub proof fn lemma_with_dependent_all_manual(ps: Seq<ProjectModel>, ds: Seq<Seq<char>>, p: Seq<char>)
    ensures
        with_dependent_all(ps, ds, p).len() == ps.len(),
        forall|i: int| 0 <= i < ps.len() ==> (#[trigger] with_dependent_all(ps, ds, p)[i]).manual == ps[i].manual,
    decreases ds.len(),
{
    if ds.len() > 0 {
        lemma_with_dependent_all_manual(ps, ds.drop_last(), p);
    }
}

/// Adding a version to a project changes no project's hand-chosen flag.
pub proof fn lemma_add_version_manual(ps: Seq<ProjectModel>, x: Seq<char>, v: ProjectVersionModel, y: Seq<char>)
    requires
        unique_ids(ps),
        has_id(ps, y),
    ensures
        has_id(add_version_spec(ps, x, v).0, y),
        proj(add_version_spec(ps, x, v).0, y).manual == proj(ps, y).manual,
{
    lemma_index_of_present(ps, y);
    if has_id(ps, x) {
        let ds = dep_projects(v.deps);
        let ps1 = with_dependent_all(ps, ds, x);
        lemma_with_dependent_all_ids(ps, ds, x);
        lemma_with_dependent_all_manual(ps, ds, x);
        lemma_index_stable(ps, ps1, x);
        lemma_index_stable(ps, ps1, y);
        lemma_index_of_present(ps, x);
        let i = index_of(ps1, x);
        let q = ProjectModel { version: Some(v), ..ps1[i] };
        lemma_update_keeps_ids(ps1, i, q);
        lemma_index_stable(ps1, ps1.update(i, q), y);
    }
}

/// Adding a hand-chosen project leaves the list holding it as hand-chosen, and every
/// project that was hand-chosen stays so.
pub proof fn lemma_add_manual(ps: Seq<ProjectModel>, p: ProjectModel, y: Seq<char>)
    requires
        unique_ids(ps),
    ensures
        p.manual ==> has_id(add_spec(ps, p).0, p.id) && proj(add_spec(ps, p).0, p.id).manual,
        has_id(ps, y) && proj(ps, y).manual ==> has_id(add_spec(ps, p).0, y) && proj(add_spec(ps, p).0, y).manual,
{
    if has_id(ps, p.id) {
        let i = index_of(ps, p.id);
        lemma_index_of_present(ps, p.id);
        if p.manual && !ps[i].manual {
            let q = ProjectModel { manual: true, ..ps[i] };
            lemma_update_keeps_ids(ps, i, q);
            lemma_index_stable(ps, ps.update(i, q), p.id);
            lemma_index_stable(ps, ps.update(i, q), y);
            if has_id(ps, y) {
                lemma_index_of_present(ps, y);
            }
        }
    } else {
        let r = ps.push(p);
        assert(ids(r) =~= ids(ps).push(p.id));
        assert(unique_ids(r)) by {
            assert forall|a: int, b: int| 0 <= a < r.len() && 0 <= b < r.len() && a != b implies r[a].id != r[b].id by {
                if a == ps.len() {
                    assert(ids(ps)[b] == ps[b].id);
                } else if b == ps.len() {
                    assert(ids(ps)[a] == ps[a].id);
                }
            }
        }
        lemma_index_of_unique(r, ps.len() as int);
        if has_id(ps, y) {
            lemma_index_of_present(ps, y);
            let i = index_of(ps, y);
            assert(r[i] == ps[i]);
            lemma_index_of_unique(r, i);
        }
    }
}

/// Recording a dependent on several projects changes no project's version.
pub proof fn lemma_with_dependent_all_versions(ps: Seq<ProjectModel>, ds: Seq<Seq<char>>, p: Seq<char>)
    ensures
        with_dependent_all(ps, ds, p).len() == ps.len(),
        forall|i: int| 0 <= i < ps.len() ==> (#[trigger] with_dependent_all(ps, ds, p)[i]).version == ps[i].version,
    decreases ds.len(),
{
    if ds.len() > 0 {
        lemma_with_dependent_all_versions(ps, ds.drop_last(), p);
    }
}

/// Adding a version to `x` gives `x` that version and leaves the version of every other
/// project as it was.
pub proof fn lemma_add_version_versions(ps: Seq<ProjectModel>, x: Seq<char>, v: ProjectVersionModel, y: Seq<char>)
    requires
        unique_ids(ps),
        has_id(ps, x),
        has_id(ps, y),
    ensures
        proj(add_version_spec(ps, x, v).0, y).version == (if y == x { Some(v) } else { proj(ps, y).version }),
{
    lemma_index_of_present(ps, y);
    lemma_index_of_present(ps, x);
    let ds = dep_projects(v.deps);
    let ps1 = with_dependent_all(ps, ds, x);
    lemma_with_dependent_all_ids(ps, ds, x);
    lemma_with_dependent_all_versions(ps, ds, x);
    lemma_index_stable(ps, ps1, x);
    lemma_index_stable(ps, ps1, y);
    let i = index_of(ps1, x);
    let q = ProjectModel { version: Some(v), ..ps1[i] };
    lemma_update_keeps_ids(ps1, i, q);
    lemma_index_stable(ps1, ps1.update(i, q), y);
}

/// Adding a project keeps every project held and its version; a project that was not
/// held is held afterwards as it was given; nothing else is added.
pub proof fn lemma_add_versions(ps: Seq<ProjectModel>, p: ProjectModel, y: Seq<char>)
    requires
        unique_ids(ps),
    ensures
        has_id(ps, y) ==> has_id(add_spec(ps, p).0, y) && proj(add_spec(ps, p).0, y).version == proj(ps, y).version,
        !has_id(ps, p.id) ==> has_id(add_spec(ps, p).0, p.id) && proj(add_spec(ps, p).0, p.id) == p,
        has_id(add_spec(ps, p).0, y) ==> has_id(ps, y) || y == p.id,
        unique_ids(add_spec(ps, p).0),
{
    lemma_add_manual(ps, p, y);
    law_added_project_is_present(ps, p);
    if has_id(ps, y) {
        law_add_keeps_projects(ps, p, y);
        lemma_index_of_present(ps, y);
    }
    if has_id(ps, p.id) {
        let i = index_of(ps, p.id);
        lemma_index_of_present(ps, p.id);
        if p.manual && !ps[i].manual {
            let q = ProjectModel { manual: true, ..ps[i] };
            lemma_update_keeps_ids(ps, i, q);
            lemma_index_stable(ps, ps.update(i, q), y);
        }
    } else {
        let r = ps.push(p);
        assert(ids(r) =~= ids(ps).push(p.id));
        assert(unique_ids(r)) by {
            assert forall|a: int, b: int| 0 <= a < r.len() && 0 <= b < r.len() && a != b implies r[a].id != r[b].id by {
                if a == ps.len() {
                    assert(ids(ps)[b] == ps[b].id);
                } else if b == ps.len() {
                    assert(ids(ps)[a] == ps[a].id);
                }
            }
        }
        lemma_index_of_unique(r, ps.len() as int);
        if has_id(ps, y) {
            let i = index_of(ps, y);
            assert(r[i] == ps[i]);
            lemma_index_of_unique(r, i);
        }
        if has_id(r, y) && y != p.id {
            let k = choose|k: int| 0 <= k < ids(r).len() && ids(r)[k] == y;
            assert(k < ps.len());
            assert(ids(ps)[k] == y);
        }
    }
}

/// Adding a version to a project neither adds nor removes a project: the ids stay as
/// they were, in order.
pub proof fn law_add_version_keeps_ids(ps: Seq<ProjectModel>, x: Seq<char>, v: ProjectVersionModel)
    requires
        unique_ids(ps),
    ensures
        ids(add_version_spec(ps, x, v).0) == ids(ps),
{
    if has_id(ps, x) {
        let ds = dep_projects(v.deps);
        let ps1 = with_dependent_all(ps, ds, x);
        lemma_with_dependent_all_ids(ps, ds, x);
        lemma_index_stable(ps, ps1, x);
        lemma_index_of_present(ps, x);
        let i = index_of(ps1, x);
        lemma_update_keeps_ids(ps1, i, ProjectModel { version: Some(v), ..ps1[i] });
    }
}

/// After a version is added to a project of the list, the project has that version.
pub proof fn law_added_version_is_set(ps: Seq<ProjectModel>, x: Seq<char>, v: ProjectVersionModel)
    requires
        unique_ids(ps),
        has_id(ps, x),
    ensures
        has_id(add_version_spec(ps, x, v).0, x),
        proj(add_version_spec(ps, x, v).0, x).version == Some(v),
{
    let ds = dep_projects(v.deps);
    let ps1 = with_dependent_all(ps, ds, x);
    lemma_with_dependent_all_ids(ps, ds, x);
    lemma_index_stable(ps, ps1, x);
    lemma_index_of_present(ps, x);
    let i = index_of(ps1, x);
    let q = ProjectModel { version: Some(v), ..ps1[i] };
    lemma_update_keeps_ids(ps1, i, q);
    lemma_index_stable(ps1, ps1.update(i, q), x);
}

/// Adding a project adds no project other than it.
pub proof fn lemma_add_only_adds(ps: Seq<ProjectModel>, p: ProjectModel, y: Seq<char>)
    requires
        has_id(add_spec(ps, p).0, y),
    ensures
        has_id(ps, y) || y == p.id,
{
    if !has_id(ps, p.id) {
        assert(ids(ps.push(p)) =~= ids(ps).push(p.id));
        let k = choose|k: int| 0 <= k < ids(ps.push(p)).len() && ids(ps.push(p))[k] == y;
        if k < ps.len() {
            assert(ids(ps)[k] == y);
        }
    } else {
        let i = index_of(ps, p.id);
        if p.manual && !ps[i].manual {
            lemma_first_index_valid(ids(ps), p.id);
            lemma_update_keeps_ids(ps, i, ProjectModel { manual: true, ..ps[i] });
        }
    }
}

// ---- reading and configuring a list ----

/// The projects for which `f` holds, in order.
pub open spec fn select(ps: Seq<ProjectModel>, f: spec_fn(ProjectModel) -> bool) -> Seq<ProjectModel>
    decreases ps.len(),
{
    if ps.len() == 0 {
        Seq::empty()
    } else {
        let r = select(ps.drop_last(), f);
        if f(ps.last()) {
            r.push(ps.last())
        } else {
            r
        }
    }
}

/// Hand-chosen projects of the given type.
pub open spec fn manual_of_type(t: ResourceType) -> spec_fn(ProjectModel) -> bool {
    |p: ProjectModel| p.manual && p.rtype == t
}

pub open spec fn of_type(t: ResourceType) -> spec_fn(ProjectModel) -> bool {
    |p: ProjectModel| p.rtype == t
}

pub open spec fn is_manual_project() -> spec_fn(ProjectModel) -> bool {
    |p: ProjectModel| p.manual
}

/// Projects whose lowercased name holds the lowercased query.
pub open spec fn name_holds(query_lower: Seq<char>) -> spec_fn(ProjectModel) -> bool {
    |p: ProjectModel| crate::text::seq_contains(crate::text::lowercase(p.name), query_lower)
}

/// The types listed when some of them are present, ordered by identifier, each once.
pub open spec fn ordered_types(present: spec_fn(ResourceType) -> bool) -> Seq<ResourceType> {
    (if present(ResourceType::Datapack) { seq![ResourceType::Datapack] } else { Seq::empty() })
        + (if present(ResourceType::Mod) { seq![ResourceType::Mod] } else { Seq::empty() })
        + (if present(ResourceType::Plugin) { seq![ResourceType::Plugin] } else { Seq::empty() })
        + (if present(ResourceType::ResourcePack) { seq![ResourceType::ResourcePack] } else { Seq::empty() })
        + (if present(ResourceType::Shader) { seq![ResourceType::Shader] } else { Seq::empty() })
}

/// Some project of the list has the type.
pub open spec fn type_used(ps: Seq<ProjectModel>, t: ResourceType) -> bool {
    exists|i: int| 0 <= i < ps.len() && ps[i].rtype == t
}

/// The list has settings for the type.
pub open spec fn type_configured(tc: Seq<(ResourceType, TypeConfigModel)>, t: ResourceType) -> bool {
    exists|i: int| 0 <= i < tc.len() && tc[i].0 == t
}

/// The types of a list: those its projects have, ordered by identifier; when it
/// has no projects, the types it has settings for, in the same order.
pub open spec fn list_types(l: ListModel) -> Seq<ResourceType> {
    let used = ordered_types(|t: ResourceType| type_used(l.projects, t));
    if used.len() > 0 {
        used
    } else {
        ordered_types(|t: ResourceType| type_configured(l.type_config, t))
    }
}

/// The position of the settings for a type (-1 when there are none).
pub open spec fn type_index(tc: Seq<(ResourceType, TypeConfigModel)>, t: ResourceType) -> int {
    if type_configured(tc, t) {
        choose|i: int| 0 <= i < tc.len() && tc[i].0 == t
    } else {
        -1
    }
}

/// The settings for a type, when the list has some.
pub open spec fn config_for(tc: Seq<(ResourceType, TypeConfigModel)>, t: ResourceType) -> Option<TypeConfigModel> {
    if type_configured(tc, t) {
        Some(tc[type_index(tc, t)].1)
    } else {
        None
    }
}

pub open spec fn opt_config_view(o: Option<&ProjectTypeConfig>) -> Option<TypeConfigModel> {
    match o {
        Some(c) => Some(c@),
        None => None,
    }
}

/// The abstract value of a new list.
pub open spec fn new_list_model(id: Seq<char>, name: Seq<char>, v: GameVersionModel, created_at: int) -> ListModel {
    ListModel {
        id,
        name,
        game_version: v,
        type_config: Seq::empty(),
        projects: Seq::empty(),
        config_version: 1,
        do_updates: None,
        created_at,
    }
}

/// The references to the projects whose models `f` selects, in order.
fn select_refs<'a>(projects: &'a Vec<Project>, f: Ghost<spec_fn(ProjectModel) -> bool>, mode: u8, t: ResourceType, query_lower: &str) -> (r: Vec<&'a Project>)
    requires
        mode == 0 ==> f@ == manual_of_type(t),
        mode == 1 ==> f@ == of_type(t),
        mode == 2 ==> f@ == is_manual_project(),
        mode == 3 ==> f@ == name_holds(query_lower@),
        mode <= 3,
    ensures
        r@.map_values(|p: &Project| p@) == select(project_models(projects@), f@),
{
    let ghost ps = project_models(projects@);
    let mut r: Vec<&Project> = Vec::new();
    let mut i: usize = 0;
    while i < projects.len()
        invariant
            ps == project_models(projects@),
            i <= projects.len(),
            r@.map_values(|p: &Project| p@) == select(ps.take(i as int), f@),
            mode == 0 ==> f@ == manual_of_type(t),
            mode == 1 ==> f@ == of_type(t),
            mode == 2 ==> f@ == is_manual_project(),
            mode == 3 ==> f@ == name_holds(query_lower@),
            mode <= 3,
        decreases projects.len() - i,
    {
        assert(ps.take(i + 1).drop_last() =~= ps.take(i as int));
        assert(ps.take(i + 1).last() == ps[i as int]);
        let p = &projects[i];
        let keep = if mode == 0 {
            p.is_manual() && p.get_type() == t
        } else if mode == 1 {
            p.get_type() == t
        } else if mode == 2 {
            p.is_manual()
        } else {
            let name_lower = crate::text::to_lowercase(p.cache.name.as_str());
            crate::text::str_contains(name_lower.as_str(), query_lower)
        };
        assert(keep == f@(ps[i as int]));
        if keep {
            let ghost before = r@.map_values(|q: &Project| q@);
            r.push(p);
            assert(r@.map_values(|q: &Project| q@) =~= before.push(ps[i as int]));
        }
        i = i + 1;
    }
    assert(ps.take(ps.len() as int) =~= ps);
    r
}

impl ProjectList {
    /// A fresh list id: "list_" followed by the current Unix time in seconds.
    pub fn generate_id() -> (r: String)
        ensures
            exists|n: nat| r@ == "list_"@ + crate::text::decimal(n),
    {
        let secs = crate::clock::now_nanos() / 1_000_000_000;
        crate::text::with_number("list_", secs)
    }

    /// A new empty list, created now.
    pub fn new(list_id: String, name: String, game_version: GameVersion) -> (r: ProjectList)
        ensures
            r@ == new_list_model(list_id@, name@, game_version@, r@.created_at),
            r.wf(),
    {
        let created_at = now_millis();
        let r = ProjectList {
            list_id,
            metadata: ListMetadata { name, game_version },
            type_config: Vec::new(),
            projects: Vec::new(),
            config: ListConfig { version: 1, do_updates: None, created_at },
        };
        assert(r@.type_config =~= Seq::<(ResourceType, TypeConfigModel)>::empty());
        assert(r@.projects =~= Seq::<ProjectModel>::empty());
        r
    }

    /// A copy of a list under another id, created now; each project is copied
    /// with a new time of addition.
    pub fn new_from_existing(list_file: &ProjectList, list_id: String) -> (r: ProjectList)
        requires
            list_file.wf(),
        ensures
            r.wf(),
            r@.id == list_id@,
            r@.name == list_file@.name,
            r@.game_version == list_file@.game_version,
            r@.type_config == list_file@.type_config,
            r@.config_version == list_file@.config_version,
            r@.do_updates == list_file@.do_updates,
            r@.projects.len() == list_file@.projects.len(),
            forall|i: int|
                0 <= i < r@.projects.len() ==> #[trigger] r@.projects[i] == (ProjectModel {
                    added_at: r@.projects[i].added_at,
                    ..list_file@.projects[i]
                }),
    {
        let mut type_config: Vec<(ResourceType, ProjectTypeConfig)> = Vec::new();
        let mut i: usize = 0;
        while i < list_file.type_config.len()
            invariant
                i <= list_file.type_config.len(),
                config_entries(type_config@) == config_entries(list_file.type_config@).take(i as int),
            decreases list_file.type_config.len() - i,
        {
            let e = &list_file.type_config[i];
            let ghost before = config_entries(type_config@);
            type_config.push((e.0, e.1.clone()));
            assert(config_entries(type_config@) =~= before.push((e.0, e.1@)));
            assert(config_entries(list_file.type_config@).take(i + 1) =~= config_entries(
                list_file.type_config@,
            ).take(i as int).push((e.0, e.1@)));
            i = i + 1;
        }
        assert(config_entries(list_file.type_config@).take(list_file.type_config.len() as int) =~= config_entries(
            list_file.type_config@,
        ));
        let mut projects: Vec<Project> = Vec::new();
        let mut j: usize = 0;
        while j < list_file.projects.len()
            invariant
                j <= list_file.projects.len(),
                projects@.len() == j,
                forall|k: int|
                    0 <= k < j ==> #[trigger] projects@[k]@ == (ProjectModel {
                        added_at: projects@[k]@.added_at,
                        ..list_file.projects@[k]@
                    }),
            decreases list_file.projects.len() - j,
        {
            projects.push(Project::new_from_existing(&list_file.projects[j]));
            j = j + 1;
        }
        let created_at = now_millis();
        let r = ProjectList {
            list_id,
            metadata: ListMetadata {
                name: list_file.metadata.name.clone(),
                game_version: list_file.metadata.game_version.clone(),
            },
            type_config,
            projects,
            config: ListConfig {
                version: list_file.config.version,
                do_updates: list_file.config.do_updates,
                created_at,
            },
        };
        proof {
            let a = r@.projects;
            let b = list_file@.projects;
            assert forall|x: int, y: int| 0 <= x < a.len() && 0 <= y < a.len() && x != y implies a[x].id
                != a[y].id by {
                assert(a[x].id == b[x].id);
                assert(a[y].id == b[y].id);
            }
        }
        r
    }

    pub fn is_lnk(&self, list_lnk: &ListLnk) -> (r: bool)
        ensures
            r == (list_lnk@ == self@.id),
    {
        list_lnk.is_for(self)
    }

    pub fn get_lnk(&self) -> (r: ListLnk)
        ensures
            r@ == self@.id,
    {
        ListLnk::new(self.list_id.clone())
    }

    pub fn get_id(&self) -> (r: String)
        ensures
            r@ == self@.id,
    {
        self.list_id.clone()
    }

    pub fn get_name(&self) -> (r: String)
        ensures
            r@ == self@.name,
    {
        self.metadata.name.clone()
    }

    pub fn set_list_name(&mut self, name: String)
        ensures
            final(self)@ == (ListModel { name: name@, ..old(self)@ }),
    {
        self.metadata.name = name;
    }

    pub fn get_game_version(&self) -> (r: GameVersion)
        ensures
            r@ == self@.game_version,
    {
        self.metadata.game_version.clone()
    }

    pub fn set_game_version(&mut self, version: GameVersion)
        ensures
            final(self)@ == (ListModel { game_version: version@, ..old(self)@ }),
    {
        self.metadata.game_version = version;
    }

    /// The types of the list (see `list_types`).
    pub fn get_resource_types(&self) -> (r: Vec<ResourceType>)
        ensures
            r@ == list_types(self@),
    {
        let ghost used = |t: ResourceType| type_used(self@.projects, t);
        let ghost configured = |t: ResourceType| type_configured(self@.type_config, t);
        let mut types: Vec<ResourceType> = Vec::new();
        if self.uses_type(ResourceType::Datapack) {
            types.push(ResourceType::Datapack);
        }
        if self.uses_type(ResourceType::Mod) {
            types.push(ResourceType::Mod);
        }
        if self.uses_type(ResourceType::Plugin) {
            types.push(ResourceType::Plugin);
        }
        if self.uses_type(ResourceType::ResourcePack) {
            types.push(ResourceType::ResourcePack);
        }
        if self.uses_type(ResourceType::Shader) {
            types.push(ResourceType::Shader);
        }
        assert(types@ =~= ordered_types(used));
        if types.len() > 0 {
            return types;
        }
        let mut types2: Vec<ResourceType> = Vec::new();
        if self.has_type_config(ResourceType::Datapack) {
            types2.push(ResourceType::Datapack);
        }
        if self.has_type_config(ResourceType::Mod) {
            types2.push(ResourceType::Mod);
        }
        if self.has_type_config(ResourceType::Plugin) {
            types2.push(ResourceType::Plugin);
        }
        if self.has_type_config(ResourceType::ResourcePack) {
            types2.push(ResourceType::ResourcePack);
        }
        if self.has_type_config(ResourceType::Shader) {
            types2.push(ResourceType::Shader);
        }
        assert(types2@ =~= ordered_types(configured));
        types2
    }

    /// Whether some project of the list has the type.
    fn uses_type(&self, t: ResourceType) -> (r: bool)
        ensures
            r == type_used(self@.projects, t),
    {
        let mut i: usize = 0;
        while i < self.projects.len()
            invariant
                i <= self.projects.len(),
                forall|j: int| 0 <= j < i ==> self@.projects[j].rtype != t,
            decreases self.projects.len() - i,
        {
            if self.projects[i].resource_type == t {
                assert(self@.projects[i as int].rtype == t);
                return true;
            }
            i = i + 1;
        }
        false
    }

    /// Whether the list has settings for some type.
    pub fn has_resource_types(&self) -> (r: bool)
        ensures
            r == (self@.type_config.len() > 0),
    {
        self.type_config.len() > 0
    }

    /// Finds the settings for a type.
    fn type_config_index(&self, resource_type: &ResourceType) -> (r: Option<usize>)
        requires
            self.wf(),
        ensures
            match r {
                Some(i) => i < self@.type_config.len() && self@.type_config[i as int].0 == *resource_type
                    && type_configured(self@.type_config, *resource_type) && type_index(
                    self@.type_config,
                    *resource_type,
                ) == i,
                None => !type_configured(self@.type_config, *resource_type) && type_index(
                    self@.type_config,
                    *resource_type,
                ) == -1,
            },
    {
        let mut i: usize = 0;
        while i < self.type_config.len()
            invariant
                i <= self.type_config.len(),
                unique_types(self@.type_config),
                forall|j: int| 0 <= j < i ==> self@.type_config[j].0 != *resource_type,
            decreases self.type_config.len() - i,
        {
            if self.type_config[i].0 == *resource_type {
                assert(self@.type_config[i as int].0 == *resource_type);
                proof {
                    let c = type_index(self@.type_config, *resource_type);
                    assert(0 <= c < self@.type_config.len() && self@.type_config[c].0 == *resource_type);
                    if c != i {
                        assert(self@.type_config[c].0 != self@.type_config[i as int].0);
                    }
                }
                return Some(i);
            }
            i = i + 1;
        }
        None
    }

    /// The settings of the list for a type.
    /// Whether the list has settings for the type.
    pub fn has_type_config(&self, resource_type: ResourceType) -> (r: bool)
        ensures
            r == type_configured(self@.type_config, resource_type),
    {
        let mut i: usize = 0;
        while i < self.type_config.len()
            invariant
                i <= self.type_config.len(),
                forall|j: int| 0 <= j < i ==> self@.type_config[j].0 != resource_type,
            decreases self.type_config.len() - i,
        {
            if self.type_config[i].0 == resource_type {
                assert(self@.type_config[i as int].0 == resource_type);
                return true;
            }
            i = i + 1;
        }
        false
    }

    pub fn get_resource_type(&self, resource_type: &ResourceType) -> (r: Option<&ProjectTypeConfig>)
        requires
            self.wf(),
        ensures
            opt_config_view(r) == config_for(self@.type_config, *resource_type),
            match r {
                Some(c) => type_configured(self@.type_config, *resource_type) && exists|i: int|
                    0 <= i < self@.type_config.len() && self@.type_config[i] == (*resource_type, c@),
                None => !type_configured(self@.type_config, *resource_type),
            },
    {
        let mut i: usize = 0;
        while i < self.type_config.len()
            invariant
                i <= self.type_config.len(),
                self.wf(),
                forall|j: int| 0 <= j < i ==> self@.type_config[j].0 != *resource_type,
            decreases self.type_config.len() - i,
        {
            if self.type_config[i].0 == *resource_type {
                let c = &self.type_config[i].1;
                assert(self@.type_config[i as int] == (*resource_type, c@));
                proof {
                    let k = type_index(self@.type_config, *resource_type);
                    if k != i {
                        assert(self@.type_config[k].0 != self@.type_config[i as int].0);
                    }
                }
                return Some(c);
            }
            i = i + 1;
        }
        None
    }

    /// Sets the settings for a type, replacing earlier ones.
    pub fn set_resource_type(&mut self, resource_type: ResourceType, type_config: ProjectTypeConfig)
        requires
            old(self).wf(),
        ensures
            final(self).wf(),
            final(self)@ == (ListModel {
                type_config: if type_configured(old(self)@.type_config, resource_type) {
                    old(self)@.type_config.update(
                        type_index(old(self)@.type_config, resource_type),
                        (resource_type, type_config@),
                    )
                } else {
                    old(self)@.type_config.push((resource_type, type_config@))
                },
                ..old(self)@
            }),
    {
        let ghost tc = self@.type_config;
        match self.type_config_index(&resource_type) {
            Some(i) => {
                self.type_config.set(i, (resource_type, type_config));
                assert(self@.type_config =~= tc.update(i as int, (resource_type, type_config@)));
            },
            None => {
                self.type_config.push((resource_type, type_config));
                assert(self@.type_config =~= tc.push((resource_type, type_config@)));
            },
        }
    }

    /// Removes the settings for a type no project of the list has, returning them.
    pub fn remove_resource_type(&mut self, resource_type: &ResourceType) -> (r: Option<ProjectTypeConfig>)
        requires
            old(self).wf(),
            !type_used(old(self)@.projects, *resource_type),
        ensures
            final(self).wf(),
            match r {
                Some(c) => type_configured(old(self)@.type_config, *resource_type) && old(
                    self,
                )@.type_config[type_index(old(self)@.type_config, *resource_type)] == (*resource_type, c@)
                    && final(self)@ == (ListModel {
                    type_config: old(self)@.type_config.remove(type_index(old(self)@.type_config, *resource_type)),
                    ..old(self)@
                }),
                None => !type_configured(old(self)@.type_config, *resource_type) && final(self)@ == old(self)@,
            },
    {
        let ghost tc = self@.type_config;
        match self.type_config_index(resource_type) {
            Some(i) => {
                let (_, c) = self.type_config.remove(i);
                assert(self@.type_config =~= tc.remove(i as int));
                proof {
                    let r = tc.remove(i as int);
                    assert forall|a: int, b: int| 0 <= a < r.len() && 0 <= b < r.len() && a != b implies r[a].0
                        != r[b].0 by {
                        let a2 = if a < i { a } else { a + 1 };
                        let b2 = if b < i { b } else { b + 1 };
                        assert(r[a] == tc[a2]);
                        assert(r[b] == tc[b2]);
                    }
                }
                Some(c)
            },
            None => None,
        }
    }

    pub fn get_config_version(&self) -> (r: u32)
        ensures
            r == self@.config_version,
    {
        self.config.version
    }

    /// Whether updates are on (off unless set).
    pub fn get_do_updates(&self) -> (r: bool)
        ensures
            r == (self@.do_updates == Some(true)),
    {
        match self.config.do_updates {
            Some(b) => b,
            None => false,
        }
    }

    pub fn set_do_updates(&mut self, do_updates: Option<bool>)
        ensures
            final(self)@ == (ListModel { do_updates, ..old(self)@ }),
    {
        self.config.do_updates = do_updates;
    }

    /// Milliseconds since the Unix epoch at which the list was created.
    pub fn get_config_created_at(&self) -> (r: i64)
        ensures
            r as int == self@.created_at,
    {
        self.config.created_at
    }

    pub fn get_target_projects(&self) -> (r: &[Project])
        ensures
            project_models(r@) == self@.projects,
    {
        self.projects.as_slice()
    }

    /// Links to the hand-chosen projects, in order.
    pub fn get_manual_projects(&self) -> (r: Vec<ProjectLnk>)
        ensures
            lnk_ids(r@) == ids(select(self@.projects, is_manual_project())),
    {
        let refs = select_refs(&self.projects, Ghost(is_manual_project()), 2, ResourceType::Mod, "");
        let mut r: Vec<ProjectLnk> = Vec::new();
        let mut i: usize = 0;
        while i < refs.len()
            invariant
                i <= refs.len(),
                lnk_ids(r@) == ids(refs@.map_values(|p: &Project| p@).take(i as int)),
            decreases refs.len() - i,
        {
            let ghost before = lnk_ids(r@);
            r.push(refs[i].get_lnk());
            assert(lnk_ids(r@) =~= before.push(refs@[i as int]@.id));
            assert(ids(refs@.map_values(|p: &Project| p@).take(i + 1)) =~= ids(
                refs@.map_values(|p: &Project| p@).take(i as int),
            ).push(refs@[i as int]@.id));
            i = i + 1;
        }
        assert(refs@.map_values(|p: &Project| p@).take(refs.len() as int) =~= refs@.map_values(|p: &Project| p@));
        r
    }

    pub fn is_empty(&self) -> (r: bool)
        ensures
            r == (self@.projects.len() == 0),
    {
        self.projects.len() == 0
    }

    pub fn project_count(&self) -> (r: usize)
        ensures
            r == self@.projects.len(),
    {
        self.projects.len()
    }

    /// The hand-chosen projects of a type, in order.
    pub fn manual_projects_by_type(&self, resource_type: ResourceType) -> (r: Vec<&Project>)
        ensures
            r@.map_values(|p: &Project| p@) == select(self@.projects, manual_of_type(resource_type)),
    {
        select_refs(&self.projects, Ghost(manual_of_type(resource_type)), 0, resource_type, "")
    }

    /// The number of projects of a type.
    pub fn count_projects_by_type(&self, resource_type: ResourceType) -> (r: usize)
        ensures
            r == select(self@.projects, of_type(resource_type)).len(),
    {
        let refs = select_refs(&self.projects, Ghost(of_type(resource_type)), 1, resource_type, "");
        refs.len()
    }

    /// The projects whose name holds the query, ignoring case, in order.
    pub fn find_projects_by_name(&self, query: &str) -> (r: Vec<&Project>)
        ensures
            r@.map_values(|p: &Project| p@) == select(self@.projects, name_holds(crate::text::lowercase(query@))),
    {
        let query_lower = crate::text::to_lowercase(query);
        select_refs(&self.projects, Ghost(name_holds(query_lower@)), 3, ResourceType::Mod, query_lower.as_str())
    }

    pub fn has_project(&self, project: &ProjectLnk) -> (r: bool)
        ensures
            r == has_id(self@.projects, project@),
    {
        find_project(&self.projects, project).is_some()
    }

    /// The project with the given id.
    pub fn get_project(&self, project: &ProjectLnk) -> (r: Option<&Project>)
        ensures
            match r {
                Some(p) => has_id(self@.projects, project@) && p@ == proj(self@.projects, project@),
                None => !has_id(self@.projects, project@),
            },
    {
        match find_project(&self.projects, project) {
            Some(i) => Some(&self.projects[i]),
            None => None,
        }
    }
}

impl ListLnk {
    /// Whether this link refers to the given list.
    pub fn is_for(&self, project_list: &ProjectList) -> (r: bool)
        ensures
            r == (self@ == project_list@.id),
    {
        let l = ListLnk::new(project_list.list_id.clone());
        *self == l
    }

    /// The link to a list.
    pub fn from_list(project_list: &ProjectList) -> (r: ListLnk)
        ensures
            r@ == project_list@.id,
    {
        project_list.get_lnk()
    }
}

impl ProjectList {
    /// Whether the list is well formed (see `wf`): no two projects share an id and no
    /// two type settings share a type.
    pub fn is_well_formed(&self) -> (r: bool)
        ensures
            r == self.wf(),
    {
        let ghost ps = self@.projects;
        let n = self.projects.len();
        let mut i: usize = 0;
        while i < n
            invariant
                n == self.projects@.len(),
                ps == self@.projects,
                i <= n,
                forall|a: int, b: int| 0 <= a < i && 0 <= b < n && a != b ==> ps[a].id != ps[b].id,
            decreases n - i,
        {
            let lnk = self.projects[i].get_lnk();
            let mut j: usize = 0;
            while j < n
                invariant
                    n == self.projects@.len(),
                    ps == self@.projects,
                    i < n,
                    j <= n,
                    lnk@ == ps[i as int].id,
                    forall|a: int, b: int| 0 <= a < i && 0 <= b < n && a != b ==> ps[a].id != ps[b].id,
                    forall|b: int| 0 <= b < j && b != i ==> ps[i as int].id != ps[b].id,
                decreases n - j,
            {
                if j != i && self.projects[j].is_lnk(&lnk) {
                    assert(!unique_ids(ps)) by {
                        assert(ps[i as int].id == ps[j as int].id);
                    }
                    return false;
                }
                j = j + 1;
            }
            i = i + 1;
        }
        let ghost tc = self@.type_config;
        let m = self.type_config.len();
        let mut x: usize = 0;
        while x < m
            invariant
                m == self.type_config@.len(),
                tc == self@.type_config,
                unique_ids(ps),
                x <= m,
                forall|a: int, b: int| 0 <= a < x && 0 <= b < m && a != b ==> tc[a].0 != tc[b].0,
            decreases m - x,
        {
            let mut y: usize = 0;
            while y < m
                invariant
                    m == self.type_config@.len(),
                    tc == self@.type_config,
                    x < m,
                    y <= m,
                    forall|a: int, b: int| 0 <= a < x && 0 <= b < m && a != b ==> tc[a].0 != tc[b].0,
                    forall|b: int| 0 <= b < y && b != x ==> tc[x as int].0 != tc[b].0,
                decreases m - y,
            {
                assert(tc[x as int].0 == self.type_config@[x as int].0 && tc[y as int].0 == self.type_config@[y as int].0);
                if y != x && self.type_config[y].0 == self.type_config[x].0 {
                    return false;
                }
                y = y + 1;
            }
            x = x + 1;
        }
        true
    }
}
} // verus!
