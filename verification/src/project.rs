use vstd::prelude::*;
use crate::clock::now_millis;
use crate::lnk::ProjectLnk;
use crate::remote::RTProjectData;
use crate::resource_type::ResourceType;

verus! {

/// How a project relates to a project it depends on.
#[derive(Clone, Copy, Debug, PartialEq, Eq, Structural)]
pub enum ProjectDependencyType {
    Required,
    Incompatible,
    Ignored,
}

/// The type of a dependency once a manual choice overrides it: `Some(true)` makes it
/// required, `Some(false)` ignored; a dependency that is not already incompatible is
/// never made incompatible.
pub open spec fn effective_type(t: ProjectDependencyType, overruled: Option<bool>) -> ProjectDependencyType {
    match overruled {
        Some(true) => ProjectDependencyType::Required,
        Some(false) => if t == ProjectDependencyType::Incompatible {
            ProjectDependencyType::Incompatible
        } else {
            ProjectDependencyType::Ignored
        },
        None => t,
    }
}

/// Whether a dependency of this type is tracked as a dependent link.
pub open spec fn needs_managing(t: ProjectDependencyType, manual: Option<bool>) -> bool {
    t != ProjectDependencyType::Ignored || manual == Some(true)
}

pub open spec fn spec_dependency_type_from_name(s: Seq<char>) -> Option<ProjectDependencyType> {
    if s == "required"@ {
        Some(ProjectDependencyType::Required)
    } else if s == "incompatible"@ {
        Some(ProjectDependencyType::Incompatible)
    } else if s == "embedded"@ || s == "optional"@ {
        Some(ProjectDependencyType::Ignored)
    } else {
        None
    }
}

impl ProjectDependencyType {
    /// Parses a dependency type name; unknown names give `None`.
    pub fn from_str(s: &str) -> (r: Option<ProjectDependencyType>)
        ensures
            r == spec_dependency_type_from_name(s@),
    {
        if crate::text::str_eq(s, "required") {
            Some(ProjectDependencyType::Required)
        } else if crate::text::str_eq(s, "incompatible") {
            Some(ProjectDependencyType::Incompatible)
        } else if crate::text::str_eq(s, "embedded") || crate::text::str_eq(s, "optional") {
            Some(ProjectDependencyType::Ignored)
        } else {
            None
        }
    }

    pub fn get_effective_type(&self, overruled_type: Option<bool>) -> (r: ProjectDependencyType)
        ensures
            r == effective_type(*self, overruled_type),
    {
        match overruled_type {
            Some(true) => ProjectDependencyType::Required,
            Some(false) => match self {
                ProjectDependencyType::Incompatible => ProjectDependencyType::Incompatible,
                _ => ProjectDependencyType::Ignored,
            },
            None => *self,
        }
    }

    pub fn needs_managing(&self, manual_dependency_type: Option<bool>) -> (r: bool)
        ensures
            r == needs_managing(*self, manual_dependency_type),
    {
        let manual = match manual_dependency_type {
            Some(b) => b,
            None => false,
        };
        !matches!(self, ProjectDependencyType::Ignored) || manual
    }

    pub fn is_positive(&self) -> (r: bool)
        ensures
            r == (*self == ProjectDependencyType::Required),
    {
        matches!(self, ProjectDependencyType::Required)
    }

    pub fn is_negative(&self) -> (r: bool)
        ensures
            r == (*self == ProjectDependencyType::Incompatible),
    {
        matches!(self, ProjectDependencyType::Incompatible)
    }
}

/// The abstract value of a dependency of a version.
#[verifier::ext_equal]
pub struct DepModel {
    pub project: Seq<char>,
    pub dtype: ProjectDependencyType,
    pub manual: Option<bool>,
    pub version_id: Option<Seq<char>>,
}

/// A dependency of a version on another project.
#[derive(Debug)]
pub struct ProjectDependency {
    pub project: ProjectLnk,
    pub dependency_type: ProjectDependencyType,
    /// None = no change, true = required, false = ignored
    /// (a detected dependency that is not already incompatible is never made incompatible).
    pub manual_dependency_type: Option<bool>,
    pub version_id: Option<String>,
}

pub open spec fn opt_view(o: Option<String>) -> Option<Seq<char>> {
    match o {
        Some(s) => Some(s@),
        None => None,
    }
}

impl View for ProjectDependency {
    type V = DepModel;

    open spec fn view(&self) -> DepModel {
        DepModel {
            project: self.project@,
            dtype: self.dependency_type,
            manual: self.manual_dependency_type,
            version_id: opt_view(self.version_id),
        }
    }
}

pub fn clone_opt_string(o: &Option<String>) -> (r: Option<String>)
    ensures
        opt_view(r) == opt_view(*o),
{
    match o {
        Some(s) => Some(s.clone()),
        None => None,
    }
}

impl Clone for ProjectDependency {
    fn clone(&self) -> (r: Self)
        ensures
            r@ == self@,
    {
        ProjectDependency {
            project: self.project.clone(),
            dependency_type: self.dependency_type,
            manual_dependency_type: self.manual_dependency_type,
            version_id: clone_opt_string(&self.version_id),
        }
    }
}

impl ProjectDependency {
    pub fn new(
        project: ProjectLnk,
        dependency_type: ProjectDependencyType,
        manual_dependency_type: Option<bool>,
        version_id: Option<String>,
    ) -> (r: ProjectDependency)
        ensures
            r@ == (DepModel {
                project: project@,
                dtype: dependency_type,
                manual: manual_dependency_type,
                version_id: opt_view(version_id),
            }),
    {
        ProjectDependency { project, dependency_type, manual_dependency_type, version_id }
    }
}

/// `i` is the first position of `deps` that depends on `p`.
pub open spec fn is_first_dep(deps: Seq<DepModel>, p: Seq<char>, i: int) -> bool {
    &&& 0 <= i < deps.len()
    &&& deps[i].project == p
    &&& forall|j: int| 0 <= j < i ==> deps[j].project != p
}

pub open spec fn has_dep(deps: Seq<DepModel>, p: Seq<char>) -> bool {
    exists|i: int| 0 <= i < deps.len() && deps[i].project == p
}

/// The first position of `deps` that depends on `p`, or -1.
pub open spec fn dep_index(deps: Seq<DepModel>, p: Seq<char>) -> int {
    if exists|i: int| is_first_dep(deps, p, i) {
        choose|i: int| is_first_dep(deps, p, i)
    } else {
        -1
    }
}

/// The projects that `deps` depend on, in order.
pub open spec fn dep_projects(deps: Seq<DepModel>) -> Seq<Seq<char>> {
    deps.map_values(|d: DepModel| d.project)
}

/// When some dependency is on `p`, `dep_index` is the first such position.
pub proof fn lemma_dep_index(deps: Seq<DepModel>, p: Seq<char>)
    ensures
        has_dep(deps, p) ==> is_first_dep(deps, p, dep_index(deps, p)),
        !has_dep(deps, p) ==> dep_index(deps, p) == -1,
    decreases deps.len(),
{
    if has_dep(deps, p) {
        let pre = deps.drop_last();
        lemma_dep_index(pre, p);
        if has_dep(pre, p) {
            let i = dep_index(pre, p);
            assert(pre[i] == deps[i]);
            assert forall|j: int| 0 <= j < i implies deps[j].project != p by {
                assert(pre[j] == deps[j]);
            }
            assert(is_first_dep(deps, p, i));
        } else {
            let w = choose|j: int| 0 <= j < deps.len() && deps[j].project == p;
            if w < deps.len() - 1 {
                assert(pre[w] == deps[w]);
            }
            assert forall|j: int| 0 <= j < deps.len() - 1 implies deps[j].project != p by {
                assert(pre[j] == deps[j]);
            }
            assert(is_first_dep(deps, p, deps.len() - 1));
        }
    } else {
        assert(!exists|i: int| is_first_dep(deps, p, i));
    }
}

/// Finds the first dependency on `p`.
pub fn find_dep(deps: &Vec<ProjectDependency>, p: &ProjectLnk) -> (r: Option<usize>)
    ensures
        match r {
            Some(i) => is_first_dep(deps@.map_values(|d: ProjectDependency| d@), p@, i as int)
                && dep_index(deps@.map_values(|d: ProjectDependency| d@), p@) == i,
            None => !has_dep(deps@.map_values(|d: ProjectDependency| d@), p@)
                && dep_index(deps@.map_values(|d: ProjectDependency| d@), p@) == -1,
        },
{
    let ghost m = deps@.map_values(|d: ProjectDependency| d@);
    let mut i: usize = 0;
    while i < deps.len()
        invariant
            m == deps@.map_values(|d: ProjectDependency| d@),
            i <= deps.len(),
            forall|j: int| 0 <= j < i ==> m[j].project != p@,
        decreases deps.len() - i,
    {
        if deps[i].project == *p {
            assert(is_first_dep(m, p@, i as int));
            return Some(i);
        }
        i = i + 1;
    }
    assert(!exists|k: int| is_first_dep(m, p@, k));
    None
}

/// The abstract value of a version of a project.
#[verifier::ext_equal]
pub struct ProjectVersionModel {
    pub manual: bool,
    pub version_id: Seq<char>,
    pub artifact_id: Seq<char>,
    pub artifact_hash: Seq<char>,
    pub channel: Seq<char>,
    pub deps: Seq<DepModel>,
}

/// A specific version of a project.
#[derive(Debug)]
pub struct ProjectVersion {
    pub is_manual: bool,
    pub version_id: String,
    pub artifact_id: String,
    /// sha1 of the artifact
    pub artifact_hash: String,
    pub channel: String,
    pub depended_on: Vec<ProjectDependency>,
}

impl View for ProjectVersion {
    type V = ProjectVersionModel;

    open spec fn view(&self) -> ProjectVersionModel {
        ProjectVersionModel {
            manual: self.is_manual,
            version_id: self.version_id@,
            artifact_id: self.artifact_id@,
            artifact_hash: self.artifact_hash@,
            channel: self.channel@,
            deps: self.depended_on@.map_values(|d: ProjectDependency| d@),
        }
    }
}

pub fn clone_deps(v: &Vec<ProjectDependency>) -> (r: Vec<ProjectDependency>)
    ensures
        r@.map_values(|d: ProjectDependency| d@) == v@.map_values(|d: ProjectDependency| d@),
{
    let mut r: Vec<ProjectDependency> = Vec::new();
    let mut i: usize = 0;
    while i < v.len()
        invariant
            i <= v.len(),
            r@.len() == i,
            forall|j: int| 0 <= j < i ==> r@[j]@ == v@[j]@,
        decreases v.len() - i,
    {
        r.push(v[i].clone());
        i = i + 1;
    }
    assert(r@.map_values(|d: ProjectDependency| d@) =~= v@.map_values(|d: ProjectDependency| d@));
    r
}

impl Clone for ProjectVersion {
    fn clone(&self) -> (r: Self)
        ensures
            r@ == self@,
    {
        ProjectVersion {
            is_manual: self.is_manual,
            version_id: self.version_id.clone(),
            artifact_id: self.artifact_id.clone(),
            artifact_hash: self.artifact_hash.clone(),
            channel: self.channel.clone(),
            depended_on: clone_deps(&self.depended_on),
        }
    }
}

impl ProjectVersion {
    pub fn new(
        is_manual: bool,
        version_id: String,
        artifact_id: String,
        artifact_hash: String,
        channel: String,
        depended_on: Vec<ProjectDependency>,
    ) -> (r: ProjectVersion)
        ensures
            r@ == (ProjectVersionModel {
                manual: is_manual,
                version_id: version_id@,
                artifact_id: artifact_id@,
                artifact_hash: artifact_hash@,
                channel: channel@,
                deps: depended_on@.map_values(|d: ProjectDependency| d@),
            }),
    {
        ProjectVersion { is_manual, version_id, artifact_id, artifact_hash, channel, depended_on }
    }

    /// True when the version depends on nothing.
    pub fn has_depended_ons(&self) -> (r: bool)
        ensures
            r == (self@.deps.len() == 0),
    {
        self.depended_on.len() == 0
    }

    pub fn depended_on_count(&self) -> (r: usize)
        ensures
            r == self@.deps.len(),
    {
        self.depended_on.len()
    }

    pub fn get_depended_ons(&self) -> (r: &[ProjectDependency])
        ensures
            r@.map_values(|d: ProjectDependency| d@) == self@.deps,
    {
        self.depended_on.as_slice()
    }

    pub fn has_depended_on(&self, depended_on_project: &ProjectLnk) -> (r: bool)
        ensures
            r == has_dep(self@.deps, depended_on_project@),
    {
        find_dep(&self.depended_on, depended_on_project).is_some()
    }

    /// The first dependency on the given project.
    pub fn get_depended_on(&self, depended_on_project: &ProjectLnk) -> (r: Option<&ProjectDependency>)
        ensures
            match r {
                Some(d) => has_dep(self@.deps, depended_on_project@)
                    && d@ == self@.deps[dep_index(self@.deps, depended_on_project@)],
                None => !has_dep(self@.deps, depended_on_project@),
            },
    {
        match find_dep(&self.depended_on, depended_on_project) {
            Some(i) => Some(&self.depended_on[i]),
            None => None,
        }
    }

    /// Adds a dependency, replacing the first one on the same project.
    pub fn add_depended_on(&mut self, depended_on: ProjectDependency)
        ensures
            final(self)@ == (ProjectVersionModel {
                deps: if has_dep(old(self)@.deps, depended_on@.project) {
                    old(self)@.deps.remove(dep_index(old(self)@.deps, depended_on@.project))
                } else {
                    old(self)@.deps
                }.push(depended_on@),
                ..old(self)@
            }),
    {
        let ghost d0 = self@.deps;
        let found = find_dep(&self.depended_on, &depended_on.project);
        if let Some(i) = found {
            self.depended_on.remove(i);
            assert(self@.deps =~= d0.remove(i as int));
        }
        self.depended_on.push(depended_on);
        proof {
            assert(self.depended_on@.map_values(|d: ProjectDependency| d@) =~= (if has_dep(
                d0,
                depended_on@.project,
            ) {
                d0.remove(dep_index(d0, depended_on@.project))
            } else {
                d0
            }).push(depended_on@));
        }
    }

    /// Removes the first dependency on the given project; false when there is none.
    pub fn remove_depended_on(&mut self, depended_on_project: &ProjectLnk) -> (r: bool)
        ensures
            r == has_dep(old(self)@.deps, depended_on_project@),
            final(self)@ == (ProjectVersionModel {
                deps: if r {
                    old(self)@.deps.remove(dep_index(old(self)@.deps, depended_on_project@))
                } else {
                    old(self)@.deps
                },
                ..old(self)@
            }),
    {
        let ghost d0 = self@.deps;
        match find_dep(&self.depended_on, depended_on_project) {
            Some(i) => {
                self.depended_on.remove(i);
                assert(self@.deps =~= d0.remove(i as int));
                true
            },
            None => false,
        }
    }

    /// Removes every dependency and returns the projects depended on, in order.
    pub fn clear_depended_ons(&mut self) -> (r: Vec<ProjectLnk>)
        ensures
            r@.map_values(|l: ProjectLnk| l@) == dep_projects(old(self)@.deps),
            final(self)@ == (ProjectVersionModel { deps: Seq::empty(), ..old(self)@ }),
    {
        let mut r: Vec<ProjectLnk> = Vec::new();
        let mut i: usize = 0;
        while i < self.depended_on.len()
            invariant
                i <= self.depended_on.len(),
                r@.len() == i,
                forall|j: int| 0 <= j < i ==> r@[j]@ == self.depended_on@[j]@.project,
            decreases self.depended_on.len() - i,
        {
            r.push(self.depended_on[i].project.clone());
            i = i + 1;
        }
        assert(r@.map_values(|l: ProjectLnk| l@) =~= dep_projects(self@.deps));
        self.depended_on = Vec::new();
        assert(self@.deps =~= Seq::<DepModel>::empty());
        r
    }

    /// The effective type of the first dependency on the given project.
    pub fn get_effective_depended_on_type(&self, depended_on_project: &ProjectLnk) -> (r: Option<ProjectDependencyType>)
        ensures
            match r {
                Some(t) => has_dep(self@.deps, depended_on_project@) && t == effective_type(
                    self@.deps[dep_index(self@.deps, depended_on_project@)].dtype,
                    self@.deps[dep_index(self@.deps, depended_on_project@)].manual,
                ),
                None => !has_dep(self@.deps, depended_on_project@),
            },
    {
        match self.get_depended_on(depended_on_project) {
            Some(d) => Some(d.dependency_type.get_effective_type(d.manual_dependency_type)),
            None => None,
        }
    }

    /// Sets the manual type of the first dependency on the given project.
    pub(crate) fn set_depended_on_manual_type(&mut self, depended_on_project: &ProjectLnk, manual: Option<bool>)
        requires
            has_dep(old(self)@.deps, depended_on_project@),
        ensures
            final(self)@ == (ProjectVersionModel {
                deps: old(self)@.deps.update(
                    dep_index(old(self)@.deps, depended_on_project@),
                    DepModel { manual, ..old(self)@.deps[dep_index(old(self)@.deps, depended_on_project@)] },
                ),
                ..old(self)@
            }),
    {
        let ghost d0 = self@.deps;
        let i = find_dep(&self.depended_on, depended_on_project).unwrap();
        let mut d = self.depended_on.remove(i);
        d.manual_dependency_type = manual;
        self.depended_on.insert(i, d);
        assert(self@.deps =~= d0.update(i as int, DepModel { manual, ..d0[i as int] }));
    }
}


/// The ids of a sequence of links.
pub open spec fn lnk_ids(v: Seq<ProjectLnk>) -> Seq<Seq<char>> {
    v.map_values(|l: ProjectLnk| l@)
}

/// `i` is the first position of `s` holding `x`.
pub open spec fn is_first_index(s: Seq<Seq<char>>, x: Seq<char>, i: int) -> bool {
    &&& 0 <= i < s.len()
    &&& s[i] == x
    &&& forall|j: int| 0 <= j < i ==> s[j] != x
}

/// The first position of `s` holding `x`, or -1.
pub open spec fn first_index(s: Seq<Seq<char>>, x: Seq<char>) -> int {
    if exists|i: int| is_first_index(s, x, i) {
        choose|i: int| is_first_index(s, x, i)
    } else {
        -1
    }
}

/// `s` with the first occurrence of `x` removed (unchanged when `x` is absent).
pub open spec fn remove_first(s: Seq<Seq<char>>, x: Seq<char>) -> Seq<Seq<char>> {
    if s.contains(x) {
        s.remove(first_index(s, x))
    } else {
        s
    }
}

/// When `x` occurs in `s`, `first_index` is its first position.
pub proof fn lemma_first_index(s: Seq<Seq<char>>, x: Seq<char>)
    ensures
        s.contains(x) ==> is_first_index(s, x, first_index(s, x)),
        !s.contains(x) ==> first_index(s, x) == -1,
    decreases s.len(),
{
    if s.contains(x) {
        let pre = s.drop_last();
        lemma_first_index(pre, x);
        if pre.contains(x) {
            let i = first_index(pre, x);
            assert(pre[i] == s[i]);
            assert forall|j: int| 0 <= j < i implies s[j] != x by {
                assert(pre[j] == s[j]);
            }
            assert(is_first_index(s, x, i));
        } else {
            let w = choose|j: int| 0 <= j < s.len() && s[j] == x;
            if w < s.len() - 1 {
                assert(pre[w] == x);
            }
            assert forall|j: int| 0 <= j < s.len() - 1 implies s[j] != x by {
                assert(pre[j] == s[j]);
                if s[j] == x {
                    assert(pre.contains(x));
                }
            }
            assert(is_first_index(s, x, s.len() - 1));
        }
    } else {
        assert(!exists|i: int| is_first_index(s, x, i));
    }
}

/// Finds the first link to the project `x`.
pub fn find_lnk(v: &Vec<ProjectLnk>, x: &ProjectLnk) -> (r: Option<usize>)
    ensures
        match r {
            Some(i) => is_first_index(lnk_ids(v@), x@, i as int) && first_index(lnk_ids(v@), x@) == i
                && lnk_ids(v@).contains(x@),
            None => !lnk_ids(v@).contains(x@) && first_index(lnk_ids(v@), x@) == -1,
        },
{
    let ghost m = lnk_ids(v@);
    let mut i: usize = 0;
    while i < v.len()
        invariant
            m == lnk_ids(v@),
            i <= v.len(),
            forall|j: int| 0 <= j < i ==> m[j] != x@,
        decreases v.len() - i,
    {
        if v[i] == *x {
            assert(is_first_index(m, x@, i as int));
            assert(m[i as int] == x@);
            return Some(i);
        }
        i = i + 1;
    }
    assert(!exists|k: int| is_first_index(m, x@, k));
    None
}

/// The abstract value of the settings of a project.
#[verifier::ext_equal]
pub struct SettingsModel {
    pub archived: bool,
    pub overruled: bool,
    pub version: Option<ProjectVersionModel>,
    pub dependents: Seq<Seq<char>>,
}

/// Settings of a project.
#[derive(Debug)]
pub struct ProjectSettings {
    pub archived: bool,
    pub compat_overruled: bool,
    pub version: Option<ProjectVersion>,
    pub dependents: Vec<ProjectLnk>,
}

pub open spec fn opt_version_view(o: Option<ProjectVersion>) -> Option<ProjectVersionModel> {
    match o {
        Some(v) => Some(v@),
        None => None,
    }
}

impl View for ProjectSettings {
    type V = SettingsModel;

    open spec fn view(&self) -> SettingsModel {
        SettingsModel {
            archived: self.archived,
            overruled: self.compat_overruled,
            version: opt_version_view(self.version),
            dependents: lnk_ids(self.dependents@),
        }
    }
}

/// Cached data of a project for offline use.
#[derive(Debug)]
pub struct ProjectCache {
    pub name: String,
    pub description: String,
    pub author: String,
}

/// The abstract value of a project.
#[verifier::ext_equal]
pub struct ProjectModel {
    pub id: Seq<char>,
    pub rtype: ResourceType,
    pub manual: bool,
    pub archived: bool,
    pub overruled: bool,
    pub version: Option<ProjectVersionModel>,
    pub dependents: Seq<Seq<char>>,
    pub name: Seq<char>,
    pub description: Seq<char>,
    pub author: Seq<char>,
    pub added_at: int,
}

/// A project of a list.
#[derive(Debug)]
pub struct Project {
    pub project_id: String,
    pub resource_type: ResourceType,
    pub is_manual: bool,
    pub settings: ProjectSettings,
    pub cache: ProjectCache,
    /// Milliseconds since the Unix epoch at which the project was added.
    pub added_at: i64,
}

impl View for Project {
    type V = ProjectModel;

    open spec fn view(&self) -> ProjectModel {
        ProjectModel {
            id: self.project_id@,
            rtype: self.resource_type,
            manual: self.is_manual,
            archived: self.settings.archived,
            overruled: self.settings.compat_overruled,
            version: opt_version_view(self.settings.version),
            dependents: lnk_ids(self.settings.dependents@),
            name: self.cache.name@,
            description: self.cache.description@,
            author: self.cache.author@,
            added_at: self.added_at as int,
        }
    }
}

/// A project is cleanable when nobody chose it and nothing depends on it.
pub open spec fn is_cleanable(p: ProjectModel) -> bool {
    !p.manual && p.dependents.len() == 0
}

/// A project as it is created: not archived, not overruled, without a version or dependents.
pub open spec fn fresh_project(
    id: Seq<char>,
    rtype: ResourceType,
    manual: bool,
    name: Seq<char>,
    description: Seq<char>,
    author: Seq<char>,
    added_at: int,
) -> ProjectModel {
    ProjectModel {
        id,
        rtype,
        manual,
        archived: false,
        overruled: false,
        version: None,
        dependents: Seq::empty(),
        name,
        description,
        author,
        added_at,
    }
}

pub fn clone_lnks(v: &Vec<ProjectLnk>) -> (r: Vec<ProjectLnk>)
    ensures
        lnk_ids(r@) == lnk_ids(v@),
{
    let mut r: Vec<ProjectLnk> = Vec::new();
    let mut i: usize = 0;
    while i < v.len()
        invariant
            i <= v.len(),
            r@.len() == i,
            forall|j: int| 0 <= j < i ==> r@[j]@ == v@[j]@,
        decreases v.len() - i,
    {
        r.push(v[i].clone());
        i = i + 1;
    }
    assert(lnk_ids(r@) =~= lnk_ids(v@));
    r
}

impl Project {
    pub fn new(
        project_id: String,
        resource_type: ResourceType,
        is_manual: bool,
        name: String,
        description: String,
        author: String,
    ) -> (r: Project)
        ensures
            r@ == fresh_project(project_id@, resource_type, is_manual, name@, description@, author@, r@.added_at),
    {
        let added_at = now_millis();
        let r = Project {
            project_id,
            resource_type,
            is_manual,
            settings: ProjectSettings {
                archived: false,
                compat_overruled: false,
                version: None,
                dependents: Vec::new(),
            },
            cache: ProjectCache { name, description, author },
            added_at,
        };
        assert(r@.dependents =~= Seq::<Seq<char>>::empty());
        r
    }

    /// A project built from the metadata the remote service reports.
    pub fn new_from_rt_project(
        project: ProjectLnk,
        resource_type: ResourceType,
        is_manual: bool,
        rt_project_data: RTProjectData,
    ) -> (r: Project)
        ensures
            r@ == fresh_project(
                project@,
                resource_type,
                is_manual,
                rt_project_data.name@,
                rt_project_data.description@,
                rt_project_data.author@,
                r@.added_at,
            ),
    {
        Project::new(
            project.into_id(),
            resource_type,
            is_manual,
            rt_project_data.name.clone(),
            rt_project_data.description.clone(),
            rt_project_data.author.clone(),
        )
    }

    /// A copy of a project, with a new time of addition.
    pub fn new_from_existing(project: &Project) -> (r: Project)
        ensures
            r@ == (ProjectModel { added_at: r@.added_at, ..project@ }),
    {
        let version = match &project.settings.version {
            Some(v) => Some(v.clone()),
            None => None,
        };
        let added_at = now_millis();
        Project {
            project_id: project.project_id.clone(),
            resource_type: project.resource_type,
            is_manual: project.is_manual,
            settings: ProjectSettings {
                archived: project.settings.archived,
                compat_overruled: project.settings.compat_overruled,
                version,
                dependents: clone_lnks(&project.settings.dependents),
            },
            cache: ProjectCache {
                name: project.cache.name.clone(),
                description: project.cache.description.clone(),
                author: project.cache.author.clone(),
            },
            added_at,
        }
    }

    pub fn is_lnk(&self, project_lnk: &ProjectLnk) -> (r: bool)
        ensures
            r == (self@.id == project_lnk@),
    {
        project_lnk.is_for(self)
    }

    pub fn get_lnk(&self) -> (r: ProjectLnk)
        ensures
            r@ == self@.id,
    {
        ProjectLnk::from_id(&self.project_id)
    }

    pub fn get_id(&self) -> (r: String)
        ensures
            r@ == self@.id,
    {
        self.project_id.clone()
    }

    pub fn get_type(&self) -> (r: ResourceType)
        ensures
            r == self@.rtype,
    {
        self.resource_type
    }

    pub fn is_manual(&self) -> (r: bool)
        ensures
            r == self@.manual,
    {
        self.is_manual
    }

    /// Whether the project may be removed as an orphaned dependency.
    pub fn is_cleanable_dependency(&self) -> (r: bool)
        ensures
            r == is_cleanable(self@),
    {
        !self.is_manual() && !self.has_dependents()
    }

    pub fn set_manual(&mut self, manual: bool)
        ensures
            final(self)@ == (ProjectModel { manual, ..old(self)@ }),
    {
        self.is_manual = manual;
    }

    pub fn is_archived(&self) -> (r: bool)
        ensures
            r == self@.archived,
    {
        self.settings.archived
    }

    pub fn set_archived(&mut self, archived: bool)
        ensures
            final(self)@ == (ProjectModel { archived, ..old(self)@ }),
    {
        self.settings.archived = archived;
    }

    pub fn is_compatibility_overruled(&self) -> (r: bool)
        ensures
            r == self@.overruled,
    {
        self.settings.compat_overruled
    }

    pub fn set_compatibility_overruled(&mut self, overruled: bool)
        ensures
            final(self)@ == (ProjectModel { overruled, ..old(self)@ }),
    {
        self.settings.compat_overruled = overruled;
    }

    /// Flips the overrule flag and returns its new value.
    pub fn toggle_compatibility_overruled(&mut self) -> (r: bool)
        ensures
            r == !old(self)@.overruled,
            final(self)@ == (ProjectModel { overruled: r, ..old(self)@ }),
    {
        let v = !self.is_compatibility_overruled();
        self.set_compatibility_overruled(v);
        self.is_compatibility_overruled()
    }

    pub fn has_version(&self) -> (r: bool)
        ensures
            r == self@.version is Some,
    {
        self.settings.version.is_some()
    }

    pub fn get_version(&self) -> (r: Option<&ProjectVersion>)
        ensures
            match r {
                Some(v) => self@.version == Some(v@),
                None => self@.version is None,
            },
    {
        match &self.settings.version {
            Some(v) => Some(v),
            None => None,
        }
    }

    pub fn get_version_id(&self) -> (r: Option<&str>)
        ensures
            match r {
                Some(s) => self@.version matches Some(v) && s@ == v.version_id,
                None => self@.version is None,
            },
    {
        match &self.settings.version {
            Some(v) => Some(v.version_id.as_str()),
            None => None,
        }
    }

    pub fn get_version_artifact_id(&self) -> (r: Option<&str>)
        ensures
            match r {
                Some(s) => self@.version matches Some(v) && s@ == v.artifact_id,
                None => self@.version is None,
            },
    {
        match &self.settings.version {
            Some(v) => Some(v.artifact_id.as_str()),
            None => None,
        }
    }

    pub fn set_version(&mut self, version: ProjectVersion)
        ensures
            final(self)@ == (ProjectModel { version: Some(version@), ..old(self)@ }),
    {
        self.settings.version = Some(version);
    }

    /// Removes the version and hands it back.
    pub fn clear_project_version(&mut self) -> (r: Option<ProjectVersion>)
        ensures
            opt_version_view(r) == old(self)@.version,
            final(self)@ == (ProjectModel { version: None, ..old(self)@ }),
    {
        self.settings.version.take()
    }

    pub fn has_dependents(&self) -> (r: bool)
        ensures
            r == (self@.dependents.len() > 0),
    {
        self.settings.dependents.len() > 0
    }

    pub fn dependent_count(&self) -> (r: usize)
        ensures
            r == self@.dependents.len(),
    {
        self.settings.dependents.len()
    }

    pub fn has_dependent(&self, dependent_project: &ProjectLnk) -> (r: bool)
        ensures
            r == self@.dependents.contains(dependent_project@),
    {
        find_lnk(&self.settings.dependents, dependent_project).is_some()
    }

    pub fn get_dependents(&self) -> (r: &[ProjectLnk])
        ensures
            lnk_ids(r@) == self@.dependents,
    {
        self.settings.dependents.as_slice()
    }

    /// Records a dependent project, unless it is already recorded.
    pub fn add_dependent(&mut self, dependent_project: ProjectLnk)
        ensures
            final(self)@ == (ProjectModel {
                dependents: if old(self)@.dependents.contains(dependent_project@) {
                    old(self)@.dependents
                } else {
                    old(self)@.dependents.push(dependent_project@)
                },
                ..old(self)@
            }),
    {
        if !self.has_dependent(&dependent_project) {
            let ghost d0 = self@.dependents;
            self.settings.dependents.push(dependent_project);
            assert(self@.dependents =~= d0.push(dependent_project@));
        }
    }

    /// Removes the first record of a dependent project; false when there is none.
    pub fn remove_dependent(&mut self, dependent_project: &ProjectLnk) -> (r: bool)
        ensures
            r == old(self)@.dependents.contains(dependent_project@),
            final(self)@ == (ProjectModel {
                dependents: remove_first(old(self)@.dependents, dependent_project@),
                ..old(self)@
            }),
    {
        let ghost d0 = self@.dependents;
        match find_lnk(&self.settings.dependents, dependent_project) {
            Some(pos) => {
                self.settings.dependents.remove(pos);
                assert(self@.dependents =~= d0.remove(pos as int));
                true
            },
            None => false,
        }
    }

    /// Removes every dependency of the project's version and returns the projects
    /// depended on (nothing when the project has no version).
    pub fn clear_version_depended_ons(&mut self) -> (r: Vec<ProjectLnk>)
        ensures
            match old(self)@.version {
                Some(v) => lnk_ids(r@) == dep_projects(v.deps) && final(self)@ == (ProjectModel {
                    version: Some(ProjectVersionModel { deps: Seq::empty(), ..v }),
                    ..old(self)@
                }),
                None => r@.len() == 0 && final(self)@ == old(self)@,
            },
    {
        match &mut self.settings.version {
            Some(v) => v.clear_depended_ons(),
            None => Vec::new(),
        }
    }

    /// Sets the manual type of the first dependency of the version on `depended_on_project`.
    pub fn set_version_dep_manual_type(&mut self, depended_on_project: &ProjectLnk, manual: Option<bool>)
        requires
            old(self)@.version matches Some(v) && has_dep(v.deps, depended_on_project@),
        ensures
            final(self)@ == (ProjectModel {
                version: Some(ProjectVersionModel {
                    deps: old(self)@.version.unwrap().deps.update(
                        dep_index(old(self)@.version.unwrap().deps, depended_on_project@),
                        DepModel {
                            manual,
                            ..old(self)@.version.unwrap().deps[dep_index(
                                old(self)@.version.unwrap().deps,
                                depended_on_project@,
                            )]
                        },
                    ),
                    ..old(self)@.version.unwrap()
                }),
                ..old(self)@
            }),
    {
        match &mut self.settings.version {
            Some(v) => v.set_depended_on_manual_type(depended_on_project, manual),
            None => {},
        }
    }

    pub fn get_name(&self) -> (r: String)
        ensures
            r@ == self@.name,
    {
        self.cache.name.clone()
    }

    pub fn set_name(&mut self, name: String)
        ensures
            final(self)@ == (ProjectModel { name: name@, ..old(self)@ }),
    {
        self.cache.name = name;
    }

    pub fn get_description(&self) -> (r: String)
        ensures
            r@ == self@.description,
    {
        self.cache.description.clone()
    }

    pub fn set_description(&mut self, description: String)
        ensures
            final(self)@ == (ProjectModel { description: description@, ..old(self)@ }),
    {
        self.cache.description = description;
    }

    pub fn get_author(&self) -> (r: String)
        ensures
            r@ == self@.author,
    {
        self.cache.author.clone()
    }

    pub fn set_author(&mut self, author: String)
        ensures
            final(self)@ == (ProjectModel { author: author@, ..old(self)@ }),
    {
        self.cache.author = author;
    }

    /// Takes over name, description and author from remote metadata;
    /// true when any of them changed.
    pub fn update_cache(&mut self, rt_project_data: RTProjectData) -> (r: bool)
        ensures
            r == (old(self)@.name != rt_project_data.name@
                || old(self)@.description != rt_project_data.description@
                || old(self)@.author != rt_project_data.author@),
            final(self)@ == (ProjectModel {
                name: rt_project_data.name@,
                description: rt_project_data.description@,
                author: rt_project_data.author@,
                ..old(self)@
            }),
    {
        let mut changed = false;
        if self.cache.name != rt_project_data.name {
            self.cache.name = rt_project_data.name;
            changed = true;
        }
        if self.cache.description != rt_project_data.description {
            self.cache.description = rt_project_data.description;
            changed = true;
        }
        if self.cache.author != rt_project_data.author {
            self.cache.author = rt_project_data.author;
            changed = true;
        }
        changed
    }
}

impl ProjectLnk {
    /// Whether this link refers to the given project.
    pub fn is_for(&self, project: &Project) -> (r: bool)
        ensures
            r == (self@ == project@.id),
    {
        let l = ProjectLnk::from_id(&project.project_id);
        *self == l
    }
}

} // verus!
