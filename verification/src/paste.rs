use vstd::prelude::*;
use crate::list_actions::{ListActions, target_type};
use crate::lnk::{ListLnk, ProjectLnk};
use crate::project::{
    DepModel, Project, ProjectDependency, ProjectModel, ProjectVersion, ProjectVersionModel, clone_lnks, dep_projects,
    lnk_ids,
};
use crate::project_list::{
    ListModel, ProjectList, has_id, ids, proj, law_add_keeps_projects, law_add_version_keeps_projects, lemma_add_manual,
    lemma_add_version_manual, lemma_add_versions, lemma_add_version_versions, law_add_version_keeps_ids, config_for,
    unique_ids,
};
use crate::seqs::keep;
use crate::project_actions::remove_all;
use crate::state::{ClipModel, RDState, StateModel, find_list, list_of, list_pos, lists_view, unique_list_ids};

verus! {

/// The paste can happen: there is something on the clipboard, both lists are held and
/// they are about the same type.
pub open spec fn paste_applies(s: StateModel, target: Seq<char>) -> bool {
    match s.clipboard {
        Some(c) => match (list_of(s.lists, c.source_list), list_of(s.lists, target)) {
            (Some(a), Some(b)) => target_type(a) == target_type(b),
            _ => false,
        },
        None => false,
    }
}

/// What a paste keeps of the state: everything but the lists, the effects asked for
/// and the clipboard; the lists other than the two involved; the effects asked before.
pub open spec fn paste_frame(s: StateModel, t: StateModel, target: Seq<char>) -> bool {
    let c = s.clipboard->0;
    &&& t == (StateModel { lists: t.lists, effects: t.effects, clipboard: t.clipboard, ..s })
    &&& t.lists.len() == s.lists.len()
    &&& forall|j: int|
        0 <= j < s.lists.len() && j != list_pos(s.lists, c.source_list) && j != list_pos(s.lists, target) ==> t.lists[j]
            == s.lists[j]
    &&& forall|j: int| 0 <= j < s.lists.len() ==> t.lists[j].id == s.lists[j].id
    &&& t.effects.len() >= s.effects.len()
    &&& t.effects.take(s.effects.len() as int) == s.effects
}

/// Project `y` of the list is one that the version of project `x` of the list depends on.
pub open spec fn dep_of(ps: Seq<ProjectModel>, x: Seq<char>, y: Seq<char>) -> bool {
    &&& has_id(ps, x)
    &&& has_id(ps, y)
    &&& proj(ps, x).version matches Some(v) && dep_projects(v.deps).contains(y)
}

/// `cs` holds the projects on the clipboard that the list holds, and with each of its
/// projects the projects of the list that its version depends on; all are of the list.
pub open spec fn copy_closed(ps: Seq<ProjectModel>, clip: Seq<Seq<char>>, cs: Set<Seq<char>>) -> bool {
    &&& forall|k: int| 0 <= k < clip.len() && has_id(ps, #[trigger] clip[k]) ==> cs.contains(clip[k])
    &&& forall|x: Seq<char>| #[trigger] cs.contains(x) ==> has_id(ps, x)
    &&& forall|x: Seq<char>, y: Seq<char>| cs.contains(x) && #[trigger] dep_of(ps, x, y) ==> cs.contains(y)
}

/// Every project that a done project depends on is done or waiting.
pub open spec fn deps_covered(ps: Seq<ProjectModel>, done: Seq<Seq<char>>, waiting: Seq<Seq<char>>) -> bool {
    forall|x: Seq<char>, y: Seq<char>| done.contains(x) && #[trigger] dep_of(ps, x, y) ==> done.contains(y) || waiting.contains(y)
}

/// `x` is in every set that `copy_closed` accepts: the paste cannot leave it out.
pub open spec fn forced(ps: Seq<ProjectModel>, clip: Seq<Seq<char>>, x: Seq<char>) -> bool {
    forall|d: Set<Seq<char>>| #[trigger] copy_closed(ps, clip, d) ==> d.contains(x)
}

/// Every project of the list among `xs` is forced.
spec fn all_forced(ps: Seq<ProjectModel>, clip: Seq<Seq<char>>, xs: Seq<Seq<char>>) -> bool {
    forall|j: int| 0 <= j < xs.len() && has_id(ps, #[trigger] xs[j]) ==> forced(ps, clip, xs[j])
}

proof fn lemma_clip_forced(ps: Seq<ProjectModel>, clip: Seq<Seq<char>>)
    ensures
        all_forced(ps, clip, clip),
{
    assert forall|j: int| 0 <= j < clip.len() && has_id(ps, #[trigger] clip[j]) implies forced(ps, clip, clip[j]) by {
        assert forall|d: Set<Seq<char>>| #[trigger] copy_closed(ps, clip, d) implies d.contains(clip[j]) by {}
    }
}

/// The projects a forced project's version depends on, among those the list holds, are forced.
proof fn lemma_pending_forced(
    ps: Seq<ProjectModel>,
    clip: Seq<Seq<char>>,
    done: Seq<Seq<char>>,
    p: Seq<char>,
    v: ProjectVersionModel,
)
    requires
        has_id(ps, p),
        proj(ps, p).version == Some(v),
        forced(ps, clip, p),
    ensures
        all_forced(ps, clip, pending_dep_ids(v.deps, done, ps)),
{
    let pend = pending_dep_ids(v.deps, done, ps);
    assert forall|j: int| 0 <= j < pend.len() && has_id(ps, #[trigger] pend[j]) implies forced(ps, clip, pend[j]) by {
        let y = pend[j];
        crate::seqs::lemma_keep_contains(dep_projects(v.deps), |x: Seq<char>| !done.contains(x) && has_id(ps, x), y);
        assert(pend.contains(y));
        assert(dep_of(ps, p, y));
        assert forall|d: Set<Seq<char>>| #[trigger] copy_closed(ps, clip, d) implies d.contains(y) by {
            assert(d.contains(p));
        }
    }
}

/// Forced projects stay forced in a concatenation.
proof fn lemma_forced_concat(ps: Seq<ProjectModel>, clip: Seq<Seq<char>>, a: Seq<Seq<char>>, b: Seq<Seq<char>>)
    requires
        all_forced(ps, clip, a),
        all_forced(ps, clip, b),
    ensures
        all_forced(ps, clip, a + b),
{
    assert forall|j: int| 0 <= j < (a + b).len() && has_id(ps, #[trigger] (a + b)[j]) implies forced(ps, clip, (a + b)[j]) by {
        if j < a.len() {
            assert((a + b)[j] == a[j]);
        } else {
            assert((a + b)[j] == b[j - a.len()]);
        }
    }
}

proof fn lemma_covered_skip(ps: Seq<ProjectModel>, d: Seq<Seq<char>>, w0: Seq<Seq<char>>, w: Seq<Seq<char>>, p: Seq<char>)
    requires
        w0 == w.push(p),
        d.contains(p),
        deps_covered(ps, d, w0),
    ensures
        deps_covered(ps, d, w),
{
    assert forall|x: Seq<char>, y: Seq<char>| d.contains(x) && #[trigger] dep_of(ps, x, y) implies d.contains(y) || w.contains(y) by {
        if !d.contains(y) {
            let j = choose|j: int| 0 <= j < w0.len() && w0[j] == y;
            if j < w.len() {
                assert(w[j] == y);
            }
        }
    }
}

proof fn lemma_covered_step(
    ps: Seq<ProjectModel>,
    d: Seq<Seq<char>>,
    w0: Seq<Seq<char>>,
    w: Seq<Seq<char>>,
    w2: Seq<Seq<char>>,
    p: Seq<char>,
)
    requires
        w0 == w.push(p),
        deps_covered(ps, d, w0),
        w2.len() >= w.len(),
        forall|k: int| 0 <= k < w.len() ==> w2[k] == w[k],
        forall|y: Seq<char>| #[trigger] dep_of(ps, p, y) ==> d.push(p).contains(y) || w2.contains(y),
    ensures
        deps_covered(ps, d.push(p), w2),
{
    let d2 = d.push(p);
    assert forall|x: Seq<char>, y: Seq<char>| d2.contains(x) && #[trigger] dep_of(ps, x, y) implies d2.contains(y) || w2.contains(y) by {
        if x != p {
            let i = choose|i: int| 0 <= i < d2.len() && d2[i] == x;
            assert(d[i] == x);
            if d.contains(y) {
                let k = choose|k: int| 0 <= k < d.len() && d[k] == y;
                assert(d2[k] == y);
            } else if y == p {
                assert(d2[d.len() as int] == y);
            } else {
                let j = choose|j: int| 0 <= j < w0.len() && w0[j] == y;
                assert(j < w.len());
                assert(w2[j] == y);
            }
        }
    }
}

proof fn lemma_pending_covers(ps: Seq<ProjectModel>, d2: Seq<Seq<char>>, p: Seq<char>, v: crate::project::ProjectVersionModel)
    requires
        has_id(ps, p),
        proj(ps, p).version == Some(v),
    ensures
        forall|y: Seq<char>| #[trigger] dep_of(ps, p, y) ==> d2.contains(y) || pending_dep_ids(v.deps, d2, ps).contains(y),
{
    assert forall|y: Seq<char>| #[trigger] dep_of(ps, p, y) implies d2.contains(y) || pending_dep_ids(v.deps, d2, ps).contains(y) by {
        crate::seqs::lemma_keep_contains(dep_projects(v.deps), |x: Seq<char>| !d2.contains(x) && has_id(ps, x), y);
    }
}

/// The number of projects of `ps` whose id is not among `done`.
pub open spec fn pending_count(ps: Seq<ProjectModel>, done: Seq<Seq<char>>) -> nat {
    keep(ps, |p: ProjectModel| !done.contains(p.id)).len()
}

proof fn lemma_keep_len_mono(s: Seq<ProjectModel>, f: spec_fn(ProjectModel) -> bool, g: spec_fn(ProjectModel) -> bool)
    requires
        forall|x: ProjectModel| #[trigger] g(x) ==> f(x),
    ensures
        keep(s, g).len() <= keep(s, f).len(),
        (exists|i: int| 0 <= i < s.len() && f(s[i]) && !g(s[i])) ==> keep(s, g).len() < keep(s, f).len(),
    decreases s.len(),
{
    if s.len() > 0 {
        lemma_keep_len_mono(s.drop_last(), f, g);
        if exists|i: int| 0 <= i < s.len() && f(s[i]) && !g(s[i]) {
            let i = choose|i: int| 0 <= i < s.len() && f(s[i]) && !g(s[i]);
            if i < s.len() - 1 {
                assert(s.drop_last()[i] == s[i]);
            }
        }
    }
}

proof fn lemma_pending_decreases(ps: Seq<ProjectModel>, done: Seq<Seq<char>>, x: Seq<char>)
    requires
        has_id(ps, x),
        !done.contains(x),
    ensures
        pending_count(ps, done.push(x)) < pending_count(ps, done),
{
    let f = |p: ProjectModel| !done.contains(p.id);
    let g = |p: ProjectModel| !done.push(x).contains(p.id);
    assert forall|p: ProjectModel| #[trigger] g(p) implies f(p) by {
        if done.contains(p.id) {
            let k = choose|k: int| 0 <= k < done.len() && done[k] == p.id;
            assert(done.push(x)[k] == p.id);
        }
    }
    let i = choose|i: int| 0 <= i < ids(ps).len() && ids(ps)[i] == x;
    assert(ps[i].id == x);
    assert(done.push(x)[done.len() as int] == x);
    lemma_keep_len_mono(ps, f, g);
}

/// Whether a link is among the links.
pub(crate) fn has_lnk(v: &Vec<ProjectLnk>, x: &ProjectLnk) -> (r: bool)
    ensures
        r == lnk_ids(v@).contains(x@),
{
    let mut i: usize = 0;
    while i < v.len()
        invariant
            i <= v.len(),
            forall|j: int| 0 <= j < i ==> v@[j]@ != x@,
        decreases v.len() - i,
    {
        if v[i] == *x {
            assert(lnk_ids(v@)[i as int] == x@);
            return true;
        }
        i = i + 1;
    }
    proof {
        if lnk_ids(v@).contains(x@) {
            let k = choose|k: int| 0 <= k < lnk_ids(v@).len() && lnk_ids(v@)[k] == x@;
            assert(v@[k]@ == x@);
        }
    }
    false
}

/// The projects a version depends on (in order) that are not among `done` and that the
/// list holds.
pub open spec fn pending_dep_ids(deps: Seq<DepModel>, done: Seq<Seq<char>>, ps: Seq<ProjectModel>) -> Seq<Seq<char>> {
    keep(dep_projects(deps), |x: Seq<char>| !done.contains(x) && has_id(ps, x))
}

/// Puts on the worklist the projects that a version depends on, that are not done yet
/// and that the list holds (see `pending_dep_ids`), after what was on it.
fn push_pending_deps(worklist: &mut Vec<ProjectLnk>, done: &Vec<ProjectLnk>, list: &ProjectList, ver: &ProjectVersion)
    ensures
        final(worklist)@.len() >= old(worklist)@.len(),
        forall|j: int| 0 <= j < old(worklist)@.len() ==> final(worklist)@[j] == old(worklist)@[j],
        lnk_ids(final(worklist)@) == lnk_ids(old(worklist)@) + pending_dep_ids(
            ver@.deps,
            lnk_ids(done@),
            list@.projects,
        ),
{
    let ghost dps = dep_projects(ver@.deps);
    let ghost f = |x: Seq<char>| !lnk_ids(done@).contains(x) && has_id(list@.projects, x);
    let mut d: usize = 0;
    while d < ver.depended_on.len()
        invariant
            d <= ver.depended_on.len(),
            dps == dep_projects(ver@.deps),
            dps.len() == ver.depended_on@.len(),
            f == (|x: Seq<char>| !lnk_ids(done@).contains(x) && has_id(list@.projects, x)),
            worklist@.len() >= old(worklist)@.len(),
            forall|j: int| 0 <= j < old(worklist)@.len() ==> worklist@[j] == old(worklist)@[j],
            lnk_ids(worklist@) == lnk_ids(old(worklist)@) + keep(dps.take(d as int), f),
        decreases ver.depended_on.len() - d,
    {
        proof {
            crate::seqs::lemma_keep_step(dps, f, d as int);
        }
        let dep = &ver.depended_on[d].project;
        assert(dps[d as int] == dep@);
        let ghost before = worklist@;
        if !has_lnk(done, dep) && list.has_project(dep) {
            worklist.push(dep.clone());
            assert(lnk_ids(worklist@) =~= lnk_ids(before).push(dep@));
        }
        d = d + 1;
    }
    assert(dps.take(ver.depended_on.len() as int) =~= dps);
}

/// The dependencies whose project the list holds, in order.
pub open spec fn deps_held(deps: Seq<DepModel>, ps: Seq<ProjectModel>) -> Seq<DepModel> {
    keep(deps, |d: DepModel| has_id(ps, d.project))
}

/// Whether two lists use the same game version and, for the type each is about, the
/// same loader (or neither has settings for it).
pub open spec fn same_setup(a: ListModel, b: ListModel) -> bool {
    &&& a.game_version == b.game_version
    &&& match (config_for(a.type_config, target_type(a)), config_for(b.type_config, target_type(b))) {
        (Some(x), Some(y)) => x.loader == y.loader,
        (None, None) => true,
        _ => false,
    }
}

/// The version a pasted project ends with in a list holding `held`: its version in the
/// source, keeping only the dependencies on held projects, when versions are kept;
/// otherwise none.
pub open spec fn pasted_version(v: Option<ProjectVersionModel>, held: Seq<ProjectModel>, keep_versions: bool) -> Option<
    ProjectVersionModel,
> {
    if keep_versions {
        match v {
            Some(v) => Some(ProjectVersionModel { deps: deps_held(v.deps, held), ..v }),
            None => None,
        }
    } else {
        None
    }
}

/// A project pasted from list `a` into list `b` (which did not hold it) keeps its version
/// only when both lists use the same game version and the same loader for the type each
/// is about, or neither has settings for it. With different game versions, different
/// loaders, or settings on one side only, it comes without a version. Otherwise it keeps
/// its version as it was, save that exactly the dependencies on projects that `b` holds
/// remain.
pub proof fn law_paste_keeps_version_only_on_same_setup(
    a: ListModel,
    b: ListModel,
    v: Option<ProjectVersionModel>,
    held: Seq<ProjectModel>,
)
    ensures
        a.game_version != b.game_version ==> pasted_version(v, held, same_setup(a, b)) is None,
        (config_for(a.type_config, target_type(a)) is Some && config_for(b.type_config, target_type(b)) is Some
            && config_for(a.type_config, target_type(a))->0.loader != config_for(b.type_config, target_type(b))->0.loader)
            ==> pasted_version(v, held, same_setup(a, b)) is None,
        config_for(a.type_config, target_type(a)) is Some != config_for(b.type_config, target_type(b)) is Some
            ==> pasted_version(v, held, same_setup(a, b)) is None,
        (a.game_version == b.game_version && v is Some && ((config_for(a.type_config, target_type(a)) is None
            && config_for(b.type_config, target_type(b)) is None) || (config_for(a.type_config, target_type(a)) is Some
            && config_for(b.type_config, target_type(b)) is Some && config_for(a.type_config, target_type(a))->0.loader
            == config_for(b.type_config, target_type(b))->0.loader))) ==> {
            let w = v->0;
            &&& pasted_version(v, held, same_setup(a, b)) is Some
            &&& pasted_version(v, held, same_setup(a, b))->0 == (ProjectVersionModel {
                deps: pasted_version(v, held, same_setup(a, b))->0.deps,
                ..w
            })
            &&& forall|d: DepModel|
                pasted_version(v, held, same_setup(a, b))->0.deps.contains(d) <==> (w.deps.contains(d) && has_id(
                    held,
                    d.project,
                ))
        },
{
    if v is Some {
        let w = v->0;
        let f = |e: DepModel| has_id(held, e.project);
        assert(deps_held(w.deps, held) == keep(w.deps, f));
        assert forall|d: DepModel|
            deps_held(w.deps, held).contains(d) <==> (w.deps.contains(d) && has_id(held, d.project)) by {
            crate::seqs::lemma_keep_contains(w.deps, f, d);
        }
        let ca = config_for(a.type_config, target_type(a));
        let cb = config_for(b.type_config, target_type(b));
        if a.game_version == b.game_version && ((ca is None && cb is None) || (ca is Some && cb is Some
            && ca->0.loader == cb->0.loader)) {
            assert(same_setup(a, b));
            assert(pasted_version(v, held, true) == Some(ProjectVersionModel { deps: deps_held(w.deps, held), ..w }));
        }
    }
}

/// Lists holding the same ids hold the same dependencies.
proof fn lemma_deps_held_same_ids(deps: Seq<DepModel>, a: Seq<ProjectModel>, b: Seq<ProjectModel>)
    requires
        ids(a) == ids(b),
    ensures
        deps_held(deps, a) == deps_held(deps, b),
{
    let f = |d: DepModel| has_id(a, d.project);
    let g = |d: DepModel| has_id(b, d.project);
    assert(f =~= g);
}

/// Lists holding the same ids give the same pasted versions.
proof fn lemma_pasted_same_ids(v: Option<ProjectVersionModel>, a: Seq<ProjectModel>, b: Seq<ProjectModel>, k: bool)
    requires
        ids(a) == ids(b),
    ensures
        pasted_version(v, a, k) == pasted_version(v, b, k),
{
    if v is Some {
        lemma_deps_held_same_ids(v->0.deps, a, b);
    }
}

/// Every project `t0` held is held in `cur` with the same version.
spec fn held_kept(t0: Seq<ProjectModel>, cur: Seq<ProjectModel>) -> bool {
    forall|x: Seq<char>| #[trigger] has_id(t0, x) ==> has_id(cur, x) && proj(cur, x).version == proj(t0, x).version
}

/// The versions waiting to be added: each for a distinct project that `cur` holds and
/// `t0` did not, the project's version in `s`, and only when versions are kept.
spec fn waiting_ok(
    vs: Seq<(ProjectLnk, ProjectVersion)>,
    cur: Seq<ProjectModel>,
    t0: Seq<ProjectModel>,
    s: Seq<ProjectModel>,
    keep_versions: bool,
) -> bool {
    &&& forall|j: int|
        0 <= j < vs.len() ==> has_id(cur, (#[trigger] vs[j]).0@) && !has_id(t0, vs[j].0@) && keep_versions && proj(
            s,
            vs[j].0@,
        ).version == Some(vs[j].1@)
    &&& forall|i: int, j: int| 0 <= i < j < vs.len() ==> (#[trigger] vs[i]).0@ != (#[trigger] vs[j]).0@
}

/// While copying: each new project is one of `s`, without a version yet, and either
/// waits for its version or gets none.
spec fn new_waiting(
    cur: Seq<ProjectModel>,
    t0: Seq<ProjectModel>,
    s: Seq<ProjectModel>,
    vs: Seq<(ProjectLnk, ProjectVersion)>,
    keep_versions: bool,
) -> bool {
    forall|x: Seq<char>|
        #[trigger] has_id(cur, x) && !has_id(t0, x) ==> has_id(s, x) && proj(cur, x).version is None && (pending_has(vs, x)
            || pasted_version(proj(s, x).version, cur, keep_versions) is None)
}

/// While adding versions: each new project is one of `s`, and has its pasted version
/// unless it still waits for it.
spec fn new_versioned(
    cur: Seq<ProjectModel>,
    t0: Seq<ProjectModel>,
    s: Seq<ProjectModel>,
    vs: Seq<(ProjectLnk, ProjectVersion)>,
    keep_versions: bool,
) -> bool {
    forall|x: Seq<char>|
        #[trigger] has_id(cur, x) && !has_id(t0, x) ==> has_id(s, x) && (if pending_has(vs, x) {
            proj(cur, x).version is None
        } else {
            proj(cur, x).version == pasted_version(proj(s, x).version, cur, keep_versions)
        })
}

/// Whether a version waiting to be added is for the project `x`.
spec fn pending_has(vs: Seq<(ProjectLnk, ProjectVersion)>, x: Seq<char>) -> bool {
    exists|j: int| 0 <= j < vs.len() && (#[trigger] vs[j]).0@ == x
}

/// The dependencies whose project the list holds (see `deps_held`).
fn present_deps(list: &ProjectList, deps: &Vec<ProjectDependency>) -> (r: Vec<ProjectDependency>)
    ensures
        r@.map_values(|d: ProjectDependency| d@) == deps_held(deps@.map_values(|d: ProjectDependency| d@), list@.projects),
        forall|k: int| 0 <= k < r@.len() ==> has_id(list@.projects, #[trigger] r@[k]@.project),
{
    let ghost dm = deps@.map_values(|d: ProjectDependency| d@);
    let ghost f = |d: DepModel| has_id(list@.projects, d.project);
    let mut out: Vec<ProjectDependency> = Vec::new();
    let mut i: usize = 0;
    while i < deps.len()
        invariant
            i <= deps.len(),
            dm == deps@.map_values(|d: ProjectDependency| d@),
            f == (|d: DepModel| has_id(list@.projects, d.project)),
            out@.map_values(|d: ProjectDependency| d@) == keep(dm.take(i as int), f),
            forall|k: int| 0 <= k < out@.len() ==> has_id(list@.projects, #[trigger] out@[k]@.project),
        decreases deps.len() - i,
    {
        proof {
            crate::seqs::lemma_keep_step(dm, f, i as int);
        }
        assert(dm[i as int] == deps@[i as int]@);
        if list.has_project(&deps[i].project) {
            let ghost before = out@;
            let d = deps[i].clone();
            out.push(d);
            assert(out@.map_values(|d: ProjectDependency| d@) =~= before.map_values(|d: ProjectDependency| d@).push(
                dm[i as int],
            ));
        }
        i = i + 1;
    }
    assert(dm.take(deps.len() as int) =~= dm);
    out
}

/// Replacing a list by a well-formed one with the same id keeps the state's lists well formed.
proof fn lemma_replace_list(a: Seq<ProjectList>, b: Seq<ProjectList>, i: int)
    requires
        0 <= i < a.len(),
        b.len() == a.len(),
        forall|j: int| 0 <= j < a.len() && j != i ==> b[j] == a[j],
        b[i]@.id == a[i]@.id,
        b[i].wf(),
        unique_list_ids(lists_view(a)),
        forall|j: int| 0 <= j < a.len() ==> (#[trigger] a[j]).wf(),
    ensures
        unique_list_ids(lists_view(b)),
        forall|j: int| 0 <= j < b.len() ==> (#[trigger] b[j]).wf(),
        lists_view(b) == lists_view(a).update(i, b[i]@),
{
    assert(lists_view(b) =~= lists_view(a).update(i, b[i]@));
    let lb = lists_view(b);
    let la = lists_view(a);
    assert forall|x: int, y: int| 0 <= x < lb.len() && 0 <= y < lb.len() && x != y implies lb[x].id != lb[y].id by {
        assert(lb[x].id == la[x].id);
        assert(lb[y].id == la[y].id);
    }
    assert forall|j: int| 0 <= j < b.len() implies (#[trigger] b[j]).wf() by {
        if j != i {
            assert(b[j] == a[j]);
        }
    }
}

impl RDState {
    /// Pastes the clipboard into a list: the projects on it that the source list holds,
    /// with the projects they depend on (recursively, among those of the source list), are
    /// copied into the target list (those on the clipboard as hand-chosen, the others not;
    /// without their versions unless both lists use the same game version and loader). A
    /// project the target already holds is only made hand-chosen when its copy is. Versions
    /// are then added back, keeping the dependencies on projects the target holds. When the
    /// clipboard was cut from another list, the projects on it are removed from that list,
    /// and the clipboard is emptied. Nothing happens unless both lists are held and are
    /// about the same type.
    #[verifier::spinoff_prover]
    #[verifier::rlimit(60)]
    pub fn paste_clipboard(&mut self, target_list_lnk: ListLnk)
        requires
            old(self).wf(),
        ensures
            final(self).wf(),
            !paste_applies(old(self)@, target_list_lnk@) ==> final(self)@ == old(self)@,
            paste_applies(old(self)@, target_list_lnk@) ==> {
                let c = old(self)@.clipboard->0;
                let src = list_of(old(self)@.lists, c.source_list)->0;
                let tgt = list_of(final(self)@.lists, target_list_lnk@)->0;
                let tgt0 = list_of(old(self)@.lists, target_list_lnk@)->0;
                &&& paste_frame(old(self)@, final(self)@, target_list_lnk@)
                &&& final(self)@.clipboard == (if c.is_cut { None } else { old(self)@.clipboard })
                &&& list_of(final(self)@.lists, target_list_lnk@) is Some
                &&& forall|k: int|
                    0 <= k < c.projects.len() && has_id(src.projects, #[trigger] c.projects[k]) ==> has_id(
                        tgt.projects,
                        c.projects[k],
                    ) && proj(tgt.projects, c.projects[k]).manual
                &&& (!c.is_cut || c.source_list == target_list_lnk@) ==> list_of(final(self)@.lists, c.source_list)
                    == list_of(old(self)@.lists, c.source_list) || c.source_list == target_list_lnk@
                &&& (c.is_cut && c.source_list != target_list_lnk@) ==> list_of(final(self)@.lists, c.source_list)
                    == Some(ListModel { projects: remove_all(src.projects, c.projects).0, ..src })
                &&& exists|cs: Set<Seq<char>>|
                    {
                        &&& copy_closed(src.projects, c.projects, cs)
                        &&& forall|x: Seq<char>| #[trigger] cs.contains(x) ==> forced(src.projects, c.projects, x)
                        &&& forall|x: Seq<char>|
                            #[trigger] cs.contains(x) ==> has_id(tgt.projects, x) && (!has_id(tgt0.projects, x)
                                ==> proj(tgt.projects, x).version == pasted_version(
                                proj(src.projects, x).version,
                                tgt.projects,
                                same_setup(src, tgt0),
                            ))
                        &&& forall|y: Seq<char>| #[trigger] has_id(tgt.projects, y) ==> has_id(tgt0.projects, y) || cs.contains(y)
                    }
                &&& forall|x: Seq<char>| #[trigger]
                    has_id(tgt0.projects, x) ==> has_id(tgt.projects, x) && proj(tgt.projects, x).version == proj(
                        tgt0.projects,
                        x,
                    ).version
            },
    {
        let ghost s0 = self@;
        let (source, clip, is_cut) = match &self.clipboard {
            Some(c) => (c.source_list.clone(), clone_lnks(&c.projects), c.is_cut),
            None => return ,
        };
        let ghost cm = s0.clipboard->0;
        assert(lnk_ids(clip@) == cm.projects);
        let si = match find_list(&self.lists, &source) {
            Some(i) => i,
            None => return ,
        };
        let ti = match find_list(&self.lists, &target_list_lnk) {
            Some(i) => i,
            None => return ,
        };
        let s_type = ListActions::get_list_target_resource_type(&self.lists[si]);
        let t_type = ListActions::get_list_target_resource_type(&self.lists[ti]);
        if s_type != t_type {
            return ;
        }
        let ghost src = self@.lists[si as int];
        assert(self.lists@[si as int].wf());
        assert(self.lists@[ti as int].wf());
        let versions_match = self.lists[si].get_game_version() == self.lists[ti].get_game_version() && {
            let a = match self.lists[si].get_resource_type(&s_type) {
                Some(c) => Some(c.loader.clone()),
                None => None,
            };
            let b = match self.lists[ti].get_resource_type(&t_type) {
                Some(c) => Some(c.loader.clone()),
                None => None,
            };
            match (a, b) {
                (Some(x), Some(y)) => x == y,
                (None, None) => true,
                _ => false,
            }
        };
        let ghost tgt0 = self@.lists[ti as int];
        assert(versions_match == same_setup(src, tgt0));
        // Gather the projects to copy: those on the clipboard and, recursively, those they depend on.
        let mut to_add: Vec<Project> = Vec::new();
        let mut worklist: Vec<ProjectLnk> = clone_lnks(&clip);
        let mut processed: Vec<ProjectLnk> = Vec::new();
        proof {
            lemma_clip_forced(src.projects, cm.projects);
        }
        loop
            invariant
                si < self.lists.len(),
                src == self@.lists[si as int],
                self.lists@[si as int].wf(),
                self@ == s0,
                lnk_ids(clip@) == cm.projects,
                forall|k: int|
                    0 <= k < cm.projects.len() ==> lnk_ids(worklist@).contains(#[trigger] cm.projects[k])
                        || lnk_ids(processed@).contains(cm.projects[k]),
                forall|k: int|
                    0 <= k < processed@.len() && has_id(src.projects, #[trigger] lnk_ids(processed@)[k]) ==> ids(
                        to_add@.map_values(|p: Project| p@),
                    ).contains(lnk_ids(processed@)[k]),
                deps_covered(src.projects, lnk_ids(processed@), lnk_ids(worklist@)),
                forall|m: int|
                    0 <= m < to_add@.len() && cm.projects.contains((#[trigger] to_add@[m])@.id) ==> to_add@[m]@.manual,
                forall|m: int| 0 <= m < to_add@.len() ==> lnk_ids(processed@).contains((#[trigger] to_add@[m])@.id),
                all_forced(src.projects, cm.projects, lnk_ids(worklist@)),
                all_forced(src.projects, cm.projects, lnk_ids(processed@)),
                forall|m: int|
                    0 <= m < to_add@.len() ==> has_id(src.projects, (#[trigger] to_add@[m])@.id) && to_add@[m]@.version == (
                    if versions_match {
                        proj(src.projects, to_add@[m]@.id).version
                    } else {
                        None
                    }),
            ensures
                worklist@.len() == 0,
                self@ == s0,
                si < self.lists.len(),
                forall|k: int|
                    0 <= k < cm.projects.len() ==> lnk_ids(worklist@).contains(#[trigger] cm.projects[k])
                        || lnk_ids(processed@).contains(cm.projects[k]),
                forall|k: int|
                    0 <= k < processed@.len() && has_id(src.projects, #[trigger] lnk_ids(processed@)[k]) ==> ids(
                        to_add@.map_values(|p: Project| p@),
                    ).contains(lnk_ids(processed@)[k]),
                deps_covered(src.projects, lnk_ids(processed@), lnk_ids(worklist@)),
                forall|m: int|
                    0 <= m < to_add@.len() && cm.projects.contains((#[trigger] to_add@[m])@.id) ==> to_add@[m]@.manual,
                forall|m: int| 0 <= m < to_add@.len() ==> lnk_ids(processed@).contains((#[trigger] to_add@[m])@.id),
                all_forced(src.projects, cm.projects, lnk_ids(worklist@)),
                all_forced(src.projects, cm.projects, lnk_ids(processed@)),
                forall|m: int|
                    0 <= m < to_add@.len() ==> has_id(src.projects, (#[trigger] to_add@[m])@.id) && to_add@[m]@.version == (
                    if versions_match {
                        proj(src.projects, to_add@[m]@.id).version
                    } else {
                        None
                    }),
            decreases pending_count(src.projects, lnk_ids(processed@)), worklist@.len(),
        {
            let ghost wl0 = worklist@;
            let p = match worklist.pop() {
                Some(p) => p,
                None => break,
            };
            assert(wl0 =~= worklist@.push(p));
            let ghost wl = worklist@;
            proof {
                assert(lnk_ids(wl0) =~= lnk_ids(wl).push(p@));
                assert forall|j: int| 0 <= j < lnk_ids(wl).len() && has_id(src.projects, #[trigger] lnk_ids(wl)[j]) implies forced(
                    src.projects,
                    cm.projects,
                    lnk_ids(wl)[j],
                ) by {
                    assert(lnk_ids(wl0)[j] == lnk_ids(wl)[j]);
                }
                assert(lnk_ids(wl0)[wl.len() as int] == p@);
            }
            if has_lnk(&processed, &p) {
                proof {
                    assert forall|k: int|
                        0 <= k < cm.projects.len() implies lnk_ids(worklist@).contains(#[trigger] cm.projects[k])
                        || lnk_ids(processed@).contains(cm.projects[k]) by {
                        if lnk_ids(wl0).contains(cm.projects[k]) && cm.projects[k] != p@ {
                            let j = choose|j: int| 0 <= j < wl0.len() && lnk_ids(wl0)[j] == cm.projects[k];
                            assert(j < wl.len());
                            assert(lnk_ids(worklist@)[j] == cm.projects[k]);
                        }
                    }
                    assert(lnk_ids(wl0) =~= lnk_ids(wl).push(p@));
                    lemma_covered_skip(src.projects, lnk_ids(processed@), lnk_ids(wl0), lnk_ids(wl), p@);
                }
                continue;
            }
            let ghost done0 = lnk_ids(processed@);
            let ghost added0 = to_add@.map_values(|q: Project| q@);
            processed.push(p.clone());
            assert(lnk_ids(processed@) =~= done0.push(p@));
            assert forall|j: int|
                0 <= j < lnk_ids(processed@).len() && has_id(src.projects, #[trigger] lnk_ids(processed@)[j]) implies forced(
                src.projects,
                cm.projects,
                lnk_ids(processed@)[j],
            ) by {
                if j < done0.len() {
                    assert(lnk_ids(processed@)[j] == done0[j]);
                }
            }
            proof {
                let f = |q: ProjectModel| !done0.contains(q.id);
                let g = |q: ProjectModel| !done0.push(p@).contains(q.id);
                assert forall|q: ProjectModel| #[trigger] g(q) implies f(q) by {
                    if done0.contains(q.id) {
                        let k = choose|k: int| 0 <= k < done0.len() && done0[k] == q.id;
                        assert(done0.push(p@)[k] == q.id);
                    }
                }
                lemma_keep_len_mono(src.projects, f, g);
            }
            let found = self.lists[si].get_project(&p);
            match found {
                Some(sp) => {
                    proof {
                        lemma_pending_decreases(src.projects, done0, p@);
                        crate::project_list::lemma_index_of_present(src.projects, p@);
                    }
                    let is_manual = has_lnk(&clip, &p);
                    let mut new_proj = Project::new_from_existing(sp);
                    new_proj.set_manual(is_manual);
                    if !versions_match {
                        let _ = new_proj.clear_project_version();
                    }
                    let ghost np = new_proj@;
                    let ghost ta0 = to_add@;
                    to_add.push(new_proj);
                    assert(to_add@ == ta0.push(new_proj));
                    assert(np.manual == cm.projects.contains(np.id));
                    assert(np.version == (if versions_match { proj(src.projects, p@).version } else { None }));
                    assert forall|m: int| 0 <= m < to_add@.len() implies lnk_ids(processed@).contains((#[trigger] to_add@[m])@.id) by {
                        if m < ta0.len() {
                            assert(to_add@[m] == ta0[m]);
                            let j = choose|j: int| 0 <= j < done0.len() && done0[j] == ta0[m]@.id;
                            assert(lnk_ids(processed@)[j] == done0[j]);
                        } else {
                            assert(lnk_ids(processed@)[done0.len() as int] == p@);
                        }
                    }
                    assert(to_add@.map_values(|q: Project| q@) =~= added0.push(np));
                    assert(ids(added0.push(np)) =~= ids(added0).push(np.id));
                    assert(np.id == p@);
                    assert forall|k: int|
                        0 <= k < processed@.len() && has_id(src.projects, #[trigger] lnk_ids(processed@)[k]) implies ids(
                            to_add@.map_values(|q: Project| q@),
                        ).contains(lnk_ids(processed@)[k]) by {
                        let ta = to_add@.map_values(|q: Project| q@);
                        if k < done0.len() {
                            assert(lnk_ids(processed@)[k] == done0[k]);
                            assert(ids(added0).contains(done0[k]));
                            let j = choose|j: int| 0 <= j < ids(added0).len() && ids(added0)[j] == done0[k];
                            assert(ids(ta)[j] == done0[k]);
                        } else {
                            assert(ids(ta)[added0.len() as int] == p@);
                        }
                    }
                    match sp.get_version() {
                        Some(ver) => {
                            let ghost wb = worklist@;
                            push_pending_deps(&mut worklist, &processed, &self.lists[si], ver);
                            proof {
                                assert forall|k: int| 0 <= k < wb.len() implies lnk_ids(worklist@)[k] == lnk_ids(wb)[k] by {}
                                lemma_pending_covers(src.projects, lnk_ids(processed@), p@, ver@);
                                lemma_pending_forced(src.projects, cm.projects, lnk_ids(processed@), p@, ver@);
                                lemma_forced_concat(
                                    src.projects,
                                    cm.projects,
                                    lnk_ids(wb),
                                    pending_dep_ids(ver@.deps, lnk_ids(processed@), src.projects),
                                );
                                let pend = pending_dep_ids(ver@.deps, lnk_ids(processed@), src.projects);
                                assert forall|y: Seq<char>| #[trigger] dep_of(src.projects, p@, y) implies lnk_ids(
                                    processed@,
                                ).contains(y) || lnk_ids(worklist@).contains(y) by {
                                    if pend.contains(y) && !lnk_ids(processed@).contains(y) {
                                        let j = choose|j: int| 0 <= j < pend.len() && pend[j] == y;
                                        assert(lnk_ids(worklist@)[lnk_ids(wb).len() + j] == y);
                                    }
                                }
                            }
                        },
                        None => {},
                    }
                },
                None => {
                    assert forall|k: int|
                        0 <= k < processed@.len() && has_id(src.projects, #[trigger] lnk_ids(processed@)[k]) implies ids(
                            to_add@.map_values(|q: Project| q@),
                        ).contains(lnk_ids(processed@)[k]) by {
                        if k < done0.len() {
                            assert(lnk_ids(processed@)[k] == done0[k]);
                        }
                    }
                    assert forall|m: int| 0 <= m < to_add@.len() implies lnk_ids(processed@).contains((#[trigger] to_add@[m])@.id) by {
                        let j = choose|j: int| 0 <= j < done0.len() && done0[j] == to_add@[m]@.id;
                        assert(lnk_ids(processed@)[j] == done0[j]);
                    }
                },
            }
            proof {
                assert forall|k: int|
                    0 <= k < cm.projects.len() implies lnk_ids(worklist@).contains(#[trigger] cm.projects[k])
                    || lnk_ids(processed@).contains(cm.projects[k]) by {
                    if cm.projects[k] == p@ {
                        assert(lnk_ids(processed@)[done0.len() as int] == p@);
                    } else if lnk_ids(wl0).contains(cm.projects[k]) {
                        let j = choose|j: int| 0 <= j < wl0.len() && lnk_ids(wl0)[j] == cm.projects[k];
                        assert(j < wl.len());
                        assert(lnk_ids(worklist@)[j] == cm.projects[k]);
                    } else {
                        assert(done0.contains(cm.projects[k]));
                        let j = choose|j: int| 0 <= j < done0.len() && done0[j] == cm.projects[k];
                        assert(lnk_ids(processed@)[j] == cm.projects[k]);
                    }
                }
                assert(lnk_ids(wl0) =~= lnk_ids(wl).push(p@));
                assert forall|k: int| 0 <= k < lnk_ids(wl).len() implies lnk_ids(worklist@)[k] == lnk_ids(wl)[k] by {}
                lemma_covered_step(src.projects, done0, lnk_ids(wl0), lnk_ids(wl), lnk_ids(worklist@), p@);
            }
        }
        let ghost orig = to_add@;
        let ghost added = orig.map_values(|q: Project| q@);
        proof {
            assert forall|k: int|
                0 <= k < cm.projects.len() && has_id(src.projects, #[trigger] cm.projects[k]) implies ids(added).contains(
                cm.projects[k],
            ) by {
                assert(lnk_ids(processed@).contains(cm.projects[k]));
                let j = choose|j: int| 0 <= j < lnk_ids(processed@).len() && lnk_ids(processed@)[j] == cm.projects[k];
            }
            assert forall|m: int| 0 <= m < added.len() && cm.projects.contains(#[trigger] added[m].id) implies added[m].manual by {
                assert(added[m] == orig[m]@);
            }
            assert forall|m: int| 0 <= m < added.len() implies has_id(src.projects, (#[trigger] added[m]).id) && added[m].version == (
            if versions_match {
                proj(src.projects, added[m].id).version
            } else {
                None
            }) by {
                assert(added[m] == orig[m]@);
            }
        }
        let ghost done_ids = lnk_ids(processed@);
        let ghost cs = Set::new(|x: Seq<char>| done_ids.contains(x) && has_id(src.projects, x));
        proof {
            assert(lnk_ids(worklist@) =~= Seq::<Seq<char>>::empty());
            assert forall|k: int| 0 <= k < cm.projects.len() && has_id(src.projects, #[trigger] cm.projects[k]) implies cs.contains(
                cm.projects[k],
            ) by {
                if !done_ids.contains(cm.projects[k]) {
                    assert(lnk_ids(worklist@).contains(cm.projects[k]));
                }
            }
            assert forall|x: Seq<char>, y: Seq<char>| cs.contains(x) && #[trigger] dep_of(src.projects, x, y) implies cs.contains(y) by {
                if !done_ids.contains(y) {
                    assert(lnk_ids(worklist@).contains(y));
                }
            }
            assert(copy_closed(src.projects, cm.projects, cs));
            assert forall|x: Seq<char>| #[trigger] cs.contains(x) implies forced(src.projects, cm.projects, x) by {
                let j = choose|j: int| 0 <= j < done_ids.len() && done_ids[j] == x;
                assert(has_id(src.projects, lnk_ids(processed@)[j]));
            }
            assert forall|m: int| 0 <= m < added.len() implies cs.contains((#[trigger] added[m]).id) by {
                assert(added[m] == orig[m]@);
            }
            assert forall|x: Seq<char>| #[trigger] cs.contains(x) implies ids(added).contains(x) by {
                let k = choose|k: int| 0 <= k < done_ids.len() && done_ids[k] == x;
                assert(has_id(src.projects, lnk_ids(processed@)[k]));
            }
        }
        let n = to_add.len();
        if n > 0 {
            // Copy the gathered projects into the target list.
            assert(self.lists@[ti as int].wf());
            let pre_target = crate::project_actions::archive_snapshot(&self.lists[ti]);
            let mut modified = false;
            let mut versions_to_add: Vec<(ProjectLnk, ProjectVersion)> = Vec::new();
            let mut k: usize = 0;
            while to_add.len() > 0
                invariant
                    k + to_add@.len() == orig.len(),
                    orig.len() == n,
                    to_add@ == orig.skip(k as int),
                    added == orig.map_values(|q: Project| q@),
                    si < self.lists.len(),
                    ti < self.lists.len(),
                    self.lists@.len() == s0.lists.len(),
                    forall|j: int| 0 <= j < self.lists@.len() && j != ti ==> self.lists@[j] == old(self).lists@[j],
                    self.lists@[ti as int].wf(),
                    self.lists@[ti as int]@.id == tgt0.id,
                    self@ == (StateModel { lists: self@.lists, ..s0 }),
                    forall|m: int| 0 <= m < k ==> has_id(self@.lists[ti as int].projects, #[trigger] added[m].id),
                    keeps_manual(self@.lists[ti as int].projects, added, k as int),
                    forall|m: int|
                        0 <= m < added.len() ==> has_id(src.projects, (#[trigger] added[m]).id) && added[m].version == (
                        if versions_match {
                            proj(src.projects, added[m].id).version
                        } else {
                            None
                        }),
                    held_kept(tgt0.projects, self@.lists[ti as int].projects),
                    waiting_ok(versions_to_add@, self@.lists[ti as int].projects, tgt0.projects, src.projects, versions_match),
                    new_waiting(self@.lists[ti as int].projects, tgt0.projects, src.projects, versions_to_add@, versions_match),
                    forall|x: Seq<char>|
                        #[trigger] has_id(self@.lists[ti as int].projects, x) ==> has_id(tgt0.projects, x) || exists|m: int|
                            0 <= m < k && (#[trigger] added[m]).id == x,
                decreases to_add@.len(),
            {
                let item = to_add.remove(0);
                assert(item == orig[k as int]);
                assert(item@ == added[k as int]);
                let lnk = item.get_lnk();
                let ghost ps = self@.lists[ti as int].projects;
                if !self.lists[ti].has_project(&lnk) {
                    let mut p = item;
                    let version_opt = p.clear_project_version();
                    let ghost pm = p@;
                    let _ = self.lists[ti].add_project(p);
                    modified = true;
                    proof {
                        crate::project_list::law_added_project_is_present(ps, pm);
                        assert forall|m: int| 0 <= m < k + 1 implies has_id(self@.lists[ti as int].projects, #[trigger] added[m].id) by {
                            if m < k {
                                law_add_keeps_projects(ps, pm, added[m].id);
                            }
                        }
                        assert forall|m: int| 0 <= m < k + 1 && (#[trigger] added[m]).manual implies proj(
                            self@.lists[ti as int].projects,
                            added[m].id,
                        ).manual by {
                            lemma_add_manual(ps, pm, added[m].id);
                        }
                    }
                    let ghost vta0 = versions_to_add@;
                    let ghost l = lnk@;
                    match version_opt {
                        Some(ver) => versions_to_add.push((lnk, ver)),
                        None => {},
                    }
                    proof {
                        let cur = self@.lists[ti as int].projects;
                        let vta = versions_to_add@;
                        assert(l == pm.id);
                        assert(!has_id(ps, l));
                        lemma_add_versions(ps, pm, l);
                        assert forall|j: int| 0 <= j < vta0.len() implies vta[j] == vta0[j] by {}
                        assert forall|x: Seq<char>| #[trigger] has_id(tgt0.projects, x) implies has_id(cur, x) && proj(cur, x).version
                            == proj(tgt0.projects, x).version by {
                            lemma_add_versions(ps, pm, x);
                        }
                        assert forall|x: Seq<char>| #[trigger] has_id(cur, x) && !has_id(tgt0.projects, x) implies has_id(src.projects, x)
                            && proj(cur, x).version is None && (pending_has(vta, x) || pasted_version(
                            proj(src.projects, x).version,
                            cur,
                            versions_match,
                        ) is None) by {
                            lemma_add_versions(ps, pm, x);
                            if x == l {
                                if vta.len() > vta0.len() {
                                    assert(vta[vta0.len() as int].0@ == x);
                                }
                            } else {
                                assert(has_id(ps, x));
                                if pending_has(vta0, x) {
                                    let j = choose|j: int| 0 <= j < vta0.len() && (#[trigger] vta0[j]).0@ == x;
                                    assert(vta[j] == vta0[j]);
                                }
                            }
                        }
                        assert forall|j: int| 0 <= j < vta.len() implies has_id(cur, (#[trigger] vta[j]).0@) && !has_id(
                            tgt0.projects,
                            vta[j].0@,
                        ) && versions_match && proj(src.projects, vta[j].0@).version == Some(vta[j].1@) by {
                            if j < vta0.len() {
                                assert(vta[j] == vta0[j]);
                                lemma_add_versions(ps, pm, vta0[j].0@);
                            }
                        }
                        assert forall|x: Seq<char>| #[trigger] has_id(cur, x) implies has_id(tgt0.projects, x) || exists|m: int|
                            0 <= m < k + 1 && (#[trigger] added[m]).id == x by {
                            lemma_add_versions(ps, pm, x);
                            if x == l {
                                assert(added[k as int].id == x);
                            }
                        }
                        assert forall|i: int, j: int| 0 <= i < j < vta.len() implies (#[trigger] vta[i]).0@ != (#[trigger] vta[j]).0@ by {
                            assert(vta[i] == vta0[i]);
                            if j >= vta0.len() {
                                assert(has_id(ps, vta0[i].0@));
                            } else {
                                assert(vta[j] == vta0[j]);
                            }
                        }
                    }
                } else {
                    let ghost pm = item@;
                    assert(has_id(ps, pm.id));
                    if item.is_manual() {
                        let r = self.lists[ti].add_project(item);
                        if r.is_success() {
                            modified = true;
                        }
                        proof {
                            assert forall|m: int| 0 <= m < k + 1 implies has_id(self@.lists[ti as int].projects, #[trigger] added[m].id) by {
                                law_add_keeps_projects(ps, pm, added[m].id);
                            }
                            assert forall|m: int| 0 <= m < k + 1 && (#[trigger] added[m]).manual implies proj(
                                self@.lists[ti as int].projects,
                                added[m].id,
                            ).manual by {
                                lemma_add_manual(ps, pm, added[m].id);
                            }
                        }
                    }
                    proof {
                        let cur = self@.lists[ti as int].projects;
                        assert forall|x: Seq<char>| #[trigger] has_id(cur, x) == has_id(ps, x) && (has_id(ps, x) ==> proj(cur, x).version
                            == proj(ps, x).version) by {
                            lemma_add_versions(ps, pm, x);
                        }
                    }
                }
                assert(orig.skip(k as int).drop_first() =~= orig.skip(k + 1));
                k = k + 1;
            }
            let ghost ids_c = ids(self@.lists[ti as int].projects);
            assert forall|x: Seq<char>| #[trigger] ids_c.contains(x) implies has_id(tgt0.projects, x) || cs.contains(x) by {
                assert(has_id(self@.lists[ti as int].projects, x));
            }
            // Add the versions back, keeping the dependencies on projects the target holds.
            while versions_to_add.len() > 0
                invariant
                    si < self.lists.len(),
                    ti < self.lists.len(),
                    added == orig.map_values(|q: Project| q@),
                    self.lists@.len() == s0.lists.len(),
                    forall|j: int| 0 <= j < self.lists@.len() && j != ti ==> self.lists@[j] == old(self).lists@[j],
                    self.lists@[ti as int].wf(),
                    self.lists@[ti as int]@.id == tgt0.id,
                    self@ == (StateModel { lists: self@.lists, ..s0 }),
                    forall|m: int| 0 <= m < orig.len() ==> has_id(self@.lists[ti as int].projects, #[trigger] added[m].id),
                    keeps_manual(self@.lists[ti as int].projects, added, orig.len() as int),
                    ids(self@.lists[ti as int].projects) == ids_c,
                    held_kept(tgt0.projects, self@.lists[ti as int].projects),
                    waiting_ok(versions_to_add@, self@.lists[ti as int].projects, tgt0.projects, src.projects, versions_match),
                    new_versioned(self@.lists[ti as int].projects, tgt0.projects, src.projects, versions_to_add@, versions_match),
                decreases versions_to_add@.len(),
            {
                let ghost vta0 = versions_to_add@;
                let (lnk, mut ver) = versions_to_add.remove(0);
                let ghost v0 = ver@;
                assert(vta0[0].0@ == lnk@ && vta0[0].1@ == v0);
                let deps = present_deps(&self.lists[ti], &ver.depended_on);
                ver.depended_on = deps;
                let ghost ps = self@.lists[ti as int].projects;
                let ghost vm = ver@;
                assert forall|q: int| 0 <= q < vm.deps.len() implies has_id(ps, #[trigger] vm.deps[q].project) by {
                    assert(vm.deps[q] == ver.depended_on@[q]@);
                }
                assert(vm == ProjectVersionModel { deps: deps_held(v0.deps, ps), ..v0 });
                let _ = self.lists[ti].add_version(&lnk, ver);
                proof {
                    let cur = self@.lists[ti as int].projects;
                    let vta = versions_to_add@;
                    let l = lnk@;
                    law_add_version_keeps_ids(ps, l, vm);
                    assert(vta =~= vta0.subrange(1, vta0.len() as int));
                    assert forall|x: Seq<char>| #[trigger] has_id(tgt0.projects, x) implies has_id(cur, x) && proj(cur, x).version
                        == proj(tgt0.projects, x).version by {
                        lemma_add_version_versions(ps, l, vm, x);
                    }
                    assert forall|x: Seq<char>| #[trigger] has_id(cur, x) && !has_id(tgt0.projects, x) implies has_id(src.projects, x)
                        && (if pending_has(vta, x) {
                        proj(cur, x).version is None
                    } else {
                        proj(cur, x).version == pasted_version(proj(src.projects, x).version, cur, versions_match)
                    }) by {
                        assert(has_id(ps, x));
                        lemma_add_version_versions(ps, l, vm, x);
                        lemma_pasted_same_ids(proj(src.projects, x).version, ps, cur, versions_match);
                        if pending_has(vta, x) {
                            let j = choose|j: int| 0 <= j < vta.len() && (#[trigger] vta[j]).0@ == x;
                            assert(vta[j] == vta0[j + 1]);
                        }
                        if x != l && pending_has(vta0, x) {
                            let j = choose|j: int| 0 <= j < vta0.len() && (#[trigger] vta0[j]).0@ == x;
                            assert(vta[j - 1] == vta0[j]);
                        }
                        if x == l {
                            lemma_deps_held_same_ids(v0.deps, ps, cur);
                        }
                    }
                    assert forall|j: int| 0 <= j < vta.len() implies has_id(cur, (#[trigger] vta[j]).0@) && !has_id(
                        tgt0.projects,
                        vta[j].0@,
                    ) && versions_match && proj(src.projects, vta[j].0@).version == Some(vta[j].1@) by {
                        assert(vta[j] == vta0[j + 1]);
                    }
                    assert forall|i: int, j: int| 0 <= i < j < vta.len() implies (#[trigger] vta[i]).0@ != (#[trigger] vta[j]).0@ by {
                        assert(vta[i] == vta0[i + 1]);
                        assert(vta[j] == vta0[j + 1]);
                    }
                    assert forall|m: int| 0 <= m < orig.len() implies has_id(self@.lists[ti as int].projects, #[trigger] added[m].id) by {
                        law_add_version_keeps_projects(ps, lnk@, vm, added[m].id);
                    }
                    assert forall|m: int| 0 <= m < orig.len() && (#[trigger] added[m]).manual implies proj(
                        self@.lists[ti as int].projects,
                        added[m].id,
                    ).manual by {
                        lemma_add_version_manual(ps, lnk@, vm, added[m].id);
                    }
                }
            }
            assert forall|x: Seq<char>| #[trigger] has_id(self@.lists[ti as int].projects, x) && !has_id(tgt0.projects, x) implies proj(
                self@.lists[ti as int].projects,
                x,
            ).version == pasted_version(proj(src.projects, x).version, self@.lists[ti as int].projects, versions_match) by {
                assert(!pending_has(versions_to_add@, x));
            }
            proof {
                lemma_replace_list(old(self).lists@, self.lists@, ti as int);
            }
            let ghost before_announce = self@;
            self.announce_change(ti, modified, &pre_target);
            assert(self@.effects.take(s0.effects.len() as int) =~= s0.effects);
            // A cut from another list takes the projects out of it.
            if is_cut && !(source == target_list_lnk) {
                assert(si != ti);
                assert(self@.lists[si as int] == src);
                assert(cm.projects.take(0) =~= Seq::<Seq<char>>::empty());
                assert(src == (ListModel { projects: remove_all(src.projects, cm.projects.take(0)).0, ..src }));
                assert(self.lists@[si as int].wf());
                let pre_source = crate::project_actions::archive_snapshot(&self.lists[si]);
                let mut removed = false;
                let mut r: usize = 0;
                while r < clip.len()
                    invariant
                        r <= clip.len(),
                        si < self.lists.len(),
                        ti < self.lists.len(),
                        si != ti,
                        self.lists@.len() == s0.lists.len(),
                        self@.lists[ti as int] == before_announce.lists[ti as int],
                        forall|j: int| 0 <= j < self.lists@.len() && j != ti && j != si ==> self.lists@[j] == old(self).lists@[j],
                        self.lists@[si as int].wf(),
                        self.lists@[ti as int].wf(),
                        forall|j: int| 0 <= j < self.lists@.len() ==> self@.lists[j].id == s0.lists[j].id,
                        self@ == (StateModel { lists: self@.lists, effects: self@.effects, ..s0 }),
                        self@.effects.len() >= s0.effects.len(),
                        self@.effects.take(s0.effects.len() as int) == s0.effects,
                        lnk_ids(clip@) == cm.projects,
                        self@.lists[si as int] == (ListModel {
                            projects: remove_all(src.projects, cm.projects.take(r as int)).0,
                            ..src
                        }),
                    decreases clip.len() - r,
                {
                    proof {
                        assert(cm.projects.take(r + 1).drop_last() =~= cm.projects.take(r as int));
                        assert(cm.projects.take(r + 1).last() == clip@[r as int]@);
                    }
                    let res = self.lists[si].remove_project(&clip[r]);
                    if res.is_success() {
                        removed = true;
                    }
                    r = r + 1;
                }
                assert(unique_list_ids(self@.lists)) by {
                    let ls = self@.lists;
                    assert forall|x: int, y: int| 0 <= x < ls.len() && 0 <= y < ls.len() && x != y implies ls[x].id != ls[y].id by {
                        assert(ls[x].id == s0.lists[x].id);
                        assert(ls[y].id == s0.lists[y].id);
                    }
                }
                assert forall|j: int| 0 <= j < self.lists@.len() implies (#[trigger] self.lists@[j]).wf() by {
                    if j != si && j != ti {
                        assert(self.lists@[j] == old(self).lists@[j]);
                    }
                }
                assert(cm.projects.take(clip.len() as int) =~= cm.projects);
                let ghost e1 = self@.effects;
                self.announce_change(si, removed, &pre_source);
                assert(self@.effects.take(s0.effects.len() as int) =~= e1.take(s0.effects.len() as int));
            }
            assert forall|x: Seq<char>| #[trigger] ids(added).contains(x) implies has_id(self@.lists[ti as int].projects, x) by {
                let m = choose|m: int| 0 <= m < ids(added).len() && ids(added)[m] == x;
                assert(added[m].id == x);
            }
            assert forall|j: int|
                0 <= j < cm.projects.len() && has_id(src.projects, #[trigger] cm.projects[j]) implies proj(
                self@.lists[ti as int].projects,
                cm.projects[j],
            ).manual by {
                let m = choose|m: int| 0 <= m < ids(added).len() && ids(added)[m] == cm.projects[j];
                assert(added[m].id == cm.projects[j]);
                assert(cm.projects.contains(added[m].id));
            }
            assert(self@.lists[ti as int] == before_announce.lists[ti as int]);
        }
        proof {
            assert forall|x: Seq<char>| #[trigger] cs.contains(x) implies has_id(self@.lists[ti as int].projects, x) by {
                assert(ids(added).contains(x));
                if n == 0 {
                    let m = choose|m: int| 0 <= m < ids(added).len() && ids(added)[m] == x;
                }
            }
            if is_cut && source@ != target_list_lnk@ && n == 0 {
                assert forall|k: int| 0 <= k < cm.projects.len() implies !has_id(src.projects, #[trigger] cm.projects[k]) by {
                    if has_id(src.projects, cm.projects[k]) {
                        assert(ids(added).contains(cm.projects[k]));
                    }
                }
                lemma_remove_all_absent(src.projects, cm.projects);
            }
        }
        if is_cut {
            self.clipboard = None;
        }
        assert(self@.effects.take(s0.effects.len() as int) =~= s0.effects);
        proof {
            lemma_same_ids_same_pos(s0.lists, self@.lists, target_list_lnk@);
            lemma_same_ids_same_pos(s0.lists, self@.lists, cm.source_list);
        }
    }
}

/// Each of the first `n` projects of `added` that is hand-chosen is held as hand-chosen in `ps`.
spec fn keeps_manual(ps: Seq<ProjectModel>, added: Seq<ProjectModel>, n: int) -> bool {
    forall|m: int| 0 <= m < n && (#[trigger] added[m]).manual ==> proj(ps, added[m].id).manual
}

/// Removing projects that a list does not hold leaves its projects as they are.
proof fn lemma_remove_all_absent(ps: Seq<ProjectModel>, xs: Seq<Seq<char>>)
    requires
        forall|k: int| 0 <= k < xs.len() ==> !has_id(ps, #[trigger] xs[k]),
    ensures
        remove_all(ps, xs).0 == ps,
    decreases xs.len(),
{
    if xs.len() > 0 {
        assert forall|k: int| 0 <= k < xs.drop_last().len() implies !has_id(ps, #[trigger] xs.drop_last()[k]) by {
            assert(xs.drop_last()[k] == xs[k]);
        }
        lemma_remove_all_absent(ps, xs.drop_last());
        assert(!has_id(ps, xs[xs.len() - 1]));
    }
}

/// Lists with the same ids at the same positions have each id at the same position.
proof fn lemma_same_ids_same_pos(a: Seq<ListModel>, b: Seq<ListModel>, id: Seq<char>)
    requires
        a.len() == b.len(),
        forall|j: int| 0 <= j < a.len() ==> a[j].id == b[j].id,
    ensures
        list_pos(a, id) == list_pos(b, id),
{
    let f = crate::state::list_is(id);
    crate::seqs::lemma_first_idx(a, f);
    if crate::seqs::any(a, f) {
        let i = list_pos(a, id);
        assert(crate::seqs::is_first(b, f, i)) by {
            assert forall|j: int| 0 <= j < i implies !f(b[j]) by {
                assert(!f(a[j]));
            }
        }
        crate::seqs::lemma_is_first_unique(b, f, i);
    } else {
        assert forall|j: int| 0 <= j < b.len() implies !f(b[j]) by {
            if f(b[j]) {
                assert(f(a[j]));
            }
        }
        crate::seqs::lemma_none_first(b, f);
    }
}

} // verus!
