use vstd::prelude::*;
use crate::effect::{Effect, EffectModel};
use crate::lnk::{ListLnk, ProjectLnk};
use crate::mutation::{MutationModel, MutationOutcome, MutationResult, accumulated, outcome_is_success, plain};
use crate::project::{Project, ProjectModel, fresh_project};
use crate::project_list::{ListModel, ProjectList, add_spec, archived_spec, config_for, has_id, ids, list_types, remove_spec};
use crate::remote::RTProjectData;
use crate::resource_type::ResourceType;
use crate::state::{
    RDState, StateModel, find_list, list_pos, lists_view, scan_effects, scan_targets, unique_list_ids,
};
use crate::effect::lnks_model;

verus! {

/// What a list held before a change: for each project, its id, its type and whether it
/// counted as archived (see `archived_spec`).
pub open spec fn list_snapshot(l: ListModel) -> Seq<(Seq<char>, ResourceType, bool)> {
    l.projects.map_values(|p: ProjectModel| (p.id, p.rtype, archived_spec(l.projects, p.id)))
}

pub open spec fn snapshot_view(v: Seq<(ProjectLnk, ResourceType, bool)>) -> Seq<(Seq<char>, ResourceType, bool)> {
    v.map_values(|e: (ProjectLnk, ResourceType, bool)| (e.0@, e.1, e.2))
}

/// Whether the snapshot records `x` as archived (its last record of `x`; false when it has none).
pub open spec fn was_archived(pre: Seq<(Seq<char>, ResourceType, bool)>, x: Seq<char>) -> bool
    decreases pre.len(),
{
    if pre.len() == 0 {
        false
    } else if pre.last().0 == x {
        pre.last().2
    } else {
        was_archived(pre.drop_last(), x)
    }
}

/// For each project of the snapshot that the list no longer holds and whose type has
/// settings in it, in order: its files in that type's directory are to be deleted.
pub open spec fn deletion_effects(pre: Seq<(Seq<char>, ResourceType, bool)>, l: ListModel) -> Seq<EffectModel>
    decreases pre.len(),
{
    if pre.len() == 0 {
        seq![]
    } else {
        let e = pre.last();
        deletion_effects(pre.drop_last(), l) + if !has_id(l.projects, e.0) {
            match config_for(l.type_config, e.1) {
                Some(c) => seq![EffectModel::DeleteProjectFiles { path: c.download_dir, project: e.0 }],
                None => seq![],
            }
        } else {
            seq![]
        }
    }
}

/// For a project of the list whose archived state differs from the snapshot's (a project
/// new to the list counts as not archived before) and whose type has settings: its file
/// is to be archived or brought back, in that type's directory.
pub open spec fn archive_step(pre: Seq<(Seq<char>, ResourceType, bool)>, l: ListModel, p: ProjectModel) -> Seq<EffectModel> {
    let now = archived_spec(l.projects, p.id);
    if now != was_archived(pre, p.id) {
        match config_for(l.type_config, p.rtype) {
            Some(c) => if now {
                seq![EffectModel::ArchiveProjectFiles { path: c.download_dir, project: p.id }]
            } else {
                seq![EffectModel::UnarchiveProjectFiles { path: c.download_dir, project: p.id }]
            },
            None => seq![],
        }
    } else {
        seq![]
    }
}

/// `archive_step` for the first `n` projects of the list, in order.
pub open spec fn archive_effects(pre: Seq<(Seq<char>, ResourceType, bool)>, l: ListModel, n: nat) -> Seq<EffectModel>
    decreases n,
{
    if n == 0 {
        seq![]
    } else {
        archive_effects(pre, l, (n - 1) as nat) + archive_step(pre, l, l.projects[n - 1])
    }
}

/// The effects asked for after a list changed from what the snapshot records to `l`:
/// deleting the files of the projects taken out, archiving or bringing back the files of
/// the projects whose archived state changed, saving the list, then scanning again the
/// directory of each of its types that has settings.
pub open spec fn change_effects(pre: Seq<(Seq<char>, ResourceType, bool)>, l: ListModel) -> Seq<EffectModel> {
    deletion_effects(pre, l) + archive_effects(pre, l, l.projects.len()) + seq![EffectModel::SaveList { list: l.id }]
        + scan_effects(scan_targets(list_types(l), l.type_config))
}

/// The state after the list at position `i` becomes `l`; when the change succeeded, the
/// file changes are asked for, the list is saved and its directories scanned again.
pub open spec fn after_change(s: StateModel, i: int, l: ListModel, success: bool) -> StateModel {
    let s1 = StateModel { lists: s.lists.update(i, l), ..s };
    if success {
        StateModel { effects: s1.effects + change_effects(list_snapshot(s.lists[i]), l), ..s1 }
    } else {
        s1
    }
}

/// Records, for each project of the list, its link, its type and whether it counts as
/// archived (see `list_snapshot`).
pub fn archive_snapshot(list: &ProjectList) -> (r: Vec<(ProjectLnk, ResourceType, bool)>)
    requires
        list.wf(),
    ensures
        snapshot_view(r@) == list_snapshot(list@),
{
    let mut r: Vec<(ProjectLnk, ResourceType, bool)> = Vec::new();
    let mut k: usize = 0;
    while k < list.projects.len()
        invariant
            k <= list.projects.len(),
            list.wf(),
            list@.projects.len() == list.projects.len(),
            snapshot_view(r@) == list_snapshot(list@).take(k as int),
        decreases list.projects.len() - k,
    {
        let lnk = list.projects[k].get_lnk();
        assert(list@.projects[k as int] == list.projects@[k as int]@);
        assert(ids(list@.projects)[k as int] == lnk@);
        let a = list.is_project_archived(&lnk);
        let ghost r0 = r@;
        let t = list.projects[k].resource_type;
        assert(t == list@.projects[k as int].rtype);
        r.push((lnk, t, a));
        assert(r@ == r0.push((lnk, t, a)));
        assert(snapshot_view(r@) =~= snapshot_view(r0).push((lnk@, t, a)));
        assert(list_snapshot(list@)[k as int] == (lnk@, t, a));
        assert(snapshot_view(r@) =~= list_snapshot(list@).take(k + 1));
        k = k + 1;
    }
    assert(list_snapshot(list@).take(list.projects.len() as int) =~= list_snapshot(list@));
    r
}

/// Whether the snapshot records the project as archived (see `was_archived`).
fn lookup_archived(pre: &Vec<(ProjectLnk, ResourceType, bool)>, x: &ProjectLnk) -> (r: bool)
    ensures
        r == was_archived(snapshot_view(pre@), x@),
{
    let ghost pv = snapshot_view(pre@);
    let mut found = false;
    let mut k: usize = 0;
    while k < pre.len()
        invariant
            k <= pre.len(),
            pv == snapshot_view(pre@),
            found == was_archived(pv.take(k as int), x@),
        decreases pre.len() - k,
    {
        assert(pv.take(k + 1).drop_last() =~= pv.take(k as int));
        assert(pv.take(k + 1).last() == pv[k as int]);
        if pre[k].0 == *x {
            found = pre[k].2;
        }
        k = k + 1;
    }
    assert(pv.take(pre.len() as int) =~= pv);
    found
}

/// The projects and report after removing the projects one after the other.
pub open spec fn remove_all(ps: Seq<ProjectModel>, xs: Seq<Seq<char>>) -> (Seq<ProjectModel>, MutationModel)
    decreases xs.len(),
{
    if xs.len() == 0 {
        (ps, plain(MutationOutcome::Unchanged))
    } else {
        let r = remove_all(ps, xs.drop_last());
        let s = remove_spec(r.0, xs.last());
        (s.0, accumulated(r.1, s.1))
    }
}

proof fn lemma_scan_targets_step(types: Seq<ResourceType>, tc: Seq<(ResourceType, crate::project_list::TypeConfigModel)>, k: int)
    requires
        0 <= k < types.len(),
    ensures
        scan_targets(types.take(k + 1), tc) == (match config_for(tc, types[k]) {
            Some(c) => scan_targets(types.take(k), tc).push(
                (c.download_dir, crate::resource_type::spec_file_extension(types[k])),
            ),
            None => scan_targets(types.take(k), tc),
        }),
{
    assert(types.take(k + 1).drop_last() =~= types.take(k));
    assert(types.take(k + 1).last() == types[k]);
}

impl RDState {
    /// Asks, after a successful change to the list at position `i` from what `pre`
    /// records, for the file changes, for the list to be saved and for its directories to
    /// be scanned again (see `change_effects`).
    pub fn announce_change(&mut self, i: usize, success: bool, pre: &Vec<(ProjectLnk, ResourceType, bool)>)
        requires
            old(self).wf(),
            i < old(self).lists.len(),
        ensures
            final(self).wf(),
            final(self).lists@ == old(self).lists@,
            success ==> final(self)@ == (StateModel {
                effects: old(self)@.effects + change_effects(snapshot_view(pre@), old(self)@.lists[i as int]),
                ..old(self)@
            }),
            !success ==> final(self)@ == old(self)@,
    {
        if !success {
            return ;
        }
        let ghost s0 = self@;
        let ghost l = self@.lists[i as int];
        let ghost pv = snapshot_view(pre@);
        assert(self.lists@[i as int].wf());
        let mut d: usize = 0;
        while d < pre.len()
            invariant
                d <= pre.len(),
                i < self.lists.len(),
                self.lists@ == old(self).lists@,
                self.config == old(self).config,
                l == self@.lists[i as int],
                self.lists@[i as int].wf(),
                pv == snapshot_view(pre@),
                self@ == (StateModel { effects: s0.effects + deletion_effects(pv.take(d as int), l), ..s0 }),
            decreases pre.len() - d,
        {
            let ghost before = self@.effects;
            assert(pv.take(d + 1).drop_last() =~= pv.take(d as int));
            assert(pv.take(d + 1).last() == pv[d as int]);
            let e = &pre[d];
            if !self.lists[i].has_project(&e.0) {
                let dir = match self.lists[i].get_resource_type(&e.1) {
                    Some(tc) => Some(tc.download_dir.clone()),
                    None => None,
                };
                match dir {
                    Some(dd) => {
                        self.dispatch(Effect::DeleteProjectFiles { path: dd, project: e.0.clone() });
                    },
                    None => {},
                }
            }
            assert(self@.effects =~= s0.effects + deletion_effects(pv.take(d + 1), l));
            d = d + 1;
        }
        assert(pv.take(pre.len() as int) =~= pv);
        let ghost dels = deletion_effects(pv, l);
        let n = self.lists[i].projects.len();
        let mut a: usize = 0;
        while a < n
            invariant
                a <= n,
                n == l.projects.len(),
                i < self.lists.len(),
                self.lists@ == old(self).lists@,
                self.config == old(self).config,
                l == self@.lists[i as int],
                self.lists@[i as int].wf(),
                pv == snapshot_view(pre@),
                self@ == (StateModel { effects: s0.effects + dels + archive_effects(pv, l, a as nat), ..s0 }),
            decreases n - a,
        {
            assert(self.lists@[i as int]@.projects.len() == self.lists@[i as int].projects@.len());
            let p_lnk = self.lists[i].projects[a].get_lnk();
            let t = self.lists[i].projects[a].resource_type;
            let ghost pm = l.projects[a as int];
            assert(pm == self.lists@[i as int].projects@[a as int]@);
            assert(ids(l.projects)[a as int] == p_lnk@);
            let now = self.lists[i].is_project_archived(&p_lnk);
            let was = lookup_archived(pre, &p_lnk);
            if now != was {
                let dir = match self.lists[i].get_resource_type(&t) {
                    Some(tc) => Some(tc.download_dir.clone()),
                    None => None,
                };
                match dir {
                    Some(dd) => {
                        if now {
                            self.dispatch(Effect::ArchiveProjectFiles { path: dd, project: p_lnk });
                        } else {
                            self.dispatch(Effect::UnarchiveProjectFiles { path: dd, project: p_lnk });
                        }
                    },
                    None => {},
                }
            }
            assert(self@.effects =~= s0.effects + dels + archive_effects(pv, l, (a + 1) as nat));
            a = a + 1;
        }
        let ghost base = s0.effects + dels + archive_effects(pv, l, l.projects.len());
        let lnk = self.lists[i].get_lnk();
        self.dispatch(Effect::SaveList { list: lnk });
        let types = self.lists[i].get_resource_types();
        let mut k: usize = 0;
        while k < types.len()
            invariant
                k <= types.len(),
                i < self.lists.len(),
                self.lists@ == old(self).lists@,
                self.config == old(self).config,
                l == self@.lists[i as int],
                self.lists@[i as int].wf(),
                types@ == list_types(l),
                self@ == (StateModel {
                    effects: base + seq![EffectModel::SaveList { list: l.id }] + scan_effects(
                        scan_targets(types@.take(k as int), l.type_config),
                    ),
                    ..s0
                }),
            decreases types.len() - k,
        {
            let t = types[k];
            proof {
                lemma_scan_targets_step(types@, l.type_config, k as int);
            }
            let ghost before = scan_targets(types@.take(k as int), l.type_config);
            let dir = match self.lists[i].get_resource_type(&t) {
                Some(tc) => Some(tc.download_dir.clone()),
                None => None,
            };
            match dir {
                Some(d) => {
                    let ext = t.file_extension();
                    let archived = crate::text::concat(ext.as_str(), ".archive");
                    let mut exts: Vec<String> = Vec::new();
                    exts.push(ext);
                    exts.push(archived);
                    let ghost after = before.push((d@, ext@));
                    assert(crate::effect::strings_model(exts@) =~= seq![ext@, ext@ + ".archive"@]);
                    self.dispatch(Effect::FindFiles { directory: d, file_extension: exts });
                    assert(scan_effects(after) =~= scan_effects(before).push(crate::state::find_files_effect(d@, ext@)));
                },
                None => {},
            }
            k = k + 1;
        }
        assert(types@.take(types.len() as int) =~= types@);
        assert(self@.effects =~= s0.effects + change_effects(pv, l));
        assert(self@ =~= (StateModel { effects: s0.effects + change_effects(pv, l), ..s0 }));
    }
}

/// The state after project `p`, added at time `t`, is added to list `l` at position `i`
/// (see `add_spec`).
pub open spec fn state_after_add(s: StateModel, i: int, l: ListModel, p: ProjectModel, t: int) -> StateModel {
    let r = add_spec(l.projects, ProjectModel { added_at: t, ..p });
    after_change(s, i, ListModel { projects: r.0, ..l }, outcome_is_success(r.1.outcome))
}

/// What the user can do to the projects of a list.
pub struct ProjectActions;

impl ProjectActions {
    /// Removes projects from a list held by the state, one after the other (see
    /// `remove_all`); when that changed anything, the list is saved and rescanned.
    pub fn remove_projects(state: &mut RDState, list_lnk: ListLnk, projects: Vec<ProjectLnk>)
        requires
            old(state).wf(),
        ensures
            final(state).wf(),
            match crate::state::list_of(old(state)@.lists, list_lnk@) {
                Some(l) => {
                    let r = remove_all(l.projects, lnks_model(projects@));
                    final(state)@ == after_change(
                        old(state)@,
                        list_pos(old(state)@.lists, list_lnk@),
                        ListModel { projects: r.0, ..l },
                        outcome_is_success(r.1.outcome),
                    )
                },
                None => final(state)@ == old(state)@,
            },
    {
        let i = match find_list(&state.lists, &list_lnk) {
            Some(i) => i,
            None => return ,
        };
        let ghost s0 = state@;
        let ghost l0 = s0.lists[i as int];
        let ghost xs = lnks_model(projects@);
        assert(state.lists@[i as int].wf());
        let pre = archive_snapshot(&state.lists[i]);
        let mut result = MutationResult::unchanged();
        let mut k: usize = 0;
        while k < projects.len()
            invariant
                k <= projects.len(),
                i < state.lists.len(),
                xs == lnks_model(projects@),
                state.lists@.len() == s0.lists.len(),
                state.lists@[i as int].wf(),
                state@ == (StateModel { lists: state@.lists, ..s0 }),
                forall|j: int| 0 <= j < state.lists@.len() && j != i ==> state.lists@[j] == old(state).lists@[j],
                state@.lists[i as int] == (ListModel { projects: remove_all(l0.projects, xs.take(k as int)).0, ..l0 }),
                result@ == remove_all(l0.projects, xs.take(k as int)).1,
            decreases projects.len() - k,
        {
            assert(xs.take(k + 1).drop_last() =~= xs.take(k as int));
            assert(xs.take(k + 1).last() == projects@[k as int]@);
            let r = state.lists[i].remove_project(&projects[k]);
            result.accumulate(r);
            k = k + 1;
        }
        assert(xs.take(projects.len() as int) =~= xs);
        proof {
            assert forall|j: int| 0 <= j < state.lists@.len() implies (#[trigger] state.lists@[j]).wf() by {
                if j != i {
                    assert(state.lists@[j] == old(state).lists@[j]);
                }
            }
            assert(state@.lists =~= s0.lists.update(i as int, state@.lists[i as int]));
            let ls = state@.lists;
            assert forall|x: int, y: int| 0 <= x < ls.len() && 0 <= y < ls.len() && x != y implies ls[x].id != ls[y].id by {
                assert(ls[x].id == s0.lists[x].id);
                assert(ls[y].id == s0.lists[y].id);
            }
        }
        let success = result.is_success();
        state.announce_change(i, success, &pre);
    }

    /// Adds a project, hand-chosen, made from the remote service's data, to a list held
    /// by the state (see `add_spec`), and scrolls to it; when that changed anything, the
    /// list is saved and rescanned.
    pub fn add_project(
        state: &mut RDState,
        list_lnk: ListLnk,
        project_lnk: ProjectLnk,
        resource_type: ResourceType,
        data: RTProjectData,
    )
        requires
            old(state).wf(),
        ensures
            final(state).wf(),
            ({
                let p = fresh_project(project_lnk@, resource_type, true, data.name@, data.description@, data.author@, 0);
                let s1 = StateModel { pending_scroll: Some((list_lnk@, project_lnk@)), ..old(state)@ };
                match crate::state::list_of(old(state)@.lists, list_lnk@) {
                    Some(l) => exists|t: int|
                        final(state)@ == #[trigger] state_after_add(s1, list_pos(old(state)@.lists, list_lnk@), l, p, t),
                    None => final(state)@ == s1,
                }
            }),
    {
        state.pending_scroll = Some((list_lnk.clone(), project_lnk.clone()));
        let i = match find_list(&state.lists, &list_lnk) {
            Some(i) => i,
            None => return ,
        };
        let ghost s1 = state@;
        let ghost l0 = s1.lists[i as int];
        let project = Project::new_from_rt_project(project_lnk, resource_type, true, data);
        let ghost pm = project@;
        assert(state.lists@[i as int].wf());
        let pre = archive_snapshot(&state.lists[i]);
        let r = state.lists[i].add_project(project);
        proof {
            assert forall|j: int| 0 <= j < state.lists@.len() implies (#[trigger] state.lists@[j]).wf() by {
                if j != i {
                    assert(state.lists@[j] == old(state).lists@[j]);
                }
            }
            assert(state@.lists =~= s1.lists.update(i as int, state@.lists[i as int]));
            let ls = state@.lists;
            assert forall|x: int, y: int| 0 <= x < ls.len() && 0 <= y < ls.len() && x != y implies ls[x].id != ls[y].id by {
                assert(ls[x].id == s1.lists[x].id);
                assert(ls[y].id == s1.lists[y].id);
            }
        }
        let success = r.is_success();
        state.announce_change(i, success, &pre);
        proof {
            let p = fresh_project(pm.id, resource_type, true, pm.name, pm.description, pm.author, 0);
            assert(pm == ProjectModel { added_at: pm.added_at, ..p });
            assert(state@ == state_after_add(s1, i as int, l0, p, pm.added_at));
        }
    }
}

} // verus!
