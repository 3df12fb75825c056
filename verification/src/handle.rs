use vstd::prelude::*;
use crate::config::{AppConfig, ConfigModel, assign, assigned, key_eq, opt_group_view};
use crate::effect::{Effect, EffectModel, strings_model};
use crate::events::{Event, EventKind, InternalEvent, refreshes};
use crate::lnk::{ListLnk, SidebarItem, SidebarKey};
use crate::project_list::{
    ListModel, ProjectList, has_id, law_add_keeps_projects, law_add_version_keeps_projects, law_added_project_is_present,
    law_added_version_is_set, proj, find_project, project_models,
};
use crate::project::{Project, ProjectModel, ProjectVersion, ProjectVersionModel};
use crate::remote::RTProjectData;
use crate::resource_type::ResourceType;
use crate::lnk::ProjectLnk;
use crate::seqs::{first_idx, keep};
use crate::state::{
    RDState, StateModel, dirs_view, files_view, find_list, found_view, list_pos, lists_view, normalize_path,
    normalized, opened_list_no_save, refreshed, save_config_effect, unique_list_ids, with_sidebar_item,
};

verus! {

/// The lists with `l` put in: in place of the list with its id, else at the end.
pub open spec fn put_list(ls: Seq<ListModel>, l: ListModel) -> Seq<ListModel> {
    let i = list_pos(ls, l.id);
    if i >= 0 {
        ls.update(i, l)
    } else {
        ls.push(l)
    }
}

/// The lists with each of `news` put in, in order.
pub open spec fn put_all(ls: Seq<ListModel>, news: Seq<ListModel>) -> Seq<ListModel>
    decreases news.len(),
{
    if news.len() == 0 {
        ls
    } else {
        put_list(put_all(ls, news.drop_last()), news.last())
    }
}

/// The lists without the list with the given id.
pub open spec fn drop_list(ls: Seq<ListModel>, id: Seq<char>) -> Seq<ListModel> {
    let i = list_pos(ls, id);
    if i >= 0 {
        ls.remove(i)
    } else {
        ls
    }
}

/// The directories being scanned, without `d`.
pub open spec fn scan_remove(scans: Seq<Seq<char>>, d: Seq<char>) -> Seq<Seq<char>> {
    keep(scans, |x: Seq<char>| x != d)
}

/// Selects the entry of directory `d`.
pub open spec fn dir_is(d: Seq<char>) -> spec_fn((Seq<char>, Seq<(Seq<char>, Seq<char>)>)) -> bool {
    |e: (Seq<char>, Seq<(Seq<char>, Seq<char>)>)| e.0 == d
}

/// The files found, with those of directory `d` recorded (replacing earlier ones).
pub open spec fn put_found(
    ff: Seq<(Seq<char>, Seq<(Seq<char>, Seq<char>)>)>,
    d: Seq<char>,
    files: Seq<(Seq<char>, Seq<char>)>,
) -> Seq<(Seq<char>, Seq<(Seq<char>, Seq<char>)>)> {
    let i = first_idx(ff, dir_is(d));
    if i >= 0 {
        ff.update(i, (d, files))
    } else {
        ff.push((d, files))
    }
}

proof fn lemma_update_list_wf(a: Seq<ProjectList>, b: Seq<ProjectList>, i: int)
    requires
        0 <= i < a.len(),
        b == a.update(i, b[i]),
        b[i]@.id == a[i]@.id,
        b[i].wf(),
        unique_list_ids(lists_view(a)),
        forall|j: int| 0 <= j < a.len() ==> (#[trigger] a[j]).wf(),
    ensures
        unique_list_ids(lists_view(b)),
        forall|j: int| 0 <= j < b.len() ==> (#[trigger] b[j]).wf(),
        lists_view(b) == lists_view(a).update(i, b[i]@),
{
    assert(lists_view(b) =~= lists_view(a).update(i, b[i]@));
    let lb = lists_view(b);
    let la = lists_view(a);
    assert forall|x: int, y: int| 0 <= x < lb.len() && 0 <= y < lb.len() && x != y implies lb[x].id != lb[y].id by {
        assert(lb[x].id == la[x].id);
        assert(lb[y].id == la[y].id);
    }
    assert forall|j: int| 0 <= j < b.len() implies (#[trigger] b[j]).wf() by {
        if j != i {
            assert(b[j] == a[j]);
        }
    }
}

impl RDState {
    /// Puts a list into the state, in place of the list with its id if there is one.
    pub fn insert_list(&mut self, list: ProjectList)
        requires
            old(self).wf(),
            list.wf(),
        ensures
            final(self).wf(),
            final(self)@ == (StateModel { lists: put_list(old(self)@.lists, list@), ..old(self)@ }),
            final(self).config == old(self).config,
    {
        let ghost s0 = self@;
        let ghost lm = list@;
        let lnk = list.get_lnk();
        match find_list(&self.lists, &lnk) {
            Some(i) => {
                let ghost a = self.lists@;
                self.lists.set(i, list);
                proof {
                    lemma_update_list_wf(a, self.lists@, i as int);
                }
                assert(self@ =~= (StateModel { lists: put_list(s0.lists, lm), ..s0 }));
            },
            None => {
                let ghost a = self.lists@;
                self.lists.push(list);
                proof {
                    crate::seqs::lemma_first_idx(lists_view(a), crate::state::list_is(lm.id));
                    assert(lists_view(self.lists@) =~= lists_view(a).push(lm));
                    let lb = lists_view(self.lists@);
                    let la = lists_view(a);
                    assert forall|x: int, y: int| 0 <= x < lb.len() && 0 <= y < lb.len() && x != y implies lb[x].id
                        != lb[y].id by {
                        if x == la.len() {
                            assert(!crate::state::list_is(lm.id)(la[y]));
                        } else if y == la.len() {
                            assert(!crate::state::list_is(lm.id)(la[x]));
                        } else {
                            assert(lb[x] == la[x]);
                            assert(lb[y] == la[y]);
                        }
                    }
                    assert forall|j: int| 0 <= j < self.lists@.len() implies (#[trigger] self.lists@[j]).wf() by {
                        if j < a.len() {
                            assert(self.lists@[j] == a[j]);
                        }
                    }
                }
                assert(self@ =~= (StateModel { lists: put_list(s0.lists, lm), ..s0 }));
            },
        }
    }

    /// Takes the list with the given id out of the state.
    pub fn remove_list(&mut self, l: &ListLnk)
        requires
            old(self).wf(),
        ensures
            final(self).wf(),
            final(self)@ == (StateModel { lists: drop_list(old(self)@.lists, l@), ..old(self)@ }),
    {
        let ghost s0 = self@;
        match find_list(&self.lists, l) {
            Some(i) => {
                let ghost a = self.lists@;
                let _ = self.lists.remove(i);
                proof {
                    assert(lists_view(self.lists@) =~= lists_view(a).remove(i as int));
                    let lb = lists_view(self.lists@);
                    let la = lists_view(a);
                    assert forall|x: int, y: int| 0 <= x < lb.len() && 0 <= y < lb.len() && x != y implies lb[x].id
                        != lb[y].id by {
                        let x2 = if x < i { x } else { x + 1 };
                        let y2 = if y < i { y } else { y + 1 };
                        assert(lb[x] == la[x2]);
                        assert(lb[y] == la[y2]);
                    }
                    assert forall|j: int| 0 <= j < self.lists@.len() implies (#[trigger] self.lists@[j]).wf() by {
                        let j2 = if j < i { j } else { j + 1 };
                        assert(self.lists@[j] == a[j2]);
                    }
                }
                assert(self@ =~= (StateModel { lists: drop_list(s0.lists, l@), ..s0 }));
            },
            None => {},
        }
    }

    /// Records the files found in a directory, which is no longer being scanned.
    pub fn record_found_files(&mut self, dir: &String, files: Vec<(String, String)>)
        ensures
            final(self)@ == (StateModel {
                active_scans: scan_remove(old(self)@.active_scans, dir@),
                found_files: put_found(old(self)@.found_files, dir@, files_view(files@)),
                ..old(self)@
            }),
            final(self).lists@ == old(self).lists@,
            final(self).config == old(self).config,
    {
        let ghost s0 = self@;
        let ghost sc = s0.active_scans;
        let mut scans: Vec<String> = Vec::new();
        let mut i: usize = 0;
        while i < self.active_scans.len()
            invariant
                i <= self.active_scans.len(),
                sc == strings_model(self.active_scans@),
                strings_model(scans@) == keep(sc.take(i as int), |x: Seq<char>| x != dir@),
            decreases self.active_scans.len() - i,
        {
            proof {
                crate::seqs::lemma_keep_step(sc, |x: Seq<char>| x != dir@, i as int);
            }
            if !(self.active_scans[i] == *dir) {
                let s = self.active_scans[i].clone();
                scans.push(s);
                assert(strings_model(scans@) =~= keep(sc.take(i as int), |x: Seq<char>| x != dir@).push(sc[i as int]));
            }
            i = i + 1;
        }
        assert(sc.take(sc.len() as int) =~= sc);
        self.active_scans = scans;
        assert(self@ =~= (StateModel { active_scans: scan_remove(s0.active_scans, dir@), ..s0 }));
        let ghost ff = s0.found_files;
        let ghost fv = files_view(files@);
        let mut k: usize = 0;
        while k < self.found_files.len()
            invariant
                k <= self.found_files.len(),
                ff == found_view(self.found_files@),
                fv == files_view(files@),
                s0 == old(self)@,
                forall|j: int| 0 <= j < k ==> !dir_is(dir@)(ff[j]),
                self@ == (StateModel { active_scans: scan_remove(s0.active_scans, dir@), ..s0 }),
                self.lists@ == old(self).lists@,
                self.config == old(self).config,
            decreases self.found_files.len() - k,
        {
            if self.found_files[k].0 == *dir {
                assert(crate::seqs::is_first(ff, dir_is(dir@), k as int));
                proof {
                    crate::seqs::lemma_is_first_unique(ff, dir_is(dir@), k as int);
                }
                let d = dir.clone();
                self.found_files.set(k, (d, files));
                assert(found_view(self.found_files@) =~= ff.update(k as int, (dir@, fv)));
                assert(self@ =~= (StateModel {
                    active_scans: scan_remove(s0.active_scans, dir@),
                    found_files: put_found(s0.found_files, dir@, fv),
                    ..s0
                }));
                return ;
            }
            k = k + 1;
        }
        proof {
            crate::seqs::lemma_none_first(ff, dir_is(dir@));
        }
        let d = dir.clone();
        self.found_files.push((d, files));
        assert(found_view(self.found_files@) =~= ff.push((dir@, fv)));
        assert(self@ =~= (StateModel {
            active_scans: scan_remove(s0.active_scans, dir@),
            found_files: put_found(s0.found_files, dir@, fv),
            ..s0
        }));
    }
}


/// The state after a list comes in (created or imported): it is held, everything is
/// refreshed, it is placed in the sidebar (see `with_sidebar_item`) and scrolled to.
pub open spec fn list_added(s: StateModel, l: ListModel, k: Seq<char>) -> StateModel {
    let s1 = StateModel { lists: put_list(s.lists, l), ..s };
    let s2 = with_sidebar_item(refreshed(s1), SidebarKey::List(k));
    StateModel { pending_sidebar_scroll: Some(SidebarKey::List(k)), ..s2 }
}

/// The ids that list links refer to.
pub open spec fn list_lnk_ids(v: Seq<ListLnk>) -> Seq<Seq<char>> {
    v.map_values(|l: ListLnk| l@)
}

/// The ids of the lists.
pub open spec fn list_ids(ls: Seq<ListModel>) -> Seq<Seq<char>> {
    ls.map_values(|l: ListModel| l.id)
}

/// The state after loading: the settings, lists, default directories and connectivity
/// that were loaded; the list that was last open is opened again (without saving) and
/// scrolled to, when it was loaded.
pub open spec fn initialized(
    s: StateModel,
    c: ConfigModel,
    ls: Seq<ListModel>,
    dirs: Seq<(crate::resource_type::ResourceType, Seq<char>)>,
    offline: bool,
) -> StateModel {
    let s1 = StateModel { config: c, offline_mode: offline, lists: put_all(s.lists, ls), default_dirs: dirs, ..s };
    match c.last_open_list {
        Some(l) => if list_ids(ls).contains(l) {
            let s2 = if s1.open_list == Some(l) { s1 } else { opened_list_no_save(s1, Some(l)) };
            StateModel { pending_sidebar_scroll: Some(SidebarKey::List(l)), ..s2 }
        } else {
            s1
        },
        None => s1,
    }
}

/// The state after a copy of list `src` comes in under id `dup_id`: it is held, placed
/// right after the list in the sidebar (at the top when the list is not there), put in
/// the given group or else in the group of the list, the settings are saved and the copy
/// is scrolled to.
pub open spec fn duplicated(
    s: StateModel,
    src: Seq<char>,
    dup_id: Seq<char>,
    dup: ListModel,
    target_parent: Option<Seq<char>>,
) -> StateModel {
    let s1 = StateModel { lists: put_list(s.lists, dup), ..s };
    let c = s1.config;
    let k = SidebarKey::List(dup_id);
    let p = first_idx(c.order, key_eq(SidebarKey::List(src)));
    let order = if p >= 0 { c.order.insert(p + 1, k) } else { c.order.insert(0, k) };
    let parent = match target_parent {
        Some(g) => Some(g),
        None => assigned(c.assignments, src),
    };
    let a = match parent {
        Some(g) => assign(c.assignments, dup_id, g),
        None => c.assignments,
    };
    let c2 = ConfigModel { order, assignments: a, ..c };
    StateModel { config: c2, effects: s1.effects.push(save_config_effect(c2)), pending_sidebar_scroll: Some(k), ..s1 }
}

pub open spec fn put_all_wf(ls: Seq<ProjectList>) -> bool {
    forall|j: int| 0 <= j < ls.len() ==> (#[trigger] ls[j]).wf()
}

impl RDState {
    /// Takes in a list that came in (see `list_added`).
    fn on_list_added(&mut self, list_lnk: &ListLnk, list: ProjectList)
        requires
            old(self).wf(),
            list.wf(),
        ensures
            final(self).wf(),
            final(self)@ == list_added(old(self)@, list@, list_lnk@),
    {
        self.insert_list(list);
        self.request_full_refresh();
        self.insert_sidebar_item(SidebarItem::List(list_lnk.clone()), false);
        self.pending_sidebar_scroll = Some(SidebarItem::from_list(list_lnk));
    }

    /// Takes in what was loaded (see `initialized`).
    fn on_initialized(
        &mut self,
        config: AppConfig,
        lists: Vec<ProjectList>,
        default_dirs: Vec<(crate::resource_type::ResourceType, String)>,
        offline_mode: bool,
    ) -> (r: Vec<ListLnk>)
        requires
            old(self).wf(),
            config.wf(),
            put_all_wf(lists@),
        ensures
            final(self).wf(),
            final(self)@ == initialized(old(self)@, config@, lists_view(lists@), dirs_view(default_dirs@), offline_mode),
            list_lnk_ids(r@) == list_ids(lists_view(lists@)),
    {
        let ghost s0 = self@;
        let ghost lv = lists_view(lists@);
        let ghost cv = config@;
        let last_open = crate::state::clone_opt_list(&config.last_open_list_id);
        self.config = config;
        self.offline_mode = offline_mode;
        let mut lnks: Vec<ListLnk> = Vec::new();
        let mut lists = lists;
        let ghost all = lists@;
        let total = lists.len();
        let mut k: usize = 0;
        while lists.len() > 0
            invariant
                k + lists@.len() == all.len(),
                all.len() == total,
                lists@ == all.skip(k as int),
                put_all_wf(all),
                lv == lists_view(all),
                self.wf(),
                self@ == (StateModel {
                    config: cv,
                    offline_mode,
                    lists: put_all(s0.lists, lv.take(k as int)),
                    ..s0
                }),
                list_lnk_ids(lnks@) == list_ids(lv.take(k as int)),
            decreases lists@.len(),
        {
            let l = lists.remove(0);
            assert(l == all[k as int]);
            assert(lv.take(k + 1).drop_last() =~= lv.take(k as int));
            assert(lv.take(k + 1).last() == l@);
            let lnk = l.get_lnk();
            let ghost before = list_lnk_ids(lnks@);
            lnks.push(lnk);
            assert(list_lnk_ids(lnks@) =~= before.push(l@.id));
            assert(list_ids(lv.take(k + 1)) =~= list_ids(lv.take(k as int)).push(l@.id));
            self.insert_list(l);
            assert(all.skip(k as int).drop_first() =~= all.skip(k + 1));
            k = k + 1;
        }
        assert(lv.take(all.len() as int) =~= lv);
        self.default_dirs = default_dirs;
        let ghost s1 = self@;
        match last_open {
            Some(l) => {
                let mut found = false;
                let mut j: usize = 0;
                while j < lnks.len()
                    invariant
                        j <= lnks.len(),
                        found == list_lnk_ids(lnks@).take(j as int).contains(l@),
                    decreases lnks.len() - j,
                {
                    let ghost t = list_lnk_ids(lnks@);
                    assert(t.take(j + 1) =~= t.take(j as int).push(t[j as int]));
                    if lnks[j] == l {
                        found = true;
                        assert(t.take(j + 1)[j as int] == l@);
                    }
                    j = j + 1;
                }
                assert(list_lnk_ids(lnks@).take(lnks.len() as int) =~= list_lnk_ids(lnks@));
                if found {
                    self.set_open_list_no_save(Some(l.clone()));
                    self.pending_sidebar_scroll = Some(SidebarItem::from_list(&l));
                }
            },
            None => {},
        }
        lnks
    }

    /// Takes in a copy of a list (see `duplicated`).
    fn on_list_duplicated(
        &mut self,
        list_lnk: &ListLnk,
        dup_lnk: &ListLnk,
        dup_list: ProjectList,
        target_parent: Option<crate::lnk::ListGroupLnk>,
    )
        requires
            old(self).wf(),
            dup_list.wf(),
        ensures
            final(self).wf(),
            final(self)@ == duplicated(old(self)@, list_lnk@, dup_lnk@, dup_list@, opt_group_view(target_parent)),
    {
        let ghost s0 = self@;
        self.insert_list(dup_list);
        let ghost s1 = self@;
        let item = SidebarItem::from_list(dup_lnk);
        let orig = SidebarItem::from_list(list_lnk);
        match self.config.item_pos(&orig) {
            Some(pos) => {
                proof {
                    crate::seqs::lemma_first_idx(s1.config.order, key_eq(orig@));
                }
                let n = self.config.sidebar_ui_order.len();
                assert(pos < n);
                self.config.insert_item_at(pos + 1, item);
            },
            None => self.config.insert_item_at(0, item),
        }
        let parent = match target_parent {
            Some(g) => Some(g),
            None => self.config.group_of_list(list_lnk),
        };
        match parent {
            Some(g) => self.config.assign_list(dup_lnk.clone(), g),
            None => {},
        }
        self.save_config();
        self.pending_sidebar_scroll = Some(SidebarItem::from_list(dup_lnk));
        assert(self@ =~= duplicated(s0, list_lnk@, dup_lnk@, dup_list@, opt_group_view(target_parent)));
    }
}

/// The ids of the projects that a version selection brings data for.
pub open spec fn data_ids(d: Seq<(ProjectLnk, ResourceType, RTProjectData)>) -> Seq<Seq<char>> {
    d.map_values(|e: (ProjectLnk, ResourceType, RTProjectData)| e.0@)
}

/// Each project a version depends on is in the list or comes with the selection, when
/// the project the version is for is in the list or comes with it.
pub open spec fn deps_available(
    ps: Seq<ProjectModel>,
    d: Seq<(ProjectLnk, ResourceType, RTProjectData)>,
    x: Seq<char>,
    v: ProjectVersionModel,
) -> bool {
    (has_id(ps, x) || data_ids(d).contains(x)) ==> forall|k: int|
        0 <= k < v.deps.len() ==> has_id(ps, #[trigger] v.deps[k].project) || data_ids(d).contains(v.deps[k].project)
}

/// What taking in a version selection does to list `l` (now `m`): the projects it held
/// stay, those that came with the selection are added and no others, and the project,
/// when held, has the version.
pub open spec fn version_selected(
    l: ListModel,
    m: ListModel,
    d: Seq<(ProjectLnk, ResourceType, RTProjectData)>,
    x: Seq<char>,
    v: ProjectVersionModel,
) -> bool {
    &&& m.id == l.id
    &&& m.type_config == l.type_config
    &&& forall|y: Seq<char>| has_id(l.projects, y) ==> #[trigger] has_id(m.projects, y)
    &&& forall|k: int| 0 <= k < d.len() ==> has_id(m.projects, #[trigger] data_ids(d)[k])
    &&& forall|y: Seq<char>| #[trigger] has_id(m.projects, y) ==> has_id(l.projects, y) || data_ids(d).contains(y)
    &&& has_id(m.projects, x) ==> proj(m.projects, x).version == Some(v)
}

impl RDState {
    /// Takes in a version selected for a project of a list held by the state: the projects
    /// that came with it and that the list does not hold are added (not hand-chosen), then
    /// the version is added (see `version_selected`); when that succeeded, the list is
    /// saved and rescanned.
    fn on_version_selected(
        &mut self,
        list_lnk: &ListLnk,
        project: &ProjectLnk,
        version: ProjectVersion,
        dependency_data: Vec<(ProjectLnk, ResourceType, RTProjectData)>,
    )
        requires
            old(self).wf(),
            forall|j: int|
                0 <= j < old(self)@.lists.len() && (#[trigger] old(self)@.lists[j]).id == list_lnk@ ==> deps_available(
                    old(self)@.lists[j].projects,
                    dependency_data@,
                    project@,
                    version@,
                ),
        ensures
            final(self).wf(),
            match crate::state::list_of(old(self)@.lists, list_lnk@) {
                Some(l) => {
                    let i = list_pos(old(self)@.lists, list_lnk@);
                    &&& final(self)@ == (StateModel {
                        lists: final(self)@.lists,
                        effects: final(self)@.effects,
                        ..old(self)@
                    })
                    &&& final(self)@.lists.len() == old(self)@.lists.len()
                    &&& forall|j: int| 0 <= j < old(self)@.lists.len() && j != i ==> final(self)@.lists[j] == old(self)@.lists[j]
                    &&& version_selected(l, final(self)@.lists[i], dependency_data@, project@, version@)
                    &&& final(self)@.effects.len() >= old(self)@.effects.len()
                    &&& final(self)@.effects.take(old(self)@.effects.len() as int) == old(self)@.effects
                },
                None => final(self)@ == old(self)@,
            },
    {
        let i = match find_list(&self.lists, list_lnk) {
            Some(i) => i,
            None => return ,
        };
        let ghost s0 = self@;
        let ghost l0 = s0.lists[i as int];
        let ghost dd = dependency_data@;
        assert(deps_available(l0.projects, dd, project@, version@));
        assert(self.lists@[i as int].wf());
        let pre = crate::project_actions::archive_snapshot(&self.lists[i]);
        let mut data = dependency_data;
        let total = data.len();
        let mut k: usize = 0;
        while data.len() > 0
            invariant
                k + data@.len() == dd.len(),
                dd.len() == total,
                data@ == dd.skip(k as int),
                i < self.lists.len(),
                self.lists@.len() == s0.lists.len(),
                forall|j: int| 0 <= j < self.lists@.len() && j != i ==> self.lists@[j] == old(self).lists@[j],
                self.lists@[i as int].wf(),
                self@.lists[i as int].id == l0.id,
                self@.lists[i as int].type_config == l0.type_config,
                self@ == (StateModel { lists: self@.lists, ..s0 }),
                forall|y: Seq<char>| has_id(l0.projects, y) ==> #[trigger] has_id(self@.lists[i as int].projects, y),
                forall|m: int| 0 <= m < k ==> has_id(self@.lists[i as int].projects, #[trigger] data_ids(dd)[m]),
                forall|y: Seq<char>| #[trigger] has_id(self@.lists[i as int].projects, y) ==> has_id(l0.projects, y)
                    || data_ids(dd).take(k as int).contains(y),
            decreases data@.len(),
        {
            let (p_lnk, rt, meta) = data.remove(0);
            assert(data_ids(dd)[k as int] == p_lnk@);
            assert(dd.skip(k as int).drop_first() =~= dd.skip(k + 1));
            let ghost ps = self@.lists[i as int].projects;
            if !self.lists[i].has_project(&p_lnk) {
                let p = Project::new(p_lnk.into_id(), rt, false, meta.name, meta.description, meta.author);
                let ghost pm = p@;
                let _ = self.lists[i].add_project(p);
                proof {
                    law_added_project_is_present(ps, pm);
                    assert forall|y: Seq<char>| has_id(l0.projects, y) implies #[trigger] has_id(self@.lists[i as int].projects, y) by {
                        law_add_keeps_projects(ps, pm, y);
                    }
                    assert forall|m: int| 0 <= m < k + 1 implies has_id(self@.lists[i as int].projects, #[trigger] data_ids(dd)[m]) by {
                        if m < k {
                            law_add_keeps_projects(ps, pm, data_ids(dd)[m]);
                        }
                    }
                    let dk = data_ids(dd);
                    assert forall|y: Seq<char>| #[trigger] has_id(self@.lists[i as int].projects, y) implies has_id(l0.projects, y)
                        || dk.take(k + 1).contains(y) by {
                        crate::project_list::lemma_add_only_adds(ps, pm, y);
                        if has_id(ps, y) {
                            if !has_id(l0.projects, y) {
                                let j = choose|j: int| 0 <= j < dk.take(k as int).len() && dk.take(k as int)[j] == y;
                                assert(dk.take(k + 1)[j] == y);
                            }
                        } else {
                            assert(dk.take(k + 1)[k as int] == p_lnk@);
                        }
                    }
                }
            } else {
                proof {
                    let dk = data_ids(dd);
                    assert forall|y: Seq<char>| #[trigger] has_id(self@.lists[i as int].projects, y) implies has_id(l0.projects, y)
                        || dk.take(k + 1).contains(y) by {
                        if !has_id(l0.projects, y) {
                            let j = choose|j: int| 0 <= j < dk.take(k as int).len() && dk.take(k as int)[j] == y;
                            assert(dk.take(k + 1)[j] == y);
                        }
                    }
                    assert(has_id(self@.lists[i as int].projects, data_ids(dd)[k as int]));
                }
            }
            k = k + 1;
        }
        let ghost ps = self@.lists[i as int].projects;
        proof {
            assert(data_ids(dd).take(dd.len() as int) =~= data_ids(dd));
        }
        let ghost vm = version@;
        assert(has_id(ps, project@) ==> crate::project_list::deps_present(ps, vm)) by {
            if has_id(ps, project@) {
                assert forall|q: int| 0 <= q < vm.deps.len() implies has_id(ps, #[trigger] vm.deps[q].project) by {
                    let y = vm.deps[q].project;
                    if data_ids(dd).contains(y) {
                        let m = choose|m: int| 0 <= m < data_ids(dd).len() && data_ids(dd)[m] == y;
                        assert(has_id(ps, data_ids(dd)[m]));
                    }
                }
            }
        }
        let r = self.lists[i].add_version(project, version);
        proof {
            if has_id(ps, project@) {
                law_added_version_is_set(ps, project@, vm);
            }
            crate::project_list::law_add_version_keeps_ids(ps, project@, vm);
            assert forall|y: Seq<char>| #[trigger] has_id(self@.lists[i as int].projects, y) implies has_id(l0.projects, y)
                || data_ids(dd).contains(y) by {
                assert(has_id(ps, y));
            }
            assert forall|y: Seq<char>| has_id(l0.projects, y) implies #[trigger] has_id(self@.lists[i as int].projects, y) by {
                law_add_version_keeps_projects(ps, project@, vm, y);
            }
            assert forall|m: int| 0 <= m < dd.len() implies has_id(self@.lists[i as int].projects, #[trigger] data_ids(dd)[m]) by {
                law_add_version_keeps_projects(ps, project@, vm, data_ids(dd)[m]);
            }
            assert(self.lists@ =~= old(self).lists@.update(i as int, self.lists@[i as int]));
            lemma_update_list_wf(old(self).lists@, self.lists@, i as int);
        }
        let success = r.is_success();
        let ghost before = self@;
        self.announce_change(i, success, &pre);
        assert(self@.effects.take(s0.effects.len() as int) =~= s0.effects);
    }
}

/// The effect that searches the remote service for the files of a folder import.
pub open spec fn search_effect(
    names: Seq<Seq<char>>,
    t: ResourceType,
    v: crate::game::GameVersionModel,
    l: crate::game::LoaderModel,
) -> EffectModel {
    EffectModel::SearchFolderImportCandidates { file_names: names, resource_type: t, version: v, loader: l }
}

/// The cleaned names of the candidates.
pub open spec fn cleaned_names(c: Seq<crate::state::CandidateModel>) -> Seq<Seq<char>> {
    c.map_values(|x: crate::state::CandidateModel| x.cleaned_name)
}

/// The state after the files of a folder were read, for the folder import under way at
/// that path: it stops scanning and holds the candidates and suggestions; the candidates
/// are searched for with the suggested version and loader when both are known, and then
/// with the suggested ones or else the given defaults.
pub open spec fn folder_scanned(
    s: StateModel,
    path: Seq<char>,
    t: ResourceType,
    c: Seq<crate::state::CandidateModel>,
    sv: Option<crate::game::GameVersionModel>,
    sl: Option<crate::game::LoaderModel>,
    dv: Option<crate::game::GameVersionModel>,
    dl: Option<crate::game::LoaderModel>,
) -> StateModel {
    match s.session {
        Some(ss) => if ss.path == path {
            let ss2 = crate::state::SessionModel {
                is_scanning: false,
                scan_progress: None,
                candidates: c,
                suggested_version: sv,
                suggested_loader: sl,
                ..ss
            };
            let names = cleaned_names(c);
            let e1 = if sv is Some && sl is Some {
                s.effects.push(search_effect(names, t, sv->0, sl->0))
            } else {
                s.effects
            };
            let v = if sv is Some { sv->0 } else { dv->0 };
            let l = if sl is Some { sl->0 } else { dl->0 };
            StateModel { session: Some(ss2), effects: e1.push(search_effect(names, t, v, l)), ..s }
        } else {
            s
        },
        None => s,
    }
}

/// Selects the search results for the given name.
pub open spec fn result_for(name: Seq<char>) -> spec_fn((Seq<char>, Seq<(Seq<char>, Seq<char>)>)) -> bool {
    |e: (Seq<char>, Seq<(Seq<char>, Seq<char>)>)| e.0 == name
}

/// The candidates with the search results that came for their cleaned names.
pub open spec fn with_results(
    c: Seq<crate::state::CandidateModel>,
    results: Seq<(Seq<char>, Seq<(Seq<char>, Seq<char>)>)>,
) -> Seq<crate::state::CandidateModel> {
    c.map_values(
        |x: crate::state::CandidateModel|
            {
                let i = first_idx(results, result_for(x.cleaned_name));
                if i >= 0 {
                    crate::state::CandidateModel { search_results: Some(results[i].1), ..x }
                } else {
                    x
                }
            },
    )
}

pub open spec fn results_table_view(v: Seq<(String, Vec<(ProjectLnk, String)>)>) -> Seq<
    (Seq<char>, Seq<(Seq<char>, Seq<char>)>),
> {
    v.map_values(|e: (String, Vec<(ProjectLnk, String)>)| (e.0@, crate::state::results_view(e.1@)))
}

fn cleaned_names_of(c: &Vec<crate::state::FolderImportCandidate>) -> (r: Vec<String>)
    ensures
        strings_model(r@) == cleaned_names(crate::state::candidates_view(c@)),
{
    let mut r: Vec<String> = Vec::new();
    let mut i: usize = 0;
    while i < c.len()
        invariant
            i <= c.len(),
            strings_model(r@) == cleaned_names(crate::state::candidates_view(c@)).take(i as int),
        decreases c.len() - i,
    {
        r.push(c[i].cleaned_name.clone());
        let ghost n = cleaned_names(crate::state::candidates_view(c@));
        assert(n.take(i + 1) =~= n.take(i as int).push(n[i as int]));
        assert(strings_model(r@) =~= n.take(i + 1));
        i = i + 1;
    }
    assert(cleaned_names(crate::state::candidates_view(c@)).take(c.len() as int) =~= cleaned_names(
        crate::state::candidates_view(c@),
    ));
    r
}

fn find_results(results: &Vec<(String, Vec<(ProjectLnk, String)>)>, name: &String) -> (r: Option<usize>)
    ensures
        match r {
            Some(i) => i < results@.len() && first_idx(results_table_view(results@), result_for(name@)) == i as int,
            None => first_idx(results_table_view(results@), result_for(name@)) == -1,
        },
{
    let ghost t = results_table_view(results@);
    let ghost f = result_for(name@);
    let mut i: usize = 0;
    while i < results.len()
        invariant
            i <= results.len(),
            t == results_table_view(results@),
            f == result_for(name@),
            forall|j: int| 0 <= j < i ==> !f(t[j]),
        decreases results.len() - i,
    {
        if results[i].0 == *name {
            assert(crate::seqs::is_first(t, f, i as int));
            proof {
                crate::seqs::lemma_is_first_unique(t, f, i as int);
            }
            return Some(i);
        }
        i = i + 1;
    }
    proof {
        crate::seqs::lemma_none_first(t, f);
    }
    None
}

impl RDState {
    /// Takes in the files read for a folder import (see `folder_scanned`).
    fn on_folder_scanned(
        &mut self,
        path: &String,
        resource_type: ResourceType,
        candidates: &Vec<crate::state::FolderImportCandidate>,
        suggested_version: &Option<crate::game::GameVersion>,
        suggested_loader: &Option<crate::game::GameLoader>,
        default_version: &Option<crate::game::GameVersion>,
        default_loader: &Option<crate::game::GameLoader>,
    )
        requires
            old(self).wf(),
            old(self)@.session matches Some(ss) && ss.path == path@ ==> (suggested_version.is_some()
                || default_version.is_some()) && (suggested_loader.is_some() || default_loader.is_some()),
        ensures
            final(self).wf(),
            final(self)@ == folder_scanned(
                old(self)@,
                path@,
                resource_type,
                crate::state::candidates_view(candidates@),
                crate::state::opt_version_view(*suggested_version),
                crate::state::opt_loader_view(*suggested_loader),
                crate::state::opt_version_view(*default_version),
                crate::state::opt_loader_view(*default_loader),
            ),
    {
        let ghost s0 = self@;
        let matches = match &self.folder_import_session {
            Some(ss) => ss.path == *path,
            None => false,
        };
        if !matches {
            return ;
        }
        match &mut self.folder_import_session {
            Some(ss) => {
                ss.is_scanning = false;
                ss.scan_progress = None;
                ss.candidates = crate::state::clone_candidates(candidates);
                ss.suggested_version = crate::state::clone_opt_version(suggested_version);
                ss.suggested_loader = crate::state::clone_opt_loader(suggested_loader);
            },
            None => {},
        }
        match (suggested_version, suggested_loader) {
            (Some(v), Some(l)) => {
                let names = cleaned_names_of(candidates);
                self.dispatch(
                    Effect::SearchFolderImportCandidates {
                        file_names: names,
                        resource_type,
                        version: v.clone(),
                        loader: l.clone(),
                    },
                );
            },
            _ => {},
        }
        let names = cleaned_names_of(candidates);
        let version = match suggested_version {
            Some(v) => v.clone(),
            None => default_version.as_ref().unwrap().clone(),
        };
        let loader = match suggested_loader {
            Some(l) => l.clone(),
            None => default_loader.as_ref().unwrap().clone(),
        };
        self.dispatch(Effect::SearchFolderImportCandidates { file_names: names, resource_type, version, loader });
        assert(self@ =~= folder_scanned(
            s0,
            path@,
            resource_type,
            crate::state::candidates_view(candidates@),
            crate::state::opt_version_view(*suggested_version),
            crate::state::opt_loader_view(*suggested_loader),
            crate::state::opt_version_view(*default_version),
            crate::state::opt_loader_view(*default_loader),
        ));
    }

    /// Gives the candidates of the folder import the search results that came for them.
    fn on_candidates_found(&mut self, results: &Vec<(String, Vec<(ProjectLnk, String)>)>)
        requires
            old(self).wf(),
        ensures
            final(self).wf(),
            final(self)@ == (match old(self)@.session {
                Some(ss) => StateModel {
                    session: Some(
                        crate::state::SessionModel {
                            candidates: with_results(ss.candidates, results_table_view(results@)),
                            ..ss
                        },
                    ),
                    ..old(self)@
                },
                None => old(self)@,
            }),
    {
        let ghost s0 = self@;
        let ghost rt = results_table_view(results@);
        match self.folder_import_session.take() {
            Some(mut ss) => {
                let ghost c0 = crate::state::candidates_view(ss.candidates@);
                let ghost ss0 = ss@;
                let mut i: usize = 0;
                while i < ss.candidates.len()
                    invariant
                        i <= ss.candidates.len(),
                        ss.candidates@.len() == c0.len(),
                        rt == results_table_view(results@),
                        ss@ == (crate::state::SessionModel { candidates: crate::state::candidates_view(ss.candidates@), ..ss0 }),
                        forall|j: int| 0 <= j < i ==> #[trigger] crate::state::candidates_view(ss.candidates@)[j] == with_results(c0, rt)[j],
                        forall|j: int| i <= j < c0.len() ==> #[trigger] crate::state::candidates_view(ss.candidates@)[j] == c0[j],
                    decreases ss.candidates.len() - i,
                {
                    let ghost before = ss.candidates@;
                    assert(crate::state::candidates_view(before)[i as int] == c0[i as int]);
                    match find_results(results, &ss.candidates[i].cleaned_name) {
                        Some(k) => {
                            let res = crate::state::clone_results(&results[k].1);
                            ss.candidates[i].search_results = Some(res);
                        },
                        None => {},
                    }
                    assert forall|j: int| 0 <= j < c0.len() && j != i implies #[trigger] crate::state::candidates_view(ss.candidates@)[j]
                        == crate::state::candidates_view(before)[j] by {
                        assert(ss.candidates@[j] == before[j]);
                    }
                    assert(crate::state::candidates_view(ss.candidates@)[i as int] == with_results(c0, rt)[i as int]);
                    i = i + 1;
                }
                assert(crate::state::candidates_view(ss.candidates@) =~= with_results(c0, rt));
                self.folder_import_session = Some(ss);
            },
            None => {},
        }
        assert(self@ =~= (match s0.session {
            Some(ss) => StateModel {
                session: Some(crate::state::SessionModel { candidates: with_results(ss.candidates, rt), ..ss }),
                ..s0
            },
            None => s0,
        }));
    }
}

/// What an event asks of the state before it is taken in: lists and settings that come in
/// are well formed; the projects a selected version depends on are available; a folder
/// import that gets its files has a version and a loader to search with.
pub open spec fn event_ok(s: StateModel, e: InternalEvent) -> bool {
    match e {
        InternalEvent::Initialized { config, lists, .. } => config.wf() && put_all_wf(lists@),
        InternalEvent::ListCreated { list, .. } => list.wf(),
        InternalEvent::ListDuplicated { dup_list, .. } => dup_list.wf(),
        InternalEvent::ListImported { list, .. } => list.wf(),
        InternalEvent::LegacyListImported { list_data, .. } => list_data.wf(),
        InternalEvent::ProjectVersionSelected { list_lnk, project, version, dependency_data } => forall|j: int|
            0 <= j < s.lists.len() && (#[trigger] s.lists[j]).id == list_lnk@ ==> deps_available(
                s.lists[j].projects,
                dependency_data@,
                project@,
                version@,
            ),
        InternalEvent::FolderImportScanned {
            path,
            suggested_version,
            suggested_loader,
            default_version,
            default_loader,
            ..
        } => s.session matches Some(ss) && ss.path == path@ ==> (suggested_version.is_some()
            || default_version.is_some()) && (suggested_loader.is_some() || default_loader.is_some()),
        _ => true,
    }
}

/// Whether a project id is among those that came with a selection.
fn data_has(d: &Vec<(ProjectLnk, ResourceType, RTProjectData)>, x: &ProjectLnk) -> (r: bool)
    ensures
        r == data_ids(d@).contains(x@),
{
    let ghost ids = data_ids(d@);
    let mut i: usize = 0;
    while i < d.len()
        invariant
            i <= d.len(),
            ids == data_ids(d@),
            forall|j: int| 0 <= j < i ==> ids[j] != x@,
        decreases d.len() - i,
    {
        if d[i].0 == *x {
            assert(ids[i as int] == x@);
            return true;
        }
        i = i + 1;
    }
    assert(!ids.contains(x@));
    false
}

/// Whether the projects a version depends on are at hand (see `deps_available`).
fn deps_at_hand(
    projects: &Vec<Project>,
    d: &Vec<(ProjectLnk, ResourceType, RTProjectData)>,
    x: &ProjectLnk,
    v: &ProjectVersion,
) -> (r: bool)
    ensures
        r == deps_available(project_models(projects@), d@, x@, v@),
{
    let ghost ps = project_models(projects@);
    let ghost ds = v@.deps;
    let held = find_project(projects, x).is_some() || data_has(d, x);
    if !held {
        return true;
    }
    let mut k: usize = 0;
    while k < v.depended_on.len()
        invariant
            k <= v.depended_on.len(),
            ps == project_models(projects@),
            ds == v@.deps,
            ds.len() == v.depended_on@.len(),
            has_id(ps, x@) || data_ids(d@).contains(x@),
            forall|j: int| 0 <= j < k ==> has_id(ps, #[trigger] ds[j].project) || data_ids(d@).contains(ds[j].project),
        decreases v.depended_on.len() - k,
    {
        let dep = &v.depended_on[k].project;
        assert(ds[k as int].project == dep@);
        if find_project(projects, dep).is_none() && !data_has(d, dep) {
            assert(!has_id(ps, ds[k as int].project));
            return false;
        }
        k = k + 1;
    }
    true
}

impl RDState {
    /// Whether the state can take in an event (see `event_ok`): what comes in is well
    /// formed, a version selection brings the projects it depends on, and a folder scan
    /// for the open import brings a version and a loader to suggest.
    pub fn accepts_event(&self, e: &InternalEvent) -> (r: bool)
        ensures
            r == event_ok(self@, *e),
    {
        match e {
            InternalEvent::Initialized { config, lists, .. } => {
                if !config.is_well_formed() {
                    return false;
                }
                let mut j: usize = 0;
                while j < lists.len()
                    invariant
                        j <= lists.len(),
                        event_ok(self@, *e) == (config.wf() && put_all_wf(lists@)),
                        config.wf(),
                        forall|i: int| 0 <= i < j ==> (#[trigger] lists@[i]).wf(),
                    decreases lists.len() - j,
                {
                    if !lists[j].is_well_formed() {
                        assert(!put_all_wf(lists@)) by {
                            assert(!lists@[j as int].wf());
                        }
                        return false;
                    }
                    j = j + 1;
                }
                true
            },
            InternalEvent::ListCreated { list, .. } => list.is_well_formed(),
            InternalEvent::ListDuplicated { dup_list, .. } => dup_list.is_well_formed(),
            InternalEvent::ListImported { list, .. } => list.is_well_formed(),
            InternalEvent::LegacyListImported { list_data, .. } => list_data.is_well_formed(),
            InternalEvent::ProjectVersionSelected { list_lnk, project, version, dependency_data } => {
                let ghost ls = self@.lists;
                let mut j: usize = 0;
                while j < self.lists.len()
                    invariant
                        j <= self.lists.len(),
                        ls == self@.lists,
                        ls.len() == self.lists@.len(),
                        event_ok(self@, *e) == forall|i: int|
                            0 <= i < ls.len() && (#[trigger] ls[i]).id == list_lnk@ ==> deps_available(
                                ls[i].projects,
                                dependency_data@,
                                project@,
                                version@,
                            ),
                        forall|i: int|
                            0 <= i < j && (#[trigger] ls[i]).id == list_lnk@ ==> deps_available(
                                ls[i].projects,
                                dependency_data@,
                                project@,
                                version@,
                            ),
                    decreases self.lists.len() - j,
                {
                    assert(ls[j as int] == self.lists@[j as int]@);
                    if self.lists[j].is_lnk(list_lnk) {
                        if !deps_at_hand(&self.lists[j].projects, dependency_data, project, version) {
                            assert(ls[j as int].id == list_lnk@);
                            assert(!deps_available(ls[j as int].projects, dependency_data@, project@, version@));
                            return false;
                        }
                    }
                    j = j + 1;
                }
                true
            },
            InternalEvent::FolderImportScanned {
                path,
                suggested_version,
                suggested_loader,
                default_version,
                default_loader,
                ..
            } => match &self.folder_import_session {
                Some(ss) => {
                    if crate::text::str_eq(ss.path.as_str(), path.as_str()) {
                        (suggested_version.is_some() || default_version.is_some()) && (suggested_loader.is_some()
                            || default_loader.is_some())
                    } else {
                        true
                    }
                },
                None => true,
            },
            _ => true,
        }
    }
}

impl RDState {
    /// Takes in an event from the work done outside and reports what happened: events
    /// that make the files found out of date refresh everything; loading, new, copied,
    /// deleted and imported lists, files found, version selections and the steps of a
    /// folder import update the state as their functions above say.
    pub fn next_event(&mut self, internal: InternalEvent) -> (r: Option<Event>)
        requires
            old(self).wf(),
            event_ok(old(self)@, internal),
        ensures
            final(self).wf(),
            match internal {
                InternalEvent::Standard(k) => r matches Some(Event::Forwarded) && final(self)@ == (if refreshes(k) {
                    refreshed(old(self)@)
                } else {
                    old(self)@
                }),
                InternalEvent::ConnectivityChanged { offline } => r is None && final(self)@ == (StateModel {
                    offline_mode: offline,
                    ..old(self)@
                }),
                InternalEvent::Reinitialize => r is None && final(self)@ == old(self)@,
                InternalEvent::Initialized { config, lists, default_download_dir_by_type, offline_mode } => {
                    &&& final(self)@ == initialized(
                        old(self)@,
                        config@,
                        lists_view(lists@),
                        dirs_view(default_download_dir_by_type@),
                        offline_mode,
                    )
                    &&& r matches Some(Event::Initialized { config: c, lists: ls, default_download_dir_by_type: d })
                        && c@ == config@ && list_lnk_ids(ls@) == list_ids(lists_view(lists@)) && dirs_view(d@) == dirs_view(
                        default_download_dir_by_type@,
                    )
                },
                InternalEvent::ListCreated { list_lnk, list, .. } => final(self)@ == list_added(
                    old(self)@,
                    list@,
                    list_lnk@,
                ) && (r matches Some(Event::ListCreated { list: l, .. }) && l@ == list_lnk@),
                InternalEvent::ListDuplicated { list_lnk, dup_lnk, dup_list, target_parent } => final(self)@
                    == duplicated(old(self)@, list_lnk@, dup_lnk@, dup_list@, opt_group_view(target_parent))
                    && (r matches Some(Event::ListDuplicated { list: a, dup_list: b }) && a@ == list_lnk@ && b@ == dup_lnk@),
                InternalEvent::ListDeleted { list } => final(self)@ == (StateModel {
                    lists: drop_list(old(self)@.lists, list@),
                    ..old(self)@
                }) && (r matches Some(Event::ListDeleted { list: l }) && l@ == list@),
                InternalEvent::ListImported { list_lnk, list, path } => final(self)@ == list_added(
                    old(self)@,
                    list@,
                    list_lnk@,
                ) && (r matches Some(Event::ListImported { list: l, path: p }) && l@ == list_lnk@ && p@ == path@),
                InternalEvent::LegacyListImported { list_lnk, list_data, .. } => final(self)@ == list_added(
                    old(self)@,
                    list_data@,
                    list_lnk@,
                ) && (r matches Some(Event::LegacyListImported { list: l, .. }) && l@ == list_lnk@),
                InternalEvent::FilesFound { directory, file_extension, files } => final(self)@ == (StateModel {
                    active_scans: scan_remove(old(self)@.active_scans, normalized(directory@)),
                    found_files: put_found(old(self)@.found_files, normalized(directory@), files_view(files@)),
                    ..old(self)@
                }) && (r matches Some(Event::FilesFound { directory: d, .. }) && d@ == normalized(directory@)),
                InternalEvent::ProjectVersionSelected { list_lnk, project, version, dependency_data } => {
                    &&& match crate::state::list_of(old(self)@.lists, list_lnk@) {
                        Some(l) => {
                            let i = list_pos(old(self)@.lists, list_lnk@);
                            &&& final(self)@ == (StateModel {
                                lists: final(self)@.lists,
                                effects: final(self)@.effects,
                                ..old(self)@
                            })
                            &&& final(self)@.lists.len() == old(self)@.lists.len()
                            &&& forall|j: int|
                                0 <= j < old(self)@.lists.len() && j != i ==> final(self)@.lists[j] == old(self)@.lists[j]
                            &&& version_selected(l, final(self)@.lists[i], dependency_data@, project@, version@)
                            &&& final(self)@.effects.take(old(self)@.effects.len() as int) == old(self)@.effects
                        },
                        None => final(self)@ == old(self)@,
                    }
                    &&& r matches Some(Event::ProjectVersionSelected { list: l, project: p, version_id: v })
                        && l@ == list_lnk@ && p@ == project@ && v@ == version@.version_id
                },
                InternalEvent::FolderImportScanned {
                    path,
                    resource_type,
                    candidates,
                    suggested_version,
                    suggested_loader,
                    default_version,
                    default_loader,
                } => final(self)@ == folder_scanned(
                    old(self)@,
                    path@,
                    resource_type,
                    crate::state::candidates_view(candidates@),
                    crate::state::opt_version_view(suggested_version),
                    crate::state::opt_loader_view(suggested_loader),
                    crate::state::opt_version_view(default_version),
                    crate::state::opt_loader_view(default_loader),
                ) && (r matches Some(Event::FolderImportScanned { path: p, .. }) && p@ == path@),
                InternalEvent::FailedFolderScan { path, resource_type, error } => final(self)@ == (match old(self)@.session {
                    Some(ss) => StateModel {
                        session: Some(
                            crate::state::SessionModel { is_scanning: false, scan_error: Some(error@), scan_progress: None, ..ss },
                        ),
                        ..old(self)@
                    },
                    None => old(self)@,
                }) && (r matches Some(Event::FailedFolderScan { path: p, error: e, .. }) && p@ == path@ && e@ == error@),
                InternalEvent::FolderImportProgress { total, current, message } => final(self)@ == (match old(self)@.session {
                    Some(ss) => StateModel {
                        session: Some(crate::state::SessionModel { scan_progress: Some((current, total, message@)), ..ss }),
                        ..old(self)@
                    },
                    None => old(self)@,
                }) && (r matches Some(Event::FolderImportProgress { total: t, current: c, message: m }) && t == total && c
                    == current && m@ == message@),
                InternalEvent::FolderImportCandidatesFound { results } => final(self)@ == (match old(self)@.session {
                    Some(ss) => StateModel {
                        session: Some(
                            crate::state::SessionModel {
                                candidates: with_results(ss.candidates, results_table_view(results@)),
                                ..ss
                            },
                        ),
                        ..old(self)@
                    },
                    None => old(self)@,
                }) && (r matches Some(Event::FolderImportCandidatesFound { .. })),
            },
    {
        match internal {
            InternalEvent::Standard(k) => {
                match k {
                    EventKind::Other => {},
                    _ => self.request_full_refresh(),
                }
                Some(Event::Forwarded)
            },
            InternalEvent::ConnectivityChanged { offline } => {
                self.offline_mode = offline;
                None
            },
            InternalEvent::Reinitialize => None,
            InternalEvent::Initialized { config, lists, default_download_dir_by_type, offline_mode } => {
                let c2 = config.clone();
                let d2 = crate::state::clone_dirs(&default_download_dir_by_type);
                let lnks = self.on_initialized(config, lists, default_download_dir_by_type, offline_mode);
                Some(Event::Initialized { config: c2, lists: lnks, default_download_dir_by_type: d2 })
            },
            InternalEvent::ListCreated {
                name,
                resource_type,
                version,
                loader,
                download_dir,
                projects,
                list_lnk,
                list,
            } => {
                self.on_list_added(&list_lnk, list);
                Some(
                    Event::ListCreated { name, resource_type, version, loader, download_dir, projects, list: list_lnk },
                )
            },
            InternalEvent::ListDuplicated { list_lnk, dup_lnk, dup_list, target_parent } => {
                self.on_list_duplicated(&list_lnk, &dup_lnk, dup_list, target_parent);
                Some(Event::ListDuplicated { list: list_lnk, dup_list: dup_lnk })
            },
            InternalEvent::ListDeleted { list } => {
                self.remove_list(&list);
                Some(Event::ListDeleted { list })
            },
            InternalEvent::ListImported { list_lnk, list, path } => {
                self.on_list_added(&list_lnk, list);
                Some(Event::ListImported { list: list_lnk, path })
            },
            InternalEvent::LegacyListImported { path, list_lnk, list_data, version, loader, download_dir, unresolved } => {
                self.on_list_added(&list_lnk, list_data);
                Some(Event::LegacyListImported { path, version, loader, download_dir, list: list_lnk, unresolved })
            },
            InternalEvent::FilesFound { directory, file_extension, files } => {
                let norm_dir = normalize_path(directory.as_str());
                let files2 = crate::config::clone_pairs(&files);
                self.record_found_files(&norm_dir, files);
                Some(Event::FilesFound { directory: norm_dir, file_extension, files: files2 })
            },
            InternalEvent::ProjectVersionSelected { list_lnk, project, version, dependency_data } => {
                let version_id = version.version_id.clone();
                self.on_version_selected(&list_lnk, &project, version, dependency_data);
                Some(Event::ProjectVersionSelected { list: list_lnk, project, version_id })
            },
            InternalEvent::FolderImportScanned {
                path,
                resource_type,
                candidates,
                suggested_version,
                suggested_loader,
                default_version,
                default_loader,
            } => {
                self.on_folder_scanned(
                    &path,
                    resource_type,
                    &candidates,
                    &suggested_version,
                    &suggested_loader,
                    &default_version,
                    &default_loader,
                );
                Some(
                    Event::FolderImportScanned { path, resource_type, candidates, suggested_version, suggested_loader },
                )
            },
            InternalEvent::FailedFolderScan { path, resource_type, error } => {
                let ghost s0 = self@;
                match &mut self.folder_import_session {
                    Some(ss) => {
                        ss.is_scanning = false;
                        ss.scan_error = Some(error.clone());
                        ss.scan_progress = None;
                    },
                    None => {},
                }
                Some(Event::FailedFolderScan { path, resource_type, error })
            },
            InternalEvent::FolderImportProgress { total, current, message } => {
                match &mut self.folder_import_session {
                    Some(ss) => {
                        ss.scan_progress = Some((current, total, message.clone()));
                    },
                    None => {},
                }
                Some(Event::FolderImportProgress { total, current, message })
            },
            InternalEvent::FolderImportCandidatesFound { results } => {
                self.on_candidates_found(&results);
                Some(Event::FolderImportCandidatesFound { results })
            },
        }
    }
}
} // verus!
