use vstd::prelude::*;
use crate::config::{
    AppConfig, ConfigModel, Folder, FolderModel, assign, folders_view, key_is, not_assigned_to, pairs_view,
    strings_view, unassign, unique_keys,
};
use crate::list_group_actions::config_saved;
use crate::lnk::FolderLnk;
use crate::seqs::{first_idx, is_first, keep, lemma_first_idx, lemma_is_first_unique, lemma_keep_step, lemma_none_first};
use crate::state::RDState;
use crate::text::decimal;

verus! {

/// The id of a folder made at a time: "folder_" and a number of nanoseconds.
pub open spec fn folder_id(n: nat) -> Seq<char> {
    "folder_"@ + decimal(n)
}

/// Selects the folder with the given id.
pub open spec fn folder_is(id: Seq<char>) -> spec_fn(FolderModel) -> bool {
    |f: FolderModel| f.id == id
}

/// Selects the folders with another id.
pub open spec fn not_folder(id: Seq<char>) -> spec_fn(FolderModel) -> bool {
    |f: FolderModel| f.id != id
}

/// Selects the strings other than `s`.
pub open spec fn not_string(s: Seq<char>) -> spec_fn(Seq<char>) -> bool {
    |x: Seq<char>| x != s
}

/// Selects the string `s`.
pub open spec fn string_is(s: Seq<char>) -> spec_fn(Seq<char>) -> bool {
    |x: Seq<char>| x == s
}

/// The position of the first folder with the given id (-1 when absent).
pub open spec fn folder_pos(fs: Seq<FolderModel>, id: Seq<char>) -> int {
    first_idx(fs, folder_is(id))
}

/// The folders with the first folder of the given id replaced by `x` (unchanged when absent).
pub open spec fn with_folder_set(fs: Seq<FolderModel>, id: Seq<char>, x: FolderModel) -> Seq<FolderModel> {
    let i = folder_pos(fs, id);
    if i >= 0 {
        fs.update(i, x)
    } else {
        fs
    }
}

/// The first folder with the given id (meaningful when there is one).
pub open spec fn folder_of(fs: Seq<FolderModel>, id: Seq<char>) -> FolderModel {
    fs[folder_pos(fs, id)]
}

/// The settings without a folder: it leaves the folders and the order, and no list is in
/// it any more.
pub open spec fn without_folder(c: ConfigModel, id: Seq<char>) -> ConfigModel {
    ConfigModel {
        folders: keep(c.folders, not_folder(id)),
        folder_order: keep(c.folder_order, not_string(id)),
        folder_assignments: keep(c.folder_assignments, not_assigned_to(id)),
        ..c
    }
}

/// The settings with a copy (of id `new_id`) of the folder `id` added after it: the copy
/// goes right after the folder in the order, or at the end when the folder is not in it.
pub open spec fn with_folder_copy(c: ConfigModel, id: Seq<char>, new_id: Seq<char>) -> ConfigModel {
    if folder_pos(c.folders, id) >= 0 {
        let x = folder_of(c.folders, id);
        let p = first_idx(c.folder_order, string_is(id));
        ConfigModel {
            folders: c.folders.push(FolderModel { id: new_id, name: x.name + " (Copy)"@, collapsed: x.collapsed }),
            folder_order: if p >= 0 {
                c.folder_order.insert(p + 1, new_id)
            } else {
                c.folder_order.push(new_id)
            },
            ..c
        }
    } else {
        c
    }
}

/// The folders with the first folder of the given id collapsed when it was expanded and
/// expanded when it was collapsed.
pub open spec fn folder_collapse_toggled(fs: Seq<FolderModel>, id: Seq<char>) -> Seq<FolderModel> {
    with_folder_set(fs, id, FolderModel { collapsed: !folder_of(fs, id).collapsed, ..folder_of(fs, id) })
}

/// Collapsing or expanding a folder twice gives back the folders as they were.
pub proof fn law_folder_collapse_twice_restores(fs: Seq<FolderModel>, id: Seq<char>)
    ensures
        folder_collapse_toggled(folder_collapse_toggled(fs, id), id) == fs,
{
    let f = folder_is(id);
    lemma_first_idx(fs, f);
    let i = folder_pos(fs, id);
    if i >= 0 {
        let x = folder_of(fs, id);
        let b = fs.update(i, FolderModel { collapsed: !x.collapsed, ..x });
        assert forall|j: int| 0 <= j < i implies !f(b[j]) by {
            assert(b[j] == fs[j]);
        }
        assert(is_first(b, f, i));
        lemma_is_first_unique(b, f, i);
        assert(folder_collapse_toggled(b, id) =~= fs);
    }
}

/// A deleted folder is no longer among the folders nor in their order, and no list is
/// left in it.
pub proof fn law_deleted_folder_is_gone(c: ConfigModel, id: Seq<char>)
    ensures
        forall|i: int| 0 <= i < without_folder(c, id).folders.len() ==> (#[trigger] without_folder(c, id).folders[i]).id != id,
        !without_folder(c, id).folder_order.contains(id),
        forall|i: int|
            0 <= i < without_folder(c, id).folder_assignments.len() ==> (
            #[trigger] without_folder(c, id).folder_assignments[i]).1 != id,
{
    let d = without_folder(c, id);
    crate::seqs::lemma_keep_contains(c.folder_order, not_string(id), id);
    assert forall|i: int| 0 <= i < d.folders.len() implies (#[trigger] d.folders[i]).id != id by {
        assert(d.folders.contains(d.folders[i]));
        crate::seqs::lemma_keep_contains(c.folders, not_folder(id), d.folders[i]);
    }
    assert forall|i: int| 0 <= i < d.folder_assignments.len() implies (#[trigger] d.folder_assignments[i]).1 != id by {
        assert(d.folder_assignments.contains(d.folder_assignments[i]));
        crate::seqs::lemma_keep_contains(c.folder_assignments, not_assigned_to(id), d.folder_assignments[i]);
    }
}

/// Finds the first folder with the given id.
pub fn find_folder(fs: &Vec<Folder>, id: &String) -> (r: Option<usize>)
    ensures
        match r {
            Some(i) => folder_pos(folders_view(fs@), id@) == i as int && i < fs@.len(),
            None => folder_pos(folders_view(fs@), id@) == -1,
        },
{
    let ghost v = folders_view(fs@);
    let mut i: usize = 0;
    while i < fs.len()
        invariant
            v == folders_view(fs@),
            i <= fs.len(),
            forall|j: int| 0 <= j < i ==> !folder_is(id@)(v[j]),
        decreases fs.len() - i,
    {
        if fs[i].id == *id {
            assert(is_first(v, folder_is(id@), i as int));
            proof {
                lemma_is_first_unique(v, folder_is(id@), i as int);
            }
            return Some(i);
        }
        i = i + 1;
    }
    proof {
        lemma_none_first(v, folder_is(id@));
    }
    None
}

/// Finds the first occurrence of a string.
pub fn find_string(v: &Vec<String>, s: &String) -> (r: Option<usize>)
    ensures
        match r {
            Some(i) => first_idx(strings_view(v@), string_is(s@)) == i as int && i < v@.len(),
            None => first_idx(strings_view(v@), string_is(s@)) == -1,
        },
{
    let ghost w = strings_view(v@);
    let mut i: usize = 0;
    while i < v.len()
        invariant
            w == strings_view(v@),
            i <= v.len(),
            forall|j: int| 0 <= j < i ==> !string_is(s@)(w[j]),
        decreases v.len() - i,
    {
        if v[i] == *s {
            assert(is_first(w, string_is(s@), i as int));
            proof {
                lemma_is_first_unique(w, string_is(s@), i as int);
            }
            return Some(i);
        }
        i = i + 1;
    }
    proof {
        lemma_none_first(w, string_is(s@));
    }
    None
}

/// Finds the entry of a key in a table of string pairs.
pub fn find_pair(a: &Vec<(String, String)>, k: &String) -> (r: Option<usize>)
    ensures
        match r {
            Some(i) => first_idx(pairs_view(a@), key_is(k@)) == i as int && i < a@.len(),
            None => first_idx(pairs_view(a@), key_is(k@)) == -1,
        },
{
    let ghost w = pairs_view(a@);
    let mut i: usize = 0;
    while i < a.len()
        invariant
            w == pairs_view(a@),
            i <= a.len(),
            forall|j: int| 0 <= j < i ==> !key_is(k@)(w[j]),
        decreases a.len() - i,
    {
        if a[i].0 == *k {
            assert(is_first(w, key_is(k@), i as int));
            proof {
                lemma_is_first_unique(w, key_is(k@), i as int);
            }
            return Some(i);
        }
        i = i + 1;
    }
    proof {
        lemma_none_first(w, key_is(k@));
    }
    None
}

impl AppConfig {
    /// Puts a list into a folder (replacing its earlier folder).
    pub fn assign_folder(&mut self, list_id: String, folder: String)
        requires
            old(self).wf(),
        ensures
            final(self).wf(),
            final(self)@ == (ConfigModel {
                folder_assignments: assign(old(self)@.folder_assignments, list_id@, folder@),
                ..old(self)@
            }),
    {
        let ghost a0 = self@.folder_assignments;
        let ghost lv = list_id@;
        let ghost fv = folder@;
        match find_pair(&self.folder_assignments, &list_id) {
            Some(i) => {
                proof {
                    lemma_first_idx(a0, key_is(lv));
                }
                self.folder_assignments.set(i, (list_id, folder));
                assert(self@.folder_assignments =~= a0.update(i as int, (lv, fv)));
                assert(unique_keys(self@.folder_assignments)) by {
                    let a = self@.folder_assignments;
                    assert forall|x: int, y: int| 0 <= x < a.len() && 0 <= y < a.len() && x != y implies a[x].0
                        != a[y].0 by {
                        if x != i && y != i {
                            assert(a[x] == a0[x]);
                            assert(a[y] == a0[y]);
                        } else if x == i {
                            assert(a[y] == a0[y]);
                        } else {
                            assert(a[x] == a0[x]);
                        }
                    }
                }
            },
            None => {
                proof {
                    lemma_first_idx(a0, key_is(lv));
                }
                self.folder_assignments.push((list_id, folder));
                assert(self@.folder_assignments =~= a0.push((lv, fv)));
                assert(unique_keys(self@.folder_assignments)) by {
                    let a = self@.folder_assignments;
                    assert forall|x: int, y: int| 0 <= x < a.len() && 0 <= y < a.len() && x != y implies a[x].0
                        != a[y].0 by {
                        if x == a0.len() {
                            assert(!key_is(lv)(a0[y]));
                        } else if y == a0.len() {
                            assert(!key_is(lv)(a0[x]));
                        } else {
                            assert(a[x] == a0[x]);
                            assert(a[y] == a0[y]);
                        }
                    }
                }
            },
        }
    }

    /// Takes a list out of its folder.
    pub fn unassign_folder(&mut self, list_id: &String)
        requires
            old(self).wf(),
        ensures
            final(self).wf(),
            final(self)@ == (ConfigModel {
                folder_assignments: unassign(old(self)@.folder_assignments, list_id@),
                ..old(self)@
            }),
    {
        let ghost a0 = self@.folder_assignments;
        match find_pair(&self.folder_assignments, list_id) {
            Some(i) => {
                self.folder_assignments.remove(i);
                assert(self@.folder_assignments =~= a0.remove(i as int));
                assert(unique_keys(self@.folder_assignments)) by {
                    let a = self@.folder_assignments;
                    assert forall|x: int, y: int| 0 <= x < a.len() && 0 <= y < a.len() && x != y implies a[x].0
                        != a[y].0 by {
                        let x2 = if x < i { x } else { x + 1 };
                        let y2 = if y < i { y } else { y + 1 };
                        assert(a[x] == a0[x2]);
                        assert(a[y] == a0[y2]);
                    }
                }
            },
            None => {},
        }
    }

    /// Takes a folder out of the settings (see `without_folder`).
    pub fn remove_folder(&mut self, id: &String)
        requires
            old(self).wf(),
        ensures
            final(self).wf(),
            final(self)@ == without_folder(old(self)@, id@),
    {
        let ghost c0 = self@;
        let ghost fs = c0.folders;
        let mut folders: Vec<Folder> = Vec::new();
        let mut i: usize = 0;
        while i < self.folders.len()
            invariant
                i <= self.folders.len(),
                fs == folders_view(self.folders@),
                folders_view(folders@) == keep(fs.take(i as int), not_folder(id@)),
            decreases self.folders.len() - i,
        {
            proof {
                lemma_keep_step(fs, not_folder(id@), i as int);
            }
            assert(fs[i as int] == self.folders@[i as int]@);
            if !(self.folders[i].id == *id) {
                let f = self.folders[i].clone();
                folders.push(f);
                assert(folders_view(folders@) =~= keep(fs.take(i as int), not_folder(id@)).push(fs[i as int]));
            }
            i = i + 1;
        }
        assert(fs.take(fs.len() as int) =~= fs);
        self.folders = folders;
        let ghost os = c0.folder_order;
        let mut order: Vec<String> = Vec::new();
        let mut j: usize = 0;
        while j < self.folder_order.len()
            invariant
                j <= self.folder_order.len(),
                os == strings_view(self.folder_order@),
                strings_view(order@) == keep(os.take(j as int), not_string(id@)),
            decreases self.folder_order.len() - j,
        {
            proof {
                lemma_keep_step(os, not_string(id@), j as int);
            }
            if !(self.folder_order[j] == *id) {
                let s = self.folder_order[j].clone();
                order.push(s);
                assert(strings_view(order@) =~= keep(os.take(j as int), not_string(id@)).push(os[j as int]));
            }
            j = j + 1;
        }
        assert(os.take(os.len() as int) =~= os);
        self.folder_order = order;
        let ghost a = c0.folder_assignments;
        let mut out: Vec<(String, String)> = Vec::new();
        let mut k: usize = 0;
        while k < self.folder_assignments.len()
            invariant
                k <= self.folder_assignments.len(),
                a == pairs_view(self.folder_assignments@),
                unique_keys(a),
                pairs_view(out@) == keep(a.take(k as int), not_assigned_to(id@)),
                forall|j: int| 0 <= j < out@.len() ==> exists|m: int| 0 <= m < k && #[trigger] pairs_view(out@)[j] == a[m],
                unique_keys(pairs_view(out@)),
            decreases self.folder_assignments.len() - k,
        {
            proof {
                lemma_keep_step(a, not_assigned_to(id@), k as int);
            }
            assert(a[k as int] == (self.folder_assignments@[k as int].0@, self.folder_assignments@[k as int].1@));
            if !(self.folder_assignments[k].1 == *id) {
                let e = (self.folder_assignments[k].0.clone(), self.folder_assignments[k].1.clone());
                let ghost before = pairs_view(out@);
                out.push(e);
                assert(pairs_view(out@) =~= before.push(a[k as int]));
                assert forall|j: int| 0 <= j < out@.len() implies exists|m: int| 0 <= m < k + 1 && #[trigger] pairs_view(out@)[j] == a[m] by {
                    if j < before.len() {
                        assert(pairs_view(out@)[j] == before[j]);
                        let m = choose|m: int| 0 <= m < k && before[j] == a[m];
                        assert(pairs_view(out@)[j] == a[m]);
                    } else {
                        assert(pairs_view(out@)[j] == a[k as int]);
                    }
                }
                assert(unique_keys(pairs_view(out@))) by {
                    let b = pairs_view(out@);
                    assert forall|x: int, y: int| 0 <= x < b.len() && 0 <= y < b.len() && x != y implies b[x].0 != b[y].0 by {
                        if x < before.len() && y < before.len() {
                            assert(b[x] == before[x]);
                            assert(b[y] == before[y]);
                        } else if x < before.len() {
                            assert(b[x] == before[x]);
                            let m = choose|m: int| 0 <= m < k && before[x] == a[m];
                            assert(a[m].0 != a[k as int].0);
                        } else {
                            assert(b[y] == before[y]);
                            let m = choose|m: int| 0 <= m < k && before[y] == a[m];
                            assert(a[m].0 != a[k as int].0);
                        }
                    }
                }
            }
            k = k + 1;
        }
        assert(a.take(a.len() as int) =~= a);
        self.folder_assignments = out;
        assert(self@ =~= without_folder(c0, id@));
    }
}

/// What the user can do to folders.
pub struct FolderActions;

impl FolderActions {
    /// An id for a new folder, made from the current time.
    pub fn generate_folder_id() -> (r: String)
        ensures
            exists|n: nat| r@ == folder_id(n),
    {
        let n = crate::clock::now_nanos();
        let id = crate::text::with_number("folder_", n);
        assert(id@ == folder_id(n as nat));
        id
    }

    /// Makes a new expanded folder, last in the order, and saves the settings.
    pub fn create_folder(state: &mut RDState, name: String) -> (r: FolderLnk)
        requires
            old(state).wf(),
        ensures
            final(state).wf(),
            exists|n: nat| r@ == folder_id(n),
            final(state)@ == config_saved(
                old(state)@,
                ConfigModel {
                    folders: old(state)@.config.folders.push(FolderModel { id: r@, name: name@, collapsed: false }),
                    folder_order: old(state)@.config.folder_order.push(r@),
                    ..old(state)@.config
                },
            ),
    {
        let folder_id = Self::generate_folder_id();
        let ghost c0 = state@.config;
        let ghost fm = FolderModel { id: folder_id@, name: name@, collapsed: false };
        state.config.folders.push(Folder { id: folder_id.clone(), name, collapsed: false });
        state.config.folder_order.push(folder_id.clone());
        assert(state@.config =~= ConfigModel {
            folders: c0.folders.push(fm),
            folder_order: c0.folder_order.push(folder_id@),
            ..c0
        });
        state.save_config();
        FolderLnk::new(folder_id)
    }

    /// Renames the first folder with the given id and saves the settings.
    pub fn rename_folder(state: &mut RDState, folder_lnk: FolderLnk, new_name: String)
        requires
            old(state).wf(),
        ensures
            final(state).wf(),
            final(state)@ == config_saved(
                old(state)@,
                ConfigModel {
                    folders: with_folder_set(
                        old(state)@.config.folders,
                        folder_lnk@,
                        FolderModel { name: new_name@, ..folder_of(old(state)@.config.folders, folder_lnk@) },
                    ),
                    ..old(state)@.config
                },
            ),
    {
        let ghost c0 = state@.config;
        match find_folder(&state.config.folders, folder_lnk.id()) {
            Some(i) => {
                state.config.folders[i].name = new_name;
            },
            None => {},
        }
        assert(state@.config.folders =~= with_folder_set(
            c0.folders,
            folder_lnk@,
            FolderModel { name: new_name@, ..folder_of(c0.folders, folder_lnk@) },
        ));
        state.save_config();
    }

    /// Deletes a folder (see `without_folder`) and saves the settings.
    pub fn delete_folder(state: &mut RDState, folder_lnk: FolderLnk)
        requires
            old(state).wf(),
        ensures
            final(state).wf(),
            final(state)@ == config_saved(old(state)@, without_folder(old(state)@.config, folder_lnk@)),
    {
        state.config.remove_folder(folder_lnk.id());
        state.save_config();
    }

    /// Copies a folder (see `with_folder_copy`) and saves the settings.
    pub fn duplicate_folder(state: &mut RDState, folder_lnk: FolderLnk)
        requires
            old(state).wf(),
        ensures
            final(state).wf(),
            exists|n: nat| final(state)@ == config_saved(
                old(state)@,
                with_folder_copy(old(state)@.config, folder_lnk@, folder_id(n)),
            ),
    {
        let new_folder_id = Self::generate_folder_id();
        let ghost c0 = state@.config;
        let id = folder_lnk.id();
        match find_folder(&state.config.folders, id) {
            Some(i) => {
                let name = crate::text::concat(state.config.folders[i].name.as_str(), " (Copy)");
                let collapsed = state.config.folders[i].collapsed;
                let ghost x = folder_of(c0.folders, id@);
                state.config.folders.push(Folder { id: new_folder_id.clone(), name, collapsed });
                match find_string(&state.config.folder_order, id) {
                    Some(pos) => {
                        proof {
                            lemma_first_idx(c0.folder_order, string_is(id@));
                        }
                        let ghost o = state@.config.folder_order;
                        let n = state.config.folder_order.len();
                        assert(pos < n);
                        state.config.folder_order.insert(pos + 1, new_folder_id.clone());
                        assert(state@.config.folder_order =~= o.insert(pos + 1, new_folder_id@));
                    },
                    None => {
                        state.config.folder_order.push(new_folder_id.clone());
                    },
                }
                assert(state@.config.folders =~= c0.folders.push(
                    FolderModel { id: new_folder_id@, name: x.name + " (Copy)"@, collapsed: x.collapsed },
                ));
                assert(state@.config =~= with_folder_copy(c0, id@, new_folder_id@));
            },
            None => {},
        }
        state.save_config();
    }

    /// Expands or collapses the first folder with the given id and saves the settings.
    pub fn toggle_folder_collapsed(state: &mut RDState, folder_lnk: FolderLnk)
        requires
            old(state).wf(),
        ensures
            final(state).wf(),
            final(state)@ == config_saved(
                old(state)@,
                ConfigModel {
                    folders: folder_collapse_toggled(old(state)@.config.folders, folder_lnk@),
                    ..old(state)@.config
                },
            ),
    {
        let ghost c0 = state@.config;
        match find_folder(&state.config.folders, folder_lnk.id()) {
            Some(i) => {
                let c = state.config.folders[i].collapsed;
                state.config.folders[i].collapsed = !c;
            },
            None => {},
        }
        assert(state@.config.folders =~= with_folder_set(
            c0.folders,
            folder_lnk@,
            FolderModel { collapsed: !folder_of(c0.folders, folder_lnk@).collapsed, ..folder_of(c0.folders, folder_lnk@) },
        ));
        state.save_config();
    }

    /// Puts a list into a folder (or takes it out of any folder) and saves the settings.
    pub fn move_list_to_folder(state: &mut RDState, list_id: String, folder_lnk: Option<FolderLnk>)
        requires
            old(state).wf(),
        ensures
            final(state).wf(),
            final(state)@ == config_saved(
                old(state)@,
                ConfigModel {
                    folder_assignments: match folder_lnk {
                        Some(f) => assign(old(state)@.config.folder_assignments, list_id@, f@),
                        None => unassign(old(state)@.config.folder_assignments, list_id@),
                    },
                    ..old(state)@.config
                },
            ),
    {
        match folder_lnk {
            Some(f) => {
                let fid = f.id().clone();
                state.config.assign_folder(list_id, fid);
            },
            None => state.config.unassign_folder(&list_id),
        }
        state.save_config();
    }

    /// Replaces the order of the folders and saves the settings.
    pub fn set_folder_order(state: &mut RDState, new_order: Vec<String>)
        requires
            old(state).wf(),
        ensures
            final(state).wf(),
            final(state)@ == config_saved(
                old(state)@,
                ConfigModel { folder_order: strings_view(new_order@), ..old(state)@.config },
            ),
    {
        state.config.folder_order = new_order;
        state.save_config();
    }
}

} // verus!
