use vstd::prelude::*;
use crate::config::{
    AppConfig, ConfigModel, InstanceModel, InstanceSettings, assigned, forget_item, group_pos, without_group,
    without_list,
};
use crate::effect::{Effect, EffectModel};
use crate::game::{GameLoader, GameVersion, GameVersionModel};
use crate::lnk::{ListLnk, SidebarItem, SidebarKey};
use crate::project_list::{ListModel, ProjectList, config_for, list_types};
use crate::resource_type::{ResourceType, spec_game_folder};
use crate::state::{
    RDState, StateModel, find_list, list_of, refreshed, save_config_effect, with_list_saved,
};

verus! {

/// The type a list is about: its first type, or mods when it has none.
pub open spec fn target_type(l: ListModel) -> ResourceType {
    if list_types(l).len() > 0 {
        list_types(l)[0]
    } else {
        ResourceType::Mod
    }
}

/// The instance settings that apply to a list: those of its group, when the group is an
/// instance and has settings.
pub open spec fn instance_for(c: ConfigModel, l: Seq<char>) -> Option<InstanceModel> {
    match assigned(c.assignments, l) {
        Some(g) => {
            let i = group_pos(c.groups, g);
            if i >= 0 && c.groups[i].is_instance {
                c.groups[i].instance
            } else {
                None
            }
        },
        None => None,
    }
}

/// The types whose files go into the game directory of an instance.
pub open spec fn uses_instance_dir(t: ResourceType) -> bool {
    t == ResourceType::Mod || t == ResourceType::ResourcePack || t == ResourceType::Shader
}

/// A relative path appended to a directory, with one separator between them.
pub open spec fn path_join(base: Seq<char>, sub: Seq<char>) -> Seq<char> {
    if base.len() == 0 {
        sub
    } else if base.last() == '/' {
        base + sub
    } else {
        base + "/"@ + sub
    }
}

/// The game version a list uses: that of its instance, else its own.
pub open spec fn effective_version(c: ConfigModel, l: Seq<char>, v: GameVersionModel) -> GameVersionModel {
    match instance_for(c, l) {
        Some(i) => i.game_version,
        None => v,
    }
}

/// The directory the files of a type of a list go to: the instance's game folder for the
/// type, for the types that go there, else the list's own directory.
pub open spec fn effective_dir(c: ConfigModel, l: Seq<char>, t: ResourceType, dir: Seq<char>) -> Seq<char> {
    match instance_for(c, l) {
        Some(i) => if uses_instance_dir(t) {
            path_join(i.download_directory, spec_game_folder(t))
        } else {
            dir
        },
        None => dir,
    }
}

/// The state after one sidebar entry is deleted (the settings are saved later, once).
pub open spec fn delete_one(s: StateModel, k: SidebarKey) -> StateModel {
    let s1 = match k {
        SidebarKey::List(l) => StateModel {
            open_list: if s.open_list == Some(l) { None } else { s.open_list },
            config: without_list(s.config, l),
            effects: s.effects.push(EffectModel::DeleteList { list: l }),
            ..s
        },
        SidebarKey::ListGroup(g) => StateModel {
            open_group: if s.open_group == Some(g) { None } else { s.open_group },
            config: without_group(s.config, g),
            ..s
        },
    };
    StateModel { config: forget_item(s1.config, k), ..s1 }
}

/// The state after the entries are deleted one after the other.
pub open spec fn delete_all(s: StateModel, ks: Seq<SidebarKey>) -> StateModel
    decreases ks.len(),
{
    if ks.len() == 0 {
        s
    } else {
        delete_one(delete_all(s, ks.drop_last()), ks.last())
    }
}

/// The state after `delete_items`: the entries deleted, then, when there was any, the
/// settings saved and everything refreshed.
pub open spec fn deleted(s: StateModel, ks: Seq<SidebarKey>) -> StateModel {
    if ks.len() == 0 {
        s
    } else {
        let d = delete_all(s, ks);
        refreshed(StateModel { effects: d.effects.push(save_config_effect(d.config)), ..d })
    }
}

/// The state after list `l` is opened, or closed when it is the open one.
pub open spec fn list_toggled(s: StateModel, l: Seq<char>) -> StateModel {
    if s.open_list == Some(l) {
        crate::state::opened_list(s, None)
    } else {
        crate::state::opened_list(s, Some(l))
    }
}

/// Opening a list and then toggling it again gives back the open list, when no other
/// list was open to begin with.
pub proof fn law_open_list_toggle_twice(s: StateModel, l: Seq<char>)
    requires
        s.open_list is None || s.open_list == Some(l),
    ensures
        list_toggled(list_toggled(s, l), l).open_list == s.open_list,
{
}

/// A deleted list is closed, is no longer in the sidebar order nor in any group, and
/// its deletion is asked for (the table of groups holding one entry per list).
pub proof fn law_deleted_list_is_gone(s: StateModel, l: Seq<char>)
    requires
        crate::config::unique_keys(s.config.assignments),
    ensures
        deleted(s, seq![SidebarKey::List(l)]).open_list != Some(l),
        !deleted(s, seq![SidebarKey::List(l)]).config.order.contains(SidebarKey::List(l)),
        assigned(deleted(s, seq![SidebarKey::List(l)]).config.assignments, l) is None,
        deleted(s, seq![SidebarKey::List(l)]).effects.contains(EffectModel::DeleteList { list: l }),
{
    let k = SidebarKey::List(l);
    let ks = seq![k];
    assert(ks.drop_last() =~= Seq::<SidebarKey>::empty());
    assert(delete_all(s, ks.drop_last()) == s);
    assert(delete_all(s, ks) == delete_one(s, k));
    crate::seqs::lemma_keep_contains(s.config.order, crate::config::not_key(k), k);
    crate::config::law_unassign_then_read(s.config.assignments, l);
    let d = delete_one(s, k);
    let t = deleted(s, ks);
    let e = EffectModel::DeleteList { list: l };
    assert(d.effects[d.effects.len() - 1] == e);
    assert(t.effects[d.effects.len() - 1] == e);
}

/// A deleted group is closed and is no longer among the groups nor in the sidebar order;
/// no group and no list is left in it (its parent not being itself).
pub proof fn law_deleted_group_is_gone(s: StateModel, g: Seq<char>)
    requires
        crate::config::group_parent(s.config.groups, g) != Some(g),
    ensures
        deleted(s, seq![SidebarKey::ListGroup(g)]).open_group != Some(g),
        !deleted(s, seq![SidebarKey::ListGroup(g)]).config.order.contains(SidebarKey::ListGroup(g)),
        forall|i: int|
            0 <= i < deleted(s, seq![SidebarKey::ListGroup(g)]).config.groups.len() ==> {
                let x = #[trigger] deleted(s, seq![SidebarKey::ListGroup(g)]).config.groups[i];
                x.lnk != g && x.parent != Some(g)
            },
        forall|i: int|
            0 <= i < deleted(s, seq![SidebarKey::ListGroup(g)]).config.assignments.len() ==> (
            #[trigger] deleted(s, seq![SidebarKey::ListGroup(g)]).config.assignments[i]).1 != g,
{
    let k = SidebarKey::ListGroup(g);
    let ks = seq![k];
    assert(ks.drop_last() =~= Seq::<SidebarKey>::empty());
    assert(delete_all(s, ks.drop_last()) == s);
    assert(delete_all(s, ks) == delete_one(s, k));
    let c = s.config;
    let p = crate::config::group_parent(c.groups, g);
    let t = deleted(s, ks);
    crate::seqs::lemma_keep_contains(c.order, crate::config::not_key(k), k);
    let lifted = crate::config::lift_children(c.groups, g, p);
    let f = crate::config::not_group(g);
    assert(t.config.groups == crate::seqs::keep(lifted, f));
    assert forall|i: int| 0 <= i < t.config.groups.len() implies {
        let x = #[trigger] t.config.groups[i];
        x.lnk != g && x.parent != Some(g)
    } by {
        let x = t.config.groups[i];
        assert(t.config.groups.contains(x));
        crate::seqs::lemma_keep_contains(lifted, f, x);
        let j = choose|j: int| 0 <= j < lifted.len() && lifted[j] == x;
        assert(lifted[j] == (if c.groups[j].parent == Some(g) {
            crate::config::GroupModel { parent: p, ..c.groups[j] }
        } else {
            c.groups[j]
        }));
    }
    assert forall|i: int| 0 <= i < t.config.assignments.len() implies (#[trigger] t.config.assignments[i]).1 != g by {
        let e = t.config.assignments[i];
        match p {
            Some(q) => {
                assert(e == (if c.assignments[i].1 == g { (c.assignments[i].0, q) } else { c.assignments[i] }));
            },
            None => {
                let h = crate::config::not_assigned_to(g);
                assert(t.config.assignments.contains(e));
                crate::seqs::lemma_keep_contains(c.assignments, h, e);
            },
        }
    }
}

pub open spec fn keys_view(v: Seq<SidebarItem>) -> Seq<SidebarKey> {
    v.map_values(|i: SidebarItem| i@)
}

pub open spec fn opt_instance_ref_view(o: Option<&InstanceSettings>) -> Option<InstanceModel> {
    match o {
        Some(i) => Some(i@),
        None => None,
    }
}

/// A relative path appended to a directory, with one separator between them.
pub fn join_path(base: &str, sub: &str) -> (r: String)
    ensures
        r@ == path_join(base@, sub@),
{
    let cs = crate::text::chars_of(base);
    if cs.len() == 0 {
        crate::text::owned(sub)
    } else if cs[cs.len() - 1] == '/' {
        crate::text::concat(base, sub)
    } else {
        let with_sep = crate::text::concat(base, "/");
        crate::text::concat(with_sep.as_str(), sub)
    }
}

impl AppConfig {
    /// The instance settings that apply to a list (see `instance_for`).
    pub fn instance_of_list(&self, l: &ListLnk) -> (r: Option<&InstanceSettings>)
        ensures
            opt_instance_ref_view(r) == instance_for(self@, l@),
    {
        match self.group_of_list(l) {
            Some(g) => match crate::config::find_group(&self.list_groups, &g) {
                Some(i) => {
                    let lg = &self.list_groups[i];
                    if lg.is_instance {
                        match &lg.instance_settings {
                            Some(s) => Some(s),
                            None => None,
                        }
                    } else {
                        None
                    }
                },
                None => None,
            },
            None => None,
        }
    }
}

/// What the user can do to lists.
pub struct ListActions;

impl ListActions {
    /// The type a list held by the state is about (mods when the state holds no such list).
    pub fn get_list_resource_type(state: &RDState, list_lnk: &ListLnk) -> (r: ResourceType)
        ensures
            r == (match list_of(state@.lists, list_lnk@) {
                Some(l) => target_type(l),
                None => ResourceType::Mod,
            }),
    {
        match find_list(&state.lists, list_lnk) {
            Some(i) => Self::get_list_target_resource_type(&state.lists[i]),
            None => ResourceType::Mod,
        }
    }

    /// The type a list is about: its first type, or mods when it has none.
    pub fn get_list_target_resource_type(list: &ProjectList) -> (r: ResourceType)
        ensures
            r == target_type(list@),
    {
        let types = list.get_resource_types();
        if types.len() > 0 {
            types[0]
        } else {
            ResourceType::Mod
        }
    }

    /// The game version a list uses: that of its instance group, else the given one.
    pub fn get_effective_game_version(
        state: &RDState,
        list_lnk: &ListLnk,
        original_version: &GameVersion,
    ) -> (r: GameVersion)
        ensures
            r@ == effective_version(state@.config, list_lnk@, original_version@),
    {
        match state.config.instance_of_list(list_lnk) {
            Some(s) => s.game_version.clone(),
            None => original_version.clone(),
        }
    }

    /// The directory the files of a type of a list go to (see `effective_dir`).
    pub fn get_effective_download_dir(
        state: &RDState,
        list_lnk: &ListLnk,
        resource_type: ResourceType,
        original_download_dir: &str,
    ) -> (r: String)
        ensures
            r@ == effective_dir(state@.config, list_lnk@, resource_type, original_download_dir@),
    {
        match state.config.instance_of_list(list_lnk) {
            Some(s) => {
                let goes_there = match resource_type {
                    ResourceType::Mod | ResourceType::ResourcePack | ResourceType::Shader => true,
                    _ => false,
                };
                if goes_there {
                    let sub = resource_type.game_folder();
                    join_path(s.download_directory.as_str(), sub.as_str())
                } else {
                    crate::text::owned(original_download_dir)
                }
            },
            None => crate::text::owned(original_download_dir),
        }
    }

    /// Asks for a new list to be created.
    pub fn create_list(
        state: &mut RDState,
        name: String,
        resource_type: ResourceType,
        version: GameVersion,
        loader: GameLoader,
        download_dir: String,
    )
        ensures
            final(state)@ == (StateModel {
                effects: old(state)@.effects.push(
                    EffectModel::CreateList {
                        name: name@,
                        resource_type,
                        version: version@,
                        loader: loader@,
                        download_dir: download_dir@,
                        projects: Seq::empty(),
                    },
                ),
                ..old(state)@
            }),
    {
        let projects: Vec<String> = Vec::new();
        assert(crate::effect::strings_model(projects@) =~= Seq::<Seq<char>>::empty());
        state.dispatch(Effect::CreateList { name, resource_type, version, loader, download_dir, projects });
    }

    /// Replaces the order of the sidebar and saves the settings.
    pub fn set_sidebar_ui_order(state: &mut RDState, new_order: Vec<SidebarItem>)
        ensures
            final(state)@ == (StateModel {
                config: ConfigModel { order: keys_view(new_order@), ..old(state)@.config },
                effects: old(state)@.effects.push(
                    save_config_effect(ConfigModel { order: keys_view(new_order@), ..old(state)@.config }),
                ),
                ..old(state)@
            }),
            old(state).wf() ==> final(state).wf(),
    {
        state.config.sidebar_ui_order = new_order;
        state.save_config();
    }

    /// Opens a list, or closes it when it is the open one.
    pub fn toggle_open_list(state: &mut RDState, list: &ListLnk)
        requires
            old(state).wf(),
        ensures
            final(state).wf(),
            final(state)@ == list_toggled(old(state)@, list@),
    {
        let is_open = match &state.open_list {
            Some(l) => *l == *list,
            None => false,
        };
        if is_open {
            state.set_open_list(None);
        } else {
            state.set_open_list(Some(list.clone()));
        }
    }

    /// Renames a list held by the state and asks for it to be saved.
    pub fn rename_list(state: &mut RDState, list_lnk: ListLnk, new_name: String)
        requires
            old(state).wf(),
        ensures
            final(state).wf(),
            match list_of(old(state)@.lists, list_lnk@) {
                Some(_) => {
                    let i = crate::state::list_pos(old(state)@.lists, list_lnk@);
                    let renamed = StateModel {
                        lists: old(state)@.lists.update(i, ListModel { name: new_name@, ..old(state)@.lists[i] }),
                        ..old(state)@
                    };
                    final(state)@ == with_list_saved(renamed, list_lnk@)
                },
                None => final(state)@ == old(state)@,
            },
    {
        match find_list(&state.lists, &list_lnk) {
            Some(i) => {
                let ghost s0 = state@;
                state.lists[i].set_list_name(new_name);
                assert(state.lists@[i as int].wf());
                assert forall|j: int| 0 <= j < state.lists@.len() implies (#[trigger] state.lists@[j]).wf() by {
                    if j != i {
                        assert(state.lists@[j] == old(state).lists@[j]);
                    }
                }
                assert(state@.lists =~= s0.lists.update(i as int, ListModel { name: new_name@, ..s0.lists[i as int] }));
                assert(crate::state::unique_list_ids(state@.lists)) by {
                    let ls = state@.lists;
                    assert forall|x: int, y: int| 0 <= x < ls.len() && 0 <= y < ls.len() && x != y implies ls[x].id
                        != ls[y].id by {
                        assert(ls[x].id == s0.lists[x].id);
                        assert(ls[y].id == s0.lists[y].id);
                    }
                }
                proof {
                    crate::seqs::lemma_first_idx(state@.lists, crate::state::list_is(list_lnk@));
                    crate::seqs::lemma_first_idx(s0.lists, crate::state::list_is(list_lnk@));
                    let a = crate::state::list_pos(state@.lists, list_lnk@);
                    assert(crate::state::list_is(list_lnk@)(state@.lists[i as int]));
                    if a != i {
                        assert(state@.lists[a].id == s0.lists[a].id);
                    }
                }
                state.save_list(&list_lnk);
            },
            None => {},
        }
    }

    /// Deletes a list (see `delete_items`).
    pub fn delete_list(state: &mut RDState, list_lnk: ListLnk)
        requires
            old(state).wf(),
        ensures
            final(state).wf(),
            final(state)@ == deleted(old(state)@, seq![SidebarKey::List(list_lnk@)]),
    {
        let mut items: Vec<SidebarItem> = Vec::new();
        items.push(SidebarItem::List(list_lnk));
        assert(keys_view(items@) =~= seq![SidebarKey::List(list_lnk@)]);
        Self::delete_items(state, items);
    }

    /// Deletes sidebar entries, one after the other. A deleted list is closed when open,
    /// leaves the order and its group, and its deletion is asked for. A deleted group is
    /// closed when open; its child groups and its lists go to its parent (its lists leave
    /// any group when it has none), and it leaves the groups and the order. The last
    /// opened entry is forgotten when it is deleted. When there was anything to delete,
    /// the settings are saved and everything is refreshed.
    pub fn delete_items(state: &mut RDState, items: Vec<SidebarItem>)
        requires
            old(state).wf(),
        ensures
            final(state).wf(),
            final(state)@ == deleted(old(state)@, keys_view(items@)),
    {
        let ghost s0 = state@;
        let ghost ks = keys_view(items@);
        let mut config_changed = false;
        let mut k: usize = 0;
        while k < items.len()
            invariant
                k <= items.len(),
                ks == keys_view(items@),
                state.wf(),
                state.lists@ == old(state).lists@,
                state@ == delete_all(s0, ks.take(k as int)),
                config_changed == (k > 0),
            decreases items.len() - k,
        {
            let ghost before = state@;
            let item = &items[k];
            assert(ks.take(k + 1).drop_last() =~= ks.take(k as int));
            assert(ks.take(k + 1).last() == item@);
            match item {
                SidebarItem::List(l) => {
                    let is_open = match &state.open_list {
                        Some(o) => *o == *l,
                        None => false,
                    };
                    if is_open {
                        state.open_list = None;
                    }
                    state.config.remove_list_entries(l);
                    state.dispatch(Effect::DeleteList { list: l.clone() });
                },
                SidebarItem::ListGroup(g) => {
                    let is_open = match &state.open_list_group {
                        Some(o) => *o == *g,
                        None => false,
                    };
                    if is_open {
                        state.open_list_group = None;
                    }
                    state.config.remove_group_entries(g);
                },
            }
            state.config.forget_last_open_item(item);
            config_changed = true;
            assert(state@ =~= delete_one(before, item@));
            k = k + 1;
        }
        assert(ks.take(items.len() as int) =~= ks);
        if config_changed {
            state.save_config();
            state.request_full_refresh();
        }
    }

    /// Asks for a copy of a list held by the state.
    pub fn duplicate_list(state: &mut RDState, list_lnk: ListLnk)
        ensures
            list_of(old(state)@.lists, list_lnk@) is Some ==> final(state)@ == (StateModel {
                effects: old(state)@.effects.push(EffectModel::DuplicateList { list: list_lnk@, target_parent: None }),
                ..old(state)@
            }),
            list_of(old(state)@.lists, list_lnk@) is None ==> final(state)@ == old(state)@,
    {
        match find_list(&state.lists, &list_lnk) {
            Some(_) => state.dispatch(Effect::DuplicateList { list: list_lnk, target_parent: None }),
            None => {},
        }
    }

    /// Shows, in the file explorer, the directory of the first type of a list held by the
    /// state (when the list has settings for it).
    pub fn open_folder(state: &mut RDState, list_lnk: ListLnk)
        requires
            old(state).wf(),
        ensures
            match list_of(old(state)@.lists, list_lnk@) {
                Some(l) => if list_types(l).len() > 0 && config_for(l.type_config, list_types(l)[0]) is Some {
                    final(state)@ == (StateModel {
                        effects: old(state)@.effects.push(
                            EffectModel::OpenExplorer {
                                path: effective_dir(
                                    old(state)@.config,
                                    list_lnk@,
                                    list_types(l)[0],
                                    config_for(l.type_config, list_types(l)[0])->0.download_dir,
                                ),
                            },
                        ),
                        ..old(state)@
                    })
                } else {
                    final(state)@ == old(state)@
                },
                None => final(state)@ == old(state)@,
            },
    {
        match find_list(&state.lists, &list_lnk) {
            Some(i) => {
                assert(state.lists@[i as int].wf());
                let types = state.lists[i].get_resource_types();
                if types.len() > 0 {
                    let rt = types[0];
                    let dir = match state.lists[i].get_resource_type(&rt) {
                        Some(c) => Some(c.download_dir.clone()),
                        None => None,
                    };
                    match dir {
                        Some(d) => {
                            let effective = Self::get_effective_download_dir(state, &list_lnk, rt, d.as_str());
                            state.open_explorer(effective);
                        },
                        None => {},
                    }
                }
            },
            None => {},
        }
    }

    /// Asks for a list to be imported from a file.
    pub fn import_list(state: &mut RDState, path: String)
        ensures
            final(state)@ == (StateModel {
                effects: old(state)@.effects.push(EffectModel::ImportList { path: path@ }),
                ..old(state)@
            }),
    {
        state.dispatch(Effect::ImportList { path });
    }

    /// Asks for a list held by the state to be exported to a file.
    pub fn export_list(state: &mut RDState, list_lnk: ListLnk, path: String)
        ensures
            list_of(old(state)@.lists, list_lnk@) is Some ==> final(state)@ == (StateModel {
                effects: old(state)@.effects.push(EffectModel::ExportList { list: list_lnk@, path: path@ }),
                ..old(state)@
            }),
            list_of(old(state)@.lists, list_lnk@) is None ==> final(state)@ == old(state)@,
    {
        match find_list(&state.lists, &list_lnk) {
            Some(_) => state.dispatch(Effect::ExportList { list: list_lnk, path }),
            None => {},
        }
    }

    /// Asks for a list held by the state to be exported in the older file format.
    pub fn export_legacy_list(
        state: &mut RDState,
        list_lnk: ListLnk,
        path: String,
        version: GameVersion,
        loader: GameLoader,
    )
        ensures
            list_of(old(state)@.lists, list_lnk@) is Some ==> final(state)@ == (StateModel {
                effects: old(state)@.effects.push(
                    EffectModel::ExportLegacyList { list: list_lnk@, path: path@, version: version@, loader: loader@ },
                ),
                ..old(state)@
            }),
            list_of(old(state)@.lists, list_lnk@) is None ==> final(state)@ == old(state)@,
    {
        match find_list(&state.lists, &list_lnk) {
            Some(_) => state.dispatch(Effect::ExportLegacyList { list: list_lnk, path, version, loader }),
            None => {},
        }
    }
}

} // verus!
