use vstd::prelude::*;
use crate::list_actions::{ListActions, target_type};
use crate::project::{Project, ProjectModel};
use crate::project_list::{ListModel, ProjectList, config_for, manual_of_type, select, type_configured};
use crate::resource_type::ResourceType;
use crate::state::{RDState, list_of, lists_view};

verus! {

/// A mod of a list, as other programs see it.
#[derive(Debug)]
pub struct Mod {
    pub id: String,
    pub mod_name: String,
    pub compatibility_override: bool,
}

/// A list of mods, as other programs see it.
#[derive(Debug)]
pub struct List {
    pub id: String,
    pub name: String,
    pub count: usize,
    pub loader: String,
    pub download_dir: String,
    pub mods: Vec<Mod>,
}

/// The abstract value of a mod of a list: id, name, compatibility override.
pub open spec fn mod_model(p: ProjectModel) -> (Seq<char>, Seq<char>, bool) {
    (p.id, p.name, p.overruled)
}

pub open spec fn mods_view(v: Seq<Mod>) -> Seq<(Seq<char>, Seq<char>, bool)> {
    v.map_values(|m: Mod| (m.id@, m.mod_name@, m.compatibility_override))
}

/// What another program sees of a list of mods: its id and name, how many mods it holds
/// by choice, its loader's name and directory for mods, and those mods.
pub open spec fn api_list_matches(a: List, l: ListModel) -> bool {
    let manual = select(l.projects, manual_of_type(ResourceType::Mod));
    let c = config_for(l.type_config, ResourceType::Mod)->0;
    &&& a.id@ == l.id
    &&& a.name@ == l.name
    &&& a.count == manual.len()
    &&& a.loader@ == c.loader.name
    &&& a.download_dir@ == c.download_dir
    &&& mods_view(a.mods@) == manual.map_values(|p: ProjectModel| mod_model(p))
}

/// The lists that are about mods, in the order the state holds them.
pub open spec fn mod_lists(ls: Seq<ListModel>) -> Seq<ListModel> {
    crate::seqs::keep(ls, |l: ListModel| target_type(l) == ResourceType::Mod)
}

/// The view of lists for other programs.
pub struct RMAPI;

impl RMAPI {
    /// The lists about mods, as other programs see them (see `api_list_matches`).
    pub fn all_lists(state: &RDState) -> (r: Vec<List>)
        requires
            state.wf(),
            forall|i: int|
                0 <= i < state@.lists.len() && target_type(#[trigger] state@.lists[i]) == ResourceType::Mod
                    ==> type_configured(state@.lists[i].type_config, ResourceType::Mod),
        ensures
            r@.len() == mod_lists(state@.lists).len(),
            forall|i: int| 0 <= i < r@.len() ==> api_list_matches(#[trigger] r@[i], mod_lists(state@.lists)[i]),
    {
        let ghost ls = state@.lists;
        let mut out: Vec<List> = Vec::new();
        let mut i: usize = 0;
        while i < state.lists.len()
            invariant
                i <= state.lists.len(),
                ls == state@.lists,
                state.wf(),
                forall|k: int|
                    0 <= k < ls.len() && target_type(#[trigger] ls[k]) == ResourceType::Mod ==> type_configured(
                        ls[k].type_config,
                        ResourceType::Mod,
                    ),
                out@.len() == mod_lists(ls.take(i as int)).len(),
                forall|k: int| 0 <= k < out@.len() ==> api_list_matches(#[trigger] out@[k], mod_lists(ls.take(i as int))[k]),
            decreases state.lists.len() - i,
        {
            proof {
                crate::seqs::lemma_keep_step(ls, |l: ListModel| target_type(l) == ResourceType::Mod, i as int);
            }
            let list = &state.lists[i];
            assert(ls[i as int] == list@);
            assert(list.wf());
            if ListActions::get_list_target_resource_type(list) == ResourceType::Mod {
                let entry = Self::api_list(list);
                let ghost before = out@;
                out.push(entry);
                assert forall|k: int| 0 <= k < out@.len() implies api_list_matches(
                    #[trigger] out@[k],
                    mod_lists(ls.take(i + 1))[k],
                ) by {
                    if k < before.len() {
                        assert(out@[k] == before[k]);
                    }
                }
            }
            i = i + 1;
        }
        assert(ls.take(ls.len() as int) =~= ls);
        out
    }

    /// What another program sees of a list of mods (see `api_list_matches`).
    fn api_list(list: &ProjectList) -> (r: List)
        requires
            list.wf(),
            type_configured(list@.type_config, ResourceType::Mod),
        ensures
            api_list_matches(r, list@),
    {
        let manual = list.manual_projects_by_type(ResourceType::Mod);
        let c = list.get_resource_type(&ResourceType::Mod).unwrap();
        let mut mods: Vec<Mod> = Vec::new();
        let mut k: usize = 0;
        while k < manual.len()
            invariant
                k <= manual.len(),
                mods_view(mods@) == manual@.take(k as int).map_values(|p: &Project| mod_model(p@)),
            decreases manual.len() - k,
        {
            let p = manual[k];
            let ghost before = mods_view(mods@);
            let m = Mod { id: p.get_id(), mod_name: p.get_name(), compatibility_override: p.is_compatibility_overruled() };
            assert((m.id@, m.mod_name@, m.compatibility_override) == mod_model(p@));
            mods.push(m);
            assert(mods_view(mods@) =~= before.push(mod_model(p@)));
            assert(manual@.take(k + 1) =~= manual@.take(k as int).push(manual@[k as int]));
            assert(manual@.take(k + 1).map_values(|p: &Project| mod_model(p@)) =~= manual@.take(k as int).map_values(
                |p: &Project| mod_model(p@),
            ).push(mod_model(p@)));
            assert(mods_view(mods@) =~= manual@.take(k + 1).map_values(|p: &Project| mod_model(p@)));
            k = k + 1;
        }
        assert(manual@.take(manual.len() as int) =~= manual@);
        let ghost sel = select(list@.projects, manual_of_type(ResourceType::Mod));
        assert(manual@.map_values(|p: &Project| p@) == sel);
        assert(mods_view(mods@) =~= sel.map_values(|p: ProjectModel| mod_model(p))) by {
            assert forall|j: int| 0 <= j < sel.len() implies mods_view(mods@)[j] == mod_model(sel[j]) by {
                assert(sel[j] == manual@.map_values(|p: &Project| p@)[j]);
            }
        }
        List {
            id: list.get_id(),
            name: list.get_name(),
            count: manual.len(),
            loader: c.loader.name.clone(),
            download_dir: c.download_dir.clone(),
            mods,
        }
    }

    /// The id of the open list, if any.
    pub fn current_list_id(state: &RDState) -> (r: Option<String>)
        ensures
            match r {
                Some(s) => state@.open_list == Some(s@),
                None => state@.open_list is None,
            },
    {
        match &state.open_list {
            Some(l) => Some(l.to_context_id()),
            None => None,
        }
    }
}

} // verus!
