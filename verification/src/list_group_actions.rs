use vstd::prelude::*;
use crate::config::{
    AppConfig, ConfigModel, GroupModel, InstanceModel, InstanceSettings, ListGroup, assign, clone_opt_group,
    clone_opt_instance, find_group, group_parent, group_pos, key_eq, opt_group_view, unassign,
};
use crate::seqs::first_idx;
use crate::effect::{Effect, EffectModel};
use crate::game::{GameVersion, GameVersionModel, trim_end_all};
use crate::list_actions::{ListActions, deleted};
use crate::lnk::{ListGroupLnk, ListLnk, SidebarItem, SidebarKey};
use crate::state::{
    RDState, StateModel, find_list, opened_group, save_config_effect, with_sidebar_item,
};
use crate::text::decimal;

verus! {

/// The id of a group made at a time: "list_group_" and a number of nanoseconds.
pub open spec fn group_id(n: nat) -> Seq<char> {
    "list_group_"@ + decimal(n)
}

/// A new group: expanded, not an instance.
pub open spec fn fresh_group(lnk: Seq<char>, name: Seq<char>, parent: Option<Seq<char>>) -> GroupModel {
    GroupModel { lnk, name, collapsed: false, parent, is_instance: false, instance: None }
}

/// The groups with the first group of link `g` replaced by `x` (unchanged when absent).
pub open spec fn with_group_set(gs: Seq<GroupModel>, g: Seq<char>, x: GroupModel) -> Seq<GroupModel> {
    let i = group_pos(gs, g);
    if i >= 0 {
        gs.update(i, x)
    } else {
        gs
    }
}

/// The first group of link `g` (meaningful when there is one).
pub open spec fn group_of(gs: Seq<GroupModel>, g: Seq<char>) -> GroupModel {
    gs[group_pos(gs, g)]
}

/// The state with new settings, which are then saved.
pub open spec fn config_saved(s: StateModel, c: ConfigModel) -> StateModel {
    StateModel { config: c, effects: s.effects.push(save_config_effect(c)), ..s }
}

/// `p` with trailing slashes removed (a lone slash stays).
pub open spec fn trim_slashes(p: Seq<char>) -> Seq<char>
    decreases p.len(),
{
    if p.len() > 1 && p.last() == '/' {
        trim_slashes(p.drop_last())
    } else {
        p
    }
}

/// The position of the last slash of `p` (-1 when there is none).
pub open spec fn last_slash(p: Seq<char>) -> int
    decreases p.len(),
{
    if p.len() == 0 {
        -1
    } else if p.last() == '/' {
        p.len() - 1
    } else {
        last_slash(p.drop_last())
    }
}

/// The directory a path is in, as text: empty for a path of one component or for the root.
pub open spec fn parent_path(p: Seq<char>) -> Seq<char> {
    let t = trim_slashes(p);
    let i = last_slash(t);
    if t.len() == 0 || t == seq!['/'] || i < 0 {
        Seq::empty()
    } else {
        let h = trim_slashes(t.take(i));
        if h.len() == 0 {
            seq!['/']
        } else {
            h
        }
    }
}

/// The settings a group gets when it becomes an instance: the directory holding the
/// first default download directory, and the release 1.20.1.
pub open spec fn default_instance(dirs: Seq<(crate::resource_type::ResourceType, Seq<char>)>) -> InstanceModel {
    InstanceModel {
        download_directory: parent_path(dirs[0].1),
        game_version: GameVersionModel { name: trim_end_all("1.20.1"@, ".0"@), channel: "release"@ },
    }
}

/// The group after its instance mode is switched: a group that becomes an instance and
/// has no settings gets the default ones, when there are default directories.
pub open spec fn toggled_instance(
    x: GroupModel,
    dirs: Seq<(crate::resource_type::ResourceType, Seq<char>)>,
) -> GroupModel {
    let on = !x.is_instance;
    GroupModel {
        is_instance: on,
        instance: if on && x.instance is None && dirs.len() > 0 {
            Some(default_instance(dirs))
        } else {
            x.instance
        },
        ..x
    }
}

proof fn lemma_trim_step(p: Seq<char>, n: int)
    requires
        1 < n <= p.len(),
        p[n - 1] == '/',
    ensures
        trim_slashes(p.take(n)) == trim_slashes(p.take(n - 1)),
{
    assert(p.take(n).drop_last() =~= p.take(n - 1));
}

proof fn lemma_last_slash_step(p: Seq<char>, n: int)
    requires
        0 < n <= p.len(),
        p[n - 1] != '/',
    ensures
        last_slash(p.take(n)) == last_slash(p.take(n - 1)),
{
    assert(p.take(n).drop_last() =~= p.take(n - 1));
}

/// The length of `p.take(n)` once trailing slashes are removed.
fn trimmed_len(cs: &Vec<char>, n: usize) -> (m: usize)
    requires
        n <= cs.len(),
    ensures
        m <= n,
        trim_slashes(cs@.take(n as int)) == cs@.take(m as int),
{
    let mut m = n;
    while m > 1 && cs[m - 1] == '/'
        invariant
            m <= n <= cs.len(),
            trim_slashes(cs@.take(n as int)) == trim_slashes(cs@.take(m as int)),
        decreases m,
    {
        proof {
            lemma_trim_step(cs@, m as int);
        }
        m = m - 1;
    }
    proof {
        let t = cs@.take(m as int);
        if m > 1 {
            assert(t.last() == cs@[m - 1]);
        }
    }
    m
}

/// The directory a path is in (see `parent_path`).
pub fn parent_dir(p: &str) -> (r: String)
    ensures
        r@ == parent_path(p@),
{
    let cs = crate::text::chars_of(p);
    assert(cs@.take(cs.len() as int) =~= p@);
    let n = trimmed_len(&cs, cs.len());
    let ghost t = cs@.take(n as int);
    if n == 0 || (n == 1 && cs[0] == '/') {
        proof {
            if n == 1 {
                assert(t =~= seq!['/']);
            }
        }
        return crate::text::string_from_chars(&Vec::new());
    }
    assert(t != seq!['/']) by {
        if t == seq!['/'] {
            assert(t[0] == cs@[0]);
        }
    }
    let mut i = n;
    while i > 0 && cs[i - 1] != '/'
        invariant
            i <= n <= cs.len(),
            t == cs@.take(n as int),
            last_slash(t) == last_slash(cs@.take(i as int)),
        decreases i,
    {
        proof {
            lemma_last_slash_step(cs@, i as int);
        }
        i = i - 1;
    }
    if i == 0 {
        assert(last_slash(cs@.take(0)) == -1);
        return crate::text::string_from_chars(&Vec::new());
    }
    let ghost u = cs@.take(i as int);
    assert(u.last() == '/');
    assert(last_slash(t) == i - 1);
    assert(t.take(i - 1) =~= cs@.take(i - 1));
    let h = trimmed_len(&cs, i - 1);
    let mut out: Vec<char> = Vec::new();
    if h == 0 {
        out.push('/');
        assert(out@ =~= seq!['/']);
    } else {
        let mut k: usize = 0;
        while k < h
            invariant
                k <= h <= cs.len(),
                out@ == cs@.take(k as int),
            decreases h - k,
        {
            out.push(cs[k]);
            assert(cs@.take(k + 1) =~= cs@.take(k as int).push(cs@[k as int]));
            k = k + 1;
        }
    }
    crate::text::string_from_chars(&out)
}

/// The ids that group links refer to.
pub open spec fn group_lnk_ids(v: Seq<ListGroupLnk>) -> Seq<Seq<char>> {
    v.map_values(|g: ListGroupLnk| g@)
}

/// The groups with the first group of link `g` collapsed when it was expanded and
/// expanded when it was collapsed.
pub open spec fn collapse_toggled(gs: Seq<GroupModel>, g: Seq<char>) -> Seq<GroupModel> {
    with_group_set(gs, g, GroupModel { collapsed: !group_of(gs, g).collapsed, ..group_of(gs, g) })
}

/// The state after group `g` is opened, or closed when it is the open one.
pub open spec fn group_toggled(s: StateModel, g: Seq<char>) -> StateModel {
    if s.open_group == Some(g) {
        opened_group(s, None)
    } else {
        opened_group(s, Some(g))
    }
}

/// Changing a group in place, its link kept, leaves it where it was, and looking it up
/// then gives the changed group.
pub proof fn law_group_update_reads_back(gs: Seq<GroupModel>, g: Seq<char>, x: GroupModel)
    requires
        group_pos(gs, g) >= 0,
        x.lnk == g,
    ensures
        group_pos(with_group_set(gs, g, x), g) == group_pos(gs, g),
        group_of(with_group_set(gs, g, x), g) == x,
{
    let f = crate::config::group_is(g);
    let i = group_pos(gs, g);
    crate::seqs::lemma_first_idx(gs, f);
    if !crate::seqs::any(gs, f) {
        assert(false);
    }
    let b = gs.update(i, x);
    assert forall|j: int| 0 <= j < i implies !f(b[j]) by {
        assert(b[j] == gs[j]);
    }
    assert(crate::seqs::is_first(b, f, i));
    crate::seqs::lemma_is_first_unique(b, f, i);
}

/// Collapsing or expanding a group twice gives back the groups as they were.
pub proof fn law_collapse_twice_restores(gs: Seq<GroupModel>, g: Seq<char>)
    ensures
        collapse_toggled(collapse_toggled(gs, g), g) == gs,
{
    let f = crate::config::group_is(g);
    crate::seqs::lemma_first_idx(gs, f);
    let i = group_pos(gs, g);
    if i >= 0 {
        let x = group_of(gs, g);
        let y = GroupModel { collapsed: !x.collapsed, ..x };
        law_group_update_reads_back(gs, g, y);
        let once = collapse_toggled(gs, g);
        law_group_update_reads_back(once, g, GroupModel { collapsed: !y.collapsed, ..y });
        assert(collapse_toggled(once, g) =~= gs);
    } else {
        assert(collapse_toggled(gs, g) == gs);
    }
}

/// Switching a group's instance mode twice gives back the group, except that a group
/// without settings may have been given the default ones on the way; settings that it
/// had stay as they were.
pub proof fn law_instance_toggle_twice(x: GroupModel, dirs: Seq<(crate::resource_type::ResourceType, Seq<char>)>)
    ensures
        toggled_instance(toggled_instance(x, dirs), dirs) == (GroupModel {
            instance: toggled_instance(toggled_instance(x, dirs), dirs).instance,
            ..x
        }),
        x.instance is Some ==> toggled_instance(toggled_instance(x, dirs), dirs).instance == x.instance,
{
}

/// Opening a group and then toggling it again gives back the open group, when no other
/// group was open to begin with.
pub proof fn law_open_group_toggle_twice(s: StateModel, g: Seq<char>)
    requires
        s.open_group is None || s.open_group == Some(g),
    ensures
        group_toggled(group_toggled(s, g), g).open_group == s.open_group,
{
}

/// What the user can do to list groups.
pub struct ListGroupActions;

impl ListGroupActions {
    /// A link for a new group, made from the current time.
    pub fn generate_list_group_id() -> (r: ListGroupLnk)
        ensures
            exists|n: nat| r@ == group_id(n),
    {
        let n = crate::clock::now_nanos();
        let id = crate::text::with_number("list_group_", n);
        assert(id@ == group_id(n as nat));
        ListGroupLnk::new(id)
    }

    /// Makes a new group with a parent (or none), places it in the sidebar (see
    /// `insert_sidebar_item`) and scrolls to it.
    pub fn create_list_group_with_parent(
        state: &mut RDState,
        name: String,
        parent_id: Option<ListGroupLnk>,
    ) -> (r: ListGroupLnk)
        requires
            old(state).wf(),
        ensures
            final(state).wf(),
            exists|n: nat| r@ == group_id(n),
            final(state)@ == (StateModel {
                pending_sidebar_scroll: Some(SidebarKey::ListGroup(r@)),
                ..with_sidebar_item(
                    StateModel {
                        config: ConfigModel {
                            groups: old(state)@.config.groups.push(fresh_group(r@, name@, opt_group_view(parent_id))),
                            ..old(state)@.config
                        },
                        ..old(state)@
                    },
                    SidebarKey::ListGroup(r@),
                )
            }),
    {
        let lg_id = Self::generate_list_group_id();
        let ghost pv = opt_group_view(parent_id);
        let ghost s0 = state@;
        let ghost mid = StateModel {
            config: ConfigModel { groups: s0.config.groups.push(fresh_group(lg_id@, name@, pv)), ..s0.config },
            ..s0
        };
        state.config.list_groups.push(
            ListGroup {
                lnk: lg_id.clone(),
                name,
                collapsed: false,
                parent_id,
                is_instance: false,
                instance_settings: None,
            },
        );
        assert(state@.config.groups =~= mid.config.groups);
        assert(state@ =~= mid);
        state.insert_sidebar_item(SidebarItem::ListGroup(lg_id.clone()), false);
        state.pending_sidebar_scroll = Some(SidebarItem::from_group(&lg_id));
        lg_id
    }

    /// Renames the first group with the given link and saves the settings.
    pub fn rename_list_group(state: &mut RDState, lg_lnk: ListGroupLnk, new_name: String)
        requires
            old(state).wf(),
        ensures
            final(state).wf(),
            final(state)@ == config_saved(
                old(state)@,
                ConfigModel {
                    groups: with_group_set(
                        old(state)@.config.groups,
                        lg_lnk@,
                        GroupModel { name: new_name@, ..group_of(old(state)@.config.groups, lg_lnk@) },
                    ),
                    ..old(state)@.config
                },
            ),
    {
        let ghost s0 = state@;
        match find_group(&state.config.list_groups, &lg_lnk) {
            Some(i) => {
                state.config.list_groups[i].name = new_name;
            },
            None => {},
        }
        assert(state@.config.groups =~= with_group_set(
            s0.config.groups,
            lg_lnk@,
            GroupModel { name: new_name@, ..group_of(s0.config.groups, lg_lnk@) },
        ));
        state.save_config();
    }

    /// Deletes a group (see `ListActions::delete_items`).
    pub fn delete_list_group(state: &mut RDState, lg_lnk: ListGroupLnk)
        requires
            old(state).wf(),
        ensures
            final(state).wf(),
            final(state)@ == deleted(old(state)@, seq![SidebarKey::ListGroup(lg_lnk@)]),
    {
        let mut items: Vec<SidebarItem> = Vec::new();
        items.push(SidebarItem::ListGroup(lg_lnk));
        assert(crate::list_actions::keys_view(items@) =~= seq![SidebarKey::ListGroup(lg_lnk@)]);
        ListActions::delete_items(state, items);
    }

    /// Expands or collapses the first group with the given link and saves the settings.
    pub fn toggle_list_group_collapsed(state: &mut RDState, lg_lnk: ListGroupLnk)
        requires
            old(state).wf(),
        ensures
            final(state).wf(),
            final(state)@ == config_saved(
                old(state)@,
                ConfigModel { groups: collapse_toggled(old(state)@.config.groups, lg_lnk@), ..old(state)@.config },
            ),
    {
        let ghost s0 = state@;
        match find_group(&state.config.list_groups, &lg_lnk) {
            Some(i) => {
                let c = state.config.list_groups[i].collapsed;
                state.config.list_groups[i].collapsed = !c;
            },
            None => {},
        }
        assert(state@.config.groups =~= with_group_set(
            s0.config.groups,
            lg_lnk@,
            GroupModel {
                collapsed: !group_of(s0.config.groups, lg_lnk@).collapsed,
                ..group_of(s0.config.groups, lg_lnk@)
            },
        ));
        state.save_config();
    }

    /// Puts a list into a group (or takes it out of any group) and saves the settings.
    pub fn move_list_to_list_group(state: &mut RDState, list_id: ListLnk, lg_lnk: Option<ListGroupLnk>)
        requires
            old(state).wf(),
        ensures
            final(state).wf(),
            final(state)@ == config_saved(
                old(state)@,
                ConfigModel {
                    assignments: match opt_group_view(lg_lnk) {
                        Some(g) => assign(old(state)@.config.assignments, list_id@, g),
                        None => unassign(old(state)@.config.assignments, list_id@),
                    },
                    ..old(state)@.config
                },
            ),
    {
        match lg_lnk {
            Some(g) => state.config.assign_list(list_id, g),
            None => state.config.unassign_list(&list_id),
        }
        state.save_config();
    }

    /// Whether the first group with the given link is an instance (false when there is none).
    pub fn is_instance_mode(state: &RDState, lg_lnk: ListGroupLnk) -> (r: bool)
        ensures
            r == (group_pos(state@.config.groups, lg_lnk@) >= 0 && group_of(
                state@.config.groups,
                lg_lnk@,
            ).is_instance),
    {
        match find_group(&state.config.list_groups, &lg_lnk) {
            Some(i) => state.config.list_groups[i].is_instance,
            None => false,
        }
    }

    /// Switches the instance mode of the first group with the given link (see
    /// `toggled_instance`) and saves the settings.
    pub fn toggle_instance_mode(state: &mut RDState, lg_lnk: ListGroupLnk)
        requires
            old(state).wf(),
        ensures
            final(state).wf(),
            final(state)@ == config_saved(
                old(state)@,
                ConfigModel {
                    groups: with_group_set(
                        old(state)@.config.groups,
                        lg_lnk@,
                        toggled_instance(group_of(old(state)@.config.groups, lg_lnk@), old(state)@.default_dirs),
                    ),
                    ..old(state)@.config
                },
            ),
    {
        let ghost s0 = state@;
        match find_group(&state.config.list_groups, &lg_lnk) {
            Some(i) => {
                let on = !state.config.list_groups[i].is_instance;
                state.config.list_groups[i].is_instance = on;
                if on && state.config.list_groups[i].instance_settings.is_none() && state.default_dirs.len() > 0 {
                    let parent = parent_dir(state.default_dirs[0].1.as_str());
                    let version = GameVersion::release(crate::text::owned("1.20.1"));
                    state.config.list_groups[i].instance_settings = Some(
                        InstanceSettings { download_directory: parent, game_version: version },
                    );
                }
            },
            None => {},
        }
        assert(state@.config.groups =~= with_group_set(
            s0.config.groups,
            lg_lnk@,
            toggled_instance(group_of(s0.config.groups, lg_lnk@), s0.default_dirs),
        ));
        state.save_config();
    }

    /// Gives the first group with the given link new instance settings and saves the settings.
    pub fn update_instance_settings(
        state: &mut RDState,
        lg_lnk: ListGroupLnk,
        directory: String,
        version: GameVersion,
    )
        requires
            old(state).wf(),
        ensures
            final(state).wf(),
            final(state)@ == config_saved(
                old(state)@,
                ConfigModel {
                    groups: with_group_set(
                        old(state)@.config.groups,
                        lg_lnk@,
                        GroupModel {
                            instance: Some(InstanceModel { download_directory: directory@, game_version: version@ }),
                            ..group_of(old(state)@.config.groups, lg_lnk@)
                        },
                    ),
                    ..old(state)@.config
                },
            ),
    {
        let ghost s0 = state@;
        let ghost inst = InstanceModel { download_directory: directory@, game_version: version@ };
        match find_group(&state.config.list_groups, &lg_lnk) {
            Some(i) => {
                state.config.list_groups[i].instance_settings = Some(
                    InstanceSettings { download_directory: directory, game_version: version },
                );
            },
            None => {},
        }
        assert(state@.config.groups =~= with_group_set(
            s0.config.groups,
            lg_lnk@,
            GroupModel { instance: Some(inst), ..group_of(s0.config.groups, lg_lnk@) },
        ));
        state.save_config();
    }

    /// Opens a group, or closes it when it is the open one.
    pub fn toggle_open_group_list(state: &mut RDState, lg_lnk: &ListGroupLnk)
        requires
            old(state).wf(),
        ensures
            final(state).wf(),
            final(state)@ == group_toggled(old(state)@, lg_lnk@),
    {
        let is_open = match &state.open_list_group {
            Some(g) => *g == *lg_lnk,
            None => false,
        };
        if is_open {
            state.set_open_list_group(None);
        } else {
            state.set_open_list_group(Some(lg_lnk.clone()));
        }
    }
}


/// The copy of a group: named after it with " (Copy)", under the given parent, otherwise
/// like it.
pub open spec fn copy_of(x: GroupModel, lnk: Seq<char>, parent: Option<Seq<char>>) -> GroupModel {
    GroupModel { lnk, name: x.name + " (Copy)"@, parent, ..x }
}

/// The lists assigned to group `g`, in order.
fn lists_of_group(a: &Vec<(ListLnk, ListGroupLnk)>, g: &ListGroupLnk) -> (r: Vec<ListLnk>)
    ensures
        forall|k: int|
            0 <= k < a@.len() && (#[trigger] a@[k]).1@ == g@ ==> exists|j: int| 0 <= j < r@.len() && r@[j]@ == a@[k].0@,
{
    let mut r: Vec<ListLnk> = Vec::new();
    let mut i: usize = 0;
    while i < a.len()
        invariant
            i <= a.len(),
            forall|k: int|
                0 <= k < i && (#[trigger] a@[k]).1@ == g@ ==> exists|j: int| 0 <= j < r@.len() && r@[j]@ == a@[k].0@,
        decreases a.len() - i,
    {
        if a[i].1 == *g {
            let ghost r0 = r@;
            r.push(a[i].0.clone());
            assert(r@[r0.len() as int]@ == a@[i as int].0@);
            assert forall|k: int| 0 <= k < i + 1 && (#[trigger] a@[k]).1@ == g@ implies exists|j: int|
                0 <= j < r@.len() && r@[j]@ == a@[k].0@ by {
                if k < i {
                    let j = choose|j: int| 0 <= j < r0.len() && r0[j]@ == a@[k].0@;
                    assert(r@[j] == r0[j]);
                }
            }
        }
        i = i + 1;
    }
    r
}

/// Some group named `t` has `g` as its parent.
pub open spec fn is_child_in(gs: Seq<GroupModel>, t: Seq<char>, g: Seq<char>) -> bool {
    exists|k: int| 0 <= k < gs.len() && gs[k].lnk == t && gs[k].parent == Some(g)
}

/// Group `t` is `g`, or is below `g` going up through at most `n` parents.
pub open spec fn group_under(gs: Seq<GroupModel>, t: Seq<char>, g: Seq<char>, n: nat) -> bool
    decreases n,
{
    t == g || (n > 0 && exists|p: Seq<char>| #[trigger] is_child_in(gs, t, p) && group_under(gs, p, g, (n - 1) as nat))
}

/// Group `t` is strictly below `g`: it is the child of a group that is `g` or below it
/// (going up through at most `n` parents).
pub open spec fn group_below(gs: Seq<GroupModel>, t: Seq<char>, g: Seq<char>, n: nat) -> bool {
    exists|p: Seq<char>| #[trigger] is_child_in(gs, t, p) && group_under(gs, p, g, n)
}

/// More groups (after the same first ones) keep every relation of being below.
proof fn lemma_under_grows(a: Seq<GroupModel>, b: Seq<GroupModel>, t: Seq<char>, g: Seq<char>, n: nat)
    requires
        a.len() <= b.len(),
        forall|k: int| 0 <= k < a.len() ==> b[k] == a[k],
        group_under(a, t, g, n),
    ensures
        group_under(b, t, g, n),
    decreases n,
{
    if t != g {
        let p = choose|p: Seq<char>| #[trigger] is_child_in(a, t, p) && group_under(a, p, g, (n - 1) as nat);
        lemma_under_grows(a, b, p, g, (n - 1) as nat);
        let k = choose|k: int| 0 <= k < a.len() && a[k].lnk == t && a[k].parent == Some(p);
        assert(b[k] == a[k]);
        assert(is_child_in(b, t, p));
    }
}

/// A longer way up keeps what a shorter one reaches.
proof fn lemma_under_more(gs: Seq<GroupModel>, t: Seq<char>, g: Seq<char>, n: nat, m: nat)
    requires
        n <= m,
        group_under(gs, t, g, n),
    ensures
        group_under(gs, t, g, m),
    decreases n,
{
    if t != g {
        let p = choose|p: Seq<char>| #[trigger] is_child_in(gs, t, p) && group_under(gs, p, g, (n - 1) as nat);
        lemma_under_more(gs, p, g, (n - 1) as nat, (m - 1) as nat);
        assert(is_child_in(gs, t, p) && group_under(gs, p, g, (m - 1) as nat));
    }
}

/// What is below a child of `g` is below `g`.
proof fn lemma_under_child(gs: Seq<GroupModel>, t: Seq<char>, c: Seq<char>, g: Seq<char>, n: nat)
    requires
        group_under(gs, t, c, n),
        is_child_in(gs, c, g),
    ensures
        group_under(gs, t, g, n + 1),
        group_below(gs, t, g, n),
    decreases n,
{
    assert(group_under(gs, g, g, n));
    if t == c {
        assert(is_child_in(gs, t, g) && group_under(gs, g, g, n));
        assert(is_child_in(gs, t, g) && group_under(gs, g, g, (n + 1 - 1) as nat));
    } else {
        let p = choose|p: Seq<char>| #[trigger] is_child_in(gs, t, p) && group_under(gs, p, c, (n - 1) as nat);
        lemma_under_child(gs, p, c, g, (n - 1) as nat);
        assert(is_child_in(gs, t, p) && group_under(gs, p, g, n));
        assert(is_child_in(gs, t, p) && group_under(gs, p, g, (n + 1 - 1) as nat));
    }
}

/// The order with `x` put right after the first entry `k`, or at the top when there is none.
pub open spec fn insert_after_first(o: Seq<SidebarKey>, k: SidebarKey, x: SidebarKey) -> Seq<SidebarKey> {
    let p = first_idx(o, key_eq(k));
    if p >= 0 {
        o.insert(p + 1, x)
    } else {
        o.insert(0, x)
    }
}

/// The order after each step `(k, x)`, in turn, puts `x` right after the first entry `k`.
pub open spec fn apply_steps(o: Seq<SidebarKey>, steps: Seq<(SidebarKey, SidebarKey)>) -> Seq<SidebarKey>
    decreases steps.len(),
{
    if steps.len() == 0 {
        o
    } else {
        insert_after_first(apply_steps(o, steps.drop_last()), steps.last().0, steps.last().1)
    }
}

proof fn lemma_apply_concat(o: Seq<SidebarKey>, a: Seq<(SidebarKey, SidebarKey)>, b: Seq<(SidebarKey, SidebarKey)>)
    ensures
        apply_steps(o, a + b) == apply_steps(apply_steps(o, a), b),
    decreases b.len(),
{
    if b.len() == 0 {
        assert(a + b =~= a);
    } else {
        assert((a + b).drop_last() =~= a + b.drop_last());
        assert((a + b).last() == b.last());
        lemma_apply_concat(o, a, b.drop_last());
    }
}

/// Whether the first entry `k` of the order is directly followed by `r`.
pub open spec fn followed_by(o: Seq<SidebarKey>, k: SidebarKey, r: SidebarKey) -> bool {
    let i = first_idx(o, key_eq(k));
    0 <= i && i + 1 < o.len() && o[i + 1] == r
}

/// Putting an entry other than `k` after an entry other than `k` keeps `k` followed by `r`.
proof fn lemma_followed_step(o: Seq<SidebarKey>, key: SidebarKey, x: SidebarKey, k: SidebarKey, r: SidebarKey)
    requires
        followed_by(o, k, r),
        key != k,
        x != k,
    ensures
        followed_by(insert_after_first(o, key, x), k, r),
{
    let f = key_eq(k);
    crate::seqs::lemma_first_idx(o, f);
    crate::seqs::lemma_first_idx(o, key_eq(key));
    let i = first_idx(o, f);
    let p = first_idx(o, key_eq(key));
    let q = if p >= 0 { p + 1 } else { 0 };
    let o2 = o.insert(q, x);
    assert(o2 == insert_after_first(o, key, x));
    if p >= 0 {
        assert(o[p] == key);
        assert(p != i);
    }
    if q <= i {
        assert(o2[i + 1] == o[i]);
        assert(o2[i + 2] == o[i + 1]);
        assert forall|j: int| 0 <= j < i + 1 implies !f(o2[j]) by {
            if j < q {
                assert(o2[j] == o[j]);
            } else if j > q {
                assert(o2[j] == o[j - 1]);
            }
        }
        assert(crate::seqs::is_first(o2, f, i + 1));
        crate::seqs::lemma_is_first_unique(o2, f, i + 1);
    } else {
        assert(q > i + 1);
        assert(o2[i] == o[i]);
        assert(o2[i + 1] == o[i + 1]);
        assert forall|j: int| 0 <= j < i implies !f(o2[j]) by {
            assert(o2[j] == o[j]);
        }
        assert(crate::seqs::is_first(o2, f, i));
        crate::seqs::lemma_is_first_unique(o2, f, i);
    }
}

/// Steps that neither follow nor put an entry `k` keep `k` followed by `r`.
proof fn lemma_followed_steps(o: Seq<SidebarKey>, steps: Seq<(SidebarKey, SidebarKey)>, k: SidebarKey, r: SidebarKey)
    requires
        followed_by(o, k, r),
        forall|j: int| 0 <= j < steps.len() ==> (#[trigger] steps[j]).0 != k && steps[j].1 != k,
    ensures
        followed_by(apply_steps(o, steps), k, r),
    decreases steps.len(),
{
    if steps.len() > 0 {
        assert forall|j: int| 0 <= j < steps.drop_last().len() implies (#[trigger] steps.drop_last()[j]).0 != k
            && steps.drop_last()[j].1 != k by {
            assert(steps.drop_last()[j] == steps[j]);
        }
        lemma_followed_steps(o, steps.drop_last(), k, r);
        assert(steps.last() == steps[steps.len() - 1]);
        lemma_followed_step(apply_steps(o, steps.drop_last()), steps.last().0, steps.last().1, k, r);
    }
}

/// A later step of copying group `g`: it puts the copy of a group strictly below `g`
/// (added after position `n0`) right after the entry of that group.
pub open spec fn later_step(ng: Seq<GroupModel>, n0: int, g: Seq<char>, n: nat, st: (SidebarKey, SidebarKey)) -> bool {
    &&& exists|t: Seq<char>| st.0 == SidebarKey::ListGroup(t) && #[trigger] group_below(ng, t, g, n)
    &&& exists|m: int| 0 <= n0 < m < ng.len() && st.1 == SidebarKey::ListGroup(#[trigger] ng[m].lnk)
}

proof fn lemma_later_grows(a: Seq<GroupModel>, b: Seq<GroupModel>, n0: int, g: Seq<char>, n: nat, st: (SidebarKey, SidebarKey))
    requires
        a.len() <= b.len(),
        forall|k: int| 0 <= k < a.len() ==> b[k] == a[k],
        later_step(a, n0, g, n, st),
    ensures
        later_step(b, n0, g, n, st),
{
    let t = choose|t: Seq<char>| st.0 == SidebarKey::ListGroup(t) && #[trigger] group_below(a, t, g, n);
    let p = choose|p: Seq<char>| #[trigger] is_child_in(a, t, p) && group_under(a, p, g, n);
    lemma_under_grows(a, b, p, g, n);
    let k = choose|k: int| 0 <= k < a.len() && a[k].lnk == t && a[k].parent == Some(p);
    assert(b[k] == a[k]);
    assert(is_child_in(b, t, p));
    assert(group_below(b, t, g, n));
    assert(later_step(a, n0, g, n, st));
    let m = choose|m: int| 0 <= n0 < m < a.len() && st.1 == SidebarKey::ListGroup(#[trigger] a[m].lnk);
    assert(b[m] == a[m]);
    assert(st.1 == SidebarKey::ListGroup(b[m].lnk));
}

/// A later step of copying a child of `g` is a later step of copying `g`.
proof fn lemma_later_child(a: Seq<GroupModel>, n1: int, n0: int, c: Seq<char>, g: Seq<char>, n: nat, st: (SidebarKey, SidebarKey))
    requires
        0 <= n0 <= n1,
        is_child_in(a, c, g),
        later_step(a, n1, c, n, st),
    ensures
        later_step(a, n0, g, n + 1, st),
{
    let t = choose|t: Seq<char>| st.0 == SidebarKey::ListGroup(t) && #[trigger] group_below(a, t, c, n);
    let p = choose|p: Seq<char>| #[trigger] is_child_in(a, t, p) && group_under(a, p, c, n);
    lemma_under_child(a, p, c, g, n);
    assert(group_below(a, t, g, n + 1));
    let m = choose|m: int| 0 <= n1 < m < a.len() && st.1 == SidebarKey::ListGroup(#[trigger] a[m].lnk);
    assert(0 <= n0 < m);
}

/// Putting `x` right after the first entry `k` leaves `k` followed by `x`.
proof fn lemma_followed_own(o: Seq<SidebarKey>, k: SidebarKey, x: SidebarKey)
    requires
        first_idx(o, key_eq(k)) >= 0,
    ensures
        followed_by(insert_after_first(o, k, x), k, x),
{
    let f = key_eq(k);
    crate::seqs::lemma_first_idx(o, f);
    let i = first_idx(o, f);
    let o2 = o.insert(i + 1, x);
    assert(o2[i] == o[i]);
    assert(o2[i + 1] == x);
    assert forall|j: int| 0 <= j < i implies !f(o2[j]) by {
        assert(o2[j] == o[j]);
    }
    assert(crate::seqs::is_first(o2, f, i));
    crate::seqs::lemma_is_first_unique(o2, f, i);
}

/// After copying a child `sub` of `g` (its own step, then its later steps), the steps
/// so far of copying `g` grow by those, each a later step of copying `g`.
proof fn lemma_child_call_steps(
    o0: Seq<SidebarKey>,
    own: (SidebarKey, SidebarKey),
    rest: Seq<(SidebarKey, SidebarKey)>,
    a: Seq<GroupModel>,
    ao: Seq<SidebarKey>,
    b: Seq<GroupModel>,
    bo: Seq<SidebarKey>,
    n0: int,
    g: Seq<char>,
    sub: Seq<char>,
    sub_r: Seq<char>,
    rest_c: Seq<(SidebarKey, SidebarKey)>,
    d: nat,
)
    requires
        d >= 1,
        0 <= n0 < a.len() < b.len(),
        forall|k: int| 0 <= k < a.len() ==> b[k] == a[k],
        b[a.len() as int].lnk == sub_r,
        is_child_in(a, sub, g),
        ao == apply_steps(o0, seq![own] + rest),
        bo == apply_steps(ao, seq![(SidebarKey::ListGroup(sub), SidebarKey::ListGroup(sub_r))] + rest_c),
        forall|q: int| 0 <= q < rest.len() ==> later_step(a, n0, g, d, #[trigger] rest[q]),
        forall|q: int| 0 <= q < rest_c.len() ==> later_step(b, a.len() as int, sub, (d - 1) as nat, #[trigger] rest_c[q]),
    ensures
        bo == apply_steps(
            o0,
            seq![own] + (rest + (seq![(SidebarKey::ListGroup(sub), SidebarKey::ListGroup(sub_r))] + rest_c)),
        ),
        forall|q: int|
            0 <= q < (rest + (seq![(SidebarKey::ListGroup(sub), SidebarKey::ListGroup(sub_r))] + rest_c)).len()
                ==> later_step(
                b,
                n0,
                g,
                d,
                #[trigger] (rest + (seq![(SidebarKey::ListGroup(sub), SidebarKey::ListGroup(sub_r))] + rest_c))[q],
            ),
{
    let head = seq![(SidebarKey::ListGroup(sub), SidebarKey::ListGroup(sub_r))];
    let part = head + rest_c;
    lemma_apply_concat(o0, seq![own] + rest, part);
    assert((seq![own] + rest) + part =~= seq![own] + (rest + part));
    let kc = choose|k: int| 0 <= k < a.len() && a[k].lnk == sub && a[k].parent == Some(g);
    assert(b[kc] == a[kc]);
    assert(is_child_in(b, sub, g));
    let all = rest + part;
    assert forall|q: int| 0 <= q < all.len() implies later_step(b, n0, g, d, #[trigger] all[q]) by {
        if q < rest.len() {
            assert(all[q] == rest[q]);
            lemma_later_grows(a, b, n0, g, d, rest[q]);
        } else if q == rest.len() {
            assert(all[q] == head[0]);
            assert(group_under(b, g, g, d));
            assert(is_child_in(b, sub, g) && group_under(b, g, g, d));
            assert(group_below(b, sub, g, d));
            assert(0 <= n0 < a.len() < b.len() && all[q].1 == SidebarKey::ListGroup(b[a.len() as int].lnk));
        } else {
            let qc = q - rest.len() - 1;
            assert(all[q] == rest_c[qc]);
            lemma_later_child(b, a.len() as int, n0, sub, g, (d - 1) as nat, rest_c[qc]);
        }
    }
}

/// The groups whose parent is `g`, in order.
fn children_of_group(gs: &Vec<ListGroup>, g: &ListGroupLnk) -> (r: Vec<ListGroupLnk>)
    ensures
        (forall|k: int| 0 <= k < gs@.len() ==> (#[trigger] gs@[k])@.parent != Some(g@)) ==> r@.len() == 0,
        forall|k: int|
            0 <= k < gs@.len() && (#[trigger] gs@[k])@.parent == Some(g@) ==> exists|j: int|
                0 <= j < r@.len() && r@[j]@ == gs@[k]@.lnk,
        forall|j: int| 0 <= j < r@.len() ==> is_child_in(crate::config::groups_view(gs@), (#[trigger] r@[j])@, g@),
{
    let mut r: Vec<ListGroupLnk> = Vec::new();
    let mut i: usize = 0;
    while i < gs.len()
        invariant
            i <= gs.len(),
            (forall|k: int| 0 <= k < i ==> (#[trigger] gs@[k])@.parent != Some(g@)) ==> r@.len() == 0,
            forall|k: int|
                0 <= k < i && (#[trigger] gs@[k])@.parent == Some(g@) ==> exists|j: int|
                    0 <= j < r@.len() && r@[j]@ == gs@[k]@.lnk,
            forall|j: int| 0 <= j < r@.len() ==> is_child_in(crate::config::groups_view(gs@), (#[trigger] r@[j])@, g@),
        decreases gs.len() - i,
    {
        let is_child = match &gs[i].parent_id {
            Some(p) => *p == *g,
            None => false,
        };
        assert(is_child == (gs@[i as int]@.parent == Some(g@)));
        if is_child {
            let ghost r0 = r@;
            r.push(gs[i].lnk.clone());
            assert(r@[r0.len() as int]@ == gs@[i as int]@.lnk);
            assert(crate::config::groups_view(gs@)[i as int] == gs@[i as int]@);
            assert forall|j: int| 0 <= j < r@.len() implies is_child_in(crate::config::groups_view(gs@), (#[trigger] r@[j])@, g@) by {
                if j < r0.len() {
                    assert(r@[j] == r0[j]);
                }
            }
            assert forall|k: int| 0 <= k < i + 1 && (#[trigger] gs@[k])@.parent == Some(g@) implies exists|j: int|
                0 <= j < r@.len() && r@[j]@ == gs@[k]@.lnk by {
                if k < i {
                    let j = choose|j: int| 0 <= j < r0.len() && r0[j]@ == gs@[k]@.lnk;
                    assert(r@[j] == r0[j]);
                }
            }
        }
        i = i + 1;
    }
    r
}

/// Each child group of `g` (in `gs`) has a copy under group `copy` among the groups
/// added after `gs` in `ng`.
pub open spec fn children_copied(gs: Seq<GroupModel>, ng: Seq<GroupModel>, g: Seq<char>, copy: Seq<char>) -> bool {
    forall|k: int|
        0 <= k < gs.len() && (#[trigger] gs[k]).parent == Some(g) ==> exists|x: int|
            gs.len() < x < ng.len() && ng[x] == copy_of(group_of(gs, gs[k].lnk), ng[x].lnk, Some(copy))
}

/// Groups that keep `a` as a prefix find its groups where `a` has them.
proof fn lemma_group_prefix(a: Seq<GroupModel>, b: Seq<GroupModel>, c: Seq<char>)
    requires
        b.len() >= a.len(),
        b.take(a.len() as int) == a,
        group_pos(a, c) >= 0,
    ensures
        group_pos(b, c) == group_pos(a, c),
        group_of(b, c) == group_of(a, c),
{
    let f = crate::config::group_is(c);
    crate::seqs::lemma_first_idx(a, f);
    if !crate::seqs::any(a, f) {
        assert(false);
    }
    let i = group_pos(a, c);
    assert forall|j: int| 0 <= j <= i implies b[j] == a[j] by {
        assert(b.take(a.len() as int)[j] == a[j]);
    }
    assert(crate::seqs::is_first(b, f, i));
    crate::seqs::lemma_is_first_unique(b, f, i);
}

/// A group that is among the groups has a position.
proof fn lemma_group_present(a: Seq<GroupModel>, k: int)
    requires
        0 <= k < a.len(),
    ensures
        group_pos(a, a[k].lnk) >= 0,
{
    let f = crate::config::group_is(a[k].lnk);
    crate::seqs::lemma_first_idx(a, f);
    assert(f(a[k]));
}

/// Inserting an entry into the order keeps the entries that were there, and the new one
/// is there.
proof fn lemma_insert_keeps(o: Seq<SidebarKey>, p: int, k: SidebarKey)
    requires
        0 <= p <= o.len(),
    ensures
        o.insert(p, k).contains(k),
        forall|x: SidebarKey| o.contains(x) ==> #[trigger] o.insert(p, k).contains(x),
{
    let t = o.insert(p, k);
    assert(t[p] == k);
    assert forall|x: SidebarKey| o.contains(x) implies #[trigger] t.contains(x) by {
        let q = choose|q: int| 0 <= q < o.len() && o[q] == x;
        if q < p {
            assert(t[q] == x);
        } else {
            assert(t[q + 1] == x);
        }
    }
}

/// What a duplication keeps of the state it starts from: everything but the groups, the
/// sidebar order, the effects and the entry to scroll to; the groups as a prefix, the
/// entries of the sidebar order, and the effects asked before, first.
pub open spec fn dup_keeps(s: StateModel, t: StateModel) -> bool {
    &&& t == (StateModel {
        config: ConfigModel { groups: t.config.groups, order: t.config.order, ..s.config },
        effects: t.effects,
        pending_sidebar_scroll: t.pending_sidebar_scroll,
        ..s
    })
    &&& t.lists == s.lists
    &&& forall|x: SidebarKey| s.config.order.contains(x) ==> #[trigger] t.config.order.contains(x)
    &&& t.config.assignments == s.config.assignments
    &&& t.config.groups.len() >= s.config.groups.len()
    &&& t.config.groups.take(s.config.groups.len() as int) == s.config.groups
    &&& t.open_list == s.open_list
    &&& t.open_group == s.open_group
    &&& t.effects.len() > s.effects.len()
    &&& t.effects.take(s.effects.len() as int) == s.effects
}

/// No group of `gs` has `g` as its parent.
pub open spec fn has_no_child(gs: Seq<GroupModel>, g: Seq<char>) -> bool {
    forall|k: int| 0 <= k < gs.len() ==> (#[trigger] gs[k]).parent != Some(g)
}

/// The sidebar order with the copy `c` of group `g` put right after the first entry of
/// `g`, or at the top when `g` is not in the order.
pub open spec fn order_with_copy(o: Seq<SidebarKey>, g: Seq<char>, c: Seq<char>) -> Seq<SidebarKey> {
    let p = first_idx(o, key_eq(SidebarKey::ListGroup(g)));
    if p >= 0 {
        o.insert(p + 1, SidebarKey::ListGroup(c))
    } else {
        o.insert(0, SidebarKey::ListGroup(c))
    }
}

/// Each list of group `g` that the state holds had its copy asked for, into group `copy`.
pub open spec fn copies_asked(s: StateModel, t: StateModel, g: Seq<char>, copy: Seq<char>) -> bool {
    forall|k: int|
        0 <= k < s.config.assignments.len() && (#[trigger] s.config.assignments[k]).1 == g && crate::state::list_of(
            s.lists,
            s.config.assignments[k].0,
        ) is Some ==> t.effects.contains(EffectModel::DuplicateList { list: s.config.assignments[k].0, target_parent: Some(copy) })
}

impl ListGroupActions {
    /// Copies a group, under the same parent (see `duplicate_list_group_recursive`).
    pub fn duplicate_list_group(state: &mut RDState, lg_lnk: ListGroupLnk)
        requires
            old(state).wf(),
        ensures
            final(state).wf(),
            group_pos(old(state)@.config.groups, lg_lnk@) < 0 ==> final(state)@ == old(state)@,
            group_pos(old(state)@.config.groups, lg_lnk@) >= 0 ==> {
                let gs = old(state)@.config.groups;
                let ng = final(state)@.config.groups;
                &&& dup_keeps(old(state)@, final(state)@)
                &&& ng.len() > gs.len()
                &&& exists|n: nat| ng[gs.len() as int].lnk == group_id(n)
                &&& ng[gs.len() as int] == copy_of(group_of(gs, lg_lnk@), ng[gs.len() as int].lnk, group_parent(gs, lg_lnk@))
                &&& copies_asked(old(state)@, final(state)@, lg_lnk@, ng[gs.len() as int].lnk)
                &&& final(state)@.config.order.contains(SidebarKey::ListGroup(ng[gs.len() as int].lnk))
                &&& children_copied(gs, ng, lg_lnk@, ng[gs.len() as int].lnk)
                &&& final(state)@.pending_sidebar_scroll == Some(SidebarKey::ListGroup(ng.last().lnk))
                &&& (first_idx(old(state)@.config.order, key_eq(SidebarKey::ListGroup(lg_lnk@))) >= 0 && (forall|m: int|
                    gs.len() < m < ng.len() ==> (#[trigger] ng[m]).lnk != lg_lnk@) && (forall|n: nat|
                    !#[trigger] group_below(ng, lg_lnk@, lg_lnk@, n))) ==> followed_by(
                    final(state)@.config.order,
                    SidebarKey::ListGroup(lg_lnk@),
                    SidebarKey::ListGroup(ng[gs.len() as int].lnk),
                )
                &&& has_no_child(gs, lg_lnk@) ==> {
                    &&& ng == gs.push(
                        copy_of(group_of(gs, lg_lnk@), ng[gs.len() as int].lnk, group_parent(gs, lg_lnk@)),
                    )
                    &&& final(state)@.config.order == order_with_copy(
                        old(state)@.config.order,
                        lg_lnk@,
                        ng[gs.len() as int].lnk,
                    )
                    &&& final(state)@.pending_sidebar_scroll == Some(SidebarKey::ListGroup(ng[gs.len() as int].lnk))
                }
                &&& final(state)@.effects.last() == save_config_effect(final(state)@.config)
            },
    {
        let ghost s0 = state@;
        let parent_id = state.config.parent_of_group(&lg_lnk);
        let depth = state.config.list_groups.len();
        let ghost lg = lg_lnk@;
        let r = Self::duplicate_list_group_recursive(state, lg_lnk, parent_id, depth);
        proof {
            let gs = s0.config.groups;
            let ng = state@.config.groups;
            let k = SidebarKey::ListGroup(lg);
            if group_pos(gs, lg) >= 0 && first_idx(s0.config.order, key_eq(k)) >= 0 && (forall|m: int|
                gs.len() < m < ng.len() ==> (#[trigger] ng[m]).lnk != lg) && (forall|n: nat|
                !#[trigger] group_below(ng, lg, lg, n)) {
                let own = (k, SidebarKey::ListGroup(r@));
                let rest = choose|rest: Seq<(SidebarKey, SidebarKey)>|
                    state@.config.order == apply_steps(s0.config.order, seq![own] + rest) && forall|q: int|
                        0 <= q < rest.len() ==> later_step(ng, gs.len() as int, lg, depth as nat, #[trigger] rest[q]);
                assert(seq![own].drop_last() =~= Seq::<(SidebarKey, SidebarKey)>::empty());
                assert(apply_steps(s0.config.order, Seq::<(SidebarKey, SidebarKey)>::empty()) == s0.config.order);
                lemma_followed_own(s0.config.order, k, own.1);
                lemma_apply_concat(s0.config.order, seq![own], rest);
                assert forall|q: int| 0 <= q < rest.len() implies (#[trigger] rest[q]).0 != k && rest[q].1 != k by {
                    let st = rest[q];
                    assert(later_step(ng, gs.len() as int, lg, depth as nat, st));
                    let t = choose|t: Seq<char>| st.0 == SidebarKey::ListGroup(t) && #[trigger] group_below(ng, t, lg, depth as nat);
                    if t == lg {
                        assert(!group_below(ng, lg, lg, depth as nat));
                    }
                    let m = choose|m: int| 0 <= gs.len() < m < ng.len() && st.1 == SidebarKey::ListGroup(#[trigger] ng[m].lnk);
                    assert(ng[m].lnk != lg);
                }
                lemma_followed_steps(apply_steps(s0.config.order, seq![own]), rest, k, own.1);
                assert(r@ == ng[gs.len() as int].lnk);
            }
        }
    }

    /// Copies a group under a new parent: the copy goes right after the group in the sidebar
    /// (at the top when the group is not in it) and is scrolled to; the copy of each list of
    /// the group is asked for, into the copy; each child group is copied the same way under
    /// the copy (down to `depth` levels); then the settings are saved. Returns the link of
    /// the copy (the given link when there is no such group).
    #[verifier::spinoff_prover]
    #[verifier::rlimit(40)]
    pub fn duplicate_list_group_recursive(
        state: &mut RDState,
        lg_lnk: ListGroupLnk,
        new_parent_id: Option<ListGroupLnk>,
        depth: usize,
    ) -> (r: ListGroupLnk)
        requires
            old(state).wf(),
        ensures
            final(state).wf(),
            group_pos(old(state)@.config.groups, lg_lnk@) < 0 ==> final(state)@ == old(state)@ && r@ == lg_lnk@,
            group_pos(old(state)@.config.groups, lg_lnk@) >= 0 ==> {
                let gs = old(state)@.config.groups;
                let ng = final(state)@.config.groups;
                &&& dup_keeps(old(state)@, final(state)@)
                &&& ng.len() > gs.len()
                &&& exists|n: nat| r@ == group_id(n)
                &&& ng[gs.len() as int] == copy_of(group_of(gs, lg_lnk@), r@, opt_group_view(new_parent_id))
                &&& copies_asked(old(state)@, final(state)@, lg_lnk@, r@)
                &&& final(state)@.config.order.contains(SidebarKey::ListGroup(r@))
                &&& depth > 0 ==> children_copied(gs, ng, lg_lnk@, r@)
                &&& final(state)@.pending_sidebar_scroll == Some(SidebarKey::ListGroup(ng.last().lnk))
                &&& exists|rest: Seq<(SidebarKey, SidebarKey)>|
                    final(state)@.config.order == apply_steps(
                        old(state)@.config.order,
                        seq![(SidebarKey::ListGroup(lg_lnk@), SidebarKey::ListGroup(r@))] + rest,
                    ) && forall|q: int|
                        0 <= q < rest.len() ==> later_step(ng, gs.len() as int, lg_lnk@, depth as nat, #[trigger] rest[q])
                &&& (depth == 0 || (has_no_child(gs, lg_lnk@) && opt_group_view(new_parent_id) != Some(lg_lnk@)))
                    ==> {
                    &&& ng == gs.push(copy_of(group_of(gs, lg_lnk@), r@, opt_group_view(new_parent_id)))
                    &&& final(state)@.config.order == order_with_copy(old(state)@.config.order, lg_lnk@, r@)
                    &&& final(state)@.pending_sidebar_scroll == Some(SidebarKey::ListGroup(r@))
                }
                &&& final(state)@.effects.last() == save_config_effect(final(state)@.config)
            },
        decreases depth,
    {
        let ghost s0 = state@;
        let new_lg_id = Self::generate_list_group_id();
        let i = match find_group(&state.config.list_groups, &lg_lnk) {
            Some(i) => i,
            None => return lg_lnk,
        };
        let orig_name = crate::text::concat(state.config.list_groups[i].name.as_str(), " (Copy)");
        let copy = ListGroup {
            lnk: new_lg_id.clone(),
            name: orig_name,
            collapsed: state.config.list_groups[i].collapsed,
            parent_id: clone_opt_group(&new_parent_id),
            is_instance: state.config.list_groups[i].is_instance,
            instance_settings: clone_opt_instance(&state.config.list_groups[i].instance_settings),
        };
        let ghost cm = copy@;
        state.config.list_groups.push(copy);
        assert(state@.config.groups =~= s0.config.groups.push(cm));
        let item = SidebarItem::from_group(&new_lg_id);
        let orig_item = SidebarItem::from_group(&lg_lnk);
        let ghost o1 = state@.config.order;
        match state.config.item_pos(&orig_item) {
            Some(pos) => {
                proof {
                    crate::seqs::lemma_first_idx(state@.config.order, crate::config::key_eq(orig_item@));
                }
                let n = state.config.sidebar_ui_order.len();
                assert(pos < n);
                state.config.insert_item_at(pos + 1, item);
                proof {
                    lemma_insert_keeps(o1, pos + 1, SidebarKey::ListGroup(new_lg_id@));
                }
                assert(state@.config.order == order_with_copy(s0.config.order, lg_lnk@, new_lg_id@));
            },
            None => {
                state.config.insert_item_at(0, item);
                proof {
                    lemma_insert_keeps(o1, 0, SidebarKey::ListGroup(new_lg_id@));
                }
                assert(state@.config.order == order_with_copy(s0.config.order, lg_lnk@, new_lg_id@));
            },
        }
        let ghost s0_assign = state.config.list_group_assignments;
        let lists_to_duplicate = lists_of_group(&state.config.list_group_assignments, &lg_lnk);
        let ghost gs_call = state.config.list_groups@;
        let sub_groups = children_of_group(&state.config.list_groups, &lg_lnk);
        state.pending_sidebar_scroll = Some(SidebarItem::from_group(&new_lg_id));
        let ghost s1 = state@;
        assert(dup_keeps(s0, StateModel { effects: s0.effects.push(save_config_effect(s0.config)), ..s1 })) by {
            assert(s1.config.groups.take(s0.config.groups.len() as int) =~= s0.config.groups);
            assert(s0.effects.push(save_config_effect(s0.config)).take(s0.effects.len() as int) =~= s0.effects);
        }
        let mut k: usize = 0;
        while k < lists_to_duplicate.len()
            invariant
                k <= lists_to_duplicate.len(),
                state.wf(),
                state@ == (StateModel { effects: state@.effects, ..s1 }),
                state@.effects.len() >= s1.effects.len(),
                state@.effects.take(s1.effects.len() as int) == s1.effects,
                s1.config.groups.len() > s0.config.groups.len(),
                s1.config.groups[s0.config.groups.len() as int] == cm,
                s1.config.groups.take(s0.config.groups.len() as int) == s0.config.groups,
                s1.effects == s0.effects,
                s1.lists == s0.lists,
                s1.config.assignments == s0.config.assignments,
                s1.open_list == s0.open_list,
                s1.open_group == s0.open_group,
                forall|j: int|
                    0 <= j < k && crate::state::list_of(s0.lists, (#[trigger] lists_to_duplicate@[j])@) is Some
                        ==> state@.effects.contains(
                        EffectModel::DuplicateList { list: lists_to_duplicate@[j]@, target_parent: Some(new_lg_id@) },
                    ),
            decreases lists_to_duplicate.len() - k,
        {
            let l = &lists_to_duplicate[k];
            match find_list(&state.lists, l) {
                Some(_) => {
                    let ghost before = state@.effects;
                    state.dispatch(Effect::DuplicateList { list: l.clone(), target_parent: Some(new_lg_id.clone()) });
                    assert(state@.effects.take(s1.effects.len() as int) =~= before.take(s1.effects.len() as int));
                    assert(state@.effects[before.len() as int] == EffectModel::DuplicateList {
                        list: l@,
                        target_parent: Some(new_lg_id@),
                    });
                    assert forall|j: int|
                        0 <= j < k + 1 && crate::state::list_of(s0.lists, (#[trigger] lists_to_duplicate@[j])@) is Some
                            implies state@.effects.contains(
                            EffectModel::DuplicateList { list: lists_to_duplicate@[j]@, target_parent: Some(new_lg_id@) },
                        ) by {
                        if j < k {
                            let e = EffectModel::DuplicateList { list: lists_to_duplicate@[j]@, target_parent: Some(new_lg_id@) };
                            let x = choose|x: int| 0 <= x < before.len() && before[x] == e;
                            assert(state@.effects[x] == e);
                        }
                    }
                },
                None => {},
            }
            k = k + 1;
        }
        let ghost s_mid = state@;
        assert(s_mid.config.groups.last() == cm);
        let ghost own = (SidebarKey::ListGroup(lg_lnk@), SidebarKey::ListGroup(new_lg_id@));
        let ghost mut rest: Seq<(SidebarKey, SidebarKey)> = Seq::empty();
        proof {
            assert(seq![own] + rest =~= seq![own]);
            assert(seq![own].drop_last() =~= Seq::<(SidebarKey, SidebarKey)>::empty());
            assert(apply_steps(s0.config.order, Seq::<(SidebarKey, SidebarKey)>::empty()) == s0.config.order);
            assert(s_mid.config.order == s1.config.order);
            assert(s1.config.order == order_with_copy(s0.config.order, lg_lnk@, new_lg_id@));
            assert(apply_steps(s0.config.order, seq![own]) == insert_after_first(s0.config.order, own.0, own.1));
            assert(s_mid.config.order == apply_steps(s0.config.order, seq![own] + rest));
            assert forall|q: int| 0 <= q < sub_groups@.len() implies is_child_in(
                s1.config.groups,
                (#[trigger] sub_groups@[q])@,
                lg_lnk@,
            ) by {
                assert(crate::config::groups_view(gs_call) == s1.config.groups);
            }
        }
        if depth > 0 {
            let mut j: usize = 0;
            while j < sub_groups.len()
                invariant
                    j <= sub_groups.len(),
                    depth > 0,
                    state.wf(),
                    state@.lists == s0.lists,
                    state@.config.assignments == s0.config.assignments,
                    state@.open_list == s0.open_list,
                    state@.open_group == s0.open_group,
                    state@.config.groups.len() >= s1.config.groups.len(),
                    state@.config.groups.take(s1.config.groups.len() as int) == s1.config.groups,
                    state@.effects.len() >= s1.effects.len(),
                    state@.effects.take(s1.effects.len() as int) == s1.effects,
                    s1.config.groups.len() > s0.config.groups.len(),
                    s1.config.groups[s0.config.groups.len() as int] == cm,
                    s1.config.groups.take(s0.config.groups.len() as int) == s0.config.groups,
                    s1.effects == s0.effects,
                    state@.effects.len() >= s_mid.effects.len(),
                    state@.effects.take(s_mid.effects.len() as int) == s_mid.effects,
                    j == 0 ==> state@ == s_mid,
                    state@.config.order == apply_steps(s0.config.order, seq![own] + rest),
                    forall|q: int|
                        0 <= q < rest.len() ==> later_step(
                            state@.config.groups,
                            s0.config.groups.len() as int,
                            lg_lnk@,
                            depth as nat,
                            #[trigger] rest[q],
                        ),
                    forall|q: int| 0 <= q < sub_groups@.len() ==> is_child_in(s1.config.groups, (#[trigger] sub_groups@[q])@, lg_lnk@),
                    own == (SidebarKey::ListGroup(lg_lnk@), SidebarKey::ListGroup(new_lg_id@)),
                    state@.pending_sidebar_scroll == Some(SidebarKey::ListGroup(state@.config.groups.last().lnk)),
                    forall|x: SidebarKey| s1.config.order.contains(x) ==> #[trigger] state@.config.order.contains(x),
                    state@ == (StateModel {
                        config: ConfigModel { groups: state@.config.groups, order: state@.config.order, ..s0.config },
                        effects: state@.effects,
                        pending_sidebar_scroll: state@.pending_sidebar_scroll,
                        ..s0
                    }),
                    forall|m: int|
                        0 <= m < j && group_pos(s0.config.groups, (#[trigger] sub_groups@[m])@) >= 0 ==> exists|x: int|
                            s0.config.groups.len() < x < state@.config.groups.len() && state@.config.groups[x]
                                == copy_of(
                                group_of(s0.config.groups, sub_groups@[m]@),
                                state@.config.groups[x].lnk,
                                Some(new_lg_id@),
                            ),
                decreases sub_groups.len() - j,
            {
                let ghost before = state@;
                let sub = sub_groups[j].clone();
                let ghost subv = sub@;
                let sub_r = Self::duplicate_list_group_recursive(state, sub, Some(new_lg_id.clone()), depth - 1);
                proof {
                    let a = before.config.groups;
                    let b = state@.config.groups;
                    let n1 = s1.config.groups.len() as int;
                    if group_pos(a, subv) >= 0 {
                        let rest_c = choose|rc: Seq<(SidebarKey, SidebarKey)>|
                            state@.config.order == apply_steps(
                                before.config.order,
                                seq![(SidebarKey::ListGroup(subv), SidebarKey::ListGroup(sub_r@))] + rc,
                            ) && forall|q: int|
                                0 <= q < rc.len() ==> later_step(b, a.len() as int, subv, (depth - 1) as nat, #[trigger] rc[q]);
                        assert(is_child_in(s1.config.groups, sub_groups@[j as int]@, lg_lnk@));
                        let kc = choose|k: int|
                            0 <= k < s1.config.groups.len() && s1.config.groups[k].lnk == subv && s1.config.groups[k].parent
                                == Some(lg_lnk@);
                        assert(a[kc] == a.take(n1)[kc]);
                        assert(is_child_in(a, subv, lg_lnk@));
                        assert forall|k: int| 0 <= k < a.len() implies b[k] == a[k] by {
                            assert(b.take(a.len() as int)[k] == a[k]);
                        }
                        lemma_child_call_steps(
                            s0.config.order,
                            own,
                            rest,
                            a,
                            before.config.order,
                            b,
                            state@.config.order,
                            s0.config.groups.len() as int,
                            lg_lnk@,
                            subv,
                            sub_r@,
                            rest_c,
                            depth as nat,
                        );
                        rest = rest + (seq![(SidebarKey::ListGroup(subv), SidebarKey::ListGroup(sub_r@))] + rest_c);
                    }
                }
                proof {
                    let a = before.config.groups;
                    let b = state@.config.groups;
                    let n1 = s1.config.groups.len() as int;
                    if group_pos(a, sub_groups@[j as int]@) >= 0 {
                        assert(b.take(n1) =~= a.take(n1)) by {
                            assert forall|x: int| 0 <= x < n1 implies b[x] == a[x] by {
                                assert(b.take(a.len() as int)[x] == a[x]);
                            }
                        }
                        let e1 = s1.effects.len() as int;
                        assert(state@.effects.take(e1) =~= before.effects.take(e1)) by {
                            assert forall|x: int| 0 <= x < e1 implies state@.effects[x] == before.effects[x] by {
                                assert(state@.effects.take(before.effects.len() as int)[x] == before.effects[x]);
                            }
                        }
                        let em = s_mid.effects.len() as int;
                        assert(state@.effects.take(em) =~= before.effects.take(em)) by {
                            assert forall|x: int| 0 <= x < em implies state@.effects[x] == before.effects[x] by {
                                assert(state@.effects.take(before.effects.len() as int)[x] == before.effects[x]);
                            }
                        }
                    }
                    let n0 = s0.config.groups.len() as int;
                    assert forall|m: int|
                        0 <= m < j + 1 && group_pos(s0.config.groups, (#[trigger] sub_groups@[m])@) >= 0 implies exists|x: int|
                        n0 < x < b.len() && b[x] == copy_of(group_of(s0.config.groups, sub_groups@[m]@), b[x].lnk, Some(new_lg_id@)) by {
                        if m < j {
                            let x = choose|x: int|
                                n0 < x < a.len() && a[x] == copy_of(
                                    group_of(s0.config.groups, sub_groups@[m]@),
                                    a[x].lnk,
                                    Some(new_lg_id@),
                                );
                            if group_pos(a, sub_groups@[j as int]@) >= 0 {
                                assert(b.take(a.len() as int)[x] == a[x]);
                            }
                        } else {
                            assert(a.take(n0) =~= s0.config.groups) by {
                                assert forall|y: int| 0 <= y < n0 implies a[y] == s0.config.groups[y] by {
                                    assert(a.take(n1)[y] == s1.config.groups[y]);
                                    assert(s1.config.groups.take(n0)[y] == s0.config.groups[y]);
                                }
                            }
                            lemma_group_prefix(s0.config.groups, a, sub_groups@[m]@);
                            assert(b[a.len() as int] == copy_of(group_of(a, sub_groups@[m]@), b[a.len() as int].lnk, Some(new_lg_id@)));
                        }
                    }
                }
                j = j + 1;
            }
        }
        let ghost s2 = state@;
        state.save_config();
        proof {
            let a = s2.config.groups;
            let b = state@.config.groups;
            let n0 = s0.config.groups.len() as int;
            let n1 = s1.config.groups.len() as int;
            assert(b == a);
            assert(a[n0] == a.take(n1)[n0]);
            assert(a.take(n0) =~= a.take(n1).take(n0));
            let e0 = s0.effects.len() as int;
            assert(state@.effects.take(e0) =~= s2.effects.take(e0)) by {
                assert forall|x: int| 0 <= x < e0 implies state@.effects[x] == s2.effects[x] by {}
            }
            assert(s2.effects.take(e0) =~= s2.effects.take(e0).take(e0));
            assert forall|x: int| 0 <= x < e0 implies s2.effects[x] == s0.effects[x] by {
                assert(s2.effects.take(s1.effects.len() as int)[x] == s1.effects[x]);
            }
            assert(state@.effects.take(e0) =~= s0.effects);
            assert(cm == copy_of(group_of(s0.config.groups, lg_lnk@), new_lg_id@, opt_group_view(new_parent_id)));
            assert forall|q: int|
                0 <= q < s0.config.assignments.len() && (#[trigger] s0.config.assignments[q]).1 == lg_lnk@
                    && crate::state::list_of(s0.lists, s0.config.assignments[q].0) is Some implies state@.effects.contains(
                EffectModel::DuplicateList { list: s0.config.assignments[q].0, target_parent: Some(new_lg_id@) },
            ) by {
                let e = EffectModel::DuplicateList { list: s0.config.assignments[q].0, target_parent: Some(new_lg_id@) };
                assert(s0.config.assignments[q] == (
                    s0_assign@[q].0@,
                    s0_assign@[q].1@,
                ));
                assert(s0_assign@[q].1@ == lg_lnk@);
                let jj = choose|jj: int| 0 <= jj < lists_to_duplicate@.len() && lists_to_duplicate@[jj]@ == s0_assign@[q].0@;
                assert(crate::state::list_of(s0.lists, (lists_to_duplicate@[jj])@) is Some);
                assert(s_mid.effects.contains(e));
                let x = choose|x: int| 0 <= x < s_mid.effects.len() && s_mid.effects[x] == e;
                assert(s2.effects.take(s_mid.effects.len() as int)[x] == e);
                assert(state@.effects[x] == e);
            }
            if depth == 0 || (has_no_child(s0.config.groups, lg_lnk@) && opt_group_view(new_parent_id) != Some(lg_lnk@)) {
                if depth > 0 {
                    assert forall|k: int| 0 <= k < gs_call.len() implies (#[trigger] gs_call[k])@.parent != Some(lg_lnk@) by {
                        if k < s0.config.groups.len() {
                            assert(gs_call[k]@ == s0.config.groups[k]);
                        } else {
                            assert(gs_call[k]@ == cm);
                        }
                    }
                    assert(sub_groups@.len() == 0);
                }
                assert(s2 == s_mid);
                assert(b == s1.config.groups);
            }
            if depth > 0 {
                let gs = s0.config.groups;
                assert forall|k: int| 0 <= k < gs.len() && (#[trigger] gs[k]).parent == Some(lg_lnk@) implies exists|x: int|
                    gs.len() < x < b.len() && b[x] == copy_of(group_of(gs, gs[k].lnk), b[x].lnk, Some(new_lg_id@)) by {
                    assert(gs_call[k]@ == gs[k]);
                    let jj = choose|jj: int| 0 <= jj < sub_groups@.len() && sub_groups@[jj]@ == gs_call[k]@.lnk;
                    lemma_group_present(gs, k);
                    assert(group_pos(s0.config.groups, (sub_groups@[jj])@) >= 0);
                }
            }
        }
        new_lg_id
    }
}
} // verus!
