use vstd::prelude::*;
use crate::game::{GameVersion, GameVersionModel};
use crate::lnk::{ListGroupLnk, ListLnk, SidebarItem, SidebarKey};
use crate::seqs::{any, first_idx, is_first, keep, lemma_first_idx, lemma_is_first_unique, lemma_none_first};

verus! {

/// The abstract value of the settings of an instance group.
#[verifier::ext_equal]
pub struct InstanceModel {
    pub download_directory: Seq<char>,
    pub game_version: GameVersionModel,
}

/// The game directory and version that the lists of an instance group use.
#[derive(Debug)]
pub struct InstanceSettings {
    pub download_directory: String,
    pub game_version: GameVersion,
}

impl View for InstanceSettings {
    type V = InstanceModel;

    open spec fn view(&self) -> InstanceModel {
        InstanceModel { download_directory: self.download_directory@, game_version: self.game_version@ }
    }
}

impl Clone for InstanceSettings {
    fn clone(&self) -> (r: Self)
        ensures
            r@ == self@,
    {
        InstanceSettings {
            download_directory: self.download_directory.clone(),
            game_version: self.game_version.clone(),
        }
    }
}

pub open spec fn opt_instance_view(o: Option<InstanceSettings>) -> Option<InstanceModel> {
    match o {
        Some(s) => Some(s@),
        None => None,
    }
}

pub open spec fn opt_group_view(o: Option<ListGroupLnk>) -> Option<Seq<char>> {
    match o {
        Some(g) => Some(g@),
        None => None,
    }
}

pub open spec fn opt_list_view(o: Option<ListLnk>) -> Option<Seq<char>> {
    match o {
        Some(l) => Some(l@),
        None => None,
    }
}

pub open spec fn opt_item_view(o: Option<SidebarItem>) -> Option<SidebarKey> {
    match o {
        Some(i) => Some(i@),
        None => None,
    }
}

pub fn clone_opt_group(o: &Option<ListGroupLnk>) -> (r: Option<ListGroupLnk>)
    ensures
        opt_group_view(r) == opt_group_view(*o),
{
    match o {
        Some(g) => Some(g.clone()),
        None => None,
    }
}

pub fn clone_opt_instance(o: &Option<InstanceSettings>) -> (r: Option<InstanceSettings>)
    ensures
        opt_instance_view(r) == opt_instance_view(*o),
{
    match o {
        Some(s) => Some(s.clone()),
        None => None,
    }
}

/// The abstract value of a list group.
#[verifier::ext_equal]
pub struct GroupModel {
    pub lnk: Seq<char>,
    pub name: Seq<char>,
    pub collapsed: bool,
    pub parent: Option<Seq<char>>,
    pub is_instance: bool,
    pub instance: Option<InstanceModel>,
}

/// A group of lists in the sidebar; groups nest through their parent.
#[derive(Debug)]
pub struct ListGroup {
    pub lnk: ListGroupLnk,
    pub name: String,
    pub collapsed: bool,
    pub parent_id: Option<ListGroupLnk>,
    pub is_instance: bool,
    pub instance_settings: Option<InstanceSettings>,
}

impl View for ListGroup {
    type V = GroupModel;

    open spec fn view(&self) -> GroupModel {
        GroupModel {
            lnk: self.lnk@,
            name: self.name@,
            collapsed: self.collapsed,
            parent: opt_group_view(self.parent_id),
            is_instance: self.is_instance,
            instance: opt_instance_view(self.instance_settings),
        }
    }
}

impl Clone for ListGroup {
    fn clone(&self) -> (r: Self)
        ensures
            r@ == self@,
    {
        ListGroup {
            lnk: self.lnk.clone(),
            name: self.name.clone(),
            collapsed: self.collapsed,
            parent_id: clone_opt_group(&self.parent_id),
            is_instance: self.is_instance,
            instance_settings: clone_opt_instance(&self.instance_settings),
        }
    }
}

/// The abstract value of a folder.
#[verifier::ext_equal]
pub struct FolderModel {
    pub id: Seq<char>,
    pub name: Seq<char>,
    pub collapsed: bool,
}

/// A folder of the sidebar.
#[derive(Debug)]
pub struct Folder {
    pub id: String,
    pub name: String,
    pub collapsed: bool,
}

impl Clone for Folder {
    fn clone(&self) -> (r: Self)
        ensures
            r@ == self@,
    {
        Folder { id: self.id.clone(), name: self.name.clone(), collapsed: self.collapsed }
    }
}

impl View for Folder {
    type V = FolderModel;

    open spec fn view(&self) -> FolderModel {
        FolderModel { id: self.id@, name: self.name@, collapsed: self.collapsed }
    }
}

/// The abstract value of the application settings.
#[verifier::ext_equal]
pub struct ConfigModel {
    pub default_list_name: Seq<char>,
    pub last_open_list: Option<Seq<char>>,
    pub last_open_item: Option<SidebarKey>,
    pub groups: Seq<GroupModel>,
    pub assignments: Seq<(Seq<char>, Seq<char>)>,
    pub order: Seq<SidebarKey>,
    pub folders: Seq<FolderModel>,
    pub folder_order: Seq<Seq<char>>,
    pub folder_assignments: Seq<(Seq<char>, Seq<char>)>,
}

/// The application settings: the sidebar layout (groups, which group each list is in,
/// the order of entries, folders) and the last opened list.
#[derive(Debug)]
pub struct AppConfig {
    pub default_list_name: String,
    pub last_open_list_id: Option<ListLnk>,
    pub last_open_item: Option<SidebarItem>,
    pub list_groups: Vec<ListGroup>,
    /// Which group each list is in (one entry per list).
    pub list_group_assignments: Vec<(ListLnk, ListGroupLnk)>,
    pub sidebar_ui_order: Vec<SidebarItem>,
    pub folders: Vec<Folder>,
    pub folder_order: Vec<String>,
    /// Which folder each list is in (one entry per list).
    pub folder_assignments: Vec<(String, String)>,
}

pub open spec fn groups_view(v: Seq<ListGroup>) -> Seq<GroupModel> {
    v.map_values(|g: ListGroup| g@)
}

pub open spec fn assignments_view(v: Seq<(ListLnk, ListGroupLnk)>) -> Seq<(Seq<char>, Seq<char>)> {
    v.map_values(|e: (ListLnk, ListGroupLnk)| (e.0@, e.1@))
}

pub open spec fn items_view(v: Seq<SidebarItem>) -> Seq<SidebarKey> {
    v.map_values(|i: SidebarItem| i@)
}

pub open spec fn folders_view(v: Seq<Folder>) -> Seq<FolderModel> {
    v.map_values(|f: Folder| f@)
}

pub open spec fn strings_view(v: Seq<String>) -> Seq<Seq<char>> {
    v.map_values(|s: String| s@)
}

pub open spec fn pairs_view(v: Seq<(String, String)>) -> Seq<(Seq<char>, Seq<char>)> {
    v.map_values(|e: (String, String)| (e.0@, e.1@))
}

impl View for AppConfig {
    type V = ConfigModel;

    open spec fn view(&self) -> ConfigModel {
        ConfigModel {
            default_list_name: self.default_list_name@,
            last_open_list: opt_list_view(self.last_open_list_id),
            last_open_item: opt_item_view(self.last_open_item),
            groups: groups_view(self.list_groups@),
            assignments: assignments_view(self.list_group_assignments@),
            order: items_view(self.sidebar_ui_order@),
            folders: folders_view(self.folders@),
            folder_order: strings_view(self.folder_order@),
            folder_assignments: pairs_view(self.folder_assignments@),
        }
    }
}

/// Each list appears at most once in a table of assignments.
pub open spec fn unique_keys(a: Seq<(Seq<char>, Seq<char>)>) -> bool {
    forall|i: int, j: int| 0 <= i < a.len() && 0 <= j < a.len() && i != j ==> a[i].0 != a[j].0
}

impl AppConfig {
    /// The tables of assignments hold one entry per list.
    pub open spec fn wf(&self) -> bool {
        &&& unique_keys(self@.assignments)
        &&& unique_keys(self@.folder_assignments)
    }
}

/// The settings of a fresh installation.
pub open spec fn default_config_model() -> ConfigModel {
    ConfigModel {
        default_list_name: "New List"@,
        last_open_list: None,
        last_open_item: None,
        groups: Seq::empty(),
        assignments: Seq::empty(),
        order: Seq::empty(),
        folders: Seq::empty(),
        folder_order: Seq::empty(),
        folder_assignments: Seq::empty(),
    }
}

/// The name new lists get unless the user picks another: "New List".
pub fn default_list_name() -> (r: String)
    ensures
        r@ == "New List"@,
{
    crate::text::owned("New List")
}

impl Default for AppConfig {
    fn default() -> (r: Self)
        ensures
            r@ == default_config_model(),
            r.wf(),
    {
        let r = AppConfig {
            default_list_name: default_list_name(),
            last_open_list_id: None,
            last_open_item: None,
            list_groups: Vec::new(),
            list_group_assignments: Vec::new(),
            sidebar_ui_order: Vec::new(),
            folders: Vec::new(),
            folder_order: Vec::new(),
            folder_assignments: Vec::new(),
        };
        assert(r@ =~= default_config_model());
        r
    }
}

/// A copy of a table of group assignments.
pub fn clone_assignments(v: &Vec<(ListLnk, ListGroupLnk)>) -> (r: Vec<(ListLnk, ListGroupLnk)>)
    ensures
        assignments_view(r@) == assignments_view(v@),
{
    let mut r: Vec<(ListLnk, ListGroupLnk)> = Vec::new();
    let mut i: usize = 0;
    while i < v.len()
        invariant
            i <= v.len(),
            assignments_view(r@) == assignments_view(v@).take(i as int),
        decreases v.len() - i,
    {
        r.push((v[i].0.clone(), v[i].1.clone()));
        assert(assignments_view(v@).take(i + 1) =~= assignments_view(v@).take(i as int).push(
            assignments_view(v@)[i as int],
        ));
        assert(assignments_view(r@) =~= assignments_view(v@).take(i + 1));
        i = i + 1;
    }
    assert(assignments_view(v@).take(v.len() as int) =~= assignments_view(v@));
    r
}

/// A copy of a table of string pairs.
pub fn clone_pairs(v: &Vec<(String, String)>) -> (r: Vec<(String, String)>)
    ensures
        pairs_view(r@) == pairs_view(v@),
{
    let mut r: Vec<(String, String)> = Vec::new();
    let mut i: usize = 0;
    while i < v.len()
        invariant
            i <= v.len(),
            pairs_view(r@) == pairs_view(v@).take(i as int),
        decreases v.len() - i,
    {
        r.push((v[i].0.clone(), v[i].1.clone()));
        assert(pairs_view(v@).take(i + 1) =~= pairs_view(v@).take(i as int).push(pairs_view(v@)[i as int]));
        assert(pairs_view(r@) =~= pairs_view(v@).take(i + 1));
        i = i + 1;
    }
    assert(pairs_view(v@).take(v.len() as int) =~= pairs_view(v@));
    r
}

impl Clone for AppConfig {
    fn clone(&self) -> (r: Self)
        ensures
            r@ == self@,
    {
        let list_groups = self.list_groups.clone();
        let list_group_assignments = clone_assignments(&self.list_group_assignments);
        let sidebar_ui_order = self.sidebar_ui_order.clone();
        let folders = self.folders.clone();
        let folder_order = self.folder_order.clone();
        let folder_assignments = clone_pairs(&self.folder_assignments);
        let r = AppConfig {
            default_list_name: self.default_list_name.clone(),
            last_open_list_id: match &self.last_open_list_id {
                Some(l) => Some(l.clone()),
                None => None,
            },
            last_open_item: match &self.last_open_item {
                Some(i) => Some(i.clone()),
                None => None,
            },
            list_groups,
            list_group_assignments,
            sidebar_ui_order,
            folders,
            folder_order,
            folder_assignments,
        };
        assert(r@.groups =~= self@.groups);
        assert(r@.assignments =~= self@.assignments);
        assert(r@.order =~= self@.order);
        assert(r@.folders =~= self@.folders);
        assert(r@.folder_order =~= self@.folder_order);
        assert(r@.folder_assignments =~= self@.folder_assignments);
        r
    }
}

// ---- lookups ----

/// Selects the group with the given link.
pub open spec fn group_is(g: Seq<char>) -> spec_fn(GroupModel) -> bool {
    |x: GroupModel| x.lnk == g
}

/// The position of the first group with the given link (-1 when absent).
pub open spec fn group_pos(gs: Seq<GroupModel>, g: Seq<char>) -> int {
    first_idx(gs, group_is(g))
}

/// Selects the entry of the given key.
pub open spec fn key_is(k: Seq<char>) -> spec_fn((Seq<char>, Seq<char>)) -> bool {
    |e: (Seq<char>, Seq<char>)| e.0 == k
}

/// The value assigned to a key.
pub open spec fn assigned(a: Seq<(Seq<char>, Seq<char>)>, k: Seq<char>) -> Option<Seq<char>> {
    let i = first_idx(a, key_is(k));
    if i >= 0 {
        Some(a[i].1)
    } else {
        None
    }
}

/// A table with `k` assigned to `v` (replacing an earlier assignment of `k`).
pub open spec fn assign(a: Seq<(Seq<char>, Seq<char>)>, k: Seq<char>, v: Seq<char>) -> Seq<(Seq<char>, Seq<char>)> {
    let i = first_idx(a, key_is(k));
    if i >= 0 {
        a.update(i, (k, v))
    } else {
        a.push((k, v))
    }
}

/// A table without an assignment for `k`.
pub open spec fn unassign(a: Seq<(Seq<char>, Seq<char>)>, k: Seq<char>) -> Seq<(Seq<char>, Seq<char>)> {
    let i = first_idx(a, key_is(k));
    if i >= 0 {
        a.remove(i)
    } else {
        a
    }
}

/// The parent of the first group with the given link (None when the group is absent or top-level).
pub open spec fn group_parent(gs: Seq<GroupModel>, g: Seq<char>) -> Option<Seq<char>> {
    let i = group_pos(gs, g);
    if i >= 0 {
        gs[i].parent
    } else {
        None
    }
}

/// Finds the first group with the given link.
pub fn find_group(groups: &Vec<ListGroup>, g: &ListGroupLnk) -> (r: Option<usize>)
    ensures
        match r {
            Some(i) => {
                &&& group_pos(groups_view(groups@), g@) == i as int
                &&& i < groups@.len()
                &&& groups@[i as int]@.lnk == g@
                &&& is_first(groups_view(groups@), group_is(g@), i as int)
            },
            None => group_pos(groups_view(groups@), g@) == -1 && !any(groups_view(groups@), group_is(g@)),
        },
{
    let ghost gs = groups_view(groups@);
    let mut i: usize = 0;
    while i < groups.len()
        invariant
            gs == groups_view(groups@),
            i <= groups.len(),
            forall|j: int| 0 <= j < i ==> !group_is(g@)(gs[j]),
        decreases groups.len() - i,
    {
        if groups[i].lnk == *g {
            assert(is_first(gs, group_is(g@), i as int));
            proof {
                lemma_is_first_unique(gs, group_is(g@), i as int);
            }
            return Some(i);
        }
        i = i + 1;
    }
    proof {
        lemma_none_first(gs, group_is(g@));
    }
    None
}

/// Finds the assignment of a list.
pub fn find_assignment(a: &Vec<(ListLnk, ListGroupLnk)>, l: &ListLnk) -> (r: Option<usize>)
    ensures
        match r {
            Some(i) => {
                &&& first_idx(assignments_view(a@), key_is(l@)) == i as int
                &&& i < a@.len()
                &&& a@[i as int].0@ == l@
            },
            None => first_idx(assignments_view(a@), key_is(l@)) == -1 && !any(assignments_view(a@), key_is(l@)),
        },
{
    let ghost av = assignments_view(a@);
    let mut i: usize = 0;
    while i < a.len()
        invariant
            av == assignments_view(a@),
            i <= a.len(),
            forall|j: int| 0 <= j < i ==> !key_is(l@)(av[j]),
        decreases a.len() - i,
    {
        if a[i].0 == *l {
            assert(is_first(av, key_is(l@), i as int));
            proof {
                lemma_is_first_unique(av, key_is(l@), i as int);
            }
            return Some(i);
        }
        i = i + 1;
    }
    proof {
        lemma_none_first(av, key_is(l@));
    }
    None
}

impl AppConfig {
    /// The group a list is in.
    pub fn group_of_list(&self, l: &ListLnk) -> (r: Option<ListGroupLnk>)
        ensures
            opt_group_view(r) == assigned(self@.assignments, l@),
    {
        match find_assignment(&self.list_group_assignments, l) {
            Some(i) => {
                let r = self.list_group_assignments[i].1.clone();
                assert(self@.assignments[i as int].1 == self.list_group_assignments@[i as int].1@);
                Some(r)
            },
            None => None,
        }
    }

    /// Puts a list into a group (replacing its earlier group).
    pub fn assign_list(&mut self, l: ListLnk, g: ListGroupLnk)
        requires
            old(self).wf(),
        ensures
            final(self).wf(),
            final(self)@ == (ConfigModel { assignments: assign(old(self)@.assignments, l@, g@), ..old(self)@ }),
    {
        let ghost a0 = self@.assignments;
        match find_assignment(&self.list_group_assignments, &l) {
            Some(i) => {
                let ghost lv = l@;
                let ghost gv = g@;
                assert(first_idx(a0, key_is(lv)) == i as int);
                self.list_group_assignments.set(i, (l, g));
                assert forall|j: int| 0 <= j < a0.len() implies #[trigger] self@.assignments[j] == (if j == i {
                    (lv, gv)
                } else {
                    a0[j]
                }) by {}
                assert(self@.assignments =~= a0.update(i as int, (lv, gv)));
                assert(self@.assignments =~= assign(a0, lv, gv));
                assert(unique_keys(self@.assignments)) by {
                    let a = self@.assignments;
                    assert forall|x: int, y: int| 0 <= x < a.len() && 0 <= y < a.len() && x != y implies a[x].0
                        != a[y].0 by {
                        if x != i && y != i {
                            assert(a[x] == a0[x]);
                            assert(a[y] == a0[y]);
                        } else if x == i {
                            assert(a0[x as int].0 == a[x].0);
                            assert(a[y] == a0[y]);
                        } else {
                            assert(a0[y as int].0 == a[y].0);
                            assert(a[x] == a0[x]);
                        }
                    }
                }
            },
            None => {
                self.list_group_assignments.push((l, g));
                assert(self@.assignments =~= assign(a0, l@, g@));
                assert(unique_keys(self@.assignments)) by {
                    let a = self@.assignments;
                    assert forall|x: int, y: int| 0 <= x < a.len() && 0 <= y < a.len() && x != y implies a[x].0
                        != a[y].0 by {
                        if x == a0.len() {
                            assert(!key_is(l@)(a0[y]));
                        } else if y == a0.len() {
                            assert(!key_is(l@)(a0[x]));
                        } else {
                            assert(a[x] == a0[x]);
                            assert(a[y] == a0[y]);
                        }
                    }
                }
            },
        }
    }

    /// Takes a list out of its group.
    pub fn unassign_list(&mut self, l: &ListLnk)
        requires
            old(self).wf(),
        ensures
            final(self).wf(),
            final(self)@ == (ConfigModel { assignments: unassign(old(self)@.assignments, l@), ..old(self)@ }),
    {
        let ghost a0 = self@.assignments;
        match find_assignment(&self.list_group_assignments, l) {
            Some(i) => {
                self.list_group_assignments.remove(i);
                assert(self@.assignments =~= a0.remove(i as int));
                assert(unique_keys(self@.assignments)) by {
                    let a = self@.assignments;
                    assert forall|x: int, y: int| 0 <= x < a.len() && 0 <= y < a.len() && x != y implies a[x].0
                        != a[y].0 by {
                        let x2 = if x < i { x } else { x + 1 };
                        let y2 = if y < i { y } else { y + 1 };
                        assert(a[x] == a0[x2]);
                        assert(a[y] == a0[y2]);
                    }
                }
            },
            None => {},
        }
    }
}


/// The group that new entries go into: the open group, or else the group of the open list.
pub open spec fn context_group(
    open_group: Option<Seq<char>>,
    open_list: Option<Seq<char>>,
    c: ConfigModel,
) -> Option<Seq<char>> {
    match open_group {
        Some(g) => Some(g),
        None => match open_list {
            Some(l) => assigned(c.assignments, l),
            None => None,
        },
    }
}

/// A sidebar entry is a direct child of group `g`: a list assigned to it, or a group
/// whose parent it is.
pub open spec fn is_child_of(c: ConfigModel, k: SidebarKey, g: Seq<char>) -> bool {
    match k {
        SidebarKey::List(l) => assigned(c.assignments, l) == Some(g),
        SidebarKey::ListGroup(x) => group_parent(c.groups, x) == Some(g),
    }
}

pub open spec fn child_of(c: ConfigModel, g: Seq<char>) -> spec_fn(SidebarKey) -> bool {
    |k: SidebarKey| is_child_of(c, k, g)
}

pub open spec fn key_eq(k: SidebarKey) -> spec_fn(SidebarKey) -> bool {
    |x: SidebarKey| x == k
}

/// The groups with the first group of link `x` given the parent `g` (unchanged when absent).
pub open spec fn reparent(gs: Seq<GroupModel>, x: Seq<char>, g: Option<Seq<char>>) -> Seq<GroupModel> {
    let i = group_pos(gs, x);
    if i >= 0 {
        gs.update(i, GroupModel { parent: g, ..gs[i] })
    } else {
        gs
    }
}

/// The settings with an entry put into group `g`.
pub open spec fn attach(c: ConfigModel, k: SidebarKey, g: Seq<char>) -> ConfigModel {
    match k {
        SidebarKey::List(l) => ConfigModel { assignments: assign(c.assignments, l, g), ..c },
        SidebarKey::ListGroup(x) => ConfigModel { groups: reparent(c.groups, x, Some(g)), ..c },
    }
}

/// Where a new entry goes in the order: before the first child of its group, else just
/// after the group itself, else at the top.
pub open spec fn placement(c: ConfigModel, g: Option<Seq<char>>) -> int {
    match g {
        None => 0,
        Some(g) => {
            let p = first_idx(c.order, child_of(c, g));
            if p >= 0 {
                p
            } else {
                let q = first_idx(c.order, key_eq(SidebarKey::ListGroup(g)));
                if q >= 0 {
                    q + 1
                } else {
                    0
                }
            }
        },
    }
}

/// The settings after a new entry is put into the sidebar, in group `g` when there is one.
pub open spec fn with_item(c: ConfigModel, k: SidebarKey, g: Option<Seq<char>>) -> ConfigModel {
    let c2 = match g {
        Some(g) => attach(c, k, g),
        None => c,
    };
    ConfigModel { order: c2.order.insert(placement(c2, g), k), ..c2 }
}

impl AppConfig {
    /// The parent of the first group with the given link.
    pub fn parent_of_group(&self, g: &ListGroupLnk) -> (r: Option<ListGroupLnk>)
        ensures
            opt_group_view(r) == group_parent(self@.groups, g@),
    {
        match find_group(&self.list_groups, g) {
            Some(i) => clone_opt_group(&self.list_groups[i].parent_id),
            None => None,
        }
    }

    /// Whether a sidebar entry is a direct child of a group.
    pub fn is_child(&self, item: &SidebarItem, g: &ListGroupLnk) -> (r: bool)
        ensures
            r == is_child_of(self@, item@, g@),
    {
        match item {
            SidebarItem::List(l) => match self.group_of_list(l) {
                Some(x) => x == *g,
                None => false,
            },
            SidebarItem::ListGroup(x) => match self.parent_of_group(x) {
                Some(p) => p == *g,
                None => false,
            },
        }
    }

    /// Gives the first group with link `x` a new parent (nothing when there is no such group).
    pub fn set_parent_of(&mut self, x: &ListGroupLnk, parent: Option<ListGroupLnk>)
        ensures
            final(self)@ == (ConfigModel {
                groups: reparent(old(self)@.groups, x@, opt_group_view(parent)),
                ..old(self)@
            }),
    {
        match find_group(&self.list_groups, x) {
            Some(i) => {
                self.list_groups[i].parent_id = parent;
                assert(self@.groups =~= reparent(old(self)@.groups, x@, opt_group_view(parent)));
            },
            None => {},
        }
    }

    /// The position of the first entry of the order that is a child of the group.
    pub fn first_child_pos(&self, g: &ListGroupLnk) -> (r: Option<usize>)
        ensures
            match r {
                Some(i) => first_idx(self@.order, child_of(self@, g@)) == i as int,
                None => first_idx(self@.order, child_of(self@, g@)) == -1,
            },
    {
        let ghost o = self@.order;
        let mut i: usize = 0;
        while i < self.sidebar_ui_order.len()
            invariant
                o == self@.order,
                i <= self.sidebar_ui_order.len(),
                forall|j: int| 0 <= j < i ==> !child_of(self@, g@)(o[j]),
            decreases self.sidebar_ui_order.len() - i,
        {
            if self.is_child(&self.sidebar_ui_order[i], g) {
                assert(o[i as int] == self.sidebar_ui_order@[i as int]@);
                assert(is_first(o, child_of(self@, g@), i as int));
                proof {
                    lemma_is_first_unique(o, child_of(self@, g@), i as int);
                }
                return Some(i);
            }
            assert(o[i as int] == self.sidebar_ui_order@[i as int]@);
            i = i + 1;
        }
        proof {
            lemma_none_first(o, child_of(self@, g@));
        }
        None
    }

    /// The position of an entry in the order.
    pub fn item_pos(&self, item: &SidebarItem) -> (r: Option<usize>)
        ensures
            match r {
                Some(i) => first_idx(self@.order, key_eq(item@)) == i as int,
                None => first_idx(self@.order, key_eq(item@)) == -1,
            },
    {
        let ghost o = self@.order;
        let mut i: usize = 0;
        while i < self.sidebar_ui_order.len()
            invariant
                o == self@.order,
                i <= self.sidebar_ui_order.len(),
                forall|j: int| 0 <= j < i ==> !key_eq(item@)(o[j]),
            decreases self.sidebar_ui_order.len() - i,
        {
            assert(o[i as int] == self.sidebar_ui_order@[i as int]@);
            if self.sidebar_ui_order[i] == *item {
                assert(is_first(o, key_eq(item@), i as int));
                proof {
                    lemma_is_first_unique(o, key_eq(item@), i as int);
                }
                return Some(i);
            }
            i = i + 1;
        }
        proof {
            lemma_none_first(o, key_eq(item@));
        }
        None
    }

    /// Inserts an entry into the order at a position.
    pub fn insert_item_at(&mut self, pos: usize, item: SidebarItem)
        requires
            pos <= old(self)@.order.len(),
        ensures
            final(self)@ == (ConfigModel { order: old(self)@.order.insert(pos as int, item@), ..old(self)@ }),
    {
        let ghost k = item@;
        self.sidebar_ui_order.insert(pos, item);
        assert(self@.order =~= old(self)@.order.insert(pos as int, k));
    }

    /// Puts a new entry into the sidebar: into group `context` when there is one (before
    /// the group's first child, else right after the group), else at the top.
    pub fn insert_item(&mut self, item: SidebarItem, context: Option<ListGroupLnk>)
        requires
            old(self).wf(),
        ensures
            final(self).wf(),
            final(self)@ == with_item(old(self)@, item@, opt_group_view(context)),
    {
        let ghost c0 = self@;
        let ghost k = item@;
        match context {
            Some(g) => {
                match &item {
                    SidebarItem::List(l) => {
                        let l2 = l.clone();
                        self.assign_list(l2, g.clone());
                    },
                    SidebarItem::ListGroup(x) => {
                        self.set_parent_of(x, Some(g.clone()));
                    },
                }
                assert(self@ =~= attach(c0, k, g@));
                let ghost c2 = self@;
                match self.first_child_pos(&g) {
                    Some(p) => {
                        proof {
                            crate::seqs::lemma_first_idx(c2.order, child_of(c2, g@));
                        }
                        self.insert_item_at(p, item);
                    },
                    None => {
                        let gi = SidebarItem::ListGroup(g);
                        match self.item_pos(&gi) {
                            Some(q) => {
                                proof {
                                    crate::seqs::lemma_first_idx(c2.order, key_eq(gi@));
                                }
                                let n = self.sidebar_ui_order.len();
                                assert(q < n);
                                self.insert_item_at(q + 1, item);
                            },
                            None => {
                                self.insert_item_at(0, item);
                            },
                        }
                    },
                }
            },
            None => {
                self.insert_item_at(0, item);
            },
        }
        assert(self@ =~= with_item(c0, k, opt_group_view(context)));
    }
}

/// Selects the entries other than `k`.
pub open spec fn not_key(k: SidebarKey) -> spec_fn(SidebarKey) -> bool {
    |x: SidebarKey| x != k
}

/// Selects the groups whose link is not `g`.
pub open spec fn not_group(g: Seq<char>) -> spec_fn(GroupModel) -> bool {
    |x: GroupModel| x.lnk != g
}

/// Selects the assignments to a group other than `g`.
pub open spec fn not_assigned_to(g: Seq<char>) -> spec_fn((Seq<char>, Seq<char>)) -> bool {
    |e: (Seq<char>, Seq<char>)| e.1 != g
}

/// The settings without a list: out of the order and out of its group.
pub open spec fn without_list(c: ConfigModel, l: Seq<char>) -> ConfigModel {
    ConfigModel {
        order: keep(c.order, not_key(SidebarKey::List(l))),
        assignments: unassign(c.assignments, l),
        ..c
    }
}

/// The groups with the children of `g` moved to parent `p`.
pub open spec fn lift_children(gs: Seq<GroupModel>, g: Seq<char>, p: Option<Seq<char>>) -> Seq<GroupModel> {
    gs.map_values(|x: GroupModel| if x.parent == Some(g) { GroupModel { parent: p, ..x } } else { x })
}

/// The assignments with the lists of `g` moved to `p`, or taken out of any group when
/// `p` is none.
pub open spec fn move_assignments(
    a: Seq<(Seq<char>, Seq<char>)>,
    g: Seq<char>,
    p: Option<Seq<char>>,
) -> Seq<(Seq<char>, Seq<char>)> {
    match p {
        Some(t) => a.map_values(|e: (Seq<char>, Seq<char>)| if e.1 == g { (e.0, t) } else { e }),
        None => keep(a, not_assigned_to(g)),
    }
}

/// The settings without group `g`: its child groups and its lists go to its parent,
/// and it leaves the groups and the order.
pub open spec fn without_group(c: ConfigModel, g: Seq<char>) -> ConfigModel {
    let p = group_parent(c.groups, g);
    ConfigModel {
        groups: keep(lift_children(c.groups, g, p), not_group(g)),
        assignments: move_assignments(c.assignments, g, p),
        order: keep(c.order, not_key(SidebarKey::ListGroup(g))),
        ..c
    }
}

/// The settings with the last opened entry forgotten when it is `k`.
pub open spec fn forget_item(c: ConfigModel, k: SidebarKey) -> ConfigModel {
    if c.last_open_item == Some(k) {
        ConfigModel { last_open_item: None, ..c }
    } else {
        c
    }
}

impl AppConfig {
    /// Takes the entries equal to `k` out of the order.
    pub fn remove_from_order(&mut self, k: &SidebarItem)
        ensures
            final(self)@ == (ConfigModel { order: keep(old(self)@.order, not_key(k@)), ..old(self)@ }),
    {
        let ghost o = self@.order;
        let mut out: Vec<SidebarItem> = Vec::new();
        let mut i: usize = 0;
        while i < self.sidebar_ui_order.len()
            invariant
                i <= self.sidebar_ui_order.len(),
                o == items_view(self.sidebar_ui_order@),
                items_view(out@) == keep(o.take(i as int), not_key(k@)),
            decreases self.sidebar_ui_order.len() - i,
        {
            proof {
                crate::seqs::lemma_keep_step(o, not_key(k@), i as int);
            }
            assert(o[i as int] == self.sidebar_ui_order@[i as int]@);
            if !(self.sidebar_ui_order[i] == *k) {
                let x = self.sidebar_ui_order[i].clone();
                out.push(x);
                assert(items_view(out@) =~= keep(o.take(i as int), not_key(k@)).push(o[i as int]));
            }
            i = i + 1;
        }
        assert(o.take(o.len() as int) =~= o);
        self.sidebar_ui_order = out;
        assert(self@ =~= (ConfigModel { order: keep(o, not_key(k@)), ..old(self)@ }));
    }

    /// Forgets the last opened entry when it is `k`.
    pub fn forget_last_open_item(&mut self, k: &SidebarItem) -> (r: bool)
        ensures
            final(self)@ == forget_item(old(self)@, k@),
            r == (old(self)@.last_open_item == Some(k@)),
    {
        let same = match &self.last_open_item {
            Some(i) => *i == *k,
            None => false,
        };
        if same {
            self.last_open_item = None;
        }
        assert(self@ =~= forget_item(old(self)@, k@));
        same
    }

    /// Takes a list out of the sidebar: out of the order and out of its group.
    pub fn remove_list_entries(&mut self, l: &ListLnk)
        requires
            old(self).wf(),
        ensures
            final(self).wf(),
            final(self)@ == without_list(old(self)@, l@),
    {
        let k = SidebarItem::List(l.clone());
        self.remove_from_order(&k);
        self.unassign_list(l);
        assert(self@ =~= without_list(old(self)@, l@));
    }

    /// Moves the children of group `g` (groups whose parent it is) to parent `p`.
    pub fn lift_child_groups(&mut self, g: &ListGroupLnk, p: &Option<ListGroupLnk>)
        ensures
            final(self)@ == (ConfigModel { groups: lift_children(old(self)@.groups, g@, opt_group_view(*p)), ..old(self)@ }),
    {
        let ghost gs = self@.groups;
        let mut i: usize = 0;
        while i < self.list_groups.len()
            invariant
                i <= self.list_groups.len(),
                self.list_groups@.len() == gs.len(),
                forall|j: int| 0 <= j < i ==> #[trigger] groups_view(self.list_groups@)[j] == lift_children(gs, g@, opt_group_view(*p))[j],
                forall|j: int| i <= j < gs.len() ==> #[trigger] groups_view(self.list_groups@)[j] == gs[j],
                self@ == (ConfigModel { groups: groups_view(self.list_groups@), ..old(self)@ }),
            decreases self.list_groups.len() - i,
        {
            assert(groups_view(self.list_groups@)[i as int] == gs[i as int]);
            let is_child = match &self.list_groups[i].parent_id {
                Some(x) => *x == *g,
                None => false,
            };
            let ghost before = self.list_groups@;
            if is_child {
                self.list_groups[i].parent_id = clone_opt_group(p);
            }
            assert forall|j: int| 0 <= j < gs.len() && j != i implies #[trigger] groups_view(self.list_groups@)[j]
                == groups_view(before)[j] by {
                assert(self.list_groups@[j] == before[j]);
            }
            assert(groups_view(self.list_groups@)[i as int] == lift_children(gs, g@, opt_group_view(*p))[i as int]);
            i = i + 1;
        }
        assert(groups_view(self.list_groups@) =~= lift_children(gs, g@, opt_group_view(*p)));
    }

    /// Takes the groups with link `g` out of the groups.
    pub fn drop_groups(&mut self, g: &ListGroupLnk)
        ensures
            final(self)@ == (ConfigModel { groups: keep(old(self)@.groups, not_group(g@)), ..old(self)@ }),
    {
        let ghost gs = self@.groups;
        let mut out: Vec<ListGroup> = Vec::new();
        let mut i: usize = 0;
        while i < self.list_groups.len()
            invariant
                i <= self.list_groups.len(),
                gs == groups_view(self.list_groups@),
                groups_view(out@) == keep(gs.take(i as int), not_group(g@)),
            decreases self.list_groups.len() - i,
        {
            proof {
                crate::seqs::lemma_keep_step(gs, not_group(g@), i as int);
            }
            assert(gs[i as int] == self.list_groups@[i as int]@);
            if !(self.list_groups[i].lnk == *g) {
                let x = self.list_groups[i].clone();
                out.push(x);
                assert(groups_view(out@) =~= keep(gs.take(i as int), not_group(g@)).push(gs[i as int]));
            }
            i = i + 1;
        }
        assert(gs.take(gs.len() as int) =~= gs);
        self.list_groups = out;
        assert(self@ =~= (ConfigModel { groups: keep(gs, not_group(g@)), ..old(self)@ }));
    }

    /// Moves the lists of group `g` to group `p`, or out of any group when `p` is none.
    pub fn move_group_lists(&mut self, g: &ListGroupLnk, p: &Option<ListGroupLnk>)
        requires
            old(self).wf(),
        ensures
            final(self).wf(),
            final(self)@ == (ConfigModel {
                assignments: move_assignments(old(self)@.assignments, g@, opt_group_view(*p)),
                ..old(self)@
            }),
    {
        let ghost a = self@.assignments;
        match p {
            Some(t) => {
                let mut i: usize = 0;
                while i < self.list_group_assignments.len()
                    invariant
                        i <= self.list_group_assignments.len(),
                        self.list_group_assignments@.len() == a.len(),
                        forall|j: int| 0 <= j < i ==> #[trigger] assignments_view(self.list_group_assignments@)[j] == move_assignments(a, g@, opt_group_view(*p))[j],
                        forall|j: int| i <= j < a.len() ==> #[trigger] assignments_view(self.list_group_assignments@)[j] == a[j],
                        self@ == (ConfigModel { assignments: assignments_view(self.list_group_assignments@), ..old(self)@ }),
                        unique_keys(old(self)@.folder_assignments),
                        *p == Some(*t),
                    decreases self.list_group_assignments.len() - i,
                {
                    assert(assignments_view(self.list_group_assignments@)[i as int] == a[i as int]);
                    let ghost before = self.list_group_assignments@;
                    if self.list_group_assignments[i].1 == *g {
                        let key = self.list_group_assignments[i].0.clone();
                        self.list_group_assignments.set(i, (key, t.clone()));
                    }
                    assert forall|j: int| 0 <= j < a.len() && j != i implies #[trigger] assignments_view(self.list_group_assignments@)[j]
                        == assignments_view(before)[j] by {
                        assert(self.list_group_assignments@[j] == before[j]);
                    }
                    assert(*p == Some(*t));
                    assert(opt_group_view(*p) == Some(t@));
                    assert(move_assignments(a, g@, opt_group_view(*p))[i as int] == (if a[i as int].1 == g@ {
                        (a[i as int].0, t@)
                    } else {
                        a[i as int]
                    }));
                    assert(assignments_view(self.list_group_assignments@)[i as int] == move_assignments(a, g@, opt_group_view(*p))[i as int]);
                    i = i + 1;
                }
                assert(assignments_view(self.list_group_assignments@) =~= move_assignments(a, g@, opt_group_view(*p)));
                assert(unique_keys(self@.assignments)) by {
                    let b = self@.assignments;
                    assert forall|x: int, y: int| 0 <= x < b.len() && 0 <= y < b.len() && x != y implies b[x].0 != b[y].0 by {
                        assert(b[x].0 == a[x].0);
                        assert(b[y].0 == a[y].0);
                    }
                }
            },
            None => {
                let mut out: Vec<(ListLnk, ListGroupLnk)> = Vec::new();
                let mut i: usize = 0;
                while i < self.list_group_assignments.len()
                    invariant
                        i <= self.list_group_assignments.len(),
                        a == assignments_view(self.list_group_assignments@),
                        unique_keys(a),
                        assignments_view(out@) == keep(a.take(i as int), not_assigned_to(g@)),
                        forall|j: int| 0 <= j < out@.len() ==> exists|m: int| 0 <= m < i && #[trigger] assignments_view(out@)[j] == a[m],
                        unique_keys(assignments_view(out@)),
                    decreases self.list_group_assignments.len() - i,
                {
                    proof {
                        crate::seqs::lemma_keep_step(a, not_assigned_to(g@), i as int);
                    }
                    assert(a[i as int] == (self.list_group_assignments@[i as int].0@, self.list_group_assignments@[i as int].1@));
                    if !(self.list_group_assignments[i].1 == *g) {
                        let e = (self.list_group_assignments[i].0.clone(), self.list_group_assignments[i].1.clone());
                        let ghost before = assignments_view(out@);
                        out.push(e);
                        assert(assignments_view(out@) =~= before.push(a[i as int]));
                        assert forall|j: int| 0 <= j < out@.len() implies exists|m: int| 0 <= m < i + 1 && #[trigger] assignments_view(out@)[j] == a[m] by {
                            if j < before.len() {
                                assert(assignments_view(out@)[j] == before[j]);
                                let m = choose|m: int| 0 <= m < i && before[j] == a[m];
                                assert(assignments_view(out@)[j] == a[m]);
                            } else {
                                assert(assignments_view(out@)[j] == a[i as int]);
                            }
                        }
                        assert(unique_keys(assignments_view(out@))) by {
                            let b = assignments_view(out@);
                            assert forall|x: int, y: int| 0 <= x < b.len() && 0 <= y < b.len() && x != y implies b[x].0 != b[y].0 by {
                                if x < before.len() && y < before.len() {
                                    assert(b[x] == before[x]);
                                    assert(b[y] == before[y]);
                                } else if x < before.len() {
                                    assert(b[x] == before[x]);
                                    let m = choose|m: int| 0 <= m < i && before[x] == a[m];
                                    assert(a[m].0 != a[i as int].0);
                                } else {
                                    assert(b[y] == before[y]);
                                    let m = choose|m: int| 0 <= m < i && before[y] == a[m];
                                    assert(a[m].0 != a[i as int].0);
                                }
                            }
                        }
                    }
                    i = i + 1;
                }
                assert(a.take(a.len() as int) =~= a);
                self.list_group_assignments = out;
                assert(self@ =~= (ConfigModel { assignments: keep(a, not_assigned_to(g@)), ..old(self)@ }));
            },
        }
    }

    /// Takes group `g` out of the sidebar (see `without_group`).
    pub fn remove_group_entries(&mut self, g: &ListGroupLnk)
        requires
            old(self).wf(),
        ensures
            final(self).wf(),
            final(self)@ == without_group(old(self)@, g@),
    {
        let parent = self.parent_of_group(g);
        self.lift_child_groups(g, &parent);
        self.move_group_lists(g, &parent);
        self.drop_groups(g);
        let k = SidebarItem::ListGroup(g.clone());
        self.remove_from_order(&k);
        assert(self@ =~= without_group(old(self)@, g@));
    }
}
/// Whether no two entries of a table share a key.
fn keys_unique(v: &Vec<(String, String)>) -> (r: bool)
    ensures
        r == unique_keys(pairs_view(v@)),
{
    let ghost a = pairs_view(v@);
    let n = v.len();
    let mut i: usize = 0;
    while i < n
        invariant
            n == v@.len(),
            a == pairs_view(v@),
            i <= n,
            forall|x: int, y: int| 0 <= x < i && 0 <= y < n && x != y ==> a[x].0 != a[y].0,
        decreases n - i,
    {
        let mut j: usize = 0;
        while j < n
            invariant
                n == v@.len(),
                a == pairs_view(v@),
                i < n,
                j <= n,
                forall|x: int, y: int| 0 <= x < i && 0 <= y < n && x != y ==> a[x].0 != a[y].0,
                forall|y: int| 0 <= y < j && y != i ==> a[i as int].0 != a[y].0,
            decreases n - j,
        {
            assert(a[i as int].0 == v@[i as int].0@ && a[j as int].0 == v@[j as int].0@);
            if j != i && crate::text::str_eq(v[i].0.as_str(), v[j].0.as_str()) {
                assert(!unique_keys(a)) by {
                    assert(a[i as int].0 == a[j as int].0);
                }
                return false;
            }
            j = j + 1;
        }
        i = i + 1;
    }
    true
}

impl AppConfig {
    /// Whether the settings are well formed (see `wf`): each list is in at most one
    /// group and at most one folder.
    pub fn is_well_formed(&self) -> (r: bool)
        ensures
            r == self.wf(),
    {
        let ghost a = self@.assignments;
        let n = self.list_group_assignments.len();
        let mut i: usize = 0;
        while i < n
            invariant
                n == self.list_group_assignments@.len(),
                a == self@.assignments,
                i <= n,
                forall|x: int, y: int| 0 <= x < i && 0 <= y < n && x != y ==> a[x].0 != a[y].0,
            decreases n - i,
        {
            let mut j: usize = 0;
            while j < n
                invariant
                    n == self.list_group_assignments@.len(),
                    a == self@.assignments,
                    i < n,
                    j <= n,
                    forall|x: int, y: int| 0 <= x < i && 0 <= y < n && x != y ==> a[x].0 != a[y].0,
                    forall|y: int| 0 <= y < j && y != i ==> a[i as int].0 != a[y].0,
                decreases n - j,
            {
                assert(a[i as int].0 == self.list_group_assignments@[i as int].0@);
                assert(a[j as int].0 == self.list_group_assignments@[j as int].0@);
                if j != i && self.list_group_assignments[j].0 == self.list_group_assignments[i].0 {
                    assert(!unique_keys(a)) by {
                        assert(a[i as int].0 == a[j as int].0);
                    }
                    return false;
                }
                j = j + 1;
            }
            i = i + 1;
        }
        keys_unique(&self.folder_assignments)
    }
}

// ---- laws of the assignment table ----

/// Once a list is put into a group, the table says that it is in that group.
pub proof fn law_assign_then_read(a: Seq<(Seq<char>, Seq<char>)>, k: Seq<char>, v: Seq<char>)
    ensures
        assigned(assign(a, k, v), k) == Some(v),
{
    let f = key_is(k);
    lemma_first_idx(a, f);
    let i = first_idx(a, f);
    if i >= 0 {
        let b = a.update(i, (k, v));
        assert forall|j: int| 0 <= j < i implies !f(b[j]) by {
            assert(b[j] == a[j]);
        }
        assert(is_first(b, f, i));
        lemma_is_first_unique(b, f, i);
    } else {
        let b = a.push((k, v));
        assert forall|j: int| 0 <= j < a.len() implies !f(b[j]) by {
            assert(b[j] == a[j]);
            if f(a[j]) {
                assert(any(a, f));
            }
        }
        assert(is_first(b, f, a.len() as int));
        lemma_is_first_unique(b, f, a.len() as int);
    }
}

/// Putting one list into a group leaves the group of every other list as it was.
pub proof fn law_assign_keeps_others(
    a: Seq<(Seq<char>, Seq<char>)>,
    k: Seq<char>,
    v: Seq<char>,
    other: Seq<char>,
)
    requires
        other != k,
    ensures
        assigned(assign(a, k, v), other) == assigned(a, other),
{
    let f = key_is(k);
    let g = key_is(other);
    lemma_first_idx(a, f);
    lemma_first_idx(a, g);
    let i = first_idx(a, f);
    let b = assign(a, k, v);
    assert(b.len() >= a.len());
    assert forall|j: int| 0 <= j < b.len() implies (g(b[j]) <==> (j < a.len() && g(a[j]))) && (j < a.len() && g(
        a[j],
    ) ==> b[j] == a[j]) by {
        if i >= 0 {
            if j != i {
                assert(b[j] == a[j]);
            }
        } else if j < a.len() {
            assert(b[j] == a[j]);
        }
    }
    if any(a, g) {
        let j = first_idx(a, g);
        assert(is_first(b, g, j));
        lemma_is_first_unique(b, g, j);
    } else {
        assert forall|j: int| 0 <= j < b.len() implies !g(b[j]) by {
            if j < a.len() && g(a[j]) {
                assert(any(a, g));
            }
        }
        lemma_none_first(b, g);
    }
}

/// Once a list is taken out of its group, the table says that it is in none, as long as
/// the table held one entry per list.
pub proof fn law_unassign_then_read(a: Seq<(Seq<char>, Seq<char>)>, k: Seq<char>)
    requires
        unique_keys(a),
    ensures
        assigned(unassign(a, k), k) is None,
{
    let f = key_is(k);
    lemma_first_idx(a, f);
    let i = first_idx(a, f);
    let b = unassign(a, k);
    if i >= 0 {
        assert forall|j: int| 0 <= j < b.len() implies !f(b[j]) by {
            let j2 = if j < i { j } else { j + 1 };
            assert(b[j] == a[j2]);
            if j >= i {
                assert(a[j2].0 != a[i].0);
            }
        }
    } else {
        assert forall|j: int| 0 <= j < b.len() implies !f(b[j]) by {
            if f(a[j]) {
                assert(any(a, f));
            }
        }
    }
    lemma_none_first(b, f);
}
} // verus!
