use vstd::prelude::*;
use crate::config::{
    AppConfig, ConfigModel, GroupModel, assign, assigned, find_group, group_parent, group_pos, key_eq, not_key,
    opt_group_view, reparent, unassign,
};
use crate::game::trim_end_all;
use crate::lnk::{ListGroupLnk, ListLnk, SidebarItem, SidebarKey, sidebar_key_id};
use crate::seqs::{any, first_idx, is_first, keep, lemma_first_idx, lemma_is_first_unique, lemma_keep_step, lemma_none_first};
use crate::state::{RDState, StateModel, save_config_effect};
use crate::text::{seq_ends_with, seq_starts_with};

verus! {

/// Where, next to the entry it is dropped on, a dragged entry goes.
#[derive(Clone, Copy, Debug, PartialEq, Eq, Structural)]
pub enum DropPosition {
    Before,
    After,
}

/// The place a dragged entry is dropped on: the drop zone's id (an entry's id, possibly
/// followed by "_after" or "_inside_end"), the group the zone is in, and the side.
#[derive(Debug)]
pub struct DropTarget {
    pub dnd_id: String,
    pub parent_id: Option<ListGroupLnk>,
    pub position: DropPosition,
}

/// The group an entry is in: the group of a list, or the parent of a group.
pub open spec fn parent_of(c: ConfigModel, k: SidebarKey) -> Option<Seq<char>> {
    match k {
        SidebarKey::List(l) => assigned(c.assignments, l),
        SidebarKey::ListGroup(g) => group_parent(c.groups, g),
    }
}

/// Selects the entries in group `p` (top level for none).
pub open spec fn in_parent(c: ConfigModel, p: Option<Seq<char>>) -> spec_fn(SidebarKey) -> bool {
    |k: SidebarKey| parent_of(c, k) == p
}

/// The entries in group `p`, in sidebar order.
pub open spec fn siblings(c: ConfigModel, p: Option<Seq<char>>) -> Seq<SidebarKey> {
    keep(c.order, in_parent(c, p))
}

/// Selects the entries with the given id.
pub open spec fn id_is(id: Seq<char>) -> spec_fn(SidebarKey) -> bool {
    |k: SidebarKey| sidebar_key_id(k) == id
}

/// The first entry of the order with the given id.
pub open spec fn item_with_id(order: Seq<SidebarKey>, id: Seq<char>) -> SidebarKey {
    order[first_idx(order, id_is(id))]
}

/// Whether group `d` is entry `a`, or one of its ancestors (looked up to `fuel` levels) is.
pub open spec fn descends(gs: Seq<GroupModel>, d: Seq<char>, a: SidebarKey, fuel: nat) -> bool
    decreases fuel,
{
    if a == SidebarKey::ListGroup(d) {
        true
    } else if fuel == 0 {
        false
    } else {
        match group_parent(gs, d) {
            Some(p) => descends(gs, p, a, (fuel - 1) as nat),
            None => false,
        }
    }
}

/// Whether group `d` lies within entry `a` (itself or below it), following parents at most
/// as many levels as there are groups.
pub open spec fn within(c: ConfigModel, d: Seq<char>, a: SidebarKey) -> bool {
    descends(c.groups, d, a, c.groups.len())
}

/// A group dragged into a group within itself.
pub open spec fn descendant_move(c: ConfigModel, group_drag: bool, parent: Option<Seq<char>>, a: SidebarKey) -> bool {
    group_drag && match parent {
        Some(p) => within(c, p, a),
        None => false,
    }
}

/// The settings after entry `k` moves into group `p` (top level for none), right after
/// entry `after` (at the end when `after` is not in the order, at the top when there is
/// no `after`).
pub open spec fn moved(c: ConfigModel, k: SidebarKey, p: Option<Seq<char>>, after: Option<SidebarKey>) -> ConfigModel {
    let c1 = match k {
        SidebarKey::ListGroup(g) => ConfigModel { groups: reparent(c.groups, g, p), ..c },
        SidebarKey::List(l) => match p {
            Some(x) => ConfigModel { assignments: assign(c.assignments, l, x), ..c },
            None => ConfigModel { assignments: unassign(c.assignments, l), ..c },
        },
    };
    let o1 = keep(c1.order, not_key(k));
    let o2 = match after {
        Some(a) => {
            let i = first_idx(o1, key_eq(a));
            if i >= 0 {
                o1.insert(i + 1, k)
            } else {
                o1.push(k)
            }
        },
        None => o1.insert(0, k),
    };
    ConfigModel { order: o2, ..c1 }
}

/// The id and kind a drag payload names: "list_group:" and a group's id, or a list's id.
pub open spec fn payload_item(payload: Seq<char>) -> (Seq<char>, bool) {
    if seq_starts_with(payload, "list_group:"@) {
        (payload.skip(11), true)
    } else {
        (payload, false)
    }
}

/// The entry a drop zone belongs to, and whether it is the zone at the end inside a group.
pub open spec fn drop_zone(dnd_id: Seq<char>) -> (Seq<char>, bool) {
    if seq_ends_with(dnd_id, "_inside_end"@) {
        (trim_end_all(dnd_id, "_inside_end"@), true)
    } else if seq_ends_with(dnd_id, "_after"@) {
        (trim_end_all(dnd_id, "_after"@), false)
    } else {
        (dnd_id, false)
    }
}

/// The entry a drag payload names, and the entry a drop zone belongs to, are in the order
/// (nothing is asked of a drop of an entry on itself, which does nothing).
pub open spec fn drop_names_known(c: ConfigModel, dnd_id: Seq<char>, payload: Seq<char>) -> bool {
    payload_item(payload).0 != drop_zone(dnd_id).0 ==> {
        &&& any(c.order, id_is(payload_item(payload).0))
        &&& any(c.order, id_is(drop_zone(dnd_id).0))
    }
}

/// The move a drop makes (entry, new group, entry to follow), if any. Nothing moves when an
/// entry is dropped on itself, when a group is dropped within itself, or when the entry
/// would end where it is. Dropped at the end inside a group, the entry becomes its last
/// child. Dropped before an entry, it takes that entry's place among its siblings (for a
/// zone after an entry: it goes right after it). Dropped after an entry, it goes right
/// after it.
pub open spec fn drop_plan(
    c: ConfigModel,
    dnd_id: Seq<char>,
    parent: Option<Seq<char>>,
    pos: DropPosition,
    payload: Seq<char>,
) -> Option<(SidebarKey, Option<Seq<char>>, Option<SidebarKey>)> {
    let (item_id, group_drag) = payload_item(payload);
    let (tid, inside_end) = drop_zone(dnd_id);
    let item = item_with_id(c.order, item_id);
    let titem = item_with_id(c.order, tid);
    if item_id == tid {
        None
    } else if descendant_move(c, group_drag, parent, item) {
        None
    } else if inside_end {
        let children = siblings(c, Some(tid));
        let current = if group_drag {
            group_parent(c.groups, item_id)
        } else {
            assigned(c.assignments, item_id)
        };
        if group_drag && within(c, tid, item) {
            None
        } else if current == Some(tid) && children.len() > 0 && sidebar_key_id(children.last()) == item_id {
            None
        } else {
            Some((item, Some(tid), if children.len() > 0 { Some(children.last()) } else { None }))
        }
    } else {
        match pos {
            DropPosition::Before => if seq_ends_with(dnd_id, "_after"@) || seq_ends_with(dnd_id, "_inside_end"@) {
                Some((item, parent, Some(titem)))
            } else {
                let sib = siblings(c, parent);
                let tp = first_idx(sib, id_is(tid));
                let cp = first_idx(sib, id_is(item_id));
                if tp >= 0 && cp >= 0 && (cp == tp || cp + 1 == tp) {
                    None
                } else {
                    Some((item, parent, if tp > 0 { Some(sib[tp - 1]) } else { None }))
                }
            },
            DropPosition::After => {
                let sib = siblings(c, parent);
                let tp = first_idx(sib, id_is(tid));
                let cp = first_idx(sib, id_is(item_id));
                if tp >= 0 && cp >= 0 && cp == tp + 1 {
                    None
                } else {
                    Some((item, parent, Some(titem)))
                }
            },
        }
    }
}

/// `s` with every trailing `pat` removed (as `str::trim_end_matches` with a text pattern).
pub fn trim_end_text(s: &str, pat: &str) -> (r: String)
    ensures
        r@ == trim_end_all(s@, pat@),
{
    let cs = crate::text::chars_of(s);
    let ps = crate::text::chars_of(pat);
    let mut n: usize = cs.len();
    assert(cs@.take(n as int) =~= s@);
    if ps.len() == 0 {
        return crate::text::owned(s);
    }
    loop
        invariant
            n <= cs.len(),
            cs@ == s@,
            ps@ == pat@,
            ps@.len() > 0,
            trim_end_all(s@, pat@) == trim_end_all(cs@.take(n as int), pat@),
        decreases n,
    {
        let ghost t = cs@.take(n as int);
        if n >= ps.len() && crate::text::matches_at(&cs, &ps, n - ps.len()) {
            assert(t.subrange(t.len() - pat@.len(), t.len() as int) =~= cs@.subrange(n - ps.len(), n as int));
            assert(t.subrange(0, t.len() - pat@.len()) =~= cs@.take(n - ps.len()));
            n = n - ps.len();
        } else {
            proof {
                if t.len() >= pat@.len() {
                    assert(t.subrange(t.len() - pat@.len(), t.len() as int) =~= cs@.subrange(n - ps.len(), n as int));
                }
            }
            let mut out: Vec<char> = Vec::new();
            let mut i: usize = 0;
            while i < n
                invariant
                    i <= n <= cs.len(),
                    out@ == cs@.take(i as int),
                decreases n - i,
            {
                out.push(cs[i]);
                assert(cs@.take(i + 1) =~= cs@.take(i as int).push(cs@[i as int]));
                i = i + 1;
            }
            return crate::text::string_from_chars(&out);
        }
    }
}

/// The id and kind a drag payload names (see `payload_item`).
pub fn parse_payload(payload: &str) -> (r: (String, bool))
    ensures
        (r.0@, r.1) == payload_item(payload@),
{
    if crate::text::str_starts_with(payload, "list_group:") {
        let cs = crate::text::chars_of(payload);
        proof {
            reveal_strlit("list_group:");
        }
        let mut out: Vec<char> = Vec::new();
        let mut i: usize = 11;
        while i < cs.len()
            invariant
                11 <= i <= cs.len(),
                out@ == cs@.subrange(11, i as int),
            decreases cs.len() - i,
        {
            out.push(cs[i]);
            assert(cs@.subrange(11, i + 1) =~= cs@.subrange(11, i as int).push(cs@[i as int]));
            i = i + 1;
        }
        assert(out@ =~= payload@.skip(11));
        (crate::text::string_from_chars(&out), true)
    } else {
        (crate::text::owned(payload), false)
    }
}

/// The entry a drop zone belongs to (see `drop_zone`).
pub fn normalize_drop_target(dnd_id: &str) -> (r: (String, bool))
    ensures
        (r.0@, r.1) == drop_zone(dnd_id@),
{
    let cs = crate::text::chars_of(dnd_id);
    let inside = crate::text::chars_of("_inside_end");
    let after = crate::text::chars_of("_after");
    if crate::text::ends_with_chars(&cs, &inside) {
        (trim_end_text(dnd_id, "_inside_end"), true)
    } else if crate::text::ends_with_chars(&cs, &after) {
        (trim_end_text(dnd_id, "_after"), false)
    } else {
        (crate::text::owned(dnd_id), false)
    }
}

impl AppConfig {
    /// The group an entry is in (see `parent_of`).
    pub fn item_parent(&self, k: &SidebarItem) -> (r: Option<ListGroupLnk>)
        ensures
            opt_group_view(r) == parent_of(self@, k@),
    {
        match k {
            SidebarItem::List(l) => self.group_of_list(l),
            SidebarItem::ListGroup(g) => self.parent_of_group(g),
        }
    }

    /// Whether the entries all sit in one and the same group (or all at the top level);
    /// false when there are none.
    pub fn check_all_same_parent(&self, items: &Vec<SidebarItem>) -> (r: bool)
        ensures
            r == (items@.len() > 0 && forall|i: int|
                0 <= i < items@.len() ==> parent_of(self@, #[trigger] items@[i]@) == parent_of(self@, items@[0]@)),
    {
        if items.len() == 0 {
            return false;
        }
        let first = self.item_parent(&items[0]);
        let mut i: usize = 1;
        while i < items.len()
            invariant
                1 <= i <= items.len(),
                opt_group_view(first) == parent_of(self@, items@[0]@),
                forall|j: int| 0 <= j < i ==> parent_of(self@, #[trigger] items@[j]@) == parent_of(self@, items@[0]@),
            decreases items.len() - i,
        {
            let p = self.item_parent(&items[i]);
            if !crate::state::same_group(&p, &first) {
                return false;
            }
            i = i + 1;
        }
        true
    }

    /// The group the first of the entries is in (none when there are no entries).
    pub fn get_common_parent(&self, items: &Vec<SidebarItem>) -> (r: Option<ListGroupLnk>)
        ensures
            items@.len() == 0 ==> r is None,
            items@.len() > 0 ==> opt_group_view(r) == parent_of(self@, items@[0]@),
    {
        if items.len() == 0 {
            None
        } else {
            self.item_parent(&items[0])
        }
    }

    /// The entries in a group (top level for none), in sidebar order.
    pub fn items_in_parent(&self, parent_id: &Option<ListGroupLnk>) -> (r: Vec<SidebarItem>)
        ensures
            crate::list_actions::keys_view(r@) == siblings(self@, opt_group_view(*parent_id)),
    {
        let ghost o = self@.order;
        let ghost f = in_parent(self@, opt_group_view(*parent_id));
        let mut out: Vec<SidebarItem> = Vec::new();
        let mut i: usize = 0;
        while i < self.sidebar_ui_order.len()
            invariant
                i <= self.sidebar_ui_order.len(),
                o == self@.order,
                f == in_parent(self@, opt_group_view(*parent_id)),
                crate::list_actions::keys_view(out@) == keep(o.take(i as int), f),
            decreases self.sidebar_ui_order.len() - i,
        {
            proof {
                lemma_keep_step(o, f, i as int);
            }
            assert(o[i as int] == self.sidebar_ui_order@[i as int]@);
            let p = self.item_parent(&self.sidebar_ui_order[i]);
            if crate::state::same_group(&p, parent_id) {
                let x = self.sidebar_ui_order[i].clone();
                out.push(x);
                assert(crate::list_actions::keys_view(out@) =~= keep(o.take(i as int), f).push(o[i as int]));
            }
            i = i + 1;
        }
        assert(o.take(o.len() as int) =~= o);
        out
    }

    /// The first entry of the order with the given id.
    pub fn item_by_context_id(&self, id: &String) -> (r: Option<SidebarItem>)
        ensures
            match r {
                Some(k) => any(self@.order, id_is(id@)) && k@ == item_with_id(self@.order, id@),
                None => !any(self@.order, id_is(id@)),
            },
    {
        let ghost o = self@.order;
        let mut i: usize = 0;
        while i < self.sidebar_ui_order.len()
            invariant
                i <= self.sidebar_ui_order.len(),
                o == self@.order,
                forall|j: int| 0 <= j < i ==> !id_is(id@)(o[j]),
            decreases self.sidebar_ui_order.len() - i,
        {
            assert(o[i as int] == self.sidebar_ui_order@[i as int]@);
            let cid = self.sidebar_ui_order[i].to_context_id();
            if cid == *id {
                assert(is_first(o, id_is(id@), i as int));
                proof {
                    lemma_is_first_unique(o, id_is(id@), i as int);
                }
                return Some(self.sidebar_ui_order[i].clone());
            }
            i = i + 1;
        }
        proof {
            lemma_none_first(o, id_is(id@));
        }
        None
    }

    /// Whether group `d` lies within entry `a` (see `within`).
    pub fn is_descendant_of(&self, d: &ListGroupLnk, a: &SidebarItem) -> (r: bool)
        ensures
            r == within(self@, d@, a@),
    {
        let fuel = self.list_groups.len();
        let mut current = d.clone();
        let mut k: usize = fuel;
        loop
            invariant
                k <= fuel,
                fuel == self@.groups.len(),
                within(self@, d@, a@) == descends(self@.groups, current@, a@, k as nat),
            decreases k,
        {
            if a.match_list_group(&current) {
                return true;
            }
            if k == 0 {
                return false;
            }
            match self.parent_of_group(&current) {
                Some(p) => {
                    current = p;
                    k = k - 1;
                },
                None => return false,
            }
        }
    }

    /// Moves entry `item` into group `new_parent` right after entry `insert_after` (see
    /// `moved`).
    pub fn move_item(&mut self, item: SidebarItem, new_parent: Option<ListGroupLnk>, insert_after: Option<SidebarItem>)
        requires
            old(self).wf(),
            item@ matches SidebarKey::ListGroup(g) ==> group_pos(old(self)@.groups, g) >= 0,
        ensures
            final(self).wf(),
            final(self)@ == moved(old(self)@, item@, opt_group_view(new_parent), match insert_after {
                Some(a) => Some(a@),
                None => None,
            }),
    {
        let ghost c0 = self@;
        match &item {
            SidebarItem::ListGroup(g) => self.set_parent_of(g, new_parent),
            SidebarItem::List(l) => match new_parent {
                Some(p) => self.assign_list(l.clone(), p),
                None => self.unassign_list(l),
            },
        }
        self.remove_from_order(&item);
        let ghost c1 = self@;
        match insert_after {
            Some(a) => match self.item_pos(&a) {
                Some(pos) => {
                    proof {
                        lemma_first_idx(c1.order, key_eq(a@));
                    }
                    let n = self.sidebar_ui_order.len();
                    assert(pos < n);
                    self.insert_item_at(pos + 1, item);
                },
                None => {
                    let ghost k = item@;
                    self.sidebar_ui_order.push(item);
                    assert(self@.order =~= c1.order.push(k));
                },
            },
            None => self.insert_item_at(0, item),
        }
    }
}


pub open spec fn plan_view(r: Option<(SidebarItem, Option<ListGroupLnk>, Option<SidebarItem>)>) -> Option<
    (SidebarKey, Option<Seq<char>>, Option<SidebarKey>),
> {
    match r {
        Some(m) => Some(
            (
                m.0@,
                opt_group_view(m.1),
                match m.2 {
                    Some(a) => Some(a@),
                    None => None,
                },
            ),
        ),
        None => None,
    }
}

/// The position of the first entry with the given id.
fn pos_by_id(v: &Vec<SidebarItem>, id: &String) -> (r: Option<usize>)
    ensures
        match r {
            Some(i) => i < v@.len() && first_idx(crate::list_actions::keys_view(v@), id_is(id@)) == i as int,
            None => first_idx(crate::list_actions::keys_view(v@), id_is(id@)) == -1,
        },
{
    let ghost o = crate::list_actions::keys_view(v@);
    let mut i: usize = 0;
    while i < v.len()
        invariant
            i <= v.len(),
            o == crate::list_actions::keys_view(v@),
            forall|j: int| 0 <= j < i ==> !id_is(id@)(o[j]),
        decreases v.len() - i,
    {
        assert(o[i as int] == v@[i as int]@);
        let cid = v[i].to_context_id();
        if cid == *id {
            assert(is_first(o, id_is(id@), i as int));
            proof {
                lemma_is_first_unique(o, id_is(id@), i as int);
            }
            return Some(i);
        }
        i = i + 1;
    }
    proof {
        lemma_none_first(o, id_is(id@));
    }
    None
}

fn clone_opt_item(o: &Option<SidebarItem>) -> (r: Option<SidebarItem>)
    ensures
        match r {
            Some(a) => o is Some && a@ == o->0@,
            None => o is None,
        },
{
    match o {
        Some(a) => Some(a.clone()),
        None => None,
    }
}

impl AppConfig {
    /// The move a drop makes, if any (see `drop_plan`).
    pub fn drop_move(&self, target: &DropTarget, payload: &str) -> (r: Option<(SidebarItem, Option<ListGroupLnk>, Option<SidebarItem>)>)
        requires
            drop_names_known(self@, target.dnd_id@, payload@),
        ensures
            plan_view(r) == drop_plan(self@, target.dnd_id@, opt_group_view(target.parent_id), target.position, payload@),
    {
        let (item_id, group_drag) = parse_payload(payload);
        let (tid, inside_end) = normalize_drop_target(target.dnd_id.as_str());
        if item_id == tid {
            return None;
        }
        let item = self.item_by_context_id(&item_id).unwrap();
        let titem = self.item_by_context_id(&tid).unwrap();
        let parent = crate::config::clone_opt_group(&target.parent_id);
        let desc_move = group_drag && match &parent {
            Some(p) => self.is_descendant_of(p, &item),
            None => false,
        };
        if desc_move {
            return None;
        }
        if inside_end {
            let tgroup = ListGroupLnk::new(tid.clone());
            if group_drag && self.is_descendant_of(&tgroup, &item) {
                return None;
            }
            let current = if group_drag {
                self.parent_of_group(&ListGroupLnk::new(item_id.clone()))
            } else {
                self.group_of_list(&ListLnk::new(item_id.clone()))
            };
            let children = self.items_in_parent(&Some(ListGroupLnk::new(tid.clone())));
            let ghost ch = crate::list_actions::keys_view(children@);
            let n = children.len();
            let last_is_item = n > 0 && {
                let cid = children[n - 1].to_context_id();
                cid == item_id
            };
            let current_is_target = match &current {
                Some(g) => g.to_context_id() == tid,
                None => false,
            };
            if n > 0 {
                assert(ch.last() == children@[n - 1]@);
            }
            if current_is_target && last_is_item {
                return None;
            }
            let after = if n > 0 { Some(children[n - 1].clone()) } else { None };
            return Some((item, Some(tgroup), after));
        }
        match target.position {
            DropPosition::Before => {
                let dcs = crate::text::chars_of(target.dnd_id.as_str());
                let s_after = crate::text::chars_of("_after");
                let s_inside = crate::text::chars_of("_inside_end");
                if crate::text::ends_with_chars(&dcs, &s_after) || crate::text::ends_with_chars(&dcs, &s_inside) {
                    return Some((item, parent, Some(titem)));
                }
                let sib = self.items_in_parent(&target.parent_id);
                let tp = pos_by_id(&sib, &tid);
                let cp = pos_by_id(&sib, &item_id);
                let stays = match (cp, tp) {
                    (Some(c), Some(t)) => c == t || (c < t && c + 1 == t),
                    _ => false,
                };
                if stays {
                    return None;
                }
                let after = match tp {
                    Some(t) => if t > 0 {
                        Some(sib[t - 1].clone())
                    } else {
                        None
                    },
                    None => None,
                };
                Some((item, parent, after))
            },
            DropPosition::After => {
                let sib = self.items_in_parent(&target.parent_id);
                let tp = pos_by_id(&sib, &tid);
                let cp = pos_by_id(&sib, &item_id);
                let stays = match (cp, tp) {
                    (Some(c), Some(t)) => t < c && c - 1 == t,
                    _ => false,
                };
                if stays {
                    return None;
                }
                Some((item, parent, Some(titem)))
            },
        }
    }
}

/// After an entry is moved into a group (or to the top level), it is in that group and
/// it is in the sidebar order exactly once (the table of groups holding one entry per
/// list, and a moved group being among the groups).
pub proof fn law_moved_entry_lands(c: ConfigModel, k: SidebarKey, p: Option<Seq<char>>, after: Option<SidebarKey>)
    requires
        crate::config::unique_keys(c.assignments),
        k matches SidebarKey::ListGroup(g) ==> group_pos(c.groups, g) >= 0,
    ensures
        parent_of(moved(c, k, p, after), k) == p,
        moved(c, k, p, after).order.contains(k),
        forall|i: int, j: int|
            0 <= i < moved(c, k, p, after).order.len() && 0 <= j < moved(c, k, p, after).order.len()
                && moved(c, k, p, after).order[i] == k && moved(c, k, p, after).order[j] == k ==> i == j,
{
    let m = moved(c, k, p, after);
    match k {
        SidebarKey::ListGroup(g) => {
            let i = group_pos(c.groups, g);
            let f = crate::config::group_is(g);
            lemma_first_idx(c.groups, f);
            if !any(c.groups, f) {
                assert(false);
            }
            let b = reparent(c.groups, g, p);
            assert forall|j: int| 0 <= j < i implies !f(b[j]) by {
                assert(b[j] == c.groups[j]);
            }
            assert(is_first(b, f, i));
            lemma_is_first_unique(b, f, i);
        },
        SidebarKey::List(l) => {
            match p {
                Some(x) => crate::config::law_assign_then_read(c.assignments, l, x),
                None => crate::config::law_unassign_then_read(c.assignments, l),
            }
        },
    }
    let c1 = match k {
        SidebarKey::ListGroup(g) => ConfigModel { groups: reparent(c.groups, g, p), ..c },
        SidebarKey::List(l) => match p {
            Some(x) => ConfigModel { assignments: assign(c.assignments, l, x), ..c },
            None => ConfigModel { assignments: unassign(c.assignments, l), ..c },
        },
    };
    let o1 = keep(c1.order, not_key(k));
    assert(!o1.contains(k)) by {
        crate::seqs::lemma_keep_contains(c1.order, not_key(k), k);
    }
    let (pos, o2) = match after {
        Some(a) => {
            let i = first_idx(o1, key_eq(a));
            if i >= 0 {
                (i + 1, o1.insert(i + 1, k))
            } else {
                (o1.len() as int, o1.push(k))
            }
        },
        None => (0int, o1.insert(0, k)),
    };
    if let Some(a) = after {
        lemma_first_idx(o1, key_eq(a));
    }
    assert(m.order == o2);
    assert(0 <= pos <= o1.len());
    assert(o2.len() == o1.len() + 1);
    assert(o2[pos] == k);
    assert forall|i: int| 0 <= i < o2.len() && i != pos implies o2[i] != k by {
        if i < pos {
            assert(o2[i] == o1[i]);
        } else {
            assert(o2[i] == o1[i - 1]);
        }
        if o2[i] == k {
            assert(o1.contains(k));
        }
    }
}

/// A drop in the After position of an entry (not the zone at the end inside a group) that
/// moves anything moves the dragged entry into the group the zone is in, to follow the
/// very entry it was dropped on: the first entry of the order with the zone's id.
pub proof fn law_drop_after_follows_target(
    c: ConfigModel,
    dnd_id: Seq<char>,
    parent: Option<Seq<char>>,
    payload: Seq<char>,
)
    requires
        drop_names_known(c, dnd_id, payload),
        !drop_zone(dnd_id).1,
    ensures
        drop_plan(c, dnd_id, parent, DropPosition::After, payload) matches Some(m) ==> {
            &&& m.0 == item_with_id(c.order, payload_item(payload).0)
            &&& sidebar_key_id(m.0) == payload_item(payload).0
            &&& m.1 == parent
            &&& m.2 == Some(item_with_id(c.order, drop_zone(dnd_id).0))
            &&& sidebar_key_id(item_with_id(c.order, drop_zone(dnd_id).0)) == drop_zone(dnd_id).0
            &&& c.order.contains(item_with_id(c.order, drop_zone(dnd_id).0))
        },
{
    let tid = drop_zone(dnd_id).0;
    let item_id = payload_item(payload).0;
    if item_id != tid {
        lemma_first_idx(c.order, id_is(tid));
        lemma_first_idx(c.order, id_is(item_id));
        assert(c.order.contains(item_with_id(c.order, tid)));
    }
}

/// A drop in the Before position of an entry (its own zone, not one after it or at the end
/// inside a group) that moves anything moves the dragged entry into the group the zone is
/// in, to follow the sibling right before the target entry in that group, or to the top
/// when the target entry is the first of its siblings or not among them; so it ends right
/// before the target. A drop of an entry on itself moves nothing.
pub proof fn law_drop_before_precedes_target(
    c: ConfigModel,
    dnd_id: Seq<char>,
    parent: Option<Seq<char>>,
    payload: Seq<char>,
)
    requires
        drop_names_known(c, dnd_id, payload),
        !seq_ends_with(dnd_id, "_after"@),
        !seq_ends_with(dnd_id, "_inside_end"@),
    ensures
        payload_item(payload).0 == dnd_id ==> drop_plan(c, dnd_id, parent, DropPosition::Before, payload) is None,
        drop_plan(c, dnd_id, parent, DropPosition::Before, payload) matches Some(m) ==> {
            let sib = siblings(c, parent);
            &&& m.0 == item_with_id(c.order, payload_item(payload).0)
            &&& m.1 == parent
            &&& m.2 is Some ==> exists|i: int|
                0 <= i && i + 1 < sib.len() && #[trigger] sib[i] == m.2->0 && sidebar_key_id(sib[i + 1]) == dnd_id
                    && forall|j: int| 0 <= j <= i ==> sidebar_key_id(#[trigger] sib[j]) != dnd_id
            &&& m.2 is None ==> (sib.len() > 0 && sidebar_key_id(sib[0]) == dnd_id) || forall|j: int|
                0 <= j < sib.len() ==> sidebar_key_id(#[trigger] sib[j]) != dnd_id
        },
{
    assert(drop_zone(dnd_id) == (dnd_id, false));
    let sib = siblings(c, parent);
    lemma_first_idx(sib, id_is(dnd_id));
    let tp = first_idx(sib, id_is(dnd_id));
    if tp > 0 {
        assert forall|j: int| 0 <= j <= tp - 1 implies sidebar_key_id(#[trigger] sib[j]) != dnd_id by {
            assert(!id_is(dnd_id)(sib[j]));
        }
    }
    if tp < 0 {
        assert forall|j: int| 0 <= j < sib.len() implies sidebar_key_id(#[trigger] sib[j]) != dnd_id by {
            if sidebar_key_id(sib[j]) == dnd_id {
                assert(id_is(dnd_id)(sib[j]));
            }
        }
    }
}

/// A drop on the zone at the end inside a group that moves anything moves the dragged
/// entry into that group, to follow the group's last entry (or to the top when the group
/// is empty): it becomes the group's last child. A group is never dropped into a group
/// within itself.
pub proof fn law_drop_inside_end_appends(
    c: ConfigModel,
    dnd_id: Seq<char>,
    parent: Option<Seq<char>>,
    pos: DropPosition,
    payload: Seq<char>,
)
    requires
        drop_zone(dnd_id).1,
    ensures
        drop_plan(c, dnd_id, parent, pos, payload) matches Some(m) ==> {
            let g = drop_zone(dnd_id).0;
            let children = keep(c.order, |k: SidebarKey| parent_of(c, k) == Some(g));
            &&& m.0 == item_with_id(c.order, payload_item(payload).0)
            &&& m.1 == Some(g)
            &&& m.2 == (if children.len() > 0 { Some(children.last()) } else { None::<SidebarKey> })
            &&& !(payload_item(payload).1 && within(c, g, m.0))
        },
{
    let g = drop_zone(dnd_id).0;
    assert(in_parent(c, Some(g)) == |k: SidebarKey| parent_of(c, k) == Some(g));
}

/// An entry moved to follow an entry of the order other than itself lands right after it.
pub proof fn law_moved_lands_after(c: ConfigModel, k: SidebarKey, p: Option<Seq<char>>, a: SidebarKey)
    requires
        c.order.contains(a),
        a != k,
    ensures
        exists|i: int|
            0 <= i && i + 1 < moved(c, k, p, Some(a)).order.len() && #[trigger] moved(c, k, p, Some(a)).order[i] == a
                && moved(c, k, p, Some(a)).order[i + 1] == k,
{
    let o1 = keep(c.order, not_key(k));
    crate::seqs::lemma_keep_contains(c.order, not_key(k), a);
    let j = choose|j: int| 0 <= j < o1.len() && o1[j] == a;
    assert(key_eq(a)(o1[j]));
    lemma_first_idx(o1, key_eq(a));
    let i = first_idx(o1, key_eq(a));
    let o2 = o1.insert(i + 1, k);
    assert(o2[i] == a);
    assert(o2[i + 1] == k);
    assert(moved(c, k, p, Some(a)).order == o2);
}

/// What the user can do by dragging sidebar entries.
pub struct SidebarActions;

impl SidebarActions {
    /// Drops a dragged entry (see `drop_plan`): the entry moves (see `moved`) and the
    /// settings are saved; nothing happens when the drop makes no move.
    pub fn apply_drop(state: &mut RDState, target: &DropTarget, payload: &str)
        requires
            old(state).wf(),
            drop_names_known(old(state)@.config, target.dnd_id@, payload@),
            drop_plan(old(state)@.config, target.dnd_id@, opt_group_view(target.parent_id), target.position, payload@)
                matches Some(m) ==> (m.0 matches SidebarKey::ListGroup(g) ==> group_pos(old(state)@.config.groups, g) >= 0),
        ensures
            final(state).wf(),
            match drop_plan(old(state)@.config, target.dnd_id@, opt_group_view(target.parent_id), target.position, payload@) {
                Some(m) => final(state)@ == crate::list_group_actions::config_saved(
                    old(state)@,
                    moved(old(state)@.config, m.0, m.1, m.2),
                ),
                None => final(state)@ == old(state)@,
            },
    {
        match state.config.drop_move(target, payload) {
            Some((item, parent, after)) => {
                state.config.move_item(item, parent, after);
                state.save_config();
            },
            None => {},
        }
    }
}

/// Group `start` and its ancestors, nearest first, following parents at most `fuel` times.
pub open spec fn ancestors(gs: Seq<GroupModel>, start: Option<Seq<char>>, fuel: nat) -> Seq<Seq<char>>
    decreases fuel,
{
    match start {
        Some(g) => if fuel == 0 {
            Seq::empty()
        } else {
            seq![g] + ancestors(gs, group_parent(gs, g), (fuel - 1) as nat)
        },
        None => Seq::empty(),
    }
}

/// The groups to expand so that the entry to scroll to shows: the group it is in (or the
/// group itself) and all their ancestors.
pub open spec fn groups_to_open(c: ConfigModel, target: Option<SidebarKey>) -> Seq<Seq<char>> {
    match target {
        Some(SidebarKey::List(l)) => ancestors(c.groups, assigned(c.assignments, l), c.groups.len() + 1),
        Some(SidebarKey::ListGroup(g)) => ancestors(c.groups, Some(g), c.groups.len() + 1),
        None => Seq::empty(),
    }
}

/// The number of lists in group `g` and, recursively (down to `fuel` levels), in its
/// child groups.
pub open spec fn lists_below(c: ConfigModel, g: Seq<char>, fuel: nat) -> nat
    decreases fuel, c.order.len() + 1,
{
    proof {
        crate::seqs::lemma_keep_len(c.order, in_parent(c, Some(g)));
    }
    count_entries(c, siblings(c, Some(g)), fuel)
}

/// The number of lists among the entries and, for groups, below them (counted up to the
/// largest 64-bit number).
pub open spec fn count_entries(c: ConfigModel, ks: Seq<SidebarKey>, fuel: nat) -> nat
    decreases fuel, ks.len(),
{
    if ks.len() == 0 {
        0
    } else {
        let rest = count_entries(c, ks.drop_last(), fuel);
        let add: nat = match ks.last() {
            SidebarKey::List(_) => 1,
            SidebarKey::ListGroup(sub) => if fuel == 0 {
                0
            } else {
                lists_below(c, sub, (fuel - 1) as nat)
            },
        };
        if rest + add > u64::MAX {
            u64::MAX as nat
        } else {
            rest + add
        }
    }
}

impl AppConfig {
    /// The groups to expand so that the entry to scroll to shows (see `groups_to_open`).
    pub fn collect_force_open_groups(&self, pending_sidebar_scroll: &Option<SidebarItem>) -> (r: Vec<ListGroupLnk>)
        ensures
            crate::list_group_actions::group_lnk_ids(r@) == groups_to_open(self@, crate::state::opt_item_view(*pending_sidebar_scroll)),
    {
        let start = match pending_sidebar_scroll {
            Some(SidebarItem::List(l)) => self.group_of_list(l),
            Some(SidebarItem::ListGroup(g)) => Some(g.clone()),
            None => return Vec::new(),
        };
        let ghost gs = self@.groups;
        let mut out: Vec<ListGroupLnk> = Vec::new();
        let mut current = start;
        let mut fuel: usize = self.list_groups.len();
        let ghost total = ancestors(gs, opt_group_view(current), (fuel + 1) as nat);
        assert(total == groups_to_open(self@, crate::state::opt_item_view(*pending_sidebar_scroll)));
        loop
            invariant
                total == groups_to_open(self@, crate::state::opt_item_view(*pending_sidebar_scroll)),
                fuel <= self.list_groups.len(),
                gs == self@.groups,
                total == crate::list_group_actions::group_lnk_ids(out@) + ancestors(gs, opt_group_view(current), (fuel + 1) as nat),
            decreases fuel,
        {
            match current {
                Some(g) => {
                    let ghost before = crate::list_group_actions::group_lnk_ids(out@);
                    let next = self.parent_of_group(&g);
                    out.push(g);
                    assert(crate::list_group_actions::group_lnk_ids(out@) =~= before.push(opt_group_view(Some(g))->0));
                    if fuel == 0 {
                        assert(ancestors(gs, opt_group_view(next), 0) =~= Seq::<Seq<char>>::empty());
                        assert(total =~= crate::list_group_actions::group_lnk_ids(out@));
                        return out;
                    }
                    current = next;
                    fuel = fuel - 1;
                },
                None => {
                    assert(total =~= crate::list_group_actions::group_lnk_ids(out@));
                    return out;
                },
            }
        }
    }

    /// The number of lists in a group and in its child groups (see `lists_below`).
    pub fn count_lists_recursive(&self, group_lnk: &ListGroupLnk, fuel: usize) -> (r: u64)
        ensures
            r == lists_below(self@, group_lnk@, fuel as nat),
        decreases fuel, 1nat,
    {
        let items = self.items_in_parent(&Some(group_lnk.clone()));
        self.count_entries(&items, fuel)
    }

    fn count_entries(&self, items: &Vec<SidebarItem>, fuel: usize) -> (r: u64)
        ensures
            r == count_entries(self@, crate::list_actions::keys_view(items@), fuel as nat),
        decreases fuel, 0nat,
    {
        let ghost ks = crate::list_actions::keys_view(items@);
        let mut total: u64 = 0;
        let mut i: usize = 0;
        while i < items.len()
            invariant
                i <= items.len(),
                ks == crate::list_actions::keys_view(items@),
                total == count_entries(self@, ks.take(i as int), fuel as nat),
            decreases items.len() - i,
        {
            assert(ks.take(i + 1).drop_last() =~= ks.take(i as int));
            assert(ks.take(i + 1).last() == items@[i as int]@);
            let add: u64 = match &items[i] {
                SidebarItem::List(_) => 1,
                SidebarItem::ListGroup(sub) => if fuel == 0 {
                    0
                } else {
                    self.count_lists_recursive(sub, fuel - 1)
                },
            };
            total = total.saturating_add(add);
            i = i + 1;
        }
        assert(ks.take(items.len() as int) =~= ks);
        total
    }
}
} // verus!
