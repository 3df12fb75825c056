use vstd::prelude::*;
use crate::lnk::ProjectLnk;
use crate::project::ProjectModel;
use crate::project_list::{ListModel, ProjectList, archived_spec, has_id};
use crate::project_status::{is_downloaded, texts};
use crate::resource_type::ResourceType;
use crate::seqs::keep;
use crate::text::{chars_of, lowercase, seq_contains, str_contains, to_lowercase};

verus! {

/// What the projects of a list are sorted by.
#[derive(Clone, Copy, Debug, PartialEq, Eq, Structural)]
pub enum SortMode {
    Name,
    DateAdded,
}

/// The direction of the sort.
#[derive(Clone, Copy, Debug, PartialEq, Eq, Structural)]
pub enum OrderMode {
    Ascending,
    Descending,
}

/// Which projects are shown.
#[derive(Clone, Copy, Debug, PartialEq, Eq, Structural)]
pub enum FilterMode {
    All,
    MissingOnly,
    CompatibleOnly,
    IncompatibleOnly,
}

/// Whether `a` comes before `b` character by character (by code point), a proper prefix
/// coming first: the order of Rust strings.
pub open spec fn lex_lt(a: Seq<char>, b: Seq<char>) -> bool
    decreases a.len(),
{
    if a.len() == 0 {
        b.len() > 0
    } else if b.len() == 0 {
        false
    } else if a[0] != b[0] {
        (a[0] as int) < (b[0] as int)
    } else {
        lex_lt(a.drop_first(), b.drop_first())
    }
}

proof fn lemma_lex_irreflexive(a: Seq<char>)
    ensures
        !lex_lt(a, a),
    decreases a.len(),
{
    if a.len() > 0 {
        lemma_lex_irreflexive(a.drop_first());
    }
}

proof fn lemma_lex_trans(a: Seq<char>, b: Seq<char>, c: Seq<char>)
    requires
        lex_lt(a, b),
        lex_lt(b, c),
    ensures
        lex_lt(a, c),
    decreases a.len(),
{
    if a.len() > 0 && b.len() > 0 && c.len() > 0 && a[0] == b[0] && b[0] == c[0] {
        lemma_lex_trans(a.drop_first(), b.drop_first(), c.drop_first());
    }
}

/// Two different sequences are ordered one way or the other.
proof fn lemma_lex_total(a: Seq<char>, b: Seq<char>)
    requires
        !lex_lt(a, b),
        !lex_lt(b, a),
    ensures
        a == b,
    decreases a.len(),
{
    if a.len() > 0 && b.len() > 0 {
        if a[0] == b[0] {
            lemma_lex_total(a.drop_first(), b.drop_first());
            assert(a =~= seq![a[0]] + a.drop_first());
            assert(b =~= seq![b[0]] + b.drop_first());
        } else {
            assert((a[0] as int) != (b[0] as int));
        }
    } else if a.len() == 0 && b.len() == 0 {
        assert(a =~= b);
    }
}

/// Whether `a` is before `b` by the key the projects are sorted on.
pub open spec fn key_lt(a: ProjectModel, b: ProjectModel, sort: SortMode) -> bool {
    match sort {
        SortMode::Name => lex_lt(lowercase(a.name), lowercase(b.name)),
        SortMode::DateAdded => a.added_at < b.added_at,
    }
}

/// Whether `a` comes strictly before `b` in the sorted projects.
pub open spec fn goes_before(a: ProjectModel, b: ProjectModel, sort: SortMode, order: OrderMode) -> bool {
    match order {
        OrderMode::Ascending => key_lt(a, b, sort),
        OrderMode::Descending => key_lt(b, a, sort),
    }
}

/// Whether the project at position `i` of `f` is shown before the one at `j`: by the sort
/// key, and in the order of `f` when the keys are the same (the sort is stable).
pub open spec fn shown_before(f: Seq<ProjectModel>, i: int, j: int, sort: SortMode, order: OrderMode) -> bool {
    goes_before(f[i], f[j], sort, order) || (!goes_before(f[j], f[i], sort, order) && i < j)
}

proof fn lemma_key_trans(a: ProjectModel, b: ProjectModel, c: ProjectModel, sort: SortMode)
    requires
        key_lt(a, b, sort),
        key_lt(b, c, sort),
    ensures
        key_lt(a, c, sort),
{
    if sort == SortMode::Name {
        lemma_lex_trans(lowercase(a.name), lowercase(b.name), lowercase(c.name));
    }
}

/// Being before a project is being before any with the same key.
proof fn lemma_before_same_key(x: ProjectModel, y: ProjectModel, z: ProjectModel, sort: SortMode, order: OrderMode)
    requires
        goes_before(x, y, sort, order),
        !goes_before(y, z, sort, order),
        !goes_before(z, y, sort, order),
    ensures
        goes_before(x, z, sort, order),
{
    if sort == SortMode::Name {
        lemma_lex_total(lowercase(y.name), lowercase(z.name));
    }
}

proof fn lemma_before_trans(x: ProjectModel, y: ProjectModel, z: ProjectModel, sort: SortMode, order: OrderMode)
    requires
        goes_before(x, y, sort, order),
        goes_before(y, z, sort, order),
    ensures
        goes_before(x, z, sort, order),
{
    if order == OrderMode::Ascending {
        lemma_key_trans(x, y, z, sort);
    } else {
        lemma_key_trans(z, y, x, sort);
    }
}

proof fn lemma_before_irreflexive(x: ProjectModel, sort: SortMode, order: OrderMode)
    ensures
        !goes_before(x, x, sort, order),
{
    lemma_lex_irreflexive(lowercase(x.name));
}

/// The first record of `x` in `c` (a project and whether versions are known for the
/// list's game version and loader), if any.
pub open spec fn compat_of(c: Seq<(Seq<char>, bool)>, x: Seq<char>) -> Option<bool>
    decreases c.len(),
{
    if c.len() == 0 {
        None
    } else if c[0].0 == x {
        Some(c[0].1)
    } else {
        compat_of(c.drop_first(), x)
    }
}

pub open spec fn compat_view(v: Seq<(ProjectLnk, bool)>) -> Seq<(Seq<char>, bool)> {
    v.map_values(|e: (ProjectLnk, bool)| (e.0@, e.1))
}

/// Whether a project passes the search: an empty (lowercased) query, or its lowercased
/// name or author holds the lowercased query.
pub open spec fn query_ok(p: ProjectModel, q: Seq<char>) -> bool {
    q.len() == 0 || seq_contains(lowercase(p.name), q) || seq_contains(lowercase(p.author), q)
}

/// Whether a project passes the filter. Missing: neither downloaded nor archived.
/// Compatible: versions are listed for it, or nothing is known. Incompatible: it is known
/// that none are.
pub open spec fn filter_ok(
    l: ListModel,
    p: ProjectModel,
    filter: FilterMode,
    found: Seq<Seq<char>>,
    compat: Seq<(Seq<char>, bool)>,
) -> bool {
    match filter {
        FilterMode::All => true,
        FilterMode::MissingOnly => !is_downloaded(p, found) && !archived_spec(l.projects, p.id),
        FilterMode::CompatibleOnly => match compat_of(compat, p.id) {
            Some(b) => b,
            None => true,
        },
        FilterMode::IncompatibleOnly => match compat_of(compat, p.id) {
            Some(b) => !b,
            None => false,
        },
    }
}

/// The hand-chosen projects of the type that pass the search and the filter, in the
/// list's order.
pub open spec fn shown_projects(
    l: ListModel,
    rt: ResourceType,
    q: Seq<char>,
    filter: FilterMode,
    found: Seq<Seq<char>>,
    compat: Seq<(Seq<char>, bool)>,
) -> Seq<ProjectModel> {
    keep(l.projects, |p: ProjectModel| p.manual && p.rtype == rt && query_ok(p, q) && filter_ok(l, p, filter, found, compat))
}

/// `perm` lists every position of `f` once, each shown before the ones after it.
pub open spec fn sorted_positions(f: Seq<ProjectModel>, perm: Seq<int>, sort: SortMode, order: OrderMode) -> bool {
    &&& perm.len() == f.len()
    &&& forall|i: int| 0 <= i < perm.len() ==> 0 <= #[trigger] perm[i] < f.len()
    &&& forall|i: int, j: int| 0 <= i < perm.len() && 0 <= j < perm.len() && i != j ==> perm[i] != perm[j]
    &&& forall|i: int, j: int|
        0 <= i < j < perm.len() ==> shown_before(f, #[trigger] perm[i], #[trigger] perm[j], sort, order)
}

/// Whether `a` comes before `b` by code point.
fn lex_less(a: &Vec<char>, b: &Vec<char>) -> (r: bool)
    ensures
        r == lex_lt(a@, b@),
{
    let mut i: usize = 0;
    assert(a@.skip(0) =~= a@);
    assert(b@.skip(0) =~= b@);
    while i < a.len() && i < b.len()
        invariant
            i <= a.len(),
            i <= b.len(),
            lex_lt(a@, b@) == lex_lt(a@.skip(i as int), b@.skip(i as int)),
        decreases a.len() - i,
    {
        let x = a[i];
        let y = b[i];
        assert(a@.skip(i as int)[0] == x);
        assert(b@.skip(i as int)[0] == y);
        if x != y {
            return x < y;
        }
        assert(a@.skip(i as int).drop_first() =~= a@.skip(i + 1));
        assert(b@.skip(i as int).drop_first() =~= b@.skip(i + 1));
        i = i + 1;
    }
    i < b.len()
}

/// The record of a project in `c`, if any (see `compat_of`).
fn find_compat(c: &Vec<(ProjectLnk, bool)>, x: &ProjectLnk) -> (r: Option<bool>)
    ensures
        r == compat_of(compat_view(c@), x@),
{
    let ghost cv = compat_view(c@);
    let mut i: usize = 0;
    assert(cv.skip(0) =~= cv);
    while i < c.len()
        invariant
            i <= c.len(),
            cv == compat_view(c@),
            compat_of(cv, x@) == compat_of(cv.skip(i as int), x@),
        decreases c.len() - i,
    {
        assert(cv.skip(i as int)[0] == (c@[i as int].0@, c@[i as int].1));
        if c[i].0 == *x {
            return Some(c[i].1);
        }
        assert(cv.skip(i as int).drop_first() =~= cv.skip(i + 1));
        i = i + 1;
    }
    assert(cv.skip(i as int) =~= Seq::<(Seq<char>, bool)>::empty());
    None
}

/// The projects shown for a list and a type, in the order shown: the hand-chosen projects
/// of the type whose name or author holds the search (ignoring case), that pass the
/// filter (`found_hashes`: the hashes of the files found; `compatible`: for a project
/// whose versions for the list's game version and loader are known, whether there are
/// any), sorted by name (lowercased) or by the time they were added, in either order,
/// projects with the same key keeping the list's order.
pub fn filtered_projects(
    list: &ProjectList,
    rt: ResourceType,
    query: &str,
    sort: SortMode,
    order: OrderMode,
    filter: FilterMode,
    found_hashes: &Vec<String>,
    compatible: &Vec<(ProjectLnk, bool)>,
) -> (r: Vec<ProjectLnk>)
    requires
        list.wf(),
    ensures
        ({
            let f = shown_projects(list@, rt, lowercase(query@), filter, texts(found_hashes@), compat_view(compatible@));
            &&& r@.len() == f.len()
            &&& exists|perm: Seq<int>|
                sorted_positions(f, perm, sort, order) && forall|i: int| 0 <= i < r@.len() ==> (#[trigger] r@[i])@ == f[perm[i]].id
        }),
{
    let q_string = to_lowercase(query);
    let q = q_string.as_str();
    let q_empty = chars_of(q).len() == 0;
    let ghost qv = lowercase(query@);
    let ghost found = texts(found_hashes@);
    let ghost cv = compat_view(compatible@);
    let ghost pred = |p: ProjectModel| p.manual && p.rtype == rt && query_ok(p, qv) && filter_ok(list@, p, filter, found, cv);
    let ghost ps = list@.projects;
    // The projects shown, with their sort keys, in the list's order.
    let mut items: Vec<(ProjectLnk, Vec<char>, i64)> = Vec::new();
    let ghost mut fm: Seq<ProjectModel> = Seq::empty();
    let n = list.projects.len();
    let mut k: usize = 0;
    while k < n
        invariant
            k <= n,
            n == list.projects@.len(),
            ps == list@.projects,
            ps.len() == n,
            list.wf(),
            qv == lowercase(query@),
            q@ == qv,
            q_empty == (qv.len() == 0),
            found == texts(found_hashes@),
            cv == compat_view(compatible@),
            pred == (|p: ProjectModel| p.manual && p.rtype == rt && query_ok(p, qv) && filter_ok(list@, p, filter, found, cv)),
            fm == keep(ps.take(k as int), pred),
            items@.len() == fm.len(),
            forall|i: int|
                0 <= i < items@.len() ==> (#[trigger] items@[i]).0@ == fm[i].id && items@[i].1@ == lowercase(fm[i].name)
                    && items@[i].2 as int == fm[i].added_at,
        decreases n - k,
    {
        proof {
            crate::seqs::lemma_keep_step(ps, pred, k as int);
        }
        let p = &list.projects[k];
        assert(ps[k as int] == p@);
        let ghost pm = p@;
        let mut shown = p.is_manual() && p.resource_type == rt;
        let name_l = to_lowercase(p.get_name().as_str());
        if shown {
            let author_l = to_lowercase(p.get_author().as_str());
            shown = q_empty || str_contains(name_l.as_str(), q) || str_contains(author_l.as_str(), q);
        }
        if shown {
            let lnk = p.get_lnk();
            shown = match filter {
                FilterMode::All => true,
                FilterMode::MissingOnly => {
                    assert(crate::project_list::ids(ps)[k as int] == lnk@);
                    let downloaded = match p.get_version() {
                        Some(v) => crate::project_status::has_text(found_hashes, v.artifact_hash.as_str()),
                        None => false,
                    };
                    !downloaded && !list.is_project_archived(&lnk)
                },
                FilterMode::CompatibleOnly => match find_compat(compatible, &lnk) {
                    Some(b) => b,
                    None => true,
                },
                FilterMode::IncompatibleOnly => match find_compat(compatible, &lnk) {
                    Some(b) => !b,
                    None => false,
                },
            };
        }
        assert(shown == pred(pm));
        if shown {
            let lnk = p.get_lnk();
            let key = chars_of(name_l.as_str());
            let ghost fm0 = fm;
            let ghost items0 = items@;
            items.push((lnk, key, p.added_at));
            proof {
                fm = fm.push(pm);
                assert forall|i: int|
                    0 <= i < items@.len() implies (#[trigger] items@[i]).0@ == fm[i].id && items@[i].1@ == lowercase(fm[i].name)
                        && items@[i].2 as int == fm[i].added_at by {
                    if i < items0.len() {
                        assert(items@[i] == items0[i]);
                    }
                }
            }
        }
        k = k + 1;
    }
    assert(ps.take(n as int) =~= ps);
    assert(fm == shown_projects(list@, rt, lowercase(query@), filter, texts(found_hashes@), compat_view(compatible@)));
    // Insertion sort of the positions: each new position goes before the first one it
    // comes strictly before, so that equal keys keep their order.
    let mut out: Vec<usize> = Vec::new();
    let m = items.len();
    let mut i: usize = 0;
    while i < m
        invariant
            i <= m,
            m == items@.len(),
            m == fm.len(),
            forall|t: int|
                0 <= t < items@.len() ==> (#[trigger] items@[t]).0@ == fm[t].id && items@[t].1@ == lowercase(fm[t].name)
                    && items@[t].2 as int == fm[t].added_at,
            out@.len() == i,
            forall|a: int| 0 <= a < out@.len() ==> #[trigger] out@[a] < i,
            forall|a: int, b: int| 0 <= a < out@.len() && 0 <= b < out@.len() && a != b ==> out@[a] != out@[b],
            forall|a: int, b: int|
                0 <= a < b < out@.len() ==> shown_before(fm, #[trigger] out@[a] as int, #[trigger] out@[b] as int, sort, order),
        decreases m - i,
    {
        let mut p: usize = 0;
        let mut done = false;
        while p < out.len() && !done
            invariant
                p <= out@.len(),
                done ==> p < out@.len() && goes_before(fm[i as int], fm[out@[p as int] as int], sort, order),
                i < m,
                m == items@.len(),
                m == fm.len(),
                forall|t: int|
                    0 <= t < items@.len() ==> (#[trigger] items@[t]).0@ == fm[t].id && items@[t].1@ == lowercase(fm[t].name)
                        && items@[t].2 as int == fm[t].added_at,
                forall|a: int| 0 <= a < out@.len() ==> #[trigger] out@[a] < i,
                forall|a: int| 0 <= a < p ==> !goes_before(fm[i as int], fm[#[trigger] out@[a] as int], sort, order),
            decreases out@.len() - p, if done { 0int } else { 1int },
        {
            if item_before(&items, i, out[p], sort, order, Ghost(fm)) {
                done = true;
            } else {
                p = p + 1;
            }
        }
        let ghost o0 = out@;
        proof {
            if p < o0.len() {
                assert(goes_before(fm[i as int], fm[o0[p as int] as int], sort, order));
            }
        }
        out.insert(p, i);
        proof {
            assert forall|a: int| 0 <= a < out@.len() implies #[trigger] out@[a] < i + 1 by {
                if a < p {
                    assert(out@[a] == o0[a]);
                } else if a > p {
                    assert(out@[a] == o0[a - 1]);
                }
            }
            assert forall|a: int, b: int|
                0 <= a < out@.len() && 0 <= b < out@.len() && a != b implies out@[a] != out@[b] by {
                if a != p && b != p {
                    let a0 = if a < p { a } else { a - 1 };
                    let b0 = if b < p { b } else { b - 1 };
                    assert(out@[a] == o0[a0]);
                    assert(out@[b] == o0[b0]);
                } else if a == p {
                    let b0 = if b < p { b } else { b - 1 };
                    assert(out@[b] == o0[b0]);
                } else {
                    let a0 = if a < p { a } else { a - 1 };
                    assert(out@[a] == o0[a0]);
                }
            }
            assert forall|a: int, b: int|
                0 <= a < b < out@.len() implies shown_before(fm, #[trigger] out@[a] as int, #[trigger] out@[b] as int, sort, order) by {
                let x = i as int;
                if a == p {
                    // the new position before a later one
                    let b0 = b - 1;
                    assert(out@[b] == o0[b0]);
                    let y = o0[p as int] as int;
                    let z = o0[b0] as int;
                    if b0 == p {
                        assert(goes_before(fm[x], fm[z], sort, order));
                    } else {
                        assert(shown_before(fm, y, z, sort, order));
                        if goes_before(fm[y], fm[z], sort, order) {
                            lemma_before_trans(fm[x], fm[y], fm[z], sort, order);
                        } else {
                            lemma_before_same_key(fm[x], fm[y], fm[z], sort, order);
                        }
                    }
                } else if b == p {
                    assert(out@[a] == o0[a]);
                    let y = o0[a] as int;
                    assert(!goes_before(fm[x], fm[y], sort, order));
                    assert(y < x);
                } else {
                    let a0 = if a < p { a } else { a - 1 };
                    let b0 = if b < p { b } else { b - 1 };
                    assert(out@[a] == o0[a0]);
                    assert(out@[b] == o0[b0]);
                    assert(a0 < b0);
                }
            }
        }
        i = i + 1;
    }
    let mut r: Vec<ProjectLnk> = Vec::new();
    let mut j: usize = 0;
    while j < m
        invariant
            j <= m,
            m == items@.len(),
            m == fm.len(),
            out@.len() == m,
            forall|a: int| 0 <= a < out@.len() ==> #[trigger] out@[a] < m,
            forall|t: int|
                0 <= t < items@.len() ==> (#[trigger] items@[t]).0@ == fm[t].id && items@[t].1@ == lowercase(fm[t].name)
                    && items@[t].2 as int == fm[t].added_at,
            r@.len() == j,
            forall|a: int| 0 <= a < j ==> (#[trigger] r@[a])@ == fm[out@[a] as int].id,
        decreases m - j,
    {
        let idx = out[j];
        let lnk = items[idx].0.clone();
        r.push(lnk);
        j = j + 1;
    }
    proof {
        let perm = out@.map_values(|x: usize| x as int);
        assert(sorted_positions(fm, perm, sort, order)) by {
            assert forall|a: int, b: int| 0 <= a < b < perm.len() implies shown_before(
                fm,
                #[trigger] perm[a],
                #[trigger] perm[b],
                sort,
                order,
            ) by {
                assert(perm[a] == out@[a] as int);
                assert(perm[b] == out@[b] as int);
            }
            assert forall|a: int, b: int|
                0 <= a < perm.len() && 0 <= b < perm.len() && a != b implies perm[a] != perm[b] by {
                assert(perm[a] == out@[a] as int);
                assert(perm[b] == out@[b] as int);
            }
            assert forall|a: int| 0 <= a < perm.len() implies 0 <= #[trigger] perm[a] < fm.len() by {
                assert(perm[a] == out@[a] as int);
            }
        }
        assert forall|a: int| 0 <= a < r@.len() implies (#[trigger] r@[a])@ == fm[perm[a]].id by {
            assert(perm[a] == out@[a] as int);
        }
    }
    r
}

/// Whether the shown project at position `x` comes strictly before the one at `y`
/// (see `goes_before`); `items` holds their links and keys.
fn item_before(
    items: &Vec<(ProjectLnk, Vec<char>, i64)>,
    x: usize,
    y: usize,
    sort: SortMode,
    order: OrderMode,
    Ghost(fm): Ghost<Seq<ProjectModel>>,
) -> (r: bool)
    requires
        x < items@.len(),
        y < items@.len(),
        items@.len() == fm.len(),
        forall|t: int|
            0 <= t < items@.len() ==> (#[trigger] items@[t]).1@ == lowercase(fm[t].name) && items@[t].2 as int == fm[t].added_at,
    ensures
        r == goes_before(fm[x as int], fm[y as int], sort, order),
{
    let (a, b) = match order {
        OrderMode::Ascending => (x, y),
        OrderMode::Descending => (y, x),
    };
    assert(items@[a as int].1@ == lowercase(fm[a as int].name));
    assert(items@[b as int].1@ == lowercase(fm[b as int].name));
    match sort {
        SortMode::Name => lex_less(&items[a].1, &items[b].1),
        SortMode::DateAdded => items[a].2 < items[b].2,
    }
}

} // verus!
