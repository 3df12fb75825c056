use vstd::prelude::*;
use crate::lnk::ProjectLnk;
use crate::project::{Project, ProjectModel, lnk_ids};
use crate::project_list::{ListModel, ProjectList, archived_spec, has_id, proj};
use crate::seqs::keep;
use crate::text::str_eq;

verus! {

/// The views of some strings.
pub open spec fn texts(v: Seq<String>) -> Seq<Seq<char>> {
    v.map_values(|s: String| s@)
}

/// The file of the project's version is on disk: its artifact hash is among the hashes
/// of the files found.
pub open spec fn is_downloaded(p: ProjectModel, found: Seq<Seq<char>>) -> bool {
    p.version matches Some(v) && found.contains(v.artifact_hash)
}

/// The list holds the project, and it is neither archived nor downloaded.
pub open spec fn is_missing(l: ListModel, x: Seq<char>, found: Seq<Seq<char>>) -> bool {
    &&& has_id(l.projects, x)
    &&& !archived_spec(l.projects, x)
    &&& !is_downloaded(proj(l.projects, x), found)
}

/// The list holds the project and, against the artifact hash of the newest version known
/// for it, the project has no version or a version with another file.
pub open spec fn has_update(l: ListModel, x: Seq<char>, latest_hash: Seq<char>) -> bool {
    &&& has_id(l.projects, x)
    &&& match proj(l.projects, x).version {
        Some(v) => v.artifact_hash != latest_hash,
        None => true,
    }
}

/// Whether the newest version should be selected for the project: it has no version, or
/// updates are on and its version is another one.
pub open spec fn wants_latest(p: ProjectModel, latest_version_id: Seq<char>, auto_update: bool) -> bool {
    p.version is None || (auto_update && p.version->0.version_id != latest_version_id)
}

/// Whether `s` is among `v`.
pub(crate) fn has_text(v: &Vec<String>, s: &str) -> (r: bool)
    ensures
        r == texts(v@).contains(s@),
{
    let mut i: usize = 0;
    while i < v.len()
        invariant
            i <= v.len(),
            forall|j: int| 0 <= j < i ==> v@[j]@ != s@,
        decreases v.len() - i,
    {
        if str_eq(v[i].as_str(), s) {
            assert(texts(v@)[i as int] == s@);
            return true;
        }
        i = i + 1;
    }
    proof {
        if texts(v@).contains(s@) {
            let k = choose|k: int| 0 <= k < texts(v@).len() && texts(v@)[k] == s@;
            assert(v@[k]@ == s@);
        }
    }
    false
}

/// The projects among `projects` that are missing from disk (see `is_missing`), in order:
/// those a "download all" fetches.
pub fn missing_projects(list: &ProjectList, projects: &Vec<ProjectLnk>, found_hashes: &Vec<String>) -> (r: Vec<
    ProjectLnk,
>)
    requires
        list.wf(),
    ensures
        lnk_ids(r@) == keep(lnk_ids(projects@), |x: Seq<char>| is_missing(list@, x, texts(found_hashes@))),
{
    let ghost f = |x: Seq<char>| is_missing(list@, x, texts(found_hashes@));
    let ghost ids = lnk_ids(projects@);
    let mut r: Vec<ProjectLnk> = Vec::new();
    let mut i: usize = 0;
    while i < projects.len()
        invariant
            i <= projects.len(),
            list.wf(),
            ids == lnk_ids(projects@),
            f == (|x: Seq<char>| is_missing(list@, x, texts(found_hashes@))),
            lnk_ids(r@) == keep(ids.take(i as int), f),
        decreases projects.len() - i,
    {
        proof {
            crate::seqs::lemma_keep_step(ids, f, i as int);
        }
        let p = &projects[i];
        assert(ids[i as int] == p@);
        let missing = match list.get_project(p) {
            Some(proj_ref) => {
                let downloaded = match proj_ref.get_version() {
                    Some(v) => has_text(found_hashes, v.artifact_hash.as_str()),
                    None => false,
                };
                !list.is_project_archived(p) && !downloaded
            },
            None => false,
        };
        assert(missing == f(p@));
        if missing {
            let ghost r0 = r@;
            r.push(p.clone());
            assert(lnk_ids(r@) =~= lnk_ids(r0).push(p@));
        }
        i = i + 1;
    }
    assert(ids.take(projects.len() as int) =~= ids);
    r
}

/// Whether any of the projects has an update against the artifact hash of its newest
/// known version (see `has_update`); `latest` pairs each project with that hash.
pub fn any_update_available(list: &ProjectList, latest: &Vec<(ProjectLnk, String)>) -> (r: bool)
    ensures
        r == exists|k: int| 0 <= k < latest@.len() && has_update(list@, (#[trigger] latest@[k]).0@, latest@[k].1@),
{
    let mut i: usize = 0;
    while i < latest.len()
        invariant
            i <= latest.len(),
            forall|k: int| 0 <= k < i ==> !has_update(list@, (#[trigger] latest@[k]).0@, latest@[k].1@),
        decreases latest.len() - i,
    {
        let e = &latest[i];
        match list.get_project(&e.0) {
            Some(p) => {
                let upd = match p.get_version() {
                    Some(v) => !str_eq(v.artifact_hash.as_str(), e.1.as_str()),
                    None => true,
                };
                if upd {
                    assert(has_update(list@, latest@[i as int].0@, latest@[i as int].1@));
                    return true;
                }
            },
            None => {},
        }
        i = i + 1;
    }
    false
}

/// Whether the newest version, `latest_version_id`, should be selected for the project
/// (see `wants_latest`).
pub fn should_select_latest(project: &Project, latest_version_id: &str, auto_update: bool) -> (r: bool)
    ensures
        r == wants_latest(project@, latest_version_id@, auto_update),
{
    match project.get_version() {
        Some(v) => auto_update && !str_eq(v.version_id.as_str(), latest_version_id),
        None => true,
    }
}

} // verus!
