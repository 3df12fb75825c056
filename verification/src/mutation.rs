use vstd::prelude::*;
use crate::lnk::ProjectLnk;
use crate::project::{ProjectDependencyType, lnk_ids};

verus! {

/// What an operation on a list did.
#[derive(Clone, Copy, Debug, PartialEq, Eq, Structural)]
pub enum MutationOutcome {
    Unchanged,
    ProjectAdded,
    ProjectPromoted,
    ProjectRemoved,
    ProjectDemoted,
    VersionAdded,
    VersionRemoved,
    OverrideUpdated { old: ProjectDependencyType, new: ProjectDependencyType, management_changed: bool },
    DependenciesCleared,
    OrphansCleared,
    NotFound,
    AlreadyExists,
}

/// The abstract value of a mutation result.
#[verifier::ext_equal]
pub struct MutationModel {
    pub outcome: MutationOutcome,
    pub target: Option<Seq<char>>,
    pub added: Seq<Seq<char>>,
    pub changed: Seq<Seq<char>>,
    pub removed: Seq<Seq<char>>,
}

/// The report of an operation on a list: what happened, to which project,
/// and which projects were added, changed or removed along the way.
#[derive(Debug)]
pub struct MutationResult {
    pub outcome: MutationOutcome,
    /// The main project operated on.
    pub target: Option<ProjectLnk>,
    /// Projects added by the operation.
    pub added_projects: Vec<ProjectLnk>,
    /// Projects that were the subject of the operation.
    pub changed_projects: Vec<ProjectLnk>,
    /// Projects removed by the operation.
    pub removed_projects: Vec<ProjectLnk>,
}

pub open spec fn opt_lnk_view(o: Option<ProjectLnk>) -> Option<Seq<char>> {
    match o {
        Some(l) => Some(l@),
        None => None,
    }
}

impl View for MutationResult {
    type V = MutationModel;

    open spec fn view(&self) -> MutationModel {
        MutationModel {
            outcome: self.outcome,
            target: opt_lnk_view(self.target),
            added: lnk_ids(self.added_projects@),
            changed: lnk_ids(self.changed_projects@),
            removed: lnk_ids(self.removed_projects@),
        }
    }
}

/// A report with the given outcome and nothing else.
pub open spec fn plain(outcome: MutationOutcome) -> MutationModel {
    MutationModel {
        outcome,
        target: None,
        added: Seq::empty(),
        changed: Seq::empty(),
        removed: Seq::empty(),
    }
}

/// `m` with the lists of `o` appended, and the target of `o` where `m` has none.
pub open spec fn accumulated(m: MutationModel, o: MutationModel) -> MutationModel {
    MutationModel {
        outcome: m.outcome,
        target: if m.target is None { o.target } else { m.target },
        added: m.added + o.added,
        changed: m.changed + o.changed,
        removed: m.removed + o.removed,
    }
}

/// Whether an outcome counts as a success.
pub open spec fn outcome_is_success(o: MutationOutcome) -> bool {
    !(o is NotFound || o is AlreadyExists)
}

/// Every project a report names: the target first, then the added,
/// changed and removed ones.
pub open spec fn affected_ids(m: MutationModel) -> Seq<Seq<char>> {
    (match m.target {
        Some(t) => seq![t],
        None => Seq::empty(),
    }) + m.added + m.changed + m.removed
}

pub fn append_lnks(dst: &mut Vec<ProjectLnk>, src: Vec<ProjectLnk>)
    ensures
        lnk_ids(final(dst)@) == lnk_ids(old(dst)@) + lnk_ids(src@),
{
    let ghost s0 = src@;
    let mut src = src;
    dst.append(&mut src);
    assert(lnk_ids(dst@) =~= lnk_ids(old(dst)@) + lnk_ids(s0));
}

pub fn extend_cloned(dst: &mut Vec<ProjectLnk>, src: &Vec<ProjectLnk>)
    ensures
        lnk_ids(final(dst)@) == lnk_ids(old(dst)@) + lnk_ids(src@),
{
    let mut i: usize = 0;
    while i < src.len()
        invariant
            i <= src.len(),
            lnk_ids(dst@) == lnk_ids(old(dst)@) + lnk_ids(src@.take(i as int)),
        decreases src.len() - i,
    {
        let ghost before = dst@;
        dst.push(src[i].clone());
        assert(src@.take(i + 1) =~= src@.take(i as int).push(src@[i as int]));
        assert(lnk_ids(dst@) =~= lnk_ids(before).push(src@[i as int]@));
        assert(lnk_ids(src@.take(i + 1)) =~= lnk_ids(src@.take(i as int)).push(src@[i as int]@));
        i = i + 1;
    }
    assert(src@.take(src@.len() as int) =~= src@);
}

impl MutationResult {
    pub fn new(outcome: MutationOutcome) -> (r: MutationResult)
        ensures
            r@ == plain(outcome),
    {
        let r = MutationResult {
            outcome,
            target: None,
            added_projects: Vec::new(),
            changed_projects: Vec::new(),
            removed_projects: Vec::new(),
        };
        assert(r@ =~= plain(outcome));
        r
    }

    pub fn not_found() -> (r: MutationResult)
        ensures
            r@ == plain(MutationOutcome::NotFound),
    {
        Self::new(MutationOutcome::NotFound)
    }

    pub fn unchanged() -> (r: MutationResult)
        ensures
            r@ == plain(MutationOutcome::Unchanged),
    {
        Self::new(MutationOutcome::Unchanged)
    }

    pub fn with_target(self, target: ProjectLnk) -> (r: MutationResult)
        ensures
            r@ == (MutationModel { target: Some(target@), ..self@ }),
    {
        let mut s = self;
        s.target = Some(target);
        s
    }

    /// Merges another report into this one: its target where this one has none,
    /// and its added, changed and removed projects appended.
    pub fn accumulate(&mut self, other: MutationResult)
        ensures
            final(self)@ == accumulated(old(self)@, other@),
    {
        let MutationResult { outcome: _, target, added_projects, changed_projects, removed_projects } = other;
        if self.target.is_none() {
            self.target = target;
        }
        self.add_added(added_projects);
        self.add_changed(changed_projects);
        self.add_removed(removed_projects);
    }

    /// Merges another report into this one, as `accumulate` does.
    pub fn chain(&mut self, other: MutationResult)
        ensures
            final(self)@ == accumulated(old(self)@, other@),
    {
        self.accumulate(other);
    }

    pub fn add_added(&mut self, projects: Vec<ProjectLnk>)
        ensures
            final(self)@ == (MutationModel { added: old(self)@.added + lnk_ids(projects@), ..old(self)@ }),
    {
        append_lnks(&mut self.added_projects, projects);
    }

    pub fn add_changed(&mut self, projects: Vec<ProjectLnk>)
        ensures
            final(self)@ == (MutationModel { changed: old(self)@.changed + lnk_ids(projects@), ..old(self)@ }),
    {
        append_lnks(&mut self.changed_projects, projects);
    }

    pub fn add_removed(&mut self, orphans: Vec<ProjectLnk>)
        ensures
            final(self)@ == (MutationModel { removed: old(self)@.removed + lnk_ids(orphans@), ..old(self)@ }),
    {
        append_lnks(&mut self.removed_projects, orphans);
    }

    pub fn is_success(&self) -> (r: bool)
        ensures
            r == outcome_is_success(self@.outcome),
    {
        !matches!(self.outcome, MutationOutcome::NotFound | MutationOutcome::AlreadyExists)
    }

    /// The number of projects the report names (the target counts once).
    pub fn total_affected_count(&self) -> (r: usize)
        requires
            affected_ids(self@).len() <= usize::MAX,
        ensures
            r == affected_ids(self@).len(),
    {
        let mut count: usize = 0;
        if self.target.is_some() {
            count = count + 1;
        }
        count + self.added_projects.len() + self.changed_projects.len() + self.removed_projects.len()
    }

    /// Every project the report names: target first, then added, changed and removed.
    pub fn all_affected_ids(&self) -> (r: Vec<ProjectLnk>)
        ensures
            lnk_ids(r@) == affected_ids(self@),
    {
        let mut ids: Vec<ProjectLnk> = Vec::new();
        if let Some(t) = &self.target {
            ids.push(t.clone());
        }
        assert(lnk_ids(ids@) =~= match self@.target {
            Some(t) => seq![t],
            None => Seq::<Seq<char>>::empty(),
        });
        extend_cloned(&mut ids, &self.added_projects);
        extend_cloned(&mut ids, &self.changed_projects);
        extend_cloned(&mut ids, &self.removed_projects);
        ids
    }
}

/// The number of projects a report names is one for its target (when it has one) plus
/// the numbers of added, changed and removed projects: `total_affected_count` and the
/// length of what `all_affected_ids` returns agree.
pub proof fn law_affected_count(m: MutationModel)
    ensures
        affected_ids(m).len() == (if m.target is Some { 1int } else { 0int }) + m.added.len() + m.changed.len()
            + m.removed.len(),
{
}

} // verus!
