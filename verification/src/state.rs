use vstd::prelude::*;
use crate::config::{AppConfig, ConfigModel, context_group, opt_group_view, opt_list_view, with_item};
use crate::effect::{Effect, EffectModel, effects_view, lnks_model, strings_model};
use crate::game::{GameLoader, GameVersion, GameVersionModel, LoaderModel};
use crate::lnk::{ListGroupLnk, ListLnk, ProjectLnk, SidebarItem, SidebarKey};
use crate::project_list::{ListModel, ProjectList, TypeConfigModel, config_for, list_types};
use crate::resource_type::{ResourceType, spec_file_extension};
use crate::seqs::{first_idx, is_first, lemma_is_first_unique, lemma_none_first};

verus! {

/// Where the download of a project's file stands.
#[derive(Clone, Copy, Debug, PartialEq, Eq, Structural)]
pub enum DownloadStatus {
    Idle,
    Queued,
    Downloading,
    Complete,
    Failed,
}

/// The abstract value of a file found while importing a folder.
#[verifier::ext_equal]
pub struct CandidateModel {
    pub original_filename: Seq<char>,
    pub cleaned_name: Seq<char>,
    pub detected_version: GameVersionModel,
    pub detected_loader: LoaderModel,
    pub search_results: Option<Seq<(Seq<char>, Seq<char>)>>,
}

/// A file found while importing a folder, with what was detected of it and the
/// projects that a search proposed for it.
#[derive(Debug)]
pub struct FolderImportCandidate {
    pub original_filename: String,
    pub cleaned_name: String,
    pub detected_version: GameVersion,
    pub detected_loader: GameLoader,
    pub search_results: Option<Vec<(ProjectLnk, String)>>,
}

pub open spec fn results_view(v: Seq<(ProjectLnk, String)>) -> Seq<(Seq<char>, Seq<char>)> {
    v.map_values(|e: (ProjectLnk, String)| (e.0@, e.1@))
}

pub open spec fn opt_results_view(o: Option<Vec<(ProjectLnk, String)>>) -> Option<Seq<(Seq<char>, Seq<char>)>> {
    match o {
        Some(v) => Some(results_view(v@)),
        None => None,
    }
}

impl View for FolderImportCandidate {
    type V = CandidateModel;

    open spec fn view(&self) -> CandidateModel {
        CandidateModel {
            original_filename: self.original_filename@,
            cleaned_name: self.cleaned_name@,
            detected_version: self.detected_version@,
            detected_loader: self.detected_loader@,
            search_results: opt_results_view(self.search_results),
        }
    }
}

/// The abstract value of a folder import.
#[verifier::ext_equal]
pub struct SessionModel {
    pub path: Seq<char>,
    pub resource_type: ResourceType,
    pub candidates: Seq<CandidateModel>,
    pub suggested_version: Option<GameVersionModel>,
    pub suggested_loader: Option<LoaderModel>,
    pub is_scanning: bool,
    pub scan_progress: Option<(usize, usize, Seq<char>)>,
    pub scan_error: Option<Seq<char>>,
    pub selected_matches: Seq<(usize, usize)>,
    pub skipped_items: Seq<usize>,
    pub exact_matches: Seq<usize>,
    pub manually_cleared: Seq<usize>,
    pub show_only_unresolved: bool,
}

/// An import of the files of a folder into a new list, while the user reviews it.
#[derive(Debug)]
pub struct FolderImportSession {
    pub path: String,
    pub resource_type: ResourceType,
    pub candidates: Vec<FolderImportCandidate>,
    pub suggested_version: Option<GameVersion>,
    pub suggested_loader: Option<GameLoader>,
    pub is_scanning: bool,
    pub scan_progress: Option<(usize, usize, String)>,
    pub scan_error: Option<String>,
    /// For a candidate (by position), the position of the search result chosen for it.
    pub selected_matches: Vec<(usize, usize)>,
    pub skipped_items: Vec<usize>,
    pub exact_matches: Vec<usize>,
    pub manually_cleared: Vec<usize>,
    pub show_only_unresolved: bool,
}

pub open spec fn candidates_view(v: Seq<FolderImportCandidate>) -> Seq<CandidateModel> {
    v.map_values(|c: FolderImportCandidate| c@)
}

pub open spec fn opt_version_view(o: Option<GameVersion>) -> Option<GameVersionModel> {
    match o {
        Some(v) => Some(v@),
        None => None,
    }
}

pub open spec fn opt_loader_view(o: Option<GameLoader>) -> Option<LoaderModel> {
    match o {
        Some(l) => Some(l@),
        None => None,
    }
}

pub open spec fn opt_progress_view(o: Option<(usize, usize, String)>) -> Option<(usize, usize, Seq<char>)> {
    match o {
        Some(p) => Some((p.0, p.1, p.2@)),
        None => None,
    }
}

pub open spec fn opt_string_view(o: Option<String>) -> Option<Seq<char>> {
    match o {
        Some(s) => Some(s@),
        None => None,
    }
}

impl View for FolderImportSession {
    type V = SessionModel;

    open spec fn view(&self) -> SessionModel {
        SessionModel {
            path: self.path@,
            resource_type: self.resource_type,
            candidates: candidates_view(self.candidates@),
            suggested_version: opt_version_view(self.suggested_version),
            suggested_loader: opt_loader_view(self.suggested_loader),
            is_scanning: self.is_scanning,
            scan_progress: opt_progress_view(self.scan_progress),
            scan_error: opt_string_view(self.scan_error),
            selected_matches: self.selected_matches@,
            skipped_items: self.skipped_items@,
            exact_matches: self.exact_matches@,
            manually_cleared: self.manually_cleared@,
            show_only_unresolved: self.show_only_unresolved,
        }
    }
}

/// The abstract value of the clipboard.
#[verifier::ext_equal]
pub struct ClipModel {
    pub source_list: Seq<char>,
    pub projects: Seq<Seq<char>>,
    pub is_cut: bool,
}

/// Projects copied (or cut) from a list, waiting to be pasted into another.
#[derive(Debug)]
pub struct ClipboardContent {
    pub source_list: ListLnk,
    pub projects: Vec<ProjectLnk>,
    pub is_cut: bool,
}

impl View for ClipboardContent {
    type V = ClipModel;

    open spec fn view(&self) -> ClipModel {
        ClipModel { source_list: self.source_list@, projects: lnks_model(self.projects@), is_cut: self.is_cut }
    }
}

pub open spec fn opt_clip_view(o: Option<ClipboardContent>) -> Option<ClipModel> {
    match o {
        Some(c) => Some(c@),
        None => None,
    }
}

pub open spec fn opt_session_view(o: Option<FolderImportSession>) -> Option<SessionModel> {
    match o {
        Some(s) => Some(s@),
        None => None,
    }
}

pub open spec fn opt_scroll_view(o: Option<(ListLnk, ProjectLnk)>) -> Option<(Seq<char>, Seq<char>)> {
    match o {
        Some(p) => Some((p.0@, p.1@)),
        None => None,
    }
}

pub open spec fn opt_item_view(o: Option<SidebarItem>) -> Option<SidebarKey> {
    match o {
        Some(i) => Some(i@),
        None => None,
    }
}

/// The abstract value of the application state.
#[verifier::ext_equal]
pub struct StateModel {
    pub loading: bool,
    pub offline_mode: bool,
    pub default_dirs: Seq<(ResourceType, Seq<char>)>,
    pub config: ConfigModel,
    pub lists: Seq<ListModel>,
    pub open_list: Option<Seq<char>>,
    pub open_group: Option<Seq<char>>,
    pub found_files: Seq<(Seq<char>, Seq<(Seq<char>, Seq<char>)>)>,
    pub active_scans: Seq<Seq<char>>,
    pub download_status: Seq<(Seq<char>, DownloadStatus)>,
    pub clipboard: Option<ClipModel>,
    pub session: Option<SessionModel>,
    pub pending_scroll: Option<(Seq<char>, Seq<char>)>,
    pub pending_sidebar_scroll: Option<SidebarKey>,
    pub effects: Seq<EffectModel>,
}

/// The state of the application: its settings, the lists it holds, what is open,
/// what was found on disk, and the effects it asked for and that were not yet run.
#[derive(Debug)]
pub struct RDState {
    pub loading: bool,
    pub offline_mode: bool,
    pub default_dirs: Vec<(ResourceType, String)>,
    pub config: AppConfig,
    pub lists: Vec<ProjectList>,
    pub open_list: Option<ListLnk>,
    pub open_list_group: Option<ListGroupLnk>,
    /// For a directory, the files found in it with their hashes.
    pub found_files: Vec<(String, Vec<(String, String)>)>,
    pub active_scans: Vec<String>,
    pub download_status: Vec<(ProjectLnk, DownloadStatus)>,
    pub clipboard: Option<ClipboardContent>,
    pub folder_import_session: Option<FolderImportSession>,
    pub pending_scroll: Option<(ListLnk, ProjectLnk)>,
    pub pending_sidebar_scroll: Option<SidebarItem>,
    /// The effects asked for, oldest first.
    pub effects: Vec<Effect>,
}

pub open spec fn dirs_view(v: Seq<(ResourceType, String)>) -> Seq<(ResourceType, Seq<char>)> {
    v.map_values(|e: (ResourceType, String)| (e.0, e.1@))
}

pub open spec fn lists_view(v: Seq<ProjectList>) -> Seq<ListModel> {
    v.map_values(|l: ProjectList| l@)
}

pub open spec fn files_view(v: Seq<(String, String)>) -> Seq<(Seq<char>, Seq<char>)> {
    v.map_values(|e: (String, String)| (e.0@, e.1@))
}

pub open spec fn found_view(v: Seq<(String, Vec<(String, String)>)>) -> Seq<(Seq<char>, Seq<(Seq<char>, Seq<char>)>)> {
    v.map_values(|e: (String, Vec<(String, String)>)| (e.0@, files_view(e.1@)))
}

pub open spec fn status_view(v: Seq<(ProjectLnk, DownloadStatus)>) -> Seq<(Seq<char>, DownloadStatus)> {
    v.map_values(|e: (ProjectLnk, DownloadStatus)| (e.0@, e.1))
}

impl View for RDState {
    type V = StateModel;

    open spec fn view(&self) -> StateModel {
        StateModel {
            loading: self.loading,
            offline_mode: self.offline_mode,
            default_dirs: dirs_view(self.default_dirs@),
            config: self.config@,
            lists: lists_view(self.lists@),
            open_list: opt_list_view(self.open_list),
            open_group: opt_group_view(self.open_list_group),
            found_files: found_view(self.found_files@),
            active_scans: strings_model(self.active_scans@),
            download_status: status_view(self.download_status@),
            clipboard: opt_clip_view(self.clipboard),
            session: opt_session_view(self.folder_import_session),
            pending_scroll: opt_scroll_view(self.pending_scroll),
            pending_sidebar_scroll: opt_item_view(self.pending_sidebar_scroll),
            effects: effects_view(self.effects@),
        }
    }
}

/// No two lists have the same id.
pub open spec fn unique_list_ids(ls: Seq<ListModel>) -> bool {
    forall|i: int, j: int| 0 <= i < ls.len() && 0 <= j < ls.len() && i != j ==> ls[i].id != ls[j].id
}

/// Selects the list with the given id.
pub open spec fn list_is(id: Seq<char>) -> spec_fn(ListModel) -> bool {
    |l: ListModel| l.id == id
}

/// The position of the list with the given id (-1 when absent).
pub open spec fn list_pos(ls: Seq<ListModel>, id: Seq<char>) -> int {
    first_idx(ls, list_is(id))
}

/// The list with the given id, when the state holds one.
pub open spec fn list_of(ls: Seq<ListModel>, id: Seq<char>) -> Option<ListModel> {
    let i = list_pos(ls, id);
    if i >= 0 {
        Some(ls[i])
    } else {
        None
    }
}

impl RDState {
    /// The state is well formed: its settings are, each list is, and list ids are unique.
    pub open spec fn wf(&self) -> bool {
        &&& self.config.wf()
        &&& unique_list_ids(self@.lists)
        &&& forall|i: int| 0 <= i < self.lists@.len() ==> (#[trigger] self.lists@[i]).wf()
    }
}

/// The effect that saves the settings.
pub open spec fn save_config_effect(c: ConfigModel) -> EffectModel {
    EffectModel::SaveConfig { config: c }
}

/// A path with each backslash turned into a slash.
pub open spec fn normalized(p: Seq<char>) -> Seq<char> {
    p.map_values(|c: char| if c == '\\' { '/' } else { c })
}

/// The effect that looks for the files of a type in a directory, archived ones included.
pub open spec fn find_files_effect(dir: Seq<char>, ext: Seq<char>) -> EffectModel {
    EffectModel::FindFiles { directory: dir, file_extension: seq![ext, ext + ".archive"@] }
}

/// A set of directories (held in a sequence, each once) with one more.
pub open spec fn scan_add(scans: Seq<Seq<char>>, d: Seq<char>) -> Seq<Seq<char>> {
    if scans.contains(d) {
        scans
    } else {
        scans.push(d)
    }
}

/// The (directory, extension) pairs that a refresh of a list scans: one per type of the
/// list that has settings, in the order of the list's types.
pub open spec fn scan_targets(types: Seq<ResourceType>, tc: Seq<(ResourceType, TypeConfigModel)>) -> Seq<
    (Seq<char>, Seq<char>),
>
    decreases types.len(),
{
    if types.len() == 0 {
        Seq::empty()
    } else {
        let rest = scan_targets(types.drop_last(), tc);
        match config_for(tc, types.last()) {
            Some(c) => rest.push((c.download_dir, spec_file_extension(types.last()))),
            None => rest,
        }
    }
}

/// The effects that scan the given targets.
pub open spec fn scan_effects(targets: Seq<(Seq<char>, Seq<char>)>) -> Seq<EffectModel> {
    targets.map_values(|t: (Seq<char>, Seq<char>)| find_files_effect(t.0, t.1))
}

/// The directories being scanned after scanning the given targets, starting from `scans`.
pub open spec fn scans_after(scans: Seq<Seq<char>>, targets: Seq<(Seq<char>, Seq<char>)>) -> Seq<Seq<char>>
    decreases targets.len(),
{
    if targets.len() == 0 {
        scans
    } else {
        scan_add(scans_after(scans, targets.drop_last()), normalized(targets.last().0))
    }
}

/// The targets that a refresh scans in the state: those of the open list, if it is held.
pub open spec fn refresh_targets(s: StateModel) -> Seq<(Seq<char>, Seq<char>)> {
    match s.open_list {
        Some(id) => match list_of(s.lists, id) {
            Some(l) => scan_targets(list_types(l), l.type_config),
            None => Seq::empty(),
        },
        None => Seq::empty(),
    }
}

/// The state after a full refresh: nothing found yet, the open list's directories being
/// scanned, and one scan asked for each of them.
pub open spec fn refreshed(s: StateModel) -> StateModel {
    StateModel {
        found_files: Seq::empty(),
        active_scans: scans_after(Seq::empty(), refresh_targets(s)),
        effects: s.effects + scan_effects(refresh_targets(s)),
        ..s
    }
}

/// The state after the open list is saved (when the state holds it).
pub open spec fn with_list_saved(s: StateModel, id: Seq<char>) -> StateModel {
    if list_of(s.lists, id) is Some {
        StateModel { effects: s.effects.push(EffectModel::SaveList { list: id }), ..s }
    } else {
        s
    }
}

/// The state of a fresh start.
pub open spec fn initial_state(c: ConfigModel) -> StateModel {
    StateModel {
        loading: true,
        offline_mode: false,
        default_dirs: Seq::empty(),
        config: c,
        lists: Seq::empty(),
        open_list: None,
        open_group: None,
        found_files: Seq::empty(),
        active_scans: Seq::empty(),
        download_status: Seq::empty(),
        clipboard: None,
        session: None,
        pending_scroll: None,
        pending_sidebar_scroll: None,
        effects: Seq::empty(),
    }
}

/// Finds the list with the given id.
pub fn find_list(lists: &Vec<ProjectList>, l: &ListLnk) -> (r: Option<usize>)
    ensures
        match r {
            Some(i) => {
                &&& list_pos(lists_view(lists@), l@) == i as int
                &&& i < lists@.len()
                &&& lists@[i as int]@.id == l@
                &&& list_of(lists_view(lists@), l@) == Some(lists@[i as int]@)
            },
            None => list_pos(lists_view(lists@), l@) == -1 && list_of(lists_view(lists@), l@) is None,
        },
{
    let ghost ls = lists_view(lists@);
    let mut i: usize = 0;
    while i < lists.len()
        invariant
            ls == lists_view(lists@),
            i <= lists.len(),
            forall|j: int| 0 <= j < i ==> !list_is(l@)(ls[j]),
        decreases lists.len() - i,
    {
        if lists[i].is_lnk(l) {
            assert(is_first(ls, list_is(l@), i as int));
            proof {
                lemma_is_first_unique(ls, list_is(l@), i as int);
            }
            return Some(i);
        }
        i = i + 1;
    }
    proof {
        lemma_none_first(ls, list_is(l@));
    }
    None
}

/// Replaces each backslash of a path by a slash.
pub fn normalize_path(path: &str) -> (r: String)
    ensures
        r@ == normalized(path@),
{
    let cs = crate::text::chars_of(path);
    let mut out: Vec<char> = Vec::new();
    let mut i: usize = 0;
    while i < cs.len()
        invariant
            i <= cs.len(),
            cs@ == path@,
            out@ == normalized(path@).take(i as int),
        decreases cs.len() - i,
    {
        let c = cs[i];
        if c == '\\' {
            out.push('/');
        } else {
            out.push(c);
        }
        assert(normalized(path@).take(i + 1) =~= normalized(path@).take(i as int).push(
            normalized(path@)[i as int],
        ));
        i = i + 1;
    }
    assert(normalized(path@).take(cs.len() as int) =~= normalized(path@));
    crate::text::string_from_chars(&out)
}

impl RDState {
    /// A fresh state: loading, online, with default settings and nothing else.
    pub fn new() -> (r: RDState)
        ensures
            r.wf(),
            r@ == initial_state(crate::config::default_config_model()),
    {
        let r = RDState {
            loading: true,
            offline_mode: false,
            default_dirs: Vec::new(),
            config: AppConfig::default(),
            lists: Vec::new(),
            open_list: None,
            open_list_group: None,
            found_files: Vec::new(),
            active_scans: Vec::new(),
            download_status: Vec::new(),
            clipboard: None,
            folder_import_session: None,
            pending_scroll: None,
            pending_sidebar_scroll: None,
            effects: Vec::new(),
        };
        assert(r@ =~= initial_state(crate::config::default_config_model()));
        r
    }

    /// Asks for an effect.
    pub fn dispatch(&mut self, effect: Effect)
        ensures
            final(self)@ == (StateModel { effects: old(self)@.effects.push(effect@), ..old(self)@ }),
            final(self).lists@ == old(self).lists@,
            final(self).config == old(self).config,
    {
        self.effects.push(effect);
        assert(self@.effects =~= old(self)@.effects.push(effect@));
    }

    /// Asks for the settings, as they are now, to be saved.
    pub fn save_config(&mut self)
        ensures
            final(self)@ == (StateModel {
                effects: old(self)@.effects.push(save_config_effect(old(self)@.config)),
                ..old(self)@
            }),
            final(self).lists@ == old(self).lists@,
            final(self).config == old(self).config,
    {
        let config = self.config.clone();
        self.dispatch(Effect::SaveConfig { config });
    }

    /// Asks for the state to be loaded.
    pub fn initialize(&mut self)
        ensures
            final(self)@ == (StateModel { effects: old(self)@.effects.push(EffectModel::Initialize), ..old(self)@ }),
    {
        self.dispatch(Effect::Initialize);
    }

    /// Asks for a directory to be shown in the file explorer.
    pub fn open_explorer(&mut self, path: String)
        ensures
            final(self)@ == (StateModel {
                effects: old(self)@.effects.push(EffectModel::OpenExplorer { path: path@ }),
                ..old(self)@
            }),
    {
        self.dispatch(Effect::OpenExplorer { path });
    }

    /// Asks for a collection of the remote service to be imported.
    pub fn import_modrinth(&mut self, collection_id: String)
        ensures
            final(self)@ == (StateModel {
                effects: old(self)@.effects.push(EffectModel::ImportModrinthCollection { collection_id: collection_id@ }),
                ..old(self)@
            }),
    {
        self.dispatch(Effect::ImportModrinthCollection { collection_id });
    }

    /// Puts projects of a list on the clipboard, replacing what was there.
    pub fn set_clipboard(&mut self, source_list: ListLnk, projects: Vec<ProjectLnk>, is_cut: bool)
        ensures
            final(self)@ == (StateModel {
                clipboard: Some(ClipModel { source_list: source_list@, projects: lnks_model(projects@), is_cut }),
                ..old(self)@
            }),
            final(self).lists@ == old(self).lists@,
            final(self).config == old(self).config,
    {
        self.clipboard = Some(ClipboardContent { source_list, projects, is_cut });
    }

    /// Starts scanning a directory for files with the given extension (archived ones included).
    pub fn find_files(&mut self, directory: String, file_extension: String)
        ensures
            final(self)@ == (StateModel {
                active_scans: scan_add(old(self)@.active_scans, normalized(directory@)),
                effects: old(self)@.effects.push(find_files_effect(directory@, file_extension@)),
                ..old(self)@
            }),
            final(self).lists@ == old(self).lists@,
            final(self).config == old(self).config,
    {
        let norm_dir = normalize_path(directory.as_str());
        let mut present = false;
        let mut i: usize = 0;
        while i < self.active_scans.len()
            invariant
                i <= self.active_scans.len(),
                present == exists|j: int| 0 <= j < i && self.active_scans@[j]@ == norm_dir@,
            decreases self.active_scans.len() - i,
        {
            if self.active_scans[i] == norm_dir {
                present = true;
            }
            i = i + 1;
        }
        proof {
            let sc = strings_model(self.active_scans@);
            if present {
                let j = choose|j: int| 0 <= j < self.active_scans@.len() && self.active_scans@[j]@ == norm_dir@;
                assert(sc[j] == norm_dir@);
            } else {
                assert forall|j: int| 0 <= j < sc.len() implies sc[j] != norm_dir@ by {
                    assert(sc[j] == self.active_scans@[j]@);
                }
            }
        }
        if !present {
            self.active_scans.push(norm_dir);
            assert(strings_model(self.active_scans@) =~= strings_model(old(self).active_scans@).push(
                normalized(directory@),
            ));
        }
        let archived = crate::text::concat(file_extension.as_str(), ".archive");
        let mut exts: Vec<String> = Vec::new();
        exts.push(file_extension);
        exts.push(archived);
        assert(strings_model(exts@) =~= seq![file_extension@, file_extension@ + ".archive"@]);
        self.dispatch(Effect::FindFiles { directory, file_extension: exts });
    }
}


/// Whether two optional list links refer to the same list (or are both absent).
pub fn same_list(a: &Option<ListLnk>, b: &Option<ListLnk>) -> (r: bool)
    ensures
        r == (opt_list_view(*a) == opt_list_view(*b)),
{
    match (a, b) {
        (Some(x), Some(y)) => x == y,
        (None, None) => true,
        _ => false,
    }
}

/// Whether two optional group links refer to the same group (or are both absent).
pub fn same_group(a: &Option<ListGroupLnk>, b: &Option<ListGroupLnk>) -> (r: bool)
    ensures
        r == (opt_group_view(*a) == opt_group_view(*b)),
{
    match (a, b) {
        (Some(x), Some(y)) => x == y,
        (None, None) => true,
        _ => false,
    }
}

pub fn clone_opt_list(o: &Option<ListLnk>) -> (r: Option<ListLnk>)
    ensures
        opt_list_view(r) == opt_list_view(*o),
{
    match o {
        Some(l) => Some(l.clone()),
        None => None,
    }
}

/// The state after the list with the given id (if any, and if held) is saved.
pub open spec fn after_save_list(s: StateModel, o: Option<Seq<char>>) -> StateModel {
    match o {
        Some(id) => with_list_saved(s, id),
        None => s,
    }
}

/// The state after a list (or none) is opened, as `set_open_list` leaves it when the
/// open list changes: the list that was open is saved, the new one is recorded in the
/// settings, which are saved, and everything is refreshed.
pub open spec fn opened_list(s: StateModel, o: Option<Seq<char>>) -> StateModel {
    let saved = after_save_list(s, s.open_list);
    let c = ConfigModel { last_open_list: o, ..s.config };
    refreshed(
        StateModel {
            open_list: o,
            config: c,
            effects: saved.effects.push(save_config_effect(c)),
            ..saved
        },
    )
}

/// As `opened_list`, without saving the list that was open.
pub open spec fn opened_list_no_save(s: StateModel, o: Option<Seq<char>>) -> StateModel {
    let c = ConfigModel { last_open_list: o, ..s.config };
    refreshed(StateModel { open_list: o, config: c, effects: s.effects.push(save_config_effect(c)), ..s })
}

/// The state after a group (or none) is opened, when the open group changes: opening a
/// group saves and closes the open list.
pub open spec fn opened_group(s: StateModel, o: Option<Seq<char>>) -> StateModel {
    let s1 = if o is Some {
        let saved = after_save_list(s, s.open_list);
        StateModel { open_list: None, config: ConfigModel { last_open_list: None, ..s.config }, ..saved }
    } else {
        s
    };
    refreshed(StateModel { open_group: o, effects: s1.effects.push(save_config_effect(s1.config)), ..s1 })
}

proof fn lemma_scan_targets_step(types: Seq<ResourceType>, tc: Seq<(ResourceType, TypeConfigModel)>, k: int)
    requires
        0 <= k < types.len(),
    ensures
        scan_targets(types.take(k + 1), tc) == (match config_for(tc, types[k]) {
            Some(c) => scan_targets(types.take(k), tc).push((c.download_dir, spec_file_extension(types[k]))),
            None => scan_targets(types.take(k), tc),
        }),
{
    assert(types.take(k + 1).drop_last() =~= types.take(k));
    assert(types.take(k + 1).last() == types[k]);
}

impl RDState {
    /// Forgets what was found on disk and scans again the directories of the open list.
    #[verifier::spinoff_prover]
    #[verifier::rlimit(40)]
    pub fn request_full_refresh(&mut self)
        requires
            old(self).wf(),
        ensures
            final(self)@ == refreshed(old(self)@),
            final(self).lists@ == old(self).lists@,
            final(self).config == old(self).config,
            final(self).wf(),
    {
        self.found_files = Vec::new();
        self.active_scans = Vec::new();
        assert(self@.found_files =~= Seq::<(Seq<char>, Seq<(Seq<char>, Seq<char>)>)>::empty());
        assert(self@.active_scans =~= Seq::<Seq<char>>::empty());
        let ghost s0 = old(self)@;
        let l = match &self.open_list {
            None => {
                assert(self@.effects =~= s0.effects + scan_effects(refresh_targets(s0)));
                assert(self@ =~= refreshed(s0));
                return ;
            },
            Some(l) => l.clone(),
        };
        let i = match find_list(&self.lists, &l) {
            None => {
                assert(self@.effects =~= s0.effects + scan_effects(refresh_targets(s0)));
                assert(self@ =~= refreshed(s0));
                return ;
            },
            Some(i) => i,
        };
        let types = self.lists[i].get_resource_types();
        let ghost lm = self.lists@[i as int]@;
        assert(self.lists@[i as int].wf());
        let mut k: usize = 0;
        while k < types.len()
            invariant
                k <= types.len(),
                i < self.lists.len(),
                self.lists@ == old(self).lists@,
                self.config == old(self).config,
                lm == self.lists@[i as int]@,
                self.lists@[i as int].wf(),
                types@ == list_types(lm),
                self@ == (StateModel {
                    found_files: Seq::empty(),
                    active_scans: scans_after(Seq::empty(), scan_targets(types@.take(k as int), lm.type_config)),
                    effects: s0.effects + scan_effects(scan_targets(types@.take(k as int), lm.type_config)),
                    ..s0
                }),
            decreases types.len() - k,
        {
            let t = types[k];
            proof {
                lemma_scan_targets_step(types@, lm.type_config, k as int);
            }
            let ghost before = scan_targets(types@.take(k as int), lm.type_config);
            let dir = match self.lists[i].get_resource_type(&t) {
                Some(tc) => Some(tc.download_dir.clone()),
                None => None,
            };
            match dir {
                Some(d) => {
                    let ext = t.file_extension();
                    let ghost after = before.push((d@, ext@));
                    self.find_files(d, ext);
                    assert(scans_after(Seq::empty(), after) == scan_add(scans_after(Seq::empty(), before), normalized(d@))) by {
                        assert(after.drop_last() =~= before);
                    }
                    assert(scan_effects(after) =~= scan_effects(before).push(find_files_effect(d@, ext@)));
                    assert(s0.effects + scan_effects(after) =~= (s0.effects + scan_effects(before)).push(find_files_effect(d@, ext@)));
                },
                None => {},
            }
            k = k + 1;
        }
        assert(types@.take(types.len() as int) =~= types@);
        assert(self@ =~= refreshed(s0));
    }

    /// Asks for a list to be saved, when the state holds it.
    pub fn save_list(&mut self, l: &ListLnk)
        ensures
            final(self)@ == with_list_saved(old(self)@, l@),
            final(self).lists@ == old(self).lists@,
            final(self).config == old(self).config,
    {
        match find_list(&self.lists, l) {
            Some(_) => self.dispatch(Effect::SaveList { list: l.clone() }),
            None => {},
        }
    }

    /// Opens a list (or closes the open one), saving the one that was open.
    pub fn set_open_list(&mut self, list: Option<ListLnk>)
        requires
            old(self).wf(),
        ensures
            final(self).wf(),
            final(self).lists@ == old(self).lists@,
            old(self)@.open_list == opt_list_view(list) ==> final(self)@ == old(self)@,
            old(self)@.open_list != opt_list_view(list) ==> final(self)@ == opened_list(old(self)@, opt_list_view(list)),
    {
        if same_list(&self.open_list, &list) {
            return ;
        }
        let ghost s0 = self@;
        match clone_opt_list(&self.open_list) {
            Some(old_list) => self.save_list(&old_list),
            None => {},
        }
        let ghost s1 = self@;
        assert(s1 == after_save_list(s0, s0.open_list));
        self.open_list = clone_opt_list(&list);
        self.config.last_open_list_id = list;
        self.save_config();
        self.request_full_refresh();
        assert(self@ =~= opened_list(s0, opt_list_view(list)));
    }

    /// Opens a list (or closes the open one) without saving the one that was open.
    pub fn set_open_list_no_save(&mut self, list: Option<ListLnk>)
        requires
            old(self).wf(),
        ensures
            final(self).wf(),
            final(self).lists@ == old(self).lists@,
            old(self)@.open_list == opt_list_view(list) ==> final(self)@ == old(self)@,
            old(self)@.open_list != opt_list_view(list) ==> final(self)@ == opened_list_no_save(
                old(self)@,
                opt_list_view(list),
            ),
    {
        if same_list(&self.open_list, &list) {
            return ;
        }
        let ghost s0 = self@;
        self.open_list = clone_opt_list(&list);
        self.config.last_open_list_id = list;
        self.save_config();
        self.request_full_refresh();
        assert(self@ =~= opened_list_no_save(s0, opt_list_view(list)));
    }

    /// Opens a group (or closes the open one); opening a group closes the open list.
    pub fn set_open_list_group(&mut self, list_group: Option<ListGroupLnk>)
        requires
            old(self).wf(),
        ensures
            final(self).wf(),
            final(self).lists@ == old(self).lists@,
            old(self)@.open_group == opt_group_view(list_group) ==> final(self)@ == old(self)@,
            old(self)@.open_group != opt_group_view(list_group) ==> final(self)@ == opened_group(
                old(self)@,
                opt_group_view(list_group),
            ),
    {
        if same_group(&self.open_list_group, &list_group) {
            return ;
        }
        let ghost s0 = self@;
        if list_group.is_some() {
            match clone_opt_list(&self.open_list) {
                Some(old_list) => self.save_list(&old_list),
                None => {},
            }
            self.open_list = None;
            self.config.last_open_list_id = None;
        }
        let ghost s1 = self@;
        self.open_list_group = list_group;
        self.save_config();
        self.request_full_refresh();
        assert(self@ =~= opened_group(s0, opt_group_view(list_group)));
    }
}

/// The state after a new sidebar entry is placed (see `with_item`) and the settings saved.
pub open spec fn with_sidebar_item(s: StateModel, k: SidebarKey) -> StateModel {
    let c = with_item(s.config, k, context_group(s.open_group, s.open_list, s.config));
    StateModel { config: c, effects: s.effects.push(save_config_effect(c)), ..s }
}

impl RDState {
    /// The group that new entries go into: the open group, or else the group of the open list.
    pub fn context_group(&self) -> (r: Option<ListGroupLnk>)
        ensures
            opt_group_view(r) == context_group(self@.open_group, self@.open_list, self@.config),
    {
        match &self.open_list_group {
            Some(g) => Some(g.clone()),
            None => match &self.open_list {
                Some(l) => self.config.group_of_list(l),
                None => None,
            },
        }
    }

    /// Places a new entry in the sidebar, in the group of what is open (see `with_item`),
    /// and saves the settings.
    pub fn insert_sidebar_item(&mut self, new_item: SidebarItem, is_duplication: bool)
        requires
            old(self).wf(),
        ensures
            final(self).wf(),
            final(self).lists@ == old(self).lists@,
            final(self)@ == with_sidebar_item(old(self)@, new_item@),
    {
        let ghost s0 = self@;
        let context = self.context_group();
        self.config.insert_item(new_item, context);
        self.save_config();
        assert(self@ =~= with_sidebar_item(s0, new_item@));
    }
}

pub fn clone_results(v: &Vec<(ProjectLnk, String)>) -> (r: Vec<(ProjectLnk, String)>)
    ensures
        results_view(r@) == results_view(v@),
{
    let mut r: Vec<(ProjectLnk, String)> = Vec::new();
    let mut i: usize = 0;
    while i < v.len()
        invariant
            i <= v.len(),
            results_view(r@) == results_view(v@).take(i as int),
        decreases v.len() - i,
    {
        r.push((v[i].0.clone(), v[i].1.clone()));
        assert(results_view(v@).take(i + 1) =~= results_view(v@).take(i as int).push(results_view(v@)[i as int]));
        assert(results_view(r@) =~= results_view(v@).take(i + 1));
        i = i + 1;
    }
    assert(results_view(v@).take(v.len() as int) =~= results_view(v@));
    r
}

pub fn clone_opt_version(o: &Option<GameVersion>) -> (r: Option<GameVersion>)
    ensures
        opt_version_view(r) == opt_version_view(*o),
{
    match o {
        Some(v) => Some(v.clone()),
        None => None,
    }
}

pub fn clone_opt_loader(o: &Option<GameLoader>) -> (r: Option<GameLoader>)
    ensures
        opt_loader_view(r) == opt_loader_view(*o),
{
    match o {
        Some(l) => Some(l.clone()),
        None => None,
    }
}

impl Clone for FolderImportCandidate {
    fn clone(&self) -> (r: Self)
        ensures
            r@ == self@,
    {
        FolderImportCandidate {
            original_filename: self.original_filename.clone(),
            cleaned_name: self.cleaned_name.clone(),
            detected_version: self.detected_version.clone(),
            detected_loader: self.detected_loader.clone(),
            search_results: match &self.search_results {
                Some(v) => Some(clone_results(v)),
                None => None,
            },
        }
    }
}

pub fn clone_candidates(v: &Vec<FolderImportCandidate>) -> (r: Vec<FolderImportCandidate>)
    ensures
        candidates_view(r@) == candidates_view(v@),
{
    let mut r: Vec<FolderImportCandidate> = Vec::new();
    let mut i: usize = 0;
    while i < v.len()
        invariant
            i <= v.len(),
            candidates_view(r@) == candidates_view(v@).take(i as int),
        decreases v.len() - i,
    {
        r.push(v[i].clone());
        assert(candidates_view(v@).take(i + 1) =~= candidates_view(v@).take(i as int).push(candidates_view(v@)[i as int]));
        assert(candidates_view(r@) =~= candidates_view(v@).take(i + 1));
        i = i + 1;
    }
    assert(candidates_view(v@).take(v.len() as int) =~= candidates_view(v@));
    r
}

pub fn clone_dirs(v: &Vec<(ResourceType, String)>) -> (r: Vec<(ResourceType, String)>)
    ensures
        dirs_view(r@) == dirs_view(v@),
{
    let mut r: Vec<(ResourceType, String)> = Vec::new();
    let mut i: usize = 0;
    while i < v.len()
        invariant
            i <= v.len(),
            dirs_view(r@) == dirs_view(v@).take(i as int),
        decreases v.len() - i,
    {
        r.push((v[i].0, v[i].1.clone()));
        assert(dirs_view(v@).take(i + 1) =~= dirs_view(v@).take(i as int).push(dirs_view(v@)[i as int]));
        assert(dirs_view(r@) =~= dirs_view(v@).take(i + 1));
        i = i + 1;
    }
    assert(dirs_view(v@).take(v.len() as int) =~= dirs_view(v@));
    r
}

/// The download statuses with that of project `p` set (replacing an earlier one).
pub open spec fn put_status(v: Seq<(Seq<char>, DownloadStatus)>, p: Seq<char>, st: DownloadStatus) -> Seq<
    (Seq<char>, DownloadStatus),
> {
    let i = first_idx(v, |e: (Seq<char>, DownloadStatus)| e.0 == p);
    if i >= 0 {
        v.update(i, (p, st))
    } else {
        v.push((p, st))
    }
}

/// The state of a folder import that starts: for a known type it scans at once.
pub open spec fn new_session(path: Seq<char>, t: Option<ResourceType>) -> SessionModel {
    SessionModel {
        path,
        resource_type: match t {
            Some(x) => x,
            None => ResourceType::Mod,
        },
        candidates: Seq::empty(),
        suggested_version: None,
        suggested_loader: None,
        is_scanning: t is Some,
        scan_progress: None,
        scan_error: None,
        selected_matches: Seq::empty(),
        skipped_items: Seq::empty(),
        exact_matches: Seq::empty(),
        manually_cleared: Seq::empty(),
        show_only_unresolved: false,
    }
}

/// The status a download reaches from what its progress reports: done, failed, or under way.
pub open spec fn status_of(outcome: Option<bool>) -> DownloadStatus {
    match outcome {
        Some(true) => DownloadStatus::Complete,
        Some(false) => DownloadStatus::Failed,
        None => DownloadStatus::Downloading,
    }
}

impl RDState {
    /// Sets the download status of a project.
    pub fn set_download_status(&mut self, project: ProjectLnk, status: DownloadStatus)
        ensures
            final(self)@ == (StateModel {
                download_status: put_status(old(self)@.download_status, project@, status),
                ..old(self)@
            }),
            final(self).lists@ == old(self).lists@,
            final(self).config == old(self).config,
    {
        let ghost v = self@.download_status;
        let ghost f = |e: (Seq<char>, DownloadStatus)| e.0 == project@;
        let mut i: usize = 0;
        while i < self.download_status.len()
            invariant
                i <= self.download_status.len(),
                v == status_view(self.download_status@),
                f == (|e: (Seq<char>, DownloadStatus)| e.0 == project@),
                forall|j: int| 0 <= j < i ==> !f(v[j]),
                self@ == old(self)@,
                self.lists@ == old(self).lists@,
                self.config == old(self).config,
            decreases self.download_status.len() - i,
        {
            if self.download_status[i].0 == project {
                assert(is_first(v, f, i as int));
                proof {
                    lemma_is_first_unique(v, f, i as int);
                }
                let ghost pv = project@;
                self.download_status.set(i, (project, status));
                assert(status_view(self.download_status@) =~= v.update(i as int, (pv, status)));
                assert(self@ =~= (StateModel { download_status: put_status(v, pv, status), ..old(self)@ }));
                return ;
            }
            i = i + 1;
        }
        proof {
            lemma_none_first(v, f);
        }
        let ghost pv = project@;
        self.download_status.push((project, status));
        assert(status_view(self.download_status@) =~= v.push((pv, status)));
        assert(self@ =~= (StateModel { download_status: put_status(v, pv, status), ..old(self)@ }));
    }

    /// Asks for the file of a version of a project to be downloaded to a destination; the
    /// download is queued.
    pub fn download_artifact(
        &mut self,
        project: ProjectLnk,
        resource_type: ResourceType,
        version_id: String,
        artifact_id: String,
        target_destination: String,
    )
        ensures
            final(self)@ == (StateModel {
                download_status: put_status(old(self)@.download_status, project@, DownloadStatus::Queued),
                effects: old(self)@.effects.push(
                    EffectModel::DownloadProjectArtifact {
                        project: project@,
                        resource_type,
                        version_id: version_id@,
                        artifact_id: artifact_id@,
                        target_destination: target_destination@,
                    },
                ),
                ..old(self)@
            }),
            final(self).lists@ == old(self).lists@,
            final(self).config == old(self).config,
    {
        self.set_download_status(project.clone(), DownloadStatus::Queued);
        self.dispatch(
            Effect::DownloadProjectArtifact { project, resource_type, version_id, artifact_id, target_destination },
        );
    }

    /// Takes in the progress of a download: a finished download has the directory it went
    /// to scanned again; the project's status follows the progress (see `status_of`).
    pub fn download_progress(
        &mut self,
        project: ProjectLnk,
        outcome: Option<bool>,
        directory: String,
        resource_type: ResourceType,
    )
        ensures
            final(self)@ == (StateModel {
                download_status: put_status(old(self)@.download_status, project@, status_of(outcome)),
                effects: if outcome == Some(true) {
                    old(self)@.effects.push(find_files_effect(directory@, spec_file_extension(resource_type)))
                } else {
                    old(self)@.effects
                },
                ..old(self)@
            }),
    {
        let ghost s0 = self@;
        let status = match outcome {
            Some(true) => {
                let ext = resource_type.file_extension();
                let archived = crate::text::concat(ext.as_str(), ".archive");
                let mut exts: Vec<String> = Vec::new();
                exts.push(ext);
                exts.push(archived);
                assert(strings_model(exts@) =~= seq![
                    spec_file_extension(resource_type),
                    spec_file_extension(resource_type) + ".archive"@,
                ]);
                self.dispatch(Effect::FindFiles { directory, file_extension: exts });
                DownloadStatus::Complete
            },
            Some(false) => DownloadStatus::Failed,
            None => DownloadStatus::Downloading,
        };
        self.set_download_status(project, status);
    }

    /// Asks for a downloaded file to be deleted, then refreshes everything.
    pub fn delete_artifact(&mut self, path: String, filename: String)
        requires
            old(self).wf(),
        ensures
            final(self).wf(),
            final(self)@ == refreshed(
                StateModel {
                    effects: old(self)@.effects.push(EffectModel::DeleteArtifact { path: path@, filename: filename@ }),
                    ..old(self)@
                },
            ),
    {
        self.dispatch(Effect::DeleteArtifact { path, filename });
        self.request_full_refresh();
    }

    /// Starts importing a folder: a new import (see `new_session`); for a known type,
    /// the folder is scanned.
    pub fn start_folder_import(&mut self, path: String, resource_type: Option<ResourceType>)
        ensures
            final(self)@ == (StateModel {
                session: Some(new_session(path@, resource_type)),
                effects: match resource_type {
                    Some(t) => old(self)@.effects.push(EffectModel::ScanFolderImport { path: path@, resource_type: t }),
                    None => old(self)@.effects,
                },
                ..old(self)@
            }),
            final(self).lists@ == old(self).lists@,
            final(self).config == old(self).config,
    {
        let rt = match resource_type {
            Some(t) => t,
            None => ResourceType::Mod,
        };
        let session = FolderImportSession {
            path: path.clone(),
            resource_type: rt,
            candidates: Vec::new(),
            suggested_version: None,
            suggested_loader: None,
            is_scanning: resource_type.is_some(),
            scan_progress: None,
            scan_error: None,
            selected_matches: Vec::new(),
            skipped_items: Vec::new(),
            exact_matches: Vec::new(),
            manually_cleared: Vec::new(),
            show_only_unresolved: false,
        };
        assert(session@ =~= new_session(path@, resource_type));
        self.folder_import_session = Some(session);
        match resource_type {
            Some(t) => self.dispatch(Effect::ScanFolderImport { path, resource_type: t }),
            None => {},
        }
    }

    /// Ends the folder import under way.
    pub fn cancel_folder_import(&mut self)
        ensures
            final(self)@ == (StateModel { session: None, ..old(self)@ }),
            final(self).lists@ == old(self).lists@,
            final(self).config == old(self).config,
    {
        self.folder_import_session = None;
    }

    /// Asks for a list to be made from the projects chosen in a folder import.
    pub fn create_import_folder_list(
        &mut self,
        name: String,
        resource_type: ResourceType,
        version: GameVersion,
        loader: GameLoader,
        download_dir: String,
        projects: Vec<ProjectLnk>,
    )
        ensures
            final(self)@ == (StateModel {
                effects: old(self)@.effects.push(
                    EffectModel::ImportFolderList {
                        name: name@,
                        resource_type,
                        version: version@,
                        loader: loader@,
                        download_dir: download_dir@,
                        projects: lnks_model(projects@),
                    },
                ),
                ..old(self)@
            }),
    {
        self.dispatch(Effect::ImportFolderList { name, resource_type, version, loader, download_dir, projects });
    }
}
} // verus!
