use vstd::prelude::*;
use vstd::std_specs::cmp::PartialEqSpecImpl;

verus! {

/// A reference to a project by its id.
#[derive(Debug)]
pub struct ProjectLnk {
    pub(crate) project_id: String,
}

impl View for ProjectLnk {
    type V = Seq<char>;

    closed spec fn view(&self) -> Seq<char> {
        self.project_id@
    }
}

impl PartialEq for ProjectLnk {
    fn eq(&self, other: &Self) -> (r: bool) {
        self.project_id == other.project_id
    }
}

impl Eq for ProjectLnk {}

impl PartialEqSpecImpl for ProjectLnk {
    open spec fn obeys_eq_spec() -> bool {
        true
    }

    open spec fn eq_spec(&self, other: &ProjectLnk) -> bool {
        self@ == other@
    }
}

impl Clone for ProjectLnk {
    fn clone(&self) -> (r: Self)
        ensures
            r@ == self@,
    {
        ProjectLnk { project_id: self.project_id.clone() }
    }
}

impl ProjectLnk {
    /// Builds a link from a project id.
    pub fn from_id(project_id: &String) -> (r: ProjectLnk)
        ensures
            r@ == project_id@,
    {
        ProjectLnk { project_id: project_id.clone() }
    }

    /// The id that identifies this project in a context (its project id).
    pub fn to_context_id(&self) -> (r: Option<String>)
        ensures
            r matches Some(s) && s@ == self@,
    {
        Some(self.project_id.clone())
    }

    /// The project id as a string.
    pub fn to_string(&self) -> (r: String)
        ensures
            r@ == self@,
    {
        self.project_id.clone()
    }

    /// Turns the link back into the project id it holds.
    pub fn into_id(self) -> (r: String)
        ensures
            r@ == self@,
    {
        self.project_id
    }
}

/// A reference to a project list by its id.
#[derive(Debug)]
pub struct ListLnk {
    pub(crate) list_id: String,
}

impl View for ListLnk {
    type V = Seq<char>;

    closed spec fn view(&self) -> Seq<char> {
        self.list_id@
    }
}

impl PartialEq for ListLnk {
    fn eq(&self, other: &Self) -> (r: bool) {
        self.list_id == other.list_id
    }
}

impl Eq for ListLnk {}

impl PartialEqSpecImpl for ListLnk {
    open spec fn obeys_eq_spec() -> bool {
        true
    }

    open spec fn eq_spec(&self, other: &ListLnk) -> bool {
        self@ == other@
    }
}

impl Clone for ListLnk {
    fn clone(&self) -> (r: Self)
        ensures
            r@ == self@,
    {
        ListLnk { list_id: self.list_id.clone() }
    }
}

impl ListLnk {
    pub fn new(list_id: String) -> (r: ListLnk)
        ensures
            r@ == list_id@,
    {
        ListLnk { list_id }
    }

    /// The id that identifies this list in a context (its list id).
    pub fn to_context_id(&self) -> (r: String)
        ensures
            r@ == self@,
    {
        self.list_id.clone()
    }

    /// Turns the link back into the list id it holds.
    pub fn into_id(self) -> (r: String)
        ensures
            r@ == self@,
    {
        self.list_id
    }
}

/// A reference to a list group by its id.
#[derive(Debug)]
pub struct ListGroupLnk {
    pub(crate) group_id: String,
}

impl View for ListGroupLnk {
    type V = Seq<char>;

    closed spec fn view(&self) -> Seq<char> {
        self.group_id@
    }
}

impl PartialEq for ListGroupLnk {
    fn eq(&self, other: &Self) -> (r: bool) {
        self.group_id == other.group_id
    }
}

impl Eq for ListGroupLnk {}

impl PartialEqSpecImpl for ListGroupLnk {
    open spec fn obeys_eq_spec() -> bool {
        true
    }

    open spec fn eq_spec(&self, other: &ListGroupLnk) -> bool {
        self@ == other@
    }
}

impl Clone for ListGroupLnk {
    fn clone(&self) -> (r: Self)
        ensures
            r@ == self@,
    {
        ListGroupLnk { group_id: self.group_id.clone() }
    }
}

impl ListGroupLnk {
    pub fn new(group_id: String) -> (r: ListGroupLnk)
        ensures
            r@ == group_id@,
    {
        ListGroupLnk { group_id }
    }

    /// The id that identifies this group in a context (its group id).
    pub fn to_context_id(&self) -> (r: String)
        ensures
            r@ == self@,
    {
        self.group_id.clone()
    }
}

/// A reference to a folder by its id.
#[derive(Debug)]
pub struct FolderLnk {
    pub(crate) folder_id: String,
}

impl View for FolderLnk {
    type V = Seq<char>;

    closed spec fn view(&self) -> Seq<char> {
        self.folder_id@
    }
}

impl Clone for FolderLnk {
    fn clone(&self) -> (r: Self)
        ensures
            r@ == self@,
    {
        FolderLnk { folder_id: self.folder_id.clone() }
    }
}

impl FolderLnk {
    pub fn new(folder_id: String) -> (r: FolderLnk)
        ensures
            r@ == folder_id@,
    {
        FolderLnk { folder_id }
    }

    /// The folder id.
    pub fn id(&self) -> (r: &String)
        ensures
            r@ == self@,
    {
        &self.folder_id
    }
}

/// The abstract value of a sidebar entry: which kind it is, and the id it refers to.
pub enum SidebarKey {
    List(Seq<char>),
    ListGroup(Seq<char>),
}

/// An entry of the sidebar: either a list or a list group.
#[derive(Debug)]
pub enum SidebarItem {
    List(ListLnk),
    ListGroup(ListGroupLnk),
}

impl View for SidebarItem {
    type V = SidebarKey;

    open spec fn view(&self) -> SidebarKey {
        match self {
            SidebarItem::List(l) => SidebarKey::List(l@),
            SidebarItem::ListGroup(g) => SidebarKey::ListGroup(g@),
        }
    }
}

impl PartialEq for SidebarItem {
    fn eq(&self, other: &Self) -> (r: bool) {
        match (self, other) {
            (SidebarItem::List(a), SidebarItem::List(b)) => a == b,
            (SidebarItem::ListGroup(a), SidebarItem::ListGroup(b)) => a == b,
            _ => false,
        }
    }
}

impl Eq for SidebarItem {}

impl PartialEqSpecImpl for SidebarItem {
    open spec fn obeys_eq_spec() -> bool {
        true
    }

    open spec fn eq_spec(&self, other: &SidebarItem) -> bool {
        self@ == other@
    }
}

impl Clone for SidebarItem {
    fn clone(&self) -> (r: Self)
        ensures
            r@ == self@,
    {
        match self {
            SidebarItem::List(l) => SidebarItem::List(l.clone()),
            SidebarItem::ListGroup(g) => SidebarItem::ListGroup(g.clone()),
        }
    }
}

impl SidebarItem {
    /// Whether this entry is the given list.
    pub fn match_list(&self, list: &ListLnk) -> (r: bool)
        ensures
            r == (self@ == SidebarKey::List(list@)),
    {
        match self {
            SidebarItem::List(l) => l == list,
            _ => false,
        }
    }

    /// Whether this entry is the given list group.
    pub fn match_list_group(&self, group: &ListGroupLnk) -> (r: bool)
        ensures
            r == (self@ == SidebarKey::ListGroup(group@)),
    {
        match self {
            SidebarItem::ListGroup(g) => g == group,
            _ => false,
        }
    }

    /// The list this entry refers to, if it is a list.
    pub fn list_lnk(&self) -> (r: Option<ListLnk>)
        ensures
            match self@ {
                SidebarKey::List(l) => r matches Some(x) && x@ == l,
                SidebarKey::ListGroup(_) => r is None,
            },
    {
        match self {
            SidebarItem::List(l) => Some(l.clone()),
            SidebarItem::ListGroup(_) => None,
        }
    }

    /// The id of the list or group this entry refers to.
    pub fn to_context_id(&self) -> (r: String)
        ensures
            r@ == sidebar_key_id(self@),
    {
        match self {
            SidebarItem::List(l) => l.to_context_id(),
            SidebarItem::ListGroup(g) => g.to_context_id(),
        }
    }

    /// The entry for a list group.
    pub fn from_group(group: &ListGroupLnk) -> (r: SidebarItem)
        ensures
            r@ == SidebarKey::ListGroup(group@),
    {
        SidebarItem::ListGroup(group.clone())
    }

    /// The entry for a list.
    pub fn from_list(list: &ListLnk) -> (r: SidebarItem)
        ensures
            r@ == SidebarKey::List(list@),
    {
        SidebarItem::List(list.clone())
    }
}

/// The id that a sidebar entry refers to.
pub open spec fn sidebar_key_id(k: SidebarKey) -> Seq<char> {
    match k {
        SidebarKey::List(l) => l,
        SidebarKey::ListGroup(g) => g,
    }
}

} // verus!
