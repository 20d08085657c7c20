//! The data model: catalog entries, list items, the list state itself, the
//! user registry, and the parsed query parameters of an address.
use vstd::prelude::*;

verus! {

use crate::CURRENT_VERSION;

/// One entry of the immutable reference catalog: an id, a display name and a
/// link target. Loaded once at startup and never mutated.
#[derive(Debug, Clone)]
pub struct Musical {
    pub id: u64,
    pub name: String,
    pub url: String,
}

/// The mathematical value of a [`Musical`].
#[verifier::ext_equal]
pub ghost struct MusicalV {
    pub id: u64,
    pub name: Seq<char>,
    pub url: Seq<char>,
}

impl View for Musical {
    type V = MusicalV;

    open spec fn view(&self) -> MusicalV {
        MusicalV { id: self.id, name: self.name@, url: self.url@ }
    }
}

impl DeepView for Musical {
    type V = MusicalV;

    open spec fn deep_view(&self) -> MusicalV {
        self@
    }
}

impl Musical {
    pub fn new(id: u64, name: String, url: String) -> (r: Musical)
        ensures
            r@ == (MusicalV { id, name: name@, url: url@ }),
    {
        Musical { id, name, url }
    }

    /// The display name of this catalog entry.
    pub fn name(&self) -> (r: &String)
        ensures
            r@ == self@.name,
    {
        &self.name
    }
}

/// One item of a list: a stable per-list id, a reference into the catalog,
/// whether the item was viewed, and a rating between 0 and 10.
#[derive(Debug, Clone, Copy, PartialEq, Eq, Structural)]
pub struct ListItem {
    pub id: u64,
    pub musical_id: u64,
    pub viewed: bool,
    pub rating: u8,
}

/// A rating stays between 0 and 10.
pub open spec fn item_wf(it: ListItem) -> bool {
    it.rating <= 10
}

pub open spec fn items_wf(items: Seq<ListItem>) -> bool {
    forall|i: int| 0 <= i < items.len() ==> item_wf(#[trigger] items[i])
}

/// The whole list state: a format version, a free-text author label (empty
/// means anonymous), and the ordered items.
#[derive(Debug, Clone, PartialEq)]
pub struct MusicaList {
    pub version: u8,
    pub author: String,
    pub items: Vec<ListItem>,
}

/// The mathematical value of a [`MusicaList`].
#[verifier::ext_equal]
pub ghost struct MusicaListV {
    pub version: u8,
    pub author: Seq<char>,
    pub items: Seq<ListItem>,
}

impl View for MusicaList {
    type V = MusicaListV;

    open spec fn view(&self) -> MusicaListV {
        MusicaListV { version: self.version, author: self.author@, items: self.items@ }
    }
}

impl MusicaListV {
    /// Well-formed list state: the current format version, and every rating
    /// in range.
    pub open spec fn wf(self) -> bool {
        self.version == CURRENT_VERSION && items_wf(self.items)
    }
}

/// The canonical default state: current version, anonymous author, no items.
pub open spec fn spec_default_list() -> MusicaListV {
    MusicaListV { version: CURRENT_VERSION, author: Seq::empty(), items: Seq::empty() }
}

/// Builds the canonical default state.
pub fn default_list() -> (r: MusicaList)
    ensures
        r@ == spec_default_list(),
        r@.wf(),
{
    let r = MusicaList { version: CURRENT_VERSION, author: String::new(), items: Vec::new() };
    proof {
        assert(r@ =~= spec_default_list());
    }
    r
}

/// The registry of known author names, in insertion order.
#[derive(Debug, Clone, PartialEq)]
pub struct Users {
    pub version: u8,
    pub items: Vec<String>,
}

/// The mathematical value of a [`Users`] registry.
#[verifier::ext_equal]
pub ghost struct UsersV {
    pub version: u8,
    pub names: Seq<Seq<char>>,
}

impl View for Users {
    type V = UsersV;

    open spec fn view(&self) -> UsersV {
        UsersV { version: self.version, names: self.items.deep_view() }
    }
}

impl UsersV {
    pub open spec fn wf(self) -> bool {
        self.version == CURRENT_VERSION
    }
}

/// The default registry: current version, no names.
pub open spec fn spec_default_users() -> UsersV {
    UsersV { version: CURRENT_VERSION, names: Seq::empty() }
}

/// Builds the default registry.
pub fn default_users() -> (r: Users)
    ensures
        r@ == spec_default_users(),
        r@.wf(),
{
    let r = Users { version: CURRENT_VERSION, items: Vec::new() };
    proof {
        assert(r@.names =~= Seq::<Seq<char>>::empty());
        assert(r@ =~= spec_default_users());
    }
    r
}

/// The recognized query parameters of an address, parsed once at the
/// boundary: an optional content token, an optional edit flag (absent means
/// read-only), and an optional one-shot author selector.
#[derive(Debug, Clone)]
pub struct Query {
    pub content: Option<String>,
    pub edit: Option<bool>,
    pub user: Option<String>,
}

/// The mathematical value of a [`Query`].
#[verifier::ext_equal]
pub ghost struct QueryV {
    pub content: Option<Seq<char>>,
    pub edit: Option<bool>,
    pub user: Option<Seq<char>>,
}

impl View for Query {
    type V = QueryV;

    open spec fn view(&self) -> QueryV {
        QueryV {
            content: match self.content {
                Some(ref c) => Some(c@),
                None => None,
            },
            edit: self.edit,
            user: match self.user {
                Some(ref u) => Some(u@),
                None => None,
            },
        }
    }
}

} // verus!
