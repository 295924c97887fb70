//! The JSON ("friendly") snippet format: a table keyed by display name whose
//! records carry a trigger prefix, the body lines and an optional
//! description.

use vstd::prelude::*;

use crate::table::Table;

verus! {

/// The ghost shape of a JSON snippet record.
#[verifier::ext_equal]
pub struct FriendlyBodyView {
    /// The trigger, when present.
    pub prefix: Option<Seq<char>>,
    /// The lines of the snippet.
    pub body: Seq<Seq<char>>,
    /// The explanation, when present.
    pub description: Option<Seq<char>>,
}

/// A record of the JSON snippet table.
#[derive(Debug, PartialEq, Eq, Clone)]
pub struct FriendlySnippetBody {
    /// The trigger for the snippet; absent only while a lenient load is still
    /// waiting for a user-supplied correction.
    pub prefix: Option<String>,
    /// The lines of the snippet, in order.
    pub body: Vec<String>,
    /// An optional explanation of the snippet; absent is distinct from empty.
    pub description: Option<String>,
}

impl View for FriendlySnippetBody {
    type V = FriendlyBodyView;

    open spec fn view(&self) -> FriendlyBodyView {
        FriendlyBodyView {
            prefix: self.prefix.deep_view(),
            body: self.body.deep_view(),
            description: self.description.deep_view(),
        }
    }
}

impl FriendlySnippetBody {
    /// A record with the given fields.
    pub fn new(prefix: Option<String>, body: Vec<String>, description: Option<String>) -> (r:
        FriendlySnippetBody)
        ensures
            r@.prefix == prefix.deep_view(),
            r@.body == body.deep_view(),
            r@.description == description.deep_view(),
    {
        FriendlySnippetBody { prefix, body, description }
    }
}

/// The JSON snippet table, keyed by display name.
pub struct FriendlySnippets {
    /// The mapping from display name to record.
    pub snippets: Table<FriendlySnippetBody>,
}

impl View for FriendlySnippets {
    type V = Seq<(Seq<char>, FriendlyBodyView)>;

    open spec fn view(&self) -> Seq<(Seq<char>, FriendlyBodyView)> {
        self.snippets@
    }
}

impl FriendlySnippets {
    /// Every key appears in at most one entry.
    pub open spec fn wf(&self) -> bool {
        self.snippets.wf()
    }

    /// An empty table.
    pub fn new() -> (r: FriendlySnippets)
        ensures
            r@ == Seq::<(Seq<char>, FriendlyBodyView)>::empty(),
            r.wf(),
    {
        FriendlySnippets { snippets: Table::new() }
    }
}

impl Default for FriendlySnippets {
    /// An empty table.
    fn default() -> (r: FriendlySnippets)
        ensures
            r@ == Seq::<(Seq<char>, FriendlyBodyView)>::empty(),
            r.wf(),
    {
        FriendlySnippets::new()
    }
}

} // verus!
