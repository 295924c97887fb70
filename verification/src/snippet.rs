//! The oldest record shape of the line format, kept for callers that still
//! build snippets with a mandatory description, and its carry-over into the
//! JSON record shape under a default display name.

use vstd::prelude::*;

use crate::friendly::FriendlyBodyView;
use crate::friendly::FriendlySnippetBody;
use crate::text::replace_char_spec;
use crate::text::replace_pair_spec;
use crate::text::chars_of;
use crate::text::replace_char;
use crate::text::replace_pair;
use crate::text::string_from_chars;

verus! {

/// The ghost shape of an old-style record.
#[verifier::ext_equal]
pub struct SnippetRecordView {
    /// The trigger for the snippet.
    pub prefix: Seq<char>,
    /// The lines of the snippet.
    pub body: Seq<Seq<char>>,
    /// The explanation; always present, possibly empty.
    pub description: Seq<char>,
}

/// A record of the line-oriented snippet format with a mandatory
/// description.
#[derive(Debug, PartialEq, Eq, Clone)]
pub struct Snippet {
    /// The trigger for the snippet.
    pub prefix: String,
    /// The lines of the snippet, in order.
    pub body: Vec<String>,
    /// The explanation shown on the header line; possibly empty.
    pub description: String,
}

impl View for Snippet {
    type V = SnippetRecordView;

    open spec fn view(&self) -> SnippetRecordView {
        SnippetRecordView {
            prefix: self.prefix@,
            body: self.body.deep_view(),
            description: self.description@,
        }
    }
}

impl Snippet {
    /// A record with the given fields.
    pub fn new(prefix: String, body: Vec<String>, description: String) -> (r: Snippet)
        ensures
            r@.prefix == prefix@,
            r@.body == body.deep_view(),
            r@.description == description@,
    {
        Snippet { prefix, body, description }
    }
}

/// A record paired with the display name it will be stored under.
#[derive(Debug, PartialEq, Eq, Clone)]
pub struct FriendlySnippet {
    /// The display name the record is keyed by.
    pub name: String,
    /// The record itself.
    pub snip_body: FriendlySnippetBody,
}

/// The ghost shape of a named record.
#[verifier::ext_equal]
pub struct FriendlySnippetView {
    /// The display name.
    pub name: Seq<char>,
    /// The record.
    pub snip_body: FriendlyBodyView,
}

impl View for FriendlySnippet {
    type V = FriendlySnippetView;

    open spec fn view(&self) -> FriendlySnippetView {
        FriendlySnippetView { name: self.name@, snip_body: self.snip_body@ }
    }
}

/// The named JSON record an old-style record becomes: the default display
/// name is `snippet` followed by the prefix, the first body line loses its
/// leading blanks, and the description starts out empty.
pub open spec fn gen_friendly_view(s: SnippetRecordView) -> FriendlySnippetView {
    FriendlySnippetView {
        name: "snippet "@ + s.prefix,
        snip_body: FriendlyBodyView {
            prefix: Some(s.prefix),
            body: crate::convert::trimmed_body(s.body),
            description: Some(Seq::empty()),
        },
    }
}

/// A line made safe for embedding in a JSON string by hand: every quote is
/// escaped, and every escaped tab becomes two literal spaces.
pub open spec fn standardize_string_spec(l: Seq<char>) -> Seq<char> {
    replace_pair_spec(replace_char_spec(l, '"', seq!['\\', '"']), '\\', 't', seq![' ', ' '])
}

/// Computes [`standardize_string_spec`].
pub fn standardize_string(line: String) -> (r: String)
    ensures
        r@ == standardize_string_spec(line@),
{
    let mut quote_rep: Vec<char> = Vec::new();
    quote_rep.push('\\');
    quote_rep.push('"');
    let mut tab_rep: Vec<char> = Vec::new();
    tab_rep.push(' ');
    tab_rep.push(' ');
    proof {
        assert(quote_rep@ =~= seq!['\\', '"']);
        assert(tab_rep@ =~= seq![' ', ' ']);
    }
    let lv = chars_of(line.as_str());
    let l1 = replace_char(&lv, '"', &quote_rep);
    let l2 = replace_pair(&l1, '\\', 't', &tab_rep);
    string_from_chars(&l2)
}

} // verus!
