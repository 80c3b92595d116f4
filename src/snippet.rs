use vstd::prelude::*;

verus! {

/// One stored text template: the trigger an editor expands, a summary, and
/// the lines that the expansion produces.
pub struct Snippet {
    pub prefix: String,
    pub body: Vec<String>,
    pub description: String,
}

/// The mathematical value of a [`Snippet`].
pub struct SnippetView {
    pub prefix: Seq<char>,
    pub body: Seq<Seq<char>>,
    pub description: Seq<char>,
}

pub open spec fn lines_view(lines: Seq<String>) -> Seq<Seq<char>> {
    lines.map_values(|l: String| l@)
}

impl View for Snippet {
    type V = SnippetView;

    open spec fn view(&self) -> SnippetView {
        SnippetView {
            prefix: self.prefix@,
            body: lines_view(self.body@),
            description: self.description@,
        }
    }
}

impl Snippet {
    pub fn new(prefix: String, description: String, body: Vec<String>) -> (r: Snippet)
        ensures
            r.prefix == prefix,
            r.description == description,
            r.body == body,
    {
        Snippet { prefix, body, description }
    }
}

/// Which field of a snippet listing and searching address.
#[derive(Clone, Copy, Debug, PartialEq, Eq, Structural, PartialOrd, Ord, Hash)]
pub enum Identifier {
    Key,
    Prefix,
}

/// The ways in which an operation on the store can fail.
#[derive(Debug, PartialEq, Eq)]
pub enum SnipError {
    /// The store text is absent or empty where a collection is required.
    StoreUnavailable,
    /// The store text is not a collection of the expected shape.
    Format,
    DuplicateKey(String),
    DuplicatePrefix(String),
    NotFound(String),
    NoFieldsProvided,
    SameKey,
}

/// The mathematical value of a [`SnipError`].
pub enum SnipErrorView {
    StoreUnavailable,
    Format,
    DuplicateKey(Seq<char>),
    DuplicatePrefix(Seq<char>),
    NotFound(Seq<char>),
    NoFieldsProvided,
    SameKey,
}

impl View for SnipError {
    type V = SnipErrorView;

    open spec fn view(&self) -> SnipErrorView {
        match self {
            SnipError::StoreUnavailable => SnipErrorView::StoreUnavailable,
            SnipError::Format => SnipErrorView::Format,
            SnipError::DuplicateKey(k) => SnipErrorView::DuplicateKey(k@),
            SnipError::DuplicatePrefix(p) => SnipErrorView::DuplicatePrefix(p@),
            SnipError::NotFound(k) => SnipErrorView::NotFound(k@),
            SnipError::NoFieldsProvided => SnipErrorView::NoFieldsProvided,
            SnipError::SameKey => SnipErrorView::SameKey,
        }
    }
}

/// `inner` between single quotes, after `head` and before `tail`.
pub open spec fn quoted_in(head: Seq<char>, inner: Seq<char>, tail: Seq<char>) -> Seq<char> {
    head + seq!['\''] + inner + seq!['\''] + tail
}

pub open spec fn error_message(e: SnipErrorView) -> Seq<char> {
    match e {
        SnipErrorView::StoreUnavailable => "Snippet file not found or is empty"@,
        SnipErrorView::Format => "Failed to parse the snippets file"@,
        SnipErrorView::DuplicateKey(k) => quoted_in("A snippet with key "@, k, " already exists"@),
        SnipErrorView::DuplicatePrefix(p) => quoted_in(
            "A snippet with prefix "@,
            p,
            " already exists"@,
        ),
        SnipErrorView::NotFound(k) => quoted_in("Snippet with key "@, k, " not found"@),
        SnipErrorView::NoFieldsProvided => "No fields provided for update"@,
        SnipErrorView::SameKey => "The new key is the same as the old key"@,
    }
}

fn quote_between(head: &str, inner: &String, tail: &str) -> (r: String)
    ensures
        r@ == quoted_in(head@, inner@, tail@),
{
    let mut r = String::from_str(head);
    r.append("'");
    r.append(inner.as_str());
    r.append("'");
    r.append(tail);
    proof {
        reveal_strlit("'");
        assert(r@ =~= quoted_in(head@, inner@, tail@));
    }
    r
}

impl SnipError {
    /// The text shown to a user for this failure.
    pub fn message(&self) -> (r: String)
        ensures
            r@ == error_message(self@),
    {
        match self {
            SnipError::StoreUnavailable => String::from_str("Snippet file not found or is empty"),
            SnipError::Format => String::from_str("Failed to parse the snippets file"),
            SnipError::DuplicateKey(k) => quote_between("A snippet with key ", k, " already exists"),
            SnipError::DuplicatePrefix(p) => quote_between(
                "A snippet with prefix ",
                p,
                " already exists",
            ),
            SnipError::NotFound(k) => quote_between("Snippet with key ", k, " not found"),
            SnipError::NoFieldsProvided => String::from_str("No fields provided for update"),
            SnipError::SameKey => String::from_str("The new key is the same as the old key"),
        }
    }
}

} // verus!
