//! The failures that the poller distinguishes.

use vstd::prelude::*;

verus! {

/// A failure, by where it came from. Each variant carries the text of the
/// underlying error.
#[derive(Debug, PartialEq, Eq)]
pub enum MyError {
    /// The transaction store could not be opened or queried.
    DatabaseError(String),
    /// A JSON document could not be read or written as transactions.
    JsonError(String),
    /// A file could not be opened, read or written.
    RusQLite(String),
    /// A store row did not decode into a transaction.
    StacksCoreErr(String),
    /// The watermark file did not hold a number.
    ParseError(String),
    /// A configured path could not be expanded.
    ExpandError(String),
}

/// Mathematical value of a [`MyError`].
pub enum MyErrorView {
    DatabaseError(Seq<char>),
    JsonError(Seq<char>),
    RusQLite(Seq<char>),
    StacksCoreErr(Seq<char>),
    ParseError(Seq<char>),
    ExpandError(Seq<char>),
}

impl View for MyError {
    type V = MyErrorView;

    open spec fn view(&self) -> MyErrorView {
        match self {
            MyError::DatabaseError(detail) => MyErrorView::DatabaseError(detail@),
            MyError::JsonError(detail) => MyErrorView::JsonError(detail@),
            MyError::RusQLite(detail) => MyErrorView::RusQLite(detail@),
            MyError::StacksCoreErr(detail) => MyErrorView::StacksCoreErr(detail@),
            MyError::ParseError(detail) => MyErrorView::ParseError(detail@),
            MyError::ExpandError(detail) => MyErrorView::ExpandError(detail@),
        }
    }
}

impl MyErrorView {
    /// The words that introduce an error of this kind.
    pub open spec fn prefix(self) -> Seq<char> {
        match self {
            MyErrorView::DatabaseError(_) => "database error: "@,
            MyErrorView::JsonError(_) => "json error: "@,
            MyErrorView::RusQLite(_) => "file error: "@,
            MyErrorView::StacksCoreErr(_) => "stack core error: "@,
            MyErrorView::ParseError(_) => "parse error: "@,
            MyErrorView::ExpandError(_) => "path expansion error: "@,
        }
    }

    /// The text of the underlying error.
    pub open spec fn detail(self) -> Seq<char> {
        match self {
            MyErrorView::DatabaseError(detail) => detail,
            MyErrorView::JsonError(detail) => detail,
            MyErrorView::RusQLite(detail) => detail,
            MyErrorView::StacksCoreErr(detail) => detail,
            MyErrorView::ParseError(detail) => detail,
            MyErrorView::ExpandError(detail) => detail,
        }
    }

    /// The error as one line of text: its kind, then the underlying error.
    pub open spec fn message(self) -> Seq<char> {
        self.prefix() + self.detail()
    }
}

impl Clone for MyError {
    fn clone(&self) -> (copy: Self)
        ensures
            copy@ == self@,
    {
        match self {
            MyError::DatabaseError(detail) => MyError::DatabaseError(detail.clone()),
            MyError::JsonError(detail) => MyError::JsonError(detail.clone()),
            MyError::RusQLite(detail) => MyError::RusQLite(detail.clone()),
            MyError::StacksCoreErr(detail) => MyError::StacksCoreErr(detail.clone()),
            MyError::ParseError(detail) => MyError::ParseError(detail.clone()),
            MyError::ExpandError(detail) => MyError::ExpandError(detail.clone()),
        }
    }
}

impl MyError {
    /// Renders the error as one line of text.
    pub fn message(&self) -> (text: String)
        ensures
            text@ == self@.message(),
    {
        let (prefix, detail) = match self {
            MyError::DatabaseError(detail) => ("database error: ", detail),
            MyError::JsonError(detail) => ("json error: ", detail),
            MyError::RusQLite(detail) => ("file error: ", detail),
            MyError::StacksCoreErr(detail) => ("stack core error: ", detail),
            MyError::ParseError(detail) => ("parse error: ", detail),
            MyError::ExpandError(detail) => ("path expansion error: ", detail),
        };
        let mut text = prefix.to_owned();
        text.append(detail.as_str());
        text
    }
}

} // verus!
