//! What can go wrong, by the part it went wrong in.

use vstd::prelude::*;

use crate::text::owned;

verus! {

broadcast use vstd::string::group_string_axioms;

#[derive(Debug, Clone, PartialEq, Eq)]
pub enum DetectError {
    /// A setting, a command line or a file that makes no sense.
    Config(String),
    /// The camera, or the program that lists and opens cameras.
    Camera(String),
    /// A frame source, by name.
    Source { name: String, why: String },
    /// A model that would not load.
    Model(String),
}

/// What a [`DetectError`] says.
pub ghost enum ErrorView {
    Config(Seq<char>),
    Camera(Seq<char>),
    Source { name: Seq<char>, why: Seq<char> },
    Model(Seq<char>),
}

impl View for DetectError {
    type V = ErrorView;

    open spec fn view(&self) -> ErrorView {
        match self {
            DetectError::Config(why) => ErrorView::Config(why@),
            DetectError::Camera(why) => ErrorView::Camera(why@),
            DetectError::Source { name, why } => ErrorView::Source { name: name@, why: why@ },
            DetectError::Model(why) => ErrorView::Model(why@),
        }
    }
}

impl ErrorView {
    /// The error in one line.
    pub open spec fn text(self) -> Seq<char> {
        match self {
            ErrorView::Config(why) => "configuration: "@ + why,
            ErrorView::Camera(why) => "camera: "@ + why,
            ErrorView::Source { name, why } => "source "@ + name + ": "@ + why,
            ErrorView::Model(why) => "model: "@ + why,
        }
    }
}

impl DetectError {
    /// The error in one line.
    pub fn to_string(&self) -> (r: String)
        ensures
            r@ == self@.text(),
    {
        match self {
            DetectError::Config(why) => owned("configuration: ").concat(why.as_str()),
            DetectError::Camera(why) => owned("camera: ").concat(why.as_str()),
            DetectError::Source { name, why } => owned("source ").concat(name.as_str()).concat(": ").concat(
                why.as_str(),
            ),
            DetectError::Model(why) => owned("model: ").concat(why.as_str()),
        }
    }

    /// A complaint about the source called `name`.
    pub fn source(name: &str, why: &str) -> (r: Self)
        ensures
            r@ == (ErrorView::Source { name: name@, why: why@ }),
    {
        DetectError::Source { name: owned(name), why: owned(why) }
    }
}

/// An error says what went wrong, behind what it went wrong with.
pub proof fn law_an_error_says_where_it_comes_from(name: Seq<char>, why: Seq<char>)
    ensures
        ErrorView::Config(why).text() == "configuration: "@ + why,
        ErrorView::Camera(why).text() == "camera: "@ + why,
        (ErrorView::Source { name, why }).text() == "source "@ + name + ": "@ + why,
        ErrorView::Model(why).text() == "model: "@ + why,
{
}

/// An error holds what went wrong, and with what.
pub proof fn law_an_error_holds_what_went_wrong(e: DetectError)
    ensures
        e matches DetectError::Config(why) ==> e@ == ErrorView::Config(why@),
        e matches DetectError::Camera(why) ==> e@ == ErrorView::Camera(why@),
        e matches DetectError::Source { name, why } ==> e@ == (ErrorView::Source { name: name@, why: why@ }),
        e matches DetectError::Model(why) ==> e@ == ErrorView::Model(why@),
{
}

} // verus!
