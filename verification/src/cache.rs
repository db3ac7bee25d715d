//! The document that was opened last.
use crate::text::{joined, same};
use vstd::prelude::*;

verus! {

/// The path of the document that was opened last, if there is one.
#[derive(Debug, PartialEq)]
pub struct DocCache {
    path: Option<String>,
}

impl View for DocCache {
    type V = Option<Seq<char>>;

    closed spec fn view(&self) -> Option<Seq<char>> {
        match self.path {
            Some(p) => Some(p@),
            None => None,
        }
    }
}

/// The message for a document that could not be opened.
pub open spec fn open_error_spec(path: Seq<char>, e: Seq<char>) -> Seq<char> {
    "Failed to open "@ + path + ": "@ + e
}

/// What becomes of the cache when the document at `path` is called for. The document
/// that is in the cache is not opened again: for it, `opened` does not matter. A
/// document that could not be opened leaves the cache as it was.
pub open spec fn open_doc_spec(
    cached: Option<Seq<char>>,
    path: Seq<char>,
    opened: Result<(), Seq<char>>,
) -> (Option<Seq<char>>, Result<(), Seq<char>>) {
    if cached == Some(path) {
        (cached, Ok(()))
    } else {
        match opened {
            Ok(()) => (Some(path), Ok(())),
            Err(e) => (cached, Err(open_error_spec(path, e))),
        }
    }
}

/// The view of an outcome.
pub open spec fn outcome_view(r: Result<(), String>) -> Result<(), Seq<char>> {
    match r {
        Ok(()) => Ok(()),
        Err(e) => Err(e@),
    }
}

impl DocCache {
    /// A cache without a document.
    pub fn new() -> (r: DocCache)
        ensures
            r@ == None::<Seq<char>>,
    {
        DocCache { path: None }
    }

    /// Whether the document at `path` is in the cache.
    pub fn holds(&self, path: &str) -> (r: bool)
        ensures
            r == (self@ == Some(path@)),
    {
        match &self.path {
            Some(p) => same(p.as_str(), path),
            None => false,
        }
    }

    /// Call for the document at `path`. `opened` is the outcome of opening it, where
    /// the cache does not hold it.
    pub fn open_doc(&mut self, path: &str, opened: Result<(), String>) -> (r: Result<(), String>)
        ensures
            (final(self)@, outcome_view(r)) == open_doc_spec(
                old(self)@,
                path@,
                outcome_view(opened),
            ),
    {
        if self.holds(path) {
            return Ok(());
        }
        match opened {
            Ok(()) => {
                self.path = Some(path.to_owned());
                Ok(())
            },
            Err(e) => {
                let head: String = joined("Failed to open ", path);
                let head: String = joined(head.as_str(), ": ");
                Err(joined(head.as_str(), e.as_str()))
            },
        }
    }
}

/// A document that was opened is in the cache, so the next call for it succeeds and
/// opens nothing.
pub proof fn law_second_call_opens_nothing(
    cached: Option<Seq<char>>,
    path: Seq<char>,
    opened: Result<(), Seq<char>>,
    again: Result<(), Seq<char>>,
)
    requires
        open_doc_spec(cached, path, opened).1 is Ok,
    ensures
        open_doc_spec(cached, path, opened).0 == Some(path),
        open_doc_spec(open_doc_spec(cached, path, opened).0, path, again) == (
            Some(path),
            Ok::<(), Seq<char>>(()),
        ),
{
}

/// A document that could not be opened leaves the cache as it was, so that a call for
/// the document in it still opens nothing.
pub proof fn law_failure_keeps_the_document(
    cached: Option<Seq<char>>,
    path: Seq<char>,
    opened: Result<(), Seq<char>>,
)
    requires
        open_doc_spec(cached, path, opened).1 is Err,
    ensures
        open_doc_spec(cached, path, opened).0 == cached,
{
}

} // verus!
