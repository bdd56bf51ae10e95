//! Secondary limit policy keyed by request path.

use vstd::prelude::*;

verus! {

/// A stricter limit applied when the request's path is in `paths`.
/// Declared in the configuration and advisory only: the verdict does not
/// consult it, a known incompleteness kept deliberately rather than
/// guessed at.
#[derive(Clone, Debug)]
pub struct Path {
    paths: Option<Vec<String>>,
    limit: Option<u32>,
    window_time: Option<u16>,
}

impl Path {
    /// The limited paths, if configured.
    pub closed spec fn spec_paths(&self) -> Option<Seq<Seq<char>>> {
        match self.paths {
            Some(v) => Some(v.deep_view()),
            None => None,
        }
    }

    /// The path-specific request limit, if configured.
    pub closed spec fn spec_limit(&self) -> Option<u32> {
        self.limit
    }

    /// The path-specific window, in seconds, if configured.
    pub closed spec fn spec_window_time(&self) -> Option<u16> {
        self.window_time
    }

    /// A policy limiting the given paths to `limit` requests per
    /// `window_time` seconds.
    pub fn new(paths: Vec<String>, limit: u32, window_time: u16) -> (r: Self)
        ensures
            r.spec_paths() == Some(paths.deep_view()),
            r.spec_limit() == Some(limit),
            r.spec_window_time() == Some(window_time),
    {
        Path { paths: Some(paths), limit: Some(limit), window_time: Some(window_time) }
    }

    /// The limited paths, if configured.
    pub fn paths(&self) -> (r: Option<Vec<String>>)
        ensures
            match r {
                Some(v) => self.spec_paths() == Some(v.deep_view()),
                None => self.spec_paths() is None,
            },
    {
        broadcast use vstd::std_specs::vec::vec_clone_deep_view_proof;

        match &self.paths {
            Some(v) => Some(v.clone()),
            None => None,
        }
    }

    /// The path-specific window, in seconds, if configured.
    pub fn window_time(&self) -> (r: Option<u16>)
        ensures
            r == self.spec_window_time(),
    {
        self.window_time
    }

    /// The path-specific request limit, if configured.
    pub fn limit(&self) -> (r: Option<u32>)
        ensures
            r == self.spec_limit(),
    {
        self.limit
    }
}

} // verus!
