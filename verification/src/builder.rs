//! The build-script facade: collect where the route configuration comes
//! from and where the generated source goes.  Reading, writing and
//! environment lookup happen outside the library; the builder only carries
//! the choices.

use vstd::prelude::*;

use crate::config::RouteConfig;

verus! {

/// Where the route configuration comes from.
#[derive(Debug)]
pub enum Source {
    /// A file, relative to the source directory when one is set.
    File(String),
    /// A configuration built in memory.
    Config(RouteConfig),
}

/// Where the generated source goes.
#[derive(Debug)]
pub enum Target {
    /// A file, relative to the target directory when one is set.
    File(String),
    /// The standard output stream.
    Stdout,
}

/// Helper for building a server-side route matcher.
#[derive(Debug)]
pub struct Builder {
    pub use_cargo: bool,
    pub source_dir: Option<String>,
    pub source: Option<Source>,
    pub target_dir: Option<String>,
    pub target: Option<Target>,
}

impl Builder {
    /// Create a new builder without any build-script conventions.
    pub fn new() -> (r: Builder)
        ensures
            !r.use_cargo,
            r.source_dir is None,
            r.source is None,
            r.target_dir is None,
            r.target is None,
    {
        Builder { use_cargo: false, source_dir: None, source: None, target_dir: None, target: None }
    }

    /// Set the route config input to come from the specified file.
    pub fn input_file(self, path: &str) -> (r: Builder)
        ensures
            r.source matches Some(Source::File(p)) && p@ == path@,
            r.use_cargo == self.use_cargo,
            r.source_dir == self.source_dir,
            r.target_dir == self.target_dir,
            r.target == self.target,
    {
        Builder { source: Some(Source::File(path.to_owned())), ..self }
    }

    /// Set the route config directly.
    pub fn input_config(self, routes: RouteConfig) -> (r: Builder)
        ensures
            r.source matches Some(Source::Config(c)) && c == routes,
            r.use_cargo == self.use_cargo,
            r.source_dir == self.source_dir,
            r.target_dir == self.target_dir,
            r.target == self.target,
    {
        Builder { source: Some(Source::Config(routes)), ..self }
    }

    /// Set the name of the output file to use.
    pub fn output_file(self, path: &str) -> (r: Builder)
        ensures
            r.target matches Some(Target::File(p)) && p@ == path@,
            r.use_cargo == self.use_cargo,
            r.source_dir == self.source_dir,
            r.source == self.source,
            r.target_dir == self.target_dir,
    {
        Builder { target: Some(Target::File(path.to_owned())), ..self }
    }

    /// Write the output to standard out.
    pub fn output_stdout(self) -> (r: Builder)
        ensures
            r.target matches Some(Target::Stdout),
            r.use_cargo == self.use_cargo,
            r.source_dir == self.source_dir,
            r.source == self.source,
            r.target_dir == self.target_dir,
    {
        Builder { target: Some(Target::Stdout), ..self }
    }
}

} // verus!
