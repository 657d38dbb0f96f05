//! The generator contract: the abstraction a target backend implements.
//!
//! A backend names itself and the layout of its primary source file, renders
//! scaffold files and source text as pure functions of the schema, and lists
//! the commands to run once all artifacts are written. Rendering appends to a
//! caller-owned in-memory sink; writing the result to disk belongs to the
//! orchestrator around the engine.

use vstd::prelude::*;
use crate::Error;
use crate::service::Config;
use crate::service::Service;

verus! {

/// The path/content character sequences of a list of rendered files.
pub open spec fn file_views(s: Seq<(String, String)>) -> Seq<(Seq<char>, Seq<char>)> {
    s.map_values(|f: (String, String)| (f.0@, f.1@))
}

/// The program/argument character sequences of a list of commands.
pub open spec fn command_views(s: Seq<(String, Vec<String>)>) -> Seq<(Seq<char>, Seq<Seq<char>>)> {
    s.map_values(|c: (String, Vec<String>)| (c.0@, crate::text::string_views(c.1@)))
}

/// What any backend must provide. Each exec operation is pinned, by its
/// contract, to the spec-level function beside it, so a backend's whole
/// output is a pure function of the schema: rendering the same schema twice
/// yields byte-identical text.
pub trait CodeGenerator {
    /// The backend's identity, used for output-root naming.
    spec fn spec_name(&self) -> Seq<char>;

    /// The directory of the primary source file, relative to the output root.
    spec fn spec_source_dir(&self) -> Seq<char>;

    /// The file name of the primary source file.
    spec fn spec_source_file(&self) -> Seq<char>;

    /// The scaffold files derived from the configuration, as relative
    /// path/content pairs, in write order.
    spec fn spec_project_files(&self, config: Config) -> Seq<(Seq<char>, Seq<char>)>;

    /// The commands to run after all writes, in order, as program/argument
    /// pairs.
    spec fn spec_post_commands(&self) -> Seq<(Seq<char>, Seq<Seq<char>>)>;

    /// The global source text rendered once per run from the configuration.
    spec fn spec_config_output(&self, config: Config) -> Seq<char>;

    /// The source text rendered for one service.
    spec fn spec_service_output(&self, service: Service) -> Seq<char>;

    fn name(&self) -> (r: String)
        ensures
            r@ == self.spec_name(),
    ;

    fn source_dir(&self) -> (r: String)
        ensures
            r@ == self.spec_source_dir(),
    ;

    fn source_file(&self) -> (r: String)
        ensures
            r@ == self.spec_source_file(),
    ;

    fn project_files(&self, config: &Config) -> (r: Vec<(String, String)>)
        ensures
            file_views(r@) == self.spec_project_files(*config),
    ;

    fn post_commands(&self) -> (r: Vec<(String, Vec<String>)>)
        ensures
            command_views(r@) == self.spec_post_commands(),
    ;

    /// Appends the global artifacts for `config` to `w`, exactly once per
    /// run. The in-memory sink cannot fail, so success is always owed.
    fn config(&self, config: &Config, w: &mut String) -> (r: Result<(), Error>)
        ensures
            r is Ok,
            final(w)@ == old(w)@ + self.spec_config_output(*config),
    ;

    /// Appends one service's artifacts to `w`; called once per service, in
    /// the caller-imposed order. The in-memory sink cannot fail, so success
    /// is always owed.
    fn service(&self, service: &Service, w: &mut String) -> (r: Result<(), Error>)
        ensures
            r is Ok,
            final(w)@ == old(w)@ + self.spec_service_output(*service),
    ;
}

} // verus!
