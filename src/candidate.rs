use vstd::prelude::*;
use vstd::string::{StrSliceExecFns, StringExecFns};

verus! {

/// What a scanner found, as plain values: command name, version label and
/// the path of the executable.
pub ghost struct CandidateModel {
    pub command: Seq<char>,
    pub version: Seq<char>,
    pub path: Seq<char>,
}

/// A discovered candidate binary for a command.
#[derive(Debug)]
pub struct CommandVersion {
    pub command: String,
    pub version: String,
    pub path: String,
}

impl View for CommandVersion {
    type V = CandidateModel;

    open spec fn view(&self) -> CandidateModel {
        CandidateModel { command: self.command@, version: self.version@, path: self.path@ }
    }
}

/// A path that starts at the root.
pub open spec fn is_absolute(p: Seq<char>) -> bool {
    p.len() > 0 && p[0] == '/'
}

/// Whether `p` starts at the root.
pub fn path_is_absolute(p: &str) -> (r: bool)
    ensures
        r == is_absolute(p@),
{
    p.unicode_len() > 0 && p.get_char(0) == '/'
}

/// The models of a sequence of candidates, in order.
pub open spec fn candidate_models(s: Seq<CommandVersion>) -> Seq<CandidateModel> {
    s.map_values(|c: CommandVersion| c@)
}

/// The line shown to the operator for a candidate: `command version (path)`.
pub open spec fn label_of(c: CandidateModel) -> Seq<char> {
    c.command + seq![' '] + c.version + seq![' ', '('] + c.path + seq![')']
}

impl CommandVersion {
    pub fn new(command: String, version: String, path: String) -> (r: CommandVersion)
        ensures
            r.command == command,
            r.version == version,
            r.path == path,
    {
        CommandVersion { command, version, path }
    }

    /// A field-by-field copy.
    pub fn copy(&self) -> (r: CommandVersion)
        ensures
            r@ == self@,
    {
        CommandVersion { command: self.command.clone(), version: self.version.clone(), path: self.path.clone() }
    }

    /// The line that names this candidate to the operator, with all three
    /// fields, so that two candidates of one version from different places
    /// can be told apart.
    pub fn label(&self) -> (r: String)
        ensures
            r@ == label_of(self@),
    {
        let mut s = self.command.clone();
        s.append(" ");
        s.append(self.version.as_str());
        s.append(" (");
        s.append(self.path.as_str());
        s.append(")");
        proof {
            reveal_strlit(" ");
            reveal_strlit(" (");
            reveal_strlit(")");
        }
        assert(s@ =~= label_of(self@));
        s
    }
}

} // verus!
