use vstd::prelude::*;
use vstd::string::{StrSliceExecFns, StringExecFns};
use crate::candidate::{candidate_models, is_absolute, path_is_absolute, CandidateModel, CommandVersion};

verus! {

/// A file found in a directory of the executable search path.
#[derive(Debug)]
pub struct DirEntry {
    /// The directory, as it stands on the search path.
    pub dir: String,
    /// The file's name within the directory.
    pub file_name: String,
    /// Whether the entry is a file with an executable bit set.
    pub executable: bool,
}

/// An installed version of a package-manager formula.
#[derive(Debug)]
pub struct KegEntry {
    /// The installed version, the name of the formula's version directory.
    pub version: String,
    /// Whether `keg_binary_path` of this version is an executable file.
    pub executable: bool,
}

/// The version label of a file named `<command>-<label>`, if it is so named
/// with a non-empty label.
pub open spec fn suffix_version(command: Seq<char>, name: Seq<char>) -> Option<Seq<char>> {
    if name.len() > command.len() + 1 && name.subrange(0, command.len() as int) == command
        && name[command.len() as int] == '-' {
        Some(name.subrange(command.len() as int + 1, name.len() as int))
    } else {
        None
    }
}

/// A file's path: its directory, a separator, its name.
pub open spec fn joined(dir: Seq<char>, name: Seq<char>) -> Seq<char> {
    dir + seq!['/'] + name
}

/// What the search-path scan finds among `entries`, in their order; a
/// directory that is not given as an absolute path is passed over.
pub open spec fn path_suffix_found(command: Seq<char>, entries: Seq<DirEntry>) -> Seq<CandidateModel>
    decreases entries.len(),
{
    if entries.len() == 0 {
        Seq::empty()
    } else {
        let e = entries.last();
        let rest = path_suffix_found(command, entries.drop_last());
        match suffix_version(command, e.file_name@) {
            Some(v) if e.executable && is_absolute(e.dir@) => rest.push(
                CandidateModel { command, version: v, path: joined(e.dir@, e.file_name@) },
            ),
            _ => rest,
        }
    }
}

/// Where a formula version keeps its executable:
/// `<cellar>/<command>/<version>/bin/<command>`.
pub open spec fn keg_path(cellar: Seq<char>, command: Seq<char>, version: Seq<char>) -> Seq<char> {
    cellar + seq!['/'] + command + seq!['/'] + version + seq!['/', 'b', 'i', 'n', '/'] + command
}

/// What the package-manager scan finds among the installed versions, in
/// their order; nothing when the cellar is not an absolute path.
pub open spec fn keg_found(cellar: Seq<char>, command: Seq<char>, kegs: Seq<KegEntry>) -> Seq<CandidateModel>
    decreases kegs.len(),
{
    if kegs.len() == 0 {
        Seq::empty()
    } else {
        let k = kegs.last();
        let rest = keg_found(cellar, command, kegs.drop_last());
        if k.executable && is_absolute(cellar) {
            rest.push(CandidateModel { command, version: k.version@, path: keg_path(cellar, command, k.version@) })
        } else {
            rest
        }
    }
}

/// `c` is what the search-path scan makes of an executable entry.
pub open spec fn from_executable_entry(command: Seq<char>, entries: Seq<DirEntry>, c: CandidateModel) -> bool {
    exists|j: int|
        0 <= j < entries.len() && (#[trigger] entries[j]).executable && is_absolute(entries[j].dir@)
            && c.command == command
            && c.path == joined(entries[j].dir@, entries[j].file_name@)
            && suffix_version(command, entries[j].file_name@) == Some(c.version)
}

/// `c` is the executable of an installed version seen to be in place.
pub open spec fn from_executable_keg(cellar: Seq<char>, command: Seq<char>, kegs: Seq<KegEntry>, c: CandidateModel) -> bool {
    exists|j: int|
        0 <= j < kegs.len() && (#[trigger] kegs[j]).executable && is_absolute(cellar) && c.command == command
            && c.path == keg_path(cellar, command, kegs[j].version@) && c.version == kegs[j].version@
}

/// The search-path scan emits only executables: each candidate is the path
/// of an entry that was seen to be an executable file, named for the command.
pub proof fn lemma_path_suffix_only_executables(command: Seq<char>, entries: Seq<DirEntry>)
    ensures
        forall|k: int| 0 <= k < path_suffix_found(command, entries).len()
            ==> from_executable_entry(command, entries, #[trigger] path_suffix_found(command, entries)[k]),
    decreases entries.len(),
{
    if entries.len() > 0 {
        let rest = entries.drop_last();
        lemma_path_suffix_only_executables(command, rest);
        let f = path_suffix_found(command, entries);
        let fr = path_suffix_found(command, rest);
        assert forall|k: int| 0 <= k < f.len() implies from_executable_entry(command, entries, #[trigger] f[k]) by {
            if k < fr.len() {
                assert(f[k] == fr[k]);
                assert(from_executable_entry(command, rest, fr[k]));
                let j = choose|j: int|
                    0 <= j < rest.len() && (#[trigger] rest[j]).executable && is_absolute(rest[j].dir@)
                        && fr[k].command == command && fr[k].path == joined(rest[j].dir@, rest[j].file_name@)
                        && suffix_version(command, rest[j].file_name@) == Some(fr[k].version);
                assert(entries[j] == rest[j]);
            } else {
                assert(entries[entries.len() - 1].executable);
            }
        }
    }
}

/// The package-manager scan emits only executables: each candidate is the
/// executable of an installed version that was seen to be in place.
pub proof fn lemma_keg_only_executables(cellar: Seq<char>, command: Seq<char>, kegs: Seq<KegEntry>)
    ensures
        forall|k: int| 0 <= k < keg_found(cellar, command, kegs).len()
            ==> from_executable_keg(cellar, command, kegs, #[trigger] keg_found(cellar, command, kegs)[k]),
    decreases kegs.len(),
{
    if kegs.len() > 0 {
        let rest = kegs.drop_last();
        lemma_keg_only_executables(cellar, command, rest);
        let f = keg_found(cellar, command, kegs);
        let fr = keg_found(cellar, command, rest);
        assert forall|k: int| 0 <= k < f.len() implies from_executable_keg(cellar, command, kegs, #[trigger] f[k]) by {
            if k < fr.len() {
                assert(f[k] == fr[k]);
                assert(from_executable_keg(cellar, command, rest, fr[k]));
                let j = choose|j: int|
                    0 <= j < rest.len() && (#[trigger] rest[j]).executable && is_absolute(cellar)
                        && fr[k].command == command && fr[k].path == keg_path(cellar, command, rest[j].version@)
                        && fr[k].version == rest[j].version@;
                assert(kegs[j] == rest[j]);
            } else {
                assert(kegs[kegs.len() - 1].executable);
            }
        }
    }
}

/// The version label of `file_name` as a candidate of `command`.
pub fn version_suffix(command: &str, file_name: &str) -> (r: Option<String>)
    ensures
        r.is_some() == suffix_version(command@, file_name@).is_some(),
        r.is_some() ==> r.unwrap()@ == suffix_version(command@, file_name@).unwrap(),
{
    let n = command.unicode_len();
    let m = file_name.unicode_len();
    if m <= n || m - n < 2 {
        return None;
    }
    let mut i: usize = 0;
    while i < n
        invariant
            i <= n,
            n == command@.len(),
            m == file_name@.len(),
            n < m,
            forall|j: int| 0 <= j < i ==> file_name@[j] == command@[j],
        decreases n - i,
    {
        if file_name.get_char(i) != command.get_char(i) {
            return None;
        }
        i = i + 1;
    }
    assert(file_name@.subrange(0, n as int) =~= command@);
    if file_name.get_char(n) != '-' {
        return None;
    }
    Some(String::from_str(file_name.substring_char(n + 1, m)))
}

/// Candidates of `command` among the files of the search path's
/// directories: each executable file named `<command>-<label>`, with its
/// label as the version.
pub fn path_suffix_scan(command: &String, entries: &Vec<DirEntry>) -> (r: Vec<CommandVersion>)
    ensures
        candidate_models(r@) == path_suffix_found(command@, entries@),
        forall|k: int| 0 <= k < r@.len() ==> is_absolute(#[trigger] r@[k].path@),
{
    let mut out: Vec<CommandVersion> = Vec::new();
    let mut i: usize = 0;
    while i < entries.len()
        invariant
            i <= entries@.len(),
            candidate_models(out@) == path_suffix_found(command@, entries@.subrange(0, i as int)),
            forall|k: int| 0 <= k < out@.len() ==> is_absolute(#[trigger] out@[k].path@),
        decreases entries@.len() - i,
    {
        let e = &entries[i];
        proof {
            assert(entries@.subrange(0, i + 1).drop_last() =~= entries@.subrange(0, i as int));
            assert(entries@.subrange(0, i + 1).last() == e);
        }
        let found = version_suffix(command.as_str(), e.file_name.as_str());
        match found {
            Some(v) => {
                if e.executable && path_is_absolute(e.dir.as_str()) {
                    let mut path = e.dir.clone();
                    path.append("/");
                    path.append(e.file_name.as_str());
                    proof {
                        reveal_strlit("/");
                    }
                    assert(path@ =~= joined(e.dir@, e.file_name@));
                    let c = CommandVersion::new(command.clone(), v, path);
                    let ghost before = out@;
                    out.push(c);
                    assert(candidate_models(out@) =~= candidate_models(before).push(c@));
                }
            },
            None => {},
        }
        i = i + 1;
    }
    assert(entries@.subrange(0, i as int) =~= entries@);
    out
}

/// Where version `version` of `command` keeps its executable under the
/// package manager's `cellar`.
pub fn keg_binary_path(cellar: &String, command: &String, version: &String) -> (r: String)
    ensures
        r@ == keg_path(cellar@, command@, version@),
{
    let mut p = cellar.clone();
    p.append("/");
    p.append(command.as_str());
    p.append("/");
    p.append(version.as_str());
    p.append("/bin/");
    p.append(command.as_str());
    proof {
        reveal_strlit("/");
        reveal_strlit("/bin/");
    }
    assert(p@ =~= keg_path(cellar@, command@, version@));
    p
}

/// Candidates of `command` among the installed versions of its formula:
/// one for each version whose executable is in place.
pub fn homebrew_scan(cellar: &String, command: &String, kegs: &Vec<KegEntry>) -> (r: Vec<CommandVersion>)
    ensures
        candidate_models(r@) == keg_found(cellar@, command@, kegs@),
        forall|k: int| 0 <= k < r@.len() ==> is_absolute(#[trigger] r@[k].path@),
{
    let mut out: Vec<CommandVersion> = Vec::new();
    let mut i: usize = 0;
    while i < kegs.len()
        invariant
            i <= kegs@.len(),
            candidate_models(out@) == keg_found(cellar@, command@, kegs@.subrange(0, i as int)),
            forall|k: int| 0 <= k < out@.len() ==> is_absolute(#[trigger] out@[k].path@),
        decreases kegs@.len() - i,
    {
        let k = &kegs[i];
        proof {
            assert(kegs@.subrange(0, i + 1).drop_last() =~= kegs@.subrange(0, i as int));
            assert(kegs@.subrange(0, i + 1).last() == k);
        }
        if k.executable && path_is_absolute(cellar.as_str()) {
            let path = keg_binary_path(cellar, command, &k.version);
            let c = CommandVersion::new(command.clone(), k.version.clone(), path);
            let ghost before = out@;
            out.push(c);
            assert(candidate_models(out@) =~= candidate_models(before).push(c@));
        }
        i = i + 1;
    }
    assert(kegs@.subrange(0, i as int) =~= kegs@);
    out
}

} // verus!
