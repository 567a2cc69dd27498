use vstd::prelude::*;
use vstd::string::{StrSliceExecFns, StringExecFns};
use crate::candidate::{is_absolute, path_is_absolute};

verus! {

/// Why a shim could not be installed.
#[derive(Clone, Copy, Debug, PartialEq, Eq, Structural)]
pub enum ShimError {
    /// The manager's own executable is not given as an absolute path.
    ManagerPathNotAbsolute,
    /// The command name is empty or holds a path separator.
    InvalidCommand,
    /// The shim file could not be written.
    WriteFailed,
}

/// Where a shim goes and what it holds.
pub struct ShimPlan {
    pub path: String,
    pub content: String,
}

/// A name that can stand as one file name.
pub open spec fn valid_command(c: Seq<char>) -> bool {
    c.len() > 0 && forall|i: int| 0 <= i < c.len() ==> c[i] != '/'
}

/// The characters of `s` as they stand between single quotes in a shell
/// word: each quote is closed, escaped and reopened.
pub open spec fn quote_body(s: Seq<char>) -> Seq<char>
    decreases s.len(),
{
    if s.len() == 0 {
        Seq::empty()
    } else if s.last() == '\'' {
        quote_body(s.drop_last()) + seq!['\'', '\\', '\'', '\'']
    } else {
        quote_body(s.drop_last()).push(s.last())
    }
}

/// `s` as one shell word.
pub open spec fn quoted(s: Seq<char>) -> Seq<char> {
    seq!['\''] + quote_body(s) + seq!['\'']
}

/// The shim script: it runs the manager's dispatcher for `command` with all
/// arguments passed on.
pub open spec fn shim_script(command: Seq<char>, manager: Seq<char>) -> Seq<char> {
    "#!/bin/sh\nexec "@ + quoted(manager) + " shim "@ + quoted(command) + " \"$@\"\n"@
}

/// The shim's file: the command's name in the shim directory.
pub open spec fn shim_file(dir: Seq<char>, command: Seq<char>) -> Seq<char> {
    dir + seq!['/'] + command
}

/// A file system as a map from path to content.
pub type FilesModel = Map<Seq<char>, Seq<char>>;

/// The file system after writing `content` at `path`, replacing what stood there.
pub open spec fn written(fs: FilesModel, path: Seq<char>, content: Seq<char>) -> FilesModel {
    fs.insert(path, content)
}

/// `s` as one shell word.
pub fn shell_quote(s: &str) -> (r: String)
    ensures
        r@ == quoted(s@),
{
    let n = s.unicode_len();
    let mut out = String::from_str("'");
    proof {
        reveal_strlit("'");
        assert(s@.subrange(0, 0) =~= Seq::<char>::empty());
    }
    let mut i: usize = 0;
    while i < n
        invariant
            i <= n,
            n == s@.len(),
            out@ == seq!['\''] + quote_body(s@.subrange(0, i as int)),
        decreases n - i,
    {
        let ghost before = out@;
        let one = s.substring_char(i, i + 1);
        assert(one@ =~= seq![s@[i as int]]);
        if s.get_char(i) == '\'' {
            out.append("'\\''");
        } else {
            out.append(one);
        }
        proof {
            reveal_strlit("'\\''");
            let t = s@.subrange(0, i + 1);
            assert(t.drop_last() =~= s@.subrange(0, i as int));
            assert(t.last() == s@[i as int]);
            assert(out@ =~= seq!['\''] + quote_body(t));
        }
        i = i + 1;
    }
    assert(s@.subrange(0, n as int) =~= s@);
    out.append("'");
    assert(out@ =~= quoted(s@));
    out
}

/// The shim for `command` in `shim_dir`, running the manager at `manager`.
pub fn plan_shim(shim_dir: &String, command: &String, manager: &String) -> (r: Result<ShimPlan, ShimError>)
    ensures
        !is_absolute(manager@) ==> r == Err::<ShimPlan, ShimError>(ShimError::ManagerPathNotAbsolute),
        is_absolute(manager@) && !valid_command(command@) ==> r == Err::<ShimPlan, ShimError>(ShimError::InvalidCommand),
        is_absolute(manager@) && valid_command(command@) ==> r is Ok
            && r->Ok_0.path@ == shim_file(shim_dir@, command@)
            && r->Ok_0.content@ == shim_script(command@, manager@),
{
    let m = manager.as_str();
    if !path_is_absolute(m) {
        return Err(ShimError::ManagerPathNotAbsolute);
    }
    let c = command.as_str();
    let n = c.unicode_len();
    if n == 0 {
        return Err(ShimError::InvalidCommand);
    }
    let mut i: usize = 0;
    while i < n
        invariant
            i <= n,
            n == command@.len(),
            c@ == command@,
            m@ == manager@,
            is_absolute(manager@),
            forall|j: int| 0 <= j < i ==> command@[j] != '/',
        decreases n - i,
    {
        if c.get_char(i) == '/' {
            return Err(ShimError::InvalidCommand);
        }
        i = i + 1;
    }
    let mut path = shim_dir.clone();
    path.append("/");
    path.append(c);
    let mut content = String::from_str("#!/bin/sh\nexec ");
    let qm = shell_quote(m);
    content.append(qm.as_str());
    content.append(" shim ");
    let qc = shell_quote(c);
    content.append(qc.as_str());
    content.append(" \"$@\"\n");
    proof {
        reveal_strlit("/");
    }
    assert(path@ =~= shim_file(shim_dir@, command@));
    assert(content@ =~= shim_script(command@, manager@));
    Ok(ShimPlan { path, content })
}

/// Installing a shim twice leaves the files as installing it once: the
/// second write puts the same content at the same path.
pub proof fn lemma_install_idempotent(fs: FilesModel, shim_dir: Seq<char>, command: Seq<char>, manager: Seq<char>)
    ensures
        ({
            let p = shim_file(shim_dir, command);
            let s = shim_script(command, manager);
            written(written(fs, p, s), p, s) == written(fs, p, s)
        }),
{
    let p = shim_file(shim_dir, command);
    let s = shim_script(command, manager);
    assert(written(written(fs, p, s), p, s) =~= written(fs, p, s));
}

} // verus!
