use vstd::prelude::*;
use crate::assoc::{assoc, keys_unique, lemma_assoc_at, lemma_assoc_dom, lemma_assoc_update};

verus! {

/// One recorded version of a command and the executable it runs.
#[derive(Debug)]
pub struct VersionEntry {
    pub version: String,
    pub path: String,
}

/// The recorded versions of one command.
#[derive(Debug)]
pub struct CommandEntry {
    pub command: String,
    pub versions: Vec<VersionEntry>,
}

/// The definitions store: command name to version label to path.
#[derive(Debug)]
pub struct Definitions {
    pub commands: Vec<CommandEntry>,
}

/// The store as plain values.
pub type DefsModel = Map<Seq<char>, Map<Seq<char>, Seq<char>>>;

pub open spec fn version_pairs(s: Seq<VersionEntry>) -> Seq<(Seq<char>, Seq<char>)> {
    s.map_values(|e: VersionEntry| (e.version@, e.path@))
}

pub open spec fn command_pairs(s: Seq<CommandEntry>) -> Seq<(Seq<char>, Map<Seq<char>, Seq<char>>)> {
    s.map_values(|e: CommandEntry| (e.command@, assoc(version_pairs(e.versions@))))
}

/// The store after recording `path` as version `version` of `command`: the
/// version is added, or its path replaced, and nothing else changes.
pub open spec fn defs_insert(d: DefsModel, command: Seq<char>, version: Seq<char>, path: Seq<char>) -> DefsModel {
    let inner = if d.contains_key(command) { d[command] } else { Map::empty() };
    d.insert(command, inner.insert(version, path))
}

impl CommandEntry {
    /// Version labels are unique.
    pub open spec fn wf(&self) -> bool {
        keys_unique(version_pairs(self.versions@))
    }
}

impl View for Definitions {
    type V = DefsModel;

    open spec fn view(&self) -> DefsModel {
        assoc(command_pairs(self.commands@))
    }
}

impl Definitions {
    /// Command names are unique, and so are version labels within a command.
    pub open spec fn wf(&self) -> bool {
        &&& keys_unique(command_pairs(self.commands@))
        &&& forall|i: int| 0 <= i < self.commands@.len() ==> #[trigger] self.commands@[i].wf()
    }

    /// An empty store, as on first run.
    pub fn new() -> (r: Definitions)
        ensures
            r.wf(),
            r@ == DefsModel::empty(),
    {
        Definitions { commands: Vec::new() }
    }

    /// Where `command` stands in the list, if it is recorded.
    fn find_command(&self, command: &String) -> (r: Option<usize>)
        ensures
            match r {
                Some(i) => i < self.commands@.len() && self.commands@[i as int].command@ == command@,
                None => forall|i: int| 0 <= i < self.commands@.len() ==> self.commands@[i].command@ != command@,
            },
    {
        let mut i: usize = 0;
        while i < self.commands.len()
            invariant
                i <= self.commands@.len(),
                forall|j: int| 0 <= j < i ==> self.commands@[j].command@ != command@,
            decreases self.commands@.len() - i,
        {
            if self.commands[i].command == *command {
                return Some(i);
            }
            i = i + 1;
        }
        None
    }

    /// The path recorded for version `version` of `command`, if any.
    pub fn lookup(&self, command: &String, version: &String) -> (r: Option<String>)
        requires
            self.wf(),
        ensures
            r is Some <==> self@.contains_key(command@) && self@[command@].contains_key(version@),
            r is Some ==> r->Some_0@ == self@[command@][version@],
    {
        let ghost cp = command_pairs(self.commands@);
        match self.find_command(command) {
            None => {
                proof {
                    lemma_assoc_dom(cp, command@);
                }
                None
            },
            Some(i) => {
                let entry = &self.commands[i];
                let ghost vp = version_pairs(entry.versions@);
                proof {
                    lemma_assoc_at(cp, i as int);
                    assert(self.commands@[i as int].wf());
                    assert(cp[i as int].1 == assoc(vp));
                }
                let mut j: usize = 0;
                while j < entry.versions.len()
                    invariant
                        j <= entry.versions@.len(),
                        vp == version_pairs(entry.versions@),
                        keys_unique(vp),
                        self@.contains_key(command@),
                        self@[command@] == assoc(vp),
                        forall|k: int| 0 <= k < j ==> vp[k].0 != version@,
                    decreases entry.versions@.len() - j,
                {
                    if entry.versions[j].version == *version {
                        proof {
                            lemma_assoc_at(vp, j as int);
                        }
                        return Some(entry.versions[j].path.clone());
                    }
                    j = j + 1;
                }
                proof {
                    lemma_assoc_dom(vp, version@);
                }
                None
            },
        }
    }

    /// Records `path` as version `version` of `command`, replacing the path
    /// of a version that was already recorded.
    pub fn insert(&mut self, command: &String, version: &String, path: &String)
        requires
            old(self).wf(),
        ensures
            final(self).wf(),
            final(self)@ == defs_insert(old(self)@, command@, version@, path@),
    {
        let ghost d0 = self@;
        let ghost cp0 = command_pairs(self.commands@);
        match self.find_command(command) {
            Some(i) => {
                let mut entry = self.commands.remove(i);
                let ghost vp0 = version_pairs(entry.versions@);
                assert(cp0[i as int].1 == assoc(vp0));
                entry.insert_version(version, path);
                self.commands.insert(i, entry);
                proof {
                    assert(self.commands@ =~= old(self).commands@.update(i as int, entry));
                    let cp1 = command_pairs(self.commands@);
                    assert(cp1 =~= cp0.update(i as int, (cp0[i as int].0, assoc(version_pairs(entry.versions@)))));
                    lemma_assoc_update(cp0, i as int, assoc(version_pairs(entry.versions@)));
                    lemma_assoc_at(cp0, i as int);
                    assert forall|j: int| 0 <= j < self.commands@.len() implies #[trigger] self.commands@[j].wf() by {
                        if j != i {
                            assert(self.commands@[j] == old(self).commands@[j]);
                        }
                    }
                    assert(keys_unique(cp1)) by {
                        assert forall|a: int, b: int| 0 <= a < b < cp1.len() implies cp1[a].0 != cp1[b].0 by {
                            assert(cp1[a].0 == cp0[a].0 && cp1[b].0 == cp0[b].0);
                        }
                    }
                }
            },
            None => {
                let mut entry = CommandEntry { command: command.clone(), versions: Vec::new() };
                entry.insert_version(version, path);
                self.commands.push(entry);
                proof {
                    let cp1 = command_pairs(self.commands@);
                    assert(cp1 =~= cp0.push((command@, assoc(version_pairs(entry.versions@)))));
                    assert(cp1.drop_last() =~= cp0);
                    lemma_assoc_dom(cp0, command@);
                    assert(assoc(version_pairs(Seq::<VersionEntry>::empty())) =~= Map::<Seq<char>, Seq<char>>::empty()) by {
                        assert(version_pairs(Seq::<VersionEntry>::empty()) =~= Seq::empty());
                    }
                    assert forall|j: int| 0 <= j < self.commands@.len() implies #[trigger] self.commands@[j].wf() by {
                        if j < old(self).commands@.len() {
                            assert(self.commands@[j] == old(self).commands@[j]);
                        }
                    }
                    assert(keys_unique(cp1)) by {
                        assert forall|a: int, b: int| 0 <= a < b < cp1.len() implies cp1[a].0 != cp1[b].0 by {
                            if b == cp1.len() - 1 {
                                assert(cp1[a].0 == cp0[a].0);
                                assert(cp0[a].0 == old(self).commands@[a].command@);
                            } else {
                                assert(cp1[a].0 == cp0[a].0 && cp1[b].0 == cp0[b].0);
                            }
                        }
                    }
                }
            },
        }
    }
}

impl CommandEntry {
    fn insert_version(&mut self, version: &String, path: &String)
        requires
            old(self).wf(),
        ensures
            final(self).wf(),
            final(self).command == old(self).command,
            assoc(version_pairs(final(self).versions@)) == assoc(version_pairs(old(self).versions@)).insert(version@, path@),
    {
        let ghost vp0 = version_pairs(self.versions@);
        let mut i: usize = 0;
        while i < self.versions.len()
            invariant
                i <= self.versions@.len(),
                self.versions@ == old(self).versions@,
                self.command == old(self).command,
                vp0 == version_pairs(self.versions@),
                keys_unique(vp0),
                forall|j: int| 0 <= j < i ==> self.versions@[j].version@ != version@,
            decreases self.versions@.len() - i,
        {
            if self.versions[i].version == *version {
                let ghost k = i as int;
                self.versions.set(i, VersionEntry { version: version.clone(), path: path.clone() });
                proof {
                    let vp1 = version_pairs(self.versions@);
                    assert(vp1 =~= vp0.update(k, (vp0[k].0, path@)));
                    lemma_assoc_update(vp0, k, path@);
                    assert(keys_unique(vp1)) by {
                        assert forall|a: int, b: int| 0 <= a < b < vp1.len() implies vp1[a].0 != vp1[b].0 by {
                            assert(vp1[a].0 == vp0[a].0 && vp1[b].0 == vp0[b].0);
                        }
                    }
                }
                return;
            }
            i = i + 1;
        }
        self.versions.push(VersionEntry { version: version.clone(), path: path.clone() });
        proof {
            let vp1 = version_pairs(self.versions@);
            assert(vp1.drop_last() =~= vp0);
            assert(keys_unique(vp1)) by {
                assert forall|a: int, b: int| 0 <= a < b < vp1.len() implies vp1[a].0 != vp1[b].0 by {
                    if b == vp1.len() - 1 {
                        assert(vp1[a].0 == vp0[a].0);
                        assert(vp0[a].0 == old(self).versions@[a].version@);
                    } else {
                        assert(vp1[a].0 == vp0[a].0 && vp1[b].0 == vp0[b].0);
                    }
                }
            }
        }
    }
}

} // verus!
