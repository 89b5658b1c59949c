//! Command completion: the known command names live in a prefix trie,
//! and a line prefix yields the names that extend it.

use vstd::prelude::*;

use crate::trie::{trie_after_add, Trie};

verus! {

/// `d` is one of the directories.
pub open spec fn holds_dir(dirs: Seq<String>, d: Seq<char>) -> bool {
    exists|k: int| 0 <= k < dirs.len() && (#[trigger] dirs[k])@ == d
}

/// The search directories that are new since the cache was filled:
/// every entry of `new` that `old` does not hold, in order.
pub fn added_dirs(old: &Vec<String>, new: &Vec<String>) -> (r: Vec<String>)
    ensures
        forall|j: int|
            0 <= j < r@.len() ==> holds_dir(new@, (#[trigger] r@[j])@) && !holds_dir(
                old@,
                r@[j]@,
            ),
        forall|i: int|
            0 <= i < new@.len() && !holds_dir(old@, (#[trigger] new@[i])@) ==> holds_dir(
                r@,
                new@[i]@,
            ),
{
    let mut r: Vec<String> = Vec::new();
    let mut i: usize = 0;
    while i < new.len()
        invariant
            i <= new@.len(),
            forall|j: int|
                0 <= j < r@.len() ==> holds_dir(new@, (#[trigger] r@[j])@) && !holds_dir(
                    old@,
                    r@[j]@,
                ),
            forall|k: int|
                0 <= k < i && !holds_dir(old@, (#[trigger] new@[k])@) ==> holds_dir(
                    r@,
                    new@[k]@,
                ),
        decreases new@.len() - i,
    {
        let candidate = &new[i];
        let mut seen = false;
        let mut j: usize = 0;
        while j < old.len()
            invariant
                j <= old@.len(),
                seen == exists|k: int| 0 <= k < j && (#[trigger] old@[k])@ == candidate@,
                candidate == new@[i as int],
                i < new@.len(),
            decreases old@.len() - j,
        {
            if crate::strutil::str_eq(old[j].as_str(), candidate.as_str()) {
                seen = true;
            }
            j = j + 1;
        }
        proof {
            assert(seen == holds_dir(old@, candidate@));
        }
        if !seen {
            let ghost r_old = r@;
            r.push(candidate.clone());
            proof {
                assert(r@[r@.len() - 1]@ == candidate@);
                assert(holds_dir(new@, candidate@));
                assert forall|k: int|
                    0 <= k < i + 1 && !holds_dir(old@, (#[trigger] new@[k])@) implies holds_dir(
                    r@,
                    new@[k]@,
                ) by {
                    if k < i {
                        let x = choose|x: int|
                            0 <= x < r_old.len() && (#[trigger] r_old[x])@ == new@[k]@;
                        assert(r@[x]@ == new@[k]@);
                    }
                }
            }
        }
        i = i + 1;
    }
    r
}

/// The completer: a trie of every known command name.
#[derive(Debug, PartialEq, Eq)]
pub struct ShellCompleter {
    commands: Trie,
}

impl ShellCompleter {
    /// The names the completer knows.
    pub closed spec fn known(self, p: Seq<char>) -> bool {
        self.commands.contains_word(p)
    }

    /// Well-formed.
    pub closed spec fn wf(self) -> bool {
        self.commands.wf()
    }

    /// A completer that knows nothing yet.
    pub fn new() -> (c: Self)
        ensures
            c.wf(),
            forall|p: Seq<char>| c.known(p) <==> p =~= Seq::<char>::empty(),
    {
        Self { commands: Trie::new() }
    }

    /// Teaches the completer one command name.
    pub fn add_command(&mut self, name: &str)
        requires
            old(self).wf(),
        ensures
            final(self).wf(),
            forall|p: Seq<char>|
                final(self).known(p) == trie_after_add(old(self).commands_view(), name@, p),
    {
        self.commands.add(name);
    }

    /// The trie as a value, for stating what `add_command` did.
    pub closed spec fn commands_view(self) -> Trie {
        self.commands
    }

    /// The candidate is a known name that no other known name
    /// extends.
    pub open spec fn completes_uniquely(self, c: Seq<char>) -> bool {
        self.known(c) && forall|w: Seq<char>|
            #[trigger] self.known(w) && w.len() >= c.len() && w.take(c.len() as int) == c ==> w
                == c
    }

    /// The text that replaces an elected candidate: a candidate that
    /// is a complete name with no further extensions gets a trailing
    /// space, anything else stays as typed.
    pub fn elect(&self, candidate: &str) -> (r: String)
        requires
            self.wf(),
        ensures
            (candidate@.len() > 0 && self.completes_uniquely(candidate@) ==> r@ == candidate@
                + " "@),
            (!(candidate@.len() > 0 && self.completes_uniquely(candidate@)) ==> r@ == candidate@),
    {
        if candidate.unicode_len() == 0 {
            return candidate.to_owned();
        }
        match self.commands.extract(candidate) {
            Some(v) => {
                if v.len() == 1 && crate::strutil::str_eq(v[0].as_str(), candidate) {
                    proof {
                        assert(self.known(candidate@)) by {
                            assert(v@[0]@ == candidate@);
                            assert(self.commands.contains_word(v@[0]@));
                        }
                        assert forall|w: Seq<char>|
                            #[trigger] self.known(w) && w.len() >= candidate@.len() && w.take(
                                candidate@.len() as int,
                            ) == candidate@ implies w == candidate@ by {
                            let j = choose|j: int|
                                0 <= j < v@.len() && (#[trigger] v@[j])@ == w;
                            assert(j == 0);
                        }
                    }
                    crate::strutil::concat_str(candidate, " ")
                } else {
                    proof {
                        if self.completes_uniquely(candidate@) {
                            assert(candidate@.take(candidate@.len() as int) =~= candidate@);
                            assert(self.known(candidate@));
                            let j = choose|j: int|
                                0 <= j < v@.len() && (#[trigger] v@[j])@ == candidate@;
                            if v@.len() > 1 {
                                let other: int = if j == 0 {
                                    1
                                } else {
                                    0
                                };
                                assert(self.known(v@[other]@));
                                assert(v@[other]@ == candidate@);
                                assert(false);
                            } else {
                                assert(j == 0);
                                assert(false);
                            }
                        }
                    }
                    candidate.to_owned()
                }
            },
            None => {
                proof {
                    if self.completes_uniquely(candidate@) {
                        crate::trie::lemma_word_is_path(self.commands, candidate@);
                        assert(false);
                    }
                }
                candidate.to_owned()
            },
        }
    }

    /// Every known name that starts with `line`, or nothing when none
    /// does.
    pub fn complete(&self, line: &str) -> (r: Vec<String>)
        requires
            self.wf(),
        ensures
            forall|j: int|
                0 <= j < r@.len() ==> self.known((#[trigger] r@[j])@) && r@[j]@.len()
                    >= line@.len() && r@[j]@.take(line@.len() as int) == line@,
            forall|j1: int, j2: int| 0 <= j1 < j2 < r@.len() ==> r@[j1]@ != r@[j2]@,
    {
        match self.commands.extract(line) {
            Some(v) => v,
            None => Vec::new(),
        }
    }
}

} // verus!
