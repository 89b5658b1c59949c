//! A prefix trie over characters, used for command completion.
//!
//! The mathematical model of a trie is its set of complete words: the
//! paths from the root to the leaves.  An empty trie therefore holds
//! exactly the empty word.  [`TrieNode::has_word`] is that model as a
//! membership predicate; every operation's contract is stated over it.

use vstd::prelude::*;

use crate::strutil::{chars_to_string, str_to_chars};

verus! {

/// `p` comes strictly before `s` on the same branch: `p` is a proper
/// prefix of `s`.
pub open spec fn strict_prefix_of(p: Seq<char>, s: Seq<char>) -> bool {
    p.len() < s.len() && p == s.take(p.len() as int)
}

/// One trie node: an association list from edge characters to child
/// nodes.
#[derive(Debug, PartialEq, Eq)]
pub struct TrieNode {
    children: Vec<(char, TrieNode)>,
}

impl TrieNode {
    /// Well-formed: edge characters are distinct at every node.
    pub closed spec fn wf(self) -> bool
        decreases self,
    {
        &&& (forall|i: int, j: int|
            0 <= i < j < self.children@.len() ==> self.children@[i].0 != self.children@[j].0)
        &&& (forall|i: int|
            0 <= i < self.children@.len() ==> (#[trigger] self.children@[i].1).wf())
    }

    /// `p` is a complete word of this subtree: a path from here to a
    /// leaf.
    pub closed spec fn has_word(self, p: Seq<char>) -> bool
        decreases p.len(),
    {
        if p.len() == 0 {
            self.children@.len() == 0
        } else {
            exists|i: int|
                0 <= i < self.children@.len() && (#[trigger] self.children@[i]).0 == p[0]
                    && self.children@[i].1.has_word(p.drop_first())
        }
    }

    /// A node for `p` exists in this subtree: `p` is a prefix of some
    /// word.
    pub closed spec fn has_node(self, p: Seq<char>) -> bool
        decreases p.len(),
    {
        p.len() == 0 || exists|i: int|
            0 <= i < self.children@.len() && (#[trigger] self.children@[i]).0 == p[0]
                && self.children@[i].1.has_node(p.drop_first())
    }

    /// A fresh leaf; its one word is the empty word.
    pub fn new() -> (n: TrieNode)
        ensures
            n.wf(),
            forall|p: Seq<char>| n.has_word(p) <==> p =~= Seq::<char>::empty(),
    {
        let n = TrieNode { children: Vec::new() };
        proof {
            assert forall|p: Seq<char>| n.has_word(p) <==> p =~= Seq::<char>::empty() by {
                if p.len() == 0 {
                    assert(n.has_word(p));
                }
            }
        }
        n
    }

    /// The position of the child reached over `c`, if there is one.
    fn find_child(&self, c: char) -> (r: Option<usize>)
        ensures
            match r {
                Some(k) => k < self.children@.len() && self.children@[k as int].0 == c,
                None => forall|j: int|
                    0 <= j < self.children@.len() ==> (#[trigger] self.children@[j]).0 != c,
            },
    {
        let mut k: usize = 0;
        while k < self.children.len()
            invariant
                k <= self.children@.len(),
                forall|j: int| 0 <= j < k ==> (#[trigger] self.children@[j]).0 != c,
            decreases self.children@.len() - k,
        {
            if self.children[k].0 == c {
                return Some(k);
            }
            k = k + 1;
        }
        None
    }
}

/// The words of `t` after `s` has been added: if the path `s` already
/// exists nothing changes; otherwise `s` becomes a word, and the one
/// word that was a proper prefix of `s` (if any) stops being one.
pub open spec fn words_after_add(t: TrieNode, s: Seq<char>, p: Seq<char>) -> bool {
    if t.has_node(s) {
        t.has_word(p)
    } else {
        p == s || (t.has_word(p) && !strict_prefix_of(p, s))
    }
}

impl TrieNode {
    /// Adds the path `s[i..]` below this node.
    pub fn add_at(&mut self, s: &Vec<char>, i: usize)
        requires
            i <= s@.len(),
            old(self).wf(),
        ensures
            final(self).wf(),
            forall|p: Seq<char>|
                final(self).has_word(p) == words_after_add(*old(self), s@.skip(i as int), p),
        decreases s@.len() - i,
    {
        let ghost suf = s@.skip(i as int);
        let ghost old_self = *old(self);
        if i == s.len() {
            proof {
                assert(suf.len() == 0);
                assert(old_self.has_node(suf));
            }
            return;
        }
        assert(suf[0] == s@[i as int]);
        assert(suf.drop_first() =~= s@.skip(i + 1 as int));
        let ghost suf1 = suf.drop_first();
        let c = s[i];
        match self.find_child(c) {
            Some(k) => {
                let ghost old_child = old_self.children@[k as int].1;
                let (ch, mut child) = self.children.remove(k);
                child.add_at(s, i + 1);
                let ghost new_child = child;
                self.children.insert(k, (ch, child));
                proof {
                    assert(self.children@ =~= old_self.children@.update(
                        k as int,
                        (c, new_child),
                    ));
                    assert forall|j: int|
                        0 <= j < self.children@.len() implies (#[trigger] self.children@[j]).0
                        == old_self.children@[j].0 && (j != k ==> self.children@[j].1
                        == old_self.children@[j].1) by {}
                    assert(self.wf());
                    assert forall|p: Seq<char>|
                        self.has_word(p) == words_after_add(old_self, suf, p) by {
                        let p1 = p.drop_first();
                        lemma_child_node(old_self, k as int, suf);
                        if p.len() == 0 {
                            assert(!self.has_word(p));
                            assert(!old_self.has_word(p));
                            assert(strict_prefix_of(p, suf)) by {
                                assert(p =~= suf.take(0));
                            }
                        } else if p[0] == c {
                            lemma_child_word(*self, k as int, p);
                            lemma_child_word(old_self, k as int, p);
                            assert(self.has_word(p) == new_child.has_word(p1));
                            assert(new_child.has_word(p1) == words_after_add(
                                old_child,
                                suf1,
                                p1,
                            ));
                            // relate the parent's cases to the child's
                            if p1 == suf1 {
                                assert(p =~= suf) by {
                                    assert(p.len() == suf.len());
                                    assert forall|m: int| 0 <= m < p.len() implies p[m] == suf[m]
                                        by {
                                        if m > 0 {
                                            assert(p[m] == p1[m - 1]);
                                            assert(suf[m] == suf1[m - 1]);
                                        }
                                    }
                                }
                            }
                            if p == suf {
                                assert(p1 =~= suf1);
                            }
                            if strict_prefix_of(p1, suf1) {
                                assert(p =~= suf.take(p.len() as int)) by {
                                    assert forall|m: int| 0 <= m < p.len() implies p[m] == suf.take(
                                        p.len() as int,
                                    )[m] by {
                                        if m > 0 {
                                            assert(p1[m - 1] == suf1.take(p1.len() as int)[m - 1]);
                                        }
                                    }
                                }
                                assert(strict_prefix_of(p, suf));
                            }
                            if strict_prefix_of(p, suf) {
                                assert(p1 =~= suf1.take(p1.len() as int)) by {
                                    assert forall|m: int| 0 <= m < p1.len() implies p1[m]
                                        == suf1.take(p1.len() as int)[m] by {
                                        assert(p[m + 1] == suf.take(p.len() as int)[m + 1]);
                                    }
                                }
                                assert(strict_prefix_of(p1, suf1));
                            }
                        } else {
                            // words through other children are untouched
                            if self.has_word(p) {
                                let j = choose|j: int|
                                    0 <= j < self.children@.len() && (#[trigger] self.children@[j]).0
                                        == p[0] && self.children@[j].1.has_word(p1);
                                assert(j != k);
                                assert(old_self.children@[j].1.has_word(p1));
                                assert(old_self.has_word(p));
                            }
                            if old_self.has_word(p) {
                                let j = choose|j: int|
                                    0 <= j < old_self.children@.len() && (
                                    #[trigger] old_self.children@[j]).0 == p[0]
                                        && old_self.children@[j].1.has_word(p1);
                                assert(j != k);
                                assert(self.children@[j].1.has_word(p1));
                                assert(self.has_word(p));
                            }
                            if strict_prefix_of(p, suf) {
                                assert(p[0] == suf[0]);
                            }
                        }
                    }
                }
            },
            None => {
                let mut child = TrieNode::new();
                let ghost fresh = child;
                child.add_at(s, i + 1);
                let ghost new_child = child;
                proof {
                    // the fresh subtree holds exactly the suffix
                    assert(fresh.has_word(Seq::<char>::empty()));
                    assert(fresh.children@.len() == 0);
                    if suf1.len() > 0 {
                        assert(!fresh.has_node(suf1));
                        assert(strict_prefix_of(Seq::<char>::empty(), suf1)) by {
                            assert(Seq::<char>::empty() =~= suf1.take(0));
                        }
                    }
                    assert forall|q: Seq<char>| new_child.has_word(q) <==> q == suf1 by {
                        assert(new_child.has_word(q) == words_after_add(fresh, suf1, q));
                        if suf1.len() == 0 {
                            if new_child.has_word(q) {
                                assert(q =~= suf1);
                            }
                            if q == suf1 {
                                assert(q =~= Seq::<char>::empty());
                                assert(fresh.has_word(q));
                            }
                        }
                    }
                }
                self.children.push((c, child));
                proof {
                    assert(self.children@ =~= old_self.children@.push((c, new_child)));
                    let n = old_self.children@.len() as int;
                    assert(self.wf());
                    assert(!old_self.has_node(suf));
                    assert forall|p: Seq<char>|
                        self.has_word(p) == words_after_add(old_self, suf, p) by {
                        let p1 = p.drop_first();
                        if p.len() == 0 {
                            assert(!self.has_word(p));
                            assert(strict_prefix_of(p, suf)) by {
                                assert(p =~= suf.take(0));
                            }
                        } else if p[0] == c {
                            assert(!old_self.has_word(p));
                            if self.has_word(p) {
                                let j = choose|j: int|
                                    0 <= j < self.children@.len() && (#[trigger] self.children@[j]).0
                                        == p[0] && self.children@[j].1.has_word(p1);
                                assert(j == n);
                                assert(p1 == suf1);
                                assert(p =~= suf) by {
                                    assert(p.len() == suf.len());
                                    assert forall|m: int| 0 <= m < p.len() implies p[m] == suf[m]
                                        by {
                                        if m > 0 {
                                            assert(p[m] == p1[m - 1]);
                                            assert(suf[m] == suf1[m - 1]);
                                        }
                                    }
                                }
                            }
                            if p == suf {
                                assert(p1 =~= suf1);
                                assert(self.children@[n].1.has_word(p1));
                                assert(self.has_word(p));
                            }
                        } else {
                            if self.has_word(p) {
                                let j = choose|j: int|
                                    0 <= j < self.children@.len() && (#[trigger] self.children@[j]).0
                                        == p[0] && self.children@[j].1.has_word(p1);
                                assert(j != n);
                                assert(old_self.has_word(p));
                            }
                            if old_self.has_word(p) {
                                let j = choose|j: int|
                                    0 <= j < old_self.children@.len() && (
                                    #[trigger] old_self.children@[j]).0 == p[0]
                                        && old_self.children@[j].1.has_word(p1);
                                assert(self.children@[j].1.has_word(p1));
                                assert(self.has_word(p));
                            }
                            if strict_prefix_of(p, suf) {
                                assert(p[0] == suf[0]);
                            }
                        }
                    }
                }
            },
        }
    }
}

/// `s` is the one and only word of `t`.
pub open spec fn only_word(t: TrieNode, s: Seq<char>) -> bool {
    forall|q: Seq<char>| t.has_word(q) ==> q == s
}

/// The words of `t` after `s` has been deleted: a word that is exactly
/// `s` disappears; when it was the only word the tree collapses to the
/// empty tree, whose word is the empty word.  Deleting anything else
/// changes nothing.
pub open spec fn words_after_delete(t: TrieNode, s: Seq<char>, p: Seq<char>) -> bool {
    if t.has_word(s) {
        (t.has_word(p) && p != s) || (p.len() == 0 && only_word(t, s))
    } else {
        t.has_word(p)
    }
}

/// Two sequences with equal heads and equal tails are equal.
proof fn lemma_cons_eq(p: Seq<char>, s: Seq<char>)
    requires
        p.len() > 0,
        s.len() > 0,
        p[0] == s[0],
        p.drop_first() == s.drop_first(),
    ensures
        p == s,
{
    assert(p =~= s) by {
        assert(p.drop_first().len() == p.len() - 1);
        assert(s.drop_first().len() == s.len() - 1);
        assert(p.len() == s.len());
        assert forall|m: int| 0 <= m < p.len() implies p[m] == s[m] by {
            if m > 0 {
                assert(p[m] == p.drop_first()[m - 1]);
                assert(s[m] == s.drop_first()[m - 1]);
            }
        }
    }
}

/// Every well-formed trie holds at least one word.
proof fn lemma_has_some_word(t: TrieNode)
    requires
        t.wf(),
    ensures
        exists|q: Seq<char>| t.has_word(q),
    decreases t,
{
    if t.children@.len() == 0 {
        assert(t.has_word(Seq::<char>::empty()));
    } else {
        let child = t.children@[0].1;
        lemma_has_some_word(child);
        let q = choose|q: Seq<char>| child.has_word(q);
        let w = seq![t.children@[0].0] + q;
        assert(w.drop_first() =~= q);
        assert(t.has_word(w));
    }
}

impl TrieNode {
    /// Deletes the path `s[i..]` below this node, pruning branches that
    /// become childless.  The flag reports that the whole subtree under
    /// the first step collapsed, which tells the caller to drop this
    /// node's edge as well.
    fn delete_at(&mut self, s: &Vec<char>, i: usize) -> (removed: bool)
        requires
            i <= s@.len(),
            old(self).wf(),
        ensures
            final(self).wf(),
            forall|p: Seq<char>|
                final(self).has_word(p) == words_after_delete(*old(self), s@.skip(i as int), p),
            removed == (old(self).has_word(s@.skip(i as int)) && (i == s@.len() || exists|k: int|
                0 <= k < old(self).children@.len() && (#[trigger] old(self).children@[k]).0
                    == s@[i as int] && only_word(old(self).children@[k].1, s@.skip(i + 1)))),
        decreases s@.len() - i,
    {
        let ghost suf = s@.skip(i as int);
        let ghost old_self = *old(self);
        if i == s.len() {
            let removed = self.children.len() == 0;
            proof {
                assert(suf.len() == 0);
                assert(old_self.has_word(suf) == removed);
                assert forall|p: Seq<char>|
                    self.has_word(p) == words_after_delete(old_self, suf, p) by {
                    if removed {
                        if p.len() == 0 {
                            assert(p =~= suf);
                            assert(only_word(old_self, suf)) by {
                                assert forall|q: Seq<char>| old_self.has_word(q) implies q == suf
                                    by {
                                    assert(q =~= suf);
                                }
                            }
                        }
                    }
                }
            }
            return removed;
        }
        assert(suf[0] == s@[i as int]);
        assert(suf.drop_first() =~= s@.skip(i + 1 as int));
        let ghost suf1 = suf.drop_first();
        let c = s[i];
        match self.find_child(c) {
            None => {
                proof {
                    assert(!old_self.has_word(suf));
                }
                false
            },
            Some(k) => {
                let ghost old_child = old_self.children@[k as int].1;
                let (ch, mut child) = self.children.remove(k);
                let r_child = child.delete_at(s, i + 1);
                let ghost new_child = child;
                let child_is_empty = child.children.len() == 0;
                proof {
                    lemma_child_word(old_self, k as int, suf);
                    // the child is empty afterwards iff `suf1` was its only word
                    assert(child_is_empty == new_child.has_word(Seq::<char>::empty()));
                    if old_child.has_word(suf1) {
                        if old_child.has_word(Seq::<char>::empty()) {
                            assert(suf1 =~= Seq::<char>::empty());
                        }
                        assert(child_is_empty == only_word(old_child, suf1));
                        if only_word(old_child, suf1) && suf1.len() > 0 {
                            // the grandchild on the path holds only the rest
                            let g = choose|g: int|
                                0 <= g < old_child.children@.len() && (
                                #[trigger] old_child.children@[g]).0 == suf1[0]
                                    && old_child.children@[g].1.has_word(suf1.drop_first());
                            assert forall|q: Seq<char>|
                                old_child.children@[g].1.has_word(q) implies q
                                == suf1.drop_first() by {
                                let w = seq![suf1[0]] + q;
                                assert(w.drop_first() =~= q);
                                assert(old_child.has_word(w));
                                assert(w == suf1);
                                assert(q =~= suf1.drop_first());
                            }
                            assert(suf1.drop_first() =~= s@.skip(i + 2));
                            assert(suf1[0] == s@[i + 1]);
                            assert(only_word(old_child.children@[g].1, s@.skip(i + 2)));
                            assert(0 <= g < old_child.children@.len() && (
                            #[trigger] old_child.children@[g]).0 == s@[i + 1] && only_word(
                                old_child.children@[g].1,
                                s@.skip(i + 2),
                            ));
                            assert(r_child);
                        }
                        if suf1.len() == 0 {
                            assert(r_child == old_child.has_word(suf1));
                        }
                    }
                }
                if r_child && child_is_empty {
                    // the branch collapsed: drop the edge as well
                    proof {
                        assert(only_word(old_child, suf1));
                        assert(old_child.has_word(suf1));
                        assert(old_self.has_word(suf));
                        assert(self.children@ =~= old_self.children@.remove(k as int));
                        assert(self.wf());
                        // the flag's own meaning
                        assert(exists|j: int|
                            0 <= j < old_self.children@.len() && (#[trigger] old_self.children@[j]).0
                                == suf[0] && only_word(old_self.children@[j].1, suf1));
                        assert forall|p: Seq<char>|
                            self.has_word(p) == words_after_delete(old_self, suf, p) by {
                            let p1 = p.drop_first();
                            if p.len() == 0 {
                                // emptied entirely iff the deleted word was the only one
                                assert(self.has_word(p) == (self.children@.len() == 0));
                                if self.children@.len() == 0 {
                                    assert(only_word(old_self, suf)) by {
                                        assert forall|q: Seq<char>| old_self.has_word(q) implies q
                                            == suf by {
                                            let j = choose|j: int|
                                                0 <= j < old_self.children@.len() && (
                                                #[trigger] old_self.children@[j]).0 == q[0]
                                                    && old_self.children@[j].1.has_word(
                                                    q.drop_first(),
                                                );
                                            assert(j == k);
                                            assert(q.drop_first() == suf1);
                                            lemma_cons_eq(q, suf);
                                        }
                                    }
                                } else {
                                    assert(!only_word(old_self, suf)) by {
                                        let j: int = if k == 0 {
                                            1
                                        } else {
                                            0
                                        };
                                        let other = old_self.children@[j].1;
                                        lemma_has_some_word(other);
                                        let q = choose|q: Seq<char>| other.has_word(q);
                                        let w = seq![old_self.children@[j].0] + q;
                                        assert(w.drop_first() =~= q);
                                        assert(old_self.has_word(w));
                                        assert(w[0] != suf[0]);
                                    }
                                }
                            } else if p[0] == c {
                                assert(!self.has_word(p)) by {
                                    if self.has_word(p) {
                                        let j = choose|j: int|
                                            0 <= j < self.children@.len() && (
                                            #[trigger] self.children@[j]).0 == p[0]
                                                && self.children@[j].1.has_word(p1);
                                        let jo: int = if j < k {
                                            j
                                        } else {
                                            j + 1
                                        };
                                        assert(old_self.children@[jo].0 == p[0]);
                                        assert(jo == k);
                                        assert(false);
                                    }
                                }
                                lemma_child_word(old_self, k as int, p);
                                if old_self.has_word(p) {
                                    assert(p1 == suf1);
                                    lemma_cons_eq(p, suf);
                                }
                            } else {
                                if self.has_word(p) {
                                    let j = choose|j: int|
                                        0 <= j < self.children@.len() && (
                                        #[trigger] self.children@[j]).0 == p[0]
                                            && self.children@[j].1.has_word(p1);
                                    let jo: int = if j < k {
                                        j
                                    } else {
                                        j + 1
                                    };
                                    assert(old_self.children@[jo].0 == p[0]);
                                    assert(old_self.children@[jo].1.has_word(p1));
                                    assert(old_self.has_word(p));
                                }
                                if old_self.has_word(p) {
                                    let j = choose|j: int|
                                        0 <= j < old_self.children@.len() && (
                                        #[trigger] old_self.children@[j]).0 == p[0]
                                            && old_self.children@[j].1.has_word(p1);
                                    assert(j != k);
                                    let jn: int = if j < k {
                                        j
                                    } else {
                                        j - 1
                                    };
                                    assert(self.children@[jn].0 == p[0]);
                                    assert(self.children@[jn].1.has_word(p1));
                                    assert(self.has_word(p));
                                }
                                if p == suf {
                                    assert(p[0] == suf[0]);
                                }
                            }
                        }
                    }
                    true
                } else {
                    self.children.insert(k, (ch, child));
                    proof {
                        assert(self.children@ =~= old_self.children@.update(
                            k as int,
                            (c, new_child),
                        ));
                        assert forall|j: int|
                            0 <= j < self.children@.len() implies (#[trigger] self.children@[j]).0
                            == old_self.children@[j].0 && (j != k ==> self.children@[j].1
                            == old_self.children@[j].1) by {}
                        assert(self.wf());
                        // in this branch the deleted word was not the child's only word
                        if old_child.has_word(suf1) {
                            assert(!only_word(old_child, suf1));
                        }
                        // so the flag's condition is false
                        assert forall|j: int|
                            0 <= j < old_self.children@.len() && (#[trigger] old_self.children@[j]).0
                                == suf[0] implies !only_word(old_self.children@[j].1, suf1) by {
                            assert(j == k);
                            if !old_child.has_word(suf1) {
                                lemma_has_some_word(old_child);
                                let q = choose|q: Seq<char>| old_child.has_word(q);
                                assert(q != suf1);
                            }
                        }
                        assert forall|p: Seq<char>|
                            self.has_word(p) == words_after_delete(old_self, suf, p) by {
                            let p1 = p.drop_first();
                            if p.len() == 0 {
                                assert(!self.has_word(p));
                                if old_self.has_word(suf) {
                                    assert(!only_word(old_self, suf)) by {
                                        let q = choose|q: Seq<char>| old_child.has_word(q) && q
                                            != suf1;
                                        let w = seq![c] + q;
                                        assert(w.drop_first() =~= q);
                                        assert(old_self.has_word(w));
                                        assert(w != suf) by {
                                            if w == suf {
                                                assert(q =~= suf1);
                                            }
                                        }
                                    }
                                }
                            } else if p[0] == c {
                                lemma_child_word(*self, k as int, p);
                                lemma_child_word(old_self, k as int, p);
                                assert(self.has_word(p) == new_child.has_word(p1));
                                assert(new_child.has_word(p1) == words_after_delete(
                                    old_child,
                                    suf1,
                                    p1,
                                ));
                                if p1 == suf1 {
                                    lemma_cons_eq(p, suf);
                                }
                                if p == suf {
                                    assert(p1 =~= suf1);
                                }
                                if old_child.has_word(suf1) && p1.len() == 0 && only_word(
                                    old_child,
                                    suf1,
                                ) {
                                    assert(false);
                                }
                            } else {
                                if self.has_word(p) {
                                    let j = choose|j: int|
                                        0 <= j < self.children@.len() && (
                                        #[trigger] self.children@[j]).0 == p[0]
                                            && self.children@[j].1.has_word(p1);
                                    assert(j != k);
                                    assert(old_self.children@[j].1.has_word(p1));
                                    assert(old_self.has_word(p));
                                }
                                if old_self.has_word(p) {
                                    let j = choose|j: int|
                                        0 <= j < old_self.children@.len() && (
                                        #[trigger] old_self.children@[j]).0 == p[0]
                                            && old_self.children@[j].1.has_word(p1);
                                    assert(j != k);
                                    assert(self.children@[j].1.has_word(p1));
                                    assert(self.has_word(p));
                                }
                                if p == suf {
                                    assert(p[0] == suf[0]);
                                }
                            }
                        }
                    }
                    false
                }
            },
        }
    }
}

/// A word among the views of collected words.
pub open spec fn word_listed(out: Seq<Vec<char>>, w: Seq<char>) -> bool {
    exists|j: int| 0 <= j < out.len() && (#[trigger] out[j])@ == w
}

/// Each collected word, with `prefix` glued to its front, as a string.
fn prepend_to_all(prefix: &Vec<char>, words: &Vec<Vec<char>>) -> (v: Vec<String>)
    ensures
        v@.len() == words@.len(),
        forall|x: int| 0 <= x < v@.len() ==> (#[trigger] v@[x])@ == prefix@ + words@[x]@,
{
    let mut v: Vec<String> = Vec::new();
    let mut j: usize = 0;
    while j < words.len()
        invariant
            j <= words@.len(),
            v@.len() == j,
            forall|x: int| 0 <= x < j ==> (#[trigger] v@[x])@ == prefix@ + words@[x]@,
        decreases words@.len() - j,
    {
        let mut w: Vec<char> = Vec::new();
        let mut x: usize = 0;
        while x < prefix.len()
            invariant
                x <= prefix@.len(),
                w@ == prefix@.subrange(0, x as int),
            decreases prefix@.len() - x,
        {
            w.push(prefix[x]);
            assert(w@ =~= prefix@.subrange(0, x + 1 as int));
            x = x + 1;
        }
        assert(w@ =~= prefix@);
        let piece = &words[j];
        let mut y: usize = 0;
        while y < piece.len()
            invariant
                y <= piece@.len(),
                w@ == prefix@ + piece@.subrange(0, y as int),
            decreases piece@.len() - y,
        {
            w.push(piece[y]);
            assert(w@ =~= prefix@ + piece@.subrange(0, y + 1 as int));
            y = y + 1;
        }
        assert(w@ =~= prefix@ + words@[j as int]@);
        v.push(chars_to_string(&w));
        j = j + 1;
    }
    v
}

impl TrieNode {
    /// The subtree reached over the path `s[i..]`, if that path exists.
    fn find_at(&self, s: &Vec<char>, i: usize) -> (r: Option<&TrieNode>)
        requires
            i <= s@.len(),
            self.wf(),
        ensures
            r.is_some() == self.has_node(s@.skip(i as int)),
            match r {
                Some(n) => n.wf() && forall|q: Seq<char>|
                    #[trigger] n.has_word(q) == self.has_word(s@.skip(i as int) + q),
                None => true,
            },
        decreases s@.len() - i,
    {
        let ghost suf = s@.skip(i as int);
        if i == s.len() {
            proof {
                assert(suf.len() == 0);
                assert forall|q: Seq<char>|
                    #[trigger] self.has_word(q) == self.has_word(suf + q) by {
                    assert(suf + q =~= q);
                }
            }
            return Some(self);
        }
        assert(suf[0] == s@[i as int]);
        assert(suf.drop_first() =~= s@.skip(i + 1 as int));
        let ghost suf1 = suf.drop_first();
        let c = s[i];
        match self.find_child(c) {
            None => {
                proof {
                    assert(!self.has_node(suf));
                }
                None
            },
            Some(k) => {
                let child = &self.children[k].1;
                let r = child.find_at(s, i + 1);
                proof {
                    lemma_child_node(*self, k as int, suf);
                    if r.is_some() {
                        let n = r.unwrap();
                        assert forall|q: Seq<char>|
                            #[trigger] n.has_word(q) == self.has_word(suf + q) by {
                            assert(n.has_word(q) == child.has_word(suf1 + q));
                            assert((suf + q)[0] == c);
                            assert((suf + q).drop_first() =~= suf1 + q);
                            lemma_child_word(*self, k as int, suf + q);
                        }
                    }
                }
                r
            },
        }
    }

    /// Every complete word of this subtree, as character vectors,
    /// without duplicates.
    pub fn get_all_chars(&self) -> (out: Vec<Vec<char>>)
        requires
            self.wf(),
        ensures
            forall|j: int| 0 <= j < out@.len() ==> self.has_word((#[trigger] out@[j])@),
            forall|q: Seq<char>| self.has_word(q) ==> word_listed(out@, q),
            forall|j1: int, j2: int| 0 <= j1 < j2 < out@.len() ==> out@[j1]@ != out@[j2]@,
        decreases *self,
    {
        if self.children.len() == 0 {
            let mut out: Vec<Vec<char>> = Vec::new();
            let empty_word: Vec<char> = Vec::new();
            out.push(empty_word);
            proof {
                assert(out@[0]@ =~= Seq::<char>::empty());
                assert(self.has_word(out@[0]@));
                assert forall|q: Seq<char>| self.has_word(q) implies word_listed(out@, q) by {
                    assert(q =~= Seq::<char>::empty());
                    assert(out@[0]@ == q);
                }
            }
            return out;
        }
        let mut out: Vec<Vec<char>> = Vec::new();
        let mut k: usize = 0;
        while k < self.children.len()
            invariant
                self.wf(),
                k <= self.children@.len(),
                forall|j: int|
                    0 <= j < out@.len() ==> ((#[trigger] out@[j])@.len() > 0 && exists|kk: int|
                        0 <= kk < k && (#[trigger] self.children@[kk]).0 == out@[j]@[0]
                            && self.children@[kk].1.has_word(out@[j]@.drop_first())),
                forall|kk: int, d: Seq<char>|
                    0 <= kk < k && (#[trigger] self.children@[kk].1.has_word(d)) ==> word_listed(
                        out@,
                        seq![self.children@[kk].0] + d,
                    ),
                forall|j1: int, j2: int| 0 <= j1 < j2 < out@.len() ==> out@[j1]@ != out@[j2]@,
            decreases self.children@.len() - k,
        {
            let c = self.children[k].0;
            let sub = self.children[k].1.get_all_chars();
            let ghost child = self.children@[k as int].1;
            proof {
                // nothing collected so far starts with this child's edge
                assert forall|j: int| 0 <= j < out@.len() implies (#[trigger] out@[j])@[0] != c by {
                    let kk = choose|kk: int|
                        0 <= kk < k && (#[trigger] self.children@[kk]).0 == out@[j]@[0]
                            && self.children@[kk].1.has_word(out@[j]@.drop_first());
                }
            }
            let mut m: usize = 0;
            while m < sub.len()
                invariant
                    self.wf(),
                    k < self.children@.len(),
                    c == self.children@[k as int].0,
                    child == self.children@[k as int].1,
                    m <= sub@.len(),
                    forall|j: int| 0 <= j < sub@.len() ==> child.has_word((#[trigger] sub@[j])@),
                    forall|q: Seq<char>| child.has_word(q) ==> word_listed(sub@, q),
                    forall|j1: int, j2: int| 0 <= j1 < j2 < sub@.len() ==> sub@[j1]@ != sub@[j2]@,
                    forall|j: int|
                        0 <= j < out@.len() ==> ((#[trigger] out@[j])@.len() > 0 && exists|kk: int|
                            0 <= kk <= k && (#[trigger] self.children@[kk]).0 == out@[j]@[0]
                                && self.children@[kk].1.has_word(out@[j]@.drop_first())),
                    forall|kk: int, d: Seq<char>|
                        0 <= kk < k && (#[trigger] self.children@[kk].1.has_word(d))
                            ==> word_listed(out@, seq![self.children@[kk].0] + d),
                    forall|j1: int, j2: int| 0 <= j1 < j2 < out@.len() ==> out@[j1]@ != out@[j2]@,
                    forall|j: int|
                        0 <= j < out@.len() && (#[trigger] out@[j])@[0] == c ==> exists|mm: int|
                            0 <= mm < m && out@[j]@.drop_first() == (#[trigger] sub@[mm])@,
                    forall|mm: int|
                        0 <= mm < m ==> word_listed(out@, seq![c] + (#[trigger] sub@[mm])@),
                decreases sub@.len() - m,
            {
                let mut w: Vec<char> = Vec::new();
                w.push(c);
                let piece = &sub[m];
                let mut x: usize = 0;
                while x < piece.len()
                    invariant
                        x <= piece@.len(),
                        w@ == seq![c] + piece@.subrange(0, x as int),
                    decreases piece@.len() - x,
                {
                    w.push(piece[x]);
                    assert(w@ =~= seq![c] + piece@.subrange(0, x + 1 as int));
                    x = x + 1;
                }
                assert(w@ =~= seq![c] + sub@[m as int]@);
                assert(w@.drop_first() =~= sub@[m as int]@);
                proof {
                    // the new word differs from everything already there
                    assert forall|j: int| 0 <= j < out@.len() implies out@[j]@ != w@ by {
                        if out@[j]@[0] == c {
                            let mm = choose|mm: int|
                                0 <= mm < m && out@[j]@.drop_first() == (#[trigger] sub@[mm])@;
                            assert(sub@[mm]@ != sub@[m as int]@);
                            if out@[j]@ == w@ {
                                assert(out@[j]@.drop_first() == w@.drop_first());
                            }
                        } else {
                            assert(w@[0] == c);
                        }
                    }
                }
                let ghost out_before = out@;
                out.push(w);
                proof {
                    let last = out@.len() - 1;
                    assert(out@ == out_before.push(w));
                    assert(out@[last]@ == seq![c] + sub@[m as int]@);
                    assert forall|j: int|
                        0 <= j < out@.len() && (#[trigger] out@[j])@[0] == c implies exists|mm: int|
                        0 <= mm < m + 1 && out@[j]@.drop_first() == (#[trigger] sub@[mm])@ by {
                        if j == last {
                            assert(out@[j]@.drop_first() == sub@[m as int]@);
                        } else {
                            assert(out@[j] == out_before[j]);
                            let mm = choose|mm: int|
                                0 <= mm < m && out_before[j]@.drop_first() == (
                                #[trigger] sub@[mm])@;
                            assert(out@[j]@.drop_first() == sub@[mm]@);
                        }
                    }
                    assert forall|mm: int| 0 <= mm < m + 1 implies word_listed(
                        out@,
                        seq![c] + (#[trigger] sub@[mm])@,
                    ) by {
                        if mm == m {
                            assert(out@[last]@ == seq![c] + sub@[mm]@);
                        } else {
                            let j = choose|j: int|
                                0 <= j < out_before.len() && (#[trigger] out_before[j])@ == seq![c]
                                    + sub@[mm]@;
                            assert(out@[j] == out_before[j]);
                            assert(out@[j]@ == seq![c] + sub@[mm]@);
                        }
                    }
                    assert forall|kk: int, d: Seq<char>|
                        0 <= kk < k && (#[trigger] self.children@[kk].1.has_word(d)) implies
                        word_listed(out@, seq![self.children@[kk].0] + d) by {
                        let j = choose|j: int|
                            0 <= j < out_before.len() && (#[trigger] out_before[j])@ == seq![
                                self.children@[kk].0,
                            ] + d;
                        assert(out@[j] == out_before[j]);
                        assert(out@[j]@ == seq![self.children@[kk].0] + d);
                    }
                }
                m = m + 1;
            }
            proof {
                // all of this child's words are now collected
                assert forall|kk: int, d: Seq<char>|
                    0 <= kk < k + 1 && (#[trigger] self.children@[kk].1.has_word(d)) implies
                    word_listed(out@, seq![self.children@[kk].0] + d) by {
                    if kk == k {
                        let mm = choose|mm: int|
                            0 <= mm < sub@.len() && (#[trigger] sub@[mm])@ == d;
                        assert(word_listed(out@, seq![c] + sub@[mm]@));
                    }
                }
            }
            k = k + 1;
        }
        proof {
            assert forall|j: int| 0 <= j < out@.len() implies self.has_word((#[trigger] out@[j])@)
                by {
                let q = out@[j]@;
                let kk = choose|kk: int|
                    0 <= kk < k && (#[trigger] self.children@[kk]).0 == q[0]
                        && self.children@[kk].1.has_word(q.drop_first());
                assert(self.has_word(q));
            }
            assert forall|q: Seq<char>| self.has_word(q) implies word_listed(out@, q) by {
                assert(q.len() > 0);
                let kk = choose|kk: int|
                    0 <= kk < self.children@.len() && (#[trigger] self.children@[kk]).0 == q[0]
                        && self.children@[kk].1.has_word(q.drop_first());
                assert(word_listed(out@, seq![self.children@[kk].0] + q.drop_first()));
                assert(seq![self.children@[kk].0] + q.drop_first() =~= q);
            }
        }
        out
    }

    /// Every complete word of this subtree, as owned strings, without
    /// duplicates.
    pub fn get_all_strings(&self) -> (out: Vec<String>)
        requires
            self.wf(),
        ensures
            forall|j: int| 0 <= j < out@.len() ==> self.has_word((#[trigger] out@[j])@),
            forall|q: Seq<char>|
                self.has_word(q) ==> exists|j: int| 0 <= j < out@.len() && (#[trigger] out@[j])@
                    == q,
            forall|j1: int, j2: int| 0 <= j1 < j2 < out@.len() ==> out@[j1]@ != out@[j2]@,
    {
        let words = self.get_all_chars();
        let mut out: Vec<String> = Vec::new();
        let mut j: usize = 0;
        while j < words.len()
            invariant
                j <= words@.len(),
                out@.len() == j,
                forall|x: int| 0 <= x < j ==> (#[trigger] out@[x])@ == words@[x]@,
            decreases words@.len() - j,
        {
            out.push(chars_to_string(&words[j]));
            j = j + 1;
        }
        proof {
            assert forall|q: Seq<char>| self.has_word(q) implies exists|x: int|
                0 <= x < out@.len() && (#[trigger] out@[x])@ == q by {
                let y = choose|y: int| 0 <= y < words@.len() && (#[trigger] words@[y])@ == q;
                assert(out@[y]@ == q);
            }
        }
        out
    }

    /// The words that extend `s`, rendered as whole strings, or `None`
    /// when no word starts with `s` — or when an empty query meets an
    /// empty trie.
    #[verifier::rlimit(100)]
    pub fn extract(&self, s: &str) -> (r: Option<Vec<String>>)
        requires
            self.wf(),
        ensures
            r.is_some() == (self.has_node(s@) && !(s@.len() == 0 && self.has_word(
                Seq::<char>::empty(),
            ))),
            (r.is_some() ==> forall|j: int|
                0 <= j < r->Some_0@.len() ==> self.has_word((#[trigger] r->Some_0@[j])@)
                    && r->Some_0@[j]@.len() >= s@.len() && r->Some_0@[j]@.take(s@.len() as int)
                    == s@),
            (r.is_some() ==> forall|w: Seq<char>|
                self.has_word(w) && w.len() >= s@.len() && w.take(s@.len() as int) == s@
                    ==> exists|j: int| 0 <= j < r->Some_0@.len() && (#[trigger] r->Some_0@[j])@
                    == w),
            (r.is_some() ==> forall|j1: int, j2: int|
                0 <= j1 < j2 < r->Some_0@.len() ==> r->Some_0@[j1]@ != r->Some_0@[j2]@),
    {
        let chars = str_to_chars(s);
        if s.unicode_len() == 0 && self.children.len() == 0 {
            proof {
                assert(self.has_word(Seq::<char>::empty()));
            }
            return None;
        }
        match self.find_at(&chars, 0) {
            None => {
                proof {
                    assert(chars@.skip(0) =~= s@);
                }
                None
            },
            Some(node) => {
                assert(chars@.skip(0) =~= s@);
                let words = node.get_all_chars();
                let v = prepend_to_all(&chars, &words);
                proof {
                    assert forall|x: int|
                        0 <= x < v@.len() implies self.has_word((#[trigger] v@[x])@) && v@[x]@.len()
                        >= s@.len() && v@[x]@.take(s@.len() as int) == s@ by {
                        assert(node.has_word(words@[x]@) == self.has_word(s@ + words@[x]@));
                        assert((s@ + words@[x]@).take(s@.len() as int) =~= s@);
                    }
                    assert forall|w: Seq<char>|
                        self.has_word(w) && w.len() >= s@.len() && w.take(s@.len() as int) == s@
                        implies exists|x: int| 0 <= x < v@.len() && (#[trigger] v@[x])@ == w by {
                        let d = w.skip(s@.len() as int);
                        assert(s@ + d =~= w);
                        assert(node.has_word(d) == self.has_word(s@ + d));
                        assert(node.has_word(d));
                        let y = choose|y: int|
                            0 <= y < words@.len() && (#[trigger] words@[y])@ == d;
                        assert(v@[y]@ == w);
                    }
                    assert forall|j1: int, j2: int|
                        0 <= j1 < j2 < v@.len() implies v@[j1]@ != v@[j2]@ by {
                        if v@[j1]@ == v@[j2]@ {
                            assert(words@[j1]@ =~= v@[j1]@.skip(s@.len() as int));
                            assert(words@[j2]@ =~= v@[j2]@.skip(s@.len() as int));
                        }
                    }
                }
                let ghost vg = v;
                let r = Some(v);
                proof {
                    assert(r->Some_0 == vg);
                    assert(forall|w: Seq<char>|
                        self.has_word(w) && w.len() >= s@.len() && w.take(s@.len() as int) == s@
                            ==> exists|j: int| 0 <= j < vg@.len() && (#[trigger] vg@[j])@ == w);
                    assert(forall|w: Seq<char>|
                        self.has_word(w) && w.len() >= s@.len() && w.take(s@.len() as int) == s@
                            ==> exists|j: int| 0 <= j < r->Some_0@.len() && (
                        #[trigger] r->Some_0@[j])@ == w);
                }
                r
            },
        }
    }
}

/// The prefix trie: a root node, modelled by its set of complete
/// words.
#[derive(Debug, PartialEq, Eq)]
pub struct Trie {
    root: TrieNode,
}

/// What [`Trie::add`] does to the word set, pointwise.
pub open spec fn trie_after_add(t: Trie, s: Seq<char>, p: Seq<char>) -> bool {
    if t.has_path(s) {
        t.contains_word(p)
    } else {
        p == s || (t.contains_word(p) && !strict_prefix_of(p, s))
    }
}

/// `s` is the one and only word of `t`.
pub open spec fn trie_only_word(t: Trie, s: Seq<char>) -> bool {
    forall|q: Seq<char>| t.contains_word(q) ==> q == s
}

/// What [`Trie::delete`] does to the word set, pointwise.
pub open spec fn trie_after_delete(t: Trie, s: Seq<char>, p: Seq<char>) -> bool {
    if t.contains_word(s) {
        (t.contains_word(p) && p != s) || (p.len() == 0 && trie_only_word(t, s))
    } else {
        t.contains_word(p)
    }
}

proof fn lemma_only_word_iff(t: Trie, s: Seq<char>)
    ensures
        trie_only_word(t, s) == only_word(t.root, s),
{
    if trie_only_word(t, s) {
        assert forall|q: Seq<char>| t.root.has_word(q) implies q == s by {
            assert(t.contains_word(q));
        }
    }
    if only_word(t.root, s) {
        assert forall|q: Seq<char>| t.contains_word(q) implies q == s by {
            assert(t.root.has_word(q));
        }
    }
}

impl Trie {
    /// Well-formed: distinct edge characters at every node.
    pub closed spec fn wf(self) -> bool {
        self.root.wf()
    }

    /// `p` is a complete word of the trie.
    pub closed spec fn contains_word(self, p: Seq<char>) -> bool {
        self.root.has_word(p)
    }

    /// `p` is a prefix of some word of the trie.
    pub closed spec fn has_path(self, p: Seq<char>) -> bool {
        self.root.has_node(p)
    }

    /// An empty trie; its one word is the empty word.
    pub fn new() -> (t: Trie)
        ensures
            t.wf(),
            forall|p: Seq<char>| t.contains_word(p) <==> p =~= Seq::<char>::empty(),
    {
        Trie { root: TrieNode::new() }
    }

    /// Adds the word `s`.
    pub fn add(&mut self, s: &str)
        requires
            old(self).wf(),
        ensures
            final(self).wf(),
            forall|p: Seq<char>| final(self).contains_word(p) == trie_after_add(*old(self), s@, p),
    {
        let chars = str_to_chars(s);
        proof {
            assert(chars@.skip(0) =~= s@);
        }
        self.root.add_at(&chars, 0);
    }

    /// Deletes the word `s`; deleting a word that is not in the trie
    /// changes nothing.
    pub fn delete(&mut self, s: &str)
        requires
            old(self).wf(),
        ensures
            final(self).wf(),
            forall|p: Seq<char>|
                final(self).contains_word(p) == trie_after_delete(*old(self), s@, p),
    {
        let chars = str_to_chars(s);
        proof {
            assert(chars@.skip(0) =~= s@);
        }
        let _ = self.root.delete_at(&chars, 0);
        proof {
            lemma_only_word_iff(*old(self), s@);
        }
    }

    /// The words that extend `s`, or `None` when no word starts with
    /// `s` — or when an empty query meets an empty trie.
    pub fn extract(&self, s: &str) -> (r: Option<Vec<String>>)
        requires
            self.wf(),
        ensures
            r.is_some() == (self.has_path(s@) && !(s@.len() == 0 && self.contains_word(
                Seq::<char>::empty(),
            ))),
            (r matches Some(v) ==> forall|j: int|
                0 <= j < v@.len() ==> self.contains_word((#[trigger] v@[j])@) && v@[j]@.len()
                    >= s@.len() && v@[j]@.take(s@.len() as int) == s@),
            (r matches Some(v) ==> forall|w: Seq<char>|
                self.contains_word(w) && w.len() >= s@.len() && w.take(s@.len() as int) == s@
                    ==> exists|j: int| 0 <= j < v@.len() && (#[trigger] v@[j])@ == w),
            (r matches Some(v) ==> forall|j1: int, j2: int|
                0 <= j1 < j2 < v@.len() ==> v@[j1]@ != v@[j2]@),
    {
        self.root.extract(s)
    }

    /// The trie holding exactly the word `value`.
    pub fn from(value: &str) -> (t: Trie)
        ensures
            t.wf(),
            forall|p: Seq<char>| t.contains_word(p) <==> p == value@,
    {
        let mut t = Trie::new();
        let ghost t_init = t;
        t.add(value);
        proof {
            assert(t_init.contains_word(Seq::<char>::empty()));
            assert(t_init.root.has_word(Seq::<char>::empty()));
            assert(t_init.root.children@.len() == 0);
            assert forall|p: Seq<char>| t.contains_word(p) <==> p == value@ by {
                assert(t.contains_word(p) == trie_after_add(t_init, value@, p));
                if value@.len() == 0 {
                    assert(t_init.has_path(value@));
                    if t.contains_word(p) {
                        assert(p =~= Seq::<char>::empty());
                        assert(p =~= value@);
                    }
                    if p == value@ {
                        assert(p =~= Seq::<char>::empty());
                        assert(t_init.contains_word(p));
                    }
                } else {
                    assert(!t_init.root.has_node(value@));
                    assert(!t_init.has_path(value@));
                    if t.contains_word(p) && p != value@ {
                        assert(t_init.contains_word(p));
                        assert(p =~= Seq::<char>::empty());
                        assert(strict_prefix_of(p, value@)) by {
                            assert(p =~= value@.take(0));
                        }
                    }
                }
            }
        }
        t
    }
}

proof fn lemma_node_word_is_node(t: TrieNode, p: Seq<char>)
    requires
        t.has_word(p),
    ensures
        t.has_node(p),
    decreases p.len(),
{
    if p.len() > 0 {
        let i = choose|i: int|
            0 <= i < t.children@.len() && (#[trigger] t.children@[i]).0 == p[0]
                && t.children@[i].1.has_word(p.drop_first());
        lemma_node_word_is_node(t.children@[i].1, p.drop_first());
    }
}

/// Every word of the trie also lies on a path of the trie.
pub proof fn lemma_word_is_path(t: Trie, p: Seq<char>)
    requires
        t.contains_word(p),
    ensures
        t.has_path(p),
{
    lemma_node_word_is_node(t.root, p);
}

/// When keys are distinct, a word starting with the key of child `k`
/// goes through child `k` and no other.
proof fn lemma_child_word(t: TrieNode, k: int, p: Seq<char>)
    requires
        t.wf(),
        0 <= k < t.children@.len(),
        p.len() > 0,
        t.children@[k].0 == p[0],
    ensures
        t.has_word(p) == t.children@[k].1.has_word(p.drop_first()),
{
    if t.has_word(p) {
        let i = choose|i: int|
            0 <= i < t.children@.len() && (#[trigger] t.children@[i]).0 == p[0]
                && t.children@[i].1.has_word(p.drop_first());
        assert(i == k);
    }
}

/// The same, for the existence of a node.
proof fn lemma_child_node(t: TrieNode, k: int, p: Seq<char>)
    requires
        t.wf(),
        0 <= k < t.children@.len(),
        p.len() > 0,
        t.children@[k].0 == p[0],
    ensures
        t.has_node(p) == t.children@[k].1.has_node(p.drop_first()),
{
    if t.has_node(p) {
        let i = choose|i: int|
            0 <= i < t.children@.len() && (#[trigger] t.children@[i]).0 == p[0]
                && t.children@[i].1.has_node(p.drop_first());
        assert(i == k);
    }
}

} // verus!
