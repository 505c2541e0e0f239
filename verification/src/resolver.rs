//! The documentation resolver: a per-root cache of definition files and the
//! rules for attaching documentation to a binding.
//!
//! Each root is keyed to a tri-state entry: unloaded (the path of its
//! definition file, not yet read), loaded (the parsed document, with the
//! text it came from kept as its ghost pedigree), or unresolvable (the
//! file could not be read or did not parse; terminal for the run).  The
//! caller reads the file when the cache asks for it and hands the text
//! back; everything else — the state transitions, the lazy single load
//! per root, and the attachment rules, pinned to the named lookup result
//! of the definition text — is decided here.

use vstd::prelude::*;

use serde_json::Value;

use crate::json_api::doc_in;
use crate::json_api::doc_of;
use crate::json_api::json_well_formed;
use crate::json_api::parse_json;
use crate::json_api::query_doc;
use crate::keybinding::Keybinding;
use crate::text::str_eq;

verus! {

/// One root's cache entry.
pub enum DocCacheEntry {
    /// The definition file has not been read; its path is kept.
    Unloaded(String),
    /// The definition file was read and parsed; the text it parsed from
    /// is kept as the entry's ghost pedigree.
    Loaded(Value, Ghost<Seq<char>>),
    /// The definition file could not be read or did not parse; terminal
    /// for the run.
    Unresolvable,
}

/// Mathematical image of a [`DocCacheEntry`]: the parsed document itself
/// stays opaque, but a loaded entry shows the definition text it came
/// from.
pub ghost enum DocEntryModel {
    Unloaded(Seq<char>),
    Loaded(Seq<char>),
    Unresolvable,
}

/// The image of one entry.
pub open spec fn entry_model(e: DocCacheEntry) -> DocEntryModel {
    match e {
        DocCacheEntry::Unloaded(p) => DocEntryModel::Unloaded(p@),
        DocCacheEntry::Loaded(v, g) => DocEntryModel::Loaded(g@),
        DocCacheEntry::Unresolvable => DocEntryModel::Unresolvable,
    }
}

/// A loaded entry is coherent: its text is well-formed JSON and its
/// document answers every query as the text does.
pub open spec fn entry_ok(e: DocCacheEntry) -> bool {
    match e {
        DocCacheEntry::Loaded(v, g) => json_well_formed(g@) && forall|p: Seq<char>|
            #[trigger] doc_in(v, p) == doc_of(g@, p),
        DocCacheEntry::Unloaded(p) => true,
        DocCacheEntry::Unresolvable => true,
    }
}

/// The entry keyed by `k`: the first pair whose key reads `k`.
pub open spec fn seq_entry(s: Seq<(String, DocCacheEntry)>, k: Seq<char>) -> Option<DocEntryModel>
    decreases s.len(),
{
    if s.len() == 0 {
        None
    } else if s[0].0@ == k {
        Some(entry_model(s[0].1))
    } else {
        seq_entry(s.drop_first(), k)
    }
}

/// The per-root documentation cache.
pub struct DocCache {
    pub entries: Vec<(String, DocCacheEntry)>,
}

impl DocCache {
    /// No two entries share a key, and every loaded entry is coherent.
    pub open spec fn wf(self) -> bool {
        &&& forall|i: int, j: int|
            0 <= i < j < self.entries@.len() ==> self.entries@[i].0@ != self.entries@[j].0@
        &&& forall|i: int|
            0 <= i < self.entries@.len() ==> entry_ok(#[trigger] self.entries@[i].1)
    }

    /// The state of the root keyed by `k`, or nothing for an unknown root.
    pub open spec fn entry(self, k: Seq<char>) -> Option<DocEntryModel> {
        seq_entry(self.entries@, k)
    }

    /// The path still waiting to be read for this root, if its entry is
    /// unloaded.
    pub open spec fn pending_path(self, k: Seq<char>) -> Option<Seq<char>> {
        match seq_entry(self.entries@, k) {
            Some(DocEntryModel::Unloaded(p)) => Some(p),
            _ => None,
        }
    }
}

/// The entry of the first pair carrying `k`, when every earlier pair
/// carries another key.
proof fn lemma_seq_entry_found(s: Seq<(String, DocCacheEntry)>, k: Seq<char>, i: int)
    requires
        0 <= i < s.len(),
        s[i].0@ == k,
        forall|j: int| 0 <= j < i ==> s[j].0@ != k,
    ensures
        seq_entry(s, k) == Some(entry_model(s[i].1)),
    decreases i,
{
    if i > 0 {
        let t = s.drop_first();
        assert(forall|j: int| 0 <= j < i - 1 ==> #[trigger] t[j].0@ == s[j + 1].0@);
        lemma_seq_entry_found(t, k, i - 1);
    }
}

/// No pair carries `k`: the lookup yields nothing.
proof fn lemma_seq_entry_none(s: Seq<(String, DocCacheEntry)>, k: Seq<char>)
    requires
        forall|j: int| 0 <= j < s.len() ==> s[j].0@ != k,
    ensures
        seq_entry(s, k) is None,
    decreases s.len(),
{
    if s.len() > 0 {
        lemma_seq_entry_none(s.drop_first(), k);
    }
}

/// A lookup succeeds exactly when some pair carries the key.
proof fn lemma_seq_entry_some(s: Seq<(String, DocCacheEntry)>, k: Seq<char>)
    ensures
        (seq_entry(s, k) is Some) <==> (exists|j: int|
            0 <= j < s.len() && (#[trigger] s[j].0@) == k),
    decreases s.len(),
{
    if s.len() > 0 {
        let t = s.drop_first();
        lemma_seq_entry_some(t, k);
        if s[0].0@ == k {
        } else {
            assert forall|j: int| 0 <= j < t.len() && (#[trigger] t[j].0@) == k implies exists|
                j2: int,
            | 0 <= j2 < s.len() && (#[trigger] s[j2].0@) == k by {
                assert(s[j + 1].0@ == k);
            }
            if exists|j: int| 0 <= j < s.len() && (#[trigger] s[j].0@) == k {
                let j = choose|j: int| 0 <= j < s.len() && (#[trigger] s[j].0@) == k;
                assert(j > 0);
                assert(t[j - 1].0@ == k);
            }
        }
    }
}

/// Replacing the value under the first pair carrying `k` changes that key's
/// entry and no other.
proof fn lemma_seq_entry_update(
    s: Seq<(String, DocCacheEntry)>,
    i: int,
    np: (String, DocCacheEntry),
)
    requires
        0 <= i < s.len(),
        forall|j: int| 0 <= j < i ==> s[j].0@ != s[i].0@,
        np.0@ == s[i].0@,
    ensures
        seq_entry(s.update(i, np), s[i].0@) == Some(entry_model(np.1)),
        forall|k: Seq<char>|
            k != s[i].0@ ==> #[trigger] seq_entry(s.update(i, np), k) == seq_entry(s, k),
    decreases i,
{
    let s2 = s.update(i, np);
    if i == 0 {
        assert(s2[0] == np);
        assert(s2.drop_first() =~= s.drop_first());
        assert(seq_entry(s2, s[0].0@) == Some(entry_model(np.1)));
    } else {
        assert(s2[0] == s[0]);
        assert(s2.drop_first() =~= s.drop_first().update(i - 1, np));
        let t = s.drop_first();
        assert(forall|j: int| 0 <= j < i - 1 ==> #[trigger] t[j].0@ == s[j + 1].0@);
        assert(t[i - 1] == s[i]);
        lemma_seq_entry_update(t, i - 1, np);
        assert forall|k: Seq<char>| k != s[i].0@ implies #[trigger] seq_entry(s2, k) == seq_entry(
            s,
            k,
        ) by {
            if s[0].0@ == k {
            } else {
                assert(seq_entry(t.update(i - 1, np), k) == seq_entry(t, k));
            }
        }
    }
}

/// The index of the first entry keyed by `root`, if the cache knows it.
fn find_root(entries: &Vec<(String, DocCacheEntry)>, root: &str) -> (r: Option<usize>)
    ensures
        match r {
            Some(i) => i < entries@.len() && entries@[i as int].0@ == root@ && forall|j: int|
                0 <= j < i ==> entries@[j].0@ != root@,
            None => forall|j: int| 0 <= j < entries@.len() ==> entries@[j].0@ != root@,
        },
{
    let n = entries.len();
    let mut i: usize = 0;
    while i < n
        invariant
            0 <= i <= n,
            n == entries@.len(),
            forall|j: int| 0 <= j < i ==> entries@[j].0@ != root@,
        decreases n - i,
    {
        if str_eq(entries[i].0.as_str(), root) {
            return Some(i);
        }
        i = i + 1;
    }
    None
}

/// Whether a cache pair was built from one of the first `bound` root
/// pairs: same key, unloaded, same path.
pub open spec fn pair_from_roots(
    e: (String, DocCacheEntry),
    rs: Seq<(String, String)>,
    bound: int,
) -> bool {
    exists|j: int|
        0 <= j < bound && (#[trigger] rs[j].0@) == e.0@ && (match e.1 {
            DocCacheEntry::Unloaded(p) => rs[j].1@ == p@,
            DocCacheEntry::Loaded(_, _) => false,
            DocCacheEntry::Unresolvable => false,
        })
}

impl DocCache {
    /// Builds the cache from the root-to-path pairs the caller found, each
    /// root starting unloaded.  A root named twice keeps the later path.
    pub fn new(roots: Vec<(String, String)>) -> (c: DocCache)
        ensures
            c.wf(),
            forall|k: Seq<char>|
                (#[trigger] c.entry(k)) is Some <==> exists|j: int|
                    0 <= j < roots@.len() && (#[trigger] roots@[j].0@) == k,
            forall|k: Seq<char>|
                (#[trigger] c.entry(k)) is Some ==> (c.entry(k).unwrap() is Unloaded
                    && exists|j: int|
                    0 <= j < roots@.len() && (#[trigger] roots@[j].0@) == k && roots@[j].1@
                        == c.entry(k).unwrap()->Unloaded_0),
    {
        let ghost rs = roots@;
        let mut rest = roots;
        let mut c = DocCache { entries: Vec::new() };
        proof {
            assert(rest@ =~= rs.skip(0));
        }
        while rest.len() > 0
            invariant
                rest@.len() <= rs.len(),
                rest@ =~= rs.skip(rs.len() - rest@.len()),
                c.wf(),
                forall|idx: int|
                    0 <= idx < c.entries@.len() ==> pair_from_roots(
                        #[trigger] c.entries@[idx],
                        rs,
                        rs.len() - rest@.len(),
                    ),
                forall|j: int|
                    0 <= j < rs.len() - rest@.len() ==> exists|idx: int|
                        0 <= idx < c.entries@.len() && (#[trigger] c.entries@[idx].0@) == (
                        #[trigger] rs[j].0@),
            decreases rest@.len(),
        {
            let ghost done = rs.len() - rest@.len();
            let pair = rest.remove(0);
            proof {
                assert(rest@ =~= rs.skip(done + 1));
                assert(pair == rs[done]);
            }
            let ghost s0 = c.entries@;
            match find_root(&c.entries, pair.0.as_str()) {
                Some(i) => {
                    let old_pair = c.entries.remove(i);
                    c.entries.insert(i, (old_pair.0, DocCacheEntry::Unloaded(pair.1)));
                    proof {
                        assert(c.entries@ =~= s0.update(
                            i as int,
                            (s0[i as int].0, DocCacheEntry::Unloaded(rs[done].1)),
                        ));
                        assert(forall|idx: int|
                            0 <= idx < c.entries@.len() ==> #[trigger] c.entries@[idx].0@ == s0[
                            idx].0@);
                        assert forall|idx: int| 0 <= idx < c.entries@.len() implies pair_from_roots(
                            #[trigger] c.entries@[idx],
                            rs,
                            done + 1,
                        ) by {
                            if idx == i as int {
                                assert(c.entries@[idx].0@ == rs[done].0@);
                                assert(c.entries@[idx].1 == DocCacheEntry::Unloaded(rs[done].1));
                            } else {
                                assert(c.entries@[idx] == s0[idx]);
                                assert(pair_from_roots(s0[idx], rs, done));
                                let j0 = choose|j: int|
                                    0 <= j < done && (#[trigger] rs[j].0@) == s0[idx].0@ && (match s0[
                                        idx].1 {
                                        DocCacheEntry::Unloaded(p) => rs[j].1@ == p@,
                                        DocCacheEntry::Loaded(_, _) => false,
                                        DocCacheEntry::Unresolvable => false,
                                    });
                                assert(0 <= j0 < done + 1 && rs[j0].0@ == c.entries@[idx].0@);
                            }
                        }
                        assert forall|j: int| 0 <= j < done + 1 implies exists|idx: int|
                            0 <= idx < c.entries@.len() && (#[trigger] c.entries@[idx].0@) == (
                            #[trigger] rs[j].0@) by {
                            if j == done {
                                assert(c.entries@[i as int].0@ == rs[done].0@);
                            } else {
                                let idx = choose|idx: int|
                                    0 <= idx < s0.len() && (#[trigger] s0[idx].0@) == rs[j].0@;
                                assert(c.entries@[idx].0@ == rs[j].0@);
                            }
                        }
                    }
                },
                None => {
                    c.entries.push((pair.0, DocCacheEntry::Unloaded(pair.1)));
                    proof {
                        assert(c.entries@ =~= s0.push(
                            (rs[done].0, DocCacheEntry::Unloaded(rs[done].1)),
                        ));
                        assert forall|idx: int| 0 <= idx < c.entries@.len() implies pair_from_roots(
                            #[trigger] c.entries@[idx],
                            rs,
                            done + 1,
                        ) by {
                            if idx == s0.len() {
                                assert(c.entries@[idx].0@ == rs[done].0@);
                                assert(c.entries@[idx].1 == DocCacheEntry::Unloaded(rs[done].1));
                            } else {
                                assert(c.entries@[idx] == s0[idx]);
                                assert(pair_from_roots(s0[idx], rs, done));
                                let j0 = choose|j: int|
                                    0 <= j < done && (#[trigger] rs[j].0@) == s0[idx].0@ && (match s0[
                                        idx].1 {
                                        DocCacheEntry::Unloaded(p) => rs[j].1@ == p@,
                                        DocCacheEntry::Loaded(_, _) => false,
                                        DocCacheEntry::Unresolvable => false,
                                    });
                                assert(0 <= j0 < done + 1 && rs[j0].0@ == c.entries@[idx].0@);
                            }
                        }
                        assert forall|j: int| 0 <= j < done + 1 implies exists|idx: int|
                            0 <= idx < c.entries@.len() && (#[trigger] c.entries@[idx].0@) == (
                            #[trigger] rs[j].0@) by {
                            if j == done {
                                assert(c.entries@[s0.len() as int].0@ == rs[done].0@);
                            } else {
                                let idx = choose|idx: int|
                                    0 <= idx < s0.len() && (#[trigger] s0[idx].0@) == rs[j].0@;
                                assert(c.entries@[idx].0@ == rs[j].0@);
                            }
                        }
                    }
                },
            }
        }
        proof {
            assert(rs.len() - rest@.len() == rs.len());
            assert forall|k: Seq<char>| true implies ((#[trigger] c.entry(k)) is Some <==> exists|
                j: int,
            | 0 <= j < rs.len() && (#[trigger] rs[j].0@) == k) by {
                lemma_seq_entry_some(c.entries@, k);
                if exists|idx: int| 0 <= idx < c.entries@.len() && (#[trigger] c.entries@[idx].0@)
                    == k {
                    let idx = choose|idx: int|
                        0 <= idx < c.entries@.len() && (#[trigger] c.entries@[idx].0@) == k;
                    assert(pair_from_roots(c.entries@[idx], rs, rs.len() as int));
                    let j0 = choose|j: int|
                        0 <= j < rs.len() && (#[trigger] rs[j].0@) == c.entries@[idx].0@ && (match c.entries@[
                            idx].1 {
                            DocCacheEntry::Unloaded(p) => rs[j].1@ == p@,
                            DocCacheEntry::Loaded(_, _) => false,
                            DocCacheEntry::Unresolvable => false,
                        });
                    assert(rs[j0].0@ == k);
                }
            }
            assert forall|k: Seq<char>| (#[trigger] c.entry(k)) is Some implies (c.entry(
                k,
            ).unwrap() is Unloaded && exists|j: int|
                0 <= j < rs.len() && (#[trigger] rs[j].0@) == k && rs[j].1@ == c.entry(
                    k,
                ).unwrap()->Unloaded_0) by {
                lemma_seq_entry_some(c.entries@, k);
                let idx = choose|idx: int|
                    0 <= idx < c.entries@.len() && (#[trigger] c.entries@[idx].0@) == k;
                assert forall|j: int| 0 <= j < idx implies c.entries@[j].0@ != k by {}
                lemma_seq_entry_found(c.entries@, k, idx);
                assert(pair_from_roots(c.entries@[idx], rs, rs.len() as int));
                let j0 = choose|j: int|
                    0 <= j < rs.len() && (#[trigger] rs[j].0@) == c.entries@[idx].0@ && (match c.entries@[
                        idx].1 {
                        DocCacheEntry::Unloaded(p) => rs[j].1@ == p@,
                        DocCacheEntry::Loaded(_, _) => false,
                        DocCacheEntry::Unresolvable => false,
                    });
                assert(rs[j0].0@ == k && rs[j0].1@ == c.entry(k).unwrap()->Unloaded_0);
            }
        }
        c
    }

    /// The path of this root's definition file when it still waits to be
    /// read; nothing once the root is loaded, unresolvable, or unknown.
    pub fn needs_load(&self, root: &str) -> (r: Option<String>)
        ensures
            match r {
                Some(p) => self.pending_path(root@) == Some(p@),
                None => self.pending_path(root@) is None,
            },
    {
        match find_root(&self.entries, root) {
            None => {
                proof {
                    lemma_seq_entry_none(self.entries@, root@);
                }
                None
            },
            Some(i) => {
                proof {
                    lemma_seq_entry_found(self.entries@, root@, i as int);
                }
                match &self.entries[i].1 {
                    DocCacheEntry::Unloaded(p) => Some(p.clone()),
                    DocCacheEntry::Loaded(_, _) => None,
                    DocCacheEntry::Unresolvable => None,
                }
            },
        }
    }

    /// Settles an unloaded root from the text the caller read for it:
    /// loaded when the text is well-formed JSON, unresolvable when the read
    /// failed (`None`) or the text does not parse.  Every other root, and a
    /// root in any other state, keeps its entry.
    pub fn load_root(&mut self, root: &str, content: Option<String>)
        requires
            old(self).wf(),
        ensures
            final(self).wf(),
            forall|k: Seq<char>|
                k != root@ ==> #[trigger] final(self).entry(k) == old(self).entry(k),
            final(self).entry(root@) == (match old(self).entry(root@) {
                Some(DocEntryModel::Unloaded(p)) => Some(
                    match content {
                        Some(c) => if json_well_formed(c@) {
                            DocEntryModel::Loaded(c@)
                        } else {
                            DocEntryModel::Unresolvable
                        },
                        None => DocEntryModel::Unresolvable,
                    },
                ),
                Some(DocEntryModel::Loaded(t)) => Some(DocEntryModel::Loaded(t)),
                Some(DocEntryModel::Unresolvable) => Some(DocEntryModel::Unresolvable),
                None => None,
            }),
    {
        let i = match find_root(&self.entries, root) {
            None => {
                proof {
                    lemma_seq_entry_none(self.entries@, root@);
                }
                return ;
            },
            Some(i) => i,
        };
        proof {
            lemma_seq_entry_found(self.entries@, root@, i as int);
        }
        let pending = matches!(self.entries[i].1, DocCacheEntry::Unloaded(_));
        if !pending {
            return ;
        }
        let newe = match content {
            Some(c) => match parse_json(c.as_str()) {
                Some(v) => {
                    let e = DocCacheEntry::Loaded(v, Ghost(c@));
                    proof {
                        assert(entry_ok(e));
                    }
                    e
                },
                None => DocCacheEntry::Unresolvable,
            },
            None => DocCacheEntry::Unresolvable,
        };
        proof {
            assert(entry_ok(newe));
        }
        let ghost s0 = self.entries@;
        let old_pair = self.entries.remove(i);
        self.entries.insert(i, (old_pair.0, newe));
        proof {
            let np = (s0[i as int].0, newe);
            assert(self.entries@ =~= s0.update(i as int, np));
            lemma_seq_entry_update(s0, i as int, np);
            assert(forall|idx: int|
                0 <= idx < self.entries@.len() ==> #[trigger] self.entries@[idx].0@ == s0[
                idx].0@);
            assert forall|idx: int| 0 <= idx < self.entries@.len() implies entry_ok(
                #[trigger] self.entries@[idx].1,
            ) by {
                if idx != i as int {
                    assert(self.entries@[idx] == s0[idx]);
                    assert(entry_ok(s0[idx].1));
                }
            }
        }
    }

    /// Attaches documentation to the binding from this root's loaded
    /// definition, under [`lookup_keymap`]'s rules: for a loaded root, a
    /// documentation entry is attached exactly when the binding has none,
    /// its command qualifies as a structured path, and the definition text
    /// holds the documentation shape at the anchored path — and then it
    /// equals that named lookup result.  A binding whose root is unknown,
    /// still unloaded, or unresolvable is left unchanged.
    pub fn attach_doc(&self, b: &mut Keybinding) -> (attached: bool)
        requires
            self.wf(),
        ensures
            final(b).root == old(b).root,
            final(b).keymap == old(b).keymap,
            final(b).command == old(b).command,
            !attached ==> *final(b) == *old(b),
            attached ==> dot_path_ok(old(b).command@),
            old(b).doc is Some ==> !attached,
            !dot_path_ok(old(b).command@) ==> !attached,
            match self.entry(old(b).root@) {
                Some(DocEntryModel::Loaded(text)) => {
                    &&& attached <==> (old(b).doc is None && dot_path_ok(old(b).command@)
                        && doc_of(text, anchored(old(b).command@)) is Some)
                    &&& (attached ==> final(b)@.doc == Some(
                        doc_of(text, anchored(old(b).command@)).unwrap(),
                    ))
                },
                _ => !attached,
            },
    {
        let i = match find_root(&self.entries, b.root.as_str()) {
            None => {
                proof {
                    lemma_seq_entry_none(self.entries@, b.root@);
                }
                return false;
            },
            Some(i) => i,
        };
        proof {
            lemma_seq_entry_found(self.entries@, b.root@, i as int);
            assert(entry_ok(self.entries@[i as int].1));
        }
        match &self.entries[i].1 {
            DocCacheEntry::Loaded(doc, text) => {
                let r = lookup_keymap(b, doc);
                proof {
                    assert(doc_in(*doc, anchored(old(b).command@)) == doc_of(
                        text@,
                        anchored(old(b).command@),
                    ));
                }
                r
            },
            DocCacheEntry::Unloaded(_) => false,
            DocCacheEntry::Unresolvable => false,
        }
    }
}

/// A command qualifies as a structured path when it is a non-empty dotted
/// chain of non-empty segments — the shape the walker emits.
pub open spec fn dot_path_ok(s: Seq<char>) -> bool {
    s.len() > 0 && s[0] != '.' && s[s.len() - 1] != '.' && forall|i: int|
        0 <= i < s.len() - 1 ==> !((#[trigger] s[i]) == '.' && s[i + 1] == '.')
}

/// Executable form of [`dot_path_ok`].
pub fn is_query_path(s: &str) -> (r: bool)
    ensures
        r == dot_path_ok(s@),
{
    let n = s.unicode_len();
    if n == 0 {
        return false;
    }
    if s.get_char(0) == '.' || s.get_char(n - 1) == '.' {
        return false;
    }
    let mut i: usize = 0;
    while i < n - 1
        invariant
            0 <= i <= n,
            0 < n == s@.len(),
            forall|j: int| 0 <= j < i ==> !((#[trigger] s@[j]) == '.' && s@[j + 1] == '.'),
        decreases n - i,
    {
        if s.get_char(i) == '.' && s.get_char(i + 1) == '.' {
            return false;
        }
        i = i + 1;
    }
    true
}

/// The command with the query anchor put in front: the path handed to the
/// document lookup.
pub open spec fn anchored(cmd: Seq<char>) -> Seq<char> {
    seq!['.'] + cmd
}

/// Attaches documentation from a loaded document to a binding: exactly
/// when the binding has none, its command qualifies as a structured path,
/// and the document holds the documentation shape at the anchored path —
/// and then the attached entry equals that named lookup result.  Any
/// other outcome leaves the binding exactly as it was.
pub fn lookup_keymap(b: &mut Keybinding, doc: &Value) -> (attached: bool)
    ensures
        final(b).root == old(b).root,
        final(b).keymap == old(b).keymap,
        final(b).command == old(b).command,
        !attached ==> *final(b) == *old(b),
        attached <==> (old(b).doc is None && dot_path_ok(old(b).command@) && doc_in(
            *doc,
            anchored(old(b).command@),
        ) is Some),
        attached ==> final(b)@.doc == Some(doc_in(*doc, anchored(old(b).command@)).unwrap()),
{
    if b.doc.is_some() {
        return false;
    }
    if !is_query_path(b.command.as_str()) {
        return false;
    }
    let mut path = String::from_str(".");
    path.append(b.command.as_str());
    proof {
        reveal_strlit(".");
        assert("."@ =~= seq!['.']);
        assert(path@ == anchored(b.command@));
        assert(path@.len() > 0);
    }
    match query_doc(doc, path.as_str()) {
        Some(d) => {
            let ghost dv = d@;
            b.doc = Some(d);
            proof {
                assert(final(b)@.doc == Some(dv));
            }
            true
        },
        None => false,
    }
}

/// Resolving the same root twice in one run reads its definition file at
/// most once: once the first reference has settled the root — to its
/// document or to the unresolvable state — no later reference asks for a
/// read.
pub proof fn lemma_settled_root_is_not_reread(c: DocCache, root: Seq<char>)
    requires
        c.entry(root) is Some,
        !(c.entry(root).unwrap() is Unloaded),
    ensures
        c.pending_path(root) is None,
{
}

/// A root marked unresolvable yields no documentation and no further read:
/// later lookups against it resolve to nothing without touching the file.
pub proof fn lemma_unresolvable_root_stays_silent(c: DocCache, root: Seq<char>)
    requires
        c.entry(root) == Some(DocEntryModel::Unresolvable),
    ensures
        c.pending_path(root) is None,
{
}

} // verus!
