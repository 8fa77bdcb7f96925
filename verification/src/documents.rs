use vstd::prelude::*;

use crate::document::{spec_apply_change, spec_apply_changes, ChangeEvent, FullTextDocument};
use crate::edits::{descriptor_ok, EditDescriptor};
use crate::tree::{SyntaxNode, TreeState};

verus! {

/// The open documents, keyed by uri: the one shared mutable resource of the
/// engine. A uri appears at most once, and every held document is
/// well-formed.
pub struct TextDocuments {
    docs: Vec<FullTextDocument>,
}

impl TextDocuments {
    /// The held documents, in insertion order.
    pub closed spec fn spec_docs(self) -> Seq<FullTextDocument> {
        self.docs@
    }

    /// Well-formedness: each document is well-formed and no uri repeats.
    pub closed spec fn wf(self) -> bool {
        &&& forall|i: int| 0 <= i < self.docs@.len() ==> (#[trigger] self.docs@[i]).wf()
        &&& forall|i: int, j: int|
            0 <= i < j < self.docs@.len() ==> self.docs@[i].spec_uri() != self.docs@[j].spec_uri()
    }

    /// Whether a document with this uri is open.
    pub closed spec fn spec_has(self, uri: Seq<char>) -> bool {
        exists|i: int| 0 <= i < self.docs@.len() && (#[trigger] self.docs@[i]).spec_uri() == uri
    }

    /// The open document with this uri.
    pub closed spec fn spec_doc(self, uri: Seq<char>) -> FullTextDocument {
        self.docs@[choose|i: int|
            0 <= i < self.docs@.len() && (#[trigger] self.docs@[i]).spec_uri() == uri]
    }

    pub fn new() -> (r: TextDocuments)
        ensures
            r.wf(),
            r.spec_docs().len() == 0,
            forall|u: Seq<char>| !r.spec_has(u),
    {
        TextDocuments { docs: Vec::new() }
    }

    /// The held documents.
    pub fn documents(&self) -> (r: &Vec<FullTextDocument>)
        ensures
            r@ == self.spec_docs(),
    {
        &self.docs
    }

    /// Index of the document with this uri, when one is open.
    fn index_of(&self, uri: &str) -> (r: Option<usize>)
        requires
            self.wf(),
        ensures
            match r {
                Some(i) => i < self.spec_docs().len() && self.spec_docs()[i as int].spec_uri()
                    == uri@ && self.spec_has(uri@) && self.spec_doc(uri@) == self.spec_docs()[
                    i as int],
                None => !self.spec_has(uri@),
            },
    {
        let n = self.docs.len();
        let mut i: usize = 0;
        while i < n
            invariant
                self.wf(),
                n == self.docs@.len(),
                i <= n,
                forall|k: int| 0 <= k < i ==> (#[trigger] self.docs@[k]).spec_uri() != uri@,
            decreases n - i,
        {
            if crate::strutil::str_eq(self.docs[i].uri().as_str(), uri) {
                proof {
                    let w = choose|k: int|
                        0 <= k < self.docs@.len() && (#[trigger] self.docs@[k]).spec_uri() == uri@;
                    assert(self.docs@[i as int].spec_uri() == uri@);
                    assert(0 <= w < self.docs@.len() && self.docs@[w].spec_uri() == uri@);
                    if w != i as int {
                        assert(false);
                    }
                }
                return Some(i);
            }
            i = i + 1;
        }
        None
    }

    /// The open document with this uri, when there is one; a query against a
    /// closed or never-opened uri finds nothing rather than failing.
    pub fn get_document(&self, uri: &str) -> (r: Option<&FullTextDocument>)
        requires
            self.wf(),
        ensures
            match r {
                Some(d) => self.spec_has(uri@) && *d == self.spec_doc(uri@) && d.wf(),
                None => !self.spec_has(uri@),
            },
    {
        match self.index_of(uri) {
            Some(i) => Some(&self.docs[i]),
            None => None,
        }
    }

    /// The content of the open document with this uri, when there is one.
    pub fn get_document_content(&self, uri: &str) -> (r: Option<&str>)
        requires
            self.wf(),
        ensures
            match r {
                Some(c) => self.spec_has(uri@) && c@ == self.spec_doc(uri@)@,
                None => !self.spec_has(uri@),
            },
    {
        match self.get_document(uri) {
            Some(d) => Some(d.get_content()),
            None => None,
        }
    }

    /// The language identifier of the open document with this uri, when
    /// there is one.
    pub fn get_document_language(&self, uri: &str) -> (r: Option<&str>)
        requires
            self.wf(),
        ensures
            match r {
                Some(l) => self.spec_has(uri@) && l@ == self.spec_doc(uri@).spec_language_id(),
                None => !self.spec_has(uri@),
            },
    {
        match self.get_document(uri) {
            Some(d) => Some(d.language_id().as_str()),
            None => None,
        }
    }

    /// Opens a document: inserts it under its uri, or reports failure when
    /// the uri is already open, leaving the held document untouched.
    pub fn open_document(&mut self, uri: String, language_id: String, version: i64, text: String)
        -> (r: bool)
        requires
            old(self).wf(),
        ensures
            final(self).wf(),
            r == !old(self).spec_has(uri@),
            !old(self).spec_has(uri@) ==> final(self).spec_has(uri@) && final(self).spec_doc(uri@)@
                == text@ && final(self).spec_doc(uri@).spec_version() == version && final(self).spec_doc(uri@).spec_language_id() == language_id@ && final(self).spec_doc(
                uri@,
            ).spec_tree() == TreeState::Empty,
            old(self).spec_has(uri@) ==> *final(self) == *old(self),
            forall|u: Seq<char>|
                u != uri@ ==> final(self).spec_has(u) == old(self).spec_has(u) && (final(self).spec_has(u) ==> final(self).spec_doc(u) == old(self).spec_doc(u)),
    {
        match self.index_of(uri.as_str()) {
            Some(_) => false,
            None => {
                let ghost before = self.docs@;
                let doc = FullTextDocument::new(uri, language_id, version, text);
                let ghost dv = doc;
                self.docs.push(doc);
                proof {
                    let n = before.len() as int;
                    assert(self.docs@[n] == dv);
                    assert forall|i: int| 0 <= i < self.docs@.len() implies (#[trigger] self.docs@[
                    i]).wf() by {
                        if i < n {
                            assert(self.docs@[i] == before[i]);
                        }
                    }
                    assert forall|i: int, j: int|
                        0 <= i < j < self.docs@.len() implies self.docs@[i].spec_uri()
                            != self.docs@[j].spec_uri() by {
                        if j < n {
                            assert(self.docs@[i] == before[i]);
                            assert(self.docs@[j] == before[j]);
                        } else {
                            assert(self.docs@[i] == before[i]);
                            assert(!old(self).spec_has(dv.spec_uri()));
                        }
                    }
                    assert(final(self).spec_has(dv.spec_uri()));
                    let w = choose|i: int|
                        0 <= i < self.docs@.len() && (#[trigger] self.docs@[i]).spec_uri()
                            == dv.spec_uri();
                    if w != n {
                        assert(before[w] == self.docs@[w]);
                        assert(old(self).spec_has(dv.spec_uri()));
                        assert(false);
                    }
                    assert forall|u: Seq<char>| u != dv.spec_uri() implies final(self).spec_has(u)
                        == old(self).spec_has(u) && (final(self).spec_has(u) ==> final(self).spec_doc(u) == old(self).spec_doc(u)) by {
                        if old(self).spec_has(u) {
                            let k = choose|i: int|
                                0 <= i < before.len() && (#[trigger] before[i]).spec_uri() == u;
                            assert(self.docs@[k].spec_uri() == u);
                        }
                        if final(self).spec_has(u) {
                            let k = choose|i: int|
                                0 <= i < self.docs@.len() && (#[trigger] self.docs@[i]).spec_uri()
                                    == u;
                            assert(k != n);
                            assert(before[k] == self.docs@[k]);
                            assert(old(self).spec_has(u));
                            let k2 = choose|i: int|
                                0 <= i < before.len() && (#[trigger] before[i]).spec_uri() == u;
                            if k2 != k {
                                assert(false);
                            }
                        }
                    }
                }
                true
            },
        }
    }

    /// Applies changes to the open document with this uri and sets its
    /// version; reports failure, touching nothing, when the uri is not open
    /// or the version would move backwards.
    pub fn change_document(&mut self, uri: &str, changes: Vec<ChangeEvent>, version: i64) -> (r:
        bool)
        requires
            old(self).wf(),
        ensures
            final(self).wf(),
            r == (old(self).spec_has(uri@) && version >= old(self).spec_doc(
                uri@,
            ).spec_version()),
            !r ==> *final(self) == *old(self),
            r ==> final(self).spec_has(uri@) && final(self).spec_doc(uri@)@ == spec_apply_changes(
                old(self).spec_doc(uri@)@,
                changes@,
            ),
            forall|u: Seq<char>|
                u != uri@ ==> final(self).spec_has(u) == old(self).spec_has(u) && (final(self).spec_has(u) ==> final(self).spec_doc(u) == old(self).spec_doc(u)),
    {
        match self.index_of(uri) {
            Some(i) => {
                let ghost before = self.docs@;
                let current = self.docs[i].version();
                if version < current {
                    return false;
                }
                let doc = &mut self.docs[i];
                doc.update(changes, version);
                proof {
                    let n = before.len() as int;
                    assert forall|k: int| 0 <= k < self.docs@.len() implies (#[trigger] self.docs@[
                    k]).wf() by {
                        if k != i as int {
                            assert(self.docs@[k] == before[k]);
                        }
                    }
                    assert(self.docs@[i as int].spec_uri() == before[i as int].spec_uri());
                    assert forall|a: int, b: int|
                        0 <= a < b < self.docs@.len() implies self.docs@[a].spec_uri()
                            != self.docs@[b].spec_uri() by {
                        assert(self.docs@[a].spec_uri() == before[a].spec_uri());
                        assert(self.docs@[b].spec_uri() == before[b].spec_uri());
                    }
                    let w = choose|k: int|
                        0 <= k < self.docs@.len() && (#[trigger] self.docs@[k]).spec_uri() == uri@;
                    if w != i as int {
                        assert(self.docs@[w].spec_uri() == before[w].spec_uri());
                        assert(false);
                    }
                    assert forall|u: Seq<char>| u != uri@ implies final(self).spec_has(u) == old(self).spec_has(u) && (final(self).spec_has(u) ==> final(self).spec_doc(u) == old(self).spec_doc(u)) by {
                        assert forall|k: int| 0 <= k < self.docs@.len() implies (
                        #[trigger] self.docs@[k]).spec_uri() == before[k].spec_uri() by {
                            if k != i as int {
                                assert(self.docs@[k] == before[k]);
                            }
                        }
                        if old(self).spec_has(u) {
                            let k = choose|x: int|
                                0 <= x < before.len() && (#[trigger] before[x]).spec_uri() == u;
                            assert(self.docs@[k].spec_uri() == u);
                        }
                        if final(self).spec_has(u) {
                            let k = choose|x: int|
                                0 <= x < self.docs@.len() && (#[trigger] self.docs@[x]).spec_uri()
                                    == u;
                            assert(before[k].spec_uri() == u);
                            assert(k != i as int);
                            assert(self.docs@[k] == before[k]);
                            let k2 = choose|x: int|
                                0 <= x < before.len() && (#[trigger] before[x]).spec_uri() == u;
                            if k2 != k {
                                assert(false);
                            }
                        }
                    }
                }
                true
            },
            None => false,
        }
    }

    /// Closes the document with this uri, releasing its text and tree;
    /// closing a uri that is not open changes nothing.
    pub fn close_document(&mut self, uri: &str) -> (r: bool)
        requires
            old(self).wf(),
        ensures
            final(self).wf(),
            r == old(self).spec_has(uri@),
            !final(self).spec_has(uri@),
            forall|u: Seq<char>|
                u != uri@ ==> final(self).spec_has(u) == old(self).spec_has(u) && (final(self).spec_has(u) ==> final(self).spec_doc(u) == old(self).spec_doc(u)),
    {
        match self.index_of(uri) {
            Some(i) => {
                let ghost before = self.docs@;
                let _removed = self.docs.remove(i);
                proof {
                    let n = before.len() as int;
                    assert(self.docs@ =~= before.remove(i as int));
                    assert forall|k: int| 0 <= k < self.docs@.len() implies (#[trigger] self.docs@[
                    k]).wf() && self.docs@[k].spec_uri() != uri@ by {
                        if k < i as int {
                            assert(self.docs@[k] == before[k]);
                        } else {
                            assert(self.docs@[k] == before[k + 1]);
                        }
                    }
                    assert forall|a: int, b: int|
                        0 <= a < b < self.docs@.len() implies self.docs@[a].spec_uri()
                            != self.docs@[b].spec_uri() by {
                        let a0 = if a < i as int {
                            a
                        } else {
                            a + 1
                        };
                        let b0 = if b < i as int {
                            b
                        } else {
                            b + 1
                        };
                        assert(self.docs@[a] == before[a0]);
                        assert(self.docs@[b] == before[b0]);
                    }
                    assert forall|u: Seq<char>| u != uri@ implies final(self).spec_has(u) == old(self).spec_has(u) && (final(self).spec_has(u) ==> final(self).spec_doc(u) == old(self).spec_doc(u)) by {
                        if old(self).spec_has(u) {
                            let k = choose|x: int|
                                0 <= x < before.len() && (#[trigger] before[x]).spec_uri() == u;
                            assert(k != i as int);
                            if k < i as int {
                                assert(self.docs@[k] == before[k]);
                                assert(final(self).spec_has(u));
                            } else {
                                assert(self.docs@[k - 1] == before[k]);
                                assert(final(self).spec_has(u));
                            }
                        }
                        if final(self).spec_has(u) {
                            let k = choose|x: int|
                                0 <= x < self.docs@.len() && (#[trigger] self.docs@[x]).spec_uri()
                                    == u;
                            let k0 = if k < i as int {
                                k
                            } else {
                                k + 1
                            };
                            assert(self.docs@[k] == before[k0]);
                            assert(old(self).spec_has(u));
                            let k2 = choose|x: int|
                                0 <= x < before.len() && (#[trigger] before[x]).spec_uri() == u;
                            if k2 != k0 {
                                assert(false);
                            }
                            assert(old(self).spec_doc(u) == before[k0]);
                        }
                    }
                }
                true
            },
            None => false,
        }
    }

    /// Applies one change to the open document with this uri: an
    /// incremental change also yields the edit descriptor that ages the
    /// document's previous tree; a full change applies with no descriptor.
    /// Nothing happens for an unknown uri or a version moving backwards.
    pub fn apply_change_event(&mut self, uri: &str, change: &ChangeEvent, version: i64) -> (r:
        Option<Option<EditDescriptor>>)
        requires
            old(self).wf(),
        ensures
            final(self).wf(),
            r is None ==> *final(self) == *old(self) && !(old(self).spec_has(uri@) && version >= old(
                self,
            ).spec_doc(uri@).spec_version()),
            r matches Some(e) ==> ({
                let s = old(self).spec_doc(uri@)@;
                &&& old(self).spec_has(uri@)
                &&& version >= old(self).spec_doc(uri@).spec_version()
                &&& final(self).spec_has(uri@)
                &&& final(self).spec_doc(uri@)@ == spec_apply_change(s, *change)
                &&& final(self).spec_doc(uri@).spec_version() == version
                &&& (match change.range {
                    Some(rg) => e matches Some(ed) && descriptor_ok(s, *change, rg, ed),
                    None => e is None,
                })
            }),
            forall|u: Seq<char>|
                u != uri@ ==> final(self).spec_has(u) == old(self).spec_has(u) && (final(self).spec_has(u) ==> final(self).spec_doc(u) == old(self).spec_doc(u)),
    {
        match self.index_of(uri) {
            Some(i) => {
                let ghost before = self.docs@;
                let current = self.docs[i].version();
                if version < current {
                    return None;
                }
                let doc = &mut self.docs[i];
                let descriptor = if FullTextDocument::is_incremental(change) {
                    crate::edits::get_tree_edits(change, doc, version)
                } else {
                    doc.apply_one(change, version);
                    None
                };
                proof {
                    assert forall|k: int| 0 <= k < self.docs@.len() implies (#[trigger] self.docs@[
                    k]).wf() by {
                        if k != i as int {
                            assert(self.docs@[k] == before[k]);
                        }
                    }
                    assert(self.docs@[i as int].spec_uri() == before[i as int].spec_uri());
                    assert forall|a: int, b: int|
                        0 <= a < b < self.docs@.len() implies self.docs@[a].spec_uri()
                            != self.docs@[b].spec_uri() by {
                        assert(self.docs@[a].spec_uri() == before[a].spec_uri());
                        assert(self.docs@[b].spec_uri() == before[b].spec_uri());
                    }
                    let w = choose|k: int|
                        0 <= k < self.docs@.len() && (#[trigger] self.docs@[k]).spec_uri() == uri@;
                    if w != i as int {
                        assert(self.docs@[w].spec_uri() == before[w].spec_uri());
                        assert(false);
                    }
                    assert forall|u: Seq<char>| u != uri@ implies final(self).spec_has(u) == old(
                        self,
                    ).spec_has(u) && (final(self).spec_has(u) ==> final(self).spec_doc(u) == old(
                        self,
                    ).spec_doc(u)) by {
                        assert forall|k: int| 0 <= k < self.docs@.len() implies (
                        #[trigger] self.docs@[k]).spec_uri() == before[k].spec_uri() by {
                            if k != i as int {
                                assert(self.docs@[k] == before[k]);
                            }
                        }
                        if old(self).spec_has(u) {
                            let k = choose|x: int|
                                0 <= x < before.len() && (#[trigger] before[x]).spec_uri() == u;
                            assert(self.docs@[k].spec_uri() == u);
                        }
                        if final(self).spec_has(u) {
                            let k = choose|x: int|
                                0 <= x < self.docs@.len() && (#[trigger] self.docs@[x]).spec_uri()
                                    == u;
                            assert(before[k].spec_uri() == u);
                            assert(k != i as int);
                            assert(self.docs@[k] == before[k]);
                            let k2 = choose|x: int|
                                0 <= x < before.len() && (#[trigger] before[x]).spec_uri() == u;
                            if k2 != k {
                                assert(false);
                            }
                        }
                    }
                }
                Some(descriptor)
            },
            None => None,
        }
    }

    /// Records a parse outcome for the open document with this uri, per the
    /// tree lifecycle; reports whether the parse failed, or nothing for an
    /// unknown uri.
    pub fn record_parse_outcome(&mut self, uri: &str, outcome: Option<SyntaxNode>) -> (r: Option<
        bool,
    >)
        requires
            old(self).wf(),
        ensures
            final(self).wf(),
            r is None ==> *final(self) == *old(self) && !old(self).spec_has(uri@),
            r matches Some(failed) ==> ({
                &&& old(self).spec_has(uri@)
                &&& final(self).spec_has(uri@)
                &&& final(self).spec_doc(uri@)@ == old(self).spec_doc(uri@)@
                &&& (match outcome {
                    Some(root) => !failed && final(self).spec_doc(uri@).spec_tree()
                        == (crate::tree::TreeState::Valid {
                        root,
                        version: old(self).spec_doc(uri@).spec_version(),
                    }),
                    None => failed && final(self).spec_doc(uri@).spec_tree() == old(self).spec_doc(
                        uri@,
                    ).spec_tree().spec_marked_stale(),
                })
            }),
            forall|u: Seq<char>|
                u != uri@ ==> final(self).spec_has(u) == old(self).spec_has(u) && (final(self).spec_has(u) ==> final(self).spec_doc(u) == old(self).spec_doc(u)),
    {
        match self.index_of(uri) {
            Some(i) => {
                let ghost before = self.docs@;
                let doc = &mut self.docs[i];
                let failed = doc.apply_parse_outcome(outcome);
                proof {
                    assert forall|k: int| 0 <= k < self.docs@.len() implies (#[trigger] self.docs@[
                    k]).wf() by {
                        if k != i as int {
                            assert(self.docs@[k] == before[k]);
                        }
                    }
                    assert(self.docs@[i as int].spec_uri() == before[i as int].spec_uri());
                    assert forall|a: int, b: int|
                        0 <= a < b < self.docs@.len() implies self.docs@[a].spec_uri()
                            != self.docs@[b].spec_uri() by {
                        assert(self.docs@[a].spec_uri() == before[a].spec_uri());
                        assert(self.docs@[b].spec_uri() == before[b].spec_uri());
                    }
                    let w = choose|k: int|
                        0 <= k < self.docs@.len() && (#[trigger] self.docs@[k]).spec_uri() == uri@;
                    if w != i as int {
                        assert(self.docs@[w].spec_uri() == before[w].spec_uri());
                        assert(false);
                    }
                    assert forall|u: Seq<char>| u != uri@ implies final(self).spec_has(u) == old(
                        self,
                    ).spec_has(u) && (final(self).spec_has(u) ==> final(self).spec_doc(u) == old(
                        self,
                    ).spec_doc(u)) by {
                        assert forall|k: int| 0 <= k < self.docs@.len() implies (
                        #[trigger] self.docs@[k]).spec_uri() == before[k].spec_uri() by {
                            if k != i as int {
                                assert(self.docs@[k] == before[k]);
                            }
                        }
                        if old(self).spec_has(u) {
                            let k = choose|x: int|
                                0 <= x < before.len() && (#[trigger] before[x]).spec_uri() == u;
                            assert(self.docs@[k].spec_uri() == u);
                        }
                        if final(self).spec_has(u) {
                            let k = choose|x: int|
                                0 <= x < self.docs@.len() && (#[trigger] self.docs@[x]).spec_uri()
                                    == u;
                            assert(before[k].spec_uri() == u);
                            assert(k != i as int);
                            assert(self.docs@[k] == before[k]);
                            let k2 = choose|x: int|
                                0 <= x < before.len() && (#[trigger] before[x]).spec_uri() == u;
                            if k2 != k {
                                assert(false);
                            }
                        }
                    }
                }
                Some(failed)
            },
            None => None,
        }
    }
}

} // verus!
