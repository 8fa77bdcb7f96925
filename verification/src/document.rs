use vstd::prelude::*;

use crate::line_index::{
    index_matches, lemma_line_of_in_props, lemma_line_of_in_unique, lemma_line_starts_ge_index,
    lemma_line_starts_props, line_offsets_str, line_starts, spec_line_count, spec_line_of,
};
use crate::position::{spec_wellformed_range, Point, Position, Range};
use crate::tree::TreeState;

verus! {

/// One change to a document's content, as delivered by the protocol: a
/// replacement text, and for an incremental change the range it replaces.
/// An event that carries a range is incremental; one without a range replaces
/// the whole content.
pub struct ChangeEvent {
    pub range: Option<Range>,
    pub range_length: Option<u32>,
    pub text: String,
}

/// The character offset a position addresses: the line is clamped into the
/// document's lines, and the offset is that line's start plus the column,
/// kept within the line — a column past the line's end stops at the next
/// line's start, never crossing into another line.
pub open spec fn spec_offset_at(s: Seq<char>, p: Position) -> int {
    let t = line_starts(s);
    let l = if (p.line as int) < t.len() {
        p.line as int
    } else {
        t.len() - 1
    };
    let ls = t[l];
    let next = if l + 1 < t.len() {
        t[l + 1]
    } else {
        s.len() as int
    };
    if ls + p.character <= next {
        ls + p.character as int
    } else {
        next
    }
}

/// The position of a character offset: the greatest line whose start is at
/// most the offset, and the distance to that start; offsets beyond the text
/// clamp to its end.
pub open spec fn spec_position_at(s: Seq<char>, offset: u32) -> Position {
    let off = if offset as int <= s.len() as int {
        offset as int
    } else {
        s.len() as int
    };
    let l = spec_line_of(s, off);
    Position { line: l as u32, character: (off - line_starts(s)[l]) as u32 }
}

/// The row and column of a character offset, in the unit of the syntax
/// tree: the greatest line whose start is at most the offset, and the
/// distance to that start; offsets beyond the text clamp to its end.
pub open spec fn spec_point_of_offset(s: Seq<char>, off0: int) -> Point {
    let off = if off0 <= s.len() as int {
        off0
    } else {
        s.len() as int
    };
    let l = spec_line_of(s, off);
    Point { row: l as usize, column: (off - line_starts(s)[l]) as usize }
}

/// The span of content an incremental change replaces: the offsets of its
/// normalized range, with the end clamped to come no earlier than the start
/// — out-of-range positions clamp rather than fail.
pub open spec fn spec_span_of_range(s: Seq<char>, r: Range) -> (int, int) {
    let rn = spec_wellformed_range(r);
    let a = spec_offset_at(s, rn.start);
    let b = spec_offset_at(s, rn.end);
    (a, if b < a {
        a
    } else {
        b
    })
}

/// The content after one change: an incremental change splices its text over
/// the addressed span; a change without a range replaces the whole content.
pub open spec fn spec_apply_change(s: Seq<char>, c: ChangeEvent) -> Seq<char> {
    match c.range {
        Some(r) => {
            let (a, b) = spec_span_of_range(s, r);
            s.take(a) + c.text@ + s.skip(b)
        },
        None => c.text@,
    }
}

/// The content after a sequence of changes, applied in order.
pub open spec fn spec_apply_changes(s: Seq<char>, cs: Seq<ChangeEvent>) -> Seq<char>
    decreases cs.len(),
{
    if cs.len() == 0 {
        s
    } else {
        spec_apply_changes(spec_apply_change(s, cs[0]), cs.drop_first())
    }
}

/// Every offset a position addresses lies within the text.
pub proof fn lemma_offset_at_in_range(s: Seq<char>, p: Position)
    ensures
        0 <= spec_offset_at(s, p) <= s.len(),
{
    lemma_line_starts_props(s);
}

/// The span a range addresses is ordered and lies within the text.
pub proof fn lemma_span_in_range(s: Seq<char>, r: Range)
    ensures
        ({
            let (a, b) = spec_span_of_range(s, r);
            0 <= a <= b <= s.len()
        }),
{
    let rn = spec_wellformed_range(r);
    lemma_offset_at_in_range(s, rn.start);
    lemma_offset_at_in_range(s, rn.end);
}

/// Round trip: translating a valid buffer offset to a position and back
/// yields the same offset.
pub proof fn lemma_offset_position_round_trip(s: Seq<char>, x: u32)
    requires
        x as int <= s.len(),
    ensures
        spec_offset_at(s, spec_position_at(s, x)) == x as int,
{
    let off = x as int;
    lemma_line_starts_props(s);
    let t = line_starts(s);
    lemma_line_of_in_props(t, off);
    let l = spec_line_of(s, off);
    lemma_line_starts_ge_index(s, l);
    let p = spec_position_at(s, x);
    assert(p.line as int == l);
    assert(p.character as int == off - t[l]);
}

/// Inverse round trip: translating a position that lies strictly within its
/// line (or at the end of the document on the last line) to an offset and
/// back yields the same position.
pub proof fn lemma_position_offset_round_trip(s: Seq<char>, p: Position)
    requires
        s.len() <= u32::MAX,
        (p.line as int) < spec_line_count(s),
        p.line as int + 1 < spec_line_count(s) ==> line_starts(s)[p.line as int] + p.character
            < line_starts(s)[p.line as int + 1],
        p.line as int + 1 == spec_line_count(s) ==> line_starts(s)[p.line as int] + p.character
            <= s.len(),
    ensures
        spec_position_at(s, spec_offset_at(s, p) as u32) == p,
{
    lemma_line_starts_props(s);
    let t = line_starts(s);
    let off = spec_offset_at(s, p);
    lemma_offset_at_in_range(s, p);
    assert(off == t[p.line as int] + p.character);
    lemma_line_of_in_unique(t, off, p.line as int);
    lemma_line_of_in_props(t, off);
}

/// Positions reached by a round trip are stable: translating any position's
/// offset to a position and back gives the same offset, so clamping is
/// consistent at line and document ends.
pub proof fn lemma_round_trip_clamp(s: Seq<char>, p: Position)
    requires
        s.len() <= u32::MAX,
    ensures
        spec_offset_at(s, spec_position_at(s, spec_offset_at(s, p) as u32)) == spec_offset_at(
            s,
            p,
        ),
{
    lemma_offset_at_in_range(s, p);
    lemma_offset_position_round_trip(s, spec_offset_at(s, p) as u32);
}

/// Consistency of incremental batching: applying two batches of changes in
/// turn yields the same text as applying their concatenation in one pass,
/// so an incremental reparse of the final text sees exactly the text a
/// single full pass over all changes would see.
pub proof fn lemma_apply_changes_concat(s: Seq<char>, cs1: Seq<ChangeEvent>, cs2: Seq<ChangeEvent>)
    ensures
        spec_apply_changes(s, cs1 + cs2) == spec_apply_changes(spec_apply_changes(s, cs1), cs2),
    decreases cs1.len(),
{
    if cs1.len() == 0 {
        assert(cs1 + cs2 =~= cs2);
    } else {
        assert((cs1 + cs2)[0] == cs1[0]);
        assert((cs1 + cs2).drop_first() =~= cs1.drop_first() + cs2);
        lemma_apply_changes_concat(spec_apply_change(s, cs1[0]), cs1.drop_first(), cs2);
    }
}

/// An in-memory text document: its identity, version, owned content, a
/// lazily computed line-start index, and the syntax tree kept for it.
pub struct FullTextDocument {
    uri: String,
    language_id: String,
    version: i64,
    text: String,
    line_offset: Option<Vec<usize>>,
    tree: TreeState,
}

impl View for FullTextDocument {
    type V = Seq<char>;

    closed spec fn view(&self) -> Seq<char> {
        self.text@
    }
}

/// Both documents carry the same uri and language.
pub open spec fn keeps_identity(a: FullTextDocument, b: FullTextDocument) -> bool {
    &&& b.spec_uri() == a.spec_uri()
    &&& b.spec_language_id() == a.spec_language_id()
}

/// `b` is `a` with content, index and version untouched.
pub open spec fn keeps_doc(a: FullTextDocument, b: FullTextDocument) -> bool {
    &&& keeps_identity(a, b)
    &&& b.spec_version() == a.spec_version()
    &&& b@ == a@
}

impl FullTextDocument {
    /// The document's uri.
    pub closed spec fn spec_uri(self) -> Seq<char> {
        self.uri@
    }

    /// The document's language identifier.
    pub closed spec fn spec_language_id(self) -> Seq<char> {
        self.language_id@
    }

    /// The document's version.
    pub closed spec fn spec_version(self) -> i64 {
        self.version
    }

    /// The syntax-tree state kept for this document.
    pub closed spec fn spec_tree(self) -> TreeState {
        self.tree
    }

    /// Well-formedness: a cached index matches the content, the content's
    /// length is addressable, and a kept tree is from a version at most the
    /// current one.
    pub closed spec fn wf(self) -> bool {
        &&& self.text@.len() <= usize::MAX
        &&& match self.line_offset {
            Some(v) => index_matches(v@, self.text@),
            None => true,
        }
        &&& match self.tree.spec_tree_version() {
            Some(tv) => tv <= self.version,
            None => true,
        }
    }

    pub fn new(uri: String, language_id: String, version: i64, text: String) -> (r:
        FullTextDocument)
        ensures
            r.wf(),
            r@ == text@,
            r.spec_uri() == uri@,
            r.spec_language_id() == language_id@,
            r.spec_version() == version,
            r.spec_tree() == TreeState::Empty,
    {
        let _n: usize = text.as_str().unicode_len();
        FullTextDocument {
            uri,
            language_id,
            version,
            text,
            line_offset: None,
            tree: TreeState::Empty,
        }
    }

    /// The full text of the document.
    pub fn get_content(&self) -> (r: &str)
        ensures
            r@ == self@,
    {
        self.text.as_str()
    }

    /// The document's uri.
    pub fn uri(&self) -> (r: &String)
        ensures
            r@ == self.spec_uri(),
    {
        &self.uri
    }

    /// The document's language identifier.
    pub fn language_id(&self) -> (r: &String)
        ensures
            r@ == self.spec_language_id(),
    {
        &self.language_id
    }

    /// The document's version.
    pub fn version(&self) -> (r: i64)
        ensures
            r == self.spec_version(),
    {
        self.version
    }

    /// Computes the line-start index if it is absent.
    fn ensure_index(&mut self)
        requires
            old(self).wf(),
        ensures
            final(self).wf(),
            keeps_doc(*old(self), *final(self)),
            final(self).spec_tree() == old(self).spec_tree(),
            final(self).line_offset is Some,
            index_matches(final(self).line_offset->0@, final(self)@),
    {
        if self.line_offset.is_none() {
            let v = line_offsets_str(self.text.as_str());
            self.line_offset = Some(v);
        }
    }

    /// The line starts of the current content, one entry per line.
    pub fn get_line_offsets(&mut self) -> (r: Vec<usize>)
        requires
            old(self).wf(),
        ensures
            final(self).wf(),
            keeps_doc(*old(self), *final(self)),
            final(self).spec_tree() == old(self).spec_tree(),
            index_matches(r@, old(self)@),
    {
        self.ensure_index();
        let mut out: Vec<usize> = Vec::new();
        match &self.line_offset {
            Some(v) => {
                let n = v.len();
                let mut i: usize = 0;
                while i < n
                    invariant
                        n == v@.len(),
                        i <= n,
                        out@.len() == i,
                        forall|k: int| 0 <= k < i ==> out@[k] == v@[k],
                    decreases n - i,
                {
                    out.push(v[i]);
                    i = i + 1;
                }
                proof {
                    assert(out@ =~= v@);
                }
                out
            },
            None => {
                proof {
                    assert(false);
                }
                out
            },
        }
    }

    /// Number of lines of the document.
    pub fn line_count(&mut self) -> (r: usize)
        requires
            old(self).wf(),
        ensures
            final(self).wf(),
            keeps_doc(*old(self), *final(self)),
            final(self).spec_tree() == old(self).spec_tree(),
            r == spec_line_count(old(self)@),
    {
        self.ensure_index();
        match &self.line_offset {
            Some(v) => v.len(),
            None => {
                proof {
                    assert(false);
                }
                0
            },
        }
    }

    /// The character offset the given position addresses in the current
    /// content, per `spec_offset_at`: clamped to the position's line, and to
    /// the end of the text for lines past the last.
    pub fn offset_at(&mut self, position: Position) -> (r: usize)
        requires
            old(self).wf(),
        ensures
            final(self).wf(),
            keeps_doc(*old(self), *final(self)),
            final(self).spec_tree() == old(self).spec_tree(),
            r == spec_offset_at(old(self)@, position),
    {
        self.ensure_index();
        let ghost s = self.text@;
        proof {
            lemma_line_starts_props(s);
        }
        let len = self.text.as_str().unicode_len();
        match &self.line_offset {
            Some(v) => {
                let line = if (position.line as usize) < v.len() {
                    position.line as usize
                } else {
                    v.len() - 1
                };
                let ls = v[line];
                let next = if line + 1 < v.len() {
                    v[line + 1]
                } else {
                    len
                };
                let ch = position.character as usize;
                if ch <= next - ls {
                    ls + ch
                } else {
                    next
                }
            },
            None => {
                proof {
                    assert(false);
                }
                0
            },
        }
    }

    /// The line on which the given character offset falls: the greatest line
    /// whose start is at most the offset, found by binary search.
    fn line_for_offset(&mut self, off: usize) -> (l: usize)
        requires
            old(self).wf(),
            off as int <= old(self)@.len(),
        ensures
            final(self).wf(),
            keeps_doc(*old(self), *final(self)),
            final(self).spec_tree() == old(self).spec_tree(),
            l == spec_line_of(old(self)@, off as int),
            l <= off,
            line_starts(old(self)@)[l as int] <= off,
    {
        self.ensure_index();
        let ghost s = self.text@;
        proof {
            lemma_line_starts_props(s);
        }
        match &self.line_offset {
            Some(v) => {
                let mut low: usize = 0;
                let mut high: usize = v.len();
                while low < high
                    invariant
                        index_matches(v@, s),
                        low <= high <= v@.len(),
                        off as int <= s.len(),
                        forall|k: int| 0 <= k < low ==> v@[k] <= off,
                        forall|k: int| high <= k < v@.len() ==> v@[k] > off,
                    decreases high - low,
                {
                    let mid = low + (high - low) / 2;
                    proof {
                        lemma_line_starts_props(s);
                    }
                    if v[mid] > off {
                        proof {
                            assert forall|k: int| mid <= k < v@.len() implies v@[k] > off by {
                                if k > mid {
                                    assert(line_starts(s)[mid as int] < line_starts(s)[k]);
                                }
                            }
                        }
                        high = mid;
                    } else {
                        proof {
                            assert forall|k: int| 0 <= k <= mid implies v@[k] <= off by {
                                if k < mid {
                                    assert(line_starts(s)[k] < line_starts(s)[mid as int]);
                                }
                            }
                        }
                        low = mid + 1;
                    }
                }
                proof {
                    if low == 0 {
                        assert(v@[0] > off);
                        assert(v@[0] as int == line_starts(s)[0]);
                        lemma_line_starts_props(s);
                        assert(false);
                    }
                }
                let line = low - 1;
                proof {
                    lemma_line_starts_props(s);
                    assert(v@[line as int] <= off);
                    if line + 1 < v@.len() {
                        assert(v@[line as int + 1] > off);
                    }
                    lemma_line_of_in_unique(line_starts(s), off as int, line as int);
                    lemma_line_of_in_props(line_starts(s), off as int);
                    lemma_line_starts_ge_index(s, line as int);
                }
                line
            },
            None => {
                proof {
                    assert(false);
                }
                0
            },
        }
    }

    /// The position of the given character offset in the current content,
    /// per `spec_position_at`; offsets beyond the text clamp to its end.
    pub fn position_at(&mut self, offset: u32) -> (r: Position)
        requires
            old(self).wf(),
        ensures
            final(self).wf(),
            keeps_doc(*old(self), *final(self)),
            final(self).spec_tree() == old(self).spec_tree(),
            r == spec_position_at(old(self)@, offset),
    {
        let ghost s = self.text@;
        let len = self.text.as_str().unicode_len();
        let off: usize = if (offset as usize) <= len {
            offset as usize
        } else {
            len
        };
        let line = self.line_for_offset(off);
        proof {
            lemma_line_starts_props(s);
            lemma_line_of_in_props(line_starts(s), off as int);
        }
        let offsets = self.get_line_offsets();
        let ls = offsets[line];
        Position { line: line as u32, character: (off - ls) as u32 }
    }

    /// The row and column of the given character offset, in the unit of the
    /// syntax tree: the greatest line whose start is at most the offset, and
    /// the distance to that start.
    pub fn point_of_offset(&mut self, off: usize) -> (r: Point)
        requires
            old(self).wf(),
            off as int <= old(self)@.len(),
        ensures
            final(self).wf(),
            keeps_doc(*old(self), *final(self)),
            final(self).spec_tree() == old(self).spec_tree(),
            r == spec_point_of_offset(old(self)@, off as int),
    {
        let ghost s = self.text@;
        let line = self.line_for_offset(off);
        proof {
            lemma_line_starts_props(s);
            lemma_line_of_in_props(line_starts(s), off as int);
        }
        let offsets = self.get_line_offsets();
        let ls = offsets[line];
        Point { row: line, column: off - ls }
    }

    /// Applies one change to the content, sets the version, drops the cached
    /// index, and marks a kept tree stale: the tree no longer describes the
    /// mutated text until the next reparse.
    pub fn apply_one(&mut self, change: &ChangeEvent, version: i64)
        requires
            old(self).wf(),
            version >= old(self).spec_version(),
        ensures
            final(self).wf(),
            keeps_identity(*old(self), *final(self)),
            final(self)@ == spec_apply_change(old(self)@, *change),
            final(self).spec_version() == version,
            final(self).spec_tree() == old(self).spec_tree().spec_marked_stale(),
    {
        let ghost s = self.text@;
        match &change.range {
            Some(range) => {
                let r = crate::position::get_wellformed_range(*range);
                let a = self.offset_at(r.start);
                let b0 = self.offset_at(r.end);
                let b = if b0 < a {
                    a
                } else {
                    b0
                };
                proof {
                    lemma_offset_at_in_range(s, r.start);
                    lemma_offset_at_in_range(s, r.end);
                }
                let len = self.text.as_str().unicode_len();
                let mut nt = self.text.as_str().substring_char(0, a).to_owned();
                nt.append(change.text.as_str());
                nt.append(self.text.as_str().substring_char(b, len));
                proof {
                    assert(s.subrange(0, a as int) =~= s.take(a as int));
                    assert(s.subrange(b as int, s.len() as int) =~= s.skip(b as int));
                }
                let _n: usize = nt.as_str().unicode_len();
                self.text = nt;
            },
            None => {
                let _n: usize = change.text.as_str().unicode_len();
                self.text = change.text.clone();
            },
        }
        self.line_offset = None;
        self.version = version;
        let mut taken = TreeState::Empty;
        core::mem::swap(&mut taken, &mut self.tree);
        self.tree = match taken {
            TreeState::Valid { root, version: tv } => TreeState::Stale { root, version: tv },
            other => other,
        };
    }

    /// Applies a sequence of changes in order; the version is set when at
    /// least one change is applied, and a kept tree is marked stale.
    pub fn update(&mut self, changes: Vec<ChangeEvent>, version: i64)
        requires
            old(self).wf(),
            version >= old(self).spec_version(),
        ensures
            final(self).wf(),
            keeps_identity(*old(self), *final(self)),
            final(self)@ == spec_apply_changes(old(self)@, changes@),
            final(self).spec_version() == if changes@.len() > 0 {
                version
            } else {
                old(self).spec_version()
            },
            final(self).spec_tree() == if changes@.len() > 0 {
                old(self).spec_tree().spec_marked_stale()
            } else {
                old(self).spec_tree()
            },
    {
        let ghost s0 = self.text@;
        proof {
            assert(changes@.skip(0) =~= changes@);
        }
        let n = changes.len();
        let mut i: usize = 0;
        while i < n
            invariant
                n == changes@.len(),
                i <= n,
                self.wf(),
                version >= self.spec_version(),
                keeps_identity(*old(self), *self),
                spec_apply_changes(s0, changes@) == spec_apply_changes(self@, changes@.skip(i as int)),
                self.spec_version() == if i > 0 {
                    version
                } else {
                    old(self).spec_version()
                },
                self.spec_tree() == if i > 0 {
                    old(self).spec_tree().spec_marked_stale()
                } else {
                    old(self).spec_tree()
                },
            decreases n - i,
        {
            self.apply_one(&changes[i], version);
            proof {
                let cs = changes@;
                assert(cs.skip(i as int)[0] == cs[i as int]);
                assert(cs.skip(i as int).drop_first() =~= cs.skip(i + 1));
            }
            i = i + 1;
        }
        proof {
            assert(changes@.skip(n as int) =~= Seq::<ChangeEvent>::empty());
        }
    }

    /// Applies a sequence of changes as `update` does and returns a snapshot
    /// of the resulting document; the snapshot carries no tree of its own.
    pub fn update_full(&mut self, changes: Vec<ChangeEvent>, version: i64) -> (r: FullTextDocument)
        requires
            old(self).wf(),
            version >= old(self).spec_version(),
        ensures
            final(self).wf(),
            keeps_identity(*old(self), *final(self)),
            final(self)@ == spec_apply_changes(old(self)@, changes@),
            final(self).spec_version() == if changes@.len() > 0 {
                version
            } else {
                old(self).spec_version()
            },
            r.wf(),
            r@ == final(self)@,
            keeps_identity(*old(self), r),
            r.spec_version() == final(self).spec_version(),
            r.spec_tree() == TreeState::Empty,
    {
        self.update(changes, version);
        let _n: usize = self.text.as_str().unicode_len();
        FullTextDocument {
            uri: self.uri.clone(),
            language_id: self.language_id.clone(),
            version: self.version,
            text: self.text.clone(),
            line_offset: None,
            tree: TreeState::Empty,
        }
    }

    /// Byte offsets of the UTF-8 encodings of the prefixes ending at the two
    /// character offsets.
    pub fn transform_offset_to_byte_offset(&self, start_offset: usize, end_offset: usize) -> (r: (
        usize,
        usize,
    ))
        requires
            start_offset <= end_offset,
            end_offset <= self@.len(),
        ensures
            r.0 == crate::encoding::utf8_len(self@.take(start_offset as int)),
            r.1 == crate::encoding::utf8_len(self@.take(end_offset as int)),
    {
        let start_byte = crate::encoding::utf8_prefix_len(self.text.as_str(), start_offset);
        let end_byte = crate::encoding::utf8_prefix_len(self.text.as_str(), end_offset);
        (start_byte, end_byte)
    }

    /// Records the outcome of a parse, per the tree lifecycle: a tree
    /// replaces the kept one and is current for this version; no tree keeps
    /// the previous tree, stale, and reports the failure.
    pub fn apply_parse_outcome(&mut self, outcome: Option<crate::tree::SyntaxNode>) -> (failed:
        bool)
        requires
            old(self).wf(),
        ensures
            final(self).wf(),
            keeps_doc(*old(self), *final(self)),
            match outcome {
                Some(root) => !failed && final(self).spec_tree() == (TreeState::Valid {
                    root,
                    version: old(self).spec_version(),
                }),
                None => failed && final(self).spec_tree() == old(
                    self,
                ).spec_tree().spec_marked_stale(),
            },
    {
        match outcome {
            Some(root) => {
                self.tree = TreeState::Valid { root, version: self.version };
                false
            },
            None => {
                let mut taken = TreeState::Empty;
                core::mem::swap(&mut taken, &mut self.tree);
                self.tree = match taken {
                    TreeState::Valid { root, version: tv } => TreeState::Stale {
                        root,
                        version: tv,
                    },
                    other => other,
                };
                true
            },
        }
    }

    /// The root of the kept tree, whether current or stale, when one is
    /// present.
    pub fn tree_root(&self) -> (r: Option<&crate::tree::SyntaxNode>)
        ensures
            match r {
                Some(n) => self.spec_tree().spec_root() == Some(*n),
                None => self.spec_tree().spec_root() is None,
            },
    {
        match &self.tree {
            TreeState::Empty => None,
            TreeState::Valid { root, .. } => Some(root),
            TreeState::Stale { root, .. } => Some(root),
        }
    }

    /// Whether the kept tree was parsed from the current content.
    pub fn has_current_tree(&self) -> (r: bool)
        ensures
            r == (self.spec_tree() is Valid),
    {
        match &self.tree {
            TreeState::Valid { .. } => true,
            _ => false,
        }
    }

    /// The change is incremental: it carries a range.
    pub fn is_incremental(event: &ChangeEvent) -> (r: bool)
        ensures
            r == (event.range is Some),
    {
        event.range.is_some()
    }

    /// The change replaces the whole content: change events are classified
    /// by the presence of a range alone, so any event without one is full,
    /// whether or not a range length accompanies it.
    pub fn is_full(event: &ChangeEvent) -> (r: bool)
        ensures
            r == (event.range is None),
    {
        !event.range.is_some()
    }
}

} // verus!
