use vstd::prelude::*;

use crate::position::Point;

verus! {

/// One node of a parsed syntax tree, modeled as plain values: a
/// grammar-symbol kind, a start and end location, the byte range the node
/// spans, whether the parser inserted it to mark a syntactically
/// unrecognized span, and its children in document order.
pub struct SyntaxNode {
    pub kind: String,
    pub named: bool,
    pub error: bool,
    pub start: Point,
    pub end: Point,
    pub start_byte: usize,
    pub end_byte: usize,
    pub children: Vec<SyntaxNode>,
}

/// The spans of all grammar-error nodes below (and including) `n`, in
/// document (pre-)order.
pub open spec fn error_spans(n: SyntaxNode) -> Seq<(Point, Point)>
    decreases n,
{
    (if n.error {
        seq![(n.start, n.end)]
    } else {
        Seq::empty()
    }) + error_spans_seq(n.children@)
}

pub open spec fn error_spans_seq(s: Seq<SyntaxNode>) -> Seq<(Point, Point)>
    decreases s,
{
    if s.len() == 0 {
        Seq::empty()
    } else {
        error_spans(s[0]) + error_spans_seq(s.drop_first())
    }
}

/// Number of grammar-error nodes below (and including) `n`.
pub open spec fn error_count(n: SyntaxNode) -> int {
    error_spans(n).len() as int
}

/// Whether any grammar-error node occurs below (and including) `n`.
pub open spec fn spec_has_error(n: SyntaxNode) -> bool {
    error_spans(n).len() > 0
}

impl SyntaxNode {
    /// Number of children of this node.
    pub fn child_count(&self) -> (r: usize)
        ensures
            r == self.children@.len(),
    {
        self.children.len()
    }
}

/// Collects the spans of all grammar-error nodes under `root` in document
/// order.
pub fn collect_error_spans(root: &SyntaxNode) -> (r: Vec<(Point, Point)>)
    ensures
        r@ == error_spans(*root),
    decreases *root,
{
    let mut out: Vec<(Point, Point)> = Vec::new();
    if root.error {
        out.push((root.start, root.end));
    }
    proof {
        if root.error {
            assert(out@ =~= seq![(root.start, root.end)]);
        } else {
            assert(out@ =~= Seq::<(Point, Point)>::empty());
        }
    }
    let n = root.children.len();
    let mut i: usize = 0;
    while i < n
        invariant
            n == root.children@.len(),
            i <= n,
            out@ == (if root.error {
                seq![(root.start, root.end)]
            } else {
                Seq::<(Point, Point)>::empty()
            }) + error_spans_seq(root.children@.take(i as int)),
        decreases n - i,
    {
        let child_spans = collect_error_spans(&root.children[i]);
        let m = child_spans.len();
        let mut j: usize = 0;
        while j < m
            invariant
                m == child_spans@.len(),
                j <= m,
                out@ == (if root.error {
                    seq![(root.start, root.end)]
                } else {
                    Seq::<(Point, Point)>::empty()
                }) + error_spans_seq(root.children@.take(i as int)) + child_spans@.take(j as int),
            decreases m - j,
        {
            let span = child_spans[j];
            out.push(span);
            proof {
                assert(child_spans@.take(j + 1) =~= child_spans@.take(j as int).push(
                    child_spans@[j as int],
                ));
            }
            j = j + 1;
        }
        proof {
            assert(child_spans@.take(m as int) =~= child_spans@);
            lemma_error_spans_seq_take_step(root.children@, i as int);
        }
        i = i + 1;
    }
    proof {
        assert(root.children@.take(n as int) =~= root.children@);
    }
    out
}

/// Splitting off the next child extends the concatenation of error spans by
/// exactly that child's spans.
proof fn lemma_error_spans_seq_take_step(s: Seq<SyntaxNode>, i: int)
    requires
        0 <= i < s.len(),
    ensures
        error_spans_seq(s.take(i + 1)) == error_spans_seq(s.take(i)) + error_spans(s[i]),
    decreases i,
{
    if i == 0 {
        assert(s.take(0) =~= Seq::<SyntaxNode>::empty());
        assert(error_spans_seq(s.take(0)) =~= Seq::<(Point, Point)>::empty());
        let t = s.take(1);
        assert(t[0] == s[0]);
        assert(t.drop_first() =~= Seq::<SyntaxNode>::empty());
        assert(error_spans_seq(t) =~= error_spans(s[0]) + Seq::<(Point, Point)>::empty());
        assert(error_spans_seq(s.take(1)) =~= error_spans_seq(s.take(0)) + error_spans(s[0]));
    } else {
        lemma_error_spans_seq_take_step(s.drop_first(), i - 1);
        let a = s.take(i + 1);
        let b = s.take(i);
        assert(a.drop_first() =~= s.drop_first().take(i));
        assert(b.drop_first() =~= s.drop_first().take(i - 1));
        assert(a[0] == s[0]);
        assert(b[0] == s[0]);
        assert(s.drop_first()[i - 1] == s[i]);
        assert(error_spans_seq(a) =~= error_spans(s[0]) + error_spans_seq(s.drop_first().take(i)));
        assert(error_spans_seq(b) =~= error_spans(s[0]) + error_spans_seq(
            s.drop_first().take(i - 1),
        ));
        assert(error_spans_seq(s.drop_first().take(i)) == error_spans_seq(
            s.drop_first().take(i - 1),
        ) + error_spans(s[i]));
        assert(error_spans_seq(a) =~= error_spans_seq(b) + error_spans(s[i]));
    }
}

/// Whether the tree under `root` contains any grammar-error node.
pub fn has_error(root: &SyntaxNode) -> (r: bool)
    ensures
        r == spec_has_error(*root),
{
    let spans = collect_error_spans(root);
    spans.len() > 0
}

/// The lifecycle of the syntax tree kept for one document: absent, parsed
/// from the document's current text, or kept from an earlier text after a
/// buffer mutation or a failed reparse.
pub enum TreeState {
    Empty,
    Valid { root: SyntaxNode, version: i64 },
    Stale { root: SyntaxNode, version: i64 },
}

impl TreeState {
    /// The version of the text the kept tree was parsed from, when a tree is
    /// present.
    pub open spec fn spec_tree_version(self) -> Option<i64> {
        match self {
            TreeState::Empty => None,
            TreeState::Valid { version, .. } => Some(version),
            TreeState::Stale { version, .. } => Some(version),
        }
    }

    /// The same state after a buffer mutation: a tree parsed from the
    /// pre-mutation text is kept but marked stale.
    pub open spec fn spec_marked_stale(self) -> TreeState {
        match self {
            TreeState::Valid { root, version } => TreeState::Stale { root, version },
            other => other,
        }
    }

    /// The kept tree, when one is present.
    pub open spec fn spec_root(self) -> Option<SyntaxNode> {
        match self {
            TreeState::Empty => None,
            TreeState::Valid { root, .. } => Some(root),
            TreeState::Stale { root, .. } => Some(root),
        }
    }
}


/// A run of spaces.
pub open spec fn spec_spaces(k: int) -> Seq<char>
    decreases k,
{
    if k <= 0 {
        Seq::empty()
    } else {
        spec_spaces(k - 1).push(' ')
    }
}

fn spaces(k: usize) -> (r: String)
    ensures
        r@ == spec_spaces(k as int),
{
    let mut out = String::new();
    let mut i: usize = 0;
    proof {
        reveal_strlit(" ");
        assert(" "@ =~= seq![' ']);
    }
    while i < k
        invariant
            i <= k,
            out@ == spec_spaces(i as int),
            " "@ == seq![' '],
        decreases k - i,
    {
        out.append(" ");
        proof {
            assert(out@ =~= spec_spaces(i as int).push(' '));
        }
        i = i + 1;
    }
    out
}

/// One line of the tree dump: the node's kind and its start and end points,
/// indented two spaces per level.
pub open spec fn spec_node_line(n: SyntaxNode, level: int) -> Seq<char> {
    spec_spaces(2 * level) + n.kind@ + " ["@ + crate::strutil::spec_dec_digits(n.start.row as int)
        + ", "@ + crate::strutil::spec_dec_digits(n.start.column as int) + "] - ["@
        + crate::strutil::spec_dec_digits(n.end.row as int) + ", "@
        + crate::strutil::spec_dec_digits(n.end.column as int) + "] \n"@
}

/// The indentation level one step deeper, capped so that indentation stays
/// within machine bounds at absurd depths.
pub open spec fn spec_next_level(level: int) -> int {
    if level < 0x1000000 {
        level + 1
    } else {
        level
    }
}

/// The dump of a node and, below it, its named children in document order,
/// one level deeper.
pub open spec fn spec_node_dump(n: SyntaxNode, level: int) -> Seq<char>
    decreases n,
{
    spec_node_line(n, level) + spec_children_dump(n.children@, spec_next_level(level))
}

pub open spec fn spec_children_dump(cs: Seq<SyntaxNode>, level: int) -> Seq<char>
    decreases cs,
{
    if cs.len() == 0 {
        Seq::empty()
    } else {
        (if cs[0].named {
            spec_node_dump(cs[0], level)
        } else {
            Seq::empty()
        }) + spec_children_dump(cs.drop_first(), level)
    }
}

/// The whole tree dump: a heading with the root's child count, then the
/// root and its named descendants; an unnamed root prints nothing.
pub open spec fn spec_pretty(root: SyntaxNode) -> Seq<char> {
    if !root.named {
        Seq::empty()
    } else {
        "\nSyntax Tree: Child Count: "@ + crate::strutil::spec_dec_digits(
            root.children@.len() as int,
        ) + "\n"@ + spec_node_dump(root, 0)
    }
}

fn node_dump(n: &SyntaxNode, level: usize, out: &mut String)
    requires
        level <= 0x1000000,
    ensures
        final(out)@ == old(out)@ + spec_node_dump(*n, level as int),
    decreases *n,
{
    let ghost start = out@;
    out.append(spaces(2 * level).as_str());
    out.append(n.kind.as_str());
    out.append(" [");
    out.append(crate::strutil::usize_to_string(n.start.row).as_str());
    out.append(", ");
    out.append(crate::strutil::usize_to_string(n.start.column).as_str());
    out.append("] - [");
    out.append(crate::strutil::usize_to_string(n.end.row).as_str());
    out.append(", ");
    out.append(crate::strutil::usize_to_string(n.end.column).as_str());
    out.append("] \n");
    proof {
        assert(out@ =~= start + spec_node_line(*n, level as int));
    }
    let next: usize = if level < 0x1000000 {
        level + 1
    } else {
        level
    };
    let count = n.children.len();
    let mut i: usize = 0;
    proof {
        assert(n.children@.skip(0) =~= n.children@);
    }
    while i < count
        invariant
            level <= 0x1000000,
            next as int == spec_next_level(level as int),
            next <= 0x1000000,
            count == n.children@.len(),
            i <= count,
            start + spec_node_dump(*n, level as int) == out@ + spec_children_dump(
                n.children@.skip(i as int),
                spec_next_level(level as int),
            ),
        decreases count - i,
    {
        let child = &n.children[i];
        proof {
            let cs = n.children@;
            assert(cs.skip(i as int)[0] == cs[i as int]);
            assert(cs.skip(i as int).drop_first() =~= cs.skip(i + 1));
        }
        if child.named {
            node_dump(child, next, out);
        }
        proof {
            assert(start + spec_node_dump(*n, level as int) =~= out@ + spec_children_dump(
                n.children@.skip(i + 1),
                spec_next_level(level as int),
            ));
        }
        i = i + 1;
    }
    proof {
        assert(n.children@.skip(count as int) =~= Seq::<SyntaxNode>::empty());
        assert(spec_children_dump(Seq::<SyntaxNode>::empty(), spec_next_level(level as int))
            =~= Seq::<char>::empty());
        assert(out@ =~= out@ + Seq::<char>::empty());
    }
}

/// Renders the tree as indented text, one node per line with its kind and
/// source range, named nodes only.
pub fn pretty_display(root: &SyntaxNode) -> (r: String)
    ensures
        r@ == spec_pretty(*root),
{
    if !root.named {
        let r = String::new();
        proof {
            assert(r@ =~= spec_pretty(*root));
        }
        return r;
    }
    let mut out = String::from_str("\nSyntax Tree: Child Count: ");
    out.append(crate::strutil::usize_to_string(root.children.len()).as_str());
    out.append("\n");
    node_dump(root, 0, &mut out);
    proof {
        assert(out@ =~= spec_pretty(*root));
    }
    out
}

/// A tree handle that renders as the indented dump of its nodes.
pub struct TreeWrapper(pub SyntaxNode);

impl TreeWrapper {
    /// The indented text of the held tree.
    pub fn pretty(&self) -> (r: String)
        ensures
            r@ == spec_pretty(self.0),
    {
        pretty_display(&self.0)
    }
}

} // verus!
