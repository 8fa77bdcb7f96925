use vstd::prelude::*;

use crate::line_index::{index_matches, lemma_line_starts_props, line_starts};
use crate::position::{Point, Position};
use crate::tree::SyntaxNode;

verus! {

/// What kind of place in the source a cursor position falls on, used to pick
/// which knowledge-base namespace to consult.
#[derive(Clone, Copy, Debug, PartialEq, Eq, Structural)]
pub enum PositionType {
    Variable,
    Comment,
    NotFind,
}

/// Broad classes of language constructs a token can belong to.
#[derive(Clone, Copy, Debug, PartialEq, Eq, Structural)]
pub enum LanguageConstruct {
    ControlFlow,
    Operator,
    Function,
    DataType,
    Variable,
    NotFind,
}

/// The text of the span of line `row` from column `x` to column `y`, when
/// the row exists and the span stays within the row (up to the next line's
/// start); otherwise nothing.
pub open spec fn spec_leaf_text(s: Seq<char>, row: int, x: int, y: int) -> Option<Seq<char>> {
    let t = line_starts(s);
    if 0 <= row < t.len() {
        let ls = t[row];
        let e = if row + 1 < t.len() {
            t[row + 1]
        } else {
            s.len() as int
        };
        if 0 <= x <= y && ls + y <= e {
            Some(s.subrange(ls + x, ls + y))
        } else {
            None
        }
    } else {
        None
    }
}

/// Row range of `c` contains the cursor row.
pub open spec fn row_contains(c: SyntaxNode, pos: Point) -> bool {
    c.start.row <= pos.row <= c.end.row
}

/// Cursor column falls within a leaf that starts and ends on one row.
pub open spec fn leaf_col_contains(c: SyntaxNode, pos: Point) -> bool {
    &&& c.start.row == c.end.row
    &&& c.start.column <= pos.column <= c.end.column
}

/// The source text of the first leaf below `n`, in document order, that
/// covers the cursor: at each level the children are scanned in order; a
/// child whose row range holds the cursor is entered if it has children,
/// or yields its exact source span if it is a leaf on one row whose column
/// range holds the cursor; nothing when no such leaf exists.
pub open spec fn spec_string_at_pos(pos: Point, n: SyntaxNode, s: Seq<char>) -> Option<Seq<char>>
    decreases n,
{
    sap_children(pos, n.children@, s)
}

pub open spec fn sap_children(pos: Point, cs: Seq<SyntaxNode>, s: Seq<char>) -> Option<Seq<char>>
    decreases cs,
{
    if cs.len() == 0 {
        None
    } else {
        let c = cs[0];
        let rest = sap_children(pos, cs.drop_first(), s);
        if row_contains(c, pos) {
            if c.children@.len() != 0 {
                match spec_string_at_pos(pos, c, s) {
                    Some(t) => Some(t),
                    None => rest,
                }
            } else if leaf_col_contains(c, pos) {
                match spec_leaf_text(
                    s,
                    c.start.row as int,
                    c.start.column as int,
                    c.end.column as int,
                ) {
                    Some(t) => Some(t),
                    None => rest,
                }
            } else {
                rest
            }
        } else {
            rest
        }
    }
}

/// The range of the first leaf below `n`, in document order, that covers the
/// cursor, by the same scan as `spec_string_at_pos`.
pub open spec fn spec_position_range(pos: Point, n: SyntaxNode) -> Option<(Point, Point)>
    decreases n,
{
    gpr_children(pos, n.children@)
}

pub open spec fn gpr_children(pos: Point, cs: Seq<SyntaxNode>) -> Option<(Point, Point)>
    decreases cs,
{
    if cs.len() == 0 {
        None
    } else {
        let c = cs[0];
        let rest = gpr_children(pos, cs.drop_first());
        if row_contains(c, pos) {
            if c.children@.len() != 0 {
                match spec_position_range(pos, c) {
                    Some(t) => Some(t),
                    None => rest,
                }
            } else if leaf_col_contains(c, pos) {
                Some((c.start, c.end))
            } else {
                rest
            }
        } else {
            rest
        }
    }
}

/// Extracts the text of the span of line `row` from column `x` to column
/// `y`, when that span addresses text within the row.
pub(crate) fn span_text_exec(source: &str, index: &Vec<usize>, row: usize, x: usize, y: usize) -> (r:
    Option<String>)
    requires
        index_matches(index@, source@),
    ensures
        match spec_leaf_text(source@, row as int, x as int, y as int) {
            Some(t) => r matches Some(x0) && x0@ == t,
            None => r is None,
        },
{
    if row >= index.len() {
        return None;
    }
    proof {
        lemma_line_starts_props(source@);
    }
    let ls = index[row];
    let len = source.unicode_len();
    let e = if row + 1 < index.len() {
        index[row + 1]
    } else {
        len
    };
    if x <= y && y <= e - ls {
        Some(source.substring_char(ls + x, ls + y).to_owned())
    } else {
        None
    }
}

/// Extracts the source text of the span of one leaf node.
fn leaf_text_exec(c: &SyntaxNode, source: &str, index: &Vec<usize>) -> (r: Option<String>)
    requires
        index_matches(index@, source@),
    ensures
        match spec_leaf_text(
            source@,
            c.start.row as int,
            c.start.column as int,
            c.end.column as int,
        ) {
            Some(t) => r matches Some(x) && x@ == t,
            None => r is None,
        },
{
    span_text_exec(source, index, c.start.row, c.start.column, c.end.column)
}

fn sap_exec(pos: Point, n: &SyntaxNode, source: &str, index: &Vec<usize>) -> (r: Option<String>)
    requires
        index_matches(index@, source@),
    ensures
        match spec_string_at_pos(pos, *n, source@) {
            Some(t) => r matches Some(x) && x@ == t,
            None => r is None,
        },
    decreases *n,
{
    let ghost s = source@;
    proof {
        assert(n.children@.skip(0) =~= n.children@);
    }
    let count = n.children.len();
    let mut i: usize = 0;
    while i < count
        invariant
            index_matches(index@, s),
            s == source@,
            count == n.children@.len(),
            i <= count,
            spec_string_at_pos(pos, *n, s) == sap_children(pos, n.children@.skip(i as int), s),
        decreases count - i,
    {
        let child = &n.children[i];
        proof {
            let cs = n.children@;
            assert(cs.skip(i as int)[0] == cs[i as int]);
            assert(cs.skip(i as int).drop_first() =~= cs.skip(i + 1));
        }
        if child.start.row <= pos.row && pos.row <= child.end.row {
            if child.children.len() != 0 {
                let sub = sap_exec(pos, child, source, index);
                if sub.is_some() {
                    return sub;
                }
            } else if child.start.row == child.end.row && child.start.column <= pos.column
                && pos.column <= child.end.column {
                let t = leaf_text_exec(child, source, index);
                if t.is_some() {
                    return t;
                }
            }
        }
        i = i + 1;
    }
    proof {
        assert(n.children@.skip(count as int) =~= Seq::<SyntaxNode>::empty());
    }
    None
}

/// The source text under the cursor: the exact span of the first leaf that
/// covers the given position, or nothing when the cursor rests on no leaf
/// (for instance in whitespace between tokens).
pub fn get_string_at_pos(location: Position, root: &SyntaxNode, source: &str) -> (r: Option<
    String,
>)
    ensures
        ({
            let pos = Point { row: location.line as usize, column: location.character as usize };
            match spec_string_at_pos(pos, *root, source@) {
                Some(t) => r matches Some(x) && x@ == t,
                None => r is None,
            }
        }),
{
    let pos = crate::position::position_to_point(location);
    let index = crate::line_index::line_offsets_str(source);
    sap_exec(pos, root, source, &index)
}

fn gpr_exec(pos: Point, n: &SyntaxNode) -> (r: Option<(Point, Point)>)
    ensures
        r == spec_position_range(pos, *n),
    decreases *n,
{
    proof {
        assert(n.children@.skip(0) =~= n.children@);
    }
    let count = n.children.len();
    let mut i: usize = 0;
    while i < count
        invariant
            count == n.children@.len(),
            i <= count,
            spec_position_range(pos, *n) == gpr_children(pos, n.children@.skip(i as int)),
        decreases count - i,
    {
        let child = &n.children[i];
        proof {
            let cs = n.children@;
            assert(cs.skip(i as int)[0] == cs[i as int]);
            assert(cs.skip(i as int).drop_first() =~= cs.skip(i + 1));
        }
        if child.start.row <= pos.row && pos.row <= child.end.row {
            if child.children.len() != 0 {
                let sub = gpr_exec(pos, child);
                if sub.is_some() {
                    return sub;
                }
            } else if child.start.row == child.end.row && child.start.column <= pos.column
                && pos.column <= child.end.column {
                return Some((child.start, child.end));
            }
        }
        i = i + 1;
    }
    proof {
        assert(n.children@.skip(count as int) =~= Seq::<SyntaxNode>::empty());
    }
    None
}

/// The range of the syntax-tree leaf under the cursor, or nothing when the
/// cursor rests on no leaf.
pub fn get_position_range(location: Position, root: &SyntaxNode) -> (r: Option<(Point, Point)>)
    ensures
        ({
            let pos = Point { row: location.line as usize, column: location.character as usize };
            r == spec_position_range(pos, *root)
        }),
{
    let pos = crate::position::position_to_point(location);
    gpr_exec(pos, root)
}


/// Kinds of container statements whose presence classifies the cursor as
/// resting on a variable context.
pub open spec fn is_container_kind(k: Seq<char>) -> bool {
    ||| k == "import_statement"@
    ||| k == "assignment_statement"@
    ||| k == "if_statement"@
}

/// Leaf kinds that name a variable-like token.
pub open spec fn is_variable_kind(k: Seq<char>) -> bool {
    ||| k == "normal_var"@
    ||| k == "unquoted_argument"@
    ||| k == "variable_def"@
    ||| k == "variable"@
}

/// Classification of a cursor position from the children of `n`: a child
/// whose rows hold the cursor classifies it as a variable context for
/// container and variable-like kinds, as a comment for comment nodes, and as
/// the caller-supplied default when the cursor falls inside a same-line leaf
/// with no clearer class; when no child decides, the position is not found.
pub open spec fn spec_pos_type(pos: Point, n: SyntaxNode, deflt: PositionType) -> PositionType {
    spt_children(pos, n.children@, deflt)
}

pub open spec fn spt_children(pos: Point, cs: Seq<SyntaxNode>, deflt: PositionType) -> PositionType
    decreases cs,
{
    if cs.len() == 0 {
        PositionType::NotFind
    } else {
        let c = cs[0];
        let rest = spt_children(pos, cs.drop_first(), deflt);
        if row_contains(c, pos) {
            if is_container_kind(c.kind@) || is_variable_kind(c.kind@) {
                PositionType::Variable
            } else if c.kind@ == "comment"@ {
                PositionType::Comment
            } else if c.children@.len() == 0 && leaf_col_contains(c, pos) {
                deflt
            } else {
                rest
            }
        } else {
            rest
        }
    }
}

/// Classifies the cursor position against the children of `root`, per
/// `spec_pos_type`; `inputtype` is the class to report for a leaf with no
/// clearer classification.
pub fn get_pos_type(location: Position, root: &SyntaxNode, _source: &str, inputtype: PositionType)
    -> (r: PositionType)
    ensures
        ({
            let pos = Point { row: location.line as usize, column: location.character as usize };
            r == spec_pos_type(pos, *root, inputtype)
        }),
{
    let pos = crate::position::position_to_point(location);
    proof {
        assert(root.children@.skip(0) =~= root.children@);
    }
    let count = root.children.len();
    let mut i: usize = 0;
    while i < count
        invariant
            pos == (Point { row: location.line as usize, column: location.character as usize }),
            count == root.children@.len(),
            i <= count,
            spec_pos_type(pos, *root, inputtype) == spt_children(
                pos,
                root.children@.skip(i as int),
                inputtype,
            ),
        decreases count - i,
    {
        let child = &root.children[i];
        proof {
            let cs = root.children@;
            assert(cs.skip(i as int)[0] == cs[i as int]);
            assert(cs.skip(i as int).drop_first() =~= cs.skip(i + 1));
        }
        if child.start.row <= pos.row && pos.row <= child.end.row {
            if crate::strutil::string_is(&child.kind, "import_statement") || crate::strutil::string_is(
                &child.kind,
                "assignment_statement",
            ) || crate::strutil::string_is(&child.kind, "if_statement") || crate::strutil::string_is(
                &child.kind,
                "normal_var",
            ) || crate::strutil::string_is(&child.kind, "unquoted_argument")
                || crate::strutil::string_is(&child.kind, "variable_def")
                || crate::strutil::string_is(&child.kind, "variable") {
                return PositionType::Variable;
            } else if crate::strutil::string_is(&child.kind, "comment") {
                return PositionType::Comment;
            } else if child.children.len() == 0 && child.start.row == child.end.row
                && child.start.column <= pos.column && pos.column <= child.end.column {
                return inputtype;
            }
        }
        i = i + 1;
    }
    proof {
        assert(root.children@.skip(count as int) =~= Seq::<SyntaxNode>::empty());
    }
    PositionType::NotFind
}

} // verus!
