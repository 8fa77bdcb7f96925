use vstd::prelude::*;

use crate::position::Point;
use crate::strutil::{
    after_first, parse_usize, spec_contains, spec_dec_val, spec_find_sub, spec_split,
    spec_str_views, spec_trim, split_char, str_contains, trim,
};
use crate::tree::{error_spans, spec_has_error, SyntaxNode};

verus! {

/// Severity of one reported issue, as the protocol grades it.
#[derive(Clone, Copy, Debug, PartialEq, Eq, Structural)]
pub enum DiagnosticSeverity {
    Error,
    Warning,
    Information,
    Hint,
}

/// One reported issue: the span it covers, its message, and an optional
/// severity (absent means the consumer's default, an error).
pub struct ErrorEntry {
    pub start: Point,
    pub end: Point,
    pub message: String,
    pub severity: Option<DiagnosticSeverity>,
}

/// The abstract value of one reported issue.
pub struct EntryView {
    pub start: Point,
    pub end: Point,
    pub message: Seq<char>,
    pub severity: Option<DiagnosticSeverity>,
}

impl View for ErrorEntry {
    type V = EntryView;

    open spec fn view(&self) -> EntryView {
        EntryView {
            start: self.start,
            end: self.end,
            message: self.message@,
            severity: self.severity,
        }
    }
}

/// The abstract values of a list of entries.
pub open spec fn entry_views(v: Seq<ErrorEntry>) -> Seq<EntryView> {
    v.map_values(|e: ErrorEntry| e@)
}

/// An ordered list of reported issues for one document, built fresh on each
/// diagnostics pass.
pub struct ErrorInfo {
    pub entries: Vec<ErrorEntry>,
}

impl ErrorInfo {
    pub fn new() -> (r: ErrorInfo)
        ensures
            r.entries@.len() == 0,
    {
        ErrorInfo { entries: Vec::new() }
    }

    /// Appends all entries of `other`, in order, leaving `other` empty;
    /// merging never drops an entry from either source.
    pub fn combine(&mut self, other: &mut ErrorInfo)
        ensures
            final(self).entries@ == old(self).entries@ + old(other).entries@,
            final(other).entries@.len() == 0,
    {
        self.entries.append(&mut other.entries);
    }

    /// Adds one entry at the end.
    pub fn add(
        &mut self,
        start: Point,
        end: Point,
        message: String,
        severity: Option<DiagnosticSeverity>,
    )
        ensures
            final(self).entries@.len() == old(self).entries@.len() + 1,
            final(self).entries@ == old(self).entries@.push(
                ErrorEntry { start, end, message, severity },
            ),
    {
        self.entries.push(ErrorEntry { start, end, message, severity });
    }

    /// Whether no issue was recorded.
    pub fn is_empty(&self) -> (r: bool)
        ensures
            r == (self.entries@.len() == 0),
    {
        self.entries.len() == 0
    }
}

/// One grammar-error diagnostic: the span of one error node, the fixed
/// grammar-error message, and no severity override.
pub open spec fn spec_grammar_entry(span: (Point, Point)) -> EntryView {
    EntryView {
        start: span.0,
        end: span.1,
        message: "Grammar Error"@,
        severity: None::<DiagnosticSeverity>,
    }
}

/// The grammar diagnostics of a tree: one entry per error node, in document
/// order.
pub open spec fn spec_grammar_entries(n: SyntaxNode) -> Seq<EntryView> {
    error_spans(n).map_values(|p: (Point, Point)| spec_grammar_entry(p))
}

/// Scans the tree for grammar-error nodes: every error node yields one
/// diagnostic spanning it, with the fixed grammar-error message and no
/// severity override; a tree without error nodes yields nothing, as an
/// error-containing tree is still a valid tree and errors are not failures.
pub fn check_tree_error(_source: &str, input: &SyntaxNode) -> (r: Option<ErrorInfo>)
    ensures
        match r {
            Some(info) => spec_has_error(*input) && entry_views(info.entries@)
                == spec_grammar_entries(*input),
            None => !spec_has_error(*input),
        },
{
    let spans = crate::tree::collect_error_spans(input);
    if spans.len() == 0 {
        return None;
    }
    let mut info = ErrorInfo::new();
    let n = spans.len();
    let mut i: usize = 0;
    while i < n
        invariant
            n == spans@.len(),
            i <= n,
            entry_views(info.entries@) == spans@.take(i as int).map_values(
                |p: (Point, Point)| spec_grammar_entry(p),
            ),
        decreases n - i,
    {
        let (a, b) = spans[i];
        let ghost before = info.entries@;
        info.add(a, b, String::from_str("Grammar Error"), None);
        proof {
            assert(entry_views(info.entries@) =~= entry_views(before).push(
                spec_grammar_entry(spans@[i as int]),
            ));
            assert(spans@.take(i + 1) =~= spans@.take(i as int).push(spans@[i as int]));
            assert(spans@.take(i + 1).map_values(|p: (Point, Point)| spec_grammar_entry(p))
                =~= spans@.take(i as int).map_values(|p: (Point, Point)| spec_grammar_entry(p)).push(
                spec_grammar_entry(spans@[i as int]),
            ));
        }
        i = i + 1;
    }
    proof {
        assert(spans@.take(n as int) =~= spans@);
    }
    Some(info)
}

/// What one run of the external compiler reported, read from its error
/// stream.
pub open spec fn spec_compiler_report(err: Seq<char>) -> Option<EntryView> {
    let lines = spec_split(err, '\n');
    let line0 = lines[0];
    if err.len() == 0 {
        None
    } else if spec_contains(line0, "Bytecode:"@) {
        None
    } else if spec_contains(line0, "ParseError:"@) && lines.len() >= 3 {
        let msg = line0.skip(spec_find_sub(line0, "ParseError: "@) + "ParseError: "@.len());
        let fields = spec_split(lines[2], ':');
        if spec_find_sub(line0, "ParseError: "@) >= 0 && fields.len() >= 3 {
            let row_txt = spec_trim(fields[1]);
            let col_txt = spec_trim(fields[2]);
            if row_txt.len() > 0 && crate::strutil::all_digits(row_txt) && spec_dec_val(row_txt)
                <= usize::MAX && col_txt.len() > 0 && crate::strutil::all_digits(col_txt)
                && spec_dec_val(col_txt) <= usize::MAX && spec_dec_val(row_txt) >= 1 {
                let p = Point {
                    row: (spec_dec_val(row_txt) - 1) as usize,
                    column: spec_dec_val(col_txt) as usize,
                };
                Some(
                    EntryView {
                        start: p,
                        end: p,
                        message: msg,
                        severity: Some(DiagnosticSeverity::Error),
                    },
                )
            } else {
                None
            }
        } else {
            None
        }
    } else {
        None
    }
}

/// Reads the external compiler's error stream: an empty stream or a benign
/// bytecode dump reports nothing; a parse-error heading followed two lines
/// later by colon-separated row and column fields reports one diagnostic at
/// that place (rows are reported one-based) with error severity; anything
/// garbled reports nothing, so a broken tool degrades to grammar-only
/// diagnostics.
pub fn parse_compiler_output(err: &str) -> (r: Option<ErrorEntry>)
    ensures
        match r {
            Some(e) => spec_compiler_report(err@) == Some(e@),
            None => spec_compiler_report(err@) is None,
        },
{
    if err.unicode_len() == 0 {
        return None;
    }
    let lines = split_char(err, '\n');
    proof {
        assert(spec_split(err@, '\n').len() > 0);
        assert(lines@.len() > 0);
        assert(lines@[0]@ == spec_split(err@, '\n')[0]);
    }
    let line0 = &lines[0];
    if str_contains(line0.as_str(), "Bytecode:") {
        return None;
    }
    if !str_contains(line0.as_str(), "ParseError:") {
        return None;
    }
    if lines.len() < 3 {
        return None;
    }
    proof {
        assert(lines@[2]@ == spec_split(err@, '\n')[2]);
    }
    let msg = match after_first(line0.as_str(), "ParseError: ") {
        Some(m) => m,
        None => {
            return None;
        },
    };
    let fields = split_char(lines[2].as_str(), ':');
    if fields.len() < 3 {
        return None;
    }
    proof {
        assert(fields@[1]@ == spec_split(lines@[2]@, ':')[1]);
        assert(fields@[2]@ == spec_split(lines@[2]@, ':')[2]);
    }
    let row_txt = trim(fields[1].as_str());
    let col_txt = trim(fields[2].as_str());
    let row = match parse_usize(row_txt.as_str()) {
        Some(v) => v,
        None => {
            return None;
        },
    };
    let col = match parse_usize(col_txt.as_str()) {
        Some(v) => v,
        None => {
            return None;
        },
    };
    if row < 1 {
        return None;
    }
    let p = Point { row: row - 1, column: col };
    Some(ErrorEntry { start: p, end: p, message: msg, severity: Some(DiagnosticSeverity::Error) })
}

/// Merges the grammar scan with what the external tool reported, grammar
/// entries first: the merged list is empty exactly when both sources are,
/// and a missing or failed external tool never suppresses the grammar scan.
pub fn merge_diagnostics(tree_errors: Option<ErrorInfo>, external: Option<ErrorEntry>) -> (r:
    ErrorInfo)
    ensures
        r.entries@.len() == 0 <==> ((tree_errors matches Some(t) ==> t.entries@.len() == 0) && (
        external is None)),
        entry_views(r.entries@) == (match tree_errors {
            Some(t) => entry_views(t.entries@),
            None => Seq::<EntryView>::empty(),
        }) + (match external {
            Some(e) => seq![e@],
            None => Seq::<EntryView>::empty(),
        }),
{
    let mut out = ErrorInfo::new();
    let ghost base = entry_views(out.entries@);
    proof {
        assert(base =~= Seq::<EntryView>::empty());
    }
    match tree_errors {
        Some(mut t) => {
            let ghost tv = entry_views(t.entries@);
            out.combine(&mut t);
            proof {
                assert(entry_views(out.entries@) =~= Seq::<EntryView>::empty() + tv);
            }
        },
        None => {},
    }
    let ghost mid = entry_views(out.entries@);
    match external {
        Some(e) => {
            let ghost ev = e@;
            out.add(e.start, e.end, e.message, e.severity);
            proof {
                assert(entry_views(out.entries@) =~= mid.push(ev));
                assert(mid.push(ev) =~= mid + seq![ev]);
            }
        },
        None => {
            proof {
                assert(entry_views(out.entries@) =~= mid + Seq::<EntryView>::empty());
            }
        },
    }
    proof {
        assert(entry_views(out.entries@).len() == out.entries@.len());
    }
    out
}

/// The spans the grammar scan publishes when a tree is absent: one sentinel
/// span over the first line, marking that no tree could be consulted.
pub open spec fn spec_missing_tree_span() -> (Point, Point) {
    (Point { row: 0, column: 0 }, Point { row: 1, column: 0 })
}

/// The spans of all grammar-error nodes of a tree, or the sentinel span when
/// no tree is available.
pub fn get_parser_errors(tree: Option<&SyntaxNode>) -> (r: Vec<(Point, Point)>)
    ensures
        match tree {
            Some(t) => r@ == error_spans(*t),
            None => r@ == seq![spec_missing_tree_span()],
        },
{
    match tree {
        Some(t) => crate::tree::collect_error_spans(t),
        None => {
            let mut out: Vec<(Point, Point)> = Vec::new();
            out.push((Point { row: 0, column: 0 }, Point { row: 1, column: 0 }));
            proof {
                assert(out@ =~= seq![spec_missing_tree_span()]);
            }
            out
        },
    }
}

} // verus!
