use vstd::prelude::*;

use crate::line_index::{index_matches, line_offsets_str};
use crate::position::Position;
use crate::query::{spec_leaf_text, PositionType};
use crate::tree::SyntaxNode;

verus! {

/// The class of a completion candidate.
#[derive(Clone, Copy, Debug, PartialEq, Eq, Structural)]
pub enum CandidateKind {
    Function,
}

/// One completion candidate: a label to offer, a human-readable detail, the
/// line its definition starts on, and its class.
pub struct CandidateItem {
    pub label: String,
    pub detail: String,
    pub line: usize,
    pub kind: CandidateKind,
}

/// The abstract value of a candidate.
pub struct CandidateView {
    pub label: Seq<char>,
    pub detail: Seq<char>,
    pub line: int,
    pub kind: CandidateKind,
}

impl View for CandidateItem {
    type V = CandidateView;

    open spec fn view(&self) -> CandidateView {
        CandidateView {
            label: self.label@,
            detail: self.detail@,
            line: self.line as int,
            kind: self.kind,
        }
    }
}

/// The abstract values of a sequence of candidates.
pub open spec fn views_of(v: Seq<CandidateItem>) -> Seq<CandidateView> {
    v.map_values(|c: CandidateItem| c@)
}

/// Kinds of nodes whose bodies are entered when collecting definitions.
pub open spec fn is_scope_kind(k: Seq<char>) -> bool {
    ||| k == "if_condition"@
    ||| k == "for_range_loop"@
    ||| k == "for_iterable_loop"@
}

/// The candidate a function definition node contributes: its name, read
/// from its first child's column span on the definition's start row,
/// labelled with a call-style suffix; nothing when the name span addresses
/// no text.
pub open spec fn spec_fn_candidate(c: SyntaxNode, s: Seq<char>, from: Seq<char>) -> Option<
    CandidateView,
> {
    if c.children@.len() >= 1 {
        let ids = c.children@[0];
        match spec_leaf_text(
            s,
            c.start.row as int,
            ids.start.column as int,
            ids.end.column as int,
        ) {
            Some(name) => Some(
                CandidateView {
                    label: name + "()"@,
                    detail: "defined function\nfrom: "@ + from,
                    line: c.start.row as int,
                    kind: CandidateKind::Function,
                },
            ),
            None => None,
        }
    } else {
        None
    }
}

/// The definitions visible from a cursor line, collected from the tree
/// under `n` in document order: function definitions contribute a
/// candidate, scope nodes are entered, and when a cursor bound is given,
/// any node starting after the cursor line ends the scan of its siblings.
pub open spec fn spec_collect_node(
    n: SyntaxNode,
    s: Seq<char>,
    cursor: Option<int>,
    from: Seq<char>,
) -> Seq<CandidateView>
    decreases n,
{
    if cursor matches Some(line) && n.start.row > line {
        Seq::empty()
    } else {
        spec_collect_children(n.children@, s, cursor, from)
    }
}

pub open spec fn spec_collect_children(
    cs: Seq<SyntaxNode>,
    s: Seq<char>,
    cursor: Option<int>,
    from: Seq<char>,
) -> Seq<CandidateView>
    decreases cs,
{
    if cs.len() == 0 {
        Seq::empty()
    } else {
        let c = cs[0];
        if cursor matches Some(line) && c.start.row > line {
            Seq::empty()
        } else {
            let here = if c.kind@ == "function_definition"@ {
                match spec_fn_candidate(c, s, from) {
                    Some(v) => seq![v],
                    None => Seq::empty(),
                }
            } else if is_scope_kind(c.kind@) {
                spec_collect_node(c, s, cursor, from)
            } else {
                Seq::empty()
            };
            here + spec_collect_children(cs.drop_first(), s, cursor, from)
        }
    }
}

/// Every candidate the bounded collection returns starts at or before the
/// cursor line.
pub proof fn lemma_collect_node_bounded(n: SyntaxNode, s: Seq<char>, line: int, from: Seq<char>)
    ensures
        forall|k: int|
            0 <= k < spec_collect_node(n, s, Some(line), from).len()
                ==> #[trigger] spec_collect_node(n, s, Some(line), from)[k].line <= line,
    decreases n,
{
    if n.start.row > line {
    } else {
        lemma_collect_children_bounded(n.children@, s, line, from);
    }
}

pub proof fn lemma_collect_children_bounded(
    cs: Seq<SyntaxNode>,
    s: Seq<char>,
    line: int,
    from: Seq<char>,
)
    ensures
        forall|k: int|
            0 <= k < spec_collect_children(cs, s, Some(line), from).len()
                ==> #[trigger] spec_collect_children(cs, s, Some(line), from)[k].line <= line,
    decreases cs,
{
    if cs.len() == 0 {
    } else {
        let c = cs[0];
        if c.start.row > line {
        } else {
            lemma_collect_children_bounded(cs.drop_first(), s, line, from);
            lemma_collect_node_bounded(c, s, line, from);
            let whole = spec_collect_children(cs, s, Some(line), from);
            let here = if c.kind@ == "function_definition"@ {
                match spec_fn_candidate(c, s, from) {
                    Some(v) => seq![v],
                    None => Seq::<CandidateView>::empty(),
                }
            } else if is_scope_kind(c.kind@) {
                spec_collect_node(c, s, Some(line), from)
            } else {
                Seq::<CandidateView>::empty()
            };
            let rest = spec_collect_children(cs.drop_first(), s, Some(line), from);
            assert(whole =~= here + rest);
            assert forall|k: int| 0 <= k < whole.len() implies #[trigger] whole[k].line <= line by {
                if k < here.len() {
                    assert(whole[k] == here[k]);
                    if c.kind@ == "function_definition"@ {
                        assert(here[k].line == c.start.row as int);
                    } else {
                        assert(here[k] == spec_collect_node(c, s, Some(line), from)[k]);
                    }
                } else {
                    assert(whole[k] == rest[k - here.len()]);
                }
            }
        }
    }
}

/// The cursor bound a completion request supplies, as a line number.
pub open spec fn spec_cursor_of(location: Option<Position>) -> Option<int> {
    match location {
        Some(p) => Some(p.line as int),
        None => None,
    }
}

fn collect_exec(
    n: &SyntaxNode,
    source: &str,
    index: &Vec<usize>,
    location: Option<Position>,
    from: &str,
    out: &mut Vec<CandidateItem>,
)
    requires
        index_matches(index@, source@),
    ensures
        views_of(final(out)@) == views_of(old(out)@) + spec_collect_node(
            *n,
            source@,
            spec_cursor_of(location),
            from@,
        ),
    decreases *n,
{
    let ghost s = source@;
    let ghost cursor = spec_cursor_of(location);
    if let Some(loc) = location {
        if n.start.row > loc.line as usize {
            proof {
                assert(views_of(out@) =~= views_of(out@) + Seq::<CandidateView>::empty());
            }
            return ;
        }
    }
    proof {
        assert(n.children@.skip(0) =~= n.children@);
    }
    let count = n.children.len();
    let mut i: usize = 0;
    while i < count
        invariant
            index_matches(index@, s),
            s == source@,
            cursor == spec_cursor_of(location),
            count == n.children@.len(),
            i <= count,
            views_of(old(out)@) + spec_collect_node(*n, s, cursor, from@) == views_of(out@)
                + spec_collect_children(n.children@.skip(i as int), s, cursor, from@),
        decreases count - i,
    {
        let child = &n.children[i];
        proof {
            let cs = n.children@;
            assert(cs.skip(i as int)[0] == cs[i as int]);
            assert(cs.skip(i as int).drop_first() =~= cs.skip(i + 1));
        }
        if let Some(loc) = location {
            if child.start.row > loc.line as usize {
                proof {
                    assert(spec_collect_children(n.children@.skip(i as int), s, cursor, from@)
                        =~= Seq::<CandidateView>::empty());
                    assert(views_of(out@) =~= views_of(out@) + Seq::<CandidateView>::empty());
                }
                return ;
            }
        }
        let ghost before = out@;
        if crate::strutil::string_is(&child.kind, "function_definition") {
            if child.children.len() >= 1 {
                let ids = &child.children[0];
                let name = crate::query::span_text_exec(
                    source,
                    index,
                    child.start.row,
                    ids.start.column,
                    ids.end.column,
                );
                match name {
                    Some(name) => {
                        let label = name.concat("()");
                        let detail = String::from_str("defined function\nfrom: ").concat(from);
                        let item = CandidateItem {
                            label,
                            detail,
                            line: child.start.row,
                            kind: CandidateKind::Function,
                        };
                        let ghost iv = item@;
                        out.push(item);
                        proof {
                            assert(views_of(out@) =~= views_of(before).push(iv));
                            assert(views_of(before).push(iv) =~= views_of(before) + seq![iv]);
                        }
                    },
                    None => {
                        proof {
                            assert(views_of(out@) =~= views_of(before)
                                + Seq::<CandidateView>::empty());
                        }
                    },
                }
            } else {
                proof {
                    assert(views_of(out@) =~= views_of(before) + Seq::<CandidateView>::empty());
                }
            }
        } else if crate::strutil::string_is(&child.kind, "if_condition")
            || crate::strutil::string_is(&child.kind, "for_range_loop")
            || crate::strutil::string_is(&child.kind, "for_iterable_loop") {
            collect_exec(child, source, index, location, from, out);
        } else {
            proof {
                assert(views_of(out@) =~= views_of(before) + Seq::<CandidateView>::empty());
            }
        }
        proof {
            let cs = n.children@;
            assert(views_of(out@) + spec_collect_children(cs.skip(i + 1), s, cursor, from@)
                =~= views_of(before) + spec_collect_children(cs.skip(i as int), s, cursor, from@));
        }
        i = i + 1;
    }
    proof {
        assert(n.children@.skip(count as int) =~= Seq::<SyntaxNode>::empty());
        assert(views_of(out@) =~= views_of(out@) + Seq::<CandidateView>::empty());
    }
}

/// Collects the function definitions visible before the cursor, walking the
/// tree under `input` in document order: scope bodies are entered, and when
/// a cursor location is given, no node starting after the cursor line is
/// considered. Yields nothing when no definition is found.
pub fn get_nested_completion(
    input: &SyntaxNode,
    source: &str,
    local_name: &str,
    _pos_type: PositionType,
    location: Option<Position>,
) -> (r: Option<Vec<CandidateItem>>)
    ensures
        ({
            let items = spec_collect_node(*input, source@, spec_cursor_of(location), local_name@);
            match r {
                Some(v) => views_of(v@) == items && items.len() > 0,
                None => items.len() == 0,
            }
        }),
{
    let index = line_offsets_str(source);
    let mut out: Vec<CandidateItem> = Vec::new();
    proof {
        assert(views_of(Seq::<CandidateItem>::empty()) =~= Seq::<CandidateView>::empty());
        assert(out@ =~= Seq::<CandidateItem>::empty());
    }
    collect_exec(input, source, &index, location, local_name, &mut out);
    proof {
        assert(views_of(out@) =~= Seq::<CandidateView>::empty() + views_of(out@));
        assert(views_of(out@).len() == out@.len());
    }
    if out.len() == 0 {
        None
    } else {
        Some(out)
    }
}


/// The sequence of character strings a vector of strings holds.
pub open spec fn str_views(v: Seq<String>) -> Seq<Seq<char>> {
    v.map_values(|x: String| x@)
}

/// The file an include-style directive names: the text of the directive's
/// second child, when it addresses text.
pub open spec fn spec_include_target(c: SyntaxNode, s: Seq<char>) -> Option<Seq<char>> {
    if c.children@.len() >= 2 {
        let ids = c.children@[1];
        spec_leaf_text(s, ids.start.row as int, ids.start.column as int, ids.end.column as int)
    } else {
        None
    }
}

/// The include targets visible before the cursor, collected by the same
/// walk and cursor pruning as the definition collection.
pub open spec fn spec_includes_node(n: SyntaxNode, s: Seq<char>, cursor: Option<int>) -> Seq<
    Seq<char>,
>
    decreases n,
{
    if cursor matches Some(line) && n.start.row > line {
        Seq::empty()
    } else {
        spec_includes_children(n.children@, s, cursor)
    }
}

pub open spec fn spec_includes_children(
    cs: Seq<SyntaxNode>,
    s: Seq<char>,
    cursor: Option<int>,
) -> Seq<Seq<char>>
    decreases cs,
{
    if cs.len() == 0 {
        Seq::empty()
    } else {
        let c = cs[0];
        if cursor matches Some(line) && c.start.row > line {
            Seq::empty()
        } else {
            let here = if c.kind@ == "import_statement"@ {
                match spec_include_target(c, s) {
                    Some(t) => seq![t],
                    None => Seq::empty(),
                }
            } else if is_scope_kind(c.kind@) {
                spec_includes_node(c, s, cursor)
            } else {
                Seq::empty()
            };
            here + spec_includes_children(cs.drop_first(), s, cursor)
        }
    }
}

fn includes_exec(
    n: &SyntaxNode,
    source: &str,
    index: &Vec<usize>,
    location: Option<Position>,
    out: &mut Vec<String>,
)
    requires
        index_matches(index@, source@),
    ensures
        str_views(final(out)@) == str_views(old(out)@) + spec_includes_node(
            *n,
            source@,
            spec_cursor_of(location),
        ),
    decreases *n,
{
    let ghost s = source@;
    let ghost cursor = spec_cursor_of(location);
    if let Some(loc) = location {
        if n.start.row > loc.line as usize {
            proof {
                assert(str_views(out@) =~= str_views(out@) + Seq::<Seq<char>>::empty());
            }
            return ;
        }
    }
    proof {
        assert(n.children@.skip(0) =~= n.children@);
    }
    let count = n.children.len();
    let mut i: usize = 0;
    while i < count
        invariant
            index_matches(index@, s),
            s == source@,
            cursor == spec_cursor_of(location),
            count == n.children@.len(),
            i <= count,
            str_views(old(out)@) + spec_includes_node(*n, s, cursor) == str_views(out@)
                + spec_includes_children(n.children@.skip(i as int), s, cursor),
        decreases count - i,
    {
        let child = &n.children[i];
        proof {
            let cs = n.children@;
            assert(cs.skip(i as int)[0] == cs[i as int]);
            assert(cs.skip(i as int).drop_first() =~= cs.skip(i + 1));
        }
        if let Some(loc) = location {
            if child.start.row > loc.line as usize {
                proof {
                    assert(spec_includes_children(n.children@.skip(i as int), s, cursor)
                        =~= Seq::<Seq<char>>::empty());
                    assert(str_views(out@) =~= str_views(out@) + Seq::<Seq<char>>::empty());
                }
                return ;
            }
        }
        let ghost before = out@;
        if crate::strutil::string_is(&child.kind, "import_statement") {
            if child.children.len() >= 2 {
                let ids = &child.children[1];
                let target = crate::query::span_text_exec(
                    source,
                    index,
                    ids.start.row,
                    ids.start.column,
                    ids.end.column,
                );
                match target {
                    Some(target) => {
                        let ghost tv = target@;
                        out.push(target);
                        proof {
                            assert(str_views(out@) =~= str_views(before).push(tv));
                            assert(str_views(before).push(tv) =~= str_views(before) + seq![tv]);
                        }
                    },
                    None => {
                        proof {
                            assert(str_views(out@) =~= str_views(before)
                                + Seq::<Seq<char>>::empty());
                        }
                    },
                }
            } else {
                proof {
                    assert(str_views(out@) =~= str_views(before) + Seq::<Seq<char>>::empty());
                }
            }
        } else if crate::strutil::string_is(&child.kind, "if_condition")
            || crate::strutil::string_is(&child.kind, "for_range_loop")
            || crate::strutil::string_is(&child.kind, "for_iterable_loop") {
            includes_exec(child, source, index, location, out);
        } else {
            proof {
                assert(str_views(out@) =~= str_views(before) + Seq::<Seq<char>>::empty());
            }
        }
        proof {
            let cs = n.children@;
            assert(str_views(out@) + spec_includes_children(cs.skip(i + 1), s, cursor)
                =~= str_views(before) + spec_includes_children(cs.skip(i as int), s, cursor));
        }
        i = i + 1;
    }
    proof {
        assert(n.children@.skip(count as int) =~= Seq::<SyntaxNode>::empty());
        assert(str_views(out@) =~= str_views(out@) + Seq::<Seq<char>>::empty());
    }
}

/// Collects the files named by include-style directives visible before the
/// cursor, in document order; the caller decides which of them to scan, and
/// a visited set must guard against include cycles.
pub fn collect_includes(root: &SyntaxNode, source: &str, location: Option<Position>) -> (r: Vec<
    String,
>)
    ensures
        str_views(r@) == spec_includes_node(*root, source@, spec_cursor_of(location)),
{
    let index = line_offsets_str(source);
    let mut out: Vec<String> = Vec::new();
    proof {
        assert(str_views(out@) =~= Seq::<Seq<char>>::empty());
    }
    includes_exec(root, source, &index, location, &mut out);
    proof {
        assert(str_views(out@) =~= Seq::<Seq<char>>::empty() + str_views(out@));
    }
    out
}

/// The candidates of the top-level function definitions of a file: only the
/// root's direct children are read, with no cursor bound, as when an
/// included file is scanned whole.
pub open spec fn spec_top_level(cs: Seq<SyntaxNode>, s: Seq<char>, from: Seq<char>) -> Seq<
    CandidateView,
>
    decreases cs,
{
    if cs.len() == 0 {
        Seq::empty()
    } else {
        let c = cs[0];
        let here = if c.kind@ == "function_definition"@ {
            match spec_fn_candidate(c, s, from) {
                Some(v) => seq![v],
                None => Seq::empty(),
            }
        } else {
            Seq::empty()
        };
        here + spec_top_level(cs.drop_first(), s, from)
    }
}

/// Collects the top-level function definitions of a parsed file, as the
/// bounded secondary pass over an included file does.
pub fn collect_top_level_definitions(root: &SyntaxNode, source: &str, local_name: &str) -> (r: Vec<
    CandidateItem,
>)
    ensures
        views_of(r@) == spec_top_level(root.children@, source@, local_name@),
{
    let ghost s = source@;
    let index = line_offsets_str(source);
    let mut out: Vec<CandidateItem> = Vec::new();
    proof {
        assert(views_of(out@) =~= Seq::<CandidateView>::empty());
        assert(root.children@.skip(0) =~= root.children@);
    }
    let count = root.children.len();
    let mut i: usize = 0;
    while i < count
        invariant
            index_matches(index@, s),
            s == source@,
            count == root.children@.len(),
            i <= count,
            spec_top_level(root.children@, s, local_name@) == views_of(out@) + spec_top_level(
                root.children@.skip(i as int),
                s,
                local_name@,
            ),
        decreases count - i,
    {
        let child = &root.children[i];
        proof {
            let cs = root.children@;
            assert(cs.skip(i as int)[0] == cs[i as int]);
            assert(cs.skip(i as int).drop_first() =~= cs.skip(i + 1));
        }
        let ghost before = out@;
        if crate::strutil::string_is(&child.kind, "function_definition") {
            if child.children.len() >= 1 {
                let ids = &child.children[0];
                let name = crate::query::span_text_exec(
                    source,
                    &index,
                    child.start.row,
                    ids.start.column,
                    ids.end.column,
                );
                match name {
                    Some(name) => {
                        let label = name.concat("()");
                        let detail = String::from_str("defined function
from: ").concat(
                            local_name,
                        );
                        let item = CandidateItem {
                            label,
                            detail,
                            line: child.start.row,
                            kind: CandidateKind::Function,
                        };
                        let ghost iv = item@;
                        out.push(item);
                        proof {
                            assert(views_of(out@) =~= views_of(before).push(iv));
                            assert(views_of(before).push(iv) =~= views_of(before) + seq![iv]);
                        }
                    },
                    None => {
                        proof {
                            assert(views_of(out@) =~= views_of(before)
                                + Seq::<CandidateView>::empty());
                        }
                    },
                }
            } else {
                proof {
                    assert(views_of(out@) =~= views_of(before) + Seq::<CandidateView>::empty());
                }
            }
        } else {
            proof {
                assert(views_of(out@) =~= views_of(before) + Seq::<CandidateView>::empty());
            }
        }
        proof {
            let cs = root.children@;
            assert(views_of(out@) + spec_top_level(cs.skip(i + 1), s, local_name@)
                =~= views_of(before) + spec_top_level(cs.skip(i as int), s, local_name@));
        }
        i = i + 1;
    }
    proof {
        assert(root.children@.skip(count as int) =~= Seq::<SyntaxNode>::empty());
        assert(views_of(out@) =~= views_of(out@) + Seq::<CandidateView>::empty());
    }
    out
}

/// The set of file names already scanned during include collection; it
/// guards against include cycles through mutually or self-including files.
pub struct VisitedSet {
    items: Vec<String>,
}

impl VisitedSet {
    /// The names this set holds.
    pub closed spec fn spec_set(self) -> Set<Seq<char>> {
        Set::new(|x: Seq<char>| exists|i: int| 0 <= i < self.items@.len() && self.items@[i]@ == x)
    }

    pub fn new() -> (r: VisitedSet)
        ensures
            r.spec_set() == Set::<Seq<char>>::empty(),
    {
        let r = VisitedSet { items: Vec::new() };
        proof {
            assert(r.spec_set() =~= Set::<Seq<char>>::empty());
        }
        r
    }

    /// Whether a name was already recorded.
    pub fn contains(&self, name: &str) -> (r: bool)
        ensures
            r == self.spec_set().contains(name@),
    {
        let n = self.items.len();
        let mut i: usize = 0;
        while i < n
            invariant
                n == self.items@.len(),
                i <= n,
                forall|k: int| 0 <= k < i ==> self.items@[k]@ != name@,
            decreases n - i,
        {
            if crate::strutil::str_eq(self.items[i].as_str(), name) {
                return true;
            }
            i = i + 1;
        }
        false
    }

    /// Records a name.
    pub fn insert(&mut self, name: String)
        ensures
            final(self).spec_set() == old(self).spec_set().insert(name@),
    {
        let ghost nv = name@;
        let ghost before = self.items@;
        self.items.push(name);
        proof {
            let a = old(self).spec_set().insert(nv);
            let b = self.spec_set();
            assert(self.items@ =~= before.push(name));
            assert forall|x: Seq<char>| b.contains(x) implies a.contains(x) by {
                let i = choose|i: int|
                    0 <= i < self.items@.len() && self.items@[i]@ == x;
                if i < self.items@.len() - 1 {
                    assert(old(self).items@[i]@ == x);
                }
            }
            assert forall|x: Seq<char>| a.contains(x) implies b.contains(x) by {
                if x == nv {
                    assert(self.items@[self.items@.len() - 1]@ == x);
                } else {
                    let i = choose|i: int|
                        0 <= i < old(self).items@.len() && old(self).items@[i]@ == x;
                    assert(self.items@[i]@ == x);
                }
            }
            assert(a =~= b);
        }
    }
}


/// The completion response for a cursor position: the position is first
/// classified against the tree, then the definitions visible before the
/// cursor are collected; an empty collection yields no response.
pub fn get_completion(
    source: &str,
    location: Position,
    root: &SyntaxNode,
    local_name: &str,
) -> (r: Option<Vec<CandidateItem>>)
    ensures
        ({
            let items = spec_collect_node(
                *root,
                source@,
                spec_cursor_of(Some(location)),
                local_name@,
            );
            match r {
                Some(v) => views_of(v@) == items && items.len() > 0,
                None => items.len() == 0,
            }
        }),
{
    let pos_type = crate::query::get_pos_type(
        location,
        root,
        source,
        crate::query::PositionType::NotFind,
    );
    get_nested_completion(root, source, local_name, pos_type, Some(location))
}

} // verus!
