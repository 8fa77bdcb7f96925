use vstd::multiset::Multiset;
use vstd::prelude::*;

use crate::tree::SyntaxNode;

verus! {

/// The color classes the highlighter distinguishes; their order fixes the
/// index reported to the client, which must stay in step with the legend the
/// server advertises.
#[derive(Clone, Copy, Debug, PartialEq, Eq, Structural)]
pub enum TokenType {
    Comment,
    Keyword,
    Namespace,
    Type,
    TypeVariable,
    Constructor,
    String,
    Number,
    Special,
}

/// The index of a color class in the advertised legend.
pub open spec fn spec_token_index(t: TokenType) -> u32 {
    match t {
        TokenType::Comment => 0,
        TokenType::Keyword => 1,
        TokenType::Namespace => 2,
        TokenType::Type => 3,
        TokenType::TypeVariable => 4,
        TokenType::Constructor => 5,
        TokenType::String => 6,
        TokenType::Number => 7,
        TokenType::Special => 8,
    }
}

/// The index of a color class in the advertised legend.
pub fn token_index(t: TokenType) -> (r: u32)
    ensures
        r == spec_token_index(t),
{
    match t {
        TokenType::Comment => 0,
        TokenType::Keyword => 1,
        TokenType::Namespace => 2,
        TokenType::Type => 3,
        TokenType::TypeVariable => 4,
        TokenType::Constructor => 5,
        TokenType::String => 6,
        TokenType::Number => 7,
        TokenType::Special => 8,
    }
}

/// One highlighted token before delta encoding: where it starts, how many
/// bytes it spans, and its color class.
#[derive(Clone, Copy, Debug, PartialEq, Eq, Structural)]
pub struct TokenNode {
    pub start_line: usize,
    pub start_col: usize,
    pub token_type: TokenType,
    pub length: usize,
}

/// One wire-format token: its start as deltas from the previous token, its
/// byte length, and its color class index.
#[derive(Clone, Copy, Debug, PartialEq, Eq, Structural)]
pub struct SemanticToken {
    pub delta_line: u32,
    pub delta_start: u32,
    pub length: u32,
    pub token_type: u32,
    pub token_modifiers_bitset: u32,
}

/// Document order on token starts: line first, then column.
pub open spec fn token_le(a: TokenNode, b: TokenNode) -> bool {
    a.start_line < b.start_line || (a.start_line == b.start_line && a.start_col <= b.start_col)
}

/// Tokens are in document order.
pub open spec fn tokens_sorted(s: Seq<TokenNode>) -> bool {
    forall|i: int| 0 <= i < s.len() - 1 ==> token_le(#[trigger] s[i], s[i + 1])
}

/// All fields of every token fit the wire format's type.
pub open spec fn tokens_bounded(s: Seq<TokenNode>) -> bool {
    forall|i: int|
        0 <= i < s.len() ==> (#[trigger] s[i]).start_line <= u32::MAX && s[i].start_col
            <= u32::MAX && s[i].length <= u32::MAX
}

/// The wire token at place `i` of a sorted token list: deltas against the
/// previous token's start, or against the document start for the first.
pub open spec fn spec_delta_at(s: Seq<TokenNode>, i: int) -> SemanticToken {
    let prev_line: int = if i == 0 {
        0
    } else {
        s[i - 1].start_line as int
    };
    let prev_col: int = if i == 0 {
        0
    } else {
        s[i - 1].start_col as int
    };
    let dl = s[i].start_line - prev_line;
    SemanticToken {
        delta_line: dl as u32,
        delta_start: if dl > 0 {
            s[i].start_col as u32
        } else {
            (s[i].start_col - prev_col) as u32
        },
        length: s[i].length as u32,
        token_type: spec_token_index(s[i].token_type),
        token_modifiers_bitset: 0,
    }
}

/// Collects highlighted tokens and turns them into the wire format.
pub struct TokensBuilder {
    nodes: Vec<TokenNode>,
}

impl TokensBuilder {
    /// The tokens collected so far.
    pub closed spec fn spec_nodes(self) -> Seq<TokenNode> {
        self.nodes@
    }

    pub fn new() -> (r: TokensBuilder)
        ensures
            r.spec_nodes().len() == 0,
    {
        TokensBuilder { nodes: Vec::new() }
    }

    /// Records one token from a syntax-tree node: its start point and the
    /// byte span it covers.
    pub fn push_node(&mut self, node: &SyntaxNode, token_type: TokenType)
        requires
            node.start_byte <= node.end_byte,
        ensures
            final(self).spec_nodes() == old(self).spec_nodes().push(
                TokenNode {
                    start_line: node.start.row,
                    start_col: node.start.column,
                    token_type,
                    length: (node.end_byte - node.start_byte) as usize,
                },
            ),
    {
        let length = node.end_byte - node.start_byte;
        self.nodes.push(
            TokenNode {
                start_line: node.start.row,
                start_col: node.start.column,
                token_type,
                length,
            },
        );
    }

    /// Orders the collected tokens by document position and encodes each as
    /// deltas from its predecessor; when any token's position or length
    /// exceeds the wire format's type, nothing is encoded.
    pub fn into_tokens(self) -> (r: Option<Vec<SemanticToken>>)
        ensures
            !tokens_bounded(self.spec_nodes()) ==> r is None,
            tokens_bounded(self.spec_nodes()) ==> (r matches Some(ts) && ts@.len()
                == self.spec_nodes().len() && ({
                exists|sorted: Seq<TokenNode>|
                    {
                        &&& #[trigger] tokens_sorted(sorted)
                        &&& sorted.to_multiset() == self.spec_nodes().to_multiset()
                        &&& ts@.len() == sorted.len()
                        &&& forall|i: int| 0 <= i < sorted.len() ==> ts@[i] == spec_delta_at(
                            sorted,
                            i,
                        )
                    }
            })),
    {
        let bound: usize = u32::MAX as usize;
        let total = self.nodes.len();
        let mut j: usize = 0;
        while j < total
            invariant
                bound == u32::MAX as usize,
                total == self.nodes@.len(),
                j <= total,
                forall|k: int|
                    0 <= k < j ==> (#[trigger] self.nodes@[k]).start_line <= u32::MAX
                        && self.nodes@[k].start_col <= u32::MAX && self.nodes@[k].length
                        <= u32::MAX,
            decreases total - j,
        {
            let node = &self.nodes[j];
            if node.start_line > bound || node.start_col > bound || node.length > bound {
                proof {
                    assert(!tokens_bounded(self.spec_nodes())) by {
                        assert(!((#[trigger] self.nodes@[j as int]).start_line <= u32::MAX
                            && self.nodes@[j as int].start_col <= u32::MAX
                            && self.nodes@[j as int].length <= u32::MAX));
                    }
                }
                return None;
            }
            j = j + 1;
        }
        let sorted = sort_tokens(self.nodes);
        let ghost sv = sorted@;
        proof {
            broadcast use vstd::seq_lib::group_to_multiset_ensures;

            assert(sv.to_multiset().len() == sv.len());
            assert forall|i: int| 0 <= i < sv.len() implies (#[trigger] sv[i]).start_line
                <= u32::MAX && sv[i].start_col <= u32::MAX && sv[i].length <= u32::MAX by {
                assert(sv.to_multiset().contains(sv[i]));
                assert(self.nodes@.to_multiset().contains(sv[i]));
                assert(self.nodes@.contains(sv[i]));
                let j = choose|j: int| 0 <= j < self.nodes@.len() && self.nodes@[j] == sv[i];
                assert(self.nodes@[j].start_line <= u32::MAX);
            }
        }
        let n = sorted.len();
        let mut tokens: Vec<SemanticToken> = Vec::new();
        let mut current_line: usize = 0;
        let mut current_col: usize = 0;
        let mut i: usize = 0;
        while i < n
            invariant
                n == sv.len(),
                sv == sorted@,
                i <= n,
                tokens_sorted(sv),
                forall|k: int|
                    0 <= k < sv.len() ==> (#[trigger] sv[k]).start_line <= u32::MAX
                        && sv[k].start_col <= u32::MAX && sv[k].length <= u32::MAX,
                tokens@.len() == i,
                forall|k: int| 0 <= k < i ==> tokens@[k] == spec_delta_at(sv, k),
                current_line == if i == 0 {
                    0
                } else {
                    sv[i - 1].start_line
                },
                current_col == if i == 0 {
                    0
                } else {
                    sv[i - 1].start_col
                },
                i > 0 || (current_line == 0 && current_col == 0),
                i == 0 || current_line == sv[i - 1].start_line,
            decreases n - i,
        {
            let node = sorted[i];
            proof {
                if i > 0 {
                    assert(token_le(sv[i - 1], sv[i as int]));
                }
            }
            let delta_line_us = node.start_line - current_line;
            let delta_line: u32 = delta_line_us as u32;
            let delta_start: u32 = if delta_line > 0 {
                node.start_col as u32
            } else {
                (node.start_col - current_col) as u32
            };
            tokens.push(
                SemanticToken {
                    delta_line,
                    delta_start,
                    length: node.length as u32,
                    token_type: token_index(node.token_type),
                    token_modifiers_bitset: 0,
                },
            );
            current_line = node.start_line;
            current_col = node.start_col;
            i = i + 1;
        }
        Some(tokens)
    }
}

/// Index of a least token, by document order, in the nonempty vector.
fn min_token_index(v: &Vec<TokenNode>) -> (r: usize)
    requires
        v@.len() > 0,
    ensures
        r < v@.len(),
        forall|j: int| 0 <= j < v@.len() ==> token_le(v@[r as int], #[trigger] v@[j]),
{
    let n = v.len();
    let mut best: usize = 0;
    let mut i: usize = 1;
    while i < n
        invariant
            n == v@.len(),
            best < i <= n,
            forall|j: int| 0 <= j < i ==> token_le(v@[best as int], #[trigger] v@[j]),
        decreases n - i,
    {
        let a = v[i];
        let b = v[best];
        if a.start_line < b.start_line || (a.start_line == b.start_line && a.start_col
            < b.start_col) {
            best = i;
        }
        i = i + 1;
    }
    best
}

/// Orders tokens by document position; the result holds exactly the given
/// tokens.
fn sort_tokens(v: Vec<TokenNode>) -> (r: Vec<TokenNode>)
    ensures
        tokens_sorted(r@),
        r@.to_multiset() == v@.to_multiset(),
        r@.len() == v@.len(),
{
    broadcast use vstd::seq_lib::group_to_multiset_ensures;

    let mut src = v;
    let ghost orig = src@;
    let mut out: Vec<TokenNode> = Vec::new();
    proof {
        assert(out@.to_multiset() =~= Multiset::<TokenNode>::empty());
        assert(out@.to_multiset().add(src@.to_multiset()) =~= orig.to_multiset());
    }
    while src.len() > 0
        invariant
            out@.to_multiset().add(src@.to_multiset()) == orig.to_multiset(),
            out@.len() + src@.len() == orig.len(),
            tokens_sorted(out@),
            forall|a: int, b: int|
                0 <= a < out@.len() && 0 <= b < src@.len() ==> token_le(
                    #[trigger] out@[a],
                    #[trigger] src@[b],
                ),
        decreases src@.len(),
    {
        let k = min_token_index(&src);
        let ghost before_src = src@;
        let ghost before_out = out@;
        let x = src.remove(k);
        out.push(x);
        proof {
            before_src.to_multiset_ensures();
            before_out.to_multiset_ensures();
            assert(before_src.remove(k as int).to_multiset() =~= before_src.to_multiset().remove(
                before_src[k as int],
            ));
            assert(before_out.push(x).to_multiset() =~= before_out.to_multiset().insert(x));
            assert(out@.to_multiset().add(src@.to_multiset()) =~= orig.to_multiset());
            assert forall|i: int| 0 <= i < out@.len() - 1 implies token_le(
                #[trigger] out@[i],
                out@[i + 1],
            ) by {
                if i < before_out.len() - 1 {
                    assert(out@[i] == before_out[i]);
                    assert(out@[i + 1] == before_out[i + 1]);
                } else if i == before_out.len() - 1 && i >= 0 {
                    assert(out@[i] == before_out[i]);
                    assert(out@[i + 1] == x);
                    assert(token_le(before_out[i], before_src[k as int]));
                }
            }
            assert forall|a: int, b: int|
                0 <= a < out@.len() && 0 <= b < src@.len() implies token_le(
                #[trigger] out@[a],
                #[trigger] src@[b],
            ) by {
                let b0 = if b < k as int {
                    b
                } else {
                    b + 1
                };
                assert(src@[b] == before_src[b0]);
                if a < before_out.len() {
                    assert(out@[a] == before_out[a]);
                } else {
                    assert(out@[a] == x);
                    assert(token_le(before_src[k as int], before_src[b0]));
                }
            }
        }
    }
    proof {
        assert(src@.to_multiset() =~= Multiset::<TokenNode>::empty());
        assert(out@.to_multiset().add(Multiset::<TokenNode>::empty()) =~= out@.to_multiset());
    }
    out
}

} // verus!
