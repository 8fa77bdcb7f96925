use vstd::prelude::*;

verus! {

/// Character `i` ends a line break: it is a line feed, or a carriage return
/// that is not immediately followed by a line feed (a CR LF pair counts as one
/// break, ending at the LF).
pub open spec fn is_break_end(s: Seq<char>, i: int) -> bool {
    &&& 0 <= i < s.len()
    &&& (s[i] == '\n' || (s[i] == '\r' && !(i + 1 < s.len() && s[i + 1] == '\n')))
}

/// The character offsets, in increasing order, at which a line begins strictly
/// after position `from`: one offset `i + 1` for every break end `i >= from`.
pub open spec fn starts_from(s: Seq<char>, from: nat) -> Seq<int>
    decreases s.len() - from,
{
    if from >= s.len() {
        Seq::empty()
    } else if is_break_end(s, from as int) {
        seq![from + 1 as int] + starts_from(s, (from + 1) as nat)
    } else {
        starts_from(s, (from + 1) as nat)
    }
}

/// The character offset at which each line of `s` begins: offset 0 first,
/// then one entry per line break.
pub open spec fn line_starts(s: Seq<char>) -> Seq<int> {
    seq![0int] + starts_from(s, 0)
}

/// Number of lines of `s`: one more than the number of line breaks.
pub open spec fn spec_line_count(s: Seq<char>) -> int {
    line_starts(s).len() as int
}

pub proof fn lemma_starts_from_bounds(s: Seq<char>, from: nat)
    ensures
        forall|k: int|
            0 <= k < starts_from(s, from).len() ==> from + 1 <= #[trigger] starts_from(s, from)[k]
                <= s.len(),
        forall|i: int, j: int|
            0 <= i < j < starts_from(s, from).len() ==> starts_from(s, from)[i] < starts_from(
                s,
                from,
            )[j],
    decreases s.len() - from,
{
    if from >= s.len() {
    } else {
        lemma_starts_from_bounds(s, (from + 1) as nat);
        let tail = starts_from(s, (from + 1) as nat);
        let t = starts_from(s, from);
        if is_break_end(s, from as int) {
            assert(t =~= seq![from + 1 as int] + tail);
            assert forall|k: int| 0 <= k < t.len() implies from + 1 <= #[trigger] t[k]
                <= s.len() by {
                if k > 0 {
                    assert(t[k] == tail[k - 1]);
                }
            }
            assert forall|i: int, j: int| 0 <= i < j < t.len() implies t[i] < t[j] by {
                assert(t[j] == tail[j - 1]);
                if i > 0 {
                    assert(t[i] == tail[i - 1]);
                }
            }
        } else {
            assert(t =~= tail);
        }
    }
}

/// The line-start sequence begins at 0, stays within the text, and is
/// strictly increasing.
pub proof fn lemma_line_starts_props(s: Seq<char>)
    ensures
        line_starts(s).len() >= 1,
        line_starts(s)[0] == 0,
        forall|k: int| 0 <= k < line_starts(s).len() ==> 0 <= #[trigger] line_starts(s)[k]
            <= s.len(),
        forall|i: int, j: int|
            0 <= i < j < line_starts(s).len() ==> line_starts(s)[i] < line_starts(s)[j],
{
    lemma_starts_from_bounds(s, 0);
}

/// In a strictly increasing sequence that begins at 0, every entry is at
/// least its index.
pub proof fn lemma_line_starts_ge_index(s: Seq<char>, k: int)
    requires
        0 <= k < line_starts(s).len(),
    ensures
        line_starts(s)[k] >= k,
    decreases k,
{
    lemma_line_starts_props(s);
    if k > 0 {
        lemma_line_starts_ge_index(s, k - 1);
    }
}

/// Index of the last entry of `t` that is at most `off`, or 0 when there is
/// none.
pub open spec fn line_of_in(t: Seq<int>, off: int) -> int
    decreases t.len(),
{
    if t.len() <= 1 {
        0
    } else if t[t.len() - 1] <= off {
        t.len() - 1
    } else {
        line_of_in(t.drop_last(), off)
    }
}

/// The line on which character offset `off` of `s` falls: the greatest line
/// whose start is at most `off`.
pub open spec fn spec_line_of(s: Seq<char>, off: int) -> int {
    line_of_in(line_starts(s), off)
}

pub proof fn lemma_line_of_in_props(t: Seq<int>, off: int)
    requires
        t.len() >= 1,
        forall|i: int, j: int| 0 <= i < j < t.len() ==> t[i] < t[j],
        t[0] <= off,
    ensures
        0 <= line_of_in(t, off) < t.len(),
        t[line_of_in(t, off)] <= off,
        line_of_in(t, off) + 1 < t.len() ==> t[line_of_in(t, off) + 1] > off,
    decreases t.len(),
{
    if t.len() <= 1 {
    } else if t[t.len() - 1] <= off {
    } else {
        let u = t.drop_last();
        lemma_line_of_in_props(u, off);
        let l = line_of_in(u, off);
        assert(t[l] == u[l]);
        if l + 1 < t.len() - 1 {
            assert(t[l + 1] == u[l + 1]);
        }
    }
}

/// Any index with the "greatest start at most `off`" property is the one
/// `line_of_in` picks.
pub proof fn lemma_line_of_in_unique(t: Seq<int>, off: int, l: int)
    requires
        t.len() >= 1,
        forall|i: int, j: int| 0 <= i < j < t.len() ==> t[i] < t[j],
        0 <= l < t.len(),
        t[l] <= off,
        l + 1 < t.len() ==> t[l + 1] > off,
    ensures
        l == line_of_in(t, off),
    decreases t.len(),
{
    if t.len() <= 1 {
    } else if t[t.len() - 1] <= off {
        if l < t.len() - 1 {
            assert(t[l + 1] <= t[t.len() - 1]);
        }
    } else {
        let u = t.drop_last();
        assert(l < t.len() - 1);
        assert(u[l] == t[l]);
        if l + 1 < u.len() {
            assert(u[l + 1] == t[l + 1]);
        }
        lemma_line_of_in_unique(u, off, l);
    }
}

/// An index sequence matches the line starts of `s` entry for entry.
pub open spec fn index_matches(v: Seq<usize>, s: Seq<char>) -> bool {
    &&& v.len() == line_starts(s).len()
    &&& forall|k: int| 0 <= k < v.len() ==> v[k] as int == line_starts(s)[k]
}

/// Computes the offsets at which lines begin in `text`, each shifted by
/// `text_offset` when one is given; when `is_at_line_start` is set the result
/// opens with the base offset itself, as for a text that starts a line.
pub fn compute_line_offsets(text: &String, is_at_line_start: bool, text_offset: Option<usize>) -> (r:
    Vec<usize>)
    requires
        (match text_offset {
            Some(b) => b as int,
            None => 0,
        }) + text@.len() <= usize::MAX,
    ensures
        ({
            let base = match text_offset {
                Some(b) => b as int,
                None => 0,
            };
            let head: int = if is_at_line_start {
                1
            } else {
                0
            };
            &&& r@.len() == head + starts_from(text@, 0).len()
            &&& (is_at_line_start ==> r@[0] == base)
            &&& forall|k: int|
                head <= k < r@.len() ==> r@[k] == base + starts_from(text@, 0)[k - head]
        }),
{
    line_offsets_general(text.as_str(), is_at_line_start, text_offset)
}

/// The full line-start index of a text: entry for entry, the offsets at
/// which its lines begin.
pub fn line_offsets_str(text: &str) -> (r: Vec<usize>)
    ensures
        index_matches(r@, text@),
{
    let _n: usize = text.unicode_len();
    let v = line_offsets_general(text, true, None);
    proof {
        let s = text@;
        assert(line_starts(s) =~= seq![0int] + starts_from(s, 0));
        assert forall|k: int| 0 <= k < v@.len() implies v@[k] as int == line_starts(s)[k] by {
            if k > 0 {
                assert(v@[k] == 0 + starts_from(s, 0)[k - 1]);
            }
        }
    }
    v
}

fn line_offsets_general(text: &str, is_at_line_start: bool, text_offset: Option<usize>) -> (r:
    Vec<usize>)
    requires
        (match text_offset {
            Some(b) => b as int,
            None => 0,
        }) + text@.len() <= usize::MAX,
    ensures
        ({
            let base = match text_offset {
                Some(b) => b as int,
                None => 0,
            };
            let head: int = if is_at_line_start {
                1
            } else {
                0
            };
            &&& r@.len() == head + starts_from(text@, 0).len()
            &&& (is_at_line_start ==> r@[0] == base)
            &&& forall|k: int|
                head <= k < r@.len() ==> r@[k] == base + starts_from(text@, 0)[k - head]
        }),
{
    let ghost s = text@;
    let ghost t = starts_from(s, 0);
    let base: usize = match text_offset {
        Some(b) => b,
        None => 0,
    };
    let ghost head: int = if is_at_line_start {
        1int
    } else {
        0int
    };
    let mut result: Vec<usize> = Vec::new();
    if is_at_line_start {
        result.push(base);
    }
    proof {
        lemma_starts_from_bounds(s, 0);
    }
    let n: usize = text.unicode_len();
    let mut i: usize = 0;
    while i < n
        invariant
            n == s.len(),
            s == text@,
            t == starts_from(s, 0),
            base + n <= usize::MAX,
            head == if is_at_line_start {
                1int
            } else {
                0int
            },
            i <= n,
            result@.len() >= head,
            is_at_line_start ==> result@.len() >= 1 && result@[0] == base,
            t.len() == (result@.len() - head) + starts_from(s, i as nat).len(),
            forall|k: int|
                0 <= k < starts_from(s, i as nat).len() ==> t[(result@.len() - head) + k]
                    == #[trigger] starts_from(s, i as nat)[k],
            forall|k: int| head <= k < result@.len() ==> result@[k] == base + t[k - head],
            forall|k: int|
                0 <= k < starts_from(s, i as nat).len() ==> #[trigger] starts_from(s, i as nat)[k]
                    > i,
        decreases n - i,
    {
        let c = text.get_char(i);
        let is_brk: bool = if c == '\n' {
            true
        } else if c == '\r' {
            i + 1 == n || text.get_char(i + 1) != '\n'
        } else {
            false
        };
        proof {
            lemma_starts_from_bounds(s, (i + 1) as nat);
            assert(is_brk == is_break_end(s, i as int));
        }
        if is_brk {
            proof {
                assert(starts_from(s, i as nat) =~= seq![i + 1 as int] + starts_from(
                    s,
                    (i + 1) as nat,
                ));
                assert(starts_from(s, i as nat)[0] == i + 1);
            }
            result.push(base + i + 1);
            proof {
                assert forall|k: int| 0 <= k < starts_from(s, (i + 1) as nat).len() implies t[(
                result@.len() - head) + k] == #[trigger] starts_from(s, (i + 1) as nat)[k] by {
                    assert(starts_from(s, i as nat)[k + 1] == starts_from(s, (i + 1) as nat)[k]);
                }
            }
        } else {
            proof {
                assert(starts_from(s, i as nat) =~= starts_from(s, (i + 1) as nat));
            }
        }
        i = i + 1;
    }
    proof {
        assert(starts_from(s, n as nat) =~= Seq::<int>::empty());
    }
    result
}

} // verus!
