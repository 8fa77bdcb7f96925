use vstd::prelude::*;

verus! {

/// Whether two string slices hold the same characters.
pub fn str_eq(a: &str, b: &str) -> (r: bool)
    ensures
        r == (a@ == b@),
{
    let sa = a.to_owned();
    let sb = b.to_owned();
    sa == sb
}

/// Whether a node kind or other owned string equals the given literal.
pub fn string_is(a: &String, b: &str) -> (r: bool)
    ensures
        r == (a@ == b@),
{
    str_eq(a.as_str(), b)
}

/// First index at which character `c` occurs in `s`, or -1 when it does
/// not occur.
pub open spec fn spec_find_char(s: Seq<char>, c: char) -> int
    decreases s.len(),
{
    if s.len() == 0 {
        -1
    } else if s[0] == c {
        0
    } else {
        let r = spec_find_char(s.drop_first(), c);
        if r == -1 {
            -1
        } else {
            1 + r
        }
    }
}

/// `spec_find_char` finds exactly the first occurrence.
proof fn lemma_find_char_at(s: Seq<char>, c: char, i: int)
    requires
        0 <= i < s.len(),
        s[i] == c,
        forall|j: int| 0 <= j < i ==> s[j] != c,
    ensures
        spec_find_char(s, c) == i,
    decreases i,
{
    if i == 0 {
    } else {
        assert(s[0] != c);
        assert forall|j: int| 0 <= j < i - 1 implies s.drop_first()[j] != c by {
            assert(s.drop_first()[j] == s[j + 1]);
        }
        assert(s.drop_first()[i - 1] == s[i]);
        lemma_find_char_at(s.drop_first(), c, i - 1);
    }
}

/// When `c` occurs nowhere in `s`, `spec_find_char` reports no occurrence.
proof fn lemma_find_char_none(s: Seq<char>, c: char)
    requires
        forall|j: int| 0 <= j < s.len() ==> s[j] != c,
    ensures
        spec_find_char(s, c) == -1,
    decreases s.len(),
{
    if s.len() > 0 {
        assert forall|j: int| 0 <= j < s.len() - 1 implies s.drop_first()[j] != c by {
            assert(s.drop_first()[j] == s[j + 1]);
        }
        lemma_find_char_none(s.drop_first(), c);
    }
}

/// The fields of `s` between occurrences of `c`: splitting at every
/// occurrence, with empty fields kept.
pub open spec fn spec_split(s: Seq<char>, c: char) -> Seq<Seq<char>>
    decreases s.len(),
{
    let i = spec_find_char(s, c);
    if 0 <= i < s.len() {
        seq![s.take(i)] + spec_split(s.skip(i + 1), c)
    } else {
        seq![s]
    }
}

/// The sequence of character strings a vector of strings holds.
pub open spec fn spec_str_views(v: Seq<String>) -> Seq<Seq<char>> {
    v.map_values(|x: String| x@)
}

/// Splits `s` at every occurrence of `c`, empty fields kept.
pub fn split_char(s: &str, c: char) -> (r: Vec<String>)
    ensures
        spec_str_views(r@) == spec_split(s@, c),
{
    let ghost sv = s@;
    let n = s.unicode_len();
    let mut out: Vec<String> = Vec::new();
    let mut pos: usize = 0;
    let mut i: usize = 0;
    proof {
        assert(sv.skip(0) =~= sv);
        assert(spec_str_views(out@) =~= Seq::<Seq<char>>::empty());
    }
    while i < n
        invariant
            n == sv.len(),
            sv == s@,
            pos <= i <= n,
            spec_split(sv, c) == spec_str_views(out@) + spec_split(sv.skip(pos as int), c),
            forall|j: int| pos <= j < i ==> sv[j] != c,
        decreases n - i,
    {
        let ch = s.get_char(i);
        if ch == c {
            let ghost tail = sv.skip(pos as int);
            proof {
                assert forall|j: int| 0 <= j < i - pos implies tail[j] != c by {
                    assert(tail[j] == sv[pos + j]);
                }
                assert(tail[i - pos] == sv[i as int]);
                lemma_find_char_at(tail, c, i - pos);
                assert(tail.take(i - pos) =~= sv.subrange(pos as int, i as int));
                assert(tail.skip(i - pos + 1) =~= sv.skip(i + 1));
            }
            let field = s.substring_char(pos, i).to_owned();
            let ghost before = out@;
            out.push(field);
            proof {
                assert(spec_str_views(out@) =~= spec_str_views(before).push(
                    sv.subrange(pos as int, i as int),
                ));
                assert(spec_str_views(before).push(sv.subrange(pos as int, i as int))
                    =~= spec_str_views(before) + seq![sv.subrange(pos as int, i as int)]);
            }
            pos = i + 1;
        }
        i = i + 1;
    }
    let ghost tail = sv.skip(pos as int);
    proof {
        assert forall|j: int| 0 <= j < tail.len() implies tail[j] != c by {
            assert(tail[j] == sv[pos + j]);
        }
        lemma_find_char_none(tail, c);
    }
    let field = s.substring_char(pos, n).to_owned();
    let ghost before = out@;
    out.push(field);
    proof {
        assert(tail =~= sv.subrange(pos as int, n as int));
        assert(spec_str_views(out@) =~= spec_str_views(before).push(tail));
        assert(spec_str_views(before).push(tail) =~= spec_str_views(before) + seq![tail]);
        assert(spec_split(sv.skip(pos as int), c) =~= seq![tail]);
    }
    out
}

/// A blank character, as trimming removes.
pub open spec fn is_space(c: char) -> bool {
    c == ' ' || c == '\t' || c == '\r' || c == '\n'
}

/// `s` without leading blanks.
pub open spec fn spec_trim_start(s: Seq<char>) -> Seq<char>
    decreases s.len(),
{
    if s.len() > 0 && is_space(s[0]) {
        spec_trim_start(s.drop_first())
    } else {
        s
    }
}

/// `s` without trailing blanks.
pub open spec fn spec_trim_end(s: Seq<char>) -> Seq<char>
    decreases s.len(),
{
    if s.len() > 0 && is_space(s.last()) {
        spec_trim_end(s.drop_last())
    } else {
        s
    }
}

/// `s` without leading and trailing blanks.
pub open spec fn spec_trim(s: Seq<char>) -> Seq<char> {
    spec_trim_end(spec_trim_start(s))
}

proof fn lemma_trim_start_skip(s: Seq<char>, a: int)
    requires
        0 <= a <= s.len(),
        forall|j: int| 0 <= j < a ==> is_space(s[j]),
        a < s.len() ==> !is_space(s[a]),
    ensures
        spec_trim_start(s) == s.skip(a),
    decreases a,
{
    if a == 0 {
        assert(s.skip(0) =~= s);
    } else {
        assert(is_space(s[0]));
        let t = s.drop_first();
        assert forall|j: int| 0 <= j < a - 1 implies is_space(t[j]) by {
            assert(t[j] == s[j + 1]);
        }
        if a - 1 < t.len() {
            assert(t[a - 1] == s[a as int]);
        }
        lemma_trim_start_skip(t, a - 1);
        assert(t.skip(a - 1) =~= s.skip(a));
    }
}

proof fn lemma_trim_end_take(s: Seq<char>, b: int)
    requires
        0 <= b <= s.len(),
        forall|j: int| b <= j < s.len() ==> is_space(s[j]),
        b > 0 ==> !is_space(s[b - 1]),
    ensures
        spec_trim_end(s) == s.take(b),
    decreases s.len() - b,
{
    if b == s.len() {
        assert(s.take(b) =~= s);
    } else {
        assert(is_space(s.last()));
        let t = s.drop_last();
        assert forall|j: int| b <= j < t.len() implies is_space(t[j]) by {
            assert(t[j] == s[j]);
        }
        if b > 0 {
            assert(t[b - 1] == s[b - 1]);
        }
        lemma_trim_end_take(t, b);
        assert(t.take(b) =~= s.take(b));
    }
}

/// Index of the first character that is not blank.
fn first_non_space(s: &str) -> (a: usize)
    ensures
        a <= s@.len(),
        forall|j: int| 0 <= j < a ==> is_space(s@[j]),
        a < s@.len() ==> !is_space(s@[a as int]),
{
    let n = s.unicode_len();
    let mut a: usize = 0;
    while a < n
        invariant
            n == s@.len(),
            a <= n,
            forall|j: int| 0 <= j < a ==> is_space(s@[j]),
        decreases n - a,
    {
        let c = s.get_char(a);
        if !(c == ' ' || c == '\t' || c == '\r' || c == '\n') {
            return a;
        }
        a = a + 1;
    }
    a
}

/// One past the index of the last character at or after `a` that is not
/// blank, or `a` when all of them are.
fn last_non_space_from(s: &str, a: usize) -> (b: usize)
    requires
        a <= s@.len(),
    ensures
        a <= b <= s@.len(),
        forall|j: int| b <= j < s@.len() ==> is_space(s@[j]),
        b > a ==> !is_space(s@[b - 1]),
{
    let n = s.unicode_len();
    let mut b: usize = n;
    while b > a
        invariant
            n == s@.len(),
            a <= b <= n,
            forall|j: int| b <= j < n ==> is_space(s@[j]),
        decreases b,
    {
        let c = s.get_char(b - 1);
        if !(c == ' ' || c == '\t' || c == '\r' || c == '\n') {
            return b;
        }
        b = b - 1;
    }
    b
}

/// Removes leading and trailing blanks.
pub fn trim(s: &str) -> (r: String)
    ensures
        r@ == spec_trim(s@),
{
    let ghost sv = s@;
    let a = first_non_space(s);
    let b = last_non_space_from(s, a);
    proof {
        lemma_trim_start_skip(sv, a as int);
        let t = sv.skip(a as int);
        assert forall|j: int| b - a <= j < t.len() implies is_space(t[j]) by {
            assert(t[j] == sv[a + j]);
        }
        if b > a {
            assert(t[b - a - 1] == sv[b - 1]);
        }
        lemma_trim_end_take(t, b - a);
        assert(t.take(b - a) =~= sv.subrange(a as int, b as int));
    }
    s.substring_char(a, b).to_owned()
}

/// A decimal digit.
pub open spec fn is_digit(c: char) -> bool {
    '0' <= c && c <= '9'
}

/// The value of one decimal digit.
pub open spec fn digit_val(c: char) -> int {
    (c as u32) as int - 48
}

/// The number a string of decimal digits denotes.
pub open spec fn spec_dec_val(s: Seq<char>) -> int
    decreases s.len(),
{
    if s.len() == 0 {
        0
    } else {
        spec_dec_val(s.drop_last()) * 10 + digit_val(s.last())
    }
}

/// All characters are decimal digits.
pub open spec fn all_digits(s: Seq<char>) -> bool {
    forall|j: int| 0 <= j < s.len() ==> is_digit(s[j])
}

proof fn lemma_dec_val_nonneg(s: Seq<char>)
    requires
        all_digits(s),
    ensures
        spec_dec_val(s) >= 0,
    decreases s.len(),
{
    if s.len() > 0 {
        assert forall|j: int| 0 <= j < s.len() - 1 implies is_digit(s.drop_last()[j]) by {
            assert(s.drop_last()[j] == s[j]);
        }
        lemma_dec_val_nonneg(s.drop_last());
        assert(is_digit(s.last()));
    }
}

proof fn lemma_dec_val_prefix_le(s: Seq<char>, k: int)
    requires
        all_digits(s),
        0 <= k <= s.len(),
    ensures
        spec_dec_val(s.take(k)) <= spec_dec_val(s),
    decreases s.len() - k,
{
    if k == s.len() {
        assert(s.take(k) =~= s);
    } else {
        lemma_dec_val_prefix_le(s, k + 1);
        let t = s.take(k + 1);
        assert(t.drop_last() =~= s.take(k));
        assert(t.last() == s[k]);
        assert(is_digit(s[k]));
        assert forall|j: int| 0 <= j < k implies is_digit(s.take(k)[j]) by {
            assert(s.take(k)[j] == s[j]);
        }
        lemma_dec_val_nonneg(s.take(k));
    }
}

/// Reads a decimal number: the value of the digits, when the string is a
/// nonempty run of digits whose value is representable; nothing otherwise.
pub fn parse_usize(s: &str) -> (r: Option<usize>)
    ensures
        match r {
            Some(v) => s@.len() > 0 && all_digits(s@) && v == spec_dec_val(s@),
            None => s@.len() == 0 || !all_digits(s@) || spec_dec_val(s@) > usize::MAX,
        },
{
    let ghost sv = s@;
    let n = s.unicode_len();
    if n == 0 {
        return None;
    }
    let mut val: usize = 0;
    let mut i: usize = 0;
    proof {
        assert(sv.take(0) =~= Seq::<char>::empty());
    }
    while i < n
        invariant
            sv == s@,
            n == sv.len(),
            i <= n,
            forall|j: int| 0 <= j < i ==> is_digit(sv[j]),
            val == spec_dec_val(sv.take(i as int)),
        decreases n - i,
    {
        let c = s.get_char(i);
        if !(c >= '0' && c <= '9') {
            return None;
        }
        let d: usize = ((c as u32) - 48) as usize;
        proof {
            assert(sv.take(i + 1).drop_last() =~= sv.take(i as int));
            assert(sv.take(i + 1).last() == sv[i as int]);
        }
        if val > (usize::MAX - d) / 10 {
            proof {
                assert forall|j: int| 0 <= j < i + 1 implies is_digit(#[trigger] sv.take(i + 1)[j]) by {
                    assert(sv.take(i + 1)[j] == sv[j]);
                }
                assert(spec_dec_val(sv.take(i + 1)) == val * 10 + d);
                if all_digits(sv) {
                    lemma_dec_val_prefix_le(sv, i + 1);
                }
            }
            return None;
        }
        val = val * 10 + d;
        i = i + 1;
    }
    proof {
        assert(sv.take(n as int) =~= sv);
    }
    Some(val)
}

/// First index at which `sub` occurs in `s` as a contiguous run, or -1 when
/// it occurs nowhere.
pub open spec fn spec_find_sub(s: Seq<char>, sub: Seq<char>) -> int
    decreases s.len(),
{
    if sub.len() > s.len() {
        -1
    } else if s.take(sub.len() as int) == sub {
        0
    } else if s.len() == 0 {
        -1
    } else {
        let r = spec_find_sub(s.drop_first(), sub);
        if r == -1 {
            -1
        } else {
            1 + r
        }
    }
}

/// Whether `sub` occurs in `s`.
pub open spec fn spec_contains(s: Seq<char>, sub: Seq<char>) -> bool {
    spec_find_sub(s, sub) >= 0
}

/// A found occurrence lies within the string.
proof fn lemma_find_sub_in_range(s: Seq<char>, sub: Seq<char>)
    ensures
        spec_find_sub(s, sub) >= 0 ==> spec_find_sub(s, sub) + sub.len() <= s.len(),
    decreases s.len(),
{
    if sub.len() > s.len() {
    } else if s.take(sub.len() as int) == sub {
    } else if s.len() == 0 {
    } else {
        lemma_find_sub_in_range(s.drop_first(), sub);
    }
}

proof fn lemma_find_sub_at(s: Seq<char>, sub: Seq<char>, i: int)
    requires
        0 <= i,
        i + sub.len() <= s.len(),
        s.subrange(i, i + sub.len()) == sub,
        forall|j: int| 0 <= j < i ==> #[trigger] s.subrange(j, j + sub.len()) != sub,
    ensures
        spec_find_sub(s, sub) == i,
    decreases i,
{
    assert(s.take(sub.len() as int) =~= s.subrange(0, sub.len() as int));
    if i == 0 {
    } else {
        assert(s.subrange(0, 0 + sub.len() as int) != sub);
        assert(s.subrange(0, 0 + sub.len() as int) =~= s.subrange(0, sub.len() as int));
        assert(s.subrange(0, sub.len() as int) != sub);
        assert(s.len() > 0);
        let t = s.drop_first();
        assert(t.subrange(i - 1, i - 1 + sub.len()) =~= s.subrange(i, i + sub.len()));
        assert forall|j: int| 0 <= j < i - 1 implies #[trigger] t.subrange(j, j + sub.len())
            != sub by {
            assert(t.subrange(j, j + sub.len()) =~= s.subrange(j + 1, j + 1 + sub.len()));
            assert(s.subrange(j + 1, j + 1 + sub.len()) != sub);
        }
        lemma_find_sub_at(t, sub, i - 1);
    }
}

proof fn lemma_find_sub_none(s: Seq<char>, sub: Seq<char>)
    requires
        forall|j: int| 0 <= j && j + sub.len() <= s.len() ==> #[trigger] s.subrange(
            j,
            j + sub.len(),
        ) != sub,
    ensures
        spec_find_sub(s, sub) == -1,
    decreases s.len(),
{
    if sub.len() > s.len() {
    } else {
        assert(s.take(sub.len() as int) =~= s.subrange(0, sub.len() as int));
        assert(s.subrange(0, 0 + sub.len() as int) != sub);
        assert(s.subrange(0, 0 + sub.len() as int) =~= s.subrange(0, sub.len() as int));
        assert(s.subrange(0, sub.len() as int) != sub);
        if s.len() == 0 {
        } else {
            let t = s.drop_first();
            assert forall|j: int| 0 <= j && j + sub.len() <= t.len() implies #[trigger] t.subrange(
                j,
                j + sub.len(),
            ) != sub by {
                assert(t.subrange(j, j + sub.len()) =~= s.subrange(j + 1, j + 1 + sub.len()));
                assert(s.subrange(j + 1, j + 1 + sub.len()) != sub);
            }
            lemma_find_sub_none(t, sub);
        }
    }
}

/// Whether the run of `sub` begins at index `i` of `s`.
fn matches_at(s: &str, sub: &str, i: usize) -> (r: bool)
    requires
        i + sub@.len() <= s@.len(),
    ensures
        r == (s@.subrange(i as int, i as int + sub@.len() as int) == sub@),
{
    let ghost sv = s@;
    let ghost bv = sub@;
    let sn = s.unicode_len();
    let m = sub.unicode_len();
    let mut j: usize = 0;
    while j < m
        invariant
            sv == s@,
            bv == sub@,
            m == bv.len(),
            sn == sv.len(),
            i + m <= sv.len(),
            j <= m,
            forall|k: int| 0 <= k < j ==> sv[i + k] == bv[k],
        decreases m - j,
    {
        let cs = s.get_char(i + j);
        let cb = sub.get_char(j);
        if cs != cb {
            proof {
                let piece = sv.subrange(i as int, i as int + m as int);
                assert(piece[j as int] == sv[i + j]);
                assert(bv[j as int] == cb);
                assert(piece != bv);
            }
            return false;
        }
        j = j + 1;
    }
    proof {
        assert(sv.subrange(i as int, i as int + m as int) =~= bv);
    }
    true
}

/// First index at which `sub` occurs in `s`, or nothing when it occurs
/// nowhere.
pub fn find_sub(s: &str, sub: &str) -> (r: Option<usize>)
    ensures
        match r {
            Some(i) => spec_find_sub(s@, sub@) == i as int,
            None => spec_find_sub(s@, sub@) == -1,
        },
{
    let ghost sv = s@;
    let ghost bv = sub@;
    let n = s.unicode_len();
    let m = sub.unicode_len();
    if m > n {
        proof {
            lemma_find_sub_none(sv, bv);
        }
        return None;
    }
    if m == 0 {
        proof {
            assert(sv.take(0) =~= bv);
        }
        return Some(0);
    }
    let mut i: usize = 0;
    while i <= n - m
        invariant
            sv == s@,
            bv == sub@,
            n == sv.len(),
            m == bv.len(),
            1 <= m <= n,
            i <= n - m + 1,
            forall|j: int| 0 <= j < i ==> #[trigger] sv.subrange(j, j + bv.len()) != bv,
        decreases n - m + 1 - i,
    {
        if matches_at(s, sub, i) {
            proof {
                lemma_find_sub_at(sv, bv, i as int);
            }
            return Some(i);
        }
        i = i + 1;
    }
    proof {
        assert forall|j: int| 0 <= j && j + bv.len() <= sv.len() implies #[trigger] sv.subrange(
            j,
            j + bv.len(),
        ) != bv by {
            assert(j < i);
        }
        lemma_find_sub_none(sv, bv);
    }
    None
}

/// Whether `sub` occurs anywhere in `s`.
pub fn str_contains(s: &str, sub: &str) -> (r: bool)
    ensures
        r == spec_contains(s@, sub@),
{
    find_sub(s, sub).is_some()
}

/// The text after the first occurrence of `sub` in `s`, when one exists.
pub fn after_first(s: &str, sub: &str) -> (r: Option<String>)
    ensures
        match r {
            Some(t) => spec_find_sub(s@, sub@) >= 0 && t@ == s@.skip(
                spec_find_sub(s@, sub@) + sub@.len(),
            ),
            None => spec_find_sub(s@, sub@) == -1,
        },
{
    let n = s.unicode_len();
    match find_sub(s, sub) {
        Some(i) => {
            let m = sub.unicode_len();
            proof {
                lemma_find_sub_in_range(s@, sub@);
            }
            proof {
                assert(s@.subrange(i + m as int, n as int) =~= s@.skip(i + m as int));
            }
            Some(s.substring_char(i + m, n).to_owned())
        },
        None => None,
    }
}


/// The character of one decimal digit value.
pub open spec fn digit_char(d: int) -> char {
    if d == 0 {
        '0'
    } else if d == 1 {
        '1'
    } else if d == 2 {
        '2'
    } else if d == 3 {
        '3'
    } else if d == 4 {
        '4'
    } else if d == 5 {
        '5'
    } else if d == 6 {
        '6'
    } else if d == 7 {
        '7'
    } else if d == 8 {
        '8'
    } else {
        '9'
    }
}

/// The decimal digits of a number, most significant first.
pub open spec fn spec_dec_digits(n: int) -> Seq<char>
    decreases n,
{
    if n < 10 {
        seq![digit_char(n)]
    } else {
        spec_dec_digits(n / 10).push(digit_char(n % 10))
    }
}

/// The text of one decimal digit value.
fn digit_str(d: usize) -> (r: &'static str)
    requires
        d < 10,
    ensures
        r@ == seq![digit_char(d as int)],
{
    if d == 0 {
        proof {
            reveal_strlit("0");
            assert("0"@ =~= seq![digit_char(0)]);
        }
        "0"
    } else if d == 1 {
        proof {
            reveal_strlit("1");
            assert("1"@ =~= seq![digit_char(1)]);
        }
        "1"
    } else if d == 2 {
        proof {
            reveal_strlit("2");
            assert("2"@ =~= seq![digit_char(2)]);
        }
        "2"
    } else if d == 3 {
        proof {
            reveal_strlit("3");
            assert("3"@ =~= seq![digit_char(3)]);
        }
        "3"
    } else if d == 4 {
        proof {
            reveal_strlit("4");
            assert("4"@ =~= seq![digit_char(4)]);
        }
        "4"
    } else if d == 5 {
        proof {
            reveal_strlit("5");
            assert("5"@ =~= seq![digit_char(5)]);
        }
        "5"
    } else if d == 6 {
        proof {
            reveal_strlit("6");
            assert("6"@ =~= seq![digit_char(6)]);
        }
        "6"
    } else if d == 7 {
        proof {
            reveal_strlit("7");
            assert("7"@ =~= seq![digit_char(7)]);
        }
        "7"
    } else if d == 8 {
        proof {
            reveal_strlit("8");
            assert("8"@ =~= seq![digit_char(8)]);
        }
        "8"
    } else {
        proof {
            reveal_strlit("9");
            assert("9"@ =~= seq![digit_char(9)]);
        }
        "9"
    }
}

/// Writes a number in decimal.
pub fn usize_to_string(n: usize) -> (r: String)
    ensures
        r@ == spec_dec_digits(n as int),
    decreases n,
{
    if n < 10 {
        digit_str(n).to_owned()
    } else {
        let mut s = usize_to_string(n / 10);
        s.append(digit_str(n % 10));
        proof {
            assert(s@ =~= spec_dec_digits(n as int / 10).push(digit_char(n as int % 10)));
        }
        s
    }
}

} // verus!
