use vstd::prelude::*;

verus! {

/// Byte width of one character in its UTF-8 encoding.
pub open spec fn char_utf8_len(c: char) -> int {
    if (c as u32) < 0x80 {
        1
    } else if (c as u32) < 0x800 {
        2
    } else if (c as u32) < 0x10000 {
        3
    } else {
        4
    }
}

/// Byte length of the UTF-8 encoding of a character sequence.
pub open spec fn utf8_len(s: Seq<char>) -> int
    decreases s.len(),
{
    if s.len() == 0 {
        0
    } else {
        utf8_len(s.drop_last()) + char_utf8_len(s.last())
    }
}

proof fn lemma_utf8_len_bounds(s: Seq<char>)
    ensures
        s.len() <= utf8_len(s) <= 4 * s.len(),
    decreases s.len(),
{
    if s.len() > 0 {
        lemma_utf8_len_bounds(s.drop_last());
    }
}

proof fn lemma_utf8_len_push(s: Seq<char>, c: char)
    ensures
        utf8_len(s.push(c)) == utf8_len(s) + char_utf8_len(c),
{
    assert(s.push(c).drop_last() =~= s);
}

pub proof fn lemma_utf8_len_concat(a: Seq<char>, b: Seq<char>)
    ensures
        utf8_len(a + b) == utf8_len(a) + utf8_len(b),
    decreases b.len(),
{
    if b.len() == 0 {
        assert(a + b =~= a);
    } else {
        lemma_utf8_len_concat(a, b.drop_last());
        assert((a + b).drop_last() =~= a + b.drop_last());
        assert((a + b).last() == b.last());
    }
}

/// `utf8_len` splits over any division of the sequence into a prefix and a
/// suffix.
proof fn lemma_utf8_len_split(s: Seq<char>, k: int)
    requires
        0 <= k <= s.len(),
    ensures
        utf8_len(s) == utf8_len(s.take(k)) + utf8_len(s.skip(k)),
{
    lemma_utf8_len_concat(s.take(k), s.skip(k));
    assert(s.take(k) + s.skip(k) =~= s);
}

/// `utf8_len` agrees with the length of the UTF-8 byte encoding.
proof fn lemma_utf8_len_is_encode_len(s: Seq<char>)
    ensures
        utf8_len(s) == vstd::utf8::encode_utf8(s).len(),
    decreases s.len(),
{
    if s.len() == 0 {
    } else {
        let c = s[0];
        let rest = s.drop_first();
        lemma_utf8_len_is_encode_len(rest);
        vstd::utf8::char_is_scalar(c);
        let v = c as u32;
        if vstd::utf8::has_width_1_encoding(v) {
            assert(vstd::utf8::encode_scalar(v).len() == 1);
        } else if vstd::utf8::has_width_2_encoding(v) {
            assert(vstd::utf8::encode_scalar(v).len() == 2);
        } else if vstd::utf8::has_width_3_encoding(v) {
            assert(vstd::utf8::encode_scalar(v).len() == 3);
        } else {
            assert(vstd::utf8::has_width_4_encoding(v));
            assert(vstd::utf8::encode_scalar(v).len() == 4);
        }
        assert(vstd::utf8::encode_scalar(v).len() == char_utf8_len(c));
        lemma_utf8_len_concat(seq![c], rest);
        assert(seq![c] + rest =~= s);
        assert(seq![c].drop_last() =~= Seq::<char>::empty());
        assert(seq![c].last() == c);
        assert(utf8_len(Seq::<char>::empty()) == 0);
        assert(utf8_len(seq![c]) == char_utf8_len(c));
    }
}

/// Byte width of one character, computed from its code point.
pub fn char_byte_len(c: char) -> (r: usize)
    ensures
        r == char_utf8_len(c),
{
    let u = c as u32;
    if u < 0x80 {
        1
    } else if u < 0x800 {
        2
    } else if u < 0x10000 {
        3
    } else {
        4
    }
}

/// Byte length of the UTF-8 encoding of the first `count` characters of `text`.
pub fn utf8_prefix_len(text: &str, count: usize) -> (r: usize)
    requires
        count <= text@.len(),
    ensures
        r == utf8_len(text@.take(count as int)),
{
    let byte_vec = text.as_bytes_vec();
    let byte_len: usize = byte_vec.len();
    proof {
        lemma_utf8_len_is_encode_len(text@);
        assert(text@.take(0) =~= Seq::<char>::empty());
    }
    let mut total: usize = 0;
    let mut i: usize = 0;
    while i < count
        invariant
            i <= count <= text@.len(),
            byte_len == utf8_len(text@),
            total == utf8_len(text@.take(i as int)),
        decreases count - i,
    {
        let c = text.get_char(i);
        let w = char_byte_len(c);
        proof {
            lemma_utf8_len_push(text@.take(i as int), c);
            assert(text@.take(i as int).push(c) =~= text@.take(i + 1));
            lemma_utf8_len_split(text@, i + 1);
            lemma_utf8_len_bounds(text@.skip(i + 1));
        }
        total = total + w;
        i = i + 1;
    }
    total
}

} // verus!
