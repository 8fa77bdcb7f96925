use vstd::prelude::*;

use crate::document::{
    lemma_offset_at_in_range, lemma_span_in_range, spec_apply_change, spec_point_of_offset,
    spec_span_of_range, ChangeEvent, FullTextDocument,
};
use crate::encoding::{char_utf8_len, lemma_utf8_len_concat, utf8_len};
use crate::position::{get_wellformed_range, spec_wellformed_range, Point, Range};

verus! {

/// One text change described as byte and position deltas: the span the
/// change replaced, in bytes of the UTF-8 encoding, and where the replaced
/// and the replacing text end. It is used to age a previous syntax tree
/// ahead of an incremental reparse. Positions carry character columns.
pub struct EditDescriptor {
    pub start_byte: usize,
    pub old_end_byte: usize,
    pub new_end_byte: usize,
    pub start_position: Point,
    pub old_end_position: Point,
    pub new_end_position: Point,
}

/// The descriptor correctly describes the incremental change `c` against
/// pre-change content `s`: its byte offsets measure the UTF-8 prefixes at
/// the replaced span's ends, and its positions are the canonical points of
/// those offsets, the new end taken in the post-change content.
pub open spec fn descriptor_ok(s: Seq<char>, c: ChangeEvent, rg: Range, e: EditDescriptor) -> bool {
    let (a, b) = spec_span_of_range(s, rg);
    let k = c.text@.len();
    let new = spec_apply_change(s, c);
    &&& e.start_byte == utf8_len(s.take(a))
    &&& e.old_end_byte == utf8_len(s.take(b))
    &&& e.new_end_byte == utf8_len(new.take(a + k))
    &&& e.new_end_byte == e.start_byte + utf8_len(c.text@)
    &&& e.start_position == spec_point_of_offset(s, a)
    &&& e.old_end_position == spec_point_of_offset(s, b)
    &&& e.new_end_position == spec_point_of_offset(new, a + k)
}

/// Translates an incremental change into an edit descriptor and applies the
/// change to the document: byte offsets of the replaced span come from the
/// content before the change, and the new end comes from the content after
/// it, as the new end's line and column depend on post-change line
/// boundaries. A change without a range yields no descriptor and leaves the
/// document untouched: no tree edit can describe a full replacement, so the
/// caller must reparse from scratch.
pub fn get_tree_edits(change: &ChangeEvent, document: &mut FullTextDocument, version: i64) -> (r:
    Option<EditDescriptor>)
    requires
        old(document).wf(),
        version >= old(document).spec_version(),
    ensures
        final(document).wf(),
        change.range is None ==> r is None && *final(document) == *old(document),
        change.range matches Some(rg) ==> ({
            let s = old(document)@;
            let new = spec_apply_change(s, *change);
            &&& final(document)@ == new
            &&& final(document).spec_version() == version
            &&& crate::document::keeps_identity(*old(document), *final(document))
            &&& final(document).spec_tree() == old(document).spec_tree().spec_marked_stale()
            &&& r matches Some(e)
            &&& descriptor_ok(s, *change, rg, e)
        }),
{
    match &change.range {
        Some(range) => {
            let ghost s = document@;
            let rn = get_wellformed_range(*range);
            let a = document.offset_at(rn.start);
            let b0 = document.offset_at(rn.end);
            let b = if b0 < a {
                a
            } else {
                b0
            };
            proof {
                lemma_span_in_range(s, *range);
            }
            let (start_byte, old_end_byte) = document.transform_offset_to_byte_offset(a, b);
            let start_position = document.point_of_offset(a);
            let old_end_position = document.point_of_offset(b);
            document.apply_one(change, version);
            let ghost new = document@;
            let k = change.text.as_str().unicode_len();
            proof {
                assert(new =~= s.take(a as int) + change.text@ + s.skip(b as int));
                assert(new.len() == a + k + (s.len() - b));
            }
            let total = document.get_content().unicode_len();
            proof {
                assert(total == new.len());
                assert(a + k <= total);
            }
            let new_end_char = a + k;
            let new_end_byte = crate::encoding::utf8_prefix_len(document.get_content(), new_end_char);
            let new_end_position = document.point_of_offset(new_end_char);
            proof {
                assert(new.take(a + k as int) =~= s.take(a as int) + change.text@);
                lemma_utf8_len_concat(s.take(a as int), change.text@);
            }
            Some(
                EditDescriptor {
                    start_byte,
                    old_end_byte,
                    new_end_byte,
                    start_position,
                    old_end_position,
                    new_end_position,
                },
            )
        },
        None => None,
    }
}

/// Inserting a single one-byte character at a position extends the replaced
/// span's byte end by exactly one: the descriptor's new end byte offset is
/// its old end byte offset plus one.
pub proof fn lemma_one_byte_insert_descriptor(s: Seq<char>, rg: Range, txt: Seq<char>)
    requires
        rg.start == rg.end,
        txt.len() == 1,
        char_utf8_len(txt[0]) == 1,
    ensures
        ({
            let (a, b) = spec_span_of_range(s, rg);
            let new = s.take(a) + txt + s.skip(b);
            utf8_len(new.take(a + 1)) == utf8_len(s.take(b)) + 1
        }),
{
    let (a, b) = spec_span_of_range(s, rg);
    assert(spec_wellformed_range(rg) == rg);
    assert(a == b);
    lemma_offset_at_in_range(s, rg.start);
    let new = s.take(a) + txt + s.skip(b);
    assert(new.take(a + 1) =~= s.take(a) + txt);
    lemma_utf8_len_concat(s.take(a), txt);
    assert(utf8_len(txt) == char_utf8_len(txt[0])) by {
        assert(txt.drop_last() =~= Seq::<char>::empty());
        assert(txt.last() == txt[0]);
        assert(utf8_len(Seq::<char>::empty()) == 0);
    }
}

} // verus!
