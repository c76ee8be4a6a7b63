//! Cutting a text into pieces at a separator, and into lines.

use crate::encoding::{
    encoded_len, lemma_encode_injective, lemma_encode_push, lemma_prefix_is_boundary,
    lemma_prefix_len_monotonic, lemma_subrange_bytes, utf8_len,
};
use crate::parse::InSlice;
use crate::text::{field_end, lemma_field_end};
use vstd::prelude::*;
use vstd::std_specs::iter::IteratorSpec;

verus! {

/// The characters of `line` from index `start` up to index `end`, cut out by
/// a span that covers their bytes.
pub(crate) fn cut<'a>(
    accum: &InSlice,
    line: &'a str,
    Ghost(start): Ghost<int>,
    Ghost(end): Ghost<int>,
) -> (res: &'a str)
    requires
        0 <= start <= end <= line@.len(),
        accum.lbound == utf8_len(line@.take(start)),
        accum.bytes == utf8_len(line@.subrange(start, end)),
    ensures
        res@ == line@.subrange(start, end),
{
    proof {
        lemma_prefix_len_monotonic(line@, start, end);
        lemma_prefix_is_boundary(line@, start);
        lemma_prefix_is_boundary(line@, end);
        lemma_subrange_bytes(line@, start, end);
    }
    let res = accum.compute_slice(line);
    proof {
        lemma_encode_injective(res@, line@.subrange(start, end));
    }
    res
}

/// The views of a list of strings, in order.
pub open spec fn str_views(pieces: Seq<&str>) -> Seq<Seq<char>> {
    Seq::new(pieces.len(), |i: int| pieces[i]@)
}

/// The pieces of `s` that lie between the occurrences of `sep`: one more
/// than there are separators, so at least one.
pub open spec fn split_on(s: Seq<char>, sep: char) -> Seq<Seq<char>>
    decreases s.len(),
{
    let k = field_end(s, sep);
    if 0 <= k < s.len() {
        seq![s.take(k)] + split_on(s.skip(k + 1), sep)
    } else {
        seq![s]
    }
}

/// Cuts `s` at every occurrence of `sep`.
pub fn split_str<'a>(s: &'a str, sep: char) -> (res: Vec<&'a str>)
    ensures
        str_views(res@) == split_on(s@, sep),
{
    broadcast use {vstd::string::axiom_spec_iter, vstd::string::next_postcondition};

    // Every byte count below stays within the encoded length of the text.
    encoded_len(s);
    let mut res: Vec<&str> = Vec::new();
    let mut cursor: usize = 0;
    let mut piece = InSlice::new(0);
    let mut chars = s.chars();
    let ghost mut i: int = 0;
    let ghost mut start: int = 0;
    proof {
        assert(s@.take(0) =~= Seq::<char>::empty());
        assert(s@.subrange(0, 0) =~= Seq::<char>::empty());
        assert(s@.skip(0) =~= s@);
        assert(str_views(res@) + split_on(s@.skip(0), sep) =~= split_on(s@, sep));
    }
    loop
        invariant
            utf8_len(s@) <= usize::MAX,
            0 <= start <= i <= s@.len(),
            chars.remaining() == s@.skip(i),
            cursor == utf8_len(s@.take(i)),
            piece.lbound == utf8_len(s@.take(start)),
            piece.bytes == utf8_len(s@.subrange(start, i)),
            forall|j: int| start <= j < i ==> s@[j] != sep,
            str_views(res@) + split_on(s@.skip(start), sep) == split_on(s@, sep),
        ensures
            i == s@.len(),
        decreases s@.len() - i,
    {
        let c = match chars.next() {
            Some(c) => c,
            None => {
                break ;
            },
        };
        let width = c.len_utf8();
        proof {
            assert(c == s@[i]);
            assert(s@.skip(i).drop_first() =~= s@.skip(i + 1));
            assert(s@.take(i + 1) =~= s@.take(i).push(c));
            lemma_encode_push(s@.take(i), c);
            lemma_prefix_len_monotonic(s@, 0, i + 1);
            lemma_prefix_len_monotonic(s@, start, i + 1);
            assert(s@.subrange(start, i + 1) =~= s@.subrange(start, i).push(c));
            lemma_encode_push(s@.subrange(start, i), c);
            assert(s@.subrange(i + 1, i + 1) =~= Seq::<char>::empty());
        }
        if c == sep {
            let part = cut(&piece, s, Ghost(start), Ghost(i));
            proof {
                let tail = s@.skip(start);
                assert forall|j: int| 0 <= j < i - start implies tail[j] != sep by {
                    assert(tail[j] == s@[start + j]);
                }
                lemma_field_end(tail, sep, i - start);
                assert(tail.take(i - start) =~= s@.subrange(start, i));
                assert(tail.skip(i - start + 1) =~= s@.skip(i + 1));
                assert(str_views(res@.push(part)) =~= str_views(res@).push(part@));
                assert(str_views(res@).push(part@) + split_on(s@.skip(i + 1), sep) =~= str_views(
                    res@,
                ) + split_on(tail, sep));
                start = i + 1;
            }
            res.push(part);
            piece = InSlice::new(cursor + width);
        } else {
            piece.push(c);
        }
        cursor += width;
        proof {
            i = i + 1;
        }
    }
    let part = cut(&piece, s, Ghost(start), Ghost(i));
    proof {
        let tail = s@.skip(start);
        assert forall|j: int| 0 <= j < i - start implies tail[j] != sep by {
            assert(tail[j] == s@[start + j]);
        }
        lemma_field_end(tail, sep, i - start);
        assert(tail =~= s@.subrange(start, i));
        assert(str_views(res@.push(part)) =~= str_views(res@).push(part@));
        assert(str_views(res@).push(part@) =~= str_views(res@) + split_on(tail, sep));
    }
    res.push(part);
    res
}

/// `s` without the carriage return that it may end with.
pub open spec fn strip_cr(s: Seq<char>) -> Seq<char> {
    if s.len() > 0 && s.last() == '\r' {
        s.drop_last()
    } else {
        s
    }
}

/// Removes one carriage return from the end of `s`, if it ends with one.
pub fn trim_cr<'a>(s: &'a str) -> (res: &'a str)
    ensures
        res@ == strip_cr(s@),
{
    broadcast use {vstd::string::axiom_spec_iter, vstd::string::next_postcondition};

    // Every byte count below stays within the encoded length of the text.
    encoded_len(s);
    let mut cursor: usize = 0;
    let mut before_last: usize = 0;
    let mut last_is_cr = false;
    let mut chars = s.chars();
    let ghost mut i: int = 0;
    proof {
        assert(s@.take(0) =~= Seq::<char>::empty());
        assert(s@.skip(0) =~= s@);
    }
    loop
        invariant
            utf8_len(s@) <= usize::MAX,
            0 <= i <= s@.len(),
            chars.remaining() == s@.skip(i),
            cursor == utf8_len(s@.take(i)),
            i > 0 ==> before_last == utf8_len(s@.take(i - 1)),
            last_is_cr == (i > 0 && s@[i - 1] == '\r'),
        ensures
            i == s@.len(),
        decreases s@.len() - i,
    {
        let c = match chars.next() {
            Some(c) => c,
            None => {
                break ;
            },
        };
        let width = c.len_utf8();
        proof {
            assert(c == s@[i]);
            assert(s@.skip(i).drop_first() =~= s@.skip(i + 1));
            assert(s@.take(i + 1) =~= s@.take(i).push(c));
            lemma_encode_push(s@.take(i), c);
            lemma_prefix_len_monotonic(s@, 0, i + 1);
        }
        before_last = cursor;
        last_is_cr = c == '\r';
        cursor += width;
        proof {
            i = i + 1;
        }
    }
    if last_is_cr {
        let kept = InSlice { lbound: 0, bytes: before_last };
        proof {
            assert(s@.take(0) =~= Seq::<char>::empty());
            assert(s@.subrange(0, i - 1) =~= s@.take(i - 1));
            assert(s@.drop_last() =~= s@.subrange(0, i - 1));
        }
        cut(&kept, s, Ghost(0), Ghost(i - 1))
    } else {
        s
    }
}

/// The lines of a text. A line ends at a line feed; a carriage return right
/// before the line feed belongs to the line ending too. What follows the
/// last line feed is a line of its own unless it is empty.
pub open spec fn lines_of(text: Seq<char>) -> Seq<Seq<char>> {
    let pieces = split_on(text, '\n');
    let ended = Seq::new((pieces.len() - 1) as nat, |i: int| strip_cr(pieces[i]));
    if pieces.last().len() == 0 {
        ended
    } else {
        ended.push(pieces.last())
    }
}

/// Cuts a text into its lines.
pub fn split_lines<'a>(text: &'a str) -> (res: Vec<&'a str>)
    ensures
        str_views(res@) == lines_of(text@),
{
    let pieces = split_str(text, '\n');
    let ghost views = split_on(text@, '\n');
    assert(views.len() >= 1);
    assert(pieces@.len() == views.len());
    let count = pieces.len() - 1;
    let mut res: Vec<&str> = Vec::new();
    let mut k: usize = 0;
    while k < count
        invariant
            count == pieces@.len() - 1,
            str_views(pieces@) == views,
            0 <= k <= count,
            res@.len() == k,
            forall|j: int| 0 <= j < k ==> (#[trigger] res@[j])@ == strip_cr(views[j]),
        decreases count - k,
    {
        let line = trim_cr(pieces[k]);
        proof {
            assert(pieces@[k as int]@ == str_views(pieces@)[k as int]);
        }
        res.push(line);
        k += 1;
    }
    let last = pieces[count];
    proof {
        assert(last@ == str_views(pieces@)[count as int]);
    }
    if !last.is_empty() {
        res.push(last);
    }
    proof {
        assert(str_views(res@) =~= lines_of(text@));
    }
    res
}

} // verus!
