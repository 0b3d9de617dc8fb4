//! Headings in document order, and the stretch of text that belongs to each.

use crate::pattern::{capture_views, Capture, CaptureView};
use vstd::prelude::*;
use vstd::string::*;
use vstd::utf8::*;

verus! {

/// A heading command found in the text.
#[derive(Debug)]
pub struct Heading {
    /// Byte offset at which the heading command starts.
    pub start: usize,
    pub title: String,
    /// 1 for a section, 2 for a subsection.
    pub level: u8,
}

/// A heading as a mathematical value.
pub struct HeadingView {
    pub start: nat,
    pub title: Seq<char>,
    pub level: u8,
}

impl View for Heading {
    type V = HeadingView;

    open spec fn view(&self) -> HeadingView {
        HeadingView { start: self.start as nat, title: self.title@, level: self.level }
    }
}

/// The headings held by a vector, as mathematical values.
pub open spec fn heading_views(v: Seq<Heading>) -> Seq<HeadingView> {
    Seq::new(v.len(), |i: int| v[i]@)
}

/// The heading that a match of a heading command gives, if the match holds a
/// title that is not empty: it starts where the match starts.
pub open spec fn heading_from(c: CaptureView, level: u8) -> Option<HeadingView> {
    match c.group {
        Some(t) => if t.len() > 0 {
            Some(HeadingView { start: c.start, title: t, level })
        } else {
            None
        },
        None => None,
    }
}

/// The headings that the matches of a heading command give, in the order of
/// the matches. A match without a title gives none.
pub open spec fn headings_from(found: Seq<CaptureView>, level: u8) -> Seq<HeadingView>
    decreases found.len(),
{
    if found.len() == 0 {
        Seq::empty()
    } else {
        match heading_from(found.last(), level) {
            Some(h) => headings_from(found.drop_last(), level).push(h),
            None => headings_from(found.drop_last(), level),
        }
    }
}

/// Every heading that matches give has a title, the level asked for, and
/// starts where one of the matches starts.
pub proof fn lemma_headings_from(found: Seq<CaptureView>, level: u8)
    ensures
        forall|i: int|
            0 <= i < headings_from(found, level).len() ==> {
                let h = #[trigger] headings_from(found, level)[i];
                &&& h.title.len() > 0
                &&& h.level == level
                &&& exists|j: int| 0 <= j < found.len() && (#[trigger] found[j]).start == h.start
            },
    decreases found.len(),
{
    if found.len() > 0 {
        let rest = headings_from(found.drop_last(), level);
        lemma_headings_from(found.drop_last(), level);
        assert forall|i: int| 0 <= i < headings_from(found, level).len() implies {
            let h = #[trigger] headings_from(found, level)[i];
            &&& h.title.len() > 0
            &&& h.level == level
            &&& exists|j: int| 0 <= j < found.len() && (#[trigger] found[j]).start == h.start
        } by {
            let h = headings_from(found, level)[i];
            if i < rest.len() {
                assert(h == rest[i]);
                let j = choose|j: int|
                    0 <= j < found.drop_last().len() && (#[trigger] found.drop_last()[j]).start
                        == h.start;
                assert(found[j] == found.drop_last()[j]);
            } else {
                assert(found[found.len() - 1].start == h.start);
            }
        }
    }
}

/// Whether the headings stand in the order of their start offsets.
pub open spec fn sorted_by_start(s: Seq<HeadingView>) -> bool {
    forall|i: int, j: int| 0 <= i <= j < s.len() ==> s[i].start <= s[j].start
}

/// Where `h` goes in `s`: behind the last heading that does not start after it.
pub open spec fn insert_position(s: Seq<HeadingView>, h: HeadingView) -> int
    decreases s.len(),
{
    if s.len() == 0 || s.last().start <= h.start {
        s.len() as int
    } else {
        insert_position(s.drop_last(), h)
    }
}

/// The headings in the order of their start offsets; headings with the same
/// offset keep their order.
pub open spec fn sort_headings(s: Seq<HeadingView>) -> Seq<HeadingView>
    decreases s.len(),
{
    if s.len() == 0 {
        s
    } else {
        let sorted = sort_headings(s.drop_last());
        sorted.insert(insert_position(sorted, s.last()), s.last())
    }
}

/// What `insert_position` gives lies in the sequence, every heading from
/// there on starts after `h`, and the one before does not.
pub proof fn lemma_insert_position(s: Seq<HeadingView>, h: HeadingView)
    ensures
        0 <= insert_position(s, h) <= s.len(),
        forall|j: int| insert_position(s, h) <= j < s.len() ==> (#[trigger] s[j]).start > h.start,
        insert_position(s, h) > 0 ==> s[insert_position(s, h) - 1].start <= h.start,
    decreases s.len(),
{
    if s.len() == 0 || s.last().start <= h.start {
    } else {
        lemma_insert_position(s.drop_last(), h);
        let k = insert_position(s.drop_last(), h);
        assert forall|j: int| k <= j < s.len() implies (#[trigger] s[j]).start > h.start by {
            if j < s.len() - 1 {
                assert(s.drop_last()[j] == s[j]);
            }
        }
        if k > 0 {
            assert(s.drop_last()[k - 1] == s[k - 1]);
        }
    }
}

/// An index from which every heading starts after `h`, with none before it
/// doing so just in front, is the insert position.
pub proof fn lemma_insert_position_is(s: Seq<HeadingView>, h: HeadingView, k: int)
    requires
        0 <= k <= s.len(),
        forall|j: int| k <= j < s.len() ==> (#[trigger] s[j]).start > h.start,
        k > 0 ==> s[k - 1].start <= h.start,
    ensures
        insert_position(s, h) == k,
    decreases s.len(),
{
    if s.len() == 0 {
    } else if k == s.len() {
        assert(s.last() == s[k - 1]);
    } else {
        assert(s.last().start > h.start);
        assert forall|j: int| k <= j < s.drop_last().len() implies (#[trigger] s.drop_last()[
            j
        ]).start > h.start by {
            assert(s.drop_last()[j] == s[j]);
        }
        if k > 0 {
            assert(s.drop_last()[k - 1] == s[k - 1]);
        }
        lemma_insert_position_is(s.drop_last(), h, k);
    }
}

/// Sorting keeps the number of headings, puts them in the order of their
/// start offsets, and neither adds nor loses one.
pub proof fn lemma_sort_headings(s: Seq<HeadingView>)
    ensures
        sort_headings(s).len() == s.len(),
        sorted_by_start(sort_headings(s)),
        sort_headings(s).to_multiset() == s.to_multiset(),
    decreases s.len(),
{
    broadcast use vstd::seq_lib::to_multiset_build;

    if s.len() == 0 {
    } else {
        let rest = sort_headings(s.drop_last());
        let h = s.last();
        let k = insert_position(rest, h);
        lemma_sort_headings(s.drop_last());
        lemma_insert_position(rest, h);
        rest.insert_ensures(k, h);
        let r = rest.insert(k, h);
        assert forall|i: int, j: int| 0 <= i <= j < r.len() implies r[i].start <= r[j].start by {
            if j < k {
                assert(r[i] == rest[i] && r[j] == rest[j]);
            } else if j == k {
                if i < k {
                    assert(r[i] == rest[i]);
                    assert(rest[i].start <= rest[k - 1].start);
                }
            } else {
                assert(r[j] == rest[j - 1]);
                if i < k {
                    assert(r[i] == rest[i]);
                } else if i == k {
                } else {
                    assert(r[i] == rest[i - 1]);
                }
            }
        }
        assert(s == s.drop_last().push(h));
        vstd::seq_lib::to_multiset_insert(rest, k, h);
    }
}

/// What holds of every heading before sorting holds of every heading after.
pub proof fn lemma_sort_headings_keeps(s: Seq<HeadingView>, p: spec_fn(HeadingView) -> bool)
    requires
        forall|i: int| 0 <= i < s.len() ==> p(#[trigger] s[i]),
    ensures
        forall|i: int| 0 <= i < sort_headings(s).len() ==> p(#[trigger] sort_headings(s)[i]),
    decreases s.len(),
{
    if s.len() == 0 {
    } else {
        let rest = sort_headings(s.drop_last());
        let h = s.last();
        let k = insert_position(rest, h);
        assert forall|i: int| 0 <= i < s.drop_last().len() implies p(#[trigger] s.drop_last()[i]) by {
            assert(s.drop_last()[i] == s[i]);
        }
        lemma_sort_headings_keeps(s.drop_last(), p);
        lemma_sort_headings(s.drop_last());
        lemma_insert_position(rest, h);
        rest.insert_ensures(k, h);
        let r = rest.insert(k, h);
        assert forall|i: int| 0 <= i < r.len() implies p(#[trigger] r[i]) by {
            if i < k {
                assert(r[i] == rest[i]);
            } else if i == k {
            } else {
                assert(r[i] == rest[i - 1]);
            }
        }
    }
}

/// Where the text of section `i` ends: where the next heading starts, or at
/// the end of the text for the last one.
pub open spec fn section_end(headings: Seq<HeadingView>, i: int, len: nat) -> nat {
    if i + 1 < headings.len() {
        headings[i + 1].start
    } else {
        len
    }
}

/// The bytes of section `i`: from its own heading up to the next heading.
pub open spec fn section_bytes(bytes: Seq<u8>, headings: Seq<HeadingView>, i: int) -> Seq<u8> {
    bytes.subrange(headings[i].start as int, section_end(headings, i, bytes.len()) as int)
}

/// The bytes of all sections, one piece for each heading.
pub open spec fn section_pieces(bytes: Seq<u8>, headings: Seq<HeadingView>) -> Seq<Seq<u8>> {
    Seq::new(headings.len(), |i: int| section_bytes(bytes, headings, i))
}

/// The text of section `i` before cleaning.
pub open spec fn section_source(content: Seq<char>, headings: Seq<HeadingView>, i: int) -> Seq<
    char,
> {
    decode_utf8(section_bytes(encode_utf8(content), headings, i))
}

/// Whether every heading starts on a character boundary of `content`.
pub open spec fn headings_lie_within(headings: Seq<HeadingView>, content: Seq<char>) -> bool {
    forall|i: int|
        0 <= i < headings.len() ==> is_char_boundary(
            encode_utf8(content),
            (#[trigger] headings[i]).start as int,
        )
}

/// The pieces of the first `k` sections, put end to end, are the bytes from
/// the first heading up to where section `k` starts.
proof fn lemma_pieces_prefix(bytes: Seq<u8>, headings: Seq<HeadingView>, k: int)
    requires
        sorted_by_start(headings),
        0 < k <= headings.len(),
        forall|i: int| 0 <= i < headings.len() ==> (#[trigger] headings[i]).start <= bytes.len(),
    ensures
        section_pieces(bytes, headings).take(k).flatten() == bytes.subrange(
            headings[0].start as int,
            section_end(headings, k - 1, bytes.len()) as int,
        ),
    decreases k,
{
    let pieces = section_pieces(bytes, headings);
    assert(pieces.take(k) == pieces.take(k - 1).push(pieces[k - 1]));
    pieces.take(k - 1).lemma_flatten_push(pieces[k - 1]);
    if k == 1 {
        assert(pieces.take(0).flatten() == Seq::<u8>::empty());
        assert(pieces.take(0).flatten() + pieces[0] == pieces[0]);
    } else {
        lemma_pieces_prefix(bytes, headings, k - 1);
        assert(section_end(headings, k - 2, bytes.len()) == headings[k - 1].start);
        assert(headings[0].start <= headings[k - 1].start);
        assert(headings[k - 1].start <= section_end(headings, k - 1, bytes.len()));
        assert(bytes.subrange(headings[0].start as int, headings[k - 1].start as int)
            + pieces[k - 1] == bytes.subrange(
            headings[0].start as int,
            section_end(headings, k - 1, bytes.len()) as int,
        ));
    }
}

/// The sections leave no gap and share no byte: put end to end in document
/// order, their pieces are the text from the first heading to its end. What
/// stands before the first heading belongs to no section.
pub proof fn lemma_sections_tile(bytes: Seq<u8>, headings: Seq<HeadingView>)
    requires
        sorted_by_start(headings),
        headings.len() > 0,
        forall|i: int| 0 <= i < headings.len() ==> (#[trigger] headings[i]).start <= bytes.len(),
    ensures
        section_pieces(bytes, headings).flatten() == bytes.skip(headings[0].start as int),
        forall|i: int|
            0 <= i < headings.len() - 1 ==> section_end(headings, i, bytes.len())
                == (#[trigger] headings[i + 1]).start,
{
    let pieces = section_pieces(bytes, headings);
    lemma_pieces_prefix(bytes, headings, headings.len() as int);
    assert(pieces.take(headings.len() as int) == pieces);
}

/// A heading that may be absent, as a mathematical value.
pub open spec fn heading_view(h: Option<Heading>) -> Option<HeadingView> {
    match h {
        Some(h) => Some(h@),
        None => None,
    }
}

impl Heading {
    /// The heading that a match of a heading command gives.
    pub fn from_capture(c: &Capture, level: u8) -> (r: Option<Heading>)
        ensures
            heading_view(r) == heading_from(c@, level),
    {
        match &c.group {
            Some(t) => {
                if t.as_str().is_empty() {
                    None
                } else {
                    Some(Heading { start: c.start, title: t.clone(), level })
                }
            },
            None => None,
        }
    }
}

/// Appends to `out` the headings that the matches `found` give.
pub fn push_headings(out: &mut Vec<Heading>, found: &Vec<Capture>, level: u8)
    ensures
        heading_views(final(out)@) == heading_views(old(out)@) + headings_from(
            capture_views(found@),
            level,
        ),
{
    let ghost start = heading_views(out@);
    let ghost views = capture_views(found@);
    let n = found.len();
    let mut i: usize = 0;
    assert(views.take(0) == Seq::<CaptureView>::empty());
    while i < n
        invariant
            i <= n,
            n == found.len(),
            views == capture_views(found@),
            heading_views(out@) == start + headings_from(views.take(i as int), level),
        decreases n - i,
    {
        assert(views.take(i + 1).drop_last() == views.take(i as int));
        assert(views.take(i + 1).last() == found@[i as int]@);
        match Heading::from_capture(&found[i], level) {
            Some(h) => {
                let ghost before = heading_views(out@);
                out.push(h);
                assert(heading_views(out@) == before.push(h@));
            },
            None => {},
        }
        i += 1;
    }
    assert(views.take(n as int) == views);
}

/// Puts headings in the order of their start offsets; headings with the
/// same offset keep their order.
pub fn sort_by_start(headings: &Vec<Heading>) -> (r: Vec<Heading>)
    ensures
        heading_views(r@) == sort_headings(heading_views(headings@)),
{
    let ghost all = heading_views(headings@);
    let mut sorted: Vec<Heading> = Vec::new();
    let n = headings.len();
    let mut done: usize = 0;
    assert(all.take(0) == Seq::<HeadingView>::empty());
    while done < n
        invariant
            done <= n,
            n == headings.len(),
            all == heading_views(headings@),
            heading_views(sorted@) == sort_headings(all.take(done as int)),
        decreases n - done,
    {
        let h = Heading {
            start: headings[done].start,
            title: headings[done].title.clone(),
            level: headings[done].level,
        };
        assert(h@ == all[done as int]);
        let ghost before = heading_views(sorted@);
        let mut k: usize = sorted.len();
        while k > 0 && sorted[k - 1].start > h.start
            invariant
                k <= sorted.len(),
                before == heading_views(sorted@),
                forall|j: int| k <= j < sorted.len() ==> (#[trigger] before[j]).start > h@.start,
            decreases k,
        {
            k -= 1;
        }
        proof {
            if k > 0 {
                assert(before[k - 1].start <= h@.start);
            }
            lemma_insert_position_is(before, h@, k as int);
            assert(all.take(done + 1).drop_last() == all.take(done as int));
            assert(all.take(done + 1).last() == h@);
        }
        sorted.insert(k, h);
        assert(heading_views(sorted@) == before.insert(k as int, all[done as int]));
        done += 1;
    }
    assert(all.take(n as int) == all);
    sorted
}

/// The part of `content` between two byte offsets that lie on character
/// boundaries.
pub fn slice<'a>(content: &'a str, from: usize, to: usize) -> (r: &'a str)
    requires
        from <= to,
        is_char_boundary(content.spec_bytes(), from as int),
        is_char_boundary(content.spec_bytes(), to as int),
    ensures
        r.spec_bytes() == content.spec_bytes().subrange(from as int, to as int),
        r@ == decode_utf8(content.spec_bytes().subrange(from as int, to as int)),
{
    broadcast use {
        encode_utf8_valid_utf8,
        encode_utf8_decode_utf8,
        valid_utf8_split,
        is_char_boundary_start_end_of_seq,
    };

    let ghost bytes = content.spec_bytes();
    let (head, _) = content.split_at(to);
    proof {
        assert(valid_utf8(bytes));
        assert(to <= bytes.len()) by {
            if to > bytes.len() {
                assert(!is_char_boundary(bytes, to as int));
            }
        }
        assert(head.spec_bytes() == bytes.subrange(0, to as int));
        assert(valid_utf8(head.spec_bytes()));
        if from < to {
            is_char_boundary_iff_not_is_continuation_byte(bytes, from as int);
            is_char_boundary_iff_not_is_continuation_byte(head.spec_bytes(), from as int);
        } else {
            assert(head.spec_bytes().len() == to);
        }
    }
    let (_, piece) = head.split_at(from);
    assert(piece.spec_bytes() == bytes.subrange(from as int, to as int));
    piece
}

} // verus!
