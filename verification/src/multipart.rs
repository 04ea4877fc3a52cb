//! Multipart containers: part delimiters, part headers and closing delimiters.

use vstd::prelude::*;

use crate::header::{HeaderView, MimeHeader};
use crate::stamp::random_boundary;
use crate::text::{push_crlf, push_text, text_at_most};

verus! {

// ---------------------------------------------------------------------------
// Sorted headers
// ---------------------------------------------------------------------------

/// `sorted` with `e` inserted behind the entries whose keys are not above its own.
pub open spec fn insert_entry(
    sorted: HeaderView,
    e: (Seq<char>, Seq<Seq<char>>),
) -> HeaderView
    decreases sorted.len(),
{
    if sorted.len() == 0 || crate::text::text_le(sorted.last().0, e.0) {
        sorted.push(e)
    } else {
        insert_entry(sorted.drop_last(), e).push(sorted.last())
    }
}

/// The entries of `h` in the order of their keys.
pub open spec fn sorted_entries(h: HeaderView) -> HeaderView
    decreases h.len(),
{
    if h.len() == 0 {
        Seq::empty()
    } else {
        insert_entry(sorted_entries(h.drop_last()), h.last())
    }
}

/// Where an entry goes that is behind all it is not below, and before the rest.
proof fn lemma_insert_entry(
    sorted: HeaderView,
    e: (Seq<char>, Seq<Seq<char>>),
    p: int,
)
    requires
        0 <= p <= sorted.len(),
        p > 0 ==> crate::text::text_le(sorted[p - 1].0, e.0),
        forall|q: int| p <= q < sorted.len() ==> !crate::text::text_le((#[trigger] sorted[q]).0, e.0),
    ensures
        insert_entry(sorted, e) == sorted.insert(p, e),
    decreases sorted.len(),
{
    if p == sorted.len() {
        assert(sorted.insert(p, e) == sorted.push(e));
    } else {
        let init = sorted.drop_last();
        assert forall|q: int| p <= q < init.len() implies !crate::text::text_le(
            (#[trigger] init[q]).0,
            e.0,
        ) by {
            assert(init[q] == sorted[q]);
        }
        lemma_insert_entry(init, e, p);
        assert(init.insert(p, e).push(sorted.last()) == sorted.insert(p, e));
    }
}

/// Law: the entries of a part's header are written in the order of their keys,
/// and they are the entries of the header.
pub proof fn law_sorted_entries(h: HeaderView)
    ensures
        sorted_entries(h).to_multiset() == h.to_multiset(),
        forall|i: int, j: int|
            0 <= i < j < h.len() ==> crate::text::text_le(
                (#[trigger] sorted_entries(h)[i]).0,
                (#[trigger] sorted_entries(h)[j]).0,
            ),
        sorted_entries(h).len() == h.len(),
    decreases h.len(),
{
    broadcast use vstd::seq_lib::group_to_multiset_ensures;

    if h.len() > 0 {
        let init = h.drop_last();
        law_sorted_entries(init);
        lemma_insert_keeps_order(sorted_entries(init), h.last());
        assert(init.push(h.last()) == h);
    }
}

proof fn lemma_insert_keeps_order(
    sorted: HeaderView,
    e: (Seq<char>, Seq<Seq<char>>),
)
    requires
        forall|i: int, j: int|
            0 <= i < j < sorted.len() ==> crate::text::text_le(
                (#[trigger] sorted[i]).0,
                (#[trigger] sorted[j]).0,
            ),
    ensures
        insert_entry(sorted, e).len() == sorted.len() + 1,
        insert_entry(sorted, e).to_multiset() == sorted.to_multiset().insert(e),
        forall|i: int, j: int|
            0 <= i < j <= sorted.len() ==> crate::text::text_le(
                (#[trigger] insert_entry(sorted, e)[i]).0,
                (#[trigger] insert_entry(sorted, e)[j]).0,
            ),
        forall|i: int|
            0 <= i <= sorted.len() ==> (#[trigger] insert_entry(sorted, e)[i]) == e || exists|k: int|
                0 <= k < sorted.len() && insert_entry(sorted, e)[i] == #[trigger] sorted[k],
    decreases sorted.len(),
{
    broadcast use vstd::seq_lib::group_to_multiset_ensures;

    let r = insert_entry(sorted, e);
    if sorted.len() == 0 {
    } else if crate::text::text_le(sorted.last().0, e.0) {
        assert forall|i: int, j: int| 0 <= i < j <= sorted.len() implies crate::text::text_le(
            (#[trigger] r[i]).0,
            (#[trigger] r[j]).0,
        ) by {
            if j == sorted.len() {
                if i < sorted.len() - 1 {
                    assert(crate::text::text_le(sorted[i].0, sorted[sorted.len() - 1].0));
                    crate::text::lemma_bytes_le_transitive(
                        crate::text::utf8(sorted[i].0),
                        crate::text::utf8(sorted.last().0),
                        crate::text::utf8(e.0),
                    );
                }
            } else {
                assert(r[i] == sorted[i] && r[j] == sorted[j]);
            }
        }
        assert forall|i: int| 0 <= i <= sorted.len() implies (#[trigger] r[i]) == e || exists|k: int|
            0 <= k < sorted.len() && r[i] == #[trigger] sorted[k] by {
            if i < sorted.len() {
                assert(r[i] == sorted[i]);
            }
        }
    } else {
        let init = sorted.drop_last();
        let last = sorted.last();
        let below = insert_entry(init, e);
        assert forall|i: int, j: int| 0 <= i < j < init.len() implies crate::text::text_le(
            (#[trigger] init[i]).0,
            (#[trigger] init[j]).0,
        ) by {
            assert(init[i] == sorted[i] && init[j] == sorted[j]);
        }
        lemma_insert_keeps_order(init, e);
        crate::text::lemma_bytes_le_total(crate::text::utf8(last.0), crate::text::utf8(e.0));
        assert(init.push(last) == sorted);
        assert(r.to_multiset() == below.to_multiset().insert(last));
        assert(sorted.to_multiset() == init.to_multiset().insert(last));
        assert(r.to_multiset() =~= sorted.to_multiset().insert(e));
        assert forall|i: int| 0 <= i <= sorted.len() implies (#[trigger] r[i]) == e || exists|k: int|
            0 <= k < sorted.len() && r[i] == #[trigger] sorted[k] by {
            if i < below.len() {
                assert(r[i] == below[i]);
                if below[i] != e {
                    let k = choose|k: int| 0 <= k < init.len() && below[i] == #[trigger] init[k];
                    assert(init[k] == sorted[k]);
                }
            } else {
                assert(r[i] == sorted[sorted.len() - 1]);
            }
        }
        assert forall|i: int, j: int| 0 <= i < j <= sorted.len() implies crate::text::text_le(
            (#[trigger] r[i]).0,
            (#[trigger] r[j]).0,
        ) by {
            if j < below.len() {
                assert(r[i] == below[i] && r[j] == below[j]);
            } else {
                assert(r[i] == below[i] && r[j] == last);
                if below[i] != e {
                    let k = choose|k: int| 0 <= k < init.len() && below[i] == #[trigger] init[k];
                    assert(init[k] == sorted[k]);
                    assert(crate::text::text_le(sorted[k].0, sorted[sorted.len() - 1].0));
                }
            }
        }
    }
}

/// The indices of the entries of `entries` in the order of their keys.
fn sorted_order(entries: &[(String, Vec<String>)]) -> (r: Vec<usize>)
    ensures
        r@.len() == entries@.len(),
        forall|i: int| 0 <= i < r@.len() ==> (#[trigger] r@[i]) < entries@.len(),
        r@.map_values(|k: usize| entries.deep_view()[k as int]) == sorted_entries(
            entries.deep_view(),
        ),
{
    let ghost h = entries.deep_view();
    let ghost at = |k: usize| h[k as int];
    let mut order: Vec<usize> = Vec::new();
    let mut i: usize = 0;
    assert(order@.map_values(at) == sorted_entries(h.take(0)));
    while i < entries.len()
        invariant
            i <= entries@.len(),
            h == entries.deep_view(),
            at == (|k: usize| h[k as int]),
            order@.len() == i,
            forall|j: int| 0 <= j < order@.len() ==> (#[trigger] order@[j]) < entries@.len(),
            order@.map_values(at) == sorted_entries(h.take(i as int)),
        decreases entries@.len() - i,
    {
        let ghost sorted = order@.map_values(at);
        let mut p: usize = order.len();
        while p > 0 && !text_at_most(entries[order[p - 1]].0.as_str(), entries[i].0.as_str())
            invariant
                p <= order@.len(),
                i < entries@.len(),
                h == entries.deep_view(),
                at == (|k: usize| h[k as int]),
                sorted == order@.map_values(at),
                forall|j: int| 0 <= j < order@.len() ==> (#[trigger] order@[j]) < entries@.len(),
                forall|q: int|
                    p <= q < sorted.len() ==> !crate::text::text_le(
                        (#[trigger] sorted[q]).0,
                        h[i as int].0,
                    ),
            decreases p,
        {
            p -= 1;
            assert(sorted[p as int] == h[order@[p as int] as int]);
        }
        proof {
            if p > 0 {
                assert(sorted[p - 1] == h[order@[p - 1] as int]);
            }
            lemma_insert_entry(sorted, h[i as int], p as int);
            assert(h.take(i + 1).drop_last() == h.take(i as int));
            assert(h.take(i + 1).last() == h[i as int]);
        }
        let ghost before = order@;
        order.insert(p, i);
        assert(order@.map_values(at) == sorted.insert(p as int, h[i as int]));
        assert forall|j: int| 0 <= j < order@.len() implies (#[trigger] order@[j])
            < entries@.len() by {
            if j < p {
                assert(order@[j] == before[j]);
            } else if j > p {
                assert(order@[j] == before[j - 1]);
            }
        }
        i += 1;
    }
    assert(h.take(i as int) == h);
    order
}

// ---------------------------------------------------------------------------
// Parts
// ---------------------------------------------------------------------------

/// The header lines of one field, one for each value.
pub open spec fn field_lines(field: Seq<char>, vals: Seq<Seq<char>>) -> Seq<u8>
    decreases vals.len(),
{
    if vals.len() == 0 {
        Seq::empty()
    } else {
        field_lines(field, vals.drop_last()) + crate::text::utf8(field) + crate::text::utf8(": "@)
            + crate::text::utf8(vals.last()) + crate::text::crlf()
    }
}

/// The header lines of a part, its entries in the given order.
pub open spec fn part_lines(entries: HeaderView) -> Seq<u8>
    decreases entries.len(),
{
    if entries.len() == 0 {
        Seq::empty()
    } else {
        part_lines(entries.drop_last()) + field_lines(entries.last().0, entries.last().1)
    }
}

/// The delimiter line before a part. The first one of a container starts at the
/// start of a line; any other ends the line of the part before it.
pub open spec fn delimiter(boundary: Seq<char>, first: bool) -> Seq<u8> {
    (if first {
        Seq::empty()
    } else {
        crate::text::crlf()
    }) + crate::text::utf8("--"@) + crate::text::utf8(boundary) + crate::text::crlf()
}

/// All that comes before the body of a part: its delimiter, its header with the
/// keys in order, and an empty line.
pub open spec fn part_head(
    boundary: Seq<char>,
    first: bool,
    header: HeaderView,
) -> Seq<u8> {
    delimiter(boundary, first) + part_lines(sorted_entries(header)) + crate::text::crlf()
}

/// The closing delimiter of a container.
pub open spec fn closing(boundary: Seq<char>) -> Seq<u8> {
    crate::text::crlf() + crate::text::utf8("--"@) + crate::text::utf8(boundary)
        + crate::text::utf8("--"@) + crate::text::crlf()
}

/// Appends the header lines of one field.
fn push_field(buf: &mut Vec<u8>, field: &str, vals: &[String])
    ensures
        final(buf)@ == old(buf)@ + field_lines(field@, vals.deep_view()),
{
    let ghost all = vals.deep_view();
    let mut i: usize = 0;
    assert(buf@ == old(buf)@ + field_lines(field@, all.take(0)));
    while i < vals.len()
        invariant
            i <= vals@.len(),
            all == vals.deep_view(),
            buf@ == old(buf)@ + field_lines(field@, all.take(i as int)),
        decreases vals@.len() - i,
    {
        assert(all.take(i + 1).drop_last() == all.take(i as int));
        assert(all.take(i + 1).last() == vals@[i as int]@);
        push_text(buf, field);
        push_text(buf, ": ");
        push_text(buf, vals[i].as_str());
        push_crlf(buf);
        i += 1;
        assert(buf@ == old(buf)@ + field_lines(field@, all.take(i as int)));
    }
    assert(all.take(i as int) == all);
}

/// A minimal multipart writer. Because all writers of a message share a single
/// output buffer, the buffer is passed to each method rather than owned by the
/// writer.
pub struct MultipartWriter {
    boundary: String,
    first: bool,
}

impl MultipartWriter {
    /// The boundary of the container.
    pub closed spec fn delim(&self) -> Seq<char> {
        self.boundary@
    }

    /// Whether no part has been written yet.
    pub closed spec fn at_first(&self) -> bool {
        self.first
    }

    /// A writer with a fresh boundary.
    pub fn new() -> (r: Self)
        ensures
            crate::stamp::is_drawn_boundary(r.delim()),
            crate::stamp::is_boundary(r.delim()),
            r.at_first(),
    {
        MultipartWriter { boundary: random_boundary(), first: true }
    }

    /// A writer with the given boundary.
    pub fn with_boundary(boundary: &str) -> (r: Self)
        ensures
            r.delim() == boundary@,
            r.at_first(),
    {
        MultipartWriter { boundary: boundary.to_string(), first: true }
    }

    /// The boundary of the container.
    pub fn boundary(&self) -> (r: &str)
        ensures
            r@ == self.delim(),
    {
        self.boundary.as_str()
    }

    /// Writes a part delimiter and the given header, its fields in sorted key
    /// order.
    pub fn create_part(&mut self, buf: &mut Vec<u8>, header: &MimeHeader)
        ensures
            final(buf)@ == old(buf)@ + part_head(old(self).delim(), old(self).at_first(), header@),
            final(self).delim() == old(self).delim(),
            !final(self).at_first(),
    {
        let ghost start = buf@;
        if !self.first {
            push_crlf(buf);
        }
        push_text(buf, "--");
        push_text(buf, self.boundary.as_str());
        push_crlf(buf);
        assert(buf@ == start + delimiter(self.delim(), self.at_first()));
        self.first = false;
        let entries = header.entries();
        let order = sorted_order(entries);
        let ghost h = header@;
        let ghost sorted = sorted_entries(h);
        let ghost head = buf@;
        let mut i: usize = 0;
        assert(buf@ == head + part_lines(sorted.take(0)));
        while i < order.len()
            invariant
                i <= order@.len(),
                entries.deep_view() == h,
                sorted.len() == order@.len(),
                order@.len() == entries@.len(),
                forall|j: int| 0 <= j < order@.len() ==> (#[trigger] order@[j]) < entries@.len(),
                forall|j: int|
                    0 <= j < order@.len() ==> sorted[j] == h[(#[trigger] order@[j]) as int],
                buf@ == head + part_lines(sorted.take(i as int)),
            decreases order@.len() - i,
        {
            let k = order[i];
            assert(sorted.take(i + 1).drop_last() == sorted.take(i as int));
            assert(sorted.take(i + 1).last() == h[k as int]);
            assert(h[k as int] == entries@[k as int].deep_view());
            let vals = entries[k].1.as_slice();
            assert(vals.deep_view() == entries@[k as int].1.deep_view());
            push_field(buf, entries[k].0.as_str(), vals);
            i += 1;
            assert(buf@ == head + part_lines(sorted.take(i as int)));
        }
        assert(sorted.take(i as int) == sorted);
        push_crlf(buf);
        assert(buf@ == start + part_head(old(self).delim(), old(self).at_first(), h));
    }

    /// Writes the closing delimiter.
    pub fn close(&mut self, buf: &mut Vec<u8>)
        ensures
            final(buf)@ == old(buf)@ + closing(old(self).delim()),
            *final(self) == *old(self),
    {
        push_crlf(buf);
        push_text(buf, "--");
        push_text(buf, self.boundary.as_str());
        push_text(buf, "--");
        push_crlf(buf);
        assert(buf@ == old(buf)@ + closing(self.delim()));
    }
}

} // verus!
