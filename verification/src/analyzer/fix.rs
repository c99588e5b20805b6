//! The fix engine: merges the text edits that rules propose for one file and
//! produces the patched text.

use vstd::prelude::*;
use vstd::slice::slice_subrange;
use vstd::string::StringSliceAdditionalSpecFns;
use crate::analyzer::text::{line_break, line_break_at, push_all, rfind_byte_below, to_vec};

verus! {

/// A single in-file edit returned by a fixable rule: the bytes from `start`
/// up to, not including, `end` are replaced by `replacement`.
#[derive(Debug, Clone)]
pub struct TextEdit {
    pub start: usize,
    pub end: usize,
    pub replacement: Vec<u8>,
}

impl TextEdit {
    /// An edit is well formed when its range is not reversed.
    pub open spec fn wf(&self) -> bool {
        self.start <= self.end
    }

    pub fn new(start: usize, end: usize, replacement: &str) -> (edit: Self)
        requires
            start <= end,
        ensures
            edit.start == start,
            edit.end == end,
            edit.replacement@ == replacement.spec_bytes(),
            edit.wf(),
    {
        TextEdit { start, end, replacement: to_vec(replacement.as_bytes()) }
    }

    /// A copy of this edit.
    pub fn duplicate(&self) -> (edit: Self)
        ensures
            edit.start == self.start,
            edit.end == self.end,
            edit.replacement@ == self.replacement@,
    {
        TextEdit {
            start: self.start,
            end: self.end,
            replacement: to_vec(self.replacement.as_slice()),
        }
    }
}

/// The mathematical value of a [`TextEdit`].
pub ghost struct Edit {
    pub start: usize,
    pub end: usize,
    pub replacement: Seq<u8>,
}

impl View for TextEdit {
    type V = Edit;

    open spec fn view(&self) -> Edit {
        Edit { start: self.start, end: self.end, replacement: self.replacement@ }
    }
}

/// The values of a list of edits.
pub open spec fn edits_of(list: Seq<TextEdit>) -> Seq<Edit> {
    Seq::new(list.len(), |i: int| list[i]@)
}

/// Pushing an edit appends its value.
pub proof fn lemma_edits_push(list: Seq<TextEdit>, e: TextEdit)
    ensures
        edits_of(list.push(e)) == edits_of(list).push(e@),
{
    assert(edits_of(list.push(e)) =~= edits_of(list).push(e@));
}

/// The order in which edits are applied: by start offset, then by end offset.
/// `a` may stay ahead of `b` when this holds.
pub open spec fn sorts_before(a: TextEdit, b: TextEdit) -> bool {
    a.start < b.start || (a.start == b.start && a.end <= b.end)
}

/// Whether `edits` is ordered by `(start, end)`.
pub open spec fn is_sorted(edits: Seq<TextEdit>) -> bool {
    forall|i: int, j: int| 0 <= i < j < edits.len() ==> sorts_before(edits[i], edits[j])
}

/// `sorted` with `edit` placed behind every element that does not sort
/// strictly after it.
pub open spec fn insert_edit(sorted: Seq<TextEdit>, edit: TextEdit) -> Seq<TextEdit>
    decreases sorted.len(),
{
    if sorted.len() == 0 {
        seq![edit]
    } else if sorts_before(sorted.last(), edit) {
        sorted.push(edit)
    } else {
        insert_edit(sorted.drop_last(), edit).push(sorted.last())
    }
}

/// `edits` in application order. Edits with the same range keep the order in
/// which they were given.
pub open spec fn sort_edits(edits: Seq<TextEdit>) -> Seq<TextEdit>
    decreases edits.len(),
{
    if edits.len() == 0 {
        Seq::empty()
    } else {
        insert_edit(sort_edits(edits.drop_last()), edits.last())
    }
}

/// Whether the ordered edits can be applied one after the other from
/// `cursor` on: each is well formed, lies inside the source, and starts no
/// earlier than the end of the one before it.
pub open spec fn applicable_from(len: int, ordered: Seq<TextEdit>, cursor: int) -> bool
    decreases ordered.len(),
{
    if ordered.len() == 0 {
        cursor <= len
    } else {
        &&& cursor <= ordered[0].start
        &&& ordered[0].start <= ordered[0].end
        &&& ordered[0].end <= len
        &&& applicable_from(len, ordered.drop_first(), ordered[0].end as int)
    }
}

/// The text that results from applying the ordered edits from `cursor` on:
/// the untouched source up to each edit, then its replacement, and at last
/// the rest of the source.
pub open spec fn apply_from(source: Seq<u8>, ordered: Seq<TextEdit>, cursor: int) -> Seq<u8>
    decreases ordered.len(),
{
    if ordered.len() == 0 {
        source.subrange(cursor, source.len() as int)
    } else {
        source.subrange(cursor, ordered[0].start as int) + ordered[0].replacement@ + apply_from(
            source,
            ordered.drop_first(),
            ordered[0].end as int,
        )
    }
}

/// Whether `edits` can be applied to `source` without one reaching into
/// another.
pub open spec fn edits_applicable(source: Seq<u8>, edits: Seq<TextEdit>) -> bool {
    applicable_from(source.len() as int, sort_edits(edits), 0)
}

/// The patched text.
pub open spec fn patched(source: Seq<u8>, edits: Seq<TextEdit>) -> Seq<u8> {
    apply_from(source, sort_edits(edits), 0)
}

/// The start of the line that holds offset `idx`.
pub open spec fn line_start_of(source: Seq<u8>, idx: int) -> int {
    let at = if idx < source.len() {
        idx
    } else {
        source.len() as int
    };
    match rfind_byte_below(source, 10, at) {
        Some(pos) => pos + 1,
        None => 0,
    }
}

/// The end of the line that holds offset `idx`, its line feed included.
pub open spec fn line_end_of(source: Seq<u8>, idx: int) -> int {
    let at = if idx < source.len() {
        idx
    } else {
        source.len() as int
    };
    let stop = line_break(source, at);
    if stop < source.len() {
        stop + 1
    } else {
        source.len() as int
    }
}

/// Inserting keeps the elements and adds one.
pub proof fn lemma_insert_edit_len(sorted: Seq<TextEdit>, edit: TextEdit)
    ensures
        insert_edit(sorted, edit).len() == sorted.len() + 1,
    decreases sorted.len(),
{
    if sorted.len() > 0 && !sorts_before(sorted.last(), edit) {
        lemma_insert_edit_len(sorted.drop_last(), edit);
    }
}

/// Where `insert_edit` puts the new element: at `p`, when everything from
/// `p` on sorts strictly after it and the element before `p` does not.
pub proof fn lemma_insert_edit_at(sorted: Seq<TextEdit>, edit: TextEdit, p: int)
    requires
        0 <= p <= sorted.len(),
        forall|k: int| p <= k < sorted.len() ==> !sorts_before(sorted[k], edit),
        p > 0 ==> sorts_before(sorted[p - 1], edit),
    ensures
        insert_edit(sorted, edit) == sorted.insert(p, edit),
    decreases sorted.len() - p,
{
    if sorted.len() == 0 {
        assert(sorted.insert(p, edit) =~= seq![edit]);
    } else if p == sorted.len() {
        assert(sorted.insert(p, edit) =~= sorted.push(edit));
    } else {
        let front = sorted.drop_last();
        lemma_insert_edit_at(front, edit, p);
        assert(front.insert(p, edit).push(sorted.last()) =~= sorted.insert(p, edit));
    }
}

/// Inserting into an ordered sequence leaves it ordered.
pub proof fn lemma_insert_edit_sorted(sorted: Seq<TextEdit>, edit: TextEdit)
    requires
        is_sorted(sorted),
    ensures
        is_sorted(insert_edit(sorted, edit)),
        insert_edit(sorted, edit).to_multiset() == sorted.to_multiset().insert(edit),
    decreases sorted.len(),
{
    broadcast use vstd::seq_lib::group_to_multiset_ensures;

    if sorted.len() == 0 {
        assert(sorted =~= Seq::empty());
        assert(seq![edit] =~= Seq::<TextEdit>::empty().push(edit));
    } else if sorts_before(sorted.last(), edit) {
        let r = sorted.push(edit);
        assert forall|i: int, j: int| 0 <= i < j < r.len() implies sorts_before(r[i], r[j]) by {
            if j == sorted.len() && i < sorted.len() - 1 {
                assert(sorts_before(sorted[i], sorted.last()));
            }
        }
    } else {
        let front = sorted.drop_last();
        assert(is_sorted(front));
        lemma_insert_edit_sorted(front, edit);
        lemma_insert_edit_len(front, edit);
        let mid = insert_edit(front, edit);
        let r = mid.push(sorted.last());
        assert(sorted =~= front.push(sorted.last()));
        assert forall|i: int| 0 <= i < mid.len() implies sorts_before(
            #[trigger] mid[i],
            sorted.last(),
        ) by {
            assert(mid.to_multiset().count(mid[i]) > 0);
            if mid[i] != edit {
                assert(front.to_multiset().count(mid[i]) > 0);
                assert(front.contains(mid[i]));
                let k = choose|k: int| 0 <= k < front.len() && front[k] == mid[i];
                assert(sorts_before(sorted[k], sorted[sorted.len() - 1]));
            }
        }
        assert forall|i: int, j: int| 0 <= i < j < r.len() implies sorts_before(r[i], r[j]) by {
            if j == mid.len() {
                assert(sorts_before(mid[i], sorted.last()));
            } else {
                assert(sorts_before(mid[i], mid[j]));
            }
        }
        assert(r.to_multiset() =~= sorted.to_multiset().insert(edit));
    }
}

/// The application order is ordered by `(start, end)` and holds exactly the
/// edits that were given.
pub proof fn lemma_sort_edits_sorted(edits: Seq<TextEdit>)
    ensures
        is_sorted(sort_edits(edits)),
        sort_edits(edits).to_multiset() == edits.to_multiset(),
    decreases edits.len(),
{
    broadcast use vstd::seq_lib::group_to_multiset_ensures;

    if edits.len() == 0 {
        assert(edits =~= Seq::empty());
    } else {
        lemma_sort_edits_sorted(edits.drop_last());
        lemma_insert_edit_sorted(sort_edits(edits.drop_last()), edits.last());
        assert(edits =~= edits.drop_last().push(edits.last()));
    }
}

/// With no edits the patched text is the source itself.
pub proof fn lemma_no_edits_is_identity(source: Seq<u8>)
    ensures
        edits_applicable(source, Seq::empty()),
        patched(source, Seq::empty()) == source,
{
    assert(source.subrange(0, source.len() as int) =~= source);
}

/// Whether `a` may stay ahead of `b` in application order.
fn edit_sorts_before(a: &TextEdit, b: &TextEdit) -> (r: bool)
    ensures
        r == sorts_before(*a, *b),
{
    a.start < b.start || (a.start == b.start && a.end <= b.end)
}

/// The edits that `order` selects from `edits`, in that order.
pub open spec fn select(edits: Seq<TextEdit>, order: Seq<usize>) -> Seq<TextEdit> {
    Seq::new(order.len(), |k: int| edits[order[k] as int])
}

/// Computes the application order of `edits` as a list of indices into it.
fn application_order(edits: &[TextEdit]) -> (order: Vec<usize>)
    ensures
        order@.len() == edits@.len(),
        forall|k: int| 0 <= k < order@.len() ==> order@[k] < edits@.len(),
        select(edits@, order@) == sort_edits(edits@),
{
    let mut order: Vec<usize> = Vec::new();
    let mut n: usize = 0;
    proof {
        assert(edits@.subrange(0, 0) =~= Seq::empty());
        assert(select(edits@, order@) =~= sort_edits(edits@.subrange(0, 0)));
    }
    while n < edits.len()
        invariant
            n <= edits.len(),
            order@.len() == n,
            forall|k: int| 0 <= k < order@.len() ==> order@[k] < edits@.len(),
            select(edits@, order@) == sort_edits(edits@.subrange(0, n as int)),
        decreases edits.len() - n,
    {
        let ghost before = select(edits@, order@);
        let mut p: usize = order.len();
        while p > 0 && !edit_sorts_before(&edits[order[p - 1]], &edits[n])
            invariant
                p <= order@.len(),
                n < edits.len(),
                forall|k: int| 0 <= k < order@.len() ==> order@[k] < edits@.len(),
                before == select(edits@, order@),
                forall|k: int| p <= k < order@.len() ==> !sorts_before(before[k], edits@[n as int]),
            decreases p,
        {
            p -= 1;
        }
        proof {
            lemma_insert_edit_at(before, edits@[n as int], p as int);
        }
        order.insert(p, n);
        proof {
            let next = edits@.subrange(0, n + 1);
            assert(next.drop_last() =~= edits@.subrange(0, n as int));
            assert(next.last() == edits@[n as int]);
            assert(select(edits@, order@) =~= before.insert(p as int, edits@[n as int]));
        }
        n += 1;
    }
    proof {
        assert(edits@.subrange(0, edits@.len() as int) =~= edits@);
    }
    order
}

/// Applies `edits` to `source` and returns the patched text, or `None` when
/// an edit is reversed, reaches past the end of the source, or starts inside
/// the range of an edit that is applied before it.
pub fn try_apply_text_edits(source: &str, edits: &[TextEdit]) -> (r: Option<Vec<u8>>)
    ensures
        r.is_some() == edits_applicable(source.spec_bytes(), edits@),
        r.is_some() ==> r.unwrap()@ == patched(source.spec_bytes(), edits@),
{
    try_apply_edits(source.as_bytes(), edits)
}

/// Applies `edits` to the text `bytes`, or gives `None` when they cannot be
/// applied.
pub fn try_apply_edits(bytes: &[u8], edits: &[TextEdit]) -> (r: Option<Vec<u8>>)
    ensures
        r.is_some() == edits_applicable(bytes@, edits@),
        r.is_some() ==> r.unwrap()@ == patched(bytes@, edits@),
{
    let order = application_order(edits);
    let ghost ordered = sort_edits(edits@);
    let mut out: Vec<u8> = Vec::new();
    let mut cursor: usize = 0;
    let mut k: usize = 0;
    proof {
        assert(ordered.subrange(0, ordered.len() as int) =~= ordered);
    }
    while k < order.len()
        invariant
            k <= order@.len(),
            order@.len() == edits@.len(),
            forall|j: int| 0 <= j < order@.len() ==> order@[j] < edits@.len(),
            select(edits@, order@) == ordered,
            ordered == sort_edits(edits@),
            cursor <= bytes@.len(),
            applicable_from(bytes@.len() as int, ordered, 0) == applicable_from(
                bytes@.len() as int,
                ordered.subrange(k as int, ordered.len() as int),
                cursor as int,
            ),
            apply_from(bytes@, ordered, 0) == out@ + apply_from(
                bytes@,
                ordered.subrange(k as int, ordered.len() as int),
                cursor as int,
            ),
        decreases order@.len() - k,
    {
        let edit = &edits[order[k]];
        let ghost rest = ordered.subrange(k as int, ordered.len() as int);
        proof {
            assert(rest[0] == *edit);
            assert(rest.drop_first() =~= ordered.subrange(k + 1, ordered.len() as int));
        }
        if cursor > edit.start || edit.start > edit.end || edit.end > bytes.len() {
            return None;
        }
        push_all(&mut out, slice_subrange(bytes, cursor, edit.start));
        push_all(&mut out, edit.replacement.as_slice());
        proof {
            let piece = bytes@.subrange(cursor as int, edit.start as int) + edit.replacement@;
            let tail = apply_from(bytes@, rest.drop_first(), edit.end as int);
            assert(out@ + tail =~= (out@.subrange(0, out@.len() - piece.len()) + (piece + tail)));
        }
        cursor = edit.end;
        k += 1;
    }
    proof {
        assert(ordered.subrange(k as int, ordered.len() as int) =~= Seq::empty());
    }
    push_all(&mut out, slice_subrange(bytes, cursor, bytes.len()));
    Some(out)
}

/// Applies a sequence of edits to `source` and returns the updated text.
/// Edits that reach into one another are a defect of the rule that made
/// them; callers rule them out.
pub fn apply_text_edits(source: &str, edits: &[TextEdit]) -> (r: Vec<u8>)
    requires
        edits_applicable(source.spec_bytes(), edits@),
    ensures
        r@ == patched(source.spec_bytes(), edits@),
        edits@.len() == 0 ==> r@ == source.spec_bytes(),
{
    proof {
        if edits@.len() == 0 {
            assert(edits@ =~= Seq::empty());
            lemma_no_edits_is_identity(source.spec_bytes());
        }
    }
    match try_apply_text_edits(source, edits) {
        Some(out) => out,
        None => Vec::new(),
    }
}

/// The start of the line that holds offset `idx`.
pub fn line_start(source: &str, idx: usize) -> (r: usize)
    ensures
        r == line_start_of(source.spec_bytes(), idx as int),
        r <= source.spec_bytes().len(),
        r <= idx,
{
    line_start_in(source.as_bytes(), idx)
}

/// The start of the line that holds offset `idx` of `bytes`.
pub fn line_start_in(bytes: &[u8], idx: usize) -> (r: usize)
    ensures
        r == line_start_of(bytes@, idx as int),
        r <= bytes@.len(),
        r <= idx,
{
    let at: usize = if idx < bytes.len() {
        idx
    } else {
        bytes.len()
    };
    let mut j: usize = at;
    while j > 0
        invariant
            j <= at <= bytes@.len(),
            at <= idx,
            at == idx || at == bytes@.len(),
            rfind_byte_below(bytes@, 10, at as int) == rfind_byte_below(bytes@, 10, j as int),
        decreases j,
    {
        if bytes[j - 1] == 10 {
            assert(rfind_byte_below(bytes@, 10, j as int) == Some(j - 1));
            return j;
        }
        j -= 1;
    }
    0
}

/// The end of the line that holds offset `idx`, its line feed included.
pub fn line_end(source: &str, idx: usize) -> (r: usize)
    ensures
        r == line_end_of(source.spec_bytes(), idx as int),
        r <= source.spec_bytes().len(),
{
    line_end_in(source.as_bytes(), idx)
}

/// The end of the line that holds offset `idx` of `bytes`, its line feed
/// included.
pub fn line_end_in(bytes: &[u8], idx: usize) -> (r: usize)
    ensures
        r == line_end_of(bytes@, idx as int),
        r <= bytes@.len(),
{
    let at: usize = if idx < bytes.len() {
        idx
    } else {
        bytes.len()
    };
    let stop = line_break_at(bytes, at);
    if stop < bytes.len() {
        stop + 1
    } else {
        bytes.len()
    }
}

/// Expands the range `start..end` to cover every line it touches.
pub fn covering_line_range(source: &str, start: usize, end: usize) -> (r: (usize, usize))
    ensures
        r.0 == line_start_of(source.spec_bytes(), start as int),
        r.1 == line_end_of(source.spec_bytes(), end as int),
        r.0 <= start,
        r.1 <= source.spec_bytes().len(),
{
    let from = line_start(source, start);
    let to = line_end(source, end);
    (from, to)
}

/// Expands the range `start..end` of `bytes` to cover every line it touches.
pub fn covering_lines(bytes: &[u8], start: usize, end: usize) -> (r: (usize, usize))
    ensures
        r.0 == line_start_of(bytes@, start as int),
        r.1 == line_end_of(bytes@, end as int),
        r.0 <= start,
        r.1 <= bytes@.len(),
{
    let from = line_start_in(bytes, start);
    let to = line_end_in(bytes, end);
    (from, to)
}

} // verus!
