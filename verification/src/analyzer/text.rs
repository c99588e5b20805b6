//! Byte-level text primitives shared by the directive parsers, the fix engine
//! and the rules. Source text is handled as UTF-8 bytes. Every delimiter the
//! analyzer looks for is ASCII, but for white space: there the UTF-8 forms of
//! all white-space characters count, so that no character is cut.

use vstd::prelude::*;
use vstd::slice::slice_subrange;
use vstd::slice::slice_to_vec;

verus! {

/// Whether `b` is one of the ASCII white-space bytes (tab, line feed, vertical
/// tab, form feed, carriage return, space).
pub open spec fn is_space(b: u8) -> bool {
    (9 <= b && b <= 13) || b == 32
}

/// Whether the two bytes `a`, `b` are the UTF-8 form of a white-space
/// character: the next-line control (U+0085) or the no-break space (U+00A0).
pub open spec fn is_space_pair(a: u8, b: u8) -> bool {
    a == 0xC2 && (b == 0x85 || b == 0xA0)
}

/// Whether the three bytes `a`, `b`, `c` are the UTF-8 form of a white-space
/// character: the Ogham space mark (U+1680), the spaces from the en quad to
/// the hair space (U+2000 to U+200A), the line and the paragraph separator
/// (U+2028, U+2029), the narrow no-break space (U+202F), the medium
/// mathematical space (U+205F) or the ideographic space (U+3000).
pub open spec fn is_space_triple(a: u8, b: u8, c: u8) -> bool {
    ||| a == 0xE1 && b == 0x9A && c == 0x80
    ||| a == 0xE2 && b == 0x80 && ((0x80 <= c && c <= 0x8A) || c == 0xA8 || c == 0xA9 || c == 0xAF)
    ||| a == 0xE2 && b == 0x81 && c == 0x9F
    ||| a == 0xE3 && b == 0x80 && c == 0x80
}

/// The number of bytes of the white-space character that starts at index
/// `i` of `s`; zero where none starts there.
pub open spec fn space_at(s: Seq<u8>, i: int) -> int {
    if i < 0 || i >= s.len() {
        0
    } else if is_space(s[i]) {
        1
    } else if i + 1 < s.len() && is_space_pair(s[i], s[i + 1]) {
        2
    } else if i + 2 < s.len() && is_space_triple(s[i], s[i + 1], s[i + 2]) {
        3
    } else {
        0
    }
}

/// The number of bytes of the white-space character that ends just in front
/// of index `end` of `s`; zero where none ends there.
pub open spec fn space_before(s: Seq<u8>, end: int) -> int {
    if end <= 0 || end > s.len() {
        0
    } else if is_space(s[end - 1]) {
        1
    } else if end >= 2 && is_space_pair(s[end - 2], s[end - 1]) {
        2
    } else if end >= 3 && is_space_triple(s[end - 3], s[end - 2], s[end - 1]) {
        3
    } else {
        0
    }
}

/// Executable form of [`is_space`].
pub fn is_space_byte(b: u8) -> (r: bool)
    ensures
        r == is_space(b),
{
    (9 <= b && b <= 13) || b == 32
}

/// The number of bytes of the white-space character that starts at index
/// `i` of `s`.
pub fn space_len_at(s: &[u8], i: usize) -> (r: usize)
    ensures
        r == space_at(s@, i as int),
        i + r <= s.len() || r == 0,
{
    if i >= s.len() {
        return 0;
    }
    let a = s[i];
    if is_space_byte(a) {
        return 1;
    }
    if s.len() - i >= 2 {
        let b = s[i + 1];
        if a == 0xC2 && (b == 0x85 || b == 0xA0) {
            return 2;
        }
        if s.len() - i >= 3 {
            let c = s[i + 2];
            if (a == 0xE1 && b == 0x9A && c == 0x80) || (a == 0xE2 && b == 0x80 && ((0x80 <= c
                && c <= 0x8A) || c == 0xA8 || c == 0xA9 || c == 0xAF)) || (a == 0xE2 && b == 0x81
                && c == 0x9F) || (a == 0xE3 && b == 0x80 && c == 0x80) {
                return 3;
            }
        }
    }
    0
}

/// The number of bytes of the white-space character that ends just in front
/// of index `end` of `s`.
pub fn space_len_before(s: &[u8], end: usize) -> (r: usize)
    ensures
        r == space_before(s@, end as int),
        r <= end,
{
    if end == 0 || end > s.len() {
        return 0;
    }
    let c = s[end - 1];
    if is_space_byte(c) {
        return 1;
    }
    if end >= 2 {
        let b = s[end - 2];
        if b == 0xC2 && (c == 0x85 || c == 0xA0) {
            return 2;
        }
        if end >= 3 {
            let a = s[end - 3];
            if (a == 0xE1 && b == 0x9A && c == 0x80) || (a == 0xE2 && b == 0x80 && ((0x80 <= c
                && c <= 0x8A) || c == 0xA8 || c == 0xA9 || c == 0xAF)) || (a == 0xE2 && b == 0x81
                && c == 0x9F) || (a == 0xE3 && b == 0x80 && c == 0x80) {
                return 3;
            }
        }
    }
    0
}

/// `s` without its leading white space.
pub open spec fn trim_start(s: Seq<u8>) -> Seq<u8>
    decreases s.len(),
{
    if space_at(s, 0) > 0 {
        trim_start(s.subrange(space_at(s, 0), s.len() as int))
    } else {
        s
    }
}

/// `s` without its trailing white space.
pub open spec fn trim_end(s: Seq<u8>) -> Seq<u8>
    decreases s.len(),
{
    if space_before(s, s.len() as int) > 0 {
        trim_end(s.subrange(0, s.len() - space_before(s, s.len() as int)))
    } else {
        s
    }
}

/// `s` without leading and trailing white space.
pub open spec fn trim(s: Seq<u8>) -> Seq<u8> {
    trim_end(trim_start(s))
}

/// `s` without any leading copies of the byte `b`.
pub open spec fn strip_leading(s: Seq<u8>, b: u8) -> Seq<u8>
    decreases s.len(),
{
    if s.len() > 0 && s[0] == b {
        strip_leading(s.drop_first(), b)
    } else {
        s
    }
}

/// `s` without any trailing copies of the byte `b`.
pub open spec fn strip_trailing(s: Seq<u8>, b: u8) -> Seq<u8>
    decreases s.len(),
{
    if s.len() > 0 && s.last() == b {
        strip_trailing(s.drop_last(), b)
    } else {
        s
    }
}

/// Whether `needle` occurs in `hay` starting at index `i`.
pub open spec fn matches_at(hay: Seq<u8>, needle: Seq<u8>, i: int) -> bool {
    0 <= i && i + needle.len() <= hay.len() && hay.subrange(i, i + needle.len()) == needle
}

/// The first index at or after `from` where `needle` occurs in `hay`.
pub open spec fn find_from(hay: Seq<u8>, needle: Seq<u8>, from: int) -> Option<int>
    decreases hay.len() + 1 - from,
{
    if from < 0 || from + needle.len() > hay.len() {
        None
    } else if matches_at(hay, needle, from) {
        Some(from)
    } else {
        find_from(hay, needle, from + 1)
    }
}

/// The first index where `needle` occurs in `hay`.
pub open spec fn find(hay: Seq<u8>, needle: Seq<u8>) -> Option<int> {
    find_from(hay, needle, 0)
}

/// The last index below `upto` that holds the byte `b`.
pub open spec fn rfind_byte_below(s: Seq<u8>, b: u8, upto: int) -> Option<int>
    decreases upto,
{
    if upto <= 0 || upto > s.len() {
        None
    } else if s[upto - 1] == b {
        Some(upto - 1)
    } else {
        rfind_byte_below(s, b, upto - 1)
    }
}

/// The last index of `s` that holds the byte `b`.
pub open spec fn rfind_byte(s: Seq<u8>, b: u8) -> Option<int> {
    rfind_byte_below(s, b, s.len() as int)
}

/// The lower-case form of an ASCII letter; other bytes are unchanged.
pub open spec fn lower(b: u8) -> u8 {
    if 65 <= b && b <= 90 {
        (b + 32) as u8
    } else {
        b
    }
}

/// `s` with every ASCII upper-case letter replaced by its lower-case form.
pub open spec fn to_lower(s: Seq<u8>) -> Seq<u8> {
    Seq::new(s.len(), |i: int| lower(s[i]))
}

/// The index of the first line feed at or after `from`, or the length of `s`.
pub open spec fn line_break(s: Seq<u8>, from: int) -> int
    decreases s.len() - from,
{
    if from < 0 || from >= s.len() {
        s.len() as int
    } else if s[from] == 10 {
        from
    } else {
        line_break(s, from + 1)
    }
}

/// The text of the line that starts at `from`: everything up to the line
/// feed, without the carriage return that may precede that line feed.
pub open spec fn line_text(s: Seq<u8>, from: int) -> Seq<u8> {
    let end = line_break(s, from);
    if end < s.len() && from < end && s[end - 1] == 13 {
        s.subrange(from, end - 1)
    } else {
        s.subrange(from, end)
    }
}

/// The lines of `s` that start at or after `from`. A final line feed does not
/// open another line.
pub open spec fn lines_from(s: Seq<u8>, from: int) -> Seq<Seq<u8>>
    decreases s.len() + 1 - from,
    via lines_from_terminates
{
    if from < 0 || from >= s.len() {
        Seq::empty()
    } else {
        seq![line_text(s, from)] + lines_from(s, line_break(s, from) + 1)
    }
}

#[via_fn]
proof fn lines_from_terminates(s: Seq<u8>, from: int) {
    if 0 <= from < s.len() {
        lemma_line_break_bounds(s, from);
    }
}

/// The lines of `s`.
pub open spec fn lines(s: Seq<u8>) -> Seq<Seq<u8>> {
    lines_from(s, 0)
}

/// The decimal digits of `n`, most significant first.
pub open spec fn decimal(n: nat) -> Seq<u8>
    decreases n,
{
    if n < 10 {
        seq![(48 + n) as u8]
    } else {
        decimal(n / 10).push((48 + n % 10) as u8)
    }
}

pub proof fn lemma_line_break_bounds(s: Seq<u8>, from: int)
    requires
        0 <= from <= s.len(),
    ensures
        from <= line_break(s, from) <= s.len(),
        line_break(s, from) < s.len() ==> s[line_break(s, from)] == 10,
        forall|k: int| from <= k < line_break(s, from) ==> s[k] != 10,
    decreases s.len() - from,
{
    if from < s.len() && s[from] != 10 {
        lemma_line_break_bounds(s, from + 1);
    }
}

pub proof fn lemma_trim_start_is_suffix(s: Seq<u8>)
    ensures
        trim_start(s).len() <= s.len(),
        trim_start(s) == s.subrange(s.len() - trim_start(s).len(), s.len() as int),
        space_at(trim_start(s), 0) == 0,
    decreases s.len(),
{
    let n = space_at(s, 0);
    if n > 0 {
        let t = s.subrange(n, s.len() as int);
        lemma_trim_start_is_suffix(t);
        let d = t.len() - trim_start(t).len();
        assert(t.subrange(d, t.len() as int) =~= s.subrange(d + n, s.len() as int));
    } else {
        assert(s.subrange(0, s.len() as int) =~= s);
    }
}

/// A white-space character stands at index `i` of `s` where it stands at
/// the start of what `s` holds from `i` on.
pub proof fn lemma_space_at_tail(s: Seq<u8>, i: int)
    requires
        0 <= i <= s.len(),
    ensures
        space_at(s.subrange(i, s.len() as int), 0) == space_at(s, i),
{
    let t = s.subrange(i, s.len() as int);
    if i < s.len() {
        assert(t[0] == s[i]);
        if i + 1 < s.len() {
            assert(t[1] == s[i + 1]);
        }
        if i + 2 < s.len() {
            assert(t[2] == s[i + 2]);
        }
    }
}

/// A white-space character ends in front of index `end` of `s` where it
/// ends what `s` holds up to `end`.
pub proof fn lemma_space_before_head(s: Seq<u8>, end: int)
    requires
        0 <= end <= s.len(),
    ensures
        space_before(s.subrange(0, end), end) == space_before(s, end),
{
    let t = s.subrange(0, end);
    if end >= 1 {
        assert(t[end - 1] == s[end - 1]);
    }
    if end >= 2 {
        assert(t[end - 2] == s[end - 2]);
    }
    if end >= 3 {
        assert(t[end - 3] == s[end - 3]);
    }
}

pub proof fn lemma_trim_end_is_prefix(s: Seq<u8>)
    ensures
        trim_end(s).len() <= s.len(),
        trim_end(s) == s.subrange(0, trim_end(s).len() as int),
        space_before(trim_end(s), trim_end(s).len() as int) == 0,
    decreases s.len(),
{
    let n = space_before(s, s.len() as int);
    if n > 0 {
        let t = s.subrange(0, s.len() - n);
        lemma_trim_end_is_prefix(t);
        assert(t.subrange(0, trim_end(t).len() as int) =~= s.subrange(
            0,
            trim_end(t).len() as int,
        ));
    } else {
        assert(s.subrange(0, s.len() as int) =~= s);
    }
}

/// Whether two byte strings are equal.
pub fn bytes_eq(a: &[u8], b: &[u8]) -> (r: bool)
    ensures
        r == (a@ == b@),
{
    if a.len() != b.len() {
        return false;
    }
    let mut i: usize = 0;
    while i < a.len()
        invariant
            i <= a.len(),
            a.len() == b.len(),
            forall|k: int| 0 <= k < i ==> a@[k] == b@[k],
        decreases a.len() - i,
    {
        if a[i] != b[i] {
            return false;
        }
        i += 1;
    }
    assert(a@ =~= b@);
    true
}

/// Whether `s` begins with `prefix`.
pub fn starts_with(s: &[u8], prefix: &[u8]) -> (r: bool)
    ensures
        r == prefix@.is_prefix_of(s@),
{
    if prefix.len() > s.len() {
        return false;
    }
    let head = slice_subrange(s, 0, prefix.len());
    let r = bytes_eq(head, prefix);
    proof {
        if r {
            assert(prefix@ =~= s@.subrange(0, prefix@.len() as int));
        }
    }
    r
}

/// Whether `s` ends with `suffix`.
pub fn ends_with(s: &[u8], suffix: &[u8]) -> (r: bool)
    ensures
        r == suffix@.is_suffix_of(s@),
{
    if suffix.len() > s.len() {
        return false;
    }
    let tail = slice_subrange(s, s.len() - suffix.len(), s.len());
    let r = bytes_eq(tail, suffix);
    proof {
        if r {
            assert(suffix@ =~= s@.subrange(s@.len() - suffix@.len(), s@.len() as int));
        }
    }
    r
}

/// Removes leading white space.
pub fn trim_start_bytes(s: &[u8]) -> (r: &[u8])
    ensures
        r@ == trim_start(s@),
{
    let mut i: usize = 0;
    proof {
        assert(s@.subrange(0, s@.len() as int) =~= s@);
    }
    loop
        invariant
            i <= s.len(),
            trim_start(s@) == trim_start(s@.subrange(i as int, s@.len() as int)),
        ensures
            space_at(s@.subrange(i as int, s@.len() as int), 0) == 0,
        decreases s.len() - i,
    {
        let n = space_len_at(s, i);
        proof {
            lemma_space_at_tail(s@, i as int);
        }
        if n == 0 {
            break ;
        }
        proof {
            let cur = s@.subrange(i as int, s@.len() as int);
            assert(cur.subrange(n as int, cur.len() as int) =~= s@.subrange(
                i + n,
                s@.len() as int,
            ));
        }
        i += n;
    }
    slice_subrange(s, i, s.len())
}

/// Removes trailing white space.
pub fn trim_end_bytes(s: &[u8]) -> (r: &[u8])
    ensures
        r@ == trim_end(s@),
{
    let mut j: usize = s.len();
    proof {
        assert(s@.subrange(0, s@.len() as int) =~= s@);
    }
    loop
        invariant
            j <= s.len(),
            trim_end(s@) == trim_end(s@.subrange(0, j as int)),
        ensures
            space_before(s@.subrange(0, j as int), j as int) == 0,
        decreases j,
    {
        let n = space_len_before(s, j);
        proof {
            lemma_space_before_head(s@, j as int);
        }
        if n == 0 {
            break ;
        }
        proof {
            let cur = s@.subrange(0, j as int);
            assert(cur.subrange(0, cur.len() - n) =~= s@.subrange(0, j - n));
        }
        j -= n;
    }
    slice_subrange(s, 0, j)
}

/// Removes leading and trailing white space.
pub fn trim_bytes(s: &[u8]) -> (r: &[u8])
    ensures
        r@ == trim(s@),
{
    trim_end_bytes(trim_start_bytes(s))
}

/// Removes every leading copy of `b`.
pub fn strip_leading_byte(s: &[u8], b: u8) -> (r: &[u8])
    ensures
        r@ == strip_leading(s@, b),
{
    let mut i: usize = 0;
    proof {
        assert(s@.subrange(0, s@.len() as int) =~= s@);
    }
    while i < s.len() && s[i] == b
        invariant
            i <= s.len(),
            strip_leading(s@, b) == strip_leading(s@.subrange(i as int, s@.len() as int), b),
        decreases s.len() - i,
    {
        proof {
            let cur = s@.subrange(i as int, s@.len() as int);
            assert(cur.drop_first() =~= s@.subrange(i + 1, s@.len() as int));
        }
        i += 1;
    }
    slice_subrange(s, i, s.len())
}

/// Removes every trailing copy of `b`.
pub fn strip_trailing_byte(s: &[u8], b: u8) -> (r: &[u8])
    ensures
        r@ == strip_trailing(s@, b),
{
    let mut j: usize = s.len();
    proof {
        assert(s@.subrange(0, s@.len() as int) =~= s@);
    }
    while j > 0 && s[j - 1] == b
        invariant
            j <= s.len(),
            strip_trailing(s@, b) == strip_trailing(s@.subrange(0, j as int), b),
        decreases j,
    {
        proof {
            let cur = s@.subrange(0, j as int);
            assert(cur.drop_last() =~= s@.subrange(0, j - 1));
        }
        j -= 1;
    }
    slice_subrange(s, 0, j)
}

/// Finds the first occurrence of `needle` in `hay`.
pub fn find_bytes(hay: &[u8], needle: &[u8]) -> (r: Option<usize>)
    ensures
        match r {
            Some(i) => find(hay@, needle@) == Some(i as int) && matches_at(hay@, needle@, i as int),
            None => find(hay@, needle@).is_none(),
        },
{
    if needle.len() > hay.len() {
        return None;
    }
    let last: usize = hay.len() - needle.len();
    let mut i: usize = 0;
    loop
        invariant
            i <= last,
            last == hay.len() - needle.len(),
            find(hay@, needle@) == find_from(hay@, needle@, i as int),
        decreases last - i,
    {
        let window = slice_subrange(hay, i, i + needle.len());
        if bytes_eq(window, needle) {
            return Some(i);
        }
        if i == last {
            assert(find_from(hay@, needle@, i + 1).is_none());
            return None;
        }
        i += 1;
    }
}

/// Whether `needle` occurs in `hay`.
pub fn contains_bytes(hay: &[u8], needle: &[u8]) -> (r: bool)
    ensures
        r == find(hay@, needle@).is_some(),
{
    find_bytes(hay, needle).is_some()
}

/// Finds the last occurrence of the byte `b` in `s`.
pub fn rfind_byte_in(s: &[u8], b: u8) -> (r: Option<usize>)
    ensures
        match r {
            Some(i) => rfind_byte(s@, b) == Some(i as int) && i < s.len() && s@[i as int] == b,
            None => rfind_byte(s@, b).is_none(),
        },
{
    let mut j: usize = s.len();
    while j > 0
        invariant
            j <= s.len(),
            rfind_byte(s@, b) == rfind_byte_below(s@, b, j as int),
        decreases j,
    {
        if s[j - 1] == b {
            return Some(j - 1);
        }
        j -= 1;
    }
    None
}

/// Lower-cases one byte.
pub fn lower_byte(b: u8) -> (r: u8)
    ensures
        r == lower(b),
{
    if 65 <= b && b <= 90 {
        b + 32
    } else {
        b
    }
}

/// Lower-cases the ASCII letters of `s`.
pub fn to_lower_bytes(s: &[u8]) -> (r: Vec<u8>)
    ensures
        r@ == to_lower(s@),
{
    let mut out: Vec<u8> = Vec::new();
    let mut i: usize = 0;
    while i < s.len()
        invariant
            i <= s.len(),
            out@.len() == i,
            forall|k: int| 0 <= k < i ==> out@[k] == lower(s@[k]),
        decreases s.len() - i,
    {
        out.push(lower_byte(s[i]));
        i += 1;
    }
    assert(out@ =~= to_lower(s@));
    out
}

/// Copies `s` into a new vector.
pub fn to_vec(s: &[u8]) -> (r: Vec<u8>)
    ensures
        r@ == s@,
{
    slice_to_vec(s)
}

/// Appends `s` to `buf`.
pub fn push_all(buf: &mut Vec<u8>, s: &[u8])
    ensures
        final(buf)@ == old(buf)@ + s@,
{
    let mut i: usize = 0;
    while i < s.len()
        invariant
            i <= s.len(),
            buf@ == old(buf)@ + s@.subrange(0, i as int),
        decreases s.len() - i,
    {
        buf.push(s[i]);
        i += 1;
        assert(buf@ =~= old(buf)@ + s@.subrange(0, i as int));
    }
    assert(s@.subrange(0, s@.len() as int) =~= s@);
}

/// Appends the decimal digits of `n` to `buf`.
pub fn push_decimal(buf: &mut Vec<u8>, n: u128)
    ensures
        final(buf)@ == old(buf)@ + decimal(n as nat),
    decreases n,
{
    if n < 10 {
        let d: u8 = (48 + n) as u8;
        buf.push(d);
        assert(buf@ =~= old(buf)@ + decimal(n as nat));
    } else {
        push_decimal(buf, n / 10);
        let d: u8 = (48 + n % 10) as u8;
        buf.push(d);
        assert(buf@ =~= old(buf)@ + decimal(n as nat));
    }
}

/// `n` copies of the byte `b`.
pub open spec fn repeated(b: u8, n: nat) -> Seq<u8> {
    Seq::new(n, |i: int| b)
}

/// Appends `n` copies of the byte `b` to `buf`.
pub fn push_repeated(buf: &mut Vec<u8>, b: u8, n: usize)
    ensures
        final(buf)@ == old(buf)@ + repeated(b, n as nat),
{
    let mut i: usize = 0;
    assert(buf@ =~= old(buf)@ + repeated(b, 0));
    while i < n
        invariant
            i <= n,
            buf@ == old(buf)@ + repeated(b, i as nat),
        decreases n - i,
    {
        buf.push(b);
        i += 1;
        assert(buf@ =~= old(buf)@ + repeated(b, i as nat));
    }
}

/// The text of line number `row` of `s`, counted from zero, if `s` has that
/// many lines.
pub open spec fn nth_line(s: Seq<u8>, row: nat) -> Option<Seq<u8>> {
    if row < lines(s).len() {
        Some(lines(s)[row as int])
    } else {
        None
    }
}

/// Dropping the first line of what is left gives the lines behind it.
pub proof fn lemma_lines_step(s: Seq<u8>, from: int)
    requires
        0 <= from < s.len(),
    ensures
        lines_from(s, from).len() >= 1,
        lines_from(s, from)[0] == line_text(s, from),
        lines_from(s, from).drop_first() == lines_from(s, line_break(s, from) + 1),
{
    lemma_line_break_bounds(s, from);
    assert(lines_from(s, from).drop_first() =~= lines_from(s, line_break(s, from) + 1));
}

/// The text of line number `row` of `s`, counted from zero.
pub fn line_at_bytes(s: &[u8], row: usize) -> (r: Option<Vec<u8>>)
    ensures
        match r {
            Some(line) => nth_line(s@, row as nat) == Some(line@),
            None => nth_line(s@, row as nat).is_none(),
        },
{
    let mut pos: usize = 0;
    let mut left: usize = row;
    while pos < s.len()
        invariant
            pos <= s.len(),
            left <= row,
            nth_line(s@, row as nat) == (if left < lines_from(s@, pos as int).len() {
                Some(lines_from(s@, pos as int)[left as int])
            } else {
                None
            }),
        decreases s.len() - pos,
    {
        proof {
            lemma_lines_step(s@, pos as int);
        }
        if left == 0 {
            return Some(to_vec(line_text_at(s, pos)));
        }
        let stop = line_break_at(s, pos);
        proof {
            let ls = lines_from(s@, pos as int);
            if left < ls.len() {
                assert(ls.drop_first()[left - 1] == ls[left as int]);
            }
        }
        left -= 1;
        if stop >= s.len() {
            assert(lines_from(s@, stop + 1) =~= Seq::empty());
            return None;
        }
        pos = stop + 1;
    }
    None
}

/// The end of the line that starts at `from`: the index of its line feed, or
/// the length of `s` when the line is the last one and has none.
pub fn line_break_at(s: &[u8], from: usize) -> (r: usize)
    requires
        from <= s.len(),
    ensures
        r == line_break(s@, from as int),
        from <= r <= s.len(),
{
    let mut i: usize = from;
    while i < s.len() && s[i] != 10
        invariant
            from <= i <= s.len(),
            line_break(s@, from as int) == line_break(s@, i as int),
        decreases s.len() - i,
    {
        i += 1;
    }
    i
}

/// The text of the line that starts at `from`.
pub fn line_text_at(s: &[u8], from: usize) -> (r: &[u8])
    requires
        from <= s.len(),
    ensures
        r@ == line_text(s@, from as int),
{
    let end = line_break_at(s, from);
    if end < s.len() && from < end && s[end - 1] == 13 {
        slice_subrange(s, from, end - 1)
    } else {
        slice_subrange(s, from, end)
    }
}

/// The byte strings held by a list of vectors.
pub open spec fn rows(v: Seq<Vec<u8>>) -> Seq<Seq<u8>> {
    Seq::new(v.len(), |i: int| v[i]@)
}

/// Pushing a vector appends its bytes to the rows.
pub proof fn lemma_rows_push(v: Seq<Vec<u8>>, x: Vec<u8>)
    ensures
        rows(v.push(x)) == rows(v).push(x@),
{
    assert(rows(v.push(x)) =~= rows(v).push(x@));
}

/// Whether `list` holds the byte string `item`.
pub fn contains_row(list: &Vec<Vec<u8>>, item: &[u8]) -> (r: bool)
    ensures
        r == rows(list@).contains(item@),
{
    let mut i: usize = 0;
    while i < list.len()
        invariant
            i <= list.len(),
            forall|k: int| 0 <= k < i ==> rows(list@)[k] != item@,
        decreases list.len() - i,
    {
        if bytes_eq(list[i].as_slice(), item) {
            assert(rows(list@)[i as int] == item@);
            return true;
        }
        i += 1;
    }
    false
}

/// The index of the first byte `b` at or after `from`, or the length of `s`.
pub open spec fn index_from(s: Seq<u8>, b: u8, from: int) -> int
    decreases s.len() - from,
{
    if from < 0 || from >= s.len() {
        s.len() as int
    } else if s[from] == b {
        from
    } else {
        index_from(s, b, from + 1)
    }
}

pub proof fn lemma_index_from_bounds(s: Seq<u8>, b: u8, from: int)
    requires
        0 <= from <= s.len(),
    ensures
        from <= index_from(s, b, from) <= s.len(),
        index_from(s, b, from) < s.len() ==> s[index_from(s, b, from)] == b,
        forall|k: int| from <= k < index_from(s, b, from) ==> s[k] != b,
    decreases s.len() - from,
{
    if from < s.len() && s[from] != b {
        lemma_index_from_bounds(s, b, from + 1);
    }
}

/// The pieces of `s` from `from` on, cut at every byte `sep`. The text after
/// the last separator is a piece too, even when it is empty.
pub open spec fn split_from(s: Seq<u8>, sep: u8, from: int) -> Seq<Seq<u8>>
    decreases s.len() + 1 - from,
    via split_from_terminates
{
    if from < 0 || from > s.len() {
        Seq::empty()
    } else {
        let stop = index_from(s, sep, from);
        if stop >= s.len() {
            seq![s.subrange(from, s.len() as int)]
        } else {
            seq![s.subrange(from, stop)] + split_from(s, sep, stop + 1)
        }
    }
}

#[via_fn]
proof fn split_from_terminates(s: Seq<u8>, sep: u8, from: int) {
    if 0 <= from <= s.len() {
        lemma_index_from_bounds(s, sep, from);
    }
}

/// The pieces of `s`, cut at every byte `sep`.
pub open spec fn split(s: Seq<u8>, sep: u8) -> Seq<Seq<u8>> {
    split_from(s, sep, 0)
}

/// The index of the first byte `b` at or after `from`, or the length of `s`.
pub fn index_of_from(s: &[u8], b: u8, from: usize) -> (r: usize)
    requires
        from <= s.len(),
    ensures
        r == index_from(s@, b, from as int),
        from <= r <= s.len(),
{
    let mut i: usize = from;
    while i < s.len() && s[i] != b
        invariant
            from <= i <= s.len(),
            index_from(s@, b, from as int) == index_from(s@, b, i as int),
        decreases s.len() - i,
    {
        i += 1;
    }
    i
}

/// Cuts `s` at every byte `sep`.
pub fn split_bytes(s: &[u8], sep: u8) -> (pieces: Vec<Vec<u8>>)
    ensures
        rows(pieces@) == split(s@, sep),
{
    let mut pieces: Vec<Vec<u8>> = Vec::new();
    let mut from: usize = 0;
    proof {
        assert(rows(pieces@) =~= Seq::empty());
        assert(Seq::<Seq<u8>>::empty() + split_from(s@, sep, 0) =~= split(s@, sep));
    }
    loop
        invariant
            from <= s.len(),
            split(s@, sep) == rows(pieces@) + split_from(s@, sep, from as int),
        decreases s.len() - from,
    {
        let stop = index_of_from(s, sep, from);
        let piece = to_vec(slice_subrange(s, from, stop));
        let ghost before = pieces@;
        pieces.push(piece);
        proof {
            lemma_rows_push(before, piece);
        }
        if stop >= s.len() {
            assert(rows(pieces@) =~= rows(before) + split_from(s@, sep, from as int));
            return pieces;
        }
        proof {
            let rest = split_from(s@, sep, stop + 1);
            assert(rows(pieces@) + rest =~= rows(before) + (seq![s@.subrange(from as int, stop as int)]
                + rest));
        }
        from = stop + 1;
    }
}

} // verus!
