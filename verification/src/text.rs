//! Bytes and the text they stand for: searching, splitting into lines, and what UTF-8 keeps.
use crate::outside::{find_utf8_error, from_utf8_lossy, utf8_error};
use vstd::prelude::*;
use vstd::slice::slice_subrange;
use vstd::utf8::*;

verus! {

/// `needle` stands in `hay` at index `i`.
pub open spec fn occurs_at(hay: Seq<u8>, needle: Seq<u8>, i: int) -> bool {
    &&& 0 <= i
    &&& i + needle.len() <= hay.len()
    &&& hay.subrange(i, i + needle.len()) == needle
}

/// `i` is the smallest index at which `needle` stands in `hay`.
pub open spec fn is_first_occurrence(hay: Seq<u8>, needle: Seq<u8>, i: int) -> bool {
    &&& occurs_at(hay, needle, i)
    &&& forall|j: int| 0 <= j < i ==> !#[trigger] occurs_at(hay, needle, j)
}

/// The smallest index at which `needle` stands in `hay`, if it stands there at all.
pub open spec fn first_occurrence(hay: Seq<u8>, needle: Seq<u8>) -> Option<nat> {
    if exists|i: int| occurs_at(hay, needle, i) {
        Some(choose|i: nat| is_first_occurrence(hay, needle, i as int))
    } else {
        None
    }
}

/// There is at most one first occurrence, so it is the one that `first_occurrence` gives.
pub proof fn lemma_first_occurrence(hay: Seq<u8>, needle: Seq<u8>, i: nat)
    requires
        is_first_occurrence(hay, needle, i as int),
    ensures
        first_occurrence(hay, needle) == Some(i),
{
    assert(occurs_at(hay, needle, i as int));
    let c = choose|i: nat| is_first_occurrence(hay, needle, i as int);
    assert(is_first_occurrence(hay, needle, c as int));
    if c < i {
        assert(!occurs_at(hay, needle, c as int));
    }
    if i < c {
        assert(!occurs_at(hay, needle, i as int));
    }
}

/// The one first occurrence exists wherever there is an occurrence.
pub proof fn lemma_first_occurrence_exists(hay: Seq<u8>, needle: Seq<u8>, i: int)
    requires
        occurs_at(hay, needle, i),
    ensures
        first_occurrence(hay, needle) matches Some(k) && is_first_occurrence(
            hay,
            needle,
            k as int,
        ),
    decreases i,
{
    if exists|j: int| 0 <= j < i && #[trigger] occurs_at(hay, needle, j) {
        let j = choose|j: int| 0 <= j < i && #[trigger] occurs_at(hay, needle, j);
        lemma_first_occurrence_exists(hay, needle, j);
    } else {
        lemma_first_occurrence(hay, needle, i as nat);
    }
}

/// Whether two byte strings are equal.
pub fn bytes_equal(a: &[u8], b: &[u8]) -> (equal: bool)
    ensures
        equal == (a@ == b@),
{
    if a.len() != b.len() {
        return false;
    }
    let mut i: usize = 0;
    while i < a.len()
        invariant
            i <= a@.len(),
            a@.len() == b@.len(),
            forall|j: int| 0 <= j < i ==> a@[j] == b@[j],
        decreases a@.len() - i,
    {
        if a[i] != b[i] {
            return false;
        }
        i += 1;
    }
    assert(a@ =~= b@);
    true
}

/// Whether `needle` stands in `hay` at index `i`.
fn bytes_at(hay: &[u8], needle: &[u8], i: usize) -> (there: bool)
    requires
        i + needle@.len() <= hay@.len(),
    ensures
        there == occurs_at(hay@, needle@, i as int),
{
    let len: usize = hay.len();
    let mut k: usize = 0;
    while k < needle.len()
        invariant
            k <= needle@.len(),
            len == hay@.len(),
            i + needle@.len() <= hay@.len(),
            forall|j: int| 0 <= j < k ==> hay@[i + j] == needle@[j],
        decreases needle@.len() - k,
    {
        if hay[i + k] != needle[k] {
            assert(hay@.subrange(i as int, i + needle@.len())[k as int] == hay@[i + k]);
            return false;
        }
        k += 1;
    }
    assert(hay@.subrange(i as int, i + needle@.len()) =~= needle@);
    true
}

/// Looks for the first occurrence of `needle` in `hay`.
pub fn find_bytes(hay: &[u8], needle: &[u8]) -> (found: Option<usize>)
    ensures
        match found {
            Some(i) => is_first_occurrence(hay@, needle@, i as int),
            None => forall|i: int| !occurs_at(hay@, needle@, i),
        },
        first_occurrence(hay@, needle@) == (match found {
            Some(i) => Some(i as nat),
            None => None,
        }),
{
    if needle.len() > hay.len() {
        return None;
    }
    let last: usize = hay.len() - needle.len();
    let mut i: usize = 0;
    while i <= last
        invariant
            last == hay@.len() - needle@.len(),
            i <= last + 1,
            forall|j: int| 0 <= j < i ==> !#[trigger] occurs_at(hay@, needle@, j),
        decreases last + 1 - i,
    {
        if bytes_at(hay, needle, i) {
            proof {
                lemma_first_occurrence(hay@, needle@, i as nat);
            }
            return Some(i);
        }
        if i == last {
            return None;
        }
        i += 1;
    }
    None
}

/// The newline, which ends a line.
pub const NEWLINE: u8 = 10;

/// How many bytes the first line of `buf` takes: up to its newline and with it, or all of `buf`
/// where it holds none.
pub open spec fn first_line_len(buf: Seq<u8>) -> int {
    match buf.index_of_first(NEWLINE) {
        Some(i) => i + 1,
        None => buf.len() as int,
    }
}

/// The lines of `buf`, each with the newline that ends it.
pub open spec fn split_lines(buf: Seq<u8>) -> Seq<Seq<u8>>
    decreases buf.len(),
{
    if buf.len() == 0 {
        Seq::empty()
    } else {
        proof {
            lemma_first_line_len(buf);
        }
        seq![buf.take(first_line_len(buf))] + split_lines(buf.skip(first_line_len(buf)))
    }
}

/// What stands in a text for bytes that are no text.
pub const REPLACEMENT: char = '\u{FFFD}';

/// How many bytes that character takes.
pub const REPLACEMENT_LEN: usize = 3;

/// Where the first bytes stand that are no text, in bytes that are not valid UTF-8: from one index
/// up to another. What precedes them is valid UTF-8.
pub open spec fn bad_bytes(bytes: Seq<u8>) -> (nat, nat) {
    let (start, end) = match utf8_error(bytes) {
        Some((start, Some(len))) => (start, start + len),
        Some((start, None)) => (start, bytes.len()),
        None => (0, bytes.len()),
    };
    if start < end <= bytes.len() && valid_utf8(bytes.take(start as int)) {
        (start, end)
    } else {
        (0, bytes.len())
    }
}

/// The text that some bytes stand for: what they encode where they are valid UTF-8, and else what
/// the valid bytes at their start encode, the replacement for the bytes behind them that are no
/// text, and the text of the rest.
pub open spec fn text_of(bytes: Seq<u8>) -> Seq<char>
    decreases bytes.len(),
{
    if valid_utf8(bytes) {
        decode_utf8(bytes)
    } else {
        let (start, end) = bad_bytes(bytes);
        decode_utf8(bytes.take(start as int)) + seq![REPLACEMENT] + text_of(bytes.skip(end as int))
    }
}

/// How many of some bytes stand before an offset in their text. An offset inside of a replacement
/// stands for its start.
pub open spec fn byte_at(bytes: Seq<u8>, offset: nat) -> nat
    decreases bytes.len(),
{
    if valid_utf8(bytes) {
        if offset <= bytes.len() {
            offset
        } else {
            bytes.len()
        }
    } else {
        let (start, end) = bad_bytes(bytes);
        if offset <= start {
            offset
        } else if offset < start + REPLACEMENT_LEN {
            start
        } else {
            end + byte_at(bytes.skip(end as int), (offset - start - REPLACEMENT_LEN) as nat)
        }
    }
}

/// Offsets in a text stand for bytes in the same order, and none of them lies past the end.
pub proof fn law_offsets_keep_their_order(bytes: Seq<u8>, first: nat, second: nat)
    requires
        first <= second,
    ensures
        byte_at(bytes, first) <= byte_at(bytes, second) <= bytes.len(),
    decreases bytes.len(),
{
    if !valid_utf8(bytes) {
        let (start, end) = bad_bytes(bytes);
        let rest = bytes.skip(end as int);
        let skipped = start + REPLACEMENT_LEN;
        if first >= skipped {
            law_offsets_keep_their_order(rest, (first - skipped) as nat, (second - skipped) as nat);
        } else if second >= skipped {
            law_offsets_keep_their_order(rest, 0, (second - skipped) as nat);
        }
    }
}

/// The start of a text stands for the start of its bytes, and its end for their end. Where the
/// bytes are valid UTF-8, every offset stands for itself.
pub proof fn law_a_text_stands_for_its_bytes(bytes: Seq<u8>)
    ensures
        byte_at(bytes, 0) == 0,
        byte_at(bytes, encode_utf8(text_of(bytes)).len()) == bytes.len(),
        valid_utf8(bytes) ==> encode_utf8(text_of(bytes)) == bytes && forall|offset: nat|
            offset <= bytes.len() ==> #[trigger] byte_at(bytes, offset) == offset,
    decreases bytes.len(),
{
    if valid_utf8(bytes) {
        decode_utf8_encode_utf8(bytes);
    } else {
        let (start, end) = bad_bytes(bytes);
        let head = decode_utf8(bytes.take(start as int));
        let rest = bytes.skip(end as int);
        if start == 0 {
            assert(bytes.take(0).len() == 0);
        }
        decode_utf8_encode_utf8(bytes.take(start as int));
        law_a_text_stands_for_its_bytes(rest);
        lemma_encode_concat(head + seq![REPLACEMENT], text_of(rest));
        lemma_encode_concat(head, seq![REPLACEMENT]);
        lemma_replacement_len();
    }
}

/// The replacement takes as many bytes as is said.
proof fn lemma_replacement_len()
    ensures
        encode_utf8(seq![REPLACEMENT]).len() == REPLACEMENT_LEN,
{
    reveal_with_fuel(encode_utf8, 2);
    assert(seq![REPLACEMENT].drop_first().len() == 0);
}

/// Counts how many of some bytes stand before an offset in their text.
pub fn bytes_before(bytes: &[u8], offset: usize) -> (count: usize)
    ensures
        count == byte_at(bytes@, offset as nat),
        count <= bytes@.len(),
{
    let len: usize = bytes.len();
    let mut from: usize = 0;
    let mut left: usize = offset;
    proof {
        law_offsets_keep_their_order(bytes@, 0, offset as nat);
        assert(bytes@.skip(0) =~= bytes@);
    }
    loop
        invariant
            from <= len,
            len == bytes@.len(),
            byte_at(bytes@, offset as nat) == from + byte_at(bytes@.skip(from as int), left as nat),
            byte_at(bytes@, offset as nat) <= len,
        decreases len - from,
    {
        let rest: &[u8] = slice_subrange(bytes, from, len);
        assert(rest@ =~= bytes@.skip(from as int));
        match find_utf8_error(rest) {
            None => {
                return if left <= len - from {
                    from + left
                } else {
                    len
                };
            },
            Some((start, bad_len)) => {
                let end: usize = match bad_len {
                    Some(n) => start + n,
                    None => len - from,
                };
                assert(bad_bytes(rest@) == (start as nat, end as nat));
                if left <= start {
                    return from + left;
                }
                if left - start < REPLACEMENT_LEN {
                    return from + start;
                }
                assert(rest@.skip(end as int) =~= bytes@.skip(from + end));
                left = left - start - REPLACEMENT_LEN;
                from = from + end;
            },
        }
    }
}

/// One sequence after the other.
pub open spec fn join<A>(parts: Seq<Seq<A>>) -> Seq<A>
    decreases parts.len(),
{
    if parts.len() == 0 {
        Seq::empty()
    } else {
        parts[0] + join(parts.skip(1))
    }
}

/// Some bytes are the end of others.
pub open spec fn is_end_of(end: Seq<u8>, bytes: Seq<u8>) -> bool {
    &&& end.len() <= bytes.len()
    &&& end == bytes.skip(bytes.len() - end.len())
}

/// All of some bytes are an end of them.
pub proof fn lemma_end_of_itself(bytes: Seq<u8>)
    ensures
        is_end_of(bytes, bytes),
{
    assert(bytes.skip(0) =~= bytes);
}

/// An end of an end is an end.
pub proof fn lemma_end_of_end(end: Seq<u8>, middle: Seq<u8>, bytes: Seq<u8>)
    requires
        is_end_of(end, middle),
        is_end_of(middle, bytes),
    ensures
        is_end_of(end, bytes),
{
    assert(end =~= bytes.skip(bytes.len() - end.len()));
}

/// The first line of a buffer that is not empty holds one byte at least and lies inside it.
pub proof fn lemma_first_line_len(buf: Seq<u8>)
    requires
        buf.len() > 0,
    ensures
        1 <= first_line_len(buf) <= buf.len(),
        forall|i: int| 0 <= i < first_line_len(buf) - 1 ==> buf[i] != NEWLINE,
        first_line_len(buf) < buf.len() ==> buf[first_line_len(buf) - 1] == NEWLINE,
{
    buf.index_of_first_ensures(NEWLINE);
    if !buf.contains(NEWLINE) {
        assert(forall|i: int| 0 <= i < buf.len() ==> buf[i] != NEWLINE);
    }
}

/// Where the newlines are decides how long the first line is.
proof fn lemma_first_line_is(buf: Seq<u8>, n: int)
    requires
        1 <= n <= buf.len(),
        forall|i: int| 0 <= i < n - 1 ==> buf[i] != NEWLINE,
        buf[n - 1] == NEWLINE || n == buf.len(),
    ensures
        first_line_len(buf) == n,
{
    lemma_first_line_len(buf);
}

/// Which lines a buffer is split into.
#[derive(Debug, Clone, Copy, PartialEq, Eq, Structural, Hash)]
pub enum LineMode {
    Full,
    Trimmed,
}

/// A part of the output, with the text that it stands for.
#[derive(Debug)]
pub struct Line<'a> {
    pub bytes: &'a [u8],
    pub text: String,
}

impl<'a> Line<'a> {
    /// The text is that of the bytes.
    pub open spec fn valid(self) -> bool {
        self.text@ == text_of(self.bytes@)
    }

    /// Some bytes, with the text that they stand for.
    pub fn of(bytes: &'a [u8]) -> (line: Self)
        ensures
            line.bytes == bytes,
            line.valid(),
    {
        Line { bytes, text: from_utf8_lossy(bytes) }
    }
}

/// The bytes of some lines.
pub open spec fn line_bytes(lines: Seq<Line>) -> Seq<Seq<u8>> {
    lines.map_values(|line: Line| line.bytes@)
}

/// Splits `buf` into lines and turns each of them into text. In either mode a line keeps the
/// newline that ends it; a carriage return stays where it stands.
pub fn get_lines<'a>(buf: &'a [u8], _mode: LineMode) -> (lines: Vec<Line<'a>>)
    ensures
        line_bytes(lines@) == split_lines(buf@),
        forall|k: int| 0 <= k < lines@.len() ==> (#[trigger] lines@[k]).valid(),
{
    let len: usize = buf.len();
    let mut lines: Vec<Line<'a>> = Vec::new();
    let mut start: usize = 0;
    proof {
        assert(buf@.skip(0) =~= buf@);
    }
    while start < len
        invariant
            start <= len,
            len == buf@.len(),
            split_lines(buf@) =~= line_bytes(lines@) + split_lines(buf@.skip(start as int)),
            forall|k: int| 0 <= k < lines@.len() ==> (#[trigger] lines@[k]).valid(),
        decreases len - start,
    {
        let mut end: usize = start;
        while end < len && buf[end] != NEWLINE
            invariant
                start <= end <= len,
                len == buf@.len(),
                forall|i: int| start <= i < end ==> buf@[i] != NEWLINE,
            decreases len - end,
        {
            end += 1;
        }
        if end < len {
            end += 1;
        }
        let line: Line<'a> = Line::of(slice_subrange(buf, start, end));
        proof {
            let rest = buf@.skip(start as int);
            let n = end - start;
            lemma_first_line_is(rest, n);
            assert(rest.take(n) =~= buf@.subrange(start as int, end as int));
            assert(rest.skip(n) =~= buf@.skip(end as int));
            assert(line_bytes(lines@.push(line)) =~= line_bytes(lines@).push(line.bytes@));
        }
        lines.push(line);
        start = end;
    }
    proof {
        assert(split_lines(buf@.skip(start as int)) =~= Seq::empty());
    }
    lines
}

/// Where line `k` starts, counted in bytes from the start of the first line.
pub open spec fn line_start(lines: Seq<Seq<u8>>, k: nat) -> nat
    decreases k,
{
    if k == 0 {
        0
    } else {
        line_start(lines, (k - 1) as nat) + lines[k - 1].len()
    }
}

/// One line more at the front moves the start of all the others by its length.
proof fn lemma_line_start_prepend(first: Seq<u8>, lines: Seq<Seq<u8>>, k: nat)
    requires
        k <= lines.len(),
    ensures
        line_start(seq![first] + lines, k + 1) == first.len() + line_start(lines, k),
    decreases k,
{
    let all = seq![first] + lines;
    if k == 0 {
        assert(line_start(all, 1) == line_start(all, 0) + all[0].len());
    } else {
        lemma_line_start_prepend(first, lines, (k - 1) as nat);
        assert(all[k as int] == lines[k - 1]);
    }
}

/// Each line stands in the buffer where it starts.
pub proof fn lemma_line_at(buf: Seq<u8>, k: nat)
    requires
        k < split_lines(buf).len(),
    ensures
        ({
            let lines = split_lines(buf);
            let start = line_start(lines, k);
            &&& start + lines[k as int].len() == line_start(lines, k + 1)
            &&& line_start(lines, k + 1) <= buf.len()
            &&& lines[k as int] == buf.subrange(
                start as int,
                (start + lines[k as int].len()) as int,
            )
        }),
    decreases buf.len(),
{
    lemma_first_line_len(buf);
    let n = first_line_len(buf);
    let rest = buf.skip(n);
    let lines = split_lines(rest);
    assert(split_lines(buf) =~= seq![buf.take(n)] + lines);
    if k == 0 {
        reveal_with_fuel(line_start, 2);
    } else {
        lemma_line_at(rest, (k - 1) as nat);
        lemma_line_start_prepend(buf.take(n), lines, (k - 1) as nat);
        lemma_line_start_prepend(buf.take(n), lines, k);
        let start = line_start(lines, (k - 1) as nat) as int;
        let len = lines[k - 1].len() as int;
        assert(rest.subrange(start, start + len) =~= buf.subrange(n + start, n + start + len));
    }
}

/// No line starts before one that precedes it.
pub proof fn lemma_line_start_grows(lines: Seq<Seq<u8>>, j: nat, k: nat)
    requires
        j <= k,
    ensures
        line_start(lines, j) <= line_start(lines, k),
    decreases k,
{
    if j < k {
        lemma_line_start_grows(lines, j, (k - 1) as nat);
    }
}

/// The lines of a buffer take as many bytes as the buffer.
pub proof fn lemma_lines_len(buf: Seq<u8>)
    ensures
        line_start(split_lines(buf), split_lines(buf).len()) == buf.len(),
    decreases buf.len(),
{
    if buf.len() > 0 {
        lemma_first_line_len(buf);
        let n = first_line_len(buf);
        let lines = split_lines(buf.skip(n));
        lemma_lines_len(buf.skip(n));
        assert(split_lines(buf) =~= seq![buf.take(n)] + lines);
        lemma_line_start_prepend(buf.take(n), lines, lines.len());
    }
}

/// The lines of a buffer, one after the other, are the buffer. Where it is valid UTF-8, their
/// texts, one after the other, are its text.
pub proof fn law_lines_make_up_the_buffer(buf: Seq<u8>)
    ensures
        join(split_lines(buf)) == buf,
        valid_utf8(buf) ==> join(split_lines(buf).map_values(|line: Seq<u8>| text_of(line)))
            == text_of(buf),
    decreases buf.len(),
{
    let texts = |lines: Seq<Seq<u8>>| lines.map_values(|line: Seq<u8>| text_of(line));
    if buf.len() > 0 {
        lemma_first_line_len(buf);
        let n = first_line_len(buf);
        let first = buf.take(n);
        let lines = split_lines(buf.skip(n));
        law_lines_make_up_the_buffer(buf.skip(n));
        assert((seq![first] + lines).skip(1) =~= lines);
        assert(first + buf.skip(n) =~= buf);
        if valid_utf8(buf) {
            lemma_first_line_utf8(buf);
            lemma_decode_concat(first, buf.skip(n));
            assert(texts(seq![first] + lines).skip(1) =~= texts(lines));
            assert(texts(seq![first] + lines)[0] == text_of(first));
        }
    } else {
        assert(texts(split_lines(buf)) =~= Seq::empty());
        assert(text_of(buf) =~= Seq::empty());
    }
}

/// What one text after another is decoded from is what they are decoded from, one after another.
pub proof fn lemma_decode_concat(a: Seq<u8>, b: Seq<u8>)
    requires
        valid_utf8(a),
        valid_utf8(b),
    ensures
        valid_utf8(a + b),
        decode_utf8(a + b) == decode_utf8(a) + decode_utf8(b),
{
    valid_utf8_concat(a, b);
    decode_utf8_encode_utf8(a);
    decode_utf8_encode_utf8(b);
    lemma_encode_concat(decode_utf8(a), decode_utf8(b));
    encode_utf8_decode_utf8(decode_utf8(a) + decode_utf8(b));
}

/// A line is not empty, a newline stands only at its end, and only the last line can be without
/// one.
pub proof fn law_newlines_end_lines(buf: Seq<u8>, k: nat)
    requires
        k < split_lines(buf).len(),
    ensures
        ({
            let line = split_lines(buf)[k as int];
            &&& line.len() > 0
            &&& forall|i: int| 0 <= i < line.len() - 1 ==> #[trigger] line[i] != NEWLINE
            &&& k + 1 < split_lines(buf).len() ==> line.last() == NEWLINE
        }),
    decreases buf.len(),
{
    lemma_first_line_len(buf);
    let n = first_line_len(buf);
    let rest = split_lines(buf.skip(n));
    assert(split_lines(buf) =~= seq![buf.take(n)] + rest);
    if k > 0 {
        law_newlines_end_lines(buf.skip(n), (k - 1) as nat);
        assert(split_lines(buf)[k as int] == rest[k - 1]);
    } else {
        assert(split_lines(buf)[0] == buf.take(n));
        assert(buf.take(n).last() == buf[n - 1]);
        if n == buf.len() {
            assert(rest.len() == 0);
        }
    }
}

/// Valid UTF-8 is cut into valid UTF-8 by the end of its first line.
proof fn lemma_first_line_utf8(buf: Seq<u8>)
    requires
        valid_utf8(buf),
        buf.len() > 0,
    ensures
        valid_utf8(buf.take(first_line_len(buf))),
        valid_utf8(buf.skip(first_line_len(buf))),
{
    lemma_first_line_len(buf);
    let n = first_line_len(buf);
    if n == buf.len() {
        assert(buf.take(n) =~= buf);
        assert(buf.skip(n).len() == 0);
    } else {
        let len = buf.len() as int;
        is_char_boundary_iff_not_is_continuation_byte(buf, n - 1);
        valid_utf8_split(buf, n - 1);
        let tail = buf.subrange(n - 1, len);
        assert(tail[0] == NEWLINE);
        assert(pop_first_scalar(tail) =~= buf.skip(n));
        let newline = seq![NEWLINE];
        reveal_with_fuel(valid_utf8, 2);
        assert(pop_first_scalar(newline).len() == 0);
        assert(valid_utf8(newline));
        valid_utf8_concat(buf.subrange(0, n - 1), newline);
        assert(buf.subrange(0, n - 1) + newline =~= buf.take(n));
    }
}

/// Every line of valid UTF-8 is valid UTF-8.
pub proof fn lemma_lines_utf8(buf: Seq<u8>, k: nat)
    requires
        valid_utf8(buf),
        k < split_lines(buf).len(),
    ensures
        valid_utf8(split_lines(buf)[k as int]),
    decreases buf.len(),
{
    lemma_first_line_len(buf);
    lemma_first_line_utf8(buf);
    if k > 0 {
        lemma_lines_utf8(buf.skip(first_line_len(buf)), (k - 1) as nat);
    }
}

/// Valid UTF-8 is cut into valid UTF-8 between its lines.
pub proof fn lemma_line_cut_utf8(buf: Seq<u8>, k: nat)
    requires
        valid_utf8(buf),
        k <= split_lines(buf).len(),
    ensures
        line_start(split_lines(buf), k) <= buf.len(),
        valid_utf8(buf.take(line_start(split_lines(buf), k) as int)),
        valid_utf8(buf.skip(line_start(split_lines(buf), k) as int)),
    decreases buf.len(),
{
    if k == 0 {
        assert(buf.take(0).len() == 0);
        assert(buf.skip(0) =~= buf);
    } else {
        lemma_first_line_len(buf);
        lemma_first_line_utf8(buf);
        let n = first_line_len(buf);
        let rest = buf.skip(n);
        let lines = split_lines(rest);
        assert(split_lines(buf) =~= seq![buf.take(n)] + lines);
        lemma_line_cut_utf8(rest, (k - 1) as nat);
        lemma_line_start_prepend(buf.take(n), lines, (k - 1) as nat);
        let start = line_start(lines, (k - 1) as nat) as int;
        valid_utf8_concat(buf.take(n), rest.take(start));
        assert(buf.take(n) + rest.take(start) =~= buf.take(n + start));
        assert(rest.skip(start) =~= buf.skip(n + start));
    }
}

/// What one text after another is encoded to is what they are encoded to, one after another.
pub proof fn lemma_encode_concat(a: Seq<char>, b: Seq<char>)
    ensures
        encode_utf8(a + b) == encode_utf8(a) + encode_utf8(b),
    decreases a.len(),
{
    if a.len() == 0 {
        assert(a + b =~= b);
        assert(encode_utf8(a) + encode_utf8(b) =~= encode_utf8(b));
    } else {
        lemma_encode_concat(a.drop_first(), b);
        assert((a + b).drop_first() =~= a.drop_first() + b);
        assert(encode_utf8(a + b) =~= encode_utf8(a) + encode_utf8(b));
    }
}

/// A text without a newline is encoded without one.
pub proof fn lemma_newline_free(text: Seq<char>)
    requires
        !text.contains('\n'),
    ensures
        forall|i: int| 0 <= i < encode_utf8(text).len() ==> #[trigger] encode_utf8(text)[i]
            != NEWLINE,
        text.len() > 0 ==> encode_utf8(text).len() > 0,
    decreases text.len(),
{
    if text.len() > 0 {
        let rest = text.drop_first();
        let bytes = encode_utf8(text);
        let first = encode_scalar(text[0] as u32);
        assert forall|i: int| 0 <= i < rest.len() implies rest[i] != '\n' by {
            assert(text.contains(text[i + 1]));
        }
        lemma_newline_free(rest);
        encode_utf8_first_scalar(text);
        assert(text.contains(text[0]));
        assert(bytes =~= first + encode_utf8(rest));
        let byte = bytes[0];
        if byte == NEWLINE {
            assert(byte & 0x7F == 10u8) by (bit_vector)
                requires
                    byte == 10u8,
            ;
            char_u32_cast(text[0], 10u32);
            char_u32_cast('\n', 10u32);
        }
        assert forall|i: int| 0 <= i < bytes.len() implies #[trigger] bytes[i] != NEWLINE by {
            if i >= first.len() {
                assert(bytes[i] == encode_utf8(rest)[i - first.len()]);
            }
        }
    }
}

/// Bytes that stand in a buffer stand inside of one line where none of them but the last is a
/// newline.
pub proof fn lemma_occurrence_in_a_line(buf: Seq<u8>, needle: Seq<u8>, i: int) -> (k: nat)
    requires
        occurs_at(buf, needle, i),
        needle.len() > 0,
        forall|j: int| 0 <= j < needle.len() - 1 ==> #[trigger] needle[j] != NEWLINE,
    ensures
        k < split_lines(buf).len(),
        line_start(split_lines(buf), k) <= i,
        occurs_at(split_lines(buf)[k as int], needle, i - line_start(split_lines(buf), k)),
    decreases buf.len(),
{
    lemma_first_line_len(buf);
    let n = first_line_len(buf);
    let rest = buf.skip(n);
    let lines = split_lines(rest);
    assert(split_lines(buf) =~= seq![buf.take(n)] + lines);
    if i >= n {
        assert(rest.subrange(i - n, i - n + needle.len()) =~= buf.subrange(i, i + needle.len()));
        let k = lemma_occurrence_in_a_line(rest, needle, i - n);
        lemma_line_start_prepend(buf.take(n), lines, k);
        k + 1
    } else {
        if i + needle.len() > n {
            assert(needle[n - 1 - i] == buf.subrange(i, i + needle.len())[n - 1 - i]);
        }
        assert(buf.take(n).subrange(i, i + needle.len()) =~= buf.subrange(i, i + needle.len()));
        0
    }
}

/// The start of a text is encoded to no more bytes than the text.
proof fn lemma_encode_take(text: Seq<char>, n: int)
    requires
        0 <= n <= text.len(),
    ensures
        encode_utf8(text.take(n)).len() <= encode_utf8(text).len(),
{
    assert(text =~= text.take(n) + text.skip(n));
    lemma_encode_concat(text.take(n), text.skip(n));
}

/// A text stands in an encoded one between two others.
proof fn lemma_encoded_text(text: Seq<char>, string: Seq<char>, i: int) -> (parts: (
    Seq<char>,
    Seq<char>,
))
    requires
        string.len() > 0,
        occurs_at(encode_utf8(text), encode_utf8(string), i),
    ensures
        text == parts.0 + string + parts.1,
        encode_utf8(parts.0).len() == i,
{
    let bytes = encode_utf8(text);
    let needle = encode_utf8(string);
    let len = bytes.len() as int;
    encode_utf8_valid_utf8(text);
    encode_utf8_valid_utf8(string);
    encode_utf8_first_scalar(string);
    is_char_boundary_iff_not_is_continuation_byte(needle, 0);
    assert(is_char_boundary(needle, 0));
    assert(needle.len() > 0);
    assert(bytes[i] == bytes.subrange(i, i + needle.len())[0]);
    is_char_boundary_iff_not_is_continuation_byte(bytes, i);
    valid_utf8_split(bytes, i);
    let head = bytes.subrange(0, i);
    let tail = bytes.subrange(i, len);
    assert(tail.subrange(0, needle.len() as int) =~= needle);
    let rest = tail.subrange(needle.len() as int, tail.len() as int);
    if !valid_utf8(rest) {
        partial_valid_partial_invalid_utf8(tail, needle.len() as int);
    }
    lemma_decode_concat(head, needle);
    lemma_decode_concat(head + needle, rest);
    assert(head + needle + rest =~= bytes);
    encode_utf8_decode_utf8(text);
    encode_utf8_decode_utf8(string);
    decode_utf8_encode_utf8(head);
    (decode_utf8(head), decode_utf8(rest))
}

/// A character is encoded in a text exactly where the text holds it.
proof fn lemma_encoded_char(text: Seq<char>, c: char)
    ensures
        text.contains(c) <==> exists|i: int|
            occurs_at(encode_utf8(text), encode_utf8(seq![c]), i),
{
    let bytes = encode_utf8(text);
    let needle = encode_utf8(seq![c]);
    if text.contains(c) {
        let i = text.index_of(c);
        let head = text.take(i);
        let tail = text.skip(i + 1);
        assert(text =~= head + seq![c] + tail);
        lemma_encode_concat(head + seq![c], tail);
        lemma_encode_concat(head, seq![c]);
        let at = encode_utf8(head).len() as int;
        assert(bytes.subrange(at, at + needle.len()) =~= needle);
        assert(occurs_at(bytes, needle, at));
    }
    if exists|i: int| occurs_at(bytes, needle, i) {
        let i = choose|i: int| occurs_at(bytes, needle, i);
        let (before, _behind) = lemma_encoded_text(text, seq![c], i);
        assert(text[before.len() as int] == c);
    }
}

/// What stands in the text of some bytes stands in the bytes, where the text stands for them,
/// unless it holds what stands for bytes that are no text.
pub proof fn law_what_stands_in_the_text_stands_in_the_bytes(
    bytes: Seq<u8>,
    string: Seq<char>,
    offset: nat,
)
    requires
        string.len() > 0,
        !string.contains(REPLACEMENT),
        occurs_at(encode_utf8(text_of(bytes)), encode_utf8(string), offset as int),
    ensures
        occurs_at(bytes, encode_utf8(string), byte_at(bytes, offset) as int),
    decreases bytes.len(),
{
    let needle = encode_utf8(string);
    if valid_utf8(bytes) {
        decode_utf8_encode_utf8(bytes);
    } else {
        let (start, end) = bad_bytes(bytes);
        let head = decode_utf8(bytes.take(start as int));
        let rest = bytes.skip(end as int);
        let text = text_of(bytes);
        let encoded = encode_utf8(text);
        decode_utf8_encode_utf8(bytes.take(start as int));
        lemma_encode_concat(head + seq![REPLACEMENT], text_of(rest));
        lemma_encode_concat(head, seq![REPLACEMENT]);
        lemma_replacement_len();
        let skipped = start + REPLACEMENT_LEN;
        let at = offset as int;
        let len = needle.len() as int;
        if offset >= skipped {
            let after = offset - skipped;
            assert(encode_utf8(text_of(rest)).subrange(after, after + len) =~= encoded.subrange(
                at,
                at + len,
            ));
            law_what_stands_in_the_text_stands_in_the_bytes(rest, string, after as nat);
            let found = byte_at(rest, after as nat) as int;
            assert(bytes.subrange(end + found, end + found + len) =~= rest.subrange(
                found,
                found + len,
            ));
        } else if at + len <= start {
            assert(bytes.subrange(at, at + len) =~= encoded.subrange(at, at + len));
        } else {
            let (before, behind) = lemma_encoded_text(text, string, offset as int);
            let n = head.len() as int;
            let m = before.len() as int;
            assert(text[n] == REPLACEMENT);
            assert(forall|j: int| 0 <= j < n ==> text[j] == #[trigger] head[j]);
            assert(forall|j: int| 0 <= j < m ==> text[j] == #[trigger] before[j]);
            assert(forall|j: int| 0 <= j < string.len() ==> text[m + j] == #[trigger] string[j]);
            if n < before.len() {
                let both = head + seq![REPLACEMENT];
                assert forall|j: int| 0 <= j < both.len() implies before[j]
                    == #[trigger] both[j] by {
                    assert(text[j] == before[j]);
                }
                assert(before.take(n + 1) =~= both);
                lemma_encode_take(before, n + 1);
            } else if before.len() + string.len() <= n {
                let both = before + string;
                assert forall|j: int| 0 <= j < both.len() implies head[j] == #[trigger] both[j] by {
                    assert(text[j] == head[j]);
                }
                assert(head.take(both.len() as int) =~= both);
                lemma_encode_take(head, both.len() as int);
                lemma_encode_concat(before, string);
            } else {
                assert(string[n - before.len()] == REPLACEMENT);
            }
            assert(false);
        }
    }
}

/// Whether a text holds the character that stands for bytes that are no text.
pub fn holds_replacement(text: &str) -> (holds: bool)
    ensures
        holds == text@.contains(REPLACEMENT),
{
    proof {
        reveal_strlit("\u{FFFD}");
        assert("\u{FFFD}"@ =~= seq![REPLACEMENT]);
        lemma_encoded_char(text@, REPLACEMENT);
    }
    find_bytes(text.as_bytes(), "\u{FFFD}".as_bytes()).is_some()
}

/// Where an encoded text stands in valid UTF-8, it is cut out of it at boundaries between
/// characters.
pub proof fn lemma_occurrence_utf8(hay: Seq<u8>, text: Seq<char>, i: int)
    requires
        valid_utf8(hay),
        is_first_occurrence(hay, encode_utf8(text), i),
    ensures
        valid_utf8(hay.take(i)),
        valid_utf8(hay.skip(i + encode_utf8(text).len())),
{
    let needle = encode_utf8(text);
    let len = hay.len() as int;
    encode_utf8_valid_utf8(text);
    if needle.len() == 0 {
        assert(hay.subrange(0, 0) =~= needle);
        assert(occurs_at(hay, needle, 0));
        assert(i == 0);
        assert(hay.take(0).len() == 0);
        assert(hay.skip(0) =~= hay);
    } else {
        is_char_boundary_iff_not_is_continuation_byte(needle, 0);
        assert(is_char_boundary(needle, 0));
        assert(hay[i] == hay.subrange(i, i + needle.len())[0]);
        is_char_boundary_iff_not_is_continuation_byte(hay, i);
        valid_utf8_split(hay, i);
        let tail = hay.subrange(i, len);
        assert(tail.subrange(0, needle.len() as int) =~= needle);
        let rest = tail.subrange(needle.len() as int, tail.len() as int);
        if !valid_utf8(rest) {
            partial_valid_partial_invalid_utf8(tail, needle.len() as int);
        }
        assert(rest =~= hay.skip(i + needle.len()));
        assert(hay.subrange(0, i) =~= hay.take(i));
    }
}

/// A byte string stands in another exactly where byte for byte they are the same.
pub proof fn law_occurrences(hay: Seq<u8>, needle: Seq<u8>, i: int)
    ensures
        occurs_at(hay, needle, i) <==> {
            &&& 0 <= i
            &&& i + needle.len() <= hay.len()
            &&& forall|j: int| 0 <= j < needle.len() ==> hay[i + j] == #[trigger] needle[j]
        },
{
    if 0 <= i && i + needle.len() <= hay.len() {
        let there = hay.subrange(i, i + needle.len());
        assert(forall|j: int| 0 <= j < needle.len() ==> #[trigger] there[j] == hay[i + j]);
        if forall|j: int| 0 <= j < needle.len() ==> hay[i + j] == #[trigger] needle[j] {
            assert(there =~= needle);
        }
    }
}

/// The first occurrence is one, and there is none before it; where there is no first one, there is
/// none.
pub proof fn law_first_occurrence(hay: Seq<u8>, needle: Seq<u8>)
    ensures
        match first_occurrence(hay, needle) {
            Some(i) => {
                &&& i + needle.len() <= hay.len()
                &&& hay.subrange(i as int, (i + needle.len()) as int) == needle
                &&& forall|k: int|
                    0 <= k < i ==> #[trigger] hay.subrange(k, k + needle.len()) != needle
            },
            None => forall|k: int|
                0 <= k && k + needle.len() <= hay.len() ==> #[trigger] hay.subrange(
                    k,
                    k + needle.len(),
                ) != needle,
        },
        forall|i: nat|
            #[trigger] is_first_occurrence(hay, needle, i as int) <==> first_occurrence(hay, needle)
                == Some(i),
{
    if exists|i: int| occurs_at(hay, needle, i) {
        let i = choose|i: int| occurs_at(hay, needle, i);
        lemma_first_occurrence_exists(hay, needle, i);
        let first = first_occurrence(hay, needle)->0;
        assert forall|k: int| 0 <= k < first implies #[trigger] hay.subrange(k, k + needle.len())
            != needle by {
            assert(!occurs_at(hay, needle, k));
        }
    } else {
        assert forall|k: int|
            0 <= k && k + needle.len() <= hay.len() implies #[trigger] hay.subrange(
            k,
            k + needle.len(),
        ) != needle by {
            assert(!occurs_at(hay, needle, k));
        }
    }
    assert forall|i: nat|
        #[trigger] is_first_occurrence(hay, needle, i as int) <==> first_occurrence(hay, needle)
            == Some(i) by {
        if is_first_occurrence(hay, needle, i as int) {
            lemma_first_occurrence(hay, needle, i);
        }
    }
}

/// To join is to flatten.
pub proof fn law_join_flattens<A>(parts: Seq<Seq<A>>)
    ensures
        join(parts) == parts.flatten(),
    decreases parts.len(),
{
    if parts.len() > 0 {
        law_join_flattens(parts.skip(1));
        assert(parts.skip(1) =~= parts.drop_first());
    }
}

/// The lines of a buffer are those that its newlines end: put together they are the buffer, none of
/// them is empty, and a newline stands at the end of each but the last and nowhere else.
pub proof fn law_lines_are_ended_by_newlines(buf: Seq<u8>)
    ensures
        split_lines(buf).flatten() == buf,
        forall|k: int, i: int|
            0 <= k < split_lines(buf).len() && 0 <= i < split_lines(buf)[k].len() - 1
                ==> #[trigger] split_lines(buf)[k][i] != 10u8,
        forall|k: int|
            0 <= k < split_lines(buf).len() ==> {
                &&& (#[trigger] split_lines(buf)[k]).len() > 0
                &&& k + 1 < split_lines(buf).len() ==> split_lines(buf)[k].last() == 10u8
            },
{
    let lines = split_lines(buf);
    law_lines_make_up_the_buffer(buf);
    law_join_flattens(lines);
    assert forall|k: int, i: int|
        0 <= k < lines.len() && 0 <= i < lines[k].len() - 1 implies #[trigger] lines[k][i]
        != 10u8 by {
        law_newlines_end_lines(buf, k as nat);
    }
    assert forall|k: int| 0 <= k < lines.len() implies {
        &&& (#[trigger] lines[k]).len() > 0
        &&& k + 1 < lines.len() ==> lines[k].last() == 10u8
    } by {
        law_newlines_end_lines(buf, k as nat);
    }
}

/// The first line starts at the start, and each other where the one before it ends.
pub proof fn law_lines_start_where_others_end(lines: Seq<Seq<u8>>, k: nat)
    ensures
        line_start(lines, 0) == 0,
        line_start(lines, k + 1) == line_start(lines, k) + lines[k as int].len(),
{
}

/// The bytes of some lines are the bytes of each, in order, and a line is valid exactly where its
/// text is that of its bytes.
pub proof fn law_lines_keep_their_bytes(lines: Seq<Line>, k: int)
    requires
        0 <= k < lines.len(),
    ensures
        line_bytes(lines).len() == lines.len(),
        line_bytes(lines)[k] == lines[k].bytes@,
        lines[k].valid() <==> lines[k].text@ == text_of(lines[k].bytes@),
{
}

/// Some bytes are the end of others exactly where those begin with something else and go on with
/// them.
pub proof fn law_an_end_follows_a_start(end: Seq<u8>, bytes: Seq<u8>)
    ensures
        is_end_of(end, bytes) <==> exists|start: Seq<u8>| bytes == #[trigger] (start + end),
{
    if is_end_of(end, bytes) {
        let start = bytes.take(bytes.len() - end.len());
        assert(bytes =~= start + end);
    }
    if exists|start: Seq<u8>| bytes == #[trigger] (start + end) {
        let start = choose|start: Seq<u8>| bytes == #[trigger] (start + end);
        assert(bytes.skip(bytes.len() - end.len()) =~= end);
    }
}

/// Valid UTF-8 stands for what it encodes. In other bytes one U+FFFD stands for the first that are
/// no text, between the text of what precedes them and that of what follows them; and that is how
/// the offsets in the text stand for the bytes.
pub proof fn law_what_is_no_text_is_replaced(
    bytes: Seq<u8>,
    start: nat,
    len: Option<nat>,
    offset: nat,
)
    ensures
        valid_utf8(bytes) ==> text_of(bytes) == decode_utf8(bytes),
        ({
            let end = match len {
                Some(n) => start + n,
                None => bytes.len(),
            };
            let rest = bytes.skip(end as int);
            !valid_utf8(bytes) && utf8_error(bytes) == Some((start, len)) && start < end
                <= bytes.len() && valid_utf8(bytes.take(start as int)) ==> {
                &&& text_of(bytes) == decode_utf8(bytes.take(start as int)) + seq!['\u{FFFD}']
                    + text_of(rest)
                &&& offset <= start ==> byte_at(bytes, offset) == offset
                &&& start < offset < start + 3 ==> byte_at(bytes, offset) == start
                &&& start + 3 <= offset ==> byte_at(bytes, offset) == end + byte_at(
                    rest,
                    (offset - start - 3) as nat,
                )
            }
        }),
{
}

} // verus!
