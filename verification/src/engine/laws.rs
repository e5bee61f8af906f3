//! What holds of every search and of every session.
use super::match_request::{
    eof_index, fault_of, lemma_first_index, timeout_index, InputRequest, MatchRequest, Outcome,
    Timeout, TimerPoll,
};
use super::matching::{
    hit, hit_from, parts_of, place_from, place_in, same_match, string_place, Hit, Match, MatchMode,
    Place,
};
use super::session::{conclusion, match_step, pass, polled};
use super::transfer::{
    input_state, input_step, inputs, taken, InputPass, InputState, InputStep, InputView,
};
use crate::outside::{io_kind, io_would_block, regex_find};
use crate::text::{
    first_occurrence, is_end_of, is_first_occurrence, join, law_a_text_stands_for_its_bytes,
    law_join_flattens, law_newlines_end_lines, law_offsets_keep_their_order, lemma_end_of_end,
    lemma_end_of_itself,
    lemma_first_occurrence, lemma_first_occurrence_exists, lemma_line_at, lemma_line_cut_utf8,
    lemma_line_start_grows, lemma_lines_utf8, lemma_newline_free, lemma_occurrence_in_a_line,
    lemma_occurrence_utf8, line_start, occurs_at, split_lines, text_of, NEWLINE, REPLACEMENT,
};
use std::io;
use vstd::prelude::*;
use vstd::utf8::*;

verus! {

/// Equality of patterns is an equivalence.
pub proof fn law_same_match(a: Match, b: Match, c: Match)
    ensures
        same_match(a, a),
        same_match(a, b) ==> same_match(b, a),
        same_match(a, b) && same_match(b, c) ==> same_match(a, c),
{
}

/// Where a pattern matches first, it matches in the first part in which it does at all.
pub(crate) proof fn lemma_place_from(m: Match, parts: Seq<Seq<u8>>, k: nat) -> (l: nat)
    ensures
        match place_from(m, parts, k) {
            Place::At { start, end } => {
                &&& k <= l < parts.len()
                &&& place_in(m, parts[l as int]) matches Place::At { start: s, end: e } && start
                    == line_start(parts, l) + s && end == line_start(parts, l) + e
                &&& forall|j: int| k <= j < l ==> #[trigger] place_in(m, parts[j]) is Absent
            },
            Place::Absent => forall|j: int|
                k <= j < parts.len() ==> #[trigger] place_in(m, parts[j]) is Absent,
            Place::Unsupported => m is Bytes && k < parts.len(),
        },
    decreases parts.len() - k,
{
    if k >= parts.len() {
        k
    } else {
        match place_in(m, parts[k as int]) {
            Place::At { start, end } => k,
            Place::Absent => {
                let l = lemma_place_from(m, parts, k + 1);
                assert(place_in(m, parts[k as int]) is Absent);
                l
            },
            Place::Unsupported => k,
        }
    }
}

/// What a search comes to, told by the patterns one by one.
pub(crate) proof fn lemma_hit_from(matches: Seq<Match>, parts: Seq<Seq<u8>>, i: nat)
    ensures
        match hit_from(matches, parts, i) {
            Hit::Found { index, start, end } => {
                &&& i <= index < matches.len()
                &&& place_from(matches[index as int], parts, 0) == Place::At { start, end }
                &&& forall|j: int|
                    i <= j < index ==> #[trigger] place_from(matches[j], parts, 0) is Absent
            },
            Hit::Unsupported { index } => {
                &&& i <= index < matches.len()
                &&& place_from(matches[index as int], parts, 0) is Unsupported
                &&& forall|j: int|
                    i <= j < index ==> #[trigger] place_from(matches[j], parts, 0) is Absent
            },
            Hit::NotFound => forall|j: int|
                i <= j < matches.len() ==> #[trigger] place_from(matches[j], parts, 0) is Absent,
        },
    decreases matches.len() - i,
{
    if i < matches.len() {
        match place_from(matches[i as int], parts, 0) {
            Place::Absent => {
                lemma_hit_from(matches, parts, i + 1);
            },
            _ => {},
        }
    }
}

/// The patterns are tried one after the other: where one of them matches, none before it matches
/// anywhere, and it matches itself in none of the parts before the one in which it is found.
/// Where none is found, none matches anywhere.
pub proof fn law_first_pattern_wins(matches: Seq<Match>, mode: MatchMode, output: Seq<u8>)
    ensures
        match hit(matches, mode, output) {
            Hit::Found { index, start, end } => {
                let parts = parts_of(mode, output);
                &&& index < matches.len()
                &&& forall|j: int, k: int|
                    0 <= j < index && 0 <= k < parts.len() ==> #[trigger] place_in(
                        matches[j],
                        parts[k],
                    ) is Absent
                &&& exists|l: nat|
                    {
                        &&& l < parts.len()
                        &&& #[trigger] place_in(matches[index as int], parts[l as int])
                            == Place::At {
                            start: (start - line_start(parts, l)) as nat,
                            end: (end - line_start(parts, l)) as nat,
                        }
                        &&& line_start(parts, l) <= start
                        &&& line_start(parts, l) <= end
                        &&& forall|k: int|
                            0 <= k < l ==> #[trigger] place_in(
                                matches[index as int],
                                parts[k],
                            ) is Absent
                    }
            },
            Hit::Unsupported { index } => index < matches.len() && matches[index as int] is Bytes,
            Hit::NotFound => forall|j: int, k: int|
                0 <= j < matches.len() && 0 <= k < parts_of(mode, output).len()
                    ==> #[trigger] place_in(matches[j], parts_of(mode, output)[k]) is Absent,
        },
{
    let parts = parts_of(mode, output);
    lemma_hit_from(matches, parts, 0);
    let bound = match hit(matches, mode, output) {
        Hit::Found { index, start, end } => index,
        Hit::Unsupported { index } => index,
        Hit::NotFound => matches.len(),
    };
    assert forall|j: int, k: int| 0 <= j < bound && 0 <= k < parts.len() implies #[trigger] place_in(
        matches[j],
        parts[k],
    ) is Absent by {
        assert(place_from(matches[j], parts, 0) is Absent);
        lemma_place_from(matches[j], parts, 0);
    }
    match hit(matches, mode, output) {
        Hit::Found { index, start, end } => {
            let l = lemma_place_from(matches[index as int], parts, 0);
            assert(place_in(matches[index as int], parts[l as int]) is At);
        },
        Hit::Unsupported { index } => {
            lemma_place_from(matches[index as int], parts, 0);
        },
        Hit::NotFound => {},
    }
}

/// A string stands in the text of some output exactly where it stands in the output itself: the
/// output is all text, or the string does not hold what stands for bytes that are none.
pub open spec fn stands_in_bytes(string: Seq<char>, output: Seq<u8>) -> bool {
    valid_utf8(output) || !string.contains(REPLACEMENT)
}

/// A pattern matches inside a part of the output.
proof fn lemma_place_in(m: Match, part: Seq<u8>)
    ensures
        place_in(m, part) matches Place::At { start, end } ==> start <= end <= part.len(),
{
    match m {
        Match::Utf8(s) => {
            let needle = encode_utf8(s@);
            let hay = if s@.contains(REPLACEMENT) {
                encode_utf8(text_of(part))
            } else {
                part
            };
            if let Some(start) = first_occurrence(hay, needle) {
                let i = choose|i: int| occurs_at(hay, needle, i);
                lemma_first_occurrence_exists(hay, needle, i);
                law_offsets_keep_their_order(part, start, start + needle.len());
            }
        },
        Match::Regex(re) => {
            if let Some((start, end)) = regex_find(re, text_of(part)) {
                if start <= end {
                    law_offsets_keep_their_order(part, start, end);
                }
            }
        },
        _ => {},
    }
}

/// Such a string matches where it stands first in a part of the output.
pub(crate) proof fn lemma_string_place(string: Seq<char>, part: Seq<u8>)
    requires
        stands_in_bytes(string, part),
    ensures
        match string_place(string, part) {
            Place::At { start, end } => {
                &&& end == start + encode_utf8(string).len()
                &&& is_first_occurrence(part, encode_utf8(string), start as int)
            },
            Place::Absent => forall|i: int| !occurs_at(part, encode_utf8(string), i),
            Place::Unsupported => false,
        },
{
    let needle = encode_utf8(string);
    if valid_utf8(part) {
        law_a_text_stands_for_its_bytes(part);
    }
    if exists|i: int| occurs_at(part, needle, i) {
        let i = choose|i: int| occurs_at(part, needle, i);
        lemma_first_occurrence_exists(part, needle, i);
    }
}

/// A match lies inside the output. A string that matches is what stands there in the output, at the
/// very first place where it stands. Line by line it is found inside of one line, with no line
/// before it in which the string stands. Where the output is valid UTF-8, so is what precedes the
/// string and what follows it.
pub proof fn law_a_match_is_in_the_output(matches: Seq<Match>, mode: MatchMode, output: Seq<u8>)
    ensures
        hit(matches, mode, output) matches Hit::Found { index, start, end } ==> {
            &&& index < matches.len()
            &&& start <= end <= output.len()
            &&& matches[index as int] matches Match::Utf8(s) ==> stands_in_bytes(s@, output) ==> {
                let needle = encode_utf8(s@);
                let lines = split_lines(output);
                &&& output.subrange(start as int, end as int) == needle
                &&& is_first_occurrence(output, needle, start as int)
                &&& mode is Line ==> exists|k: nat|
                    {
                        &&& k < lines.len()
                        &&& line_start(lines, k) <= start
                        &&& end <= line_start(lines, k + 1)
                        &&& #[trigger] is_first_occurrence(
                            lines[k as int],
                            needle,
                            start - line_start(lines, k),
                        )
                        &&& forall|j: int, i: int|
                            0 <= j < k ==> !#[trigger] occurs_at(lines[j], needle, i)
                    }
                &&& valid_utf8(output) ==> valid_utf8(output.take(start as int)) && valid_utf8(
                    output.skip(end as int),
                )
            }
        },
{
    let parts = parts_of(mode, output);
    lemma_hit_from(matches, parts, 0);
    if let Hit::Found { index, start, end } = hit(matches, mode, output) {
        let m = matches[index as int];
        let l = lemma_place_from(m, parts, 0);
        lemma_place_in(m, parts[l as int]);
        match mode {
            MatchMode::Raw => {
                assert(l == 0);
                if let Match::Utf8(s) = m {
                    if stands_in_bytes(s@, output) {
                        lemma_string_place(s@, output);
                        assert(occurs_at(output, encode_utf8(s@), start as int));
                        if valid_utf8(output) {
                            lemma_occurrence_utf8(output, s@, start as int);
                        }
                    }
                }
            },
            MatchMode::Line => {
                lemma_line_at(output, l);
                if let Match::Utf8(s) = m {
                    if stands_in_bytes(s@, output) {
                        lemma_line_parts(s@, output, l);
                        lemma_line_hit(output, l, s@, start, end);
                        assert forall|j: int, i: int| 0 <= j < l implies !#[trigger] occurs_at(
                            parts[j],
                            encode_utf8(s@),
                            i,
                        ) by {
                            assert(place_in(m, parts[j]) is Absent);
                            lemma_line_parts(s@, output, j as nat);
                        }
                        assert(is_first_occurrence(
                            parts[l as int],
                            encode_utf8(s@),
                            start - line_start(parts, l),
                        ));
                        lemma_line_hit_is_first(output, l, encode_utf8(s@), start);
                    }
                }
            },
        }
    }
}

/// What is said of a string and some output holds of each of its lines.
proof fn lemma_line_parts(string: Seq<char>, output: Seq<u8>, k: nat)
    requires
        stands_in_bytes(string, output),
        k < split_lines(output).len(),
    ensures
        match string_place(string, split_lines(output)[k as int]) {
            Place::At { start, end } => {
                &&& end == start + encode_utf8(string).len()
                &&& is_first_occurrence(
                    split_lines(output)[k as int],
                    encode_utf8(string),
                    start as int,
                )
            },
            Place::Absent => forall|i: int|
                !occurs_at(split_lines(output)[k as int], encode_utf8(string), i),
            Place::Unsupported => false,
        },
{
    if valid_utf8(output) {
        lemma_lines_utf8(output, k);
    }
    lemma_string_place(string, split_lines(output)[k as int]);
}

/// What stands in a line and in no line before it stands nowhere before it.
proof fn lemma_line_hit_is_first(output: Seq<u8>, l: nat, needle: Seq<u8>, start: nat)
    requires
        l < split_lines(output).len(),
        line_start(split_lines(output), l) <= start,
        is_first_occurrence(
            split_lines(output)[l as int],
            needle,
            start - line_start(split_lines(output), l),
        ),
        forall|j: int, i: int|
            0 <= j < l ==> !#[trigger] occurs_at(split_lines(output)[j], needle, i),
        occurs_at(output, needle, start as int),
    ensures
        is_first_occurrence(output, needle, start as int),
{
    let lines = split_lines(output);
    let line = lines[l as int];
    let s0 = start - line_start(lines, l);
    law_newlines_end_lines(output, l);
    if needle.len() == 0 {
        assert(line.subrange(0, 0) =~= needle);
        assert(occurs_at(line, needle, 0));
        if l > 0 {
            assert(lines[0].subrange(0, 0) =~= needle);
            assert(occurs_at(lines[0], needle, 0));
        }
    } else {
        assert forall|j: int| 0 <= j < needle.len() - 1 implies #[trigger] needle[j]
            != NEWLINE by {
            assert(needle[j] == line.subrange(s0, s0 + needle.len())[j]);
            assert(needle[j] == line[s0 + j]);
        }
        assert forall|j: int| 0 <= j < start implies !#[trigger] occurs_at(output, needle, j) by {
            if occurs_at(output, needle, j) {
                let k = lemma_occurrence_in_a_line(output, needle, j);
                if k > l {
                    lemma_line_at(output, l);
                    lemma_line_start_grows(lines, l + 1, k);
                }
            }
        }
    }
}

/// What stands in a line stands in the output, and cuts valid UTF-8 into valid UTF-8.
proof fn lemma_line_hit(output: Seq<u8>, l: nat, string: Seq<char>, start: nat, end: nat)
    requires
        l < split_lines(output).len(),
        line_start(split_lines(output), l) <= start,
        end == start + encode_utf8(string).len(),
        is_first_occurrence(
            split_lines(output)[l as int],
            encode_utf8(string),
            start - line_start(split_lines(output), l),
        ),
    ensures
        end <= output.len(),
        output.subrange(start as int, end as int) == encode_utf8(string),
        valid_utf8(output) ==> valid_utf8(output.take(start as int)) && valid_utf8(
            output.skip(end as int),
        ),
{
    let lines = split_lines(output);
    let line = lines[l as int];
    lemma_line_at(output, l);
    let from = line_start(lines, l) as int;
    let to = line_start(lines, l + 1) as int;
    let s0 = start - from;
    let e0 = end - from;
    assert(line.subrange(s0, e0) =~= output.subrange(start as int, end as int));
    if valid_utf8(output) {
        lemma_lines_utf8(output, l);
        lemma_occurrence_utf8(line, string, s0);
        lemma_line_cut_utf8(output, l);
        lemma_line_cut_utf8(output, l + 1);
        valid_utf8_concat(output.take(from), line.take(s0));
        assert(output.take(from) + line.take(s0) =~= output.take(start as int));
        valid_utf8_concat(line.skip(e0), output.skip(to));
        assert(line.skip(e0) + output.skip(to) =~= output.skip(end as int));
    }
}

/// A string that stands in the output is found, in one line where the output is searched line by
/// line, unless a pattern before it is found.
pub proof fn law_a_string_is_found(
    matches: Seq<Match>,
    mode: MatchMode,
    output: Seq<u8>,
    index: nat,
    string: Seq<char>,
)
    requires
        index < matches.len(),
        matches[index as int] matches Match::Utf8(s) && s@ == string,
        stands_in_bytes(string, output),
        forall|i: int| 0 <= i < index ==> !(#[trigger] matches[i] is Bytes),
        match mode {
            MatchMode::Raw => exists|i: int| occurs_at(output, encode_utf8(string), i),
            MatchMode::Line => exists|k: int, i: int|
                0 <= k < split_lines(output).len() && #[trigger] occurs_at(
                    split_lines(output)[k],
                    encode_utf8(string),
                    i,
                ),
        },
    ensures
        hit(matches, mode, output) matches Hit::Found { index: first, .. } && first <= index,
{
    let parts = parts_of(mode, output);
    let m = matches[index as int];
    lemma_hit_from(matches, parts, 0);
    lemma_place_from(m, parts, 0);
    if place_from(m, parts, 0) is Absent {
        match mode {
            MatchMode::Raw => {
                assert(place_in(m, parts[0]) is Absent);
                lemma_string_place(string, output);
            },
            MatchMode::Line => {
                let (k, i) = choose|k: int, i: int|
                    0 <= k < parts.len() && #[trigger] occurs_at(parts[k], encode_utf8(string), i);
                assert(place_in(m, parts[k]) is Absent);
                lemma_line_parts(string, output, k as nat);
            },
        }
    }
    if let Hit::Unsupported { index: i } = hit(matches, mode, output) {
        lemma_place_from(matches[i as int], parts, 0);
    }
}

/// A pattern that cannot tell the two modes apart: it waits for no output, or for a string that
/// stands inside of one line wherever it stands.
pub open spec fn stays_in_a_line(m: Match, output: Seq<u8>) -> bool {
    match m {
        Match::Utf8(s) => s@.len() > 0 && !s@.contains('\n') && stands_in_bytes(s@, output),
        Match::Eof => true,
        Match::Timeout => true,
        _ => false,
    }
}

/// Where such a pattern matches does not depend on the lines.
proof fn lemma_place_without_lines(m: Match, output: Seq<u8>)
    requires
        stays_in_a_line(m, output),
    ensures
        place_from(m, split_lines(output), 0) == place_from(m, seq![output], 0),
{
    let lines = split_lines(output);
    let l = lemma_place_from(m, lines, 0);
    reveal_with_fuel(place_from, 2);
    if let Match::Utf8(s) = m {
        let needle = encode_utf8(s@);
        lemma_newline_free(s@);
        lemma_string_place(s@, output);
        match place_from(m, lines, 0) {
            Place::At { start, end } => {
                lemma_line_parts(s@, output, l);
                lemma_line_hit(output, l, s@, start, end);
                assert(occurs_at(output, needle, start as int));
                assert forall|j: int, i: int| 0 <= j < l implies !#[trigger] occurs_at(
                    lines[j],
                    needle,
                    i,
                ) by {
                    assert(place_in(m, lines[j]) is Absent);
                    lemma_line_parts(s@, output, j as nat);
                }
                lemma_line_hit_is_first(output, l, needle, start);
                lemma_only_first(output, needle, start);
            },
            _ => {
                assert forall|j: int| !occurs_at(output, needle, j) by {
                    if occurs_at(output, needle, j) {
                        let k = lemma_occurrence_in_a_line(output, needle, j);
                        assert(place_in(m, lines[k as int]) is Absent);
                        lemma_line_parts(s@, output, k);
                    }
                }
            },
        }
    } else {
        assert(place_from(m, lines, 0) is Absent);
    }
}

/// There is one first occurrence at most.
proof fn lemma_only_first(hay: Seq<u8>, needle: Seq<u8>, i: nat)
    requires
        is_first_occurrence(hay, needle, i as int),
    ensures
        forall|j: nat| #[trigger] is_first_occurrence(hay, needle, j as int) ==> j == i,
{
    assert forall|j: nat| #[trigger] is_first_occurrence(hay, needle, j as int) implies j == i by {
        lemma_first_occurrence(hay, needle, i);
        lemma_first_occurrence(hay, needle, j);
    }
}

/// The two modes differ only on patterns that are empty, hold a newline, or are no strings: on all
/// others a search line by line comes to the same as a search of the output as a whole. A string
/// that holds the replacement is such a pattern where the output is all text.
pub proof fn law_the_modes_agree(matches: Seq<Match>, output: Seq<u8>)
    requires
        forall|i: int| 0 <= i < matches.len() ==> stays_in_a_line(#[trigger] matches[i], output),
    ensures
        hit(matches, MatchMode::Line, output) == hit(matches, MatchMode::Raw, output),
{
    lemma_modes_agree_from(matches, output, 0);
}

/// As the law, for the patterns from `i` on.
proof fn lemma_modes_agree_from(matches: Seq<Match>, output: Seq<u8>, i: nat)
    requires
        forall|i: int| 0 <= i < matches.len() ==> stays_in_a_line(#[trigger] matches[i], output),
    ensures
        hit_from(matches, split_lines(output), i) == hit_from(matches, seq![output], i),
    decreases matches.len() - i,
{
    if i < matches.len() {
        lemma_place_without_lines(matches[i as int], output);
        lemma_modes_agree_from(matches, output, i + 1);
    }
}

/// A request that waits for no sequence of bytes can be held against any output.
pub proof fn law_only_bytes_fault(req: MatchRequest, output: Seq<u8>)
    requires
        forall|i: int| 0 <= i < req.matches@.len() ==> !(#[trigger] req.matches@[i] is Bytes),
    ensures
        fault_of(req.hit(output)) is None,
{
    law_first_pattern_wins(req.matches@, req.mode, output);
}

/// What is returned stands at the start of the output, what is left stands at its end, and nothing
/// stands in both. Where there is no match, the output stays as it is.
pub(crate) proof fn lemma_conclusion_splits(
    matches: Seq<Match>,
    mode: MatchMode,
    timeout: Timeout,
    buffer: Seq<u8>,
    eof: bool,
    poll: TimerPoll,
)
    ensures
        ({
            let step = conclusion(matches, timeout, hit(matches, mode, buffer), buffer, eof, poll);
            &&& is_end_of(step.buffer, buffer)
            &&& match step.outcome {
                Some(Outcome::Matched { index, output }) => {
                    &&& output.len() + step.buffer.len() <= buffer.len()
                    &&& output == buffer.take(output.len() as int)
                },
                _ => step.buffer == buffer,
            }
        }),
{
    law_a_match_is_in_the_output(matches, mode, buffer);
    assert(buffer.take(buffer.len() as int) =~= buffer);
    assert(buffer.skip(buffer.len() as int) =~= Seq::empty());
    assert(buffer.skip(0) =~= buffer);
}

/// What answers a request with a match is a part of the output: what is returned stands at its
/// start, what is left stands at its end, and nothing stands in both. Where there is no match, the
/// output stays as it is.
pub proof fn law_output_is_split(req: MatchRequest, buffer: Seq<u8>, eof: bool, poll: TimerPoll)
    ensures
        ({
            let step = match_step(req, buffer, eof, poll);
            match step.outcome {
                Some(Outcome::Matched { index, output }) => {
                    &&& output.len() + step.buffer.len() <= buffer.len()
                    &&& output == buffer.take(output.len() as int)
                    &&& step.buffer == buffer.skip(buffer.len() - step.buffer.len())
                },
                _ => step.buffer == buffer,
            }
        }),
{
    lemma_conclusion_splits(req.matches@, req.mode, req.timeout, buffer, eof, poll);
}

/// Where a string of the request is found in the output, the output is what is returned, followed
/// by that string, followed by what is left for the requests to come. Where the output is valid
/// UTF-8, so is each of them.
pub proof fn law_a_string_is_cut_out(
    req: MatchRequest,
    index: nat,
    string: Seq<char>,
    buffer: Seq<u8>,
    eof: bool,
    poll: TimerPoll,
)
    requires
        req.hit(buffer) matches Hit::Found { index: i, .. } && i == index,
        req.matches@[index as int] matches Match::Utf8(s) && s@ == string,
        stands_in_bytes(string, buffer),
    ensures
        ({
            let step = match_step(req, buffer, eof, poll);
            &&& step.outcome matches Some(Outcome::Matched { index: i, output }) && i == index
                && buffer == output + encode_utf8(string) + step.buffer && (valid_utf8(buffer)
                ==> valid_utf8(output) && encode_utf8(text_of(output)) == output)
            &&& valid_utf8(buffer) ==> valid_utf8(step.buffer)
        }),
{
    law_a_match_is_in_the_output(req.matches@, req.mode, buffer);
    if let Hit::Found { index: i, start, end } = req.hit(buffer) {
        let output = buffer.take(start as int);
        if valid_utf8(buffer) {
            decode_utf8_encode_utf8(output);
        }
        assert(buffer =~= output + buffer.subrange(start as int, end as int) + buffer.skip(
            end as int,
        ));
    }
}

/// The index in what comes of a search is that of one of the patterns.
pub(crate) proof fn lemma_conclusion_names_a_pattern(
    matches: Seq<Match>,
    mode: MatchMode,
    timeout: Timeout,
    buffer: Seq<u8>,
    eof: bool,
    poll: TimerPoll,
)
    ensures
        conclusion(
            matches,
            timeout,
            hit(matches, mode, buffer),
            buffer,
            eof,
            poll,
        ).outcome matches Some(Outcome::Matched { index, .. }) ==> index < matches.len(),
{
    lemma_hit_from(matches, parts_of(mode, buffer), 0);
    lemma_first_index(matches, |m: Match| m is Eof);
    lemma_first_index(matches, |m: Match| m is Timeout);
}

/// The index in an answer is that of a pattern of the request. A client that waits for one pattern
/// is answered with the index 0.
pub proof fn law_answers_name_a_pattern(
    req: MatchRequest,
    buffer: Seq<u8>,
    eof: bool,
    poll: TimerPoll,
)
    ensures
        match_step(req, buffer, eof, poll).outcome matches Some(Outcome::Matched { index, .. })
            ==> index < req.matches@.len(),
        req.matches@.len() == 1 ==> (match_step(req, buffer, eof, poll).outcome matches Some(
            Outcome::Matched { index, .. },
        ) ==> index == 0),
{
    lemma_conclusion_names_a_pattern(req.matches@, req.mode, req.timeout, buffer, eof, poll);
}

/// At the end of the output every request is answered: with all the output where it waits for the
/// end, and else with the error that says so, unless a pattern matches.
pub proof fn law_eof_answers(req: MatchRequest, buffer: Seq<u8>, poll: TimerPoll)
    requires
        req.hit(buffer) is NotFound,
    ensures
        ({
            let step = match_step(req, buffer, true, poll);
            match eof_index(req.matches@) {
                Some(index) => {
                    &&& step.outcome == Some(Outcome::Matched { index, output: buffer })
                    &&& step.buffer.len() == 0
                },
                None => step.outcome == Some(Outcome::Eof) && step.buffer == buffer,
            }
        }),
{
}

/// When the time of a request is over, the request is answered: with all the output where it waits
/// for that, and else with the error that says so, unless a pattern matches or the output ends.
pub proof fn law_timeout_answers(req: MatchRequest, buffer: Seq<u8>, poll: TimerPoll)
    requires
        req.hit(buffer) is NotFound,
        req.timeout.over(poll) == Ok::<bool, io::Error>(true),
    ensures
        ({
            let step = match_step(req, buffer, false, poll);
            match timeout_index(req.matches@) {
                Some(index) => {
                    &&& step.outcome == Some(Outcome::Matched { index, output: buffer })
                    &&& step.buffer.len() == 0
                },
                None => step.outcome == Some(Outcome::Timeout) && step.buffer == buffer,
            }
        }),
{
}

/// A request without a timeout never times out: as long as nothing matches and the output goes on,
/// it waits.
pub proof fn law_without_timeout_waits(req: MatchRequest, buffer: Seq<u8>, poll: TimerPoll)
    requires
        req.timeout is Never,
        req.hit(buffer) is NotFound,
    ensures
        match_step(req, buffer, false, poll).outcome is None,
        match_step(req, buffer, false, poll).buffer == buffer,
        match_step(req, buffer, false, poll).timeout is Never,
{
}

/// Time that is over stays over, whatever the timer is said to show.
pub proof fn law_timeout_stays_over(timeout: Timeout, first: TimerPoll, second: TimerPoll)
    requires
        timeout.over(first) == Ok::<bool, io::Error>(true),
    ensures
        timeout.after(first).over(second) == Ok::<bool, io::Error>(true),
        timeout.after(first) is Finished,
{
}

/// The requests are served first come first served: those that are answered are the first in the
/// queue, in their order, those that are left are the others, in theirs, and but for its timeout no
/// request changes.
pub proof fn law_first_come_first_served(
    requests: Seq<MatchRequest>,
    polls: Seq<TimerPoll>,
    buffer: Seq<u8>,
    eof: bool,
)
    ensures
        ({
            let p = pass(requests, polls, buffer, eof);
            let n = p.answers.len() as int;
            &&& n + p.queue.len() == requests.len()
            &&& forall|i: int|
                0 <= i < n ==> (#[trigger] p.answers[i]).0 == requests[i].with_timeout(
                    p.answers[i].0.timeout,
                )
            &&& forall|i: int|
                0 <= i < p.queue.len() ==> #[trigger] p.queue[i] == requests[n + i].with_timeout(
                    p.queue[i].timeout,
                )
        }),
    decreases requests.len(),
{
    if requests.len() > 0 && fault_of(requests[0].hit(buffer)) is None {
        let step = match_step(requests[0], buffer, eof, polls[0]);
        if step.outcome is Some {
            let rest = pass(requests.skip(1), polls.skip(1), step.buffer, eof);
            let p = pass(requests, polls, buffer, eof);
            law_first_come_first_served(requests.skip(1), polls.skip(1), step.buffer, eof);
            assert forall|i: int| 0 <= i < p.answers.len() implies (#[trigger] p.answers[i]).0
                == requests[i].with_timeout(p.answers[i].0.timeout) by {
                if i > 0 {
                    assert(p.answers[i] == rest.answers[i - 1]);
                }
            }
            let n = p.answers.len() as int;
            assert forall|i: int| 0 <= i < p.queue.len() implies #[trigger] p.queue[i]
                == requests[n + i].with_timeout(p.queue[i].timeout) by {
                assert(p.queue[i] == rest.queue[i]);
                assert(requests.skip(1)[n - 1 + i] == requests[n + i]);
            }
        }
    }
}

/// No output is lost and none comes up twice: what a pass leaves is the end of the output that it
/// was given.
pub proof fn law_a_pass_leaves_the_end_of_the_output(
    requests: Seq<MatchRequest>,
    polls: Seq<TimerPoll>,
    buffer: Seq<u8>,
    eof: bool,
)
    ensures
        is_end_of(pass(requests, polls, buffer, eof).buffer, buffer),
    decreases requests.len(),
{
    let p = pass(requests, polls, buffer, eof);
    if p.answers.len() == 0 {
        lemma_end_of_itself(buffer);
    } else {
        let left = match_step(requests[0], buffer, eof, polls[0]).buffer;
        law_output_is_split(requests[0], buffer, eof, polls[0]);
        lemma_end_of_itself(buffer);
        law_a_pass_leaves_the_end_of_the_output(requests.skip(1), polls.skip(1), left, eof);
        lemma_end_of_end(p.buffer, left, buffer);
    }
}

/// Some output, cut into one piece for each answer: an answer with a match returns the start of its
/// piece, and any other answer has none.
pub open spec fn shares(answers: Seq<(MatchRequest, Outcome)>, pieces: Seq<Seq<u8>>) -> bool {
    &&& pieces.len() == answers.len()
    &&& forall|i: int|
        0 <= i < answers.len() ==> match (#[trigger] answers[i]).1 {
            Outcome::Matched { output, .. } => output.is_prefix_of(pieces[i]),
            _ => pieces[i].len() == 0,
        }
}

/// The pieces that a pass cuts the output into.
proof fn lemma_pass_shares(
    requests: Seq<MatchRequest>,
    polls: Seq<TimerPoll>,
    buffer: Seq<u8>,
    eof: bool,
) -> (pieces: Seq<Seq<u8>>)
    ensures
        shares(pass(requests, polls, buffer, eof).answers, pieces),
        buffer == join(pieces) + pass(requests, polls, buffer, eof).buffer,
    decreases requests.len(),
{
    let p = pass(requests, polls, buffer, eof);
    if p.answers.len() == 0 {
        assert(buffer =~= join(Seq::empty()) + p.buffer);
        Seq::empty()
    } else {
        let step = match_step(requests[0], buffer, eof, polls[0]);
        law_output_is_split(requests[0], buffer, eof, polls[0]);
        let rest = pass(requests.skip(1), polls.skip(1), step.buffer, eof);
        let others = lemma_pass_shares(requests.skip(1), polls.skip(1), step.buffer, eof);
        let first = buffer.take(buffer.len() - step.buffer.len());
        let pieces = seq![first] + others;
        assert(pieces.skip(1) =~= others);
        assert(buffer =~= first + step.buffer);
        assert(first + step.buffer =~= join(pieces) + p.buffer);
        assert forall|i: int| 0 <= i < p.answers.len() implies match (#[trigger] p.answers[i]).1 {
            Outcome::Matched { output, .. } => output.is_prefix_of(pieces[i]),
            _ => pieces[i].len() == 0,
        } by {
            if i > 0 {
                assert(p.answers[i] == rest.answers[i - 1]);
                assert(pieces[i] == others[i - 1]);
            }
        }
        pieces
    }
}

/// No output is returned twice and none is lost between two answers: in the order of the answers,
/// each has a piece of the output of its own, at whose start stands what the answer returns, and
/// these pieces followed by what is left are the output.
pub proof fn law_answers_share_the_output(
    requests: Seq<MatchRequest>,
    polls: Seq<TimerPoll>,
    buffer: Seq<u8>,
    eof: bool,
)
    ensures
        exists|pieces: Seq<Seq<u8>>|
            {
                &&& #[trigger] shares(pass(requests, polls, buffer, eof).answers, pieces)
                &&& buffer == join(pieces) + pass(requests, polls, buffer, eof).buffer
            },
{
    let pieces = lemma_pass_shares(requests, polls, buffer, eof);
    assert(shares(pass(requests, polls, buffer, eof).answers, pieces));
}

/// At the end of the output no request is left.
pub proof fn law_eof_leaves_no_request(
    requests: Seq<MatchRequest>,
    polls: Seq<TimerPoll>,
    buffer: Seq<u8>,
)
    requires
        pass(requests, polls, buffer, true).fault is None,
    ensures
        pass(requests, polls, buffer, true).queue.len() == 0,
        pass(requests, polls, buffer, true).answers.len() == requests.len(),
    decreases requests.len(),
{
    if requests.len() > 0 {
        let step = match_step(requests[0], buffer, true, polls[0]);
        law_eof_leaves_no_request(requests.skip(1), polls.skip(1), step.buffer);
    }
}

/// Where there is no new output and no timer fires, there are no new answers: another pass changes
/// nothing.
pub proof fn law_a_pass_settles(
    requests: Seq<MatchRequest>,
    polls: Seq<TimerPoll>,
    buffer: Seq<u8>,
    later: Seq<TimerPoll>,
)
    requires
        pass(requests, polls, buffer, false).fault is None,
        later.len() == pass(requests, polls, buffer, false).queue.len(),
        forall|i: int| 0 <= i < later.len() ==> #[trigger] later[i] is NotReady,
    ensures
        ({
            let first = pass(requests, polls, buffer, false);
            let second = pass(first.queue, later, first.buffer, false);
            &&& second.answers.len() == 0
            &&& second.queue == first.queue
            &&& second.buffer == first.buffer
            &&& second.fault is None
        }),
    decreases requests.len(),
{
    let first = pass(requests, polls, buffer, false);
    if requests.len() > 0 {
        let step = match_step(requests[0], buffer, false, polls[0]);
        if step.outcome is Some {
            law_a_pass_settles(requests.skip(1), polls.skip(1), step.buffer, later);
        } else {
            let head = first.queue[0];
            assert(head == requests[0].with_timeout(step.timeout));
            assert(head.hit(buffer) == requests[0].hit(buffer));
            assert(later[0] is NotReady);
            let again = match_step(head, buffer, false, later[0]);
            assert(again.outcome is None);
            assert(head.with_timeout(again.timeout) == head);
            assert(polled(first.queue.skip(1), later.skip(1)) =~= first.queue.skip(1)) by {
                assert forall|i: int| 0 <= i < first.queue.skip(1).len() implies #[trigger] polled(
                    first.queue.skip(1),
                    later.skip(1),
                )[i] == first.queue.skip(1)[i] by {
                    assert(later.skip(1)[i] == later[i + 1]);
                }
            }
            assert(seq![head] + first.queue.skip(1) =~= first.queue);
        }
    }
}

/// The bytes of a queue begin with those of its first request.
proof fn lemma_queued(s: InputState)
    requires
        s.queue.len() > 0,
    ensures
        s.queued() == s.queue[0].bytes + (InputState { queue: s.queue.skip(1), ..s }).queued(),
{
    let bytes = s.queue.map_values(|r: InputView| r.bytes);
    let rest = s.queue.skip(1).map_values(|r: InputView| r.bytes);
    assert(bytes.skip(1) =~= rest);
    assert(bytes[0] == s.queue[0].bytes);
}

/// What a write is offered are the first of the bytes that are still to be written.
pub proof fn law_input_is_offered_in_order(s: InputState)
    requires
        s.valid(),
        s.queue.len() > 0,
    ensures
        s.offered().len() <= s.unwritten().len(),
        s.offered() == s.unwritten().take(s.offered().len() as int),
{
    lemma_queued(s);
    assert(s.unwritten().take(s.offered().len() as int) =~= s.offered());
}

/// Input is written in order, none of it twice and none of it left out: what a write has taken are
/// the first of the bytes that were still to be written, and a write that fails takes none. The
/// requests are acknowledged in the order in which they came.
pub proof fn law_input_is_written_in_order(s: InputState, written: Result<usize, io::Error>)
    requires
        s.valid(),
        s.admits(written),
    ensures
        s.after(written).valid(),
        s.after(written).unwritten() == (match written {
            Ok(n) => s.unwritten().skip(n as int),
            Err(_) => s.unwritten(),
        }),
        written matches Ok(n) ==> n <= s.unwritten().len(),
        s.after(written).acks() == s.acks(),
{
    let t = s.after(written);
    let first = s.queue[0];
    let tail = (InputState { queue: s.queue.skip(1), ..s }).queued();
    lemma_queued(s);
    assert(t.acks() =~= s.acks());
    match written {
        Ok(n) => {
            if s.size + n == first.bytes.len() {
                assert(t.unwritten() =~= tail);
                assert(s.unwritten().skip(n as int) =~= tail);
            } else {
                assert(t.unwritten() =~= s.unwritten().skip(n as int));
            }
        },
        Err(e) => {
            if io_would_block(e) {
                lemma_queued(t);
                assert(t.queue.skip(1) =~= s.queue.skip(1));
                assert(t.unwritten() =~= first.bytes.skip(s.size as int) + tail);
                assert(s.unwritten() =~= first.bytes.skip(s.size as int) + tail);
            }
        },
    }
}

/// However many writes it takes, and however little each of them takes: together they have taken
/// the first bytes of the input, and what they have not taken is still to be written.
pub proof fn law_input_survives_partial_writes(
    s: InputState,
    results: Seq<Result<usize, io::Error>>,
)
    requires
        s.valid(),
        s.admits_all(results),
    ensures
        s.after_all(results).valid(),
        taken(results) <= s.unwritten().len(),
        s.after_all(results).unwritten() == s.unwritten().skip(taken(results) as int),
        s.after_all(results).acks() == s.acks(),
    decreases results.len(),
{
    if results.len() == 0 {
        assert(s.unwritten().skip(0) =~= s.unwritten());
    } else {
        law_input_is_written_in_order(s, results[0]);
        law_input_survives_partial_writes(s.after(results[0]), results.skip(1));
        let n = match results[0] {
            Ok(n) => n as int,
            Err(_) => 0int,
        };
        assert(s.unwritten().skip(n).skip(taken(results.skip(1)) as int) =~= s.unwritten().skip(
            taken(results) as int,
        ));
        assert(s.unwritten().skip(0) =~= s.unwritten());
    }
}

/// A request is done exactly when its last byte is written: then, and only then, it leaves the
/// queue for those that are acknowledged. What is written of it in part is counted; a terminal that
/// is not ready leaves it with what is not written yet; and one that fails changes nothing.
pub proof fn law_a_request_is_done_when_it_is_written(
    s: InputState,
    written: Result<usize, io::Error>,
)
    requires
        s.queue.len() > 0,
        written matches Ok(n) ==> s.size + n <= s.queue[0].bytes.len(),
    ensures
        match written {
            Ok(n) => if s.size + n == s.queue[0].bytes.len() {
                &&& s.after(written).done == s.done.push(s.queue[0])
                &&& s.after(written).queue == s.queue.skip(1)
                &&& s.after(written).size == 0
            } else {
                &&& s.after(written).done == s.done
                &&& s.after(written).queue == s.queue
                &&& s.after(written).size == s.size + n
            },
            Err(e) => if io_kind(e) is WouldBlock {
                &&& s.after(written).done == s.done
                &&& s.after(written).queue.len() == s.queue.len()
                &&& s.after(written).queue[0].bytes == s.queue[0].bytes.skip(s.size as int)
                &&& s.after(written).queue[0].ack == s.queue[0].ack
                &&& s.after(written).queue.skip(1) == s.queue.skip(1)
                &&& s.after(written).size == 0
            } else {
                s.after(written) == s
            },
        },
{
    if let Err(e) = written {
        if io_kind(e) is WouldBlock {
            assert(s.after(written).queue.skip(1) =~= s.queue.skip(1));
        }
    }
}

/// However input is written: once no byte is left to write, no request that holds any is left in
/// the queue, so each of them is done.
pub proof fn law_what_is_written_is_done(s: InputState, results: Seq<Result<usize, io::Error>>)
    requires
        s.size == 0,
        s.admits_all(results),
        s.after_all(results).unwritten().len() == 0,
    ensures
        forall|i: int|
            0 <= i < s.after_all(results).queue.len() ==> (#[trigger] s.after_all(
                results,
            ).queue[i]).bytes.len() == 0,
        s.after_all(results).done.len() + s.after_all(results).queue.len() == s.done.len()
            + s.queue.len(),
{
    lemma_partly_written(s, results);
    let t = s.after_all(results);
    if t.queue.len() > 0 {
        lemma_queued(t);
        lemma_queue_without_bytes(t.queue);
    }
}

/// Of the first request in the queue, as long as it stays there, something is not written yet,
/// unless nothing of it is.
proof fn lemma_partly_written(s: InputState, results: Seq<Result<usize, io::Error>>)
    requires
        s.queue.len() == 0 ==> s.size == 0,
        s.queue.len() > 0 ==> s.size == 0 || s.size < s.queue[0].bytes.len(),
        s.admits_all(results),
    ensures
        ({
            let t = s.after_all(results);
            &&& t.queue.len() == 0 ==> t.size == 0
            &&& t.queue.len() > 0 ==> t.size == 0 || t.size < t.queue[0].bytes.len()
            &&& t.done.len() + t.queue.len() == s.done.len() + s.queue.len()
        }),
    decreases results.len(),
{
    if results.len() > 0 {
        lemma_partly_written(s.after(results[0]), results.skip(1));
    }
}

/// Requests that hold no byte together hold none each.
proof fn lemma_queue_without_bytes(queue: Seq<InputView>)
    requires
        join(queue.map_values(|r: InputView| r.bytes)).len() == 0,
    ensures
        forall|i: int| 0 <= i < queue.len() ==> (#[trigger] queue[i]).bytes.len() == 0,
    decreases queue.len(),
{
    if queue.len() > 0 {
        let all = queue.map_values(|r: InputView| r.bytes);
        let rest = queue.skip(1);
        assert(all.skip(1) =~= rest.map_values(|r: InputView| r.bytes));
        assert(all[0] == queue[0].bytes);
        lemma_queue_without_bytes(rest);
        assert forall|i: int| 0 <= i < queue.len() implies (#[trigger] queue[i]).bytes.len()
            == 0 by {
            if i > 0 {
                assert(queue[i] == rest[i - 1]);
            }
        }
    }
}

/// What the parts of the state of a pass are: what a write is offered is what follows what is
/// written of the first request; what is not written is that of all the requests but what is; and a
/// write may take as much as it is offered.
pub proof fn law_the_state_of_a_pass(s: InputState, written: Result<usize, io::Error>, i: int)
    ensures
        s.valid() <==> {
            &&& s.queue.len() == 0 ==> s.size == 0
            &&& s.queue.len() > 0 ==> s.size <= s.queue[0].bytes.len()
        },
        s.admits(written) <==> {
            &&& s.queue.len() > 0
            &&& written matches Ok(n) ==> s.size + n <= s.queue[0].bytes.len()
        },
        s.queue.len() > 0 ==> s.offered() == s.queue[0].bytes.skip(s.size as int),
        s.queued() == s.queue.map_values(|r: InputView| r.bytes).flatten(),
        s.unwritten() == s.queued().skip(s.size as int),
        s.acks().len() == s.done.len() + s.queue.len(),
        0 <= i < s.done.len() ==> s.acks()[i] == s.done[i].ack,
        0 <= i < s.queue.len() ==> s.acks()[s.done.len() + i] == s.queue[i].ack,
{
    law_join_flattens(s.queue.map_values(|r: InputView| r.bytes));
}

/// Several writes are one write after the other.
pub proof fn law_writes_follow_each_other(
    s: InputState,
    results: Seq<Result<usize, io::Error>>,
    first: Result<usize, io::Error>,
)
    ensures
        s.after_all(Seq::empty()) == s,
        s.admits_all(Seq::empty()),
        taken(Seq::empty()) == 0,
        s.after_all(seq![first] + results) == s.after(first).after_all(results),
        s.admits_all(seq![first] + results) <==> s.admits(first) && s.after(first).admits_all(
            results,
        ),
        taken(seq![first] + results) == taken(results) + (match first {
            Ok(n) => n as nat,
            Err(_) => 0,
        }),
{
    assert((seq![first] + results).skip(1) =~= results);
}

/// The values of requests and of a pass are what they hold. A pass goes on after a write that was
/// taken, is over where the terminal is not ready, and has failed where it cannot be written to.
pub proof fn law_the_values_of_a_pass(
    queue: Seq<InputRequest>,
    pass: InputPass,
    written: Result<usize, io::Error>,
    i: int,
)
    ensures
        inputs(queue).len() == queue.len(),
        0 <= i < queue.len() ==> inputs(queue)[i].bytes == queue[i].0@ && inputs(queue)[i].ack
            == queue[i].1,
        input_state(queue, pass).queue == inputs(queue),
        input_state(queue, pass).done == inputs(pass.done@),
        input_state(queue, pass).size == pass.size,
        written is Ok ==> input_step(written) is Write,
        written matches Err(e) ==> if io_kind(e) is WouldBlock {
            input_step(written) is Stop
        } else {
            input_step(written) == InputStep::Failed(e)
        },
{
}

/// An error says that the terminal is not ready exactly where it is of that kind.
pub proof fn law_not_ready_is_a_kind(e: io::Error)
    ensures
        io_would_block(e) <==> io_kind(e) is WouldBlock,
{
}

} // verus!
