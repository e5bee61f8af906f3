//! Patterns, and where they match in the output of a process.
use crate::outside::{find_regex, regex_find, regex_source};
use crate::text::{
    byte_at, bytes_before, bytes_equal, find_bytes, first_occurrence, get_lines, holds_replacement,
    law_offsets_keep_their_order, lemma_line_start_grows, lemma_lines_len, line_bytes, line_start,
    split_lines, text_of, Line, LineMode, REPLACEMENT,
};
use regex::Regex;
use vstd::prelude::*;
use vstd::utf8::{encode_utf8, encode_utf8_decode_utf8};

verus! {

/// Something to wait for.
#[derive(Debug)]
pub enum Match {
    /// Match a regular expression
    Regex(Regex),
    /// Match a specific utf-8 string
    Utf8(String),
    /// Match a specific sequence of bytes
    Bytes(Vec<u8>),
    /// Expect the process's stdout to close, resulting in EOF
    Eof,
    /// Expect a timeout
    Timeout,
}

/// Two patterns wait for the same thing. Regular expressions are told apart by their text.
pub open spec fn same_match(a: Match, b: Match) -> bool {
    match (a, b) {
        (Match::Regex(r), Match::Regex(s)) => regex_source(r) == regex_source(s),
        (Match::Utf8(r), Match::Utf8(s)) => r@ == s@,
        (Match::Bytes(r), Match::Bytes(s)) => r@ == s@,
        (Match::Eof, Match::Eof) => true,
        (Match::Timeout, Match::Timeout) => true,
        _ => false,
    }
}

/// Whether two texts are equal.
fn str_equal(a: &str, b: &str) -> (equal: bool)
    ensures
        equal == (a@ == b@),
{
    proof {
        encode_utf8_decode_utf8(a@);
        encode_utf8_decode_utf8(b@);
    }
    bytes_equal(a.as_bytes(), b.as_bytes())
}

impl vstd::std_specs::cmp::PartialEqSpecImpl for Match {
    open spec fn obeys_eq_spec() -> bool {
        true
    }

    open spec fn eq_spec(&self, other: &Match) -> bool {
        same_match(*self, *other)
    }
}

impl PartialEq for Match {
    fn eq(&self, other: &Match) -> (equal: bool)
        ensures
            equal == same_match(*self, *other),
    {
        match (self, other) {
            (Match::Regex(r), Match::Regex(s)) => str_equal(r.as_str(), s.as_str()),
            (Match::Utf8(r), Match::Utf8(s)) => str_equal(r.as_str(), s.as_str()),
            (Match::Bytes(r), Match::Bytes(s)) => bytes_equal(r.as_slice(), s.as_slice()),
            (Match::Eof, Match::Eof) => true,
            (Match::Timeout, Match::Timeout) => true,
            _ => false,
        }
    }
}

impl Clone for Match {
    fn clone(&self) -> (copy: Match)
        ensures
            same_match(*self, copy),
            forall|part: Seq<u8>| #[trigger] place_in(copy, part) == place_in(*self, part),
    {
        match self {
            Match::Regex(re) => Match::Regex(re.clone()),
            Match::Utf8(s) => Match::Utf8(s.clone()),
            Match::Bytes(bytes) => Match::Bytes(bytes.clone()),
            Match::Eof => Match::Eof,
            Match::Timeout => Match::Timeout,
        }
    }
}

/// How the output is cut before it is searched.
#[derive(Debug, Clone, Copy, PartialEq, Eq, Structural)]
pub enum MatchMode {
    /// The output is searched as a whole.
    Raw,
    /// The output is split into lines, and each line is searched.
    Line,
}

/// The parts that a mode cuts the output into.
pub open spec fn parts_of(mode: MatchMode, output: Seq<u8>) -> Seq<Seq<u8>> {
    match mode {
        MatchMode::Line => split_lines(output),
        MatchMode::Raw => seq![output],
    }
}

/// Where one pattern matches.
pub enum Place {
    /// From one index up to another.
    At { start: nat, end: nat },
    /// Nowhere.
    Absent,
    /// There is no search for the pattern.
    Unsupported,
}

/// Where a regular expression matches first in some bytes: where it does in their text, counted in
/// the bytes that the text stands for.
pub open spec fn regex_place(re: Regex, part: Seq<u8>) -> Place {
    match regex_find(re, text_of(part)) {
        Some((start, end)) => if start <= end <= encode_utf8(text_of(part)).len() {
            Place::At { start: byte_at(part, start), end: byte_at(part, end) }
        } else {
            Place::Absent
        },
        None => Place::Absent,
    }
}

/// Where a string stands first in some bytes. The replacement for bytes that are no text is met in
/// their text only, so a string that holds it is looked for there, and where it stands is counted
/// in the bytes that the text stands for.
pub open spec fn string_place(string: Seq<char>, part: Seq<u8>) -> Place {
    let needle = encode_utf8(string);
    if string.contains(REPLACEMENT) {
        match first_occurrence(encode_utf8(text_of(part)), needle) {
            Some(start) => Place::At {
                start: byte_at(part, start),
                end: byte_at(part, start + needle.len()),
            },
            None => Place::Absent,
        }
    } else {
        match first_occurrence(part, needle) {
            Some(start) => Place::At { start, end: start + needle.len() },
            None => Place::Absent,
        }
    }
}

/// Where a pattern matches first in some bytes. The end of the output and the passing of time are
/// no part of any output.
pub open spec fn place_in(m: Match, part: Seq<u8>) -> Place {
    match m {
        Match::Regex(re) => regex_place(re, part),
        Match::Utf8(s) => string_place(s@, part),
        Match::Bytes(_) => Place::Unsupported,
        Match::Eof => Place::Absent,
        Match::Timeout => Place::Absent,
    }
}

/// Where a pattern matches in the first of the parts from `k` on in which it does. The indices
/// count from the start of the first part.
pub open spec fn place_from(m: Match, parts: Seq<Seq<u8>>, k: nat) -> Place
    decreases parts.len() - k,
{
    if k >= parts.len() {
        Place::Absent
    } else {
        match place_in(m, parts[k as int]) {
            Place::At { start, end } => Place::At {
                start: line_start(parts, k) + start,
                end: line_start(parts, k) + end,
            },
            Place::Absent => place_from(m, parts, k + 1),
            Place::Unsupported => Place::Unsupported,
        }
    }
}

/// What a search for several patterns comes to.
pub enum Hit {
    /// The pattern at `index` matches the output from `start` up to `end`.
    Found { index: nat, start: nat, end: nat },
    /// The search came to a pattern for which there is none.
    Unsupported { index: nat },
    /// No pattern matches.
    NotFound,
}

/// What a search comes to that tries the patterns from `i` on, one after the other.
pub open spec fn hit_from(matches: Seq<Match>, parts: Seq<Seq<u8>>, i: nat) -> Hit
    decreases matches.len() - i,
{
    if i >= matches.len() {
        Hit::NotFound
    } else {
        match place_from(matches[i as int], parts, 0) {
            Place::At { start, end } => Hit::Found { index: i, start, end },
            Place::Absent => hit_from(matches, parts, i + 1),
            Place::Unsupported => Hit::Unsupported { index: i },
        }
    }
}

/// What a search for the patterns in some output comes to.
pub open spec fn hit(matches: Seq<Match>, mode: MatchMode, output: Seq<u8>) -> Hit {
    hit_from(matches, parts_of(mode, output), 0)
}

/// A match: the index of the pattern, and where it starts and ends in the output.
pub type Found = (usize, usize, usize);

/// Why a request cannot be held against the output.
#[derive(Debug, Clone, Copy, PartialEq, Eq, Structural)]
pub enum MatchFault {
    /// The search came to a pattern for which there is none.
    Unsupported { index: usize },
}

/// The value of a match, if there is one.
pub open spec fn found_view(found: Option<Found>) -> Hit {
    match found {
        Some((index, start, end)) => Hit::Found {
            index: index as nat,
            start: start as nat,
            end: end as nat,
        },
        None => Hit::NotFound,
    }
}

/// The value of the result of a search.
pub open spec fn scan_view(scan: Result<Option<Found>, MatchFault>) -> Hit {
    match scan {
        Ok(found) => found_view(found),
        Err(MatchFault::Unsupported { index }) => Hit::Unsupported { index: index as nat },
    }
}

/// A match is one of a pattern among `count`, in an output of `len` bytes.
pub open spec fn fits(found: Option<Found>, count: nat, len: nat) -> bool {
    found matches Some((index, start, end)) ==> index < count && start <= end <= len
}

/// Where one pattern matches in one part of the output.
enum Spot {
    At(usize, usize),
    Absent,
    Unsupported,
}

/// Looks for a pattern in a part of the output.
fn find_in(m: &Match, line: &Line) -> (spot: Spot)
    requires
        line.valid(),
    ensures
        place_in(*m, line.bytes@) == (match spot {
            Spot::At(start, end) => Place::At { start: start as nat, end: end as nat },
            Spot::Absent => Place::Absent,
            Spot::Unsupported => Place::Unsupported,
        }),
        spot matches Spot::At(start, end) ==> start <= end <= line.bytes@.len(),
{
    match m {
        Match::Regex(re) => match find_regex(re, line.text.as_str()) {
            Some((start, end)) => {
                proof {
                    law_offsets_keep_their_order(line.bytes@, start as nat, end as nat);
                }
                Spot::At(bytes_before(line.bytes, start), bytes_before(line.bytes, end))
            },
            None => Spot::Absent,
        },
        Match::Utf8(s) => {
            let needle: &[u8] = s.as_str().as_bytes();
            if holds_replacement(s.as_str()) {
                let hay: &[u8] = line.text.as_str().as_bytes();
                match find_bytes(hay, needle) {
                    Some(start) => {
                        let _len: usize = hay.len();
                        let end: usize = start + needle.len();
                        proof {
                            law_offsets_keep_their_order(line.bytes@, start as nat, end as nat);
                        }
                        Spot::At(bytes_before(line.bytes, start), bytes_before(line.bytes, end))
                    },
                    None => Spot::Absent,
                }
            } else {
                match find_bytes(line.bytes, needle) {
                    Some(start) => {
                        let _len: usize = line.bytes.len();
                        Spot::At(start, start + needle.len())
                    },
                    None => Spot::Absent,
                }
            }
        },
        Match::Bytes(_) => Spot::Unsupported,
        Match::Eof => Spot::Absent,
        Match::Timeout => Spot::Absent,
    }
}

/// Tries the patterns one after the other, each on all the parts of the output, and stops at the
/// first that matches.
fn scan_parts(matches: &Vec<Match>, parts: &Vec<Line>) -> (scan: Result<Option<Found>, MatchFault>)
    requires
        forall|k: int| 0 <= k < parts@.len() ==> (#[trigger] parts@[k]).valid(),
        line_start(line_bytes(parts@), parts@.len()) <= usize::MAX,
    ensures
        scan_view(scan) == hit_from(matches@, line_bytes(parts@), 0),
        scan matches Ok(found) ==> fits(
            found,
            matches@.len(),
            line_start(line_bytes(parts@), parts@.len()),
        ),
{
    let ghost all = line_bytes(parts@);
    let mut i: usize = 0;
    while i < matches.len()
        invariant
            i <= matches@.len(),
            all == line_bytes(parts@),
            forall|k: int| 0 <= k < parts@.len() ==> (#[trigger] parts@[k]).valid(),
            line_start(all, parts@.len()) <= usize::MAX,
            hit_from(matches@, all, 0) == hit_from(matches@, all, i as nat),
        decreases matches@.len() - i,
    {
        let m: &Match = &matches[i];
        let mut offset: usize = 0;
        let mut k: usize = 0;
        while k < parts.len()
            invariant
                i < matches@.len(),
                *m == matches@[i as int],
                k <= parts@.len(),
                all == line_bytes(parts@),
                forall|k: int| 0 <= k < parts@.len() ==> (#[trigger] parts@[k]).valid(),
                line_start(all, parts@.len()) <= usize::MAX,
                hit_from(matches@, all, 0) == hit_from(matches@, all, i as nat),
                place_from(*m, all, 0) == place_from(*m, all, k as nat),
                offset == line_start(all, k as nat),
            decreases parts@.len() - k,
        {
            let part: &Line = &parts[k];
            assert(all[k as int] == part.bytes@);
            proof {
                lemma_line_start_grows(all, (k + 1) as nat, parts@.len());
            }
            match find_in(m, part) {
                Spot::At(start, end) => {
                    return Ok(Some((i, offset + start, offset + end)));
                },
                Spot::Absent => {},
                Spot::Unsupported => {
                    return Err(MatchFault::Unsupported { index: i });
                },
            }
            offset += part.bytes.len();
            k += 1;
        }
        i += 1;
    }
    Ok(None)
}

/// Looks for the patterns in the lines of the output.
fn scan_lines(matches: &Vec<Match>, output: &[u8]) -> (scan: Result<Option<Found>, MatchFault>)
    ensures
        scan_view(scan) == hit(matches@, MatchMode::Line, output@),
        scan matches Ok(found) ==> fits(found, matches@.len(), output@.len()),
{
    let lines: Vec<Line> = get_lines(output, LineMode::Full);
    let _len: usize = output.len();
    proof {
        lemma_lines_len(output@);
    }
    scan_parts(matches, &lines)
}

/// Looks for the patterns in the output as a whole.
fn scan_raw(matches: &Vec<Match>, output: &[u8]) -> (scan: Result<Option<Found>, MatchFault>)
    ensures
        scan_view(scan) == hit(matches@, MatchMode::Raw, output@),
        scan matches Ok(found) ==> fits(found, matches@.len(), output@.len()),
{
    let mut parts: Vec<Line> = Vec::new();
    parts.push(Line::of(output));
    let _len: usize = output.len();
    proof {
        assert(line_bytes(parts@) =~= seq![output@]);
        reveal_with_fuel(line_start, 2);
    }
    scan_parts(matches, &parts)
}

/// Looks for the patterns in the output, cut as `mode` says, and says where it came to a pattern
/// for which there is no search.
pub fn scan_buffer(matches: &Vec<Match>, mode: MatchMode, output: &[u8]) -> (scan: Result<
    Option<Found>,
    MatchFault,
>)
    ensures
        scan_view(scan) == hit(matches@, mode, output@),
        scan matches Ok(found) ==> fits(found, matches@.len(), output@.len()),
{
    match mode {
        MatchMode::Line => scan_lines(matches, output),
        MatchMode::Raw => scan_raw(matches, output),
    }
}

/// Looks for the patterns in the lines of the output.
pub fn match_lines(matches: &Vec<Match>, output: &[u8]) -> (found: Option<Found>)
    requires
        !(hit(matches@, MatchMode::Line, output@) is Unsupported),
    ensures
        found_view(found) == hit(matches@, MatchMode::Line, output@),
        fits(found, matches@.len(), output@.len()),
{
    match scan_lines(matches, output) {
        Ok(found) => found,
        Err(_) => None,
    }
}

/// Looks for the patterns in the output as a whole.
pub fn match_raw(matches: &Vec<Match>, output: &[u8]) -> (found: Option<Found>)
    requires
        !(hit(matches@, MatchMode::Raw, output@) is Unsupported),
    ensures
        found_view(found) == hit(matches@, MatchMode::Raw, output@),
        fits(found, matches@.len(), output@.len()),
{
    match scan_raw(matches, output) {
        Ok(found) => found,
        Err(_) => None,
    }
}

/// Looks for the patterns in the output, cut as `mode` says.
pub fn find_buffer_match(matches: &Vec<Match>, mode: MatchMode, output: &[u8]) -> (found: Option<
    Found,
>)
    requires
        !(hit(matches@, mode, output@) is Unsupported),
    ensures
        found_view(found) == hit(matches@, mode, output@),
        fits(found, matches@.len(), output@.len()),
{
    match mode {
        MatchMode::Line => match_lines(matches, output),
        MatchMode::Raw => match_raw(matches, output),
    }
}

} // verus!
