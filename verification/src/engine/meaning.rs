//! What the search, the requests and the session do, told of their inputs and results alone.
use super::errors::ExpectError;
use super::laws::{
    lemma_hit_from, lemma_place_from, lemma_string_place, stands_in_bytes, stays_in_a_line,
};
use super::match_request::{
    eof_index, fault_of, fault_view, lemma_first_index, outcome_view, timeout_index, MatchOutcome,
    MatchRequest, Outcome, Timeout, TimerPoll,
};
use super::matching::{
    fits, found_view, hit, parts_of, place_from, place_in, same_match, scan_view, Found, Hit, Match,
    MatchFault, MatchMode, Place,
};
use super::session::{answers_view, conclusion, match_step, opt_outcome, pass, polled, Answer};
use crate::outside::{regex_find, regex_source};
use crate::text::{
    byte_at, law_a_text_stands_for_its_bytes, law_first_occurrence, line_start, split_lines,
    text_of,
};
use regex::Regex;
use std::io;
use vstd::prelude::*;
use vstd::utf8::{decode_utf8, encode_utf8, valid_utf8};

verus! {

/// Two patterns are the same where they are of one sort and hold the same: regular expressions by
/// their text, strings and bytes by what they are.
pub proof fn law_patterns_are_told_apart(a: Match, b: Match)
    ensures
        same_match(a, b) <==> {
            ||| a matches Match::Regex(r) && b matches Match::Regex(s) && regex_source(r)
                == regex_source(s)
            ||| a matches Match::Utf8(r) && b matches Match::Utf8(s) && r@ == s@
            ||| a matches Match::Bytes(r) && b matches Match::Bytes(s) && r@ == s@
            ||| a is Eof && b is Eof
            ||| a is Timeout && b is Timeout
        },
{
}

/// In raw mode the output is searched as a whole, in line mode line by line.
pub proof fn law_the_mode_cuts_the_output(output: Seq<u8>)
    ensures
        parts_of(MatchMode::Raw, output) == seq![output],
        parts_of(MatchMode::Line, output) == split_lines(output),
{
}

/// The end of the output and a timeout stand in no output, and for bytes there is no search.
pub proof fn law_only_text_is_searched_for(m: Match, part: Seq<u8>)
    ensures
        m is Eof ==> place_in(m, part) is Absent,
        m is Timeout ==> place_in(m, part) is Absent,
        m is Bytes <==> place_in(m, part) is Unsupported,
{
}

/// A regular expression is found in some output exactly where it is found in its text, from the
/// byte that the start of the match stands for up to the one that its end stands for. In valid
/// UTF-8 these are the very offsets of the match.
pub proof fn law_a_regex_matches_where_it_is_found(re: Regex, part: Seq<u8>)
    ensures
        match regex_find(re, text_of(part)) {
            Some((start, end)) => start <= end <= encode_utf8(text_of(part)).len() ==> {
                &&& place_in(Match::Regex(re), part) == Place::At {
                    start: byte_at(part, start),
                    end: byte_at(part, end),
                }
                &&& valid_utf8(part) ==> place_in(Match::Regex(re), part) == Place::At {
                    start,
                    end,
                }
            },
            None => place_in(Match::Regex(re), part) is Absent,
        },
{
    if valid_utf8(part) {
        law_a_text_stands_for_its_bytes(part);
    }
}

/// A string is found at the first place where it stands, up to its end, and it is not found where
/// it does not stand. It stands in the bytes of the output; where it holds U+FFFD, which also
/// stands for bytes that are no text, it stands in the text.
pub proof fn law_a_string_matches_where_it_stands(string: String, part: Seq<u8>)
    ensures
        ({
            let needle = encode_utf8(string@);
            let len = needle.len() as int;
            if valid_utf8(part) || !string@.contains('\u{FFFD}') {
                match place_in(Match::Utf8(string), part) {
                    Place::At { start, end } => {
                        &&& end == start + len
                        &&& end <= part.len()
                        &&& part.subrange(start as int, end as int) == needle
                        &&& forall|k: int|
                            0 <= k < start ==> #[trigger] part.subrange(k, k + len) != needle
                    },
                    Place::Absent => forall|k: int|
                        0 <= k && k + len <= part.len() ==> #[trigger] part.subrange(k, k + len)
                            != needle,
                    Place::Unsupported => false,
                }
            } else {
                let hay = encode_utf8(text_of(part));
                match place_in(Match::Utf8(string), part) {
                    Place::At { start, end } => exists|i: int|
                        {
                            &&& 0 <= i
                            &&& i + len <= hay.len()
                            &&& #[trigger] hay.subrange(i, i + len) == needle
                            &&& start == byte_at(part, i as nat)
                            &&& end == byte_at(part, (i + len) as nat)
                            &&& forall|k: int|
                                0 <= k < i ==> #[trigger] hay.subrange(k, k + len) != needle
                        },
                    Place::Absent => forall|k: int|
                        0 <= k && k + len <= hay.len() ==> #[trigger] hay.subrange(k, k + len)
                            != needle,
                    Place::Unsupported => false,
                }
            }
        }),
{
    let needle = encode_utf8(string@);
    let len = needle.len() as int;
    if valid_utf8(part) || !string@.contains('\u{FFFD}') {
        assert(stands_in_bytes(string@, part));
        lemma_string_place(string@, part);
        law_first_occurrence(part, needle);
        if let Place::At { start, end } = place_in(Match::Utf8(string), part) {
            crate::text::lemma_first_occurrence(part, needle, start);
        } else {
            assert forall|k: int|
                0 <= k && k + len <= part.len() implies #[trigger] part.subrange(k, k + len)
                != needle by {
                assert(!crate::text::occurs_at(part, needle, k));
            }
        }
    } else {
        law_first_occurrence(encode_utf8(text_of(part)), needle);
    }
}

/// A search tries the patterns in order, each on all the parts of the output in order. It finds the
/// first pattern that stands in one of them, in the first of them in which it does; it cannot go on
/// at the first pattern for which there is no search; and it finds nothing where no pattern stands
/// in any part.
pub proof fn law_a_search_is_in_order(matches: Seq<Match>, mode: MatchMode, output: Seq<u8>)
    ensures
        ({
            let parts = parts_of(mode, output);
            match hit(matches, mode, output) {
                Hit::Found { index, start, end } => {
                    &&& index < matches.len()
                    &&& forall|j: int, k: int|
                        0 <= j < index && 0 <= k < parts.len() ==> #[trigger] place_in(
                            matches[j],
                            parts[k],
                        ) is Absent
                    &&& exists|l: nat|
                        {
                            &&& l < parts.len()
                            &&& line_start(parts, l) <= start
                            &&& line_start(parts, l) <= end
                            &&& #[trigger] place_in(matches[index as int], parts[l as int])
                                == Place::At {
                                start: (start - line_start(parts, l)) as nat,
                                end: (end - line_start(parts, l)) as nat,
                            }
                            &&& forall|k: int|
                                0 <= k < l ==> #[trigger] place_in(
                                    matches[index as int],
                                    parts[k],
                                ) is Absent
                        }
                },
                Hit::Unsupported { index } => {
                    &&& index < matches.len()
                    &&& matches[index as int] is Bytes
                    &&& parts.len() > 0
                    &&& forall|j: int, k: int|
                        0 <= j < index && 0 <= k < parts.len() ==> #[trigger] place_in(
                            matches[j],
                            parts[k],
                        ) is Absent
                },
                Hit::NotFound => forall|j: int, k: int|
                    0 <= j < matches.len() && 0 <= k < parts.len() ==> #[trigger] place_in(
                        matches[j],
                        parts[k],
                    ) is Absent,
            }
        }),
{
    let parts = parts_of(mode, output);
    lemma_hit_from(matches, parts, 0);
    let bound = match hit(matches, mode, output) {
        Hit::Found { index, .. } => index,
        Hit::Unsupported { index } => index,
        Hit::NotFound => matches.len(),
    };
    assert forall|j: int, k: int|
        0 <= j < bound && 0 <= k < parts.len() implies #[trigger] place_in(
        matches[j],
        parts[k],
    ) is Absent by {
        assert(place_from(matches[j], parts, 0) is Absent);
        lemma_place_from(matches[j], parts, 0);
    }
    match hit(matches, mode, output) {
        Hit::Found { index, start, end } => {
            let l = lemma_place_from(matches[index as int], parts, 0);
            assert(place_in(matches[index as int], parts[l as int]) is At);
        },
        Hit::Unsupported { index } => {
            lemma_place_from(matches[index as int], parts, 0);
        },
        Hit::NotFound => {},
    }
}

/// A regular expression that is found in a part of the output is found in the output, unless a
/// pattern before it is.
pub proof fn law_a_regex_is_found(
    matches: Seq<Match>,
    mode: MatchMode,
    output: Seq<u8>,
    index: nat,
    re: Regex,
    k: int,
    span: (nat, nat),
)
    requires
        index < matches.len(),
        matches[index as int] == Match::Regex(re),
        forall|i: int| 0 <= i < index ==> !(#[trigger] matches[i] is Bytes),
        0 <= k < parts_of(mode, output).len(),
        regex_find(re, text_of(parts_of(mode, output)[k])) == Some(span),
        span.0 <= span.1 <= encode_utf8(text_of(parts_of(mode, output)[k])).len(),
    ensures
        hit(matches, mode, output) matches Hit::Found { index: first, .. } && first <= index,
{
    law_a_search_is_in_order(matches, mode, output);
    let parts = parts_of(mode, output);
    assert(place_in(matches[index as int], parts[k]) is At);
}

/// A regular expression alone, in raw mode and on valid UTF-8, is found exactly where it is found
/// in the decoded output, newlines or not.
pub proof fn law_a_regex_alone_in_raw_mode(re: Regex, output: Seq<u8>)
    requires
        valid_utf8(output),
    ensures
        match regex_find(re, decode_utf8(output)) {
            Some((start, end)) => start <= end <= output.len() ==> hit(
                seq![Match::Regex(re)],
                MatchMode::Raw,
                output,
            ) == (Hit::Found { index: 0, start, end }),
            None => hit(seq![Match::Regex(re)], MatchMode::Raw, output) is NotFound,
        },
{
    law_a_text_stands_for_its_bytes(output);
    law_a_search_is_in_order(seq![Match::Regex(re)], MatchMode::Raw, output);
    let parts = parts_of(MatchMode::Raw, output);
    assert(place_in(seq![Match::Regex(re)][0], parts[0]) == place_in(Match::Regex(re), output));
}

/// A string alone, in raw mode, is found exactly where it stands first in the output, unless it
/// holds U+FFFD and the output is not all text.
pub proof fn law_a_string_alone_in_raw_mode(string: String, output: Seq<u8>)
    requires
        valid_utf8(output) || !string@.contains('\u{FFFD}'),
    ensures
        ({
            let needle = encode_utf8(string@);
            let len = needle.len() as int;
            match hit(seq![Match::Utf8(string)], MatchMode::Raw, output) {
                Hit::Found { index, start, end } => {
                    &&& index == 0
                    &&& end == start + len
                    &&& end <= output.len()
                    &&& output.subrange(start as int, end as int) == needle
                    &&& forall|k: int|
                        0 <= k < start ==> #[trigger] output.subrange(k, k + len) != needle
                },
                Hit::NotFound => forall|k: int|
                    0 <= k && k + len <= output.len() ==> #[trigger] output.subrange(k, k + len)
                        != needle,
                Hit::Unsupported { .. } => false,
            }
        }),
{
    law_a_string_matches_where_it_stands(string, output);
    law_a_search_is_in_order(seq![Match::Utf8(string)], MatchMode::Raw, output);
    let parts = parts_of(MatchMode::Raw, output);
    assert(place_in(seq![Match::Utf8(string)][0], parts[0]) == place_in(
        Match::Utf8(string),
        output,
    ));
}

/// Which strings the laws on strings speak of.
pub proof fn law_strings_in_bytes_and_in_lines(m: Match, output: Seq<u8>)
    ensures
        m matches Match::Utf8(s) ==> {
            &&& stands_in_bytes(s@, output) <==> (valid_utf8(output) || !s@.contains('\u{FFFD}'))
            &&& stays_in_a_line(m, output) <==> {
                &&& s@.len() > 0
                &&& !s@.contains('\n')
                &&& valid_utf8(output) || !s@.contains('\u{FFFD}')
            }
        },
        m is Eof || m is Timeout ==> stays_in_a_line(m, output),
{
}

/// The results of a search say what the search comes to, number by number.
pub proof fn law_results_say_what_was_found(
    found: Option<Found>,
    scan: Result<Option<Found>, MatchFault>,
    count: nat,
    len: nat,
)
    ensures
        found_view(found) == (match found {
            Some((index, start, end)) => Hit::Found {
                index: index as nat,
                start: start as nat,
                end: end as nat,
            },
            None => Hit::NotFound,
        }),
        scan matches Ok(f) ==> scan_view(scan) == found_view(f),
        scan matches Err(MatchFault::Unsupported { index }) ==> scan_view(scan)
            == (Hit::Unsupported { index: index as nat }),
        fits(found, count, len) <==> (found matches Some((index, start, end)) ==> index < count
            && start <= end && end <= len),
{
}

/// The values of answers tell each of them apart from all others.
pub proof fn law_answers_are_told_apart(outcome: MatchOutcome)
    ensures
        outcome matches Ok((index, output)) ==> outcome_view(outcome) == (Outcome::Matched {
            index: index as nat,
            output: output@,
        }),
        outcome matches Err(ExpectError::Eof) ==> outcome_view(outcome) == Outcome::Eof,
        outcome matches Err(ExpectError::Timeout) ==> outcome_view(outcome) == Outcome::Timeout,
        outcome matches Err(ExpectError::Io(e)) ==> outcome_view(outcome) == Outcome::Io(e),
        outcome matches Err(ExpectError::ChanError) ==> outcome_view(outcome)
            == Outcome::ChanError,
        opt_outcome(Some(outcome)) == Some(outcome_view(outcome)),
        opt_outcome(None) is None,
{
}

/// Each answer stands at its place, with the request that it is for.
pub proof fn law_answers_go_with_their_requests(answers: Seq<Answer>, i: int)
    requires
        0 <= i < answers.len(),
    ensures
        answers_view(answers).len() == answers.len(),
        answers_view(answers)[i].0 == answers[i].request,
        answers_view(answers)[i].1 == outcome_view(answers[i].outcome),
{
}

/// A search faults exactly where it comes to a pattern for which there is none, and a fault names
/// that pattern.
pub proof fn law_faults_name_their_pattern(h: Hit, index: usize)
    ensures
        h matches Hit::Unsupported { index: i } ==> fault_of(h) == Some(i),
        !(h is Unsupported) ==> fault_of(h) is None,
        fault_view(Some(MatchFault::Unsupported { index })) == Some(index as nat),
        fault_view(None) is None,
{
}

/// The time of a request is over once its timer has fired, and never before; a timer that fails is
/// told, and still runs; time that does not run is not over. Nothing but a timer that fires changes
/// the timeout.
pub proof fn law_time_runs_out_once(timeout: Timeout, poll: TimerPoll)
    ensures
        timeout is Active && poll is Ready ==> timeout.over(poll) == Ok::<bool, io::Error>(true)
            && timeout.after(poll) is Finished,
        timeout is Active && poll is NotReady ==> timeout.over(poll) == Ok::<bool, io::Error>(false)
            && timeout.after(poll) == timeout,
        timeout is Active ==> (poll matches TimerPoll::Failed(e) ==> timeout.over(poll) == Err::<
            bool,
            io::Error,
        >(e) && timeout.after(poll) == timeout),
        timeout is Finished ==> timeout.over(poll) == Ok::<bool, io::Error>(true)
            && timeout.after(poll) is Finished,
        timeout is Inactive || timeout is Never ==> timeout.over(poll) == Ok::<bool, io::Error>(
            false,
        ) && timeout.after(poll) == timeout,
{
}

/// The pattern that waits for the end is the first that does, and so is the one that waits for a
/// timeout.
pub proof fn law_the_first_that_waits(matches: Seq<Match>)
    ensures
        match eof_index(matches) {
            Some(i) => i < matches.len() && matches[i as int] is Eof && forall|j: int|
                0 <= j < i ==> !(#[trigger] matches[j] is Eof),
            None => forall|j: int| 0 <= j < matches.len() ==> !(#[trigger] matches[j] is Eof),
        },
        match timeout_index(matches) {
            Some(i) => i < matches.len() && matches[i as int] is Timeout && forall|j: int|
                0 <= j < i ==> !(#[trigger] matches[j] is Timeout),
            None => forall|j: int| 0 <= j < matches.len() ==> !(#[trigger] matches[j] is Timeout),
        },
{
    lemma_first_index(matches, |m: Match| m is Eof);
    lemma_first_index(matches, |m: Match| m is Timeout);
}

/// A request with another timeout is the same but for that, and what a search for its patterns
/// comes to is what a search for them comes to in its mode.
pub proof fn law_a_request_is_its_parts(req: MatchRequest, timeout: Timeout, output: Seq<u8>)
    ensures
        req.with_timeout(timeout) == (MatchRequest {
            matches: req.matches,
            response_tx: req.response_tx,
            timeout,
            mode: req.mode,
        }),
        req.hit(output) == hit(req.matches@, req.mode, output),
{
}

/// Whatever pattern matched: what precedes the match answers the request, and exactly what follows
/// the match is left. Whether the output ends and whether the time is over does not matter then.
pub proof fn law_a_match_is_cut_out(
    matches: Seq<Match>,
    timeout: Timeout,
    index: nat,
    start: nat,
    end: nat,
    buffer: Seq<u8>,
    eof: bool,
    poll: TimerPoll,
)
    requires
        start <= end <= buffer.len(),
    ensures
        ({
            let step = conclusion(
                matches,
                timeout,
                Hit::Found { index, start, end },
                buffer,
                eof,
                poll,
            );
            &&& step.outcome matches Some(Outcome::Matched { index: i, output }) && i == index
                && output.len() == start && step.buffer.len() == buffer.len() - end && buffer
                == output + buffer.subrange(start as int, end as int) + step.buffer
            &&& step.timeout == timeout
        }),
{
    assert(buffer =~= buffer.take(start as int) + buffer.subrange(start as int, end as int)
        + buffer.skip(end as int));
}

/// Where nothing is found and the output has ended, the first pattern that waits for the end takes
/// all the output; without one the answer is that the output has ended, and the output is kept.
pub proof fn law_the_end_of_the_output_answers(
    matches: Seq<Match>,
    timeout: Timeout,
    buffer: Seq<u8>,
    poll: TimerPoll,
    index: int,
)
    ensures
        ({
            let step = conclusion(matches, timeout, Hit::NotFound, buffer, true, poll);
            &&& 0 <= index < matches.len() && matches[index] is Eof && (forall|j: int|
                0 <= j < index ==> !(#[trigger] matches[j] is Eof)) ==> step.outcome == Some(
                Outcome::Matched { index: index as nat, output: buffer },
            ) && step.buffer.len() == 0
            &&& (forall|j: int| 0 <= j < matches.len() ==> !(#[trigger] matches[j] is Eof))
                ==> step.outcome == Some(Outcome::Eof) && step.buffer == buffer
            &&& step.timeout == timeout
        }),
{
    law_the_first_that_waits(matches);
}

/// Where nothing is found, the output goes on and the time is over, the first pattern that waits
/// for that takes all the output; without one the answer is that the time is over, and the output
/// is kept.
pub proof fn law_the_end_of_the_time_answers(
    matches: Seq<Match>,
    timeout: Timeout,
    buffer: Seq<u8>,
    poll: TimerPoll,
    index: int,
)
    requires
        timeout is Finished || (timeout is Active && poll is Ready),
    ensures
        ({
            let step = conclusion(matches, timeout, Hit::NotFound, buffer, false, poll);
            &&& 0 <= index < matches.len() && matches[index] is Timeout && (forall|j: int|
                0 <= j < index ==> !(#[trigger] matches[j] is Timeout)) ==> step.outcome == Some(
                Outcome::Matched { index: index as nat, output: buffer },
            ) && step.buffer.len() == 0
            &&& (forall|j: int| 0 <= j < matches.len() ==> !(#[trigger] matches[j] is Timeout))
                ==> step.outcome == Some(Outcome::Timeout) && step.buffer == buffer
            &&& step.timeout is Finished
        }),
{
    law_the_first_that_waits(matches);
}

/// Where nothing is found, the output goes on and the time is not over, there is no answer and
/// nothing changes; a timer that fails is the answer.
pub proof fn law_a_request_waits(
    matches: Seq<Match>,
    timeout: Timeout,
    buffer: Seq<u8>,
    poll: TimerPoll,
)
    requires
        !(timeout is Finished),
        timeout is Active ==> !(poll is Ready),
    ensures
        ({
            let step = conclusion(matches, timeout, Hit::NotFound, buffer, false, poll);
            &&& step.buffer == buffer
            &&& step.timeout == timeout
            &&& match (timeout, poll) {
                (Timeout::Active(_), TimerPoll::Failed(e)) => step.outcome == Some(Outcome::Io(e)),
                _ => step.outcome is None,
            }
        }),
{
}

/// What comes of a request is what comes of the search for its patterns in its mode.
pub proof fn law_a_request_is_held_against_the_output(
    req: MatchRequest,
    buffer: Seq<u8>,
    eof: bool,
    poll: TimerPoll,
)
    ensures
        match_step(req, buffer, eof, poll) == conclusion(
            req.matches@,
            req.timeout,
            hit(req.matches@, req.mode, buffer),
            buffer,
            eof,
            poll,
        ),
{
}

/// The timer of each request is looked at, and but for that no request changes.
pub proof fn law_timers_are_looked_at(
    requests: Seq<MatchRequest>,
    polls: Seq<TimerPoll>,
    i: int,
)
    requires
        0 <= i < requests.len(),
    ensures
        polled(requests, polls).len() == requests.len(),
        polled(requests, polls)[i].matches == requests[i].matches,
        polled(requests, polls)[i].response_tx == requests[i].response_tx,
        polled(requests, polls)[i].mode == requests[i].mode,
        polled(requests, polls)[i].timeout == requests[i].timeout.after(polls[i]),
{
}

/// A pass answers request after request, each with what comes of it on the output that the answers
/// before have left, and stops at the first that has no answer or cannot be searched for: that one
/// and those behind it stay. `outputs` is the output before each answer, and at last what is left.
#[verifier::spinoff_prover]
pub proof fn law_each_request_gets_its_own_answer(
    requests: Seq<MatchRequest>,
    polls: Seq<TimerPoll>,
    buffer: Seq<u8>,
    eof: bool,
) -> (outputs: Seq<Seq<u8>>)
    requires
        polls.len() == requests.len(),
    ensures
        ({
            let p = pass(requests, polls, buffer, eof);
            let n = p.answers.len() as int;
            &&& n <= requests.len()
            &&& outputs.len() == n + 1
            &&& outputs[0] == buffer
            &&& outputs[n] == p.buffer
            &&& forall|i: int|
                0 <= i < n ==> {
                    let step = match_step(requests[i], outputs[i], eof, polls[i]);
                    &&& !(hit(requests[i].matches@, requests[i].mode, outputs[i]) is Unsupported)
                    &&& step.outcome == Some((#[trigger] p.answers[i]).1)
                    &&& outputs[i + 1] == step.buffer
                    &&& p.answers[i].0 == requests[i].with_timeout(step.timeout)
                }
            &&& n == requests.len() ==> p.queue.len() == 0 && p.fault is None
            &&& n < requests.len() ==> match hit(
                requests[n].matches@,
                requests[n].mode,
                p.buffer,
            ) {
                Hit::Unsupported { index } => p.fault == Some(index) && p.queue == requests.skip(n),
                _ => {
                    let step = match_step(requests[n], p.buffer, eof, polls[n]);
                    &&& p.fault is None
                    &&& step.outcome is None
                    &&& p.queue.len() == requests.len() - n
                    &&& p.queue[0] == requests[n].with_timeout(step.timeout)
                    &&& forall|j: int|
                        0 < j < p.queue.len() ==> #[trigger] p.queue[j] == requests[n
                            + j].with_timeout(requests[n + j].timeout.after(polls[n + j]))
                },
            }
        }),
    decreases requests.len(),
{
    let p = pass(requests, polls, buffer, eof);
    if p.answers.len() == 0 {
        lemma_pass_without_answers(requests, polls, buffer, eof);
        seq![buffer]
    } else {
        let step = match_step(requests[0], buffer, eof, polls[0]);
        let rest = pass(requests.skip(1), polls.skip(1), step.buffer, eof);
        let others = law_each_request_gets_its_own_answer(
            requests.skip(1),
            polls.skip(1),
            step.buffer,
            eof,
        );
        let outputs = seq![buffer] + others;
        let n = p.answers.len() as int;
        assert forall|i: int| 0 <= i < n implies {
            let step = match_step(requests[i], outputs[i], eof, polls[i]);
            &&& !(hit(requests[i].matches@, requests[i].mode, outputs[i]) is Unsupported)
            &&& step.outcome == Some((#[trigger] p.answers[i]).1)
            &&& outputs[i + 1] == step.buffer
            &&& p.answers[i].0 == requests[i].with_timeout(step.timeout)
        } by {
            if i > 0 {
                assert(p.answers[i] == rest.answers[i - 1]);
                assert(requests.skip(1)[i - 1] == requests[i]);
                assert(polls.skip(1)[i - 1] == polls[i]);
                assert(outputs[i] == others[i - 1]);
                assert(outputs[i + 1] == others[i]);
            }
        }
        assert(outputs[n] == others[n - 1]);
        if n < requests.len() {
            assert(requests.skip(1)[n - 1] == requests[n]);
            assert(polls.skip(1)[n - 1] == polls[n]);
            assert(requests.skip(1).skip(n - 1) =~= requests.skip(n));
            assert forall|j: int|
                0 < j < p.queue.len() && p.fault is None implies #[trigger] p.queue[j]
                == requests[n + j].with_timeout(requests[n + j].timeout.after(polls[n + j])) by {
                assert(rest.queue[j] == p.queue[j]);
                assert(requests.skip(1)[n - 1 + j] == requests[n + j]);
                assert(polls.skip(1)[n - 1 + j] == polls[n + j]);
            }
        }
        outputs
    }
}

/// Where a pass gives no answer, all the requests stay.
proof fn lemma_pass_without_answers(
    requests: Seq<MatchRequest>,
    polls: Seq<TimerPoll>,
    buffer: Seq<u8>,
    eof: bool,
)
    requires
        polls.len() == requests.len(),
        pass(requests, polls, buffer, eof).answers.len() == 0,
    ensures
        ({
            let p = pass(requests, polls, buffer, eof);
            &&& p.buffer == buffer
            &&& p.queue.len() == requests.len()
            &&& requests.len() == 0 ==> p.fault is None
            &&& requests.len() > 0 ==> match hit(requests[0].matches@, requests[0].mode, buffer) {
                Hit::Unsupported { index } => p.fault == Some(index) && p.queue == requests.skip(0),
                _ => {
                    let step = match_step(requests[0], buffer, eof, polls[0]);
                    &&& p.fault is None
                    &&& step.outcome is None
                    &&& p.queue[0] == requests[0].with_timeout(step.timeout)
                    &&& forall|j: int|
                        0 < j < p.queue.len() ==> #[trigger] p.queue[j]
                            == requests[j].with_timeout(requests[j].timeout.after(polls[j]))
                },
            }
        }),
{
    if requests.len() > 0 {
        let p = pass(requests, polls, buffer, eof);
        let step = match_step(requests[0], buffer, eof, polls[0]);
        let rest = requests.skip(1);
        assert(requests.skip(0) =~= requests);
        if let Some(outcome) = step.outcome {
            if fault_of(requests[0].hit(buffer)) is None {
                assert(p.answers[0] == (requests[0].with_timeout(step.timeout), outcome));
            }
        } else if p.fault is None {
            assert forall|j: int| 0 < j < p.queue.len() implies #[trigger] p.queue[j]
                == requests[j].with_timeout(requests[j].timeout.after(polls[j])) by {
                assert(p.queue[j] == polled(rest, polls.skip(1))[j - 1]);
                assert(rest[j - 1] == requests[j]);
                assert(polls.skip(1)[j - 1] == polls[j]);
            }
        }
    }
}

/// The first request in the queue is answered with all the output where it waits for a timeout, its
/// time is over, nothing is found and the output goes on.
pub proof fn law_a_timeout_takes_all_the_output(
    requests: Seq<MatchRequest>,
    polls: Seq<TimerPoll>,
    buffer: Seq<u8>,
    index: int,
)
    requires
        requests.len() > 0,
        hit(requests[0].matches@, requests[0].mode, buffer) is NotFound,
        requests[0].timeout is Finished || (requests[0].timeout is Active && polls[0] is Ready),
        0 <= index < requests[0].matches@.len(),
        requests[0].matches@[index] is Timeout,
        forall|j: int| 0 <= j < index ==> !(#[trigger] requests[0].matches@[j] is Timeout),
    ensures
        ({
            let p = pass(requests, polls, buffer, false);
            &&& p.answers.len() > 0
            &&& p.answers[0].0.response_tx == requests[0].response_tx
            &&& p.answers[0].1 == (Outcome::Matched { index: index as nat, output: buffer })
        }),
{
    law_the_end_of_the_time_answers(
        requests[0].matches@,
        requests[0].timeout,
        buffer,
        polls[0],
        index,
    );
}

} // verus!
