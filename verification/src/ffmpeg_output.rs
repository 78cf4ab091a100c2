//! Reading FFmpeg's output while it converts: the total duration from its log,
//! the position from its `-progress` stream, the tail of its log kept for an error
//! message, and what a finished conversion comes to.
use vstd::prelude::*;
use crate::models::strings_view;
use crate::text::{
    before_first, chars_of, decimal, extend_chars, find, first_occurrence, join_seq, lemma_join_step,
    push_decimal, push_str_chars, string_of, sub_chars, take_until, trim, trimmed,
};

verus! {

/// The value of a string of decimal digits.
pub open spec fn digits_value(d: Seq<char>) -> int
    decreases d.len(),
{
    if d.len() == 0 {
        0
    } else {
        digits_value(d.drop_last()) * 10 + (d.last() as int - '0' as int)
    }
}

/// Every character is a decimal digit.
pub open spec fn all_digits(d: Seq<char>) -> bool {
    forall|i: int| 0 <= i < d.len() ==> '0' <= #[trigger] d[i] <= '9'
}

/// A `u64` as `u64::from_str` reads it: an optional `+`, then one or more decimal
/// digits whose value fits.
pub open spec fn spec_parse_u64(s: Seq<char>) -> Option<u64> {
    let d = if s.len() > 0 && s[0] == '+' { s.drop_first() } else { s };
    if d.len() > 0 && all_digits(d) && digits_value(d) <= u64::MAX {
        Some(digits_value(d) as u64)
    } else {
        None
    }
}

proof fn lemma_digits_grow(d: Seq<char>, k: int)
    requires
        all_digits(d),
        0 <= k <= d.len(),
    ensures
        digits_value(d.take(k)) <= digits_value(d),
        digits_value(d) >= 0,
    decreases d.len() - k,
{
    lemma_digits_nonneg(d);
    if k < d.len() {
        lemma_digits_grow(d, k + 1);
        assert(d.take(k + 1).drop_last() =~= d.take(k));
        lemma_digits_nonneg(d.take(k));
        assert(all_digits(d.take(k + 1)));
    } else {
        assert(d.take(k) =~= d);
    }
}

proof fn lemma_digits_nonneg(d: Seq<char>)
    requires
        all_digits(d),
    ensures
        digits_value(d) >= 0,
    decreases d.len(),
{
    if d.len() > 0 {
        assert(all_digits(d.drop_last()));
        lemma_digits_nonneg(d.drop_last());
    }
}

/// Reads a `u64` as `u64::from_str` does, with the error dropped.
pub fn parse_u64(s: &str) -> (r: Option<u64>)
    ensures
        r == spec_parse_u64(s@),
{
    let cs = chars_of(s);
    let start: usize = if cs.len() > 0 && cs[0] == '+' { 1 } else { 0 };
    let ghost d = if s@.len() > 0 && s@[0] == '+' { s@.drop_first() } else { s@ };
    assert(d =~= cs@.subrange(start as int, cs@.len() as int));
    if start >= cs.len() {
        return None;
    }
    let mut value: u64 = 0;
    let mut k = start;
    while k < cs.len()
        invariant
            cs@ == s@,
            d == (if s@.len() > 0 && s@[0] == '+' { s@.drop_first() } else { s@ }),
            start <= k <= cs@.len(),
            d == cs@.subrange(start as int, cs@.len() as int),
            all_digits(d.take(k - start)),
            value == digits_value(d.take(k - start)),
        decreases cs.len() - k,
    {
        let c = cs[k];
        if c < '0' || c > '9' {
            assert(d[k - start] == c);
            assert(!all_digits(d));
            return None;
        }
        let digit = (c as u64) - ('0' as u64);
        assert(d.take(k - start + 1).drop_last() =~= d.take(k - start));
        assert(d.take(k - start + 1).last() == c);
        if value > (u64::MAX - digit) / 10 {
            proof {
                assert(digits_value(d.take(k - start + 1)) == value * 10 + digit);
                assert(value * 10 + digit > u64::MAX);
                if all_digits(d) {
                    lemma_digits_grow(d, k - start + 1);
                }
            }
            return None;
        }
        value = value * 10 + digit;
        k = k + 1;
    }
    assert(d.take(d.len() as int) =~= d);
    Some(value)
}

/// What a line of FFmpeg's `-progress` stream says of the position.
pub enum ProgressLine {
    /// `out_time_us=`: the position in microseconds, if the value reads as a number.
    Micros(Option<u64>),
    /// `out_time=`: the position as `HH:MM:SS.frac`, trimmed.
    Clock(String),
    /// Any other line.
    Other,
}

/// `line` starts with `prefix`.
pub open spec fn starts_with(line: Seq<char>, prefix: Seq<char>) -> bool {
    prefix.len() <= line.len() && line.take(prefix.len() as int) == prefix
}

fn strip_prefix(line: &Vec<char>, prefix: &str) -> (r: Option<Vec<char>>)
    ensures
        match r {
            Some(rest) => starts_with(line@, prefix@) && rest@ == line@.skip(prefix@.len() as int),
            None => !starts_with(line@, prefix@),
        },
{
    let p = chars_of(prefix);
    if p.len() > line.len() {
        return None;
    }
    let mut k: usize = 0;
    while k < p.len()
        invariant
            p@ == prefix@,
            p@.len() <= line@.len(),
            k <= p@.len(),
            forall|q: int| 0 <= q < k ==> line@[q] == p@[q],
        decreases p.len() - k,
    {
        if line[k] != p[k] {
            assert(line@.take(p@.len() as int)[k as int] != p@[k as int]);
            return None;
        }
        k = k + 1;
    }
    assert(line@.take(p@.len() as int) =~= p@);
    let rest = sub_chars(line, p.len(), line.len());
    assert(rest@ =~= line@.skip(prefix@.len() as int));
    Some(rest)
}

/// The meaning of a `-progress` line: `out_time_us=` is checked first, then
/// `out_time=`; the value after the prefix is trimmed.
pub open spec fn spec_progress_line(line: Seq<char>) -> (bool, Option<u64>, Option<Seq<char>>) {
    if starts_with(line, "out_time_us="@) {
        (true, spec_parse_u64(trim(line.skip(12))), None)
    } else if starts_with(line, "out_time="@) {
        (false, None, Some(trim(line.skip(9))))
    } else {
        (false, None, None)
    }
}

/// Reads a line of FFmpeg's `-progress` stream.
pub fn parse_out_time_line(line: &str) -> (r: ProgressLine)
    ensures
        match r {
            ProgressLine::Micros(v) => spec_progress_line(line@) == (true, v, None::<Seq<char>>),
            ProgressLine::Clock(c) => spec_progress_line(line@) == (false, None::<u64>, Some(c@)),
            ProgressLine::Other => spec_progress_line(line@) == (false, None::<u64>, None::<Seq<char>>),
        },
{
    proof {
        reveal_strlit("out_time_us=");
        reveal_strlit("out_time=");
    }
    let cs = chars_of(line);
    if let Some(rest) = strip_prefix(&cs, "out_time_us=") {
        let v = trimmed(&rest);
        let vs = string_of(&v);
        return ProgressLine::Micros(parse_u64(vs.as_str()));
    }
    if let Some(rest) = strip_prefix(&cs, "out_time=") {
        let v = trimmed(&rest);
        return ProgressLine::Clock(string_of(&v));
    }
    ProgressLine::Other
}

/// The duration field of an FFmpeg log line: the text after the first `Duration:`,
/// up to the next `Duration:` and then up to the first comma, trimmed. `None` when
/// the line has no `Duration:`.
pub open spec fn spec_duration_field(line: Seq<char>) -> Option<Seq<char>> {
    match first_occurrence(line, "Duration:"@) {
        Some(i) => Some(trim(before_first(before_first(line.skip(i + "Duration:"@.len()), "Duration:"@), ","@))),
        None => None,
    }
}

/// Finds the duration field of an FFmpeg log line, such as `00:03:45.23` in
/// `  Duration: 00:03:45.23, start: ...`.
#[verifier::rlimit(40)]
pub fn duration_field(line: &str) -> (r: Option<String>)
    ensures
        match r {
            Some(f) => spec_duration_field(line@) == Some(f@),
            None => spec_duration_field(line@) is None,
        },
{
    let cs = chars_of(line);
    let pat = chars_of("Duration:");
    let comma = chars_of(",");
    match find(&cs, &pat) {
        Some(i) => {
            assert(i + pat.len() <= cs.len());
            let rest = sub_chars(&cs, i + pat.len(), cs.len());
            assert(rest@ =~= line@.skip(i + pat@.len()));
            let seg = take_until(&rest, &pat);
            let field = take_until(&seg, &comma);
            let t = trimmed(&field);
            let out = string_of(&t);
            assert(first_occurrence(line@, "Duration:"@) == Some(i as int));
            assert(spec_duration_field(line@) == Some(out@));
            Some(out)
        },
        None => None,
    }
}

// ---------------------------------------------------------------------------
// Log tail and outcome
// ---------------------------------------------------------------------------

/// How many of the last lines of FFmpeg's log are kept for an error message.
pub const STDERR_TAIL_LINES: usize = 30;

/// The kept lines after `line` is added: all of them, or the last thirty.
pub open spec fn tail_after(lines: Seq<Seq<char>>, line: Seq<char>) -> Seq<Seq<char>> {
    let all = lines.push(line);
    if all.len() > STDERR_TAIL_LINES {
        all.skip(all.len() - STDERR_TAIL_LINES)
    } else {
        all
    }
}

/// Adds a line of FFmpeg's log to the kept tail and drops the oldest lines beyond
/// thirty.
pub fn push_tail_line(tail: &mut Vec<String>, line: String)
    ensures
        strings_view(final(tail)@) == tail_after(strings_view(old(tail)@), line@),
{
    let ghost all = strings_view(old(tail)@).push(line@);
    tail.push(line);
    assert(strings_view(tail@) =~= all);
    let ghost mut dropped: int = 0;
    while tail.len() > STDERR_TAIL_LINES
        invariant
            0 <= dropped <= all.len(),
            dropped > 0 ==> all.len() - dropped >= STDERR_TAIL_LINES,
            strings_view(tail@) =~= all.skip(dropped),
        decreases tail.len(),
    {
        let ghost before = tail@;
        assert(strings_view(before).len() == before.len());
        assert(before.len() == all.len() - dropped);
        tail.remove(0);
        assert(tail@ =~= before.subrange(1, before.len() as int));
        assert forall|k: int| 0 <= k < tail@.len() implies strings_view(tail@)[k] == all.skip(dropped + 1)[k] by {
            assert(tail@[k] == before[k + 1]);
            assert(strings_view(before)[k + 1] == all.skip(dropped)[k + 1]);
        }
        proof {
            dropped = dropped + 1;
        }
        assert(strings_view(tail@) =~= all.skip(dropped));
    }
    assert(tail@.len() == all.len() - dropped);
    assert(dropped == 0 || all.len() - dropped == STDERR_TAIL_LINES);
    assert(strings_view(tail@) =~= tail_after(strings_view(old(tail)@), line@));
}

/// What a finished conversion comes to.
pub enum ConversionOutcome {
    /// FFmpeg succeeded: the path of the converted file.
    Done(String),
    /// FFmpeg failed after the user cancelled: the partial output is removed, and this
    /// is the message.
    Cancelled(String),
    /// FFmpeg failed on its own: the message, with its exit code and the log's tail.
    Failed(String),
}

/// The decimal notation of a whole number, with a minus sign when it is negative.
pub open spec fn signed_decimal(n: int) -> Seq<char> {
    if n < 0 {
        seq!['-'] + decimal((-n) as nat)
    } else {
        decimal(n as nat)
    }
}

/// The message for a failed conversion: the exit code (`-1` when there is none) and
/// the kept lines of the log, one per line.
pub open spec fn failure_message(exit_code: Option<i32>, tail: Seq<Seq<char>>) -> Seq<char> {
    let code: int = match exit_code {
        Some(c) => c as int,
        None => -1,
    };
    "FFmpeg failed (exit code "@ + signed_decimal(code) + "):\n"@ + join_seq(tail, seq!['\n'])
}

/// The outcome of a conversion once FFmpeg has exited: success gives the output path;
/// a failure after cancelling gives `cancelled`; any other failure gives the
/// failure message.
pub fn conversion_outcome(
    success: bool,
    cancelled: bool,
    exit_code: Option<i32>,
    tail: &Vec<String>,
    output: &str,
) -> (r: ConversionOutcome)
    ensures
        match r {
            ConversionOutcome::Done(p) => success && p@ == output@,
            ConversionOutcome::Cancelled(m) => !success && cancelled && m@ == "cancelled"@,
            ConversionOutcome::Failed(m) => !success && !cancelled
                && m@ == failure_message(exit_code, strings_view(tail@)),
        },
{
    if success {
        return ConversionOutcome::Done(output.to_owned());
    }
    if cancelled {
        return ConversionOutcome::Cancelled("cancelled".to_owned());
    }
    let mut out: Vec<char> = Vec::new();
    push_str_chars(&mut out, "FFmpeg failed (exit code ");
    let code: i32 = match exit_code {
        Some(c) => c,
        None => -1,
    };
    if code < 0 {
        out.push('-');
        let wide: i64 = code as i64;
        let magnitude: u64 = (-wide) as u64;
        push_decimal(&mut out, magnitude);
    } else {
        push_decimal(&mut out, code as u64);
    }
    push_str_chars(&mut out, "):\n");
    let ghost head = out@;
    let ghost parts = strings_view(tail@);
    let mut i: usize = 0;
    assert(parts.take(0) =~= Seq::<Seq<char>>::empty());
    assert(out@ =~= head + join_seq(parts.take(0), seq!['\n']));
    while i < tail.len()
        invariant
            i <= tail@.len(),
            parts == strings_view(tail@),
            out@ == head + join_seq(parts.take(i as int), seq!['\n']),
        decreases tail.len() - i,
    {
        proof {
            lemma_join_step(parts, seq!['\n'], i as int);
        }
        if i > 0 {
            out.push('\n');
        }
        let line = chars_of(tail[i].as_str());
        extend_chars(&mut out, &line);
        assert(parts[i as int] == tail@[i as int]@);
        assert(out@ =~= head + join_seq(parts.take(i + 1), seq!['\n']));
        i = i + 1;
    }
    assert(parts.take(tail@.len() as int) =~= parts);
    ConversionOutcome::Failed(string_of(&out))
}

} // verus!
