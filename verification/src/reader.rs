//! From the lines that are read off the end of the log to the counters.

use vstd::prelude::*;
use crate::chars::to_chars;
use crate::counters::{value_of, wrapping_sum};
use crate::metrics::{lemma_repeated_record, CounterSet, Metrics};
use crate::parser::{parse_line, row_view, LogRow, LogRowView, ParseLogError};

verus! {

/// Which families of counters are kept.
#[derive(Clone, Copy, Debug, PartialEq, Eq, Structural)]
pub struct EnabledMetric {
    /// Responses by status.
    pub response_status_short: bool,
    /// Responses by method, path, protocol and status.
    pub response_status_full: bool,
    /// Bytes sent by method, path and protocol.
    pub response_size: bool,
}

/// The counters after a line was parsed with the outcome `outcome`: a request
/// is counted in the families that are enabled, anything else as one more
/// line that was no request record.
pub open spec fn after_outcome(
    counters: CounterSet,
    outcome: Result<LogRowView, ParseLogError>,
    enabled: EnabledMetric,
) -> CounterSet {
    match outcome {
        Ok(row) => counters.record(row, enabled),
        Err(_) => counters.record_failure(),
    }
}

/// The counters after the line `line` was read.
pub open spec fn after_line(
    counters: CounterSet,
    line: Seq<char>,
    enabled: EnabledMetric,
) -> CounterSet {
    after_outcome(counters, parse_line(line), enabled)
}

/// Counts what a line was parsed to.
pub fn process_outcome(
    outcome: &Result<LogRow, ParseLogError>,
    metrics: &mut Metrics,
    enabled: &EnabledMetric,
)
    ensures
        final(metrics)@ == after_outcome(old(metrics)@, row_view(*outcome), *enabled),
        final(metrics).description() == old(metrics).description(),
        final(metrics).descriptors() == old(metrics).descriptors(),
{
    match outcome {
        Ok(row) => metrics.record(row, enabled),
        Err(_) => metrics.record_failure(),
    }
}

/// Why a line with the outcome `outcome` was no request record; `None` if it
/// was one.
pub open spec fn rejection(outcome: Result<LogRowView, ParseLogError>) -> Option<ParseLogError> {
    match outcome {
        Ok(_) => None,
        Err(why) => Some(why),
    }
}

/// Parses a line and counts it. Says why the line was no request record, if
/// it was none.
pub fn process_line(line: &str, metrics: &mut Metrics, enabled: &EnabledMetric) -> (rejected:
    Option<ParseLogError>)
    ensures
        final(metrics)@ == after_line(old(metrics)@, line@, *enabled),
        final(metrics).description() == old(metrics).description(),
        final(metrics).descriptors() == old(metrics).descriptors(),
        rejected == rejection(parse_line(line@)),
{
    let outcome = LogRow::from_str(line);
    process_outcome(&outcome, metrics, enabled);
    match outcome {
        Ok(_) => None,
        Err(why) => Some(why),
    }
}

/// The counters after the line `line` was read `times` times in a row.
pub open spec fn after_lines(
    counters: CounterSet,
    line: Seq<char>,
    enabled: EnabledMetric,
    times: nat,
) -> CounterSet
    decreases times,
{
    if times == 0 {
        counters
    } else {
        after_line(after_lines(counters, line, enabled, (times - 1) as nat), line, enabled)
    }
}

/// A line that is no request record adds one to the count of such lines and
/// changes no other counter.
pub proof fn lemma_rejected_line(counters: CounterSet, line: Seq<char>, enabled: EnabledMetric)
    requires
        parse_line(line) is Err,
    ensures
        after_line(counters, line, enabled) == (CounterSet {
            parse_errors: wrapping_sum(counters.parse_errors, 1),
            ..counters
        }),
        counters.parse_errors < u64::MAX ==> after_line(counters, line, enabled).parse_errors
            == counters.parse_errors + 1,
{
}

/// A request that is read `times` times in a row adds `times` to the count of
/// its status, and to that of its route and status, and `times` times the
/// bytes that were sent to the bytes of its route, in each family that is
/// enabled and as long as the count stays within 64 bits. The count of the
/// lines that were no request records stays as it is.
pub proof fn lemma_repeated_lines(
    counters: CounterSet,
    line: Seq<char>,
    enabled: EnabledMetric,
    times: nat,
)
    requires
        parse_line(line) is Ok,
    ensures
        ({
            let row = parse_line(line)->Ok_0;
            let after = after_lines(counters, line, enabled, times);
            let by_status = value_of(counters.responses_by_status, CounterSet::status_labels(row));
            let by_route_status = value_of(
                counters.responses_by_route_status,
                CounterSet::route_status_labels(row),
            );
            let bytes = value_of(counters.bytes_by_route, CounterSet::route_labels(row));
            &&& enabled.response_status_short && by_status + times <= u64::MAX ==> value_of(
                after.responses_by_status,
                CounterSet::status_labels(row),
            ) == by_status + times
            &&& enabled.response_status_full && by_route_status + times <= u64::MAX ==> value_of(
                after.responses_by_route_status,
                CounterSet::route_status_labels(row),
            ) == by_route_status + times
            &&& enabled.response_size && bytes + times * row.response_body_bytes_sent <= u64::MAX
                ==> value_of(after.bytes_by_route, CounterSet::route_labels(row)) == bytes + times
                * row.response_body_bytes_sent
            &&& after.parse_errors == counters.parse_errors
        }),
{
    let row = parse_line(line)->Ok_0;
    lemma_lines_are_records(counters, line, enabled, times);
    lemma_repeated_record(counters, row, enabled, times);
}

/// To read a line that is a request is to count the request.
proof fn lemma_lines_are_records(
    counters: CounterSet,
    line: Seq<char>,
    enabled: EnabledMetric,
    times: nat,
)
    requires
        parse_line(line) is Ok,
    ensures
        after_lines(counters, line, enabled, times) == counters.record_times(
            parse_line(line)->Ok_0,
            enabled,
            times,
        ),
    decreases times,
{
    if times > 0 {
        lemma_lines_are_records(counters, line, enabled, (times - 1) as nat);
    }
}

/// Where in the log the tailing starts.
#[derive(Clone, Copy, Debug, PartialEq, Eq, Structural)]
pub enum StartPolicy {
    /// At the first byte: what the log holds already is counted.
    Beginning,
    /// After the last byte: only what is appended from now on is counted.
    End,
}

impl StartPolicy {
    /// The offset at which to start in a log of `len` bytes.
    pub fn offset(self, len: u64) -> (at: u64)
        ensures
            self == StartPolicy::Beginning ==> at == 0,
            self == StartPolicy::End ==> at == len,
    {
        match self {
            StartPolicy::Beginning => 0,
            StartPolicy::End => len,
        }
    }
}

/// How an attempt to read on in the log ended.
#[derive(Clone, Copy, Debug, PartialEq, Eq, Structural)]
pub enum ReadEvent {
    /// So many bytes were appended to the line buffer; none at the end of
    /// the log.
    Read(usize),
    /// The read failed.
    Failed,
}

/// What to do after an attempt to read on in the log.
#[derive(Clone, Copy, Debug, PartialEq, Eq)]
pub enum TailAction {
    /// Nothing new was there: wait for so many milliseconds, then read again.
    Retry(u64),
    /// The line in the buffer was counted, as a request or, for the reason
    /// given, as a line that is none: empty the buffer, then read again.
    Consumed(Option<ParseLogError>),
    /// The buffer holds the start of a line: keep it, and read again.
    Pending,
    /// The log cannot be read any more: give up.
    Stop,
}

/// The time to wait at the end of the log before the next read, in
/// milliseconds.
pub const RETRY_MILLIS: u64 = 50;

/// Whether `buffer` holds a whole line, which ends in a line feed.
pub open spec fn is_whole_line(buffer: Seq<char>) -> bool {
    buffer.len() > 0 && buffer.last() == '\n'
}

/// What is to be done after the read event `event` that left `buffer` in the
/// line buffer.
pub open spec fn action_after(event: ReadEvent, buffer: Seq<char>) -> TailAction {
    match event {
        ReadEvent::Failed => TailAction::Stop,
        ReadEvent::Read(count) => if count == 0 {
            TailAction::Retry(RETRY_MILLIS)
        } else if is_whole_line(buffer) {
            TailAction::Consumed(rejection(parse_line(buffer)))
        } else {
            TailAction::Pending
        },
    }
}

/// One step of tailing the log: after each attempt to read a line into the
/// line buffer, decides what is to be done next, and counts the line where
/// the buffer holds a whole one. Only a whole line changes the counters.
pub fn tail_step(
    event: ReadEvent,
    buffer: &str,
    metrics: &mut Metrics,
    enabled: &EnabledMetric,
) -> (action: TailAction)
    ensures
        action == action_after(event, buffer@),
        action is Consumed ==> final(metrics)@ == after_line(old(metrics)@, buffer@, *enabled),
        !(action is Consumed) ==> final(metrics)@ == old(metrics)@,
        final(metrics).description() == old(metrics).description(),
        final(metrics).descriptors() == old(metrics).descriptors(),
{
    match event {
        ReadEvent::Failed => TailAction::Stop,
        ReadEvent::Read(count) => {
            if count == 0 {
                return TailAction::Retry(RETRY_MILLIS);
            }
            let chars = to_chars(buffer);
            if chars.len() > 0 && chars[chars.len() - 1] == '\n' {
                let rejected = process_line(buffer, metrics, enabled);
                TailAction::Consumed(rejected)
            } else {
                TailAction::Pending
            }
        },
    }
}

} // verus!
