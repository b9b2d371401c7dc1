//! The counters that are kept of the access log.

use vstd::prelude::*;
use crate::counters::{
    after_register_all, can_register_all, contents, counted, counter_get, counter_inc, counter_new,
    counter_register, family_add, family_new, family_register, full_name, is_description,
    is_identifier, label_hash, lemma_counted, no_children, texts, value_of, wrapping_sum, Children,
    Counter, CounterFamily, Descriptor, MetricsError,
};
use crate::init_helpers::{fill_counter, filled, lemma_filled};
use crate::number::{decimal_string, decimal_text};
use crate::parser::{LogRow, LogRowView};
use crate::reader::EnabledMetric;

verus! {

/// The counters: three families and the count of the lines that were no
/// request records.
pub struct Metrics {
    http_response_total: CounterFamily,
    http_response_code_total: CounterFamily,
    http_response_body_size_total: CounterFamily,
    parse_error: Counter,
}

/// What the counters hold.
pub struct CounterSet {
    /// Responses by status.
    pub responses_by_status: Children,
    /// Responses by method, path, protocol and status.
    pub responses_by_route_status: Children,
    /// Bytes sent by method, path and protocol.
    pub bytes_by_route: Children,
    /// Lines that were no request records.
    pub parse_errors: u64,
}

impl CounterSet {
    /// Counters that have counted nothing.
    pub open spec fn empty() -> CounterSet {
        CounterSet {
            responses_by_status: no_children(),
            responses_by_route_status: no_children(),
            bytes_by_route: no_children(),
            parse_errors: 0,
        }
    }

    /// The label values under which a response is counted by status.
    pub open spec fn status_labels(row: LogRowView) -> Seq<Seq<char>> {
        seq![decimal_text(row.response_status as nat)]
    }

    /// The label values under which the bytes of a response are counted.
    pub open spec fn route_labels(row: LogRowView) -> Seq<Seq<char>> {
        seq![row.request_method, row.request_path, row.request_protocol]
    }

    /// The label values under which a response is counted by route and status.
    pub open spec fn route_status_labels(row: LogRowView) -> Seq<Seq<char>> {
        seq![
            row.request_method,
            row.request_path,
            row.request_protocol,
            decimal_text(row.response_status as nat),
        ]
    }

    /// The counters after the request `row` was counted in the families that
    /// `enabled` names: one response more in each of the two families of
    /// responses, and the bytes that were sent more in the third.
    pub open spec fn record(self, row: LogRowView, enabled: EnabledMetric) -> CounterSet {
        CounterSet {
            responses_by_status: if enabled.response_status_short {
                counted(self.responses_by_status, Self::status_labels(row), 1)
            } else {
                self.responses_by_status
            },
            responses_by_route_status: if enabled.response_status_full {
                counted(self.responses_by_route_status, Self::route_status_labels(row), 1)
            } else {
                self.responses_by_route_status
            },
            bytes_by_route: if enabled.response_size {
                counted(self.bytes_by_route, Self::route_labels(row), row.response_body_bytes_sent)
            } else {
                self.bytes_by_route
            },
            parse_errors: self.parse_errors,
        }
    }

    /// The counters after the request `row` was counted `times` times.
    pub open spec fn record_times(
        self,
        row: LogRowView,
        enabled: EnabledMetric,
        times: nat,
    ) -> CounterSet
        decreases times,
    {
        if times == 0 {
            self
        } else {
            self.record_times(row, enabled, (times - 1) as nat).record(row, enabled)
        }
    }

    /// The counters after one more line was no request record.
    pub open spec fn record_failure(self) -> CounterSet {
        CounterSet { parse_errors: wrapping_sum(self.parse_errors, 1), ..self }
    }

    /// The counters after each common status code that had no count was
    /// given the count 0. No count that is there changes.
    pub open spec fn prefilled(self) -> CounterSet {
        CounterSet { responses_by_status: filled(self.responses_by_status, 63), ..self }
    }
}

/// What a request does to each count: the count of the child that stands for
/// its label values goes up, by one in the two families of responses and by
/// the bytes that were sent in the third, wrapping at 64 bits, where the
/// family is enabled. Every other count stays as it is, and so does the count
/// of the lines that were no request records.
pub proof fn lemma_record(
    counters: CounterSet,
    row: LogRowView,
    enabled: EnabledMetric,
    labels: Seq<Seq<char>>,
)
    ensures
        ({
            let after = counters.record(row, enabled);
            &&& value_of(after.responses_by_status, labels) == if enabled.response_status_short
                && label_hash(labels) == label_hash(CounterSet::status_labels(row)) {
                wrapping_sum(value_of(counters.responses_by_status, labels), 1)
            } else {
                value_of(counters.responses_by_status, labels)
            }
            &&& value_of(after.responses_by_route_status, labels) == if enabled.response_status_full
                && label_hash(labels) == label_hash(CounterSet::route_status_labels(row)) {
                wrapping_sum(value_of(counters.responses_by_route_status, labels), 1)
            } else {
                value_of(counters.responses_by_route_status, labels)
            }
            &&& value_of(after.bytes_by_route, labels) == if enabled.response_size && label_hash(
                labels,
            ) == label_hash(CounterSet::route_labels(row)) {
                wrapping_sum(
                    value_of(counters.bytes_by_route, labels),
                    row.response_body_bytes_sent,
                )
            } else {
                value_of(counters.bytes_by_route, labels)
            }
            &&& after.parse_errors == counters.parse_errors
        }),
{
    lemma_counted(counters.responses_by_status, CounterSet::status_labels(row), 1);
    lemma_counted(counters.responses_by_route_status, CounterSet::route_status_labels(row), 1);
    lemma_counted(
        counters.bytes_by_route,
        CounterSet::route_labels(row),
        row.response_body_bytes_sent,
    );
}

/// To give the common status codes their counts changes no count that is
/// there, in any family.
pub proof fn lemma_prefilled(counters: CounterSet, labels: Seq<Seq<char>>)
    ensures
        value_of(counters.prefilled().responses_by_status, labels) == value_of(
            counters.responses_by_status,
            labels,
        ),
        counters.prefilled().responses_by_route_status == counters.responses_by_route_status,
        counters.prefilled().bytes_by_route == counters.bytes_by_route,
        counters.prefilled().parse_errors == counters.parse_errors,
{
    lemma_filled(counters.responses_by_status, 63);
}

/// A request that is counted `times` times adds `times` to the count of its
/// status, and to that of its route and status, and `times` times the bytes
/// that were sent to the bytes of its route, in each family that is enabled
/// and as long as the count stays within 64 bits. The count of the lines
/// that were no request records stays as it is.
pub proof fn lemma_repeated_record(
    counters: CounterSet,
    row: LogRowView,
    enabled: EnabledMetric,
    times: nat,
)
    ensures
        ({
            let after = counters.record_times(row, enabled, times);
            let by_status = value_of(counters.responses_by_status, CounterSet::status_labels(row));
            let by_route_status = value_of(
                counters.responses_by_route_status,
                CounterSet::route_status_labels(row),
            );
            let bytes = value_of(counters.bytes_by_route, CounterSet::route_labels(row));
            &&& enabled.response_status_short && by_status + times <= u64::MAX ==> value_of(
                after.responses_by_status,
                CounterSet::status_labels(row),
            ) == by_status + times
            &&& enabled.response_status_full && by_route_status + times <= u64::MAX ==> value_of(
                after.responses_by_route_status,
                CounterSet::route_status_labels(row),
            ) == by_route_status + times
            &&& enabled.response_size && bytes + times * row.response_body_bytes_sent <= u64::MAX
                ==> value_of(after.bytes_by_route, CounterSet::route_labels(row)) == bytes + times
                * row.response_body_bytes_sent
            &&& after.parse_errors == counters.parse_errors
        }),
    decreases times,
{
    if times > 0 {
        let before = counters.record_times(row, enabled, (times - 1) as nat);
        lemma_repeated_record(counters, row, enabled, (times - 1) as nat);
        lemma_counted(before.responses_by_status, CounterSet::status_labels(row), 1);
        lemma_counted(before.responses_by_route_status, CounterSet::route_status_labels(row), 1);
        lemma_counted(
            before.bytes_by_route,
            CounterSet::route_labels(row),
            row.response_body_bytes_sent,
        );
        let sent = row.response_body_bytes_sent as int;
        assert(times * sent == (times - 1) * sent + sent) by (nonlinear_arith);
        assert((times - 1) * sent >= 0) by (nonlinear_arith)
            requires
                times >= 1,
                sent >= 0,
        ;
    }
}

/// How the counters are described to whoever reads them: the full name of
/// each metric and the names of the labels of each family.
pub struct Description {
    /// The full names of the responses by status, the responses by route and
    /// status, the bytes by route and the lines that were no request records.
    pub names: Seq<Seq<char>>,
    /// The label names of the three families, in that order.
    pub labels: Seq<Seq<Seq<char>>>,
}

impl Description {
    /// The description of the counters under the namespace `namespace`.
    pub open spec fn under(namespace: Seq<char>) -> Description {
        Description {
            names: seq![
                full_name(namespace, "http_response_total"@),
                full_name(namespace, "http_response_code_total"@),
                full_name(namespace, "http_response_body_size_total"@),
                full_name(namespace, "parse_error"@),
            ],
            labels: Self::family_labels(),
        }
    }

    /// The label names of the three families: the status; the method, the
    /// path, the protocol and the status; the method, the path and the
    /// protocol.
    pub open spec fn family_labels() -> Seq<Seq<Seq<char>>> {
        seq![
            seq!["status"@],
            seq!["method"@, "path"@, "protocol"@, "status"@],
            seq!["method"@, "path"@, "protocol"@],
        ]
    }
}

/// Whether `s` can be the namespace of the counters: empty, or an identifier
/// in which colons may stand.
pub open spec fn is_namespace(s: Seq<char>) -> bool {
    s.len() == 0 || is_identifier(s, true)
}

/// A name that is made of letters and underscores is an identifier under
/// every namespace, and under no other prefix.
proof fn lemma_full_name(namespace: Seq<char>, name: Seq<char>)
    requires
        is_identifier(name, false),
    ensures
        is_identifier(full_name(namespace, name), true) <==> is_namespace(namespace),
{
    let full = full_name(namespace, name);
    if namespace.len() > 0 {
        assert(full.len() == namespace.len() + 1 + name.len());
        assert forall|i: int| 0 <= i < namespace.len() implies full[i] == namespace[i] by {}
        assert(full[namespace.len() as int] == '_');
        assert forall|i: int| 0 <= i < name.len() implies full[namespace.len() + 1 + i]
            == name[i] by {}
        if is_identifier(namespace, true) {
            assert forall|i: int| 0 <= i < full.len() implies crate::counters::is_name_start(
                #[trigger] full[i],
            ) || full[i] == ':' || (i > 0 && '0' <= full[i] <= '9') by {
                if i < namespace.len() {
                    assert(full[i] == namespace[i]);
                } else if i > namespace.len() {
                    let k = i - namespace.len() - 1;
                    assert(full[namespace.len() + 1 + k] == name[k]);
                }
            }
        }
        if is_identifier(full, true) {
            assert forall|i: int| 0 <= i < namespace.len() implies crate::counters::is_name_start(
                #[trigger] namespace[i],
            ) || namespace[i] == ':' || (i > 0 && '0' <= namespace[i] <= '9') by {
                assert(full[i] == namespace[i]);
            }
        }
    }
}

impl View for Metrics {
    type V = CounterSet;

    closed spec fn view(&self) -> CounterSet {
        CounterSet {
            responses_by_status: self.http_response_total.children(),
            responses_by_route_status: self.http_response_code_total.children(),
            bytes_by_route: self.http_response_body_size_total.children(),
            parse_errors: self.parse_error.value(),
        }
    }
}

impl Metrics {
    #[verifier::type_invariant]
    spec fn well_formed(self) -> bool {
        &&& self.http_response_total.label_names() == Description::family_labels()[0]
        &&& self.http_response_code_total.label_names() == Description::family_labels()[1]
        &&& self.http_response_body_size_total.label_names() == Description::family_labels()[2]
    }

    /// How the counters are described.
    pub closed spec fn description(&self) -> Description {
        Description {
            names: seq![
                self.http_response_total.descriptor().name,
                self.http_response_code_total.descriptor().name,
                self.http_response_body_size_total.descriptor().name,
                self.parse_error.descriptor().name,
            ],
            labels: seq![
                self.http_response_total.label_names(),
                self.http_response_code_total.label_names(),
                self.http_response_body_size_total.label_names(),
            ],
        }
    }

    /// Makes the counters under a namespace, all of them without a count.
    pub fn new(namespace: &str) -> (r: Result<Metrics, MetricsError>)
        ensures
            r is Ok <==> is_namespace(namespace@),
            r matches Ok(metrics) ==> metrics@ == CounterSet::empty(),
            r matches Ok(metrics) ==> metrics.description() == Description::under(namespace@),
            r matches Err(e) ==> e == MetricsError::Description,
    {
        proof {
            reveal_strlit("http_response_total");
            reveal_strlit("Number of HTTP request by status code");
            reveal_strlit("http_response_code_total");
            reveal_strlit("Count of HTTP request per request info and response code");
            reveal_strlit("http_response_body_size_total");
            reveal_strlit("Size of HTTP request per request info");
            reveal_strlit("parse_error");
            reveal_strlit("Parse log error count");
            reveal_strlit("status");
            reveal_strlit("method");
            reveal_strlit("path");
            reveal_strlit("protocol");
            lemma_full_name(namespace@, "http_response_total"@);
            lemma_full_name(namespace@, "http_response_code_total"@);
            lemma_full_name(namespace@, "http_response_body_size_total"@);
            lemma_full_name(namespace@, "parse_error"@);
            assert("method"@[0] != "path"@[0]);
            assert("method"@[0] != "protocol"@[0]);
            assert("method"@[0] != "status"@[0]);
            assert("path"@[1] != "protocol"@[1]);
            assert("path"@[0] != "status"@[0]);
            assert("protocol"@[0] != "status"@[0]);
        }
        let mut by_status: Vec<&str> = Vec::new();
        by_status.push("status");
        let mut by_route_status: Vec<&str> = Vec::new();
        by_route_status.push("method");
        by_route_status.push("path");
        by_route_status.push("protocol");
        by_route_status.push("status");
        let mut by_route: Vec<&str> = Vec::new();
        by_route.push("method");
        by_route.push("path");
        by_route.push("protocol");
        proof {
            assert(texts(by_status@) =~= seq!["status"@]);
            assert(texts(by_route_status@) =~= seq!["method"@, "path"@, "protocol"@, "status"@]);
            assert(texts(by_route@) =~= seq!["method"@, "path"@, "protocol"@]);
            assert(is_description(
                namespace@,
                "http_response_total"@,
                "Number of HTTP request by status code"@,
                texts(by_status@),
            ) <==> is_namespace(namespace@));
            assert(is_description(
                namespace@,
                "http_response_code_total"@,
                "Count of HTTP request per request info and response code"@,
                texts(by_route_status@),
            ) <==> is_namespace(namespace@));
            assert(is_description(
                namespace@,
                "http_response_body_size_total"@,
                "Size of HTTP request per request info"@,
                texts(by_route@),
            ) <==> is_namespace(namespace@));
            assert(is_description(
                namespace@,
                "parse_error"@,
                "Parse log error count"@,
                Seq::empty(),
            ) <==> is_namespace(namespace@));
        }
        let http_response_total = match family_new(
            namespace,
            "http_response_total",
            "Number of HTTP request by status code",
            &by_status,
        ) {
            Ok(family) => family,
            Err(_) => {
                return Err(MetricsError::Description);
            },
        };
        let http_response_code_total = match family_new(
            namespace,
            "http_response_code_total",
            "Count of HTTP request per request info and response code",
            &by_route_status,
        ) {
            Ok(family) => family,
            Err(_) => {
                return Err(MetricsError::Description);
            },
        };
        let http_response_body_size_total = match family_new(
            namespace,
            "http_response_body_size_total",
            "Size of HTTP request per request info",
            &by_route,
        ) {
            Ok(family) => family,
            Err(_) => {
                return Err(MetricsError::Description);
            },
        };
        let parse_error = match counter_new(namespace, "parse_error", "Parse log error count") {
            Ok(counter) => counter,
            Err(_) => {
                return Err(MetricsError::Description);
            },
        };
        Ok(
            Metrics {
                http_response_total,
                http_response_code_total,
                http_response_body_size_total,
                parse_error,
            },
        )
    }

    /// How a registry knows the counters, in the order in which they are
    /// handed to it: responses by status, responses by route and status,
    /// bytes by route, and the lines that were no request records.
    pub closed spec fn descriptors(&self) -> Seq<Descriptor> {
        seq![
            self.http_response_total.descriptor(),
            self.http_response_code_total.descriptor(),
            self.http_response_body_size_total.descriptor(),
            self.parse_error.descriptor(),
        ]
    }

    /// The counters are four collectors, which the registry knows by the names
    /// under which the counters are described.
    pub proof fn lemma_descriptors(&self)
        ensures
            self.descriptors().len() == 4,
            self.description().names.len() == 4,
            forall|i: int|
                0 <= i < 4 ==> (#[trigger] self.descriptors()[i]).name
                    == self.description().names[i],
    {
    }

    /// Hands the counters to a registry, one after the other, and stops at the
    /// first that the registry does not take. It succeeds where the registry
    /// takes all four; the registry keeps those that it took before one that
    /// it refused.
    pub fn register(&self, registry: &mut prometheus::Registry) -> (r: Result<(), MetricsError>)
        ensures
            r is Ok <==> can_register_all(contents(*old(registry)), self.descriptors()),
            contents(*final(registry)) == after_register_all(
                contents(*old(registry)),
                self.descriptors(),
            ),
            r matches Err(e) ==> e == MetricsError::Registration,
    {
        proof {
            reveal_with_fuel(can_register_all, 5);
            reveal_with_fuel(after_register_all, 5);
            let ds = self.descriptors();
            assert(ds.drop_first() =~= seq![ds[1], ds[2], ds[3]]);
            assert(ds.drop_first().drop_first() =~= seq![ds[2], ds[3]]);
            assert(ds.drop_first().drop_first().drop_first() =~= seq![ds[3]]);
            assert(ds.drop_first().drop_first().drop_first().drop_first().len() == 0);
        }
        if family_register(&self.http_response_total, registry).is_err() {
            return Err(MetricsError::Registration);
        }
        if family_register(&self.http_response_code_total, registry).is_err() {
            return Err(MetricsError::Registration);
        }
        if family_register(&self.http_response_body_size_total, registry).is_err() {
            return Err(MetricsError::Registration);
        }
        if counter_register(&self.parse_error, registry).is_err() {
            return Err(MetricsError::Registration);
        }
        Ok(())
    }

    /// Gives each common status code the count 0 in the family of responses
    /// by status.
    pub fn prefilled(self) -> (r: Metrics)
        ensures
            r@ == self@.prefilled(),
            r.description() == self.description(),
            r.descriptors() == self.descriptors(),
    {
        proof {
            use_type_invariant(&self);
        }
        let Metrics {
            mut http_response_total,
            http_response_code_total,
            http_response_body_size_total,
            parse_error,
        } = self;
        fill_counter(&mut http_response_total);
        Metrics {
            http_response_total,
            http_response_code_total,
            http_response_body_size_total,
            parse_error,
        }
    }

    /// Counts a request in each family that is enabled.
    pub fn record(&mut self, row: &LogRow, enabled: &EnabledMetric)
        ensures
            final(self)@ == old(self)@.record(row@, *enabled),
            final(self).description() == old(self).description(),
            final(self).descriptors() == old(self).descriptors(),
    {
        proof {
            use_type_invariant(&*self);
        }
        let status = decimal_string(row.response_status as u64);
        if enabled.response_status_short {
            let mut labels: Vec<&str> = Vec::new();
            labels.push(status.as_str());
            assert(texts(labels@) =~= CounterSet::status_labels(row@));
            family_add(&mut self.http_response_total, &labels, 1);
        }
        if enabled.response_status_full {
            let mut labels: Vec<&str> = Vec::new();
            labels.push(row.request_method.as_str());
            labels.push(row.request_path.as_str());
            labels.push(row.request_protocol.as_str());
            labels.push(status.as_str());
            assert(texts(labels@) =~= CounterSet::route_status_labels(row@));
            family_add(&mut self.http_response_code_total, &labels, 1);
        }
        if enabled.response_size {
            let mut labels: Vec<&str> = Vec::new();
            labels.push(row.request_method.as_str());
            labels.push(row.request_path.as_str());
            labels.push(row.request_protocol.as_str());
            assert(texts(labels@) =~= CounterSet::route_labels(row@));
            family_add(
                &mut self.http_response_body_size_total,
                &labels,
                row.response_body_bytes_sent,
            );
        }
    }

    /// Counts a line that was no request record.
    pub fn record_failure(&mut self)
        ensures
            final(self)@ == old(self)@.record_failure(),
            final(self).description() == old(self).description(),
            final(self).descriptors() == old(self).descriptors(),
    {
        proof {
            use_type_invariant(&*self);
        }
        counter_inc(&mut self.parse_error);
    }

    /// The number of lines that were no request records.
    pub fn parse_errors(&self) -> (count: u64)
        ensures
            count == self@.parse_errors,
    {
        counter_get(&self.parse_error)
    }
}

} // verus!
