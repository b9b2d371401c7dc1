//! Prometheus counters, as the library holds them: what `prometheus` keeps
//! inside a counter or a family of counters is named here, and each call into
//! it says what it does to that.

use vstd::prelude::*;

verus! {

/// What a family of counters holds: for each child its label values and its
/// count, under the hash of the label values that it was first asked for
/// with.
pub type Children = Map<u64, (Seq<Seq<char>>, u64)>;

/// A family of counters that differ in the values of their labels: a
/// `prometheus::IntCounterVec`. Verus does not look inside it, because the
/// type is generic over a builder that `prometheus` keeps to itself; what it
/// holds is named by [`family_children`] and [`family_label_names`]. The
/// family is the only handle through which its children are changed: a
/// registry that it was handed to reads them and no more.
#[verifier::external_body]
pub struct CounterFamily {
    inner: prometheus::IntCounterVec,
}

/// A single counter: a `prometheus::IntCounter`. Verus does not look inside
/// it, because the type is generic over a trait of `prometheus`; the count
/// that it holds is named by [`counter_value`]. The counter is the only handle
/// through which the count is changed.
#[verifier::external_body]
pub struct Counter {
    inner: prometheus::IntCounter,
}

#[verifier::external_type_specification]
#[verifier::external_body]
pub struct ExRegistry(prometheus::Registry);

#[verifier::external_type_specification]
#[verifier::external_body]
pub struct ExError(prometheus::Error);

/// Why counters could not be made or handed over.
#[derive(Clone, Copy, Debug, PartialEq, Eq, Structural)]
pub enum MetricsError {
    /// A name is no identifier, or the help text is empty.
    Description,
    /// The registry did not take a collector.
    Registration,
}

/// The children that a family holds.
pub uninterp spec fn family_children(family: CounterFamily) -> Map<u64, (Seq<Seq<char>>, u64)>;

/// The names of the labels that a family was made with, in their order.
pub uninterp spec fn family_label_names(family: CounterFamily) -> Seq<Seq<char>>;

/// The state of a 64-bit FNV-1a hasher that was in the state `hash` after the
/// bytes `bytes` were written to it: each byte in its turn is combined with
/// the state by exclusive or, and the state is then multiplied by the prime
/// of the hash, wrapping at 64 bits.
pub open spec fn fnv_write(hash: u64, bytes: Seq<u8>) -> u64
    decreases bytes.len(),
{
    if bytes.len() == 0 {
        hash
    } else {
        let before = fnv_write(hash, bytes.drop_last());
        (((before ^ (bytes.last() as u64)) * 0x100_0000_01b3) % 0x1_0000_0000_0000_0000) as u64
    }
}

/// The bytes of the label values `values` in UTF-8, one value after the other
/// with nothing between them.
pub open spec fn label_bytes(values: Seq<Seq<char>>) -> Seq<u8>
    decreases values.len(),
{
    if values.len() == 0 {
        Seq::empty()
    } else {
        label_bytes(values.drop_last()) + vstd::utf8::encode_utf8(values.last())
    }
}

/// The key under which a family keeps the child with the label values
/// `values`: the 64-bit FNV-1a hash of their bytes, from the offset basis of
/// the hash on.
pub open spec fn label_hash(values: Seq<Seq<char>>) -> u64 {
    fnv_write(0xcbf2_9ce4_8422_2325, label_bytes(values))
}

/// The characters of the label values `values`, one value after the other.
pub open spec fn joined(values: Seq<Seq<char>>) -> Seq<char>
    decreases values.len(),
{
    if values.len() == 0 {
        Seq::empty()
    } else {
        joined(values.drop_last()) + values.last()
    }
}

/// The bytes of two texts in a row are the bytes of the one and then the
/// bytes of the other.
pub proof fn lemma_encode_joined(a: Seq<char>, b: Seq<char>)
    ensures
        vstd::utf8::encode_utf8(a + b) == vstd::utf8::encode_utf8(a) + vstd::utf8::encode_utf8(b),
    decreases a.len(),
{
    if a.len() == 0 {
        assert(a + b =~= b);
        assert(vstd::utf8::encode_utf8(a) + vstd::utf8::encode_utf8(b) =~= vstd::utf8::encode_utf8(
            b,
        ));
    } else {
        assert((a + b).drop_first() =~= a.drop_first() + b);
        lemma_encode_joined(a.drop_first(), b);
        assert(vstd::utf8::encode_utf8(a + b) =~= vstd::utf8::encode_utf8(a)
            + vstd::utf8::encode_utf8(b));
    }
}

/// The bytes of label values are the bytes of their characters in a row.
pub proof fn lemma_label_bytes(values: Seq<Seq<char>>)
    ensures
        label_bytes(values) == vstd::utf8::encode_utf8(joined(values)),
    decreases values.len(),
{
    if values.len() > 0 {
        lemma_label_bytes(values.drop_last());
        lemma_encode_joined(joined(values.drop_last()), values.last());
    }
}

/// Label values that are the same characters in a row stand for the same
/// child, however the characters are divided among the values.
pub proof fn lemma_same_characters(a: Seq<Seq<char>>, b: Seq<Seq<char>>)
    requires
        joined(a) == joined(b),
    ensures
        label_hash(a) == label_hash(b),
{
    lemma_label_bytes(a);
    lemma_label_bytes(b);
}

/// The count that a counter holds.
pub uninterp spec fn counter_value(counter: Counter) -> u64;

/// The descriptor of a family: the full name of its metric, the identifier
/// that `prometheus` makes of the name, and the hash that it makes of the help
/// text and the label names.
pub uninterp spec fn family_descriptor(family: CounterFamily) -> (Seq<char>, u64, u64);

/// The descriptor of a counter: the full name of its metric, the identifier
/// that `prometheus` makes of the name, and the hash that it makes of the help
/// text.
pub uninterp spec fn counter_descriptor(counter: Counter) -> (Seq<char>, u64, u64);

/// The identifiers of the descriptors that a registry holds.
pub uninterp spec fn registry_descs(registry: prometheus::Registry) -> Set<u64>;

/// The identifiers of the collectors that a registry holds.
pub uninterp spec fn registry_collectors(registry: prometheus::Registry) -> Set<u64>;

/// The hash of help text and label names that a registry has noted for each
/// full name it has seen.
pub uninterp spec fn registry_dims(registry: prometheus::Registry) -> Map<Seq<char>, u64>;

/// How a registry knows a collector of one metric.
pub struct Descriptor {
    /// The full name of the metric.
    pub name: Seq<char>,
    /// The identifier made of the name.
    pub id: u64,
    /// The hash made of the help text and the label names.
    pub dims: u64,
}

/// What a registry keeps of the collectors that were handed to it.
pub struct Registered {
    /// The identifiers of the descriptors it holds.
    pub descs: Set<u64>,
    /// The identifiers of the collectors it holds.
    pub collectors: Set<u64>,
    /// For each full name it has seen, the hash of help text and label names.
    pub dims: Map<Seq<char>, u64>,
}

/// A descriptor of its three parts.
pub open spec fn descriptor_of(parts: (Seq<char>, u64, u64)) -> Descriptor {
    Descriptor { name: parts.0, id: parts.1, dims: parts.2 }
}

/// What a registry keeps, of its three parts.
pub open spec fn registered_of(
    descs: Set<u64>,
    collectors: Set<u64>,
    dims: Map<Seq<char>, u64>,
) -> Registered {
    Registered { descs, collectors, dims }
}

/// What the registry `registry` keeps.
pub open spec fn contents(registry: prometheus::Registry) -> Registered {
    registered_of(
        registry_descs(registry),
        registry_collectors(registry),
        registry_dims(registry),
    )
}

/// Whether a registry that keeps `kept` knows the descriptor `d` already, or
/// knows its name with other labels or another help text.
pub open spec fn is_refused_at_sight(kept: Registered, d: Descriptor) -> bool {
    kept.descs.contains(d.id) || (kept.dims.contains_key(d.name) && kept.dims[d.name] != d.dims)
}

/// Whether a registry that keeps `kept` takes a collector of one metric with
/// the descriptor `d`: it holds neither the descriptor nor a collector with
/// its identifier, and where it has seen the name, it was with the same
/// labels and the same help text.
pub open spec fn can_register(kept: Registered, d: Descriptor) -> bool {
    !is_refused_at_sight(kept, d) && !kept.collectors.contains(d.id)
}

/// What a registry that kept `kept` keeps after it was handed a collector of
/// one metric with the descriptor `d`. A collector that it takes is noted in
/// all three parts. One that it refuses at sight changes nothing; one that it
/// refuses for the identifier of another collector leaves its name and hash
/// noted.
pub open spec fn after_register(kept: Registered, d: Descriptor) -> Registered {
    if is_refused_at_sight(kept, d) {
        kept
    } else if kept.collectors.contains(d.id) {
        Registered { dims: kept.dims.insert(d.name, d.dims), ..kept }
    } else {
        Registered {
            descs: kept.descs.insert(d.id),
            collectors: kept.collectors.insert(d.id),
            dims: kept.dims.insert(d.name, d.dims),
        }
    }
}

/// Whether a registry that keeps `kept` takes collectors with the
/// descriptors `ds` when they are handed to it one after the other.
pub open spec fn can_register_all(kept: Registered, ds: Seq<Descriptor>) -> bool
    decreases ds.len(),
{
    if ds.len() == 0 {
        true
    } else {
        can_register(kept, ds[0]) && can_register_all(after_register(kept, ds[0]), ds.drop_first())
    }
}

/// What a registry that kept `kept` keeps after collectors with the
/// descriptors `ds` were handed to it one after the other, up to the first
/// that it refused.
pub open spec fn after_register_all(kept: Registered, ds: Seq<Descriptor>) -> Registered
    decreases ds.len(),
{
    if ds.len() == 0 {
        kept
    } else if can_register(kept, ds[0]) {
        after_register_all(after_register(kept, ds[0]), ds.drop_first())
    } else {
        after_register(kept, ds[0])
    }
}

/// A registry lets go of nothing when collectors are handed to it.
pub proof fn lemma_register_keeps(kept: Registered, ds: Seq<Descriptor>)
    ensures
        kept.descs.subset_of(after_register_all(kept, ds).descs),
        kept.collectors.subset_of(after_register_all(kept, ds).collectors),
    decreases ds.len(),
{
    if ds.len() > 0 && can_register(kept, ds[0]) {
        lemma_register_keeps(after_register(kept, ds[0]), ds.drop_first());
    }
}

/// A registry that takes all the collectors that are handed to it holds each
/// of them afterwards, as a descriptor and as a collector.
pub proof fn lemma_registered_all(kept: Registered, ds: Seq<Descriptor>)
    requires
        can_register_all(kept, ds),
    ensures
        forall|i: int|
            0 <= i < ds.len() ==> after_register_all(kept, ds).descs.contains(#[trigger] ds[i].id)
                && after_register_all(kept, ds).collectors.contains(ds[i].id),
    decreases ds.len(),
{
    if ds.len() > 0 {
        let next = after_register(kept, ds[0]);
        let rest = ds.drop_first();
        lemma_registered_all(next, rest);
        lemma_register_keeps(next, rest);
        assert forall|i: int| 0 <= i < ds.len() implies after_register_all(kept, ds).descs.contains(
            #[trigger] ds[i].id,
        ) && after_register_all(kept, ds).collectors.contains(ds[i].id) by {
            if i > 0 {
                assert(rest[i - 1] == ds[i]);
            }
        }
    }
}

/// A registry that has taken a collector does not take it again.
pub proof fn lemma_registered_once(kept: Registered, d: Descriptor)
    requires
        can_register(kept, d),
    ensures
        !can_register(after_register(kept, d), d),
        after_register(after_register(kept, d), d) == after_register(kept, d),
{
}

/// The texts of `labels` as sequences of characters.
pub open spec fn texts(labels: Seq<&str>) -> Seq<Seq<char>> {
    Seq::new(labels.len(), |i: int| labels[i]@)
}

/// The sum of `a` and `b` as a 64-bit counter holds it.
pub open spec fn wrapping_sum(a: u64, b: u64) -> u64 {
    ((a + b) % 0x1_0000_0000_0000_0000) as u64
}

/// A family without children.
pub open spec fn no_children() -> Children {
    Map::empty()
}

/// The count of the child under `key`; 0 where there is none.
pub open spec fn value_at(children: Children, key: u64) -> u64 {
    if children.contains_key(key) {
        children[key].1
    } else {
        0
    }
}

/// The children after the child under `key` was given the count `value`. A
/// child that is there keeps its label values; one that is not is made with
/// `labels`.
pub open spec fn with_value(
    children: Children,
    key: u64,
    labels: Seq<Seq<char>>,
    value: u64,
) -> Children {
    if children.contains_key(key) {
        children.insert(key, (children[key].0, value))
    } else {
        children.insert(key, (labels, value))
    }
}

/// The children after `by` was added to the child under `key`, which is made
/// with `labels` where there is none.
pub open spec fn added(children: Children, key: u64, labels: Seq<Seq<char>>, by: u64) -> Children {
    with_value(children, key, labels, wrapping_sum(value_at(children, key), by))
}

/// The count of the child that stands for `labels`; 0 where there is none.
pub open spec fn value_of(children: Children, labels: Seq<Seq<char>>) -> u64 {
    value_at(children, label_hash(labels))
}

/// The children after `by` was added to the child that stands for `labels`.
pub open spec fn counted(children: Children, labels: Seq<Seq<char>>, by: u64) -> Children {
    added(children, label_hash(labels), labels, by)
}

/// Adding to a child changes its count by what was added, wrapping at 64
/// bits, and the count of no child that is kept under another key.
pub proof fn lemma_counted(children: Children, labels: Seq<Seq<char>>, by: u64)
    ensures
        value_of(counted(children, labels, by), labels) == wrapping_sum(
            value_of(children, labels),
            by,
        ),
        forall|other: Seq<Seq<char>>|
            label_hash(other) != label_hash(labels) ==> #[trigger] value_of(
                counted(children, labels, by),
                other,
            ) == value_of(children, other),
{
}

/// Whether `c` can start the name of a label.
pub open spec fn is_name_start(c: char) -> bool {
    'a' <= c <= 'z' || 'A' <= c <= 'Z' || c == '_'
}

/// Whether `s` is an identifier: a letter or an underscore, then letters,
/// digits and underscores; where `colon` holds, a colon counts as a letter.
pub open spec fn is_identifier(s: Seq<char>, colon: bool) -> bool {
    &&& s.len() > 0
    &&& forall|i: int|
        0 <= i < s.len() ==> is_name_start(#[trigger] s[i]) || (colon && s[i] == ':') || (i > 0
            && '0' <= s[i] <= '9')
}

/// The name of a metric in full: the namespace, where there is one, an
/// underscore and the name.
pub open spec fn full_name(namespace: Seq<char>, name: Seq<char>) -> Seq<char> {
    if name.len() == 0 {
        Seq::empty()
    } else if namespace.len() > 0 {
        namespace + seq!['_'] + name
    } else {
        name
    }
}

/// Whether `prometheus` makes a metric of this description: the help text is
/// not empty, the full name is an identifier in which colons may stand, and
/// the label names are identifiers that differ from each other.
pub open spec fn is_description(
    namespace: Seq<char>,
    name: Seq<char>,
    help: Seq<char>,
    label_names: Seq<Seq<char>>,
) -> bool {
    &&& help.len() > 0
    &&& is_identifier(full_name(namespace, name), true)
    &&& forall|i: int|
        0 <= i < label_names.len() ==> is_identifier(#[trigger] label_names[i], false)
    &&& forall|i: int, j: int|
        0 <= i < j < label_names.len() ==> #[trigger] label_names[i] != #[trigger] label_names[j]
}

/// Calls `prometheus::IntCounterVec::new` with options made by
/// `prometheus::Opts::new` and `Opts::namespace`. It succeeds exactly on the
/// descriptions that `Desc::new` accepts. The family then has no child, the
/// labels that were given, in their order, and a descriptor with the full
/// name that `Opts::fq_name` makes of namespace and name.
#[verifier::external_body]
pub(crate) fn family_new(
    namespace: &str,
    name: &str,
    help: &str,
    label_names: &Vec<&str>,
) -> (r: Result<CounterFamily, prometheus::Error>)
    ensures
        r is Ok <==> is_description(namespace@, name@, help@, texts(label_names@)),
        r is Ok ==> family_children(r->Ok_0) == no_children(),
        r is Ok ==> family_label_names(r->Ok_0) == texts(label_names@),
        r is Ok ==> descriptor_of(family_descriptor(r->Ok_0)).name == full_name(
            namespace@,
            name@,
        ),
{
    let opts = prometheus::Opts::new(name, help).namespace(namespace);
    match prometheus::IntCounterVec::new(opts, label_names) {
        Ok(inner) => Ok(CounterFamily { inner }),
        Err(e) => Err(e),
    }
}

/// Calls `prometheus::IntCounter::with_opts` with options made by
/// `prometheus::Opts::new` and `Opts::namespace`. It succeeds exactly on the
/// descriptions that `Desc::new` accepts. The counter then holds 0 and has a
/// descriptor with the full name that `Opts::fq_name` makes of namespace and
/// name.
#[verifier::external_body]
pub(crate) fn counter_new(namespace: &str, name: &str, help: &str) -> (r: Result<
    Counter,
    prometheus::Error,
>)
    ensures
        r is Ok <==> is_description(namespace@, name@, help@, Seq::empty()),
        r is Ok ==> counter_value(r->Ok_0) == 0,
        r is Ok ==> descriptor_of(counter_descriptor(r->Ok_0)).name == full_name(
            namespace@,
            name@,
        ),
{
    let opts = prometheus::Opts::new(name, help).namespace(namespace);
    match prometheus::IntCounter::with_opts(opts) {
        Ok(inner) => Ok(Counter { inner }),
        Err(e) => Err(e),
    }
}

/// Calls `with_label_values` on the family and `inc_by` on the child that it
/// gives. The child is looked up under the hash of the label values and made
/// with them where there is none; its count goes up by `by`, wrapping at 64
/// bits. The labels and the descriptor of the family stay as they are. The
/// call panics where the number of values is not that of the family's labels.
#[verifier::external_body]
pub(crate) fn family_add(family: &mut CounterFamily, labels: &Vec<&str>, by: u64)
    requires
        labels@.len() == family_label_names(*old(family)).len(),
    ensures
        family_children(*final(family)) == added(
            family_children(*old(family)),
            label_hash(texts(labels@)),
            texts(labels@),
            by,
        ),
        family_label_names(*final(family)) == family_label_names(*old(family)),
        family_descriptor(*final(family)) == family_descriptor(*old(family)),
    no_unwind
{
    family.inner.with_label_values(labels).inc_by(by)
}

/// Calls `prometheus::IntCounter::inc`: the count goes up by one, wrapping at
/// 64 bits, and the descriptor stays as it is.
#[verifier::external_body]
pub(crate) fn counter_inc(counter: &mut Counter)
    ensures
        counter_value(*final(counter)) == wrapping_sum(counter_value(*old(counter)), 1),
        counter_descriptor(*final(counter)) == counter_descriptor(*old(counter)),
    no_unwind
{
    counter.inner.inc()
}

/// Calls `prometheus::IntCounter::get`, which gives the count.
#[verifier::external_body]
pub(crate) fn counter_get(counter: &Counter) -> (value: u64)
    ensures
        value == counter_value(*counter),
{
    counter.inner.get()
}

/// Calls `prometheus::Registry::register` with a clone of the family, which
/// shares its children. The family describes itself by one descriptor. The
/// registry refuses it where it holds that descriptor's identifier, where it
/// has noted the name with another hash of labels and help text, or where it
/// holds a collector under that identifier; before the last of these tests it
/// notes the name and the hash. A collector that it takes is noted under its
/// identifier as a descriptor and as a collector. The contract holds as long
/// as the registry is changed through this handle only.
#[verifier::external_body]
pub(crate) fn family_register(family: &CounterFamily, registry: &mut prometheus::Registry) -> (r:
    Result<(), prometheus::Error>)
    ensures
        r is Ok <==> can_register(
            registered_of(
                registry_descs(*old(registry)),
                registry_collectors(*old(registry)),
                registry_dims(*old(registry)),
            ),
            descriptor_of(family_descriptor(*family)),
        ),
        registered_of(
            registry_descs(*final(registry)),
            registry_collectors(*final(registry)),
            registry_dims(*final(registry)),
        ) == after_register(
            registered_of(
                registry_descs(*old(registry)),
                registry_collectors(*old(registry)),
                registry_dims(*old(registry)),
            ),
            descriptor_of(family_descriptor(*family)),
        ),
{
    registry.register(Box::new(family.inner.clone()))
}

/// Calls `prometheus::Registry::register` with a clone of the counter, which
/// shares its count. The counter describes itself by one descriptor, and the
/// registry takes or refuses it as it does a family. The contract holds as
/// long as the registry is changed through this handle only.
#[verifier::external_body]
pub(crate) fn counter_register(counter: &Counter, registry: &mut prometheus::Registry) -> (r:
    Result<(), prometheus::Error>)
    ensures
        r is Ok <==> can_register(
            registered_of(
                registry_descs(*old(registry)),
                registry_collectors(*old(registry)),
                registry_dims(*old(registry)),
            ),
            descriptor_of(counter_descriptor(*counter)),
        ),
        registered_of(
            registry_descs(*final(registry)),
            registry_collectors(*final(registry)),
            registry_dims(*final(registry)),
        ) == after_register(
            registered_of(
                registry_descs(*old(registry)),
                registry_collectors(*old(registry)),
                registry_dims(*old(registry)),
            ),
            descriptor_of(counter_descriptor(*counter)),
        ),
{
    registry.register(Box::new(counter.inner.clone()))
}

impl CounterFamily {
    /// The children that the family holds.
    pub open spec fn children(&self) -> Children {
        family_children(*self)
    }

    /// The names of the labels that the family has, in their order.
    pub open spec fn label_names(&self) -> Seq<Seq<char>> {
        family_label_names(*self)
    }

    /// The number of labels that the family has.
    pub open spec fn label_count(&self) -> nat {
        self.label_names().len()
    }

    /// Makes a family of counters without children.
    pub fn new(namespace: &str, name: &str, help: &str, label_names: &Vec<&str>) -> (r: Result<
        CounterFamily,
        MetricsError,
    >)
        ensures
            r is Ok <==> is_description(namespace@, name@, help@, texts(label_names@)),
            r matches Ok(family) ==> family.children() == no_children() && family.label_names()
                == texts(label_names@) && family.descriptor().name == full_name(
                namespace@,
                name@,
            ),
            r matches Err(e) ==> e == MetricsError::Description,
    {
        match family_new(namespace, name, help, label_names) {
            Ok(family) => Ok(family),
            Err(_) => Err(MetricsError::Description),
        }
    }

    /// How a registry knows the family.
    pub open spec fn descriptor(&self) -> Descriptor {
        descriptor_of(family_descriptor(*self))
    }

    /// Hands the family to a registry, which from then on reads its children
    /// if it takes the family.
    pub fn register(&self, registry: &mut prometheus::Registry) -> (r: Result<(), MetricsError>)
        ensures
            r is Ok <==> can_register(contents(*old(registry)), self.descriptor()),
            contents(*final(registry)) == after_register(
                contents(*old(registry)),
                self.descriptor(),
            ),
            r matches Err(e) ==> e == MetricsError::Registration,
    {
        match family_register(self, registry) {
            Ok(()) => Ok(()),
            Err(_) => Err(MetricsError::Registration),
        }
    }
}

impl Counter {
    /// The count that the counter holds.
    pub open spec fn value(&self) -> u64 {
        counter_value(*self)
    }

    /// How a registry knows the counter.
    pub open spec fn descriptor(&self) -> Descriptor {
        descriptor_of(counter_descriptor(*self))
    }
}

} // verus!
