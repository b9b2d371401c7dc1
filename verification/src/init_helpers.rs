//! The status codes that are shown from the start, before any response with
//! them was seen.

use vstd::prelude::*;
use crate::counters::{
    counted, family_add, label_hash, lemma_counted, texts, value_of, Children, CounterFamily,
};
use crate::number::{decimal_string, decimal_text};

verus! {

/// The status codes that are in common use.
pub const HTTP_CODES: [u16; 63] = [
    100, 101, 102, 200, 201, 202, 203, 204, 205, 206, 207, 208, 226, 300, 301, 302, 303, 304, 305,
    307, 308, 400, 401, 402, 403, 404, 405, 406, 407, 408, 409, 410, 411, 412, 413, 414, 415, 416,
    417, 418, 421, 422, 423, 424, 426, 428, 429, 431, 444, 451, 499, 500, 501, 502, 503, 504, 505,
    506, 507, 508, 510, 511, 599,
];

/// The label values under which the common status code at index `i` of the
/// table is counted.
pub open spec fn code_labels(i: int) -> Seq<Seq<char>> {
    seq![decimal_text(HTTP_CODES@[i] as nat)]
}

/// The children of a family of responses by status after each of the first
/// `count` common status codes that had no child was given one with the count
/// 0, one after the other. A child that is there stays as it is.
pub open spec fn filled(children: Children, count: nat) -> Children
    decreases count,
{
    if count == 0 {
        children
    } else {
        counted(filled(children, (count - 1) as nat), code_labels(count - 1), 0)
    }
}

/// To fill a family takes no child away and changes neither the labels nor
/// the count of a child that is there. A child that comes new has the count
/// 0, and each status code that was filled in has a child afterwards.
pub proof fn lemma_filled(children: Children, count: nat)
    ensures
        forall|key: u64| #[trigger]
            children.contains_key(key) ==> filled(children, count).contains_key(key) && filled(
                children,
                count,
            )[key] == children[key],
        forall|key: u64| #[trigger]
            filled(children, count).contains_key(key) && !children.contains_key(key) ==> filled(
                children,
                count,
            )[key].1 == 0,
        forall|i: int|
            0 <= i < count ==> filled(children, count).contains_key(
                label_hash(#[trigger] code_labels(i)),
            ),
        forall|labels: Seq<Seq<char>>| #[trigger]
            value_of(filled(children, count), labels) == value_of(children, labels),
    decreases count,
{
    if count > 0 {
        let before = filled(children, (count - 1) as nat);
        lemma_filled(children, (count - 1) as nat);
        lemma_counted(before, code_labels(count - 1), 0);
        assert forall|labels: Seq<Seq<char>>| #[trigger]
            value_of(filled(children, count), labels) == value_of(children, labels) by {
            assert(value_of(before, labels) == value_of(children, labels));
        }
    }
}

/// Gives a family of responses by status a child with the count 0 for each
/// common status code that has none. No count that is there changes.
pub fn fill_counter(metrics: &mut CounterFamily)
    requires
        old(metrics).label_count() == 1,
    ensures
        final(metrics).children() == filled(old(metrics).children(), 63),
        final(metrics).label_names() == old(metrics).label_names(),
        final(metrics).descriptor() == old(metrics).descriptor(),
{
    let mut i: usize = 0;
    while i < 63
        invariant
            0 <= i <= 63,
            HTTP_CODES@.len() == 63,
            metrics.label_names() == old(metrics).label_names(),
            metrics.label_names().len() == 1,
            metrics.descriptor() == old(metrics).descriptor(),
            metrics.children() == filled(old(metrics).children(), i as nat),
        decreases 63 - i,
    {
        let status = decimal_string(HTTP_CODES[i] as u64);
        let mut labels: Vec<&str> = Vec::new();
        labels.push(status.as_str());
        assert(texts(labels@) =~= code_labels(i as int));
        family_add(metrics, &labels, 0);
        i = i + 1;
    }
}

} // verus!
