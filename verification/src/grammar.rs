//! The grammar of an access-log line:
//!
//! ```text
//! <addr> - <user> [<time>] "<method> <path> <protocol>" <status> <bytes> "<referer>" "<agent>"
//! ```
//!
//! The address, the method, the path and the protocol are runs without white
//! space, the user and the time are free of line feeds, the status is three
//! decimal digits and the size one or more, and the referer and the agent are
//! free of double quotes; all but the user have one character at least. A
//! line matches when it starts with such a row; what follows the closing
//! quote of the agent is ignored. The grammar is stated as a predicate on the
//! places where the fields end, [`is_split`]. Where a line can be split in
//! several ways, the user field is taken as long as it can be, and then the
//! time field: [`row_split`].

use vstd::prelude::*;
use crate::chars::{all_in, at, is_at, lemma_run_end, lemma_run_end_unique, run_end, scan, Class};

verus! {

/// Where the fields after the time end, as indices into the line.
pub struct Tail {
    pub method_end: int,
    pub path_end: int,
    pub protocol_end: int,
    pub bytes_end: int,
    pub referer_end: int,
    pub agent_end: int,
}

/// Where each field of a row ends, as indices into the line. Each field starts
/// a fixed number of delimiter characters after the end of the one before it;
/// the status is the three characters that start two after the protocol's end.
pub struct Split {
    pub addr_end: int,
    pub user_end: int,
    pub time_end: int,
    pub tail: Tail,
}

/// Whether index `i` of `s` holds a decimal digit, of whatever script.
pub open spec fn digit_at(s: Seq<char>, i: int) -> bool {
    0 <= i < s.len() && Class::Decimal.has(s[i])
}

/// Whether `s` holds, from index `from` on,
/// `<method> <path> <protocol>" <status> <bytes> "<referer>" "<agent>"`
/// with the fields ending where `t` says.
pub open spec fn is_tail(s: Seq<char>, from: int, t: Tail) -> bool {
    &&& 0 <= from < t.method_end
    &&& all_in(s, from, t.method_end, Class::NonSpace)
    &&& at(s, t.method_end, ' ')
    &&& t.method_end + 1 < t.path_end
    &&& all_in(s, t.method_end + 1, t.path_end, Class::NonSpace)
    &&& at(s, t.path_end, ' ')
    &&& t.path_end + 1 < t.protocol_end
    &&& all_in(s, t.path_end + 1, t.protocol_end, Class::NonSpace)
    &&& at(s, t.protocol_end, '"')
    &&& at(s, t.protocol_end + 1, ' ')
    &&& digit_at(s, t.protocol_end + 2)
    &&& digit_at(s, t.protocol_end + 3)
    &&& digit_at(s, t.protocol_end + 4)
    &&& at(s, t.protocol_end + 5, ' ')
    &&& t.protocol_end + 6 < t.bytes_end
    &&& all_in(s, t.protocol_end + 6, t.bytes_end, Class::Decimal)
    &&& at(s, t.bytes_end, ' ')
    &&& at(s, t.bytes_end + 1, '"')
    &&& t.bytes_end + 2 < t.referer_end
    &&& all_in(s, t.bytes_end + 2, t.referer_end, Class::NonQuote)
    &&& at(s, t.referer_end, '"')
    &&& at(s, t.referer_end + 1, ' ')
    &&& at(s, t.referer_end + 2, '"')
    &&& t.referer_end + 3 < t.agent_end
    &&& all_in(s, t.referer_end + 3, t.agent_end, Class::NonQuote)
    &&& at(s, t.agent_end, '"')
}

/// Whether `s` starts with a row whose fields end where `m` says.
pub open spec fn is_split(s: Seq<char>, m: Split) -> bool {
    &&& 0 < m.addr_end
    &&& all_in(s, 0, m.addr_end, Class::NonSpace)
    &&& at(s, m.addr_end, ' ')
    &&& at(s, m.addr_end + 1, '-')
    &&& at(s, m.addr_end + 2, ' ')
    &&& m.addr_end + 3 <= m.user_end
    &&& all_in(s, m.addr_end + 3, m.user_end, Class::NonNewline)
    &&& at(s, m.user_end, ' ')
    &&& at(s, m.user_end + 1, '[')
    &&& m.user_end + 2 < m.time_end
    &&& all_in(s, m.user_end + 2, m.time_end, Class::NonNewline)
    &&& at(s, m.time_end, ']')
    &&& at(s, m.time_end + 1, ' ')
    &&& at(s, m.time_end + 2, '"')
    &&& is_tail(s, m.time_end + 3, m.tail)
}

/// Whether `m` is the split of `s` that is taken: no other split has a longer
/// user field, nor the same user field and a longer time field.
pub open spec fn is_preferred(s: Seq<char>, m: Split) -> bool {
    &&& is_split(s, m)
    &&& forall|o: Split| #[trigger]
        is_split(s, o) ==> o.user_end < m.user_end || (o.user_end == m.user_end && o.time_end
            <= m.time_end)
}

/// The split of `s` that is taken, if `s` starts with a row at all.
pub open spec fn row_split(s: Seq<char>) -> Option<Split> {
    if exists|m: Split| is_preferred(s, m) {
        Some(choose|m: Split| is_preferred(s, m))
    } else {
        None
    }
}

/// The only tail that `s` can hold from `from` on: each field runs as far as
/// its characters go.
pub open spec fn tail_of(s: Seq<char>, from: int) -> Tail {
    let method_end = run_end(s, from, Class::NonSpace);
    let path_end = run_end(s, method_end + 1, Class::NonSpace);
    let protocol_end = run_end(s, path_end + 1, Class::NonSpace) - 1;
    let bytes_end = run_end(s, protocol_end + 6, Class::Decimal);
    let referer_end = run_end(s, bytes_end + 2, Class::NonQuote);
    let agent_end = run_end(s, referer_end + 3, Class::NonQuote);
    Tail { method_end, path_end, protocol_end, bytes_end, referer_end, agent_end }
}

/// A tail is determined by where it starts.
pub proof fn lemma_tail_unique(s: Seq<char>, from: int, t: Tail)
    requires
        is_tail(s, from, t),
    ensures
        t == tail_of(s, from),
{
    lemma_run_end_unique(s, from, t.method_end, Class::NonSpace);
    lemma_run_end_unique(s, t.method_end + 1, t.path_end, Class::NonSpace);
    assert(all_in(s, t.path_end + 1, t.protocol_end + 1, Class::NonSpace));
    lemma_run_end_unique(s, t.path_end + 1, t.protocol_end + 1, Class::NonSpace);
    lemma_run_end_unique(s, t.protocol_end + 6, t.bytes_end, Class::Decimal);
    lemma_run_end_unique(s, t.bytes_end + 2, t.referer_end, Class::NonQuote);
    lemma_run_end_unique(s, t.referer_end + 3, t.agent_end, Class::NonQuote);
}

/// Whether the time field can end at index `t` of `s`: the delimiter `] "`
/// stands there and a tail follows it.
pub open spec fn time_can_end(s: Seq<char>, t: int) -> bool {
    &&& at(s, t, ']')
    &&& at(s, t + 1, ' ')
    &&& at(s, t + 2, '"')
    &&& is_tail(s, t + 3, tail_of(s, t + 3))
}

/// Whether the user field can end at index `u` of `s`: the delimiter ` [`
/// stands there.
pub open spec fn user_can_end(s: Seq<char>, u: int) -> bool {
    at(s, u, ' ') && at(s, u + 1, '[')
}

/// What every split of `s` has in common, and the room it leaves to the two
/// fields that can end in more than one place.
pub proof fn lemma_split_bounds(s: Seq<char>, m: Split)
    requires
        is_split(s, m),
    ensures
        m.addr_end == run_end(s, 0, Class::NonSpace),
        m.addr_end + 3 <= m.user_end,
        m.user_end + 3 <= m.time_end <= run_end(s, m.addr_end + 3, Class::NonNewline),
        user_can_end(s, m.user_end),
        time_can_end(s, m.time_end),
        m.tail == tail_of(s, m.time_end + 3),
{
    lemma_run_end_unique(s, 0, m.addr_end, Class::NonSpace);
    lemma_tail_unique(s, m.time_end + 3, m.tail);
    let start = m.addr_end + 3;
    let nl = run_end(s, start, Class::NonNewline);
    lemma_run_end(s, start, Class::NonNewline);
    if nl < m.time_end {
        assert(!Class::NonNewline.has(s[nl]));
        assert(s[nl] == '\n');
        if nl < m.user_end {
            assert(Class::NonNewline.has(s[nl]));
        } else if nl >= m.user_end + 2 {
            assert(Class::NonNewline.has(s[nl]));
        }
        assert(false);
    }
}

/// Two splits of one line that agree on where the user and the time end are
/// the same split.
pub proof fn lemma_split_unique(s: Seq<char>, a: Split, b: Split)
    requires
        is_split(s, a),
        is_split(s, b),
        a.user_end == b.user_end,
        a.time_end == b.time_end,
    ensures
        a == b,
{
    lemma_split_bounds(s, a);
    lemma_split_bounds(s, b);
}

/// A line has at most one preferred split.
pub proof fn lemma_preferred_unique(s: Seq<char>, a: Split, b: Split)
    requires
        is_preferred(s, a),
        is_preferred(s, b),
    ensures
        a == b,
{
    lemma_split_unique(s, a, b);
}

/// The split that [`row_split`] gives is a split of the line, and the
/// preferred one; a line that has a split has a preferred one.
pub proof fn lemma_row_split(s: Seq<char>)
    ensures
        row_split(s) matches Some(m) ==> is_preferred(s, m),
        row_split(s) is None ==> forall|o: Split| !is_split(s, o),
{
    if row_split(s) is None {
        assert forall|o: Split| !is_split(s, o) by {
            if is_split(s, o) {
                lemma_split_has_preferred(s, o);
            }
        }
    }
}

/// Among the splits of a line one is preferred.
proof fn lemma_split_has_preferred(s: Seq<char>, o: Split)
    requires
        is_split(s, o),
    ensures
        exists|m: Split| is_preferred(s, m),
{
    lemma_split_bounds(s, o);
    let start = o.addr_end + 3;
    let nl = run_end(s, start, Class::NonNewline);
    let t = last_time_end(s, nl);
    lemma_last_time_end(s, nl);
    assert(time_can_end(s, o.time_end));
    let u = last_user_end(s, t - 3);
    lemma_last_user_end(s, t - 3);
    assert(user_can_end(s, o.user_end));
    let m = Split { addr_end: o.addr_end, user_end: u, time_end: t, tail: tail_of(s, t + 3) };
    lemma_run_end(s, start, Class::NonNewline);
    assert(u >= start) by {
        assert(o.user_end <= u);
    }
    assert(is_split(s, m));
    assert forall|x: Split| #[trigger] is_split(s, x) implies x.user_end < m.user_end || (x.user_end
        == m.user_end && x.time_end <= m.time_end) by {
        lemma_split_bounds(s, x);
    }
    assert(is_preferred(s, m));
}

/// The greatest index up to `hi` at which the time field can end; -1 if there
/// is none.
spec fn last_time_end(s: Seq<char>, hi: int) -> int
    decreases hi + 1,
{
    if hi < 0 {
        -1
    } else if time_can_end(s, hi) {
        hi
    } else {
        last_time_end(s, hi - 1)
    }
}

/// The greatest index up to `hi` at which the user field can end; -1 if there
/// is none.
spec fn last_user_end(s: Seq<char>, hi: int) -> int
    decreases hi + 1,
{
    if hi < 0 {
        -1
    } else if user_can_end(s, hi) {
        hi
    } else {
        last_user_end(s, hi - 1)
    }
}

/// [`last_time_end`] gives a place where the time can end, and the last one.
proof fn lemma_last_time_end(s: Seq<char>, hi: int)
    ensures
        -1 <= last_time_end(s, hi),
        last_time_end(s, hi) <= hi || hi < -1,
        last_time_end(s, hi) >= 0 ==> time_can_end(s, last_time_end(s, hi)),
        forall|t: int| 0 <= t <= hi && time_can_end(s, t) ==> t <= last_time_end(s, hi),
    decreases hi + 1,
{
    if hi >= 0 && !time_can_end(s, hi) {
        lemma_last_time_end(s, hi - 1);
    }
}

/// [`last_user_end`] gives a place where the user can end, and the last one.
proof fn lemma_last_user_end(s: Seq<char>, hi: int)
    ensures
        -1 <= last_user_end(s, hi),
        last_user_end(s, hi) <= hi || hi < -1,
        last_user_end(s, hi) >= 0 ==> user_can_end(s, last_user_end(s, hi)),
        forall|u: int| 0 <= u <= hi && user_can_end(s, u) ==> u <= last_user_end(s, hi),
    decreases hi + 1,
{
    if hi >= 0 && !user_can_end(s, hi) {
        lemma_last_user_end(s, hi - 1);
    }
}

/// Where the fields after the time end, as found in a line.
#[derive(Clone, Copy, Debug, PartialEq, Eq)]
pub struct TailBounds {
    pub method_end: usize,
    pub path_end: usize,
    pub protocol_end: usize,
    pub bytes_end: usize,
    pub referer_end: usize,
    pub agent_end: usize,
}

/// Where each field of a row ends, as found in a line.
#[derive(Clone, Copy, Debug, PartialEq, Eq)]
pub struct Bounds {
    pub addr_end: usize,
    pub user_end: usize,
    pub time_end: usize,
    pub tail: TailBounds,
}

impl View for TailBounds {
    type V = Tail;

    open spec fn view(&self) -> Tail {
        Tail {
            method_end: self.method_end as int,
            path_end: self.path_end as int,
            protocol_end: self.protocol_end as int,
            bytes_end: self.bytes_end as int,
            referer_end: self.referer_end as int,
            agent_end: self.agent_end as int,
        }
    }
}

impl View for Bounds {
    type V = Split;

    open spec fn view(&self) -> Split {
        Split {
            addr_end: self.addr_end as int,
            user_end: self.user_end as int,
            time_end: self.time_end as int,
            tail: self.tail@,
        }
    }
}

/// The view of a tail that may be missing.
pub open spec fn tail_view(t: Option<TailBounds>) -> Option<Tail> {
    match t {
        Some(t) => Some(t@),
        None => None,
    }
}

/// The view of a split that may be missing.
pub open spec fn bounds_view(b: Option<Bounds>) -> Option<Split> {
    match b {
        Some(b) => Some(b@),
        None => None,
    }
}

/// The tail that `s` holds from `from` on, if it holds one.
pub open spec fn tail_at(s: Seq<char>, from: int) -> Option<Tail> {
    if is_tail(s, from, tail_of(s, from)) {
        Some(tail_of(s, from))
    } else {
        None
    }
}

/// Tells whether index `i` of `s` holds a decimal digit.
fn has_digit(s: &Vec<char>, i: usize) -> (r: bool)
    ensures
        r == digit_at(s@, i as int),
{
    i < s.len() && Class::Decimal.contains(s[i])
}

/// Matches the fields that follow the time, from index `from` of `s` on.
pub fn match_tail(s: &Vec<char>, from: usize) -> (r: Option<TailBounds>)
    requires
        from <= s.len(),
    ensures
        tail_view(r) == tail_at(s@, from as int),
{
    proof {
        let t = tail_of(s@, from as int);
        lemma_run_end(s@, from as int, Class::NonSpace);
        if t.method_end < s@.len() {
            lemma_run_end(s@, t.method_end + 1, Class::NonSpace);
        }
        if 0 <= t.path_end < s@.len() {
            lemma_run_end(s@, t.path_end + 1, Class::NonSpace);
        }
        if 0 <= t.protocol_end + 6 <= s@.len() {
            lemma_run_end(s@, t.protocol_end + 6, Class::Decimal);
        }
        if 0 <= t.bytes_end + 2 <= s@.len() {
            lemma_run_end(s@, t.bytes_end + 2, Class::NonQuote);
        }
        if 0 <= t.referer_end + 3 <= s@.len() {
            lemma_run_end(s@, t.referer_end + 3, Class::NonQuote);
        }
    }
    let method_end = scan(s, from, Class::NonSpace);
    if method_end == from || !is_at(s, method_end, ' ') {
        return None;
    }
    let path_end = scan(s, method_end + 1, Class::NonSpace);
    if path_end == method_end + 1 || !is_at(s, path_end, ' ') {
        return None;
    }
    let run = scan(s, path_end + 1, Class::NonSpace);
    if run - path_end < 3 || !is_at(s, run - 1, '"') || !is_at(s, run, ' ') {
        return None;
    }
    let protocol_end = run - 1;
    if !has_digit(s, run + 1) {
        return None;
    }
    if !has_digit(s, run + 2) {
        return None;
    }
    if !has_digit(s, run + 3) {
        return None;
    }
    if !is_at(s, run + 4, ' ') {
        return None;
    }
    let bytes_end = scan(s, run + 5, Class::Decimal);
    if bytes_end == run + 5 || !is_at(s, bytes_end, ' ') {
        return None;
    }
    if !is_at(s, bytes_end + 1, '"') {
        return None;
    }
    let referer_end = scan(s, bytes_end + 2, Class::NonQuote);
    if referer_end == bytes_end + 2 || !is_at(s, referer_end, '"') {
        return None;
    }
    if !is_at(s, referer_end + 1, ' ') {
        return None;
    }
    if !is_at(s, referer_end + 2, '"') {
        return None;
    }
    let agent_end = scan(s, referer_end + 3, Class::NonQuote);
    if agent_end == referer_end + 3 || !is_at(s, agent_end, '"') {
        return None;
    }
    Some(TailBounds { method_end, path_end, protocol_end, bytes_end, referer_end, agent_end })
}

/// The greatest index from `lo` up to `hi` at which the time field can end, with
/// the tail that follows it.
fn find_time_end(s: &Vec<char>, lo: usize, hi: usize) -> (r: Option<(usize, TailBounds)>)
    requires
        lo <= hi <= s.len(),
    ensures
        r matches Some((t, tail)) ==> lo <= t <= hi && time_can_end(s@, t as int) && tail@
            == tail_of(s@, t + 3),
        forall|x: int|
            lo <= x <= hi && time_can_end(s@, x) ==> (r matches Some(found) && x <= found.0),
{
    let mut t: usize = hi;
    loop
        invariant
            lo <= t <= hi <= s.len(),
            forall|x: int| t < x <= hi ==> !time_can_end(s@, x),
        decreases t - lo,
    {
        if is_at(s, t, ']') && is_at(s, t + 1, ' ') && is_at(s, t + 2, '"') {
            if let Some(tail) = match_tail(s, t + 3) {
                return Some((t, tail));
            }
        }
        if t == lo {
            return None;
        }
        t = t - 1;
    }
}

/// The greatest index from `lo` up to `hi` at which the user field can end.
fn find_user_end(s: &Vec<char>, lo: usize, hi: usize) -> (r: Option<usize>)
    requires
        lo <= hi < s.len(),
    ensures
        r matches Some(u) ==> lo <= u <= hi && user_can_end(s@, u as int),
        forall|x: int| lo <= x <= hi && user_can_end(s@, x) ==> r is Some && x <= r->0,
{
    let mut u: usize = hi;
    loop
        invariant
            lo <= u <= hi < s.len(),
            forall|x: int| u < x <= hi ==> !user_can_end(s@, x),
        decreases u - lo,
    {
        if is_at(s, u, ' ') && is_at(s, u + 1, '[') {
            return Some(u);
        }
        if u == lo {
            return None;
        }
        u = u - 1;
    }
}

/// Whether the address can end at index `a` of `s`: the characters before it
/// are a run without white space, and the delimiter ` - ` stands there.
pub open spec fn addr_can_end(s: Seq<char>, a: int) -> bool {
    &&& 0 < a
    &&& a == run_end(s, 0, Class::NonSpace)
    &&& at(s, a, ' ')
    &&& at(s, a + 1, '-')
    &&& at(s, a + 2, ' ')
}

/// A line whose first run of characters is no address followed by ` - ` has
/// no split.
proof fn lemma_no_addr(s: Seq<char>)
    requires
        !addr_can_end(s, run_end(s, 0, Class::NonSpace)),
    ensures
        row_split(s) is None,
{
    lemma_row_split(s);
    assert forall|o: Split| !is_split(s, o) by {
        if is_split(s, o) {
            lemma_split_bounds(s, o);
        }
    }
}

/// A line in which the time can end nowhere between the address and the end
/// of the first line has no split.
proof fn lemma_no_time(s: Seq<char>, a: int)
    requires
        addr_can_end(s, a),
        forall|x: int|
            a + 6 <= x <= run_end(s, a + 3, Class::NonNewline) ==> !time_can_end(s, x),
    ensures
        row_split(s) is None,
{
    lemma_row_split(s);
    assert forall|o: Split| !is_split(s, o) by {
        if is_split(s, o) {
            lemma_split_bounds(s, o);
        }
    }
}

/// A line in which the user can end nowhere before the last place where the
/// time can end has no split.
proof fn lemma_no_user(s: Seq<char>, a: int, t: int)
    requires
        addr_can_end(s, a),
        forall|x: int|
            a + 6 <= x <= run_end(s, a + 3, Class::NonNewline) && time_can_end(s, x) ==> x <= t,
        forall|x: int| a + 3 <= x <= t - 3 ==> !user_can_end(s, x),
    ensures
        row_split(s) is None,
{
    lemma_row_split(s);
    assert forall|o: Split| !is_split(s, o) by {
        if is_split(s, o) {
            lemma_split_bounds(s, o);
        }
    }
}

/// The split that ends the time at the last place where it can end, and the
/// user at the last place before it, is the one that is taken.
proof fn lemma_found(s: Seq<char>, m: Split)
    requires
        addr_can_end(s, m.addr_end),
        m.addr_end + 3 <= m.user_end <= m.time_end - 3,
        m.time_end <= run_end(s, m.addr_end + 3, Class::NonNewline),
        user_can_end(s, m.user_end),
        time_can_end(s, m.time_end),
        m.tail == tail_of(s, m.time_end + 3),
        forall|x: int|
            m.addr_end + 6 <= x <= run_end(s, m.addr_end + 3, Class::NonNewline) && time_can_end(
                s,
                x,
            ) ==> x <= m.time_end,
        forall|x: int|
            m.addr_end + 3 <= x <= m.time_end - 3 && user_can_end(s, x) ==> x <= m.user_end,
    ensures
        row_split(s) == Some(m),
{
    lemma_run_end(s, 0, Class::NonSpace);
    lemma_run_end(s, m.addr_end + 3, Class::NonNewline);
    assert(is_split(s, m));
    assert forall|o: Split| #[trigger] is_split(s, o) implies o.user_end < m.user_end || (o.user_end
        == m.user_end && o.time_end <= m.time_end) by {
        lemma_split_bounds(s, o);
    }
    assert(is_preferred(s, m));
    lemma_preferred_unique(s, m, row_split(s)->0);
}

/// Splits a line into the fields of a row, if it starts with one.
pub fn find_split(s: &Vec<char>) -> (r: Option<Bounds>)
    ensures
        bounds_view(r) == row_split(s@),
{
    let addr_end = scan(s, 0, Class::NonSpace);
    if addr_end == 0 || !is_at(s, addr_end, ' ') || !is_at(s, addr_end + 1, '-') || !is_at(
        s,
        addr_end + 2,
        ' ',
    ) {
        proof {
            lemma_no_addr(s@);
        }
        return None;
    }
    let start = addr_end + 3;
    let line_end = scan(s, start, Class::NonNewline);
    if line_end - start < 3 {
        proof {
            lemma_no_time(s@, addr_end as int);
        }
        return None;
    }
    let (time_end, tail) = match find_time_end(s, start + 3, line_end) {
        Some(found) => found,
        None => {
            proof {
                lemma_no_time(s@, addr_end as int);
            }
            return None;
        },
    };
    let user_end = match find_user_end(s, start, time_end - 3) {
        Some(found) => found,
        None => {
            proof {
                lemma_no_user(s@, addr_end as int, time_end as int);
            }
            return None;
        },
    };
    let bounds = Bounds { addr_end, user_end, time_end, tail };
    proof {
        lemma_found(s@, bounds@);
    }
    Some(bounds)
}

} // verus!
