//! From a line of the access log to a request record, or to the reason why
//! the line is none.
//!
//! A line is first cut into the fields of the row that it starts with
//! ([`row_fields`], of which [`lemma_row_fields`] says which row that is), and
//! the fields are then read as values ([`parse_fields`]).

use vstd::prelude::*;
use vstd::string::StrSliceExecFns;
use crate::chars::{all_in, to_chars, Class};
use crate::grammar::{
    find_split, is_split, lemma_row_split, lemma_split_bounds, row_split, Split, Tail,
};
use crate::ip::{ip_literal, IpAddress, IpView};
use crate::number::{decimal, parse_decimal};
use crate::time::{local_time, LocalTime};

verus! {

/// One request, as a line of the access log records it.
#[derive(Debug, PartialEq)]
pub struct LogRow {
    pub remote_addr: IpAddress,
    pub remote_user: String,
    pub time_local: LocalTime,
    pub request_method: String,
    pub request_path: String,
    pub request_protocol: String,
    pub response_status: u16,
    pub response_body_bytes_sent: u64,
    pub http_referer: String,
    pub http_user_agent: String,
}

/// Why a line is no request record.
#[derive(Clone, Copy, Debug, PartialEq, Eq, Structural)]
pub enum ParseLogError {
    /// The line does not start with a row of the grammar.
    NoMatch,
    /// The address is no IP literal.
    InvalidIpAddr,
    /// The time is not in the server's format, or no time that exists.
    InvalidTime,
    /// The status, which is given, is below 100 or above 599.
    InvalidStatusCode(u16),
    /// The status or the size is not written in the digits `0` to `9`, or the
    /// size is too great for 64 bits.
    InvalidNumber,
}

/// A request record as mathematical values.
pub struct LogRowView {
    pub remote_addr: IpView,
    pub remote_user: Seq<char>,
    pub time_local: LocalTime,
    pub request_method: Seq<char>,
    pub request_path: Seq<char>,
    pub request_protocol: Seq<char>,
    pub response_status: u16,
    pub response_body_bytes_sent: u64,
    pub http_referer: Seq<char>,
    pub http_user_agent: Seq<char>,
}

impl View for LogRow {
    type V = LogRowView;

    open spec fn view(&self) -> LogRowView {
        LogRowView {
            remote_addr: self.remote_addr@,
            remote_user: self.remote_user@,
            time_local: self.time_local,
            request_method: self.request_method@,
            request_path: self.request_path@,
            request_protocol: self.request_protocol@,
            response_status: self.response_status,
            response_body_bytes_sent: self.response_body_bytes_sent,
            http_referer: self.http_referer@,
            http_user_agent: self.http_user_agent@,
        }
    }
}

/// The text of each field of a row, before any of it is read as a value.
#[derive(Debug, PartialEq, Eq)]
pub struct Fields {
    pub remote_addr: String,
    pub remote_user: String,
    pub time_local: String,
    pub request_method: String,
    pub request_path: String,
    pub request_protocol: String,
    pub response_status: String,
    pub response_body_bytes_sent: String,
    pub http_referer: String,
    pub http_user_agent: String,
}

/// The text of each field of a row as a sequence of characters.
pub struct FieldsView {
    pub remote_addr: Seq<char>,
    pub remote_user: Seq<char>,
    pub time_local: Seq<char>,
    pub request_method: Seq<char>,
    pub request_path: Seq<char>,
    pub request_protocol: Seq<char>,
    pub response_status: Seq<char>,
    pub response_body_bytes_sent: Seq<char>,
    pub http_referer: Seq<char>,
    pub http_user_agent: Seq<char>,
}

impl View for Fields {
    type V = FieldsView;

    open spec fn view(&self) -> FieldsView {
        FieldsView {
            remote_addr: self.remote_addr@,
            remote_user: self.remote_user@,
            time_local: self.time_local@,
            request_method: self.request_method@,
            request_path: self.request_path@,
            request_protocol: self.request_protocol@,
            response_status: self.response_status@,
            response_body_bytes_sent: self.response_body_bytes_sent@,
            http_referer: self.http_referer@,
            http_user_agent: self.http_user_agent@,
        }
    }
}

/// The fields that the split `m` cuts out of the line `s`.
pub open spec fn fields_of(s: Seq<char>, m: Split) -> FieldsView {
    FieldsView {
        remote_addr: s.subrange(0, m.addr_end),
        remote_user: s.subrange(m.addr_end + 3, m.user_end),
        time_local: s.subrange(m.user_end + 2, m.time_end),
        request_method: s.subrange(m.time_end + 3, m.tail.method_end),
        request_path: s.subrange(m.tail.method_end + 1, m.tail.path_end),
        request_protocol: s.subrange(m.tail.path_end + 1, m.tail.protocol_end),
        response_status: s.subrange(m.tail.protocol_end + 2, m.tail.protocol_end + 5),
        response_body_bytes_sent: s.subrange(m.tail.protocol_end + 6, m.tail.bytes_end),
        http_referer: s.subrange(m.tail.bytes_end + 2, m.tail.referer_end),
        http_user_agent: s.subrange(m.tail.referer_end + 3, m.tail.agent_end),
    }
}

/// Whether all of `t` is made of characters of `class`.
pub open spec fn all_of(t: Seq<char>, class: Class) -> bool {
    all_in(t, 0, t.len() as int, class)
}

/// Whether `f` can be the fields of a row: each is made of the characters of
/// its kind, the status of three of them and every other but the user of one
/// at least.
pub open spec fn are_fields(f: FieldsView) -> bool {
    &&& f.remote_addr.len() > 0 && all_of(f.remote_addr, Class::NonSpace)
    &&& all_of(f.remote_user, Class::NonNewline)
    &&& f.time_local.len() > 0 && all_of(f.time_local, Class::NonNewline)
    &&& f.request_method.len() > 0 && all_of(f.request_method, Class::NonSpace)
    &&& f.request_path.len() > 0 && all_of(f.request_path, Class::NonSpace)
    &&& f.request_protocol.len() > 0 && all_of(f.request_protocol, Class::NonSpace)
    &&& f.response_status.len() == 3 && all_of(f.response_status, Class::Decimal)
    &&& f.response_body_bytes_sent.len() > 0 && all_of(f.response_body_bytes_sent, Class::Decimal)
    &&& f.http_referer.len() > 0 && all_of(f.http_referer, Class::NonQuote)
    &&& f.http_user_agent.len() > 0 && all_of(f.http_user_agent, Class::NonQuote)
}

/// The row that the fields `f` make: the fields in their order, each with the
/// delimiters of the grammar around it.
pub open spec fn row_text(f: FieldsView) -> Seq<char> {
    f.remote_addr + seq![' ', '-', ' '] + f.remote_user + seq![' ', '['] + f.time_local
        + seq![']', ' ', '"'] + f.request_method + seq![' '] + f.request_path + seq![' ']
        + f.request_protocol + seq!['"', ' '] + f.response_status + seq![' ']
        + f.response_body_bytes_sent + seq![' ', '"'] + f.http_referer + seq!['"', ' ', '"']
        + f.http_user_agent + seq!['"']
}

/// Whether the line `s` starts with the row that the fields `f` make.
pub open spec fn is_row(s: Seq<char>, f: FieldsView) -> bool {
    are_fields(f) && row_text(f).is_prefix_of(s)
}

/// Where the fields `f` end in a line that starts with the row that they
/// make.
pub open spec fn split_of(f: FieldsView) -> Split {
    let addr_end = f.remote_addr.len() as int;
    let user_end = addr_end + 3 + f.remote_user.len();
    let time_end = user_end + 2 + f.time_local.len();
    let method_end = time_end + 3 + f.request_method.len();
    let path_end = method_end + 1 + f.request_path.len();
    let protocol_end = path_end + 1 + f.request_protocol.len();
    let bytes_end = protocol_end + 6 + f.response_body_bytes_sent.len();
    let referer_end = bytes_end + 2 + f.http_referer.len();
    let agent_end = referer_end + 3 + f.http_user_agent.len();
    Split {
        addr_end,
        user_end,
        time_end,
        tail: Tail { method_end, path_end, protocol_end, bytes_end, referer_end, agent_end },
    }
}

/// The fields of the row that the line `s` starts with, if it starts with one.
pub open spec fn row_fields(s: Seq<char>) -> Option<FieldsView> {
    match row_split(s) {
        Some(m) => Some(fields_of(s, m)),
        None => None,
    }
}

/// The record that the fields `f` make, `time` being what the time field
/// reads as. The address is looked at first, then the status, the time and
/// the size, and the first that is wrong gives the error.
pub open spec fn parse_fields(f: FieldsView, time: Option<LocalTime>) -> Result<
    LogRowView,
    ParseLogError,
> {
    match ip_literal(f.remote_addr) {
        None => Err(ParseLogError::InvalidIpAddr),
        Some(remote_addr) => match decimal(f.response_status, u16::MAX as nat) {
            None => Err(ParseLogError::InvalidNumber),
            Some(status) => if status < 100 || status >= 600 {
                Err(ParseLogError::InvalidStatusCode(status as u16))
            } else {
                match time {
                    None => Err(ParseLogError::InvalidTime),
                    Some(time_local) => match decimal(
                        f.response_body_bytes_sent,
                        u64::MAX as nat,
                    ) {
                        None => Err(ParseLogError::InvalidNumber),
                        Some(size) => Ok(
                            LogRowView {
                                remote_addr,
                                remote_user: f.remote_user,
                                time_local,
                                request_method: f.request_method,
                                request_path: f.request_path,
                                request_protocol: f.request_protocol,
                                response_status: status as u16,
                                response_body_bytes_sent: size as u64,
                                http_referer: f.http_referer,
                                http_user_agent: f.http_user_agent,
                            },
                        ),
                    },
                }
            },
        },
    }
}

/// What the line `s` parses to.
pub open spec fn parse_line(s: Seq<char>) -> Result<LogRowView, ParseLogError> {
    match row_fields(s) {
        None => Err(ParseLogError::NoMatch),
        Some(f) => parse_fields(f, local_time(f.time_local)),
    }
}

/// The view of the fields, where there are any.
pub open spec fn fields_view(f: Option<Fields>) -> Option<FieldsView> {
    match f {
        Some(f) => Some(f@),
        None => None,
    }
}

/// The view of a record or the error in its place.
pub open spec fn row_view(r: Result<LogRow, ParseLogError>) -> Result<LogRowView, ParseLogError> {
    match r {
        Ok(row) => Ok(row@),
        Err(e) => Err(e),
    }
}

/// The characters of `line` from index `from` up to `to`, as a text of their
/// own.
fn cut(line: &str, from: usize, to: usize) -> (r: String)
    requires
        from <= to <= line@.len(),
    ensures
        r@ == line@.subrange(from as int, to as int),
{
    line.substring_char(from, to).to_owned()
}

impl Fields {
    /// Cuts the fields out of a line that starts with a row; `None` if it
    /// starts with none.
    pub fn split(line: &str) -> (r: Option<Fields>)
        ensures
            fields_view(r) == row_fields(line@),
    {
        let s = to_chars(line);
        let b = match find_split(&s) {
            Some(b) => b,
            None => {
                return None;
            },
        };
        proof {
            lemma_row_split(line@);
            assert(is_split(line@, b@));
        }
        let t = b.tail;
        Some(
            Fields {
                remote_addr: cut(line, 0, b.addr_end),
                remote_user: cut(line, b.addr_end + 3, b.user_end),
                time_local: cut(line, b.user_end + 2, b.time_end),
                request_method: cut(line, b.time_end + 3, t.method_end),
                request_path: cut(line, t.method_end + 1, t.path_end),
                request_protocol: cut(line, t.path_end + 1, t.protocol_end),
                response_status: cut(line, t.protocol_end + 2, t.protocol_end + 5),
                response_body_bytes_sent: cut(line, t.protocol_end + 6, t.bytes_end),
                http_referer: cut(line, t.bytes_end + 2, t.referer_end),
                http_user_agent: cut(line, t.referer_end + 3, t.agent_end),
            },
        )
    }
}

impl LogRow {
    /// Makes a record of the fields of a row. `time` is what the time field
    /// reads as.
    pub fn from_fields(fields: Fields, time: Option<LocalTime>) -> (r: Result<
        LogRow,
        ParseLogError,
    >)
        ensures
            row_view(r) == parse_fields(fields@, time),
    {
        let remote_addr = match IpAddress::parse(fields.remote_addr.as_str()) {
            Some(addr) => addr,
            None => {
                return Err(ParseLogError::InvalidIpAddr);
            },
        };
        let status = match parse_decimal(fields.response_status.as_str(), 65535) {
            Some(status) => status as u16,
            None => {
                return Err(ParseLogError::InvalidNumber);
            },
        };
        if status < 100 || status >= 600 {
            return Err(ParseLogError::InvalidStatusCode(status));
        }
        let time_local = match time {
            Some(time) => time,
            None => {
                return Err(ParseLogError::InvalidTime);
            },
        };
        let size = match parse_decimal(
            fields.response_body_bytes_sent.as_str(),
            0xffff_ffff_ffff_ffff,
        ) {
            Some(size) => size,
            None => {
                return Err(ParseLogError::InvalidNumber);
            },
        };
        Ok(
            LogRow {
                remote_addr,
                remote_user: fields.remote_user,
                time_local,
                request_method: fields.request_method,
                request_path: fields.request_path,
                request_protocol: fields.request_protocol,
                response_status: status,
                response_body_bytes_sent: size,
                http_referer: fields.http_referer,
                http_user_agent: fields.http_user_agent,
            },
        )
    }

    /// Parses a line of the access log.
    pub fn from_str(value: &str) -> (r: Result<LogRow, ParseLogError>)
        ensures
            row_view(r) == parse_line(value@),
    {
        match Fields::split(value) {
            None => Err(ParseLogError::NoMatch),
            Some(fields) => {
                let time = LocalTime::parse(fields.time_local.as_str());
                LogRow::from_fields(fields, time)
            },
        }
    }
}

impl std::str::FromStr for LogRow {
    type Err = ParseLogError;

    /// Parses a line of the access log, as [`LogRow::from_str`] does.
    fn from_str(value: &str) -> (r: Result<LogRow, ParseLogError>)
        ensures
            row_view(r) == parse_line(value@),
    {
        LogRow::from_str(value)
    }
}

/// The fields that a split cuts out of a line are fields of a row, and the row
/// that they make is the start of the line.
pub proof fn lemma_split_is_text(s: Seq<char>, m: Split)
    requires
        is_split(s, m),
    ensures
        are_fields(fields_of(s, m)),
        row_text(fields_of(s, m)).is_prefix_of(s),
        split_of(fields_of(s, m)) == m,
{
    let f = fields_of(s, m);
    let t = m.tail;
    assert(f.response_status.len() == 3);
    assert(s.subrange(0, t.agent_end + 1) =~= row_text(f));
}

/// Where a text and a piece after it are the start of a line, the text is
/// the start of the line and the piece is what follows it there.
proof fn lemma_piece(s: Seq<char>, before: Seq<char>, piece: Seq<char>)
    requires
        (before + piece).is_prefix_of(s),
    ensures
        before.is_prefix_of(s),
        s.subrange(before.len() as int, (before.len() + piece.len()) as int) == piece,
{
    let whole = before + piece;
    assert(s.subrange(0, whole.len() as int) == whole);
    assert forall|i: int| 0 <= i < whole.len() implies s[i] == whole[i] by {
        assert(s.subrange(0, whole.len() as int)[i] == whole[i]);
    }
    assert(s.subrange(0, before.len() as int) =~= before);
    assert(s.subrange(before.len() as int, (before.len() + piece.len()) as int) =~= piece);
}

/// A stretch of a line that is made of the characters of a class is a stretch
/// of the class.
proof fn lemma_stretch(s: Seq<char>, from: int, piece: Seq<char>, class: Class)
    requires
        0 <= from,
        from + piece.len() <= s.len(),
        s.subrange(from, from + piece.len()) == piece,
        all_of(piece, class),
    ensures
        all_in(s, from, from + piece.len(), class),
{
    assert forall|i: int| from <= i < from + piece.len() implies class.has(#[trigger] s[i]) by {
        assert(s.subrange(from, from + piece.len())[i - from] == s[i]);
        assert(class.has(piece[i - from]));
    }
}

/// In a line that starts with the row that some fields make, each field and
/// each delimiter stands where the lengths of those before it put it.
proof fn lemma_text_pieces(s: Seq<char>, f: FieldsView)
    requires
        row_text(f).is_prefix_of(s),
        f.response_status.len() == 3,
    ensures
        ({
            let m = split_of(f);
            let t = m.tail;
            &&& t.agent_end + 1 <= s.len()
            &&& s.subrange(0, m.addr_end) == f.remote_addr
            &&& s.subrange(m.addr_end, m.addr_end + 3) == seq![' ', '-', ' ']
            &&& s.subrange(m.addr_end + 3, m.user_end) == f.remote_user
            &&& s.subrange(m.user_end, m.user_end + 2) == seq![' ', '[']
            &&& s.subrange(m.user_end + 2, m.time_end) == f.time_local
            &&& s.subrange(m.time_end, m.time_end + 3) == seq![']', ' ', '"']
            &&& s.subrange(m.time_end + 3, t.method_end) == f.request_method
            &&& s.subrange(t.method_end, t.method_end + 1) == seq![' ']
            &&& s.subrange(t.method_end + 1, t.path_end) == f.request_path
            &&& s.subrange(t.path_end, t.path_end + 1) == seq![' ']
            &&& s.subrange(t.path_end + 1, t.protocol_end) == f.request_protocol
            &&& s.subrange(t.protocol_end, t.protocol_end + 2) == seq!['"', ' ']
            &&& s.subrange(t.protocol_end + 2, t.protocol_end + 5) == f.response_status
            &&& s.subrange(t.protocol_end + 5, t.protocol_end + 6) == seq![' ']
            &&& s.subrange(t.protocol_end + 6, t.bytes_end) == f.response_body_bytes_sent
            &&& s.subrange(t.bytes_end, t.bytes_end + 2) == seq![' ', '"']
            &&& s.subrange(t.bytes_end + 2, t.referer_end) == f.http_referer
            &&& s.subrange(t.referer_end, t.referer_end + 3) == seq!['"', ' ', '"']
            &&& s.subrange(t.referer_end + 3, t.agent_end) == f.http_user_agent
            &&& s.subrange(t.agent_end, t.agent_end + 1) == seq!['"']
        }),
{
    let p1 = f.remote_addr;
    let p2 = p1 + seq![' ', '-', ' '];
    let p3 = p2 + f.remote_user;
    let p4 = p3 + seq![' ', '['];
    let p5 = p4 + f.time_local;
    let p6 = p5 + seq![']', ' ', '"'];
    let p7 = p6 + f.request_method;
    let p8 = p7 + seq![' '];
    let p9 = p8 + f.request_path;
    let p10 = p9 + seq![' '];
    let p11 = p10 + f.request_protocol;
    let p12 = p11 + seq!['"', ' '];
    let p13 = p12 + f.response_status;
    let p14 = p13 + seq![' '];
    let p15 = p14 + f.response_body_bytes_sent;
    let p16 = p15 + seq![' ', '"'];
    let p17 = p16 + f.http_referer;
    let p18 = p17 + seq!['"', ' ', '"'];
    let p19 = p18 + f.http_user_agent;
    let m = split_of(f);
    let t = m.tail;
    assert(p1.len() == m.addr_end);
    assert(p3.len() == m.user_end);
    assert(p5.len() == m.time_end);
    assert(p7.len() == t.method_end);
    assert(p9.len() == t.path_end);
    assert(p11.len() == t.protocol_end);
    assert(p13.len() == t.protocol_end + 5);
    assert(p15.len() == t.bytes_end);
    assert(p17.len() == t.referer_end);
    assert(p19.len() == t.agent_end);
    assert(row_text(f) == p19 + seq!['"']);
    lemma_piece(s, p19, seq!['"']);
    lemma_piece(s, p18, f.http_user_agent);
    lemma_piece(s, p17, seq!['"', ' ', '"']);
    lemma_piece(s, p16, f.http_referer);
    lemma_piece(s, p15, seq![' ', '"']);
    lemma_piece(s, p14, f.response_body_bytes_sent);
    lemma_piece(s, p13, seq![' ']);
    lemma_piece(s, p12, f.response_status);
    lemma_piece(s, p11, seq!['"', ' ']);
    lemma_piece(s, p10, f.request_protocol);
    lemma_piece(s, p9, seq![' ']);
    lemma_piece(s, p8, f.request_path);
    lemma_piece(s, p7, seq![' ']);
    lemma_piece(s, p6, f.request_method);
    lemma_piece(s, p5, seq![']', ' ', '"']);
    lemma_piece(s, p4, f.time_local);
    lemma_piece(s, p3, seq![' ', '[']);
    lemma_piece(s, p2, f.remote_user);
    lemma_piece(s, p1, seq![' ', '-', ' ']);
    assert(s.subrange(0, p1.len() as int) == p1);
}

/// A line that starts with the row that some fields make has a split that
/// cuts out those fields.
pub proof fn lemma_text_is_split(s: Seq<char>, f: FieldsView)
    requires
        are_fields(f),
        row_text(f).is_prefix_of(s),
    ensures
        is_split(s, split_of(f)),
        fields_of(s, split_of(f)) == f,
{
    let m = split_of(f);
    let t = m.tail;
    lemma_text_pieces(s, f);
    lemma_stretch(s, 0, f.remote_addr, Class::NonSpace);
    lemma_stretch(s, m.addr_end + 3, f.remote_user, Class::NonNewline);
    lemma_stretch(s, m.user_end + 2, f.time_local, Class::NonNewline);
    lemma_stretch(s, m.time_end + 3, f.request_method, Class::NonSpace);
    lemma_stretch(s, t.method_end + 1, f.request_path, Class::NonSpace);
    lemma_stretch(s, t.path_end + 1, f.request_protocol, Class::NonSpace);
    lemma_stretch(s, t.protocol_end + 2, f.response_status, Class::Decimal);
    lemma_stretch(s, t.protocol_end + 6, f.response_body_bytes_sent, Class::Decimal);
    lemma_stretch(s, t.bytes_end + 2, f.http_referer, Class::NonQuote);
    lemma_stretch(s, t.referer_end + 3, f.http_user_agent, Class::NonQuote);
    assert(s.subrange(m.addr_end, m.addr_end + 3)[0] == ' ');
    assert(s.subrange(m.addr_end, m.addr_end + 3)[1] == '-');
    assert(s.subrange(m.addr_end, m.addr_end + 3)[2] == ' ');
    assert(s.subrange(m.user_end, m.user_end + 2)[0] == ' ');
    assert(s.subrange(m.user_end, m.user_end + 2)[1] == '[');
    assert(s.subrange(m.time_end, m.time_end + 3)[0] == ']');
    assert(s.subrange(m.time_end, m.time_end + 3)[1] == ' ');
    assert(s.subrange(m.time_end, m.time_end + 3)[2] == '"');
    assert(s.subrange(t.method_end, t.method_end + 1)[0] == ' ');
    assert(s.subrange(t.path_end, t.path_end + 1)[0] == ' ');
    assert(s.subrange(t.protocol_end, t.protocol_end + 2)[0] == '"');
    assert(s.subrange(t.protocol_end, t.protocol_end + 2)[1] == ' ');
    assert(s.subrange(t.protocol_end + 5, t.protocol_end + 6)[0] == ' ');
    assert(s.subrange(t.bytes_end, t.bytes_end + 2)[0] == ' ');
    assert(s.subrange(t.bytes_end, t.bytes_end + 2)[1] == '"');
    assert(s.subrange(t.referer_end, t.referer_end + 3)[0] == '"');
    assert(s.subrange(t.referer_end, t.referer_end + 3)[1] == ' ');
    assert(s.subrange(t.referer_end, t.referer_end + 3)[2] == '"');
    assert(s.subrange(t.agent_end, t.agent_end + 1)[0] == '"');
    assert(Class::Decimal.has(s[t.protocol_end + 2]));
    assert(Class::Decimal.has(s[t.protocol_end + 3]));
    assert(Class::Decimal.has(s[t.protocol_end + 4]));
}

/// The fields of a line are fields of a row that the line starts with. Where
/// the line starts with more than one row, they are those with the longest
/// user and, among these, the longest time. A line that starts with no row
/// has no fields.
pub proof fn lemma_row_fields(s: Seq<char>)
    ensures
        row_fields(s) matches Some(f) ==> is_row(s, f) && (forall|g: FieldsView| #[trigger]
            is_row(s, g) ==> g.remote_user.len() < f.remote_user.len() || (g.remote_user.len()
                == f.remote_user.len() && g.time_local.len() <= f.time_local.len())),
        row_fields(s) is None ==> forall|g: FieldsView| !is_row(s, g),
{
    lemma_row_split(s);
    match row_split(s) {
        Some(m) => {
            let f = fields_of(s, m);
            lemma_split_is_text(s, m);
            lemma_split_bounds(s, m);
            assert forall|g: FieldsView| #[trigger] is_row(s, g) implies g.remote_user.len()
                < f.remote_user.len() || (g.remote_user.len() == f.remote_user.len()
                && g.time_local.len() <= f.time_local.len()) by {
                lemma_text_is_split(s, g);
                lemma_split_bounds(s, split_of(g));
            }
        },
        None => {
            assert forall|g: FieldsView| !is_row(s, g) by {
                if is_row(s, g) {
                    lemma_text_is_split(s, g);
                }
            }
        },
    }
}

/// Two rows that a line starts with and that have a user of the same length
/// and a time of the same length are the same row.
pub proof fn lemma_row_unique(s: Seq<char>, f: FieldsView, g: FieldsView)
    requires
        is_row(s, f),
        is_row(s, g),
        f.remote_user.len() == g.remote_user.len(),
        f.time_local.len() == g.time_local.len(),
    ensures
        f == g,
{
    lemma_text_is_split(s, f);
    lemma_text_is_split(s, g);
    lemma_split_bounds(s, split_of(f));
    lemma_split_bounds(s, split_of(g));
}

/// A line is rejected as no match exactly when it starts with no row of the
/// grammar; no other line is.
pub proof fn lemma_no_match(s: Seq<char>)
    ensures
        parse_line(s) == Err::<LogRowView, ParseLogError>(ParseLogError::NoMatch) <==> (forall|
            f: FieldsView,
        |
            !is_row(s, f)),
{
    lemma_row_fields(s);
    if row_fields(s) is Some {
        assert(is_row(s, row_fields(s)->0));
    }
}

/// A status below 100 or above 599 is rejected with its value, and no other
/// is: the text of the status is read as a number first, whatever zeros it
/// starts with, and the number is then held against the two bounds.
pub proof fn lemma_status_bounds(f: FieldsView, time: Option<LocalTime>)
    requires
        ip_literal(f.remote_addr) is Some,
        decimal(f.response_status, u16::MAX as nat) is Some,
    ensures
        ({
            let status = decimal(f.response_status, u16::MAX as nat)->0;
            &&& status < 100 || status > 599 ==> parse_fields(f, time) == Err::<
                LogRowView,
                ParseLogError,
            >(ParseLogError::InvalidStatusCode(status as u16))
            &&& 100 <= status <= 599 ==> !(parse_fields(f, time) matches Err(
                ParseLogError::InvalidStatusCode(_),
            ))
            &&& parse_fields(f, time) matches Ok(row) ==> row.response_status == status && 100
                <= status <= 599
        }),
{
}

/// An address that is no IP literal is what a row is rejected for, whatever
/// else is wrong with the row.
pub proof fn lemma_address_first(s: Seq<char>)
    requires
        row_fields(s) is Some,
        ip_literal(row_fields(s)->0.remote_addr) is None,
    ensures
        parse_line(s) == Err::<LogRowView, ParseLogError>(ParseLogError::InvalidIpAddr),
{
}

} // verus!
