//! DNS messages: the fixed header, the first question and the answer records.
use vstd::prelude::*;
use crate::name::{copy_bytes, name_at, prepend, read_name, view_labels};

verus! {

/// Record type of an IPv4 address.
pub const TYPE_A: u16 = 1;
/// Record type of a canonical-name alias.
pub const TYPE_CNAME: u16 = 5;
/// Record type of an IPv6 address.
pub const TYPE_AAAA: u16 = 28;
/// Record type of an HTTPS service binding.
pub const TYPE_HTTPS: u16 = 65;
/// Service parameter key of the IPv4 address hints.
pub const KEY_IPV4_HINT: u16 = 4;
/// Service parameter key of the Encrypted Client Hello configuration.
pub const KEY_ECH_CONFIG: u16 = 5;
/// Service parameter key of the IPv6 address hints.
pub const KEY_IPV6_HINT: u16 = 6;
/// Length of the fixed message header.
pub const HEADER_LEN: usize = 12;

/// The fixed header of a message.
#[derive(Clone, Copy, Debug, PartialEq, Eq, Structural)]
pub struct Header {
    pub id: u16,
    pub flags: u16,
    pub qdcount: u16,
    pub ancount: u16,
    pub nscount: u16,
    pub arcount: u16,
}

/// A question: the queried name, its type and its class.
#[derive(Debug)]
pub struct Question {
    pub name: Vec<Vec<u8>>,
    pub qtype: u16,
    pub qclass: u16,
}

/// The value of a service parameter.
#[derive(Debug)]
pub enum SvcValue {
    Ipv4Hint(Vec<Vec<u8>>),
    Ipv6Hint(Vec<Vec<u8>>),
    Other(Vec<u8>),
}

/// One key and value of a service binding.
#[derive(Debug)]
pub struct SvcParam {
    pub key: u16,
    pub value: SvcValue,
}

/// The payload of an HTTPS service-binding record.
#[derive(Debug)]
pub struct Svcb {
    pub priority: u16,
    pub target: Vec<Vec<u8>>,
    pub params: Vec<SvcParam>,
}

/// The typed payload of a resource record.
#[derive(Debug)]
pub enum RData {
    A(Vec<u8>),
    Aaaa(Vec<u8>),
    Cname(Vec<Vec<u8>>),
    Https(Svcb),
    Other(Vec<u8>),
}

/// A resource record of the answer section.
#[derive(Debug)]
pub struct Record {
    pub name: Vec<Vec<u8>>,
    pub rtype: u16,
    pub class: u16,
    pub ttl: u32,
    pub rdata: RData,
}

/// A decoded message.
#[derive(Debug)]
pub struct DnsMessage {
    pub header: Header,
    pub question: Option<Question>,
    pub answers: Vec<Record>,
}

/// The message could not be decoded: a read past its end or a malformed field.
/// `offset` is where the question or record that failed begins, or the message's
/// length where the header is cut short (see `error_offset`).
#[derive(Clone, Copy, Debug, PartialEq, Eq, Structural)]
pub struct DecodeError {
    pub offset: usize,
}

/// What a question holds, with its name as a sequence of labels.
pub struct QuestionModel {
    pub name: Seq<Seq<u8>>,
    pub qtype: u16,
    pub qclass: u16,
}

/// What a service parameter value holds.
pub enum SvcValueModel {
    Ipv4Hint(Seq<Seq<u8>>),
    Ipv6Hint(Seq<Seq<u8>>),
    Other(Seq<u8>),
}

/// What a service parameter holds.
pub struct SvcParamModel {
    pub key: u16,
    pub value: SvcValueModel,
}

/// What a record payload holds.
pub enum RDataModel {
    A(Seq<u8>),
    Aaaa(Seq<u8>),
    Cname(Seq<Seq<u8>>),
    Https { priority: u16, target: Seq<Seq<u8>>, params: Seq<SvcParamModel> },
    Other(Seq<u8>),
}

/// What a resource record holds.
pub struct RecordModel {
    pub name: Seq<Seq<u8>>,
    pub rtype: u16,
    pub class: u16,
    pub ttl: u32,
    pub rdata: RDataModel,
}

/// What a decoded message holds.
pub struct MessageModel {
    pub header: Header,
    pub question: Option<QuestionModel>,
    pub answers: Seq<RecordModel>,
}

impl View for Question {
    type V = QuestionModel;

    open spec fn view(&self) -> QuestionModel {
        QuestionModel { name: view_labels(self.name@), qtype: self.qtype, qclass: self.qclass }
    }
}

impl View for SvcValue {
    type V = SvcValueModel;

    open spec fn view(&self) -> SvcValueModel {
        match self {
            SvcValue::Ipv4Hint(a) => SvcValueModel::Ipv4Hint(view_labels(a@)),
            SvcValue::Ipv6Hint(a) => SvcValueModel::Ipv6Hint(view_labels(a@)),
            SvcValue::Other(v) => SvcValueModel::Other(v@),
        }
    }
}

impl View for SvcParam {
    type V = SvcParamModel;

    open spec fn view(&self) -> SvcParamModel {
        SvcParamModel { key: self.key, value: self.value@ }
    }
}

/// The models of a sequence of service parameters.
pub open spec fn view_params(v: Seq<SvcParam>) -> Seq<SvcParamModel> {
    v.map_values(|p: SvcParam| p@)
}

impl View for RData {
    type V = RDataModel;

    open spec fn view(&self) -> RDataModel {
        match self {
            RData::A(a) => RDataModel::A(a@),
            RData::Aaaa(a) => RDataModel::Aaaa(a@),
            RData::Cname(n) => RDataModel::Cname(view_labels(n@)),
            RData::Https(s) => RDataModel::Https {
                priority: s.priority,
                target: view_labels(s.target@),
                params: view_params(s.params@),
            },
            RData::Other(v) => RDataModel::Other(v@),
        }
    }
}

impl View for Record {
    type V = RecordModel;

    open spec fn view(&self) -> RecordModel {
        RecordModel {
            name: view_labels(self.name@),
            rtype: self.rtype,
            class: self.class,
            ttl: self.ttl,
            rdata: self.rdata@,
        }
    }
}

/// The models of a sequence of records.
pub open spec fn view_records(v: Seq<Record>) -> Seq<RecordModel> {
    v.map_values(|r: Record| r@)
}

impl View for DnsMessage {
    type V = MessageModel;

    open spec fn view(&self) -> MessageModel {
        MessageModel {
            header: self.header,
            question: match self.question {
                Some(q) => Some(q@),
                None => None,
            },
            answers: view_records(self.answers@),
        }
    }
}

/// Big-endian 16-bit value at `p`.
pub open spec fn u16_at(msg: Seq<u8>, p: int) -> u16 {
    (msg[p] as int * 256 + msg[p + 1] as int) as u16
}

/// Big-endian 32-bit value at `p`.
pub open spec fn u32_at(msg: Seq<u8>, p: int) -> u32 {
    (u16_at(msg, p) as int * 65536 + u16_at(msg, p + 2) as int) as u32
}

/// A hint value cut into addresses of `size` bytes each.
pub open spec fn chunks(v: Seq<u8>, size: int) -> Seq<Seq<u8>> {
    Seq::new((v.len() as int / size) as nat, |i: int| v.subrange(i * size, i * size + size))
}

/// The value of the parameter with key `key`, or `None` where a hint does not divide evenly.
pub open spec fn param_value(key: u16, v: Seq<u8>) -> Option<SvcValueModel> {
    if key == KEY_IPV4_HINT {
        if v.len() % 4 == 0 { Some(SvcValueModel::Ipv4Hint(chunks(v, 4))) } else { None }
    } else if key == KEY_IPV6_HINT {
        if v.len() % 16 == 0 { Some(SvcValueModel::Ipv6Hint(chunks(v, 16))) } else { None }
    } else {
        Some(SvcValueModel::Other(v))
    }
}

/// The service parameters that fill `msg[pos..end]` exactly.
pub open spec fn params_from(msg: Seq<u8>, pos: int, end: int) -> Option<Seq<SvcParamModel>>
    decreases end - pos,
{
    if pos >= end {
        if pos == end { Some(Seq::empty()) } else { None }
    } else if pos + 4 > end || end > msg.len() {
        None
    } else {
        let len = u16_at(msg, pos + 2) as int;
        if pos + 4 + len > end {
            None
        } else {
            match (
                param_value(u16_at(msg, pos), msg.subrange(pos + 4, pos + 4 + len)),
                params_from(msg, pos + 4 + len, end),
            ) {
                (Some(v), Some(rest)) => Some(
                    seq![SvcParamModel { key: u16_at(msg, pos), value: v }] + rest,
                ),
                _ => None,
            }
        }
    }
}

/// The payload of a record of type `rtype` held in `msg[start..end]`.
pub open spec fn rdata_at(msg: Seq<u8>, rtype: u16, start: int, end: int) -> Option<RDataModel> {
    if rtype == TYPE_A {
        if end - start == 4 { Some(RDataModel::A(msg.subrange(start, end))) } else { None }
    } else if rtype == TYPE_AAAA {
        if end - start == 16 { Some(RDataModel::Aaaa(msg.subrange(start, end))) } else { None }
    } else if rtype == TYPE_CNAME {
        match name_at(msg, start) {
            Some((n, e)) => if e <= end { Some(RDataModel::Cname(n)) } else { None },
            None => None,
        }
    } else if rtype == TYPE_HTTPS {
        if start + 2 > end {
            None
        } else {
            match name_at(msg, start + 2) {
                Some((t, e)) => if e > end {
                    None
                } else {
                    match params_from(msg, e, end) {
                        Some(ps) => Some(
                            RDataModel::Https { priority: u16_at(msg, start), target: t, params: ps },
                        ),
                        None => None,
                    }
                },
                None => None,
            }
        }
    } else {
        Some(RDataModel::Other(msg.subrange(start, end)))
    }
}


/// The record at `pos` and the offset just past its payload.
pub open spec fn record_at(msg: Seq<u8>, pos: int) -> Option<(RecordModel, int)> {
    match name_at(msg, pos) {
        Some((n, p)) => if p + 10 > msg.len() {
            None
        } else {
            let rd_end = p + 10 + u16_at(msg, p + 8) as int;
            if rd_end > msg.len() {
                None
            } else {
                match rdata_at(msg, u16_at(msg, p), p + 10, rd_end) {
                    Some(d) => Some(
                        (
                            RecordModel {
                                name: n,
                                rtype: u16_at(msg, p),
                                class: u16_at(msg, p + 2),
                                ttl: u32_at(msg, p + 4),
                                rdata: d,
                            },
                            rd_end,
                        ),
                    ),
                    None => None,
                }
            }
        },
        None => None,
    }
}

/// The question at `pos` and the offset just past it.
pub open spec fn question_at(msg: Seq<u8>, pos: int) -> Option<(QuestionModel, int)> {
    match name_at(msg, pos) {
        Some((n, p)) => if p + 4 > msg.len() {
            None
        } else {
            Some(
                (QuestionModel { name: n, qtype: u16_at(msg, p), qclass: u16_at(msg, p + 2) }, p + 4),
            )
        },
        None => None,
    }
}

/// The first of `n` questions from `pos`, and the offset after the last of them.
pub open spec fn questions_from(msg: Seq<u8>, pos: int, n: nat) -> Option<(Option<QuestionModel>, int)>
    decreases n,
{
    if n == 0 {
        Some((None, pos))
    } else {
        match question_at(msg, pos) {
            Some((q, p)) => match questions_from(msg, p, (n - 1) as nat) {
                Some((_, e)) => Some((Some(q), e)),
                None => None,
            },
            None => None,
        }
    }
}

/// `n` records from `pos`, and the offset after the last of them.
pub open spec fn records_from(msg: Seq<u8>, pos: int, n: nat) -> Option<(Seq<RecordModel>, int)>
    decreases n,
{
    if n == 0 {
        Some((Seq::empty(), pos))
    } else {
        match record_at(msg, pos) {
            Some((r, p)) => match records_from(msg, p, (n - 1) as nat) {
                Some((rs, e)) => Some((seq![r] + rs, e)),
                None => None,
            },
            None => None,
        }
    }
}

/// Where the first of `n` questions from `pos` that does not decode begins.
pub open spec fn question_failure(msg: Seq<u8>, pos: int, n: nat) -> int
    decreases n,
{
    if n == 0 {
        pos
    } else {
        match question_at(msg, pos) {
            Some((_, p)) => question_failure(msg, p, (n - 1) as nat),
            None => pos,
        }
    }
}

/// Where the first of `n` records from `pos` that does not decode begins.
pub open spec fn record_failure(msg: Seq<u8>, pos: int, n: nat) -> int
    decreases n,
{
    if n == 0 {
        pos
    } else {
        match record_at(msg, pos) {
            Some((_, p)) => record_failure(msg, p, (n - 1) as nat),
            None => pos,
        }
    }
}

/// The offset that a decode error reports: the message's length where the header is
/// cut short, else where the failing question or record begins.
pub open spec fn error_offset(msg: Seq<u8>) -> int {
    if msg.len() < HEADER_LEN {
        msg.len() as int
    } else {
        let h = header_of(msg);
        match questions_from(msg, HEADER_LEN as int, h.qdcount as nat) {
            Some((_, p)) => record_failure(msg, p, h.ancount as nat),
            None => question_failure(msg, HEADER_LEN as int, h.qdcount as nat),
        }
    }
}

/// The header at the start of the message.
pub open spec fn header_of(msg: Seq<u8>) -> Header {
    Header {
        id: u16_at(msg, 0),
        flags: u16_at(msg, 2),
        qdcount: u16_at(msg, 4),
        ancount: u16_at(msg, 6),
        nscount: u16_at(msg, 8),
        arcount: u16_at(msg, 10),
    }
}

/// The message that the bytes hold, or `None` where they are malformed.
pub open spec fn decode_spec(msg: Seq<u8>) -> Option<MessageModel> {
    if msg.len() < HEADER_LEN {
        None
    } else {
        let h = header_of(msg);
        match questions_from(msg, HEADER_LEN as int, h.qdcount as nat) {
            Some((q, p)) => match records_from(msg, p, h.ancount as nat) {
                Some((rs, _)) => Some(MessageModel { header: h, question: q, answers: rs }),
                None => None,
            },
            None => None,
        }
    }
}

fn read_u16(msg: &[u8], p: usize) -> (r: u16)
    requires
        p + 2 <= msg@.len(),
    ensures
        r == u16_at(msg@, p as int),
{
    (msg[p] as u16) * 256 + msg[p + 1] as u16
}

fn read_u32(msg: &[u8], p: usize) -> (r: u32)
    requires
        p + 4 <= msg.len(),
    ensures
        r == u32_at(msg@, p as int),
{
    let hi = read_u16(msg, p) as u32;
    let lo = read_u16(msg, p + 2) as u32;
    hi * 65536 + lo
}

/// Cuts a hint value into addresses of `size` bytes.
fn split_hints(v: &[u8], size: usize) -> (r: Vec<Vec<u8>>)
    requires
        size > 0,
        v@.len() as int % (size as int) == 0,
    ensures
        view_labels(r@) == chunks(v@, size as int),
{
    let mut r: Vec<Vec<u8>> = Vec::new();
    let mut p: usize = 0;
    let ghost n = v@.len() as int / size as int;
    proof {
        assert(v@.len() == n * size) by (nonlinear_arith)
            requires v@.len() as int % (size as int) == 0, n == v@.len() as int / size as int, size > 0;
        assert(r@.len() * size == 0) by (nonlinear_arith) requires r@.len() == 0;
    }
    while p < v.len()
        invariant
            size > 0,
            v@.len() == n * size,
            0 <= p <= v@.len(),
            p == r@.len() * size,
            r@.len() <= n,
            chunks(v@, size as int).len() == n,
            view_labels(r@) =~= chunks(v@, size as int).subrange(0, r@.len() as int),
        decreases v@.len() - p,
    {
        let ghost k = r@.len() as int;
        assert(k < n && (k + 1) * size <= n * size) by (nonlinear_arith)
            requires p == k * size, p < v@.len(), v@.len() == n * size, size > 0;
        assert((k + 1) * size == k * size + size) by (nonlinear_arith);
        let c = copy_bytes(v, p, p + size);
        assert(chunks(v@, size as int)[k] == c@);
        r.push(c);
        p = p + size;
        assert(view_labels(r@) =~= chunks(v@, size as int).subrange(0, r@.len() as int));
    }
    assert(r@.len() == n) by (nonlinear_arith)
        requires p == r@.len() * size, p == n * size, size > 0;
    assert(chunks(v@, size as int).subrange(0, n) =~= chunks(v@, size as int));
    r
}

fn decode_value(key: u16, v: &[u8]) -> (r: Option<SvcValue>)
    ensures
        match param_value(key, v@) {
            Some(m) => r matches Some(x) && x@ == m,
            None => r is None,
        },
{
    if key == KEY_IPV4_HINT {
        if v.len() % 4 == 0 { Some(SvcValue::Ipv4Hint(split_hints(v, 4))) } else { None }
    } else if key == KEY_IPV6_HINT {
        if v.len() % 16 == 0 { Some(SvcValue::Ipv6Hint(split_hints(v, 16))) } else { None }
    } else {
        let c = copy_bytes(v, 0, v.len());
        assert(c@ =~= v@);
        Some(SvcValue::Other(c))
    }
}


/// Reads the service parameters that fill `msg[start..end]`.
fn decode_params(msg: &[u8], start: usize, end: usize) -> (r: Option<Vec<SvcParam>>)
    requires
        start <= end <= msg.len(),
    ensures
        match params_from(msg@, start as int, end as int) {
            Some(m) => r matches Some(v) && view_params(v@) == m,
            None => r is None,
        },
{
    let mut ps: Vec<SvcParam> = Vec::new();
    let mut pos: usize = start;
    while pos < end
        invariant
            start <= pos <= end <= msg.len(),
            prepend(view_params(ps@), params_from(msg@, pos as int, end as int))
                == params_from(msg@, start as int, end as int),
        decreases end - pos,
    {
        if end - pos < 4 {
            return None;
        }
        let key = read_u16(msg, pos);
        let len = read_u16(msg, pos + 2) as usize;
        if len > end - pos - 4 {
            return None;
        }
        let next = pos + 4 + len;
        let raw = copy_bytes(msg, pos + 4, next);
        let value = match decode_value(key, raw.as_slice()) {
            Some(v) => v,
            None => return None,
        };
        let param = SvcParam { key, value };
        let ghost before = view_params(ps@);
        ps.push(param);
        assert(view_params(ps@) =~= before.push(param@));
        proof {
            if let Some(rest) = params_from(msg@, next as int, end as int) {
                assert(before + (seq![param@] + rest) =~= before.push(param@) + rest);
            }
        }
        pos = next;
    }
    assert(view_params(ps@) + Seq::<SvcParamModel>::empty() =~= view_params(ps@));
    Some(ps)
}

/// Reads the payload of a record of type `rtype` held in `msg[start..end]`.
fn decode_rdata(msg: &[u8], rtype: u16, start: usize, end: usize) -> (r: Option<RData>)
    requires
        start <= end <= msg.len(),
    ensures
        match rdata_at(msg@, rtype, start as int, end as int) {
            Some(m) => r matches Some(d) && d@ == m,
            None => r is None,
        },
{
    if rtype == TYPE_A {
        if end - start == 4 { Some(RData::A(copy_bytes(msg, start, end))) } else { None }
    } else if rtype == TYPE_AAAA {
        if end - start == 16 { Some(RData::Aaaa(copy_bytes(msg, start, end))) } else { None }
    } else if rtype == TYPE_CNAME {
        match read_name(msg, start) {
            Some((n, e)) => if e <= end { Some(RData::Cname(n)) } else { None },
            None => None,
        }
    } else if rtype == TYPE_HTTPS {
        if end - start < 2 {
            return None;
        }
        let priority = read_u16(msg, start);
        match read_name(msg, start + 2) {
            Some((target, e)) => {
                if e > end {
                    return None;
                }
                match decode_params(msg, e, end) {
                    Some(params) => Some(RData::Https(Svcb { priority, target, params })),
                    None => None,
                }
            },
            None => None,
        }
    } else {
        Some(RData::Other(copy_bytes(msg, start, end)))
    }
}


/// Reads the record at `pos`; returns it and the offset just past its payload.
fn decode_record(msg: &[u8], pos: usize) -> (r: Option<(Record, usize)>)
    ensures
        match record_at(msg@, pos as int) {
            Some((m, e)) => r matches Some((rec, end)) && rec@ == m && end == e,
            None => r is None,
        },
{
    let (name, p) = match read_name(msg, pos) {
        Some(x) => x,
        None => return None,
    };
    if p > msg.len() || msg.len() - p < 10 {
        return None;
    }
    let rtype = read_u16(msg, p);
    let class = read_u16(msg, p + 2);
    let ttl = read_u32(msg, p + 4);
    let rdlen = read_u16(msg, p + 8) as usize;
    if rdlen > msg.len() - p - 10 {
        return None;
    }
    let rd_end = p + 10 + rdlen;
    match decode_rdata(msg, rtype, p + 10, rd_end) {
        Some(rdata) => Some((Record { name, rtype, class, ttl, rdata }, rd_end)),
        None => None,
    }
}

/// Reads the question at `pos`; returns it and the offset just past it.
fn decode_question(msg: &[u8], pos: usize) -> (r: Option<(Question, usize)>)
    ensures
        match question_at(msg@, pos as int) {
            Some((m, e)) => r matches Some((q, end)) && q@ == m && end == e,
            None => r is None,
        },
{
    let (name, p) = match read_name(msg, pos) {
        Some(x) => x,
        None => return None,
    };
    if p > msg.len() || msg.len() - p < 4 {
        return None;
    }
    let qtype = read_u16(msg, p);
    let qclass = read_u16(msg, p + 2);
    Some((Question { name, qtype, qclass }, p + 4))
}

/// Decodes a DNS message: its header, its first question (the others are read and
/// skipped) and its answer records. Fails exactly where the bytes are malformed.
pub fn decode_message(msg: &[u8]) -> (r: Result<DnsMessage, DecodeError>)
    ensures
        match decode_spec(msg@) {
            Some(m) => r matches Ok(d) && d@ == m,
            None => r matches Err(e) && e.offset as int == error_offset(msg@),
        },
{
    if msg.len() < HEADER_LEN {
        return Err(DecodeError { offset: msg.len() });
    }
    let header = Header {
        id: read_u16(msg, 0),
        flags: read_u16(msg, 2),
        qdcount: read_u16(msg, 4),
        ancount: read_u16(msg, 6),
        nscount: read_u16(msg, 8),
        arcount: read_u16(msg, 10),
    };
    let mut question: Option<Question> = None;
    let mut pos: usize = HEADER_LEN;
    let mut i: u16 = 0;
    while i < header.qdcount
        invariant
            msg@.len() >= HEADER_LEN,
            header == header_of(msg@),
            i <= header.qdcount,
            question_failure(msg@, HEADER_LEN as int, header.qdcount as nat) == question_failure(
                msg@,
                pos as int,
                (header.qdcount - i) as nat,
            ),
            questions_from(msg@, HEADER_LEN as int, header.qdcount as nat) == match questions_from(
                msg@,
                pos as int,
                (header.qdcount - i) as nat,
            ) {
                Some((f, e)) => Some(
                    (
                        match question {
                            Some(q) => Some(q@),
                            None => f,
                        },
                        e,
                    ),
                ),
                None => None,
            },
        decreases header.qdcount - i,
    {
        let (q, next) = match decode_question(msg, pos) {
            Some(x) => x,
            None => {
                assert(questions_from(msg@, pos as int, (header.qdcount - i) as nat) is None);
                assert(question_failure(msg@, pos as int, (header.qdcount - i) as nat) == pos);
                assert(questions_from(msg@, HEADER_LEN as int, header.qdcount as nat) is None);
                assert(error_offset(msg@) == pos);
                return Err(DecodeError { offset: pos });
            },
        };
        if question.is_none() {
            question = Some(q);
        }
        pos = next;
        i = i + 1;
    }
    let mut answers: Vec<Record> = Vec::new();
    let mut j: u16 = 0;
    while j < header.ancount
        invariant
            msg@.len() >= HEADER_LEN,
            header == header_of(msg@),
            j <= header.ancount,
            match questions_from(msg@, HEADER_LEN as int, header.qdcount as nat) {
                Some((f, e)) => f == match question {
                    Some(q) => Some(q@),
                    None => None::<QuestionModel>,
                } && records_from(msg@, e, header.ancount as nat) == match records_from(
                    msg@,
                    pos as int,
                    (header.ancount - j) as nat,
                ) {
                    Some((rs, e2)) => Some((view_records(answers@) + rs, e2)),
                    None => None,
                } && record_failure(msg@, e, header.ancount as nat) == record_failure(
                    msg@,
                    pos as int,
                    (header.ancount - j) as nat,
                ),
                None => false,
            },
        decreases header.ancount - j,
    {
        let (rec, next) = match decode_record(msg, pos) {
            Some(x) => x,
            None => {
                assert(records_from(msg@, pos as int, (header.ancount - j) as nat) is None);
                assert(record_failure(msg@, pos as int, (header.ancount - j) as nat) == pos);
                let ghost qs = questions_from(msg@, HEADER_LEN as int, header.qdcount as nat);
                assert(qs is Some);
                assert(records_from(msg@, qs.unwrap().1, header.ancount as nat) is None);
                assert(error_offset(msg@) == pos);
                return Err(DecodeError { offset: pos });
            },
        };
        let ghost before = view_records(answers@);
        answers.push(rec);
        assert(view_records(answers@) =~= before.push(rec@));
        proof {
            if let Some((rs, e2)) = records_from(msg@, next as int, (header.ancount - j - 1) as nat) {
                assert(before + (seq![rec@] + rs) =~= before.push(rec@) + rs);
            }
        }
        pos = next;
        j = j + 1;
    }
    assert(view_records(answers@) + Seq::<RecordModel>::empty() =~= view_records(answers@));
    Ok(DnsMessage { header, question, answers })
}

} // verus!
