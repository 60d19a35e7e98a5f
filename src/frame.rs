//! From a captured frame to the printed lines of the DNS response it carries.
use vstd::prelude::*;
use crate::message::{
    error_offset, questions_from, chunks, decode_message, decode_spec, param_value, params_from, rdata_at, record_at,
    records_from, DecodeError, DnsMessage, MessageModel,
};
use crate::render::{answers_wf, chain_lines, hints_wf, param_wf, params_wf, rdata_wf, render_answers, view_lines};
use crate::name::{labels_valid, lemma_labels_from_valid};
use crate::text::{name_string, name_text};

verus! {


/// Length of the fixed prefix in front of the DNS message: a 14-byte Ethernet
/// header, a 20-byte IPv4 header without options and an 8-byte UDP header. No
/// other framing is recognised.
pub const FRAME_PREFIX_LEN: usize = 42;

/// Why a frame gave no lines.
#[derive(Clone, Copy, Debug, PartialEq, Eq, Structural)]
pub enum FrameError {
    /// The frame is shorter than the fixed prefix.
    Short,
    /// The DNS message in the frame is malformed.
    Decode(DecodeError),
}

/// The lines of a decoded message: none without a question, else the chain of its
/// answers about the first question's name.
pub open spec fn message_lines(m: MessageModel) -> Seq<Seq<char>> {
    match m.question {
        Some(q) => chain_lines(name_text(q.name), m.answers),
        None => Seq::empty(),
    }
}

/// The lines that a DNS payload gives, or `None` where it does not decode.
pub open spec fn payload_lines(p: Seq<u8>) -> Option<Seq<Seq<char>>> {
    match decode_spec(p) {
        Some(m) => Some(message_lines(m)),
        None => None,
    }
}

proof fn lemma_chunks_wf(v: Seq<u8>, size: int)
    requires
        size > 0,
    ensures
        hints_wf(chunks(v, size), size as nat),
{
    assert forall|i: int| 0 <= i < chunks(v, size).len() implies (#[trigger] chunks(v, size)[i]).len()
        == size by {
        assert(i * size + size <= v.len()) by (nonlinear_arith)
            requires
                0 <= i < v.len() as int / size,
                size > 0,
        ;
        assert(0 <= i * size) by (nonlinear_arith)
            requires
                0 <= i,
                size > 0,
        ;
    }
}

proof fn lemma_params_wf(msg: Seq<u8>, pos: int, end: int)
    requires
        params_from(msg, pos, end) is Some,
    ensures
        params_wf(params_from(msg, pos, end).unwrap()),
    decreases end - pos,
{
    if pos < end {
        let len = crate::message::u16_at(msg, pos + 2) as int;
        let key = crate::message::u16_at(msg, pos);
        let v = msg.subrange(pos + 4, pos + 4 + len);
        lemma_params_wf(msg, pos + 4 + len, end);
        lemma_chunks_wf(v, 4);
        lemma_chunks_wf(v, 16);
        let ps = params_from(msg, pos, end).unwrap();
        let rest = params_from(msg, pos + 4 + len, end).unwrap();
        assert(ps == seq![crate::message::SvcParamModel { key, value: param_value(key, v).unwrap() }] + rest);
        assert forall|i: int| 0 <= i < ps.len() implies param_wf(#[trigger] ps[i]) by {
            if i > 0 {
                assert(ps[i] == rest[i - 1]);
            }
        }
    }
}

proof fn lemma_records_wf(msg: Seq<u8>, pos: int, n: nat)
    requires
        records_from(msg, pos, n) is Some,
    ensures
        answers_wf(records_from(msg, pos, n).unwrap().0),
    decreases n,
{
    if n > 0 {
        let (r, p) = record_at(msg, pos).unwrap();
        lemma_records_wf(msg, p, (n - 1) as nat);
        let rs = records_from(msg, pos, n).unwrap().0;
        let rest = records_from(msg, p, (n - 1) as nat).unwrap().0;
        let (_, q) = crate::name::name_at(msg, pos).unwrap();
        let rd_end = q + 10 + crate::message::u16_at(msg, q + 8) as int;
        crate::name::lemma_name_end_bounds(msg, pos);
        let rtype = crate::message::u16_at(msg, q);
        assert(rd_end <= msg.len());
        assert(rdata_at(msg, rtype, q + 10, rd_end) == Some(r.rdata));
        if rtype == crate::message::TYPE_CNAME {
            lemma_labels_from_valid(msg, q + 10, crate::name::MAX_JUMPS as nat);
        }
        if rtype == crate::message::TYPE_HTTPS {
            let (_, e) = crate::name::name_at(msg, q + 12).unwrap();
            lemma_params_wf(msg, e, rd_end);
        }
        assert(rdata_wf(r.rdata));
        assert forall|i: int| 0 <= i < rs.len() implies rdata_wf(#[trigger] rs[i].rdata) by {
            if i > 0 {
                assert(rs[i] == rest[i - 1]);
            }
        }
    }
}

proof fn lemma_questions_wf(msg: Seq<u8>, pos: int, n: nat)
    requires
        questions_from(msg, pos, n) is Some,
    ensures
        questions_from(msg, pos, n).unwrap().0 matches Some(q) ==> labels_valid(q.name),
    decreases n,
{
    if n > 0 {
        lemma_labels_from_valid(msg, pos, crate::name::MAX_JUMPS as nat);
    }
}

/// A message fit to render: its names have valid labels and its addresses their size.
pub open spec fn message_wf(m: MessageModel) -> bool {
    &&& answers_wf(m.answers)
    &&& m.question matches Some(q) ==> labels_valid(q.name)
}

/// Every message that decodes is fit to render.
pub proof fn lemma_decoded_wf(p: Seq<u8>)
    requires
        decode_spec(p) is Some,
    ensures
        message_wf(decode_spec(p).unwrap()),
{
    let h = crate::message::header_of(p);
    let (_, q) = crate::message::questions_from(p, crate::message::HEADER_LEN as int, h.qdcount as nat).unwrap();
    lemma_questions_wf(p, crate::message::HEADER_LEN as int, h.qdcount as nat);
    lemma_records_wf(p, q, h.ancount as nat);
}

/// Renders a decoded message: no lines where it has no question, else one line per
/// address, alias or hint of its answers, about the first question's name.
pub fn render_message(msg: &DnsMessage) -> (r: Vec<String>)
    requires
        message_wf(msg@),
    ensures
        view_lines(r@) == message_lines(msg@),
{
    match &msg.question {
        Some(q) => {
            let subject = name_string(&q.name);
            render_answers(&subject, &msg.answers)
        },
        None => {
            let r: Vec<String> = Vec::new();
            assert(view_lines(r@) =~= Seq::<Seq<char>>::empty());
            r
        },
    }
}

/// Decodes a DNS payload and renders it.
pub fn process_payload(payload: &[u8]) -> (r: Result<Vec<String>, DecodeError>)
    ensures
        match payload_lines(payload@) {
            Some(ls) => r matches Ok(v) && view_lines(v@) == ls,
            None => r matches Err(e) && e.offset as int == error_offset(payload@),
        },
{
    match decode_message(payload) {
        Ok(msg) => {
            proof {
                lemma_decoded_wf(payload@);
            }
            Ok(render_message(&msg))
        },
        Err(e) => Err(e),
    }
}

/// Skips the fixed prefix of a captured frame, then decodes and renders the DNS
/// message behind it.
pub fn process_frame(frame: &[u8]) -> (r: Result<Vec<String>, FrameError>)
    ensures
        frame@.len() < FRAME_PREFIX_LEN ==> r == Err::<Vec<String>, FrameError>(FrameError::Short),
        frame@.len() >= FRAME_PREFIX_LEN ==> match payload_lines(
            frame@.subrange(FRAME_PREFIX_LEN as int, frame@.len() as int),
        ) {
            Some(ls) => r matches Ok(v) && view_lines(v@) == ls,
            None => r matches Err(FrameError::Decode(e)) && e.offset as int == error_offset(
                frame@.subrange(FRAME_PREFIX_LEN as int, frame@.len() as int),
            ),
        },
{
    if frame.len() < FRAME_PREFIX_LEN {
        return Err(FrameError::Short);
    }
    let payload = &frame[FRAME_PREFIX_LEN..frame.len()];
    assert(payload@ =~= frame@.subrange(FRAME_PREFIX_LEN as int, frame@.len() as int));
    match process_payload(payload) {
        Ok(lines) => Ok(lines),
        Err(e) => Err(FrameError::Decode(e)),
    }
}

} // verus!
