//! Properties of the decoder and the renderer, stated over their models.
use vstd::prelude::*;
use crate::capture::frame_lines;
use crate::frame::payload_lines;
use crate::message::{decode_spec, record_at, u16_at, RDataModel, RecordModel, SvcParamModel, SvcValueModel};
use crate::name::{labels_valid, labels_from, name_at, name_end, pointer_target, MAX_JUMPS};
use crate::render::{arrow, chain_lines, hint_texts, line, record_lines};
use crate::text::{ipv4_text, name_text};

verus! {

/// Number of hint addresses among the parameters.
pub open spec fn hint_count(ps: Seq<SvcParamModel>) -> nat
    decreases ps.len(),
{
    if ps.len() == 0 {
        0
    } else {
        hint_count(ps.drop_last()) + match ps.last().value {
            SvcValueModel::Ipv4Hint(a) => a.len(),
            SvcValueModel::Ipv6Hint(a) => a.len(),
            SvcValueModel::Other(_) => 0,
        }
    }
}

/// Lines owed to one record: one for an address or an alias, one per hint address
/// of an HTTPS record, none for any other type.
pub open spec fn record_line_count(d: RDataModel) -> nat {
    match d {
        RDataModel::A(_) | RDataModel::Aaaa(_) | RDataModel::Cname(_) => 1,
        RDataModel::Https { params, .. } => hint_count(params),
        RDataModel::Other(_) => 0,
    }
}

/// Lines owed to a sequence of answers.
pub open spec fn line_count(rs: Seq<RecordModel>) -> nat
    decreases rs.len(),
{
    if rs.len() == 0 {
        0
    } else {
        line_count(rs.drop_last()) + record_line_count(rs.last().rdata)
    }
}

proof fn lemma_hint_texts_len(ps: Seq<SvcParamModel>)
    ensures
        hint_texts(ps).len() == hint_count(ps),
    decreases ps.len(),
{
    if ps.len() > 0 {
        lemma_hint_texts_len(ps.drop_last());
    }
}

/// One record prints as many lines as it owes, whichever arrow it is given.
pub proof fn lemma_record_line_count(subject: Seq<char>, d: RDataModel, primary: bool)
    ensures
        record_lines(subject, d, primary).len() == record_line_count(d),
{
    if let RDataModel::Https { params, .. } = d {
        lemma_hint_texts_len(params);
    }
}

/// Rendering is a function of its arguments: equal subjects and records give equal lines.
pub proof fn lemma_render_deterministic(
    s1: Seq<char>,
    rs1: Seq<RecordModel>,
    s2: Seq<char>,
    rs2: Seq<RecordModel>,
)
    requires
        s1 == s2,
        rs1 == rs2,
    ensures
        chain_lines(s1, rs1) == chain_lines(s2, rs2),
{
}

/// The chain has as many lines as its answers owe.
pub proof fn lemma_chain_len(subject: Seq<char>, rs: Seq<RecordModel>)
    ensures
        chain_lines(subject, rs).len() == line_count(rs),
    decreases rs.len(),
{
    if rs.len() > 0 {
        lemma_chain_len(subject, rs.drop_last());
        if let RDataModel::Https { params, .. } = rs.last().rdata {
            lemma_hint_texts_len(params);
        }
    }
}

/// A message with a question prints one line per A, AAAA and CNAME answer, plus one
/// per hint address of its HTTPS answers.
pub proof fn lemma_payload_line_count(p: Seq<u8>)
    requires
        decode_spec(p) is Some,
        decode_spec(p).unwrap().question is Some,
    ensures
        payload_lines(p) is Some,
        payload_lines(p).unwrap().len() == line_count(decode_spec(p).unwrap().answers),
{
    let m = decode_spec(p).unwrap();
    lemma_chain_len(crate::text::name_text(m.question.unwrap().name), m.answers);
}

/// Decoding is a function of the bytes: equal payloads give equal messages and equal lines.
pub proof fn lemma_decode_deterministic(p1: Seq<u8>, p2: Seq<u8>)
    requires
        p1 == p2,
    ensures
        decode_spec(p1) == decode_spec(p2),
        payload_lines(p1) == payload_lines(p2),
{
}

/// Wire form of a name without compression: each label after its length, then the root label.
pub open spec fn encode_name(labels: Seq<Seq<u8>>) -> Seq<u8>
    decreases labels.len(),
{
    if labels.len() == 0 {
        seq![0u8]
    } else {
        seq![labels[0].len() as u8] + labels[0] + encode_name(labels.drop_first())
    }
}

proof fn lemma_encoded_at(msg: Seq<u8>, pos: int, labels: Seq<Seq<u8>>, budget: nat)
    requires
        labels_valid(labels),
        0 <= pos,
        pos + encode_name(labels).len() <= msg.len(),
        msg.subrange(pos, pos + encode_name(labels).len()) == encode_name(labels),
    ensures
        labels_from(msg, pos, budget) == Some(labels),
        name_end(msg, pos) == Some(pos + encode_name(labels).len()),
    decreases labels.len(),
{
    let enc = encode_name(labels);
    assert(msg[pos] == enc[0]);
    if labels.len() > 0 {
        let l = labels[0];
        let rest = labels.drop_first();
        let next = pos + 1 + l.len();
        assert(labels_valid(rest)) by {
            assert forall|i: int| 0 <= i < rest.len() implies 1 <= (#[trigger] rest[i]).len() <= 63 by {
                assert(rest[i] == labels[i + 1]);
            }
        }
        assert(1 <= labels[0].len() <= 63);
        assert(enc == seq![l.len() as u8] + l + encode_name(rest));
        assert(msg.subrange(pos + 1, next) =~= l) by {
            assert forall|i: int| 0 <= i < l.len() implies msg.subrange(pos + 1, next)[i] == l[i] by {
                assert(msg.subrange(pos + 1, next)[i] == msg.subrange(pos, pos + enc.len())[1 + i]);
            }
        }
        assert(msg.subrange(next, next + encode_name(rest).len()) =~= encode_name(rest)) by {
            assert forall|i: int| 0 <= i < encode_name(rest).len() implies msg.subrange(
                next,
                next + encode_name(rest).len(),
            )[i] == encode_name(rest)[i] by {
                assert(msg.subrange(next, next + encode_name(rest).len())[i] == msg.subrange(
                    pos,
                    pos + enc.len(),
                )[1 + l.len() + i]);
            }
        }
        lemma_encoded_at(msg, next, rest, budget);
        assert(seq![l] + rest =~= labels);
    }
}

/// A name written without compression reads back as the labels it was written from,
/// wherever it stands in a message.
pub proof fn lemma_name_round_trip(pre: Seq<u8>, labels: Seq<Seq<u8>>, post: Seq<u8>)
    requires
        labels_valid(labels),
    ensures
        name_at(pre + encode_name(labels) + post, pre.len() as int) == Some(
            (labels, pre.len() + encode_name(labels).len() as int),
        ),
{
    let msg = pre + encode_name(labels) + post;
    assert(msg.subrange(pre.len() as int, pre.len() + encode_name(labels).len() as int) =~= encode_name(labels));
    lemma_encoded_at(msg, pre.len() as int, labels, MAX_JUMPS as nat);
}

/// A compression pointer to a name written without compression reads as the same labels,
/// and the name that holds it ends just after the pointer.
pub proof fn lemma_pointer_round_trip(msg: Seq<u8>, target: int, labels: Seq<Seq<u8>>, at: int)
    requires
        labels_valid(labels),
        0 <= target < 0x4000,
        target + encode_name(labels).len() <= msg.len(),
        msg.subrange(target, target + encode_name(labels).len()) == encode_name(labels),
        0 <= at,
        at + 1 < msg.len(),
        msg[at] == 0xC0 + target / 256,
        msg[at + 1] == target % 256,
    ensures
        name_at(msg, at) == Some((labels, at + 2)),
{
    assert(pointer_target(msg[at], msg[at + 1]) == target);
    lemma_encoded_at(msg, target, labels, (MAX_JUMPS - 1) as nat);
}

/// Continuation lines: every answer with the continuation arrow.
pub open spec fn continued_lines(subject: Seq<char>, rs: Seq<RecordModel>) -> Seq<Seq<char>>
    decreases rs.len(),
{
    if rs.len() == 0 {
        Seq::empty()
    } else {
        continued_lines(subject, rs.drop_last()) + record_lines(subject, rs.last().rdata, false)
    }
}

/// The arrow of a line about `subject`.
pub open spec fn arrow_of(subject: Seq<char>, l: Seq<char>) -> char {
    l[subject.len() as int + 1]
}

proof fn lemma_chain_split(subject: Seq<char>, rs: Seq<RecordModel>)
    requires
        rs.len() >= 1,
    ensures
        chain_lines(subject, rs) == record_lines(subject, rs[0].rdata, true) + continued_lines(
            subject,
            rs.drop_first(),
        ),
    decreases rs.len(),
{
    if rs.len() == 1 {
        assert(rs.drop_last() =~= Seq::<RecordModel>::empty());
        assert(rs.drop_first() =~= Seq::<RecordModel>::empty());
        assert(chain_lines(subject, rs.drop_last()) == Seq::<Seq<char>>::empty());
        assert(continued_lines(subject, rs.drop_first()) == Seq::<Seq<char>>::empty());
        assert(rs.last() == rs[0]);
        assert(chain_lines(subject, rs) =~= record_lines(subject, rs[0].rdata, true));
    } else {
        lemma_chain_split(subject, rs.drop_last());
        assert(rs.drop_last().drop_first() =~= rs.drop_first().drop_last());
        assert(rs.drop_last()[0] == rs[0]);
        assert(rs.drop_first().last() == rs.last());
    }
}

/// Outside HTTPS records the primary arrow belongs to the first answer alone: the
/// chain is the first answer's lines with the primary arrow followed by the others'
/// lines with the continuation arrow; when the first answer is an address or an alias,
/// the first line printed carries the primary arrow, and no line of a later answer
/// that is not an HTTPS record does, whatever records stand between.
pub proof fn lemma_outer_arrows(subject: Seq<char>, rs: Seq<RecordModel>)
    requires
        rs.len() >= 1,
    ensures
        chain_lines(subject, rs) == record_lines(subject, rs[0].rdata, true) + continued_lines(
            subject,
            rs.drop_first(),
        ),
        (rs[0].rdata is A || rs[0].rdata is Aaaa || rs[0].rdata is Cname) ==> arrow_of(
            subject,
            chain_lines(subject, rs)[0],
        ) == arrow(true),
        forall|d: RDataModel, j: int|
            !(d is Https) && 0 <= j < record_lines(subject, d, false).len() ==> arrow_of(
                subject,
                #[trigger] record_lines(subject, d, false)[j],
            ) == arrow(false),
{
    lemma_chain_split(subject, rs);
}

/// An HTTPS record's first hint line carries the primary arrow and its later hint
/// lines the continuation arrow, wherever the record stands among the answers and
/// whatever outer arrow it is given.
pub proof fn lemma_https_first_hint(subject: Seq<char>, d: RDataModel, primary: bool)
    requires
        d is Https,
        hint_texts(d->params).len() > 0,
    ensures
        record_lines(subject, d, primary).len() > 0,
        record_lines(subject, d, primary) == record_lines(subject, d, true),
        arrow_of(subject, record_lines(subject, d, primary)[0]) == arrow(true),
        forall|j: int|
            1 <= j < record_lines(subject, d, primary).len() ==> arrow_of(
                subject,
                #[trigger] record_lines(subject, d, primary)[j],
            ) == arrow(false),
{
}

/// A record whose declared payload length runs past the end of the message is refused.
pub proof fn lemma_rdlength_overrun(msg: Seq<u8>, pos: int)
    requires
        name_at(msg, pos) is Some,
        name_at(msg, pos).unwrap().1 + 10 <= msg.len(),
        name_at(msg, pos).unwrap().1 + 10 + u16_at(msg, name_at(msg, pos).unwrap().1 + 8) as int
            > msg.len(),
    ensures
        record_at(msg, pos) is None,
{
}

/// A response with one question, written without compression, and one answer whose
/// owner is a pointer to that question's name: `rtype` with payload `rdata`.
pub open spec fn one_answer_payload(enc: Seq<u8>, rtype: u8, rdata: Seq<u8>) -> Seq<u8> {
    seq![0u8, 0, 0x81, 0x80, 0, 1, 0, 1, 0, 0, 0, 0] + enc + seq![0u8, 1, 0, 1] + seq![
        0xC0u8,
        0x0C,
        0,
        rtype,
        0,
        1,
        0,
        0,
        0,
        0x3c,
        0,
        rdata.len() as u8,
    ] + rdata
}

proof fn lemma_one_answer_decodes(labels: Seq<Seq<u8>>, rtype: u8, rdata: Seq<u8>)
    requires
        labels_valid(labels),
        rdata.len() < 256,
        rtype == 1 ==> rdata.len() == 4,
        rtype == 5 ==> rdata == seq![0xC0u8, 0x0C],
        rtype == 1 || rtype == 5,
    ensures
        ({
            let p = one_answer_payload(encode_name(labels), rtype, rdata);
            &&& decode_spec(p) is Some
            &&& decode_spec(p).unwrap().question is Some
            &&& decode_spec(p).unwrap().question.unwrap().name == labels
            &&& decode_spec(p).unwrap().answers.len() == 1
            &&& decode_spec(p).unwrap().answers[0].rdata == if rtype == 1 {
                RDataModel::A(rdata)
            } else {
                RDataModel::Cname(labels)
            }
        }),
{
    let enc = encode_name(labels);
    let p = one_answer_payload(enc, rtype, rdata);
    let e: int = 12 + enc.len() as int;
    assert(p.subrange(12, e) =~= enc);
    lemma_encoded_at(p, 12, labels, MAX_JUMPS as nat);
    lemma_encoded_at(p, 12, labels, (MAX_JUMPS - 1) as nat);
    assert(p[4] == 0 && p[5] == 1 && p[6] == 0 && p[7] == 1);
    let a: int = e + 4;
    assert(p[e] == 0 && p[e + 1] == 1 && p[e + 2] == 0 && p[e + 3] == 1);
    assert(p[a] == 0xC0 && p[a + 1] == 0x0C);
    assert(p[a + 2] == 0 && p[a + 3] == rtype && p[a + 10] == 0 && p[a + 11] == rdata.len() as u8);
    assert(pointer_target(p[a], p[a + 1]) == 12);
    assert(name_at(p, 12) == Some((labels, e)));
    assert(name_at(p, a) == Some((labels, a + 2)));
    assert(p.subrange(a + 12, a + 12 + rdata.len() as int) =~= rdata);
    if rtype == 5 {
        assert(p[a + 12] == 0xC0 && p[a + 13] == 0x0C);
        assert(name_at(p, a + 12) == Some((labels, a + 14)));
    }
    let end = a + 12 + rdata.len() as int;
    assert(p.len() == end);
    let h = crate::message::header_of(p);
    assert(h.qdcount == 1 && h.ancount == 1);
    assert(crate::message::question_at(p, 12) is Some);
    assert(crate::message::question_at(p, 12).unwrap().1 == a);
    assert(crate::message::questions_from(p, a, 0) == Some((None::<crate::message::QuestionModel>, a)));
    assert(crate::message::questions_from(p, 12, 1) is Some);
    assert(crate::message::questions_from(p, 12, 1).unwrap().1 == a);
    assert(u16_at(p, a + 2) == rtype as u16);
    assert(u16_at(p, a + 10) == rdata.len());
    assert(crate::message::rdata_at(p, rtype as u16, a + 12, end) is Some);
    assert(record_at(p, a) is Some);
    assert(record_at(p, a).unwrap().1 == end);
    assert(crate::message::records_from(p, end, 0) is Some);
    assert(crate::message::records_from(p, a, 1) is Some);
}

proof fn lemma_single_chain(subject: Seq<char>, rs: Seq<RecordModel>)
    requires
        rs.len() == 1,
    ensures
        chain_lines(subject, rs) == record_lines(subject, rs[0].rdata, true),
{
    assert(rs.drop_last() =~= Seq::<RecordModel>::empty());
    assert(chain_lines(subject, rs.drop_last()) == Seq::<Seq<char>>::empty());
    assert(chain_lines(subject, rs) =~= record_lines(subject, rs[0].rdata, true));
}

#[verifier::rlimit(40)]
proof fn lemma_one_answer_lines(labels: Seq<Seq<u8>>, rtype: u8, rdata: Seq<u8>)
    requires
        labels_valid(labels),
        rtype == 1 ==> rdata == seq![1u8, 2, 3, 4],
        rtype == 5 ==> rdata == seq![0xC0u8, 0x0C],
        rtype == 1 || rtype == 5,
    ensures
        frame_lines(Seq::new(42, |i: int| 0u8) + one_answer_payload(encode_name(labels), rtype, rdata))
            == Some(
            seq![
                line(
                    name_text(labels),
                    true,
                    if rtype == 1 {
                        ipv4_text(rdata)
                    } else {
                        name_text(labels)
                    },
                ),
            ],
        ),
{
    let p = one_answer_payload(encode_name(labels), rtype, rdata);
    lemma_one_answer_decodes(labels, rtype, rdata);
    let f = Seq::new(42, |i: int| 0u8) + p;
    assert(f.subrange(42, f.len() as int) =~= p);
    let m = decode_spec(p).unwrap();
    lemma_single_chain(name_text(labels), m.answers);
    assert(record_lines(name_text(labels), m.answers[0].rdata, true) =~= seq![
        line(
            name_text(labels),
            true,
            if rtype == 1 {
                ipv4_text(rdata)
            } else {
                name_text(labels)
            },
        ),
    ]);
}

/// Through a whole captured frame, a question name written without compression is the
/// subject of the line printed for an address answer, and an alias answer that is a
/// single pointer to that name prints the same labels as its target.
pub proof fn lemma_frame_name_round_trip(labels: Seq<Seq<u8>>)
    requires
        labels_valid(labels),
    ensures
        frame_lines(
            Seq::new(42, |i: int| 0u8) + one_answer_payload(encode_name(labels), 1, seq![1u8, 2, 3, 4]),
        ) == Some(seq![line(name_text(labels), true, ipv4_text(seq![1u8, 2, 3, 4]))]),
        frame_lines(
            Seq::new(42, |i: int| 0u8) + one_answer_payload(encode_name(labels), 5, seq![0xC0u8, 0x0C]),
        ) == Some(seq![line(name_text(labels), true, name_text(labels))]),
{
    lemma_one_answer_lines(labels, 1, seq![1u8, 2, 3, 4]);
    lemma_one_answer_lines(labels, 5, seq![0xC0u8, 0x0C]);
}

} // verus!
