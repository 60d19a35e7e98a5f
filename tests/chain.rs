use dnschain::capture::{next_action, Action, CaptureEvent};
use dnschain::frame::{process_frame, process_payload, FrameError, FRAME_PREFIX_LEN};
use dnschain::message::{decode_message, RData, SvcValue};
use dnschain::name::read_name;

fn name(s: &str) -> Vec<u8> {
    let mut out = Vec::new();
    for label in s.split('.').filter(|l| !l.is_empty()) {
        out.push(label.len() as u8);
        out.extend_from_slice(label.as_bytes());
    }
    out.push(0);
    out
}

fn header(qd: u16, an: u16) -> Vec<u8> {
    let mut h = vec![0x12, 0x34, 0x81, 0x80];
    h.extend_from_slice(&qd.to_be_bytes());
    h.extend_from_slice(&an.to_be_bytes());
    h.extend_from_slice(&[0, 0, 0, 0]);
    h
}

fn question(msg: &mut Vec<u8>, qname: &str, qtype: u16) {
    msg.extend(name(qname));
    msg.extend_from_slice(&qtype.to_be_bytes());
    msg.extend_from_slice(&[0, 1]);
}

/// An answer whose owner is a pointer to the question name at offset 12.
fn answer(msg: &mut Vec<u8>, rtype: u16, rdata: &[u8]) {
    msg.extend_from_slice(&[0xC0, 12]);
    msg.extend_from_slice(&rtype.to_be_bytes());
    msg.extend_from_slice(&[0, 1, 0, 0, 0x0e, 0x10]);
    msg.extend_from_slice(&(rdata.len() as u16).to_be_bytes());
    msg.extend_from_slice(rdata);
}

fn param(key: u16, value: &[u8]) -> Vec<u8> {
    let mut p = key.to_be_bytes().to_vec();
    p.extend_from_slice(&(value.len() as u16).to_be_bytes());
    p.extend_from_slice(value);
    p
}

fn https(params: &[Vec<u8>]) -> Vec<u8> {
    let mut r = vec![0, 1, 0];
    for p in params {
        r.extend_from_slice(p);
    }
    r
}

fn frame(payload: &[u8]) -> Vec<u8> {
    let mut f = vec![0u8; FRAME_PREFIX_LEN];
    f.extend_from_slice(payload);
    f
}

fn lines(payload: &[u8]) -> Vec<String> {
    process_frame(&frame(payload)).unwrap()
}

#[test]
fn single_address_answer() {
    let mut m = header(1, 1);
    question(&mut m, "example.com", 1);
    answer(&mut m, 1, &[93, 184, 216, 34]);
    assert_eq!(lines(&m), vec!["example.com ⇒ 93.184.216.34"]);
}

#[test]
fn alias_then_address() {
    let mut m = header(1, 2);
    question(&mut m, "foo.com", 1);
    answer(&mut m, 5, &name("bar.com"));
    answer(&mut m, 1, &[1, 2, 3, 4]);
    assert_eq!(lines(&m), vec!["foo.com ⇒ bar.com", "foo.com → 1.2.3.4"]);
}

#[test]
fn https_with_ech_and_two_hints() {
    let mut m = header(1, 1);
    question(&mut m, "svc.example", 65);
    let rd = https(&[param(5, &[0xfe, 0x0d, 0, 0]), param(4, &[9, 9, 9, 9, 9, 9, 9, 10])]);
    answer(&mut m, 65, &rd);
    assert_eq!(lines(&m), vec!["svc.example ⇒ HTTPS ECH 9.9.9.9", "svc.example → HTTPS ECH 9.9.9.10"]);
}

#[test]
fn https_without_ech_is_plain_tag() {
    let mut m = header(1, 1);
    question(&mut m, "svc.example", 65);
    answer(&mut m, 65, &https(&[param(1, b"\x02h2"), param(4, &[10, 0, 0, 1])]));
    assert_eq!(lines(&m), vec!["svc.example ⇒ HTTPS 10.0.0.1"]);
}

#[test]
fn no_question_prints_nothing() {
    assert_eq!(process_payload(&header(0, 0)).unwrap(), Vec::<String>::new());
    let mut n = header(0, 0);
    n.extend_from_slice(&[0xde, 0xad]);
    assert_eq!(process_frame(&frame(&n)).unwrap(), Vec::<String>::new());
}

#[test]
fn line_count_matches_answers() {
    let mut m = header(1, 5);
    question(&mut m, "mix.test", 255);
    answer(&mut m, 1, &[1, 1, 1, 1]);
    answer(&mut m, 15, &[0, 10, 0]);
    let mut v6 = vec![0u8; 16];
    v6[15] = 1;
    answer(&mut m, 28, &v6);
    answer(&mut m, 5, &name("alias.test"));
    let rd = https(&[param(4, &[2, 2, 2, 2, 3, 3, 3, 3]), param(6, &v6)]);
    answer(&mut m, 65, &rd);
    let out = lines(&m);
    assert_eq!(out.len(), 3 + 3);
    assert_eq!(
        out,
        vec![
            "mix.test ⇒ 1.1.1.1",
            "mix.test → ::1",
            "mix.test → alias.test",
            "mix.test ⇒ HTTPS 2.2.2.2",
            "mix.test → HTTPS 3.3.3.3",
            "mix.test → HTTPS ::1",
        ]
    );
}

#[test]
fn decoding_twice_gives_the_same() {
    let mut m = header(1, 2);
    question(&mut m, "foo.com", 1);
    answer(&mut m, 5, &name("bar.com"));
    answer(&mut m, 1, &[1, 2, 3, 4]);
    let a = decode_message(&m).unwrap();
    let b = decode_message(&m).unwrap();
    assert_eq!(format!("{a:?}"), format!("{b:?}"));
    assert_eq!(process_payload(&m).unwrap(), process_payload(&m).unwrap());
}

#[test]
fn uncompressed_name_reads_back() {
    let mut msg = vec![7, 7];
    msg.extend(name("www.example.org"));
    msg.push(99);
    let (labels, end) = read_name(&msg, 2).unwrap();
    assert_eq!(labels, vec![b"www".to_vec(), b"example".to_vec(), b"org".to_vec()]);
    assert_eq!(end, 2 + 17);
}

#[test]
fn pointer_name_reads_as_original() {
    let mut msg = name("example.org");
    let at = msg.len();
    msg.extend_from_slice(&[0xC0, 0]);
    let (plain, _) = read_name(&msg, 0).unwrap();
    let (via, end) = read_name(&msg, at).unwrap();
    assert_eq!(plain, via);
    assert_eq!(end, at + 2);
    // labels, then a pointer to the tail of an earlier name
    let mut more = msg.clone();
    let at2 = more.len();
    more.extend_from_slice(&[3, b'w', b'w', b'w', 0xC0, 0]);
    let (mixed, end2) = read_name(&more, at2).unwrap();
    assert_eq!(mixed, vec![b"www".to_vec(), b"example".to_vec(), b"org".to_vec()]);
    assert_eq!(end2, at2 + 6);
}

#[test]
fn pointer_cycle_is_rejected() {
    assert!(read_name(&[0xC0, 0], 0).is_none());
    assert!(read_name(&[1, b'a', 0xC0, 0], 0).is_none());
}

#[test]
fn unrenderable_answer_still_takes_the_primary_arrow() {
    let mut m = header(1, 3);
    question(&mut m, "a.test", 1);
    answer(&mut m, 1, &[1, 0, 0, 1]);
    answer(&mut m, 16, &[3, b'a', b'b', b'c']);
    answer(&mut m, 1, &[1, 0, 0, 2]);
    assert_eq!(lines(&m), vec!["a.test ⇒ 1.0.0.1", "a.test → 1.0.0.2"]);
    let mut n = header(1, 2);
    question(&mut n, "a.test", 1);
    answer(&mut n, 16, &[3, b'a', b'b', b'c']);
    answer(&mut n, 1, &[1, 0, 0, 2]);
    assert_eq!(lines(&n), vec!["a.test → 1.0.0.2"]);
}

#[test]
fn https_hints_restart_their_arrow() {
    let mut m = header(1, 3);
    question(&mut m, "h.test", 65);
    answer(&mut m, 1, &[1, 1, 1, 1]);
    answer(&mut m, 1, &[1, 1, 1, 2]);
    answer(&mut m, 65, &https(&[param(4, &[5, 5, 5, 5, 6, 6, 6, 6])]));
    assert_eq!(
        lines(&m),
        vec!["h.test ⇒ 1.1.1.1", "h.test → 1.1.1.2", "h.test ⇒ HTTPS 5.5.5.5", "h.test → HTTPS 6.6.6.6"]
    );
}

#[test]
fn short_frame_is_rejected() {
    assert_eq!(process_frame(&[]), Err(FrameError::Short));
    assert_eq!(process_frame(&[0u8; 41]), Err(FrameError::Short));
    assert!(matches!(process_frame(&[0u8; 42]), Err(FrameError::Decode(_))));
}

#[test]
fn rdlength_past_end_is_an_error() {
    let mut m = header(1, 1);
    question(&mut m, "x.test", 1);
    m.extend_from_slice(&[0xC0, 12, 0, 1, 0, 1, 0, 0, 0, 1, 0, 8, 1, 2, 3, 4]);
    assert!(decode_message(&m).is_err());
    assert!(matches!(process_frame(&frame(&m)), Err(FrameError::Decode(_))));
}

#[test]
fn truncated_header_and_question_are_errors() {
    assert!(decode_message(&[0u8; 11]).is_err());
    let mut m = header(1, 0);
    m.extend(name("x.test"));
    m.push(0);
    assert!(decode_message(&m).is_err());
}

#[test]
fn hint_of_uneven_length_is_an_error() {
    let mut m = header(1, 1);
    question(&mut m, "svc.example", 65);
    answer(&mut m, 65, &https(&[param(4, &[1, 2, 3, 4, 5])]));
    assert!(decode_message(&m).is_err());
    let mut n = header(1, 1);
    question(&mut n, "svc.example", 65);
    answer(&mut n, 65, &https(&[param(6, &[0; 15])]));
    assert!(decode_message(&n).is_err());
}

#[test]
fn address_of_wrong_size_is_an_error() {
    let mut m = header(1, 1);
    question(&mut m, "x.test", 1);
    answer(&mut m, 1, &[1, 2, 3]);
    assert!(decode_message(&m).is_err());
}

#[test]
fn decoded_structure() {
    let mut m = header(2, 1);
    question(&mut m, "first.test", 1);
    question(&mut m, "second.test", 28);
    answer(&mut m, 65, &https(&[param(5, &[1]), param(6, &[0; 16])]));
    let msg = decode_message(&m).unwrap();
    assert_eq!(msg.header.qdcount, 2);
    assert_eq!(msg.header.ancount, 1);
    assert_eq!(msg.header.id, 0x1234);
    let q = msg.question.unwrap();
    assert_eq!(q.name, vec![b"first".to_vec(), b"test".to_vec()]);
    assert_eq!(q.qtype, 1);
    assert_eq!(msg.answers[0].ttl, 3600);
    match &msg.answers[0].rdata {
        RData::Https(s) => {
            assert_eq!(s.priority, 1);
            assert!(s.target.is_empty());
            assert_eq!(s.params.len(), 2);
            assert_eq!(s.params[0].key, 5);
            assert!(matches!(&s.params[1].value, SvcValue::Ipv6Hint(a) if a.len() == 1));
        }
        other => panic!("unexpected {other:?}"),
    }
}

fn aaaa_line(addr: [u8; 16]) -> String {
    let mut m = header(1, 1);
    question(&mut m, "v6.test", 28);
    answer(&mut m, 28, &addr);
    lines(&m).remove(0)
}

#[test]
fn ipv6_text_forms() {
    let mut a = [0u8; 16];
    a[0] = 0x20;
    a[1] = 0x01;
    a[2] = 0x0d;
    a[3] = 0xb8;
    a[15] = 1;
    assert_eq!(aaaa_line(a), "v6.test ⇒ 2001:db8::1");
    assert_eq!(aaaa_line([0; 16]), "v6.test ⇒ ::");
    let mut mapped = [0u8; 16];
    mapped[10] = 0xff;
    mapped[11] = 0xff;
    mapped[12..].copy_from_slice(&[192, 0, 2, 1]);
    assert_eq!(aaaa_line(mapped), "v6.test ⇒ ::ffff:192.0.2.1");
    let groups = |g: [u16; 8]| {
        let mut b = [0u8; 16];
        for (i, v) in g.iter().enumerate() {
            b[2 * i..2 * i + 2].copy_from_slice(&v.to_be_bytes());
        }
        b
    };
    assert_eq!(aaaa_line(groups([1, 0, 0, 2, 0, 0, 0, 3])), "v6.test ⇒ 1:0:0:2::3");
    assert_eq!(aaaa_line(groups([1, 0, 0, 2, 0, 0, 3, 4])), "v6.test ⇒ 1::2:0:0:3:4");
    assert_eq!(aaaa_line(groups([1, 0, 2, 3, 4, 5, 6, 7])), "v6.test ⇒ 1:0:2:3:4:5:6:7");
    assert_eq!(aaaa_line(groups([0xfe80, 0, 0, 0, 0xabcd, 0, 0, 0])), "v6.test ⇒ fe80::abcd:0:0:0");
}

#[test]
fn special_label_bytes_are_escaped() {
    let mut m = header(1, 1);
    question(&mut m, "q.test", 5);
    answer(&mut m, 5, &[3, b'a', b'.', b'b', 2, b' ', b'\\', 0]);
    assert_eq!(lines(&m), vec!["q.test ⇒ a\\.b.\\040\\\\"]);
}

#[test]
fn alias_to_root_is_empty_text() {
    let mut m = header(1, 1);
    question(&mut m, "q.test", 5);
    answer(&mut m, 5, &[0]);
    assert_eq!(lines(&m), vec!["q.test ⇒ "]);
}

#[test]
fn capture_steps() {
    let mut m = header(1, 1);
    question(&mut m, "example.com", 1);
    answer(&mut m, 1, &[93, 184, 216, 34]);
    match next_action(&CaptureEvent::Frame(frame(&m))) {
        Action::Print(l) => assert_eq!(l, vec!["example.com ⇒ 93.184.216.34"]),
        other => panic!("unexpected {other:?}"),
    }
    assert!(matches!(next_action(&CaptureEvent::Frame(vec![1, 2, 3])), Action::Report(FrameError::Short)));
    assert!(matches!(next_action(&CaptureEvent::Frame(frame(&[0; 5]))), Action::Report(FrameError::Decode(_))));
    assert!(matches!(next_action(&CaptureEvent::Timeout), Action::Continue));
    assert!(matches!(next_action(&CaptureEvent::Failed), Action::Stop));
}

#[test]
fn internationalised_label_is_shown_in_unicode() {
    let mut m = header(1, 1);
    question(&mut m, "q.test", 5);
    answer(&mut m, 5, &name("xn--bcher-kva.example"));
    assert_eq!(lines(&m), vec!["q.test ⇒ bücher.example"]);
}

#[test]
fn high_byte_is_escaped_in_octal() {
    let mut m = header(1, 1);
    question(&mut m, "q.test", 5);
    answer(&mut m, 5, &[2, b'a', 0x80, 0]);
    assert_eq!(lines(&m), vec!["q.test ⇒ a\\200"]);
}

#[test]
fn trailing_dots_are_trimmed() {
    let mut m = header(1, 1);
    question(&mut m, "q.test", 5);
    answer(&mut m, 5, &[2, b'a', b'.', 0]);
    assert_eq!(lines(&m), vec!["q.test ⇒ a\\"]);
}

#[test]
fn decode_error_offsets() {
    assert_eq!(decode_message(&[0u8; 7]).unwrap_err().offset, 7);
    let mut m = header(1, 0);
    m.extend(name("x.test"));
    m.push(0);
    assert_eq!(decode_message(&m).unwrap_err().offset, 12);
    let mut n = header(1, 2);
    question(&mut n, "x.test", 1);
    answer(&mut n, 1, &[1, 2, 3, 4]);
    let second = n.len();
    answer(&mut n, 1, &[1, 2, 3]);
    assert_eq!(decode_message(&n).unwrap_err().offset, second);
    assert_eq!(process_frame(&frame(&n)), process_frame(&frame(&n)));
}
