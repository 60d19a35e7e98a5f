use dnschain::frame::process_payload;
use dnschain::message::{decode_message, RData};
use hickory_proto::op::{Message, Query};
use hickory_proto::rr::rdata::svcb::{EchConfig, IpHint, SvcParamKey, SvcParamValue, SVCB};
use hickory_proto::rr::rdata::{A, AAAA, CNAME, HTTPS};
use hickory_proto::rr::{Name, RData as HRData, Record, RecordType};

fn encoded(qname: &str, answers: Vec<HRData>) -> Vec<u8> {
    let n = Name::from_ascii(qname).unwrap();
    let mut msg = Message::new();
    msg.add_query(Query::query(n.clone(), RecordType::A));
    for rd in answers {
        msg.add_answer(Record::from_rdata(n.clone(), 300, rd));
    }
    msg.to_vec().unwrap()
}

#[test]
fn compressed_message_from_another_encoder() {
    let bytes = encoded(
        "foo.com.",
        vec![
            HRData::CNAME(CNAME(Name::from_ascii("www.foo.com.").unwrap())),
            HRData::A(A("1.2.3.4".parse().unwrap())),
            HRData::AAAA(AAAA("2001:db8::5".parse().unwrap())),
        ],
    );
    assert_eq!(
        process_payload(&bytes).unwrap(),
        vec!["foo.com ⇒ www.foo.com", "foo.com → 1.2.3.4", "foo.com → 2001:db8::5"]
    );
    let msg = decode_message(&bytes).unwrap();
    assert_eq!(msg.answers.len(), 3);
    assert_eq!(msg.answers[0].name, vec![b"foo".to_vec(), b"com".to_vec()]);
    match &msg.answers[0].rdata {
        RData::Cname(n) => assert_eq!(n, &vec![b"www".to_vec(), b"foo".to_vec(), b"com".to_vec()]),
        other => panic!("unexpected {other:?}"),
    }
}

#[test]
fn https_record_from_another_encoder() {
    let svcb = SVCB::new(
        1,
        Name::root(),
        vec![
            (
                SvcParamKey::Ipv4Hint,
                SvcParamValue::Ipv4Hint(IpHint(vec![A("9.9.9.9".parse().unwrap()), A("9.9.9.10".parse().unwrap())])),
            ),
            (SvcParamKey::EchConfig, SvcParamValue::EchConfig(EchConfig(vec![0, 1, 2]))),
            (SvcParamKey::Ipv6Hint, SvcParamValue::Ipv6Hint(IpHint(vec![AAAA("::ffff:1.2.3.4".parse().unwrap())]))),
        ],
    );
    let bytes = encoded("svc.example.", vec![HRData::HTTPS(HTTPS(svcb))]);
    assert_eq!(
        process_payload(&bytes).unwrap(),
        vec![
            "svc.example ⇒ HTTPS ECH 9.9.9.9",
            "svc.example → HTTPS ECH 9.9.9.10",
            "svc.example → HTTPS ECH ::ffff:1.2.3.4",
        ]
    );
}
