use haven_dns::race::{Phase, Race, RaceStatus, ATTEMPT_TIMEOUT_SECONDS};
use haven_dns::record::{RecordData, RecordType, ResourceRecord};
use haven_dns::wire::{Message, Query};
use hickory_proto::op::{Message as WireMessage, MessageType, Query as WireQuery};
use hickory_proto::rr::rdata::{A, AAAA, CNAME, MX, SOA, TXT};
use hickory_proto::rr::{Name, RData, Record, RecordType as WireType};
use hickory_proto::serialize::binary::{BinDecoder, BinEncodable, Restrict};

fn response_bytes(id: u16, name: &str, last: u8, ttl: u32) -> Vec<u8> {
    let mut message = WireMessage::new();
    message.set_id(id).set_message_type(MessageType::Response).set_recursion_desired(true);
    message.add_query(WireQuery::query(Name::from_ascii(name).unwrap(), WireType::A));
    message.add_answer(Record::from_rdata(
        Name::from_ascii(name).unwrap(),
        ttl,
        RData::A(A::new(192, 0, 2, last)),
    ));
    message.to_bytes().unwrap()
}

fn response(name: &str, last: u8, ttl: u32) -> Message {
    Message {
        queries: vec![Query { name: name.to_string(), query_type: RecordType::A, query_class: 1 }],
        answers: vec![ResourceRecord {
            name: name.to_string(),
            ttl,
            rdata: RecordData::Raw { type_code: 1, data: vec![192, 0, 2, last] },
        }],
    }
}

#[test]
fn a_race_without_targets_is_lost_from_the_start() {
    let mut race = Race::start(0);
    assert_eq!(race.phase(), Phase::Exhausted);
    assert_eq!(race.report(0, None), RaceStatus::Settled);
}

#[test]
fn a_target_has_five_seconds() {
    assert_eq!(ATTEMPT_TIMEOUT_SECONDS, 5);
}

#[test]
fn a_new_race_is_on() {
    assert_eq!(Race::start(1).phase(), Phase::Racing);
    assert_eq!(Race::start(5).phase(), Phase::Racing);
}

#[test]
fn the_only_target_wins() {
    let mut race = Race::start(1);
    let bytes = response_bytes(7, "missing.test.", 9, 60);
    assert_eq!(race.report(0, Some(&bytes)), RaceStatus::Won(response("missing.test.", 9, 60)));
    assert_eq!(race.phase(), Phase::Won);
}

#[test]
fn the_first_reply_that_decodes_wins() {
    let first = response_bytes(7, "missing.test.", 1, 60);
    let second = response_bytes(7, "missing.test.", 2, 60);
    let mut race = Race::start(3);
    assert_eq!(race.report(2, None), RaceStatus::Waiting);
    assert_eq!(race.report(1, Some(&first)), RaceStatus::Won(response("missing.test.", 1, 60)));
    assert_eq!(race.report(0, Some(&second)), RaceStatus::Settled);
    assert_eq!(race.phase(), Phase::Won);
}

#[test]
fn one_good_target_is_enough_whatever_the_others_do() {
    let good = response_bytes(1, "missing.test.", 5, 30);
    for winner in 0..4usize {
        let mut race = Race::start(4);
        for other in 0..4usize {
            if other != winner {
                assert_eq!(race.report(other, None), RaceStatus::Waiting);
            }
        }
        assert_eq!(
            race.report(winner, Some(&good)),
            RaceStatus::Won(response("missing.test.", 5, 30))
        );
    }
    let mut early = Race::start(4);
    assert_eq!(early.report(3, Some(&good)), RaceStatus::Won(response("missing.test.", 5, 30)));
    for late in 0..3usize {
        assert_eq!(early.report(late, None), RaceStatus::Settled);
    }
}

#[test]
fn the_race_is_lost_when_every_target_has_failed() {
    let mut race = Race::start(3);
    assert_eq!(race.report(1, None), RaceStatus::Waiting);
    assert_eq!(race.report(0, None), RaceStatus::Waiting);
    assert_eq!(race.phase(), Phase::Racing);
    assert_eq!(race.report(2, None), RaceStatus::Exhausted);
    assert_eq!(race.phase(), Phase::Exhausted);
    assert_eq!(race.report(2, None), RaceStatus::Settled);
}

#[test]
fn a_reply_that_does_not_decode_is_a_failure_of_its_target() {
    let good = response_bytes(3, "missing.test.", 4, 10);
    let mut race = Race::start(2);
    assert_eq!(race.report(0, Some(&[0xff, 0x00, 0x01])), RaceStatus::Waiting);
    assert_eq!(race.report(1, Some(&good)), RaceStatus::Won(response("missing.test.", 4, 10)));
    let mut lost = Race::start(2);
    assert_eq!(lost.report(0, None), RaceStatus::Waiting);
    assert_eq!(lost.report(1, Some(&[])), RaceStatus::Exhausted);
    let mut truncated = Race::start(1);
    assert_eq!(truncated.report(0, Some(&good[..good.len() - 3])), RaceStatus::Exhausted);
}

#[test]
fn a_target_counts_once() {
    let good = response_bytes(3, "missing.test.", 4, 10);
    let mut race = Race::start(2);
    assert_eq!(race.report(0, None), RaceStatus::Waiting);
    assert_eq!(race.report(0, None), RaceStatus::Waiting);
    assert_eq!(race.report(0, Some(&good)), RaceStatus::Waiting);
    assert_eq!(race.phase(), Phase::Racing);
    assert_eq!(race.report(1, None), RaceStatus::Exhausted);
}

#[test]
fn a_report_of_an_unknown_target_changes_nothing() {
    let good = response_bytes(3, "missing.test.", 4, 10);
    let mut race = Race::start(2);
    assert_eq!(race.report(2, Some(&good)), RaceStatus::Waiting);
    assert_eq!(race.report(usize::MAX, None), RaceStatus::Waiting);
    assert_eq!(race.phase(), Phase::Racing);
    assert_eq!(race.report(0, None), RaceStatus::Waiting);
    assert_eq!(race.report(1, None), RaceStatus::Exhausted);
}

#[test]
fn a_response_without_answers_wins_too() {
    let mut message = WireMessage::new();
    message.set_id(11).set_message_type(MessageType::Response);
    let bytes = message.to_bytes().unwrap();
    let mut race = Race::start(1);
    assert_eq!(
        race.report(0, Some(&bytes)),
        RaceStatus::Won(Message { queries: vec![], answers: vec![] })
    );
}

#[test]
fn answers_of_every_type_are_carried_in_wire_form() {
    let mut message = WireMessage::new();
    message.set_id(12).set_message_type(MessageType::Response);
    let owner = Name::from_ascii("mail.test.").unwrap();
    let exchange = Name::from_ascii("mx.test.").unwrap();
    message.add_answer(Record::from_rdata(owner, 90, RData::MX(MX::new(10, exchange))));
    let bytes = message.to_bytes().unwrap();
    let mut race = Race::start(1);
    let status = race.report(0, Some(&bytes));
    let expected = ResourceRecord::relayed(
        "mail.test.".to_string(),
        90,
        15,
        vec![0, 10, 2, b'm', b'x', 4, b't', b'e', b's', b't', 0],
    );
    match status {
        RaceStatus::Won(response) => assert_eq!(response.answers, vec![expected]),
        other => panic!("{:?}", other),
    }
}

#[test]
fn relayed_data_can_be_read_back_by_the_codec() {
    let name = |text: &str| Name::from_ascii(text).unwrap();
    let originals = vec![
        RData::A(A::new(192, 0, 2, 1)),
        RData::AAAA(AAAA::new(0x2001, 0xdb8, 0, 0, 0, 0, 0, 1)),
        RData::CNAME(CNAME(name("target.example.test."))),
        RData::MX(MX::new(10, name("mx.example.test."))),
        RData::TXT(TXT::new(vec!["v=spf1 -all".to_string(), "second".to_string()])),
        RData::SOA(SOA::new(
            name("ns.example.test."),
            name("admin.example.test."),
            2024010101,
            7200,
            3600,
            1209600,
            300,
        )),
    ];
    let mut message = WireMessage::new();
    message.set_id(21).set_message_type(MessageType::Response);
    for rdata in &originals {
        message.add_answer(Record::from_rdata(name("example.test."), 120, rdata.clone()));
    }
    let bytes = message.to_bytes().unwrap();
    let mut race = Race::start(1);
    let answers = match race.report(0, Some(&bytes)) {
        RaceStatus::Won(response) => response.answers,
        other => panic!("{:?}", other),
    };
    assert_eq!(answers.len(), originals.len());
    for (answer, original) in answers.iter().zip(&originals) {
        assert_eq!(answer.name, "example.test.");
        assert_eq!(answer.ttl, 120);
        assert_eq!(answer.rdata.record_type().code(), u16::from(original.record_type()));
        let (type_code, data) = match &answer.rdata {
            RecordData::Raw { type_code, data } => (*type_code, data),
            other => panic!("{:?}", other),
        };
        let mut decoder = BinDecoder::new(data);
        let length = Restrict::new(u16::try_from(data.len()).unwrap());
        let read = RData::read(&mut decoder, WireType::from(type_code), length).unwrap();
        assert_eq!(&read, original);
    }
}
