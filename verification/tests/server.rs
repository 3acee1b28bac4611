use haven_dns::addr::{IpAddress, Ipv4Address, Ipv6Address, SocketAddress};
use haven_dns::config::{Config, DatabaseConfig, NameServer, UpstreamConfig};
use haven_dns::query::{QueryHandler, ResolveError};
use haven_dns::record::{RecordType, ResourceRecord};
use haven_dns::server::{DNSServer, Exchange};
use haven_dns::wire::{Header, Query, Response};
use hickory_proto::op::{
    Header as WireHeader, Message as WireMessage, MessageType, OpCode, Query as WireQuery, ResponseCode,
};
use hickory_proto::rr::{DNSClass, Name, RecordType as WireType};
use hickory_proto::serialize::binary::BinEncodable;

fn v4(a: u8, b: u8, c: u8, d: u8, port: u16) -> SocketAddress {
    SocketAddress { ip: IpAddress::V4(Ipv4Address { octets: [a, b, c, d] }), port }
}

fn config() -> UpstreamConfig {
    UpstreamConfig {
        listen: v4(127, 0, 0, 1, 5353),
        upstream_nameservers: vec![
            NameServer::Udp(v4(8, 8, 8, 8, 53)),
            NameServer::Doh("https://dns.google/dns-query".to_string()),
            NameServer::Udp(SocketAddress {
                ip: IpAddress::V6(Ipv6Address { segments: [0x2001, 0x4860, 0x4860, 0, 0, 0, 0, 0x8888] }),
                port: 53,
            }),
            NameServer::Doh("https://doh.test/dns-query".to_string()),
        ],
    }
}

fn request_header(id: u16) -> Header {
    Header {
        id,
        response: false,
        op_code: 0,
        authoritative: false,
        truncated: false,
        recursion_desired: true,
        recursion_available: false,
        authentic_data: false,
        checking_disabled: true,
        response_code: 0,
    }
}

fn response_header(id: u16) -> Header {
    Header {
        id,
        response: true,
        op_code: 0,
        authoritative: false,
        truncated: false,
        recursion_desired: true,
        recursion_available: false,
        authentic_data: false,
        checking_disabled: true,
        response_code: 0,
    }
}

fn request_bytes(id: u16, questions: &[(&str, WireType)]) -> Vec<u8> {
    let mut message = WireMessage::new();
    message.set_id(id).set_recursion_desired(true).set_checking_disabled(true);
    for (name, query_type) in questions {
        message.add_query(WireQuery::query(Name::from_ascii(name).unwrap(), *query_type));
    }
    message.to_bytes().unwrap()
}

#[test]
fn a_database_configuration_holds_its_two_urls() {
    let config = DatabaseConfig::new("postgres://db.test/haven".to_string(), "redis://cache.test".to_string());
    assert_eq!(config.postgres_url, "postgres://db.test/haven");
    assert_eq!(config.redis_url, "redis://cache.test");
    let whole = Config { dns: self::config(), database: config.clone() };
    assert_eq!(whole.database, config);
}

#[test]
fn upstreams_are_sorted_by_transport_in_their_order() {
    let (udp, doh) = config().split();
    assert_eq!(
        udp,
        vec![
            v4(8, 8, 8, 8, 53),
            SocketAddress {
                ip: IpAddress::V6(Ipv6Address { segments: [0x2001, 0x4860, 0x4860, 0, 0, 0, 0, 0x8888] }),
                port: 53,
            },
        ]
    );
    assert_eq!(doh, vec!["https://dns.google/dns-query".to_string(), "https://doh.test/dns-query".to_string()]);
    let none = UpstreamConfig { listen: v4(0, 0, 0, 0, 53), upstream_nameservers: vec![] };
    assert_eq!(none.split(), (vec![], vec![]));
}

#[test]
fn a_server_takes_its_upstreams_from_the_configuration() {
    let server = DNSServer::new(config());
    let (udp, doh) = config().split();
    assert_eq!(server.listen, v4(127, 0, 0, 1, 5353));
    assert_eq!(server.query_handler, QueryHandler::new(udp, doh));
}

#[test]
fn a_request_opens_an_exchange() {
    let server = DNSServer::new(config());
    let bytes = request_bytes(4242, &[("example.test.", WireType::A)]);
    let exchange = server.handle_query(&bytes).unwrap();
    assert_eq!(
        exchange,
        Exchange {
            request: request_header(4242),
            queries: vec![Query { name: "example.test.".to_string(), query_type: RecordType::A, query_class: 1 }],
            settled: 0,
            answers: vec![],
            failure: None,
        }
    );
}

#[test]
fn every_question_of_a_request_is_kept_in_its_order() {
    let server = DNSServer::new(config());
    let bytes = request_bytes(
        1,
        &[("a.test.", WireType::AAAA), ("b.test.", WireType::CNAME), ("c.test.", WireType::MX), ("d.test.", WireType::A)],
    );
    let exchange = server.handle_query(&bytes).unwrap();
    let asked: Vec<(String, RecordType)> =
        exchange.queries.iter().map(|q| (q.name.clone(), q.query_type)).collect();
    assert_eq!(
        asked,
        vec![
            ("a.test.".to_string(), RecordType::Aaaa),
            ("b.test.".to_string(), RecordType::Cname),
            ("c.test.".to_string(), RecordType::Other(15)),
            ("d.test.".to_string(), RecordType::A),
        ]
    );
}

#[test]
fn the_operation_and_the_class_are_carried_by_their_numbers() {
    let mut message = WireMessage::new();
    message.set_id(9).set_op_code(OpCode::Status);
    let mut query = WireQuery::query(Name::from_ascii("chaos.test.").unwrap(), WireType::TXT);
    query.set_query_class(DNSClass::CH);
    message.add_query(query);
    let server = DNSServer::new(config());
    let exchange = server.handle_query(&message.to_bytes().unwrap()).unwrap();
    assert_eq!(
        exchange.request,
        Header { op_code: 2, recursion_desired: false, checking_disabled: false, ..request_header(9) }
    );
    assert_eq!(exchange.queries, vec![Query::new("chaos.test.".to_string(), 16, 3)]);
}

#[test]
fn garbage_gets_no_exchange_and_the_next_request_gets_its_own() {
    let server = DNSServer::new(config());
    let request = request_bytes(77, &[("example.test.", WireType::A)]);
    let alone = server.handle_query(&request);
    for garbage in [&[][..], &[0x00][..], &[0xde, 0xad, 0xbe, 0xef][..], &request[..5], &request[..request.len() - 1]] {
        assert_eq!(server.handle_query(garbage), None);
        assert_eq!(server.handle_query(&request), alone);
    }
    assert!(alone.is_some());
}

#[test]
fn answers_are_added_in_the_order_of_the_questions() {
    let server = DNSServer::new(config());
    let bytes = request_bytes(3, &[("a.test.", WireType::A), ("b.test.", WireType::A), ("c.test.", WireType::A)]);
    let mut exchange = server.handle_query(&bytes).unwrap();
    let first = ResourceRecord::relayed("a.test.".to_string(), 5, 1, vec![192, 0, 2, 1]);
    let second = ResourceRecord::relayed("c.test.".to_string(), 5, 1, vec![192, 0, 2, 2]);
    let third = ResourceRecord::relayed("c.test.".to_string(), 5, 1, vec![192, 0, 2, 3]);
    assert_eq!(exchange.next_query().unwrap().name, "a.test.");
    exchange.settle(Ok(vec![first.clone()]));
    assert_eq!(exchange.next_query().unwrap().name, "b.test.");
    assert_eq!(exchange.clone().response(), None);
    exchange.settle(Ok(vec![]));
    assert_eq!(exchange.next_query().unwrap().name, "c.test.");
    exchange.settle(Ok(vec![second.clone(), third.clone()]));
    assert_eq!(exchange.next_query(), None);
    assert_eq!(exchange.settled, 3);
    assert_eq!(
        exchange.response(),
        Some(Response { header: response_header(3), answers: vec![first, second, third] })
    );
}

#[test]
fn a_failed_question_leaves_the_request_without_response() {
    let server = DNSServer::new(config());
    let bytes = request_bytes(3, &[("a.test.", WireType::A), ("b.test.", WireType::A)]);
    let record = ResourceRecord::relayed("a.test.".to_string(), 5, 1, vec![192, 0, 2, 1]);
    let mut exchange = server.handle_query(&bytes).unwrap();
    exchange.settle(Ok(vec![record.clone()]));
    exchange.settle(Err(ResolveError::RaceExhausted));
    assert_eq!(exchange.failure, Some(ResolveError::RaceExhausted));
    assert_eq!(exchange.next_query(), None);
    exchange.settle(Ok(vec![record.clone()]));
    assert_eq!(exchange.answers, vec![record]);
    assert_eq!(exchange.settled, 1);
    assert_eq!(exchange.response(), None);
}

#[test]
fn a_request_without_questions_gets_an_empty_response() {
    let server = DNSServer::new(config());
    let mut exchange = server.handle_query(&request_bytes(8, &[])).unwrap();
    assert_eq!(exchange.next_query(), None);
    exchange.settle(Ok(vec![ResourceRecord::relayed("a.test.".to_string(), 5, 1, vec![192, 0, 2, 1])]));
    assert_eq!(
        exchange.response(),
        Some(Response { header: response_header(8), answers: vec![] })
    );
}

#[test]
fn every_flag_and_code_of_a_header_is_read() {
    let server = DNSServer::new(config());
    let mut message = WireMessage::new();
    message
        .set_id(0xbeef)
        .set_message_type(MessageType::Response)
        .set_op_code(OpCode::Update)
        .set_authoritative(true)
        .set_truncated(true)
        .set_recursion_desired(true)
        .set_recursion_available(true)
        .set_authentic_data(true)
        .set_checking_disabled(true)
        .set_response_code(ResponseCode::Refused);
    let all = server.handle_query(&message.to_bytes().unwrap()).unwrap();
    assert_eq!(
        all.request,
        Header {
            id: 0xbeef,
            response: true,
            op_code: 5,
            authoritative: true,
            truncated: true,
            recursion_desired: true,
            recursion_available: true,
            authentic_data: true,
            checking_disabled: true,
            response_code: 5,
        }
    );
    let none = server.handle_query(&WireMessage::new().to_bytes().unwrap()).unwrap();
    assert_eq!(
        none.request,
        Header {
            id: 0,
            response: false,
            op_code: 0,
            authoritative: false,
            truncated: false,
            recursion_desired: false,
            recursion_available: false,
            authentic_data: false,
            checking_disabled: false,
            response_code: 0,
        }
    );
}

#[test]
fn a_response_header_takes_over_what_a_response_echoes() {
    let request = Header {
        id: 0x1234,
        response: false,
        op_code: 2,
        authoritative: true,
        truncated: true,
        recursion_desired: true,
        recursion_available: true,
        authentic_data: true,
        checking_disabled: false,
        response_code: 3,
    };
    assert_eq!(
        Header::response_from_request(&request),
        Header {
            id: 0x1234,
            response: true,
            op_code: 2,
            authoritative: false,
            truncated: false,
            recursion_desired: true,
            recursion_available: false,
            authentic_data: false,
            checking_disabled: false,
            response_code: 0,
        }
    );
}

#[test]
fn a_response_header_is_what_the_codec_makes_of_the_request() {
    for (op_code, recursion_desired, checking_disabled) in
        [(OpCode::Query, false, false), (OpCode::Status, true, false), (OpCode::Notify, false, true), (OpCode::Update, true, true)]
    {
        let mut wire = WireHeader::new();
        wire.set_id(99)
            .set_op_code(op_code)
            .set_authoritative(true)
            .set_recursion_desired(recursion_desired)
            .set_recursion_available(true)
            .set_authentic_data(true)
            .set_checking_disabled(checking_disabled)
            .set_response_code(ResponseCode::ServFail);
        let expected = WireHeader::response_from_request(&wire);
        let request = Header {
            id: wire.id(),
            response: wire.message_type() == MessageType::Response,
            op_code: wire.op_code().into(),
            authoritative: wire.authoritative(),
            truncated: wire.truncated(),
            recursion_desired: wire.recursion_desired(),
            recursion_available: wire.recursion_available(),
            authentic_data: wire.authentic_data(),
            checking_disabled: wire.checking_disabled(),
            response_code: wire.response_code().into(),
        };
        let made = Header::response_from_request(&request);
        assert_eq!(made.id, expected.id());
        assert_eq!(made.response, expected.message_type() == MessageType::Response);
        assert_eq!(made.op_code, u8::from(expected.op_code()));
        assert_eq!(made.authoritative, expected.authoritative());
        assert_eq!(made.truncated, expected.truncated());
        assert_eq!(made.recursion_desired, expected.recursion_desired());
        assert_eq!(made.recursion_available, expected.recursion_available());
        assert_eq!(made.authentic_data, expected.authentic_data());
        assert_eq!(made.checking_disabled, expected.checking_disabled());
        assert_eq!(made.response_code, u16::from(expected.response_code()));
    }
}
