use rustbox::dns::cache::{CachingResolver, SECOND};
use rustbox::dns::fake_ip::FakeIpAllocator;
use rustbox::dns::model::{
    DnsAnswer, DnsCacheConfig, DnsConfig, DnsError, DnsName, DnsQuery, DnsRecord, DnsRecordType,
    DnsResponse, DnsRuleAction, DnsRuleConfig, DnsRuleMatcher, DnsServerConfig, DnsServerProtocol,
    FakeIpConfig,
};
use rustbox::dns::resolver::{RuleBasedResolver, StaticResolver};
use rustbox::dns::reverse::ReverseDns;
use rustbox::dns::subsystem::{DnsStep, DnsSubsystem};
use rustbox::dns::transport::{bootstrap_failed, response_of, HickoryTransport, ServerAddress};
use rustbox::dns::wire::{answer_wire, exchange_wire, WireStep};
use rustbox::types::{Endpoint, Host, IpAddress, IpCidr};

fn name(text: &str) -> DnsName {
    DnsName::new(text).expect("name")
}

fn query(text: &str, record_type: DnsRecordType) -> DnsQuery {
    DnsQuery {
        name: name(text),
        record_type,
    }
}

fn positive(address: [u8; 4], ttl_seconds: u32) -> DnsResponse {
    DnsResponse {
        answers: vec![DnsAnswer {
            host: Host::Ip(IpAddress::V4(address)),
            ttl_seconds,
        }],
        records: Vec::new(),
    }
}

#[test]
fn normalizes_dns_names() {
    assert_eq!(
        DnsName::new("Example.TEST.").expect("name").as_str(),
        "example.test"
    );
}

#[test]
fn empty_dns_names_are_refused() {
    assert!(DnsName::new("").is_err());
    assert!(DnsName::new(" . ").is_err());
}

#[test]
fn fake_ip_allocates_stable_answers_and_reverse_mapping() {
    let mut allocator = FakeIpAllocator::new(FakeIpConfig {
        enabled: true,
        ipv4_pool: IpCidr::new(IpAddress::V4([198, 18, 0, 0]), 30).expect("cidr"),
        ipv6_pool: None,
        state_file: None,
        ttl_seconds: 60,
    })
    .expect("allocator");
    let query = query("example.test", DnsRecordType::A);
    let first = allocator.resolve(&query).expect("first").response;
    assert_eq!(first, allocator.resolve(&query).expect("second").response);
    let Host::Ip(address) = first.answers[0].host else {
        panic!("fake ip answer")
    };
    assert_eq!(
        allocator.lookup(address).as_deref(),
        Some("example.test")
    );
}

#[test]
fn fake_ip_restores_ipv4_and_ipv6_mappings() {
    let config = FakeIpConfig {
        enabled: true,
        ipv4_pool: IpCidr::new(IpAddress::V4([198, 18, 0, 0]), 24).expect("v4"),
        ipv6_pool: Some(
            IpCidr::new(
                IpAddress::V6([0xfd, 0, 0, 0, 0, 0, 0, 0, 0, 0, 0, 0, 0, 0, 0, 0]),
                120,
            )
            .expect("v6"),
        ),
        state_file: Some("state.json".to_string()),
        ttl_seconds: 60,
    };
    let mut first = FakeIpAllocator::new(config.clone()).expect("first allocator");
    let v4 = first
        .resolve(&query("persistent.example", DnsRecordType::A))
        .expect("v4");
    let v6 = first
        .resolve(&query("persistent.example", DnsRecordType::Aaaa))
        .expect("v6");
    assert!(v4.changed && v6.changed);
    let saved: Vec<(String, Option<IpAddress>)> = first
        .save()
        .into_iter()
        .map(|(name, address)| (name, Some(address)))
        .collect();
    let mut restored = FakeIpAllocator::new(config).expect("restored allocator");
    restored.load(&saved, first.state.next_v4, first.state.next_v6);
    assert_eq!(
        v4.response,
        restored
            .resolve(&query("persistent.example", DnsRecordType::A))
            .expect("restored v4")
            .response
    );
    assert_eq!(
        v6.response,
        restored
            .resolve(&query("persistent.example", DnsRecordType::Aaaa))
            .expect("restored v6")
            .response
    );
}

#[test]
fn fake_addresses_of_different_names_differ() {
    let mut allocator = FakeIpAllocator::new(FakeIpConfig {
        enabled: true,
        ipv4_pool: IpCidr::new(IpAddress::V4([198, 18, 0, 0]), 24).expect("cidr"),
        ipv6_pool: None,
        state_file: None,
        ttl_seconds: 7,
    })
    .expect("allocator");
    let one = allocator
        .resolve(&query("one.test", DnsRecordType::A))
        .expect("one");
    let two = allocator
        .resolve(&query("two.test", DnsRecordType::A))
        .expect("two");
    assert_ne!(one.response.answers[0].host, two.response.answers[0].host);
    assert_eq!(one.response.answers[0].ttl_seconds, 7);
    let none = allocator
        .resolve(&query("one.test", DnsRecordType::Txt))
        .expect("other types");
    assert!(none.response.answers.is_empty());
}

#[test]
fn configurations_are_checked() {
    let pool = FakeIpConfig {
        enabled: true,
        ipv4_pool: IpCidr::new(IpAddress::V4([198, 18, 0, 0]), 24).expect("v4"),
        ipv6_pool: None,
        state_file: None,
        ttl_seconds: 60,
    };
    let short = FakeIpConfig {
        ttl_seconds: 0,
        ..pool.clone()
    };
    assert!(pool.is_valid());
    assert!(!short.is_valid());
    let whole = DnsConfig {
        fake_ip: Some(pool),
        ..config()
    };
    assert!(whole.is_valid());
    let bad = DnsConfig {
        fake_ip: Some(short),
        ..config()
    };
    assert!(!bad.is_valid());
}

#[test]
fn dns_rule_matches_suffix_and_record_type() {
    let matcher = DnsRuleMatcher {
        domain_suffixes: vec!["example.test".to_string()],
        record_types: vec![DnsRecordType::A],
        ..DnsRuleMatcher::default()
    };
    assert!(matcher.matches(&DnsQuery {
        name: DnsName::new("www.example.test").expect("name"),
        record_type: DnsRecordType::A
    }));
    assert!(!matcher.matches(&DnsQuery {
        name: DnsName::new("www.example.test").expect("name"),
        record_type: DnsRecordType::Aaaa
    }));
}

#[test]
fn inverted_rules_match_the_rest() {
    let matcher = DnsRuleMatcher {
        domain_keywords: vec!["ads".to_string()],
        ..DnsRuleMatcher::default()
    };
    let inverted = DnsRuleMatcher {
        invert: true,
        ..matcher.clone()
    };
    for text in ["ads.example", "plain.example"] {
        let query = query(text, DnsRecordType::A);
        assert_ne!(matcher.matches(&query), inverted.matches(&query));
    }
    assert!(matcher.matches(&query("ads.example", DnsRecordType::A)));
}

#[test]
fn suffixes_match_whole_labels() {
    let matcher = DnsRuleMatcher {
        domain_suffixes: vec!["example.test".to_string()],
        ..DnsRuleMatcher::default()
    };
    assert!(matcher.matches(&query("example.test", DnsRecordType::A)));
    assert!(!matcher.matches(&query("notexample.test", DnsRecordType::A)));
}

#[test]
fn cache_resolver_reuses_positive_response() {
    let mut cache = CachingResolver::new(DnsCacheConfig {
        enabled: true,
        max_entries: 8,
        min_ttl_seconds: 0,
        max_ttl_seconds: 60,
    });
    let query = query("cache.example", DnsRecordType::A);
    let mut calls = 0;
    for _ in 0..2 {
        if cache.resolve(&query, 1).is_none() {
            calls += 1;
            cache.answered(query.clone(), &positive([203, 0, 113, 1], 30), 1);
        }
    }
    assert_eq!(calls, 1);
}

#[test]
fn cached_responses_expire() {
    let mut cache = CachingResolver::new(DnsCacheConfig {
        enabled: true,
        max_entries: 8,
        min_ttl_seconds: 0,
        max_ttl_seconds: 60,
    });
    let query = query("cache.example", DnsRecordType::A);
    cache.answered(query.clone(), &positive([203, 0, 113, 1], 30), 5 * SECOND);
    assert!(cache.resolve(&query, 34 * SECOND).is_some());
    assert!(cache.resolve(&query, 35 * SECOND).is_none());
}

#[test]
fn reverse_memory_keeps_the_last_answer() {
    let mut reverse = ReverseDns::new(2);
    let address = IpAddress::V4([192, 0, 2, 1]);
    reverse.record("one.test", &[(address, 10)], 0);
    reverse.record("two.test", &[(address, 10)], 0);
    assert_eq!(reverse.lookup(address, 1).as_deref(), Some("two.test"));
    assert_eq!(reverse.lookup(address, 10 * SECOND), None);
    reverse.record("zero.test", &[(IpAddress::V4([192, 0, 2, 2]), 0)], 0);
    assert_eq!(reverse.lookup(IpAddress::V4([192, 0, 2, 2]), 0), None);
}

#[test]
fn rules_pick_the_first_match() {
    let matcher = |suffix: &str| DnsRuleMatcher {
        domain_suffixes: vec![suffix.to_string()],
        ..DnsRuleMatcher::default()
    };
    let resolver = RuleBasedResolver::new(
        vec![
            DnsRuleConfig::Reject {
                matcher: matcher("bad.test"),
            },
            DnsRuleConfig::Server {
                server: "inner".to_string(),
                matcher: matcher("test"),
            },
        ],
        "outer",
    );
    assert_eq!(
        resolver.resolve(&query("a.bad.test", DnsRecordType::A)),
        DnsRuleAction::Reject
    );
    assert_eq!(
        resolver.resolve(&query("a.test", DnsRecordType::A)),
        DnsRuleAction::Server("inner".to_string())
    );
    assert_eq!(
        resolver.resolve(&query("example", DnsRecordType::A)),
        DnsRuleAction::Server("outer".to_string())
    );
}

#[test]
fn static_answers_are_of_the_asked_family() {
    let resolver = StaticResolver::new()
        .insert_v4(name("a.test"), [1, 2, 3, 4], 9)
        .insert_v6(name("a.test"), [7; 16], 9);
    let v4 = resolver.resolve(&query("a.test", DnsRecordType::A));
    assert_eq!(v4.answers.len(), 1);
    assert_eq!(v4.answers[0].host, Host::Ip(IpAddress::V4([1, 2, 3, 4])));
    let v6 = resolver.resolve(&query("a.test", DnsRecordType::Aaaa));
    assert_eq!(v6.answers[0].host, Host::Ip(IpAddress::V6([7; 16])));
    assert!(resolver
        .resolve(&query("b.test", DnsRecordType::A))
        .answers
        .is_empty());
}

fn server(id: &str, endpoint: Endpoint) -> DnsServerConfig {
    DnsServerConfig {
        id: id.to_string(),
        protocol: DnsServerProtocol::Udp,
        endpoint,
        outbound: None,
    }
}

fn config() -> DnsConfig {
    DnsConfig {
        servers: vec![server("main", Endpoint::localhost_v4(53))],
        rules: Vec::new(),
        final_server: Some("main".to_string()),
        cache: DnsCacheConfig::default(),
        fake_ip: None,
        hijack: Vec::new(),
    }
}

#[test]
fn answers_are_known_once_given() {
    let mut dns = DnsSubsystem::from_config(config()).expect("subsystem");
    let query = query("www.example", DnsRecordType::A);
    match dns.resolve(&query, 0).expect("ask") {
        DnsStep::Ask(server) => assert_eq!(server, "main"),
        _ => panic!("a server is to be asked"),
    }
    let response = positive([203, 0, 113, 9], 300);
    dns.answered(&query, &response, 0);
    match dns.resolve(&query, 1).expect("known") {
        DnsStep::Known(found) => assert_eq!(found, response),
        _ => panic!("the answer is known"),
    }
    assert_eq!(
        dns.reverse
            .lookup(IpAddress::V4([203, 0, 113, 9]), 1)
            .as_deref(),
        Some("www.example")
    );
}

#[test]
fn unknown_servers_are_refused() {
    let dns = DnsSubsystem::from_config(config()).expect("subsystem");
    assert!(dns.resolve_with_server(&"main".to_string()).is_ok());
    assert!(dns.resolve_with_server(&"other".to_string()).is_err());
}

#[test]
fn plans_name_the_server_and_its_port() {
    let transport = HickoryTransport::new(server("main", Endpoint::localhost_v4(5353)))
        .expect("transport");
    let plan = transport.build().expect("plan");
    assert_eq!(plan.port, 5353);
    assert!(matches!(
        plan.address,
        ServerAddress::Literal(IpAddress::V4([127, 0, 0, 1]))
    ));
    assert!(!plan.injected);
}

#[test]
fn failures_name_the_server_or_the_domain() {
    let transport = HickoryTransport::new(server("main", Endpoint::localhost_v4(53)))
        .expect("transport");
    assert!(transport.query_failed("late").message.contains("late"));
    assert!(bootstrap_failed("dns.test", Some("late"))
        .message
        .contains("dns.test"));
}

#[test]
fn records_with_addresses_are_answers() {
    let response = response_of(vec![
        DnsRecord {
            ttl_seconds: 5,
            address: Some(IpAddress::V4([1, 1, 1, 1])),
            wire: vec![1],
        },
        DnsRecord {
            ttl_seconds: 6,
            address: None,
            wire: vec![2],
        },
    ]);
    assert_eq!(response.answers.len(), 1);
    assert_eq!(response.answers[0].ttl_seconds, 5);
    assert_eq!(response.records.len(), 2);
}

const QUESTION: [u8; 29] = [
    0x12, 0x34, 1, 0, 0, 1, 0, 0, 0, 0, 0, 0, 7, b'e', b'x', b'a', b'm', b'p', b'l', b'e', 3, b'c',
    b'o', b'm', 0, 0, 1, 0, 1,
];

#[test]
fn packets_are_answered_with_their_question() {
    let (request, query) = match exchange_wire(&QUESTION).expect("request") {
        WireStep::Ask(request, query) => (request, query),
        WireStep::Reply(_) => panic!("a question is to be asked"),
    };
    assert_eq!(query.name.as_str(), "example.com");
    assert_eq!(query.record_type, DnsRecordType::A);
    let bytes = answer_wire(&request, &Ok(positive([203, 0, 113, 5], 30))).expect("reply");
    assert_eq!(&bytes[..2], &[0x12, 0x34]);
    assert_eq!(bytes[2] & 0x80, 0x80);
    assert_eq!(&bytes[4..8], &[0, 1, 0, 1]);
    assert_eq!(&bytes[bytes.len() - 4..], &[203, 0, 113, 5]);

    let failed = answer_wire(&request, &Err(DnsError::new("late"))).expect("failure");
    assert_eq!(failed[3] & 0x0f, 2);
}

#[test]
fn packets_without_a_question_are_refused() {
    let mut packet = QUESTION[..12].to_vec();
    packet[5] = 0;
    match exchange_wire(&packet).expect("reply") {
        WireStep::Reply(bytes) => assert_eq!(bytes[3] & 0x0f, 1),
        WireStep::Ask(..) => panic!("there is no question"),
    }
    assert!(exchange_wire(&[1, 2, 3]).is_err());
}

#[test]
fn record_type_numbers_round_trip() {
    for code in [1_u16, 2, 5, 6, 12, 15, 16, 28, 33, 35, 43, 48, 52, 64, 65, 255, 257, 9999] {
        assert_eq!(DnsRecordType::from_code(code).code(), code);
    }
    assert_eq!(DnsRecordType::from_code(28), DnsRecordType::Aaaa);
}

#[test]
fn cache_limits_are_checked() {
    assert!(DnsCacheConfig::default().is_valid());
    assert!(!DnsCacheConfig {
        max_entries: 0,
        ..DnsCacheConfig::default()
    }
    .is_valid());
    assert!(!DnsCacheConfig {
        max_ttl_seconds: 0,
        ..DnsCacheConfig::default()
    }
    .is_valid());
}

#[test]
fn every_name_keeps_its_own_address() {
    let mut allocator = FakeIpAllocator::new(FakeIpConfig {
        enabled: true,
        ipv4_pool: IpCidr::new(IpAddress::V4([198, 18, 0, 0]), 29).expect("cidr"),
        ipv6_pool: None,
        state_file: None,
        ttl_seconds: 60,
    })
    .expect("allocator");
    let names = ["a.test", "b.test", "a.test", "c.test", "b.test", "a.test"];
    let mut addresses = Vec::new();
    for text in names {
        let answer = allocator
            .resolve(&query(text, DnsRecordType::A))
            .expect("answer");
        match answer.response.answers[0].host {
            Host::Ip(address) => addresses.push(address),
            _ => panic!("fake ip answer"),
        }
    }
    for (first, one) in names.iter().enumerate() {
        for (second, other) in names.iter().enumerate() {
            assert_eq!(addresses[first] == addresses[second], one == other);
        }
        assert_eq!(
            allocator.lookup(addresses[first]).as_deref(),
            Some(names[first])
        );
    }
    let unknown = (0..=255)
        .map(|last| IpAddress::V4([198, 18, 0, last]))
        .filter(|address| !addresses.contains(address));
    for address in unknown {
        assert_eq!(allocator.lookup(address), None);
    }
}

#[test]
fn reverse_memory_keeps_to_its_room() {
    let mut reverse = ReverseDns::new(2);
    let address = |last| IpAddress::V4([192, 0, 2, last]);
    reverse.record("one.test", &[(address(1), 100)], 0);
    reverse.record("two.test", &[(address(2), 100)], 0);
    reverse.record("new.test", &[(address(1), 100), (address(1), 0)], SECOND);
    assert_eq!(
        reverse.lookup(address(1), SECOND).as_deref(),
        Some("new.test")
    );
    assert_eq!(
        reverse.lookup(address(2), SECOND).as_deref(),
        Some("two.test")
    );
    reverse.record("dead.test", &[(address(1), 0), (address(3), 0)], SECOND);
    assert_eq!(
        reverse.lookup(address(1), SECOND).as_deref(),
        Some("new.test")
    );
    assert_eq!(reverse.lookup(address(3), SECOND), None);
    reverse.record(
        "more.test",
        &[(address(4), 100), (address(5), 100), (address(6), 100)],
        SECOND,
    );
    let known = (0..=255)
        .filter(|last| reverse.lookup(address(*last), SECOND).is_some())
        .count();
    assert_eq!(known, 2);
    assert_eq!(
        reverse.lookup(address(6), SECOND).as_deref(),
        Some("more.test")
    );
}
