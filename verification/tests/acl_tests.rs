use whalescale::acl::{host_of, port_of, Policy, PolicyError, Principal, RawPolicy, RawRule};
use whalescale::net::IpNet;
use whalescale::proto::Ports;

fn principal(user: Option<&str>, tags: &[&str]) -> Principal {
    Principal { user: user.map(|u| u.to_string()), tags: tags.iter().map(|t| t.to_string()).collect() }
}

fn rule(action: &str, src: &[&str], dst: &[&str]) -> RawRule {
    RawRule {
        action: action.to_string(),
        src: src.iter().map(|s| s.to_string()).collect(),
        dst: dst.iter().map(|s| s.to_string()).collect(),
    }
}

fn group(name: &str, members: &[&str]) -> (String, Vec<String>) {
    (name.to_string(), members.iter().map(|m| m.to_string()).collect())
}

#[test]
fn wildcard_allows_everything() {
    let p = Policy::parse(RawPolicy { groups: vec![], acls: vec![rule("accept", &["*"], &["*:*"])] }).unwrap();
    assert!(p.allows(&principal(Some("a@x.com"), &[]), &principal(None, &["tag:server"])));
}

#[test]
fn group_to_tag_rule() {
    let doc = RawPolicy {
        groups: vec![group("group:eng", &["alice@x.com", "bob@x.com"])],
        acls: vec![rule("accept", &["group:eng"], &["tag:server:22,443"])],
    };
    let p = Policy::parse(doc).unwrap();
    let alice = principal(Some("alice@x.com"), &[]);
    let carol = principal(Some("carol@x.com"), &[]);
    let server = principal(None, &["tag:server"]);
    let laptop = principal(Some("dave@x.com"), &[]);

    assert!(p.allows(&alice, &server), "eng member -> tagged server");
    assert!(!p.allows(&carol, &server), "non-member denied");
    assert!(!p.allows(&alice, &laptop), "no rule to untagged laptop");
}

#[test]
fn empty_acls_denies_all() {
    let p = Policy::parse(RawPolicy { groups: vec![], acls: vec![] }).unwrap();
    assert!(!p.allows(&principal(Some("a@x.com"), &[]), &principal(Some("b@x.com"), &[])));
}

#[test]
fn rejects_non_accept_action() {
    let err = Policy::parse(RawPolicy { groups: vec![], acls: vec![rule("drop", &["*"], &["*:*"])] }).unwrap_err();
    assert!(err.message().contains("unsupported action"));
}

#[test]
fn host_parsing_strips_ports() {
    assert_eq!(host_of("tag:server:22,443"), "tag:server");
    assert_eq!(host_of("*:*"), "*");
    assert_eq!(host_of("group:eng:*"), "group:eng");
    assert_eq!(host_of("alice@x.com"), "alice@x.com");
}

#[test]
fn port_parsing() {
    assert_eq!(port_of("tag:server:22,443"), Ports::List(vec![22, 443]));
    assert_eq!(port_of("*:*"), Ports::All);
    assert_eq!(port_of("alice@x.com"), Ports::All); // no ports -> all
}

#[test]
fn inbound_filter_resolves_sources_and_ports() {
    let doc = RawPolicy {
        groups: vec![group("group:eng", &["alice@x.com"])],
        acls: vec![rule("accept", &["group:eng"], &["tag:server:22,443"])],
    };
    let p = Policy::parse(doc).unwrap();

    let alice = (principal(Some("alice@x.com"), &[]), IpNet::parse("100.64.0.10/32").unwrap());
    let carol = (principal(Some("carol@x.com"), &[]), IpNet::parse("100.64.0.11/32").unwrap());
    let server = principal(None, &["tag:server"]);
    let laptop = principal(Some("dave@x.com"), &[]);

    let filter = p.inbound_filter(&server, &[alice.clone(), carol.clone()]);
    assert_eq!(filter.len(), 1);
    assert_eq!(filter[0].src_ips, vec![IpNet::parse("100.64.0.10/32").unwrap()]);
    assert_eq!(filter[0].ports, Ports::List(vec![22, 443]));

    assert!(p.inbound_filter(&laptop, &[alice, carol]).is_empty());
}

#[test]
fn empty_selectors_are_rejected_with_the_rule_index() {
    let doc = RawPolicy {
        groups: vec![],
        acls: vec![rule("accept", &["*"], &["*:*"]), rule("accept", &[], &["*:*"])],
    };
    let err = Policy::parse(doc).unwrap_err();
    assert_eq!(err, PolicyError::EmptySelectors { index: 1 });
    assert_eq!(err.message(), "acls[1]: src and dst must be non-empty");
}

#[test]
fn unsupported_action_message_quotes_the_action() {
    let err = Policy::parse(RawPolicy { groups: vec![], acls: vec![rule("drop", &["*"], &["*:*"])] }).unwrap_err();
    assert_eq!(err.message(), "acls[0]: unsupported action \"drop\" (only \"accept\")");
}

#[test]
fn groups_may_be_keyed_without_prefix() {
    let doc = RawPolicy {
        groups: vec![group("eng", &["alice@x.com"])],
        acls: vec![rule("accept", &["group:eng"], &["*:*"])],
    };
    let p = Policy::parse(doc).unwrap();
    assert!(p.allows(&principal(Some("alice@x.com"), &[]), &principal(None, &[])));
    assert!(!p.allows(&principal(None, &["tag:eng"]), &principal(None, &[])));
}

#[test]
fn user_selector_matches_owner_email() {
    let doc = RawPolicy { groups: vec![], acls: vec![rule("accept", &["alice@x.com"], &["bob@x.com:443"])] };
    let p = Policy::parse(doc).unwrap();
    assert!(p.allows(&principal(Some("alice@x.com"), &[]), &principal(Some("bob@x.com"), &[])));
    assert!(!p.allows(&principal(Some("bob@x.com"), &[]), &principal(Some("alice@x.com"), &[])));
}

#[test]
fn non_port_suffix_is_part_of_the_host() {
    assert_eq!(host_of("tag:server"), "tag:server");
    assert_eq!(port_of("tag:server"), Ports::All);
    assert_eq!(host_of("host:99999"), "host:99999");
    assert_eq!(port_of("host:"), Ports::All);
    assert_eq!(host_of("host:"), "host:");
}

#[test]
fn a_group_named_twice_keeps_its_first_members() {
    let doc = RawPolicy {
        groups: vec![group("group:eng", &["alice@x.com"]), group("group:eng", &["carol@x.com"])],
        acls: vec![rule("accept", &["group:eng"], &["tag:server:*"])],
    };
    let p = Policy::parse(doc).unwrap();
    let server = principal(None, &["tag:server"]);
    assert!(p.allows(&principal(Some("alice@x.com"), &[]), &server));
    assert!(!p.allows(&principal(Some("carol@x.com"), &[]), &server));
}
