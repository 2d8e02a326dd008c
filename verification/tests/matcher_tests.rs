//! The knock matcher and the textual encoding of knock sets.

use pknocker::conns_text::parse_conns;
use pknocker::conns_text::parse_target;
use pknocker::knock::classify;
use pknocker::knock::Conns;
use pknocker::knock::InetProto;
use pknocker::knock::Outcome;

fn target() -> Conns {
    Conns(vec![(InetProto::Tcp, 22), (InetProto::Udp, 53)])
}

#[test]
fn equal_sets_match() {
    let observed = Conns(vec![(InetProto::Udp, 53), (InetProto::Tcp, 22)]);
    assert_eq!(classify(&observed, &target()), Outcome::Matched);
}

#[test]
fn duplicates_collapse() {
    let observed = Conns(vec![
        (InetProto::Tcp, 22),
        (InetProto::Tcp, 22),
        (InetProto::Udp, 53),
    ]);
    assert_eq!(classify(&observed, &target()), Outcome::Matched);
    let observed_single = Conns(vec![(InetProto::Tcp, 22), (InetProto::Tcp, 22)]);
    let target_single = Conns(vec![(InetProto::Tcp, 22)]);
    assert_eq!(classify(&observed_single, &target_single), Outcome::Matched);
}

#[test]
fn proper_subset_is_pending() {
    let observed = Conns(vec![(InetProto::Tcp, 22)]);
    assert_eq!(classify(&observed, &target()), Outcome::Pending);
}

#[test]
fn empty_observed_is_pending() {
    let observed = Conns(vec![]);
    assert_eq!(classify(&observed, &target()), Outcome::Pending);
}

#[test]
fn stray_pair_is_impossible() {
    let observed = Conns(vec![(InetProto::Tcp, 22), (InetProto::Tcp, 80)]);
    assert_eq!(classify(&observed, &target()), Outcome::Impossible);
    // still impossible with every correct knock also present
    let observed_full = Conns(vec![
        (InetProto::Tcp, 22),
        (InetProto::Udp, 53),
        (InetProto::Tcp, 80),
    ]);
    assert_eq!(classify(&observed_full, &target()), Outcome::Impossible);
}

#[test]
fn superset_is_impossible() {
    let observed = Conns(vec![
        (InetProto::Tcp, 22),
        (InetProto::Udp, 53),
        (InetProto::Icmp, 0),
    ]);
    assert_eq!(classify(&observed, &target()), Outcome::Impossible);
}

#[test]
fn classify_is_deterministic() {
    let observed = Conns(vec![(InetProto::Tcp, 22)]);
    let first = classify(&observed, &target());
    let second = classify(&observed, &target());
    assert_eq!(first, second);
}

#[test]
fn parse_canonical_list() {
    let c = parse_conns("[[\"tcp\",22],[\"udp\",53]]").expect("well-formed");
    assert_eq!(c.0, vec![(InetProto::Tcp, 22), (InetProto::Udp, 53)]);
}

#[test]
fn parse_with_whitespace() {
    let c = parse_conns(" [ [\"icmp\" , 0] ,\n[\"tcp\",65535] ] ").expect("well-formed");
    assert_eq!(c.0, vec![(InetProto::Icmp, 0), (InetProto::Tcp, 65535)]);
}

#[test]
fn parse_empty_list() {
    let c = parse_conns("[]").expect("well-formed");
    assert_eq!(c.0, vec![]);
}

#[test]
fn parse_rejects_bad_text() {
    assert!(parse_conns("").is_none());
    assert!(parse_conns("{}").is_none());
    assert!(parse_conns("[[\"tcp\",22]").is_none());
    assert!(parse_conns("[[\"tcp\",22]] extra").is_none());
    assert!(parse_conns("[[\"sctp\",22]]").is_none());
    assert!(parse_conns("[[\"tcp\",022]]").is_none());
    assert!(parse_conns("[[\"tcp\",65536]]").is_none());
    assert!(parse_conns("[[\"tcp\",-1]]").is_none());
    assert!(parse_conns("[[\"tcp\"]]").is_none());
    assert!(parse_conns("[[\"tcp\",22],]").is_none());
}

#[test]
fn parse_port_zero() {
    let c = parse_conns("[[\"udp\",0]]").expect("well-formed");
    assert_eq!(c.0, vec![(InetProto::Udp, 0)]);
}

#[test]
fn target_must_not_be_empty() {
    assert!(parse_target("[]").is_none());
    assert!(parse_target("nonsense").is_none());
    let t = parse_target("[[\"tcp\",7614],[\"udp\",1234]]").expect("well-formed");
    assert_eq!(t.0, vec![(InetProto::Tcp, 7614), (InetProto::Udp, 1234)]);
}
