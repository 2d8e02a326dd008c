//! The decision controller, end to end on concrete batches, and the deny
//! store's idempotence.

use pknocker::controller::apply_denies;
use pknocker::controller::run_checks;
use pknocker::controller::Action;
use pknocker::controller::ViewToCheck;
use pknocker::deny::DenyStore;
use pknocker::directory::build_directory;
use pknocker::directory::Directory;
use pknocker::directory::InstanceRecord;
use pknocker::knock::Conns;
use pknocker::knock::InetProto;
use pknocker::net::IpNet;

fn ip(a: u8, b: u8, c: u8, d: u8) -> IpNet {
    IpNet {
        hi: 0,
        lo: u32::from_be_bytes([a, b, c, d]) as u64,
        prefix: 32,
        v6: false,
    }
}

fn target() -> Conns {
    Conns(vec![(InetProto::Tcp, 22), (InetProto::Udp, 53)])
}

fn row(src: IpNet, conns: &str) -> ViewToCheck {
    ViewToCheck {
        src_ip: src,
        dst_ip: ip(10, 9, 9, 9),
        conns: conns.to_string(),
    }
}

fn directory_with(src_text: &str, groups: &[&str]) -> Directory {
    let records = vec![InstanceRecord {
        name: "bastion".to_string(),
        ip_texts: vec![src_text.to_string()],
        group_ids: groups.iter().map(|g| g.to_string()).collect(),
    }];
    build_directory(&records)
}

#[test]
fn partial_knock_is_left_pending() {
    let rows = vec![row(ip(10, 0, 0, 5), "[[\"tcp\",22]]")];
    let dir = directory_with("10.0.0.5", &["sg-1"]);
    let plan = run_checks(&rows, &target(), &dir);
    assert!(plan.is_empty());
}

#[test]
fn full_knock_allows_every_group() {
    let src = ip(10, 0, 0, 5);
    let rows = vec![row(src, "[[\"tcp\",22],[\"udp\",53]]")];
    let dir = directory_with("10.0.0.5", &["sg-1", "sg-2"]);
    let plan = run_checks(&rows, &target(), &dir);
    assert_eq!(plan.len(), 2);
    assert_eq!(
        plan[0],
        Action::Allow {
            ip: src,
            proto: InetProto::Tcp,
            port: 22,
            group_id: "sg-1".to_string(),
        }
    );
    assert_eq!(
        plan[1],
        Action::Allow {
            ip: src,
            proto: InetProto::Tcp,
            port: 22,
            group_id: "sg-2".to_string(),
        }
    );
}

#[test]
fn wrong_knock_is_denied_once() {
    let src = ip(10, 0, 0, 6);
    let rows = vec![row(src, "[[\"tcp\",22],[\"tcp\",80]]")];
    let dir = directory_with("10.0.0.6", &["sg-1"]);
    let plan = run_checks(&rows, &target(), &dir);
    assert_eq!(plan, vec![Action::Deny { ip: src }]);

    let mut store = DenyStore::new();
    apply_denies(&mut store, &plan);
    assert_eq!(store.len(), 1);
    assert!(store.contains(src));
    // a repeated, overlapping run leaves exactly the same single record
    apply_denies(&mut store, &plan);
    assert_eq!(store.len(), 1);
}

#[test]
fn empty_observed_set_does_nothing() {
    let rows = vec![row(ip(10, 0, 0, 7), "[]")];
    let dir = directory_with("10.0.0.7", &["sg-1"]);
    let plan = run_checks(&rows, &target(), &dir);
    assert!(plan.is_empty());
}

#[test]
fn resolved_pairs_are_not_reconsidered() {
    // once a pair carries a deny record the sequence view no longer
    // returns it, so the controller classifies nothing at all
    let rows: Vec<ViewToCheck> = vec![];
    let dir = directory_with("10.0.0.8", &["sg-1"]);
    let plan = run_checks(&rows, &target(), &dir);
    assert!(plan.is_empty());
}

#[test]
fn matched_unknown_source_only_warns() {
    let src = ip(192, 168, 1, 50);
    let rows = vec![row(src, "[[\"udp\",53],[\"tcp\",22]]")];
    let dir = build_directory(&vec![]);
    let plan = run_checks(&rows, &target(), &dir);
    assert_eq!(plan, vec![Action::WarnUnknownIp { ip: src }]);
}

#[test]
fn unreadable_row_only_warns() {
    let src = ip(10, 0, 0, 9);
    let rows = vec![row(src, "not an encoding")];
    let dir = directory_with("10.0.0.9", &["sg-1"]);
    let plan = run_checks(&rows, &target(), &dir);
    assert_eq!(plan, vec![Action::WarnBadConns { ip: src }]);
}

#[test]
fn rows_are_independent() {
    let matched = ip(10, 0, 0, 5);
    let denied = ip(10, 0, 0, 6);
    let rows = vec![
        row(matched, "[[\"tcp\",22],[\"udp\",53]]"),
        row(denied, "[[\"icmp\",0]]"),
        row(ip(10, 0, 0, 7), "[[\"udp\",53]]"),
    ];
    let dir = directory_with("10.0.0.5", &["sg-1"]);
    let plan = run_checks(&rows, &target(), &dir);
    assert_eq!(
        plan,
        vec![
            Action::Allow {
                ip: matched,
                proto: InetProto::Tcp,
                port: 22,
                group_id: "sg-1".to_string(),
            },
            Action::Deny { ip: denied },
        ]
    );
}

#[test]
fn denying_twice_keeps_one_record() {
    let mut store = DenyStore::new();
    let a = ip(172, 16, 0, 1);
    store.deny(a);
    store.deny(a);
    assert_eq!(store.len(), 1);
    assert!(store.contains(a));
    let b = ip(172, 16, 0, 2);
    store.deny(b);
    assert_eq!(store.len(), 2);
    assert!(store.contains(a) && store.contains(b));
}
