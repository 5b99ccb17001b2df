use authd::config::{Config, EntryKind};
use authd::types::{Group, User};

fn group(name: &str, gid: u32) -> Group {
    Group { name: name.to_string(), gid, members: Vec::new() }
}

fn user(name: &str, id: u32) -> User {
    User { name: name.to_string(), id, gecos: None, shells: Vec::new() }
}

fn config(groups: Vec<Group>, users: Vec<User>) -> Config {
    Config { groups, users, cert: "/etc/auth/cert.pem".to_string(), key: "/etc/auth/key.pem".to_string() }
}

#[test]
fn disjoint_ids_validate() {
    let c = config(
        vec![group("staff", 10), group("dev", 11)],
        vec![user("alice", 100), user("bob", 101)],
    );
    assert!(c.check_dup());
    assert!(c.first_collision().is_none());
}

#[test]
fn empty_config_validates() {
    let c = config(Vec::new(), Vec::new());
    assert!(c.check_dup());
}

#[test]
fn duplicate_group_group() {
    let c = config(vec![group("a", 7), group("b", 7)], Vec::new());
    assert!(!c.check_dup());
    let e = c.first_collision().unwrap();
    assert_eq!(e.first_kind, EntryKind::Group);
    assert_eq!(e.first_name, "a");
    assert_eq!(e.second_kind, EntryKind::Group);
    assert_eq!(e.second_name, "b");
    assert_eq!(e.id, 7);
}

#[test]
fn duplicate_group_user() {
    let c = config(vec![group("g", 5)], vec![user("u", 5)]);
    let e = c.first_collision().unwrap();
    assert_eq!(e.first_kind, EntryKind::Group);
    assert_eq!(e.first_name, "g");
    assert_eq!(e.second_kind, EntryKind::User);
    assert_eq!(e.second_name, "u");
    assert_eq!(e.id, 5);
}

#[test]
fn duplicate_user_user() {
    let c = config(Vec::new(), vec![user("u1", 9), user("u2", 9)]);
    let e = c.first_collision().unwrap();
    assert_eq!(e.first_kind, EntryKind::User);
    assert_eq!(e.first_name, "u1");
    assert_eq!(e.second_kind, EntryKind::User);
    assert_eq!(e.second_name, "u2");
    assert_eq!(e.id, 9);
}

#[test]
fn first_pair_in_list_order_wins() {
    // both gid 2 (positions 1, 2) and gid 1 (positions 0, 3) collide; the
    // scan reaches the gid-2 pair first
    let c = config(
        vec![group("g0", 1), group("g1", 2), group("g2", 2), group("g3", 1)],
        Vec::new(),
    );
    let e = c.first_collision().unwrap();
    assert_eq!(e.first_name, "g1");
    assert_eq!(e.second_name, "g2");
    assert_eq!(e.id, 2);
}

#[test]
fn groups_are_checked_before_users() {
    // in groups-then-users order the first collision is user "u0" against
    // group "g1", although user "u1" collides with the earlier group "g0"
    let c = config(
        vec![group("g0", 5), group("g1", 6)],
        vec![user("u0", 6), user("u1", 5)],
    );
    let e = c.first_collision().unwrap();
    assert_eq!(e.first_kind, EntryKind::Group);
    assert_eq!(e.first_name, "g1");
    assert_eq!(e.second_kind, EntryKind::User);
    assert_eq!(e.second_name, "u0");
    assert_eq!(e.id, 6);
}

#[test]
fn load_accepts_and_rejects() {
    let ok = Config::load(
        vec![group("staff", 10)],
        vec![user("alice", 100)],
        "cert".to_string(),
        "key".to_string(),
    );
    let c = ok.unwrap();
    assert_eq!(c.groups.len(), 1);
    assert_eq!(c.users.len(), 1);
    assert_eq!(c.cert, "cert");
    assert_eq!(c.key, "key");

    let bad = Config::load(
        vec![group("staff", 10)],
        vec![user("alice", 10)],
        "cert".to_string(),
        "key".to_string(),
    );
    let e = bad.unwrap_err();
    assert_eq!(e.id, 10);
    assert_eq!(e.first_name, "staff");
    assert_eq!(e.second_name, "alice");
}

#[test]
fn find_by_id_absent_returns_none() {
    let c = config(vec![group("staff", 10)], vec![user("alice", 100)]);
    assert!(c.find_group_by_gid(11).is_none());
    assert!(c.find_user_by_uid(101).is_none());
}

#[test]
fn find_returns_first_match_in_store_order() {
    let c = config(
        vec![group("dup", 1), group("dup", 2)],
        vec![user("d", 3), user("d", 4)],
    );
    assert_eq!(c.find_group_by_name(&"dup".to_string()).unwrap().gid, 1);
    assert_eq!(c.find_user_by_name(&"d".to_string()).unwrap().id, 3);
    assert_eq!(c.find_group_by_gid(2).unwrap().name, "dup");
    assert_eq!(c.find_user_by_uid(4).unwrap().name, "d");
}

#[test]
fn snapshots_copy_the_store() {
    let c = config(vec![group("staff", 10)], vec![user("alice", 100)]);
    let gs = c.all_groups();
    let us = c.all_users();
    assert_eq!(gs.len(), 1);
    assert_eq!(gs[0].name, "staff");
    assert_eq!(us.len(), 1);
    assert_eq!(us[0].id, 100);
}
