use std::sync::Arc;

use authd::config::Config;
use authd::rpc::AuthdSession;
use authd::types::{Group, Shell, ShellPolicy, User};

fn session() -> AuthdSession {
    let config = Config {
        groups: vec![
            Group { name: "staff".to_string(), gid: 50, members: vec!["alice".to_string()] },
            Group { name: "staff".to_string(), gid: 51, members: Vec::new() },
        ],
        users: vec![
            User {
                name: "alice".to_string(),
                id: 1000,
                gecos: None,
                shells: vec![Shell::Zsh, Shell::Bash],
            },
            User { name: "bob".to_string(), id: 1001, gecos: None, shells: Vec::new() },
        ],
        cert: "cert.pem".to_string(),
        key: "key.pem".to_string(),
    };
    let policy = ShellPolicy {
        shells: vec![Shell::Bash, Shell::Fish],
        home_root: "/home".to_string(),
        shells_root: "/bin".to_string(),
    };
    AuthdSession::new(Arc::new(config), policy)
}

#[test]
fn all_groups_are_projected_in_store_order() {
    let s = session();
    let gs = s.get_all_groups();
    assert_eq!(gs.len(), 2);
    assert_eq!(gs[0].gid, 50);
    assert_eq!(gs[0].passwd, "x");
    assert_eq!(gs[0].members, vec!["alice".to_string()]);
    assert_eq!(gs[1].gid, 51);
}

#[test]
fn group_by_name_returns_first_match() {
    let s = session();
    let g = s.get_group_by_name("staff".to_string()).unwrap();
    assert_eq!(g.gid, 50);
    assert!(s.get_group_by_name("nobody".to_string()).is_none());
}

#[test]
fn group_by_gid_absent_is_none() {
    let s = session();
    assert!(s.get_group_by_gid(60).is_none());
    assert_eq!(s.get_group_by_gid(51).unwrap().name, "staff");
}

#[test]
fn all_passwd_applies_the_policy() {
    let s = session();
    let us = s.get_all_passwd();
    assert_eq!(us.len(), 2);
    assert_eq!(us[0].name, "alice");
    assert_eq!(us[0].dir, "/home/alice");
    assert_eq!(us[0].shell, "/bin/bash");
    assert_eq!(us[1].shell, "/bin/bash");
}

#[test]
fn passwd_by_name_projects_the_user() {
    let s = session();
    let p = s.get_passwd_by_name("alice".to_string()).unwrap();
    assert_eq!(p.uid, 1000);
    assert_eq!(p.gid, 1000);
    assert_eq!(p.passwd, "x");
    assert_eq!(p.gecos, "");
    assert!(s.get_passwd_by_name("carol".to_string()).is_none());
}

#[test]
fn passwd_by_uid_absent_is_none() {
    let s = session();
    assert!(s.get_passwd_by_uid(42).is_none());
    assert_eq!(s.get_passwd_by_uid(1001).unwrap().name, "bob");
}
