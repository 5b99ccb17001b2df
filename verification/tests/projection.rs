use authd::config::Config;
use authd::types::{Group, GroupToNSS, Shell, User, UserToNSS};

fn alice() -> User {
    User {
        name: "alice".to_string(),
        id: 1000,
        gecos: None,
        shells: vec![Shell::Zsh, Shell::Bash],
    }
}

#[test]
fn shell_preference_first_supported_wins() {
    let u = alice();
    assert_eq!(u.choose_shell(&vec![Shell::Bash, Shell::Fish]), Shell::Bash);
    assert_eq!(u.choose_shell(&vec![Shell::Zsh, Shell::Bash]), Shell::Zsh);
}

#[test]
fn shell_empty_preferences_fall_back() {
    let u = User { shells: Vec::new(), ..alice() };
    assert_eq!(u.choose_shell(&vec![Shell::Sh, Shell::Fish]), Shell::Bash);
    assert_eq!(u.choose_shell(&Vec::new()), Shell::Bash);
}

#[test]
fn shell_unsupported_preference_falls_back() {
    let u = User { shells: vec![Shell::Fish], ..alice() };
    assert_eq!(u.choose_shell(&vec![Shell::Bash]), Shell::Bash);
}

#[test]
fn shell_names() {
    assert_eq!(Shell::Sh.name(), "sh");
    assert_eq!(Shell::Bash.name(), "bash");
    assert_eq!(Shell::Zsh.name(), "zsh");
    assert_eq!(Shell::Fish.name(), "fish");
}

#[test]
fn passwd_projection_builds_paths() {
    let u = alice();
    let r = u.to_nss("/home", "/bin", &vec![Shell::Bash, Shell::Fish]);
    assert_eq!(r.name, "alice");
    assert_eq!(r.passwd, "x");
    assert_eq!(r.uid, 1000);
    assert_eq!(r.gid, 1000);
    assert_eq!(r.gecos, "");
    assert_eq!(r.dir, "/home/alice");
    assert_eq!(r.shell, "/bin/bash");
}

#[test]
fn changing_home_root_changes_only_the_home_directory() {
    let u = alice();
    let supported = vec![Shell::Bash, Shell::Fish];
    let r1 = u.to_nss("/home", "/bin", &supported);
    let r2 = u.to_nss("/mnt/home", "/bin", &supported);
    assert_eq!(r1.dir, "/home/alice");
    assert_eq!(r2.dir, "/mnt/home/alice");
    assert_eq!(r1.name, r2.name);
    assert_eq!(r1.passwd, r2.passwd);
    assert_eq!(r1.uid, r2.uid);
    assert_eq!(r1.gid, r2.gid);
    assert_eq!(r1.gecos, r2.gecos);
    assert_eq!(r1.shell, r2.shell);
}

#[test]
fn attributes_serialize_to_one_text_blob() {
    let mut attrs = toml::map::Map::new();
    attrs.insert("office".to_string(), toml::Value::String("B12".to_string()));
    let u = User { gecos: Some(attrs), ..alice() };
    let r = u.to_nss("/home", "/bin", &vec![Shell::Bash]);
    assert_eq!(r.gecos, "{\"office\":\"B12\"}");
}

#[test]
fn attributes_keep_their_key_order() {
    let mut attrs = toml::map::Map::new();
    attrs.insert("b".to_string(), toml::Value::Integer(2));
    attrs.insert("a".to_string(), toml::Value::Integer(1));
    let u = User { gecos: Some(attrs), ..alice() };
    let r = u.to_nss("/home", "/bin", &vec![Shell::Bash]);
    assert_eq!(r.gecos, "{\"a\":1,\"b\":2}");
}

#[test]
fn group_projection_copies_members_verbatim() {
    let g = Group {
        name: "staff".to_string(),
        gid: 50,
        members: vec!["alice".to_string(), "bob".to_string()],
    };
    let r = g.to_nss();
    assert_eq!(r.name, "staff");
    assert_eq!(r.passwd, "x");
    assert_eq!(r.gid, 50);
    assert_eq!(r.members, vec!["alice".to_string(), "bob".to_string()]);
}

#[test]
fn vec_projection_projects_each_entry() {
    let gs = vec![
        Group { name: "a".to_string(), gid: 1, members: Vec::new() },
        Group { name: "b".to_string(), gid: 2, members: Vec::new() },
    ];
    let rs = gs.to_nss();
    assert_eq!(rs.len(), 2);
    assert_eq!(rs[0].name, "a");
    assert_eq!(rs[1].gid, 2);

    let us = vec![alice()];
    let prs = us.to_nss("/home", "/bin", &vec![Shell::Bash]);
    assert_eq!(prs.len(), 1);
    assert_eq!(prs[0].dir, "/home/alice");
}

#[test]
fn snapshots_carry_the_attribute_table() {
    let mut attrs = toml::map::Map::new();
    attrs.insert("room".to_string(), toml::Value::Integer(101));
    let c = Config {
        groups: Vec::new(),
        users: vec![User { gecos: Some(attrs), ..alice() }],
        cert: String::new(),
        key: String::new(),
    };
    // the snapshot is a clone; its projection matches the stored user's
    let snapshot = c.all_users();
    let r1 = snapshot[0].to_nss("/home", "/bin", &vec![Shell::Bash]);
    let r2 = c.users[0].to_nss("/home", "/bin", &vec![Shell::Bash]);
    assert_eq!(r1.gecos, "{\"room\":101}");
    assert_eq!(r1.gecos, r2.gecos);
    assert_eq!(r1.dir, r2.dir);
}
