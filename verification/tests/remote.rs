use devforge::ssh::{
    collect_hosts_from, dedupe_and_sort_hosts, parse_config_entries, ssh_config_display_path, ssh_host_template,
    SshConfigEntry, SshHost, SshRemote,
};

fn host(alias: Option<&str>, user: Option<&str>, hostname: &str, port: Option<usize>) -> SshHost {
    SshHost {
        user: user.map(|u| u.to_string()),
        host: hostname.to_string(),
        port,
        alias: alias.map(|a| a.to_string()),
        identity_file: None,
        identities_only: None,
        server_alive_interval: None,
        server_alive_count_max: None,
    }
}

const UNIX_SHARING: [&str; 8] = [
    "-o",
    "ControlMaster=auto",
    "-o",
    "ControlPath=~/.ssh/cm_%C",
    "-o",
    "ControlPersist=30m",
    "-o",
    "ConnectTimeout=15",
];

#[test]
fn hosts_are_named_by_alias_or_user_and_host() {
    let plain = host(None, Some("ubuntu"), "10.0.0.5", Some(2222));
    assert_eq!(plain.user_host(), "ubuntu@10.0.0.5");
    assert_eq!(plain.display_name(), "ubuntu@10.0.0.5");
    assert_eq!(plain.ssh_cli_target(), "ubuntu@10.0.0.5");
    let aliased = host(Some("box"), Some("ubuntu"), "10.0.0.5", None);
    assert_eq!(aliased.display_name(), "box");
    assert_eq!(host(None, None, "example.org", None).user_host(), "example.org");
    assert!(SshRemote::use_config_alias(&aliased));
    assert!(!SshRemote::use_config_alias(&plain));
    assert_eq!(plain.copy().user_host(), "ubuntu@10.0.0.5");
}

#[test]
fn ssh_arguments_spell_out_settings_without_an_alias() {
    assert_eq!(SshRemote::ssh_args(true), UNIX_SHARING.to_vec());
    assert!(SshRemote::ssh_args(false).is_empty());

    let mut h = host(None, Some("ubuntu"), "10.0.0.5", Some(2222));
    h.identities_only = Some(true);
    h.server_alive_interval = Some(60);
    h.server_alive_count_max = Some(3);
    let remote = SshRemote { ssh: h };
    let args = remote.ssh_command_args(false, &Some("/home/u/key.pem".to_string()), true);
    assert_eq!(
        args,
        vec![
            "-i",
            "/home/u/key.pem",
            "-o",
            "IdentitiesOnly=yes",
            "-o",
            "ServerAliveInterval=60",
            "-o",
            "ServerAliveCountMax=3",
            "-p",
            "2222",
            "ubuntu@10.0.0.5",
            "-v",
        ]
    );
    let scp = remote.scp_args(false, &None, "/tmp/a.txt", "/srv/a.txt");
    assert_eq!(
        scp,
        vec![
            "-o",
            "IdentitiesOnly=yes",
            "-o",
            "ServerAliveInterval=60",
            "-o",
            "ServerAliveCountMax=3",
            "-P",
            "2222",
            "/tmp/a.txt",
            "ubuntu@10.0.0.5:/srv/a.txt",
        ]
    );

    let aliased = SshRemote { ssh: host(Some("box"), Some("ubuntu"), "10.0.0.5", Some(2222)) };
    let mut expected: Vec<&str> = UNIX_SHARING.to_vec();
    expected.push("box");
    assert_eq!(aliased.ssh_command_args(true, &Some("/k".to_string()), false), expected);
    assert_eq!(aliased.scp_args(false, &None, "a", "b"), vec!["a", "box:b"]);

    let mut args = vec!["ssh".to_string()];
    SshRemote::apply_explicit_options(&mut args, &host(None, None, "h", None), &Some("/k".to_string()));
    assert_eq!(args, vec!["ssh", "-i", "/k"]);
}

#[test]
fn config_entries_keep_hosts_and_includes_in_order() {
    let text = "Include ~/.ssh/conf.d/*.conf extra.conf\n\nHost web\n  HostName 10.0.0.1\n  User deploy\n\nHost *\n  User nobody\n";
    let entries = parse_config_entries(text);
    assert_eq!(entries.len(), 2);
    match &entries[0] {
        SshConfigEntry::Include(ps) => assert_eq!(ps, &vec!["~/.ssh/conf.d/*.conf".to_string(), "extra.conf".to_string()]),
        other => panic!("unexpected {other:?}"),
    }
    match &entries[1] {
        SshConfigEntry::Host(h) => {
            assert_eq!(h.alias.as_deref(), Some("web"));
            assert_eq!(h.host, "10.0.0.1");
            assert_eq!(h.user.as_deref(), Some("deploy"));
        }
        other => panic!("unexpected {other:?}"),
    }

    let included = vec![vec![host(Some("db"), None, "10.0.0.2", None)]];
    let hosts = collect_hosts_from(&entries, &included);
    let names: Vec<String> = hosts.iter().map(|h| h.display_name()).collect();
    assert_eq!(names, vec!["db", "web"]);
}

#[test]
fn duplicate_hosts_keep_their_first_entry_and_sort() {
    let mut hosts = vec![
        host(Some("Zeta"), None, "1.1.1.1", None),
        host(None, Some("u"), "h", None),
        host(Some("alpha"), None, "2.2.2.2", None),
        host(None, Some("u"), "h", Some(22)),
        host(Some("Zeta"), None, "3.3.3.3", None),
    ];
    dedupe_and_sort_hosts(&mut hosts);
    let names: Vec<String> = hosts.iter().map(|h| h.display_name()).collect();
    assert_eq!(names, vec!["alpha", "u@h", "Zeta"]);
    assert_eq!(hosts[2].host, "1.1.1.1");
    assert_eq!(hosts[1].port, None);
}

#[test]
fn template_and_display_path() {
    assert!(ssh_host_template().starts_with("Host my-server\n  HostName 192.168.1.10\n"));
    assert_eq!(ssh_config_display_path("relative/config"), "relative/config");
}

#[test]
fn includes_are_entered_once_and_not_too_deep() {
    let mut visited: Vec<String> = Vec::new();
    assert!(devforge::ssh::enter_include(&mut visited, "/home/u/.ssh/config", 0));
    assert!(!devforge::ssh::enter_include(&mut visited, "/home/u/.ssh/./config", 1));
    assert_eq!(visited.len(), 1);
    assert!(devforge::ssh::enter_include(&mut visited, "/home/u/.ssh/a", 8));
    assert!(!devforge::ssh::enter_include(&mut visited, "/home/u/.ssh/b", 9));
    assert_eq!(visited.len(), 3);
}
