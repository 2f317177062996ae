use dockstat::fmt::format_creation_time;
use dockstat::logs::format_container_logs;
use dockstat::persistence::SavedSshServer;
use dockstat::persistence::SshPersistence;
use dockstat::servers::RemoteServerManager;

#[test]
fn short_log_lines_pass_through() {
    let out = format_container_logs("short line\nanother");
    assert_eq!(out.as_str(), "short line\nanother");
}

#[test]
fn empty_logs_get_a_placeholder() {
    assert_eq!(format_container_logs("").as_str(), "Nenhum log disponivel");
    assert_eq!(format_container_logs("   \n  ").as_str(), "Nenhum log disponivel");
}

#[test]
fn timestamped_log_lines_are_bracketed() {
    let line = "2023-01-01T10:20:30.000000000Z hello world";
    let out = format_container_logs(line);
    // The local rendering of the clock time varies by time zone, but the
    // shape does not: a bracketed 8-character time, then the message.
    assert_eq!(out.len(), "[10:20:30] hello world".len());
    assert!(out.starts_with('['));
    assert!(out.ends_with("] hello world"));
}

#[test]
fn creation_times_humanize() {
    assert_eq!(format_creation_time(0, 1000).as_str(), "desconhecido");
    assert_eq!(format_creation_time(100, 100 + 2 * 86400).as_str(), "ha 2 dias");
    assert_eq!(format_creation_time(100, 100 + 86400).as_str(), "ha 1 dia");
    assert_eq!(format_creation_time(100, 100 + 3 * 3600).as_str(), "ha 3 horas");
    assert_eq!(format_creation_time(100, 100 + 120).as_str(), "ha 2 minutos");
    assert_eq!(format_creation_time(100, 101).as_str(), "ha 1 segundo");
    assert_eq!(format_creation_time(100, 100).as_str(), "agora");
}

#[test]
fn registry_statistics_and_filters() {
    let mut manager = RemoteServerManager::new();
    let a = manager.add_local_server("A".to_string(), None);
    let ssh = dockstat::servers::SshServerConfig::new_with_password(
        "r".to_string(),
        "h".to_string(),
        22,
        "u".to_string(),
        "p".to_string(),
    );
    let b = manager.add_remote_server("B".to_string(), ssh, None).unwrap();
    manager
        .update_server_info(b.as_str(), Some("24.0".to_string()), 3, 5, 1, 2)
        .unwrap();

    let stats = manager.get_statistics();
    assert_eq!(stats.total_servers, 2);
    assert_eq!(stats.remote_servers, 1);
    assert_eq!(stats.local_servers, 1);
    assert_eq!(stats.total_containers, 3);
    assert_eq!(stats.total_images, 5);
    assert_eq!(stats.total_networks, 1);
    assert_eq!(stats.total_volumes, 2);

    assert_eq!(manager.list_remote_servers().len(), 1);
    assert_eq!(manager.list_local_servers().len(), 1);

    let results = manager.connect_all();
    assert_eq!(results.len(), 2);
    assert!(results.iter().all(|r| r.success));
    assert_eq!(manager.list_active_servers().len(), 2);
    assert!(manager.get_server(a.as_str()).unwrap().is_active);

    let results = manager.disconnect_all();
    assert_eq!(results.len(), 2);
    assert_eq!(manager.list_active_servers().len(), 0);
}

fn saved(name: &str, host: &str, user: &str, last: Option<i64>) -> SavedSshServer {
    let mut s = SavedSshServer::new(name.to_string(), host.to_string(), user.to_string(), None);
    s.last_connected = last;
    s
}

#[test]
fn importing_saved_servers_skips_known_pairs() {
    let mut book = SshPersistence::new();
    book.add_server(saved("one", "h1", "u1", None));
    let imported = vec![
        saved("dup", "h1", "u1", None),
        saved("two", "h2", "u2", None),
        saved("two-again", "h2", "u2", None),
    ];
    let added = book.import_servers(imported, true);
    assert_eq!(added, 1);
    assert_eq!(book.list_servers().len(), 2);

    let replaced = book.import_servers(vec![saved("solo", "h9", "u9", None)], false);
    assert_eq!(replaced, 1);
    assert_eq!(book.list_servers().len(), 1);
    assert_eq!(book.list_servers()[0].name, "solo");
}

#[test]
fn recent_servers_order_by_stamp_then_name() {
    let mut book = SshPersistence::new();
    book.add_server(saved("zeta", "h1", "u1", None));
    book.add_server(saved("alpha", "h2", "u2", None));
    book.add_server(saved("old", "h3", "u3", Some(100)));
    book.add_server(saved("new", "h4", "u4", Some(900)));

    let recent = book.get_recent_servers(10);
    let names: Vec<&str> = recent.iter().map(|s| s.name.as_str()).collect();
    assert_eq!(names, vec!["new", "old", "alpha", "zeta"]);

    let top = book.get_recent_servers(2);
    let names: Vec<&str> = top.iter().map(|s| s.name.as_str()).collect();
    assert_eq!(names, vec!["new", "old"]);
}
