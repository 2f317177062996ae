use dockstat::servers::RemoteServerManager;
use dockstat::servers::ServerType;
use dockstat::servers::SshServerConfig;

#[test]
fn test_create_manager() {
    let manager = RemoteServerManager::new();
    let servers = manager.list_servers();
    assert_eq!(servers.len(), 0);
}

#[test]
fn test_add_local_server() {
    let mut manager = RemoteServerManager::new();

    let server_id = manager.add_local_server(
        "Local Docker".to_string(),
        Some("Servidor Docker local".to_string()),
    );

    let servers = manager.list_servers();
    assert_eq!(servers.len(), 1);
    assert_eq!(servers[0].name, "Local Docker");

    let active = manager.get_active_server();
    assert_eq!(active, Some(server_id));
}

#[test]
fn test_add_remote_server() {
    let mut manager = RemoteServerManager::new();

    let ssh_config = SshServerConfig::new_with_password(
        "test_server".to_string(),
        "localhost".to_string(),
        22,
        "user".to_string(),
        "password".to_string(),
    );

    manager
        .add_remote_server(
            "Remote Docker".to_string(),
            ssh_config,
            Some("Servidor Docker remoto".to_string()),
        )
        .unwrap();

    let servers = manager.list_servers();
    assert_eq!(servers.len(), 1);
    assert_eq!(servers[0].name, "Remote Docker");

    match &servers[0].server_type {
        ServerType::Remote(_) => assert!(true),
        _ => assert!(false, "Deveria ser servidor remoto"),
    }
}

#[test]
fn test_remove_server() {
    let mut manager = RemoteServerManager::new();

    let server_id = manager.add_local_server("Test Server".to_string(), None);

    assert_eq!(manager.list_servers().len(), 1);

    let removed = manager.remove_server(server_id.as_str());
    assert!(removed);
    assert_eq!(manager.list_servers().len(), 0);
}

#[test]
fn removing_the_active_server_clears_the_selection() {
    let mut manager = RemoteServerManager::new();
    let server_id = manager.add_local_server("One".to_string(), None);
    assert_eq!(manager.get_active_server(), Some(server_id.clone()));
    let _ = manager.remove_server(server_id.as_str());
    assert_eq!(manager.get_active_server(), None);
}

#[test]
fn invalid_remote_config_is_refused() {
    let mut manager = RemoteServerManager::new();
    let ssh_config = SshServerConfig::new_with_password(
        "".to_string(),
        "localhost".to_string(),
        22,
        "user".to_string(),
        "password".to_string(),
    );
    let r = manager.add_remote_server("Bad".to_string(), ssh_config, None);
    assert!(r.is_err());
    assert_eq!(manager.list_servers().len(), 0);
}

#[test]
fn export_and_import_reproduce_the_server_set() {
    let mut manager = RemoteServerManager::new();
    let a = manager.add_local_server("A".to_string(), None);
    let ssh_config = SshServerConfig::new_with_password(
        "remote1".to_string(),
        "remote1.com".to_string(),
        22,
        "user".to_string(),
        "pass".to_string(),
    );
    let b = manager
        .add_remote_server("B".to_string(), ssh_config, Some("prod".to_string()))
        .unwrap();

    let exported = manager.export_servers_config();
    assert_eq!(exported.len(), 2);

    let mut fresh = RemoteServerManager::new();
    let added = fresh.import_servers_config(exported);
    assert_eq!(added, 2);

    let mut ids: Vec<String> = fresh.list_servers().iter().map(|s| s.id.clone()).collect();
    ids.sort();
    let mut expected = vec![a, b];
    expected.sort();
    assert_eq!(ids, expected);

    // A second import of the same set adds nothing: the ids collide.
    let again = fresh.import_servers_config(manager.export_servers_config());
    assert_eq!(again, 0);
    assert_eq!(fresh.list_servers().len(), 2);
}

#[test]
fn connect_marks_active_and_stamps_time() {
    let mut manager = RemoteServerManager::new();
    let id = manager.add_local_server("One".to_string(), None);
    manager.disconnect_from_server(id.as_str()).unwrap();
    let s = manager.get_server(id.as_str()).unwrap();
    assert!(!s.is_active);
    manager.connect_to_server(id.as_str()).unwrap();
    let s = manager.get_server(id.as_str()).unwrap();
    assert!(s.is_active);
    assert!(s.last_connected.is_some());
    assert!(manager.connect_to_server("missing").is_err());
}
