use dockstat::config::AppConfig;
use dockstat::config::ConfigManager;
use dockstat::servers::ServerInfo;
use dockstat::servers::ServerType;
use dockstat::servers::SshServerConfig;

fn test_server(ssh_config: SshServerConfig) -> ServerInfo {
    ServerInfo {
        id: "test-1".to_string(),
        name: "Test Server".to_string(),
        server_type: ServerType::Remote(ssh_config),
        description: Some("Test".to_string()),
        is_active: false,
        is_connected: false,
        last_connected: None,
        docker_version: None,
        containers_count: 0,
        images_count: 0,
        networks_count: 0,
        volumes_count: 0,
    }
}

#[test]
fn test_default_config() {
    let config = AppConfig::default();
    assert_eq!(config.config_version, "1.0");
    assert!(config.servers.is_empty());
    assert!(config.active_server_id.is_none());
}

#[test]
fn test_server_management() {
    let mut manager = ConfigManager::new();

    let ssh_config = SshServerConfig::new_with_password(
        "test_server".to_string(),
        "localhost".to_string(),
        22,
        "user".to_string(),
        "password".to_string(),
    );

    let server = test_server(ssh_config);

    manager.add_server(server.clone());
    assert_eq!(manager.list_servers().len(), 1);

    assert!(manager.remove_server(server.id.as_str()));
    assert_eq!(manager.list_servers().len(), 0);
}

#[test]
fn test_export_import_servers() {
    let mut manager = ConfigManager::new();

    let ssh_config = SshServerConfig::new_with_password(
        "test_server".to_string(),
        "localhost".to_string(),
        22,
        "user".to_string(),
        "password".to_string(),
    );

    let server = test_server(ssh_config);

    manager.add_server(server);

    let exported = manager.export_servers();
    assert!(!exported.is_empty());

    manager.clear_servers();
    assert_eq!(manager.list_servers().len(), 0);

    let imported_count = manager.import_servers(exported);
    assert_eq!(imported_count, 1);
    assert_eq!(manager.list_servers().len(), 1);
}

#[test]
fn adding_a_server_replaces_the_same_id() {
    let mut manager = ConfigManager::new();
    let ssh = SshServerConfig::new_with_password(
        "s".to_string(),
        "h".to_string(),
        22,
        "u".to_string(),
        "p".to_string(),
    );
    let mut server = test_server(ssh.clone());
    manager.add_server(server.clone());
    server.name = "Renamed".to_string();
    manager.add_server(server);
    let servers = manager.list_servers();
    assert_eq!(servers.len(), 1);
    assert_eq!(servers[0].name, "Renamed");
}

#[test]
fn removing_the_active_server_clears_the_active_id() {
    let mut manager = ConfigManager::new();
    let ssh = SshServerConfig::new_with_password(
        "s".to_string(),
        "h".to_string(),
        22,
        "u".to_string(),
        "p".to_string(),
    );
    manager.add_server(test_server(ssh));
    manager.set_active_server(Some("test-1".to_string()));
    assert!(manager.get_active_server().is_some());
    manager.remove_server("test-1");
    assert!(manager.get_active_server().is_none());
}

#[test]
fn stats_count_by_kind() {
    let mut manager = ConfigManager::new();
    let ssh = SshServerConfig::new_with_password(
        "s".to_string(),
        "h".to_string(),
        22,
        "u".to_string(),
        "p".to_string(),
    );
    manager.add_server(test_server(ssh));
    let mut local = test_server(SshServerConfig::new_with_password(
        "x".to_string(),
        "h".to_string(),
        22,
        "u".to_string(),
        "p".to_string(),
    ));
    local.id = "local-1".to_string();
    local.server_type = ServerType::Local;
    manager.add_server(local);
    let stats = manager.get_stats();
    assert_eq!(stats.total_servers, 2);
    assert_eq!(stats.remote_servers, 1);
    assert_eq!(stats.local_servers, 1);
    assert!(!stats.has_active_server);
    assert_eq!(stats.config_version, "1.0");
}
