use dockstat::persistence::SavedSshServer;
use dockstat::persistence::SshPersistence;
use dockstat::servers::SshServerConfig;
use dockstat::ssh::SshConfig;

#[test]
fn test_ssh_server_config_validation() {
    let config = SshServerConfig::new_with_password(
        "test".to_string(),
        "localhost".to_string(),
        22,
        "user".to_string(),
        "password".to_string(),
    );

    assert!(config.validate().is_ok());
}

#[test]
fn test_ssh_server_config_empty_name() {
    let config = SshServerConfig::new_with_password(
        "".to_string(),
        "localhost".to_string(),
        22,
        "user".to_string(),
        "password".to_string(),
    );

    assert!(config.validate().is_err());
}

#[test]
fn test_ssh_config_add_server() {
    let mut config = SshConfig::default();
    let server = SshServerConfig::new_with_password(
        "test".to_string(),
        "localhost".to_string(),
        22,
        "user".to_string(),
        "password".to_string(),
    );

    assert!(config.add_server(server).is_ok());
    assert_eq!(config.servers.len(), 1);
}

#[test]
fn test_ssh_config_duplicate_server() {
    let mut config = SshConfig::default();
    let server1 = SshServerConfig::new_with_password(
        "test".to_string(),
        "localhost".to_string(),
        22,
        "user".to_string(),
        "password".to_string(),
    );
    let server2 = SshServerConfig::new_with_password(
        "test".to_string(),
        "localhost".to_string(),
        22,
        "user".to_string(),
        "password".to_string(),
    );

    assert!(config.add_server(server1).is_ok());
    assert!(config.add_server(server2).is_err());
}

#[test]
fn zero_port_is_rejected() {
    let config = SshServerConfig::new_with_password(
        "test".to_string(),
        "localhost".to_string(),
        0,
        "user".to_string(),
        "password".to_string(),
    );
    assert!(config.validate().is_err());
}

#[test]
fn default_server_selection() {
    let mut config = SshConfig::default();
    assert!(config.get_default_server().is_none());
    let a = SshServerConfig::new_with_password(
        "a".to_string(),
        "h1".to_string(),
        22,
        "u".to_string(),
        "p".to_string(),
    );
    let b = SshServerConfig::new_with_password(
        "b".to_string(),
        "h2".to_string(),
        22,
        "u".to_string(),
        "p".to_string(),
    );
    config.add_server(a).unwrap();
    config.add_server(b).unwrap();
    assert_eq!(config.get_default_server().unwrap().name, "a");
    config.set_default_server("b").unwrap();
    assert_eq!(config.get_default_server().unwrap().name, "b");
    assert!(config.set_default_server("missing").is_err());
    assert!(config.remove_server("b"));
    assert!(config.default_server.is_none());
}

#[test]
fn saved_servers_favorites_and_search() {
    let mut book = SshPersistence::new();
    let mut s1 = SavedSshServer::new(
        "alpha".to_string(),
        "alpha.example.com".to_string(),
        "root".to_string(),
        None,
    );
    s1.description = Some("Production box".to_string());
    let id1 = s1.id.clone();
    let s2 = SavedSshServer::new(
        "beta".to_string(),
        "beta.example.com".to_string(),
        "admin".to_string(),
        Some(2222),
    );
    assert_eq!(s2.port, 2222);
    assert_eq!(s1.port, 22);
    book.add_server(s1);
    book.add_server(s2);
    assert_eq!(book.list_servers().len(), 2);

    let fav = book.toggle_favorite(id1.as_str()).unwrap();
    assert!(fav);
    assert_eq!(book.get_favorites().len(), 1);
    let fav = book.toggle_favorite(id1.as_str()).unwrap();
    assert!(!fav);
    assert!(book.toggle_favorite("missing").is_err());

    assert_eq!(book.search_servers("ALPHA").len(), 1);
    assert_eq!(book.search_servers("example").len(), 2);
    assert_eq!(book.search_servers("production").len(), 1);
    assert_eq!(book.search_servers("nothing").len(), 0);

    book.mark_as_connected(id1.as_str()).unwrap();
    let s = book.get_server(id1.as_str()).unwrap();
    assert!(s.last_connected.is_some());

    assert!(book.remove_server(id1.as_str()).is_ok());
    assert!(book.remove_server(id1.as_str()).is_err());
    assert_eq!(book.list_servers().len(), 1);
}

#[test]
fn saved_server_maps_to_connection() {
    let mut s = SavedSshServer::new(
        "n".to_string(),
        "host".to_string(),
        "user".to_string(),
        Some(2200),
    );
    s.password = "secret".to_string();
    let c = s.to_ssh_connection();
    assert_eq!(c.host, "host");
    assert_eq!(c.port, 2200);
    assert_eq!(c.username, "user");
    assert_eq!(c.password, "secret");
    assert!(c.private_key.is_none());
}
