use dockstat::parse::extract_ports_only;
use dockstat::parse::normalize_ports;
use dockstat::parse::parse_block_io;
use dockstat::parse::parse_container_status;
use dockstat::parse::parse_env_vars_text;
use dockstat::parse::parse_memory_usage;
use dockstat::parse::parse_network_io;
use dockstat::parse::parse_meminfo_total;
use dockstat::parse::parse_percent_milli;
use dockstat::parse::parse_ports_text;
use dockstat::parse::parse_size_string;
use dockstat::parse::parse_volumes_text;

#[test]
fn port_string_is_stripped_deduplicated_and_sorted() {
    let ports = normalize_ports("0.0.0.0:8080->80/tcp, 443->443/tcp");
    let views: Vec<&str> = ports.iter().map(|p| p.as_str()).collect();
    assert_eq!(views, vec!["443:443", "8080:80"]);
}

#[test]
fn port_string_duplicates_collapse() {
    let ports = normalize_ports("0.0.0.0:8080->80/tcp, :::8080->80/tcp, 8080:80");
    let views: Vec<&str> = ports.iter().map(|p| p.as_str()).collect();
    assert_eq!(views, vec!["8080:80"]);
}

#[test]
fn bare_port_maps_to_itself() {
    let ports = normalize_ports("80");
    let views: Vec<&str> = ports.iter().map(|p| p.as_str()).collect();
    assert_eq!(views, vec!["80:80"]);
}

#[test]
fn extract_ports_only_joins_or_reports_none() {
    assert_eq!(
        extract_ports_only("0.0.0.0:8080->80/tcp, 443->443/tcp").as_str(),
        "443:443, 8080:80"
    );
    assert_eq!(extract_ports_only("").as_str(), "Nenhuma");
    assert_eq!(extract_ports_only("garbage.entry").as_str(), "Nenhuma");
}

#[test]
fn size_strings_use_binary_multiples() {
    assert_eq!(parse_size_string("137.5MB"), 144_179_200);
    assert_eq!(parse_size_string("2GB"), 2_147_483_648);
    assert_eq!(parse_size_string("0B"), 0);
    assert_eq!(parse_size_string("1kB"), 1024);
    assert_eq!(parse_size_string("3.5KiB"), 3584);
    assert_eq!(parse_size_string("10"), 10);
    assert_eq!(parse_size_string("junk"), 0);
    assert_eq!(parse_size_string(" 1.5 GB "), 1_610_612_736);
}

#[test]
fn container_status_normalizes() {
    assert_eq!(parse_container_status("running", "Up 5 minutes").as_str(), "running");
    assert_eq!(parse_container_status("exited", "Exited (0) 2 minutes ago").as_str(), "exited");
    assert_eq!(parse_container_status("created", "Up 1 hour (Paused)").as_str(), "paused");
    assert_eq!(parse_container_status("restarting", "Restarting").as_str(), "restarting");
    assert_eq!(parse_container_status("created", "Created").as_str(), "unknown");
}

#[test]
fn percent_strings_parse_to_milli() {
    assert_eq!(parse_percent_milli("12.34%"), 12_340);
    assert_eq!(parse_percent_milli("0.50%"), 500);
    assert_eq!(parse_percent_milli("--"), 0);
    assert_eq!(parse_percent_milli("100%"), 100_000);
}

#[test]
fn io_pairs_split_on_the_separator() {
    assert_eq!(parse_memory_usage("1.5MB / 2GB"), (1_572_864, 2_147_483_648));
    assert_eq!(parse_network_io("0B / 0B"), (0, 0));
    assert_eq!(parse_block_io("512B / 1KB"), (512, 1024));
    assert_eq!(parse_memory_usage("malformed"), (0, 0));
    assert_eq!(parse_memory_usage("a / b / c"), (0, 0));
}

#[test]
fn meminfo_total_reads_the_memtotal_line() {
    let content = "MemFree: 100 kB\nMemTotal:   16384256 kB\nBuffers: 1 kB";
    assert_eq!(parse_meminfo_total(content), 16_384_256 * 1024);
    assert_eq!(parse_meminfo_total("no such line"), 0);
}

#[test]
fn ports_text_parses_mappings() {
    let ports = parse_ports_text("8080:80/tcp,9000:9000/udp, 123:456 ,bad,70000:1");
    assert_eq!(ports.len(), 3);
    assert_eq!(ports[0].host_port, 8080);
    assert_eq!(ports[0].container_port, 80);
    assert_eq!(ports[0].protocol.as_str(), "tcp");
    assert_eq!(ports[1].host_port, 9000);
    assert_eq!(ports[1].protocol.as_str(), "udp");
    assert_eq!(ports[2].host_port, 123);
    assert_eq!(ports[2].protocol.as_str(), "tcp");
}

#[test]
fn volumes_text_parses_mounts() {
    let vols = parse_volumes_text("/host/path:/container/path,/h2:/c2:ro,plain");
    assert_eq!(vols.len(), 2);
    assert_eq!(vols[0].host_path.as_str(), "/host/path");
    assert_eq!(vols[0].container_path.as_str(), "/container/path");
    assert!(!vols[0].read_only);
    assert!(vols[1].read_only);
}

#[test]
fn env_text_splits_at_the_first_equals() {
    let envs = parse_env_vars_text("KEY1=value1,KEY2=a=b,novalue");
    assert_eq!(envs.len(), 2);
    assert_eq!(envs[0].key.as_str(), "KEY1");
    assert_eq!(envs[0].value.as_str(), "value1");
    assert_eq!(envs[1].key.as_str(), "KEY2");
    assert_eq!(envs[1].value.as_str(), "a=b");
}
