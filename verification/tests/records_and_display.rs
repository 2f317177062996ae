use dockstat::fmt::format_bytes;
use dockstat::fmt::format_bytes_rate;
use dockstat::fmt::format_memory_display;
use dockstat::fmt::memory_str;
use dockstat::json::parse_containers_from_json;
use dockstat::json::parse_docker_info;
use dockstat::json::parse_images_from_json;
use dockstat::manager::DockerManager;
use dockstat::manager::build_run_command;
use dockstat::manager::classify_docker_status;
use dockstat::manager::classify_remove_image_error;
use dockstat::manager::classify_remove_network_error;
use dockstat::manager::classify_remove_volume_error;
use dockstat::records::ContainerInfo;
use dockstat::records::container_name_exists;
use dockstat::records::image_exists;
use dockstat::records::CreateContainerRequest;
use dockstat::records::DockerStatus;
use dockstat::records::EnvVar;
use dockstat::records::ImageInfo;
use dockstat::records::PortMapping;
use dockstat::records::VolumeMapping;
use dockstat::records::filter_containers;
use dockstat::records::image_matches;
use dockstat::records::mark_images_in_use;
use dockstat::records::sort_images;
use dockstat::stats::StatsReading;

fn container(name: &str, image: &str, state: &str) -> ContainerInfo {
    ContainerInfo {
        id: format!("id-{}", name),
        name: name.to_string(),
        image: image.to_string(),
        state: state.to_string(),
        status: String::new(),
        ports: String::new(),
        ports_list: Vec::new(),
        created: 0,
        running_for: String::new(),
    }
}

fn image(id: &str, tags: Vec<&str>) -> ImageInfo {
    ImageInfo {
        id: id.to_string(),
        tags: tags.into_iter().map(|t| t.to_string()).collect(),
        created: 0,
        size: 0,
        in_use: false,
    }
}

#[test]
fn image_and_container_match_with_latest_normalized() {
    // A container recorded as bare `nginx` marks an image tagged
    // `nginx:latest`, and the other way round.
    assert!(image_matches("nginx", "nginx:latest"));
    assert!(image_matches("nginx:latest", "nginx"));
    assert!(image_matches("nginx", "nginx"));
    assert!(!image_matches("nginx", "nginx:1.25"));
    assert!(!image_matches("redis", "nginx"));

    let containers = vec![container("web", "nginx", "running")];
    let images = vec![image("a", vec!["nginx:latest"]), image("b", vec!["redis:7"])];
    let marked = mark_images_in_use(images, &containers);
    assert!(marked[0].in_use);
    assert!(!marked[1].in_use);

    let containers = vec![container("web", "nginx:latest", "running")];
    let images = vec![image("a", vec!["nginx"])];
    let marked = mark_images_in_use(images, &containers);
    assert!(marked[0].in_use);
}

#[test]
fn filtering_is_case_insensitive_and_status_aware() {
    let cs = vec![
        container("web", "nginx", "running"),
        container("db", "postgres", "exited"),
        container("cache", "redis", "running"),
    ];
    let running = filter_containers(cs.clone(), "", "running");
    assert_eq!(running.len(), 2);
    let nginx = filter_containers(cs.clone(), "NGINX", "all");
    assert_eq!(nginx.len(), 1);
    assert_eq!(nginx[0].name, "web");
    let none = filter_containers(cs.clone(), "nginx", "exited");
    assert_eq!(none.len(), 0);
    let all = filter_containers(cs, " ", "whatever");
    assert_eq!(all.len(), 3);
}

#[test]
fn images_sort_by_first_tag() {
    let images = vec![
        image("c", vec!["zeta:1"]),
        image("a", vec!["alpha:1"]),
        image("b", vec![]),
        image("d", vec!["midway:2"]),
    ];
    let sorted = sort_images(images);
    let keys: Vec<String> = sorted
        .iter()
        .map(|i| i.tags.first().cloned().unwrap_or_default())
        .collect();
    assert_eq!(keys, vec!["", "alpha:1", "midway:2", "zeta:1"]);
}

#[test]
fn byte_formatting_uses_binary_units() {
    assert_eq!(format_bytes(512).as_str(), "512 B");
    assert_eq!(format_bytes(1536).as_str(), "1.50 KB");
    assert_eq!(format_bytes(2 * 1024 * 1024).as_str(), "2.00 MB");
    assert_eq!(format_bytes(2_147_483_648).as_str(), "2.00 GB");
    assert_eq!(format_bytes_rate(100).as_str(), "100 B/s");
    assert_eq!(format_bytes_rate(1536).as_str(), "1.5 KB/s");
    assert_eq!(format_bytes_rate(3 * 1024 * 1024).as_str(), "3.0 MB/s");
}

#[test]
fn memory_lines_pick_units_per_side() {
    // 50.0 % of 512 MB used.
    let s = memory_str(256 * 1024 * 1024, 512 * 1024 * 1024);
    assert_eq!(s.as_str(), "50.0% (256 MB / 512 MB)");
    // 1.5 GB of 2 GB: both sides in GB.
    let s = memory_str(1_610_612_736, 2_147_483_648);
    assert_eq!(s.as_str(), "75.0% (1.5 GB / 2.0 GB)");
    // Usage below a GiB against a GiB-scale limit.
    let s = memory_str(512 * 1024 * 1024, 2_147_483_648);
    assert_eq!(s.as_str(), "25.0% (512 MB / 2.0 GB)");
    let d = format_memory_display(40_000, 512 * 1024 * 1024, 1024 * 1024 * 1024);
    assert_eq!(d.as_str(), "40.00% (512.00 MB | 1.00 GB)");
}

#[test]
fn docker_error_output_is_classified() {
    let m = classify_remove_image_error(
        "Error: conflict: unable to remove repository reference - image is being used by running container abc",
    );
    assert!(m.starts_with("IN_USE:"));
    let m = classify_remove_image_error("no such image");
    assert!(m.starts_with("OTHER_ERROR:"));

    let m = classify_remove_network_error("network web has active endpoints");
    assert!(m.starts_with("IN_USE:"));
    let m = classify_remove_network_error("No such network: web");
    assert_eq!(m.as_str(), "OTHER_ERROR:Network nao encontrada.");
    let m = classify_remove_network_error("boom");
    assert_eq!(m.as_str(), "OTHER_ERROR:Nao foi possivel remover a network: boom");

    let m = classify_remove_volume_error("volume is in use - [abc]");
    assert!(m.starts_with("IN_USE:"));
    let m = classify_remove_volume_error("no such volume");
    assert_eq!(m.as_str(), "OTHER_ERROR:Volume nao encontrado.");
}

#[test]
fn docker_status_classification() {
    assert_eq!(classify_docker_status(false, false, "", ""), DockerStatus::NotInstalled);
    assert_eq!(classify_docker_status(true, true, "", ""), DockerStatus::Running);
    assert_eq!(
        classify_docker_status(true, false, "Got permission denied while trying to connect", ""),
        DockerStatus::PermissionDenied
    );
    assert_eq!(
        classify_docker_status(true, false, "Cannot connect to the Docker daemon", ""),
        DockerStatus::NotRunning
    );
    assert_eq!(classify_docker_status(true, false, "mystery", ""), DockerStatus::PermissionDenied);
}

#[test]
fn existence_checks_match_names_and_tags() {
    let cs = vec![container("web", "nginx", "running")];
    assert!(container_name_exists(&cs, "web"));
    assert!(!container_name_exists(&cs, "webb"));
    let imgs = vec![image("a", vec!["nginx:1.25", "nginx:latest"])];
    assert!(image_exists(&imgs, "nginx"));
    assert!(image_exists(&imgs, "nginx:latest"));
    assert!(!image_exists(&imgs, "ngin"));
}

#[test]
fn run_command_reflects_the_request() {
    let req = CreateContainerRequest {
        name: "web".to_string(),
        image: "nginx:latest".to_string(),
        ports: vec![PortMapping { host_port: 8080, container_port: 80, protocol: "tcp".to_string() }],
        volumes: vec![VolumeMapping {
            host_path: "/data".to_string(),
            container_path: "/var/lib/data".to_string(),
            read_only: true,
        }],
        environment: vec![EnvVar { key: "MODE".to_string(), value: "prod".to_string() }],
        command: Some("nginx -g daemon off;".to_string()),
        restart_policy: "on-failure".to_string(),
    };
    let cmd = build_run_command(&req);
    assert_eq!(
        cmd.as_str(),
        "run -d --name web -p 8080:80/tcp -v /data:/var/lib/data:ro -e MODE=prod --restart on-failure:3 nginx:latest nginx -g daemon off;"
    );
}

#[test]
fn switching_to_a_registered_remote_server() {
    let mut m = DockerManager::new();
    assert!(!m.is_remote());
    assert!(m.switch_to_server("nope").is_err());
    assert_eq!(m.get_current_server_id(), "local");
    m.switch_to_server("local").unwrap();
    assert_eq!(m.get_current_server_name(), "Local");
}

#[test]
fn container_listing_lines_parse_with_defaults() {
    let out = "\n{\"Id\":\"abc\",\"Names\":\"/web\",\"Image\":\"nginx\",\"State\":\"running\",\"Status\":\"Up\",\"Ports\":\"8080->80/tcp\",\"Created\":5,\"RunningFor\":\"2 days\"}\nnot json\n{\"Id\":\"def\"}";
    let cs = parse_containers_from_json(out);
    assert_eq!(cs.len(), 2);
    assert_eq!(cs[0].id, "abc");
    assert_eq!(cs[0].name, "web");
    assert_eq!(cs[0].image, "nginx");
    assert_eq!(cs[0].created, 5);
    assert_eq!(cs[0].running_for, "2 days");
    assert_eq!(cs[1].id, "def");
    assert_eq!(cs[1].name, "");
    assert_eq!(cs[1].created, 0);
}

#[test]
fn image_listing_lines_parse_sizes_and_dates() {
    let out = "{\"ID\":\"i1\",\"Repository\":\"nginx\",\"Tag\":\"latest\",\"CreatedAt\":\"2024-01-02 03:04:05 +0000\",\"VirtualSize\":\"137.5MB\"}\n{\"ID\":\"i2\"}";
    let imgs = parse_images_from_json(out);
    assert_eq!(imgs.len(), 2);
    assert_eq!(imgs[0].tags[0], "nginx:latest");
    assert_eq!(imgs[0].size, 144_179_200);
    assert_eq!(imgs[0].created, 1_704_164_645);
    assert_eq!(imgs[1].tags[0], "<none>:<none>");
    assert_eq!(imgs[1].size, 0);
    assert_eq!(imgs[1].created, 0);
}

#[test]
fn docker_info_parses_or_fails_whole() {
    let out = "{\"ServerVersion\":\"24.0.0\",\"Architecture\":\"x86_64\",\"Containers\":3,\"ContainersRunning\":1,\"ContainersPaused\":0,\"ContainersStopped\":2,\"Images\":9}";
    let info = parse_docker_info(out).unwrap();
    assert_eq!(info.version, "24.0.0");
    assert_eq!(info.containers, 3);
    assert_eq!(info.containers_running, 1);
    assert_eq!(info.containers_stopped, 2);
    assert_eq!(info.images, 9);
    assert!(parse_docker_info("nope").is_none());
}

#[test]
fn single_container_stats_formats_figures() {
    let mut m = DockerManager::new();
    let reading = StatsReading {
        cpu_total: 150,
        system_total: 1000,
        precpu_total: 100,
        presystem_total: 900,
        online_cpus: Some(2),
        percpu: Vec::new(),
        memory_usage: 256 * 1024 * 1024,
        memory_limit: 512 * 1024 * 1024,
        network_rx: 1536,
        network_tx: 100,
        block_read: 0,
        block_write: 0,
    };
    let (cpu, mem, rx, tx) = m.get_single_container_stats("web", &reading, 1);
    assert_eq!(cpu.percent_milli, 100_000); // (50/100) * 2 cpus * 100 %
    assert_eq!(mem.as_str(), "50.0% (256 MB / 512 MB)");
    assert_eq!(rx.as_str(), "1.5 KB/s");
    assert_eq!(tx.as_str(), "100 B/s");
}
