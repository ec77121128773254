use aeon::backup::{should_exclude, BackupConfig, CompressionType, EntryAction};
use aeon::cli::{Compression, Config};
use aeon::protocol::{frame, guardian_queries, is_healthy, line_message, unknown_command_message, Request};
use aeon::scan::{loopback_address_text, port_candidates, scan_targets, socket_address_text, status_url_text, tcp_entry, udp_entry, END_PORTS, START_PORTS};
use aeon::system::{vendor_from_lowercase, GpuVendor, StaticSystemInfo};

#[test]
fn requests_parse_after_trimming() {
    assert_eq!(Request::parse("PING\n"), Request::Ping);
    assert_eq!(Request::parse("  STATUS "), Request::Status);
    assert_eq!(Request::parse("CPUINFO"), Request::CpuInfo);
    assert_eq!(Request::parse("GPUINFO\r\n"), Request::GpuInfo);
    assert_eq!(Request::parse("DISKINFO"), Request::DiskInfo);
    assert_eq!(Request::parse("ping"), Request::Unknown);
    assert_eq!(Request::named(" PING"), Request::Unknown);
}

#[test]
fn request_words_round_trip() {
    for r in [Request::Ping, Request::Status, Request::CpuInfo, Request::GpuInfo, Request::DiskInfo] {
        let w = r.word().unwrap();
        assert_eq!(Request::parse(&line_message(&frame(&w))), r);
    }
    assert_eq!(Request::Unknown.word(), None);
}

#[test]
fn fixed_replies_and_health() {
    assert_eq!(Request::Ping.fixed_reply(), Some("PONG".to_string()));
    assert_eq!(Request::Unknown.fixed_reply(), Some("UNKNOWN".to_string()));
    assert_eq!(Request::Status.fixed_reply(), None);
    let reply = frame(&Request::Ping.fixed_reply().unwrap());
    assert_eq!(reply, "PONG\n");
    assert!(is_healthy(&line_message(&reply)));
    assert!(!is_healthy("PONG\n"));
    assert!(!is_healthy("UNKNOWN"));
}

#[test]
fn unknown_command_text() {
    assert_eq!(unknown_command_message("HELLO"), "Error: Unknown command 'HELLO'");
}

#[test]
fn guardian_query_order() {
    assert_eq!(guardian_queries(), vec![Request::Status, Request::DiskInfo, Request::CpuInfo, Request::GpuInfo]);
}

fn config(c: CompressionType, excl: &[&str]) -> BackupConfig {
    BackupConfig {
        source_path: "/data".to_string(),
        output_dir: "/backups".to_string(),
        compression: c,
        compression_level: 6,
        exclude_patterns: excl.iter().map(|s| s.to_string()).collect(),
    }
}

#[test]
fn exclusion_patterns() {
    let pats = vec!["target".to_string(), ".git".to_string()];
    assert!(should_exclude("/src/target/debug", &pats));
    assert!(should_exclude("/src/.git/HEAD", &pats));
    assert!(!should_exclude("/src/main.rs", &pats));
    assert!(!should_exclude("/anything", &vec![]));
}

#[test]
fn backup_names() {
    let ts = "2024-01-02_03-04-05";
    assert_eq!(config(CompressionType::Gzip, &[]).archive_name(ts), "backup_2024-01-02_03-04-05.tar");
    assert_eq!(config(CompressionType::Gzip, &[]).final_name(ts), "backup_2024-01-02_03-04-05.tar.gz");
    assert_eq!(config(CompressionType::Bzip2, &[]).final_name(ts), "backup_2024-01-02_03-04-05.tar.bz2");
    assert_eq!(config(CompressionType::Xz, &[]).final_name(ts), "backup_2024-01-02_03-04-05.tar.xz");
    assert_eq!(config(CompressionType::Plain, &[]).final_name(ts), "backup_2024-01-02_03-04-05.tar");
    assert_eq!(config(CompressionType::Plain, &[]).missing_source_message(), "Source path does not exist: /data");
}

#[test]
fn backup_entry_actions() {
    let c = config(CompressionType::Gzip, &["cache"]);
    assert_eq!(c.entry_action("/data/cache/x", true), EntryAction::Skip);
    assert_eq!(c.entry_action("/data/file", true), EntryAction::Append);
    assert_eq!(c.entry_action("/data/dir", false), EntryAction::Pass);
}

#[test]
fn cli_mappings() {
    assert_eq!(Compression::Gzip.compression_type(), CompressionType::Gzip);
    assert_eq!(Compression::Bzip2.compression_type(), CompressionType::Bzip2);
    assert_eq!(Compression::Xz.compression_type(), CompressionType::Xz);
    assert_eq!(Compression::Plain.compression_type(), CompressionType::Plain);
    assert_eq!(Config::Status.systemctl_args(), Some(vec!["status".to_string(), "AEON.service".to_string()]));
    assert_eq!(Config::Restart.systemctl_args(), Some(vec!["restart".to_string(), "AEON.service".to_string()]));
    assert_eq!(Config::Start.systemctl_args(), Some(vec!["start".to_string(), "AEON.service".to_string()]));
    assert_eq!(Config::Stop.systemctl_args(), Some(vec!["stop".to_string(), "AEON.service".to_string()]));
    assert_eq!(Config::Cputsh { value: 90 }.systemctl_args(), None);
}

#[test]
fn scan_addresses() {
    assert_eq!(socket_address_text("192.168.1.2", 8080), "192.168.1.2:8080");
    let t = scan_targets("10.0.0.1", 65534, 65535);
    assert_eq!(t, vec![(65534, "10.0.0.1:65534".to_string()), (65535, "10.0.0.1:65535".to_string())]);
    assert!(scan_targets("h", 5, 4).is_empty());
    assert_eq!(START_PORTS, 1);
    assert_eq!(END_PORTS, 65535);
    assert_eq!(status_url_text(3000), "http://127.0.0.1:3000/status");
    assert_eq!(loopback_address_text(3001), "127.0.0.1:3001");
    assert_eq!(port_candidates(3000, 2), vec![3000, 3001, 3002]);
}

#[test]
fn socket_listing_lines() {
    assert_eq!(
        tcp_entry("127.0.0.1", 22, "10.0.0.2", 5555, &vec![12, 34], "ESTABLISHED"),
        format!("TCP {}:{} -> {}:{} {:?} - {}", "127.0.0.1", 22, "10.0.0.2", 5555, vec![12u32, 34], "ESTABLISHED")
    );
    assert_eq!(udp_entry("0.0.0.0", 53, &vec![]), format!("UDP {}:{} -> *:* {:?}", "0.0.0.0", 53, Vec::<u32>::new()));
    assert_eq!(udp_entry("::", 5353, &vec![7]), "UDP :::5353 -> *:* [7]");
}

fn info(gpu: &str) -> StaticSystemInfo {
    StaticSystemInfo {
        cpu_brand: "cpu".to_string(),
        physical_cores: 4,
        total_processor: 8,
        hyperthreading_enabled: true,
        gpu: gpu.to_string(),
        gpu_brand: "brand".to_string(),
        gpu_memory_as_mb: 1024,
        gpu_temperatuer_celsius: 40,
    }
}

#[test]
fn gpu_vendor_detection() {
    assert_eq!(info("NVIDIA GeForce RTX 3060").gpu_vendor(), GpuVendor::Nvidia);
    assert_eq!(info("AMD Radeon RX 6600").gpu_vendor(), GpuVendor::Amd);
    assert_eq!(info("Radeon Vega").gpu_vendor(), GpuVendor::Amd);
    assert_eq!(info("Intel UHD").gpu_vendor(), GpuVendor::Other);
    assert_eq!(vendor_from_lowercase("NVIDIA"), GpuVendor::Other);
}
