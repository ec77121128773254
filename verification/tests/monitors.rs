use aeon::alarm::{cpu_label, cpu_sensor, CpuNotices, CpuWatch, DiskWatch, MemWatch, NetChange, NetWatch, PingOutcome};
use aeon::process::{normal_message_text, ProcessEvent, ProcessSample, ProcessWatcher};

fn sample(pid: u32, name: &str, suspicious: bool) -> ProcessSample {
    ProcessSample { pid, name: name.to_string(), suspicious, cpu_usage_bits: 1.5f32.to_bits(), mem_usage_bits: 2.0f64.to_bits() }
}

#[test]
fn process_first_scan_reports_nothing() {
    let mut w = ProcessWatcher::new(300);
    let ev = w.scan_processes(&vec![sample(1, "a", true)], 0);
    assert!(ev.is_empty());
    assert!(!w.is_first_run);
    assert!(w.tracked_processes.is_empty());
}

#[test]
fn process_reported_after_threshold() {
    let mut w = ProcessWatcher::new(300);
    w.scan_processes(&vec![], 0);
    assert!(w.scan_processes(&vec![sample(7, "hog", true)], 1_000).is_empty());
    assert_eq!(w.tracked_processes[&7].first_seen, 1_000);
    assert!(w.scan_processes(&vec![sample(7, "hog", true)], 300_999).is_empty());
    assert_eq!(w.tracked_processes[&7].run_time, 299);
    let ev = w.scan_processes(&vec![sample(7, "hog", true)], 301_000);
    assert_eq!(
        ev,
        vec![ProcessEvent::Suspicious { pid: 7, name: "hog".to_string(), cpu_usage_bits: 1.5f32.to_bits(), mem_usage_bits: 2.0f64.to_bits() }]
    );
    assert_eq!(w.tracked_processes[&7].run_time, 300);
}

#[test]
fn process_back_to_normal_and_vanished() {
    let mut w = ProcessWatcher::new(300);
    w.scan_processes(&vec![], 0);
    w.scan_processes(&vec![sample(1, "a", true), sample(2, "b", true)], 10);
    assert_eq!(w.tracked_processes.len(), 2);
    let ev = w.scan_processes(&vec![sample(1, "a", false)], 20);
    assert_eq!(ev, vec![ProcessEvent::Normal { pid: 1, name: "a".to_string() }]);
    assert!(w.tracked_processes.is_empty());
    let ev = w.scan_processes(&vec![sample(3, "c", false)], 30);
    assert!(ev.is_empty());
}

#[test]
fn process_clock_going_back_counts_zero() {
    let mut w = ProcessWatcher::new(0);
    w.scan_processes(&vec![], 0);
    w.scan_processes(&vec![sample(4, "d", true)], 5_000);
    let ev = w.scan_processes(&vec![sample(4, "d", true)], 1_000);
    assert_eq!(ev.len(), 1);
    assert_eq!(w.tracked_processes[&4].run_time, 0);
}

#[test]
fn normal_message_text_format() {
    assert_eq!(normal_message_text("bash", 42), " bash PID 42 is now normal");
}

#[test]
fn cpu_full_load_notifies_once() {
    let mut w = CpuWatch::new();
    assert_eq!(w.moncpu(true, true, 0), CpuNotices { full_load: false, sustained_high: false });
    assert_eq!(w.moncpu(true, true, 2_999).full_load, false);
    assert_eq!(w.moncpu(true, true, 3_000).full_load, true);
    assert_eq!(w.moncpu(true, true, 9_000).full_load, false);
    assert_eq!(w.moncpu(false, false, 20_000).full_load, false);
    assert_eq!(w.moncpu(true, false, 30_000).full_load, false);
    assert!(w.cpu_100_notif);
    assert_eq!(w.cpu_100_start, Some(0));
}

#[test]
fn cpu_high_load_rearms() {
    let mut w = CpuWatch::new();
    assert!(!w.moncpu(false, true, 0).sustained_high);
    assert!(!w.moncpu(false, true, 9_999).sustained_high);
    assert!(w.moncpu(false, true, 10_000).sustained_high);
    assert!(!w.moncpu(false, true, 50_000).sustained_high);
    assert!(!w.moncpu(false, false, 51_000).sustained_high);
    assert!(!w.cpu_warning_active);
    assert_eq!(w.cpu_warning_start, None);
    assert!(!w.moncpu(false, true, 60_000).sustained_high);
    assert!(w.moncpu(false, true, 70_000).sustained_high);
}

#[test]
fn memory_alarm_edges() {
    let mut m = MemWatch::new();
    assert!(m.check_mem(true));
    assert!(!m.check_mem(true));
    assert!(!m.check_mem(false));
    assert!(m.check_mem(true));
}

#[test]
fn network_changes() {
    let mut n = NetWatch::new(false);
    assert_eq!(n.check_net(PingOutcome::NoReply), None);
    assert_eq!(n.check_net(PingOutcome::Replied), Some(NetChange::Up));
    assert_eq!(n.check_net(PingOutcome::Replied), None);
    assert_eq!(n.check_net(PingOutcome::Failed), Some(NetChange::Lost));
    assert_eq!(n.check_net(PingOutcome::Replied), Some(NetChange::Up));
    assert_eq!(n.check_net(PingOutcome::NoReply), Some(NetChange::Down));
    assert!(!n.is_up);
}

#[test]
fn disk_notices_sent_once() {
    let mut d = DiskWatch::new();
    assert!(d.check_disk(&vec![]).is_empty());
    assert!(!d.disk_warning_active);
    let first = d.check_disk(&vec!["sda".to_string(), "sdb".to_string(), "sda".to_string()]);
    assert_eq!(first, vec!["disk:sda,is filling please check".to_string(), "disk:sdb,is filling please check".to_string()]);
    assert!(d.disk_warning_active);
    assert!(d.check_disk(&vec!["sdc".to_string()]).is_empty());
    assert_eq!(d.disks_fill.len(), 3);
    assert!(d.check_disk(&vec![]).is_empty());
}

#[test]
fn cpu_sensor_choice() {
    assert!(cpu_label("CPU Package"));
    assert!(cpu_label("Core 0"));
    assert!(!cpu_label("nvme Composite"));
    let labels = vec!["acpitz".to_string(), "nvme".to_string(), "coretemp Core 1".to_string(), "cpu".to_string()];
    assert_eq!(cpu_sensor(&labels), Some(2));
    assert_eq!(cpu_sensor(&vec!["gpu".to_string()]), None);
}
