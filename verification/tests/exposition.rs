use system_estv::decimal::decimal_string;
use system_estv::network::InterfaceTraffic;
use system_estv::prometheus::{host_label, render_exposition, DiskFree, ExporterSample};

#[test]
fn decimal_notation_of_integers() {
    assert_eq!(decimal_string(0), "0");
    assert_eq!(decimal_string(7), "7");
    assert_eq!(decimal_string(10), "10");
    assert_eq!(decimal_string(1234567890), "1234567890");
    assert_eq!(decimal_string(u64::MAX), u64::MAX.to_string());
}

#[test]
fn host_label_falls_back_to_vps() {
    assert_eq!(host_label(None), "vps");
    assert_eq!(host_label(Some("box-1".to_string())), "box-1");
}

#[test]
fn exposition_lists_every_metric() {
    let sample = ExporterSample {
        host: "box".to_string(),
        cpu_usage: format!("{}", 23.5f32),
        mem_used: 1288490188,
        mem_total: 4080218931,
        processes: 89,
        disks: vec![
            DiskFree { mount: "/".to_string(), free_bytes: 107374182400 },
            DiskFree { mount: "/boot".to_string(), free_bytes: 0 },
        ],
        interfaces: vec![
            InterfaceTraffic { name: "eth0".to_string(), rx_bytes: 1500, tx_bytes: 230 },
            InterfaceTraffic { name: "lo".to_string(), rx_bytes: 0, tx_bytes: 0 },
        ],
        uptime_secs: 86400,
    };
    let expected = "# HELP sys_cpu_usage_percent CPU usage percentage\n\
# TYPE sys_cpu_usage_percent gauge\n\
sys_cpu_usage_percent{host=\"box\"} 23.5\n\
# HELP sys_mem_used_bytes Used memory in bytes\n\
# TYPE sys_mem_used_bytes gauge\n\
sys_mem_used_bytes{host=\"box\"} 1288490188\n\
# HELP sys_mem_total_bytes Total memory in bytes\n\
# TYPE sys_mem_total_bytes gauge\n\
sys_mem_total_bytes{host=\"box\"} 4080218931\n\
# HELP sys_processes_total Total number of processes\n\
# TYPE sys_processes_total gauge\n\
sys_processes_total{host=\"box\"} 89\n\
# HELP sys_disk_free_bytes Free disk space in bytes\n\
# TYPE sys_disk_free_bytes gauge\n\
sys_disk_free_bytes{host=\"box\",mount=\"/\"} 107374182400\n\
sys_disk_free_bytes{host=\"box\",mount=\"/boot\"} 0\n\
# HELP sys_network_rx_bytes_total Network received bytes (counter)\n\
# TYPE sys_network_rx_bytes_total counter\n\
# HELP sys_network_tx_bytes_total Network transmitted bytes (counter)\n\
# TYPE sys_network_tx_bytes_total counter\n\
sys_network_rx_bytes_total{host=\"box\",interface=\"eth0\"} 1500\n\
sys_network_tx_bytes_total{host=\"box\",interface=\"eth0\"} 230\n\
sys_network_rx_bytes_total{host=\"box\",interface=\"lo\"} 0\n\
sys_network_tx_bytes_total{host=\"box\",interface=\"lo\"} 0\n\
# HELP sys_uptime_seconds System uptime in seconds\n\
# TYPE sys_uptime_seconds gauge\n\
sys_uptime_seconds{host=\"box\"} 86400\n\
# HELP sys_exporter_build_info Build information\n\
# TYPE sys_exporter_build_info gauge\n\
sys_exporter_build_info{host=\"box\",version=\"0.1.0\"} 1\n";
    assert_eq!(render_exposition(&sample), expected);
}

#[test]
fn exposition_without_disks_or_interfaces_keeps_the_headers() {
    let sample = ExporterSample {
        host: "vps".to_string(),
        cpu_usage: "0".to_string(),
        mem_used: 0,
        mem_total: 0,
        processes: 0,
        disks: vec![],
        interfaces: vec![],
        uptime_secs: 0,
    };
    let text = render_exposition(&sample);
    assert!(text.contains(
        "# TYPE sys_disk_free_bytes gauge\n# HELP sys_network_rx_bytes_total"
    ));
    assert!(text.contains(
        "# TYPE sys_network_tx_bytes_total counter\n# HELP sys_uptime_seconds"
    ));
    assert_eq!(text.lines().count(), 24);
    assert!(text.ends_with("sys_exporter_build_info{host=\"vps\",version=\"0.1.0\"} 1\n"));
}

#[test]
fn decimal_notation_reads_back() {
    for n in [0u64, 1, 9, 10, 99, 100, 65535, 4294967296, 18446744073709551615] {
        let text = decimal_string(n);
        assert_eq!(text.parse::<u64>().unwrap(), n);
        assert!(text.len() == 1 || !text.starts_with('0'));
    }
}
