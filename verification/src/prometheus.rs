//! The Prometheus text exposition served at `/metrics`.

use vstd::prelude::*;
use vstd::string::*;

use crate::decimal::{decimal, decimal_string, digits_value, lemma_decimal_reads_back};
use crate::network::InterfaceTraffic;
use crate::sensors::{lemma_occurs_in_parts, occurs_in};

verus! {

/// The label that names the host when the system reports no host name.
pub open spec fn fallback_host() -> Seq<char> {
    "vps"@
}

/// The version that the build-info metric reports.
pub open spec fn exporter_version() -> Seq<char> {
    "0.1.0"@
}

/// Free space of one mounted file system.
pub struct DiskFree {
    /// The mount point, as the system displays it.
    pub mount: String,
    /// Bytes available to unprivileged users.
    pub free_bytes: u64,
}

/// Everything one scrape reports.
pub struct ExporterSample {
    /// The `host` label of every series.
    pub host: String,
    /// The global CPU load in percent, as the `f32` reading displays itself.
    pub cpu_usage: String,
    pub mem_used: u64,
    pub mem_total: u64,
    pub processes: u64,
    pub disks: Vec<DiskFree>,
    pub interfaces: Vec<InterfaceTraffic>,
    pub uptime_secs: u64,
}

/// The `# HELP` and `# TYPE` lines of a metric.
pub open spec fn header(metric: Seq<char>, help: Seq<char>, kind: Seq<char>) -> Seq<char> {
    "# HELP "@ + metric + " "@ + help + "\n"@ + "# TYPE "@ + metric + " "@ + kind + "\n"@
}

/// A sample line labelled by host alone.
pub open spec fn host_line(metric: Seq<char>, host: Seq<char>, value: Seq<char>) -> Seq<char> {
    metric + "{host=\""@ + host + "\"} "@ + value + "\n"@
}

/// A sample line labelled by host and one more label.
pub open spec fn labelled_line(
    metric: Seq<char>,
    host: Seq<char>,
    label: Seq<char>,
    label_value: Seq<char>,
    value: Seq<char>,
) -> Seq<char> {
    metric + "{host=\""@ + host + "\","@ + label + "=\""@ + label_value + "\"} "@ + value + "\n"@
}

/// One free-space line per disk, in the order given.
pub open spec fn disk_lines(host: Seq<char>, disks: Seq<DiskFree>) -> Seq<char>
    decreases disks.len(),
{
    if disks.len() == 0 {
        Seq::empty()
    } else {
        disk_lines(host, disks.drop_last()) + labelled_line(
            "sys_disk_free_bytes"@,
            host,
            "mount"@,
            disks.last().mount@,
            decimal(disks.last().free_bytes as nat),
        )
    }
}

/// A received and a transmitted line per interface, in the order given.
pub open spec fn interface_lines(host: Seq<char>, interfaces: Seq<InterfaceTraffic>) -> Seq<char>
    decreases interfaces.len(),
{
    if interfaces.len() == 0 {
        Seq::empty()
    } else {
        let last = interfaces.last();
        interface_lines(host, interfaces.drop_last()) + labelled_line(
            "sys_network_rx_bytes_total"@,
            host,
            "interface"@,
            last.name@,
            decimal(last.rx_bytes as nat),
        ) + labelled_line(
            "sys_network_tx_bytes_total"@,
            host,
            "interface"@,
            last.name@,
            decimal(last.tx_bytes as nat),
        )
    }
}

/// The whole exposition of a scrape.
pub open spec fn exposition(s: ExporterSample) -> Seq<char> {
    let host = s.host@;
    header("sys_cpu_usage_percent"@, "CPU usage percentage"@, "gauge"@)
        + host_line("sys_cpu_usage_percent"@, host, s.cpu_usage@)
        + header("sys_mem_used_bytes"@, "Used memory in bytes"@, "gauge"@)
        + host_line("sys_mem_used_bytes"@, host, decimal(s.mem_used as nat))
        + header("sys_mem_total_bytes"@, "Total memory in bytes"@, "gauge"@)
        + host_line("sys_mem_total_bytes"@, host, decimal(s.mem_total as nat))
        + header("sys_processes_total"@, "Total number of processes"@, "gauge"@)
        + host_line("sys_processes_total"@, host, decimal(s.processes as nat))
        + header("sys_disk_free_bytes"@, "Free disk space in bytes"@, "gauge"@)
        + disk_lines(host, s.disks@)
        + header("sys_network_rx_bytes_total"@, "Network received bytes (counter)"@, "counter"@)
        + header("sys_network_tx_bytes_total"@, "Network transmitted bytes (counter)"@, "counter"@)
        + interface_lines(host, s.interfaces@)
        + header("sys_uptime_seconds"@, "System uptime in seconds"@, "gauge"@)
        + host_line("sys_uptime_seconds"@, host, decimal(s.uptime_secs as nat))
        + header("sys_exporter_build_info"@, "Build information"@, "gauge"@)
        + labelled_line("sys_exporter_build_info"@, host, "version"@, exporter_version(), "1"@)
}

/// The text before the value on a sample line labelled by host alone.
pub open spec fn host_line_start(metric: Seq<char>, host: Seq<char>) -> Seq<char> {
    metric + "{host=\""@ + host + "\"} "@
}

/// The text before the value on a sample line labelled by host and one more label.
pub open spec fn labelled_line_start(
    metric: Seq<char>,
    host: Seq<char>,
    label: Seq<char>,
    label_value: Seq<char>,
) -> Seq<char> {
    metric + "{host=\""@ + host + "\","@ + label + "=\""@ + label_value + "\"} "@
}

/// `text` holds a line made of `start`, then a run of decimal digits that
/// reads as `value`, then a line break.
pub open spec fn shows_number(text: Seq<char>, start: Seq<char>, value: nat) -> bool {
    exists|digits: Seq<char>|
        #![trigger occurs_in(text, start + digits + "\n"@)]
        occurs_in(text, start + digits + "\n"@) && digits.len() >= 1 && (forall|i: int|
            0 <= i < digits.len() ==> '0' <= #[trigger] digits[i] <= '9') && digits_value(digits)
            == value
}

/// The concatenation of texts, in order.
pub open spec fn joined(parts: Seq<Seq<char>>) -> Seq<char>
    decreases parts.len(),
{
    if parts.len() == 0 {
        Seq::empty()
    } else {
        joined(parts.drop_last()) + parts.last()
    }
}

proof fn lemma_joined_push(parts: Seq<Seq<char>>, next: Seq<char>)
    ensures
        joined(parts.push(next)) == joined(parts) + next,
{
    assert(parts.push(next).drop_last() =~= parts);
}

proof fn lemma_joined_holds_parts(parts: Seq<Seq<char>>, k: int)
    requires
        0 <= k < parts.len(),
    ensures
        occurs_in(joined(parts), parts[k]),
    decreases parts.len(),
{
    let init = parts.drop_last();
    lemma_occurs_in_parts(joined(init), parts.last(), parts[k]);
    if k < parts.len() - 1 {
        lemma_joined_holds_parts(init, k);
        assert(init[k] == parts[k]);
    }
}

proof fn lemma_shows_decimal(text: Seq<char>, start: Seq<char>, value: nat)
    requires
        occurs_in(text, start + decimal(value) + "\n"@),
    ensures
        shows_number(text, start, value),
{
    lemma_decimal_reads_back(value);
    let digits = decimal(value);
    assert(occurs_in(text, start + digits + "\n"@));
}

proof fn lemma_disk_lines_hold_every_disk(host: Seq<char>, disks: Seq<DiskFree>, k: int)
    requires
        0 <= k < disks.len(),
    ensures
        occurs_in(
            disk_lines(host, disks),
            labelled_line_start("sys_disk_free_bytes"@, host, "mount"@, disks[k].mount@) + decimal(
                disks[k].free_bytes as nat,
            ) + "\n"@,
        ),
    decreases disks.len(),
{
    let line = labelled_line_start("sys_disk_free_bytes"@, host, "mount"@, disks[k].mount@) + decimal(
        disks[k].free_bytes as nat,
    ) + "\n"@;
    let init = disks.drop_last();
    let last_line = labelled_line(
        "sys_disk_free_bytes"@,
        host,
        "mount"@,
        disks.last().mount@,
        decimal(disks.last().free_bytes as nat),
    );
    lemma_occurs_in_parts(disk_lines(host, init), last_line, line);
    if k == disks.len() - 1 {
        assert(last_line =~= line);
    } else {
        lemma_disk_lines_hold_every_disk(host, init, k);
        assert(init[k] == disks[k]);
    }
}

proof fn lemma_interface_lines_hold_every_interface(
    host: Seq<char>,
    interfaces: Seq<InterfaceTraffic>,
    k: int,
)
    requires
        0 <= k < interfaces.len(),
    ensures
        occurs_in(
            interface_lines(host, interfaces),
            labelled_line_start(
                "sys_network_rx_bytes_total"@,
                host,
                "interface"@,
                interfaces[k].name@,
            ) + decimal(interfaces[k].rx_bytes as nat) + "\n"@,
        ),
        occurs_in(
            interface_lines(host, interfaces),
            labelled_line_start(
                "sys_network_tx_bytes_total"@,
                host,
                "interface"@,
                interfaces[k].name@,
            ) + decimal(interfaces[k].tx_bytes as nat) + "\n"@,
        ),
    decreases interfaces.len(),
{
    let x = interfaces[k];
    let rx_line = labelled_line_start("sys_network_rx_bytes_total"@, host, "interface"@, x.name@)
        + decimal(x.rx_bytes as nat) + "\n"@;
    let tx_line = labelled_line_start("sys_network_tx_bytes_total"@, host, "interface"@, x.name@)
        + decimal(x.tx_bytes as nat) + "\n"@;
    let init = interfaces.drop_last();
    let last = interfaces.last();
    let last_rx = labelled_line(
        "sys_network_rx_bytes_total"@,
        host,
        "interface"@,
        last.name@,
        decimal(last.rx_bytes as nat),
    );
    let last_tx = labelled_line(
        "sys_network_tx_bytes_total"@,
        host,
        "interface"@,
        last.name@,
        decimal(last.tx_bytes as nat),
    );
    let before = interface_lines(host, init);
    lemma_occurs_in_parts(before, last_rx, rx_line);
    lemma_occurs_in_parts(before + last_rx, last_tx, rx_line);
    lemma_occurs_in_parts(before, last_rx, tx_line);
    lemma_occurs_in_parts(before + last_rx, last_tx, tx_line);
    if k == interfaces.len() - 1 {
        assert(last_rx =~= rx_line);
        assert(last_tx =~= tx_line);
    } else {
        lemma_interface_lines_hold_every_interface(host, init, k);
        assert(init[k] == interfaces[k]);
    }
}

/// Every reading of a scrape appears in its exposition in full: the CPU line
/// carries the CPU reading as given, and each numeric sample line (memory
/// used and total, process count, uptime, the free space of every disk and
/// the received and transmitted bytes of every interface) ends in decimal
/// digits that read back as the full 64-bit value of that reading.
pub proof fn lemma_exposition_shows_every_reading(s: ExporterSample)
    ensures
        occurs_in(exposition(s), host_line("sys_cpu_usage_percent"@, s.host@, s.cpu_usage@)),
        shows_number(
            exposition(s),
            host_line_start("sys_mem_used_bytes"@, s.host@),
            s.mem_used as nat,
        ),
        shows_number(
            exposition(s),
            host_line_start("sys_mem_total_bytes"@, s.host@),
            s.mem_total as nat,
        ),
        shows_number(
            exposition(s),
            host_line_start("sys_processes_total"@, s.host@),
            s.processes as nat,
        ),
        shows_number(
            exposition(s),
            host_line_start("sys_uptime_seconds"@, s.host@),
            s.uptime_secs as nat,
        ),
        forall|k: int|
            0 <= k < s.disks@.len() ==> shows_number(
                exposition(s),
                labelled_line_start(
                    "sys_disk_free_bytes"@,
                    s.host@,
                    "mount"@,
                    (#[trigger] s.disks@[k]).mount@,
                ),
                s.disks@[k].free_bytes as nat,
            ),
        forall|k: int|
            0 <= k < s.interfaces@.len() ==> shows_number(
                exposition(s),
                labelled_line_start(
                    "sys_network_rx_bytes_total"@,
                    s.host@,
                    "interface"@,
                    (#[trigger] s.interfaces@[k]).name@,
                ),
                s.interfaces@[k].rx_bytes as nat,
            ),
        forall|k: int|
            0 <= k < s.interfaces@.len() ==> shows_number(
                exposition(s),
                labelled_line_start(
                    "sys_network_tx_bytes_total"@,
                    s.host@,
                    "interface"@,
                    (#[trigger] s.interfaces@[k]).name@,
                ),
                s.interfaces@[k].tx_bytes as nat,
            ),
{
    let host = s.host@;
    let text = exposition(s);
    let parts = {
            let p0 = Seq::<Seq<char>>::empty();
            let p1 = p0.push(header("sys_cpu_usage_percent"@, "CPU usage percentage"@, "gauge"@));
            lemma_joined_push(p0, header("sys_cpu_usage_percent"@, "CPU usage percentage"@, "gauge"@));
            let p2 = p1.push(host_line("sys_cpu_usage_percent"@, host, s.cpu_usage@));
            lemma_joined_push(p1, host_line("sys_cpu_usage_percent"@, host, s.cpu_usage@));
            let p3 = p2.push(header("sys_mem_used_bytes"@, "Used memory in bytes"@, "gauge"@));
            lemma_joined_push(p2, header("sys_mem_used_bytes"@, "Used memory in bytes"@, "gauge"@));
            let p4 = p3.push(host_line("sys_mem_used_bytes"@, host, decimal(s.mem_used as nat)));
            lemma_joined_push(p3, host_line("sys_mem_used_bytes"@, host, decimal(s.mem_used as nat)));
            let p5 = p4.push(header("sys_mem_total_bytes"@, "Total memory in bytes"@, "gauge"@));
            lemma_joined_push(p4, header("sys_mem_total_bytes"@, "Total memory in bytes"@, "gauge"@));
            let p6 = p5.push(host_line("sys_mem_total_bytes"@, host, decimal(s.mem_total as nat)));
            lemma_joined_push(p5, host_line("sys_mem_total_bytes"@, host, decimal(s.mem_total as nat)));
            let p7 = p6.push(header("sys_processes_total"@, "Total number of processes"@, "gauge"@));
            lemma_joined_push(p6, header("sys_processes_total"@, "Total number of processes"@, "gauge"@));
            let p8 = p7.push(host_line("sys_processes_total"@, host, decimal(s.processes as nat)));
            lemma_joined_push(p7, host_line("sys_processes_total"@, host, decimal(s.processes as nat)));
            let p9 = p8.push(header("sys_disk_free_bytes"@, "Free disk space in bytes"@, "gauge"@));
            lemma_joined_push(p8, header("sys_disk_free_bytes"@, "Free disk space in bytes"@, "gauge"@));
            let p10 = p9.push(disk_lines(host, s.disks@));
            lemma_joined_push(p9, disk_lines(host, s.disks@));
            let p11 = p10.push(header("sys_network_rx_bytes_total"@, "Network received bytes (counter)"@, "counter"@));
            lemma_joined_push(p10, header("sys_network_rx_bytes_total"@, "Network received bytes (counter)"@, "counter"@));
            let p12 = p11.push(header("sys_network_tx_bytes_total"@, "Network transmitted bytes (counter)"@, "counter"@));
            lemma_joined_push(p11, header("sys_network_tx_bytes_total"@, "Network transmitted bytes (counter)"@, "counter"@));
            let p13 = p12.push(interface_lines(host, s.interfaces@));
            lemma_joined_push(p12, interface_lines(host, s.interfaces@));
            let p14 = p13.push(header("sys_uptime_seconds"@, "System uptime in seconds"@, "gauge"@));
            lemma_joined_push(p13, header("sys_uptime_seconds"@, "System uptime in seconds"@, "gauge"@));
            let p15 = p14.push(host_line("sys_uptime_seconds"@, host, decimal(s.uptime_secs as nat)));
            lemma_joined_push(p14, host_line("sys_uptime_seconds"@, host, decimal(s.uptime_secs as nat)));
            let p16 = p15.push(header("sys_exporter_build_info"@, "Build information"@, "gauge"@));
            lemma_joined_push(p15, header("sys_exporter_build_info"@, "Build information"@, "gauge"@));
            let p17 = p16.push(labelled_line("sys_exporter_build_info"@, host, "version"@, exporter_version(), "1"@));
            lemma_joined_push(p16, labelled_line("sys_exporter_build_info"@, host, "version"@, exporter_version(), "1"@));
            p17
        };
    assert(joined(parts) == text);
    assert forall|m: int| 0 <= m < 17 implies occurs_in(text, #[trigger] parts[m]) by {
        lemma_joined_holds_parts(parts, m);
    }
    assert(occurs_in(text, parts[1]));
    let numbers: Seq<(Seq<char>, u64, int)> = seq![
        ("sys_mem_used_bytes"@, s.mem_used, 3int),
        ("sys_mem_total_bytes"@, s.mem_total, 5int),
        ("sys_processes_total"@, s.processes, 7int),
        ("sys_uptime_seconds"@, s.uptime_secs, 14int),
    ];
    assert forall|m: int| 0 <= m < 4 implies shows_number(
        text,
        host_line_start((#[trigger] numbers[m]).0, host),
        numbers[m].1 as nat,
    ) by {
        let (metric, value, at) = numbers[m];
        assert(occurs_in(text, parts[at]));
        assert(parts[at] =~= host_line_start(metric, host) + decimal(value as nat) + "\n"@);
        lemma_shows_decimal(text, host_line_start(metric, host), value as nat);
    }
    assert(numbers[0].0 == "sys_mem_used_bytes"@);
    assert(numbers[1].0 == "sys_mem_total_bytes"@);
    assert(numbers[2].0 == "sys_processes_total"@);
    assert(numbers[3].0 == "sys_uptime_seconds"@);
    assert forall|k: int| 0 <= k < s.disks@.len() implies shows_number(
        text,
        labelled_line_start("sys_disk_free_bytes"@, host, "mount"@, (#[trigger] s.disks@[k]).mount@),
        s.disks@[k].free_bytes as nat,
    ) by {
        let line = labelled_line_start("sys_disk_free_bytes"@, host, "mount"@, s.disks@[k].mount@)
            + decimal(s.disks@[k].free_bytes as nat) + "\n"@;
        lemma_disk_lines_hold_every_disk(host, s.disks@, k);
        assert(occurs_in(text, parts[9]));
        crate::sensors::lemma_occurs_in_transitive(text, parts[9], line);
        lemma_shows_decimal(
            text,
            labelled_line_start("sys_disk_free_bytes"@, host, "mount"@, s.disks@[k].mount@),
            s.disks@[k].free_bytes as nat,
        );
    }
    assert forall|k: int| 0 <= k < s.interfaces@.len() implies shows_number(
        text,
        labelled_line_start(
            "sys_network_rx_bytes_total"@,
            host,
            "interface"@,
            (#[trigger] s.interfaces@[k]).name@,
        ),
        s.interfaces@[k].rx_bytes as nat,
    ) && shows_number(
        text,
        labelled_line_start(
            "sys_network_tx_bytes_total"@,
            host,
            "interface"@,
            s.interfaces@[k].name@,
        ),
        s.interfaces@[k].tx_bytes as nat,
    ) by {
        let x = s.interfaces@[k];
        let rx_start = labelled_line_start("sys_network_rx_bytes_total"@, host, "interface"@, x.name@);
        let tx_start = labelled_line_start("sys_network_tx_bytes_total"@, host, "interface"@, x.name@);
        lemma_interface_lines_hold_every_interface(host, s.interfaces@, k);
        assert(occurs_in(text, parts[12]));
        crate::sensors::lemma_occurs_in_transitive(text, parts[12], rx_start + decimal(x.rx_bytes as nat) + "\n"@);
        crate::sensors::lemma_occurs_in_transitive(text, parts[12], tx_start + decimal(x.tx_bytes as nat) + "\n"@);
        lemma_shows_decimal(text, rx_start, x.rx_bytes as nat);
        lemma_shows_decimal(text, tx_start, x.tx_bytes as nat);
    }
}

/// The host label: the system's host name, or `vps` where it has none.
pub fn host_label(host_name: Option<String>) -> (label: String)
    ensures
        label@ == (match host_name {
            Some(name) => name@,
            None => fallback_host(),
        }),
{
    match host_name {
        Some(name) => name,
        None => String::from_str("vps"),
    }
}

fn push_header(out: &mut String, metric: &str, help: &str, kind: &str)
    ensures
        final(out)@ == old(out)@ + header(metric@, help@, kind@),
{
    out.append("# HELP ");
    out.append(metric);
    out.append(" ");
    out.append(help);
    out.append("\n");
    out.append("# TYPE ");
    out.append(metric);
    out.append(" ");
    out.append(kind);
    out.append("\n");
    assert(out@ =~= old(out)@ + header(metric@, help@, kind@));
}

fn push_host_line(out: &mut String, metric: &str, host: &str, value: &str)
    ensures
        final(out)@ == old(out)@ + host_line(metric@, host@, value@),
{
    out.append(metric);
    out.append("{host=\"");
    out.append(host);
    out.append("\"} ");
    out.append(value);
    out.append("\n");
    assert(out@ =~= old(out)@ + host_line(metric@, host@, value@));
}

fn push_labelled_line(
    out: &mut String,
    metric: &str,
    host: &str,
    label: &str,
    label_value: &str,
    value: &str,
)
    ensures
        final(out)@ == old(out)@ + labelled_line(metric@, host@, label@, label_value@, value@),
{
    out.append(metric);
    out.append("{host=\"");
    out.append(host);
    out.append("\",");
    out.append(label);
    out.append("=\"");
    out.append(label_value);
    out.append("\"} ");
    out.append(value);
    out.append("\n");
    assert(out@ =~= old(out)@ + labelled_line(metric@, host@, label@, label_value@, value@));
}

fn push_disk_lines(out: &mut String, host: &str, disks: &Vec<DiskFree>)
    ensures
        final(out)@ == old(out)@ + disk_lines(host@, disks@),
{
    let ghost before = out@;
    let mut i: usize = 0;
    while i < disks.len()
        invariant
            i <= disks@.len(),
            out@ == before + disk_lines(host@, disks@.take(i as int)),
        decreases disks@.len() - i,
    {
        let disk = &disks[i];
        let v = decimal_string(disk.free_bytes);
        push_labelled_line(out, "sys_disk_free_bytes", host, "mount", disk.mount.as_str(), v.as_str());
        assert(disks@.take(i + 1).drop_last() =~= disks@.take(i as int));
        i = i + 1;
    }
    assert(disks@.take(disks@.len() as int) =~= disks@);
}

fn push_interface_lines(out: &mut String, host: &str, interfaces: &Vec<InterfaceTraffic>)
    ensures
        final(out)@ == old(out)@ + interface_lines(host@, interfaces@),
{
    let ghost before = out@;
    let mut j: usize = 0;
    while j < interfaces.len()
        invariant
            j <= interfaces@.len(),
            out@ == before + interface_lines(host@, interfaces@.take(j as int)),
        decreases interfaces@.len() - j,
    {
        let iface = &interfaces[j];
        let rx = decimal_string(iface.rx_bytes);
        push_labelled_line(
            out,
            "sys_network_rx_bytes_total",
            host,
            "interface",
            iface.name.as_str(),
            rx.as_str(),
        );
        let tx = decimal_string(iface.tx_bytes);
        push_labelled_line(
            out,
            "sys_network_tx_bytes_total",
            host,
            "interface",
            iface.name.as_str(),
            tx.as_str(),
        );
        assert(interfaces@.take(j + 1).drop_last() =~= interfaces@.take(j as int));
        j = j + 1;
    }
    assert(interfaces@.take(interfaces@.len() as int) =~= interfaces@);
}

/// The Prometheus text exposition of one scrape: CPU, memory, process count,
/// free space per disk, byte counters per interface, uptime and build info.
pub fn render_exposition(s: &ExporterSample) -> (text: String)
    ensures
        text@ == exposition(*s),
{
    let host = s.host.as_str();
    let mut out = String::new();
    push_header(&mut out, "sys_cpu_usage_percent", "CPU usage percentage", "gauge");
    push_host_line(&mut out, "sys_cpu_usage_percent", host, s.cpu_usage.as_str());
    push_header(&mut out, "sys_mem_used_bytes", "Used memory in bytes", "gauge");
    let v = decimal_string(s.mem_used);
    push_host_line(&mut out, "sys_mem_used_bytes", host, v.as_str());
    push_header(&mut out, "sys_mem_total_bytes", "Total memory in bytes", "gauge");
    let v = decimal_string(s.mem_total);
    push_host_line(&mut out, "sys_mem_total_bytes", host, v.as_str());
    push_header(&mut out, "sys_processes_total", "Total number of processes", "gauge");
    let v = decimal_string(s.processes);
    push_host_line(&mut out, "sys_processes_total", host, v.as_str());
    push_header(&mut out, "sys_disk_free_bytes", "Free disk space in bytes", "gauge");
    push_disk_lines(&mut out, host, &s.disks);
    push_header(
        &mut out,
        "sys_network_rx_bytes_total",
        "Network received bytes (counter)",
        "counter",
    );
    push_header(
        &mut out,
        "sys_network_tx_bytes_total",
        "Network transmitted bytes (counter)",
        "counter",
    );
    push_interface_lines(&mut out, host, &s.interfaces);
    push_header(&mut out, "sys_uptime_seconds", "System uptime in seconds", "gauge");
    let v = decimal_string(s.uptime_secs);
    push_host_line(&mut out, "sys_uptime_seconds", host, v.as_str());
    push_header(&mut out, "sys_exporter_build_info", "Build information", "gauge");
    push_labelled_line(&mut out, "sys_exporter_build_info", host, "version", "0.1.0", "1");
    assert(out@ =~= exposition(*s));
    out
}

} // verus!
