use holefetch::desktop::{DesktopEnvironment, DesktopSettings};
use holefetch::info::{BatteryReading, PackageCounts, SystemInfo, SystemSources};
use holefetch::config::config_path;

fn s(x: &str) -> Option<String> {
    Some(x.to_string())
}

#[test]
fn os_release() {
    let c = s("NAME=\"Arch Linux\"\nPRETTY_NAME=\"Arch Linux\"\nID=arch\n");
    assert_eq!(SystemInfo::read_os(c.clone()), "Arch Linux");
    assert_eq!(SystemInfo::read_os_id(c), "arch");
    assert_eq!(SystemInfo::read_os(s("PRETTY_NAME=\"A=B\"\n")), "A");
    assert_eq!(SystemInfo::read_os(s("ID=fedora\n")), "Unknown");
    assert_eq!(SystemInfo::read_os(None), "Unknown");
    assert_eq!(SystemInfo::read_os_id(s("ID= debian \r\n")), "debian");
}

#[test]
fn kernel_user_hostname() {
    assert_eq!(SystemInfo::read_kernel(s("6.8.9-arch1-1\n")), "Linux 6.8.9-arch1-1");
    assert_eq!(SystemInfo::read_kernel(None), "Linux Unknown");
    assert_eq!(SystemInfo::read_user(s(" alice ")), "alice");
    assert_eq!(SystemInfo::read_hostname(s("box\n")), "box");
    assert_eq!(SystemInfo::read_hostname(None), "Unknown");
}

#[test]
fn uptime() {
    assert_eq!(SystemInfo::uptime_field(s("12345.67 54321.00\n")), "12345.67");
    assert_eq!(SystemInfo::uptime_field(None), "0.0");
    assert_eq!(SystemInfo::read_uptime(3725), "1 hours, 2 mins");
    assert_eq!(SystemInfo::read_uptime(59), "0 hours, 0 mins");
    assert_eq!(SystemInfo::read_uptime(90061), "25 hours, 1 mins");
}

#[test]
fn cpu() {
    let c = s("processor\t: 0\nmodel name\t: AMD Ryzen 7 5800X\nprocessor\t: 1\nmodel name\t: AMD Ryzen 7 5800X\n");
    assert_eq!(SystemInfo::read_cpu(c, "4.85"), "AMD Ryzen 7 5800X (2) @ 4.85 GHz");
    assert_eq!(SystemInfo::read_cpu(None, "0.00"), "Unknown (0) @ 0.00 GHz");
}

#[test]
fn meminfo() {
    let m = s("MemTotal:       16318156 kB\nMemFree:  100 kB\nMemAvailable:    8000000 kB\nSwapTotal: 0 kB\n");
    assert_eq!(SystemInfo::meminfo_field(m.clone(), "MemAvailable:"), "8000000");
    assert_eq!(SystemInfo::meminfo_field(m.clone(), "MemTotal:"), "16318156");
    assert_eq!(SystemInfo::meminfo_field(m, "SwapFree:"), "Unknown");
}

#[test]
fn shell_and_locale() {
    assert_eq!(SystemInfo::read_shell(s("/usr/bin/zsh")), "zsh");
    assert_eq!(SystemInfo::read_shell(s("fish")), "fish");
    assert_eq!(SystemInfo::read_shell(None), "Unknown");
    assert_eq!(SystemInfo::read_locale(s("en_GB.UTF-8")), "en_GB.UTF-8");
    assert_eq!(SystemInfo::read_locale(None), "Unknown");
}

#[test]
fn gpus() {
    let out = "00:02.0 VGA compatible controller: Intel Corporation TigerLake-LP GT2 [Iris Xe Graphics] (rev 01)\n\
               00:1f.3 Audio device: Intel Corporation Tiger Lake-LP Smart Sound\n\
               01:00.0 3D controller: NVIDIA Corporation TU117M [GeForce GTX 1650 Mobile] (rev a1)\n";
    assert_eq!(
        SystemInfo::read_gpu(out),
        "Intel TigerLake-LP GT2 [Iris Xe Graphics] [Integrated]| NVIDIA TU117M [GeForce GTX 1650 Mobile] "
    );
    let amd = "03:00.0 VGA compatible controller: Advanced Micro Devices, Inc. [AMD/ATI] Navi 22\n";
    assert_eq!(SystemInfo::read_gpu(amd), "AMD Navi 22 [Integrated]");
    let other = "03:00.0 VGA compatible controller: Matrox Electronics G200\n";
    assert_eq!(SystemInfo::read_gpu(other), "Unknown [Integrated]");
    assert_eq!(SystemInfo::read_gpu(""), "");
}

#[test]
fn terminal() {
    let status = s("Name:\tbash\nPid:\t4321\nPPid:\t 1234 \n");
    assert_eq!(SystemInfo::parent_pid(status), Some("1234".to_string()));
    assert_eq!(SystemInfo::parent_pid(s("Name:\tbash\n")), None);
    assert_eq!(SystemInfo::parent_pid(None), None);
    assert_eq!(SystemInfo::read_terminal(s("1234"), s("kitty\n")), "Kitty");
    assert_eq!(SystemInfo::read_terminal(s("1234"), s("gnome-terminal-server\n")), "Gnome-terminal-server");
    assert_eq!(SystemInfo::read_terminal(s("1234"), s("wezterm-gui\n")), "Wezterm");
    assert_eq!(SystemInfo::read_terminal(s("1234"), s("foo-agent-gui\n")), "Foo");
    assert_eq!(SystemInfo::read_terminal(s("1234"), s("élan\n")), "Élan");
    assert_eq!(SystemInfo::read_terminal(s("0"), s("init")), "Unknown");
    assert_eq!(SystemInfo::read_terminal(None, s("kitty")), "Unknown");
    assert_eq!(SystemInfo::read_terminal(s("99"), None), "Unknown");
    assert_eq!(SystemInfo::read_terminal(s("99"), s("  ")), "");
}

#[test]
fn line_counts() {
    assert_eq!(SystemInfo::count_lines(b"a\nb\nc"), 3);
    assert_eq!(SystemInfo::count_lines(b"a\nb\n"), 2);
    assert_eq!(SystemInfo::count_lines(b"\n\n"), 2);
    assert_eq!(SystemInfo::count_lines(b""), 0);
}

#[test]
fn packages() {
    let cmds = SystemInfo::native_package_commands();
    assert_eq!(cmds[0], ("pacman".to_string(), "-Qq".to_string()));
    assert_eq!(cmds[1], ("dpkg".to_string(), "--get-selections".to_string()));
    assert_eq!(cmds[2], ("rpm".to_string(), "-qa".to_string()));
    assert_eq!(
        SystemInfo::read_packages(&vec![None, Some(1200), Some(5)], Some(3), None, Some(1)),
        "1200 (dpkg), 3 (flatpak-system)"
    );
    assert_eq!(
        SystemInfo::read_packages(&vec![Some(850)], Some(0), Some(4), Some(6)),
        "850 (pacman), 4 (flatpak-user), 5 (snap)"
    );
    assert_eq!(SystemInfo::read_packages(&vec![Some(0), Some(9)], None, None, None), "");
    assert_eq!(SystemInfo::read_packages(&vec![], None, None, None), "");
}

#[test]
fn host() {
    assert_eq!(SystemInfo::read_host(s("XPS 13 9310\n"), s("XPS\n")), "XPS 13 9310 (XPS)");
    assert_eq!(SystemInfo::read_host(None, None), "Unknown (Unknown)");
}

fn reading(kind: &str, model: &str, capacity: &str, status: &str) -> BatteryReading {
    BatteryReading { kind: s(kind), model_name: s(model), capacity: s(capacity), status: s(status) }
}

#[test]
fn batteries() {
    let ac = reading("Mains\n", "", "", "");
    let bat = reading("Battery\n", "DELL 7FHHV\n", "85\n", "Charging\n");
    assert_eq!(SystemInfo::read_battery(&vec![ac, bat]), "(DELL 7FHHV): 85% [Charging]");
    let odd = BatteryReading { kind: s("Battery"), model_name: None, capacity: s("n/a"), status: None };
    let bat2 = reading("Battery", "X", "+7", "Full");
    assert_eq!(SystemInfo::read_battery(&vec![odd, bat2]), "(Unknown): 0% [Unknown], (X): 7% [Full]");
    assert_eq!(SystemInfo::read_battery(&vec![reading("USB", "a", "1", "b")]), "No battery");
    assert_eq!(SystemInfo::read_battery(&vec![]), "No battery");
}

#[test]
fn ip_route() {
    let out = s("1.0.0.0 via 192.168.1.1 dev wlan0 src 192.168.1.42 uid 1000 \n    cache \n");
    assert_eq!(SystemInfo::read_ip(out), "(wlan0): 192.168.1.42");
    assert_eq!(SystemInfo::read_ip(s("unreachable\n")), "(none): offline");
    assert_eq!(SystemInfo::read_ip(None), "(none): offline");
}

#[test]
fn config_paths() {
    assert_eq!(config_path(s("/home/me")), Some("/home/me/.config/holefetch/config.toml".to_string()));
    assert_eq!(config_path(s("")), None);
    assert_eq!(config_path(None), None);
}

fn sources() -> SystemSources {
    let settings = DesktopSettings {
        theme: "Adwaita".to_string(),
        icon_theme: "Adwaita".to_string(),
        cursor_theme: "Adwaita".to_string(),
        cursor_size: "24".to_string(),
        font: "Cantarell 11".to_string(),
        wm_theme: "Adwaita".to_string(),
    };
    SystemSources {
        user: s("me"),
        hostname: s("box\n"),
        os_release: s("PRETTY_NAME=\"Fedora Linux 40\"\n"),
        kernel_release: s("6.9.0\n"),
        uptime_seconds: 7260,
        cpuinfo: s("processor : 0\nmodel name : CPU X\n"),
        cpu_ghz: "3.20".to_string(),
        memory: "3.00 GiB / 16.00 GiB (18%)".to_string(),
        shell: s("/bin/bash"),
        desktop_environment: DesktopEnvironment::new("GNOME", "Wayland".to_string(), settings),
        disk: "100.00 GiB / 500.00 GiB (20%) - ext4".to_string(),
        lspci: "00:02.0 VGA compatible controller: Intel Corporation UHD 620\n".to_string(),
        terminal_pid: s("100"),
        terminal_comm: s("ptyxis-agent\n"),
        locale: s("C.UTF-8"),
        packages: PackageCounts { native: vec![None, None, Some(2000)], flatpak_system: Some(12), flatpak_user: None, snap: None },
        product_name: s("ThinkPad\n"),
        product_family: s("T14\n"),
        swap: "Disabled".to_string(),
        batteries: vec![],
        ip_route: None,
    }
}

#[test]
fn whole_fetch() {
    let info = SystemInfo::new(sources());
    let lines = info.to_lines();
    assert_eq!(lines.len(), 24);
    assert_eq!(lines[0], "me@box");
    assert_eq!(lines[1], "-----------");
    assert_eq!(lines[2], "OS: Fedora Linux 40");
    assert_eq!(lines[3], "Host: ThinkPad (T14)");
    assert_eq!(lines[4], "Kernel: Linux 6.9.0");
    assert_eq!(lines[5], "Uptime: 2 hours, 1 mins");
    assert_eq!(lines[6], "CPU: CPU X (1) @ 3.20 GHz");
    assert_eq!(lines[7], "Memory: 3.00 GiB / 16.00 GiB (18%)");
    assert_eq!(lines[8], "Swap: Disabled");
    assert_eq!(lines[9], "Shell: bash");
    assert_eq!(lines[10], "DE: GNOME (Wayland)");
    assert_eq!(lines[16], "Font: Cantarell 11");
    assert_eq!(lines[17], "Disk: 100.00 GiB / 500.00 GiB (20%) - ext4");
    assert_eq!(lines[18], "GPU: Intel UHD 620 [Integrated]");
    assert_eq!(lines[19], "Terminal: Ptyxis");
    assert_eq!(lines[20], "Battery No battery");
    assert_eq!(lines[21], "Locale: C.UTF-8");
    assert_eq!(lines[22], "Packages: 2000 (rpm), 12 (flatpak-system)");
    assert_eq!(lines[23], "Local IP (none): offline");
}

#[test]
fn battery_kinds() {
    assert!(SystemInfo::is_battery_kind(&s("Battery\n")));
    assert!(!SystemInfo::is_battery_kind(&s("Mains\n")));
    assert!(!SystemInfo::is_battery_kind(&None));
}
