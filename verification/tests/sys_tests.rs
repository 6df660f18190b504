use os_active::sys::{
    byodmi_serial, cfg_tool_path, cpu_from_cpuinfo, cpu_from_windows, detect_linux_from,
    detect_windows_from, os_name, parse_os_release, sanitize_sn, sn_from_linux_sources,
    sn_from_windows_bios, windows_version,
};

#[test]
fn serial_numbers_are_checked() {
    assert_eq!(sanitize_sn("  MT81 2345 678\n"), Some("MT812345678".to_string()));
    assert_eq!(sanitize_sn("To Be Filled By O.E.M."), None);
    assert_eq!(sanitize_sn("NONE"), None);
    assert_eq!(sanitize_sn("Default string"), None);
    assert_eq!(sanitize_sn("null-0000000"), None);
    assert_eq!(sanitize_sn("short"), None);
    assert_eq!(sanitize_sn("   "), None);
    assert_eq!(sanitize_sn("ABCDEFGH"), Some("ABCDEFGH".to_string()));
}

#[test]
fn byodmi_output() {
    let out = "Handle 0x0001\n  UUID: 1234-5678-9abc\n  Serial Number: To be filled\n  Serial Number: MT81ABCDEF12\n";
    assert_eq!(byodmi_serial(out), Some("MT81ABCDEF12".to_string()));
    assert_eq!(byodmi_serial("SERIAL NUMBER=ZX0011223344"), Some("ZX0011223344".to_string()));
    assert_eq!(byodmi_serial("UUID Serial Number: ABCDEFGHIJ"), None);
    assert_eq!(byodmi_serial(""), None);
}

#[test]
fn tool_path_in_settings() {
    let cfg = "[sn]\n# tool_path = \"\"\ntool_path = \"tools/ByoDmi/x86_64/linux/ByoDmi\"\n";
    assert_eq!(cfg_tool_path(cfg), Some("tools/ByoDmi/x86_64/linux/ByoDmi".to_string()));
    assert_eq!(cfg_tool_path("tool_path = \"\"\n"), None);
    assert_eq!(cfg_tool_path("[app]\nauto_close = true"), None);
}

#[test]
fn os_release_fields() {
    let text = "# comment\nNAME=\"Kylin\"\nID=kylin\nVERSION=\"V10 (SP1)\"\nVERSION_ID=\"v10\"\nPRETTY_NAME=\"Kylin V10 SP1\"\n";
    let (id, pretty, version) = parse_os_release(text);
    assert_eq!(id, "kylin");
    assert_eq!(pretty, "Kylin V10 SP1");
    assert_eq!(version, "v10");
    let (_, _, version) = parse_os_release("VERSION=\"20 (Focal)\"\nVERSION=\"other\"");
    assert_eq!(version, "20 (Focal)");
    assert_eq!(parse_os_release(""), (String::new(), String::new(), String::new()));
}

#[test]
fn distribution_names() {
    assert_eq!(os_name("kylin", false), "银河麒麟");
    assert_eq!(os_name("uos", false), "统信 UOS");
    assert_eq!(os_name("deepin", false), "统信 UOS");
    assert_eq!(os_name("ubuntu", true), "Ubuntu");
    assert_eq!(os_name("neokylin", true), "银河麒麟");
    assert_eq!(os_name("", false), "Linux");
    assert_eq!(os_name("fedora", false), "fedora");
}

#[test]
fn linux_and_windows_facts() {
    let os = detect_linux_from(
        "ID=ubuntu\nPRETTY_NAME=\"Ubuntu 20.04.6 LTS\"\nVERSION_ID=\"20.04\"",
        "x86_64".to_string(),
        false,
        Some("SN12345678".to_string()),
        "Intel".to_string(),
    );
    assert_eq!(os.name, "Ubuntu");
    assert_eq!(os.version, "20.04");
    assert_eq!(os.distro_id, "ubuntu");
    assert_eq!(os.sn, "SN12345678");
    assert_eq!(os.sn_source, "");
    let win = detect_windows_from(
        "\r\nHKEY_LOCAL_MACHINE\\SOFTWARE\\Microsoft\\Windows NT\\CurrentVersion\r\n    ProductName    REG_SZ    Windows 10 Pro\r\n",
        "x86_64".to_string(),
        None,
        String::new(),
    );
    assert_eq!(win.version, "Windows 10 Pro");
    assert_eq!(win.pretty, "Windows Windows 10 Pro");
    assert_eq!(win.sn, "");
    assert_eq!(windows_version(""), "10+");
}

#[test]
fn cpu_names() {
    let info = "processor\t: 0\nvendor_id\t: HygonGenuine\ncpu family\t: 24\nmodel name\t: Hygon C86 3250  8-core Processor\n";
    assert_eq!(cpu_from_cpuinfo(info), "Hygon C86 3250  8-core Processor (海光 Hygon)");
    assert_eq!(cpu_from_cpuinfo("vendor_id : CentaurHauls\n"), "兆芯 Zhaoxin");
    assert_eq!(cpu_from_cpuinfo("model name : X\nvendor_id : GenuineIntel\n"), "Intel");
    assert_eq!(cpu_from_cpuinfo("vendor_id : Other\nmodel name : M"), "M (Other)");
    assert_eq!(cpu_from_cpuinfo(""), "");
    assert_eq!(cpu_from_windows("  Intel(R) Core(TM) i5\r\n"), "Intel(R) Core(TM) i5");
}

#[test]
fn serial_number_sources_in_order() {
    let (sn, items, source) = sn_from_linux_sources(
        None,
        Some("PROD12345".to_string()),
        Some("BOARD1234".to_string()),
        None,
        Some("abcdef0123456789".to_string()),
    );
    assert_eq!(sn, Some("PROD12345".to_string()));
    assert_eq!(source, "DMI product_serial");
    assert_eq!(items.len(), 5);
    assert!(!items[0].success);
    assert_eq!(items[0].verdict, "跳过");
    assert!(items[1].success);
    assert_eq!(items[4].verdict, "兜底(非厂商SN)");
    let (sn, _, source) = sn_from_linux_sources(None, None, None, None, Some("abcdef0123456789".to_string()));
    assert_eq!(sn, Some("abcdef0123456789".to_string()));
    assert_eq!(source, "machine-id");
    let (sn, items, _) = sn_from_linux_sources(None, None, None, None, Some("abcdef0123456789\n".to_string()));
    assert_eq!(sn, Some("abcdef0123456789".to_string()));
    assert_eq!(items[4].output, "abcdef0123456789");
    let (sn, _, source) = sn_from_linux_sources(None, None, None, None, Some(" \n".to_string()));
    assert_eq!(sn, None);
    assert_eq!(source, "未获取");
    let (sn, _, source) = sn_from_linux_sources(Some("BYO1234567".to_string()), None, None, Some("D".to_string()), None);
    assert_eq!(sn, Some("BYO1234567".to_string()));
    assert_eq!(source, "ByoDmi");
}

#[test]
fn windows_bios_serial() {
    let (sn, items, source) = sn_from_windows_bios(Some(" PF2ABCDE \r\n".to_string()));
    assert_eq!(sn, Some("PF2ABCDE".to_string()));
    assert_eq!(source, "Win32_BIOS");
    assert!(items[0].success);
    let (sn, items, source) = sn_from_windows_bios(Some("To Be Filled By O.E.M.".to_string()));
    assert_eq!(sn, None);
    assert_eq!(source, "未获取");
    assert_eq!(items[0].output, "读取失败");
    let (sn, _, _) = sn_from_windows_bios(None);
    assert_eq!(sn, None);
}
