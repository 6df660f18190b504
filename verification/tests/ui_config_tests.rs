use os_active::config::{
    default_close_secs, default_require_sn, get_descript_version, log_file_name, AppCfg,
    DEFAULT_CFG, LOG_FNAME,
};
use os_active::detect::build_result;
use os_active::config::SnInner;
use os_active::flow::report_os_text;
use os_active::model::{Activation, CheckItem, DetectResult, OsInfo};
use os_active::text::{chars_of, string_of};
use os_active::ui::{
    activation_color, detail_rows, detect_button_look, fail_wait_look, status_look,
    sys_info_rows, tail_lines, truncate,
};

#[test]
fn labels() {
    assert_eq!(Activation::Activated.label(), "已激活");
    assert_eq!(Activation::NotActivated.label(), "未激活");
    assert_eq!(Activation::NotApplicable.label(), "无需激活");
    assert_eq!(Activation::Unknown.label(), "无法判定");
}

#[test]
fn colours_and_buttons() {
    assert_eq!(activation_color(Activation::Activated), (0x1f, 0xa0, 0x4f));
    assert_eq!(activation_color(Activation::NotActivated), (0xd0, 0x33, 0x33));
    assert_eq!(activation_color(Activation::NotApplicable), (0x1e, 0x6f, 0xb8));
    assert_eq!(activation_color(Activation::Unknown), (0x8a, 0x8a, 0x8a));
    assert_eq!(status_look(None), ("检测中...", (0x8a, 0x8a, 0x8a)));
    assert_eq!(detect_button_look(Some(Activation::Activated)), ("确认激活状态", (0x1f, 0xa0, 0x4f), true));
    assert_eq!(detect_button_look(Some(Activation::Unknown)), ("无法判定", (0x8a, 0x8a, 0x8a), false));
    assert_eq!(detect_button_look(None).2, false);
    assert_eq!(fail_wait_look(Some(Activation::Activated)), ("已激活", (0x8a, 0x8a, 0x8a)));
    assert_eq!(fail_wait_look(Some(Activation::NotActivated)), ("未激活", (0xd0, 0x33, 0x33)));
}

#[test]
fn truncating_outputs() {
    assert_eq!(truncate("abc", 3), "abc");
    assert_eq!(truncate("abcdef", 3), "abc...");
    assert_eq!(truncate("已激活状态", 2), "已激...");
    assert_eq!(truncate("", 0), "");
}

#[test]
fn last_log_lines() {
    assert_eq!(tail_lines("a\nb\nc\n", 2), vec!["b".to_string(), "c".to_string()]);
    assert_eq!(tail_lines("a\r\nb", 5), vec!["a".to_string(), "b".to_string()]);
    assert_eq!(tail_lines("", 3), Vec::<String>::new());
}

#[test]
fn names_and_defaults() {
    assert_eq!(get_descript_version(), "os-active 0.1.0");
    assert_eq!(log_file_name(&Some("MT81X".to_string())), "MT81X-os-active.log");
    assert_eq!(log_file_name(&None), LOG_FNAME);
    assert_eq!(default_close_secs(), 3);
    assert!(default_require_sn());
    let cfg = AppCfg::default();
    assert_eq!(cfg.app.close_after_secs, 3);
    assert!(!cfg.app.auto_close);
    assert!(cfg.sn.tool_path.is_none());
    assert!(cfg.sn.require_sn);
    assert!(DEFAULT_CFG.contains("close_after_secs = 3"));
}

#[test]
fn result_puts_serial_probes_first() {
    let mut os = OsInfo::default();
    os.name = "银河麒麟".to_string();
    let probe = CheckItem::new("SN-ByoDmi", "ByoDmi -smbiosinfo", true, "SN1".to_string(), "成功");
    let check = CheckItem::new("麒麟授权查询", "licence -l", true, "已激活".to_string(), "命令执行成功");
    let r = build_result(
        os,
        Some("SN12345678".to_string()),
        "ByoDmi".to_string(),
        (Activation::Activated, vec![check], "银河麒麟已激活".to_string(), Some("2027-12-31".to_string())),
        vec![probe],
        "2026-01-01 08:00:00".to_string(),
    );
    assert_eq!(r.os.sn, "SN12345678");
    assert_eq!(r.os.sn_source, "ByoDmi");
    assert_eq!(r.items.len(), 2);
    assert_eq!(r.items[0].name, "SN-ByoDmi");
    assert_eq!(r.items[1].name, "麒麟授权查询");
    assert_eq!(r.activation, Activation::Activated);
}

#[test]
fn chars_roundtrip() {
    let s = "激活 ok\r\n";
    assert_eq!(string_of(&chars_of(s)), s);
}

fn sample_result(items: Vec<CheckItem>, sn: &str, pretty: &str, expire: Option<&str>) -> DetectResult {
    let mut os = OsInfo::default();
    os.name = "银河麒麟".to_string();
    os.version = "V10 SP1".to_string();
    os.arch = "x86_64".to_string();
    os.distro_id = "kylin".to_string();
    os.sn = sn.to_string();
    os.pretty = pretty.to_string();
    DetectResult {
        os,
        activation: Activation::Activated,
        summary: "银河麒麟已激活".to_string(),
        items,
        expire_at: expire.map(|e| e.to_string()),
        checked_at: "2026-01-01 08:00:00".to_string(),
    }
}

fn pairs(rows: &[(String, String)]) -> Vec<(&str, &str)> {
    rows.iter().map(|(a, b)| (a.as_str(), b.as_str())).collect()
}

#[test]
fn system_panel_rows() {
    assert_eq!(pairs(&sys_info_rows(&None)), vec![("检测中...", "")]);
    let r = sample_result(vec![], "", "", None);
    assert_eq!(
        pairs(&sys_info_rows(&Some(r))),
        vec![("系统:", "银河麒麟"), ("版本:", "V10 SP1"), ("架构:", "x86_64"), ("发行版 ID:", "kylin")]
    );
    let r = sample_result(vec![], "SN123", "Kylin V10 SP1", Some("2025-07-29"));
    let rows = sys_info_rows(&Some(r));
    assert_eq!(
        pairs(&rows[4..]),
        vec![("SN:", "SN123"), ("PRETTY_NAME:", "Kylin V10 SP1"), ("授权到期:", "2025-07-29")]
    );
    let r = sample_result(vec![], "", "Kylin V10 SP1", None);
    assert_eq!(pairs(&sys_info_rows(&Some(r))[4..]), vec![("PRETTY_NAME:", "Kylin V10 SP1")]);
}

#[test]
fn details_table_rows() {
    assert_eq!(detail_rows(&None).err(), Some("等待检测结果..."));
    let r = sample_result(vec![], "", "", None);
    assert_eq!(detail_rows(&Some(r)).err(), Some("无检测项"));
    let long = "x".repeat(200);
    let items = vec![
        CheckItem::new("麒麟授权查询", "licence -l", false, String::new(), "命令执行失败(可能未安装)"),
        CheckItem::new("麒麟授权文件(.kyinfo)", "cat /etc/.kyinfo", true, long.clone(), "文件存在"),
    ];
    let rows = detail_rows(&Some(sample_result(items, "", "", None))).ok().expect("rows");
    assert_eq!(rows.len(), 2);
    assert_eq!(rows[0].name, "麒麟授权查询");
    assert_eq!(rows[0].command, "licence -l");
    assert_eq!(rows[0].verdict, "命令执行失败(可能未安装)");
    assert!(rows[0].failed);
    assert!(!rows[0].hover);
    assert_eq!(rows[0].short, "");
    assert!(!rows[1].failed);
    assert!(rows[1].hover);
    assert_eq!(rows[1].short, format!("{}...", "x".repeat(160)));
}

#[test]
fn report_names_and_missing_serials() {
    let mut os = OsInfo::default();
    os.name = "Windows".to_string();
    os.version = "11".to_string();
    assert_eq!(report_os_text(&os), "Windows 11");
    let sn = SnInner { tool_path: None, require_sn: true };
    assert!(sn.warns_missing(&None));
    assert!(!sn.warns_missing(&Some("SN1".to_string())));
    let quiet = SnInner { tool_path: None, require_sn: false };
    assert!(!quiet.warns_missing(&None));
}
