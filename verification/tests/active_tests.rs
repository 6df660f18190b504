use os_active::active::{
    check, check_kylin, check_uos, check_windows, command_line, extract_date,
    extract_kyinfo_term, extract_uos_expire, judge, judge_kylin, judge_uos, judge_windows,
    kyinfo_date_in_range, kyinfo_expire_days, probe_for, read_file_item, run_check_item, Evidence,
    Platform, Probe,
};
use os_active::date::{days_from_civil, days_from_civil_from_secs, today_days};
use os_active::model::{Activation, CheckItem, OsInfo};

/// .kyinfo of a Kylin V10 SP1 machine whose license ended 2025-07-29
const KYINFO_EXPIRED: &str = "[dist]name=Kylin-Desktop
milestone=V10
arch=x86_64
beta=False
time=2024-04-07 14:45:43
dist_id=Kylin-Desktop-V10-SP1-2403-Release-20240430-x86_64-2024-04-07 14:45:43
[servicekey]key=0467027
[os]to=term=2025-07-29";

/// license within its term (term=2027-12-31)
const KYINFO_VALID: &str = "[dist]name=Kylin-Desktop
milestone=V10
arch=x86_64
[servicekey]key=ABCDEFG
[os]to=term=2027-12-31";

#[test]
fn parse_expire_days() {
    let d = kyinfo_expire_days(KYINFO_EXPIRED).expect("parse expired");
    assert_eq!(days_from_civil(2025, 7, 29), d);
    let d2 = kyinfo_expire_days(KYINFO_VALID).expect("parse valid");
    assert_eq!(days_from_civil(2027, 12, 31), d2);
}

#[test]
fn expire_compare_today() {
    let today = today_days();
    assert!(kyinfo_expire_days(KYINFO_EXPIRED).unwrap() < today);
    assert!(kyinfo_expire_days(KYINFO_VALID).unwrap() > today);
}

#[test]
fn days_roundtrip() {
    assert_eq!(days_from_civil(2026, 1, 1), days_from_civil_from_secs(1767225600 + 8 * 3600));
}

fn item(success: bool, output: &str) -> CheckItem {
    CheckItem::new("n", "c", success, output.to_string(), "v")
}

#[test]
fn kyinfo_day_numbers_are_exact() {
    assert_eq!(kyinfo_expire_days(KYINFO_EXPIRED), Some(20298));
    assert_eq!(kyinfo_expire_days(KYINFO_VALID), Some(21183));
    assert_eq!(kyinfo_expire_days("to=term=2027/12/31 10:00"), Some(21183));
    assert_eq!(kyinfo_expire_days("to=term=2027.12.31"), Some(21183));
}

#[test]
fn kyinfo_without_term_or_numbers() {
    assert_eq!(kyinfo_expire_days("[os]\nkey=1"), None);
    // the first line with term= decides, even without a date
    assert_eq!(kyinfo_expire_days("term=forever\nterm=2027-12-31"), None);
    assert_eq!(kyinfo_expire_days(""), None);
}

#[test]
fn kyinfo_range_check() {
    assert!(kyinfo_date_in_range(KYINFO_VALID));
    assert!(kyinfo_date_in_range("no term here"));
    assert!(!kyinfo_date_in_range("term=9223372036854775807-1-1"));
}

#[test]
fn kyinfo_term_text() {
    assert_eq!(extract_kyinfo_term(KYINFO_EXPIRED), Some("2025-07-29".to_string()));
    assert_eq!(extract_kyinfo_term("a=term=  \nb=term= 2030-01-01 \r\n"), Some("2030-01-01".to_string()));
    assert_eq!(extract_kyinfo_term("nothing"), None);
}

#[test]
fn uos_expiry_text() {
    assert_eq!(
        extract_uos_expire("激活状态:已激活\n到期时间:2026-11-03\n"),
        Some("2026-11-03".to_string())
    );
    assert_eq!(extract_uos_expire("到期时间：终身有效"), Some("终身有效".to_string()));
    assert_eq!(extract_uos_expire("到期时间:\n"), None);
}

#[test]
fn windows_expiry_text() {
    assert_eq!(
        extract_date("批量激活将于 2027/2/4 17:50:22 过期。"),
        Some("2027/2/4".to_string())
    );
    assert_eq!(extract_date("The machine is Permanently Activated."), Some("永久激活".to_string()));
    assert_eq!(extract_date("计算机已永久激活。"), Some("永久激活".to_string()));
    // a date, with or without a time, may end the line
    assert_eq!(extract_date("expires 2027/2/4"), Some("2027/2/4".to_string()));
    assert_eq!(
        extract_date("Volume activation will expire 04/02/2027 17:50:22"),
        Some("04/02/2027".to_string())
    );
    // the three parts must be digits
    assert_eq!(extract_date("http://x"), None);
    assert_eq!(extract_date("see a/b/c now"), None);
    assert_eq!(extract_date("1//2 x"), None);
    assert_eq!(extract_date("no date here"), None);
    // two slashes are needed
    assert_eq!(extract_date("ratio 1/2 x"), None);
    assert_eq!(extract_date("Volume activation will expire 3/14/2027 5:00:00 PM"), Some("3/14/2027".to_string()));
}

#[test]
fn keyword_judge_lowercases_and_prefers_negative() {
    let act = ["activated"];
    let not = ["not activated"];
    assert_eq!(judge("System ACTIVATED", &act, &not), Activation::Activated);
    assert_eq!(judge("System is NOT activated", &act, &not), Activation::NotActivated);
    assert_eq!(judge("unrelated", &act, &not), Activation::Unknown);
}

#[test]
fn kylin_and_uos_keywords() {
    assert_eq!(judge_kylin("当前系统已激活"), Activation::Activated);
    assert_eq!(judge_kylin("试用期 已激活"), Activation::NotActivated);
    assert_eq!(judge_uos("激活状态=免费授权"), Activation::Activated);
    assert_eq!(judge_uos("Status: inactive"), Activation::NotActivated);
    assert_eq!(judge_uos("???"), Activation::Unknown);
}

#[test]
fn windows_keywords() {
    assert_eq!(judge_windows("The machine is permanently activated.", ""), Activation::Activated);
    assert_eq!(judge_windows("Windows is in Notification mode", "License Status: Licensed"), Activation::NotActivated);
    assert_eq!(judge_windows("", "License Status: Unlicensed"), Activation::NotActivated);
    assert_eq!(judge_windows("批量激活将于 2027/2/4 过期", ""), Activation::Activated);
    assert_eq!(judge_windows("", ""), Activation::Unknown);
}

#[test]
fn windows_check_outcome() {
    let (a, items, summary, expire) = check_windows(item(false, "x"), item(false, "y"));
    assert_eq!(a, Activation::Unknown);
    assert_eq!(items.len(), 2);
    assert_eq!(summary, "Windows 激活状态无法判定,请查看下方明细");
    assert_eq!(expire, None);
    let (a, _, summary, expire) = check_windows(item(true, "计算机已永久激活。"), item(true, ""));
    assert_eq!(a, Activation::Activated);
    assert_eq!(summary, "Windows 已激活");
    assert_eq!(expire, Some("永久激活".to_string()));
}

#[test]
fn kylin_check_outcome() {
    let today = days_from_civil(2026, 1, 1);
    // the activation-code file decides
    let (a, items, summary, _) =
        check_kylin(item(true, "未激活"), item(true, "code"), item(false, ""), today);
    assert_eq!(a, Activation::Activated);
    assert_eq!(items.len(), 3);
    assert_eq!(summary, "银河麒麟已激活");
    // licence output next
    let (a, _, summary, _) = check_kylin(item(true, "trial"), item(false, ""), item(false, ""), today);
    assert_eq!(a, Activation::NotActivated);
    assert_eq!(summary, "银河麒麟未激活");
    // then the term: expired
    let (a, _, _, expire) = check_kylin(item(false, ""), item(false, ""), item(true, KYINFO_EXPIRED), today);
    assert_eq!(a, Activation::NotActivated);
    assert_eq!(expire, Some("2025-07-29".to_string()));
    // a term still to come is no proof of activation
    let (a, _, summary, _) = check_kylin(item(false, ""), item(false, ""), item(true, KYINFO_VALID), today);
    assert_eq!(a, Activation::Unknown);
    assert_eq!(summary, "银河麒麟激活状态无法判定,请查看下方明细");
}

#[test]
fn uos_check_outcome() {
    let (a, items, summary, expire) = check_uos(item(true, "激活状态:已激活\n到期时间:终身有效"));
    assert_eq!(a, Activation::Activated);
    assert_eq!(items.len(), 1);
    assert_eq!(summary, "统信 UOS 已激活");
    assert_eq!(expire, Some("终身有效".to_string()));
    let (a, _, summary, _) = check_uos(item(false, "not found"));
    assert_eq!(a, Activation::Unknown);
    assert_eq!(summary, "统信 UOS 激活状态无法判定,请查看下方明细");
}

#[test]
fn dispatch_by_platform_and_distro() {
    assert_eq!(probe_for(Platform::Windows, "", false), Probe::Windows);
    assert_eq!(probe_for(Platform::Other, "kylin", true), Probe::Unsupported);
    assert_eq!(probe_for(Platform::Linux, "ubuntu", true), Probe::Ubuntu);
    assert_eq!(probe_for(Platform::Linux, "kylin", false), Probe::Kylin);
    assert_eq!(probe_for(Platform::Linux, "uos", false), Probe::Uos);
    assert_eq!(probe_for(Platform::Linux, "deepin", false), Probe::Uos);
    assert_eq!(probe_for(Platform::Linux, "neokylin", true), Probe::Kylin);
    assert_eq!(probe_for(Platform::Linux, "fedora", false), Probe::UnknownDistro);
}

#[test]
fn fixed_outcomes() {
    let mut os = OsInfo::default();
    os.pretty = "Fedora Linux 40".to_string();
    let (a, items, summary, expire) = check(&os, Platform::Linux, false, Evidence::UnknownDistro);
    assert_eq!(a, Activation::Unknown);
    assert_eq!(items[0].output, "未识别的发行版: Fedora Linux 40");
    assert_eq!(summary, "无法识别的系统发行版");
    assert_eq!(expire, None);
    os.distro_id = "ubuntu".to_string();
    let (a, items, summary, _) = check(&os, Platform::Linux, false, Evidence::Ubuntu);
    assert_eq!(a, Activation::NotApplicable);
    assert!(items[0].success);
    assert_eq!(summary, "Ubuntu 无需激活");
    let (a, items, summary, _) = check(&os, Platform::Other, false, Evidence::Unsupported);
    assert_eq!(a, Activation::Unknown);
    assert!(!items[0].success);
    assert_eq!(summary, "当前平台不支持激活检测");
    assert_eq!(Evidence::Ubuntu.probe(), Probe::Ubuntu);
}

#[test]
fn command_items() {
    assert_eq!(command_line("licence", &["-l"]), "licence -l");
    assert_eq!(command_line("cscript", &["/nologo", "slmgr.vbs", "-xpr"]), "cscript /nologo slmgr.vbs -xpr");
    assert_eq!(command_line("uname", &[]), "uname");
    let ok = run_check_item("麒麟授权查询", "licence -l", Ok("out".to_string()));
    assert!(ok.success);
    assert_eq!(ok.verdict, "命令执行成功");
    let bad = run_check_item("麒麟授权查询", "licence -l", Err("not found".to_string()));
    assert!(!bad.success);
    assert_eq!(bad.output, "not found");
    assert_eq!(bad.verdict, "命令执行失败(可能未安装)");
    let f = read_file_item("/etc/.kyinfo", "麒麟授权文件(.kyinfo)", Err("No such file".to_string()));
    assert_eq!(f.command, "cat /etc/.kyinfo");
    assert_eq!(f.output, "/etc/.kyinfo: No such file");
    assert_eq!(f.verdict, "文件不存在或不可读");
    let f = read_file_item("/etc/.kyinfo", "k", Ok("x".to_string()));
    assert_eq!(f.verdict, "文件存在");
}

#[test]
fn term_text_and_day_number_agree() {
    let t = extract_kyinfo_term(KYINFO_EXPIRED).expect("term text");
    assert_eq!(kyinfo_expire_days(&format!("term={}", t)), kyinfo_expire_days(KYINFO_EXPIRED));
    let out = "批量激活将于 2027/2/4 17:50:22 过期。";
    let d = extract_date(out).expect("date");
    assert!(out.contains(&d));
    let t = extract_kyinfo_term(KYINFO_VALID).expect("term text");
    assert_eq!(kyinfo_expire_days(&format!("term={}", t)), Some(days_from_civil(2027, 12, 31)));
}

#[test]
fn failed_windows_checks_give_unknown() {
    let os = OsInfo::default();
    let ev = Evidence::Windows { xpr: item(false, "x"), dlv: item(false, "y") };
    let (a, items, _, _) = check(&os, Platform::Windows, false, ev);
    assert_eq!(a, Activation::Unknown);
    assert!(!items.is_empty());
}
