use os_active::config::AppInner;
use os_active::flow::{ConfirmBy, Flow, Phase, Tick};
use os_active::model::{Activation, DetectResult, OsInfo};

fn result(a: Activation, summary: &str) -> DetectResult {
    DetectResult {
        os: OsInfo::default(),
        activation: a,
        summary: summary.to_string(),
        items: vec![],
        expire_at: None,
        checked_at: "2026-01-01 08:00:00".to_string(),
    }
}

fn flow(auto_close: bool, secs: u64) -> Flow {
    Flow::new(AppInner { close_after_secs: secs, auto_close })
}

#[test]
fn activated_waits_for_the_button_then_counts_down() {
    let mut f = flow(false, 3);
    assert!(f.trigger_detect());
    assert!(!f.trigger_detect());
    f.receive(result(Activation::Activated, "银河麒麟已激活"));
    assert!(!f.advance_after_detect());
    assert_eq!(f.phase, Phase::Confirm);
    assert!(f.click_confirm());
    assert!(f.confirmed);
    assert_eq!(f.confirm_by, ConfirmBy::Button);
    assert_eq!(f.phase, Phase::Countdown { left: 3 });
    assert_eq!(f.tick_countdown(false), Tick::Wait);
    assert_eq!(f.tick_countdown(true), Tick::Counted);
    assert_eq!(f.tick_countdown(true), Tick::Counted);
    assert_eq!(f.phase, Phase::Countdown { left: 1 });
    assert_eq!(f.tick_countdown(true), Tick::Close);
    assert_eq!(f.phase, Phase::Closing);
    assert_eq!(f.tick_countdown(true), Tick::Idle);
    let rep = f.emit_r().expect("report");
    assert!(rep.status);
    assert_eq!(rep.content, "PASS;银河麒麟已激活;button确认");
    assert_eq!(rep.confirm_by, "button");
    assert!(f.emit_r().is_none());
}

#[test]
fn auto_close_confirms_an_activated_system() {
    let mut f = flow(true, 0);
    f.trigger_detect();
    f.receive(result(Activation::Activated, "Windows 已激活"));
    assert!(f.advance_after_detect());
    assert_eq!(f.phase, Phase::Countdown { left: 1 });
    assert_eq!(f.confirm_by, ConfirmBy::Auto);
    let rep = f.emit_r().unwrap();
    assert!(rep.status);
    assert_eq!(rep.content, "PASS;Windows 已激活;auto确认");
}

#[test]
fn not_activated_waits_or_closes_without_passing() {
    let mut f = flow(false, 3);
    f.trigger_detect();
    f.receive(result(Activation::NotActivated, "统信 UOS 未激活"));
    assert!(!f.advance_after_detect());
    assert_eq!(f.phase, Phase::FailWait);
    assert!(!f.click_confirm());
    assert!(!f.confirmed);
    let rep = f.emit_r().unwrap();
    assert!(!rep.status);
    assert_eq!(rep.content, "NG;统信 UOS 未激活");
    assert_eq!(rep.confirm_by, "none");

    let mut g = flow(true, 2);
    g.trigger_detect();
    g.receive(result(Activation::Unknown, "x"));
    assert!(g.advance_after_detect());
    assert_eq!(g.phase, Phase::Countdown { left: 2 });
    assert!(!g.confirmed);
    assert!(!g.emit_r().unwrap().status);
}

#[test]
fn unconfirmed_activation_does_not_pass() {
    let mut f = flow(false, 3);
    f.trigger_detect();
    f.receive(result(Activation::Activated, "ok"));
    f.advance_after_detect();
    let rep = f.emit_r().unwrap();
    assert!(!rep.status);
    assert_eq!(rep.content, "NG;激活成功但未确认(需点击确认按钮或配置 auto_close=true)");
}

#[test]
fn report_before_any_result() {
    let mut f = flow(false, 3);
    let rep = f.emit_r().unwrap();
    assert!(!rep.status);
    assert_eq!(rep.content, "NG;未完成检测");
}

#[test]
fn confirm_in_detect_phase_only_when_activated() {
    let mut f = flow(false, 5);
    assert!(!f.click_confirm());
    f.trigger_detect();
    f.receive(result(Activation::Activated, "ok"));
    // still in the Detect phase: the button is enabled by the result
    assert!(f.click_confirm());
    assert_eq!(f.phase, Phase::Countdown { left: 5 });
    // a second confirmation changes nothing
    assert!(!f.confirm_by_button());
    assert_eq!(f.countdown_text(5), "已确认(button),5 秒后自动关闭窗口...");
}
