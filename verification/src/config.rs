//! Program identity and the settings table `os-active.toml`.
use vstd::prelude::*;
use vstd::string::StringExecFns;

verus! {

/// Program name.
pub const NAME: &'static str = "os-active";

/// Program version.
pub const VERSION: &'static str = "0.1.0";

/// Settings file, in the working directory.
pub const CFG_FNAME: &'static str = "os-active.toml";

/// Log file name where no serial number is known.
pub const LOG_FNAME: &'static str = "os-active.log";

/// The settings table written when none exists (with comments).
pub const DEFAULT_CFG: &'static str = "# ============================================================\n# os-active 配置表(首次运行自动生成,修改后重启生效)\n# ============================================================\n[app]\n# PASS(激活成功并确认)后倒计时 N 秒自动关闭窗口\nclose_after_secs = 3\n# true:激活成功后自动确认并倒计时关闭,无需人工点击确认按钮\nauto_close = false\n\n[sn]\n# SN 工具(ByoDmi)路径,留空自动探测;可填绝对路径或相对 tools/ 的路径\ntool_path = \"\"\n# 是否校验 SN 不为空(空则日志告警)\nrequire_sn = true\n\n";

/// Window title: name and version.
pub fn get_descript_version() -> (r: String)
    ensures
        r@ == NAME@ + " "@ + VERSION@,
{
    let mut s = NAME.to_string();
    s.append(" ");
    s.append(VERSION);
    s
}

/// The log file name: `<SN>-os-active.log`, or `os-active.log` without a
/// serial number.
pub fn log_file_name(sn: &Option<String>) -> (r: String)
    ensures
        r@ == (match sn {
            Some(s) => s@ + "-"@ + NAME@ + ".log"@,
            None => LOG_FNAME@,
        }),
{
    match sn {
        Some(s) => {
            let mut out = s.clone();
            out.append("-");
            out.append(NAME);
            out.append(".log");
            out
        },
        None => LOG_FNAME.to_string(),
    }
}

/// Seconds of the countdown after a pass, unless the table says otherwise.
pub fn default_close_secs() -> (r: u64)
    ensures
        r == 3,
{
    3
}

/// Whether an empty serial number is reported, unless the table says
/// otherwise.
pub fn default_require_sn() -> (r: bool)
    ensures
        r,
{
    true
}

/// The `[app]` table.
#[derive(Debug, Clone, Copy)]
pub struct AppInner {
    /// Seconds of the countdown before the window closes after a pass
    pub close_after_secs: u64,
    /// true: a pass is confirmed without the button and the window closes
    pub auto_close: bool,
}

impl Default for AppInner {
    fn default() -> (r: AppInner)
        ensures
            r.close_after_secs == 3,
            !r.auto_close,
    {
        AppInner { close_after_secs: default_close_secs(), auto_close: false }
    }
}

/// The `[sn]` table.
#[derive(Debug, Clone)]
pub struct SnInner {
    /// Path of the serial-number tool (ByoDmi); `None`: look under `tools/`
    pub tool_path: Option<String>,
    /// Whether an empty serial number is reported
    pub require_sn: bool,
}

impl SnInner {
    /// Whether a missing serial number is to be reported: only where the
    /// setting asks for one.
    pub fn warns_missing(&self, sn: &Option<String>) -> (w: bool)
        ensures
            w == (self.require_sn && sn is None),
    {
        self.require_sn && sn.is_none()
    }
}

impl Default for SnInner {
    fn default() -> (r: SnInner)
        ensures
            r.tool_path is None,
            r.require_sn,
    {
        SnInner { tool_path: None, require_sn: default_require_sn() }
    }
}

/// The settings table.
#[derive(Debug, Clone)]
pub struct AppCfg {
    /// `[app]`
    pub app: AppInner,
    /// `[sn]`
    pub sn: SnInner,
}

impl Default for AppCfg {
    fn default() -> (r: AppCfg)
        ensures
            r.app.close_after_secs == 3,
            !r.app.auto_close,
            r.sn.tool_path is None,
            r.sn.require_sn,
    {
        AppCfg { app: AppInner::default(), sn: SnInner::default() }
    }
}

} // verus!
