//! The values a detection produces: system facts, the activation state, the
//! single checks and their outputs.
use vstd::prelude::*;

verus! {

/// Facts about the running system.
#[derive(Debug, Clone)]
pub struct OsInfo {
    /// Display name (银河麒麟 / 统信 UOS / Ubuntu / Windows ...)
    pub name: String,
    /// Version (V10 SP1 / V20 / 20.04 / 11 ...)
    pub version: String,
    /// CPU architecture (x86_64 / aarch64 ...)
    pub arch: String,
    /// Distribution id (kylin / uos / ubuntu / windows)
    pub distro_id: String,
    /// `PRETTY_NAME` of os-release (Linux only)
    pub pretty: String,
    /// Device serial number, empty when none was found
    pub sn: String,
    /// CPU model and vendor
    pub cpu: String,
    /// Where the serial number came from
    pub sn_source: String,
}

impl OsInfo {
    /// All fields empty.
    pub fn empty() -> (r: OsInfo)
        ensures
            r.name@.len() == 0,
            r.version@.len() == 0,
            r.arch@.len() == 0,
            r.distro_id@.len() == 0,
            r.pretty@.len() == 0,
            r.sn@.len() == 0,
            r.cpu@.len() == 0,
            r.sn_source@.len() == 0,
    {
        OsInfo {
            name: String::new(),
            version: String::new(),
            arch: String::new(),
            distro_id: String::new(),
            pretty: String::new(),
            sn: String::new(),
            cpu: String::new(),
            sn_source: String::new(),
        }
    }
}

impl Default for OsInfo {
    fn default() -> (r: OsInfo)
        ensures
            r.name@.len() == 0,
            r.version@.len() == 0,
            r.arch@.len() == 0,
            r.distro_id@.len() == 0,
            r.pretty@.len() == 0,
            r.sn@.len() == 0,
            r.cpu@.len() == 0,
            r.sn_source@.len() == 0,
    {
        OsInfo::empty()
    }
}

/// Activation state of the system.
#[derive(Debug, Clone, Copy, PartialEq, Eq, Structural)]
pub enum Activation {
    /// 已激活
    Activated,
    /// 未激活
    NotActivated,
    /// 无需激活 (Ubuntu)
    NotApplicable,
    /// 无法判定
    Unknown,
}

impl Activation {
    /// The Chinese label of a state.
    pub open spec fn label_text(self) -> Seq<char> {
        match self {
            Activation::Activated => "已激活"@,
            Activation::NotActivated => "未激活"@,
            Activation::NotApplicable => "无需激活"@,
            Activation::Unknown => "无法判定"@,
        }
    }

    /// Chinese label of the state.
    pub fn label(&self) -> (r: &'static str)
        ensures
            r@ == self.label_text(),
    {
        match self {
            Activation::Activated => "已激活",
            Activation::NotActivated => "未激活",
            Activation::NotApplicable => "无需激活",
            Activation::Unknown => "无法判定",
        }
    }
}

/// One check: what ran, whether it ran, what it printed, what it means.
#[derive(Debug, Clone)]
pub struct CheckItem {
    /// Name of the check
    pub name: String,
    /// The command line that ran (reproducible)
    pub command: String,
    /// Whether the command ran successfully
    pub success: bool,
    /// Raw output
    pub output: String,
    /// What the result means
    pub verdict: String,
}

impl CheckItem {
    pub fn new(name: &str, command: &str, success: bool, output: String, verdict: &str) -> (r: Self)
        ensures
            r.name@ == name@,
            r.command@ == command@,
            r.success == success,
            r.output == output,
            r.verdict@ == verdict@,
    {
        CheckItem {
            name: name.to_string(),
            command: command.to_string(),
            success,
            output,
            verdict: verdict.to_string(),
        }
    }
}

/// The result of one complete detection.
#[derive(Debug, Clone)]
pub struct DetectResult {
    pub os: OsInfo,
    pub activation: Activation,
    /// One-line summary
    pub summary: String,
    pub items: Vec<CheckItem>,
    /// License expiry (Kylin .kyinfo term / UOS 到期时间 / Windows volume expiry)
    pub expire_at: Option<String>,
    /// Local time of the detection, `%Y-%m-%d %H:%M:%S`
    pub checked_at: String,
}

} // verus!
