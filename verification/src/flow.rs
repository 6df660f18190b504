//! The confirmation flow of the checking window:
//! Detect (checking) -> Confirm (activated, awaiting confirmation)
//! -> Countdown -> Closing; a failed check waits for a new one (FailWait) or,
//! with `auto_close`, counts down too. On exit one report is given, passing
//! only for an activated and confirmed system.
use vstd::prelude::*;
use vstd::string::StringExecFns;
use crate::config::AppInner;
use crate::model::{Activation, DetectResult, OsInfo};
use crate::text::push_dec;

verus! {

/// The stage of the window.
#[derive(Debug, Clone, Copy, PartialEq, Eq, Structural)]
pub enum Phase {
    /// checking, or waiting for a check to finish
    Detect,
    /// activated; waiting for the user to confirm
    Confirm,
    /// not activated (without `auto_close`); waiting for a new check or close
    FailWait,
    /// confirmed; seconds left before the window closes
    Countdown { left: u64 },
    /// the window was told to close
    Closing,
}

/// How the activation state was confirmed.
#[derive(Debug, Clone, Copy, PartialEq, Eq, Structural)]
pub enum ConfirmBy {
    Button,
    Auto,
}

impl ConfirmBy {
    pub open spec fn text(self) -> Seq<char> {
        match self {
            ConfirmBy::Button => "button"@,
            ConfirmBy::Auto => "auto"@,
        }
    }

    /// `button` or `auto`.
    pub fn as_str(&self) -> (r: &'static str)
        ensures
            r@ == self.text(),
    {
        match self {
            ConfirmBy::Button => "button",
            ConfirmBy::Auto => "auto",
        }
    }
}

/// What one tick of the countdown asks of the window.
#[derive(Debug, Clone, Copy, PartialEq, Eq, Structural)]
pub enum Tick {
    /// no countdown runs
    Idle,
    /// less than a second since the last tick: look again soon
    Wait,
    /// one second counted
    Counted,
    /// the countdown ended: close the window
    Close,
}

/// The report given on exit.
pub struct Report {
    /// true only for an activated and confirmed system
    pub status: bool,
    /// `PASS;...` or `NG;...`
    pub content: String,
    /// whether the details say "confirmed"
    pub confirmed: bool,
    /// `button`, `auto` or `none`
    pub confirm_by: &'static str,
}

/// The state of the confirmation flow.
pub struct Flow {
    /// the `[app]` settings
    pub cfg: AppInner,
    /// the result of the last finished check
    pub result: Option<DetectResult>,
    /// a check is running
    pub checking: bool,
    pub phase: Phase,
    /// the activation state was confirmed
    pub confirmed: bool,
    pub confirm_by: ConfirmBy,
    /// the exit report was given
    pub r_emitted: bool,
}

/// The phase after one counted second.
pub open spec fn tick_phase(p: Phase) -> Phase {
    match p {
        Phase::Countdown { left } => if left <= 1 {
            Phase::Closing
        } else {
            Phase::Countdown { left: (left - 1) as u64 }
        },
        _ => p,
    }
}

/// The phase after `n` counted seconds.
pub open spec fn ticks(p: Phase, n: nat) -> Phase
    decreases n,
{
    if n == 0 {
        p
    } else {
        ticks(tick_phase(p), (n - 1) as nat)
    }
}

/// Seconds of a countdown: the setting, at least one.
pub open spec fn countdown_secs(cfg: AppInner) -> u64 {
    if cfg.close_after_secs >= 1 {
        cfg.close_after_secs
    } else {
        1
    }
}

/// The result is there and shows an activated system.
pub open spec fn activated(result: Option<DetectResult>) -> bool {
    result matches Some(r) && r.activation == Activation::Activated
}

/// The exit report for a state: a pass needs an activated result and a
/// confirmation.
pub open spec fn report_spec(result: Option<DetectResult>, confirmed: bool, by: ConfirmBy) -> (
    bool,
    Seq<char>,
    bool,
    Seq<char>,
) {
    match result {
        Some(r) => if r.activation == Activation::Activated && confirmed {
            (true, "PASS;"@ + r.summary@ + ";"@ + by.text() + "确认"@, true, by.text())
        } else if r.activation == Activation::Activated {
            (false, "NG;激活成功但未确认(需点击确认按钮或配置 auto_close=true)"@, false, "none"@)
        } else {
            (false, "NG;"@ + r.summary@, false, "none"@)
        },
        None => (false, "NG;未完成检测"@, false, "none"@),
    }
}

impl Flow {
    /// A countdown never stands at zero; a running check has no result
    /// yet; the Confirm phase is reached only with an activated result.
    pub open spec fn wf(&self) -> bool {
        &&& self.phase matches Phase::Countdown { left } ==> left >= 1
        &&& self.checking ==> self.result is None
        &&& self.phase == Phase::Confirm ==> activated(self.result)
    }

    /// A new flow: waiting for the first check.
    pub fn new(cfg: AppInner) -> (r: Flow)
        ensures
            r.wf(),
            r.cfg == cfg,
            r.result is None,
            !r.checking,
            r.phase == Phase::Detect,
            !r.confirmed,
            r.confirm_by == ConfirmBy::Button,
            !r.r_emitted,
    {
        Flow {
            cfg,
            result: None,
            checking: false,
            phase: Phase::Detect,
            confirmed: false,
            confirm_by: ConfirmBy::Button,
            r_emitted: false,
        }
    }

    /// Starts a check unless one runs; true when the caller is to run it.
    pub fn trigger_detect(&mut self) -> (started: bool)
        requires
            old(self).wf(),
        ensures
            final(self).wf(),
            started == !old(self).checking,
            !started ==> *final(self) == *old(self),
            started ==> {
                &&& final(self).checking
                &&& final(self).phase == Phase::Detect
                &&& final(self).result is None
                &&& final(self).cfg == old(self).cfg
                &&& final(self).confirmed == old(self).confirmed
                &&& final(self).confirm_by == old(self).confirm_by
                &&& final(self).r_emitted == old(self).r_emitted
            },
    {
        if self.checking {
            return false;
        }
        self.checking = true;
        self.phase = Phase::Detect;
        self.result = None;
        true
    }

    /// The running check finished with this result.
    pub fn receive(&mut self, r: DetectResult)
        requires
            old(self).wf(),
            old(self).checking,
        ensures
            final(self).wf(),
            final(self).result == Some(r),
            !final(self).checking,
            final(self).phase == old(self).phase,
            final(self).cfg == old(self).cfg,
            final(self).confirmed == old(self).confirmed,
            final(self).confirm_by == old(self).confirm_by,
            final(self).r_emitted == old(self).r_emitted,
    {
        self.result = Some(r);
        self.checking = false;
    }

    /// Starts the countdown of `max(close_after_secs, 1)` seconds.
    pub fn enter_countdown(&mut self)
        requires
            old(self).wf(),
        ensures
            final(self).phase == (Phase::Countdown { left: countdown_secs(old(self).cfg) }),
            final(self).wf(),
            final(self).cfg == old(self).cfg,
            final(self).result == old(self).result,
            final(self).checking == old(self).checking,
            final(self).confirmed == old(self).confirmed,
            final(self).confirm_by == old(self).confirm_by,
            final(self).r_emitted == old(self).r_emitted,
    {
        let left = if self.cfg.close_after_secs >= 1 {
            self.cfg.close_after_secs
        } else {
            1
        };
        self.phase = Phase::Countdown { left };
    }

    /// After a check finished (in the Detect phase with a result): an
    /// activated system waits for confirmation, or with `auto_close` is
    /// confirmed and counts down; any other state waits for a new check, or
    /// with `auto_close` counts down unconfirmed. True when a countdown
    /// started.
    pub fn advance_after_detect(&mut self) -> (started: bool)
        requires
            old(self).wf(),
        ensures
            final(self).wf(),
            final(self).cfg == old(self).cfg,
            final(self).result == old(self).result,
            final(self).checking == old(self).checking,
            final(self).r_emitted == old(self).r_emitted,
            !(old(self).phase == Phase::Detect && old(self).result is Some) ==> (*final(self)
                == *old(self) && !started),
            old(self).phase == Phase::Detect && old(self).result is Some ==> {
                if activated(old(self).result) {
                    if old(self).cfg.auto_close {
                        &&& started
                        &&& final(self).confirmed
                        &&& final(self).confirm_by == ConfirmBy::Auto
                        &&& final(self).phase == (Phase::Countdown {
                            left: countdown_secs(old(self).cfg),
                        })
                    } else {
                        &&& !started
                        &&& final(self).phase == Phase::Confirm
                        &&& final(self).confirmed == old(self).confirmed
                        &&& final(self).confirm_by == old(self).confirm_by
                    }
                } else {
                    &&& final(self).confirmed == old(self).confirmed
                    &&& final(self).confirm_by == old(self).confirm_by
                    &&& if old(self).cfg.auto_close {
                        &&& started
                        &&& final(self).phase == (Phase::Countdown {
                            left: countdown_secs(old(self).cfg),
                        })
                    } else {
                        &&& !started
                        &&& final(self).phase == Phase::FailWait
                    }
                }
            },
    {
        if self.phase != Phase::Detect {
            return false;
        }
        let is_activated = match &self.result {
            Some(r) => r.activation == Activation::Activated,
            None => {
                return false;
            },
        };
        if !is_activated {
            if self.cfg.auto_close {
                self.enter_countdown();
                return true;
            } else {
                self.phase = Phase::FailWait;
                return false;
            }
        }
        if self.cfg.auto_close {
            self.confirmed = true;
            self.confirm_by = ConfirmBy::Auto;
            self.enter_countdown();
            true
        } else {
            self.phase = Phase::Confirm;
            false
        }
    }

    /// The user confirmed; counts down unless already confirmed. True when a
    /// countdown started.
    pub fn confirm_by_button(&mut self) -> (started: bool)
        requires
            old(self).wf(),
        ensures
            final(self).wf(),
            started == !old(self).confirmed,
            !started ==> *final(self) == *old(self),
            started ==> {
                &&& final(self).confirmed
                &&& final(self).confirm_by == ConfirmBy::Button
                &&& final(self).phase == (Phase::Countdown { left: countdown_secs(old(self).cfg) })
                &&& final(self).cfg == old(self).cfg
                &&& final(self).result == old(self).result
                &&& final(self).checking == old(self).checking
                &&& final(self).r_emitted == old(self).r_emitted
            },
    {
        if self.confirmed {
            return false;
        }
        self.confirmed = true;
        self.confirm_by = ConfirmBy::Button;
        self.enter_countdown();
        true
    }

    /// The confirmation button was clicked: it confirms in the Confirm
    /// phase, and in the Detect phase when the result shows activation; it
    /// does nothing otherwise. True when a countdown started.
    pub fn click_confirm(&mut self) -> (started: bool)
        requires
            old(self).wf(),
        ensures
            final(self).wf(),
            started ==> activated(old(self).result),
            ({
                let enabled = old(self).phase == Phase::Confirm || (old(self).phase == Phase::Detect
                    && activated(old(self).result));
                &&& (!enabled || old(self).confirmed) ==> (*final(self) == *old(self) && !started)
                &&& (enabled && !old(self).confirmed) ==> {
                    &&& started
                    &&& final(self).confirmed
                    &&& final(self).confirm_by == ConfirmBy::Button
                    &&& final(self).phase == (Phase::Countdown { left: countdown_secs(old(self).cfg) })
                    &&& final(self).cfg == old(self).cfg
                    &&& final(self).result == old(self).result
                    &&& final(self).checking == old(self).checking
                    &&& final(self).r_emitted == old(self).r_emitted
                }
            }),
    {
        let enabled = match self.phase {
            Phase::Confirm => true,
            Phase::Detect => match &self.result {
                Some(r) => r.activation == Activation::Activated,
                None => false,
            },
            _ => false,
        };
        if enabled {
            self.confirm_by_button()
        } else {
            false
        }
    }

    /// One pass of the countdown; `second_passed` tells whether a second
    /// went by since the last counted tick.
    pub fn tick_countdown(&mut self, second_passed: bool) -> (t: Tick)
        requires
            old(self).wf(),
        ensures
            final(self).wf(),
            final(self).cfg == old(self).cfg,
            final(self).result == old(self).result,
            final(self).checking == old(self).checking,
            final(self).confirmed == old(self).confirmed,
            final(self).confirm_by == old(self).confirm_by,
            final(self).r_emitted == old(self).r_emitted,
            !(old(self).phase is Countdown) ==> (t == Tick::Idle && final(self).phase == old(self).phase),
            old(self).phase is Countdown && !second_passed ==> (t == Tick::Wait && final(self).phase == old(self).phase),
            old(self).phase is Countdown && second_passed ==> final(self).phase == tick_phase(
                old(self).phase,
            ) && t == (if final(self).phase == Phase::Closing {
                Tick::Close
            } else {
                Tick::Counted
            }),
    {
        let left = match self.phase {
            Phase::Countdown { left } => left,
            _ => {
                return Tick::Idle;
            },
        };
        if !second_passed {
            return Tick::Wait;
        }
        if left <= 1 {
            self.phase = Phase::Closing;
            Tick::Close
        } else {
            self.phase = Phase::Countdown { left: left - 1 };
            Tick::Counted
        }
    }

    /// The exit report, once: later calls give `None`. It passes only for
    /// an activated result that was confirmed.
    pub fn emit_r(&mut self) -> (r: Option<Report>)
        requires
            old(self).wf(),
        ensures
            final(self).wf(),
            final(self).r_emitted,
            final(self).cfg == old(self).cfg,
            final(self).result == old(self).result,
            final(self).checking == old(self).checking,
            final(self).phase == old(self).phase,
            final(self).confirmed == old(self).confirmed,
            final(self).confirm_by == old(self).confirm_by,
            old(self).r_emitted ==> r is None,
            !old(self).r_emitted ==> (r matches Some(rep) && (
                rep.status,
                rep.content@,
                rep.confirmed,
                rep.confirm_by@,
            ) == report_spec(old(self).result, old(self).confirmed, old(self).confirm_by)),
    {
        if self.r_emitted {
            return None;
        }
        self.r_emitted = true;
        let by = self.confirm_by.as_str();
        match &self.result {
            Some(r) => {
                if r.activation == Activation::Activated && self.confirmed {
                    let mut content = "PASS;".to_string();
                    content.append(r.summary.as_str());
                    content.append(";");
                    content.append(by);
                    content.append("确认");
                    Some(Report { status: true, content, confirmed: true, confirm_by: by })
                } else if r.activation == Activation::Activated {
                    Some(
                        Report {
                            status: false,
                            content: "NG;激活成功但未确认(需点击确认按钮或配置 auto_close=true)".to_string(),
                            confirmed: false,
                            confirm_by: "none",
                        },
                    )
                } else {
                    let mut content = "NG;".to_string();
                    content.append(r.summary.as_str());
                    Some(Report { status: false, content, confirmed: false, confirm_by: "none" })
                }
            },
            None => Some(
                Report {
                    status: false,
                    content: "NG;未完成检测".to_string(),
                    confirmed: false,
                    confirm_by: "none",
                },
            ),
        }
    }

    /// The text under the bottom button during the countdown.
    pub fn countdown_text(&self, left: u64) -> (r: String)
        ensures
            r@ == "已确认("@ + self.confirm_by.text() + "),"@ + crate::text::dec(left as nat)
                + " 秒后自动关闭窗口..."@,
    {
        let mut s = "已确认(".to_string();
        s.append(self.confirm_by.as_str());
        s.append("),");
        push_dec(&mut s, left);
        s.append(" 秒后自动关闭窗口...");
        s
    }
}

/// The system as the exit report names it: name, a space, version.
pub fn report_os_text(os: &OsInfo) -> (r: String)
    ensures
        r@ == os.name@ + " "@ + os.version@,
{
    let mut s = os.name.clone();
    s.append(" ");
    s.append(os.version.as_str());
    s
}

// ------------------------------------------------------------------ laws

/// A countdown of `n` seconds closes the window after exactly `n` counted
/// seconds, and runs on before that.
pub proof fn law_countdown_closes(n: u64)
    requires
        n >= 1,
    ensures
        ticks(Phase::Countdown { left: n }, n as nat) == Phase::Closing,
        forall|k: nat| k < n ==> ticks(Phase::Countdown { left: n }, k) == (Phase::Countdown {
            left: (n - k) as u64,
        }),
    decreases n,
{
    if n == 1 {
        assert(ticks(Phase::Countdown { left: 1 }, 1) == ticks(Phase::Closing, 0));
    } else {
        law_countdown_closes((n - 1) as u64);
        assert(tick_phase(Phase::Countdown { left: n }) == Phase::Countdown {
            left: (n - 1) as u64,
        });
        assert forall|k: nat| k < n implies ticks(Phase::Countdown { left: n }, k) == (
        Phase::Countdown { left: (n - k) as u64 }) by {
            if k > 0 {
                assert(ticks(Phase::Countdown { left: n }, k) == ticks(
                    Phase::Countdown { left: (n - 1) as u64 },
                    (k - 1) as nat,
                ));
            }
        }
    }
}

/// The exit report passes exactly when the result shows an activated
/// system and that state was confirmed.
pub proof fn law_pass_needs_activation_and_confirmation(
    result: Option<DetectResult>,
    confirmed: bool,
    by: ConfirmBy,
)
    ensures
        report_spec(result, confirmed, by).0 <==> (activated(result) && confirmed),
        report_spec(result, confirmed, by).2 <==> report_spec(result, confirmed, by).0,
{
}

} // verus!
