//! One complete detection put together.
use vstd::prelude::*;
use crate::active::Outcome;
use crate::model::{CheckItem, DetectResult, OsInfo};

verus! {

/// Puts a detection together: the serial number (empty where none was
/// found) and its source go into the system facts, and the serial-number
/// items come before the activation items.
pub fn build_result(
    os: OsInfo,
    sn: Option<String>,
    sn_source: String,
    outcome: Outcome,
    sn_probes: Vec<CheckItem>,
    checked_at: String,
) -> (r: DetectResult)
    ensures
        r.os.sn@ == (match sn {
            Some(s) => s@,
            None => Seq::<char>::empty(),
        }),
        r.os.sn_source == sn_source,
        r.os.name == os.name,
        r.os.version == os.version,
        r.os.arch == os.arch,
        r.os.distro_id == os.distro_id,
        r.os.pretty == os.pretty,
        r.os.cpu == os.cpu,
        r.activation == outcome.0,
        r.items@ == sn_probes@ + outcome.1@,
        r.summary == outcome.2,
        r.expire_at == outcome.3,
        r.checked_at == checked_at,
{
    let mut os = os;
    os.sn = match sn {
        Some(s) => s,
        None => String::new(),
    };
    os.sn_source = sn_source;
    let (activation, check_items, summary, expire_at) = outcome;
    let mut items = sn_probes;
    let mut rest = check_items;
    items.append(&mut rest);
    DetectResult { os, activation, summary, items, expire_at, checked_at }
}

} // verus!
