//! What the window shows: colours and labels of the states, shortened
//! outputs, the last lines of the log.
use vstd::prelude::*;
use vstd::string::{StrSliceExecFns, StringExecFns};
use crate::model::{Activation, CheckItem, DetectResult};
use crate::text::{chars_of, lines, lines_chars, slice_of, string_of, views};

verus! {

/// A colour as red, green and blue.
pub type Rgb = (u8, u8, u8);

pub open spec fn green() -> Rgb {
    (0x1f, 0xa0, 0x4f)
}

pub open spec fn red() -> Rgb {
    (0xd0, 0x33, 0x33)
}

pub open spec fn blue() -> Rgb {
    (0x1e, 0x6f, 0xb8)
}

pub open spec fn gray() -> Rgb {
    (0x8a, 0x8a, 0x8a)
}

pub open spec fn state_rgb(a: Activation) -> Rgb {
    match a {
        Activation::Activated => green(),
        Activation::NotActivated => red(),
        Activation::NotApplicable => blue(),
        Activation::Unknown => gray(),
    }
}

/// The colour of a state: green activated, red not activated, blue not
/// needed, gray unknown.
pub fn activation_color(a: Activation) -> (r: Rgb)
    ensures
        r == state_rgb(a),
{
    match a {
        Activation::Activated => (0x1f, 0xa0, 0x4f),
        Activation::NotActivated => (0xd0, 0x33, 0x33),
        Activation::NotApplicable => (0x1e, 0x6f, 0xb8),
        Activation::Unknown => (0x8a, 0x8a, 0x8a),
    }
}

/// The large status text and its colour: the state's label, or
/// `检测中...` in gray before a result.
pub fn status_look(a: Option<Activation>) -> (r: (&'static str, Rgb))
    ensures
        match a {
            Some(x) => r.0@ == x.label_text() && r.1 == state_rgb(x),
            None => r.0@ == "检测中..."@ && r.1 == gray(),
        },
{
    match a {
        Some(x) => (x.label(), activation_color(x)),
        None => ("检测中...", (0x8a, 0x8a, 0x8a)),
    }
}

/// The bottom button while checking: text, colour, and whether it can
/// confirm (only for an activated system).
pub fn detect_button_look(a: Option<Activation>) -> (r: (&'static str, Rgb, bool))
    ensures
        r.2 <==> a == Some(Activation::Activated),
        match a {
            Some(Activation::Activated) => r.0@ == "确认激活状态"@ && r.1 == green(),
            Some(x) => r.0@ == x.label_text() && r.1 == state_rgb(x),
            None => r.0@ == "检测中..."@ && r.1 == gray(),
        },
{
    match a {
        Some(Activation::Activated) => ("确认激活状态", (0x1f, 0xa0, 0x4f), true),
        Some(Activation::NotActivated) => ("未激活", (0xd0, 0x33, 0x33), false),
        Some(Activation::NotApplicable) => ("无需激活", (0x1e, 0x6f, 0xb8), false),
        Some(Activation::Unknown) => ("无法判定", (0x8a, 0x8a, 0x8a), false),
        None => ("检测中...", (0x8a, 0x8a, 0x8a), false),
    }
}

/// The state text over the "check again" button: the label, red for not
/// activated, blue for not needed, gray otherwise.
pub fn fail_wait_look(a: Option<Activation>) -> (r: (&'static str, Rgb))
    ensures
        match a {
            Some(x) => r.0@ == x.label_text() && r.1 == (match x {
                Activation::NotActivated => red(),
                Activation::NotApplicable => blue(),
                _ => gray(),
            }),
            None => r.0@ == "检测中..."@ && r.1 == gray(),
        },
{
    match a {
        Some(x) => (
            x.label(),
            match x {
                Activation::NotActivated => (0xd0, 0x33, 0x33),
                Activation::NotApplicable => (0x1e, 0x6f, 0xb8),
                _ => (0x8a, 0x8a, 0x8a),
            },
        ),
        None => ("检测中...", (0x8a, 0x8a, 0x8a)),
    }
}

/// A text cut to `max` characters, with `...` after it where it was longer.
pub open spec fn truncate_spec(s: Seq<char>, max: nat) -> Seq<char> {
    if s.len() <= max {
        s
    } else {
        s.take(max as int) + seq!['.', '.', '.']
    }
}

/// A text cut to `max` characters, with `...` after it where it was longer.
pub fn truncate(s: &str, max: usize) -> (r: String)
    ensures
        r@ == truncate_spec(s@, max as nat),
{
    let c = chars_of(s);
    if c.len() <= max {
        s.to_string()
    } else {
        let head = slice_of(&c, 0, max);
        let mut out = string_of(&head);
        out.append("...");
        proof {
            reveal_strlit("...");
        }
        assert(out@ =~= truncate_spec(s@, max as nat));
        out
    }
}

/// The last `n` lines of a text, in order.
pub open spec fn tail_spec(content: Seq<char>, n: nat) -> Seq<Seq<char>> {
    let ls = lines(content);
    if ls.len() <= n {
        ls
    } else {
        ls.skip(ls.len() - n)
    }
}

/// The last `n` lines of a text, in order.
pub fn tail_lines(content: &str, n: usize) -> (r: Vec<String>)
    ensures
        r@.map_values(|x: String| x@) == tail_spec(content@, n as nat),
{
    let t = chars_of(content);
    let ls = lines_chars(&t);
    let start: usize = if ls.len() <= n {
        0
    } else {
        ls.len() - n
    };
    let ghost want = views(ls@).skip(start as int);
    let mut out: Vec<String> = Vec::new();
    let mut i: usize = start;
    while i < ls.len()
        invariant
            start <= i <= ls.len(),
            views(ls@) == lines(content@),
            want == views(ls@).skip(start as int),
            out@.map_values(|x: String| x@) == want.take(i - start),
        decreases ls.len() - i,
    {
        let line = string_of(&ls[i]);
        let ghost before = out@;
        out.push(line);
        proof {
            assert(want.take(i + 1 - start) =~= want.take(i - start).push(ls@[i as int]@));
            assert(out@.map_values(|x: String| x@) =~= before.map_values(|x: String| x@).push(
                line@,
            ));
        }
        i += 1;
    }
    proof {
        assert(want.take(i - start) =~= want);
        if views(ls@).len() <= n {
            assert(want =~= views(ls@));
        }
    }
    out
}


// ------------------------------------------------------------------ panels

/// The label and value rows of the system panel: `检测中...` before a
/// result; else system, version, architecture and distribution id, then the
/// serial number and `PRETTY_NAME` where they are not empty, and the license
/// expiry where there is one.
pub open spec fn sys_rows_spec(r: Option<DetectResult>) -> Seq<(Seq<char>, Seq<char>)> {
    match r {
        None => seq![("检测中..."@, ""@)],
        Some(d) => {
            let base = seq![
                ("系统:"@, d.os.name@),
                ("版本:"@, d.os.version@),
                ("架构:"@, d.os.arch@),
                ("发行版 ID:"@, d.os.distro_id@),
            ];
            let with_sn = if d.os.sn@.len() > 0 {
                base.push(("SN:"@, d.os.sn@))
            } else {
                base
            };
            let with_pretty = if d.os.pretty@.len() > 0 {
                with_sn.push(("PRETTY_NAME:"@, d.os.pretty@))
            } else {
                with_sn
            };
            match d.expire_at {
                Some(e) => with_pretty.push(("授权到期:"@, e@)),
                None => with_pretty,
            }
        },
    }
}

/// The views of label and value rows.
pub open spec fn row_views(rows: Seq<(String, String)>) -> Seq<(Seq<char>, Seq<char>)> {
    rows.map_values(|p: (String, String)| (p.0@, p.1@))
}

fn push_row(rows: &mut Vec<(String, String)>, label: &str, value: &String)
    ensures
        row_views(final(rows)@) == row_views(old(rows)@).push((label@, value@)),
{
    let ghost before = rows@;
    rows.push((label.to_string(), value.clone()));
    assert(row_views(rows@) =~= row_views(before).push((label@, value@)));
}

/// The label and value rows of the system panel.
pub fn sys_info_rows(r: &Option<DetectResult>) -> (rows: Vec<(String, String)>)
    ensures
        row_views(rows@) == sys_rows_spec(*r),
{
    let mut rows: Vec<(String, String)> = Vec::new();
    match r {
        None => {
            let empty = String::new();
            proof {
                reveal_strlit("");
                assert(empty@ =~= ""@);
            }
            push_row(&mut rows, "检测中...", &empty);
            assert(row_views(rows@) =~= sys_rows_spec(*r));
        },
        Some(d) => {
            assert(row_views(rows@) =~= Seq::<(Seq<char>, Seq<char>)>::empty());
            push_row(&mut rows, "系统:", &d.os.name);
            push_row(&mut rows, "版本:", &d.os.version);
            push_row(&mut rows, "架构:", &d.os.arch);
            push_row(&mut rows, "发行版 ID:", &d.os.distro_id);
            if d.os.sn.as_str().unicode_len() > 0 {
                push_row(&mut rows, "SN:", &d.os.sn);
            }
            if d.os.pretty.as_str().unicode_len() > 0 {
                push_row(&mut rows, "PRETTY_NAME:", &d.os.pretty);
            }
            match &d.expire_at {
                Some(e) => {
                    push_row(&mut rows, "授权到期:", e);
                },
                None => {},
            }
            assert(row_views(rows@) =~= sys_rows_spec(*r));
        },
    }
    rows
}

/// One row of the details table.
pub struct DetailRow {
    pub name: String,
    pub command: String,
    pub verdict: String,
    /// the check failed: its verdict is shown in red
    pub failed: bool,
    /// the output cut to 160 characters
    pub short: String,
    /// the full output is shown on hover (it is not empty)
    pub hover: bool,
}

/// How the details table shows one check.
pub open spec fn shows_item(row: DetailRow, it: CheckItem) -> bool {
    &&& row.name@ == it.name@
    &&& row.command@ == it.command@
    &&& row.verdict@ == it.verdict@
    &&& row.failed == !it.success
    &&& row.short@ == truncate_spec(it.output@, 160)
    &&& row.hover == (it.output@.len() > 0)
}

/// The rows of the details table, one per check in order; the message
/// `等待检测结果...` before a result and `无检测项` for a result without
/// checks.
pub fn detail_rows(r: &Option<DetectResult>) -> (out: Result<Vec<DetailRow>, &'static str>)
    ensures
        r is None ==> (out matches Err(m) && m@ == "等待检测结果..."@),
        r matches Some(d) ==> (d.items@.len() == 0 ==> (out matches Err(m) && m@ == "无检测项"@)),
        r matches Some(d) ==> (d.items@.len() > 0 ==> (out matches Ok(rows) && rows@.len()
            == d.items@.len() && forall|i: int|
            0 <= i < rows@.len() ==> shows_item(#[trigger] rows@[i], d.items@[i]))),
{
    let d = match r {
        None => {
            return Err("等待检测结果...");
        },
        Some(d) => d,
    };
    if d.items.len() == 0 {
        return Err("无检测项");
    }
    let mut rows: Vec<DetailRow> = Vec::new();
    let mut i: usize = 0;
    while i < d.items.len()
        invariant
            i <= d.items.len(),
            rows@.len() == i,
            forall|k: int| 0 <= k < i ==> shows_item(#[trigger] rows@[k], d.items@[k]),
        decreases d.items.len() - i,
    {
        let it = &d.items[i];
        let row = DetailRow {
            name: it.name.clone(),
            command: it.command.clone(),
            verdict: it.verdict.clone(),
            failed: !it.success,
            short: truncate(it.output.as_str(), 160),
            hover: it.output.as_str().unicode_len() > 0,
        };
        rows.push(row);
        i += 1;
    }
    Ok(rows)
}

} // verus!
