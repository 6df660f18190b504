//! Activation checks: which commands a system needs, and what their output
//! means.
//!
//! Windows: `slmgr.vbs` (`-xpr` expiry state / `-dlv` license details)
//! Kylin V10: the `/etc/.kyactivation` activation-code file + `licence -l`
//! (license list) + the `/etc/.kyinfo` license file
//! UOS V20: `uos-activator-cmd -q` (activation state)
//! Ubuntu: no activation scheme
use vstd::prelude::*;
use vstd::string::StringExecFns;
use crate::date::{civil_days, civil_fits, days_from_civil, tdiv};
use crate::model::{Activation, CheckItem, OsInfo};
use crate::text::{
    all_digits, infix, lemma_drop_lead_lack, lemma_drop_trail_lack, lemma_first_word_infix,
    lemma_infix_contains, lemma_infix_subrange, lemma_infix_trans, lemma_lines_infix,
    lemma_find_from_found, lemma_find_from_spec, lemma_infix_lack, lemma_lines_lack,
    lemma_lines_no_break, lemma_lines_single, lemma_trim_ends, lemma_trim_fixed,
    lemma_trim_infix, is_ws, occurs_at, find,
    chars_of, contains, contains_str, first_word, first_word_chars, has_char, lines, lines_chars,
    lowercase_chars, lowercase_of, parse_i64, parse_i64_chars, split_any, split_any_chars,
    split_once, split_once_str, string_of, trim, trim_chars, trim_start_char,
    trim_start_char_chars, views,
};

verus! {

// ------------------------------------------------------------------ keywords

/// The texts of a list of literals.
pub open spec fn strs_view(s: Seq<&str>) -> Seq<Seq<char>> {
    s.map_values(|k: &str| k@)
}

/// Some keyword of `kws` occurs in `low`.
pub open spec fn any_in(low: Seq<char>, kws: Seq<Seq<char>>) -> bool {
    exists|i: int| 0 <= i < kws.len() && contains(low, #[trigger] kws[i])
}

/// Keyword verdict on a command output: a "not activated" keyword wins over
/// an "activated" one (so that "not activated" never counts as "activated").
pub open spec fn judge_spec(out: Seq<char>, act: Seq<Seq<char>>, not: Seq<Seq<char>>) -> Activation {
    let low = lowercase_of(out);
    if any_in(low, not) {
        Activation::NotActivated
    } else if any_in(low, act) {
        Activation::Activated
    } else {
        Activation::Unknown
    }
}

/// Whether any keyword occurs in `low`.
pub fn contains_any(low: &Vec<char>, kws: &[&str]) -> (b: bool)
    ensures
        b == any_in(low@, strs_view(kws@)),
{
    let mut i: usize = 0;
    while i < kws.len()
        invariant
            i <= kws@.len(),
            forall|k: int| 0 <= k < i ==> !contains(low@, #[trigger] strs_view(kws@)[k]),
        decreases kws@.len() - i,
    {
        if contains_str(low, kws[i]) {
            assert(contains(low@, strs_view(kws@)[i as int]));
            return true;
        }
        i += 1;
    }
    false
}

/// Keyword verdict on a command output (lowercased first).
pub fn judge(out: &str, act_kw: &[&str], not_kw: &[&str]) -> (r: Activation)
    ensures
        r == judge_spec(out@, strs_view(act_kw@), strs_view(not_kw@)),
{
    let s = lowercase_chars(out);
    if contains_any(&s, not_kw) {
        return Activation::NotActivated;
    }
    if contains_any(&s, act_kw) {
        return Activation::Activated;
    }
    Activation::Unknown
}

pub open spec fn kylin_act_kw() -> Seq<Seq<char>> {
    seq!["已激活"@, "activated"@, "永久授权"@, "授权成功"@, "已授权"@]
}

pub open spec fn kylin_not_kw() -> Seq<Seq<char>> {
    seq![
        "未激活"@,
        "not activated"@,
        "试用"@,
        "trial"@,
        "invalid"@,
        "expired"@,
        "未授权"@,
        "未激活"@,
    ]
}

pub open spec fn uos_act_kw() -> Seq<Seq<char>> {
    seq!["已激活"@, "activated"@, "激活成功"@, "已授权"@, "免费授权"@, "正式授权"@]
}

pub open spec fn uos_not_kw() -> Seq<Seq<char>> {
    seq![
        "未激活"@,
        "not activated"@,
        "未授权"@,
        "试用期"@,
        "试用"@,
        "trial"@,
        "expired"@,
        "已过期"@,
        "inactive"@,
        "未激活"@,
    ]
}

/// Keyword verdict on `licence -l`.
pub fn judge_kylin(out: &str) -> (r: Activation)
    ensures
        r == judge_spec(out@, kylin_act_kw(), kylin_not_kw()),
{
    let act: [&str; 5] = ["已激活", "activated", "永久授权", "授权成功", "已授权"];
    let not: [&str; 8] = [
        "未激活",
        "not activated",
        "试用",
        "trial",
        "invalid",
        "expired",
        "未授权",
        "未激活",
    ];
    assert(strs_view(act@) =~= kylin_act_kw());
    assert(strs_view(not@) =~= kylin_not_kw());
    judge(out, &act, &not)
}

/// Keyword verdict on `uos-activator-cmd -q`.
pub fn judge_uos(out: &str) -> (r: Activation)
    ensures
        r == judge_spec(out@, uos_act_kw(), uos_not_kw()),
{
    let act: [&str; 6] = ["已激活", "activated", "激活成功", "已授权", "免费授权", "正式授权"];
    let not: [&str; 10] = [
        "未激活",
        "not activated",
        "未授权",
        "试用期",
        "试用",
        "trial",
        "expired",
        "已过期",
        "inactive",
        "未激活",
    ];
    assert(strs_view(act@) =~= uos_act_kw());
    assert(strs_view(not@) =~= uos_not_kw());
    judge(out, &act, &not)
}

pub open spec fn win_xpr_not_kw() -> Seq<Seq<char>> {
    seq!["通知模式"@, "未激活"@, "notification"@, "not activated"@]
}

pub open spec fn win_dlv_not_kw() -> Seq<Seq<char>> {
    seq!["unlicensed"@, "未授权"@, "未激活"@]
}

pub open spec fn win_xpr_act_kw() -> Seq<Seq<char>> {
    seq![
        "永久激活"@,
        "已激活"@,
        "permanently activated"@,
        "activated"@,
        "将在"@,
        "到期"@,
        "过期"@,
        "expires"@,
    ]
}

pub open spec fn win_dlv_act_kw() -> Seq<Seq<char>> {
    seq!["licensed"@, "已授权"@]
}

/// Verdict on the outputs of `slmgr.vbs -xpr` and `-dlv`: any "not activated"
/// sign in either wins over every "activated" sign.
pub open spec fn windows_spec(xpr: Seq<char>, dlv: Seq<char>) -> Activation {
    let x = lowercase_of(xpr);
    let d = lowercase_of(dlv);
    if any_in(x, win_xpr_not_kw()) || any_in(d, win_dlv_not_kw()) {
        Activation::NotActivated
    } else if any_in(x, win_xpr_act_kw()) || any_in(d, win_dlv_act_kw()) {
        Activation::Activated
    } else {
        Activation::Unknown
    }
}

/// Verdict on the outputs of `slmgr.vbs -xpr` and `-dlv`.
pub fn judge_windows(xpr: &str, dlv: &str) -> (r: Activation)
    ensures
        r == windows_spec(xpr@, dlv@),
{
    let x = lowercase_chars(xpr);
    let d = lowercase_chars(dlv);
    let x_not: [&str; 4] = ["通知模式", "未激活", "notification", "not activated"];
    let d_not: [&str; 3] = ["unlicensed", "未授权", "未激活"];
    let x_act: [&str; 8] = [
        "永久激活",
        "已激活",
        "permanently activated",
        "activated",
        "将在",
        "到期",
        "过期",
        "expires",
    ];
    let d_act: [&str; 2] = ["licensed", "已授权"];
    assert(strs_view(x_not@) =~= win_xpr_not_kw());
    assert(strs_view(d_not@) =~= win_dlv_not_kw());
    assert(strs_view(x_act@) =~= win_xpr_act_kw());
    assert(strs_view(d_act@) =~= win_dlv_act_kw());
    if contains_any(&x, &x_not) || contains_any(&d, &d_not) {
        return Activation::NotActivated;
    }
    if contains_any(&x, &x_act) || contains_any(&d, &d_act) {
        return Activation::Activated;
    }
    Activation::Unknown
}

// ------------------------------------------------------------------ license texts

/// Separators between the numbers of a date such as `2025-07-29`.
pub open spec fn date_seps() -> Seq<char> {
    seq!['-', '/', '.', ' ', ':']
}

/// The pieces that parse as integers, in order; the others are skipped.
pub open spec fn parsed_ints(ps: Seq<Seq<char>>) -> Seq<int>
    decreases ps.len(),
{
    if ps.len() == 0 {
        seq![]
    } else {
        let rest = parsed_ints(ps.drop_last());
        match parse_i64(ps.last()) {
            Some(v) => rest.push(v),
            None => rest,
        }
    }
}

/// The numbers after `term=` on the first line (from `i` on) that holds it.
pub open spec fn term_nums_from(ls: Seq<Seq<char>>, i: int) -> Option<Seq<int>>
    decreases ls.len() - i,
{
    if i < 0 || i >= ls.len() {
        None
    } else {
        match split_once(trim(ls[i]), "term="@) {
            Some(p) => Some(parsed_ints(split_any(trim(p.1), date_seps()))),
            None => term_nums_from(ls, i + 1),
        }
    }
}

/// The numbers of the `term=` date of a `.kyinfo` file, if a line holds one.
pub open spec fn kyinfo_term_nums(content: Seq<char>) -> Option<Seq<int>> {
    term_nums_from(lines(content), 0)
}

/// The day number of the `.kyinfo` license term: taken from the first line
/// that holds `term=`, whose first three numbers are year, month and day.
pub open spec fn kyinfo_expire(content: Seq<char>) -> Option<int> {
    match kyinfo_term_nums(content) {
        Some(n) => if n.len() >= 3 {
            Some(civil_days(n[0], n[1], n[2]))
        } else {
            None
        },
        None => None,
    }
}

/// The term date of a `.kyinfo` text can be turned into a day number
/// without overflow.
pub open spec fn kyinfo_date_fits(content: Seq<char>) -> bool {
    match kyinfo_term_nums(content) {
        Some(n) => n.len() >= 3 ==> civil_fits(n[0], n[1], n[2]),
        None => true,
    }
}

pub open spec fn ints(v: Seq<i64>) -> Seq<int> {
    v.map_values(|x: i64| x as int)
}

/// The pieces that parse as integers.
pub fn parse_ints(ps: &Vec<Vec<char>>) -> (r: Vec<i64>)
    ensures
        ints(r@) == parsed_ints(views(ps@)),
{
    let mut out: Vec<i64> = Vec::new();
    let mut i: usize = 0;
    while i < ps.len()
        invariant
            i <= ps.len(),
            ints(out@) == parsed_ints(views(ps@).take(i as int)),
        decreases ps.len() - i,
    {
        let ghost before = out@;
        proof {
            assert(views(ps@).take(i + 1).drop_last() =~= views(ps@).take(i as int));
            assert(views(ps@).take(i + 1).last() == ps@[i as int]@);
        }
        match parse_i64_chars(&ps[i]) {
            Some(v) => {
                out.push(v);
                assert(ints(out@) =~= ints(before).push(v as int));
            },
            None => {},
        }
        i += 1;
    }
    assert(views(ps@).take(i as int) =~= views(ps@));
    out
}

/// The numbers after `term=` on the first line of `content` that holds it.
pub fn kyinfo_term_numbers(content: &str) -> (r: Option<Vec<i64>>)
    ensures
        r matches Some(v) ==> kyinfo_term_nums(content@) == Some(ints(v@)),
        r is None ==> kyinfo_term_nums(content@) is None,
{
    let text = chars_of(content);
    let ls = lines_chars(&text);
    let mut i: usize = 0;
    while i < ls.len()
        invariant
            i <= ls.len(),
            views(ls@) == lines(content@),
            term_nums_from(views(ls@), 0) == term_nums_from(views(ls@), i as int),
        decreases ls.len() - i,
    {
        let line = trim_chars(&ls[i]);
        assert(views(ls@)[i as int] == ls@[i as int]@);
        match split_once_str(&line, "term=") {
            Some((_, v)) => {
                let v = trim_chars(&v);
                let seps = vec!['-', '/', '.', ' ', ':'];
                assert(seps@ =~= date_seps());
                let pieces = split_any_chars(&v, &seps);
                return Some(parse_ints(&pieces));
            },
            None => {},
        }
        i += 1;
    }
    None
}

/// Whether every intermediate value of `days_from_civil(y, m, d)` fits in
/// an `i64`.
pub fn civil_in_range(y: i64, m: i64, d: i64) -> (b: bool)
    ensures
        b == civil_fits(y as int, m as int, d as int),
{
    let lo: i128 = -9223372036854775808;
    let hi: i128 = 9223372036854775807;
    let y1: i128 = if m <= 2 {
        y as i128 - 1
    } else {
        y as i128
    };
    let t: i128 = if y1 >= 0 {
        y1
    } else {
        y1 - 399
    };
    let era: i128 = t / 400;
    let yoe: i128 = y1 - era * 400;
    let mp: i128 = if m > 2 {
        m as i128 - 3
    } else {
        m as i128 + 9
    };
    let a: i128 = 153 * mp;
    let c: i128 = (a + 2) / 5;
    let cd: i128 = c + d as i128;
    let doe: i128 = yoe * 365 + yoe / 4 - yoe / 100 + (cd - 1);
    let eb: i128 = era * 146097;
    assert(era == tdiv(t as int, 400));
    assert(c == tdiv(153 * mp + 2, 5));
    lo <= y1 && y1 <= hi && lo <= t && t <= hi && lo <= a && a <= hi && lo <= a + 2 && a + 2 <= hi
        && lo <= cd && cd <= hi && lo <= cd - 1 && cd - 1 <= hi && lo <= doe && doe <= hi && lo
        <= eb && eb <= hi && lo <= eb + doe && eb + doe <= hi && lo <= eb + doe - 719468 && eb
        + doe - 719468 <= hi
}

/// Whether the term date of a `.kyinfo` text turns into a day number
/// without overflow.
pub fn kyinfo_date_in_range(content: &str) -> (b: bool)
    ensures
        b == kyinfo_date_fits(content@),
{
    match kyinfo_term_numbers(content) {
        Some(nums) => {
            if nums.len() >= 3 {
                civil_in_range(nums[0], nums[1], nums[2])
            } else {
                true
            }
        },
        None => true,
    }
}

/// Day number of the license term in a `.kyinfo` text (`to=term=YYYY-MM-DD`,
/// with `-`, `/` or `.` between the numbers).
pub fn kyinfo_expire_days(content: &str) -> (r: Option<i64>)
    requires
        kyinfo_date_fits(content@),
    ensures
        r matches Some(v) ==> kyinfo_expire(content@) == Some(v as int),
        r is None ==> kyinfo_expire(content@) is None,
{
    match kyinfo_term_numbers(content) {
        Some(nums) => {
            if nums.len() >= 3 {
                assert(ints(nums@)[0] == nums@[0] as int);
                assert(ints(nums@)[1] == nums@[1] as int);
                assert(ints(nums@)[2] == nums@[2] as int);
                Some(days_from_civil(nums[0], nums[1], nums[2]))
            } else {
                None
            }
        },
        None => None,
    }
}

/// The license term text of the first line with a non-empty `term=` value.
pub open spec fn kyinfo_term_from(ls: Seq<Seq<char>>, i: int) -> Option<Seq<char>>
    decreases ls.len() - i,
{
    if i < 0 || i >= ls.len() {
        None
    } else {
        match split_once(trim(ls[i]), "term="@) {
            Some(p) => if trim(p.1).len() > 0 {
                Some(trim(p.1))
            } else {
                kyinfo_term_from(ls, i + 1)
            },
            None => kyinfo_term_from(ls, i + 1),
        }
    }
}

pub open spec fn opt_view(o: Option<String>) -> Option<Seq<char>> {
    match o {
        Some(s) => Some(s@),
        None => None,
    }
}

/// The license term of a `.kyinfo` text as written (e.g. `2025-07-29`).
pub fn extract_kyinfo_term(content: &str) -> (r: Option<String>)
    ensures
        opt_view(r) == kyinfo_term_from(lines(content@), 0),
{
    let text = chars_of(content);
    let ls = lines_chars(&text);
    let mut i: usize = 0;
    while i < ls.len()
        invariant
            i <= ls.len(),
            views(ls@) == lines(content@),
            kyinfo_term_from(views(ls@), 0) == kyinfo_term_from(views(ls@), i as int),
        decreases ls.len() - i,
    {
        let line = trim_chars(&ls[i]);
        assert(views(ls@)[i as int] == ls@[i as int]@);
        match split_once_str(&line, "term=") {
            Some((_, v)) => {
                let v = trim_chars(&v);
                if v.len() > 0 {
                    return Some(string_of(&v));
                }
            },
            None => {},
        }
        i += 1;
    }
    None
}

/// The value after `到期时间`, with `:` or `：` and spaces taken off.
pub open spec fn uos_value(rest: Seq<char>) -> Seq<char> {
    trim(trim_start_char(trim_start_char(rest, ':'), '：'))
}

/// The expiry of the first line with a non-empty `到期时间` value.
pub open spec fn uos_expire_from(ls: Seq<Seq<char>>, i: int) -> Option<Seq<char>>
    decreases ls.len() - i,
{
    if i < 0 || i >= ls.len() {
        None
    } else {
        match split_once(trim(ls[i]), "到期时间"@) {
            Some(p) => if uos_value(p.1).len() > 0 {
                Some(uos_value(p.1))
            } else {
                uos_expire_from(ls, i + 1)
            },
            None => uos_expire_from(ls, i + 1),
        }
    }
}

/// The expiry in the output of `uos-activator-cmd -q` (`到期时间:2025-12-14`
/// or `到期时间：终身有效`).
pub fn extract_uos_expire(output: &str) -> (r: Option<String>)
    ensures
        opt_view(r) == uos_expire_from(lines(output@), 0),
{
    let text = chars_of(output);
    let ls = lines_chars(&text);
    let mut i: usize = 0;
    while i < ls.len()
        invariant
            i <= ls.len(),
            views(ls@) == lines(output@),
            uos_expire_from(views(ls@), 0) == uos_expire_from(views(ls@), i as int),
        decreases ls.len() - i,
    {
        let line = trim_chars(&ls[i]);
        assert(views(ls@)[i as int] == ls@[i as int]@);
        match split_once_str(&line, "到期时间") {
            Some((_, v)) => {
                let v = trim_start_char_chars(&v, ':');
                let v = trim_start_char_chars(&v, '：');
                let v = trim_chars(&v);
                if v.len() > 0 {
                    return Some(string_of(&v));
                }
            },
            None => {},
        }
        i += 1;
    }
    None
}

// ------------------------------------------------------------------ Windows expiry

/// A character that may stand in a date or time (`2027/2/4 17:50:22`).
pub open spec fn is_date_char(c: char) -> bool {
    crate::text::is_digit(c) || c == '/' || c == ':' || c == ' ' || c == '-'
}

/// A word that reads as a date such as `2027/2/4` or `04/02/2027`: three
/// non-empty runs of ASCII digits separated by `/`.
pub open spec fn is_date_word(w: Seq<char>) -> bool {
    let segs = split_any(w, seq!['/']);
    &&& segs.len() == 3
    &&& forall|k: int| 0 <= k < 3 ==> #[trigger] segs[k].len() > 0 && all_digits(segs[k])
}

/// The date in a run of date characters: its first word, when that is a
/// date.
pub open spec fn date_token(run: Seq<char>) -> Option<Seq<char>> {
    match first_word(trim(run)) {
        Some(w) => if is_date_word(w) {
            Some(w)
        } else {
            None
        },
        None => None,
    }
}

/// Scans a line from index `i`, `run` being the date characters just
/// before: a run that holds `/` is tried where a non-date character or the
/// end of the line ends it.
pub open spec fn scan_date(line: Seq<char>, i: int, run: Seq<char>) -> Option<Seq<char>>
    decreases line.len() - i,
{
    if i < 0 || i >= line.len() {
        if run.contains('/') {
            date_token(run)
        } else {
            None
        }
    } else if is_date_char(line[i]) {
        scan_date(line, i + 1, run.push(line[i]))
    } else if run.contains('/') {
        match date_token(run) {
            Some(w) => Some(w),
            None => scan_date(line, i + 1, seq![]),
        }
    } else {
        scan_date(line, i + 1, seq![])
    }
}

/// The first date found scanning the trimmed lines from `i` on.
pub open spec fn date_from_lines(ls: Seq<Seq<char>>, i: int) -> Option<Seq<char>>
    decreases ls.len() - i,
{
    if i < 0 || i >= ls.len() {
        None
    } else {
        match scan_date(trim(ls[i]), 0, seq![]) {
            Some(w) => Some(w),
            None => date_from_lines(ls, i + 1),
        }
    }
}

/// The expiry shown by `slmgr.vbs -xpr`: `永久激活` for a permanent
/// activation, else the first date such as `2027/2/4` (`YYYY/M/D`, possibly
/// followed by a time).
pub open spec fn windows_expire(out: Seq<char>) -> Option<Seq<char>> {
    let low = lowercase_of(out);
    if contains(low, "永久激活"@) || contains(low, "permanently activated"@) {
        Some("永久激活"@)
    } else {
        date_from_lines(lines(out), 0)
    }
}

/// Whether the character may stand in a date or time.
pub fn is_date_char_exec(c: char) -> (b: bool)
    ensures
        b == is_date_char(c),
{
    let u = c as u32;
    (0x30 <= u && u <= 0x39) || c == '/' || c == ':' || c == ' ' || c == '-'
}

/// Whether a piece is a non-empty run of ASCII digits.
pub fn is_digit_run(v: &Vec<char>) -> (b: bool)
    ensures
        b == (v@.len() > 0 && all_digits(v@)),
{
    if v.len() == 0 {
        return false;
    }
    let mut i: usize = 0;
    while i < v.len()
        invariant
            i <= v.len(),
            forall|k: int| 0 <= k < i ==> crate::text::is_digit(#[trigger] v@[k]),
        decreases v.len() - i,
    {
        let u = v[i] as u32;
        if !(0x30 <= u && u <= 0x39) {
            assert(!crate::text::is_digit(v@[i as int]));
            return false;
        }
        i += 1;
    }
    true
}

/// The date in a run of date characters.
pub fn date_token_exec(run: &Vec<char>) -> (r: Option<Vec<char>>)
    ensures
        r matches Some(w) ==> date_token(run@) == Some(w@),
        r is None ==> date_token(run@) is None,
{
    let t = trim_chars(run);
    match first_word_chars(&t) {
        Some(w) => {
            let slash = vec!['/'];
            let segs = split_any_chars(&w, &slash);
            assert(slash@ =~= seq!['/']);
            assert(views(segs@).len() == segs@.len());
            if segs.len() == 3 && is_digit_run(&segs[0]) && is_digit_run(&segs[1])
                && is_digit_run(&segs[2]) {
                assert(views(segs@)[0] == segs@[0]@);
                assert(views(segs@)[1] == segs@[1]@);
                assert(views(segs@)[2] == segs@[2]@);
                assert(is_date_word(w@));
                Some(w)
            } else {
                proof {
                    if segs.len() == 3 {
                        assert(views(segs@)[0] == segs@[0]@);
                        assert(views(segs@)[1] == segs@[1]@);
                        assert(views(segs@)[2] == segs@[2]@);
                    }
                }
                None
            }
        },
        None => None,
    }
}

/// The first date in a (trimmed) line.
pub fn scan_date_exec(line: &Vec<char>) -> (r: Option<Vec<char>>)
    ensures
        r matches Some(w) ==> scan_date(line@, 0, seq![]) == Some(w@),
        r is None ==> scan_date(line@, 0, seq![]) is None,
{
    let mut run: Vec<char> = Vec::new();
    let mut i: usize = 0;
    while i < line.len()
        invariant
            i <= line.len(),
            scan_date(line@, 0, seq![]) == scan_date(line@, i as int, run@),
        decreases line.len() - i,
    {
        let c = line[i];
        if is_date_char_exec(c) {
            run.push(c);
        } else if has_char(&run, '/') {
            match date_token_exec(&run) {
                Some(w) => {
                    return Some(w);
                },
                None => {},
            }
            run = Vec::new();
        } else {
            run = Vec::new();
        }
        i += 1;
    }
    if has_char(&run, '/') {
        date_token_exec(&run)
    } else {
        None
    }
}

/// The expiry shown by `slmgr.vbs -xpr` (`批量激活将于 2027/2/4 17:50:22 过期`
/// gives `2027/2/4`; a permanent activation gives `永久激活`).
pub fn extract_date(output: &str) -> (r: Option<String>)
    ensures
        opt_view(r) == windows_expire(output@),
{
    let low = lowercase_chars(output);
    if contains_str(&low, "永久激活") || contains_str(&low, "permanently activated") {
        return Some("永久激活".to_string());
    }
    let text = chars_of(output);
    let ls = lines_chars(&text);
    let mut i: usize = 0;
    while i < ls.len()
        invariant
            i <= ls.len(),
            views(ls@) == lines(output@),
            date_from_lines(views(ls@), 0) == date_from_lines(views(ls@), i as int),
            !(contains(lowercase_of(output@), "永久激活"@) || contains(
                lowercase_of(output@),
                "permanently activated"@,
            )),
        decreases ls.len() - i,
    {
        let line = trim_chars(&ls[i]);
        assert(views(ls@)[i as int] == ls@[i as int]@);
        match scan_date_exec(&line) {
            Some(w) => {
                return Some(string_of(&w));
            },
            None => {},
        }
        i += 1;
    }
    None
}

// ------------------------------------------------------------------ checks

/// What a check reports: the state, the single checks, a summary and the
/// license expiry where one was found.
pub type Outcome = (Activation, Vec<CheckItem>, String, Option<String>);

pub open spec fn windows_summary(a: Activation) -> Seq<char> {
    match a {
        Activation::Activated => "Windows 已激活"@,
        Activation::NotActivated => "Windows 未激活(通知模式)"@,
        Activation::Unknown => "Windows 激活状态无法判定,请查看下方明细"@,
        Activation::NotApplicable => "无需激活"@,
    }
}

pub open spec fn kylin_summary(a: Activation) -> Seq<char> {
    match a {
        Activation::Activated => "银河麒麟已激活"@,
        Activation::NotActivated => "银河麒麟未激活"@,
        Activation::Unknown => "银河麒麟激活状态无法判定,请查看下方明细"@,
        Activation::NotApplicable => "无需激活"@,
    }
}

pub open spec fn uos_summary(a: Activation) -> Seq<char> {
    match a {
        Activation::Activated => "统信 UOS 已激活"@,
        Activation::NotActivated => "统信 UOS 未激活"@,
        Activation::Unknown => "统信 UOS 激活状态无法判定,请查看下方明细"@,
        Activation::NotApplicable => "无需激活"@,
    }
}

/// Windows: unknown when neither query ran, else the keyword verdict.
pub open spec fn windows_activation(xpr: CheckItem, dlv: CheckItem) -> Activation {
    if !xpr.success && !dlv.success {
        Activation::Unknown
    } else {
        windows_spec(xpr.output@, dlv.output@)
    }
}

/// Kylin: activated where the activation-code file `/etc/.kyactivation`
/// exists (it decides); else the `licence -l` verdict where it ran; else the
/// `.kyinfo` term: a term before today means not activated, while a term
/// not yet reached proves nothing (a preset term is no activation) and gives
/// unknown, as does a missing term; else unknown.
pub open spec fn kylin_activation(
    licence: CheckItem,
    kyactivation: CheckItem,
    kyinfo: CheckItem,
    today: int,
) -> Activation {
    if kyactivation.success {
        Activation::Activated
    } else if licence.success {
        judge_spec(licence.output@, kylin_act_kw(), kylin_not_kw())
    } else if kyinfo.success {
        match kyinfo_expire(kyinfo.output@) {
            Some(e) => if e < today {
                Activation::NotActivated
            } else {
                Activation::Unknown
            },
            None => Activation::Unknown,
        }
    } else {
        Activation::Unknown
    }
}

/// UOS: the keyword verdict where the query ran, else unknown.
pub open spec fn uos_activation(query: CheckItem) -> Activation {
    if query.success {
        judge_spec(query.output@, uos_act_kw(), uos_not_kw())
    } else {
        Activation::Unknown
    }
}

/// The check's own item of a system that needs no command.
pub open spec fn fixed_item(
    item: CheckItem,
    name: Seq<char>,
    command: Seq<char>,
    success: bool,
    output: Seq<char>,
    verdict: Seq<char>,
) -> bool {
    &&& item.name@ == name
    &&& item.command@ == command
    &&& item.success == success
    &&& item.output@ == output
    &&& item.verdict@ == verdict
}

fn windows_summary_text(a: Activation) -> (r: String)
    ensures
        r@ == windows_summary(a),
{
    match a {
        Activation::Activated => "Windows 已激活".to_string(),
        Activation::NotActivated => "Windows 未激活(通知模式)".to_string(),
        Activation::Unknown => "Windows 激活状态无法判定,请查看下方明细".to_string(),
        Activation::NotApplicable => "无需激活".to_string(),
    }
}

fn kylin_summary_text(a: Activation) -> (r: String)
    ensures
        r@ == kylin_summary(a),
{
    match a {
        Activation::Activated => "银河麒麟已激活".to_string(),
        Activation::NotActivated => "银河麒麟未激活".to_string(),
        Activation::Unknown => "银河麒麟激活状态无法判定,请查看下方明细".to_string(),
        Activation::NotApplicable => "无需激活".to_string(),
    }
}

fn uos_summary_text(a: Activation) -> (r: String)
    ensures
        r@ == uos_summary(a),
{
    match a {
        Activation::Activated => "统信 UOS 已激活".to_string(),
        Activation::NotActivated => "统信 UOS 未激活".to_string(),
        Activation::Unknown => "统信 UOS 激活状态无法判定,请查看下方明细".to_string(),
        Activation::NotApplicable => "无需激活".to_string(),
    }
}

/// Windows, from the items of `slmgr.vbs -xpr` and `-dlv`.
pub fn check_windows(xpr: CheckItem, dlv: CheckItem) -> (r: Outcome)
    ensures
        r.0 == windows_activation(xpr, dlv),
        r.1@ == seq![xpr, dlv],
        r.2@ == windows_summary(r.0),
        opt_view(r.3) == windows_expire(xpr.output@),
{
    let act = if !xpr.success && !dlv.success {
        Activation::Unknown
    } else {
        judge_windows(xpr.output.as_str(), dlv.output.as_str())
    };
    let summary = windows_summary_text(act);
    let expire = extract_date(xpr.output.as_str());
    let mut items: Vec<CheckItem> = Vec::new();
    items.push(xpr);
    items.push(dlv);
    (act, items, summary, expire)
}

/// Kylin V10, from the items of `licence -l`, of the activation-code file
/// `/etc/.kyactivation` and of the `.kyinfo` file, with today's day number.
pub fn check_kylin(licence: CheckItem, kyactivation: CheckItem, kyinfo: CheckItem, today: i64) -> (r:
    Outcome)
    requires
        !kyactivation.success && !licence.success && kyinfo.success ==> kyinfo_date_fits(
            kyinfo.output@,
        ),
    ensures
        r.0 == kylin_activation(licence, kyactivation, kyinfo, today as int),
        r.1@ == seq![licence, kyactivation, kyinfo],
        r.2@ == kylin_summary(r.0),
        opt_view(r.3) == kyinfo_term_from(lines(kyinfo.output@), 0),
{
    let act = if kyactivation.success {
        Activation::Activated
    } else if licence.success {
        judge_kylin(licence.output.as_str())
    } else if kyinfo.success {
        match kyinfo_expire_days(kyinfo.output.as_str()) {
            Some(expire) => if expire < today {
                Activation::NotActivated
            } else {
                Activation::Unknown
            },
            None => Activation::Unknown,
        }
    } else {
        Activation::Unknown
    };
    let expire = extract_kyinfo_term(kyinfo.output.as_str());
    let summary = kylin_summary_text(act);
    let mut items: Vec<CheckItem> = Vec::new();
    items.push(licence);
    items.push(kyactivation);
    items.push(kyinfo);
    (act, items, summary, expire)
}

/// UOS V20, from the item of `uos-activator-cmd -q`.
pub fn check_uos(query: CheckItem) -> (r: Outcome)
    ensures
        r.0 == uos_activation(query),
        r.1@ == seq![query],
        r.2@ == uos_summary(r.0),
        opt_view(r.3) == uos_expire_from(lines(query.output@), 0),
{
    let act = if query.success {
        judge_uos(query.output.as_str())
    } else {
        Activation::Unknown
    };
    let summary = uos_summary_text(act);
    let expire = extract_uos_expire(query.output.as_str());
    let mut items: Vec<CheckItem> = Vec::new();
    items.push(query);
    (act, items, summary, expire)
}

/// Ubuntu: no activation scheme.
pub fn check_ubuntu() -> (r: Outcome)
    ensures
        r.0 == Activation::NotApplicable,
        r.1@.len() == 1,
        fixed_item(
            r.1@[0],
            "激活机制"@,
            "n/a"@,
            true,
            "Ubuntu 无系统激活机制,安装即完整授权"@,
            "无需激活"@,
        ),
        r.2@ == "Ubuntu 无需激活"@,
        r.3 is None,
{
    let mut items: Vec<CheckItem> = Vec::new();
    items.push(
        CheckItem::new(
            "激活机制",
            "n/a",
            true,
            "Ubuntu 无系统激活机制,安装即完整授权".to_string(),
            "无需激活",
        ),
    );
    (Activation::NotApplicable, items, "Ubuntu 无需激活".to_string(), None)
}

/// A Linux distribution that is not recognised.
pub fn check_unknown_distro(pretty: &str) -> (r: Outcome)
    ensures
        r.0 == Activation::Unknown,
        r.1@.len() == 1,
        fixed_item(
            r.1@[0],
            "系统识别"@,
            "cat /etc/os-release"@,
            true,
            "未识别的发行版: "@ + pretty@,
            "未知系统"@,
        ),
        r.2@ == "无法识别的系统发行版"@,
        r.3 is None,
{
    let mut text = "未识别的发行版: ".to_string();
    text.append(pretty);
    let mut items: Vec<CheckItem> = Vec::new();
    items.push(CheckItem::new("系统识别", "cat /etc/os-release", true, text, "未知系统"));
    (Activation::Unknown, items, "无法识别的系统发行版".to_string(), None)
}

/// A platform without an activation check.
pub fn check_unsupported() -> (r: Outcome)
    ensures
        r.0 == Activation::Unknown,
        r.1@.len() == 1,
        fixed_item(
            r.1@[0],
            "平台支持"@,
            "n/a"@,
            false,
            "当前平台不支持激活检测"@,
            "不支持的平台"@,
        ),
        r.2@ == "当前平台不支持激活检测"@,
        r.3 is None,
{
    let mut items: Vec<CheckItem> = Vec::new();
    items.push(
        CheckItem::new("平台支持", "n/a", false, "当前平台不支持激活检测".to_string(), "不支持的平台"),
    );
    (Activation::Unknown, items, "当前平台不支持激活检测".to_string(), None)
}

// ------------------------------------------------------------------ dispatch

/// The platform the tool runs on.
#[derive(Debug, Clone, Copy, PartialEq, Eq, Structural)]
pub enum Platform {
    Windows,
    Linux,
    Other,
}

/// Which check a system needs.
#[derive(Debug, Clone, Copy, PartialEq, Eq, Structural)]
pub enum Probe {
    /// `slmgr.vbs -xpr` and `-dlv`
    Windows,
    /// nothing to run
    Ubuntu,
    /// `licence -l`, `/etc/.kyactivation` and the `.kyinfo` file
    Kylin,
    /// `uos-activator-cmd -q`
    Uos,
    /// nothing to run: the distribution is not recognised
    UnknownDistro,
    /// nothing to run: no check on this platform
    Unsupported,
}

/// The check for a platform and distribution id; an unknown id with a Kylin
/// license file is taken as Kylin.
pub open spec fn probe_spec(platform: Platform, distro_id: Seq<char>, kyinfo_exists: bool) -> Probe {
    match platform {
        Platform::Windows => Probe::Windows,
        Platform::Other => Probe::Unsupported,
        Platform::Linux => if distro_id == "ubuntu"@ {
            Probe::Ubuntu
        } else if distro_id == "kylin"@ {
            Probe::Kylin
        } else if distro_id == "uos"@ || distro_id == "deepin"@ {
            Probe::Uos
        } else if kyinfo_exists {
            Probe::Kylin
        } else {
            Probe::UnknownDistro
        },
    }
}

/// Which check a system needs.
pub fn probe_for(platform: Platform, distro_id: &str, kyinfo_exists: bool) -> (r: Probe)
    ensures
        r == probe_spec(platform, distro_id@, kyinfo_exists),
{
    match platform {
        Platform::Windows => Probe::Windows,
        Platform::Other => Probe::Unsupported,
        Platform::Linux => {
            let id = chars_of(distro_id);
            if crate::text::chars_eq_str(&id, "ubuntu") {
                Probe::Ubuntu
            } else if crate::text::chars_eq_str(&id, "kylin") {
                Probe::Kylin
            } else if crate::text::chars_eq_str(&id, "uos") || crate::text::chars_eq_str(
                &id,
                "deepin",
            ) {
                Probe::Uos
            } else if kyinfo_exists {
                Probe::Kylin
            } else {
                Probe::UnknownDistro
            }
        },
    }
}

/// What the commands of a check gave.
pub enum Evidence {
    /// items of `slmgr.vbs -xpr` and `-dlv`
    Windows { xpr: CheckItem, dlv: CheckItem },
    Ubuntu,
    /// items of `licence -l`, of `/etc/.kyactivation` and of the `.kyinfo`
    /// file, and today's day number
    Kylin { licence: CheckItem, kyactivation: CheckItem, kyinfo: CheckItem, today: i64 },
    /// item of `uos-activator-cmd -q`
    Uos { query: CheckItem },
    UnknownDistro,
    Unsupported,
}

/// The `.kyinfo` term can be read without overflow where the verdict needs it.
pub open spec fn evidence_fits(ev: Evidence) -> bool {
    match ev {
        Evidence::Kylin { licence, kyactivation, kyinfo, .. } => !kyactivation.success
            && !licence.success && kyinfo.success ==> kyinfo_date_fits(kyinfo.output@),
        _ => true,
    }
}

/// The check that a piece of evidence answers.
pub open spec fn evidence_probe(ev: Evidence) -> Probe {
    match ev {
        Evidence::Windows { .. } => Probe::Windows,
        Evidence::Ubuntu => Probe::Ubuntu,
        Evidence::Kylin { .. } => Probe::Kylin,
        Evidence::Uos { .. } => Probe::Uos,
        Evidence::UnknownDistro => Probe::UnknownDistro,
        Evidence::Unsupported => Probe::Unsupported,
    }
}

impl Evidence {
    /// The check that this evidence answers.
    pub fn probe(&self) -> (r: Probe)
        ensures
            r == evidence_probe(*self),
    {
        match self {
            Evidence::Windows { .. } => Probe::Windows,
            Evidence::Ubuntu => Probe::Ubuntu,
            Evidence::Kylin { .. } => Probe::Kylin,
            Evidence::Uos { .. } => Probe::Uos,
            Evidence::UnknownDistro => Probe::UnknownDistro,
            Evidence::Unsupported => Probe::Unsupported,
        }
    }
}

/// The verdict of a check on what its commands gave, for a system on
/// `platform` with distribution id `os.distro_id`, where `kyinfo_exists`
/// tells whether `/etc/.kyinfo` exists: the evidence must answer the check
/// that `probe_for` picks for them.
pub fn check(os: &OsInfo, platform: Platform, kyinfo_exists: bool, ev: Evidence) -> (r: Outcome)
    requires
        evidence_fits(ev),
        evidence_probe(ev) == probe_spec(platform, os.distro_id@, kyinfo_exists),
    ensures
        r.1@.len() > 0,
        (forall|i: int| 0 <= i < r.1@.len() ==> !(#[trigger] r.1@[i]).success) ==> r.0
            == Activation::Unknown,
        r.0 == Activation::NotApplicable ==> platform == Platform::Linux && os.distro_id@
            == "ubuntu"@,
        match ev {
            Evidence::Windows { xpr, dlv } => {
                &&& r.0 == windows_activation(xpr, dlv)
                &&& r.1@ == seq![xpr, dlv]
                &&& r.2@ == windows_summary(r.0)
                &&& opt_view(r.3) == windows_expire(xpr.output@)
            },
            Evidence::Kylin { licence, kyactivation, kyinfo, today } => {
                &&& r.0 == kylin_activation(licence, kyactivation, kyinfo, today as int)
                &&& r.1@ == seq![licence, kyactivation, kyinfo]
                &&& r.2@ == kylin_summary(r.0)
                &&& opt_view(r.3) == kyinfo_term_from(lines(kyinfo.output@), 0)
            },
            Evidence::Uos { query } => {
                &&& r.0 == uos_activation(query)
                &&& r.1@ == seq![query]
                &&& r.2@ == uos_summary(r.0)
                &&& opt_view(r.3) == uos_expire_from(lines(query.output@), 0)
            },
            Evidence::Ubuntu => {
                &&& r.0 == Activation::NotApplicable
                &&& r.1@.len() == 1
                &&& fixed_item(
                    r.1@[0],
                    "激活机制"@,
                    "n/a"@,
                    true,
                    "Ubuntu 无系统激活机制,安装即完整授权"@,
                    "无需激活"@,
                )
                &&& r.2@ == "Ubuntu 无需激活"@
                &&& r.3 is None
            },
            Evidence::UnknownDistro => {
                &&& r.0 == Activation::Unknown
                &&& r.1@.len() == 1
                &&& fixed_item(
                    r.1@[0],
                    "系统识别"@,
                    "cat /etc/os-release"@,
                    true,
                    "未识别的发行版: "@ + os.pretty@,
                    "未知系统"@,
                )
                &&& r.2@ == "无法识别的系统发行版"@
                &&& r.3 is None
            },
            Evidence::Unsupported => {
                &&& r.0 == Activation::Unknown
                &&& r.1@.len() == 1
                &&& fixed_item(
                    r.1@[0],
                    "平台支持"@,
                    "n/a"@,
                    false,
                    "当前平台不支持激活检测"@,
                    "不支持的平台"@,
                )
                &&& r.2@ == "当前平台不支持激活检测"@
                &&& r.3 is None
            },
        },
{
    match ev {
        Evidence::Windows { xpr, dlv } => {
            let r = check_windows(xpr, dlv);
            assert(r.1@[0] == xpr && r.1@[1] == dlv);
            r
        },
        Evidence::Kylin { licence, kyactivation, kyinfo, today } => {
            let r = check_kylin(licence, kyactivation, kyinfo, today);
            assert(r.1@[0] == licence && r.1@[1] == kyactivation && r.1@[2] == kyinfo);
            r
        },
        Evidence::Uos { query } => {
            let r = check_uos(query);
            assert(r.1@[0] == query);
            r
        },
        Evidence::Ubuntu => check_ubuntu(),
        Evidence::UnknownDistro => check_unknown_distro(os.pretty.as_str()),
        Evidence::Unsupported => check_unsupported(),
    }
}

// ------------------------------------------------------------------ items

/// The command line shown for a command and its arguments.
pub open spec fn command_line_spec(cmd: Seq<char>, args: Seq<Seq<char>>) -> Seq<char>
    decreases args.len(),
{
    if args.len() == 0 {
        cmd
    } else {
        command_line_spec(cmd, args.drop_last()) + seq![' '] + args.last()
    }
}

/// The command and its arguments, separated by spaces.
pub fn command_line(cmd: &str, args: &[&str]) -> (r: String)
    ensures
        r@ == command_line_spec(cmd@, strs_view(args@)),
{
    let mut out = cmd.to_string();
    let mut i: usize = 0;
    proof {
        assert(strs_view(args@).take(0) =~= Seq::<Seq<char>>::empty());
    }
    while i < args.len()
        invariant
            i <= args@.len(),
            out@ == command_line_spec(cmd@, strs_view(args@).take(i as int)),
        decreases args@.len() - i,
    {
        proof {
            assert(strs_view(args@).take(i + 1).drop_last() =~= strs_view(args@).take(i as int));
        }
        out.push(' ');
        out.append(args[i]);
        proof {
            assert(strs_view(args@).take(i + 1).last() == args@[i as int]@);
        }
        i += 1;
    }
    assert(strs_view(args@).take(i as int) =~= strs_view(args@));
    out
}

/// The item of a command that was run: its output where it ran, the error
/// text where it could not.
pub fn run_check_item(name: &str, command_line: &str, result: Result<String, String>) -> (r:
    CheckItem)
    ensures
        r.name@ == name@,
        r.command@ == command_line@,
        match result {
            Ok(out) => r.success && r.output == out && r.verdict@ == "命令执行成功"@,
            Err(e) => !r.success && r.output == e && r.verdict@ == "命令执行失败(可能未安装)"@,
        },
{
    match result {
        Ok(out) => CheckItem::new(name, command_line, true, out, "命令执行成功"),
        Err(e) => CheckItem::new(name, command_line, false, e, "命令执行失败(可能未安装)"),
    }
}

/// The item of a file that was read: its content where it could be read,
/// the path and error text where it could not.
pub fn read_file_item(path: &str, name: &str, result: Result<String, String>) -> (r: CheckItem)
    ensures
        r.name@ == name@,
        r.command@ == "cat "@ + path@,
        match result {
            Ok(content) => r.success && r.output == content && r.verdict@ == "文件存在"@,
            Err(e) => !r.success && r.output@ == path@ + ": "@ + e@ && r.verdict@
                == "文件不存在或不可读"@,
        },
{
    let mut command = "cat ".to_string();
    command.append(path);
    match result {
        Ok(content) => CheckItem::new(name, command.as_str(), true, content, "文件存在"),
        Err(e) => {
            let mut text = path.to_string();
            text.append(": ");
            text.append(e.as_str());
            CheckItem::new(name, command.as_str(), false, text, "文件不存在或不可读")
        },
    }
}

// ------------------------------------------------------------------ laws

/// A "not activated" keyword in an output decides the verdict, whatever
/// "activated" keywords stand beside it.
pub proof fn law_not_keyword_wins(out: Seq<char>, act: Seq<Seq<char>>, not: Seq<Seq<char>>)
    requires
        any_in(lowercase_of(out), not),
    ensures
        judge_spec(out, act, not) == Activation::NotActivated,
{
}

/// On Windows a "not activated" sign in either output decides the verdict.
pub proof fn law_windows_not_sign_wins(xpr: Seq<char>, dlv: Seq<char>)
    requires
        any_in(lowercase_of(xpr), win_xpr_not_kw()) || any_in(lowercase_of(dlv), win_dlv_not_kw()),
    ensures
        windows_spec(xpr, dlv) == Activation::NotActivated,
{
}

/// Kylin is only found activated on evidence: the activation-code file, or
/// a `licence -l` output with an "activated" keyword and no "not
/// activated" one. The `.kyinfo` term never makes it activated.
pub proof fn law_kylin_activated_needs_evidence(
    licence: CheckItem,
    kyactivation: CheckItem,
    kyinfo: CheckItem,
    today: int,
)
    requires
        kylin_activation(licence, kyactivation, kyinfo, today) == Activation::Activated,
    ensures
        kyactivation.success || (licence.success && any_in(
            lowercase_of(licence.output@),
            kylin_act_kw(),
        ) && !any_in(lowercase_of(licence.output@), kylin_not_kw())),
{
}

/// Without the activation-code file and without `licence -l`, a `.kyinfo`
/// term before today means not activated.
pub proof fn law_kylin_expired_term(
    licence: CheckItem,
    kyactivation: CheckItem,
    kyinfo: CheckItem,
    today: int,
)
    requires
        !kyactivation.success,
        !licence.success,
        kyinfo.success,
        kyinfo_expire(kyinfo.output@) matches Some(e) && e < today,
    ensures
        kylin_activation(licence, kyactivation, kyinfo, today) == Activation::NotActivated,
{
}

proof fn lemma_scan_date_is_date(line: Seq<char>, i: int, run: Seq<char>)
    ensures
        scan_date(line, i, run) matches Some(w) ==> is_date_word(w),
    decreases line.len() - i,
{
    if 0 <= i < line.len() {
        if is_date_char(line[i]) {
            lemma_scan_date_is_date(line, i + 1, run.push(line[i]));
        } else {
            lemma_scan_date_is_date(line, i + 1, seq![]);
        }
    }
}

proof fn lemma_lines_date_is_date(ls: Seq<Seq<char>>, i: int)
    ensures
        date_from_lines(ls, i) matches Some(w) ==> is_date_word(w),
    decreases ls.len() - i,
{
    if 0 <= i < ls.len() {
        lemma_scan_date_is_date(trim(ls[i]), 0, seq![]);
        lemma_lines_date_is_date(ls, i + 1);
    }
}

proof fn lemma_scan_date_no_slash(line: Seq<char>, i: int, run: Seq<char>)
    requires
        !line.contains('/'),
        !run.contains('/'),
    ensures
        scan_date(line, i, run) is None,
    decreases line.len() - i,
{
    if 0 <= i < line.len() {
        assert(line[i] != '/');
        if is_date_char(line[i]) {
            assert(!run.push(line[i]).contains('/')) by {
                if run.push(line[i]).contains('/') {
                    let j = choose|j: int| 0 <= j < run.push(line[i]).len() && run.push(line[i])[j] == '/';
                    if j < run.len() {
                        assert(run[j] == '/');
                    }
                }
            }
            lemma_scan_date_no_slash(line, i + 1, run.push(line[i]));
        } else {
            lemma_scan_date_no_slash(line, i + 1, seq![]);
        }
    }
}

proof fn lemma_lines_no_slash(ls: Seq<Seq<char>>, i: int)
    requires
        forall|k: int| 0 <= k < ls.len() ==> !(#[trigger] ls[k]).contains('/'),
    ensures
        date_from_lines(ls, i) is None,
    decreases ls.len() - i,
{
    if 0 <= i < ls.len() {
        let l = ls[i];
        lemma_drop_lead_lack(l, crate::text::ws_pred(), '/');
        lemma_drop_trail_lack(
            crate::text::drop_lead(l, crate::text::ws_pred()),
            crate::text::ws_pred(),
            '/',
        );
        lemma_scan_date_no_slash(trim(l), 0, seq![]);
        lemma_lines_no_slash(ls, i + 1);
    }
}

proof fn lemma_date_token_infix(run: Seq<char>)
    ensures
        date_token(run) matches Some(w) ==> infix(w, run),
{
    lemma_trim_infix(run);
    lemma_first_word_infix(trim(run));
    if let Some(w) = first_word(trim(run)) {
        lemma_infix_trans(w, trim(run), run);
    }
}

proof fn lemma_scan_date_infix(line: Seq<char>, i: int, run: Seq<char>)
    requires
        0 <= i <= line.len(),
        run.len() <= i,
        run == line.subrange(i - run.len(), i),
    ensures
        scan_date(line, i, run) matches Some(w) ==> infix(w, line),
    decreases line.len() - i,
{
    lemma_date_token_infix(run);
    lemma_infix_subrange(line, i - run.len(), i);
    if let Some(w) = date_token(run) {
        lemma_infix_trans(w, run, line);
    }
    if i < line.len() {
        if is_date_char(line[i]) {
            assert(run.push(line[i]) =~= line.subrange(i + 1 - (run.len() + 1), i + 1));
            lemma_scan_date_infix(line, i + 1, run.push(line[i]));
        } else {
            assert(Seq::<char>::empty() =~= line.subrange(i + 1, i + 1));
            lemma_scan_date_infix(line, i + 1, seq![]);
        }
    }
}

proof fn lemma_lines_date_infix(ls: Seq<Seq<char>>, i: int, out: Seq<char>)
    requires
        forall|k: int| 0 <= k < ls.len() ==> infix(#[trigger] ls[k], out),
    ensures
        date_from_lines(ls, i) matches Some(w) ==> infix(w, out),
    decreases ls.len() - i,
{
    if 0 <= i < ls.len() {
        let line = trim(ls[i]);
        assert(Seq::<char>::empty() =~= line.subrange(0, 0));
        lemma_scan_date_infix(line, 0, seq![]);
        lemma_trim_infix(ls[i]);
        if let Some(w) = scan_date(line, 0, seq![]) {
            lemma_infix_trans(w, line, ls[i]);
            lemma_infix_trans(w, ls[i], out);
        }
        lemma_lines_date_infix(ls, i + 1, out);
    }
}

/// The expiry shown for Windows is `永久激活` or a date found in the output:
/// three non-empty runs of digits separated by `/`; an output without `/`
/// and without a permanent activation shows none.
pub proof fn law_windows_expire_is_a_date(out: Seq<char>)
    ensures
        windows_expire(out) matches Some(d) ==> d == "永久激活"@ || is_date_word(d),
        windows_expire(out) matches Some(d) ==> (d != "永久激活"@ ==> contains(out, d)),
        !out.contains('/') && !contains(lowercase_of(out), "永久激活"@) && !contains(
            lowercase_of(out),
            "permanently activated"@,
        ) ==> windows_expire(out) is None,
{
    lemma_lines_date_is_date(lines(out), 0);
    lemma_lines_infix(out, seq![]);
    assert(Seq::<char>::empty() + out =~= out);
    lemma_lines_date_infix(lines(out), 0, out);
    if let Some(d) = date_from_lines(lines(out), 0) {
        lemma_infix_contains(d, out);
    }
    if !out.contains('/') {
        lemma_lines_lack(out, seq![], '/');
        lemma_lines_no_slash(lines(out), 0);
    }
}

/// The day number of a term text such as `2025-07-29`: its first three
/// numbers as year, month and day.
pub open spec fn term_days(t: Seq<char>) -> Option<int> {
    let n = parsed_ints(split_any(t, date_seps()));
    if n.len() >= 3 {
        Some(civil_days(n[0], n[1], n[2]))
    } else {
        None
    }
}

proof fn lemma_term_same_line(ls: Seq<Seq<char>>, i: int)
    requires
        0 <= i,
    ensures
        term_nums_from(ls, i) matches Some(n) ==> (n.len() >= 3 ==> (kyinfo_term_from(
            ls,
            i,
        ) matches Some(t) && parsed_ints(split_any(t, date_seps())) == n)),
    decreases ls.len() - i,
{
    if i < ls.len() {
        match split_once(trim(ls[i]), "term="@) {
            Some(p) => {
                let v = trim(p.1);
                if v.len() == 0 {
                    let e = Seq::<char>::empty();
                    assert(v =~= e);
                    assert(split_any(e, date_seps()) == seq![e]);
                    assert(parse_i64(e) is None);
                    let ps = seq![e];
                    assert(ps.drop_last() =~= Seq::<Seq<char>>::empty());
                    assert(parsed_ints(ps) == parsed_ints(ps.drop_last()));
                }
            },
            None => {
                lemma_term_same_line(ls, i + 1);
            },
        }
    }
}

proof fn lemma_term_text_shape(ls: Seq<Seq<char>>, i: int)
    requires
        0 <= i,
        forall|k: int| 0 <= k < ls.len() ==> !(#[trigger] ls[k]).contains('\n'),
    ensures
        kyinfo_term_from(ls, i) matches Some(t) ==> {
            &&& t.len() > 0
            &&& !is_ws(t[0])
            &&& !is_ws(t.last())
            &&& !t.contains('\n')
        },
    decreases ls.len() - i,
{
    if i < ls.len() {
        let x = trim(ls[i]);
        lemma_find_from_spec(x, "term="@, 0);
        match find(x, "term="@) {
            Some(j) => {
                let rest = x.skip(j + "term="@.len());
                let t = trim(rest);
                lemma_trim_ends(rest);
                lemma_trim_infix(rest);
                lemma_infix_subrange(x, j + "term="@.len(), x.len() as int);
                assert(x.subrange(j + "term="@.len(), x.len() as int) =~= rest);
                lemma_trim_infix(ls[i]);
                lemma_infix_trans(rest, x, ls[i]);
                lemma_infix_trans(t, rest, ls[i]);
                lemma_infix_lack(t, ls[i], '\n');
                if t.len() == 0 {
                    lemma_term_text_shape(ls, i + 1);
                }
            },
            None => {
                lemma_term_text_shape(ls, i + 1);
            },
        }
    }
}

/// A file whose one line is `term=` and a term text has that text's value
/// as its term day number.
proof fn lemma_term_line_value(t: Seq<char>)
    requires
        t.len() > 0,
        !is_ws(t[0]),
        !is_ws(t.last()),
        !t.contains('\n'),
    ensures
        kyinfo_expire("term="@ + t) == term_days(t),
{
    reveal_strlit("term=");
    let u = "term="@ + t;
    assert(!u.contains('\n')) by {
        if u.contains('\n') {
            let j = choose|j: int| 0 <= j < u.len() && u[j] == '\n';
            assert(j >= 5);
            assert(t[j - 5] == '\n');
        }
    }
    lemma_lines_single(u, seq![]);
    assert(Seq::<char>::empty() + u =~= u);
    assert(u[0] == 't');
    assert(u.last() == t.last());
    lemma_trim_fixed(u);
    lemma_trim_fixed(t);
    assert(u.subrange(0, 5) =~= "term="@);
    assert(occurs_at(u, "term="@, 0));
    lemma_find_from_found(u, "term="@, 0, 0);
    assert(u.skip(5) =~= t);
    assert(lines(u) == seq![u]);
    assert(seq![u][0] == u);
}

/// The term text shown for a `.kyinfo` file and the day number behind the
/// verdict come from the same `term=` line: the day number is the value of
/// the text shown, and a file holding only `term=` and that text has the
/// same day number.
pub proof fn law_kyinfo_term_text_matches_days(content: Seq<char>)
    ensures
        kyinfo_expire(content) matches Some(n) ==> (kyinfo_term_from(lines(content), 0) matches Some(
            t,
        ) && term_days(t) == Some(n) && kyinfo_expire("term="@ + t) == Some(n)),
{
    lemma_term_same_line(lines(content), 0);
    lemma_lines_no_break(content, seq![]);
    lemma_term_text_shape(lines(content), 0);
    if let Some(t) = kyinfo_term_from(lines(content), 0) {
        lemma_term_line_value(t);
    }
}

// ------------------------------------------------------------------ keyword laws

/// `licence -l` on Kylin, with the activation-code file absent: a lowercased
/// output holding 未激活, "not activated", 试用, "trial", "invalid",
/// "expired" or 未授权 gives not activated; else one holding 已激活,
/// "activated", 永久授权, 授权成功 or 已授权 gives activated; else unknown.
/// The activation-code file, where it exists, gives activated.
pub proof fn law_kylin_licence_keywords(
    licence: CheckItem,
    kyactivation: CheckItem,
    kyinfo: CheckItem,
    today: int,
)
    ensures
        ({
            let low = lowercase_of(licence.output@);
            let not = contains(low, "未激活"@) || contains(low, "not activated"@) || contains(
                low,
                "试用"@,
            ) || contains(low, "trial"@) || contains(low, "invalid"@) || contains(low, "expired"@)
                || contains(low, "未授权"@);
            let act = contains(low, "已激活"@) || contains(low, "activated"@) || contains(
                low,
                "永久授权"@,
            ) || contains(low, "授权成功"@) || contains(low, "已授权"@);
            let verdict = if not {
                Activation::NotActivated
            } else if act {
                Activation::Activated
            } else {
                Activation::Unknown
            };
            &&& judge_spec(licence.output@, kylin_act_kw(), kylin_not_kw()) == verdict
            &&& !kyactivation.success && licence.success ==> kylin_activation(
                licence,
                kyactivation,
                kyinfo,
                today,
            ) == verdict
            &&& kyactivation.success ==> kylin_activation(licence, kyactivation, kyinfo, today)
                == Activation::Activated
        }),
{
    let low = lowercase_of(licence.output@);
    let n = kylin_not_kw();
    let a = kylin_act_kw();
    assert(n[0] == "未激活"@ && n[1] == "not activated"@ && n[2] == "试用"@ && n[3] == "trial"@
        && n[4] == "invalid"@ && n[5] == "expired"@ && n[6] == "未授权"@ && n[7] == "未激活"@);
    assert(a[0] == "已激活"@ && a[1] == "activated"@ && a[2] == "永久授权"@ && a[3] == "授权成功"@
        && a[4] == "已授权"@);
    if any_in(low, n) {
        let i = choose|i: int| 0 <= i < n.len() && contains(low, #[trigger] n[i]);
        assert(i == 0 || i == 1 || i == 2 || i == 3 || i == 4 || i == 5 || i == 6 || i == 7);
    }
    if any_in(low, a) {
        let i = choose|i: int| 0 <= i < a.len() && contains(low, #[trigger] a[i]);
        assert(i == 0 || i == 1 || i == 2 || i == 3 || i == 4);
    }
}

/// `uos-activator-cmd -q` on UOS, where it ran: a lowercased output holding
/// 未激活, "not activated", 未授权, 试用期, 试用, "trial", "expired", 已过期 or
/// "inactive" gives not activated (a trial period is no activation); else
/// one holding 已激活, "activated", 激活成功, 已授权, 免费授权 or 正式授权 gives
/// activated; else unknown.
pub proof fn law_uos_query_keywords(query: CheckItem)
    ensures
        ({
            let low = lowercase_of(query.output@);
            let not = contains(low, "未激活"@) || contains(low, "not activated"@) || contains(
                low,
                "未授权"@,
            ) || contains(low, "试用期"@) || contains(low, "试用"@) || contains(low, "trial"@)
                || contains(low, "expired"@) || contains(low, "已过期"@) || contains(
                low,
                "inactive"@,
            );
            let act = contains(low, "已激活"@) || contains(low, "activated"@) || contains(
                low,
                "激活成功"@,
            ) || contains(low, "已授权"@) || contains(low, "免费授权"@) || contains(
                low,
                "正式授权"@,
            );
            let verdict = if not {
                Activation::NotActivated
            } else if act {
                Activation::Activated
            } else {
                Activation::Unknown
            };
            &&& judge_spec(query.output@, uos_act_kw(), uos_not_kw()) == verdict
            &&& query.success ==> uos_activation(query) == verdict
        }),
{
    let low = lowercase_of(query.output@);
    let n = uos_not_kw();
    let a = uos_act_kw();
    assert(n[0] == "未激活"@ && n[1] == "not activated"@ && n[2] == "未授权"@ && n[3] == "试用期"@
        && n[4] == "试用"@ && n[5] == "trial"@ && n[6] == "expired"@ && n[7] == "已过期"@ && n[8]
        == "inactive"@ && n[9] == "未激活"@);
    assert(a[0] == "已激活"@ && a[1] == "activated"@ && a[2] == "激活成功"@ && a[3] == "已授权"@
        && a[4] == "免费授权"@ && a[5] == "正式授权"@);
    if any_in(low, n) {
        let i = choose|i: int| 0 <= i < n.len() && contains(low, #[trigger] n[i]);
        assert(i == 0 || i == 1 || i == 2 || i == 3 || i == 4 || i == 5 || i == 6 || i == 7 || i
            == 8 || i == 9);
    }
    if any_in(low, a) {
        let i = choose|i: int| 0 <= i < a.len() && contains(low, #[trigger] a[i]);
        assert(i == 0 || i == 1 || i == 2 || i == 3 || i == 4 || i == 5);
    }
}

/// `slmgr.vbs` on Windows, where either command ran: not activated when
/// the lowercased `-xpr` output holds 通知模式, 未激活, "notification" or "not
/// activated", or the lowercased `-dlv` output holds "unlicensed", 未授权 or
/// 未激活; else activated when `-xpr` holds 永久激活, 已激活, "permanently
/// activated", "activated", 将在, 到期, 过期 or "expires", or `-dlv` holds
/// "licensed" or 已授权; else unknown.
pub proof fn law_windows_keywords(xpr: CheckItem, dlv: CheckItem)
    ensures
        ({
            let x = lowercase_of(xpr.output@);
            let d = lowercase_of(dlv.output@);
            let not = contains(x, "通知模式"@) || contains(x, "未激活"@) || contains(
                x,
                "notification"@,
            ) || contains(x, "not activated"@) || contains(d, "unlicensed"@) || contains(
                d,
                "未授权"@,
            ) || contains(d, "未激活"@);
            let act = contains(x, "永久激活"@) || contains(x, "已激活"@) || contains(
                x,
                "permanently activated"@,
            ) || contains(x, "activated"@) || contains(x, "将在"@) || contains(x, "到期"@)
                || contains(x, "过期"@) || contains(x, "expires"@) || contains(d, "licensed"@)
                || contains(d, "已授权"@);
            let verdict = if not {
                Activation::NotActivated
            } else if act {
                Activation::Activated
            } else {
                Activation::Unknown
            };
            &&& windows_spec(xpr.output@, dlv.output@) == verdict
            &&& xpr.success || dlv.success ==> windows_activation(xpr, dlv) == verdict
        }),
{
    let x = lowercase_of(xpr.output@);
    let d = lowercase_of(dlv.output@);
    let xn = win_xpr_not_kw();
    let dn = win_dlv_not_kw();
    let xa = win_xpr_act_kw();
    let da = win_dlv_act_kw();
    assert(xn[0] == "通知模式"@ && xn[1] == "未激活"@ && xn[2] == "notification"@ && xn[3]
        == "not activated"@);
    assert(dn[0] == "unlicensed"@ && dn[1] == "未授权"@ && dn[2] == "未激活"@);
    assert(xa[0] == "永久激活"@ && xa[1] == "已激活"@ && xa[2] == "permanently activated"@ && xa[3]
        == "activated"@ && xa[4] == "将在"@ && xa[5] == "到期"@ && xa[6] == "过期"@ && xa[7]
        == "expires"@);
    assert(da[0] == "licensed"@ && da[1] == "已授权"@);
    if any_in(x, xn) {
        let i = choose|i: int| 0 <= i < xn.len() && contains(x, #[trigger] xn[i]);
        assert(i == 0 || i == 1 || i == 2 || i == 3);
    }
    if any_in(d, dn) {
        let i = choose|i: int| 0 <= i < dn.len() && contains(d, #[trigger] dn[i]);
        assert(i == 0 || i == 1 || i == 2);
    }
    if any_in(x, xa) {
        let i = choose|i: int| 0 <= i < xa.len() && contains(x, #[trigger] xa[i]);
        assert(i == 0 || i == 1 || i == 2 || i == 3 || i == 4 || i == 5 || i == 6 || i == 7);
    }
    if any_in(d, da) {
        let i = choose|i: int| 0 <= i < da.len() && contains(d, #[trigger] da[i]);
        assert(i == 0 || i == 1);
    }
}

} // verus!
