//! System facts read from text: os-release, cpuinfo, the registry, and the
//! serial-number sources with their order of preference.
use vstd::prelude::*;
use vstd::string::StringExecFns;
use crate::active::opt_view;
use crate::model::{CheckItem, OsInfo};
use crate::text::{
    chars_eq_str, chars_of, contains, contains_str, eq_ignore_ascii_case,
    eq_ignore_ascii_case_chars, lines, lines_chars, lowercase_chars, lowercase_of, remove_char,
    remove_char_chars, split_once, split_once_str, string_of, trim, trim_char, trim_char_chars,
    trim_chars, trim_start_char, trim_start_char_chars, views,
};

verus! {

// ------------------------------------------------------------------ serial numbers

/// A serial number as read, checked: trimmed; empty, placeholder
/// (`none`, `to be filled`, `default string`, `null`, in any case) and
/// short (under 8 characters) values are refused; spaces are taken out.
pub open spec fn sanitize_spec(v: Seq<char>) -> Option<Seq<char>> {
    let s = trim(v);
    let low = lowercase_of(s);
    if s.len() == 0 {
        None
    } else if contains(low, "none"@) || contains(low, "to be filled"@) || contains(
        low,
        "default string"@,
    ) || contains(low, "null"@) {
        None
    } else if s.len() < 8 {
        None
    } else {
        Some(remove_char(s, ' '))
    }
}

/// Checks a serial number as read (see `sanitize_spec`).
pub fn sanitize_sn(v: &str) -> (r: Option<String>)
    ensures
        opt_view(r) == sanitize_spec(v@),
{
    let raw = chars_of(v);
    let s = trim_chars(&raw);
    if s.len() == 0 {
        return None;
    }
    let st = string_of(&s);
    let low = lowercase_chars(st.as_str());
    if contains_str(&low, "none") || contains_str(&low, "to be filled") || contains_str(
        &low,
        "default string",
    ) || contains_str(&low, "null") {
        return None;
    }
    if s.len() < 8 {
        return None;
    }
    let cleaned = remove_char_chars(&s, ' ');
    Some(string_of(&cleaned))
}

/// A serial number that reads as a placeholder (`none`, `to be filled`,
/// `default string`, `null`, in any case) is refused.
pub proof fn law_placeholder_serial_refused(v: Seq<char>)
    requires
        contains(lowercase_of(trim(v)), "none"@) || contains(lowercase_of(trim(v)), "to be filled"@)
            || contains(lowercase_of(trim(v)), "default string"@) || contains(
            lowercase_of(trim(v)),
            "null"@,
        ),
    ensures
        sanitize_spec(v) is None,
{
}

proof fn lemma_remove_char_gone(s: Seq<char>, c: char)
    ensures
        !remove_char(s, c).contains(c),
    decreases s.len(),
{
    if s.len() > 0 {
        lemma_remove_char_gone(s.drop_last(), c);
        if s.last() != c {
            let r = remove_char(s.drop_last(), c);
            assert forall|i: int| 0 <= i < r.push(s.last()).len() implies r.push(s.last())[i] != c by {
                if i < r.len() {
                    assert(r[i] != c);
                }
            }
        }
    }
}

/// An accepted serial number holds no space.
pub proof fn law_accepted_serial_has_no_space(v: Seq<char>)
    ensures
        sanitize_spec(v) matches Some(s) ==> !s.contains(' '),
{
    lemma_remove_char_gone(trim(v), ' ');
}

/// The value of a `Serial Number` line of `ByoDmi -smbiosinfo` output: after
/// `:`, or else after `=`.
pub open spec fn serial_value(l: Seq<char>) -> Option<Seq<char>> {
    match split_once(l, ":"@) {
        Some(p) => Some(trim(p.1)),
        None => match split_once(l, "="@) {
            Some(p) => Some(trim(p.1)),
            None => None,
        },
    }
}

/// The first valid serial number of a `Serial Number` line (not a UUID
/// line), from line `i` on.
pub open spec fn byodmi_serial_from(ls: Seq<Seq<char>>, i: int) -> Option<Seq<char>>
    decreases ls.len() - i,
{
    if i < 0 || i >= ls.len() {
        None
    } else {
        let l = trim(ls[i]);
        let low = lowercase_of(l);
        if contains(low, "serial number"@) && !contains(low, "uuid"@) {
            match serial_value(l) {
                Some(v) => match sanitize_spec(v) {
                    Some(s) => Some(s),
                    None => byodmi_serial_from(ls, i + 1),
                },
                None => byodmi_serial_from(ls, i + 1),
            }
        } else {
            byodmi_serial_from(ls, i + 1)
        }
    }
}

/// The serial number in the output of `ByoDmi -smbiosinfo` (its SMBIOS
/// type 1 `Serial Number`).
pub fn byodmi_serial(text: &str) -> (r: Option<String>)
    ensures
        opt_view(r) == byodmi_serial_from(lines(text@), 0),
{
    let t = chars_of(text);
    let ls = lines_chars(&t);
    let mut i: usize = 0;
    while i < ls.len()
        invariant
            i <= ls.len(),
            views(ls@) == lines(text@),
            byodmi_serial_from(views(ls@), 0) == byodmi_serial_from(views(ls@), i as int),
        decreases ls.len() - i,
    {
        assert(views(ls@)[i as int] == ls@[i as int]@);
        let l = trim_chars(&ls[i]);
        let ls_str = string_of(&l);
        let low = lowercase_chars(ls_str.as_str());
        if contains_str(&low, "serial number") && !contains_str(&low, "uuid") {
            let v = match split_once_str(&l, ":") {
                Some((_, v)) => Some(trim_chars(&v)),
                None => match split_once_str(&l, "=") {
                    Some((_, v)) => Some(trim_chars(&v)),
                    None => None,
                },
            };
            match v {
                Some(v) => {
                    let vs = string_of(&v);
                    match sanitize_sn(vs.as_str()) {
                        Some(s) => {
                            return Some(s);
                        },
                        None => {},
                    }
                },
                None => {},
            }
        }
        i += 1;
    }
    None
}

/// The `tool_path` value of the first line that holds one, from line `i` on.
pub open spec fn tool_path_from(ls: Seq<Seq<char>>, i: int) -> Option<Seq<char>>
    decreases ls.len() - i,
{
    if i < 0 || i >= ls.len() {
        None
    } else {
        match split_once(trim(ls[i]), "tool_path"@) {
            Some(p) => {
                let v = trim(trim_char(trim(trim_start_char(trim(p.1), '=')), '"'));
                if v.len() > 0 {
                    Some(v)
                } else {
                    tool_path_from(ls, i + 1)
                }
            },
            None => tool_path_from(ls, i + 1),
        }
    }
}

/// The serial-number tool path set in `os-active.toml` (`tool_path = "..."`).
pub fn cfg_tool_path(content: &str) -> (r: Option<String>)
    ensures
        opt_view(r) == tool_path_from(lines(content@), 0),
{
    let t = chars_of(content);
    let ls = lines_chars(&t);
    let mut i: usize = 0;
    while i < ls.len()
        invariant
            i <= ls.len(),
            views(ls@) == lines(content@),
            tool_path_from(views(ls@), 0) == tool_path_from(views(ls@), i as int),
        decreases ls.len() - i,
    {
        assert(views(ls@)[i as int] == ls@[i as int]@);
        let l = trim_chars(&ls[i]);
        match split_once_str(&l, "tool_path") {
            Some((_, v)) => {
                let v = trim_chars(&v);
                let v = trim_start_char_chars(&v, '=');
                let v = trim_chars(&v);
                let v = trim_char_chars(&v, '"');
                let v = trim_chars(&v);
                if v.len() > 0 {
                    return Some(string_of(&v));
                }
            },
            None => {},
        }
        i += 1;
    }
    None
}

/// One serial-number source: the item shown for it and the value it gave.
pub open spec fn source_item(
    item: CheckItem,
    name: Seq<char>,
    command: Seq<char>,
    value: Option<Seq<char>>,
    missing: Seq<char>,
    found_verdict: Seq<char>,
) -> bool {
    &&& item.name@ == name
    &&& item.command@ == command
    &&& match value {
        Some(v) => item.success && item.output@ == v && item.verdict@ == found_verdict,
        None => !item.success && item.output@ == missing && item.verdict@ == "跳过"@,
    }
}

fn source_check_item(
    name: &str,
    command: &str,
    value: &Option<String>,
    missing: &str,
    found_verdict: &str,
) -> (r: CheckItem)
    ensures
        source_item(r, name@, command@, opt_view(*value), missing@, found_verdict@),
{
    match value {
        Some(v) => CheckItem::new(name, command, true, v.clone(), found_verdict),
        None => CheckItem::new(name, command, false, missing.to_string(), "跳过"),
    }
}

/// The serial number and where it came from: the first source that gave
/// one, in the order ByoDmi, DMI `product_serial`, DMI `board_serial`,
/// `dmidecode`, `/etc/machine-id` (the last only when not empty).
pub open spec fn sn_choice(
    byodmi: Option<Seq<char>>,
    product: Option<Seq<char>>,
    board: Option<Seq<char>>,
    dmidecode: Option<Seq<char>>,
    machine_id: Option<Seq<char>>,
) -> (Option<Seq<char>>, Seq<char>) {
    if byodmi is Some {
        (byodmi, "ByoDmi"@)
    } else if product is Some {
        (product, "DMI product_serial"@)
    } else if board is Some {
        (board, "DMI board_serial"@)
    } else if dmidecode is Some {
        (dmidecode, "dmidecode"@)
    } else if machine_id matches Some(m) && m.len() > 0 {
        (machine_id, "machine-id"@)
    } else {
        (None, "未获取"@)
    }
}

/// The machine id as read from `/etc/machine-id`, trimmed.
pub open spec fn trimmed(t: Option<String>) -> Option<Seq<char>> {
    match t {
        Some(s) => Some(trim(s@)),
        None => None,
    }
}

/// The serial number of a Linux system from its sources (the first four
/// already checked, the machine id as read), with one item per source and
/// the name of the source taken.
pub fn sn_from_linux_sources(
    byodmi: Option<String>,
    product: Option<String>,
    board: Option<String>,
    dmidecode: Option<String>,
    machine_id: Option<String>,
) -> (r: (Option<String>, Vec<CheckItem>, String))
    ensures
        (opt_view(r.0), r.2@) == sn_choice(
            opt_view(byodmi),
            opt_view(product),
            opt_view(board),
            opt_view(dmidecode),
            trimmed(machine_id),
        ),
        r.1@.len() == 5,
        source_item(
            r.1@[0],
            "SN-ByoDmi"@,
            "ByoDmi -smbiosinfo"@,
            opt_view(byodmi),
            "不可用(未放置工具或平台不支持)"@,
            "成功"@,
        ),
        source_item(
            r.1@[1],
            "SN-DMI序列号"@,
            "cat /sys/class/dmi/id/product_serial"@,
            opt_view(product),
            "读取失败(需 root 权限或虚拟机无 SN)"@,
            "成功"@,
        ),
        source_item(
            r.1@[2],
            "SN-主板序列号"@,
            "cat /sys/class/dmi/id/board_serial"@,
            opt_view(board),
            "读取失败(需 root 权限或虚拟机无 SN)"@,
            "成功"@,
        ),
        source_item(
            r.1@[3],
            "SN-dmidecode"@,
            "dmidecode -s system-serial-number"@,
            opt_view(dmidecode),
            "读取失败(需 root 权限)"@,
            "成功"@,
        ),
        source_item(
            r.1@[4],
            "SN-machine-id"@,
            "cat /etc/machine-id"@,
            trimmed(machine_id),
            "读取失败"@,
            "兜底(非厂商SN)"@,
        ),
{
    let machine_id: Option<String> = match machine_id {
        Some(t) => {
            let c = chars_of(t.as_str());
            let tr = trim_chars(&c);
            Some(string_of(&tr))
        },
        None => None,
    };
    let mut probes: Vec<CheckItem> = Vec::new();
    probes.push(
        source_check_item(
            "SN-ByoDmi",
            "ByoDmi -smbiosinfo",
            &byodmi,
            "不可用(未放置工具或平台不支持)",
            "成功",
        ),
    );
    probes.push(
        source_check_item(
            "SN-DMI序列号",
            "cat /sys/class/dmi/id/product_serial",
            &product,
            "读取失败(需 root 权限或虚拟机无 SN)",
            "成功",
        ),
    );
    probes.push(
        source_check_item(
            "SN-主板序列号",
            "cat /sys/class/dmi/id/board_serial",
            &board,
            "读取失败(需 root 权限或虚拟机无 SN)",
            "成功",
        ),
    );
    probes.push(
        source_check_item(
            "SN-dmidecode",
            "dmidecode -s system-serial-number",
            &dmidecode,
            "读取失败(需 root 权限)",
            "成功",
        ),
    );
    probes.push(
        source_check_item(
            "SN-machine-id",
            "cat /etc/machine-id",
            &machine_id,
            "读取失败",
            "兜底(非厂商SN)",
        ),
    );
    let machine_ok = match &machine_id {
        Some(m) => m.as_str().unicode_len() > 0,
        None => false,
    };
    if byodmi.is_some() {
        (byodmi, probes, "ByoDmi".to_string())
    } else if product.is_some() {
        (product, probes, "DMI product_serial".to_string())
    } else if board.is_some() {
        (board, probes, "DMI board_serial".to_string())
    } else if dmidecode.is_some() {
        (dmidecode, probes, "dmidecode".to_string())
    } else if machine_ok {
        (machine_id, probes, "machine-id".to_string())
    } else {
        (None, probes, "未获取".to_string())
    }
}

/// The BIOS serial number printed by `(Get-CimInstance Win32_BIOS).SerialNumber`:
/// trimmed; refused when empty or `To be filled by O.E.M.` in any ASCII case.
pub open spec fn bios_serial_spec(out: Seq<char>) -> Option<Seq<char>> {
    let s = trim(out);
    if s.len() > 0 && !eq_ignore_ascii_case(s, "to be filled by o.e.m."@) {
        Some(s)
    } else {
        None
    }
}

/// The serial number of a Windows system from the BIOS query output (`None`
/// where the query could not run), with its item and the source name.
pub fn sn_from_windows_bios(output: Option<String>) -> (r: (Option<String>, Vec<CheckItem>, String))
    ensures
        opt_view(r.0) == (match output {
            Some(o) => bios_serial_spec(o@),
            None => None,
        }),
        r.2@ == (if r.0 is Some {
            "Win32_BIOS"@
        } else {
            "未获取"@
        }),
        r.1@.len() == 1,
        source_item(
            r.1@[0],
            "SN-Win32_BIOS"@,
            "Get-CimInstance Win32_BIOS.SerialNumber"@,
            opt_view(r.0),
            "读取失败"@,
            "成功"@,
        ),
{
    let bios: Option<String> = match output {
        Some(o) => {
            let raw = chars_of(o.as_str());
            let s = trim_chars(&raw);
            let placeholder = chars_of("to be filled by o.e.m.");
            if s.len() > 0 && !eq_ignore_ascii_case_chars(&s, &placeholder) {
                Some(string_of(&s))
            } else {
                None
            }
        },
        None => None,
    };
    let mut probes: Vec<CheckItem> = Vec::new();
    probes.push(
        source_check_item(
            "SN-Win32_BIOS",
            "Get-CimInstance Win32_BIOS.SerialNumber",
            &bios,
            "读取失败",
            "成功",
        ),
    );
    if bios.is_some() {
        (bios, probes, "Win32_BIOS".to_string())
    } else {
        (None, probes, "未获取".to_string())
    }
}

// ------------------------------------------------------------------ os-release

/// The (id, pretty name, version) after reading lines from `i` on, given
/// what was read before: `key=value` lines, values trimmed and unquoted;
/// `VERSION_ID` always sets the version, `VERSION` only while it is empty;
/// blank lines and `#` comments are skipped.
pub open spec fn os_release_from(
    ls: Seq<Seq<char>>,
    i: int,
    st: (Seq<char>, Seq<char>, Seq<char>),
) -> (Seq<char>, Seq<char>, Seq<char>)
    decreases ls.len() - i,
{
    if i < 0 || i >= ls.len() {
        st
    } else {
        let l = trim(ls[i]);
        if l.len() == 0 || l[0] == '#' {
            os_release_from(ls, i + 1, st)
        } else {
            match split_once(l, "="@) {
                Some(p) => {
                    let v = trim_char(trim(p.1), '"');
                    let k = trim(p.0);
                    let next = if k == "ID"@ {
                        (v, st.1, st.2)
                    } else if k == "PRETTY_NAME"@ {
                        (st.0, v, st.2)
                    } else if k == "VERSION_ID"@ {
                        (st.0, st.1, v)
                    } else if k == "VERSION"@ && st.2.len() == 0 {
                        (st.0, st.1, v)
                    } else {
                        st
                    };
                    os_release_from(ls, i + 1, next)
                },
                None => os_release_from(ls, i + 1, st),
            }
        }
    }
}

/// (id, pretty name, version) of an os-release text.
pub open spec fn os_release_spec(content: Seq<char>) -> (Seq<char>, Seq<char>, Seq<char>) {
    os_release_from(lines(content), 0, (seq![], seq![], seq![]))
}

/// Reads `ID`, `PRETTY_NAME` and `VERSION_ID` (or `VERSION`) from the text of
/// `/etc/os-release`.
pub fn parse_os_release(content: &str) -> (r: (String, String, String))
    ensures
        (r.0@, r.1@, r.2@) == os_release_spec(content@),
{
    let t = chars_of(content);
    let ls = lines_chars(&t);
    let mut id = String::new();
    let mut pretty = String::new();
    let mut version = String::new();
    let mut i: usize = 0;
    while i < ls.len()
        invariant
            i <= ls.len(),
            views(ls@) == lines(content@),
            os_release_spec(content@) == os_release_from(
                views(ls@),
                i as int,
                (id@, pretty@, version@),
            ),
        decreases ls.len() - i,
    {
        assert(views(ls@)[i as int] == ls@[i as int]@);
        let l = trim_chars(&ls[i]);
        if l.len() == 0 || l[0] == '#' {
        } else {
            match split_once_str(&l, "=") {
                Some((k, v)) => {
                    let v = trim_chars(&v);
                    let v = trim_char_chars(&v, '"');
                    let k = trim_chars(&k);
                    if chars_eq_str(&k, "ID") {
                        id = string_of(&v);
                    } else if chars_eq_str(&k, "PRETTY_NAME") {
                        pretty = string_of(&v);
                    } else if chars_eq_str(&k, "VERSION_ID") {
                        version = string_of(&v);
                    } else if chars_eq_str(&k, "VERSION") && version.as_str().unicode_len() == 0 {
                        version = string_of(&v);
                    }
                },
                None => {},
            }
        }
        i += 1;
    }
    (id, pretty, version)
}

/// The name shown for a Linux distribution id.
pub open spec fn os_name_spec(id: Seq<char>, has_kyinfo: bool) -> Seq<char> {
    if id == "kylin"@ {
        "银河麒麟"@
    } else if id == "uos"@ || id == "deepin"@ {
        "统信 UOS"@
    } else if id == "ubuntu"@ {
        "Ubuntu"@
    } else if has_kyinfo {
        "银河麒麟"@
    } else if id.len() == 0 {
        "Linux"@
    } else {
        id
    }
}

/// The name shown for a Linux distribution id (a Kylin license file marks
/// an unknown id as Kylin).
pub fn os_name(id: &str, has_kyinfo: bool) -> (r: String)
    ensures
        r@ == os_name_spec(id@, has_kyinfo),
{
    let c = chars_of(id);
    if chars_eq_str(&c, "kylin") {
        "银河麒麟".to_string()
    } else if chars_eq_str(&c, "uos") || chars_eq_str(&c, "deepin") {
        "统信 UOS".to_string()
    } else if chars_eq_str(&c, "ubuntu") {
        "Ubuntu".to_string()
    } else if has_kyinfo {
        "银河麒麟".to_string()
    } else if c.len() == 0 {
        "Linux".to_string()
    } else {
        id.to_string()
    }
}

/// The facts of a Linux system, from the text of `/etc/os-release` (empty
/// where it cannot be read), the architecture, whether `/etc/.kyinfo`
/// exists, the serial number and the CPU.
pub fn detect_linux_from(
    os_release: &str,
    arch: String,
    has_kyinfo: bool,
    sn: Option<String>,
    cpu: String,
) -> (r: OsInfo)
    ensures
        r.name@ == os_name_spec(os_release_spec(os_release@).0, has_kyinfo),
        r.distro_id@ == os_release_spec(os_release@).0,
        r.pretty@ == os_release_spec(os_release@).1,
        r.version@ == os_release_spec(os_release@).2,
        r.arch == arch,
        r.sn@ == (match sn {
            Some(s) => s@,
            None => Seq::<char>::empty(),
        }),
        r.cpu == cpu,
        r.sn_source@.len() == 0,
{
    let (id, pretty, version) = parse_os_release(os_release);
    let name = os_name(id.as_str(), has_kyinfo);
    let sn = match sn {
        Some(s) => s,
        None => String::new(),
    };
    OsInfo { name, version, arch, distro_id: id, pretty, sn, cpu, sn_source: String::new() }
}

// ------------------------------------------------------------------ Windows

/// The value after `REG_SZ` on the first line that holds it, from `i` on.
pub open spec fn reg_sz_from(ls: Seq<Seq<char>>, i: int) -> Option<Seq<char>>
    decreases ls.len() - i,
{
    if i < 0 || i >= ls.len() {
        None
    } else {
        match split_once(trim(ls[i]), "REG_SZ"@) {
            Some(p) => Some(trim(p.1)),
            None => reg_sz_from(ls, i + 1),
        }
    }
}

/// The Windows product name in `reg query ... /v ProductName` output, `10+`
/// where there is none.
pub open spec fn windows_version_spec(out: Seq<char>) -> Seq<char> {
    match reg_sz_from(lines(out), 0) {
        Some(v) => v,
        None => "10+"@,
    }
}

/// The Windows product name in `reg query ... /v ProductName` output.
pub fn windows_version(out: &str) -> (r: String)
    ensures
        r@ == windows_version_spec(out@),
{
    let t = chars_of(out);
    let ls = lines_chars(&t);
    let mut i: usize = 0;
    while i < ls.len()
        invariant
            i <= ls.len(),
            views(ls@) == lines(out@),
            reg_sz_from(views(ls@), 0) == reg_sz_from(views(ls@), i as int),
        decreases ls.len() - i,
    {
        assert(views(ls@)[i as int] == ls@[i as int]@);
        let l = trim_chars(&ls[i]);
        match split_once_str(&l, "REG_SZ") {
            Some((_, v)) => {
                let v = trim_chars(&v);
                return string_of(&v);
            },
            None => {},
        }
        i += 1;
    }
    "10+".to_string()
}

/// The facts of a Windows system, from the registry query output (empty
/// where it could not run), the architecture, the serial number and the CPU.
pub fn detect_windows_from(reg_output: &str, arch: String, sn: Option<String>, cpu: String) -> (r:
    OsInfo)
    ensures
        r.name@ == "Windows"@,
        r.version@ == windows_version_spec(reg_output@),
        r.pretty@ == "Windows "@ + windows_version_spec(reg_output@),
        r.distro_id@ == "windows"@,
        r.arch == arch,
        r.sn@ == (match sn {
            Some(s) => s@,
            None => Seq::<char>::empty(),
        }),
        r.cpu == cpu,
        r.sn_source@.len() == 0,
{
    let version = windows_version(reg_output);
    let mut pretty = "Windows ".to_string();
    pretty.append(version.as_str());
    let sn = match sn {
        Some(s) => s,
        None => String::new(),
    };
    OsInfo {
        name: "Windows".to_string(),
        version,
        arch,
        distro_id: "windows".to_string(),
        pretty,
        sn,
        cpu,
        sn_source: String::new(),
    }
}

// ------------------------------------------------------------------ CPU

/// The vendor shown for a `vendor_id` value.
pub open spec fn vendor_spec(v: Seq<char>) -> Seq<char> {
    if contains(v, "Hygon"@) {
        "海光 Hygon"@
    } else if contains(v, "Centaur"@) {
        "兆芯 Zhaoxin"@
    } else if contains(v, "GenuineIntel"@) {
        "Intel"@
    } else if contains(v, "AuthenticAMD"@) {
        "AMD"@
    } else {
        v
    }
}

/// The CPU text after reading `/proc/cpuinfo` lines from `i` on with the
/// vendor found so far: the first `model name` after a `vendor_id` gives
/// `model (vendor)`; without one the vendor alone.
pub open spec fn cpu_from(ls: Seq<Seq<char>>, i: int, vendor: Seq<char>) -> Seq<char>
    decreases ls.len() - i,
{
    if i < 0 || i >= ls.len() {
        vendor
    } else {
        match split_once(trim(ls[i]), ":"@) {
            Some(p) => {
                let k = trim(p.0);
                let v = trim(p.1);
                if k == "model name"@ && vendor.len() > 0 {
                    v + " ("@ + vendor + ")"@
                } else if k == "vendor_id"@ {
                    cpu_from(ls, i + 1, vendor_spec(v))
                } else {
                    cpu_from(ls, i + 1, vendor)
                }
            },
            None => cpu_from(ls, i + 1, vendor),
        }
    }
}

/// The vendor shown for a `vendor_id` value.
pub fn vendor_name(v: &Vec<char>) -> (r: String)
    ensures
        r@ == vendor_spec(v@),
{
    if contains_str(v, "Hygon") {
        "海光 Hygon".to_string()
    } else if contains_str(v, "Centaur") {
        "兆芯 Zhaoxin".to_string()
    } else if contains_str(v, "GenuineIntel") {
        "Intel".to_string()
    } else if contains_str(v, "AuthenticAMD") {
        "AMD".to_string()
    } else {
        string_of(v)
    }
}

/// The CPU model and vendor (海光 Hygon / 兆芯 Zhaoxin / Intel / AMD) from the
/// text of `/proc/cpuinfo`.
pub fn cpu_from_cpuinfo(content: &str) -> (r: String)
    ensures
        r@ == cpu_from(lines(content@), 0, seq![]),
{
    let t = chars_of(content);
    let ls = lines_chars(&t);
    let mut vendor = String::new();
    let mut i: usize = 0;
    while i < ls.len()
        invariant
            i <= ls.len(),
            views(ls@) == lines(content@),
            cpu_from(views(ls@), 0, seq![]) == cpu_from(views(ls@), i as int, vendor@),
        decreases ls.len() - i,
    {
        assert(views(ls@)[i as int] == ls@[i as int]@);
        let l = trim_chars(&ls[i]);
        match split_once_str(&l, ":") {
            Some((k, v)) => {
                let k = trim_chars(&k);
                let v = trim_chars(&v);
                if chars_eq_str(&k, "model name") && vendor.as_str().unicode_len() > 0 {
                    let mut out = string_of(&v);
                    out.append(" (");
                    out.append(vendor.as_str());
                    out.append(")");
                    return out;
                }
                if chars_eq_str(&k, "vendor_id") {
                    vendor = vendor_name(&v);
                }
            },
            None => {},
        }
        i += 1;
    }
    vendor
}

/// The CPU name printed by `(Get-CimInstance Win32_Processor).Name`, trimmed.
pub fn cpu_from_windows(output: &str) -> (r: String)
    ensures
        r@ == trim(output@),
{
    let t = chars_of(output);
    let s = trim_chars(&t);
    string_of(&s)
}

// ------------------------------------------------------------------ laws of the sources

/// The Windows BIOS serial: the trimmed output is taken, whatever its
/// length, unless it is empty or `To be filled by O.E.M.` in any ASCII case;
/// nothing else is ever taken.
pub proof fn law_bios_serial_taken(out: Seq<char>)
    ensures
        trim(out).len() > 0 && !eq_ignore_ascii_case(trim(out), "to be filled by o.e.m."@)
            ==> bios_serial_spec(out) == Some(trim(out)),
        trim(out).len() == 0 || eq_ignore_ascii_case(trim(out), "to be filled by o.e.m."@)
            ==> bios_serial_spec(out) is None,
        bios_serial_spec(out) matches Some(v) ==> v == trim(out),
{
}

/// The key of an os-release line (`KEY=value`): the trimmed text before the
/// first `=`; blank lines, `#` comments and lines without `=` have none.
pub open spec fn os_line_key(l: Seq<char>) -> Option<Seq<char>> {
    let t = trim(l);
    if t.len() == 0 || t[0] == '#' {
        None
    } else {
        match split_once(t, "="@) {
            Some(p) => Some(trim(p.0)),
            None => None,
        }
    }
}

/// The value of an os-release line: the text after the first `=`, trimmed
/// and without surrounding double quotes.
pub open spec fn os_line_value(l: Seq<char>) -> Seq<char> {
    match split_once(trim(l), "="@) {
        Some(p) => trim_char(trim(p.1), '"'),
        None => seq![],
    }
}

proof fn lemma_os_release_id(ls: Seq<Seq<char>>, i: int, st: (Seq<char>, Seq<char>, Seq<char>))
    requires
        0 <= i,
    ensures
        (forall|k: int| i <= k < ls.len() ==> os_line_key(#[trigger] ls[k]) != Some("ID"@))
            ==> os_release_from(ls, i, st).0 == st.0,
        forall|j: int|
            i <= j < ls.len() && os_line_key(#[trigger] ls[j]) == Some("ID"@) && (forall|k: int|
                j < k < ls.len() ==> os_line_key(#[trigger] ls[k]) != Some("ID"@))
                ==> os_release_from(ls, i, st).0 == os_line_value(ls[j]),
    decreases ls.len() - i,
{
    if i < ls.len() {
        let l = trim(ls[i]);
        let next: (Seq<char>, Seq<char>, Seq<char>) = if l.len() == 0 || l[0] == '#' {
            st
        } else {
            match split_once(l, "="@) {
                Some(p) => {
                    let v = trim_char(trim(p.1), '"');
                    let k = trim(p.0);
                    if k == "ID"@ {
                        (v, st.1, st.2)
                    } else if k == "PRETTY_NAME"@ {
                        (st.0, v, st.2)
                    } else if k == "VERSION_ID"@ {
                        (st.0, st.1, v)
                    } else if k == "VERSION"@ && st.2.len() == 0 {
                        (st.0, st.1, v)
                    } else {
                        st
                    }
                },
                None => st,
            }
        };
        assert(os_release_from(ls, i, st) == os_release_from(ls, i + 1, next));
        assert(os_line_key(ls[i]) == Some("ID"@) ==> next.0 == os_line_value(ls[i]));
        assert(os_line_key(ls[i]) != Some("ID"@) ==> next.0 == st.0);
        lemma_os_release_id(ls, i + 1, next);
    }
}

/// The distribution id read from os-release is the value of the last line
/// whose key is exactly `ID` (so `ID_LIKE`, `VERSION_ID` and every other key
/// leave it alone), and empty where no line has that key.
pub proof fn law_os_release_id_is_last_id_line(content: Seq<char>)
    ensures
        (forall|k: int| 0 <= k < lines(content).len() ==> os_line_key(#[trigger] lines(content)[k])
            != Some("ID"@)) ==> os_release_spec(content).0 == Seq::<char>::empty(),
        forall|j: int|
            0 <= j < lines(content).len() && os_line_key(#[trigger] lines(content)[j]) == Some(
                "ID"@,
            ) && (forall|k: int|
                j < k < lines(content).len() ==> os_line_key(#[trigger] lines(content)[k]) != Some(
                    "ID"@,
                )) ==> os_release_spec(content).0 == os_line_value(lines(content)[j]),
{
    lemma_os_release_id(lines(content), 0, (seq![], seq![], seq![]));
}

} // verus!
