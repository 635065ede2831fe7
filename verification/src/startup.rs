//! What the user is told when the window cannot start: a likely cause read from the
//! error text, and the full message around it.

use vstd::prelude::*;

use vstd::string::StringExecFns;

use crate::text::chars_of;

verus! {

/// `c` in lower case when it is an ASCII capital letter, else `c` itself.
pub open spec fn lower_char(c: char) -> char {
    if 'A' <= c && c <= 'Z' {
        ((c as u32) + 32) as char
    } else {
        c
    }
}

/// `s` with its ASCII capitals lowered, as `str::to_ascii_lowercase` gives it.
pub open spec fn ascii_lower(s: Seq<char>) -> Seq<char> {
    s.map_values(|c: char| lower_char(c))
}

/// Whether `needle` occurs in `hay`.
pub open spec fn contains_spec(hay: Seq<char>, needle: Seq<char>) -> bool {
    exists|i: int|
        0 <= i && i + needle.len() <= hay.len() && #[trigger] hay.subrange(i, i + needle.len())
            == needle
}

/// The likely cause shown for a start-up error, chosen from its lowered text.
pub open spec fn explanation(error: Seq<char>) -> Seq<char> {
    let e = ascii_lower(error);
    if contains_spec(e, "neither wayland"@) || contains_spec(e, "display is not set"@)
        || contains_spec(e, "wayland_display"@) {
        "未检测到可用的桌面显示会话。请从 UOS 桌面启动,并确认 DISPLAY 已设置;当前版本使用 X11,不支持仅有 Wayland 会话。"@
    } else if contains_spec(e, "xkbcommon-x11"@) {
        "无法加载 libxkbcommon-x11.so,这是 UOS X11 输入支持的运行库。请安装发行版对应的 libxkbcommon-x11-0 运行包后重试。"@
    } else if contains_spec(e, "libgl.so"@) || contains_spec(e, "libegl.so"@) {
        "无法加载 OpenGL/EGL 运行库。请检查 UOS 的 libgl1、libegl1 及显卡/Mesa 驱动是否完整安装。"@
    } else if contains_spec(e, "xcursor"@) || contains_spec(e, "xkbcommon"@) || contains_spec(
        e,
        "x11"@,
    ) || contains_spec(e, "xcb"@) {
        "X11 运行库或 X11 扩展可能缺失/不可用,请检查 libX11、libxcb、libxkbcommon、libXcursor 等运行库。"@
    } else if contains_spec(e, "glutin"@) || contains_spec(e, "opengl"@) || contains_spec(
        e,
        "egl"@,
    ) || contains_spec(e, "glx"@) || contains_spec(e, "shader"@) || contains_spec(
        e,
        "gl context"@,
    ) {
        "OpenGL/EGL/GLX 图形环境初始化失败,常见原因是显卡驱动、Mesa/图形运行库缺失或当前硬件不支持所需 OpenGL。"@
    } else {
        "窗口或图形渲染环境初始化失败。请检查 UOS 桌面会话、X11/图形运行库及显卡驱动;诊断日志包含更具体的底层信息。"@
    }
}

/// Whether `c` lowered is `d`.
fn lowers_to(c: char, d: char) -> (r: bool)
    ensures
        r == (lower_char(c) == d),
{
    if 'A' <= c && c <= 'Z' {
        (c as u32) + 32 == (d as u32)
    } else {
        c == d
    }
}

/// Whether `needle` occurs in `hay` lowered.
fn contains_lowered(hay: &Vec<char>, needle: &str) -> (r: bool)
    ensures
        r == contains_spec(ascii_lower(hay@), needle@),
{
    let n = chars_of(needle);
    let ghost low = ascii_lower(hay@);
    if n.len() > hay.len() {
        return false;
    }
    if n.len() == 0 {
        assert(low.subrange(0, 0 + needle@.len() as int) == needle@);
        return true;
    }
    let last = hay.len() - n.len();
    let mut i: usize = 0;
    while i <= last
        invariant
            n@ == needle@,
            low == ascii_lower(hay@),
            0 < n@.len() <= hay@.len(),
            hay@.len() <= usize::MAX,
            last == hay@.len() - n@.len(),
            i <= last + 1,
            forall|k: int| 0 <= k < i ==> #[trigger] low.subrange(k, k + n@.len()) != n@,
        decreases last + 1 - i,
    {
        let mut j: usize = 0;
        let mut same = true;
        while j < n.len() && same
            invariant
                i <= last,
                n@.len() <= hay@.len(),
                hay@.len() <= usize::MAX,
                last == hay@.len() - n@.len(),
                low == ascii_lower(hay@),
                j <= n@.len(),
                same ==> forall|m: int| 0 <= m < j ==> low[i + m] == n@[m],
                !same ==> low[i + j - 1] != n@[j - 1] && 0 < j,
            decreases n@.len() - j,
        {
            if !lowers_to(hay[i + j], n[j]) {
                same = false;
            }
            j = j + 1;
        }
        if same {
            assert(low.subrange(i as int, i + n@.len()) == n@);
            return true;
        }
        assert(low.subrange(i as int, i + n@.len())[j - 1] != n@[j - 1]);
        i = i + 1;
    }
    proof {
        assert forall|k: int| 0 <= k && k + needle@.len() <= low.len() implies #[trigger] low.subrange(
            k,
            k + needle@.len(),
        ) != needle@ by {
            assert(k < i);
        }
    }
    false
}

/// The likely cause of a start-up error, judged from its text in lower case: no
/// display session, a missing X11 input library, missing OpenGL/EGL libraries,
/// missing X11 libraries, an OpenGL/EGL/GLX failure, or else a general hint.
pub fn explain_error(error: &str) -> (r: &'static str)
    ensures
        r@ == explanation(error@),
{
    let e = chars_of(error);
    if contains_lowered(&e, "neither wayland") || contains_lowered(&e, "display is not set")
        || contains_lowered(&e, "wayland_display") {
        "未检测到可用的桌面显示会话。请从 UOS 桌面启动,并确认 DISPLAY 已设置;当前版本使用 X11,不支持仅有 Wayland 会话。"
    } else if contains_lowered(&e, "xkbcommon-x11") {
        "无法加载 libxkbcommon-x11.so,这是 UOS X11 输入支持的运行库。请安装发行版对应的 libxkbcommon-x11-0 运行包后重试。"
    } else if contains_lowered(&e, "libgl.so") || contains_lowered(&e, "libegl.so") {
        "无法加载 OpenGL/EGL 运行库。请检查 UOS 的 libgl1、libegl1 及显卡/Mesa 驱动是否完整安装。"
    } else if contains_lowered(&e, "xcursor") || contains_lowered(&e, "xkbcommon")
        || contains_lowered(&e, "x11") || contains_lowered(&e, "xcb") {
        "X11 运行库或 X11 扩展可能缺失/不可用,请检查 libX11、libxcb、libxkbcommon、libXcursor 等运行库。"
    } else if contains_lowered(&e, "glutin") || contains_lowered(&e, "opengl") || contains_lowered(
        &e,
        "egl",
    ) || contains_lowered(&e, "glx") || contains_lowered(&e, "shader") || contains_lowered(
        &e,
        "gl context",
    ) {
        "OpenGL/EGL/GLX 图形环境初始化失败,常见原因是显卡驱动、Mesa/图形运行库缺失或当前硬件不支持所需 OpenGL。"
    } else {
        "窗口或图形渲染环境初始化失败。请检查 UOS 桌面会话、X11/图形运行库及显卡驱动;诊断日志包含更具体的底层信息。"
    }
}

/// The line naming the start-up log, or saying that none could be created.
pub open spec fn log_line(log_path: Option<Seq<char>>) -> Seq<char> {
    match log_path {
        Some(p) => "诊断日志: "@ + p,
        None => "诊断日志: 无法创建日志文件,请从终端启动并查看错误输出"@,
    }
}

/// The view of an optional text.
pub open spec fn opt_text(o: Option<&str>) -> Option<Seq<char>> {
    match o {
        Some(s) => Some(s@),
        None => None,
    }
}

/// The message shown when the window cannot start: the likely cause, the raw error
/// and where the start-up log is.
pub fn failure_message(error: &str, log_path: Option<&str>) -> (m: String)
    ensures
        m@ == "ExcelLookup 无法启动。\n\n可能原因:\n"@ + explanation(error@) + "\n\n底层错误:\n"@
            + error@ + "\n\n"@ + log_line(opt_text(log_path)),
{
    let hint = explain_error(error);
    let mut m = String::from_str("ExcelLookup 无法启动。\n\n可能原因:\n");
    m.append(hint);
    m.append("\n\n底层错误:\n");
    m.append(error);
    m.append("\n\n");
    match log_path {
        Some(p) => {
            m.append("诊断日志: ");
            m.append(p);
        },
        None => {
            m.append("诊断日志: 无法创建日志文件,请从终端启动并查看错误输出");
        },
    }
    m
}

} // verus!
