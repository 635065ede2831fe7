use excelookup::startup::{explain_error, failure_message};

#[test]
fn explains_missing_display() {
    assert!(explain_error("neither WAYLAND_DISPLAY nor DISPLAY is set").contains("显示会话"));
}

#[test]
fn explains_graphics_failure() {
    assert!(explain_error("glutin error: failed to create EGL context").contains("OpenGL"));
}

#[test]
fn explains_missing_xkbcommon_x11() {
    assert!(
        explain_error("Library libxkbcommon-x11.so could not be loaded")
            .contains("libxkbcommon-x11-0")
    );
}

#[test]
fn failure_message_contains_raw_error_and_log() {
    let message = failure_message("测试底层错误", Some("/tmp/test.log"));
    assert!(message.contains("测试底层错误"));
    assert!(message.contains("/tmp/test.log"));
}

#[test]
fn explanations_follow_the_order_of_checks() {
    // Missing OpenGL libraries come before the general X11 check.
    assert!(explain_error("cannot open LIBGL.so.1").starts_with("无法加载 OpenGL/EGL 运行库"));
    assert!(explain_error("xcb connection failed").starts_with("X11 运行库"));
    assert!(explain_error("something else").starts_with("窗口或图形渲染环境初始化失败"));
}

#[test]
fn failure_message_without_log_says_so() {
    let message = failure_message("e", None);
    assert!(message.starts_with("ExcelLookup 无法启动。\n\n可能原因:\n"));
    assert!(message.ends_with("诊断日志: 无法创建日志文件,请从终端启动并查看错误输出"));
    assert!(message.contains("\n\n底层错误:\ne\n\n"));
}
