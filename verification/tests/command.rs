use livesplit_plugin::command::command_reply;

fn args(a: &[&str]) -> Vec<String> {
    a.iter().map(|s| s.to_string()).collect()
}

#[test]
fn status_reports_version() {
    assert_eq!(
        command_reply(true, &args(&["status"]), "0.3.1"),
        vec!["&aLiveSplit v0.3.1 \u{2014} IPC not yet implemented"]
    );
}

#[test]
fn anything_else_prints_usage() {
    let usage = vec!["&eUsage:", "&e  /client LiveSplit status"];
    assert_eq!(command_reply(true, &args(&[]), "1"), usage);
    assert_eq!(command_reply(true, &args(&["status", "x"]), "1"), usage);
    assert_eq!(command_reply(true, &args(&["Status"]), "1"), usage);
}

#[test]
fn inactive_plugin_ignores_command() {
    assert_eq!(
        command_reply(false, &args(&["status"]), "1"),
        vec!["&eLiveSplit: plugin not active (between hot-reload Free/Init); ignoring command"]
    );
}
