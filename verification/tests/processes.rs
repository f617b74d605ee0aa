use corpo_drone::processes::{
    linux_display_name_for_pid, linux_parse_status, linux_pid, linux_proc_environ_has_display,
    linux_skip_comm, list_apps, Process,
};

#[test]
fn a_display_is_found_in_an_environment() {
    assert!(linux_proc_environ_has_display(b"HOME=/x\0DISPLAY=:0\0"));
    assert!(linux_proc_environ_has_display(b"WAYLAND_DISPLAY=wayland-0"));
    assert!(linux_proc_environ_has_display(b"\0\0DISPLAY=1"));
}

#[test]
fn an_empty_display_is_none() {
    assert!(!linux_proc_environ_has_display(b"DISPLAY=\0WAYLAND_DISPLAY=\0"));
    assert!(!linux_proc_environ_has_display(b"XDISPLAY=:0\0DISPLA=:0"));
    assert!(!linux_proc_environ_has_display(b""));
    assert!(!linux_proc_environ_has_display(b"\0"));
}

#[test]
fn a_status_is_read() {
    let s = "Name:\tfire fox \nState:\tS (sleeping)\nUid:\t1000\t1001\t1002\t1003\n";
    assert_eq!(linux_parse_status(s), Some((1001, "fire fox".to_string(), false)));
}

#[test]
fn a_zombie_is_told_apart() {
    let s = "Name:\tx\r\nUid:\t0 7\r\nState:\tZ (zombie)\r\n";
    assert_eq!(linux_parse_status(s), Some((7, "x".to_string(), true)));
    assert_eq!(linux_parse_status("Name: x\nUid: 0 7\nState: \t\n"), Some((7, "x".to_string(), false)));
}

#[test]
fn a_status_without_user_or_name_is_nothing() {
    assert_eq!(linux_parse_status("Name:\tx\n"), None);
    assert_eq!(linux_parse_status("Uid:\t1\t2\n"), None);
    assert_eq!(linux_parse_status("Name:\tx\nUid:\t1\n"), None);
    assert_eq!(linux_parse_status("Name:\tx\nUid:\t1\ty\n"), None);
    assert_eq!(linux_parse_status("Name:\tx\nUid:\t1\t4294967296\n"), None);
    assert_eq!(linux_parse_status(""), None);
}

#[test]
fn the_last_field_counts() {
    assert_eq!(
        linux_parse_status("Name:a\nName:b\nUid: 1 2\nUid: 3 4\nUid: 5\nState:Z\nState:R"),
        Some((4, "b".to_string(), false))
    );
    assert_eq!(linux_parse_status("Name:a\nUid: 1 2\nUid: 3 x"), None);
}

#[test]
fn a_process_is_named_after_its_program() {
    let c = |b: &[u8]| Some(b.to_vec());
    assert_eq!(linux_display_name_for_pid(&c(b"/usr/bin/gedit\0-x\0"), "comm"), "gedit");
    assert_eq!(linux_display_name_for_pid(&c(b"gedit"), "comm"), "gedit");
    assert_eq!(linux_display_name_for_pid(&c(b"/opt/app/.//\0"), "comm"), "app");
    assert_eq!(linux_display_name_for_pid(&c(b"a/./b/."), "comm"), "b");
    assert_eq!(linux_display_name_for_pid(&c(b"x\xff"), "comm"), "x\u{fffd}");
}

#[test]
fn a_process_without_a_program_name_has_that_of_its_status() {
    let c = |b: &[u8]| Some(b.to_vec());
    assert_eq!(linux_display_name_for_pid(&None, "comm"), "comm");
    assert_eq!(linux_display_name_for_pid(&c(b""), "comm"), "comm");
    assert_eq!(linux_display_name_for_pid(&c(b"\0x"), "comm"), "comm");
    assert_eq!(linux_display_name_for_pid(&c(b"/"), "comm"), "comm");
    assert_eq!(linux_display_name_for_pid(&c(b"a/.."), "comm"), "comm");
    assert_eq!(linux_display_name_for_pid(&c(b"."), "comm"), "comm");
}

#[test]
fn shells_are_skipped() {
    for s in ["bash", "sh", "dash", "zsh", "fish", "tcsh", "ksh", "mksh"] {
        assert!(linux_skip_comm(s));
    }
    assert!(!linux_skip_comm("bash "));
    assert!(!linux_skip_comm("emacs"));
    assert!(!linux_skip_comm(""));
}

#[test]
fn directories_of_processes_have_numbers() {
    assert_eq!(linux_pid("123"), Some(123));
    assert_eq!(linux_pid("0012"), Some(12));
    assert_eq!(linux_pid("4294967295"), Some(4294967295));
    assert_eq!(linux_pid("4294967296"), None);
    assert_eq!(linux_pid("+5"), None);
    assert_eq!(linux_pid("self"), None);
    assert_eq!(linux_pid(""), None);
}

fn process(pid: u32, name: &str, euid: u32) -> Process {
    Process {
        pid,
        status: Some(format!("Name:\t{name}\nUid:\t0\t{euid}\t0\t0\nState:\tR\n")),
        environ: Some(b"DISPLAY=:0\0".to_vec()),
        has_exe: true,
        cmdline: None,
    }
}

fn pair(a: &str, b: &str) -> (String, String) {
    (a.to_string(), b.to_string())
}

#[test]
fn applications_are_listed_in_order() {
    let ps = vec![
        process(9, "zed", 5),
        process(10, "Atom", 5),
        process(2, "atom", 5),
        process(30, "ATOM", 5),
        process(4, "Éditeur", 5),
    ];
    assert_eq!(
        list_apps(ps, 5),
        vec![
            pair("Atom", "10"),
            pair("atom", "2"),
            pair("ATOM", "30"),
            pair("zed", "9"),
            pair("Éditeur", "4")
        ]
    );
}

#[test]
fn other_processes_are_left_out() {
    let mut zombie = process(1, "a", 5);
    zombie.status = Some("Name:a\nUid: 5 5\nState: Z".to_string());
    let mut blind = process(2, "b", 5);
    blind.environ = Some(b"HOME=/".to_vec());
    let mut hidden = process(3, "c", 5);
    hidden.environ = None;
    let mut kernel = process(4, "d", 5);
    kernel.has_exe = false;
    let mut gone = process(5, "e", 5);
    gone.status = None;
    let ps = vec![zombie, blind, hidden, kernel, gone, process(6, "f", 6), process(7, "zsh", 5), process(8, "h", 5)];
    assert_eq!(list_apps(ps, 5), vec![pair("h", "8")]);
}

#[test]
fn a_process_told_of_twice_is_listed_once() {
    assert_eq!(
        list_apps(vec![process(8, "h", 5), process(8, "H", 5)], 5),
        vec![pair("h", "8")]
    );
    assert_eq!(list_apps(vec![], 5), vec![]);
}
