use vagga_core::command::{
    capture_command, captured_output, command_candidates, command_status, first_found, path_warnings,
    pick_command, run_command,
    run_command_at, run_command_at_env, BuildContext, MonitorResult,
};
use vagga_core::text::decimal_string;

fn s(x: &str) -> String {
    x.to_string()
}

fn argv(items: &[&str]) -> Vec<String> {
    items.iter().map(|x| s(x)).collect()
}

#[test]
fn relative_path_entries_are_skipped() {
    let c = command_candidates("/usr/bin:relative/bin", "foo");
    assert_eq!(c, vec![(s("/usr/bin/foo"), s("/vagga/root/usr/bin/foo"))]);
}

#[test]
fn candidates_keep_path_order() {
    let c = command_candidates("/bin:/usr/local/bin/:", "sh");
    assert_eq!(
        c,
        vec![
            (s("/bin/sh"), s("/vagga/root/bin/sh")),
            (s("/usr/local/bin/sh"), s("/vagga/root/usr/local/bin/sh")),
        ]
    );
}

#[test]
fn exit_zero_is_success() {
    assert!(command_status(&argv(&["make"]), MonitorResult::Exit(0)).is_ok());
}

#[test]
fn nonzero_exit_names_the_status() {
    let e = command_status(&argv(&["make", "all"]), MonitorResult::Exit(17)).unwrap_err();
    assert!(e.contains("17"));
    assert_eq!(e, "Command [\"make\", \"all\"] exited with status 17");
}

#[test]
fn killed_process_is_dead() {
    let e = command_status(&argv(&["make"]), MonitorResult::Killed).unwrap_err();
    assert!(e.contains("dead"));
    assert_eq!(e, "Command [\"make\"] is dead");
}

#[test]
fn captured_output_only_on_success() {
    let cmd = argv(&["cat"]);
    assert_eq!(captured_output(&cmd, MonitorResult::Exit(0), b"out".to_vec()), Ok(b"out".to_vec()));
    assert!(captured_output(&cmd, MonitorResult::Exit(1), b"out".to_vec()).is_err());
    assert!(captured_output(&cmd, MonitorResult::Killed, b"out".to_vec()).is_err());
}

#[test]
fn decimal_rendering() {
    assert_eq!(decimal_string(0), "0");
    assert_eq!(decimal_string(255), "255");
    assert_eq!(decimal_string(-3), "-3");
    assert_eq!(decimal_string(i32::MIN), "-2147483648");
}

#[test]
fn absolute_program_and_merged_environment() {
    let ctx = BuildContext {
        environ: vec![(s("PATH"), s("/bin")), (s("HOME"), s("/root"))],
    };
    let extra = vec![(s("HOME"), s("/work")), (s("LANG"), s("C"))];
    let c = run_command_at_env(&ctx, &argv(&["/bin/echo", "hi"]), &s("/src"), &extra).unwrap();
    assert_eq!(c.executable, "/bin/echo");
    assert_eq!(c.workdir, Some(s("/src")));
    assert_eq!(c.chroot, "/vagga/root");
    assert_eq!(c.args, argv(&["hi"]));
    assert_eq!(
        c.environ,
        vec![(s("PATH"), s("/bin")), (s("HOME"), s("/work")), (s("LANG"), s("C"))]
    );
    assert!(!c.capture_stdout);
}

#[test]
fn default_workdir_and_capture() {
    let ctx = BuildContext { environ: vec![] };
    let c = run_command(&ctx, &argv(&["/bin/true"])).unwrap();
    assert_eq!(c.workdir, Some(s("/work")));
    let c = run_command_at(&ctx, &argv(&["/bin/true", "x"]), &s("/tmp")).unwrap();
    assert_eq!(c.workdir, Some(s("/tmp")));
    assert_eq!(c.args, argv(&["x"]));
    let c = capture_command(&ctx, &argv(&["/bin/cat"]), &vec![]).unwrap();
    assert_eq!(c.workdir, None);
    assert!(c.capture_stdout);
}

#[test]
fn no_path_is_an_error() {
    let ctx = BuildContext { environ: vec![] };
    let e = run_command(&ctx, &argv(&["make"])).unwrap_err();
    assert_eq!(e, "Command \"make\" not found (no PATH)");
}

#[test]
fn command_not_in_path() {
    let ctx = BuildContext {
        environ: vec![(s("PATH"), s("/no-such-dir-here:rel"))],
    };
    let e = run_command(&ctx, &argv(&["make"])).unwrap_err();
    assert_eq!(e, "Command \"make\" not found in \"/no-such-dir-here:rel\"");
}

#[test]
fn path_resolution_picks_existing_absolute_entry() {
    let paths = "/usr/bin:relative/bin";
    let cands = command_candidates(paths, "foo");
    let found = vec![true];
    assert_eq!(pick_command("foo", paths, &cands, &found), Ok(s("/usr/bin/foo")));
    let paths = "relative/bin:/usr/bin";
    let cands = command_candidates(paths, "foo");
    assert_eq!(cands.len(), 1);
    assert_eq!(pick_command("foo", paths, &cands, &vec![true]), Ok(s("/usr/bin/foo")));
}

#[test]
fn first_existing_candidate_wins() {
    let paths = "/a:/b:/c";
    let cands = command_candidates(paths, "x");
    assert_eq!(pick_command("x", paths, &cands, &vec![false, true, true]), Ok(s("/b/x")));
    assert_eq!(
        pick_command("x", paths, &cands, &vec![false, false, false]),
        Err(s("Command \"x\" not found in \"/a:/b:/c\""))
    );
    assert_eq!(first_found(&vec![false, false, true]), Some(2));
    assert_eq!(first_found(&vec![]), None);
}

#[test]
fn relative_entries_give_warnings() {
    let ctx = BuildContext {
        environ: vec![(s("PATH"), s("/usr/bin:relative/bin::/bin"))],
    };
    assert_eq!(
        path_warnings(&ctx),
        vec![
            s("All items in PATH must be absolute, not relative/bin"),
            s("All items in PATH must be absolute, not "),
        ]
    );
    assert!(path_warnings(&BuildContext { environ: vec![] }).is_empty());
}

#[test]
fn names_are_escaped_in_messages() {
    let ctx = BuildContext { environ: vec![] };
    let name = "a\"b\\c\n";
    let e = run_command(&ctx, &argv(&[name])).unwrap_err();
    assert_eq!(e, format!("Command {:?} not found (no PATH)", name));
}
