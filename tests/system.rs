use nexus_launcher::context::{get_clipboard_text, meeting_status, recent_files};
use nexus_launcher::greet;
use nexus_launcher::launch::{
    _get_start_apps, launch_plan, launch_step, protocol_command_args, shell_target_of, start_verb_args,
    LaunchNext, Strategy,
};
use nexus_launcher::media::{parse_media_command, MediaAction};
use nexus_launcher::process::{
    kill_order, pid_not_found_message, process_index, select_by_name, stale_instances, ProcNode,
};
use nexus_launcher::registry::{app_path_entry, icon_candidate, named_exe_file, uninstall_entry, UninstallProbe};
use nexus_launcher::catalog::WalkedFile;

fn node(pid: u32, parent: Option<u32>, name: &str) -> ProcNode {
    ProcNode { pid, parent, name: name.to_string() }
}

#[test]
fn process_tree_order_and_count() {
    // root 1 -> {2 (A), 3 (B)}, 2 -> {4 (C)}
    let table = vec![
        node(4, Some(2), "c"),
        node(3, Some(1), "b"),
        node(1, None, "root"),
        node(2, Some(1), "a"),
        node(9, Some(7), "other"),
    ];
    let order = kill_order(&table, 1);
    assert_eq!(order.len(), 4);
    let mut sorted = order.clone();
    sorted.sort();
    assert_eq!(sorted, vec![1, 2, 3, 4]);
    let pos = |p: u32| order.iter().position(|&x| x == p).unwrap();
    assert!(pos(4) < pos(2));
    assert_eq!(*order.last().unwrap(), 1);
    assert_eq!(order, vec![4, 2, 3, 1]);
}

#[test]
fn process_tree_of_missing_root_and_cycle() {
    let table = vec![node(5, Some(6), "x"), node(6, Some(5), "y")];
    assert_eq!(kill_order(&table, 5), vec![6, 5]);
    assert_eq!(kill_order(&Vec::new(), 42), vec![42]);
}

#[test]
fn select_processes_by_name() {
    let table = vec![node(1, None, "Discord.exe"), node(2, None, "notepad.exe"), node(3, None, "discord")];
    assert_eq!(select_by_name(&table, "DISCORD"), Ok(vec![1, 3]));
    assert_eq!(select_by_name(&table, "notepad.exe --x"), Ok(vec![2]));
    assert_eq!(select_by_name(&table, "zoom"), Err("No process found matching 'zoom'".to_string()));
    assert_eq!(process_index(&table, 2), Some(1));
    assert_eq!(process_index(&table, 7), None);
    assert_eq!(pid_not_found_message(7), "Process with PID 7 not found");
    assert_eq!(pid_not_found_message(0), "Process with PID 0 not found");
    assert_eq!(pid_not_found_message(4294967295), "Process with PID 4294967295 not found");
}

#[test]
fn other_instances_are_found() {
    let table = vec![node(10, None, "Nexus-Bar.exe"), node(11, None, "nexus-bar.exe"), node(12, None, "code")];
    assert_eq!(stale_instances(&table, 11), vec![10]);
}

#[test]
fn plan_for_paths_and_identifiers() {
    assert_eq!(launch_plan("C:\\Apps\\a.exe"), vec![Strategy::Protocol, Strategy::OpenDefault, Strategy::StartVerb]);
    assert_eq!(launch_plan("apps\\a.exe"), vec![Strategy::OpenDefault, Strategy::StartVerb]);
    assert_eq!(launch_plan("Microsoft.WindowsCalculator_8wekyb3d8bbwe!App"), vec![Strategy::Protocol, Strategy::OpenDefault, Strategy::StartVerb]);
}

#[test]
fn protocol_commands() {
    assert_eq!(shell_target_of("Microsoft.Calc!App"), "shell:appsFolder\\Microsoft.Calc!App");
    assert_eq!(shell_target_of("ms-settings:display"), "ms-settings:display");
    assert_eq!(shell_target_of("devmgmt.msc"), "devmgmt.msc");
    assert_eq!(protocol_command_args("notepad readme.txt"), vec!["/C", "start", "", "notepad readme.txt"]);
    assert_eq!(protocol_command_args("steam://run/1"), vec!["/C", "start", "", "steam://run/1"]);
    assert_eq!(protocol_command_args("App!Id"), vec!["/C", "start", "", "shell:appsFolder\\App!Id"]);
    assert_eq!(start_verb_args("C:\\a b\\x.exe"), vec!["/C", "start", "", "C:\\a b\\x.exe"]);
}

fn drive(target: &str, outcomes: &[Result<(), String>]) -> (Result<(), String>, Vec<Strategy>) {
    let plan = launch_plan(target);
    let mut attempted = Vec::new();
    let mut idx = 0usize;
    loop {
        attempted.push(plan[idx]);
        let outcome = outcomes[idx].clone();
        match launch_step(plan.len(), idx, outcome) {
            LaunchNext::Attempt(next) => idx = next,
            LaunchNext::Finished(r) => return (r, attempted),
        }
    }
}

#[test]
fn fallback_reaches_the_last_strategy_once() {
    let outcomes = [Err("no handler".to_string()), Err("opener failed".to_string()), Ok(())];
    let (r, attempted) = drive("Some.App!Id", &outcomes);
    assert_eq!(r, Ok(()));
    assert_eq!(attempted, vec![Strategy::Protocol, Strategy::OpenDefault, Strategy::StartVerb]);
    assert_eq!(attempted.iter().filter(|s| **s == Strategy::StartVerb).count(), 1);
}

#[test]
fn fallback_stops_at_first_success_and_reports_last_failure() {
    let (r, attempted) = drive("Some.App!Id", &[Ok(())]);
    assert_eq!(r, Ok(()));
    assert_eq!(attempted, vec![Strategy::Protocol]);
    let outcomes = [Err("a".to_string()), Err("spawn denied".to_string())];
    let (r, attempted) = drive("dir\\x.exe", &outcomes);
    assert_eq!(r, Err("All launch methods failed: spawn denied".to_string()));
    assert_eq!(attempted, vec![Strategy::OpenDefault, Strategy::StartVerb]);
}

#[test]
fn app_paths_entries() {
    let e = app_path_entry("chrome.exe", "C:\\chrome\\chrome.exe").unwrap();
    assert_eq!(e.name, "chrome");
    assert_eq!(e.path, "C:\\chrome\\chrome.exe");
    assert!(app_path_entry("empty.exe", "").is_none());
}

#[test]
fn display_icon_candidates() {
    assert_eq!(icon_candidate("\"C:\\P\\App.EXE\",0"), Some("C:\\P\\App.EXE".to_string()));
    assert_eq!(icon_candidate("C:\\P\\app.ico"), None);
    assert_eq!(icon_candidate(""), None);
    assert_eq!(named_exe_file("Foo"), "Foo.exe");
}

#[test]
fn uninstall_resolution_order() {
    let none = UninstallProbe { icon_exists: false, location_is_dir: false, named_exe: None, dir_files: Vec::new() };
    let with_icon = UninstallProbe { icon_exists: true, ..none.clone() };
    let e = uninstall_entry("Foo", "D:\\Foo", "D:\\Foo\\foo.exe,0", &with_icon).unwrap();
    assert_eq!(e.path, "D:\\Foo\\foo.exe");
    let dir = UninstallProbe {
        location_is_dir: true,
        dir_files: vec![
            WalkedFile { path: "D:\\Foo\\readme.txt".to_string(), stem: "readme".to_string(), ext: "txt".to_string(), size: 0 },
            WalkedFile { path: "D:\\Foo\\run.exe".to_string(), stem: "run".to_string(), ext: "exe".to_string(), size: 0 },
        ],
        ..none.clone()
    };
    assert_eq!(uninstall_entry("Foo", "D:\\Foo", "", &dir).unwrap().path, "D:\\Foo\\run.exe");
    let named = UninstallProbe { named_exe: Some("D:\\Foo\\Foo.exe".to_string()), ..dir.clone() };
    assert_eq!(uninstall_entry("Foo", "D:\\Foo", "", &named).unwrap().path, "D:\\Foo\\Foo.exe");
    assert_eq!(uninstall_entry("Foo", "D:\\Foo\\foo.exe", "", &none).unwrap().path, "D:\\Foo\\foo.exe");
    assert!(uninstall_entry("Foo", "D:\\Foo", "", &none).is_none());
    assert!(uninstall_entry("", "D:\\Foo\\foo.exe", "", &none).is_none());
}

#[test]
fn media_commands() {
    assert_eq!(parse_media_command("volume_up", None), Ok((MediaAction::VolumeUp, 1)));
    assert_eq!(parse_media_command("next", Some(3)), Ok((MediaAction::Next, 3)));
    assert_eq!(parse_media_command("rewind", None), Err("Unknown media action: rewind".to_string()));
}

#[test]
fn context_helpers() {
    let names = vec!["explorer.exe".to_string(), "Zoom.exe".to_string(), "slack".to_string()];
    assert_eq!(meeting_status(&names), "Active (zoom.exe)");
    assert_eq!(meeting_status(&vec!["code".to_string()]), "Idle");
    let mut entries: Vec<Option<String>> = vec![Some("a.lnk".to_string()), None, Some("b.txt".to_string())];
    for i in 0..10 {
        entries.push(Some(format!("late{}.lnk", i)));
    }
    assert_eq!(recent_files(&entries), vec!["a", "late0", "late1", "late2", "late3", "late4", "late5", "late6"]);
    assert_eq!(get_clipboard_text(), None);
    assert!(_get_start_apps().is_empty());
    assert_eq!(greet("Ada"), "Hello, Ada! You've been greeted from Rust!");
}
