use scr_launcher::app::{App, Command, Message, MISSING_SETTINGS};
use scr_launcher::child::SCRStruct;
use scr_launcher::registry::{KillReport, Termination};
use scr_launcher::settings::Settings;

fn started() -> App {
    App::new(Some(Settings::new("C:\\32\\StarCraft.exe".to_string(), String::new())))
}

fn flags(app: &App) -> Vec<(u32, bool)> {
    app.childs().iter().map(|c| (c.pid, c.is_processed)).collect()
}

fn child(pid: u32, is_processed: bool) -> SCRStruct {
    SCRStruct { pid, is_processed }
}

#[test]
fn new_app_with_settings_has_an_empty_log() {
    let app = started();
    assert!(app.is_timer_on());
    assert!(!app.show_settings());
    assert!(app.childs().is_empty());
    assert!(app.logs().is_empty());
    assert_eq!(app.settings().path_32, "C:\\32\\StarCraft.exe");
    assert_eq!(app.settings().path_64, "");
    assert_eq!(app.temp_settings().path_32, "C:\\32\\StarCraft.exe");
}

#[test]
fn new_app_without_settings_says_so_in_the_log() {
    let app = App::new(None);
    assert_eq!(app.settings().path_32, "");
    assert_eq!(app.settings().path_64, "");
    let logs = app.logs();
    assert_eq!(logs.len(), 1);
    assert!(logs[0].starts_with('['));
    assert!(logs[0].ends_with(&format!("] {}", MISSING_SETTINGS)));
}

#[test]
fn tick_hands_the_children_to_the_scan() {
    let mut app = started();
    app.update(Message::ProcessCheckResult(vec![child(9, true), child(3, false)], Vec::new()));
    match app.update(Message::Tick) {
        Command::CheckProcesses(list) => {
            let list: Vec<(u32, bool)> = list.iter().map(|c| (c.pid, c.is_processed)).collect();
            assert_eq!(list, vec![(3, false), (9, true)]);
        }
        other => panic!("unexpected command {:?}", other),
    }
    assert!(app.childs().is_empty());
}

#[test]
fn tick_starts_no_scan_while_one_is_under_way() {
    let mut app = started();
    assert!(!app.is_checking());
    assert!(matches!(app.update(Message::Tick), Command::CheckProcesses(_)));
    assert!(app.is_checking());
    assert!(matches!(app.update(Message::Tick), Command::Nothing));
    assert!(matches!(app.update(Message::Tick), Command::Nothing));
    app.update(Message::ProcessCheckResult(vec![child(4, true)], Vec::new()));
    assert!(!app.is_checking());
    match app.update(Message::Tick) {
        Command::CheckProcesses(list) => assert_eq!(list.len(), 1),
        other => panic!("unexpected command {:?}", other),
    }
}

#[test]
fn check_result_merges_children_and_lines() {
    let mut app = started();
    let command = app.update(Message::ProcessCheckResult(
        vec![child(5, true), child(2, false)],
        vec!["[00:00:00.001] one".to_string(), "[00:00:00.002] two".to_string()],
    ));
    assert!(matches!(command, Command::Nothing));
    assert_eq!(flags(&app), vec![(2, false), (5, true)]);
    assert_eq!(app.logs(), vec!["[00:00:00.001] one", "[00:00:00.002] two"]);
    app.update(Message::ProcessCheckResult(
        vec![child(5, false), child(7, false)],
        vec!["[00:00:00.002] two".to_string()],
    ));
    assert_eq!(flags(&app), vec![(2, false), (5, true), (7, false)]);
    assert_eq!(app.logs().len(), 2);
    assert!(app.is_timer_on());
}

#[test]
fn kill_all_asks_for_every_child_to_be_ended() {
    let mut app = started();
    app.update(Message::ProcessCheckResult(vec![child(5, true), child(2, false)], Vec::new()));
    match app.update(Message::KillAll) {
        Command::KillChilds(pids) => assert_eq!(pids, vec![2, 5]),
        other => panic!("unexpected command {:?}", other),
    }
    assert!(!app.is_timer_on());
    assert_eq!(flags(&app), vec![(2, false), (5, true)]);
}

#[test]
fn check_result_after_kill_all_ends_the_children_it_brings() {
    let mut app = started();
    app.update(Message::Tick);
    match app.update(Message::KillAll) {
        Command::KillChilds(pids) => assert!(pids.is_empty()),
        other => panic!("unexpected command {:?}", other),
    }
    match app.update(Message::ProcessCheckResult(vec![child(8, true)], Vec::new())) {
        Command::KillChilds(pids) => assert_eq!(pids, vec![8]),
        other => panic!("unexpected command {:?}", other),
    }
    assert!(app.is_timer_on());
    let next = app.update(Message::ProcessCheckResult(vec![child(9, true)], Vec::new()));
    assert!(matches!(next, Command::Nothing));
}

#[test]
fn kill_result_drops_ended_children_and_logs_them() {
    let mut app = started();
    app.update(Message::ProcessCheckResult(
        vec![child(1, true), child(2, true), child(3, true)],
        Vec::new(),
    ));
    let command = app.update(Message::KillResult(vec![
        KillReport { pid: 1, outcome: Termination::Terminated },
        KillReport { pid: 2, outcome: Termination::Refused },
        KillReport { pid: 3, outcome: Termination::Gone },
    ]));
    assert!(matches!(command, Command::Nothing));
    assert_eq!(flags(&app), vec![(2, true)]);
    let logs = app.logs();
    assert_eq!(logs.len(), 1);
    assert!(logs[0].ends_with("] Successfully terminated process wid PID 1"));
}

#[test]
fn run_scr_asks_for_a_launch() {
    let mut app = started();
    match app.update(Message::RunSCR("C:\\32\\StarCraft.exe".to_string())) {
        Command::Launch(path) => assert_eq!(path, "C:\\32\\StarCraft.exe"),
        other => panic!("unexpected command {:?}", other),
    }
}

#[test]
fn process_log_is_written_as_it_came() {
    let mut app = started();
    assert!(matches!(app.update(Message::ProcessLog(None)), Command::Nothing));
    assert!(app.logs().is_empty());
    let line = "[11:22:33.444] Closed HANDLE(0x4) for StarCraft.exe (PID: 9)";
    let command = app.update(Message::ProcessLog(Some(line.to_string())));
    assert!(matches!(command, Command::Nothing));
    assert_eq!(app.logs(), vec![line]);
    app.update(Message::ProcessLog(Some(line.to_string())));
    assert_eq!(app.logs(), vec![line]);
}

#[test]
fn log_lines_are_kept_in_ascending_order() {
    let mut app = started();
    app.update(Message::ProcessCheckResult(
        Vec::new(),
        vec!["[10:00:02.000] c".to_string(), "[10:00:00.000] a".to_string()],
    ));
    app.update(Message::ProcessLog(Some("[10:00:01.000] b".to_string())));
    assert_eq!(app.logs(), vec!["[10:00:00.000] a", "[10:00:01.000] b", "[10:00:02.000] c"]);
}

#[test]
fn save_logs_takes_the_lines_out() {
    let mut app = started();
    app.update(Message::ProcessCheckResult(Vec::new(), vec!["a".to_string(), "b".to_string()]));
    match app.update(Message::SaveLogs) {
        Command::SaveLogs(lines) => assert_eq!(lines, vec!["a", "b"]),
        other => panic!("unexpected command {:?}", other),
    }
    assert!(app.logs().is_empty());
}

#[test]
fn clear_logs_empties_the_log() {
    let mut app = started();
    app.update(Message::ProcessCheckResult(Vec::new(), vec!["a".to_string()]));
    assert!(matches!(app.update(Message::ClearLogs), Command::Nothing));
    assert!(app.logs().is_empty());
}

#[test]
fn failed_command_is_logged() {
    let mut app = started();
    assert!(matches!(app.update(Message::CmdResult(Ok(()))), Command::Nothing));
    assert!(app.logs().is_empty());
    app.update(Message::CmdResult(Err("disk full".to_string())));
    let logs = app.logs();
    assert_eq!(logs.len(), 1);
    assert!(logs[0].ends_with("] disk full"));
}

#[test]
fn settings_dialog_edits_a_copy() {
    let mut app = started();
    assert!(matches!(app.update(Message::OpenSettings), Command::FocusNext));
    assert!(app.show_settings());
    assert!(matches!(app.update(Message::OpenFolderDialog64), Command::ChoosePath64));
    assert!(matches!(app.update(Message::OpenFolderDialog32), Command::ChoosePath32));
    app.update(Message::PathChosen64(Some("D:\\64\\StarCraft.exe".to_string())));
    assert_eq!(app.temp_settings().path_64, "D:\\64\\StarCraft.exe");
    assert_eq!(app.temp_settings().path_32, "C:\\32\\StarCraft.exe");
    assert_eq!(app.settings().path_64, "");
    app.update(Message::PathChosen32(None));
    app.update(Message::PathChosen32(Some(String::new())));
    assert_eq!(app.temp_settings().path_32, "C:\\32\\StarCraft.exe");
    app.update(Message::PathChosen32(Some("E:\\x.exe".to_string())));
    assert_eq!(app.temp_settings().path_32, "E:\\x.exe");
    assert!(matches!(app.update(Message::CloseSettings), Command::Nothing));
    assert!(!app.show_settings());
    assert_eq!(app.settings().path_32, "C:\\32\\StarCraft.exe");
    app.update(Message::OpenSettings);
    assert_eq!(app.temp_settings().path_32, "C:\\32\\StarCraft.exe");
    assert_eq!(app.temp_settings().path_64, "");
}

#[test]
fn save_settings_hands_the_copy_out() {
    let mut app = started();
    app.update(Message::OpenSettings);
    app.update(Message::PathChosen64(Some("D:\\64\\StarCraft.exe".to_string())));
    let saved = match app.update(Message::SaveSettings) {
        Command::SaveSettings(saved) => saved,
        other => panic!("unexpected command {:?}", other),
    };
    assert_eq!(saved.path_32, "C:\\32\\StarCraft.exe");
    assert_eq!(saved.path_64, "D:\\64\\StarCraft.exe");
    assert!(!app.show_settings());
    assert_eq!(app.temp_settings().path_32, "");
    assert_eq!(app.settings().path_64, "");
    app.update(Message::SaveSettingsResult(Ok(saved)));
    assert_eq!(app.settings().path_64, "D:\\64\\StarCraft.exe");
    assert!(app.logs().is_empty());
}

#[test]
fn failed_save_of_settings_is_logged() {
    let mut app = started();
    app.update(Message::SaveSettingsResult(Err("denied".to_string())));
    assert_eq!(app.settings().path_32, "C:\\32\\StarCraft.exe");
    let logs = app.logs();
    assert_eq!(logs.len(), 1);
    assert!(logs[0].ends_with("] denied"));
}

#[test]
fn message_can_be_copied() {
    let message = Message::SaveSettingsResult(Err("x".to_string()));
    let copy = message.clone();
    assert!(matches!(copy, Message::SaveSettingsResult(Err(text)) if text == "x"));
}
