//! The state of the launcher and what each message does to it.
//!
//! `update` takes in one message and answers with a [`Command`]: the work
//! that is to be done outside, whose result comes back as another message.

use vstd::prelude::*;
use crate::child::SCRStruct;
use crate::logbook::{texts, with_line, with_lines, LogBook};
use crate::registry::{
    ended_set, increasing, lists, merged, reported_terminated, terminated_lines, KillReport,
    ProcessRegistry,
};
use crate::report::{is_line_of, StringExt};
use crate::settings::{unset, Settings, SettingsView};

verus! {

/// What the log says where no settings could be loaded.
pub const MISSING_SETTINGS: &'static str = "conf.toml 파일이 없거나 손상되었습니다.";

/// The `clone` of std's `Result`, which the copy of a message goes through.
/// Nothing is claimed of what it returns.
pub assume_specification<T, E>[ <Result<T, E> as Clone>::clone ](result: &Result<T, E>) -> Result<
    T,
    E,
> where E: Clone, T: Clone
;

/// What happened.
#[derive(Debug, Clone)]
pub enum Message {
    /// The timer fired: time for a scan.
    Tick,
    /// A scan is over: the children it ends with, and its log lines.
    ProcessCheckResult(Vec<SCRStruct>, Vec<String>),
    /// An instance was launched and inspected: the log line of what the
    /// inspection came to, stamped already, if it came to one.
    ProcessLog(Option<String>),
    /// All tracked processes are to be ended.
    KillAll,
    /// The executable at this path is to be launched.
    RunSCR(String),
    /// The log is to be written to its file.
    SaveLogs,
    /// The log is to be emptied.
    ClearLogs,
    /// The settings dialog is to be shown.
    OpenSettings,
    /// Writing the log to its file is over.
    CmdResult(Result<(), String>),
    /// A path for the 32-bit executable is to be chosen.
    OpenFolderDialog32,
    /// A path for the 64-bit executable is to be chosen.
    OpenFolderDialog64,
    /// The settings of the dialog are to be saved.
    SaveSettings,
    /// Saving the settings is over.
    SaveSettingsResult(Result<Settings, String>),
    /// The settings dialog is to be closed.
    CloseSettings,
    /// The path that was chosen for the 32-bit executable, if one was.
    PathChosen32(Option<String>),
    /// The path that was chosen for the 64-bit executable, if one was.
    PathChosen64(Option<String>),
    /// What came of ending the tracked processes.
    KillResult(Vec<KillReport>),
}

/// The work that a message leaves to be done outside.
#[derive(Debug)]
pub enum Command {
    /// Nothing.
    Nothing,
    /// Run a scan that starts from these tracked children, and send
    /// `ProcessCheckResult`.
    CheckProcesses(Vec<SCRStruct>),
    /// Launch the executable at this path, inspect the new process, and send
    /// `ProcessLog`.
    Launch(String),
    /// Try to end each of these processes, and send `KillResult`.
    KillChilds(Vec<u32>),
    /// Write these lines to the log file, and send `CmdResult`.
    SaveLogs(Vec<String>),
    /// Save these settings, and send `SaveSettingsResult`.
    SaveSettings(Settings),
    /// Let the user choose the 32-bit executable, and send `PathChosen32`.
    ChoosePath32,
    /// Let the user choose the 64-bit executable, and send `PathChosen64`.
    ChoosePath64,
    /// Move the keyboard focus to the next widget.
    FocusNext,
}

/// The state of the launcher.
#[verifier::ext_equal]
pub struct AppView {
    /// False from a request to end all processes until the scan that is
    /// under way has come back.
    pub is_timer_on: bool,
    /// Whether the settings dialog is shown.
    pub show_settings: bool,
    /// Whether a scan is under way: from the tick that starts it until its
    /// result is in.
    pub is_checking: bool,
    /// The tracked processes, each with its flag.
    pub childs: Map<u32, bool>,
    /// The log lines, each once, in ascending order.
    pub logs: Seq<Seq<char>>,
    /// The settings in force.
    pub settings: SettingsView,
    /// The settings as the dialog shows them.
    pub temp_settings: SettingsView,
}

/// The state `after` is the state `before` with one more log line, which
/// carries `message`.
pub open spec fn logged(before: AppView, after: AppView, message: Seq<char>) -> bool {
    exists|line: Seq<char>|
        is_line_of(line, message) && after == (AppView {
            logs: with_line(before.logs, line),
            ..before
        })
}

/// `pids` are the tracked processes of `childs`, in ascending order.
pub open spec fn all_of(pids: Seq<u32>, childs: Map<u32, bool>) -> bool {
    increasing(pids) && forall|pid: u32| pids.contains(pid) <==> childs.contains_key(pid)
}

/// The state `after` is the state `before` once the reports of ending the
/// tracked processes are in: the processes that were ended or could not be
/// opened are no longer tracked, and the log has one more line for each
/// tracked process that was ended.
pub open spec fn ended(before: AppView, after: AppView, reports: Seq<KillReport>) -> bool {
    exists|lines: Seq<String>, gone: Seq<u32>|
        {
            &&& increasing(gone)
            &&& forall|pid: u32|
                gone.contains(pid) <==> (before.childs.contains_key(pid) && reported_terminated(
                    reports,
                    pid,
                ))
            &&& terminated_lines(lines, gone)
            &&& after == (AppView {
                childs: before.childs.remove_keys(ended_set(reports)),
                logs: with_lines(before.logs, texts(lines)),
                ..before
            })
        }
}

/// What a message does: the state after it, and the command it leaves.
///
/// A tick starts a scan unless one is under way: the tracked children go
/// out with the scan and come back, merged, with its result. A request to
/// end all processes is carried out on the children at hand and, since a
/// scan under way holds the others, once more when the next result is in.
pub open spec fn follows(
    before: AppView,
    message: Message,
    after: AppView,
    command: Command,
) -> bool {
    match message {
        Message::Tick => if before.is_checking {
            after == before && command is Nothing
        } else {
            &&& after == (AppView { childs: Map::empty(), is_checking: true, ..before })
            &&& command matches Command::CheckProcesses(list) && lists(list@, before.childs)
        },
        Message::ProcessCheckResult(new_childs, lines) => {
            &&& after == (AppView {
                childs: merged(before.childs, new_childs@),
                logs: with_lines(before.logs, texts(lines@)),
                is_timer_on: true,
                is_checking: false,
                ..before
            })
            &&& if before.is_timer_on {
                command is Nothing
            } else {
                command matches Command::KillChilds(pids) && all_of(pids@, after.childs)
            }
        },
        Message::ProcessLog(Some(line)) => {
            &&& after == (AppView { logs: with_line(before.logs, line@), ..before })
            &&& command is Nothing
        },
        Message::ProcessLog(None) => after == before && command is Nothing,
        Message::KillAll => {
            &&& after == (AppView { is_timer_on: false, ..before })
            &&& command matches Command::KillChilds(pids) && all_of(pids@, before.childs)
        },
        Message::KillResult(reports) => ended(before, after, reports@) && command is Nothing,
        Message::RunSCR(path) => {
            &&& after == before
            &&& command matches Command::Launch(launched) && launched@ == path@
        },
        Message::SaveLogs => {
            &&& after == (AppView { logs: Seq::empty(), ..before })
            &&& command matches Command::SaveLogs(lines) && texts(lines@) == before.logs
        },
        Message::ClearLogs => {
            &&& after == (AppView { logs: Seq::empty(), ..before })
            &&& command is Nothing
        },
        Message::OpenSettings => {
            &&& after == (AppView {
                show_settings: true,
                temp_settings: before.settings,
                ..before
            })
            &&& command is FocusNext
        },
        Message::CmdResult(Ok(_)) => after == before && command is Nothing,
        Message::CmdResult(Err(error)) => logged(before, after, error@) && command is Nothing,
        Message::OpenFolderDialog32 => after == before && command is ChoosePath32,
        Message::OpenFolderDialog64 => after == before && command is ChoosePath64,
        Message::PathChosen32(chosen) => {
            &&& command is Nothing
            &&& after == (match chosen {
                Some(path) if path@.len() > 0 => AppView {
                    temp_settings: SettingsView { path_32: path@, ..before.temp_settings },
                    ..before
                },
                _ => before,
            })
        },
        Message::PathChosen64(chosen) => {
            &&& command is Nothing
            &&& after == (match chosen {
                Some(path) if path@.len() > 0 => AppView {
                    temp_settings: SettingsView { path_64: path@, ..before.temp_settings },
                    ..before
                },
                _ => before,
            })
        },
        Message::SaveSettings => {
            &&& after == (AppView { show_settings: false, temp_settings: unset(), ..before })
            &&& command matches Command::SaveSettings(saved) && saved@ == before.temp_settings
        },
        Message::SaveSettingsResult(Ok(saved)) => after == (AppView { settings: saved@, ..before })
            && command is Nothing,
        Message::SaveSettingsResult(Err(error)) => {
            &&& logged(before, after, error@)
            &&& command is Nothing
        },
        Message::CloseSettings => after == (AppView { show_settings: false, ..before }) && command
            is Nothing,
    }
}

/// The launcher.
#[derive(Debug)]
pub struct App {
    is_timer_on: bool,
    show_settings: bool,
    is_checking: bool,
    childs: ProcessRegistry,
    logs: LogBook,
    settings: Settings,
    temp_settings: Settings,
}

impl View for App {
    type V = AppView;

    closed spec fn view(&self) -> AppView {
        AppView {
            is_timer_on: self.is_timer_on,
            show_settings: self.show_settings,
            is_checking: self.is_checking,
            childs: self.childs@,
            logs: self.logs@,
            settings: self.settings@,
            temp_settings: self.temp_settings@,
        }
    }
}

impl App {
    /// The launcher's invariant: that of its registry and of its log.
    pub closed spec fn wf(&self) -> bool {
        self.childs.wf() && self.logs.wf()
    }

    /// The launcher as it starts: with the settings that were loaded, or,
    /// where none could be loaded, with no path set and a log line that
    /// says so. It tracks nothing, and its dialog is closed.
    pub fn new(maybe_settings: Option<Settings>) -> (app: Self)
        ensures
            app.wf(),
            app@.is_timer_on,
            !app@.show_settings,
            !app@.is_checking,
            app@.childs == Map::<u32, bool>::empty(),
            app@.temp_settings == app@.settings,
            match maybe_settings {
                Some(settings) => app@.settings == settings@ && app@.logs == Seq::<
                    Seq<char>,
                >::empty(),
                None => app@.settings == unset() && exists|line: Seq<char>|
                    is_line_of(line, MISSING_SETTINGS@) && app@.logs == seq![line],
            },
    {
        let childs = ProcessRegistry::new();
        let mut logs = LogBook::new();
        let settings = match maybe_settings {
            Some(settings) => settings,
            None => {
                let line = MISSING_SETTINGS.as_log();
                let ghost text = line@;
                logs.insert(line);
                assert(logs@ =~= seq![text]);
                Settings::default()
            },
        };
        let temp_settings = settings.clone();
        App {
            is_timer_on: true,
            show_settings: false,
            is_checking: false,
            childs,
            settings,
            temp_settings,
            logs,
        }
    }

    /// Whether no request to end all processes is waiting for a scan.
    pub fn is_timer_on(&self) -> (on: bool)
        ensures
            on == self@.is_timer_on,
    {
        self.is_timer_on
    }

    /// Whether a scan is under way.
    pub fn is_checking(&self) -> (under_way: bool)
        ensures
            under_way == self@.is_checking,
    {
        self.is_checking
    }

    /// Whether the settings dialog is shown.
    pub fn show_settings(&self) -> (shown: bool)
        ensures
            shown == self@.show_settings,
    {
        self.show_settings
    }

    /// The tracked children, in ascending order of `pid`.
    pub fn childs(&self) -> (list: Vec<SCRStruct>)
        requires
            self.wf(),
        ensures
            lists(list@, self@.childs),
    {
        self.childs.entries()
    }

    /// The log lines, in ascending order.
    pub fn logs(&self) -> (lines: Vec<String>)
        ensures
            texts(lines@) == self@.logs,
    {
        self.logs.lines()
    }

    /// The settings in force.
    pub fn settings(&self) -> (settings: &Settings)
        ensures
            settings@ == self@.settings,
    {
        &self.settings
    }

    /// The settings as the dialog shows them.
    pub fn temp_settings(&self) -> (settings: &Settings)
        ensures
            settings@ == self@.temp_settings,
    {
        &self.temp_settings
    }

    /// Writes a line that carries `message` to the log.
    fn log(&mut self, message: &str)
        requires
            old(self).wf(),
        ensures
            final(self).wf(),
            logged(old(self)@, final(self)@, message@),
    {
        let line = message.as_log();
        let ghost text = line@;
        self.logs.insert(line);
        assert(self@ =~= (AppView { logs: with_line(old(self)@.logs, text), ..old(self)@ }));
    }

    /// The command to end every tracked process.
    fn kill_childs(&self) -> (command: Command)
        requires
            self.wf(),
        ensures
            command matches Command::KillChilds(pids) && all_of(pids@, self@.childs),
    {
        Command::KillChilds(self.childs.pids())
    }

    /// Takes in one message.
    pub fn update(&mut self, message: Message) -> (command: Command)
        requires
            old(self).wf(),
        ensures
            final(self).wf(),
            follows(old(self)@, message, final(self)@, command),
    {
        let ghost before = self@;
        match message {
            Message::Tick => {
                if self.is_checking {
                    return Command::Nothing;
                }
                let list = self.childs.entries();
                self.childs = ProcessRegistry::new();
                self.is_checking = true;
                assert(self@ =~= (AppView { childs: Map::empty(), is_checking: true, ..before }));
                Command::CheckProcesses(list)
            },
            Message::ProcessCheckResult(new_childs, lines) => {
                self.childs.merge(&new_childs);
                self.logs.extend(lines);
                let command = if !self.is_timer_on {
                    self.kill_childs()
                } else {
                    Command::Nothing
                };
                self.is_timer_on = true;
                self.is_checking = false;
                assert(self@ =~= (AppView {
                    childs: merged(before.childs, new_childs@),
                    logs: with_lines(before.logs, texts(lines@)),
                    is_timer_on: true,
                    is_checking: false,
                    ..before
                }));
                command
            },
            Message::ProcessLog(Some(line)) => {
                self.logs.insert(line);
                assert(self@ =~= (AppView { logs: with_line(before.logs, line@), ..before }));
                Command::Nothing
            },
            Message::ProcessLog(None) => Command::Nothing,
            Message::KillAll => {
                self.is_timer_on = false;
                assert(self@ =~= (AppView { is_timer_on: false, ..before }));
                self.kill_childs()
            },
            Message::KillResult(reports) => {
                let lines = self.childs.terminate_all(&reports);
                self.logs.extend(lines);
                proof {
                    let gone = choose|gone: Seq<u32>|
                        {
                            &&& increasing(gone)
                            &&& forall|pid: u32|
                                gone.contains(pid) <==> (before.childs.contains_key(pid)
                                    && reported_terminated(reports@, pid))
                            &&& terminated_lines(lines@, gone)
                        };
                    assert(self@ =~= (AppView {
                        childs: before.childs.remove_keys(ended_set(reports@)),
                        logs: with_lines(before.logs, texts(lines@)),
                        ..before
                    }));
                    assert(ended(before, self@, reports@));
                }
                Command::Nothing
            },
            Message::RunSCR(path) => Command::Launch(path),
            Message::SaveLogs => {
                let lines = self.logs.take();
                assert(self@ =~= (AppView { logs: Seq::empty(), ..before }));
                Command::SaveLogs(lines)
            },
            Message::ClearLogs => {
                self.logs.clear();
                assert(self@ =~= (AppView { logs: Seq::empty(), ..before }));
                Command::Nothing
            },
            Message::OpenSettings => {
                self.show_settings = true;
                self.temp_settings = self.settings.clone();
                assert(self@ =~= (AppView {
                    show_settings: true,
                    temp_settings: before.settings,
                    ..before
                }));
                Command::FocusNext
            },
            Message::CmdResult(Ok(_)) => Command::Nothing,
            Message::CmdResult(Err(error)) => {
                self.log(error.as_str());
                Command::Nothing
            },
            Message::OpenFolderDialog32 => Command::ChoosePath32,
            Message::OpenFolderDialog64 => Command::ChoosePath64,
            Message::PathChosen32(chosen) => {
                match chosen {
                    Some(path) => {
                        if path.as_str().unicode_len() > 0 {
                            self.temp_settings.path_32 = path;
                            assert(self@ =~= (AppView {
                                temp_settings: SettingsView {
                                    path_32: path@,
                                    ..before.temp_settings
                                },
                                ..before
                            }));
                        }
                    },
                    None => {},
                }
                Command::Nothing
            },
            Message::PathChosen64(chosen) => {
                match chosen {
                    Some(path) => {
                        if path.as_str().unicode_len() > 0 {
                            self.temp_settings.path_64 = path;
                            assert(self@ =~= (AppView {
                                temp_settings: SettingsView {
                                    path_64: path@,
                                    ..before.temp_settings
                                },
                                ..before
                            }));
                        }
                    },
                    None => {},
                }
                Command::Nothing
            },
            Message::SaveSettings => {
                self.show_settings = false;
                let mut saved = Settings::default();
                core::mem::swap(&mut saved, &mut self.temp_settings);
                assert(self@ =~= (AppView {
                    show_settings: false,
                    temp_settings: unset(),
                    ..before
                }));
                Command::SaveSettings(saved)
            },
            Message::SaveSettingsResult(Ok(saved)) => {
                self.settings = saved;
                assert(self@ =~= (AppView { settings: saved@, ..before }));
                Command::Nothing
            },
            Message::SaveSettingsResult(Err(error)) => {
                self.log(error.as_str());
                Command::Nothing
            },
            Message::CloseSettings => {
                self.show_settings = false;
                assert(self@ =~= (AppView { show_settings: false, ..before }));
                Command::Nothing
            },
        }
    }
}

} // verus!
