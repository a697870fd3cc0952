//! The command dispatcher: one parsed command becomes exactly one
//! decision — an immediate response, or a named piece of outside work
//! whose outcome the response builders here turn into the one response
//! the requesting client gets.

use vstd::prelude::*;
use vstd::string::StrSliceExecFns;
use vstd::string::StringExecFns;
use crate::command::Cli;
use crate::command::Commands;
use crate::command::ConfigCommand;
use crate::command::SessionCommand;
use crate::config::ConfigEntry;
use crate::config::ConfigManager;
use crate::config::entry_like;
use crate::config::find_named;
use crate::config::has_named;
use crate::response::Response;
use crate::supervisor::SerializableSession;
use crate::supervisor::SessionManager;

verus! {

/// Index of the last occurrence of `c` in `s`, or `-1` when absent.
pub open spec fn find_last(s: Seq<char>, c: char) -> int
    decreases s.len(),
{
    if s.len() == 0 {
        -1
    } else if s.last() == c {
        s.len() - 1
    } else {
        find_last(s.drop_last(), c)
    }
}

/// `find_last` returns the greatest index holding `c`, or `-1` when no
/// character of `s` is `c`.
pub proof fn lemma_find_last(s: Seq<char>, c: char)
    ensures
        find_last(s, c) == -1 ==> forall|i: int| 0 <= i < s.len() ==> s[i] != c,
        find_last(s, c) != -1 ==> 0 <= find_last(s, c) < s.len() && s[find_last(s, c)] == c
            && forall|i: int| find_last(s, c) < i < s.len() ==> s[i] != c,
    decreases s.len(),
{
    if s.len() > 0 && s.last() != c {
        let t = s.drop_last();
        lemma_find_last(t, c);
        assert forall|i: int| 0 <= i < t.len() implies t[i] == s[i] by {}
    }
}

/// The profile name derived from a path when none was given: what stands
/// after the last `/`, shorn of the extension after its last `.` unless
/// that dot leads.
pub open spec fn stem_of(path: Seq<char>) -> Seq<char> {
    let base = path.skip(find_last(path, '/') + 1);
    let d = find_last(base, '.');
    if d > 0 {
        base.take(d)
    } else {
        base
    }
}

/// Index of the last occurrence of `c`, when there is one.
fn find_last_char(s: &str, c: char) -> (r: Option<usize>)
    ensures
        match r {
            Some(k) => k < s@.len() && find_last(s@, c) == k as int,
            None => find_last(s@, c) == -1,
        },
{
    let n = s.unicode_len();
    let mut i: usize = 0;
    let mut found: Option<usize> = None;
    while i < n
        invariant
            i <= n,
            n == s@.len(),
            match found {
                Some(k) => k < i && s@[k as int] == c && forall|j: int|
                    k < j < i ==> s@[j] != c,
                None => forall|j: int| 0 <= j < i ==> s@[j] != c,
            },
        decreases n - i,
    {
        if s.get_char(i) == c {
            found = Some(i);
        }
        i = i + 1;
    }
    proof {
        lemma_find_last(s@, c);
        match found {
            Some(k) => {
                if find_last(s@, c) == -1 {
                    assert(false);
                }
                if find_last(s@, c) < k {
                    assert(false);
                }
                if find_last(s@, c) > k {
                    assert(s@[find_last(s@, c)] != c);
                    assert(false);
                }
            },
            None => {
                if find_last(s@, c) != -1 {
                    assert(s@[find_last(s@, c)] == c);
                    assert(false);
                }
            },
        }
    }
    found
}

/// Derives the profile name from the import path when the client gave
/// none.
pub fn derive_profile_name(path: &String) -> (r: String)
    ensures
        r@ == stem_of(path@),
{
    let s = path.as_str();
    let n = s.unicode_len();
    let start = match find_last_char(s, '/') {
        Some(k) => k + 1,
        None => 0,
    };
    let base = s.substring_char(start, n);
    proof {
        assert(base@ =~= path@.skip(find_last(path@, '/') + 1));
    }
    match find_last_char(base, '.') {
        Some(k) => {
            if k > 0 {
                let r = base.substring_char(0, k).to_owned();
                proof {
                    assert(base@.subrange(0, k as int) =~= base@.take(k as int));
                }
                r
            } else {
                base.to_owned()
            }
        },
        None => base.to_owned(),
    }
}

/// What the configuration store is asked to do for a config command.
#[derive(Debug)]
pub enum ConfigAction {
    /// Serialize and return the current index entries.
    List,
    /// Import the file at `path` as the profile `name` — the given name,
    /// or the one derived from the path.
    Import { name: String, path: String },
    /// Return the text of the profile named `name`.
    Export { name: String },
    /// Delete the profile named `name`.
    Delete { name: String },
}

/// The decision for one parsed command: either the response is already
/// settled, or one named piece of outside work remains, whose outcome
/// the response builders below turn into the response.
#[derive(Debug)]
pub enum Dispatch {
    /// Nothing else happens; send this response.
    Reply(Response),
    /// Every check passed: spawn the subprocess for this profile, then
    /// install it (`SessionManager::on_spawned`) or report the failure
    /// (`start_response`).
    StartSession { entry: ConfigEntry },
    /// Every check passed: run the stop protocol, `begin_stop` through
    /// `finish_stop`, and answer with `stop_response`.
    StopSession,
    /// Hand this to the configuration store.
    Config(ConfigAction),
    /// Serialize this snapshot and send it as a success response.
    StatusReport(SerializableSession),
}

/// The dispatcher: a pure mapping from one parsed command, the supervisor
/// state and the store index to one decision. It never transitions state
/// itself — it only reads.
pub struct CommandHandler {}

impl CommandHandler {
    /// Decides one command. A session start against an occupied slot and
    /// a session stop against an empty one are refused here, with the
    /// exact error the client sees and no spawn, signal or transition of
    /// any kind; config work and the checked session work are named for
    /// the surrounding process to perform.
    pub fn handle_command(cli: &Cli, mgr: &SessionManager, cfg: &ConfigManager) -> (r: Dispatch)
        ensures
            cli.commands matches Commands::Config { commands: ConfigCommand::List } ==> (r
                matches Dispatch::Config(ConfigAction::List)),
            cli.commands matches Commands::Config {
                commands: ConfigCommand::Import { name, path },
            } ==> (r matches Dispatch::Config(ConfigAction::Import { name: en, path: ep })
                && ep@ == path@ && en@ == (match name {
                Some(n) => n@,
                None => stem_of(path@),
            })),
            cli.commands matches Commands::Config {
                commands: ConfigCommand::Export { name },
            } ==> (r matches Dispatch::Config(ConfigAction::Export { name: en }) && en@
                == name@),
            cli.commands matches Commands::Config {
                commands: ConfigCommand::Delete { name },
            } ==> (r matches Dispatch::Config(ConfigAction::Delete { name: en }) && en@
                == name@),
            cli.commands matches Commands::Session {
                commands: SessionCommand::Start { name },
            } ==> {
                // An occupied slot always refuses the start, and nothing is
                // spawned for it.
                &&& mgr.active is Some ==> (r matches Dispatch::Reply(resp) && !resp.success
                    && resp.message@
                    == "Cannot start new session because another one is already active"@)
                &&& (mgr.active is None && !has_named(cfg.index.entries@, name@)) ==> (r matches
                    Dispatch::Reply(resp) && !resp.success && resp.message@
                    == "The specified configuration cannot be found"@)
                &&& (mgr.active is None && has_named(cfg.index.entries@, name@)) ==> (r matches
                    Dispatch::StartSession { entry } && find_named(cfg.index.entries@, name@)
                    matches Some(i) && entry_like(entry, cfg.index.entries@[i]))
            },
            cli.commands matches Commands::Session { commands: SessionCommand::Stop } ==> {
                // A stop with no active session is refused outright: no
                // transition and no broadcast can follow from a `Reply`.
                &&& mgr.active is None ==> (r matches Dispatch::Reply(resp) && !resp.success
                    && resp.message@ == "No session is currently active"@)
                &&& mgr.active is Some ==> r matches Dispatch::StopSession
            },
            cli.commands matches Commands::Session { commands: SessionCommand::Status } ==> {
                &&& mgr.active is None ==> (r matches Dispatch::Reply(resp) && resp.success
                    && resp.message@ == "No active sessions"@)
                &&& mgr.active matches Some(a) ==> (r matches Dispatch::StatusReport(s)
                    && s.config.name@ == a.config.name@ && s.config.guid@ == a.config.guid@
                    && s.started == a.started && s.status == a.status)
            },
    {
        match &cli.commands {
            Commands::Config { commands } => match commands {
                ConfigCommand::List => Dispatch::Config(ConfigAction::List),
                ConfigCommand::Import { name, path } => {
                    let effective = match name {
                        Some(n) => n.clone(),
                        None => derive_profile_name(path),
                    };
                    Dispatch::Config(
                        ConfigAction::Import { name: effective, path: path.clone() },
                    )
                },
                ConfigCommand::Export { name } => Dispatch::Config(
                    ConfigAction::Export { name: name.clone() },
                ),
                ConfigCommand::Delete { name } => Dispatch::Config(
                    ConfigAction::Delete { name: name.clone() },
                ),
            },
            Commands::Session { commands } => match commands {
                SessionCommand::Start { name } => {
                    if mgr.has_active_session() {
                        Dispatch::Reply(
                            Response::fail(
                                "Cannot start new session because another one is already active"
                                    .to_owned(),
                            ),
                        )
                    } else {
                        match cfg.get_by_name(name) {
                            Some(entry) => Dispatch::StartSession { entry },
                            None => Dispatch::Reply(
                                Response::fail(
                                    "The specified configuration cannot be found".to_owned(),
                                ),
                            ),
                        }
                    }
                },
                SessionCommand::Stop => {
                    if mgr.has_active_session() {
                        Dispatch::StopSession
                    } else {
                        Dispatch::Reply(
                            Response::fail("No session is currently active".to_owned()),
                        )
                    }
                },
                SessionCommand::Status => {
                    match mgr.snapshot() {
                        Some(s) => Dispatch::StatusReport(s),
                        None => Dispatch::Reply(Response::success("No active sessions".to_owned())),
                    }
                },
            },
        }
    }
}

/// The response to an unparseable command line. The connection stays
/// open; nothing else happens.
pub fn invalid_command_response() -> (r: Response)
    ensures
        !r.success,
        r.message@ == "Invalid command"@,
{
    Response::fail("Invalid command".to_owned())
}

/// The response once a checked session start has been attempted: whether
/// the spawn itself succeeded.
pub fn start_response(spawned: bool) -> (r: Response)
    ensures
        r.success == spawned,
        spawned ==> r.message@ == "Session started successfully"@,
        !spawned ==> r.message@ == "Failed to start the session"@,
{
    if spawned {
        Response::success("Session started successfully".to_owned())
    } else {
        Response::fail("Failed to start the session".to_owned())
    }
}

/// The response once a checked session stop has run: whether the stop
/// protocol went through.
pub fn stop_response(stopped: bool) -> (r: Response)
    ensures
        r.success == stopped,
        stopped ==> r.message@ == "The session was stopped successfully"@,
        !stopped ==> r.message@ == "Failed to stop the session"@,
{
    if stopped {
        Response::success("The session was stopped successfully".to_owned())
    } else {
        Response::fail("Failed to stop the session".to_owned())
    }
}

/// The response to a config import, from the store's outcome: the error
/// text, when it failed, is wrapped into the client-facing message.
pub fn import_response(outcome: &Result<(), String>) -> (r: Response)
    ensures
        r.success == (outcome is Ok),
        outcome is Ok ==> r.message@ == "Configuration imported successfully"@,
        outcome matches Err(e) ==> r.message@ == "Failed to import configuration: "@ + e@,
{
    match outcome {
        Ok(()) => Response::success("Configuration imported successfully".to_owned()),
        Err(e) => {
            let mut m = "Failed to import configuration: ".to_owned();
            m.append(e.as_str());
            Response::fail(m)
        },
    }
}

/// The response to a config delete, from the store's outcome.
pub fn delete_response(outcome: &Result<(), String>) -> (r: Response)
    ensures
        r.success == (outcome is Ok),
        outcome is Ok ==> r.message@ == "Configuration deleted successfully"@,
        outcome matches Err(e) ==> r.message@ == "Failed to delete configuration: "@ + e@,
{
    match outcome {
        Ok(()) => Response::success("Configuration deleted successfully".to_owned()),
        Err(e) => {
            let mut m = "Failed to delete configuration: ".to_owned();
            m.append(e.as_str());
            Response::fail(m)
        },
    }
}

/// The response to a config export: the profile text itself on success,
/// the wrapped error text otherwise.
pub fn export_response(outcome: Result<String, String>) -> (r: Response)
    ensures
        r.success == (outcome is Ok),
        outcome matches Ok(text) ==> r.message@ == text@,
        outcome matches Err(e) ==> r.message@ == "Failed to export configuration: "@ + e@,
{
    match outcome {
        Ok(text) => Response::success(text),
        Err(e) => {
            let mut m = "Failed to export configuration: ".to_owned();
            m.append(e.as_str());
            Response::fail(m)
        },
    }
}

} // verus!
