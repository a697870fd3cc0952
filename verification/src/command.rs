//! The command surface of the control socket.
//!
//! Clients send newline-delimited lines of space-separated tokens, verb
//! namespace first: `config list`, `config import --path P [--name N]`,
//! `config export --name N`, `config delete --name N`,
//! `session start --name N`, `session stop`, `session status`. Anything
//! else is rejected as an invalid command.

use vstd::prelude::*;

verus! {

/// A configuration-store command.
#[derive(Debug, Clone)]
pub enum ConfigCommand {
    List,
    Import { name: Option<String>, path: String },
    Export { name: String },
    Delete { name: String },
}

/// A session-supervision command.
#[derive(Debug, Clone)]
pub enum SessionCommand {
    Start { name: String },
    Stop,
    Status,
}

/// A parsed command of either namespace.
#[derive(Debug, Clone)]
pub enum Commands {
    Config { commands: ConfigCommand },
    Session { commands: SessionCommand },
}

/// A whole parsed command line.
#[derive(Debug, Clone)]
pub struct Cli {
    pub commands: Commands,
}

/// Mathematical image of a `ConfigCommand`: its fields as char sequences.
pub enum SpecConfigCommand {
    List,
    Import { name: Option<Seq<char>>, path: Seq<char> },
    Export { name: Seq<char> },
    Delete { name: Seq<char> },
}

/// Mathematical image of a `SessionCommand`.
pub enum SpecSessionCommand {
    Start { name: Seq<char> },
    Stop,
    Status,
}

/// Mathematical image of a `Commands`.
pub enum SpecCommands {
    Config(SpecConfigCommand),
    Session(SpecSessionCommand),
}

pub open spec fn abs_config(c: ConfigCommand) -> SpecConfigCommand {
    match c {
        ConfigCommand::List => SpecConfigCommand::List,
        ConfigCommand::Import { name, path } => SpecConfigCommand::Import {
            name: match name {
                Some(n) => Some(n@),
                None => None,
            },
            path: path@,
        },
        ConfigCommand::Export { name } => SpecConfigCommand::Export { name: name@ },
        ConfigCommand::Delete { name } => SpecConfigCommand::Delete { name: name@ },
    }
}

pub open spec fn abs_session(c: SessionCommand) -> SpecSessionCommand {
    match c {
        SessionCommand::Start { name } => SpecSessionCommand::Start { name: name@ },
        SessionCommand::Stop => SpecSessionCommand::Stop,
        SessionCommand::Status => SpecSessionCommand::Status,
    }
}

pub open spec fn abs_commands(c: Commands) -> SpecCommands {
    match c {
        Commands::Config { commands } => SpecCommands::Config(abs_config(commands)),
        Commands::Session { commands } => SpecCommands::Session(abs_session(commands)),
    }
}

/// A whitespace character of the protocol: token separators, and the line
/// terminators a client may leave at the end of a line.
pub open spec fn is_ws(c: char) -> bool {
    c == ' ' || c == '\t' || c == '\r' || c == '\n'
}

/// The tokens of a command line: its maximal runs of non-whitespace
/// characters, in order.
pub open spec fn tokenize_spec(s: Seq<char>) -> Seq<Seq<char>>
    decreases s.len(),
{
    if s.len() == 0 {
        Seq::<Seq<char>>::empty()
    } else if is_ws(s[0]) {
        tokenize_spec(s.drop_first())
    } else if s.len() > 1 && !is_ws(s[1]) {
        let r = tokenize_spec(s.drop_first());
        seq![seq![s[0]] + r[0]] + r.drop_first()
    } else {
        seq![seq![s[0]]] + tokenize_spec(s.drop_first())
    }
}

/// The `--name N` argument form shared by export, delete and start.
pub open spec fn name_arg(a: Seq<Seq<char>>) -> Option<Seq<char>> {
    if a.len() == 2 && a[0] == "--name"@ {
        Some(a[1])
    } else {
        None
    }
}

/// The arguments of `config import`: a required `--path P` and an optional
/// `--name N`, in either order.
pub open spec fn import_args(a: Seq<Seq<char>>) -> Option<(Seq<char>, Option<Seq<char>>)> {
    if a.len() == 2 && a[0] == "--path"@ {
        Some((a[1], None))
    } else if a.len() == 4 && a[0] == "--path"@ && a[2] == "--name"@ {
        Some((a[1], Some(a[3])))
    } else if a.len() == 4 && a[0] == "--name"@ && a[2] == "--path"@ {
        Some((a[3], Some(a[1])))
    } else {
        None
    }
}

/// The grammar of the command surface, over a token sequence.
pub open spec fn parse_spec(toks: Seq<Seq<char>>) -> Option<SpecCommands> {
    if toks.len() < 2 {
        None
    } else if toks[0] == "config"@ {
        if toks[1] == "list"@ {
            if toks.len() == 2 {
                Some(SpecCommands::Config(SpecConfigCommand::List))
            } else {
                None
            }
        } else if toks[1] == "import"@ {
            match import_args(toks.skip(2)) {
                Some((path, name)) => Some(
                    SpecCommands::Config(SpecConfigCommand::Import { name, path }),
                ),
                None => None,
            }
        } else if toks[1] == "export"@ {
            match name_arg(toks.skip(2)) {
                Some(name) => Some(SpecCommands::Config(SpecConfigCommand::Export { name })),
                None => None,
            }
        } else if toks[1] == "delete"@ {
            match name_arg(toks.skip(2)) {
                Some(name) => Some(SpecCommands::Config(SpecConfigCommand::Delete { name })),
                None => None,
            }
        } else {
            None
        }
    } else if toks[0] == "session"@ {
        if toks[1] == "start"@ {
            match name_arg(toks.skip(2)) {
                Some(name) => Some(SpecCommands::Session(SpecSessionCommand::Start { name })),
                None => None,
            }
        } else if toks[1] == "stop"@ {
            if toks.len() == 2 {
                Some(SpecCommands::Session(SpecSessionCommand::Stop))
            } else {
                None
            }
        } else if toks[1] == "status"@ {
            if toks.len() == 2 {
                Some(SpecCommands::Session(SpecSessionCommand::Status))
            } else {
                None
            }
        } else {
            None
        }
    } else {
        None
    }
}

/// The views of a token vector.
pub open spec fn toks_view(toks: Seq<String>) -> Seq<Seq<char>> {
    toks.map_values(|t: String| t@)
}

fn is_ws_exec(c: char) -> (r: bool)
    ensures
        r == is_ws(c),
{
    c == ' ' || c == '\t' || c == '\r' || c == '\n'
}

/// Whether the character at `j` is whitespace.
fn ws_at(s: &str, j: usize) -> (r: bool)
    requires
        j < s@.len(),
    ensures
        r == is_ws(s@[j as int]),
{
    is_ws_exec(s.get_char(j))
}

/// A run of non-whitespace characters, up to the next whitespace or the
/// end, is the head token; the rest of the line holds the rest.
proof fn lemma_tokenize_head(s: Seq<char>, j: int)
    requires
        0 < j <= s.len(),
        forall|k: int| 0 <= k < j ==> !is_ws(s[k]),
        j == s.len() || is_ws(s[j]),
    ensures
        tokenize_spec(s) == seq![s.subrange(0, j)] + tokenize_spec(s.skip(j)),
    decreases j,
{
    let t = s.drop_first();
    if j == 1 {
        if s.len() == 1 {
            assert(t.len() == 0);
            assert(tokenize_spec(s) == seq![seq![s[0]]] + tokenize_spec(t));
            assert(s.subrange(0, 1) =~= seq![s[0]]);
            assert(s.skip(1) =~= t);
        } else {
            assert(is_ws(s[1]));
            assert(tokenize_spec(s) == seq![seq![s[0]]] + tokenize_spec(t));
            assert(s.subrange(0, 1) =~= seq![s[0]]);
            assert(s.skip(1) =~= t);
        }
    } else {
        assert(!is_ws(s[1]));
        assert(t[0] == s[1]);
        assert forall|k: int| 0 <= k < j - 1 implies !is_ws(t[k]) by {
            assert(t[k] == s[k + 1]);
        }
        if j < s.len() {
            assert(t[j - 1] == s[j]);
        }
        lemma_tokenize_head(t, j - 1);
        let r = tokenize_spec(t);
        assert(r == seq![t.subrange(0, j - 1)] + tokenize_spec(t.skip(j - 1)));
        assert(r[0] == t.subrange(0, j - 1));
        assert(r.drop_first() =~= tokenize_spec(t.skip(j - 1)));
        assert(tokenize_spec(s) == seq![seq![s[0]] + r[0]] + r.drop_first());
        assert(seq![s[0]] + t.subrange(0, j - 1) =~= s.subrange(0, j));
        assert(t.skip(j - 1) =~= s.skip(j));
    }
}

/// Splits a command line into its whitespace-separated tokens.
pub fn tokenize(s: &str) -> (r: Vec<String>)
    ensures
        toks_view(r@) == tokenize_spec(s@),
{
    let n = s.unicode_len();
    let mut toks: Vec<String> = Vec::new();
    let mut i: usize = 0;
    proof {
        assert(s@.skip(0) =~= s@);
        assert(toks_view(toks@) + tokenize_spec(s@) =~= tokenize_spec(s@));
    }
    while i < n
        invariant
            i <= n,
            n == s@.len(),
            tokenize_spec(s@) == toks_view(toks@) + tokenize_spec(s@.skip(i as int)),
        decreases n - i,
    {
        if ws_at(s, i) {
            proof {
                assert(s@.skip(i as int)[0] == s@[i as int]);
                assert(s@.skip(i as int).drop_first() =~= s@.skip(i + 1));
            }
            i = i + 1;
        } else {
            let start = i;
            let mut j = i + 1;
            while j < n && !ws_at(s, j)
                invariant
                    n == s@.len(),
                    start < j <= n,
                    forall|k: int| start <= k < j ==> !is_ws(s@[k]),
                decreases n - j,
            {
                j = j + 1;
            }
            let token = s.substring_char(start, j).to_owned();
            proof {
                let rest = s@.skip(start as int);
                assert forall|k: int| 0 <= k < j - start implies !is_ws(rest[k]) by {
                    assert(rest[k] == s@[k + start]);
                }
                if j < n {
                    assert(rest[j - start] == s@[j as int]);
                }
                lemma_tokenize_head(rest, j - start);
                assert(rest.subrange(0, j - start) =~= s@.subrange(start as int, j as int));
                assert(rest.skip(j - start) =~= s@.skip(j as int));
                assert(token@ == s@.subrange(start as int, j as int));
                assert(toks_view(toks@.push(token)) =~= toks_view(toks@).push(token@));
            }
            toks.push(token);
            i = j;
        }
    }
    proof {
        assert(s@.skip(n as int) =~= Seq::<char>::empty());
        assert(toks_view(toks@) + tokenize_spec(Seq::<char>::empty()) =~= toks_view(toks@));
    }
    toks
}

/// String equality against a keyword.
fn tok_is(t: &String, w: &str) -> (r: bool)
    ensures
        r == (t@ == w@),
{
    let o: String = w.to_owned();
    t.eq(&o)
}

/// Parses a token list against the grammar of the command surface.
pub fn parse_tokens(toks: &Vec<String>) -> (r: Option<Commands>)
    ensures
        match r {
            Some(c) => parse_spec(toks_view(toks@)) == Some(abs_commands(c)),
            None => parse_spec(toks_view(toks@)) is None,
        },
{
    let ghost tv = toks_view(toks@);
    if toks.len() < 2 {
        return None;
    }
    proof {
        assert(tv.skip(2) =~= toks_view(toks@.skip(2)));
    }
    if tok_is(&toks[0], "config") {
        if tok_is(&toks[1], "list") {
            if toks.len() == 2 {
                Some(Commands::Config { commands: ConfigCommand::List })
            } else {
                None
            }
        } else if tok_is(&toks[1], "import") {
            if toks.len() == 4 && tok_is(&toks[2], "--path") {
                Some(
                    Commands::Config {
                        commands: ConfigCommand::Import { name: None, path: toks[3].clone() },
                    },
                )
            } else if toks.len() == 6 && tok_is(&toks[2], "--path") && tok_is(&toks[4], "--name") {
                Some(
                    Commands::Config {
                        commands: ConfigCommand::Import {
                            name: Some(toks[5].clone()),
                            path: toks[3].clone(),
                        },
                    },
                )
            } else if toks.len() == 6 && tok_is(&toks[2], "--name") && tok_is(&toks[4], "--path") {
                Some(
                    Commands::Config {
                        commands: ConfigCommand::Import {
                            name: Some(toks[3].clone()),
                            path: toks[5].clone(),
                        },
                    },
                )
            } else {
                None
            }
        } else if tok_is(&toks[1], "export") {
            if toks.len() == 4 && tok_is(&toks[2], "--name") {
                Some(Commands::Config { commands: ConfigCommand::Export { name: toks[3].clone() } })
            } else {
                None
            }
        } else if tok_is(&toks[1], "delete") {
            if toks.len() == 4 && tok_is(&toks[2], "--name") {
                Some(Commands::Config { commands: ConfigCommand::Delete { name: toks[3].clone() } })
            } else {
                None
            }
        } else {
            None
        }
    } else if tok_is(&toks[0], "session") {
        if tok_is(&toks[1], "start") {
            if toks.len() == 4 && tok_is(&toks[2], "--name") {
                Some(
                    Commands::Session { commands: SessionCommand::Start { name: toks[3].clone() } },
                )
            } else {
                None
            }
        } else if tok_is(&toks[1], "stop") {
            if toks.len() == 2 {
                Some(Commands::Session { commands: SessionCommand::Stop })
            } else {
                None
            }
        } else if tok_is(&toks[1], "status") {
            if toks.len() == 2 {
                Some(Commands::Session { commands: SessionCommand::Status })
            } else {
                None
            }
        } else {
            None
        }
    } else {
        None
    }
}

/// Parses one received command line: tokenize, then match the grammar.
/// `None` is answered with the invalid-command error.
pub fn parse_command_line(line: &str) -> (r: Option<Cli>)
    ensures
        match r {
            Some(cli) => parse_spec(tokenize_spec(line@)) == Some(abs_commands(cli.commands)),
            None => parse_spec(tokenize_spec(line@)) is None,
        },
{
    let toks = tokenize(line);
    match parse_tokens(&toks) {
        Some(commands) => Some(Cli { commands }),
        None => None,
    }
}

} // verus!
