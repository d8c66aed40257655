//! The command language of the interactive shell: which command a line of
//! words asks for, given whether an agent is logged in and a vault is open,
//! and the prompt that shows the session's state.
use vstd::prelude::*;
use vstd::string::StringExecFns;
use vstd::utf8::encode_utf8;
use crate::text::{str_equal, join_from, joined};

verus! {

/// A command of the shell. A password of `None` is asked for at a prompt.
pub enum Command {
    Nothing,
    Exit,
    Help,
    AgentNew { name: String, password: Option<String> },
    AgentLogin { name: String, password: Option<String> },
    AgentSwitch,
    VaultNew { name: String },
    VaultOpen { name: String },
    VaultClose,
    ObjectAdd { key: String, value: Vec<u8> },
    ObjectUpdate { key: String, value: Vec<u8> },
    ObjectRead { key: String },
    ObjectDelete { key: String },
    ObjectList,
    Unknown { word: String },
}

/// Which usage line a malformed command is answered with.
#[derive(Debug, Clone, Copy, PartialEq, Eq, Structural)]
pub enum Usage {
    Agent,
    AgentNew,
    AgentLogin,
    Vault,
    VaultNew,
    VaultOpen,
    Object,
    ObjectAdd,
    ObjectUpdate,
    ObjectRead,
    ObjectDelete,
}

/// The usage line that answers a malformed command of kind `u`.
pub open spec fn usage_line(u: Usage) -> Seq<char> {
    match u {
        Usage::Agent => "Usage: agent <new|login|switch> [name]"@,
        Usage::AgentNew => "Usage: agent new <name>"@,
        Usage::AgentLogin => "Usage: agent login <name>"@,
        Usage::Vault => "Usage: vault <new|open|close> [name]"@,
        Usage::VaultNew => "Usage: vault new <name>"@,
        Usage::VaultOpen => "Usage: vault open <name>"@,
        Usage::Object => "Usage: object <add|update|read|delete|list> [key] [value]"@,
        Usage::ObjectAdd => "Usage: object add <key> <value>"@,
        Usage::ObjectUpdate => "Usage: object update <key> <value>"@,
        Usage::ObjectRead => "Usage: object read <key>"@,
        Usage::ObjectDelete => "Usage: object delete <key>"@,
    }
}

impl Usage {
    /// The usage line.
    pub fn text(self) -> (t: &'static str)
        ensures
            t@ == usage_line(self),
    {
        match self {
            Usage::Agent => "Usage: agent <new|login|switch> [name]",
            Usage::AgentNew => "Usage: agent new <name>",
            Usage::AgentLogin => "Usage: agent login <name>",
            Usage::Vault => "Usage: vault <new|open|close> [name]",
            Usage::VaultNew => "Usage: vault new <name>",
            Usage::VaultOpen => "Usage: vault open <name>",
            Usage::Object => "Usage: object <add|update|read|delete|list> [key] [value]",
            Usage::ObjectAdd => "Usage: object add <key> <value>",
            Usage::ObjectUpdate => "Usage: object update <key> <value>",
            Usage::ObjectRead => "Usage: object read <key>",
            Usage::ObjectDelete => "Usage: object delete <key>",
        }
    }
}

/// Why a line is refused.
#[derive(Debug)]
pub enum CommandError {
    Usage(Usage),
    NoAgentLoggedIn,
    NoVaultOpened,
    UnknownAgentCommand(String),
    UnknownVaultCommand(String),
    UnknownObjectCommand(String),
}

/// The views of the words.
pub open spec fn words_view(args: Seq<String>) -> Seq<Seq<char>> {
    args.map_values(|w: String| w@)
}

/// The words from `start` on, joined by single spaces.
pub open spec fn rest_from(args: Seq<String>, start: int) -> Seq<char> {
    joined(words_view(args.subrange(start, args.len() as int)))
}

/// An inline password: the words from the fourth on, where there are any.
pub open spec fn inline_password(args: Seq<String>) -> Option<Seq<char>> {
    if args.len() > 3 {
        Some(rest_from(args, 3))
    } else {
        None
    }
}

pub open spec fn opt_view(o: Option<String>) -> Option<Seq<char>> {
    match o {
        Some(s) => Some(s@),
        None => None,
    }
}

/// The command that the words `args` ask for, or why they are refused, when
/// an agent is logged in (`has_agent`) and a vault is open (`has_vault`).
pub fn parse_command(args: &Vec<String>, has_agent: bool, has_vault: bool) -> (r: Result<Command, CommandError>)
    ensures
        args@.len() == 0 ==> r matches Ok(Command::Nothing),
        args@.len() > 0 ==> {
            let a = args@;
            let w0 = a[0]@;
            &&& w0 == "exit"@ ==> (r matches Ok(Command::Exit))
            &&& w0 == "help"@ ==> (r matches Ok(Command::Help))
            &&& w0 == "agent"@ ==> {
                &&& a.len() < 2 ==> (r matches Err(CommandError::Usage(Usage::Agent)))
                &&& a.len() >= 2 && a[1]@ == "new"@ ==> {
                    &&& a.len() < 3 ==> (r matches Err(CommandError::Usage(Usage::AgentNew)))
                    &&& a.len() >= 3 ==> (r matches Ok(Command::AgentNew { name, password }) && name@ == a[2]@
                        && opt_view(password) == inline_password(a))
                }
                &&& a.len() >= 2 && a[1]@ == "login"@ ==> {
                    &&& a.len() < 3 ==> (r matches Err(CommandError::Usage(Usage::AgentLogin)))
                    &&& a.len() >= 3 ==> (r matches Ok(Command::AgentLogin { name, password }) && name@ == a[2]@
                        && opt_view(password) == inline_password(a))
                }
                &&& a.len() >= 2 && a[1]@ == "switch"@ ==> (r matches Ok(Command::AgentSwitch))
                &&& a.len() >= 2 && a[1]@ != "new"@ && a[1]@ != "login"@ && a[1]@ != "switch"@ ==> (r matches Err(
                    CommandError::UnknownAgentCommand(w),
                ) && w@ == a[1]@)
            }
            &&& w0 == "vault"@ ==> {
                &&& a.len() < 2 ==> (r matches Err(CommandError::Usage(Usage::Vault)))
                &&& a.len() >= 2 && (a[1]@ == "new"@ || a[1]@ == "open"@) ==> {
                    &&& !has_agent ==> (r matches Err(CommandError::NoAgentLoggedIn))
                    &&& has_agent && a.len() < 3 && a[1]@ == "new"@ ==> (r matches Err(CommandError::Usage(Usage::VaultNew)))
                    &&& has_agent && a.len() < 3 && a[1]@ == "open"@ ==> (r matches Err(CommandError::Usage(Usage::VaultOpen)))
                    &&& has_agent && a.len() >= 3 && a[1]@ == "new"@ ==> (r matches Ok(Command::VaultNew { name })
                        && name@ == rest_from(a, 2))
                    &&& has_agent && a.len() >= 3 && a[1]@ == "open"@ ==> (r matches Ok(Command::VaultOpen { name })
                        && name@ == rest_from(a, 2))
                }
                &&& a.len() >= 2 && a[1]@ == "close"@ ==> {
                    &&& !has_vault ==> (r matches Err(CommandError::NoVaultOpened))
                    &&& has_vault ==> (r matches Ok(Command::VaultClose))
                }
                &&& a.len() >= 2 && a[1]@ != "new"@ && a[1]@ != "open"@ && a[1]@ != "close"@ ==> (r matches Err(
                    CommandError::UnknownVaultCommand(w),
                ) && w@ == a[1]@)
            }
            &&& w0 == "object"@ ==> {
                &&& a.len() < 2 ==> (r matches Err(CommandError::Usage(Usage::Object)))
                &&& a.len() >= 2 && !has_agent ==> (r matches Err(CommandError::NoAgentLoggedIn))
                &&& a.len() >= 2 && has_agent && !has_vault ==> (r matches Err(CommandError::NoVaultOpened))
                &&& a.len() >= 2 && has_agent && has_vault ==> {
                    &&& a[1]@ == "add"@ && a.len() < 4 ==> (r matches Err(CommandError::Usage(Usage::ObjectAdd)))
                    &&& a[1]@ == "add"@ && a.len() >= 4 ==> (r matches Ok(Command::ObjectAdd { key, value }) && key@
                        == a[2]@ && value@ == encode_utf8(rest_from(a, 3)))
                    &&& a[1]@ == "update"@ && a.len() < 4 ==> (r matches Err(CommandError::Usage(Usage::ObjectUpdate)))
                    &&& a[1]@ == "update"@ && a.len() >= 4 ==> (r matches Ok(Command::ObjectUpdate { key, value })
                        && key@ == a[2]@ && value@ == encode_utf8(rest_from(a, 3)))
                    &&& a[1]@ == "read"@ && a.len() < 3 ==> (r matches Err(CommandError::Usage(Usage::ObjectRead)))
                    &&& a[1]@ == "read"@ && a.len() >= 3 ==> (r matches Ok(Command::ObjectRead { key }) && key@
                        == a[2]@)
                    &&& a[1]@ == "delete"@ && a.len() < 3 ==> (r matches Err(CommandError::Usage(Usage::ObjectDelete)))
                    &&& a[1]@ == "delete"@ && a.len() >= 3 ==> (r matches Ok(Command::ObjectDelete { key }) && key@
                        == a[2]@)
                    &&& a[1]@ == "list"@ ==> (r matches Ok(Command::ObjectList))
                    &&& a[1]@ != "add"@ && a[1]@ != "update"@ && a[1]@ != "read"@ && a[1]@ != "delete"@ && a[1]@
                        != "list"@ ==> (r matches Err(CommandError::UnknownObjectCommand(w)) && w@ == a[1]@)
                }
            }
            &&& w0 != "exit"@ && w0 != "help"@ && w0 != "agent"@ && w0 != "vault"@ && w0 != "object"@ ==> (r matches Ok(
                Command::Unknown { word },
            ) && word@ == w0)
        },
{
    proof {
        reveal_strlit("exit");
        reveal_strlit("help");
        reveal_strlit("agent");
        reveal_strlit("vault");
        reveal_strlit("object");
        reveal_strlit("new");
        reveal_strlit("login");
        reveal_strlit("switch");
        reveal_strlit("open");
        reveal_strlit("close");
        reveal_strlit("add");
        reveal_strlit("update");
        reveal_strlit("read");
        reveal_strlit("delete");
        reveal_strlit("list");
        assert("exit"@[0] == 'e');
        assert("help"@[0] == 'h');
        assert("agent"@[0] == 'a');
        assert("vault"@[0] == 'v');
        assert("object"@[0] == 'o');
    }
    let n = args.len();
    if n == 0 {
        return Ok(Command::Nothing);
    }
    let w0 = args[0].as_str();
    if str_equal(w0, "exit") {
        Ok(Command::Exit)
    } else if str_equal(w0, "help") {
        Ok(Command::Help)
    } else if str_equal(w0, "agent") {
        parse_agent(args)
    } else if str_equal(w0, "vault") {
        parse_vault(args, has_agent, has_vault)
    } else if str_equal(w0, "object") {
        parse_object_command(args, has_agent, has_vault)
    } else {
        Ok(Command::Unknown { word: w0.to_string() })
    }
}

/// The password given inline: the words from the fourth on.
fn password_arg(args: &Vec<String>) -> (p: Option<String>)
    ensures
        opt_view(p) == inline_password(args@),
{
    if args.len() > 3 {
        Some(join_from(args, 3))
    } else {
        None
    }
}

fn parse_agent(args: &Vec<String>) -> (r: Result<Command, CommandError>)
    requires
        args@.len() >= 1,
    ensures
        ({
            let a = args@;
            &&& a.len() < 2 ==> (r matches Err(CommandError::Usage(Usage::Agent)))
            &&& a.len() >= 2 && a[1]@ == "new"@ ==> {
                &&& a.len() < 3 ==> (r matches Err(CommandError::Usage(Usage::AgentNew)))
                &&& a.len() >= 3 ==> (r matches Ok(Command::AgentNew { name, password }) && name@ == a[2]@ && opt_view(
                    password,
                ) == inline_password(a))
            }
            &&& a.len() >= 2 && a[1]@ == "login"@ ==> {
                &&& a.len() < 3 ==> (r matches Err(CommandError::Usage(Usage::AgentLogin)))
                &&& a.len() >= 3 ==> (r matches Ok(Command::AgentLogin { name, password }) && name@ == a[2]@
                    && opt_view(password) == inline_password(a))
            }
            &&& a.len() >= 2 && a[1]@ == "switch"@ ==> (r matches Ok(Command::AgentSwitch))
            &&& a.len() >= 2 && a[1]@ != "new"@ && a[1]@ != "login"@ && a[1]@ != "switch"@ ==> (r matches Err(
                CommandError::UnknownAgentCommand(w),
            ) && w@ == a[1]@)
        }),
{
    proof {
        reveal_strlit("new");
        reveal_strlit("login");
        reveal_strlit("switch");
        reveal_strlit("open");
        reveal_strlit("close");
        reveal_strlit("add");
        reveal_strlit("update");
        reveal_strlit("read");
        reveal_strlit("delete");
        reveal_strlit("list");
        assert("new"@[0] == 'n');
        assert("login"@[0] == 'l');
        assert("switch"@[0] == 's');
    }
    if args.len() < 2 {
        return Err(CommandError::Usage(Usage::Agent));
    }
    let w1 = args[1].as_str();
    if str_equal(w1, "new") {
        if args.len() < 3 {
            return Err(CommandError::Usage(Usage::AgentNew));
        }
        Ok(Command::AgentNew { name: args[2].as_str().to_string(), password: password_arg(args) })
    } else if str_equal(w1, "login") {
        if args.len() < 3 {
            return Err(CommandError::Usage(Usage::AgentLogin));
        }
        Ok(Command::AgentLogin { name: args[2].as_str().to_string(), password: password_arg(args) })
    } else if str_equal(w1, "switch") {
        Ok(Command::AgentSwitch)
    } else {
        Err(CommandError::UnknownAgentCommand(w1.to_string()))
    }
}

fn parse_vault(args: &Vec<String>, has_agent: bool, has_vault: bool) -> (r: Result<Command, CommandError>)
    requires
        args@.len() >= 1,
    ensures
        ({
            let a = args@;
            &&& a.len() < 2 ==> (r matches Err(CommandError::Usage(Usage::Vault)))
            &&& a.len() >= 2 && (a[1]@ == "new"@ || a[1]@ == "open"@) ==> {
                &&& !has_agent ==> (r matches Err(CommandError::NoAgentLoggedIn))
                &&& has_agent && a.len() < 3 && a[1]@ == "new"@ ==> (r matches Err(CommandError::Usage(Usage::VaultNew)))
                &&& has_agent && a.len() < 3 && a[1]@ == "open"@ ==> (r matches Err(CommandError::Usage(Usage::VaultOpen)))
                &&& has_agent && a.len() >= 3 && a[1]@ == "new"@ ==> (r matches Ok(Command::VaultNew { name }) && name@
                    == rest_from(a, 2))
                &&& has_agent && a.len() >= 3 && a[1]@ == "open"@ ==> (r matches Ok(Command::VaultOpen { name })
                    && name@ == rest_from(a, 2))
            }
            &&& a.len() >= 2 && a[1]@ == "close"@ ==> {
                &&& !has_vault ==> (r matches Err(CommandError::NoVaultOpened))
                &&& has_vault ==> (r matches Ok(Command::VaultClose))
            }
            &&& a.len() >= 2 && a[1]@ != "new"@ && a[1]@ != "open"@ && a[1]@ != "close"@ ==> (r matches Err(
                CommandError::UnknownVaultCommand(w),
            ) && w@ == a[1]@)
        }),
{
    proof {
        reveal_strlit("new");
        reveal_strlit("login");
        reveal_strlit("switch");
        reveal_strlit("open");
        reveal_strlit("close");
        reveal_strlit("add");
        reveal_strlit("update");
        reveal_strlit("read");
        reveal_strlit("delete");
        reveal_strlit("list");
        assert("new"@[0] == 'n');
        assert("open"@[0] == 'o');
        assert("close"@[0] == 'c');
    }
    if args.len() < 2 {
        return Err(CommandError::Usage(Usage::Vault));
    }
    let w1 = args[1].as_str();
    if str_equal(w1, "new") {
        if !has_agent {
            return Err(CommandError::NoAgentLoggedIn);
        }
        if args.len() < 3 {
            return Err(CommandError::Usage(Usage::VaultNew));
        }
        Ok(Command::VaultNew { name: join_from(args, 2) })
    } else if str_equal(w1, "open") {
        if !has_agent {
            return Err(CommandError::NoAgentLoggedIn);
        }
        if args.len() < 3 {
            return Err(CommandError::Usage(Usage::VaultOpen));
        }
        Ok(Command::VaultOpen { name: join_from(args, 2) })
    } else if str_equal(w1, "close") {
        if !has_vault {
            return Err(CommandError::NoVaultOpened);
        }
        Ok(Command::VaultClose)
    } else {
        Err(CommandError::UnknownVaultCommand(w1.to_string()))
    }
}

/// The words from the fourth on, joined by spaces, as UTF-8 bytes.
fn value_arg(args: &Vec<String>) -> (v: Vec<u8>)
    requires
        args@.len() >= 3,
    ensures
        v@ == encode_utf8(rest_from(args@, 3)),
{
    let s = join_from(args, 3);
    let mut v: Vec<u8> = Vec::new();
    crate::bytes::push_slice(&mut v, s.as_str().as_bytes());
    v
}

fn parse_object_command(args: &Vec<String>, has_agent: bool, has_vault: bool) -> (r: Result<Command, CommandError>)
    requires
        args@.len() >= 1,
    ensures
        ({
            let a = args@;
            &&& a.len() < 2 ==> (r matches Err(CommandError::Usage(Usage::Object)))
            &&& a.len() >= 2 && !has_agent ==> (r matches Err(CommandError::NoAgentLoggedIn))
            &&& a.len() >= 2 && has_agent && !has_vault ==> (r matches Err(CommandError::NoVaultOpened))
            &&& a.len() >= 2 && has_agent && has_vault ==> {
                &&& a[1]@ == "add"@ && a.len() < 4 ==> (r matches Err(CommandError::Usage(Usage::ObjectAdd)))
                &&& a[1]@ == "add"@ && a.len() >= 4 ==> (r matches Ok(Command::ObjectAdd { key, value }) && key@ == a[2]@
                    && value@ == encode_utf8(rest_from(a, 3)))
                &&& a[1]@ == "update"@ && a.len() < 4 ==> (r matches Err(CommandError::Usage(Usage::ObjectUpdate)))
                &&& a[1]@ == "update"@ && a.len() >= 4 ==> (r matches Ok(Command::ObjectUpdate { key, value }) && key@
                    == a[2]@ && value@ == encode_utf8(rest_from(a, 3)))
                &&& a[1]@ == "read"@ && a.len() < 3 ==> (r matches Err(CommandError::Usage(Usage::ObjectRead)))
                &&& a[1]@ == "read"@ && a.len() >= 3 ==> (r matches Ok(Command::ObjectRead { key }) && key@ == a[2]@)
                &&& a[1]@ == "delete"@ && a.len() < 3 ==> (r matches Err(CommandError::Usage(Usage::ObjectDelete)))
                &&& a[1]@ == "delete"@ && a.len() >= 3 ==> (r matches Ok(Command::ObjectDelete { key }) && key@
                    == a[2]@)
                &&& a[1]@ == "list"@ ==> (r matches Ok(Command::ObjectList))
                &&& a[1]@ != "add"@ && a[1]@ != "update"@ && a[1]@ != "read"@ && a[1]@ != "delete"@ && a[1]@
                    != "list"@ ==> (r matches Err(CommandError::UnknownObjectCommand(w)) && w@ == a[1]@)
            }
        }),
{
    proof {
        reveal_strlit("new");
        reveal_strlit("login");
        reveal_strlit("switch");
        reveal_strlit("open");
        reveal_strlit("close");
        reveal_strlit("add");
        reveal_strlit("update");
        reveal_strlit("read");
        reveal_strlit("delete");
        reveal_strlit("list");
        assert("add"@[0] == 'a');
        assert("update"@[0] == 'u');
        assert("read"@[0] == 'r');
        assert("delete"@[0] == 'd');
        assert("list"@[0] == 'l');
    }
    if args.len() < 2 {
        return Err(CommandError::Usage(Usage::Object));
    }
    if !has_agent {
        return Err(CommandError::NoAgentLoggedIn);
    }
    if !has_vault {
        return Err(CommandError::NoVaultOpened);
    }
    let w1 = args[1].as_str();
    if str_equal(w1, "add") {
        if args.len() < 4 {
            return Err(CommandError::Usage(Usage::ObjectAdd));
        }
        Ok(Command::ObjectAdd { key: args[2].as_str().to_string(), value: value_arg(args) })
    } else if str_equal(w1, "update") {
        if args.len() < 4 {
            return Err(CommandError::Usage(Usage::ObjectUpdate));
        }
        Ok(Command::ObjectUpdate { key: args[2].as_str().to_string(), value: value_arg(args) })
    } else if str_equal(w1, "read") {
        if args.len() < 3 {
            return Err(CommandError::Usage(Usage::ObjectRead));
        }
        Ok(Command::ObjectRead { key: args[2].as_str().to_string() })
    } else if str_equal(w1, "delete") {
        if args.len() < 3 {
            return Err(CommandError::Usage(Usage::ObjectDelete));
        }
        Ok(Command::ObjectDelete { key: args[2].as_str().to_string() })
    } else if str_equal(w1, "list") {
        Ok(Command::ObjectList)
    } else {
        Err(CommandError::UnknownObjectCommand(w1.to_string()))
    }
}

/// A password typed at the prompt when creating an agent: an empty one means none.
pub fn optional_password(password: String) -> (p: Option<String>)
    ensures
        password@.len() == 0 ==> p is None,
        password@.len() > 0 ==> (p matches Some(s) && s@ == password@),
{
    proof {
        vstd::utf8::encode_utf8_decode_utf8(password@);
        if password@.len() == 0 {
            assert(password@ =~= Seq::<char>::empty());
            assert(encode_utf8(Seq::<char>::empty()) =~= Seq::<u8>::empty());
        }
        if encode_utf8(password@).len() == 0 {
            assert(encode_utf8(password@) =~= Seq::<u8>::empty());
            assert(vstd::utf8::decode_utf8(Seq::<u8>::empty()) =~= Seq::<char>::empty());
        }
    }
    let n = password.as_str().as_bytes().len();
    assert(n == encode_utf8(password@).len());
    if n == 0 {
        None
    } else {
        Some(password)
    }
}

/// The shell's prompt: the agent's name and the vault's name where there
/// are, else `guest`.
pub fn prompt(agent: Option<&str>, vault: Option<&str>) -> (p: String)
    ensures
        agent is Some && vault is Some ==> p@ == agent->0@ + seq![':'] + vault->0@ + " > "@,
        agent is Some && vault is None ==> p@ == agent->0@ + " > "@,
        agent is None ==> p@ == "guest > "@,
{
    match (agent, vault) {
        (Some(a), Some(v)) => {
            let mut p = String::from_str(a);
            p.append(":");
            p.append(v);
            p.append(" > ");
            proof {
                reveal_strlit(":");
            }
            p
        },
        (Some(a), None) => {
            let mut p = String::from_str(a);
            p.append(" > ");
            p
        },
        (None, _) => String::from_str("guest > "),
    }
}

} // verus!
