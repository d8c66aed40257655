use varta::cli::command::{optional_password, parse_command, prompt, Command, CommandError, Usage};

fn words(s: &str) -> Vec<String> {
    s.split_whitespace().map(|w| w.to_string()).collect()
}

#[test]
fn top_level_commands() {
    assert!(matches!(parse_command(&words(""), false, false), Ok(Command::Nothing)));
    assert!(matches!(parse_command(&words("exit"), false, false), Ok(Command::Exit)));
    assert!(matches!(parse_command(&words("help"), false, false), Ok(Command::Help)));
    assert!(matches!(parse_command(&words("frobnicate x"), false, false), Ok(Command::Unknown { word }) if word == "frobnicate"));
}

#[test]
fn agent_commands() {
    assert!(matches!(parse_command(&words("agent"), false, false), Err(CommandError::Usage(Usage::Agent))));
    assert!(matches!(parse_command(&words("agent new"), false, false), Err(CommandError::Usage(Usage::AgentNew))));
    assert!(matches!(
        parse_command(&words("agent new alice"), false, false),
        Ok(Command::AgentNew { name, password: None }) if name == "alice"
    ));
    assert!(matches!(
        parse_command(&words("agent new alice my secret  words"), false, false),
        Ok(Command::AgentNew { name, password: Some(p) }) if name == "alice" && p == "my secret words"
    ));
    assert!(matches!(
        parse_command(&words("agent login bob pw"), false, false),
        Ok(Command::AgentLogin { name, password: Some(p) }) if name == "bob" && p == "pw"
    ));
    assert!(matches!(parse_command(&words("agent login"), false, false), Err(CommandError::Usage(Usage::AgentLogin))));
    assert!(matches!(parse_command(&words("agent switch"), false, false), Ok(Command::AgentSwitch)));
    assert!(matches!(parse_command(&words("agent fly"), false, false), Err(CommandError::UnknownAgentCommand(w)) if w == "fly"));
}

#[test]
fn vault_commands_need_an_agent() {
    assert!(matches!(parse_command(&words("vault"), false, false), Err(CommandError::Usage(Usage::Vault))));
    assert!(matches!(parse_command(&words("vault new work"), false, false), Err(CommandError::NoAgentLoggedIn)));
    assert!(matches!(parse_command(&words("vault new"), true, false), Err(CommandError::Usage(Usage::VaultNew))));
    assert!(matches!(
        parse_command(&words("vault new my work vault"), true, false),
        Ok(Command::VaultNew { name }) if name == "my work vault"
    ));
    assert!(matches!(parse_command(&words("vault open w"), true, false), Ok(Command::VaultOpen { name }) if name == "w"));
    assert!(matches!(parse_command(&words("vault close"), true, false), Err(CommandError::NoVaultOpened)));
    assert!(matches!(parse_command(&words("vault close"), true, true), Ok(Command::VaultClose)));
    assert!(matches!(parse_command(&words("vault burn"), true, true), Err(CommandError::UnknownVaultCommand(w)) if w == "burn"));
}

#[test]
fn object_commands_need_an_agent_and_a_vault() {
    assert!(matches!(parse_command(&words("object"), true, true), Err(CommandError::Usage(Usage::Object))));
    assert!(matches!(parse_command(&words("object list"), false, true), Err(CommandError::NoAgentLoggedIn)));
    assert!(matches!(parse_command(&words("object zap"), true, false), Err(CommandError::NoVaultOpened)));
    assert!(matches!(parse_command(&words("object add k"), true, true), Err(CommandError::Usage(Usage::ObjectAdd))));
    assert!(matches!(
        parse_command(&words("object add k hello world"), true, true),
        Ok(Command::ObjectAdd { key, value }) if key == "k" && value == b"hello world".to_vec()
    ));
    assert!(matches!(
        parse_command(&words("object update k v2"), true, true),
        Ok(Command::ObjectUpdate { key, value }) if key == "k" && value == b"v2".to_vec()
    ));
    assert!(matches!(parse_command(&words("object read k"), true, true), Ok(Command::ObjectRead { key }) if key == "k"));
    assert!(matches!(parse_command(&words("object read"), true, true), Err(CommandError::Usage(Usage::ObjectRead))));
    assert!(matches!(parse_command(&words("object delete k"), true, true), Ok(Command::ObjectDelete { key }) if key == "k"));
    assert!(matches!(parse_command(&words("object list"), true, true), Ok(Command::ObjectList)));
    assert!(matches!(parse_command(&words("object zap"), true, true), Err(CommandError::UnknownObjectCommand(w)) if w == "zap"));
}

#[test]
fn usage_lines() {
    assert_eq!(Usage::AgentNew.text(), "Usage: agent new <name>");
    assert_eq!(Usage::Object.text(), "Usage: object <add|update|read|delete|list> [key] [value]");
}

#[test]
fn prompts_and_passwords() {
    assert_eq!(prompt(Some("alice"), Some("work")), "alice:work > ");
    assert_eq!(prompt(Some("alice"), None), "alice > ");
    assert_eq!(prompt(None, Some("work")), "guest > ");
    assert_eq!(optional_password(String::new()), None);
    assert_eq!(optional_password("pw".to_string()), Some("pw".to_string()));
}
