use worldedit::help::{
    decimal_string, help_message, lookup_help, ArgumentDefault, ArgumentHelp, ArgumentKind, CommandHelp, FlagHelp,
    CommandTable, HelpColor,
};

fn command(name: &str) -> CommandHelp {
    CommandHelp {
        name: name.to_string(),
        description: "Stack the selection".to_string(),
        arguments: vec![
            ArgumentHelp {
                name: "amount".to_string(),
                description: "How many copies".to_string(),
                kind: ArgumentKind::UnsignedInteger,
                default: ArgumentDefault::Undeclared,
            },
            ArgumentHelp {
                name: "direction".to_string(),
                description: "Where to stack".to_string(),
                kind: ArgumentKind::Direction,
                default: ArgumentDefault::Undeclared,
            },
            ArgumentHelp {
                name: "spacing".to_string(),
                description: "Gap".to_string(),
                kind: ArgumentKind::UnsignedInteger,
                default: ArgumentDefault::UnsignedInteger(25),
            },
            ArgumentHelp {
                name: "pattern".to_string(),
                description: "Blocks".to_string(),
                kind: ArgumentKind::Other,
                default: ArgumentDefault::Undeclared,
            },
        ],
        flags: vec![FlagHelp { letter: 'a', description: "Ignore air".to_string() }],
    }
}

#[test]
fn decimal_numbers() {
    assert_eq!(decimal_string(0), "0");
    assert_eq!(decimal_string(7), "7");
    assert_eq!(decimal_string(1234), "1234");
    assert_eq!(decimal_string(u32::MAX), u32::MAX.to_string());
}

#[test]
fn help_text() {
    let msg = help_message("/stack", &command("/stack"));
    let texts: Vec<&str> = msg.iter().map(|s| s.text.as_str()).collect();
    assert_eq!(
        texts,
        vec![
            "--------------",
            " Help for //stack ",
            "--------------\n",
            "Stack the selection",
            "\nUsage: ",
            "//stack",
            " [", "amount", "]",
            " [", "direction", "]",
            " [", "spacing", "]",
            " [", "pattern", "]",
            "\nArguments:",
            "\n  [", "amount", "]", " (defaults to 1)", ": How many copies",
            "\n  [", "direction", "]", " (defaults to me)", ": Where to stack",
            "\n  [", "spacing", "]", " (defaults to 25)", ": Gap",
            "\n  [", "pattern", "]", ": Blocks",
            "\nFlags:",
            "\n  -a", ": Ignore air",
        ]
    );
    assert_eq!(msg[0].color, Some(HelpColor::Yellow));
    assert!(msg[0].strikethrough);
    assert_eq!(msg[1].color, None);
    assert!(!msg[1].strikethrough);
    assert_eq!(msg[5].color, Some(HelpColor::Gold));
    assert_eq!(msg[msg.len() - 1].color, Some(HelpColor::Gray));
}

#[test]
fn help_without_arguments_or_flags() {
    let cmd = CommandHelp { name: "up".to_string(), description: "Go up".to_string(), arguments: vec![], flags: vec![] };
    let msg = help_message("up", &cmd);
    assert_eq!(msg.len(), 6);
    assert_eq!(msg[1].text, " Help for /up ");
}

#[test]
fn lookup_by_name_or_with_slash() {
    let cmds = vec![command("/stack"), command("up")];
    assert_eq!(lookup_help(&cmds, "up"), Some(("up".to_string(), 1)));
    assert_eq!(lookup_help(&cmds, "/stack"), Some(("/stack".to_string(), 0)));
    assert_eq!(lookup_help(&cmds, "stack"), Some(("/stack".to_string(), 0)));
    assert_eq!(lookup_help(&cmds, "foo"), None);
}

#[test]
fn command_table_keeps_one_command_per_name() {
    let mut table = CommandTable::new();
    table.insert(command("/stack"));
    table.insert(command("up"));
    let mut replacement = command("/stack");
    replacement.description = "Stack it again".to_string();
    table.insert(replacement);
    assert_eq!(table.commands().len(), 2);
    assert_eq!(table.commands()[0].description, "Stack it again");
    assert_eq!(table.commands()[1].name, "up");
    assert_eq!(table.help_for("stack"), Some(("/stack".to_string(), 0)));
    assert_eq!(table.help_for("up"), Some(("up".to_string(), 1)));
    assert_eq!(table.help_for("down"), None);
}
