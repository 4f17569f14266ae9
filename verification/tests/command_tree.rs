//! Tests of the built-in command tree: path validation and the manual-page
//! lookup table.

use patched_src::commands::{
    all_builtin_commands, is_valid_builtin_command_path, lookup_command, CommandNode,
    ManPageLookup,
};

fn node(name: &str, aliases: &[&str], subcommands: Vec<CommandNode>) -> CommandNode {
    CommandNode {
        name: name.to_string(),
        aliases: aliases.iter().map(|a| a.to_string()).collect(),
        subcommands,
    }
}

fn builtins() -> Vec<CommandNode> {
    vec![
        node("build", &["b"], Vec::new()),
        node(
            "report",
            &[],
            vec![node("future-incompatibilities", &["future-incompat"], Vec::new())],
        ),
    ]
}

fn parts(names: &[&str]) -> Vec<String> {
    names.iter().map(|n| n.to_string()).collect()
}

#[test]
fn nested_command_paths_are_validated() {
    let b = builtins();
    assert!(is_valid_builtin_command_path(&b, &parts(&["build"])));
    assert!(is_valid_builtin_command_path(&b, &parts(&["report", "future-incompatibilities"])));
    // Deeper parts may name an alias of the subcommand.
    assert!(is_valid_builtin_command_path(&b, &parts(&["report", "future-incompat"])));
    // The first part matches primary names only.
    assert!(!is_valid_builtin_command_path(&b, &parts(&["b"])));
    assert!(!is_valid_builtin_command_path(&b, &parts(&["report", "absent"])));
    assert!(!is_valid_builtin_command_path(&b, &parts(&["absent"])));
    assert!(!is_valid_builtin_command_path(&b, &parts(&[])));
}

#[test]
fn lookup_table_holds_paths_and_alias_redirects() {
    let table = all_builtin_commands(&builtins());
    assert!(matches!(
        lookup_command(&table, "build"),
        Some(ManPageLookup::Direct)
    ));
    match lookup_command(&table, "b") {
        Some(ManPageLookup::RedirectTo { primary }) => assert_eq!(primary, "build"),
        _ => panic!("alias should redirect to its primary command"),
    }
    assert!(matches!(
        lookup_command(&table, "report-future-incompatibilities"),
        Some(ManPageLookup::Direct)
    ));
    match lookup_command(&table, "report-future-incompat") {
        Some(ManPageLookup::RedirectTo { primary }) => {
            assert_eq!(primary, "report-future-incompatibilities")
        },
        _ => panic!("nested alias should redirect to the dashed primary key"),
    }
    assert!(lookup_command(&table, "absent").is_none());
}
