use niri_dynamic_workspaces::naming::{
    is_workspace_char, parse_dynamic_name, parse_key_arg, parse_workspace_char,
    same_workspace_name, workspace_name, workspace_name_with_title,
};

#[test]
fn workspace_name_formats_correctly() {
    assert_eq!(workspace_name("dyn-", 'a'), "dyn-a");
    assert_eq!(workspace_name("ws-", '1'), "ws-1");
    assert_eq!(workspace_name("", 'z'), "z");
}

#[test]
fn parse_workspace_char_valid() {
    assert_eq!(parse_workspace_char("a"), Some('a'));
    assert_eq!(parse_workspace_char("0"), Some('0'));
    assert_eq!(parse_workspace_char("z"), Some('z'));
}

#[test]
fn parse_workspace_char_invalid() {
    assert_eq!(parse_workspace_char(""), None);
    assert_eq!(parse_workspace_char("ab"), None);
    assert_eq!(parse_workspace_char("A"), None);
    assert_eq!(parse_workspace_char("!"), None);
    assert_eq!(parse_workspace_char(","), None);
}

#[test]
fn is_workspace_char_variants() {
    assert!(is_workspace_char('a'));
    assert!(is_workspace_char('z'));
    assert!(is_workspace_char('0'));
    assert!(is_workspace_char('9'));
    assert!(!is_workspace_char('A'));
    assert!(!is_workspace_char('Z'));
    assert!(!is_workspace_char(' '));
    assert!(!is_workspace_char(','));
    assert!(!is_workspace_char('/'));
    assert!(!is_workspace_char('['));
    assert!(!is_workspace_char('!'));
    assert!(!is_workspace_char('@'));
    assert!(!is_workspace_char('å'));
    assert!(!is_workspace_char('ñ'));
}

#[test]
fn parse_dynamic_name_accepts_bare_and_titled() {
    assert_eq!(parse_dynamic_name("dyn-a", "dyn-"), Some(('a', None)));
    assert_eq!(parse_dynamic_name("dyn-7", "dyn-"), Some(('7', None)));
    assert_eq!(
        parse_dynamic_name("dyn-a My Project", "dyn-"),
        Some(('a', Some("My Project")))
    );
    assert_eq!(parse_dynamic_name("dyn-a ", "dyn-"), Some(('a', None)));
}

#[test]
fn parse_dynamic_name_rejects_lookalikes() {
    assert_eq!(parse_dynamic_name("dyn-alpha", "dyn-"), None);
    assert_eq!(parse_dynamic_name("dyn-A", "dyn-"), None);
    assert_eq!(parse_dynamic_name("dyn-", "dyn-"), None);
    assert_eq!(parse_dynamic_name("other-a", "dyn-"), None);
}

#[test]
fn workspace_name_with_title_no_title() {
    assert_eq!(workspace_name_with_title("dyn-", 'a', None), "dyn-a");
    assert_eq!(workspace_name_with_title("dyn-", 'a', Some("")), "dyn-a");
}

#[test]
fn workspace_name_with_title_with_title() {
    assert_eq!(
        workspace_name_with_title("dyn-", 'a', Some("My Project")),
        "dyn-a My Project"
    );
}

#[test]
fn titled_names_parse_back_to_key_and_title() {
    let name = workspace_name_with_title("ws-", 'q', Some("Mail and chat"));
    assert_eq!(parse_dynamic_name(&name, "ws-"), Some(('q', Some("Mail and chat"))));
    let bare = workspace_name("ws-", '3');
    assert_eq!(parse_dynamic_name(&bare, "ws-"), Some(('3', None)));
}

#[test]
fn same_workspace_name_ignores_ascii_case_only() {
    assert!(same_workspace_name("Mail", "mail"));
    assert!(same_workspace_name("dyn-A", "DYN-a"));
    assert!(!same_workspace_name("Ä", "ä"));
    assert!(!same_workspace_name("mail", "mails"));
}

#[test]
fn parse_key_arg_explains_bad_keys() {
    assert_eq!(parse_key_arg("k"), Ok('k'));
    assert_eq!(parse_key_arg("5"), Ok('5'));
    assert_eq!(
        parse_key_arg("Q"),
        Err("must be a single key, a-z or 0-9".to_string())
    );
    assert_eq!(
        parse_key_arg("ab"),
        Err("must be a single key, a-z or 0-9".to_string())
    );
}
