use sven::export::{escape_value_for_shell, format_export};

#[test]
fn fish_escapes_only_the_dollar_sign() {
    assert_eq!(escape_value_for_shell("a$b", "fish"), "a\\$b");
    assert_eq!(escape_value_for_shell("a\\b`c\"d", "fish"), "a\\b`c\"d");
}

#[test]
fn bash_family_escapes_backslash_dollar_backtick_and_quote() {
    assert_eq!(escape_value_for_shell("a\\b", "bash"), "a\\\\b");
    assert_eq!(escape_value_for_shell("a$b`c\"d", "sh"), "a\\$b\\`c\\\"d");
    assert_eq!(escape_value_for_shell("plain", "zsh"), "plain");
}

#[test]
fn csh_family_escapes_dollar_bang_and_quote() {
    assert_eq!(escape_value_for_shell("a$b!c\"d", "csh"), "a\\$b\\!c\\\"d");
    assert_eq!(escape_value_for_shell("a\\b", "tcsh"), "a\\b");
}

#[test]
fn unknown_shells_use_bash_style() {
    assert_eq!(escape_value_for_shell("a$b", "powershell"), "a\\$b");
    assert_eq!(
        format_export("FOO", "bar", "powershell"),
        "export FOO=\"bar\""
    );
}

#[test]
fn export_lines_per_shell() {
    assert_eq!(format_export("FOO", "a$b", "fish"), "set -gx FOO \"a\\$b\"");
    assert_eq!(format_export("FOO", "bar", "bash"), "export FOO=\"bar\"");
    assert_eq!(format_export("FOO", "bar", "sh"), "export FOO=\"bar\"");
    assert_eq!(format_export("FOO", "bar", "zsh"), "export FOO=\"bar\"");
    assert_eq!(format_export("FOO", "bar", "csh"), "setenv FOO \"bar\"");
    assert_eq!(format_export("FOO", "b\"r", "tcsh"), "setenv FOO \"b\\\"r\"");
}
