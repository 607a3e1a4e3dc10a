use scrcpy_gui::escape::{escape_applescript, escape_shell_single};

#[test]
fn shell_single_leaves_plain_text_alone() {
    assert_eq!(escape_shell_single("emulator-5554"), "emulator-5554");
    assert_eq!(escape_shell_single(""), "");
}

#[test]
fn shell_single_closes_and_reopens_the_quote() {
    assert_eq!(escape_shell_single("a'b"), "a'\\''b");
    assert_eq!(escape_shell_single("''"), "'\\'''\\''");
    assert_eq!(escape_shell_single("it's"), "it's".replace('\'', "'\\''"));
}

#[test]
fn applescript_doubles_backslashes_and_escapes_quotes() {
    assert_eq!(escape_applescript("a\\b"), "a\\\\b");
    assert_eq!(escape_applescript("say \"hi\""), "say \\\"hi\\\"");
    assert_eq!(escape_applescript("\\\""), "\\\\\\\"");
    assert_eq!(escape_applescript("plain"), "plain");
}

#[test]
fn applescript_agrees_with_two_replacements() {
    let inputs = ["", "\\", "\"", "\\\"\\", "printf '\\033]0;x\\007'; echo \"y\"", "é\\ü\""];
    for input in inputs {
        let expected = input.replace('\\', "\\\\").replace('\"', "\\\"");
        assert_eq!(escape_applescript(input), expected);
    }
}
