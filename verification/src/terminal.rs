//! Opening a terminal in which `adb` stands for the debug bridge of one
//! device: the commands to run on each platform.
//!
//! The caller looks for the programs and spawns them; what is run, and
//! with which arguments, is decided here.

use crate::escape::{
    escape_applescript, escape_applescript_spec, escape_shell_single, escape_shell_single_spec,
};
use crate::text::{chars_of, is_word, string_of, trim, trim_spec};
use vstd::prelude::*;
use vstd::string::StringExecFns;

verus! {

/// A program and its arguments.
#[derive(Clone, Debug, PartialEq, Eq)]
pub struct TerminalCommand {
    pub program: String,
    pub args: Vec<String>,
}

/// Why no terminal was opened.
#[derive(Clone, Copy, Debug, PartialEq, Eq, Structural)]
pub enum TerminalError {
    /// The device identifier holds nothing but white space.
    EmptyDeviceId,
    /// None of the known terminal emulators could be started.
    NoTerminalFound,
}

impl TerminalError {
    /// The message for the user.
    pub open spec fn message_spec(self) -> Seq<char> {
        match self {
            TerminalError::EmptyDeviceId => "Device ID is empty"@,
            TerminalError::NoTerminalFound => "No supported terminal emulator found"@,
        }
    }

    /// The message for the user.
    pub fn message(self) -> (out: &'static str)
        ensures
            out@ == self.message_spec(),
    {
        match self {
            TerminalError::EmptyDeviceId => "Device ID is empty",
            TerminalError::NoTerminalFound => "No supported terminal emulator found",
        }
    }
}

/// The device identifier that a terminal is opened for: the given one
/// without white space around it. One that holds nothing else is refused.
pub fn terminal_device_id(device_id: &str) -> (out: Result<String, TerminalError>)
    ensures
        match out {
            Ok(id) => id@ == trim_spec(device_id@) && id@.len() > 0,
            Err(error) => error == TerminalError::EmptyDeviceId && trim_spec(device_id@).len()
                == 0,
        },
{
    let trimmed = trim(&chars_of(device_id));
    if trimmed.len() == 0 {
        Err(TerminalError::EmptyDeviceId)
    } else {
        Ok(string_of(&trimmed))
    }
}

/// What the command prompt of Windows is told: to name its window after
/// the device and to let `adb` address the device.
pub open spec fn windows_command_spec(device_id: Seq<char>) -> Seq<char> {
    "title "@ + device_id + " & doskey adb=adb -s "@ + device_id + " $*"@
}

/// What a shell is told on macOS, in one line: to name its window after
/// the device, to let `adb` address the device, and to say so. The device
/// identifier stands in single quotes and is escaped for them.
pub open spec fn macos_command_spec(device_id: Seq<char>) -> Seq<char> {
    let id = escape_shell_single_spec(device_id);
    "printf '\\033]0;"@ + id + "\\007'; alias adb='adb -s "@ + id + "'; echo 'adb => adb -s "@
        + id + "'"@
}

/// The script that makes the terminal of macOS run the command.
pub open spec fn macos_script_spec(device_id: Seq<char>) -> Seq<char> {
    "tell application \"Terminal\" to do script \""@ + escape_applescript_spec(
        macos_command_spec(device_id),
    ) + "\""@
}

/// The start-up file of the shell that a terminal on Linux runs: the same
/// three commands, one on each line.
pub open spec fn shell_rc_spec(device_id: Seq<char>) -> Seq<char> {
    let id = escape_shell_single_spec(device_id);
    "printf '\\033]0;"@ + id + "\\007'\nalias adb='adb -s "@ + id + "'\necho 'adb => adb -s "@
        + id + "'\n"@
}

/// The views of the strings of `v`.
pub open spec fn texts(v: Seq<&str>) -> Seq<Seq<char>> {
    Seq::new(v.len(), |i: int| v[i]@)
}

/// Copies of the string slices of `parts`.
fn owned_all(parts: &[&str]) -> (out: Vec<String>)
    ensures
        out.deep_view() == texts(parts@),
{
    let mut out: Vec<String> = Vec::new();
    let mut i: usize = 0;
    while i < parts.len()
        invariant
            i <= parts.len(),
            out.deep_view() == texts(parts@).take(i as int),
        decreases parts.len() - i,
    {
        let ghost before = out.deep_view();
        out.push(String::from_str(parts[i]));
        assert(out.deep_view() =~= before.push(parts@[i as int]@));
        assert(texts(parts@).take(i + 1) =~= texts(parts@).take(i as int).push(
            parts@[i as int]@,
        ));
        i += 1;
    }
    assert(texts(parts@).take(parts.len() as int) =~= texts(parts@));
    out
}

/// The command that opens a terminal for the device on Windows.
pub fn windows_terminal(device_id: &str) -> (out: TerminalCommand)
    ensures
        out.program@ == "cmd"@,
        out.args.deep_view() == seq![
            "/c"@,
            "start"@,
            ""@,
            "cmd"@,
            "/k"@,
            windows_command_spec(device_id@),
        ],
{
    let command = String::from_str("title ").concat(device_id).concat(
        " & doskey adb=adb -s ",
    ).concat(device_id).concat(" $*");
    let parts = ["/c", "start", "", "cmd", "/k", command.as_str()];
    let args = owned_all(&parts);
    assert(args.deep_view() =~= seq![
        "/c"@,
        "start"@,
        ""@,
        "cmd"@,
        "/k"@,
        windows_command_spec(device_id@),
    ]);
    TerminalCommand { program: String::from_str("cmd"), args }
}

/// The command that opens a terminal for the device on macOS.
pub fn macos_terminal(device_id: &str) -> (out: TerminalCommand)
    ensures
        out.program@ == "osascript"@,
        out.args.deep_view() == seq!["-e"@, macos_script_spec(device_id@)],
{
    let id = escape_shell_single(device_id);
    let command = String::from_str("printf '\\033]0;").concat(id.as_str()).concat(
        "\\007'; alias adb='adb -s ",
    ).concat(id.as_str()).concat("'; echo 'adb => adb -s ").concat(id.as_str()).concat("'");
    let escaped = escape_applescript(command.as_str());
    let script = String::from_str("tell application \"Terminal\" to do script \"").concat(
        escaped.as_str(),
    ).concat("\"");
    let parts = ["-e", script.as_str()];
    let args = owned_all(&parts);
    assert(args.deep_view() =~= seq!["-e"@, macos_script_spec(device_id@)]);
    TerminalCommand { program: String::from_str("osascript"), args }
}

/// The start-up file of the shell that a terminal on Linux runs for the
/// device.
pub fn shell_rc_content(device_id: &str) -> (out: String)
    ensures
        out@ == shell_rc_spec(device_id@),
{
    let id = escape_shell_single(device_id);
    String::from_str("printf '\\033]0;").concat(id.as_str()).concat(
        "\\007'\nalias adb='adb -s ",
    ).concat(id.as_str()).concat("'\necho 'adb => adb -s ").concat(id.as_str()).concat("'\n")
}

/// The terminal emulators that are tried on Linux, in this order.
pub open spec fn linux_terminals_spec() -> Seq<Seq<char>> {
    seq![
        "x-terminal-emulator"@,
        "gnome-terminal"@,
        "konsole"@,
        "xfce4-terminal"@,
        "mate-terminal"@,
        "lxterminal"@,
        "xterm"@,
        "alacritty"@,
        "kitty"@,
        "tilix"@,
    ]
}

/// The terminal emulators that are tried on Linux, in this order.
pub fn linux_terminals() -> (out: Vec<String>)
    ensures
        out.deep_view() == linux_terminals_spec(),
{
    let parts = [
        "x-terminal-emulator",
        "gnome-terminal",
        "konsole",
        "xfce4-terminal",
        "mate-terminal",
        "lxterminal",
        "xterm",
        "alacritty",
        "kitty",
        "tilix",
    ];
    let out = owned_all(&parts);
    assert(out.deep_view() =~= linux_terminals_spec());
    out
}

/// The shell with its start-up file, as one argument.
pub open spec fn shell_line_spec(bash: Seq<char>, rc_path: Seq<char>) -> Seq<char> {
    bash + " --rcfile "@ + rc_path + " -i"@
}

/// Whether a terminal emulator takes the command after `-e` as one
/// argument.
pub open spec fn takes_one_argument(terminal: Seq<char>) -> bool {
    terminal == "xfce4-terminal"@ || terminal == "mate-terminal"@ || terminal == "lxterminal"@
        || terminal == "tilix"@
}

/// The arguments with which a terminal emulator runs an interactive shell
/// with the start-up file: after `--` for `gnome-terminal`, after `-e` as
/// one argument for those that want it so, and after `-e` as separate
/// arguments for the others.
pub open spec fn linux_args_spec(
    terminal: Seq<char>,
    bash: Seq<char>,
    rc_path: Seq<char>,
) -> Seq<Seq<char>> {
    if terminal == "gnome-terminal"@ {
        seq!["--"@, bash, "--rcfile"@, rc_path, "-i"@]
    } else if takes_one_argument(terminal) {
        seq!["-e"@, shell_line_spec(bash, rc_path)]
    } else {
        seq!["-e"@, bash, "--rcfile"@, rc_path, "-i"@]
    }
}

/// The command that runs an interactive shell with the start-up file
/// `rc_path` in the terminal emulator `terminal`.
pub fn linux_terminal(terminal: &str, bash: &str, rc_path: &str) -> (out: TerminalCommand)
    ensures
        out.program@ == terminal@,
        out.args.deep_view() == linux_args_spec(terminal@, bash@, rc_path@),
{
    let name = chars_of(terminal);
    let args = if is_word(&name, "gnome-terminal") {
        let parts = ["--", bash, "--rcfile", rc_path, "-i"];
        let args = owned_all(&parts);
        assert(args.deep_view() =~= seq!["--"@, bash@, "--rcfile"@, rc_path@, "-i"@]);
        args
    } else if is_word(&name, "xfce4-terminal") || is_word(&name, "mate-terminal") || is_word(
        &name,
        "lxterminal",
    ) || is_word(&name, "tilix") {
        let line = String::from_str(bash).concat(" --rcfile ").concat(rc_path).concat(" -i");
        let parts = ["-e", line.as_str()];
        let args = owned_all(&parts);
        assert(args.deep_view() =~= seq!["-e"@, shell_line_spec(bash@, rc_path@)]);
        args
    } else {
        let parts = ["-e", bash, "--rcfile", rc_path, "-i"];
        let args = owned_all(&parts);
        assert(args.deep_view() =~= seq!["-e"@, bash@, "--rcfile"@, rc_path@, "-i"@]);
        args
    };
    TerminalCommand { program: String::from_str(terminal), args }
}

/// The character of a decimal digit.
pub open spec fn digit_char(d: int) -> char {
    if d == 0 {
        '0'
    } else if d == 1 {
        '1'
    } else if d == 2 {
        '2'
    } else if d == 3 {
        '3'
    } else if d == 4 {
        '4'
    } else if d == 5 {
        '5'
    } else if d == 6 {
        '6'
    } else if d == 7 {
        '7'
    } else if d == 8 {
        '8'
    } else {
        '9'
    }
}

/// The decimal numeral of `n`.
pub open spec fn decimal_spec(n: nat) -> Seq<char>
    decreases n,
{
    if n < 10 {
        seq![digit_char(n as int)]
    } else {
        decimal_spec(n / 10).push(digit_char((n % 10) as int))
    }
}

/// The character of a decimal digit.
fn digit(d: u128) -> (out: char)
    requires
        d < 10,
    ensures
        out == digit_char(d as int),
{
    if d == 0 {
        '0'
    } else if d == 1 {
        '1'
    } else if d == 2 {
        '2'
    } else if d == 3 {
        '3'
    } else if d == 4 {
        '4'
    } else if d == 5 {
        '5'
    } else if d == 6 {
        '6'
    } else if d == 7 {
        '7'
    } else if d == 8 {
        '8'
    } else {
        '9'
    }
}

/// The decimal numeral of `n`.
pub fn decimal(n: u128) -> (out: String)
    ensures
        out@ == decimal_spec(n as nat),
{
    let mut low: Vec<char> = Vec::new();
    let mut rest: u128 = n;
    while rest >= 10
        invariant
            decimal_spec(n as nat) == decimal_spec(rest as nat) + low@.reverse(),
        decreases rest,
    {
        let ghost before = low@;
        low.push(digit(rest % 10));
        proof {
            assert(low@.reverse() =~= seq![digit_char((rest % 10) as int)] + before.reverse());
            assert(decimal_spec(rest as nat) =~= decimal_spec((rest / 10) as nat) + seq![
                digit_char((rest % 10) as int),
            ]);
        }
        rest = rest / 10;
    }
    let ghost before = low@;
    low.push(digit(rest));
    proof {
        assert(low@.reverse() =~= seq![digit_char(rest as int)] + before.reverse());
    }
    let mut out: Vec<char> = Vec::new();
    let mut i: usize = low.len();
    while i > 0
        invariant
            i <= low.len(),
            out@ == low@.reverse().take(low.len() - i),
        decreases i,
    {
        i -= 1;
        out.push(low[i]);
        proof {
            assert(low@.reverse()[low.len() - i - 1] == low@[i as int]);
        }
    }
    proof {
        assert(low@.reverse().take(low.len() as int) =~= low@.reverse());
    }
    string_of(&out)
}

/// The name of the start-up file that is written for a terminal on Linux;
/// `stamp` tells the files of different moments apart.
pub open spec fn rc_file_name_spec(stamp: nat) -> Seq<char> {
    "scrcpy-gui-adb-"@ + decimal_spec(stamp) + ".rc"@
}

/// The name of the start-up file that is written for a terminal on Linux.
pub fn rc_file_name(stamp: u128) -> (out: String)
    ensures
        out@ == rc_file_name_spec(stamp as nat),
{
    let number = decimal(stamp);
    String::from_str("scrcpy-gui-adb-").concat(number.as_str()).concat(".rc")
}

} // verus!
