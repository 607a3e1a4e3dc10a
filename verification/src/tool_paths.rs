//! Where the two external tools are found: the debug bridge and the
//! mirroring program.
//!
//! A path is either configured by the user, read back from what was saved,
//! found in the environment or left to the search path of the system. The
//! caller reads the environment and the saved file; what is kept and what
//! is launched is decided here.

use crate::text::{chars_of, is_blank, lemma_trim_empty_iff_blank, string_of, trim, trim_spec};
use vstd::prelude::*;
use vstd::string::StringExecFns;

verus! {

/// One of the two external tools.
#[derive(Clone, Copy, Debug, PartialEq, Eq, Structural)]
pub enum Tool {
    /// The debug bridge.
    Adb,
    /// The mirroring program.
    Scrcpy,
}

impl Tool {
    /// The name of the tool.
    pub open spec fn name_spec(self) -> Seq<char> {
        match self {
            Tool::Adb => "adb"@,
            Tool::Scrcpy => "scrcpy"@,
        }
    }

    /// The environment variable that may hold the path of the tool.
    pub open spec fn env_key_spec(self) -> Seq<char> {
        match self {
            Tool::Adb => "ADB_PATH"@,
            Tool::Scrcpy => "SCRCPY_PATH"@,
        }
    }

    /// The file name of the tool: its name, with `.exe` on Windows.
    pub open spec fn file_name_spec(self, windows: bool) -> Seq<char> {
        if windows {
            self.name_spec() + ".exe"@
        } else {
            self.name_spec()
        }
    }

    /// The name of the tool.
    pub fn name(self) -> (out: &'static str)
        ensures
            out@ == self.name_spec(),
    {
        match self {
            Tool::Adb => "adb",
            Tool::Scrcpy => "scrcpy",
        }
    }

    /// The environment variable that may hold the path of the tool.
    pub fn env_key(self) -> (out: &'static str)
        ensures
            out@ == self.env_key_spec(),
    {
        match self {
            Tool::Adb => "ADB_PATH",
            Tool::Scrcpy => "SCRCPY_PATH",
        }
    }

    /// The file name under which the tool is looked for.
    pub fn file_name(self, windows: bool) -> (out: String)
        ensures
            out@ == self.file_name_spec(windows),
    {
        let name = String::from_str(self.name());
        if windows {
            name.concat(".exe")
        } else {
            name
        }
    }
}

/// A path as it is kept: trimmed, and none where nothing but white space
/// was given.
pub open spec fn normalize_spec(path: Option<Seq<char>>) -> Option<Seq<char>> {
    match path {
        Some(p) => if trim_spec(p).len() > 0 {
            Some(trim_spec(p))
        } else {
            None
        },
        None => None,
    }
}

/// The view of an optional string.
pub open spec fn opt_view(s: Option<String>) -> Option<Seq<char>> {
    match s {
        Some(s) => Some(s@),
        None => None,
    }
}

/// The view of an optional string slice.
pub open spec fn opt_str_view(s: Option<&str>) -> Option<Seq<char>> {
    match s {
        Some(s) => Some(s@),
        None => None,
    }
}

/// Trims a path that the user or the environment has given, and drops it
/// where nothing is left.
pub fn normalize_path(path: Option<&str>) -> (out: Option<String>)
    ensures
        opt_view(out) == normalize_spec(opt_str_view(path)),
{
    match path {
        None => None,
        Some(p) => {
            let trimmed = trim(&chars_of(p));
            if trimmed.len() > 0 {
                Some(string_of(&trimmed))
            } else {
                None
            }
        },
    }
}

/// Whether `path` is given and holds more than white space.
pub open spec fn is_given(path: Option<Seq<char>>) -> bool {
    path is Some && !is_blank(path->0)
}

/// The program to launch for a tool: the configured path as it stands,
/// where one is given and is not blank, and else the file name of the tool,
/// which the system looks up.
pub open spec fn command_program_spec(
    tool: Tool,
    override_path: Option<Seq<char>>,
    windows: bool,
) -> Seq<char> {
    if is_given(override_path) {
        override_path->0
    } else {
        tool.file_name_spec(windows)
    }
}

/// Whether `s` holds nothing but white space.
pub fn is_blank_str(s: &str) -> (out: bool)
    ensures
        out == is_blank(s@),
{
    proof {
        lemma_trim_empty_iff_blank(s@);
    }
    trim(&chars_of(s)).len() == 0
}

/// The program to launch for a tool.
pub fn command_program(tool: Tool, override_path: Option<&str>, windows: bool) -> (out: String)
    ensures
        out@ == command_program_spec(tool, opt_str_view(override_path), windows),
{
    match override_path {
        Some(path) => {
            if !is_blank_str(path) {
                return String::from_str(path);
            }
        },
        None => {},
    }
    tool.file_name(windows)
}

/// The paths of the two tools, as far as they are known.
#[derive(Clone, Debug, PartialEq, Eq)]
pub struct ToolPaths {
    pub adb_path: Option<String>,
    pub scrcpy_path: Option<String>,
}

/// The tool paths as the contracts see them.
pub ghost struct ToolPathsView {
    pub adb_path: Option<Seq<char>>,
    pub scrcpy_path: Option<Seq<char>>,
}

impl ToolPathsView {
    /// The path of a tool.
    pub open spec fn get(self, tool: Tool) -> Option<Seq<char>> {
        match tool {
            Tool::Adb => self.adb_path,
            Tool::Scrcpy => self.scrcpy_path,
        }
    }

    /// The paths with that of `tool` replaced.
    pub open spec fn with(self, tool: Tool, path: Option<Seq<char>>) -> Self {
        match tool {
            Tool::Adb => ToolPathsView { adb_path: path, scrcpy_path: self.scrcpy_path },
            Tool::Scrcpy => ToolPathsView { adb_path: self.adb_path, scrcpy_path: path },
        }
    }

    /// The paths with that of `tool` filled in from `found`, where it was
    /// not known and `found` holds one.
    pub open spec fn filled(self, tool: Tool, found: Option<Seq<char>>) -> Self {
        if self.get(tool) is None && found is Some {
            self.with(tool, found)
        } else {
            self
        }
    }
}

impl View for ToolPaths {
    type V = ToolPathsView;

    open spec fn view(&self) -> ToolPathsView {
        ToolPathsView {
            adb_path: opt_view(self.adb_path),
            scrcpy_path: opt_view(self.scrcpy_path),
        }
    }
}

/// A copy of an optional string.
fn copy_of(s: &Option<String>) -> (out: Option<String>)
    ensures
        opt_view(out) == opt_view(*s),
{
    match s {
        Some(s) => Some(s.clone()),
        None => None,
    }
}

impl ToolPaths {
    /// No path is known.
    pub fn new() -> (out: Self)
        ensures
            out@ == (ToolPathsView { adb_path: None, scrcpy_path: None }),
    {
        ToolPaths { adb_path: None, scrcpy_path: None }
    }

    /// The path of `tool`, if it is known.
    pub fn get(&self, tool: Tool) -> (out: Option<String>)
        ensures
            opt_view(out) == self@.get(tool),
    {
        match tool {
            Tool::Adb => copy_of(&self.adb_path),
            Tool::Scrcpy => copy_of(&self.scrcpy_path),
        }
    }

    /// Whether the path of `tool` is not known yet, so that it is worth
    /// looking for it.
    pub fn is_missing(&self, tool: Tool) -> (out: bool)
        ensures
            out == (self@.get(tool) is None),
    {
        match tool {
            Tool::Adb => self.adb_path.is_none(),
            Tool::Scrcpy => self.scrcpy_path.is_none(),
        }
    }

    /// Configures the path of `tool` as the user gave it: trimmed, and
    /// unset where nothing but white space was given.
    pub fn set(&mut self, tool: Tool, path: Option<&str>)
        ensures
            final(self)@ == old(self)@.with(tool, normalize_spec(opt_str_view(path))),
    {
        let normalized = normalize_path(path);
        match tool {
            Tool::Adb => {
                self.adb_path = normalized;
            },
            Tool::Scrcpy => {
                self.scrcpy_path = normalized;
            },
        }
    }

    /// Takes `path` as the path of `tool`, as it stands. This is for a
    /// tool that has just been installed at that path.
    pub fn put(&mut self, tool: Tool, path: String)
        ensures
            final(self)@ == old(self)@.with(tool, Some(path@)),
    {
        match tool {
            Tool::Adb => {
                self.adb_path = Some(path);
            },
            Tool::Scrcpy => {
                self.scrcpy_path = Some(path);
            },
        }
    }

    /// Fills in the path of `tool` from `found`, where it is not known and
    /// `found` holds one, and returns the path that is then known. A path
    /// that is known already is kept.
    pub fn fill(&mut self, tool: Tool, found: Option<String>) -> (out: Option<String>)
        ensures
            final(self)@ == old(self)@.filled(tool, opt_view(found)),
            opt_view(out) == final(self)@.get(tool),
    {
        if self.is_missing(tool) && found.is_some() {
            match tool {
                Tool::Adb => {
                    self.adb_path = found;
                },
                Tool::Scrcpy => {
                    self.scrcpy_path = found;
                },
            }
        }
        self.get(tool)
    }

    /// Takes over the paths that were saved, each where none is known yet.
    pub fn adopt(&mut self, saved: ToolPaths)
        ensures
            final(self)@ == old(self)@.filled(Tool::Adb, saved@.adb_path).filled(
                Tool::Scrcpy,
                saved@.scrcpy_path,
            ),
    {
        if self.adb_path.is_none() && saved.adb_path.is_some() {
            self.adb_path = saved.adb_path;
        }
        if self.scrcpy_path.is_none() && saved.scrcpy_path.is_some() {
            self.scrcpy_path = saved.scrcpy_path;
        }
    }
}

/// What is needed to spawn the mirroring program for a session.
#[derive(Clone, Debug, PartialEq, Eq)]
pub struct LaunchSpec {
    /// The program to run.
    pub program: String,
    /// The value of the environment variable `ADB` for the program, where
    /// the path of the debug bridge is known.
    pub adb_env: Option<String>,
    /// The arguments of the program.
    pub args: Vec<String>,
}

/// The launch of the mirroring program: the configured program or its
/// file name; the path of the debug bridge in its environment, where one is
/// given and is not blank; and the arguments as they were passed.
pub fn launch_spec(paths: &ToolPaths, args: Vec<String>, windows: bool) -> (out: LaunchSpec)
    ensures
        out.program@ == command_program_spec(Tool::Scrcpy, paths@.scrcpy_path, windows),
        opt_view(out.adb_env) == if is_given(paths@.adb_path) {
            paths@.adb_path
        } else {
            None
        },
        out.args == args,
{
    let program = match &paths.scrcpy_path {
        Some(path) => command_program(Tool::Scrcpy, Some(path.as_str()), windows),
        None => command_program(Tool::Scrcpy, None, windows),
    };
    let adb_env = match &paths.adb_path {
        Some(path) => if !is_blank_str(path.as_str()) {
            Some(path.clone())
        } else {
            None
        },
        None => None,
    };
    LaunchSpec { program, adb_env, args }
}

} // verus!
