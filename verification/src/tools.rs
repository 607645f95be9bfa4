//! The six built-in tools: what the model is told about them, how their arguments are
//! read, and what each reports. Every relative path is taken from the working
//! directory the tool was made for.
use vstd::prelude::*;

use crate::context::ToolDefinition;
use crate::error::Error;
use crate::json::{field, str_field, string_field, u64_of, JsonValue};
use crate::text::{
    chars_of, concat, count_matches, decimal, decimal_string, find, join, join_path, joined_with,
    lines_of, match_count, path_join, replace_first, spec_lines, string_from_range, texts,
};
use crate::tool::{RiskLevel, ToolOutput};

verus! {

/// `path` taken from `workdir`: an absolute path stays as it is, a relative one is
/// joined to the working directory.
pub fn resolve(workdir: &str, path: &str) -> (p: String)
    ensures
        p@ == path_join(workdir@, path@),
{
    join_path(workdir, path)
}

/// The error for an argument `key` that is missing or not a string.
pub open spec fn missing_message(key: Seq<char>) -> Seq<char> {
    "missing '"@ + key + "' field"@
}

/// The string argument `key`, or the error that it is missing.
pub fn required_str(args: &JsonValue, key: &str) -> (r: Result<String, Error>)
    ensures
        match str_field(*args, key@) {
            Some(s) => r matches Ok(v) && v@ == s,
            None => r matches Err(Error::Tool(m)) && m@ == missing_message(key@),
        },
{
    match string_field(args, key) {
        Some(s) => Ok(s),
        None => {
            let mut m = concat("missing '", key);
            m.append("' field");
            Err(Error::Tool(m))
        },
    }
}

/// The definition the model is given for a tool.
fn definition(name: &str, description: &str, schema: &str) -> (d: ToolDefinition)
    ensures
        d.name@ == name@,
        d.description@ == description@,
        d.parameters@ == schema@,
{
    ToolDefinition {
        name: name.to_owned(),
        description: description.to_owned(),
        parameters: schema.to_owned(),
    }
}

/// How long a command may run when the call names no timeout, in milliseconds.
pub const DEFAULT_TIMEOUT_MS: u64 = 120000;

/// Runs shell commands in the working directory.
#[derive(Debug, Clone, PartialEq, Eq)]
pub struct ShellTool {
    pub workdir: String,
}

/// What a shell call asks for: the command and how long it may run.
#[derive(Debug, Clone, PartialEq, Eq)]
pub struct ShellRequest {
    pub command: String,
    pub timeout_ms: u64,
}

/// The error for a timeout that is not a positive integer.
pub open spec fn bad_timeout_message() -> Seq<char> {
    "'timeout' must be a positive integer in milliseconds"@
}

/// The text of a signed number in decimal.
pub open spec fn signed_decimal(n: i32) -> Seq<char> {
    if n < 0 {
        seq!['-'] + decimal((-n) as nat)
    } else {
        decimal(n as nat)
    }
}

/// A signed number in decimal.
fn signed_decimal_string(n: i32) -> (s: String)
    ensures
        s@ == signed_decimal(n),
{
    if n < 0 {
        let magnitude: u64 = (0i64 - (n as i64)) as u64;
        proof {
            reveal_strlit("-");
            assert("-"@ =~= seq!['-']);
        }
        concat("-", decimal_string(magnitude).as_str())
    } else {
        decimal_string(n as u64)
    }
}

/// What a failed command reports: its exit code (or `unknown` when a signal ended it)
/// and what it wrote to standard error.
pub open spec fn exit_message(exit_code: Option<i32>, stderr: Seq<char>) -> Seq<char> {
    "exit code "@ + match exit_code {
        Some(c) => signed_decimal(c),
        None => "unknown"@,
    } + ": "@ + stderr
}

impl ShellTool {
    /// A shell tool that runs commands in `workdir`.
    pub fn new(workdir: &str) -> (t: ShellTool)
        ensures
            t.workdir@ == workdir@,
    {
        ShellTool { workdir: workdir.to_owned() }
    }

    /// The tool's name, description and argument schema.
    pub fn definition(&self) -> (d: ToolDefinition)
        ensures
            d.name@ == "shell"@,
            d.description@ == "Execute a shell command and return its output."@,
            d.parameters@ == "{\"properties\":{\"command\":{\"description\":\"The shell command to execute.\",\"type\":\"string\"},\"timeout\":{\"default\":120000,\"description\":\"Timeout in milliseconds. Defaults to 120000 (120 seconds).\",\"minimum\":1,\"type\":\"integer\"}},\"required\":[\"command\"],\"type\":\"object\"}"@,
    {
        definition(
            "shell",
            "Execute a shell command and return its output.",
            "{\"properties\":{\"command\":{\"description\":\"The shell command to execute.\",\"type\":\"string\"},\"timeout\":{\"default\":120000,\"description\":\"Timeout in milliseconds. Defaults to 120000 (120 seconds).\",\"minimum\":1,\"type\":\"integer\"}},\"required\":[\"command\"],\"type\":\"object\"}",
        )
    }

    /// Commands can do anything.
    pub fn risk_level(&self) -> (r: RiskLevel)
        ensures
            r == RiskLevel::High,
    {
        RiskLevel::High
    }

    /// The command and timeout a call asks for. The command is required; a timeout,
    /// when given, must be a positive integer of milliseconds; without one the
    /// command may run two minutes.
    pub fn request(&self, args: &JsonValue) -> (r: Result<ShellRequest, Error>)
        ensures
            match str_field(*args, "command"@) {
                None => r matches Err(Error::Tool(m)) && m@ == missing_message("command"@),
                Some(c) => match field(*args, "timeout"@) {
                    None => r matches Ok(q) && q.command@ == c && q.timeout_ms == DEFAULT_TIMEOUT_MS,
                    Some(t) => match u64_of(Some(t)) {
                        Some(n) if n > 0 => r matches Ok(q) && q.command@ == c && q.timeout_ms == n,
                        _ => r matches Err(Error::Tool(m)) && m@ == bad_timeout_message(),
                    },
                },
            },
    {
        let command = match required_str(args, "command") {
            Ok(c) => c,
            Err(e) => {
                return Err(e);
            },
        };
        let timeout_ms = match args.get("timeout") {
            None => DEFAULT_TIMEOUT_MS,
            Some(t) => match t.as_u64() {
                Some(n) => if n > 0 {
                    n
                } else {
                    return Err(
                        Error::Tool(
                            String::from_str("'timeout' must be a positive integer in milliseconds"),
                        ),
                    );
                },
                None => {
                    return Err(
                        Error::Tool(
                            String::from_str("'timeout' must be a positive integer in milliseconds"),
                        ),
                    );
                },
            },
        };
        Ok(ShellRequest { command, timeout_ms })
    }

    /// What a finished command reports: its standard output when it succeeded, and
    /// otherwise an error with its exit code and standard error.
    pub fn outcome(success: bool, exit_code: Option<i32>, stdout: String, stderr: &str) -> (o:
        ToolOutput)
        ensures
            success ==> o == ToolOutput::Text(stdout),
            !success ==> (o matches ToolOutput::Error(m) && m@ == exit_message(exit_code, stderr@)),
    {
        if success {
            ToolOutput::Text(stdout)
        } else {
            let code = match exit_code {
                Some(c) => signed_decimal_string(c),
                None => String::from_str("unknown"),
            };
            let mut m = concat("exit code ", code.as_str());
            m.append(": ");
            m.append(stderr);
            ToolOutput::Error(m)
        }
    }

    /// The error for a command that ran longer than `timeout_ms` milliseconds.
    pub fn timed_out(timeout_ms: u64) -> (e: Error)
        ensures
            e matches Error::Tool(m) && m@ == "command timed out after "@ + decimal(
                timeout_ms as nat,
            ) + "ms"@,
    {
        let mut m = concat("command timed out after ", decimal_string(timeout_ms).as_str());
        m.append("ms");
        Error::Tool(m)
    }

    /// The error for a command that could not be started.
    pub fn failed_to_start(reason: &str) -> (e: Error)
        ensures
            e matches Error::Tool(m) && m@ == "failed to execute command: "@ + reason@,
    {
        Error::Tool(concat("failed to execute command: ", reason))
    }
}

/// The error for a file that could not be read.
pub open spec fn read_failure(path: Seq<char>, reason: Seq<char>) -> Seq<char> {
    "failed to read file '"@ + path + "': "@ + reason
}

/// The error for a file that could not be written.
pub open spec fn write_failure(path: Seq<char>, reason: Seq<char>) -> Seq<char> {
    "failed to write file '"@ + path + "': "@ + reason
}

/// `"{prefix}{path}': {reason}"` as an error.
fn file_error(prefix: &str, path: &str, reason: &str) -> (e: Error)
    ensures
        e matches Error::Tool(m) && m@ == prefix@ + path@ + "': "@ + reason@,
{
    let mut m = concat(prefix, path);
    m.append("': ");
    m.append(reason);
    Error::Tool(m)
}

/// A path argument: as the call wrote it, and taken from the working directory.
#[derive(Debug, Clone, PartialEq, Eq)]
pub struct PathArg {
    pub given: String,
    pub resolved: String,
}

/// The path argument `key`, or the error that it is missing.
fn path_arg(workdir: &String, args: &JsonValue, key: &str) -> (r: Result<PathArg, Error>)
    ensures
        match str_field(*args, key@) {
            Some(p) => r matches Ok(a) && a.given@ == p && a.resolved@ == path_join(workdir@, p),
            None => r matches Err(Error::Tool(m)) && m@ == missing_message(key@),
        },
{
    match required_str(args, key) {
        Ok(given) => {
            let resolved = resolve(workdir.as_str(), given.as_str());
            Ok(PathArg { given, resolved })
        },
        Err(e) => Err(e),
    }
}

/// Reads files.
#[derive(Debug, Clone, PartialEq, Eq)]
pub struct ReadFileTool {
    pub workdir: String,
}

impl ReadFileTool {
    /// A reader of files under `workdir`.
    pub fn new(workdir: &str) -> (t: ReadFileTool)
        ensures
            t.workdir@ == workdir@,
    {
        ReadFileTool { workdir: workdir.to_owned() }
    }

    /// The tool's name, description and argument schema.
    pub fn definition(&self) -> (d: ToolDefinition)
        ensures
            d.name@ == "read_file"@,
            d.description@ == "Read the contents of a file at the given path."@,
            d.parameters@ == "{\"properties\":{\"path\":{\"description\":\"Path to the file to read.\",\"type\":\"string\"}},\"required\":[\"path\"],\"type\":\"object\"}"@,
    {
        definition(
            "read_file",
            "Read the contents of a file at the given path.",
            "{\"properties\":{\"path\":{\"description\":\"Path to the file to read.\",\"type\":\"string\"}},\"required\":[\"path\"],\"type\":\"object\"}",
        )
    }

    /// Reading changes nothing.
    pub fn risk_level(&self) -> (r: RiskLevel)
        ensures
            r == RiskLevel::Low,
    {
        RiskLevel::Low
    }

    /// The file a call asks for.
    pub fn request(&self, args: &JsonValue) -> (r: Result<PathArg, Error>)
        ensures
            match str_field(*args, "path"@) {
                Some(p) => r matches Ok(a) && a.given@ == p && a.resolved@ == path_join(
                    self.workdir@,
                    p,
                ),
                None => r matches Err(Error::Tool(m)) && m@ == missing_message("path"@),
            },
    {
        path_arg(&self.workdir, args, "path")
    }

    /// What the call reports, given what reading the file gave: its text, or an error
    /// naming the path.
    pub fn outcome(file: &PathArg, read: Result<String, String>) -> (r: Result<ToolOutput, Error>)
        ensures
            read matches Ok(text) ==> (r matches Ok(ToolOutput::Text(t)) && t == text),
            read matches Err(e) ==> (r matches Err(Error::Tool(m)) && m@ == read_failure(
                file.given@,
                e@,
            )),
    {
        match read {
            Ok(text) => Ok(ToolOutput::Text(text)),
            Err(e) => Err(file_error("failed to read file '", file.given.as_str(), e.as_str())),
        }
    }
}

/// Writes files, making their directories first.
#[derive(Debug, Clone, PartialEq, Eq)]
pub struct WriteFileTool {
    pub workdir: String,
}

/// What a write call asks for: the file and its new content.
#[derive(Debug, Clone, PartialEq, Eq)]
pub struct WriteRequest {
    pub path: PathArg,
    pub content: String,
}

impl WriteFileTool {
    /// A writer of files under `workdir`.
    pub fn new(workdir: &str) -> (t: WriteFileTool)
        ensures
            t.workdir@ == workdir@,
    {
        WriteFileTool { workdir: workdir.to_owned() }
    }

    /// The tool's name, description and argument schema.
    pub fn definition(&self) -> (d: ToolDefinition)
        ensures
            d.name@ == "write_file"@,
            d.description@ == "Write content to a file at the given path, creating parent directories if needed."@,
            d.parameters@ == "{\"properties\":{\"content\":{\"description\":\"Content to write to the file.\",\"type\":\"string\"},\"path\":{\"description\":\"Path to the file to write.\",\"type\":\"string\"}},\"required\":[\"path\",\"content\"],\"type\":\"object\"}"@,
    {
        definition(
            "write_file",
            "Write content to a file at the given path, creating parent directories if needed.",
            "{\"properties\":{\"content\":{\"description\":\"Content to write to the file.\",\"type\":\"string\"},\"path\":{\"description\":\"Path to the file to write.\",\"type\":\"string\"}},\"required\":[\"path\",\"content\"],\"type\":\"object\"}",
        )
    }

    /// Writing changes files.
    pub fn risk_level(&self) -> (r: RiskLevel)
        ensures
            r == RiskLevel::Medium,
    {
        RiskLevel::Medium
    }

    /// The file and content a call asks for.
    pub fn request(&self, args: &JsonValue) -> (r: Result<WriteRequest, Error>)
        ensures
            match (str_field(*args, "path"@), str_field(*args, "content"@)) {
                (None, _) => r matches Err(Error::Tool(m)) && m@ == missing_message("path"@),
                (Some(_), None) => r matches Err(Error::Tool(m)) && m@ == missing_message(
                    "content"@,
                ),
                (Some(p), Some(c)) => r matches Ok(q) && q.path.given@ == p && q.path.resolved@
                    == path_join(self.workdir@, p) && q.content@ == c,
            },
    {
        let path = match path_arg(&self.workdir, args, "path") {
            Ok(p) => p,
            Err(e) => {
                return Err(e);
            },
        };
        let content = match required_str(args, "content") {
            Ok(c) => c,
            Err(e) => {
                return Err(e);
            },
        };
        Ok(WriteRequest { path, content })
    }

    /// The error for directories that could not be made.
    pub fn directories_failed(reason: &str) -> (e: Error)
        ensures
            e matches Error::Tool(m) && m@ == "failed to create directories: "@ + reason@,
    {
        Error::Tool(concat("failed to create directories: ", reason))
    }

    /// What the call reports, given what writing gave.
    pub fn outcome(file: &PathArg, written: Result<(), String>) -> (r: Result<ToolOutput, Error>)
        ensures
            written is Ok ==> (r matches Ok(ToolOutput::Text(t)) && t@ == "Written to "@
                + file.given@),
            written matches Err(e) ==> (r matches Err(Error::Tool(m)) && m@ == write_failure(
                file.given@,
                e@,
            )),
    {
        match written {
            Ok(()) => Ok(ToolOutput::Text(concat("Written to ", file.given.as_str()))),
            Err(e) => Err(file_error("failed to write file '", file.given.as_str(), e.as_str())),
        }
    }
}

/// Finds files by glob pattern.
#[derive(Debug, Clone, PartialEq, Eq)]
pub struct GlobTool {
    pub workdir: String,
}

impl GlobTool {
    /// A finder of files under `workdir`.
    pub fn new(workdir: &str) -> (t: GlobTool)
        ensures
            t.workdir@ == workdir@,
    {
        GlobTool { workdir: workdir.to_owned() }
    }

    /// The tool's name, description and argument schema.
    pub fn definition(&self) -> (d: ToolDefinition)
        ensures
            d.name@ == "glob"@,
            d.description@ == "Find files matching a glob pattern. Returns newline-separated paths."@,
            d.parameters@ == "{\"properties\":{\"pattern\":{\"description\":\"Glob pattern to match files against.\",\"type\":\"string\"}},\"required\":[\"pattern\"],\"type\":\"object\"}"@,
    {
        definition(
            "glob",
            "Find files matching a glob pattern. Returns newline-separated paths.",
            "{\"properties\":{\"pattern\":{\"description\":\"Glob pattern to match files against.\",\"type\":\"string\"}},\"required\":[\"pattern\"],\"type\":\"object\"}",
        )
    }

    /// Finding files changes nothing.
    pub fn risk_level(&self) -> (r: RiskLevel)
        ensures
            r == RiskLevel::Low,
    {
        RiskLevel::Low
    }

    /// The pattern a call asks for, taken from the working directory.
    pub fn request(&self, args: &JsonValue) -> (r: Result<String, Error>)
        ensures
            match str_field(*args, "pattern"@) {
                Some(p) => r matches Ok(q) && q@ == path_join(self.workdir@, p),
                None => r matches Err(Error::Tool(m)) && m@ == missing_message("pattern"@),
            },
    {
        match required_str(args, "pattern") {
            Ok(p) => Ok(resolve(self.workdir.as_str(), p.as_str())),
            Err(e) => Err(e),
        }
    }

    /// What the call reports, given the matching paths or why the pattern is invalid:
    /// the paths one per line.
    pub fn outcome(found: Result<Vec<String>, String>) -> (r: Result<ToolOutput, Error>)
        ensures
            match found {
                Ok(paths) => r matches Ok(ToolOutput::Text(t)) && t@ == joined_with(
                    texts(paths@),
                    "\n"@,
                ),
                Err(e) => r matches Err(Error::Tool(m)) && m@ == "invalid glob pattern: "@ + e@,
            },
    {
        match found {
            Ok(paths) => Ok(ToolOutput::Text(join(&paths, "\n"))),
            Err(e) => Err(Error::Tool(concat("invalid glob pattern: ", e.as_str()))),
        }
    }
}



/// Edits a file by replacing one occurrence of a string.
#[derive(Debug, Clone, PartialEq, Eq)]
pub struct EditFileTool {
    pub workdir: String,
}

/// What an edit call asks for: the file, the text to replace and its replacement.
#[derive(Debug, Clone, PartialEq, Eq)]
pub struct EditRequest {
    pub path: PathArg,
    pub old_string: String,
    pub new_string: String,
}

/// The error for an edit whose text does not occur `count` times but once.
pub open spec fn edit_count_message(path: Seq<char>, count: nat) -> Seq<char> {
    if count == 0 {
        "old_string not found in '"@ + path + "'"@
    } else {
        "old_string found "@ + decimal(count) + " times in '"@ + path + "'; must appear exactly once"@
    }
}

impl EditFileTool {
    /// An editor of files under `workdir`.
    pub fn new(workdir: &str) -> (t: EditFileTool)
        ensures
            t.workdir@ == workdir@,
    {
        EditFileTool { workdir: workdir.to_owned() }
    }

    /// The tool's name, description and argument schema.
    pub fn definition(&self) -> (d: ToolDefinition)
        ensures
            d.name@ == "edit_file"@,
            d.description@ == "Replace exactly one occurrence of old_string with new_string in the file at path."@,
            d.parameters@ == "{\"properties\":{\"new_string\":{\"description\":\"The replacement string.\",\"type\":\"string\"},\"old_string\":{\"description\":\"The string to replace (must appear exactly once).\",\"type\":\"string\"},\"path\":{\"description\":\"Path to the file to edit.\",\"type\":\"string\"}},\"required\":[\"path\",\"old_string\",\"new_string\"],\"type\":\"object\"}"@,
    {
        definition(
            "edit_file",
            "Replace exactly one occurrence of old_string with new_string in the file at path.",
            "{\"properties\":{\"new_string\":{\"description\":\"The replacement string.\",\"type\":\"string\"},\"old_string\":{\"description\":\"The string to replace (must appear exactly once).\",\"type\":\"string\"},\"path\":{\"description\":\"Path to the file to edit.\",\"type\":\"string\"}},\"required\":[\"path\",\"old_string\",\"new_string\"],\"type\":\"object\"}",
        )
    }

    /// Editing changes files.
    pub fn risk_level(&self) -> (r: RiskLevel)
        ensures
            r == RiskLevel::Medium,
    {
        RiskLevel::Medium
    }

    /// The file, text and replacement a call asks for.
    pub fn request(&self, args: &JsonValue) -> (r: Result<EditRequest, Error>)
        ensures
            match (
                str_field(*args, "path"@),
                str_field(*args, "old_string"@),
                str_field(*args, "new_string"@),
            ) {
                (None, _, _) => r matches Err(Error::Tool(m)) && m@ == missing_message("path"@),
                (Some(_), None, _) => r matches Err(Error::Tool(m)) && m@ == missing_message(
                    "old_string"@,
                ),
                (Some(_), Some(_), None) => r matches Err(Error::Tool(m)) && m@ == missing_message(
                    "new_string"@,
                ),
                (Some(p), Some(o), Some(n)) => r matches Ok(q) && q.path.given@ == p
                    && q.path.resolved@ == path_join(self.workdir@, p) && q.old_string@ == o
                    && q.new_string@ == n,
            },
    {
        let path = match path_arg(&self.workdir, args, "path") {
            Ok(p) => p,
            Err(e) => {
                return Err(e);
            },
        };
        let old_string = match required_str(args, "old_string") {
            Ok(c) => c,
            Err(e) => {
                return Err(e);
            },
        };
        let new_string = match required_str(args, "new_string") {
            Ok(c) => c,
            Err(e) => {
                return Err(e);
            },
        };
        Ok(EditRequest { path, old_string, new_string })
    }

    /// The file's new text: `content` with its one occurrence of the old text replaced.
    /// When the old text does not occur exactly once the file must stay as it is, and
    /// the error says how often it occurs.
    pub fn apply(request: &EditRequest, content: &str) -> (r: Result<String, Error>)
        requires
            content@.len() < usize::MAX,
        ensures
            match_count(content@, request.old_string@) == 1 ==> (r matches Ok(t) && t@
                == replace_first(content@, request.old_string@, request.new_string@)),
            match_count(content@, request.old_string@) != 1 ==> (r matches Err(Error::Tool(m))
                && m@ == edit_count_message(
                request.path.given@,
                match_count(content@, request.old_string@),
            )),
    {
        let v = chars_of(content);
        let pat = chars_of(request.old_string.as_str());
        let count = count_matches(&v, &pat);
        if count == 0 {
            let mut m = concat("old_string not found in '", request.path.given.as_str());
            m.append("'");
            return Err(Error::Tool(m));
        }
        if count > 1 {
            let mut m = concat("old_string found ", decimal_string(count as u64).as_str());
            m.append(" times in '");
            m.append(request.path.given.as_str());
            m.append("'; must appear exactly once");
            return Err(Error::Tool(m));
        }
        let j = match find(&v, &pat, 0) {
            Some(j) => j,
            None => {
                return Ok(content.to_owned());
            },
        };
        let mut out = string_from_range(&v, 0, j);
        out.append(request.new_string.as_str());
        let rest = string_from_range(&v, j + pat.len(), v.len());
        out.append(rest.as_str());
        proof {
            assert(v@.subrange(0, j as int) =~= v@.take(j as int));
            assert(v@.subrange(j + pat@.len(), v@.len() as int) =~= v@.skip(j + pat@.len()));
        }
        Ok(out)
    }

    /// What the call reports once the file was written.
    pub fn edited(request: &EditRequest) -> (o: ToolOutput)
        ensures
            o matches ToolOutput::Text(t) && t@ == "Edited "@ + request.path.given@,
    {
        ToolOutput::Text(concat("Edited ", request.path.given.as_str()))
    }

    /// The error for a file that could not be read.
    pub fn read_failed(request: &EditRequest, reason: &str) -> (e: Error)
        ensures
            e matches Error::Tool(m) && m@ == read_failure(request.path.given@, reason@),
    {
        file_error("failed to read file '", request.path.given.as_str(), reason)
    }

    /// The error for a file that could not be written.
    pub fn write_failed(request: &EditRequest, reason: &str) -> (e: Error)
        ensures
            e matches Error::Tool(m) && m@ == write_failure(request.path.given@, reason@),
    {
        file_error("failed to write file '", request.path.given.as_str(), reason)
    }
}

#[verifier::external_type_specification]
#[verifier::external_body]
pub struct ExRegex(regex::Regex);

/// The message `regex::Regex::new` gives for `pattern`, or nothing when the pattern
/// compiles.
pub uninterp spec fn regex_error(pattern: Seq<char>) -> Option<Seq<char>>;

/// Whether the regular expression `pattern` matches somewhere in `text`, as
/// `regex::Regex::is_match` decides.
pub uninterp spec fn regex_matches(pattern: Seq<char>, text: Seq<char>) -> bool;

/// A compiled regular expression together with its source.
pub struct Matcher {
    pattern: String,
    re: regex::Regex,
}

impl Matcher {
    /// The source the expression was compiled from.
    pub closed spec fn source(&self) -> Seq<char> {
        self.pattern@
    }

    /// Calls `regex::Regex::new`: the compiled expression, or the error's message.
    #[verifier::external_body]
    fn compile(pattern: &str) -> (r: Result<Matcher, String>)
        ensures
            match r {
                Ok(m) => m.source() == pattern@ && regex_error(pattern@) is None,
                Err(e) => regex_error(pattern@) == Some(e@),
            },
    {
        match regex::Regex::new(pattern) {
            Ok(re) => Ok(Matcher { pattern: pattern.to_string(), re }),
            Err(e) => Err(e.to_string()),
        }
    }

    /// Calls `regex::Regex::is_match` on `text`.
    #[verifier::external_body]
    fn is_match(&self, text: &str) -> (b: bool)
        ensures
            b == regex_matches(self.source(), text@),
    {
        self.re.is_match(text)
    }
}

/// A file's path as shown and its text.
#[derive(Debug, Clone, PartialEq, Eq)]
pub struct FileText {
    pub path: String,
    pub content: String,
}

/// The report lines for the lines of one file: `{path}:{n}:{line}` for each line `n`
/// (counted from 1) that the expression matches.
pub open spec fn grep_hits(pattern: Seq<char>, path: Seq<char>, lines: Seq<Seq<char>>) -> Seq<
    Seq<char>,
>
    decreases lines.len(),
{
    if lines.len() == 0 {
        seq![]
    } else {
        let rest = grep_hits(pattern, path, lines.drop_last());
        if regex_matches(pattern, lines.last()) {
            rest.push(path + ":"@ + decimal(lines.len()) + ":"@ + lines.last())
        } else {
            rest
        }
    }
}

/// The report lines for all files, in order.
pub open spec fn all_hits(pattern: Seq<char>, files: Seq<FileText>) -> Seq<Seq<char>>
    decreases files.len(),
{
    if files.len() == 0 {
        seq![]
    } else {
        all_hits(pattern, files.drop_last()) + grep_hits(
            pattern,
            files.last().path@,
            spec_lines(files.last().content@),
        )
    }
}

/// Searches files for a regular expression.
#[derive(Debug, Clone, PartialEq, Eq)]
pub struct GrepTool {
    pub workdir: String,
}

/// What a search call asks for: the expression and where to look.
#[derive(Debug, Clone, PartialEq, Eq)]
pub struct GrepRequest {
    pub pattern: String,
    pub path: PathArg,
}

impl GrepTool {
    /// A searcher of files under `workdir`.
    pub fn new(workdir: &str) -> (t: GrepTool)
        ensures
            t.workdir@ == workdir@,
    {
        GrepTool { workdir: workdir.to_owned() }
    }

    /// The tool's name, description and argument schema.
    pub fn definition(&self) -> (d: ToolDefinition)
        ensures
            d.name@ == "grep"@,
            d.description@ == "Search for a regex pattern in files under the given path. Returns 'file:line:content' format."@,
            d.parameters@ == "{\"properties\":{\"path\":{\"description\":\"File or directory to search in.\",\"type\":\"string\"},\"pattern\":{\"description\":\"Regex pattern to search for.\",\"type\":\"string\"}},\"required\":[\"pattern\",\"path\"],\"type\":\"object\"}"@,
    {
        definition(
            "grep",
            "Search for a regex pattern in files under the given path. Returns 'file:line:content' format.",
            "{\"properties\":{\"path\":{\"description\":\"File or directory to search in.\",\"type\":\"string\"},\"pattern\":{\"description\":\"Regex pattern to search for.\",\"type\":\"string\"}},\"required\":[\"pattern\",\"path\"],\"type\":\"object\"}",
        )
    }

    /// Searching changes nothing.
    pub fn risk_level(&self) -> (r: RiskLevel)
        ensures
            r == RiskLevel::Low,
    {
        RiskLevel::Low
    }

    /// The expression and place a call asks for.
    pub fn request(&self, args: &JsonValue) -> (r: Result<GrepRequest, Error>)
        ensures
            match (str_field(*args, "pattern"@), str_field(*args, "path"@)) {
                (None, _) => r matches Err(Error::Tool(m)) && m@ == missing_message("pattern"@),
                (Some(_), None) => r matches Err(Error::Tool(m)) && m@ == missing_message("path"@),
                (Some(p), Some(d)) => r matches Ok(q) && q.pattern@ == p && q.path.given@ == d
                    && q.path.resolved@ == path_join(self.workdir@, d),
            },
    {
        let pattern = match required_str(args, "pattern") {
            Ok(p) => p,
            Err(e) => {
                return Err(e);
            },
        };
        let path = match path_arg(&self.workdir, args, "path") {
            Ok(p) => p,
            Err(e) => {
                return Err(e);
            },
        };
        Ok(GrepRequest { pattern, path })
    }

    /// The compiled expression, or the error that it is invalid.
    pub fn matcher(request: &GrepRequest) -> (r: Result<Matcher, Error>)
        ensures
            match regex_error(request.pattern@) {
                None => r matches Ok(m) && m.source() == request.pattern@,
                Some(e) => r matches Err(Error::Tool(m)) && m@ == "invalid regex pattern: "@ + e,
            },
    {
        match Matcher::compile(request.pattern.as_str()) {
            Ok(m) => Ok(m),
            Err(e) => Err(Error::Tool(concat("invalid regex pattern: ", e.as_str()))),
        }
    }

    /// The report lines for one file.
    pub fn file_hits(matcher: &Matcher, path: &str, content: &str) -> (hits: Vec<String>)
        ensures
            texts(hits@) == grep_hits(matcher.source(), path@, spec_lines(content@)),
    {
        let lines = lines_of(content);
        let ghost ls = texts(lines@);
        let mut hits: Vec<String> = Vec::new();
        let mut i: usize = 0;
        while i < lines.len()
            invariant
                i <= lines.len(),
                ls == texts(lines@),
                ls == spec_lines(content@),
                texts(hits@) == grep_hits(matcher.source(), path@, ls.take(i as int)),
            decreases lines.len() - i,
        {
            let ghost before = texts(hits@);
            proof {
                assert(ls.take(i + 1).drop_last() =~= ls.take(i as int));
                assert(ls.take(i + 1).last() == lines@[i as int]@);
            }
            if matcher.is_match(lines[i].as_str()) {
                let mut hit = concat(path, ":");
                hit.append(decimal_string((i + 1) as u64).as_str());
                hit.append(":");
                hit.append(lines[i].as_str());
                hits.push(hit);
                proof {
                    assert(texts(hits@) =~= before.push(hits@.last()@));
                }
            }
            i += 1;
        }
        proof {
            assert(ls.take(lines.len() as int) =~= ls);
        }
        hits
    }

    /// What a search reports: the matching lines of all readable files, one per line.
    pub fn search(matcher: &Matcher, files: &Vec<FileText>) -> (o: ToolOutput)
        ensures
            o matches ToolOutput::Text(t) && t@ == joined_with(all_hits(matcher.source(), files@), "\n"@),
    {
        let mut all: Vec<String> = Vec::new();
        let mut i: usize = 0;
        while i < files.len()
            invariant
                i <= files.len(),
                texts(all@) == all_hits(matcher.source(), files@.take(i as int)),
            decreases files.len() - i,
        {
            let hits = Self::file_hits(matcher, files[i].path.as_str(), files[i].content.as_str());
            let ghost before = all@;
            let mut k: usize = 0;
            while k < hits.len()
                invariant
                    k <= hits.len(),
                    all@ == before + hits@.take(k as int),
                decreases hits.len() - k,
            {
                all.push(hits[k].clone());
                proof {
                    assert(all@ =~= before + hits@.take(k + 1));
                }
                k += 1;
            }
            proof {
                assert(hits@.take(hits.len() as int) =~= hits@);
                assert(files@.take(i + 1).drop_last() =~= files@.take(i as int));
                assert(texts(all@) =~= texts(before) + texts(hits@));
            }
            i += 1;
        }
        proof {
            assert(files@.take(files.len() as int) =~= files@);
        }
        ToolOutput::Text(join(&all, "\n"))
    }
}

} // verus!
