//! Assembling external commands: the builder that accumulates a command,
//! its arguments, working directory and retry policy, the retry decision,
//! and the content-rewriting rules used by file operations. Actually
//! spawning a process is the caller's job; everything here is plain values.

use vstd::prelude::*;
use vstd::string::StringExecFns;
use crate::strutil::{contains_sub, has_prefix, has_substring, str_eq};

verus! {

/// Options for command execution.
#[derive(Debug, Clone)]
pub struct CommandOptions {
    /// Maximum number of retries for failed commands.
    pub max_retries: u32,
    /// Delay between retries in seconds.
    pub retry_delay: u32,
    /// Whether to verify the command output.
    pub verify_output: bool,
    /// Timeout for command execution in seconds.
    pub timeout: u64,
    /// Whether to check for project directory creation.
    pub verify_project_dir: bool,
    /// Custom environment variables.
    pub env_vars: Vec<(String, String)>,
}

impl Default for CommandOptions {
    /// One attempt, two-second retry delay, two-minute timeout, output
    /// verification on, directory verification off.
    fn default() -> (r: Self)
        ensures
            r.max_retries == 1,
            r.retry_delay == 2,
            r.verify_output == true,
            r.timeout == 120,
            r.verify_project_dir == false,
            r.env_vars@.len() == 0,
    {
        Self {
            max_retries: 1,
            retry_delay: 2,
            verify_output: true,
            timeout: 120,
            verify_project_dir: false,
            env_vars: Vec::new(),
        }
    }
}

/// Result of executing a command.
#[derive(Debug, Clone)]
pub struct CommandResult {
    /// Whether the command executed successfully.
    pub success: bool,
    /// Standard output from the command.
    pub stdout: String,
    /// Standard error from the command.
    pub stderr: String,
    /// Exit code from the command.
    pub exit_code: i32,
}

/// The space-separated rendering of an argument list.
pub open spec fn joined_args(args: Seq<String>) -> Seq<char>
    decreases args.len(),
{
    if args.len() == 0 {
        Seq::<char>::empty()
    } else if args.len() == 1 {
        args[0]@
    } else {
        joined_args(args.drop_last()) + " "@ + args.last()@
    }
}

/// Builder for creating and executing commands.
#[derive(Debug, Clone)]
pub struct CommandBuilder {
    /// The command to execute.
    pub command: String,
    /// Arguments for the command.
    pub args: Vec<String>,
    /// Working directory for the command.
    pub working_dir: String,
    /// Options for command execution.
    pub options: CommandOptions,
}

impl CommandBuilder {
    /// Create a new command builder with default options and the current
    /// directory as the working directory.
    pub fn new(command: String) -> (r: Self)
        ensures
            r.command == command,
            r.args@.len() == 0,
            r.working_dir@ == "."@,
            r.options.max_retries == 1,
            r.options.retry_delay == 2,
            r.options.verify_output == true,
            r.options.timeout == 120,
            r.options.verify_project_dir == false,
            r.options.env_vars@.len() == 0,
    {
        Self {
            command,
            args: Vec::new(),
            working_dir: String::from_str("."),
            options: Default::default(),
        }
    }

    /// Add an argument to the command.
    pub fn arg(self, arg: String) -> (r: Self)
        ensures
            r.args@ == self.args@.push(arg),
            r.command == self.command,
            r.working_dir == self.working_dir,
            r.options == self.options,
    {
        let mut b = self;
        b.args.push(arg);
        b
    }

    /// Add multiple arguments to the command.
    pub fn args(self, args: Vec<String>) -> (r: Self)
        ensures
            r.args@ == self.args@ + args@,
            r.command == self.command,
            r.working_dir == self.working_dir,
            r.options == self.options,
    {
        let mut b = self;
        let mut i: usize = 0;
        let ghost base = b.args@;
        while i < args.len()
            invariant
                0 <= i <= args@.len(),
                b.args@ == base + args@.subrange(0, i as int),
                b.command == self.command,
                b.working_dir == self.working_dir,
                b.options == self.options,
            decreases args@.len() - i,
        {
            b.args.push(args[i].clone());
            proof {
                assert(base + args@.subrange(0, i as int + 1) =~= (base + args@.subrange(
                    0,
                    i as int,
                )).push(args@[i as int]));
            }
            i = i + 1;
        }
        proof {
            assert(args@.subrange(0, args@.len() as int) =~= args@);
        }
        b
    }

    /// Set the working directory for the command.
    pub fn working_dir(self, dir: String) -> (r: Self)
        ensures
            r.working_dir == dir,
            r.command == self.command,
            r.args@ == self.args@,
            r.options == self.options,
    {
        let mut b = self;
        b.working_dir = dir;
        b
    }

    /// Set the maximum number of retries for the command.
    pub fn retries(self, retries: u32) -> (r: Self)
        ensures
            r.options.max_retries == retries,
            r.options.retry_delay == self.options.retry_delay,
            r.options.verify_output == self.options.verify_output,
            r.options.timeout == self.options.timeout,
            r.options.verify_project_dir == self.options.verify_project_dir,
            r.options.env_vars@ == self.options.env_vars@,
            r.command == self.command,
            r.args@ == self.args@,
            r.working_dir == self.working_dir,
    {
        let mut b = self;
        b.options.max_retries = retries;
        b
    }

    /// Set the delay between retries in seconds.
    pub fn retry_delay(self, delay: u32) -> (r: Self)
        ensures
            r.options.retry_delay == delay,
            r.options.max_retries == self.options.max_retries,
            r.command == self.command,
            r.args@ == self.args@,
            r.working_dir == self.working_dir,
    {
        let mut b = self;
        b.options.retry_delay = delay;
        b
    }

    /// Set the timeout for the command in seconds.
    pub fn timeout(self, timeout: u64) -> (r: Self)
        ensures
            r.options.timeout == timeout,
            r.options.max_retries == self.options.max_retries,
            r.command == self.command,
            r.args@ == self.args@,
            r.working_dir == self.working_dir,
    {
        let mut b = self;
        b.options.timeout = timeout;
        b
    }

    /// Set whether to verify the command output.
    pub fn verify_output(self, verify: bool) -> (r: Self)
        ensures
            r.options.verify_output == verify,
            r.options.max_retries == self.options.max_retries,
            r.command == self.command,
            r.args@ == self.args@,
            r.working_dir == self.working_dir,
    {
        let mut b = self;
        b.options.verify_output = verify;
        b
    }

    /// Set whether to check for project directory creation.
    pub fn verify_project_dir(self, verify: bool) -> (r: Self)
        ensures
            r.options.verify_project_dir == verify,
            r.options.max_retries == self.options.max_retries,
            r.command == self.command,
            r.args@ == self.args@,
            r.working_dir == self.working_dir,
    {
        let mut b = self;
        b.options.verify_project_dir = verify;
        b
    }

    /// Add an environment variable to the command.
    pub fn env(self, key: String, value: String) -> (r: Self)
        ensures
            r.options.env_vars@ == self.options.env_vars@.push((key, value)),
            r.options.max_retries == self.options.max_retries,
            r.command == self.command,
            r.args@ == self.args@,
            r.working_dir == self.working_dir,
    {
        let mut b = self;
        b.options.env_vars.push((key, value));
        b
    }

    /// Get a display string for the arguments: the arguments joined with
    /// single spaces.
    pub fn args_display(&self) -> (r: String)
        ensures
            r@ == joined_args(self.args@),
    {
        let n = self.args.len();
        if n == 0 {
            return String::new();
        }
        let mut out = self.args[0].clone();
        let mut i: usize = 1;
        while i < n
            invariant
                n == self.args@.len(),
                1 <= i <= n,
                out@ == joined_args(self.args@.subrange(0, i as int)),
            decreases n - i,
        {
            out = out.concat(" ").concat(self.args[i].as_str());
            proof {
                let sub = self.args@.subrange(0, i as int + 1);
                assert(sub.drop_last() =~= self.args@.subrange(0, i as int));
                assert(sub.last() == self.args@[i as int]);
            }
            i = i + 1;
        }
        proof {
            assert(self.args@.subrange(0, n as int) =~= self.args@);
            assert(self.args@.subrange(0, 1) =~= seq![self.args@[0]]);
        }
        out
    }

    /// Is this the invocation of a project generator: an `npx create-...`
    /// call, or an `npm init` with further arguments?
    pub fn is_project_generator(&self) -> (r: bool)
        ensures
            r == ((self.command@ == "npx"@ && self.args@.len() > 0 && has_substring(
                self.args@[0]@,
                "create-"@,
            )) || (self.command@ == "npm"@ && self.args@.len() > 1 && self.args@[0]@ == "init"@)),
    {
        if str_eq(self.command.as_str(), "npx") && self.args.len() > 0 && contains_sub(
            self.args[0].as_str(),
            "create-",
        ) {
            return true;
        }
        str_eq(self.command.as_str(), "npm") && self.args.len() > 1 && str_eq(
            self.args[0].as_str(),
            "init",
        )
    }
}

/// After a finished attempt, is another attempt owed? Exactly when the
/// attempt failed and attempts remain under the retry limit.
pub fn should_retry(attempt: u32, max_retries: u32, success: bool) -> (r: bool)
    ensures
        r == (!success && attempt < max_retries),
{
    !success && attempt < max_retries
}

/// Relies on regex::Regex::new and Regex::replace_all: `Some` exactly when
/// the pattern compiles, carrying the text with every non-overlapping match
/// replaced — a function of the pattern, text and replacement alone.
#[verifier::external_body]
fn regex_replace_all(pattern: &str, text: &str, replacement: &str) -> (r: Option<String>)
    ensures
        r is Some <==> regex_pattern_ok(pattern@),
        r matches Some(s) ==> s@ == regex_replaced(pattern@, text@, replacement@),
{
    match regex::Regex::new(pattern) {
        Ok(re) => Some(re.replace_all(text, replacement).to_string()),
        Err(_) => None,
    }
}

/// Does this pattern compile as a regular expression?
pub uninterp spec fn regex_pattern_ok(p: Seq<char>) -> bool;

/// The text with every non-overlapping match of the pattern replaced.
pub uninterp spec fn regex_replaced(p: Seq<char>, text: Seq<char>, rep: Seq<char>) -> Seq<char>;

/// Relies on str::replace: the string with every match of `from` replaced by
/// `to` — a function of the three strings alone.
#[verifier::external_body]
fn str_replace(s: &str, from: &str, to: &str) -> (r: String)
    ensures
        r@ == str_replaced(s@, from@, to@),
{
    s.replace(from, to)
}

/// The string with every match of `from` replaced by `to`.
pub uninterp spec fn str_replaced(s: Seq<char>, from: Seq<char>, to: Seq<char>) -> Seq<char>;

/// Rewrite file content against a pattern: a valid regular expression
/// replaces all its matches; an invalid one falls back to replacing the
/// pattern (with backslashes stripped) as a literal, and is an error when
/// the literal does not occur either.
pub fn modify_content(content: &str, pattern: &str, replacement: &str) -> (r: Result<
    String,
    String,
>)
    ensures
        regex_pattern_ok(pattern@) ==> (r matches Ok(s) && s@ == regex_replaced(
            pattern@,
            content@,
            replacement@,
        )),
        !regex_pattern_ok(pattern@) && has_substring(
            content@,
            str_replaced(pattern@, "\\"@, Seq::<char>::empty()),
        ) ==> (r matches Ok(s) && s@ == str_replaced(
            content@,
            str_replaced(pattern@, "\\"@, Seq::<char>::empty()),
            replacement@,
        )),
        !regex_pattern_ok(pattern@) && !has_substring(
            content@,
            str_replaced(pattern@, "\\"@, Seq::<char>::empty()),
        ) ==> (r matches Err(e) && e@ == "Invalid regex pattern and string not found: "@
            + pattern@),
{
    match regex_replace_all(pattern, content, replacement) {
        Some(s) => Ok(s),
        None => {
            let cleaned = str_replace(pattern, "\\", "");
            proof {
                reveal_strlit("");
                assert(""@ =~= Seq::<char>::empty());
            }
            if contains_sub(content, cleaned.as_str()) {
                Ok(str_replace(content, cleaned.as_str(), replacement))
            } else {
                Err(
                    String::from_str("Invalid regex pattern and string not found: ").concat(
                        pattern,
                    ),
                )
            }
        },
    }
}

/// Is this among the commands whose failure matters most: an `npm install`,
/// an `npx` invocation, or an `npm i`?
pub fn is_critical_command(cmd: &str) -> (r: bool)
    ensures
        r == (has_substring(cmd@, "npm install"@) || has_substring(cmd@, "npx"@) || has_substring(
            cmd@,
            "npm i"@,
        )),
{
    contains_sub(cmd, "npm install") || contains_sub(cmd, "npx") || contains_sub(cmd, "npm i")
}

/// Does any command of the list invoke the npm toolchain?
pub fn has_npm_commands(commands: &Vec<String>) -> (r: bool)
    ensures
        r == exists|i: int|
            0 <= i < commands@.len() && (has_prefix(#[trigger] commands@[i]@, "npm"@) || has_prefix(
                commands@[i]@,
                "npx"@,
            )),
{
    let n = commands.len();
    let mut i: usize = 0;
    while i < n
        invariant
            n == commands@.len(),
            0 <= i <= n,
            forall|j: int|
                0 <= j < i ==> !(has_prefix(#[trigger] commands@[j]@, "npm"@) || has_prefix(
                    commands@[j]@,
                    "npx"@,
                )),
        decreases n - i,
    {
        if crate::strutil::starts_with(commands[i].as_str(), "npm") || crate::strutil::starts_with(
            commands[i].as_str(),
            "npx",
        ) {
            return true;
        }
        i = i + 1;
    }
    false
}

} // verus!
