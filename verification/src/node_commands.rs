//! Validation and bookkeeping around Node.js command execution: which
//! commands are allowed to run at all, and the registry of in-flight
//! commands that cleanup walks. The sidecar that actually runs a command is
//! the caller's collaborator.

use vstd::prelude::*;
use vstd::string::StringExecFns;
use crate::strutil::{all_blank, contains_sub, has_prefix, has_substring, is_blank, starts_with,
    str_eq};
use crate::tasks::contains_id;

verus! {

/// Result of a Node.js command execution.
#[derive(Debug, Clone)]
pub struct CommandResult {
    /// Standard output.
    pub stdout: String,
    /// Standard error.
    pub stderr: String,
    /// Exit code.
    pub exit_code: i32,
    /// Whether the command succeeded (exit code 0).
    pub success: bool,
}

/// Event emitted during command execution.
#[derive(Debug, Clone)]
pub enum NodeCommandEvent {
    /// Output from stdout.
    Stdout(String),
    /// Output from stderr.
    Stderr(String),
    /// Command has completed.
    Completed { exit_code: i32, success: bool },
    /// Command encountered an error.
    Error(String),
}

/// Options for executing a Node.js command.
#[derive(Debug, Clone)]
pub struct NodeCommandOptions {
    /// Environment variables to set for the command.
    pub env_vars: Vec<(String, String)>,
    /// Whether to use streaming output.
    pub streaming: bool,
    /// Event name for streaming output.
    pub event_name: Option<String>,
}

impl Default for NodeCommandOptions {
    /// No extra environment, no streaming, no event name.
    fn default() -> (r: Self)
        ensures
            r.env_vars@.len() == 0,
            r.streaming == false,
            r.event_name is None,
    {
        Self { env_vars: Vec::new(), streaming: false, event_name: None }
    }
}

/// The command starts with one of the allowed toolchain prefixes.
pub open spec fn allowed_prefix(c: Seq<char>) -> bool {
    ||| has_prefix(c, "npm "@)
    ||| has_prefix(c, "npx "@)
    ||| has_prefix(c, "yarn "@)
    ||| has_prefix(c, "pnpm "@)
    ||| has_prefix(c, "node "@)
}

/// The command holds one of the shell-control or evaluation patterns that
/// are never allowed through.
pub open spec fn has_dangerous_pattern(c: Seq<char>) -> bool {
    ||| has_substring(c, "&&"@)
    ||| has_substring(c, "||"@)
    ||| has_substring(c, ";"@)
    ||| has_substring(c, "|"@)
    ||| has_substring(c, ">"@)
    ||| has_substring(c, "<"@)
    ||| has_substring(c, "`"@)
    ||| has_substring(c, "$("@)
    ||| has_substring(c, "eval"@)
    ||| has_substring(c, "exec"@)
    ||| has_substring(c, "system"@)
    ||| has_substring(c, "spawn"@)
}

/// Validate a command for security: it must start with an allowed toolchain
/// prefix and must not contain any forbidden pattern.
pub fn validate_command_security(command: &str) -> (r: Result<(), String>)
    ensures
        r is Ok <==> (allowed_prefix(command@) && !has_dangerous_pattern(command@)),
{
    let allowed = starts_with(command, "npm ") || starts_with(command, "npx ") || starts_with(
        command,
        "yarn ",
    ) || starts_with(command, "pnpm ") || starts_with(command, "node ");
    if !allowed {
        return Err(
            String::from_str("Command not allowed: ").concat(command).concat(
                ". Only npm, npx, yarn, pnpm, and node commands are permitted.",
            ),
        );
    }
    let dangerous = contains_sub(command, "&&") || contains_sub(command, "||") || contains_sub(
        command,
        ";",
    ) || contains_sub(command, "|") || contains_sub(command, ">") || contains_sub(command, "<")
        || contains_sub(command, "`") || contains_sub(command, "$(") || contains_sub(
        command,
        "eval",
    ) || contains_sub(command, "exec") || contains_sub(command, "system") || contains_sub(
        command,
        "spawn",
    );
    if dangerous {
        return Err(String::from_str("Command contains forbidden pattern: ").concat(command));
    }
    Ok(())
}

/// Validate the inputs of a command execution: the working directory must
/// exist (the caller checks the disk and answers), the command must not be
/// blank, and it must pass the security validation.
pub fn validate_command_inputs(working_dir_exists: bool, command: &str) -> (r: Result<(), String>)
    ensures
        r is Ok <==> (working_dir_exists && !all_blank(command@) && allowed_prefix(command@)
            && !has_dangerous_pattern(command@)),
{
    if !working_dir_exists {
        return Err(String::from_str("Working directory does not exist"));
    }
    if is_blank(command) {
        return Err(String::from_str("Command cannot be empty"));
    }
    validate_command_security(command)
}

/// The registry of in-flight commands, tracked by id so that cleanup can
/// walk them. Owned state, handed through the execution context.
#[derive(Debug)]
pub struct CommandRegistry {
    active: Vec<String>,
}

impl CommandRegistry {
    /// The ids of the in-flight commands, oldest first.
    pub closed spec fn view(&self) -> Seq<String> {
        self.active@
    }

    /// An empty registry.
    pub fn new() -> (r: Self)
        ensures
            r@.len() == 0,
    {
        CommandRegistry { active: Vec::new() }
    }

    /// How many commands are in flight.
    pub fn len(&self) -> (r: usize)
        ensures
            r == self@.len(),
    {
        self.active.len()
    }

    /// Is this command id registered?
    pub fn contains(&self, id: &str) -> (r: bool)
        ensures
            r == contains_id(self@, id@),
    {
        let n = self.active.len();
        let mut i: usize = 0;
        while i < n
            invariant
                n == self@.len(),
                0 <= i <= n,
                forall|j: int| 0 <= j < i ==> self@[j]@ != id@,
            decreases n - i,
        {
            if str_eq(self.active[i].as_str(), id) {
                proof {
                    assert(self@[i as int]@ == id@);
                }
                return true;
            }
            i = i + 1;
        }
        false
    }

    /// Add a command to the registry; an id already present is not
    /// duplicated.
    pub fn add_command(&mut self, id: String)
        ensures
            contains_id(final(self)@, id@),
            contains_id(old(self)@, id@) ==> final(self)@ == old(self)@,
            !contains_id(old(self)@, id@) ==> final(self)@ == old(self)@.push(id),
    {
        if self.contains(id.as_str()) {
            return ;
        }
        let ghost at = self.active@.len();
        self.active.push(id);
        proof {
            assert(self@[at as int]@ == id@);
        }
    }

    /// Remove a command from the registry, erring when the id is unknown.
    pub fn remove_command(&mut self, id: &str) -> (r: Result<(), String>)
        ensures
            r is Ok <==> contains_id(old(self)@, id@),
            r is Err ==> final(self)@ == old(self)@,
            r matches Err(e) ==> e@ == "Command with ID "@ + id@ + " not found"@,
            r is Ok ==> exists|j: int|
                0 <= j < old(self)@.len() && (#[trigger] old(self)@[j])@ == id@ && final(self)@
                    == old(self)@.remove(j),
    {
        let n = self.active.len();
        let mut i: usize = 0;
        while i < n
            invariant
                self@ == old(self)@,
                n == self@.len(),
                0 <= i <= n,
                forall|j: int| 0 <= j < i ==> self@[j]@ != id@,
            decreases n - i,
        {
            if str_eq(self.active[i].as_str(), id) {
                proof {
                    assert(self@[i as int]@ == id@);
                    assert(contains_id(self@, id@));
                }
                let ghost a0 = self@;
                let _ = self.active.remove(i);
                proof {
                    assert(self@ == a0.remove(i as int));
                }
                return Ok(());
            }
            i = i + 1;
        }
        proof {
            assert(!contains_id(self@, id@)) by {
                if contains_id(self@, id@) {
                    let j = choose|j: int| 0 <= j < self@.len() && self@[j]@ == id@;
                    assert(false);
                }
            }
        }
        Err(String::from_str("Command with ID ").concat(id).concat(" not found"))
    }

    /// Clear all registered commands, handing back the ids whose cleanup the
    /// caller owes.
    pub fn clear_commands(&mut self) -> (r: Vec<String>)
        ensures
            final(self)@.len() == 0,
            r@ == old(self)@,
    {
        let mut out: Vec<String> = Vec::new();
        core::mem::swap(&mut out, &mut self.active);
        out
    }
}

} // verus!
