//! The chat-completion side of the language-model client: who speaks in a
//! turn, the prompt asking for a mitigation, and reading the reply. The
//! HTTP exchange itself is done by the caller.

use vstd::prelude::*;
use crate::models::Vulnerability;

verus! {

/// A chat turn's speaker. `System` primes the model with context and is
/// never shown as a message of its own.
#[derive(Debug, Clone, Copy, PartialEq, Eq, Structural)]
pub enum Role {
    System,
    User,
    Assistant,
}

/// The wire name of a role.
pub open spec fn role_name(role: Role) -> Seq<char> {
    match role {
        Role::System => "system"@,
        Role::User => "user"@,
        Role::Assistant => "assistant"@,
    }
}

impl Role {
    /// The wire name of this role.
    pub fn as_str(self) -> (res: &'static str)
        ensures
            res@ == role_name(self),
    {
        match self {
            Role::System => "system",
            Role::User => "user",
            Role::Assistant => "assistant",
        }
    }
}

/// The single user turn that asks for a mitigation of an advisory that has
/// no patched version.
pub open spec fn mitigation_prompt_text(name: Seq<char>, version: Seq<char>, id: Seq<char>, summary: Seq<char>) -> Seq<char> {
    "A Rust project depends on `"@ + name + "` version "@ + version + ", which is affected by "@ + id
        + " (no patched version is listed in OSV yet). Advisory summary: "@ + summary
        + "\n\nDAGger has proven this dependency is structurally reachable (it's referenced via a `use` statement somewhere in the project source), but does not have the exact call site. In 4-6 concise bullet points, explain: (1) the practical risk this poses in a typical Rust codebase, (2) any safe mitigation short of a version bump (config change, feature flag, usage pattern to avoid), and (3) whether removing/replacing this dependency is a reasonable option if the crate has stopped receiving patches. Do not invent specific file names, line numbers, or code you have not been shown."@
}

/// The prompt asking for a mitigation of `vulnerability`.
pub fn mitigation_prompt(vulnerability: &Vulnerability) -> (res: String)
    ensures
        res@ == mitigation_prompt_text(
            vulnerability.package.name@,
            vulnerability.package.version@,
            vulnerability.id@,
            vulnerability.summary@,
        ),
{
    let mut p = String::from_str("A Rust project depends on `");
    p.append(vulnerability.package.name.as_str());
    p.append("` version ");
    p.append(vulnerability.package.version.as_str());
    p.append(", which is affected by ");
    p.append(vulnerability.id.as_str());
    p.append(" (no patched version is listed in OSV yet). Advisory summary: ");
    p.append(vulnerability.summary.as_str());
    p.append(
        "\n\nDAGger has proven this dependency is structurally reachable (it's referenced via a `use` statement somewhere in the project source), but does not have the exact call site. In 4-6 concise bullet points, explain: (1) the practical risk this poses in a typical Rust codebase, (2) any safe mitigation short of a version bump (config change, feature flag, usage pattern to avoid), and (3) whether removing/replacing this dependency is a reasonable option if the crate has stopped receiving patches. Do not invent specific file names, line numbers, or code you have not been shown.",
    );
    p
}

/// The reply of a completion: the content of its first choice, or an error
/// when the service returned no choice.
pub fn first_completion(choices: Vec<String>) -> (res: Result<String, String>)
    ensures
        choices@.len() > 0 ==> res == Ok::<String, String>(choices@[0]),
        choices@.len() == 0 ==> (res matches Err(m) && m@ == "Groq returned no completion choices"@),
{
    let mut choices = choices;
    if choices.len() > 0 {
        Ok(choices.swap_remove(0))
    } else {
        Err(String::from_str("Groq returned no completion choices"))
    }
}

} // verus!
