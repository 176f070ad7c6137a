//! The data the engine works over: planned commands, execution results,
//! classified intents and skill descriptors.

use vstd::prelude::*;

verus! {

/// One planned shell action: a command and a human-readable description.
#[derive(Debug)]
pub struct TaskCommand {
    pub command: String,
    pub description: String,
}

impl Clone for TaskCommand {
    fn clone(&self) -> (res: Self)
        ensures
            res == *self,
    {
        TaskCommand { command: self.command.clone(), description: self.description.clone() }
    }
}

/// The terminal outcome of running one action (possibly after repair).
#[derive(Debug)]
pub struct CommandResult {
    pub command: String,
    pub success: bool,
    pub exit_code: Option<i32>,
    pub stdout: String,
    pub stderr: String,
}

impl Clone for CommandResult {
    fn clone(&self) -> (res: Self)
        ensures
            res == *self,
    {
        CommandResult {
            command: self.command.clone(),
            success: self.success,
            exit_code: self.exit_code,
            stdout: self.stdout.clone(),
            stderr: self.stderr.clone(),
        }
    }
}

/// One command entry as the advisory service hands it back.
#[derive(Debug)]
pub struct CommandItem {
    pub command: String,
    pub description: String,
}

impl Clone for CommandItem {
    fn clone(&self) -> (res: Self)
        ensures
            res == *self,
    {
        CommandItem { command: self.command.clone(), description: self.description.clone() }
    }
}

/// A classified instruction: either a direct answer or a plan of actions.
#[derive(Debug)]
pub enum LlmIntent {
    Question { content: String },
    Command { commands: Vec<CommandItem> },
}

/// Two intents carry the same data.
pub open spec fn intent_eqv(a: LlmIntent, b: LlmIntent) -> bool {
    match (a, b) {
        (LlmIntent::Question { content: ca }, LlmIntent::Question { content: cb }) => ca == cb,
        (LlmIntent::Command { commands: xa }, LlmIntent::Command { commands: xb }) => xa@ == xb@,
        _ => false,
    }
}

impl Clone for LlmIntent {
    fn clone(&self) -> (res: Self)
        ensures
            intent_eqv(res, *self),
    {
        match self {
            LlmIntent::Question { content } => LlmIntent::Question { content: content.clone() },
            LlmIntent::Command { commands } => {
                let mut copy: Vec<CommandItem> = Vec::new();
                let n = commands.len();
                let mut i: usize = 0;
                while i < n
                    invariant
                        n == commands@.len(),
                        i <= n,
                        copy@ =~= commands@.subrange(0, i as int),
                    decreases n - i,
                {
                    copy.push(commands[i].clone());
                    i += 1;
                }
                proof {
                    assert(copy@ =~= commands@);
                }
                LlmIntent::Command { commands: copy }
            },
        }
    }
}

/// A skill descriptor as a manifest file states it.
#[derive(Debug)]
pub struct SkillManifest {
    pub id: String,
    pub name: String,
    pub description: String,
    pub prompt_hint: String,
    pub install: String,
}

impl Clone for SkillManifest {
    fn clone(&self) -> (res: Self)
        ensures
            res == *self,
    {
        SkillManifest {
            id: self.id.clone(),
            name: self.name.clone(),
            description: self.description.clone(),
            prompt_hint: self.prompt_hint.clone(),
            install: self.install.clone(),
        }
    }
}

/// A loaded skill: read-only context the advisory service may draw on.
#[derive(Debug)]
pub struct Skill {
    pub id: String,
    pub name: String,
    pub description: String,
    pub prompt_hint: String,
    pub install: String,
}

impl Clone for Skill {
    fn clone(&self) -> (res: Self)
        ensures
            res == *self,
    {
        Skill {
            id: self.id.clone(),
            name: self.name.clone(),
            description: self.description.clone(),
            prompt_hint: self.prompt_hint.clone(),
            install: self.install.clone(),
        }
    }
}

} // verus!
