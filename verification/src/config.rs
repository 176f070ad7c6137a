//! Configuration records and their defaults.
//!
//! The values are plain data; reading them from a configuration file is
//! the caller's business.

use vstd::prelude::*;

verus! {

#[derive(Debug)]
pub struct AppConfig {
    pub telegram: TelegramConfig,
    pub llm: LlmConfig,
    pub executor: ExecutorConfig,
    /// Directory the skill descriptors are loaded from; `None` or a
    /// missing directory means no skills.
    pub skills_dir: Option<String>,
}

#[derive(Debug)]
pub struct TelegramConfig {
    pub bot_token: String,
    /// Chat ids (channel/group/user) allowed to talk to the assistant;
    /// empty means everyone.
    pub allowed_chat_ids: Vec<i64>,
}

#[derive(Debug)]
pub struct LlmConfig {
    /// Base URL of an OpenAI-compatible API.
    pub base_url: String,
    pub api_key: String,
    pub model: String,
    /// Overrides the built-in classification prompt when set.
    pub system_prompt: Option<String>,
    pub max_tokens: u32,
}

#[derive(Debug)]
pub struct ExecutorConfig {
    /// Working directory for command execution.
    pub working_dir: Option<String>,
    /// Upper bound on one command's running time, in seconds.
    pub timeout_secs: u64,
    /// Whether execution reports are echoed back to the chat.
    pub echo_result: bool,
    /// A virtualenv directory to activate before each command: the
    /// command then runs as `source <dir>/bin/activate && <command>`.
    pub activate_venv: Option<String>,
    /// Most corrective attempts per failing command; 0 asks for no fix.
    pub max_fix_retries: u32,
}

fn clone_opt_string(o: &Option<String>) -> (r: Option<String>)
    ensures
        r == *o,
{
    match o {
        Some(s) => Some(s.clone()),
        None => None,
    }
}

/// Two telegram configurations carry the same data.
pub open spec fn telegram_eqv(a: TelegramConfig, b: TelegramConfig) -> bool {
    a.bot_token == b.bot_token && a.allowed_chat_ids@ == b.allowed_chat_ids@
}

impl Clone for TelegramConfig {
    fn clone(&self) -> (res: Self)
        ensures
            telegram_eqv(res, *self),
    {
        let mut ids: Vec<i64> = Vec::new();
        let n = self.allowed_chat_ids.len();
        let mut i: usize = 0;
        while i < n
            invariant
                n == self.allowed_chat_ids@.len(),
                i <= n,
                ids@ =~= self.allowed_chat_ids@.subrange(0, i as int),
            decreases n - i,
        {
            ids.push(self.allowed_chat_ids[i]);
            i += 1;
        }
        proof {
            assert(ids@ =~= self.allowed_chat_ids@);
        }
        TelegramConfig { bot_token: self.bot_token.clone(), allowed_chat_ids: ids }
    }
}

impl Clone for LlmConfig {
    fn clone(&self) -> (res: Self)
        ensures
            res == *self,
    {
        LlmConfig {
            base_url: self.base_url.clone(),
            api_key: self.api_key.clone(),
            model: self.model.clone(),
            system_prompt: clone_opt_string(&self.system_prompt),
            max_tokens: self.max_tokens,
        }
    }
}

impl Clone for ExecutorConfig {
    fn clone(&self) -> (res: Self)
        ensures
            res == *self,
    {
        ExecutorConfig {
            working_dir: clone_opt_string(&self.working_dir),
            timeout_secs: self.timeout_secs,
            echo_result: self.echo_result,
            activate_venv: clone_opt_string(&self.activate_venv),
            max_fix_retries: self.max_fix_retries,
        }
    }
}

impl Clone for AppConfig {
    fn clone(&self) -> (res: Self)
        ensures
            telegram_eqv(res.telegram, self.telegram),
            res.llm == self.llm,
            res.executor == self.executor,
            res.skills_dir == self.skills_dir,
    {
        AppConfig {
            telegram: self.telegram.clone(),
            llm: self.llm.clone(),
            executor: self.executor.clone(),
            skills_dir: clone_opt_string(&self.skills_dir),
        }
    }
}

pub fn default_max_tokens() -> (r: u32)
    ensures
        r == 2048,
{
    2048
}

pub fn default_timeout() -> (r: u64)
    ensures
        r == 120,
{
    120
}

pub fn default_true() -> (r: bool)
    ensures
        r,
{
    true
}

pub fn default_max_fix_retries() -> (r: u32)
    ensures
        r == 10,
{
    10
}

impl Default for ExecutorConfig {
    fn default() -> (c: ExecutorConfig)
        ensures
            c.working_dir is None,
            c.timeout_secs == 120,
            c.echo_result,
            c.activate_venv is None,
            c.max_fix_retries == 10,
    {
        ExecutorConfig {
            working_dir: None,
            timeout_secs: default_timeout(),
            echo_result: true,
            activate_venv: None,
            max_fix_retries: default_max_fix_retries(),
        }
    }
}

} // verus!
