//! The compute half of the command runner.
//!
//! Running a child process is I/O and stays outside the library; what is
//! verified here is everything around it: the command actually handed to
//! the shell (virtualenv activation), and the exact `CommandResult` built
//! for each of the three outcomes a run can have — completion, timeout,
//! and spawn failure.  A run never surfaces an error to the caller: every
//! outcome becomes a result record.

use vstd::prelude::*;
use crate::config::ExecutorConfig;
use crate::model::CommandResult;
use crate::text::dec_digits;
use crate::text::u64_to_dec;

verus! {

/// What `String::from_utf8_lossy` returns for given bytes: valid UTF-8
/// decoded, invalid sequences replaced.  The mapping is pinned down by
/// the UTF-8 tables, so it is left uninterpreted and contracts speak of
/// it by this name.
pub uninterp spec fn lossy_of(b: Seq<u8>) -> Seq<char>;

/// Relies on `String::from_utf8_lossy`: the result depends on the bytes
/// alone, and empty input gives an empty text.
#[verifier::external_body]
fn lossy_string(b: &[u8]) -> (r: String)
    ensures
        r@ == lossy_of(b@),
        b@.len() == 0 ==> r@.len() == 0,
{
    String::from_utf8_lossy(b).into_owned()
}

/// Runs commands through a shell; this verified side holds the
/// configuration and shapes commands and results, the caller performs
/// the actual process I/O.
pub struct Executor {
    config: ExecutorConfig,
}

impl Executor {
    pub closed spec fn cfg(&self) -> ExecutorConfig {
        self.config
    }

    pub fn new(config: ExecutorConfig) -> (e: Executor)
        ensures
            e.cfg() == config,
    {
        Executor { config }
    }

    pub fn config(&self) -> (r: &ExecutorConfig)
        ensures
            *r == self.cfg(),
    {
        &self.config
    }

    /// The command line actually handed to the shell: the planned command,
    /// prefixed with a virtualenv activation step when one is configured.
    pub fn effective_command(&self, cmd: &str) -> (r: String)
        ensures
            r@ == effective_command_spec(self.cfg(), cmd@),
    {
        match &self.config.activate_venv {
            Some(v) => {
                let mut s = String::from_str("source ");
                s.append(v.as_str());
                s.append("/bin/activate && ");
                s.append(cmd);
                s
            },
            None => cmd.to_owned(),
        }
    }
}

pub open spec fn effective_command_spec(cfg: ExecutorConfig, cmd: Seq<char>) -> Seq<char> {
    match cfg.activate_venv {
        Some(v) => "source "@ + v@ + "/bin/activate && "@ + cmd,
        None => cmd,
    }
}

/// The result of a run that completed: the captured output decoded
/// lossily, so garbled bytes can never fail a run.
pub fn run_outcome_result(
    cmd: &str,
    success: bool,
    exit_code: Option<i32>,
    stdout: &[u8],
    stderr: &[u8],
) -> (r: CommandResult)
    ensures
        r.command@ == cmd@,
        r.success == success,
        r.exit_code == exit_code,
        r.stdout@ == lossy_of(stdout@),
        r.stderr@ == lossy_of(stderr@),
{
    CommandResult {
        command: cmd.to_owned(),
        success,
        exit_code,
        stdout: lossy_string(stdout),
        stderr: lossy_string(stderr),
    }
}

/// The result of a run whose child was cut off by the timeout: a
/// failure with no exit code and a timeout explanation.
pub fn timeout_result(cmd: &str, timeout_secs: u64) -> (r: CommandResult)
    ensures
        r.command@ == cmd@,
        !r.success,
        r.exit_code is None,
        r.stdout@.len() == 0,
        r.stderr@ == "命令超时 ("@ + dec_digits(timeout_secs as int) + " 秒): "@ + cmd@,
{
    let mut stderr = String::from_str("命令超时 (");
    stderr.append(u64_to_dec(timeout_secs).as_str());
    stderr.append(" 秒): ");
    stderr.append(cmd);
    CommandResult {
        command: cmd.to_owned(),
        success: false,
        exit_code: None,
        stdout: String::new(),
        stderr,
    }
}

/// The result of a run whose child could not be spawned: a failure with
/// no exit code and the error text.
pub fn spawn_failure_result(cmd: &str, err: &str) -> (r: CommandResult)
    ensures
        r.command@ == cmd@,
        !r.success,
        r.exit_code is None,
        r.stdout@.len() == 0,
        r.stderr@ == "命令执行失败: "@ + cmd@ + ": "@ + err@,
{
    let mut stderr = String::from_str("命令执行失败: ");
    stderr.append(cmd);
    stderr.append(": ");
    stderr.append(err);
    CommandResult {
        command: cmd.to_owned(),
        success: false,
        exit_code: None,
        stdout: String::new(),
        stderr,
    }
}

} // verus!
