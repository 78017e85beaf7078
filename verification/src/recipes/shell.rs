//! Shell actions: the configuration defaulting and naming behind actions
//! that run a configured command line. Spawning processes, environment
//! reads and temporary files are the caller's work.
use vstd::prelude::*;

use crate::recipes::Action;

verus! {

/// One shell action's configuration as a document declares it: every part
/// is optional and falls back to the project-wide defaults.
#[derive(Debug)]
pub struct ShellConfig {
    pub shell: Option<String>,
    pub extension: Option<String>,
    pub params: Option<Vec<String>>,
    pub env: Option<Vec<(String, String)>>,
    pub eval_env: Option<Vec<(String, String)>>,
    pub cwd: Option<String>,
    pub help: Option<String>,
    pub priority: Option<bool>,
    pub command: Option<String>,
    pub completion: Option<String>,
}

/// A shell action's configuration with every part settled: the action's own
/// value where set, else the project default, else the stock fallback.
#[derive(Debug)]
pub struct CompleteShellConfig {
    pub shell: String,
    pub extension: String,
    pub params: Vec<String>,
    pub env: Vec<(String, String)>,
    pub eval_env: Vec<(String, String)>,
    pub cwd: String,
    pub command: String,
    pub completion: Option<String>,
}

/// A copy of a list of strings.
fn copy_strings(v: &Vec<String>) -> (r: Vec<String>)
    ensures
        r@ == v@,
{
    let mut out: Vec<String> = Vec::new();
    let mut i: usize = 0;
    while i < v.len()
        invariant
            i <= v.len(),
            out@.len() == i,
            forall|m: int| 0 <= m < i ==> out@[m] == v@[m],
        decreases v.len() - i,
    {
        out.push(v[i].clone());
        i = i + 1;
    }
    proof {
        assert(out@ =~= v@);
    }
    out
}

/// A copy of a list of string pairs.
fn copy_pairs(v: &Vec<(String, String)>) -> (r: Vec<(String, String)>)
    ensures
        r@ == v@,
{
    let mut out: Vec<(String, String)> = Vec::new();
    let mut i: usize = 0;
    while i < v.len()
        invariant
            i <= v.len(),
            out@.len() == i,
            forall|m: int| 0 <= m < i ==> out@[m] == v@[m],
        decreases v.len() - i,
    {
        out.push((v[i].0.clone(), v[i].1.clone()));
        i = i + 1;
    }
    proof {
        assert(out@ =~= v@);
    }
    out
}

impl CompleteShellConfig {
    /// Settle a shell action's configuration against the project defaults:
    /// each part takes the action's own value, else the default, else the
    /// stock fallback — "/bin/sh", no extension, no parameters, an empty
    /// environment, and the caller's working directory.
    pub fn new(config: &ShellConfig, default: &ShellConfig, fallback_cwd: String) -> (r:
        CompleteShellConfig)
        requires
            config.command is Some,
        ensures
            r.shell == (match (config.shell, default.shell) {
                (Some(s), _) => s,
                (None, Some(s)) => s,
                (None, None) => r.shell,
            }),
            config.shell is None && default.shell is None ==> r.shell@ == "/bin/sh"@,
            r.extension == (match (config.extension, default.extension) {
                (Some(s), _) => s,
                (None, Some(s)) => s,
                (None, None) => r.extension,
            }),
            config.extension is None && default.extension is None ==> r.extension@ == Seq::<
                char,
            >::empty(),
            r.params@ == (match (config.params, default.params) {
                (Some(s), _) => s@,
                (None, Some(s)) => s@,
                (None, None) => Seq::<String>::empty(),
            }),
            r.env@ == (match (config.env, default.env) {
                (Some(s), _) => s@,
                (None, Some(s)) => s@,
                (None, None) => Seq::<(String, String)>::empty(),
            }),
            r.eval_env@ == (match (config.eval_env, default.eval_env) {
                (Some(s), _) => s@,
                (None, Some(s)) => s@,
                (None, None) => Seq::<(String, String)>::empty(),
            }),
            r.cwd == (match (config.cwd, default.cwd) {
                (Some(s), _) => s,
                (None, Some(s)) => s,
                (None, None) => fallback_cwd,
            }),
            r.command == config.command->Some_0,
            r.completion == config.completion,
    {
        let shell = match &config.shell {
            Some(s) => s.clone(),
            None => match &default.shell {
                Some(s) => s.clone(),
                None => "/bin/sh".to_owned(),
            },
        };
        proof {
            reveal_strlit("/bin/sh");
        }
        let extension = match &config.extension {
            Some(s) => s.clone(),
            None => match &default.extension {
                Some(s) => s.clone(),
                None => String::new(),
            },
        };
        let params = match &config.params {
            Some(s) => copy_strings(s),
            None => match &default.params {
                Some(s) => copy_strings(s),
                None => Vec::new(),
            },
        };
        let env = match &config.env {
            Some(s) => copy_pairs(s),
            None => match &default.env {
                Some(s) => copy_pairs(s),
                None => Vec::new(),
            },
        };
        let eval_env = match &config.eval_env {
            Some(s) => copy_pairs(s),
            None => match &default.eval_env {
                Some(s) => copy_pairs(s),
                None => Vec::new(),
            },
        };
        let cwd = match &config.cwd {
            Some(s) => s.clone(),
            None => match &default.cwd {
                Some(s) => s.clone(),
                None => fallback_cwd,
            },
        };
        let command = match &config.command {
            Some(s) => s.clone(),
            None => String::new(),
        };
        let completion = match &config.completion {
            Some(s) => Some(s.clone()),
            None => None,
        };
        CompleteShellConfig { shell, extension, params, env, eval_env, cwd, command, completion }
    }
}

/// The qualified name of a shell action: "shell." and its key.
pub open spec fn shell_name(n: Seq<char>) -> Seq<char> {
    "shell."@ + n
}

/// A shell action's resolvable form: qualified under "shell.", shown under
/// its own key, with the configured priority (priority by default) and the
/// configured help (the action's own, else the default's, else a stock
/// sentence).
pub fn shell_action(subname: &str, config: &ShellConfig, default: &ShellConfig) -> (r: Action)
    ensures
        r@.name == shell_name(subname@),
        r@.subname == subname@,
        r@.priority == (match config.priority {
            Some(b) => b,
            None => true,
        }),
        r@.help == (match (config.help, default.help) {
            (Some(h), _) => h@,
            (None, Some(h)) => h@,
            (None, None) => "This shell action does not have a help message"@,
        }),
{
    let mut name = "shell.".to_owned();
    name.append(subname);
    proof {
        reveal_strlit("shell.");
    }
    let priority = match &config.priority {
        Some(b) => *b,
        None => true,
    };
    let help = match &config.help {
        Some(h) => h.clone(),
        None => match &default.help {
            Some(h) => h.clone(),
            None => "This shell action does not have a help message".to_owned(),
        },
    };
    Action { name, subname: subname.to_owned(), priority, help }
}

} // verus!
