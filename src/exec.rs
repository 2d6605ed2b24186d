//! The environment and argument vector of a child process. Spawning it is
//! the caller's part.
use vstd::prelude::*;

use crate::config::str_eq;
use crate::strmap::{lemma_to_map_empty, to_map, StrMap};

verus! {

/// How to run a child process.
#[derive(Debug, Clone)]
pub struct Opts {
    /// Working directory.
    pub pwd: String,
    /// Capture standard output instead of streaming it.
    pub capture: bool,
    /// Run the command through the shell.
    pub sh: bool,
    /// Keep only the allowed parent variables.
    pub reset_env: bool,
}

/// Variables that a reset environment keeps from the parent.
pub open spec fn allowed_var(name: Seq<char>) -> bool {
    name == "USER"@ || name == "HOME"@ || name == "PATH"@ || name == "TMPDIR"@ || name == "SHELL"@
        || name == "SSH_AUTH_SOCK"@ || name == "LANG"@ || name == "LC_ALL"@ || name == "TEMPDIR"@
        || name == "TERM"@ || name == "COLORTERM"@ || name == "LOGNAME"@
}

/// Whether a reset environment keeps variable `name`.
pub fn is_allowed_var(name: &str) -> (r: bool)
    ensures
        r == allowed_var(name@),
{
    str_eq(name, "USER") || str_eq(name, "HOME") || str_eq(name, "PATH") || str_eq(name, "TMPDIR")
        || str_eq(name, "SHELL") || str_eq(name, "SSH_AUTH_SOCK") || str_eq(name, "LANG") || str_eq(
        name,
        "LC_ALL",
    ) || str_eq(name, "TEMPDIR") || str_eq(name, "TERM") || str_eq(name, "COLORTERM") || str_eq(
        name,
        "LOGNAME",
    )
}

/// The variables of `pairs` over `m`, later ones overriding, keeping only
/// allowed names when `only_allowed`.
pub open spec fn env_over(m: Map<Seq<char>, Seq<char>>, pairs: Seq<(String, String)>, only_allowed: bool) -> Map<Seq<char>, Seq<char>>
    decreases pairs.len(),
{
    if pairs.len() == 0 {
        m
    } else {
        let rest = env_over(m, pairs.drop_last(), only_allowed);
        let (k, v) = pairs.last();
        if !only_allowed || allowed_var(k@) {
            rest.insert(k@, v@)
        } else {
            rest
        }
    }
}

/// The child's environment: the parent's variables (only the allowed ones
/// when `reset_env`), then the secrets, which win.
pub open spec fn child_env_spec(parent: Seq<(String, String)>, secrets: Seq<(String, String)>, reset_env: bool) -> Map<Seq<char>, Seq<char>> {
    env_over(env_over(Map::empty(), parent, reset_env), secrets, false)
}

fn add_vars(env: &mut StrMap, pairs: &[(String, String)], only_allowed: bool)
    ensures
        to_map(final(env)@) == env_over(to_map(old(env)@), pairs@, only_allowed),
{
    let ghost m0 = to_map(env@);
    let mut i: usize = 0;
    while i < pairs.len()
        invariant
            i <= pairs@.len(),
            to_map(env@) == env_over(m0, pairs@.subrange(0, i as int), only_allowed),
        decreases pairs.len() - i,
    {
        assert(pairs@.subrange(0, i + 1).drop_last() =~= pairs@.subrange(0, i as int));
        assert(pairs@.subrange(0, i + 1).last() == pairs@[i as int]);
        if !only_allowed || is_allowed_var(pairs[i].0.as_str()) {
            env.insert(pairs[i].0.clone(), pairs[i].1.clone());
        }
        i = i + 1;
    }
    assert(pairs@.subrange(0, pairs@.len() as int) =~= pairs@);
}

/// The environment of a child process: `parent` (only the allowed variables
/// when `reset_env`) overlaid with `secrets`.
pub fn child_env(parent: &[(String, String)], secrets: &[(String, String)], reset_env: bool) -> (r: StrMap)
    ensures
        to_map(r@) == child_env_spec(parent@, secrets@, reset_env),
{
    let mut env = StrMap::new();
    proof {
        lemma_to_map_empty(env@);
    }
    add_vars(&mut env, parent, reset_env);
    add_vars(&mut env, secrets, false);
    env
}

/// Some pair of `pairs` has name `k`.
pub open spec fn names(pairs: Seq<(String, String)>, k: Seq<char>) -> bool {
    exists|i: int| 0 <= i < pairs.len() && (#[trigger] pairs[i]).0@ == k
}

proof fn lemma_env_over_domain(m: Map<Seq<char>, Seq<char>>, pairs: Seq<(String, String)>, only_allowed: bool, k: Seq<char>)
    ensures
        env_over(m, pairs, only_allowed).contains_key(k) <==> (m.contains_key(k) || (names(pairs, k) && (
        !only_allowed || allowed_var(k)))),
        !names(pairs, k) && m.contains_key(k) ==> env_over(m, pairs, only_allowed)[k] == m[k],
    decreases pairs.len(),
{
    if pairs.len() > 0 {
        let init = pairs.drop_last();
        lemma_env_over_domain(m, init, only_allowed, k);
        if names(pairs, k) && !names(init, k) {
            let i = choose|i: int| 0 <= i < pairs.len() && (#[trigger] pairs[i]).0@ == k;
            if i < pairs.len() - 1 {
                assert(init[i] == pairs[i]);
            }
        }
        if names(init, k) {
            let i = choose|i: int| 0 <= i < init.len() && (#[trigger] init[i]).0@ == k;
            assert(pairs[i] == init[i]);
        }
        if pairs.last().0@ == k {
            assert(pairs[pairs.len() - 1] == pairs.last());
        }
    }
}

/// With `reset_env`, the child sees exactly the allowed parent variables and
/// the secrets, a secret winning over a parent variable of its name; without
/// it, every parent variable and the secrets.
pub proof fn lemma_child_env(parent: Seq<(String, String)>, secrets: Seq<(String, String)>, reset_env: bool)
    ensures
        forall|k: Seq<char>|
            #[trigger] child_env_spec(parent, secrets, reset_env).contains_key(k) <==> (names(secrets, k) || (
            names(parent, k) && (!reset_env || allowed_var(k)))),
        forall|k: Seq<char>|
            #[trigger] names(parent, k) && !names(secrets, k) && (!reset_env || allowed_var(k)) ==> child_env_spec(
                parent,
                secrets,
                reset_env,
            )[k] == env_over(Map::empty(), parent, reset_env)[k],
{
    assert forall|k: Seq<char>|
        #[trigger] child_env_spec(parent, secrets, reset_env).contains_key(k) <==> (names(secrets, k) || (
        names(parent, k) && (!reset_env || allowed_var(k)))) by {
        lemma_env_over_domain(Map::empty(), parent, reset_env, k);
        lemma_env_over_domain(env_over(Map::empty(), parent, reset_env), secrets, false, k);
    }
    assert forall|k: Seq<char>|
        #[trigger] names(parent, k) && !names(secrets, k) && (!reset_env || allowed_var(k)) implies child_env_spec(
            parent,
            secrets,
            reset_env,
        )[k] == env_over(Map::empty(), parent, reset_env)[k] by {
        lemma_env_over_domain(Map::empty(), parent, reset_env, k);
        lemma_env_over_domain(env_over(Map::empty(), parent, reset_env), secrets, false, k);
    }
}

/// The argument vector that runs `command` through a shell: `$SHELL -c`,
/// or `/bin/sh -c` when `shell` (the variable's value) is absent.
pub fn shell_command_argv(command: String, shell: Option<String>) -> (r: Vec<String>)
    ensures
        r@.len() == 3,
        r@[0]@ == match shell {
            Some(s) => s@,
            None => "/bin/sh"@,
        },
        r@[1]@ == "-c"@,
        r@[2]@ == command@,
{
    let sh = match shell {
        Some(s) => s,
        None => "/bin/sh".to_owned(),
    };
    vec![sh, "-c".to_owned(), command]
}

} // verus!
