//! The command line with which a target is run.

use vstd::prelude::*;
use vstd::string::StringExecFns;
use crate::target::text_of;
use crate::text::{join, join_strings, texts};

verus! {

/// How a target is to be run.
#[derive(Debug, Clone)]
pub struct ExecuteOptions {
    /// Only say what would be run.
    pub dry_run: bool,
    /// Say what is run before running it.
    pub print_cmd: bool,
    /// The directory to run in.
    pub cwd: Option<String>,
    /// The Makefile to use in place of the default one.
    pub makefile: Option<String>,
    /// The variables to pass, each with its value.
    pub variables: Vec<(String, String)>,
}

impl Default for ExecuteOptions {
    fn default() -> (r: ExecuteOptions)
        ensures
            !r.dry_run,
            !r.print_cmd,
            r.cwd is None,
            r.makefile is None,
            r.variables@.len() == 0,
    {
        ExecuteOptions {
            dry_run: false,
            print_cmd: false,
            cwd: None,
            makefile: None,
            variables: Vec::new(),
        }
    }
}

/// One variable with its value, as Make takes it: `NAME=value`.
pub open spec fn assignment(name: Seq<char>, value: Seq<char>) -> Seq<char> {
    name + seq!['='] + value
}

/// The variables of `vars`, each as an assignment.
pub open spec fn assignments(vars: Seq<(String, String)>) -> Seq<Seq<char>> {
    Seq::new(vars.len(), |i: int| assignment(vars[i].0@, vars[i].1@))
}

/// The words of the command that runs `target`: `make`, then `-f` and the
/// Makefile where one is given, then the target, then the assignments.
pub open spec fn command_words(
    target: Seq<char>,
    makefile: Option<Seq<char>>,
    vars: Seq<(String, String)>,
) -> Seq<Seq<char>> {
    let file = match makefile {
        Some(m) => seq!["-f"@, m],
        None => Seq::empty(),
    };
    seq!["make"@] + file + seq![target] + assignments(vars)
}

/// The words of the command that runs `target` under `options`.
pub fn build_command(target: &str, options: &ExecuteOptions) -> (r: Vec<String>)
    ensures
        texts(r@) == command_words(target@, text_of(options.makefile), options.variables@),
{
    let mut args: Vec<String> = Vec::new();
    args.push("make".to_owned());
    match &options.makefile {
        Some(makefile) => {
            args.push("-f".to_owned());
            args.push(makefile.clone());
        },
        None => {},
    }
    args.push(target.to_owned());
    let ghost head = texts(args@);
    assert(head == command_words(target@, text_of(options.makefile), Seq::empty()));
    let mut i: usize = 0;
    while i < options.variables.len()
        invariant
            i <= options.variables.len(),
            texts(args@) == head + assignments(options.variables@).take(i as int),
        decreases options.variables.len() - i,
    {
        let ghost before = texts(args@);
        let mut word = options.variables[i].0.clone();
        word.push('=');
        word.append(options.variables[i].1.as_str());
        assert(word@ =~= assignment(options.variables@[i as int].0@, options.variables@[i as int].1@));
        args.push(word);
        assert(texts(args@) == before.push(assignments(options.variables@)[i as int]));
        i += 1;
    }
    assert(assignments(options.variables@).take(i as int) == assignments(options.variables@));
    args
}

/// The command as one line: its words with single spaces between them.
pub fn format_command(cmd: &Vec<String>) -> (r: String)
    ensures
        r@ == join(texts(cmd@), seq![' ']),
{
    proof {
        reveal_strlit(" ");
        assert(" "@ =~= seq![' ']);
    }
    join_strings(cmd, " ")
}

} // verus!
