//! Initializing a project directory.
use vstd::prelude::*;

use crate::text::{owned, push_str};

use crate::paint::{show, shown, Paint};

verus! {

/// Arguments of `init`.
pub struct Args {
    /// Where to initialize; the current directory when none is given.
    pub directory: Option<String>,
}

/// What initializing a project does: the directories to create, in order,
/// the lines to add to `.gitignore` when there is one to add to, and what
/// to print.
pub struct InitPlan {
    pub quartz_dir: String,
    pub dirs: Vec<String>,
    pub gitignore: Option<(String, String)>,
    pub output: String,
}

/// The directories of a new project, under its `.quartz` directory.
pub open spec fn project_dirs() -> Seq<Seq<char>> {
    seq![
        seq!['e', 'n', 'd', 'p', 'o', 'i', 'n', 't', 's'],
        seq!['u', 's', 'e', 'r'],
        seq!['u', 's', 'e', 'r', '/', 'h', 'i', 's', 't', 'o', 'r', 'y'],
        seq!['u', 's', 'e', 'r', '/', 's', 't', 'a', 't', 'e'],
        seq!['e', 'n', 'v'],
        seq!['e', 'n', 'v', '/', 'd', 'e', 'f', 'a', 'u', 'l', 't'],
    ]
}

/// `<directory>/.quartz`.
pub open spec fn quartz_dir_of(directory: Seq<char>) -> Seq<char> {
    directory + seq!['/', '.', 'q', 'u', 'a', 'r', 't', 'z']
}

/// The lines added to `.gitignore`.
pub open spec fn gitignore_lines() -> Seq<char> {
    seq!['\n', '#', ' ', 'Q', 'u', 'a', 'r', 't', 'z', '\n', '.', 'q', 'u', 'a', 'r', 't', 'z', '/', 'u', 's', 'e', 'r', '\n']
        + seq!['.', 'q', 'u', 'a', 'r', 't', 'z', '/', 'e', 'n', 'v', '/', '*', '*', '/', 'c', 'o', 'o', 'k', 'i', 'e', 's']
}

/// What is printed when a `.git` directory is found, the file name in green
/// when `colors` is on.
pub open spec fn git_text(colors: bool) -> Seq<char> {
    seq!['G', 'i', 't', ' ', 'd', 'e', 't', 'e', 'c', 't', 'e', 'd', '\n'] + seq![
        'A', 'd', 'd', 'i', 'n', 'g', ' ', 'u', 's', 'e', 'r', ' ', 'f', 'i', 'l', 'e', 's', ' ', 't', 'o', ' ',
    ] + shown(seq!['.', 'g', 'i', 't', 'i', 'g', 'n', 'o', 'r', 'e'], Some(Paint::Green), colors) + seq!['\n']
}

/// The directory `init` works in: the one given, else `.`.
pub open spec fn init_dir(args: &Args) -> Seq<char> {
    match args.directory {
        Some(d) => d@,
        None => seq!['.'],
    }
}

/// Plans the initialization of a project in `args.directory`, given whether
/// it holds a `.git` directory; `colors` says whether output is coloured.
/// The caller has made sure the directory is not initialized yet, as the
/// program stops there.
pub fn cmd(args: Args, git_exists: bool, colors: bool) -> (plan: InitPlan)
    ensures
        ({
            let q = quartz_dir_of(init_dir(&args));
            &&& plan.quartz_dir@ == q
            &&& plan.dirs@.len() == project_dirs().len()
            &&& forall|i: int| 0 <= i < plan.dirs@.len() ==> (#[trigger] plan.dirs@[i])@ == q + seq!['/']
                + project_dirs()[i]
            &&& if git_exists {
                plan.gitignore matches Some((path, text)) && path@ == init_dir(&args) + seq![
                    '/',
                    '.',
                    'g',
                    'i',
                    't',
                    'i',
                    'g',
                    'n',
                    'o',
                    'r',
                    'e',
                ] && text@ == gitignore_lines() && plan.output@ == git_text(colors)
            } else {
                plan.gitignore is None && plan.output@.len() == 0
            }
        }),
{
    proof {
        reveal_strlit(".");
    }
    let directory = match &args.directory {
        Some(d) => d.clone(),
        None => owned("."),
    };
    let mut quartz_dir = directory.clone();
    push_str(&mut quartz_dir, "/.quartz");
    proof {
        reveal_strlit("/.quartz");
        reveal_strlit("endpoints");
        reveal_strlit("user");
        reveal_strlit("user/history");
        reveal_strlit("user/state");
        reveal_strlit("env");
        reveal_strlit("env/default");
        reveal_strlit("/");
    }
    let names = ["endpoints", "user", "user/history", "user/state", "env", "env/default"];
    let mut dirs: Vec<String> = Vec::new();
    let mut i: usize = 0;
    while i < 6
        invariant
            i <= 6,
            names@.len() == 6,
            forall|k: int| 0 <= k < 6 ==> (#[trigger] names@[k])@ == project_dirs()[k],
            dirs@.len() == i,
            forall|k: int| 0 <= k < i ==> (#[trigger] dirs@[k])@ == quartz_dir@ + seq!['/'] + project_dirs()[k],
        decreases 6 - i,
    {
        let mut d = quartz_dir.clone();
        push_str(&mut d, "/");
        push_str(&mut d, names[i]);
        proof {
            reveal_strlit("/");
            assert(d@ =~= quartz_dir@ + seq!['/'] + project_dirs()[i as int]);
        }
        let ghost before = dirs@;
        dirs.push(d);
        assert(forall|k: int| 0 <= k < i ==> dirs@[k] == before[k]);
        i = i + 1;
    }
    let (gitignore, output) = if git_exists {
        let mut path = directory.clone();
        push_str(&mut path, "/.gitignore");
        proof {
            reveal_strlit("/.gitignore");
            reveal_strlit("\n# Quartz\n.quartz/user\n.quartz/env/**/cookies");
            reveal_strlit("Git detected\nAdding user files to ");
            reveal_strlit(".gitignore");
            reveal_strlit("\n");
        }
        let text = owned("\n# Quartz\n.quartz/user\n.quartz/env/**/cookies");
        assert(text@ =~= gitignore_lines());
        let mut out = owned("Git detected\nAdding user files to ");
        let name = show(".gitignore", Some(Paint::Green), colors);
        push_str(&mut out, name.as_str());
        push_str(&mut out, "\n");
        assert(".gitignore"@ =~= seq!['.', 'g', 'i', 't', 'i', 'g', 'n', 'o', 'r', 'e']);
        assert(out@ =~= git_text(colors));
        (Some((path, text)), out)
    } else {
        (None, String::new())
    };
    InitPlan { quartz_dir, dirs, gitignore, output }
}

} // verus!
