//! Shell completion scripts.
use vstd::prelude::*;

use crate::action::same_settings;
use crate::text::str_eq;
use crate::Ctx;

verus! {

/// Arguments of `completion`.
pub struct CompletionArgs {
    pub shell: String,
}

/// The shells completion scripts can be made for.
#[derive(PartialEq, Eq, Structural, Clone, Copy, Debug)]
pub enum Shell {
    Zsh,
    Bash,
    Fish,
    Elvish,
}

/// The shell named `name`.
pub open spec fn shell_named(name: Seq<char>) -> Option<Shell> {
    if name == seq!['z', 's', 'h'] {
        Some(Shell::Zsh)
    } else if name == seq!['b', 'a', 's', 'h'] {
        Some(Shell::Bash)
    } else if name == seq!['f', 'i', 's', 'h'] {
        Some(Shell::Fish)
    } else if name == seq!['e', 'l', 'v', 'i', 's', 'h'] {
        Some(Shell::Elvish)
    } else {
        None
    }
}

/// The shell named `shell_name`: `zsh`, `bash`, `fish` or `elvish`.
pub fn get_shell_by_name(shell_name: &str) -> (res: Option<Shell>)
    ensures
        res == shell_named(shell_name@),
{
    proof {
        reveal_strlit("zsh");
        reveal_strlit("bash");
        reveal_strlit("fish");
        reveal_strlit("elvish");
        assert("zsh"@ =~= seq!['z', 's', 'h']);
        assert("bash"@ =~= seq!['b', 'a', 's', 'h']);
        assert("fish"@ =~= seq!['f', 'i', 's', 'h']);
        assert("elvish"@ =~= seq!['e', 'l', 'v', 'i', 's', 'h']);
    }
    if str_eq(shell_name, "zsh") {
        Some(Shell::Zsh)
    } else if str_eq(shell_name, "bash") {
        Some(Shell::Bash)
    } else if str_eq(shell_name, "fish") {
        Some(Shell::Fish)
    } else if str_eq(shell_name, "elvish") {
        Some(Shell::Elvish)
    } else {
        None
    }
}

/// `no such shell: <name>` and a line break.
pub open spec fn no_shell_text(name: Seq<char>) -> Seq<char> {
    seq!['n', 'o', ' ', 's', 'u', 'c', 'h', ' ', 's', 'h', 'e', 'l', 'l', ':', ' '] + name + seq!['\n']
}

/// The shell to write a completion script for; when there is no such
/// shell, it is reported instead.
pub fn cmd(ctx: &mut Ctx, args: CompletionArgs) -> (res: Option<Shell>)
    ensures
        res == shell_named(args.shell@),
        final(ctx).project == old(ctx).project,
        same_settings(final(ctx), old(ctx)),
        final(ctx).code == old(ctx).code,
        final(ctx).stdout == old(ctx).stdout,
        final(ctx).stderr@ == old(ctx).stderr@ + if res is None {
            no_shell_text(args.shell@)
        } else {
            Seq::empty()
        },
{
    let shell = get_shell_by_name(args.shell.as_str());
    if shell.is_none() {
        let ghost before = ctx.stderr@;
        ctx.eprint("no such shell: ");
        ctx.eprint(args.shell.as_str());
        ctx.eprint("\n");
        proof {
            reveal_strlit("no such shell: ");
            reveal_strlit("\n");
            assert(ctx.stderr@ =~= before + no_shell_text(args.shell@));
        }
    } else {
        assert(ctx.stderr@ =~= old(ctx).stderr@ + Seq::<char>::empty());
    }
    shell
}

} // verus!
