//! Reading and changing the user configuration.
use vstd::prelude::*;

use crate::action::same_settings;
use crate::config::Config;
use crate::text::{owned, str_eq};
use crate::{refuse, Ctx, QuartzResult};
use crate::action::{carried_out, handed_back, unit_of};
use crate::cli::ConfigCmd;

verus! {

/// Arguments of `config get`.
pub struct GetArgs {
    pub key: String,
}

/// Arguments of `config set`.
pub struct SetArgs {
    pub key: String,
    pub value: String,
}

/// `preferences.editor`.
pub open spec fn editor_key() -> Seq<char> {
    seq!['p', 'r', 'e', 'f', 'e', 'r', 'e', 'n', 'c', 'e', 's', '.', 'e', 'd', 'i', 't', 'o', 'r']
}

/// `preferences.pager`.
pub open spec fn pager_key() -> Seq<char> {
    seq!['p', 'r', 'e', 'f', 'e', 'r', 'e', 'n', 'c', 'e', 's', '.', 'p', 'a', 'g', 'e', 'r']
}

/// `ui.colors`.
pub open spec fn colors_key() -> Seq<char> {
    seq!['u', 'i', '.', 'c', 'o', 'l', 'o', 'r', 's']
}

/// The value a configuration key shows.
pub open spec fn config_value(ctx: &Ctx, key: Seq<char>) -> Seq<char> {
    if key == editor_key() {
        match ctx.config.preferences.spec_editor() {
            Some(e) => e,
            None => match ctx.system.editor {
                Some(e) => e@,
                None => seq!['v', 'i', 'm'],
            },
        }
    } else if key == pager_key() {
        match ctx.config.preferences.spec_pager() {
            Some(e) => e,
            None => match ctx.system.pager {
                Some(e) => e@,
                None => seq!['l', 'e', 's', 's'],
            },
        }
    } else if !ctx.system.no_color && match ctx.config.ui.spec_colors() {
        Some(c) => c,
        None => true,
    } {
        seq!['t', 'r', 'u', 'e']
    } else {
        seq!['f', 'a', 'l', 's', 'e']
    }
}

/// Whether `key` is a configuration key.
pub open spec fn is_config_key(key: Seq<char>) -> bool {
    key == editor_key() || key == pager_key() || key == colors_key()
}

/// The text of a configuration key written `key`, one of the three.
pub(crate) fn key_kind(key: &str) -> (res: u8)
    ensures
        res == 0 <==> key@ == editor_key(),
        res == 1 <==> key@ == pager_key(),
        res == 2 <==> key@ == colors_key(),
        res == 3 <==> !is_config_key(key@),
{
    proof {
        reveal_strlit("preferences.editor");
        reveal_strlit("preferences.pager");
        reveal_strlit("ui.colors");
        assert("preferences.editor"@ =~= editor_key());
        assert("preferences.pager"@ =~= pager_key());
        assert("ui.colors"@ =~= colors_key());
    }
    if str_eq(key, "preferences.editor") {
        0
    } else if str_eq(key, "preferences.pager") {
        1
    } else if str_eq(key, "ui.colors") {
        2
    } else {
        3
    }
}

/// What `get` does: how the context after it relates to the one before.
pub open spec fn got(before: &Ctx, after: &Ctx, args: GetArgs, res: QuartzResult) -> bool {
    &&& after.project == before.project
    &&& same_settings(after, before)
    &&& after.code == before.code
    &&& after.stderr == before.stderr
    &&& res is Ok <==> is_config_key(args.key@)
    &&& res is Err ==> *after == *before
    &&& res is Ok ==> after.stdout@ == before.stdout@ + config_value(before, args.key@) + seq!['\n']
}

/// Prints the value of the configuration key `args.key` and a line break.
///
/// Needs the key to be one of `preferences.editor`, `preferences.pager`
/// and `ui.colors`.
pub fn get(ctx: &mut Ctx, args: GetArgs) -> (res: QuartzResult)
    requires
        is_config_key(args.key@),
    ensures
        got(old(ctx), final(ctx), args, res),
{
    let kind = key_kind(args.key.as_str());
    let value = if kind == 0 {
        let e = match &ctx.system.editor {
            Some(e) => Some(e.as_str()),
            None => None,
        };
        ctx.config.preferences.editor(e)
    } else if kind == 1 {
        let p = match &ctx.system.pager {
            Some(p) => Some(p.as_str()),
            None => None,
        };
        ctx.config.preferences.pager(p)
    } else if kind == 2 {
        proof {
            reveal_strlit("true");
            reveal_strlit("false");
        }
        if ctx.config.ui.colors(ctx.system.no_color) {
            owned("true")
        } else {
            owned("false")
        }
    } else {
        return Err(refuse("invalid key", "", ""));
    };
    let ghost before = ctx.stdout@;
    ctx.print(value.as_str());
    ctx.print("\n");
    proof {
        reveal_strlit("\n");
        assert(ctx.stdout@ =~= before + config_value(old(ctx), args.key@) + seq!['\n']);
    }
    Ok(())
}

/// What `set` does: how the context after it relates to the one before.
pub open spec fn was_set(before: &Ctx, after: &Ctx, args: SetArgs, res: QuartzResult) -> bool {
    &&& after.project == before.project
    &&& after.args == before.args
    &&& after.state == before.state
    &&& after.system == before.system
    &&& after.path == before.path
    &&& after.stdout == before.stdout
    &&& after.stderr == before.stderr
    &&& after.code == before.code
    &&& res is Ok <==> is_config_key(args.key@)
    &&& res is Err ==> *after == *before
    &&& res is Ok ==> ({
        let c = after.config;
        let o = before.config;
        &&& c.preferences.spec_editor() == (if args.key@ == editor_key() {
            Some(args.value@)
        } else {
            o.preferences.spec_editor()
        })
        &&& c.preferences.spec_pager() == (if args.key@ == pager_key() {
            Some(args.value@)
        } else {
            o.preferences.spec_pager()
        })
        &&& c.ui.spec_colors() == (if args.key@ == colors_key() {
            Some(args.value@ == seq!['t', 'r', 'u', 'e'])
        } else {
            o.ui.spec_colors()
        })
    })
}

/// Sets the configuration key `args.key` to `args.value`; for `ui.colors`,
/// colours are on exactly when the value is `true`.
///
/// Needs a configuration key.
pub fn set(ctx: &mut Ctx, args: SetArgs) -> (res: QuartzResult)
    requires
        is_config_key(args.key@),
    ensures
        was_set(old(ctx), final(ctx), args, res),
{
    let kind = key_kind(args.key.as_str());
    if kind == 0 {
        ctx.config.preferences.set_editor(args.value.as_str());
    } else if kind == 1 {
        ctx.config.preferences.set_pager(args.value.as_str());
    } else if kind == 2 {
        proof {
            reveal_strlit("true");
            assert("true"@ =~= seq!['t', 'r', 'u', 'e']);
        }
        let on = str_eq(args.value.as_str(), "true");
        ctx.config.ui.set_colors(on);
    } else {
        return Err(refuse("invalid key", "", ""));
    }
    Ok(())
}

/// Whether the `config` command `command` can run: the key read or set is a
/// configuration key.
pub open spec fn runnable(command: ConfigCmd) -> bool {
    match command {
        ConfigCmd::Get(a) => is_config_key(a.key@),
        ConfigCmd::Put(a) => is_config_key(a.key@),
        _ => true,
    }
}

/// What the `config` command `command` does; editing and printing the
/// configuration file are handed back to the caller.
pub open spec fn ran(before: &Ctx, after: &Ctx, command: ConfigCmd, res: QuartzResult<Option<ConfigCmd>>) -> bool {
    match command {
        ConfigCmd::Edit => handed_back(before, after, ConfigCmd::Edit, res),
        ConfigCmd::Ls => handed_back(before, after, ConfigCmd::Ls, res),
        ConfigCmd::Get(a) => carried_out(res) && got(before, after, a, unit_of(res)),
        ConfigCmd::Put(a) => carried_out(res) && was_set(before, after, a, unit_of(res)),
    }
}

/// Runs a `config` command; `edit` and `ls` are handed back, as they need
/// the configuration file.
pub fn cmd(ctx: &mut Ctx, command: ConfigCmd) -> (res: QuartzResult<Option<ConfigCmd>>)
    requires
        runnable(command),
    ensures
        ran(old(ctx), final(ctx), command, res),
{
    let r = match command {
        ConfigCmd::Edit => return Ok(Some(ConfigCmd::Edit)),
        ConfigCmd::Ls => return Ok(Some(ConfigCmd::Ls)),
        ConfigCmd::Get(a) => get(ctx, a),
        ConfigCmd::Put(a) => set(ctx, a),
    };
    match r {
        Ok(()) => Ok(None),
        Err(e) => Err(e),
    }
}

} // verus!
