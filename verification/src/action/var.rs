//! The variables of the environment in use.
use vstd::prelude::*;

use crate::action::pairs::{all_pairs, first_bad, fold_pairs, remove_keys, rm_keys, set_all};
use crate::action::{env_headers, env_rewritten, env_variables, malformed_variable, same_settings};
use crate::context::{pairs_text, Variables};
use crate::text::views;
use crate::{refuse, Ctx, QuartzCode, QuartzResult};
use crate::action::{carried_out, handed_back, unit_of};
use crate::cli::VarCmd;

verus! {

/// Arguments of `var get`.
pub struct GetArgs {
    pub key: String,
}

/// Arguments of `var set`.
pub struct SetArgs {
    pub variables: Vec<String>,
}

/// Arguments of `var rm`.
pub struct RmArgs {
    pub keys: Vec<String>,
}

/// `: No such variable` and a line break.
pub open spec fn missing_text() -> Seq<char> {
    seq![':', ' ', 'N', 'o', ' ', 's', 'u', 'c', 'h', ' ', 'v', 'a', 'r', 'i', 'a', 'b', 'l', 'e', '\n']
}

/// What `get` does: how the context after it relates to the one before.
pub open spec fn got(before: &Ctx, after: &Ctx, args: GetArgs, res: QuartzResult) -> bool {
    &&& after.project == before.project
    &&& same_settings(after, before)
    &&& after.code == before.code
    &&& after.stderr == before.stderr
    &&& res is Ok <==> env_variables(before).contains_key(args.key@)
    &&& res is Err ==> *after == *before
    &&& res is Ok ==> after.stdout@ == before.stdout@ + env_variables(before)[args.key@] + seq!['\n']
}

/// Prints the value of the variable `key` of the environment in use.
///
/// Refused when it is not set.
pub fn get(ctx: &mut Ctx, args: GetArgs) -> (res: QuartzResult)
    requires
        env_variables(old(ctx)).contains_key(args.key@),
    ensures
        got(old(ctx), final(ctx), args, res),
{
    let env = ctx.require_env();
    assert(env.variables.0.map() =~= env_variables(ctx));
    match env.variables.0.get(args.key.as_str()) {
        Some(v) => {
            let ghost before = ctx.stdout@;
            ctx.print(v.as_str());
            ctx.print("\n");
            proof {
                reveal_strlit("\n");
                assert(ctx.stdout@ =~= before + env_variables(old(ctx))[args.key@] + seq!['\n']);
            }
            Ok(())
        },
        None => Err(refuse(args.key.as_str(), " variable not set", "")),
    }
}

/// What `set` does: how the context after it relates to the one before.
pub open spec fn was_set(before: &Ctx, after: &Ctx, args: SetArgs, res: QuartzResult) -> bool {
    &&& after.project.wf()
    &&& same_settings(after, before)
    &&& after.code == before.code
    &&& after.stdout == before.stdout
    &&& after.stderr == before.stderr
    &&& res is Ok <==> all_pairs::<Variables>(views(args.variables@))
    &&& res is Err ==> *after == *before
    &&& res is Ok ==> env_rewritten(before, after) && env_variables(after) == fold_pairs::<Variables>(env_variables(before), views(args.variables@)) && env_headers(after) == env_headers(before)
}

/// Sets, in order, the `key=value` variables of `args.variables` in the
/// environment in use.
///
/// Needs well-formed inputs.
pub fn set(ctx: &mut Ctx, args: SetArgs) -> (res: QuartzResult)
    requires
        all_pairs::<Variables>(views(args.variables@)),
        old(ctx).project.wf(),
    ensures
        was_set(old(ctx), final(ctx), args, res),
{
    let mut env = ctx.require_env();
    if first_bad::<Variables>(&args.variables).is_some() {
        return Err(malformed_variable());
    }
    assert(env.variables.0.map() =~= env_variables(ctx));
    assert(env.headers.0.map() =~= env_headers(ctx));
    set_all(&mut env.variables, &args.variables);
    ctx.project.put_env(env);
    Ok(())
}

/// What `rm` does: how the context after it relates to the one before.
pub open spec fn removed(before: &Ctx, after: &Ctx, args: RmArgs, res: QuartzResult) -> bool {
    &&& res is Ok
    &&& after.project.wf()
    &&& same_settings(after, before)
    &&& after.stdout == before.stdout
    &&& env_rewritten(before, after)
    &&& env_headers(after) == env_headers(before)
    &&& ({
        let (m, out, err, failed) = rm_keys(env_variables(before), views(args.keys@), Seq::empty(), missing_text());
        &&& env_variables(after) == m
        &&& after.stderr@ == before.stderr@ + err
        &&& after.code == (if failed {
            QuartzCode::Error
        } else {
            before.code
        })
    })
}

/// Removes, in order, the variables `keys` from the environment in use;
/// reports each key missing and fails the run when one is missing.
pub fn rm(ctx: &mut Ctx, args: RmArgs) -> (res: QuartzResult)
    requires
        old(ctx).project.wf(),
    ensures
        removed(old(ctx), final(ctx), args, res),
{
    let mut env = ctx.require_env();
    assert(env.variables.0.map() =~= env_variables(ctx));
    assert(env.headers.0.map() =~= env_headers(ctx));
    proof {
        reveal_strlit("");
        assert(""@ =~= Seq::<char>::empty());
        reveal_strlit(": No such variable\n");
        assert(": No such variable\n"@ =~= missing_text());
    }
    let (_, err, failed) = remove_keys(&mut env.variables.0, &args.keys, "", ": No such variable\n");
    ctx.project.put_env(env);
    ctx.eprint(err.as_str());
    if failed {
        ctx.code(QuartzCode::Error);
    }
    Ok(())
}

/// What `ls` does: how the context after it relates to the one before.
pub open spec fn listed(before: &Ctx, after: &Ctx, res: QuartzResult) -> bool {
    &&& res is Ok
    &&& after.project == before.project
    &&& same_settings(after, before)
    &&& after.code == before.code
    &&& after.stderr == before.stderr
    &&& after.stdout@ == before.stdout@ + (match before.project.env(before.env_name()) {
        Some(c) => pairs_text(c.variables.0.pairs(), seq!['=']),
        None => Seq::empty(),
    })
}

/// Prints the variables of the environment in use, one `key=value` per
/// line.
pub fn ls(ctx: &mut Ctx) -> (res: QuartzResult)
    ensures
        listed(old(ctx), final(ctx), res),
{
    let env = ctx.require_env();
    let text = env.variables.to_text();
    ctx.print(text.as_str());
    proof {
        if old(ctx).project.env(old(ctx).env_name()) is None {
            assert(text@ =~= Seq::<char>::empty());
        }
    }
    Ok(())
}

/// Whether the `var` command `command` can run: the variables to set are
/// `key=value` pairs and the one to read is set.
pub open spec fn runnable(ctx: &Ctx, command: VarCmd) -> bool {
    &&& command matches VarCmd::Put(a) ==> all_pairs::<Variables>(views(a.variables@))
    &&& command matches VarCmd::Get(a) ==> env_variables(ctx).contains_key(a.key@)
}

/// What the `var` command `command` does; editing the variables file is
/// handed back to the caller.
pub open spec fn ran(before: &Ctx, after: &Ctx, command: VarCmd, res: QuartzResult<Option<VarCmd>>) -> bool {
    match command {
        VarCmd::Edit => handed_back(before, after, VarCmd::Edit, res),
        VarCmd::Get(a) => carried_out(res) && got(before, after, a, unit_of(res)),
        VarCmd::Put(a) => carried_out(res) && was_set(before, after, a, unit_of(res)),
        VarCmd::Rm(a) => carried_out(res) && removed(before, after, a, unit_of(res)),
        VarCmd::Ls => carried_out(res) && listed(before, after, unit_of(res)),
    }
}

/// Runs a `var` command; `edit` is handed back, as it needs an editor.
pub fn cmd(ctx: &mut Ctx, command: VarCmd) -> (res: QuartzResult<Option<VarCmd>>)
    requires
        old(ctx).project.wf(),
        runnable(old(ctx), command),
    ensures
        final(ctx).project.wf(),
        ran(old(ctx), final(ctx), command, res),
{
    let r = match command {
        VarCmd::Edit => return Ok(Some(VarCmd::Edit)),
        VarCmd::Get(a) => get(ctx, a),
        VarCmd::Put(a) => set(ctx, a),
        VarCmd::Rm(a) => rm(ctx, a),
        VarCmd::Ls => ls(ctx),
    };
    match r {
        Ok(()) => Ok(None),
        Err(e) => Err(e),
    }
}

} // verus!
