//! Environments: creating, copying, switching, listing and deleting them,
//! and the headers they add to every request.
use vstd::prelude::*;

use crate::action::header::{missing_text as header_missing, removed_text as header_removed};
use crate::action::pairs::{all_pairs, first_bad, fold_pairs, remove_keys, rm_keys, set_all};
use crate::action::{env_headers, env_rewritten, env_variables, malformed, same_settings};
use crate::context::{pairs_text, Context};
use crate::endpoint::Headers;
use crate::project::env_index;
use crate::state::StateField;
use crate::text::{owned, str_eq, views};
use crate::{refuse, Ctx, QuartzCode, QuartzResult};
use crate::cli::{EnvCmd, HeaderEnvCmd};

use crate::paint::{show, shown, Paint};

verus! {

/// Arguments of `env create`.
pub struct CreateArgs {
    pub name: String,
}

/// Arguments of `env cp`.
pub struct CpArgs {
    pub src: String,
    pub dest: String,
}

/// Arguments of `env use`.
pub struct SwitchArgs {
    pub env: String,
}

/// Arguments of `env rm`.
pub struct RmArgs {
    pub env: String,
}

/// Arguments of `env header rm`.
pub struct HeaderRmArgs {
    pub keys: Vec<String>,
}

/// The entries of `m` with the pairs of `ps` inserted in order.
pub open spec fn insert_pairs(m: Map<Seq<char>, Seq<char>>, ps: Seq<(Seq<char>, Seq<char>)>) -> Map<
    Seq<char>,
    Seq<char>,
>
    decreases ps.len(),
{
    if ps.len() == 0 {
        m
    } else {
        insert_pairs(m, ps.drop_last()).insert(ps.last().0, ps.last().1)
    }
}

/// What `create` does: how the context after it relates to the one before.
pub open spec fn created(before: &Ctx, after: &Ctx, args: CreateArgs, res: QuartzResult) -> bool {
    &&& after.project.wf()
    &&& same_settings(after, before)
    &&& after.code == before.code
    &&& after.stdout == before.stdout
    &&& after.stderr == before.stderr
    &&& res is Ok <==> before.project.env(args.name@) is None
    &&& res is Err ==> *after == *before
    &&& res is Ok ==> after.project.envs@.len() == before.project.envs@.len() + 1
        && after.project.envs@.drop_last() == before.project.envs@ && ({
        let c = after.project.envs@.last();
        &&& c.name@ == args.name@
        &&& c.variables.0.map() == Map::<Seq<char>, Seq<char>>::empty()
        &&& c.headers.0.map() == Map::<Seq<char>, Seq<char>>::empty()
    })
    &&& after.project.handles == before.project.handles
    &&& after.project.state_endpoint == before.project.state_endpoint
    &&& after.project.state_env == before.project.state_env
    &&& after.project.state_previous == before.project.state_previous
    &&& after.project.history == before.project.history
}

/// Creates the empty environment `args.name`.
///
/// Needs a name that no environment has.
pub fn create(ctx: &mut Ctx, args: CreateArgs) -> (res: QuartzResult)
    requires
        old(ctx).project.env(args.name@) is None,
        old(ctx).project.wf(),
    ensures
        created(old(ctx), final(ctx), args, res),
{
    proof {
        crate::project::lemma_env_index(ctx.project.envs@, args.name@);
    }
    if ctx.project.find_env(args.name.as_str()).is_some() {
        return Err(refuse("a environment named ", args.name.as_str(), " already exists"));
    }
    let c = Context::new(args.name.as_str());
    ctx.project.add_env(c);
    assert(ctx.project.envs@.drop_last() =~= old(ctx).project.envs@);
    Ok(())
}

/// What `cp` does: how the context after it relates to the one before.
pub open spec fn copied(before: &Ctx, after: &Ctx, args: CpArgs, res: QuartzResult) -> bool {
    &&& after.project.wf()
    &&& same_settings(after, before)
    &&& after.code == before.code
    &&& after.stdout == before.stdout
    &&& after.stderr == before.stderr
    &&& res is Ok <==> before.project.env(args.src@) is Some
    &&& res is Err ==> *after == *before
    &&& res is Ok ==> (after.project.env(args.dest@) matches Some(c) && c.variables.0.map() == insert_pairs(
        match before.project.env(args.dest@) {
            Some(d) => d.variables.0.map(),
            None => Map::empty(),
        },
        before.project.env(args.src@)->0.variables.0.pairs(),
    ) && c.headers.0.map() == (match before.project.env(args.dest@) {
        Some(d) => d.headers.0.map(),
        None => Map::<Seq<char>, Seq<char>>::empty(),
    }))
    &&& res is Ok ==> forall|n: Seq<char>|
        n != args.dest@ ==> #[trigger] after.project.env(n) == before.project.env(n)
    &&& after.project.handles == before.project.handles
    &&& after.project.state_endpoint == before.project.state_endpoint
    &&& after.project.state_env == before.project.state_env
    &&& after.project.state_previous == before.project.state_previous
    &&& after.project.history == before.project.history
}

/// Copies the variables of the environment `args.src` into `args.dest`,
/// which is created when missing; a variable of both takes the source's
/// value.
///
/// Refused when the source does not exist.
pub fn cp(ctx: &mut Ctx, args: CpArgs) -> (res: QuartzResult)
    requires
        old(ctx).project.wf(),
    ensures
        copied(old(ctx), final(ctx), args, res),
{
    proof {
        crate::project::lemma_env_index(ctx.project.envs@, args.src@);
        crate::project::lemma_env_index(ctx.project.envs@, args.dest@);
    }
    let si = match ctx.project.find_env(args.src.as_str()) {
        Some(i) => i,
        None => return Err(refuse("no ", args.src.as_str(), " environment found")),
    };
    let mut dest = match ctx.project.find_env(args.dest.as_str()) {
        Some(i) => ctx.project.envs[i].duplicate(),
        None => Context::new(args.dest.as_str()),
    };
    let src = &ctx.project.envs[si];
    let n = src.variables.0.len();
    let ghost m0 = dest.variables.0.map();
    let ghost h0 = dest.headers.0.map();
    let ghost sp = src.variables.0.pairs();
    assert(m0 =~= match old(ctx).project.env(args.dest@) {
        Some(d) => d.variables.0.map(),
        None => Map::<Seq<char>, Seq<char>>::empty(),
    });
    assert(h0 =~= match old(ctx).project.env(args.dest@) {
        Some(d) => d.headers.0.map(),
        None => Map::<Seq<char>, Seq<char>>::empty(),
    });
    let mut k: usize = 0;
    while k < n
        invariant
            k <= n,
            n == sp.len(),
            sp == src.variables.0.pairs(),
            dest.name@ == args.dest@,
            dest.headers.0.map() == h0,
            dest.variables.0.map() == insert_pairs(m0, sp.take(k as int)),
        decreases n - k,
    {
        let key = src.variables.0.key_at(k).clone();
        let value = src.variables.0.value_at(k).clone();
        dest.variables.0.insert(key, value);
        proof {
            assert(sp.take(k + 1).drop_last() =~= sp.take(k as int));
        }
        k = k + 1;
    }
    assert(sp.take(n as int) =~= sp);
    ctx.project.put_env(dest);
    Ok(())
}

/// `Switched to <name> environment` and a line break, the name in green
/// when `colors` is on.
pub open spec fn switched_text(name: Seq<char>, colors: bool) -> Seq<char> {
    seq!['S', 'w', 'i', 't', 'c', 'h', 'e', 'd', ' ', 't', 'o', ' '] + shown(name, Some(Paint::Green), colors) + seq![
        ' ', 'e', 'n', 'v', 'i', 'r', 'o', 'n', 'm', 'e', 'n', 't', '\n',
    ]
}

/// What `switch` does: how the context after it relates to the one before.
pub open spec fn switched(before: &Ctx, after: &Ctx, args: SwitchArgs, res: QuartzResult) -> bool {
    &&& same_settings(after, before)
    &&& after.code == before.code
    &&& after.stderr == before.stderr
    &&& res is Ok <==> before.project.env(args.env@) is Some
    &&& res is Err ==> *after == *before
    &&& res is Ok ==> (after.project.state_env matches Some(s) && s@ == args.env@
        && after.stdout@ == before.stdout@ + switched_text(args.env@, before.colors_on()))
    &&& after.project.handles == before.project.handles
    &&& after.project.envs == before.project.envs
    &&& after.project.state_endpoint == before.project.state_endpoint
    &&& after.project.state_previous == before.project.state_previous
    &&& after.project.history == before.project.history
}

/// Switches to the environment `args.env`.
///
/// Refused when it does not exist.
pub fn switch(ctx: &mut Ctx, args: SwitchArgs) -> (res: QuartzResult)
    ensures
        switched(old(ctx), final(ctx), args, res),
{
    proof {
        crate::project::lemma_env_index(ctx.project.envs@, args.env@);
    }
    if ctx.project.find_env(args.env.as_str()).is_none() {
        return Err(refuse("environment ", args.env.as_str(), " does not exist"));
    }
    let shown_name = show(args.env.as_str(), Some(Paint::Green), ctx.colors());
    StateField::Env.set(&mut ctx.project, args.env.as_str());
    let ghost before = ctx.stdout@;
    ctx.print("Switched to ");
    ctx.print(shown_name.as_str());
    ctx.print(" environment\n");
    proof {
        reveal_strlit("Switched to ");
        reveal_strlit(" environment\n");
        assert(ctx.stdout@ =~= before + switched_text(args.env@, old(ctx).colors_on()));
    }
    Ok(())
}

/// One line of the environment list: `* ` and the name in green (when
/// `colors` is on) for the one in use, else two spaces and the name.
pub open spec fn ls_line(name: Seq<char>, in_use: Seq<char>, colors: bool) -> Seq<char> {
    if name == in_use {
        seq!['*', ' '] + shown(name, Some(Paint::Green), colors) + seq!['\n']
    } else {
        seq![' ', ' '] + name + seq!['\n']
    }
}

/// The lines of the environments `es`.
pub open spec fn ls_lines(es: Seq<Context>, in_use: Seq<char>, colors: bool) -> Seq<char>
    decreases es.len(),
{
    if es.len() == 0 {
        Seq::empty()
    } else {
        ls_lines(es.drop_last(), in_use, colors) + ls_line(es.last().name@, in_use, colors)
    }
}

/// What `ls` does: how the context after it relates to the one before.
pub open spec fn listed(before: &Ctx, after: &Ctx, res: QuartzResult) -> bool {
    &&& res is Ok
    &&& after.project == before.project
    &&& same_settings(after, before)
    &&& after.code == before.code
    &&& after.stderr == before.stderr
    &&& after.stdout@ == before.stdout@ + ls_lines(before.project.envs@, before.env_name(), before.colors_on())
}

/// Prints every environment, marking the one in use.
pub fn ls(ctx: &mut Ctx) -> (res: QuartzResult)
    ensures
        listed(old(ctx), final(ctx), res),
{
    let current = env_name_of(ctx);
    let colors = ctx.colors();
    let ghost es = ctx.project.envs@;
    let ghost out0 = ctx.stdout@;
    let mut i: usize = 0;
    while i < ctx.project.envs.len()
        invariant
            i <= es.len(),
            es == ctx.project.envs@,
            current@ == old(ctx).env_name(),
            ctx.project == old(ctx).project,
            same_settings(ctx, old(ctx)),
            ctx.code == old(ctx).code,
            ctx.stderr == old(ctx).stderr,
            colors == old(ctx).colors_on(),
            ctx.stdout@ == out0 + ls_lines(es.take(i as int), current@, colors),
            out0 == old(ctx).stdout@,
        decreases es.len() - i,
    {
        let plain = ctx.project.envs[i].name.clone();
        let active = str_eq(plain.as_str(), current.as_str());
        let mark = if active {
            "* "
        } else {
            "  "
        };
        let name = if active {
            show(plain.as_str(), Some(Paint::Green), colors)
        } else {
            plain
        };
        let ghost before = ctx.stdout@;
        ctx.print(mark);
        ctx.print(name.as_str());
        ctx.print("\n");
        proof {
            reveal_strlit("* ");
            reveal_strlit("  ");
            reveal_strlit("\n");
            assert(es.take(i + 1).drop_last() =~= es.take(i as int));
            assert(ctx.stdout@ =~= before + ls_line(es[i as int].name@, current@, colors));
        }
        i = i + 1;
    }
    assert(es.take(es.len() as int) =~= es);
    Ok(())
}

/// The name of the environment in use.
fn env_name_of(ctx: &Ctx) -> (res: String)
    ensures
        res@ == ctx.env_name(),
{
    proof {
        reveal_strlit("default");
    }
    match &ctx.project.state_env {
        Some(s) => s.clone(),
        None => owned("default"),
    }
}

/// `Deleted <name> environment` and a line break, the name in green when
/// `colors` is on.
pub open spec fn deleted_text(name: Seq<char>, colors: bool) -> Seq<char> {
    seq!['D', 'e', 'l', 'e', 't', 'e', 'd', ' '] + shown(name, Some(Paint::Green), colors) + seq![
        ' ', 'e', 'n', 'v', 'i', 'r', 'o', 'n', 'm', 'e', 'n', 't', '\n',
    ]
}

/// What `rm` does: how the context after it relates to the one before.
pub open spec fn removed(before: &Ctx, after: &Ctx, args: RmArgs, res: QuartzResult) -> bool {
    &&& after.project.wf()
    &&& same_settings(after, before)
    &&& after.code == before.code
    &&& after.stderr == before.stderr
    &&& res is Ok <==> before.project.env(args.env@) is Some
    &&& res is Err ==> *after == *before
    &&& res is Ok ==> after.project.envs@ == before.project.envs@.remove(
        env_index(before.project.envs@, args.env@),
    ) && after.stdout@ == before.stdout@ + deleted_text(args.env@, before.colors_on())
    &&& after.project.handles == before.project.handles
    &&& after.project.state_endpoint == before.project.state_endpoint
    &&& after.project.state_env == before.project.state_env
    &&& after.project.state_previous == before.project.state_previous
    &&& after.project.history == before.project.history
}

/// Deletes the environment `args.env`.
///
/// Refused when it does not exist.
pub fn rm(ctx: &mut Ctx, args: RmArgs) -> (res: QuartzResult)
    requires
        old(ctx).project.wf(),
    ensures
        removed(old(ctx), final(ctx), args, res),
{
    proof {
        crate::project::lemma_env_index(ctx.project.envs@, args.env@);
    }
    let i = match ctx.project.find_env(args.env.as_str()) {
        Some(i) => i,
        None => return Err(refuse("environment ", args.env.as_str(), " does not exist")),
    };
    let shown_name = show(args.env.as_str(), Some(Paint::Green), ctx.colors());
    ctx.project.remove_env(i);
    let ghost before = ctx.stdout@;
    ctx.print("Deleted ");
    ctx.print(shown_name.as_str());
    ctx.print(" environment\n");
    proof {
        reveal_strlit("Deleted ");
        reveal_strlit(" environment\n");
        assert(ctx.stdout@ =~= before + deleted_text(args.env@, old(ctx).colors_on()));
    }
    Ok(())
}

/// What `print` does: how the context after it relates to the one before.
pub open spec fn printed(before: &Ctx, after: &Ctx) -> bool {
    &&& after.project == before.project
    &&& same_settings(after, before)
    &&& after.code == before.code
    &&& after.stderr == before.stderr
    &&& after.stdout@ == before.stdout@ + before.env_name() + seq!['\n']
}

/// Prints the name of the environment in use and a line break.
pub fn print(ctx: &mut Ctx)
    ensures
        printed(old(ctx), final(ctx)),
{
    let name = env_name_of(ctx);
    let ghost before = ctx.stdout@;
    ctx.print(name.as_str());
    ctx.print("\n");
    proof {
        reveal_strlit("\n");
        assert(ctx.stdout@ =~= before + old(ctx).env_name() + seq!['\n']);
    }
}

/// What `header_set` does: how the context after it relates to the one before.
pub open spec fn header_was_set(before: &Ctx, after: &Ctx, headers: Vec<String>, res: QuartzResult) -> bool {
    &&& after.project.wf()
    &&& same_settings(after, before)
    &&& after.code == before.code
    &&& after.stdout == before.stdout
    &&& after.stderr == before.stderr
    &&& res is Ok <==> all_pairs::<Headers>(views(headers@))
    &&& res is Err ==> *after == *before
    &&& res is Ok ==> env_rewritten(before, after) && env_headers(after) == fold_pairs::<Headers>(env_headers(before), views(headers@)) && env_variables(after) == env_variables(before)
}

/// Sets, in order, the `key: value` headers of `headers` in the environment
/// in use.
///
/// Refused when an input is malformed.
pub fn header_set(ctx: &mut Ctx, headers: Vec<String>) -> (res: QuartzResult)
    requires
        old(ctx).project.wf(),
    ensures
        header_was_set(old(ctx), final(ctx), headers, res),
{
    let mut env = ctx.require_env();
    if first_bad::<Headers>(&headers).is_some() {
        return Err(malformed(true));
    }
    assert(env.variables.0.map() =~= env_variables(ctx));
    assert(env.headers.0.map() =~= env_headers(ctx));
    set_all(&mut env.headers, &headers);
    ctx.project.put_env(env);
    Ok(())
}

/// What `header_get` does: how the context after it relates to the one before.
pub open spec fn header_got(before: &Ctx, after: &Ctx, key: String, res: QuartzResult) -> bool {
    &&& after.project == before.project
    &&& same_settings(after, before)
    &&& after.code == before.code
    &&& after.stderr == before.stderr
    &&& res is Ok <==> env_headers(before).contains_key(key@)
    &&& res is Err ==> *after == *before
    &&& res is Ok ==> after.stdout@ == before.stdout@ + env_headers(before)[key@] + seq!['\n']
}

/// Prints the value of the header `key` of the environment in use.
///
/// Refused when it has no such header.
pub fn header_get(ctx: &mut Ctx, key: String) -> (res: QuartzResult)
    ensures
        header_got(old(ctx), final(ctx), key, res),
{
    let env = ctx.require_env();
    assert(env.headers.0.map() =~= env_headers(ctx));
    match env.headers.0.get(key.as_str()) {
        Some(v) => {
            let ghost before = ctx.stdout@;
            ctx.print(v.as_str());
            ctx.print("\n");
            proof {
                reveal_strlit("\n");
                assert(ctx.stdout@ =~= before + env_headers(old(ctx))[key@] + seq!['\n']);
            }
            Ok(())
        },
        None => Err(refuse("no header named ", key.as_str(), " found")),
    }
}

/// What `header_ls` does: how the context after it relates to the one before.
pub open spec fn headers_listed(before: &Ctx, after: &Ctx) -> bool {
    &&& after.project == before.project
    &&& same_settings(after, before)
    &&& after.code == before.code
    &&& after.stderr == before.stderr
    &&& after.stdout@ == before.stdout@ + (match before.project.env(before.env_name()) {
        Some(c) => pairs_text(c.headers.0.pairs(), seq![':', ' ']),
        None => Seq::empty(),
    })
}

/// Prints the headers of the environment in use, one `key: value` per line.
pub fn header_ls(ctx: &mut Ctx)
    ensures
        headers_listed(old(ctx), final(ctx)),
{
    let env = ctx.require_env();
    let text = env.headers.to_text();
    ctx.print(text.as_str());
    proof {
        if old(ctx).project.env(old(ctx).env_name()) is None {
            assert(text@ =~= Seq::<char>::empty());
        }
    }
}

/// What `header_rm` does: how the context after it relates to the one before.
pub open spec fn headers_removed(before: &Ctx, after: &Ctx, args: HeaderRmArgs) -> bool {
    &&& after.project.wf()
    &&& env_rewritten(before, after)
    &&& env_variables(after) == env_variables(before)
    &&& ({
        let (m, out, err, failed) = rm_keys(env_headers(before), views(args.keys@), header_removed(), header_missing());
        &&& env_headers(after) == m
        &&& after.stdout@ == before.stdout@ + out
        &&& after.stderr@ == before.stderr@ + err
        &&& after.code == (if failed {
            QuartzCode::Error
        } else {
            before.code
        })
    })
}

/// Removes, in order, the headers `args.keys` from the environment in use;
/// prints each key removed, reports each key missing, and fails the run
/// when one is missing.
pub fn header_rm(ctx: &mut Ctx, args: HeaderRmArgs)
    requires
        old(ctx).project.wf(),
    ensures
        headers_removed(old(ctx), final(ctx), args),
{
    let mut env = ctx.require_env();
    assert(env.variables.0.map() =~= env_variables(ctx));
    assert(env.headers.0.map() =~= env_headers(ctx));
    proof {
        reveal_strlit("Removed header: ");
        reveal_strlit(": No such header\n");
        assert("Removed header: "@ =~= header_removed());
        assert(": No such header\n"@ =~= header_missing());
    }
    let (out, err, failed) = remove_keys(&mut env.headers.0, &args.keys, "Removed header: ", ": No such header\n");
    ctx.project.put_env(env);
    ctx.print(out.as_str());
    ctx.eprint(err.as_str());
    if failed {
        ctx.code(QuartzCode::Error);
    }
}

/// Whether the `env` command `command` can run: an environment to create is
/// new.
pub open spec fn runnable(ctx: &Ctx, command: EnvCmd) -> bool {
    command matches EnvCmd::Create(a) ==> ctx.project.env(a.name@) is None
}

/// What the `env` command `command` does.
pub open spec fn ran(before: &Ctx, after: &Ctx, command: EnvCmd, res: QuartzResult) -> bool {
    match command {
        EnvCmd::Create(a) => created(before, after, a, res),
        EnvCmd::Use(a) => switched(before, after, a, res),
        EnvCmd::Ls => listed(before, after, res),
        EnvCmd::Cp(a) => copied(before, after, a, res),
        EnvCmd::Rm(a) => removed(before, after, a, res),
        EnvCmd::Header { command: c } => match c {
            HeaderEnvCmd::Put { headers } => header_was_set(before, after, headers, res),
            HeaderEnvCmd::Ls => res is Ok && headers_listed(before, after),
            HeaderEnvCmd::Rm(a) => res is Ok && headers_removed(before, after, a),
        },
    }
}

/// Runs an `env` command.
pub fn cmd(ctx: &mut Ctx, command: EnvCmd) -> (res: QuartzResult)
    requires
        old(ctx).project.wf(),
        runnable(old(ctx), command),
    ensures
        final(ctx).project.wf(),
        ran(old(ctx), final(ctx), command, res),
{
    match command {
        EnvCmd::Create(a) => create(ctx, a),
        EnvCmd::Use(a) => switch(ctx, a),
        EnvCmd::Ls => ls(ctx),
        EnvCmd::Cp(a) => cp(ctx, a),
        EnvCmd::Rm(a) => rm(ctx, a),
        EnvCmd::Header { command: c } => match c {
            HeaderEnvCmd::Put { headers } => header_set(ctx, headers),
            HeaderEnvCmd::Ls => {
                header_ls(ctx);
                Ok(())
            },
            HeaderEnvCmd::Rm(a) => {
                header_rm(ctx, a);
                Ok(())
            },
        },
    }
}

} // verus!
