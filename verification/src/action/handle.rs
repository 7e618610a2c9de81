//! Creating, switching, copying, moving and deleting handles.
use vstd::prelude::*;

use crate::action::{grown, malformed, patch_changes, patched_from, same_settings};
use crate::endpoint::{handle_dir, patch_well_formed, Endpoint, EndpointHandle, EndpointPatch};
use crate::project::{entry_path, is_prefix, without_tree, HandleEntry, Project};
use crate::state::StateField;
use crate::text::{join_strings, join_with, push_str, split_on, str_is_empty, views};
use crate::{refuse, Ctx, QuartzCode, QuartzResult};

use crate::paint::{show, shown, Paint};

verus! {

/// Arguments of `create`.
pub struct CreateArgs {
    pub handle: String,
    pub config: EndpointPatch,
    /// Switch to the new handle.
    pub switch: bool,
}

/// Arguments of `use`.
pub struct SwitchArgs {
    pub handle: Option<String>,
    pub config: EndpointPatch,
    /// Make the handle empty.
    pub empty: bool,
}

/// `Switched to <handle> endpoint` and a line break, the handle in green
/// when `colors` is on.
pub open spec fn switched_text(handle: Seq<char>, colors: bool) -> Seq<char> {
    seq!['S', 'w', 'i', 't', 'c', 'h', 'e', 'd', ' ', 't', 'o', ' '] + shown(handle, Some(Paint::Green), colors) + seq![
        ' ',
        'e',
        'n',
        'd',
        'p',
        'o',
        'i',
        'n',
        't',
        '\n',
    ]
}

/// Records `handle` as the one in use and says so.
fn record_switch(ctx: &mut Ctx, handle: &EndpointHandle)
    ensures
        final(ctx).project.state_endpoint matches Some(s) && s@ == join_with(handle.segments(), seq!['/']),
        final(ctx).stdout@ == old(ctx).stdout@ + switched_text(
            join_with(handle.segments(), seq!['/']),
            old(ctx).colors_on(),
        ),
        final(ctx).project.handles == old(ctx).project.handles,
        final(ctx).project.envs == old(ctx).project.envs,
        final(ctx).project.state_previous == old(ctx).project.state_previous,
        final(ctx).project.state_env == old(ctx).project.state_env,
        final(ctx).project.history == old(ctx).project.history,
        same_settings(final(ctx), old(ctx)),
        final(ctx).code == old(ctx).code,
        final(ctx).stderr == old(ctx).stderr,
{
    let name = handle.handle();
    StateField::Endpoint.set(&mut ctx.project, name.as_str());
    let shown_name = show(name.as_str(), Some(Paint::Green), ctx.colors());
    ctx.print("Switched to ");
    ctx.print(shown_name.as_str());
    ctx.print(" endpoint\n");
    proof {
        reveal_strlit("Switched to ");
        reveal_strlit(" endpoint\n");
    }
    assert(ctx.stdout@ =~= old(ctx).stdout@ + switched_text(name@, old(ctx).colors_on()));
}

/// What `create` does: how the context after it relates to the one before.
pub open spec fn created(before: &Ctx, after: &Ctx, args: CreateArgs, res: QuartzResult) -> bool {
    &&& after.project.wf()
    &&& same_settings(after, before)
    &&& after.code == before.code
    &&& after.stderr == before.stderr
    &&& res is Ok <==> (args.handle@.len() > 0 && !before.project.has(split_on(args.handle@, '/'))
        && patch_well_formed(&args.config))
    &&& res is Err ==> *after == *before
    &&& res is Ok ==> ({
        let p = split_on(args.handle@, '/');
        &&& grown(&before.project, &after.project, p)
        &&& after.project.lookup(p) matches Some(e) && e.body is None
            && (e.endpoint matches Some(ep) && patched_from(
            ep,
            None,
            handle_dir(before.path@, p),
            &args.config,
        ))
        &&& if args.switch {
            &&& after.project.state_endpoint matches Some(s) && s@ == args.handle@
            &&& after.stdout@ == before.stdout@ + switched_text(args.handle@, before.colors_on())
        } else {
            &&& after.project.state_endpoint == before.project.state_endpoint
            &&& after.stdout == before.stdout
        }
    })
}

/// Creates the handle `args.handle` with an endpoint built from the patch,
/// and switches to it when asked to.
///
/// Needs a handle that is not empty and does not exist, and a patch of
/// well-formed pairs.
pub fn create(ctx: &mut Ctx, args: CreateArgs) -> (res: QuartzResult)
    requires
        args.handle@.len() > 0,
        !old(ctx).project.has(split_on(args.handle@, '/')),
        patch_well_formed(&args.config),
        old(ctx).project.wf(),
    ensures
        created(old(ctx), final(ctx), args, res),
{
    if str_is_empty(args.handle.as_str()) {
        return Err(refuse("missing endpoint handle", "", ""));
    }
    let handle = EndpointHandle::from(args.handle.as_str());
    if ctx.project.contains_handle(&handle) {
        return Err(refuse("endpoint already exists", "", ""));
    }
    if let Some((_, is_header)) = args.config.first_malformed() {
        return Err(malformed(is_header));
    }
    let mut endpoint = Endpoint::from_patch(&args.config);
    endpoint.set_handle(ctx.path.as_str(), &handle);
    proof {
        crate::endpoint::law_handle_round_trip(args.handle@);
    }
    if args.switch {
        record_switch(ctx, &handle);
    }
    let ghost mid = ctx.project;
    ctx.project.ensure(&handle.path);
    let ghost grown_project = ctx.project;
    proof {
        let p = handle.segments();
        assert(p.len() >= 1) by {
            crate::text::lemma_split_on_len(args.handle@, '/');
        }
        assert(crate::project::is_prefix(p, p)) by {
            assert(p.take(p.len() as int) =~= p);
        }
        assert(ctx.project.has(p));
    }
    ctx.project.set_entry(&handle.path, Some(endpoint), None);
    proof {
        let p = handle.segments();
        assert(crate::project::is_prefix(p, p)) by {
            assert(p.take(p.len() as int) =~= p);
        }
        assert forall|q: Seq<Seq<char>>| q != p && old(ctx).project.has(q) implies #[trigger] ctx.project.lookup(q)
            == old(ctx).project.lookup(q) by {
            assert(mid.lookup(q) == old(ctx).project.lookup(q));
            assert(grown_project.lookup(q) == mid.lookup(q));
        }
        assert forall|q: Seq<Seq<char>>| !old(ctx).project.has(q) implies (#[trigger] ctx.project.has(q) <==> (q.len()
            >= 1 && crate::project::is_prefix(q, p))) by {
            assert(mid.lookup(q) == old(ctx).project.lookup(q));
            assert(ctx.project.has(q) == grown_project.has(q));
        }
        assert forall|q: Seq<Seq<char>>|
            q != p && !old(ctx).project.has(q) && #[trigger] ctx.project.has(q) implies ctx.project.lookup(
            q,
        )->0.endpoint is None && ctx.project.lookup(q)->0.body is None by {
            assert(mid.lookup(q) == old(ctx).project.lookup(q));
            assert(ctx.project.lookup(q) == grown_project.lookup(q));
        }
    }
    Ok(())
}

/// The handle `use` works on: the one given, else the one in use.
pub open spec fn switch_target(ctx: &Ctx, handle: Option<String>) -> Option<Seq<Seq<char>>> {
    match handle {
        Some(h) => Some(split_on(h@, '/')),
        None => match ctx.current_handle() {
            Some(t) => Some(split_on(t, '/')),
            None => None,
        },
    }
}

/// Whether `use` refuses: no handle to work on, a given handle that does
/// not exist, a malformed patch, or changes to a handle that does not exist.
pub open spec fn switch_refused(ctx: &Ctx, args: &SwitchArgs) -> bool {
    match switch_target(ctx, args.handle) {
        None => true,
        Some(p) => !patch_well_formed(&args.config) || (!ctx.project.has(p) && (args.handle is Some
            || patch_changes(&args.config))),
    }
}

/// What `switch` does: how the context after it relates to the one before.
pub open spec fn switched(before: &Ctx, after: &Ctx, args: SwitchArgs, res: QuartzResult) -> bool {
    &&& after.project.wf()
    &&& same_settings(after, before)
    &&& after.code == before.code
    &&& after.stderr == before.stderr
    &&& res is Err <==> switch_refused(before, &args)
    &&& res is Err ==> *after == *before
    &&& res is Ok ==> ({
        let p = switch_target(before, args.handle)->0;
        let e0 = before.project.lookup(p)->0;
        let emptied = args.empty && e0.endpoint is Some;
        &&& after.project.envs == before.project.envs
        &&& after.project.state_previous == before.project.state_previous
        &&& after.project.state_env == before.project.state_env
        &&& after.project.history == before.project.history
        &&& forall|q: Seq<Seq<char>>|
            q != p ==> #[trigger] after.project.lookup(q) == before.project.lookup(q)
        &&& (!before.project.has(p) ==> after.project.lookup(p) is None)
        &&& (before.project.has(p) ==> (after.project.lookup(p) matches Some(e) && e.body == (if emptied {
            None
        } else {
            e0.body
        }) && (if patch_changes(&args.config) {
            e.endpoint matches Some(ep) && patched_from(
                ep,
                if emptied {
                    None
                } else {
                    e0.endpoint
                },
                handle_dir(before.path@, p),
                &args.config,
            )
        } else {
            e.endpoint == (if emptied {
                None
            } else {
                e0.endpoint
            })
        })))
        &&& match args.handle {
            Some(h) => after.project.state_endpoint matches Some(s) && s@ == h@
                && after.stdout@ == before.stdout@ + switched_text(h@, before.colors_on()),
            None => after.project.state_endpoint == before.project.state_endpoint
                && after.stdout == before.stdout,
        }
    })
}

/// Switches to the handle given, when given, then edits the handle in use:
/// empties it when asked to (its endpoint and body go, when it has an
/// endpoint), then applies the patch to its endpoint, or to a new `GET`
/// endpoint when it has none.
///
/// Needs a handle to work on that exists, unless none is given and nothing
/// changes, and a patch of well-formed pairs.
pub fn switch(ctx: &mut Ctx, args: SwitchArgs) -> (res: QuartzResult)
    requires
        !switch_refused(old(ctx), &args),
        old(ctx).project.wf(),
    ensures
        switched(old(ctx), final(ctx), args, res),
{
    let handle = match &args.handle {
        Some(h) => match ctx.require_input_handle(h.as_str()) {
            Ok(handle) => handle,
            Err(e) => return Err(e),
        },
        None => match ctx.require_handle() {
            Ok(handle) => handle,
            Err(e) => return Err(e),
        },
    };
    if let Some((_, is_header)) = args.config.first_malformed() {
        return Err(malformed(is_header));
    }
    let exists = ctx.project.contains_handle(&handle);
    if !exists && args.config.has_changes() {
        return Err(refuse("failed to open config file", "", ""));
    }
    if let Some(h) = &args.handle {
        proof {
            crate::endpoint::law_handle_round_trip(h@);
        }
        record_switch(ctx, &handle);
    }
    if !exists {
        return Ok(());
    }
    let i = ctx.project.find(&handle.path).unwrap();
    proof {
        crate::project::lemma_handle_index(ctx.project.handles@, handle.segments());
    }
    let has_endpoint = ctx.project.handles[i].endpoint.is_some();
    let emptied = args.empty && has_endpoint;
    let changes = args.config.has_changes();
    if !emptied && !changes {
        return Ok(());
    }
    let body: Option<String> = if emptied {
        None
    } else {
        match &ctx.project.handles[i].body {
            Some(b) => Some(b.clone()),
            None => None,
        }
    };
    let ghost dir = handle_dir(ctx.path@, handle.segments());
    let ghost base = if emptied {
        None
    } else {
        ctx.project.handles@[i as int].endpoint
    };
    let endpoint: Option<Endpoint> = if changes {
        let mut e = if emptied {
            Endpoint::new(handle.dir(ctx.path.as_str()).as_str())
        } else {
            match &ctx.project.handles[i].endpoint {
                Some(e) => e.duplicate(),
                None => Endpoint::new(handle.dir(ctx.path.as_str()).as_str()),
            }
        };
        proof {
            if base is None {
                assert(e.url@ =~= Seq::<char>::empty());
                assert(e.query.0.map() =~= Map::<Seq<char>, Seq<char>>::empty());
                assert(e.headers.0.map() =~= Map::<Seq<char>, Seq<char>>::empty());
            }
        }
        e.update(&args.config);
        assert(patched_from(e, base, dir, &args.config));
        Some(e)
    } else {
        None
    };
    ctx.project.set_entry(&handle.path, endpoint, body);
    Ok(())
}

/// Arguments of `rm`.
pub struct RmArgs {
    pub handles: Vec<String>,
    /// Delete the handles under each handle too.
    pub recursive: bool,
}

/// The direct children of `p` among `hs`, in order.
pub open spec fn children_of(hs: Seq<HandleEntry>, p: Seq<Seq<char>>) -> Seq<Seq<Seq<char>>>
    decreases hs.len(),
{
    if hs.len() == 0 {
        Seq::empty()
    } else {
        let r = children_of(hs.drop_last(), p);
        let q = entry_path(hs.last());
        if q.len() == p.len() + 1 && is_prefix(p, q) {
            r.push(q)
        } else {
            r
        }
    }
}

/// `no such handle: <name>` and a line break.
pub open spec fn missing_text(name: Seq<char>) -> Seq<char> {
    seq!['n', 'o', ' ', 's', 'u', 'c', 'h', ' ', 'h', 'a', 'n', 'd', 'l', 'e', ':', ' '] + name + seq!['\n']
}

/// `<name> has child handles. Use -r option to confirm` and a line break.
pub open spec fn has_children_text(name: Seq<char>) -> Seq<char> {
    name + seq![
        ' ', 'h', 'a', 's', ' ', 'c', 'h', 'i', 'l', 'd', ' ', 'h', 'a', 'n', 'd', 'l', 'e', 's', '.', ' ',
        'U', 's', 'e', ' ', '-', 'r', ' ', 'o', 'p', 't', 'i', 'o', 'n', ' ', 't', 'o', ' ', 'c', 'o', 'n',
        'f', 'i', 'r', 'm', '\n',
    ]
}

/// `Deleted endpoint <name>` and a line break.
pub open spec fn deleted_text(name: Seq<char>) -> Seq<char> {
    seq!['D', 'e', 'l', 'e', 't', 'e', 'd', ' ', 'e', 'n', 'd', 'p', 'o', 'i', 'n', 't', ' '] + name + seq!['\n']
}

/// One step of `rm` on the entries, the output, the diagnostics and
/// whether something failed.
pub open spec fn rm_one(
    st: (Seq<HandleEntry>, Seq<char>, Seq<char>, bool),
    name: Seq<char>,
    recursive: bool,
) -> (Seq<HandleEntry>, Seq<char>, Seq<char>, bool) {
    let (hs, out, err, failed) = st;
    let p = split_on(name, '/');
    let kids = children_of(hs, p);
    if crate::project::lookup_handle(hs, p) is None {
        (hs, out, err + missing_text(name), true)
    } else if kids.len() > 0 && !recursive {
        (hs, out, err + has_children_text(name), true)
    } else {
        (without_tree(hs, p), out + deleted_text(name), err, failed || kids.len() > 0)
    }
}

/// `rm` of each of `names` in order.
pub open spec fn rm_run(hs: Seq<HandleEntry>, names: Seq<Seq<char>>, recursive: bool) -> (
    Seq<HandleEntry>,
    Seq<char>,
    Seq<char>,
    bool,
)
    decreases names.len(),
{
    if names.len() == 0 {
        (hs, Seq::empty(), Seq::empty(), false)
    } else {
        rm_one(rm_run(hs, names.drop_last(), recursive), names.last(), recursive)
    }
}

/// The `/`-separated names of the direct children of `p`, in order.
fn children(project: &Project, p: &Vec<String>) -> (res: Vec<String>)
    ensures
        res@.len() == children_of(project.handles@, views(p@)).len(),
        forall|k: int|
            0 <= k < res@.len() ==> (#[trigger] res@[k])@ == join_with(
                children_of(project.handles@, views(p@))[k],
                seq!['/'],
            ),
{
    let mut res: Vec<String> = Vec::new();
    let mut j: usize = 0;
    while j < project.handles.len()
        invariant
            j <= project.handles@.len(),
            res@.len() == children_of(project.handles@.take(j as int), views(p@)).len(),
            forall|k: int|
                0 <= k < res@.len() ==> (#[trigger] res@[k])@ == join_with(
                    children_of(project.handles@.take(j as int), views(p@))[k],
                    seq!['/'],
                ),
        decreases project.handles.len() - j,
    {
        let e = &project.handles[j];
        proof {
            assert(project.handles@.take(j + 1).drop_last() =~= project.handles@.take(j as int));
            assert(project.handles@.take(j + 1).last() == project.handles@[j as int]);
        }
        if e.path.len() > p.len() && e.path.len() - p.len() == 1 && crate::project::has_prefix(&e.path, p) {
            let name = join_strings(&e.path, "/");
            proof {
                reveal_strlit("/");
                assert("/"@ =~= seq!['/']);
            }
            let ghost before = res@;
            res.push(name);
            proof {
                assert forall|k: int| 0 <= k < res@.len() implies (#[trigger] res@[k])@ == join_with(
                    children_of(project.handles@.take(j + 1), views(p@))[k],
                    seq!['/'],
                ) by {
                    if k < before.len() {
                        assert(res@[k] == before[k]);
                    }
                }
            }
        }
        j = j + 1;
    }
    assert(project.handles@.take(project.handles@.len() as int) =~= project.handles@);
    res
}

/// What `rm` does: how the context after it relates to the one before.
pub open spec fn removed(before: &Ctx, after: &Ctx, args: RmArgs, res: QuartzResult) -> bool {
    &&& res is Ok
    &&& after.project.wf()
    &&& same_settings(after, before)
    &&& ({
        let (hs, out, err, failed) = rm_run(before.project.handles@, views(args.handles@), args.recursive);
        &&& after.project.handles@ == hs
        &&& after.stdout@ == before.stdout@ + out
        &&& after.stderr@ == before.stderr@ + err
        &&& after.code == (if failed {
            QuartzCode::Error
        } else {
            before.code
        })
    })
    &&& after.project.envs == before.project.envs
    &&& after.project.state_endpoint == before.project.state_endpoint
    &&& after.project.state_previous == before.project.state_previous
    &&& after.project.state_env == before.project.state_env
    &&& after.project.history == before.project.history
}

/// Deletes each handle of `args.handles` in order, with the handles under
/// it. A handle that does not exist, or that has child handles when
/// `recursive` is not set, is reported and skipped, and the run fails; a
/// recursive deletion of a handle with children fails the run too.
#[verifier::rlimit(30)]
pub fn rm(ctx: &mut Ctx, args: RmArgs) -> (res: QuartzResult)
    requires
        old(ctx).project.wf(),
    ensures
        removed(old(ctx), final(ctx), args, res),
{
    let ghost names = views(args.handles@);
    let ghost h0 = ctx.project.handles@;
    let ghost out0 = ctx.stdout@;
    let ghost err0 = ctx.stderr@;
    let ghost code0 = ctx.code;
    proof {
        reveal_strlit("no such handle: ");
        reveal_strlit("\n");
        reveal_strlit(" has child handles. Use -r option to confirm\n");
        reveal_strlit("Deleted endpoint ");
    }
    let mut i: usize = 0;
    while i < args.handles.len()
        invariant
            i <= args.handles@.len(),
            names == views(args.handles@),
            ctx.project.wf(),
            same_settings(ctx, old(ctx)),
            ({
                let (hs, out, err, failed) = rm_run(h0, names.take(i as int), args.recursive);
                &&& ctx.project.handles@ == hs
                &&& ctx.stdout@ == out0 + out
                &&& ctx.stderr@ == err0 + err
                &&& ctx.code == (if failed {
                    QuartzCode::Error
                } else {
                    code0
                })
            }),
            out0 == old(ctx).stdout@,
            err0 == old(ctx).stderr@,
            code0 == old(ctx).code,
            ctx.project.envs == old(ctx).project.envs,
            ctx.project.state_endpoint == old(ctx).project.state_endpoint,
            ctx.project.state_previous == old(ctx).project.state_previous,
            ctx.project.state_env == old(ctx).project.state_env,
            ctx.project.history == old(ctx).project.history,
        decreases args.handles.len() - i,
    {
        let name = args.handles[i].as_str();
        let ghost st = rm_run(h0, names.take(i as int), args.recursive);
        proof {
            assert(names.take(i + 1).drop_last() =~= names.take(i as int));
            assert(names.take(i + 1).last() == name@);
            reveal_strlit("no such handle: ");
            reveal_strlit("\n");
            reveal_strlit(" has child handles. Use -r option to confirm\n");
            reveal_strlit("Deleted endpoint ");
        }
        let h = EndpointHandle::from(name);
        proof {
            crate::endpoint::law_handle_round_trip(name@);
        }
        if !ctx.project.contains_handle(&h) {
            ctx.eprint("no such handle: ");
            ctx.eprint(name);
            ctx.eprint("\n");
            ctx.code(QuartzCode::Error);
            assert(ctx.stderr@ =~= err0 + rm_run(h0, names.take(i + 1), args.recursive).2);
        } else {
            let kids = children(&ctx.project, &h.path);
            if kids.len() > 0 && !args.recursive {
                ctx.eprint(name);
                ctx.eprint(" has child handles. Use -r option to confirm\n");
                ctx.code(QuartzCode::Error);
                assert(ctx.stderr@ =~= err0 + rm_run(h0, names.take(i + 1), args.recursive).2);
            } else {
                ctx.project.remove_tree(&h.path);
                ctx.print("Deleted endpoint ");
                ctx.print(name);
                ctx.print("\n");
                assert(ctx.stdout@ =~= out0 + rm_run(h0, names.take(i + 1), args.recursive).1);
                if kids.len() > 0 {
                    ctx.code(QuartzCode::Error);
                }
                assert(ctx.stderr@ =~= err0 + rm_run(h0, names.take(i + 1), args.recursive).2);
            }
        }
        i = i + 1;
    }
    assert(names.take(args.handles@.len() as int) =~= names);
    Ok(())
}

/// Arguments of `edit`.
pub struct EditArgs {
    /// The editor to use this time.
    pub editor: Option<String>,
}

/// `/endpoint.toml`.
pub open spec fn endpoint_file() -> Seq<char> {
    seq!['/', 'e', 'n', 'd', 'p', 'o', 'i', 'n', 't', '.', 't', 'o', 'm', 'l']
}

/// Prepares the edit of the endpoint in use: takes the editor given, if
/// any, and returns the endpoint's file, `endpoint.toml` in the directory of
/// the handle in use. The edit itself needs an editor and the file system.
///
/// Needs a handle in use.
pub fn edit(ctx: &mut Ctx, args: EditArgs) -> (res: QuartzResult<String>)
    requires
        old(ctx).current_handle() is Some,
    ensures
        final(ctx).project == old(ctx).project,
        final(ctx).args == old(ctx).args,
        final(ctx).state == old(ctx).state,
        final(ctx).system == old(ctx).system,
        final(ctx).path == old(ctx).path,
        final(ctx).stdout == old(ctx).stdout,
        final(ctx).stderr == old(ctx).stderr,
        final(ctx).code == old(ctx).code,
        final(ctx).config.ui == old(ctx).config.ui,
        res is Ok <==> old(ctx).current_handle() is Some,
        res is Err ==> *final(ctx) == *old(ctx),
        res matches Ok(path) ==> {
            &&& path@ == handle_dir(old(ctx).path@, split_on(old(ctx).current_handle()->0, '/')) + endpoint_file()
            &&& final(ctx).config.preferences.spec_editor() == match args.editor {
                Some(e) => Some(e@),
                None => old(ctx).config.preferences.spec_editor(),
            }
            &&& final(ctx).config.preferences.spec_pager() == old(ctx).config.preferences.spec_pager()
        },
{
    let h = match ctx.require_handle() {
        Ok(h) => h,
        Err(e) => return Err(e),
    };
    if let Some(editor) = &args.editor {
        ctx.config.preferences.set_editor(editor.as_str());
    }
    let mut path = h.dir(ctx.path.as_str());
    push_str(&mut path, "/endpoint.toml");
    proof {
        reveal_strlit("/endpoint.toml");
        assert("/endpoint.toml"@ =~= endpoint_file());
    }
    Ok(path)
}

} // verus!
