//! Copying and moving handles with the handles under them.
use vstd::prelude::*;

use crate::action::same_settings;
use crate::endpoint::{handle_dir, Endpoint, EndpointHandle};
use crate::project::{
    cut_tree, endpoint_view, entry_path, entry_view, is_prefix, put_entry, put_tree, take_segments,
    EndpointView, EntryView, HandleEntry, Project,
};
use crate::text::{split_on, str_is_empty, views};
use crate::{refuse, Ctx, QuartzResult};

verus! {

/// Arguments of `cp`.
pub struct CpArgs {
    /// Copy the handles under the source too.
    pub recursive: bool,
    pub src: String,
    pub dest: String,
}

/// Arguments of `mv`: the sources, then the destination.
pub struct MvArgs {
    pub handles: Vec<String>,
}

/// The handle a copy of `q`, which lies under `src`, goes to when `src` is
/// copied to `dest`: the segments of `dest`, then those of `q` after `src`.
pub open spec fn copy_target(q: Seq<Seq<char>>, src: Seq<char>, dest: Seq<char>) -> Seq<Seq<char>> {
    split_on(dest, '/') + q.skip(split_on(src, '/').len() as int)
}

/// The target of a copy of `q`, which lies under `src`: `dest` followed by
/// the segments of `q` after those of `src`.
fn target_of(q: &Vec<String>, src: &Vec<String>, dest_name: &str) -> (res: Vec<String>)
    requires
        is_prefix(views(src@), views(q@)),
    ensures
        views(res@) == split_on(dest_name@, '/') + views(q@).skip(src@.len() as int),
{
    let mut path = EndpointHandle::from(dest_name).path;
    let ghost d = views(path@);
    let mut i: usize = src.len();
    while i < q.len()
        invariant
            src@.len() <= i <= q@.len(),
            views(path@) == d + views(q@).subrange(src@.len() as int, i as int),
        decreases q.len() - i,
    {
        let ghost before = views(path@);
        path.push(q[i].clone());
        proof {
            assert(views(path@) =~= before.push(q@[i as int]@));
            assert(views(q@).subrange(src@.len() as int, i + 1) =~= views(q@).subrange(
                src@.len() as int,
                i as int,
            ).push(q@[i as int]@));
        }
        i = i + 1;
    }
    assert(views(q@).subrange(src@.len() as int, q@.len() as int) =~= views(q@).skip(src@.len() as int));
    path
}

/// Whether a copy of `src` takes the handle `q`: `src` itself, and with
/// `recursive` every handle under it.
pub open spec fn taken(src: Seq<Seq<char>>, q: Seq<Seq<char>>, recursive: bool) -> bool {
    if recursive {
        is_prefix(src, q)
    } else {
        q == src
    }
}

/// What copying `src` to `dest` writes, in the order of `hs`: for each
/// handle taken, its target and its endpoint.
pub open spec fn copy_plan(
    hs: Seq<HandleEntry>,
    src: Seq<Seq<char>>,
    src_name: Seq<char>,
    dest_name: Seq<char>,
    recursive: bool,
) -> Seq<(Seq<Seq<char>>, Option<EndpointView>)>
    decreases hs.len(),
{
    if hs.len() == 0 {
        Seq::empty()
    } else {
        let r = copy_plan(hs.drop_last(), src, src_name, dest_name, recursive);
        let e = hs.last();
        if taken(src, entry_path(e), recursive) {
            r.push((copy_target(entry_path(e), src_name, dest_name), entry_view(e).endpoint))
        } else {
            r
        }
    }
}

/// The endpoint `ev` in the directory `dir`.
pub open spec fn moved(ev: EndpointView, dir: Seq<char>) -> EndpointView {
    EndpointView { path: dir, ..ev }
}

/// The store after one write of a copy: the target is created with its
/// missing prefixes and, when there is an endpoint, gets it in its own
/// directory; its body stays.
pub open spec fn copy_step(
    s: spec_fn(Seq<Seq<char>>) -> Option<EntryView>,
    root: Seq<char>,
    t: Seq<Seq<char>>,
    ev: Option<EndpointView>,
) -> spec_fn(Seq<Seq<char>>) -> Option<EntryView> {
    let s1 = put_tree(s, t);
    match ev {
        Some(v) => put_entry(s1, t, Some(moved(v, handle_dir(root, t))), s1(t)->0.body),
        None => s1,
    }
}

/// The store after every write of `plan`, in order.
pub open spec fn copy_all(
    s: spec_fn(Seq<Seq<char>>) -> Option<EntryView>,
    root: Seq<char>,
    plan: Seq<(Seq<Seq<char>>, Option<EndpointView>)>,
) -> spec_fn(Seq<Seq<char>>) -> Option<EntryView>
    decreases plan.len(),
{
    if plan.len() == 0 {
        s
    } else {
        copy_step(copy_all(s, root, plan.drop_last()), root, plan.last().0, plan.last().1)
    }
}

/// The content of an optional endpoint.
pub open spec fn opt_endpoint_view(e: Option<Endpoint>) -> Option<EndpointView> {
    match e {
        Some(ep) => Some(endpoint_view(ep)),
        None => None,
    }
}

/// The executable plan `v` holds the writes of `plan`.
pub open spec fn holds_plan(
    v: Seq<(Vec<String>, Option<Endpoint>)>,
    plan: Seq<(Seq<Seq<char>>, Option<EndpointView>)>,
) -> bool {
    &&& v.len() == plan.len()
    &&& forall|k: int|
        0 <= k < v.len() ==> views((#[trigger] v[k]).0@) == plan[k].0 && opt_endpoint_view(v[k].1)
            == plan[k].1
}

/// A copy of an optional endpoint.
fn duplicate_endpoint(e: &Option<Endpoint>) -> (res: Option<Endpoint>)
    ensures
        opt_endpoint_view(res) == opt_endpoint_view(*e),
{
    match e {
        Some(ep) => Some(ep.duplicate()),
        None => None,
    }
}

/// The writes of a copy of `src` (written `src_name`) to `dest_name`.
fn make_plan(
    project: &Project,
    src: &Vec<String>,
    src_name: &str,
    dest_name: &str,
    recursive: bool,
) -> (res: Vec<(Vec<String>, Option<Endpoint>)>)
    requires
        src_name@.len() > 0,
        views(src@) == split_on(src_name@, '/'),
    ensures
        holds_plan(
            res@,
            copy_plan(project.handles@, views(src@), src_name@, dest_name@, recursive),
        ),
        forall|k: int| 0 <= k < res@.len() ==> views((#[trigger] res@[k]).0@).len() >= 1,
{
    let mut plan: Vec<(Vec<String>, Option<Endpoint>)> = Vec::new();
    let mut j: usize = 0;
    while j < project.handles.len()
        invariant
            j <= project.handles@.len(),
            src_name@.len() > 0,
            views(src@) == split_on(src_name@, '/'),
            holds_plan(
                plan@,
                copy_plan(
                    project.handles@.take(j as int),
                    views(src@),
                    src_name@,
                    dest_name@,
                    recursive,
                ),
            ),
            forall|k: int| 0 <= k < plan@.len() ==> views((#[trigger] plan@[k]).0@).len() >= 1,
        decreases project.handles.len() - j,
    {
        let e = &project.handles[j];
        let take = if recursive {
            crate::project::has_prefix(&e.path, src)
        } else {
            crate::project::path_eq(&e.path, src)
        };
        let ghost before = plan@;
        proof {
            assert(project.handles@.take(j + 1).drop_last() =~= project.handles@.take(j as int));
            assert(project.handles@.take(j + 1).last() == project.handles@[j as int]);
        }
        if take {
            proof {
                if !recursive {
                    assert(views(e.path@).take(views(src@).len() as int) =~= views(e.path@));
                }
                crate::text::lemma_split_on_len(dest_name@, '/');
            }
            let target = target_of(&e.path, src, dest_name);
            let h = EndpointHandle { path: target };
            let ep = duplicate_endpoint(&e.endpoint);
            plan.push((h.path, ep));
            proof {
                let g = copy_plan(
                    project.handles@.take(j + 1),
                    views(src@),
                    src_name@,
                    dest_name@,
                    recursive,
                );
                assert(plan@ =~= before.push((h.path, ep)));
                assert forall|k: int| 0 <= k < plan@.len() implies views((#[trigger] plan@[k]).0@) == g[k].0
                    && opt_endpoint_view(plan@[k].1) == g[k].1 by {
                    if k < before.len() {
                        assert(plan@[k] == before[k]);
                    }
                }
            }
        }
        j = j + 1;
    }
    assert(project.handles@.take(project.handles@.len() as int) =~= project.handles@);
    plan
}

/// Performs one write of a copy.
fn copy_one(project: &mut Project, root: &str, t: &Vec<String>, ep: &Option<Endpoint>)
    requires
        old(project).wf(),
        views(t@).len() >= 1,
    ensures
        final(project).wf(),
        final(project).store() == copy_step(old(project).store(), root@, views(t@), opt_endpoint_view(*ep)),
        final(project).envs == old(project).envs,
        final(project).state_endpoint == old(project).state_endpoint,
        final(project).state_previous == old(project).state_previous,
        final(project).state_env == old(project).state_env,
        final(project).history == old(project).history,
{
    let ghost s0 = project.store();
    project.ensure(t);
    let ghost s1 = project.store();
    proof {
        assert(is_prefix(views(t@), views(t@))) by {
            assert(views(t@).take(views(t@).len() as int) =~= views(t@));
        }
        assert(s1(views(t@)) is Some);
    }
    if let Some(e) = ep {
        let mut m = e.duplicate();
        let h = EndpointHandle { path: take_segments(t, t.len()) };
        proof {
            assert(views(t@).take(t@.len() as int) =~= views(t@));
        }
        m.set_handle(root, &h);
        let i = project.find(t).unwrap();
        proof {
            crate::project::lemma_handle_index(project.handles@, views(t@));
        }
        let body: Option<String> = match &project.handles[i].body {
            Some(b) => Some(b.clone()),
            None => None,
        };
        assert(endpoint_view(m) == moved(endpoint_view(*e), handle_dir(root@, views(t@))));
        project.set_entry(t, Some(m), body);
    }
}

/// Performs the writes of a plan, in order.
fn apply_plan(
    project: &mut Project,
    root: &str,
    plan: &Vec<(Vec<String>, Option<Endpoint>)>,
    Ghost(g): Ghost<Seq<(Seq<Seq<char>>, Option<EndpointView>)>>,
)
    requires
        old(project).wf(),
        holds_plan(plan@, g),
        forall|k: int| 0 <= k < plan@.len() ==> views((#[trigger] plan@[k]).0@).len() >= 1,
    ensures
        final(project).wf(),
        final(project).store() == copy_all(old(project).store(), root@, g),
        final(project).envs == old(project).envs,
        final(project).state_endpoint == old(project).state_endpoint,
        final(project).state_previous == old(project).state_previous,
        final(project).state_env == old(project).state_env,
        final(project).history == old(project).history,
{
    let mut k: usize = 0;
    while k < plan.len()
        invariant
            k <= plan@.len(),
            holds_plan(plan@, g),
            forall|i: int| 0 <= i < plan@.len() ==> views((#[trigger] plan@[i]).0@).len() >= 1,
            project.wf(),
            project.store() == copy_all(old(project).store(), root@, g.take(k as int)),
            project.envs == old(project).envs,
            project.state_endpoint == old(project).state_endpoint,
            project.state_previous == old(project).state_previous,
            project.state_env == old(project).state_env,
            project.history == old(project).history,
        decreases plan.len() - k,
    {
        assert(views(plan@[k as int].0@).len() >= 1);
        copy_one(project, root, &plan[k].0, &plan[k].1);
        proof {
            assert(g.take(k + 1).drop_last() =~= g.take(k as int));
            assert(g.take(k + 1).last() == g[k as int]);
        }
        k = k + 1;
    }
    assert(g.take(plan@.len() as int) =~= g);
}

/// What `cp` does: how the context after it relates to the one before.
pub open spec fn copied(before: &Ctx, after: &Ctx, args: CpArgs, res: QuartzResult) -> bool {
    &&& after.project.wf()
    &&& same_settings(after, before)
    &&& after.code == before.code
    &&& after.stdout == before.stdout
    &&& after.stderr == before.stderr
    &&& res is Ok <==> (args.src@.len() > 0 && before.project.has(split_on(args.src@, '/')))
    &&& res is Err ==> *after == *before
    &&& res is Ok ==> after.project.store() == copy_all(
        before.project.store(),
        before.path@,
        copy_plan(
            before.project.handles@,
            split_on(args.src@, '/'),
            args.src@,
            args.dest@,
            args.recursive,
        ),
    )
    &&& after.project.envs == before.project.envs
    &&& after.project.state_endpoint == before.project.state_endpoint
    &&& after.project.state_previous == before.project.state_previous
    &&& after.project.state_env == before.project.state_env
    &&& after.project.history == before.project.history
}

/// Copies the handle `args.src` to `args.dest`, and with `recursive` every
/// handle `src/x` under it to `dest/x`.
/// Endpoints are copied, bodies are not; a target that exists is
/// overwritten.
///
/// Needs a source that exists.
pub fn cp(ctx: &mut Ctx, args: CpArgs) -> (res: QuartzResult)
    requires
        args.src@.len() > 0,
        old(ctx).project.has(split_on(args.src@, '/')),
        old(ctx).project.wf(),
    ensures
        copied(old(ctx), final(ctx), args, res),
{
    if str_is_empty(args.src.as_str()) {
        return Err(refuse("could not find ", args.src.as_str(), " handle"));
    }
    let src = match ctx.require_input_handle(args.src.as_str()) {
        Ok(h) => h,
        Err(e) => return Err(e),
    };
    let plan = make_plan(
        &ctx.project,
        &src.path,
        args.src.as_str(),
        args.dest.as_str(),
        args.recursive,
    );
    let ghost g = copy_plan(
        ctx.project.handles@,
        src.segments(),
        args.src@,
        args.dest@,
        args.recursive,
    );
    apply_plan(&mut ctx.project, ctx.path.as_str(), &plan, Ghost(g));
    Ok(())
}

/// Where the source `src` goes in a move to `dest`: `dest` itself when it
/// is the only source, else `dest/<last segment of src>`.
pub open spec fn move_target(src: Seq<char>, dest: Seq<char>, single: bool) -> Seq<char> {
    if single {
        dest
    } else {
        dest + seq!['/'] + split_on(src, '/').last()
    }
}

/// The store after copying each source, with the handles under it, to
/// where it goes, in order; every copy is planned on the entries `hs`.
pub open spec fn move_copies(
    s: spec_fn(Seq<Seq<char>>) -> Option<EntryView>,
    root: Seq<char>,
    hs: Seq<HandleEntry>,
    srcs: Seq<Seq<char>>,
    dest: Seq<char>,
    single: bool,
) -> spec_fn(Seq<Seq<char>>) -> Option<EntryView>
    decreases srcs.len(),
{
    if srcs.len() == 0 {
        s
    } else {
        let src = srcs.last();
        copy_all(
            move_copies(s, root, hs, srcs.drop_last(), dest, single),
            root,
            copy_plan(hs, split_on(src, '/'), src, move_target(src, dest, single), true),
        )
    }
}

/// The store after removing each source with the handles under it.
pub open spec fn cut_all(
    s: spec_fn(Seq<Seq<char>>) -> Option<EntryView>,
    srcs: Seq<Seq<char>>,
) -> spec_fn(Seq<Seq<char>>) -> Option<EntryView>
    decreases srcs.len(),
{
    if srcs.len() == 0 {
        s
    } else {
        cut_tree(cut_all(s, srcs.drop_last()), split_on(srcs.last(), '/'))
    }
}

/// Whether a move of `names` (the sources, then the destination) is
/// refused: fewer than two names, a source that is empty or does not exist,
/// or a source that holds where some source goes.
pub open spec fn mv_refused(p: &Project, names: Seq<Seq<char>>) -> bool {
    let srcs = names.drop_last();
    let dest = names.last();
    let single = names.len() == 2;
    ||| names.len() < 2
    ||| exists|k: int|
        0 <= k < srcs.len() && ((#[trigger] srcs[k]).len() == 0 || !p.has(split_on(srcs[k], '/')))
    ||| exists|j: int, k: int|
        #![trigger srcs[j], srcs[k]]
        0 <= j < srcs.len() && 0 <= k < srcs.len() && is_prefix(
            split_on(srcs[j], '/'),
            split_on(move_target(srcs[k], dest, single), '/'),
        )
}

/// What `mv` does: how the context after it relates to the one before.
pub open spec fn handles_moved(before: &Ctx, after: &Ctx, args: MvArgs, res: QuartzResult) -> bool {
    &&& after.project.wf()
    &&& same_settings(after, before)
    &&& after.code == before.code
    &&& after.stdout == before.stdout
    &&& after.stderr == before.stderr
    &&& res is Err <==> mv_refused(&before.project, views(args.handles@))
    &&& res is Err ==> *after == *before
    &&& res is Ok ==> ({
        let names = views(args.handles@);
        let srcs = names.drop_last();
        after.project.store() == cut_all(
            move_copies(
                before.project.store(),
                before.path@,
                before.project.handles@,
                srcs,
                names.last(),
                names.len() == 2,
            ),
            srcs,
        )
    })
    &&& after.project.envs == before.project.envs
    &&& after.project.state_endpoint == before.project.state_endpoint
    &&& after.project.state_previous == before.project.state_previous
    &&& after.project.state_env == before.project.state_env
    &&& after.project.history == before.project.history
}

/// Moves the sources (every name but the last) to the destination (the
/// last name): a single source becomes the destination, several go under
/// it by their last segment. Each source is copied with the handles under
/// it, as planned before the move, then removed.
pub fn mv(ctx: &mut Ctx, args: MvArgs) -> (res: QuartzResult)
    requires
        old(ctx).project.wf(),
    ensures
        handles_moved(old(ctx), final(ctx), args, res),
{
    let ghost names = views(args.handles@);
    let n = args.handles.len();
    if n < 2 {
        return Err(refuse("missing destination handle", "", ""));
    }
    let ghost srcs = names.drop_last();
    let dest = &args.handles[n - 1];
    let single = n == 2;
    let mut targets: Vec<String> = Vec::new();
    let mut k: usize = 0;
    while k < n - 1
        invariant
            n == args.handles@.len() >= 2,
            names == views(args.handles@),
            srcs == names.drop_last(),
            dest@ == names.last(),
            single == (n == 2),
            k <= n - 1,
            *ctx == *old(ctx),
            old(ctx).project.wf(),
            targets@.len() == k,
            forall|i: int| 0 <= i < k ==> (#[trigger] srcs[i]).len() > 0 && ctx.project.has(split_on(srcs[i], '/')),
            forall|i: int| 0 <= i < k ==> (#[trigger] targets@[i])@ == move_target(srcs[i], dest@, single),
        decreases n - 1 - k,
    {
        let src = args.handles[k].as_str();
        assert(src@ == srcs[k as int]);
        if str_is_empty(src) {
            return Err(refuse("could not find ", src, " handle"));
        }
        let h = EndpointHandle::from(src);
        if !ctx.project.contains_handle(&h) {
            return Err(refuse("could not find ", src, " handle"));
        }
        let t = if single {
            dest.clone()
        } else {
            let mut t = dest.clone();
            crate::text::push_str(&mut t, "/");
            let head = h.head();
            crate::text::push_str(&mut t, head.as_str());
            proof {
                reveal_strlit("/");
                crate::text::lemma_split_on_len(src@, '/');
                assert(t@ =~= dest@ + seq!['/'] + split_on(src@, '/').last());
            }
            t
        };
        targets.push(t);
        k = k + 1;
    }
    let mut j: usize = 0;
    while j < n - 1
        invariant
            n == args.handles@.len() >= 2,
            names == views(args.handles@),
            srcs == names.drop_last(),
            dest@ == names.last(),
            single == (n == 2),
            j <= n - 1,
            *ctx == *old(ctx),
            old(ctx).project.wf(),
            targets@.len() == n - 1,
            forall|i: int| 0 <= i < n - 1 ==> (#[trigger] srcs[i]).len() > 0 && ctx.project.has(split_on(srcs[i], '/')),
            forall|i: int| 0 <= i < n - 1 ==> (#[trigger] targets@[i])@ == move_target(srcs[i], dest@, single),
            forall|a: int, b: int|
                #![trigger srcs[a], srcs[b]]
                0 <= a < j && 0 <= b < n - 1 ==> !is_prefix(
                    split_on(srcs[a], '/'),
                    split_on(move_target(srcs[b], dest@, single), '/'),
                ),
        decreases n - 1 - j,
    {
        let hj = EndpointHandle::from(args.handles[j].as_str());
        let mut k2: usize = 0;
        while k2 < n - 1
            invariant
                n == args.handles@.len() >= 2,
                names == views(args.handles@),
                srcs == names.drop_last(),
                j < n - 1,
                dest@ == names.last(),
                single == (n == 2),
                *ctx == *old(ctx),
                old(ctx).project.wf(),
                targets@.len() == n - 1,
                hj.segments() == split_on(srcs[j as int], '/'),
                forall|i: int| 0 <= i < n - 1 ==> (#[trigger] targets@[i])@ == move_target(srcs[i], dest@, single),
                k2 <= n - 1,
                forall|b: int|
                    0 <= b < k2 ==> !is_prefix(
                        split_on(srcs[j as int], '/'),
                        split_on(move_target(#[trigger] srcs[b], dest@, single), '/'),
                    ),
            decreases n - 1 - k2,
        {
            let tk = EndpointHandle::from(targets[k2].as_str());
            if crate::project::has_prefix(&tk.path, &hj.path) {
                assert(srcs[k2 as int] == srcs[k2 as int]);
                assert(srcs[j as int] == srcs[j as int]);
                return Err(refuse("cannot move ", args.handles[j].as_str(), " into itself"));
            }
            k2 = k2 + 1;
        }
        j = j + 1;
    }
    let ghost h0 = ctx.project.handles@;
    let ghost s0 = ctx.project.store();
    let mut plans: Vec<Vec<(Vec<String>, Option<Endpoint>)>> = Vec::new();
    let mut k: usize = 0;
    while k < n - 1
        invariant
            n == args.handles@.len() >= 2,
            names == views(args.handles@),
            srcs == names.drop_last(),
            dest@ == names.last(),
            single == (n == 2),
            k <= n - 1,
            ctx.project.handles@ == h0,
            targets@.len() == n - 1,
            forall|i: int| 0 <= i < n - 1 ==> (#[trigger] srcs[i]).len() > 0,
            forall|i: int| 0 <= i < n - 1 ==> (#[trigger] targets@[i])@ == move_target(srcs[i], dest@, single),
            plans@.len() == k,
            forall|i: int|
                0 <= i < k ==> holds_plan(
                    (#[trigger] plans@[i])@,
                    copy_plan(h0, split_on(srcs[i], '/'), srcs[i], move_target(srcs[i], dest@, single), true),
                ),
            forall|i: int, m: int|
                0 <= i < k && 0 <= m < plans@[i]@.len() ==> views((#[trigger] plans@[i]@[m]).0@).len() >= 1,
        decreases n - 1 - k,
    {
        let src = args.handles[k].as_str();
        assert(src@ == srcs[k as int]);
        let h = EndpointHandle::from(src);
        let plan = make_plan(&ctx.project, &h.path, src, targets[k].as_str(), true);
        plans.push(plan);
        k = k + 1;
    }
    let mut k: usize = 0;
    while k < n - 1
        invariant
            n == args.handles@.len() >= 2,
            names == views(args.handles@),
            srcs == names.drop_last(),
            dest@ == names.last(),
            single == (n == 2),
            k <= n - 1,
            plans@.len() == n - 1,
            forall|i: int|
                0 <= i < n - 1 ==> holds_plan(
                    (#[trigger] plans@[i])@,
                    copy_plan(h0, split_on(srcs[i], '/'), srcs[i], move_target(srcs[i], dest@, single), true),
                ),
            forall|i: int, m: int|
                0 <= i < n - 1 && 0 <= m < plans@[i]@.len() ==> views((#[trigger] plans@[i]@[m]).0@).len() >= 1,
            ctx.project.wf(),
            ctx.project.store() == move_copies(s0, ctx.path@, h0, srcs.take(k as int), dest@, single),
            same_settings(ctx, old(ctx)),
            ctx.code == old(ctx).code,
            ctx.stdout == old(ctx).stdout,
            ctx.stderr == old(ctx).stderr,
            ctx.project.envs == old(ctx).project.envs,
            ctx.project.state_endpoint == old(ctx).project.state_endpoint,
            ctx.project.state_previous == old(ctx).project.state_previous,
            ctx.project.state_env == old(ctx).project.state_env,
            ctx.project.history == old(ctx).project.history,
        decreases n - 1 - k,
    {
        let ghost g = copy_plan(
            h0,
            split_on(srcs[k as int], '/'),
            srcs[k as int],
            move_target(srcs[k as int], dest@, single),
            true,
        );
        assert(holds_plan(plans@[k as int]@, g));
        assert forall|m: int| 0 <= m < plans@[k as int]@.len() implies views((#[trigger] plans@[k as int]@[m]).0@).len() >= 1 by {
            assert(views(plans@[k as int]@[m].0@).len() >= 1);
        }
        apply_plan(&mut ctx.project, ctx.path.as_str(), &plans[k], Ghost(g));
        proof {
            assert(srcs.take(k + 1).drop_last() =~= srcs.take(k as int));
            assert(srcs.take(k + 1).last() == srcs[k as int]);
        }
        k = k + 1;
    }
    assert(srcs.take((n - 1) as int) =~= srcs);
    let ghost moved_store = ctx.project.store();
    let mut k: usize = 0;
    while k < n - 1
        invariant
            n == args.handles@.len() >= 2,
            names == views(args.handles@),
            srcs == names.drop_last(),
            k <= n - 1,
            ctx.project.wf(),
            ctx.project.store() == cut_all(moved_store, srcs.take(k as int)),
            same_settings(ctx, old(ctx)),
            ctx.code == old(ctx).code,
            ctx.stdout == old(ctx).stdout,
            ctx.stderr == old(ctx).stderr,
            ctx.project.envs == old(ctx).project.envs,
            ctx.project.state_endpoint == old(ctx).project.state_endpoint,
            ctx.project.state_previous == old(ctx).project.state_previous,
            ctx.project.state_env == old(ctx).project.state_env,
            ctx.project.history == old(ctx).project.history,
        decreases n - 1 - k,
    {
        let h = EndpointHandle::from(args.handles[k].as_str());
        ctx.project.remove_tree(&h.path);
        proof {
            assert(srcs.take(k + 1).drop_last() =~= srcs.take(k as int));
            assert(srcs.take(k + 1).last() == srcs[k as int]);
        }
        k = k + 1;
    }
    assert(srcs.take((n - 1) as int) =~= srcs);
    Ok(())
}

} // verus!
