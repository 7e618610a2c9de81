//! Listing handles.
use vstd::prelude::*;

use crate::action::same_settings;
use crate::endpoint::{name_le, method_color, sort_names, spec_method_color, EndpointHandle};
use crate::paint::{show, shown, Paint};
use crate::project::{entry_path, is_prefix, HandleEntry, Project};
use crate::text::{chars_of, join_strings, join_with, split_on, str_eq, views};
use crate::{refuse, Ctx, QuartzResult};

verus! {

/// Arguments of `ls`.
pub struct Args {
    /// List the handles under this one.
    pub handle: Option<String>,
    /// List no deeper than this many segments.
    pub depth: Option<usize>,
}

/// The names of the handles of `hs` under `root` (itself included) with at
/// least one and at most `max_depth` segments, in order.
pub open spec fn ls_names(hs: Seq<HandleEntry>, root: Seq<Seq<char>>, max_depth: int) -> Seq<Seq<char>>
    decreases hs.len(),
{
    if hs.len() == 0 {
        Seq::empty()
    } else {
        let r = ls_names(hs.drop_last(), root, max_depth);
        let q = entry_path(hs.last());
        if is_prefix(root, q) && 1 <= q.len() <= max_depth {
            r.push(join_with(q, seq!['/']))
        } else {
            r
        }
    }
}

/// Index of the first entry of `hs` named `n`, or -1.
pub open spec fn name_index(hs: Seq<HandleEntry>, n: Seq<char>) -> int
    decreases hs.len(),
{
    if hs.len() == 0 {
        -1
    } else {
        let r = name_index(hs.drop_last(), n);
        if r >= 0 {
            r
        } else if join_with(entry_path(hs.last()), seq!['/']) == n {
            hs.len() - 1
        } else {
            -1
        }
    }
}

/// The method shown for the handle named `n`: its endpoint's, or `---`.
pub open spec fn method_text(hs: Seq<HandleEntry>, n: Seq<char>) -> Seq<char> {
    let i = name_index(hs, n);
    if 0 <= i < hs.len() && hs[i].endpoint is Some {
        hs[i].endpoint->0.method@
    } else {
        seq!['-', '-', '-']
    }
}

/// The widest method shown for `names`.
pub open spec fn method_width(hs: Seq<HandleEntry>, names: Seq<Seq<char>>) -> nat
    decreases names.len(),
{
    if names.len() == 0 {
        0
    } else {
        let w = method_width(hs, names.drop_last());
        let m = method_text(hs, names.last()).len();
        if m > w {
            m
        } else {
            w
        }
    }
}

/// `s` padded with spaces to `w` characters.
pub open spec fn pad(s: Seq<char>, w: nat) -> Seq<char> {
    if s.len() < w {
        s + Seq::new((w - s.len()) as nat, |i: int| ' ')
    } else {
        s
    }
}

/// How the handle named `n` is coloured: green when it is the one in use.
pub open spec fn name_paint(n: Seq<char>, active: Option<Seq<char>>) -> Option<Paint> {
    if active == Some(n) {
        Some(Paint::Green)
    } else {
        None
    }
}

/// How `method` is coloured: bold, in the colour of the method.
pub open spec fn method_paint(method: Seq<char>) -> Option<Paint> {
    Some(Paint::Bold(spec_method_color(method)))
}

/// One line of the listing: `*` for the handle in use, the method padded to
/// `w`, the name, each coloured when `colors` is on.
pub open spec fn ls_line(
    hs: Seq<HandleEntry>,
    n: Seq<char>,
    w: nat,
    active: Option<Seq<char>>,
    colors: bool,
) -> Seq<char> {
    let mark = if active == Some(n) {
        '*'
    } else {
        ' '
    };
    let m = method_text(hs, n);
    seq![mark, ' '] + shown(pad(m, w), method_paint(m), colors) + seq![' '] + shown(
        n,
        name_paint(n, active),
        colors,
    ) + seq!['\n']
}

/// The lines of `names`.
pub open spec fn ls_lines(
    hs: Seq<HandleEntry>,
    names: Seq<Seq<char>>,
    w: nat,
    active: Option<Seq<char>>,
    colors: bool,
) -> Seq<char>
    decreases names.len(),
{
    if names.len() == 0 {
        Seq::empty()
    } else {
        ls_lines(hs, names.drop_last(), w, active, colors) + ls_line(hs, names.last(), w, active, colors)
    }
}

/// The handle in use, when there is one and it is not empty.
pub open spec fn active_handle(ctx: &Ctx) -> Option<Seq<char>> {
    match ctx.current_handle() {
        Some(t) => if t.len() > 0 {
            Some(t)
        } else {
            None
        },
        None => None,
    }
}

/// The listing of the handles under `root` no deeper than `max_depth`, in
/// the order of the tree: each handle followed by those under it, siblings
/// by name.
pub open spec fn ls_text(ctx: &Ctx, root: Seq<Seq<char>>, max_depth: int) -> Seq<char> {
    let hs = ctx.project.handles@;
    let names = ls_names(hs, root, max_depth).sort_by(|a: Seq<char>, b: Seq<char>| name_le(a, b));
    ls_lines(hs, names, method_width(hs, names), active_handle(ctx), ctx.colors_on())
}

/// The depth limit of a listing: the one given, else none, and at least 1.
pub open spec fn max_depth(depth: Option<usize>) -> int {
    match depth {
        Some(d) => if d >= 1 {
            d as int
        } else {
            1
        },
        None => usize::MAX as int,
    }
}

/// The method shown for the handle named `n`.
fn method_of(project: &Project, n: &str) -> (res: String)
    ensures
        res@ == method_text(project.handles@, n@),
{
    let mut i: usize = 0;
    while i < project.handles.len()
        invariant
            i <= project.handles@.len(),
            name_index(project.handles@.take(i as int), n@) < 0,
        decreases project.handles.len() - i,
    {
        proof {
            assert(project.handles@.take(i + 1).drop_last() =~= project.handles@.take(i as int));
        }
        let name = join_strings(&project.handles[i].path, "/");
        proof {
            reveal_strlit("/");
            assert("/"@ =~= seq!['/']);
        }
        if str_eq(name.as_str(), n) {
            proof {
                lemma_name_index_prefix(project.handles@, n@, i as int);
            }
            match &project.handles[i].endpoint {
                Some(e) => return e.method.clone(),
                None => {
                    proof {
                        reveal_strlit("---");
                    }
                    return crate::text::owned("---");
                },
            }
        }
        i = i + 1;
    }
    proof {
        assert(project.handles@.take(project.handles@.len() as int) =~= project.handles@);
        reveal_strlit("---");
    }
    crate::text::owned("---")
}

/// The first index found in a prefix is the first index.
proof fn lemma_name_index_prefix(hs: Seq<HandleEntry>, n: Seq<char>, i: int)
    requires
        0 <= i < hs.len(),
        name_index(hs.take(i), n) < 0,
        join_with(entry_path(hs[i]), seq!['/']) == n,
    ensures
        name_index(hs, n) == i,
    decreases hs.len() - i,
{
    assert(hs.take(i + 1).drop_last() =~= hs.take(i));
    if i + 1 < hs.len() {
        lemma_name_index_prefix_grow(hs, n, i, i + 1);
    } else {
        assert(hs.take(i + 1) =~= hs);
    }
}

/// Once found, the first index stays as the entries grow.
proof fn lemma_name_index_prefix_grow(hs: Seq<HandleEntry>, n: Seq<char>, i: int, k: int)
    requires
        0 <= i < k <= hs.len(),
        name_index(hs.take(k), n) == i,
    ensures
        name_index(hs, n) == i,
    decreases hs.len() - k,
{
    if k == hs.len() {
        assert(hs.take(k) =~= hs);
    } else {
        assert(hs.take(k + 1).drop_last() =~= hs.take(k));
        lemma_name_index_prefix_grow(hs, n, i, k + 1);
    }
}

/// What `cmd` does: how the context after it relates to the one before.
pub open spec fn listed(before: &Ctx, after: &Ctx, args: Args, res: QuartzResult) -> bool {
    &&& after.project == before.project
    &&& same_settings(after, before)
    &&& after.code == before.code
    &&& after.stderr == before.stderr
    &&& res is Err <==> (args.handle matches Some(n) && !before.project.has(split_on(n@, '/')))
    &&& res is Err ==> *after == *before
    &&& res is Ok ==> after.stdout@ == before.stdout@ + ls_text(
        before,
        match args.handle {
            Some(n) => split_on(n@, '/'),
            None => Seq::<Seq<char>>::empty(),
        },
        max_depth(args.depth),
    )
}

/// Lists the handles under `args.handle` (every handle when none is given)
/// that are no deeper than the depth limit, in the order of the tree (each
/// handle followed by those under it, siblings by name), each with its
/// method and a `*` for the handle in use; when colours are on, the method
/// is bold in its colour and the handle in use green.
///
/// Needs the handle given, if any, to exist.
pub fn cmd(ctx: &mut Ctx, args: Args) -> (res: QuartzResult)
    requires
        args.handle matches Some(n) ==> old(ctx).project.has(split_on(n@, '/')),
    ensures
        listed(old(ctx), final(ctx), args, res),
{
    let maxd: usize = match args.depth {
        Some(d) => if d >= 1 {
            d
        } else {
            1
        },
        None => usize::MAX,
    };
    let root = match &args.handle {
        Some(n) => {
            let h = EndpointHandle::from(n.as_str());
            if !ctx.project.contains_handle(&h) {
                return Err(refuse("no such handle: ", n.as_str(), ""));
            }
            h
        },
        None => EndpointHandle::quartz(),
    };
    let ghost hs = ctx.project.handles@;
    let ghost rv = root.segments();
    let mut names: Vec<String> = Vec::new();
    let mut j: usize = 0;
    while j < ctx.project.handles.len()
        invariant
            j <= hs.len(),
            hs == ctx.project.handles@,
            rv == root.segments(),
            views(names@) == ls_names(hs.take(j as int), rv, maxd as int),
        decreases ctx.project.handles.len() - j,
    {
        let path = &ctx.project.handles[j].path;
        proof {
            assert(hs.take(j + 1).drop_last() =~= hs.take(j as int));
            assert(hs.take(j + 1).last() == hs[j as int]);
        }
        if path.len() >= 1 && path.len() <= maxd && crate::project::has_prefix(path, &root.path) {
            let name = join_strings(path, "/");
            proof {
                reveal_strlit("/");
                assert("/"@ =~= seq!['/']);
            }
            names.push(name);
            assert(views(names@) =~= ls_names(hs.take(j + 1), rv, maxd as int));
        }
        j = j + 1;
    }
    assert(hs.take(hs.len() as int) =~= hs);
    let sorted = sort_names(names);
    let ghost sv = views(sorted@);
    let mut width: usize = 0;
    let mut methods: Vec<String> = Vec::new();
    let mut k: usize = 0;
    while k < sorted.len()
        invariant
            k <= sorted@.len(),
            sv == views(sorted@),
            hs == ctx.project.handles@,
            width as nat == method_width(hs, sv.take(k as int)),
            methods@.len() == k,
            forall|m: int| 0 <= m < k ==> (#[trigger] methods@[m])@ == method_text(hs, sv[m]),
        decreases sorted.len() - k,
    {
        let m = method_of(&ctx.project, sorted[k].as_str());
        let len = chars_of(m.as_str()).len();
        proof {
            assert(sv.take(k + 1).drop_last() =~= sv.take(k as int));
            assert(sv.take(k + 1).last() == sv[k as int]);
        }
        if len > width {
            width = len;
        }
        methods.push(m);
        k = k + 1;
    }
    assert(sv.take(sorted@.len() as int) =~= sv);
    let active = active_name(ctx);
    let colors = ctx.colors();
    let ghost out0 = ctx.stdout@;
    let mut k: usize = 0;
    while k < sorted.len()
        invariant
            k <= sorted@.len(),
            sv == views(sorted@),
            hs == ctx.project.handles@,
            hs == old(ctx).project.handles@,
            width as nat == method_width(hs, sv),
            methods@.len() == sorted@.len(),
            forall|m: int| 0 <= m < sorted@.len() ==> (#[trigger] methods@[m])@ == method_text(hs, sv[m]),
            match active {
                Some(a) => active_handle(old(ctx)) == Some(a@),
                None => active_handle(old(ctx)) is None,
            },
            colors == old(ctx).colors_on(),
            ctx.stdout@ == out0 + ls_lines(
                hs,
                sv.take(k as int),
                width as nat,
                active_handle(old(ctx)),
                colors,
            ),
            ctx.project == old(ctx).project,
            same_settings(ctx, old(ctx)),
            ctx.code == old(ctx).code,
            ctx.stderr == old(ctx).stderr,
        decreases sorted.len() - k,
    {
        let name = sorted[k].as_str();
        let is_active = match &active {
            Some(a) => str_eq(a.as_str(), name),
            None => false,
        };
        let line = ls_line_text(is_active, methods[k].as_str(), width, name, colors);
        proof {
            assert(sv.take(k + 1).drop_last() =~= sv.take(k as int));
            assert(sv.take(k + 1).last() == sv[k as int]);
            assert(line@ == ls_line(hs, sv[k as int], width as nat, active_handle(old(ctx)), colors));
        }
        ctx.print(line.as_str());
        proof {
            assert(ctx.stdout@ =~= out0 + ls_lines(
                hs,
                sv.take(k + 1),
                width as nat,
                active_handle(old(ctx)),
                colors,
            ));
        }
        k = k + 1;
    }
    proof {
        assert(sv.take(sorted@.len() as int) =~= sv);
        assert(sv == ls_names(hs, rv, maxd as int).sort_by(|a: Seq<char>, b: Seq<char>| name_le(a, b)));
    }
    Ok(())
}

/// The handle in use, when there is one and it is not empty.
fn active_name(ctx: &Ctx) -> (res: Option<String>)
    ensures
        match res {
            Some(a) => active_handle(ctx) == Some(a@),
            None => active_handle(ctx) is None,
        },
{
    let h = match &ctx.args.from_handle {
        Some(h) => Some(h.clone()),
        None => match &ctx.project.state_endpoint {
            Some(s) => if crate::text::str_is_empty(s.as_str()) {
                None
            } else {
                Some(s.clone())
            },
            None => None,
        },
    };
    match h {
        Some(a) => if crate::text::str_is_empty(a.as_str()) {
            None
        } else {
            Some(a)
        },
        None => None,
    }
}

/// `method` padded with spaces to `width` characters.
fn padded(method: &str, width: usize) -> (res: String)
    ensures
        res@ == pad(method@, width as nat),
{
    let mut line = crate::text::owned(method);
    let n = chars_of(method).len();
    let mut k: usize = n;
    assert(line@ =~= method@ + Seq::new(0nat, |i: int| ' '));
    while k < width
        invariant
            n == method@.len(),
            n <= k,
            n < width ==> k <= width,
            n >= width ==> k == n,
            line@ == method@ + Seq::new((k - n) as nat, |i: int| ' '),
        decreases width - k,
    {
        crate::text::push_char(&mut line, ' ');
        proof {
            let c = k - n;
            assert(Seq::new(c as nat, |i: int| ' ').push(' ') =~= Seq::new((c + 1) as nat, |i: int| ' '));
        }
        k = k + 1;
    }
    proof {
        let sp = Seq::new((k - n) as nat, |i: int| ' ');
        if n < width {
            assert(k == width);
        } else {
            assert(k == n);
            assert(sp =~= Seq::<char>::empty());
        }
        assert(pad(method@, width as nat) =~= method@ + sp);
    }
    line
}

/// One line of the listing.
fn ls_line_text(is_active: bool, method: &str, width: usize, name: &str, colors: bool) -> (res: String)
    ensures
        res@ == seq![if is_active { '*' } else { ' ' }, ' '] + shown(
            pad(method@, width as nat),
            method_paint(method@),
            colors,
        ) + seq![' '] + shown(
            name@,
            if is_active {
                Some(Paint::Green)
            } else {
                None
            },
            colors,
        ) + seq!['\n'],
{
    let mut line = String::new();
    if is_active {
        crate::text::push_char(&mut line, '*');
    } else {
        crate::text::push_char(&mut line, ' ');
    }
    crate::text::push_char(&mut line, ' ');
    let m = show(padded(method, width).as_str(), Some(Paint::Bold(method_color(method))), colors);
    crate::text::push_str(&mut line, m.as_str());
    crate::text::push_char(&mut line, ' ');
    let paint = if is_active {
        Some(Paint::Green)
    } else {
        None
    };
    let n = show(name, paint, colors);
    crate::text::push_str(&mut line, n.as_str());
    crate::text::push_char(&mut line, '\n');
    line
}

} // verus!
