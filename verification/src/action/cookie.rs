//! Printing the cookies of an environment.
use vstd::prelude::*;

use crate::action::same_settings;
use crate::cookie::{domain_matches, CookieJar, CookieView};
use crate::text::{push_str, str_eq};
use crate::{refuse, Ctx, QuartzResult};

verus! {

/// Arguments of `show cookies`.
pub struct PrintArgs {
    /// Print the value of the cookie of this name.
    pub key: Option<String>,
    /// Keep only the cookies this domain matches.
    pub domain: Option<String>,
}

/// The cookies of `s` that the domain filter and the name filter keep, in
/// order.
pub open spec fn selected(s: Seq<CookieView>, domain: Option<Seq<char>>, key: Option<Seq<char>>) -> Seq<
    CookieView,
>
    decreases s.len(),
{
    if s.len() == 0 {
        s
    } else {
        let r = selected(s.drop_last(), domain, key);
        let c = s.last();
        let keep = (match domain {
            Some(d) => domain_matches(c.domain, d),
            None => true,
        }) && (match key {
            Some(k) => c.name == k,
            None => true,
        });
        if keep {
            r.push(c)
        } else {
            r
        }
    }
}

/// Each cookie as `name=value` and a line break.
pub open spec fn named_lines(s: Seq<CookieView>) -> Seq<char>
    decreases s.len(),
{
    if s.len() == 0 {
        Seq::empty()
    } else {
        named_lines(s.drop_last()) + s.last().name + seq!['='] + s.last().value + seq!['\n']
    }
}

/// Each cookie as `domain: value` and a line break.
pub open spec fn domain_lines(s: Seq<CookieView>) -> Seq<char>
    decreases s.len(),
{
    if s.len() == 0 {
        Seq::empty()
    } else {
        domain_lines(s.drop_last()) + s.last().domain + seq![':', ' '] + s.last().value + seq!['\n']
    }
}

/// The view of an optional text.
pub open spec fn opt_seq(o: Option<String>) -> Option<Seq<char>> {
    match o {
        Some(s) => Some(s@),
        None => None,
    }
}

/// What `show cookies` prints of `jar`, or `None` when a name is asked for
/// and no cookie has it.
pub open spec fn cookies_text(jar: Seq<CookieView>, args: &PrintArgs) -> Option<Seq<char>> {
    let sel = selected(jar, opt_seq(args.domain), opt_seq(args.key));
    match args.key {
        None => Some(named_lines(sel)),
        Some(_) => if sel.len() == 0 {
            None
        } else if sel.len() == 1 {
            Some(sel[0].value + seq!['\n'])
        } else {
            Some(domain_lines(sel))
        },
    }
}

/// Prints the cookies of `jar` the domain filter keeps: with a name, the
/// value of the one cookie of that name, or each domain and value when
/// several domains have one; else every cookie as `name=value`.
///
/// Refused when a name is given and no kept cookie has it.
pub fn print(ctx: &mut Ctx, args: PrintArgs, jar: &CookieJar) -> (res: QuartzResult)
    ensures
        final(ctx).project == old(ctx).project,
        same_settings(final(ctx), old(ctx)),
        final(ctx).code == old(ctx).code,
        final(ctx).stderr == old(ctx).stderr,
        res is Ok <==> cookies_text(jar@, &args) is Some,
        res is Err ==> *final(ctx) == *old(ctx),
        res is Ok ==> final(ctx).stdout@ == old(ctx).stdout@ + cookies_text(jar@, &args)->0,
{
    let mut sel_idx: Vec<usize> = Vec::new();
    let ghost mut sel: Seq<CookieView> = Seq::empty();
    let mut i: usize = 0;
    while i < jar.len()
        invariant
            i <= jar@.len(),
            sel == selected(jar@.take(i as int), opt_seq(args.domain), opt_seq(args.key)),
            sel_idx@.len() == sel.len(),
            forall|k: int| 0 <= k < sel_idx@.len() ==> (#[trigger] sel_idx@[k]) < jar@.len() && jar@[sel_idx@[k] as int] == sel[k],
        decreases jar@.len() - i,
    {
        let c = jar.get(i);
        let keep_domain = match &args.domain {
            Some(d) => c.domain().matches(d.as_str()),
            None => true,
        };
        let keep_key = match &args.key {
            Some(k) => str_eq(c.name(), k.as_str()),
            None => true,
        };
        proof {
            assert(jar@.take(i + 1).drop_last() =~= jar@.take(i as int));
            assert(jar@.take(i + 1).last() == jar@[i as int]);
        }
        if keep_domain && keep_key {
            sel_idx.push(i);
            proof {
                sel = sel.push(jar@[i as int]);
            }
        }
        i = i + 1;
    }
    assert(jar@.take(jar@.len() as int) =~= jar@);
    let n = sel_idx.len();
    if args.key.is_some() && n == 0 {
        let k = match &args.key {
            Some(k) => k.as_str(),
            None => "",
        };
        return Err(refuse(k, ": No such cookie", ""));
    }
    let ghost out0 = ctx.stdout@;
    if args.key.is_some() && n == 1 {
        let c = jar.get(sel_idx[0]);
        let v = crate::text::owned(c.value());
        ctx.print(v.as_str());
        ctx.print("\n");
        proof {
            reveal_strlit("\n");
            assert(ctx.stdout@ =~= out0 + sel[0].value + seq!['\n']);
        }
        return Ok(());
    }
    let by_domain = args.key.is_some();
    let mut k: usize = 0;
    while k < n
        invariant
            k <= n == sel_idx@.len() == sel.len(),
            forall|m: int| 0 <= m < sel_idx@.len() ==> (#[trigger] sel_idx@[m]) < jar@.len() && jar@[sel_idx@[m] as int] == sel[m],
            by_domain == args.key is Some,
            ctx.stdout@ == out0 + if by_domain {
                domain_lines(sel.take(k as int))
            } else {
                named_lines(sel.take(k as int))
            },
            ctx.project == old(ctx).project,
            same_settings(ctx, old(ctx)),
            ctx.code == old(ctx).code,
            ctx.stderr == old(ctx).stderr,
        decreases n - k,
    {
        let c = jar.get(sel_idx[k]);
        let mut line = String::new();
        if by_domain {
            push_str(&mut line, c.domain().as_str());
            push_str(&mut line, ": ");
        } else {
            push_str(&mut line, c.name());
            push_str(&mut line, "=");
        }
        push_str(&mut line, c.value());
        push_str(&mut line, "\n");
        let ghost before = ctx.stdout@;
        ctx.print(line.as_str());
        proof {
            reveal_strlit(": ");
            reveal_strlit("=");
            reveal_strlit("\n");
            assert(sel.take(k + 1).drop_last() =~= sel.take(k as int));
            assert(sel.take(k + 1).last() == sel[k as int]);
            assert(ctx.stdout@ =~= out0 + if by_domain {
                domain_lines(sel.take(k + 1))
            } else {
                named_lines(sel.take(k + 1))
            });
        }
        k = k + 1;
    }
    assert(sel.take(n as int) =~= sel);
    Ok(())
}

} // verus!
