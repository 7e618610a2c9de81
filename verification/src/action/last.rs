//! The last request and its response.
use vstd::prelude::*;

use crate::action::history::{entry_index, find_entry, history_of, newest_first, timestamps_of};
use crate::action::same_settings;
use crate::cli::{LastCmd, LastResCmd};
use crate::history::{entry_text, Entry};
use crate::text::{
    join_strings, join_with, push_str, split_char, split_on, starts_with, starts_with_str, trim,
    trim_prefix_all, trim_start_matches_str, trim_ws, views,
};
use crate::{refuse, Ctx, QuartzResult};

verus! {

/// The lines of the message `m`, each without its leading `mark`s and
/// surrounding white space.
pub open spec fn head_of(m: Seq<char>, mark: char) -> Seq<char> {
    join_with(
        split_on(m, '\n').map_values(|l: Seq<char>| trim_ws(trim_prefix_all(l, seq![mark]))),
        seq!['\n'],
    )
}

/// The messages of `ms` that start with `mark`, each cleaned by `head_of`
/// and followed by a line break.
pub open spec fn head_text(ms: Seq<Seq<char>>, mark: char) -> Seq<char>
    decreases ms.len(),
{
    if ms.len() == 0 {
        Seq::empty()
    } else {
        head_text(ms.drop_last(), mark) + if starts_with(ms.last(), seq![mark]) {
            head_of(ms.last(), mark) + seq!['\n']
        } else {
            Seq::empty()
        }
    }
}

/// The message `m` cleaned by `head_of`.
fn clean_message(m: &str, mark: &str) -> (res: String)
    requires
        mark@.len() == 1,
    ensures
        res@ == head_of(m@, mark@[0]),
{
    let pieces = split_char(m, '\n');
    let ghost sp = split_on(m@, '\n');
    let ghost f = |l: Seq<char>| trim_ws(trim_prefix_all(l, seq![mark@[0]]));
    assert(mark@ =~= seq![mark@[0]]);
    let mut cleaned: Vec<String> = Vec::new();
    let mut i: usize = 0;
    while i < pieces.len()
        invariant
            i <= pieces@.len(),
            views(pieces@) == sp,
            mark@ == seq![mark@[0]],
            f == (|l: Seq<char>| trim_ws(trim_prefix_all(l, seq![mark@[0]]))),
            views(cleaned@) == sp.take(i as int).map_values(f),
        decreases pieces.len() - i,
    {
        let t = trim_start_matches_str(pieces[i].as_str(), mark);
        let c = trim(t.as_str());
        let ghost before = views(cleaned@);
        cleaned.push(c);
        assert(pieces@[i as int]@ == sp[i as int]);
        assert(c@ == f(sp[i as int]));
        assert(views(cleaned@) =~= before.push(c@));
        assert(sp.take(i + 1).map_values(f) =~= sp.take(i as int).map_values(f).push(f(sp[i as int])));
        assert(views(cleaned@) =~= sp.take(i + 1).map_values(f));
        i = i + 1;
    }
    assert(sp.take(pieces@.len() as int) =~= sp);
    let r = join_strings(&cleaned, "\n");
    proof {
        reveal_strlit("\n");
        assert("\n"@ =~= seq!['\n']);
    }
    r
}

/// The messages of `entry` starting with `mark`, cleaned, one per line.
fn head(entry: &Entry, mark: &str) -> (res: String)
    requires
        mark@.len() == 1,
    ensures
        res@ == head_text(entry.spec_messages(), mark@[0]),
{
    let ms = entry.messages();
    let ghost mv = views(ms@);
    let mut out = String::new();
    let mut i: usize = 0;
    while i < ms.len()
        invariant
            i <= ms@.len(),
            mv == views(ms@),
            mv == entry.spec_messages(),
            mark@.len() == 1,
            out@ == head_text(mv.take(i as int), mark@[0]),
        decreases ms.len() - i,
    {
        proof {
            assert(mv.take(i + 1).drop_last() =~= mv.take(i as int));
            assert(mark@ =~= seq![mark@[0]]);
        }
        let ghost before = out@;
        if starts_with_str(ms[i].as_str(), mark) {
            let c = clean_message(ms[i].as_str(), mark);
            push_str(&mut out, c.as_str());
            push_str(&mut out, "\n");
            proof {
                reveal_strlit("\n");
            }
            assert(out@ =~= head_text(mv.take(i + 1), mark@[0]));
        } else {
            assert(out@ =~= head_text(mv.take(i + 1), mark@[0]));
        }
        i = i + 1;
    }
    assert(mv.take(ms@.len() as int) =~= mv);
    out
}

/// The request messages of `entry` (those starting with `>`), cleaned.
pub fn req_head(entry: &Entry) -> (res: String)
    ensures
        res@ == head_text(entry.spec_messages(), '>'),
{
    proof {
        reveal_strlit(">");
    }
    head(entry, ">")
}

/// What `last req` prints: the request messages.
pub fn req(entry: &Entry) -> (res: String)
    ensures
        res@ == head_text(entry.spec_messages(), '>'),
{
    req_head(entry)
}

/// The response messages of `entry` (those starting with `<`), cleaned.
pub fn res_head(entry: &Entry) -> (res: String)
    ensures
        res@ == head_text(entry.spec_messages(), '<'),
{
    proof {
        reveal_strlit("<");
    }
    head(entry, "<")
}

/// The response body of `entry`: its last message and a line break.
pub fn res_body(entry: &Entry) -> (res: String)
    ensures
        res@ == if entry.spec_messages().len() > 0 {
            entry.spec_messages().last() + seq!['\n']
        } else {
            Seq::empty()
        },
{
    let ms = entry.messages();
    if ms.len() == 0 {
        String::new()
    } else {
        let mut out = ms[ms.len() - 1].clone();
        push_str(&mut out, "\n");
        proof {
            reveal_strlit("\n");
        }
        out
    }
}

/// What `last res` prints of `entry`: the part asked for, else the head and
/// the body.
pub fn res(command: Option<LastResCmd>, entry: &Entry) -> (res: String)
    ensures
        res@ == match command {
            Some(LastResCmd::Head) => head_text(entry.spec_messages(), '<'),
            Some(LastResCmd::Body) => res_body_text(entry),
            None => head_text(entry.spec_messages(), '<') + res_body_text(entry),
        },
{
    match command {
        Some(LastResCmd::Head) => res_head(entry),
        Some(LastResCmd::Body) => res_body(entry),
        None => {
            let mut out = res_head(entry);
            let b = res_body(entry);
            push_str(&mut out, b.as_str());
            out
        },
    }
}

/// The response body of `entry` as printed.
pub open spec fn res_body_text(entry: &Entry) -> Seq<char> {
    if entry.spec_messages().len() > 0 {
        entry.spec_messages().last() + seq!['\n']
    } else {
        Seq::empty()
    }
}

/// The newest entry of the entries `hs`, which are not empty.
pub open spec fn newest_entry(hs: Seq<Entry>) -> Entry {
    hs[entry_index(hs, newest_first(hs)[0])]
}

/// What `last` prints of the entry `e` for `command`.
pub open spec fn last_text(e: Entry, command: Option<LastCmd>) -> Seq<char> {
    match command {
        None => entry_text(e.spec_handle(), e.spec_messages()) + seq!['\n'],
        Some(LastCmd::Handle) => e.spec_handle() + seq!['\n'],
        Some(LastCmd::Req) => head_text(e.spec_messages(), '>'),
        Some(LastCmd::Res { command: c }) => match c {
            Some(LastResCmd::Head) => head_text(e.spec_messages(), '<'),
            Some(LastResCmd::Body) => res_body_text(&e),
            None => head_text(e.spec_messages(), '<') + res_body_text(&e),
        },
    }
}

/// What `cmd` does: how the context after it relates to the one before.
pub open spec fn shown(before: &Ctx, after: &Ctx, command: Option<LastCmd>, res: QuartzResult) -> bool {
    &&& after.project == before.project
    &&& same_settings(after, before)
    &&& after.code == before.code
    &&& after.stderr == before.stderr
    &&& res is Ok <==> before.project.history@.len() > 0
    &&& res is Err ==> *after == *before
    &&& res is Ok ==> after.stdout@ == before.stdout@ + last_text(
        newest_entry(before.project.history@),
        command,
    )
}

/// Prints the newest recorded entry, or the part of it `command` asks for.
///
/// Refused when nothing is recorded.
pub fn cmd(ctx: &mut Ctx, command: Option<LastCmd>) -> (res: QuartzResult)
    ensures
        shown(old(ctx), final(ctx), command, res),
{
    let history = history_of(&ctx.project.history);
    let t = match history.last() {
        Some(t) => t,
        None => {
            proof {
                let leq = |a: i64, b: i64| crate::history::newer_first(a, b);
                assert(vstd::relations::total_ordering(leq));
                timestamps_of(ctx.project.history@).lemma_sort_by_ensures(leq);
                timestamps_of(ctx.project.history@).to_multiset_ensures();
                newest_first(ctx.project.history@).to_multiset_ensures();
            }
            return Err(refuse("no history found", "", ""));
        },
    };
    proof {
        let leq = |a: i64, b: i64| crate::history::newer_first(a, b);
        assert(vstd::relations::total_ordering(leq));
        timestamps_of(ctx.project.history@).lemma_sort_by_ensures(leq);
        assert(newest_first(ctx.project.history@).contains(t));
    }
    let i = find_entry(&ctx.project.history, t);
    let entry = &ctx.project.history[i];
    let text = match command {
        None => {
            let mut s = entry.to_text();
            push_str(&mut s, "\n");
            s
        },
        Some(LastCmd::Handle) => {
            let mut s = crate::text::owned(entry.handle());
            push_str(&mut s, "\n");
            s
        },
        Some(LastCmd::Req) => req(entry),
        Some(LastCmd::Res { command: c }) => res(c, entry),
    };
    proof {
        reveal_strlit("\n");
    }
    let ghost before = ctx.stdout@;
    ctx.print(text.as_str());
    assert(ctx.stdout@ =~= before + last_text(newest_entry(old(ctx).project.history@), command));
    Ok(())
}

} // verus!
