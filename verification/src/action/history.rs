//! The request history, newest first.
use vstd::prelude::*;

use crate::action::same_settings;
use crate::history::{entry_text, newer_first, Entry, History};
use crate::{Ctx, QuartzResult};

verus! {

/// Arguments of `history`.
pub struct Args {
    /// Show at most this many entries.
    pub max_count: Option<usize>,
}

/// The timestamps of the entries, in order.
pub open spec fn timestamps_of(hs: Seq<Entry>) -> Seq<i64> {
    hs.map_values(|e: Entry| e.spec_timestemp())
}

/// Index of the first entry with timestamp `t`, or -1.
pub open spec fn entry_index(hs: Seq<Entry>, t: i64) -> int
    decreases hs.len(),
{
    if hs.len() == 0 {
        -1
    } else {
        let r = entry_index(hs.drop_last(), t);
        if r >= 0 {
            r
        } else if hs.last().spec_timestemp() == t {
            hs.len() - 1
        } else {
            -1
        }
    }
}

/// The timestamps of the entries, newest first.
pub open spec fn newest_first(hs: Seq<Entry>) -> Seq<i64> {
    timestamps_of(hs).sort_by(|a: i64, b: i64| newer_first(a, b))
}

/// The entry shown for timestamp `t`.
pub open spec fn shown_entry(hs: Seq<Entry>, t: i64) -> Seq<char> {
    let e = hs[entry_index(hs, t)];
    entry_text(e.spec_handle(), e.spec_messages())
}

/// The entries of the timestamps `ts`, each followed by a line break, with
/// an empty line between two of them.
pub open spec fn history_text(hs: Seq<Entry>, ts: Seq<i64>) -> Seq<char>
    decreases ts.len(),
{
    if ts.len() == 0 {
        Seq::empty()
    } else if ts.len() == 1 {
        shown_entry(hs, ts[0]) + seq!['\n']
    } else {
        history_text(hs, ts.drop_last()) + seq!['\n'] + shown_entry(hs, ts.last()) + seq!['\n']
    }
}

/// The sorted history of the project's entries.
pub fn history_of(hs: &Vec<Entry>) -> (res: History)
    ensures
        res.timestamps() == newest_first(hs@),
{
    let mut ts: Vec<i64> = Vec::new();
    let mut i: usize = 0;
    while i < hs.len()
        invariant
            i <= hs@.len(),
            ts@ == timestamps_of(hs@.take(i as int)),
        decreases hs.len() - i,
    {
        ts.push(hs[i].timestemp());
        assert(ts@ =~= timestamps_of(hs@.take(i + 1)));
        i = i + 1;
    }
    assert(hs@.take(hs@.len() as int) =~= hs@);
    History::new(ts)
}

/// The position of the entry with timestamp `t`, which exists.
pub fn find_entry(hs: &Vec<Entry>, t: i64) -> (res: usize)
    requires
        timestamps_of(hs@).contains(t),
    ensures
        res == entry_index(hs@, t),
        res < hs@.len(),
{
    let mut i: usize = 0;
    while i < hs.len()
        invariant
            i <= hs@.len(),
            entry_index(hs@.take(i as int), t) < 0,
            forall|k: int| 0 <= k < i ==> hs@[k].spec_timestemp() != t,
        decreases hs.len() - i,
    {
        proof {
            assert(hs@.take(i + 1).drop_last() =~= hs@.take(i as int));
        }
        if hs[i].timestemp() == t {
            proof {
                lemma_entry_index_grow(hs@, t, i as int, i + 1);
            }
            return i;
        }
        i = i + 1;
    }
    proof {
        let k = choose|k: int| 0 <= k < timestamps_of(hs@).len() && timestamps_of(hs@)[k] == t;
        assert(hs@[k].spec_timestemp() == t);
    }
    0
}

/// Once found in a prefix, the first index stays as the entries grow.
proof fn lemma_entry_index_grow(hs: Seq<Entry>, t: i64, i: int, k: int)
    requires
        0 <= i < k <= hs.len(),
        entry_index(hs.take(k), t) == i,
    ensures
        entry_index(hs, t) == i,
    decreases hs.len() - k,
{
    if k == hs.len() {
        assert(hs.take(k) =~= hs);
    } else {
        assert(hs.take(k + 1).drop_last() =~= hs.take(k));
        lemma_entry_index_grow(hs, t, i, k + 1);
    }
}

/// What `cmd` does: how the context after it relates to the one before.
pub open spec fn listed(before: &Ctx, after: &Ctx, args: Args, res: QuartzResult) -> bool {
    &&& res is Ok
    &&& after.project == before.project
    &&& same_settings(after, before)
    &&& after.code == before.code
    &&& after.stderr == before.stderr
    &&& after.stdout@ == before.stdout@ + history_text(
        before.project.history@,
        match args.max_count {
            Some(m) => newest_first(before.project.history@).take(
                if m < newest_first(before.project.history@).len() {
                    m as int
                } else {
                    newest_first(before.project.history@).len() as int
                },
            ),
            None => newest_first(before.project.history@),
        },
    )
}

/// Prints the recorded entries, newest first, at most `args.max_count` of
/// them, each followed by a line break and separated by an empty line.
pub fn cmd(ctx: &mut Ctx, args: Args) -> (res: QuartzResult)
    ensures
        listed(old(ctx), final(ctx), args, res),
{
    let history = history_of(&ctx.project.history);
    let ts = history.entries();
    let ghost all = newest_first(ctx.project.history@);
    let max_count: usize = match args.max_count {
        Some(m) => m,
        None => usize::MAX,
    };
    let limit: usize = if max_count < ts.len() {
        max_count
    } else {
        ts.len()
    };
    proof {
        let leq = |a: i64, b: i64| newer_first(a, b);
        assert(vstd::relations::total_ordering(leq));
        timestamps_of(ctx.project.history@).lemma_sort_by_ensures(leq);
        assert forall|k: int| 0 <= k < all.len() implies timestamps_of(ctx.project.history@).contains(#[trigger] all[k]) by {
            assert(all.contains(all[k]));
        }
    }
    let ghost out0 = ctx.stdout@;
    let mut count: usize = 0;
    while count < limit
        invariant
            count <= limit <= ts@.len(),
            ts@ == all,
            all == newest_first(old(ctx).project.history@),
            forall|k: int| 0 <= k < all.len() ==> timestamps_of(old(ctx).project.history@).contains(#[trigger] all[k]),
            ctx.project == old(ctx).project,
            same_settings(ctx, old(ctx)),
            ctx.code == old(ctx).code,
            ctx.stderr == old(ctx).stderr,
            ctx.stdout@ == out0 + history_text(ctx.project.history@, all.take(count as int)),
            out0 == old(ctx).stdout@,
        decreases limit - count,
    {
        let t = ts[count];
        let i = find_entry(&ctx.project.history, t);
        let text = ctx.project.history[i].to_text();
        let ghost before = ctx.stdout@;
        if count != 0 {
            ctx.print("\n");
        }
        ctx.print(text.as_str());
        ctx.print("\n");
        proof {
            reveal_strlit("\n");
            assert(all.take(count + 1).drop_last() =~= all.take(count as int));
            assert(all.take(count + 1).last() == t);
            if count == 0 {
                assert(all.take(1)[0] == t);
            }
            assert(ctx.stdout@ =~= out0 + history_text(ctx.project.history@, all.take(count + 1)));
        }
        count = count + 1;
    }
    proof {
        if args.max_count is None {
            assert(all.take(limit as int) =~= all);
        }
    }
    Ok(())
}

} // verus!
