//! The record of sent requests.
use vstd::prelude::*;

use crate::snippet::Http;
use crate::text::{join_strings, join_with, owned, push_char, push_str, views};
use crate::QuartzError;

verus! {

/// One recorded request: when, which handle, and the exchanged messages.
pub struct Entry {
    timestemp: i64,
    handle: String,
    /// List of exchanged HTTP messages
    messages: Vec<String>,
}

/// An entry under construction.
pub struct EntryBuilder {
    timestemp: i64,
    handle: Option<String>,
    messages: Vec<String>,
}

/// The timestamps of the recorded entries, newest first.
pub struct History {
    /// Entry timestemp identification
    entries: Vec<i64>,
}

/// The order of history: later timestamps first.
pub open spec fn newer_first(a: i64, b: i64) -> bool {
    a >= b
}

impl History {
    /// The history of the entries with the given timestamps, newest first.
    pub fn new(timestemps: Vec<i64>) -> (res: History)
        ensures
            res.timestamps() == timestemps@.sort_by(|a: i64, b: i64| newer_first(a, b)),
            res.timestamps().to_multiset() == timestemps@.to_multiset(),
            forall|i: int, j: int|
                0 <= i <= j < res.timestamps().len() ==> #[trigger] res.timestamps()[i]
                    >= #[trigger] res.timestamps()[j],
            timestemps@.len() > 0 ==> res.timestamps().len() > 0 && forall|k: int|
                0 <= k < timestemps@.len() ==> res.timestamps()[0] >= #[trigger] timestemps@[k],
    {
        proof {
            crate::laws::law_history_newest_first(timestemps@);
        }
        History { entries: sort_newest_first(timestemps) }
    }

    /// The timestamps, newest first.
    pub closed spec fn timestamps(&self) -> Seq<i64> {
        self.entries@
    }

    /// The timestamps, newest first.
    pub fn entries(&self) -> (res: &Vec<i64>)
        ensures
            res@ == self.timestamps(),
    {
        &self.entries
    }

    /// The directory of the history under the project directory `root`.
    pub fn dir(root: &str) -> (res: String)
        ensures
            res@ == root@ + seq!['/', 'u', 's', 'e', 'r', '/', 'h', 'i', 's', 't', 'o', 'r', 'y'],
    {
        let mut p = owned(root);
        push_str(&mut p, "/user/history");
        proof {
            reveal_strlit("/user/history");
        }
        p
    }

    /// The newest timestamp, if any.
    pub fn last(&self) -> (res: Option<i64>)
        ensures
            match res {
                Some(t) => self.timestamps().len() > 0 && t == self.timestamps()[0],
                None => self.timestamps().len() == 0,
            },
    {
        if self.entries.len() == 0 {
            None
        } else {
            Some(self.entries[0])
        }
    }
}

/// The timestamps sorted newest first.
pub fn sort_newest_first(v: Vec<i64>) -> (res: Vec<i64>)
    ensures
        res@ == v@.sort_by(|a: i64, b: i64| newer_first(a, b)),
{
    let ghost leq = |a: i64, b: i64| newer_first(a, b);
    let mut res: Vec<i64> = Vec::new();
    let mut i: usize = 0;
    assert(vstd::relations::total_ordering(leq));
    assert(res@ =~= Seq::<i64>::empty());
    assert(v@.take(0) =~= Seq::<i64>::empty());
    while i < v.len()
        invariant
            i <= v.len(),
            vstd::relations::sorted_by(res@, leq),
            res@.to_multiset() == v@.take(i as int).to_multiset(),
            leq == (|a: i64, b: i64| newer_first(a, b)),
            vstd::relations::total_ordering(leq),
        decreases v.len() - i,
    {
        let item = v[i];
        let mut j: usize = 0;
        while j < res.len() && res[j] >= item
            invariant
                j <= res.len(),
                forall|k: int| 0 <= k < j ==> res@[k] >= item,
            decreases res.len() - j,
        {
            j = j + 1;
        }
        let ghost before = res@;
        res.insert(j, item);
        proof {
            let after = res@;
            assert forall|a: int, b: int| 0 <= a < b < after.len() implies #[trigger] leq(
                after[a],
                after[b],
            ) by {
                if b < j {
                    assert(leq(before[a], before[b]));
                } else if b == j {
                } else if a < j {
                    assert(leq(before[a], before[b - 1]));
                } else if a == j {
                    if b - 1 > j {
                        assert(leq(before[j as int], before[b - 1]));
                    }
                } else {
                    assert(leq(before[a - 1], before[b - 1]));
                }
            }
            vstd::seq_lib::to_multiset_insert(before, j as int, item);
            assert(v@.take(i + 1) =~= v@.take(i as int).push(item));
            vstd::seq_lib::to_multiset_build(v@.take(i as int), item);
        }
        i = i + 1;
    }
    proof {
        assert(v@.take(v.len() as int) =~= v@);
        v@.lemma_sort_by_ensures(leq);
        vstd::seq_lib::lemma_sorted_unique(res@, v@.sort_by(leq), leq);
    }
    res
}

/// An entry as shown: its handle, a line feed, and its messages joined by
/// line feeds.
pub open spec fn entry_text(handle: Seq<char>, messages: Seq<Seq<char>>) -> Seq<char> {
    handle + seq!['\n'] + join_with(messages, seq!['\n'])
}

/// What a builder builds: its handle, timestamp and messages, when it has a
/// handle, a non-zero timestamp and at least one message.
pub open spec fn spec_entry_build(handle: Option<Seq<char>>, timestemp: i64, messages: Seq<Seq<char>>) -> bool {
    handle is Some && timestemp != 0 && messages.len() > 0
}

impl EntryBuilder {
    /// A builder with nothing set.
    pub fn new() -> (res: EntryBuilder)
        ensures
            res.spec_handle() is None,
            res.spec_timestemp() == 0,
            res.spec_messages().len() == 0,
    {
        let r = EntryBuilder { timestemp: 0, handle: None, messages: Vec::new() };
        assert(views(r.messages@) =~= Seq::<Seq<char>>::empty());
        r
    }

    /// The handle set so far.
    pub closed spec fn spec_handle(&self) -> Option<Seq<char>> {
        match self.handle {
            Some(h) => Some(h@),
            None => None,
        }
    }

    /// The timestamp set so far.
    pub closed spec fn spec_timestemp(&self) -> i64 {
        self.timestemp
    }

    /// The messages added so far.
    pub closed spec fn spec_messages(&self) -> Seq<Seq<char>> {
        views(self.messages@)
    }

    /// Sets the handle.
    pub fn handle(&mut self, value: &str)
        ensures
            final(self).spec_handle() == Some(value@),
            final(self).spec_timestemp() == old(self).spec_timestemp(),
            final(self).spec_messages() == old(self).spec_messages(),
    {
        self.handle = Some(owned(value));
    }

    /// Adds an HTTP message.
    pub fn message(&mut self, value: &Http)
        ensures
            final(self).spec_handle() == old(self).spec_handle(),
            final(self).spec_timestemp() == old(self).spec_timestemp(),
            final(self).spec_messages() == old(self).spec_messages().push(value@),
    {
        let ghost before = views(self.messages@);
        self.messages.push(value.text());
        assert(views(self.messages@) =~= before.push(value@));
    }

    /// Adds a raw message.
    pub fn message_raw(&mut self, value: String)
        ensures
            final(self).spec_handle() == old(self).spec_handle(),
            final(self).spec_timestemp() == old(self).spec_timestemp(),
            final(self).spec_messages() == old(self).spec_messages().push(value@),
    {
        let ghost before = views(self.messages@);
        let ghost v = value@;
        self.messages.push(value);
        assert(views(self.messages@) =~= before.push(v));
    }

    /// Sets the timestamp.
    pub fn timestemp(&mut self, value: i64)
        ensures
            final(self).spec_handle() == old(self).spec_handle(),
            final(self).spec_timestemp() == value,
            final(self).spec_messages() == old(self).spec_messages(),
    {
        self.timestemp = value;
    }

    /// The entry; an error without a handle, with a zero timestamp or
    /// without messages.
    pub fn build(self) -> (res: Result<Entry, QuartzError>)
        ensures
            spec_entry_build(self.spec_handle(), self.spec_timestemp(), self.spec_messages()) <==> res is Ok,
            res matches Ok(e) ==> Some(e.spec_handle()) == self.spec_handle() && e.spec_timestemp()
                == self.spec_timestemp() && e.spec_messages() == self.spec_messages(),
    {
        let handle = match self.handle {
            Some(h) => h,
            None => return Err(QuartzError::Internal),
        };
        if self.timestemp == 0 || self.messages.len() == 0 {
            return Err(QuartzError::Internal);
        }
        Ok(Entry { handle, timestemp: self.timestemp, messages: self.messages })
    }
}

impl Entry {
    /// A builder with nothing set.
    pub fn builder() -> (res: EntryBuilder)
        ensures
            res.spec_handle() is None,
            res.spec_timestemp() == 0,
            res.spec_messages().len() == 0,
    {
        EntryBuilder::new()
    }

    /// The handle.
    pub closed spec fn spec_handle(&self) -> Seq<char> {
        self.handle@
    }

    /// The timestamp.
    pub closed spec fn spec_timestemp(&self) -> i64 {
        self.timestemp
    }

    /// The messages.
    pub closed spec fn spec_messages(&self) -> Seq<Seq<char>> {
        views(self.messages@)
    }

    /// An entry read back from its fields.
    pub fn from_parts(timestemp: i64, handle: String, messages: Vec<String>) -> (res: Entry)
        ensures
            res.spec_timestemp() == timestemp,
            res.spec_handle() == handle@,
            res.spec_messages() == views(messages@),
    {
        Entry { timestemp, handle, messages }
    }

    /// The handle.
    pub fn handle(&self) -> (res: &str)
        ensures
            res@ == self.spec_handle(),
    {
        self.handle.as_str()
    }

    /// The timestamp.
    pub fn timestemp(&self) -> (res: i64)
        ensures
            res == self.spec_timestemp(),
    {
        self.timestemp
    }

    /// The messages.
    pub fn messages(&self) -> (res: &Vec<String>)
        ensures
            views(res@) == self.spec_messages(),
    {
        &self.messages
    }

    /// The entry as shown: the handle, then the messages one per line.
    pub fn to_text(&self) -> (res: String)
        ensures
            res@ == entry_text(self.spec_handle(), self.spec_messages()),
    {
        let mut s = owned(self.handle.as_str());
        push_char(&mut s, '\n');
        let m = join_strings(&self.messages, "\n");
        push_str(&mut s, m.as_str());
        proof {
            reveal_strlit("\n");
            assert("\n"@ =~= seq!['\n']);
        }
        s
    }
}

} // verus!
