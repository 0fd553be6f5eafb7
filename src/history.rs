//! The history log: the commands that were run, capped in number, listed and
//! searched newest first.
use vstd::prelude::*;
use crate::command::Command;
use crate::text::{contains_text, is_substring, lower_of, lowercase};

verus! {

/// The most entries the history log keeps.
pub const HISTORY_CAP: usize = 1000;

/// The history document: its entries in the order they were added.
#[derive(Debug)]
pub struct HistoryData {
    pub commands: Vec<Command>,
}

impl Default for HistoryData {
    fn default() -> (r: Self)
        ensures
            r.commands@ == Seq::<Command>::empty(),
    {
        HistoryData { commands: Vec::new() }
    }
}

/// The last `HISTORY_CAP` entries of `s`, in order.
pub open spec fn capped(s: Seq<Command>) -> Seq<Command> {
    if s.len() > HISTORY_CAP {
        s.subrange(s.len() - HISTORY_CAP, s.len() as int)
    } else {
        s
    }
}

/// `sorted` with `c` placed after every entry at least as recent as `c`.
pub open spec fn insert_newest_first(sorted: Seq<Command>, c: Command) -> Seq<Command>
    decreases sorted.len(),
{
    if sorted.len() == 0 {
        seq![c]
    } else if sorted.last().timestamp >= c.timestamp {
        sorted.push(c)
    } else {
        insert_newest_first(sorted.drop_last(), c).push(sorted.last())
    }
}

/// `s` ordered by timestamp, newest first; entries of equal timestamp keep
/// their order in `s`.
pub open spec fn newest_first(s: Seq<Command>) -> Seq<Command>
    decreases s.len(),
{
    if s.len() == 0 {
        s
    } else {
        insert_newest_first(newest_first(s.drop_last()), s.last())
    }
}

/// Timestamps never increase along `s`.
pub open spec fn is_newest_first(s: Seq<Command>) -> bool {
    forall|i: int, j: int| 0 <= i < j < s.len() ==> s[i].timestamp >= s[j].timestamp
}

/// The first `limit` entries of `s`, or all of them when there is no limit.
pub open spec fn limited(s: Seq<Command>, limit: Option<usize>) -> Seq<Command> {
    match limit {
        Some(n) => if n < s.len() {
            s.subrange(0, n as int)
        } else {
            s
        },
        None => s,
    }
}

/// `q`, already lower-cased, occurs in the lower-cased description or command of `c`.
pub open spec fn command_hit(c: Command, q: Seq<char>) -> bool {
    is_substring(q, lower_of(c.description@)) || is_substring(q, lower_of(c.command@))
}

/// The entries of `s` that `q` hits, in order.
pub open spec fn hits(s: Seq<Command>, q: Seq<char>) -> Seq<Command>
    decreases s.len(),
{
    if s.len() == 0 {
        s
    } else if command_hit(s.last(), q) {
        hits(s.drop_last(), q).push(s.last())
    } else {
        hits(s.drop_last(), q)
    }
}

proof fn lemma_insert_at(sorted: Seq<Command>, c: Command, pos: int)
    requires
        0 <= pos <= sorted.len(),
        pos == 0 || sorted[pos - 1].timestamp >= c.timestamp,
        forall|k: int| pos <= k < sorted.len() ==> sorted[k].timestamp < c.timestamp,
    ensures
        insert_newest_first(sorted, c) == sorted.insert(pos, c),
    decreases sorted.len(),
{
    if sorted.len() == 0 {
        assert(sorted.insert(pos, c) =~= seq![c]);
    } else if sorted.last().timestamp >= c.timestamp {
        assert(sorted.insert(pos, c) =~= sorted.push(c));
    } else {
        let rest = sorted.drop_last();
        lemma_insert_at(rest, c, pos);
        assert(rest.insert(pos, c).push(sorted.last()) =~= sorted.insert(pos, c));
    }
}

proof fn lemma_insert_bound(sorted: Seq<Command>, c: Command, m: i64)
    requires
        forall|k: int| 0 <= k < sorted.len() ==> sorted[k].timestamp >= m,
        c.timestamp >= m,
    ensures
        insert_newest_first(sorted, c).len() == sorted.len() + 1,
        forall|k: int|
            0 <= k < insert_newest_first(sorted, c).len() ==> #[trigger] insert_newest_first(
                sorted,
                c,
            )[k].timestamp >= m,
    decreases sorted.len(),
{
    if sorted.len() > 0 && sorted.last().timestamp < c.timestamp {
        lemma_insert_bound(sorted.drop_last(), c, m);
    }
}

proof fn lemma_insert_keeps_order(sorted: Seq<Command>, c: Command)
    requires
        is_newest_first(sorted),
    ensures
        is_newest_first(insert_newest_first(sorted, c)),
    decreases sorted.len(),
{
    if sorted.len() > 0 && sorted.last().timestamp < c.timestamp {
        let rest = sorted.drop_last();
        let last = sorted.last();
        lemma_insert_keeps_order(rest, c);
        lemma_insert_bound(rest, c, last.timestamp);
        let r = insert_newest_first(rest, c);
        assert forall|i: int, j: int| 0 <= i < j < r.push(last).len() implies r.push(last)[i].timestamp
            >= r.push(last)[j].timestamp by {
            if j == r.len() {
                assert(r[i].timestamp >= last.timestamp);
            }
        }
    }
}

proof fn lemma_insert_multiset(sorted: Seq<Command>, c: Command)
    ensures
        insert_newest_first(sorted, c).to_multiset() == sorted.to_multiset().insert(c),
    decreases sorted.len(),
{
    broadcast use vstd::seq_lib::group_to_multiset_ensures;

    if sorted.len() == 0 {
        assert(seq![c] =~= Seq::<Command>::empty().push(c));
    } else if sorted.last().timestamp < c.timestamp {
        let rest = sorted.drop_last();
        lemma_insert_multiset(rest, c);
        assert(rest.push(sorted.last()) =~= sorted);
    }
}

/// Listing newest first yields timestamps that never increase, whatever the
/// order in which the entries were stored.
pub proof fn lemma_newest_first_is_ordered(s: Seq<Command>)
    ensures
        is_newest_first(newest_first(s)),
    decreases s.len(),
{
    if s.len() > 0 {
        lemma_newest_first_is_ordered(s.drop_last());
        lemma_insert_keeps_order(newest_first(s.drop_last()), s.last());
    }
}

/// Listing newest first reorders the entries and neither drops nor adds any.
pub proof fn lemma_newest_first_same_entries(s: Seq<Command>)
    ensures
        newest_first(s).to_multiset() == s.to_multiset(),
    decreases s.len(),
{
    broadcast use vstd::seq_lib::group_to_multiset_ensures;

    if s.len() > 0 {
        lemma_newest_first_same_entries(s.drop_last());
        lemma_insert_multiset(newest_first(s.drop_last()), s.last());
        assert(s.drop_last().push(s.last()) =~= s);
    }
}

/// The entries of `v`, newest first, stable among equal timestamps.
fn sort_newest_first(v: &Vec<Command>) -> (r: Vec<Command>)
    ensures
        r@ == newest_first(v@),
{
    let mut out: Vec<Command> = Vec::new();
    let mut i: usize = 0;
    while i < v.len()
        invariant
            i <= v@.len(),
            out@ == newest_first(v@.subrange(0, i as int)),
            is_newest_first(out@),
        decreases v@.len() - i,
    {
        let c = v[i].clone();
        let mut pos = out.len();
        while pos > 0 && out[pos - 1].timestamp < c.timestamp
            invariant
                pos <= out@.len(),
                forall|k: int| pos <= k < out@.len() ==> out@[k].timestamp < c.timestamp,
            decreases pos,
        {
            pos = pos - 1;
        }
        proof {
            lemma_insert_at(out@, c, pos as int);
            lemma_insert_keeps_order(out@, c);
            assert(v@.subrange(0, i + 1).drop_last() =~= v@.subrange(0, i as int));
        }
        out.insert(pos, c);
        i = i + 1;
    }
    assert(v@.subrange(0, v@.len() as int) =~= v@);
    out
}

/// The history log, held as its document.
pub struct History {
    data: HistoryData,
}

impl View for History {
    type V = Seq<Command>;

    closed spec fn view(&self) -> Seq<Command> {
        self.data.commands@
    }
}

impl History {
    /// An empty log.
    pub fn new() -> (r: Self)
        ensures
            r@ == Seq::<Command>::empty(),
    {
        History { data: HistoryData::default() }
    }

    /// The log that a load produced, or an empty one where the document could
    /// not be read.
    pub fn from_loaded(loaded: Option<HistoryData>) -> (r: Self)
        ensures
            r@ == match loaded {
                Some(d) => d.commands@,
                None => Seq::<Command>::empty(),
            },
    {
        match loaded {
            Some(data) => History { data },
            None => History::new(),
        }
    }

    /// The document to store.
    pub fn data(&self) -> (r: &HistoryData)
        ensures
            r.commands@ == self@,
    {
        &self.data
    }

    /// Appends `command`, then drops the oldest entries beyond the cap.
    pub fn add(&mut self, command: Command)
        ensures
            final(self)@ == capped(old(self)@.push(command)),
            final(self)@.len() <= HISTORY_CAP,
    {
        self.data.commands.push(command);
        let n = self.data.commands.len();
        if n > HISTORY_CAP {
            let kept = self.data.commands.split_off(n - HISTORY_CAP);
            self.data.commands = kept;
        }
    }

    /// The entries newest first, at most `limit` of them when a limit is given.
    pub fn list(&self, limit: Option<usize>) -> (r: Vec<Command>)
        ensures
            r@ == limited(newest_first(self@), limit),
            is_newest_first(r@),
    {
        proof {
            lemma_newest_first_is_ordered(self@);
        }
        let mut commands = sort_newest_first(&self.data.commands);
        if let Some(n) = limit {
            commands.truncate(n);
        }
        commands
    }

    /// Empties the log.
    pub fn clear(&mut self)
        ensures
            final(self)@ == Seq::<Command>::empty(),
    {
        self.data = HistoryData::default();
    }

    /// The entries whose description or command holds `query`, ignoring case,
    /// newest first.
    pub fn search(&self, query: &str) -> (r: Vec<Command>)
        ensures
            r@ == newest_first(hits(self@, lower_of(query@))),
            is_newest_first(r@),
    {
        let q = lowercase(query);
        let entries = &self.data.commands;
        let mut found: Vec<Command> = Vec::new();
        let mut i: usize = 0;
        while i < entries.len()
            invariant
                i <= entries@.len(),
                found@ == hits(entries@.subrange(0, i as int), q@),
            decreases entries@.len() - i,
        {
            let c = &entries[i];
            let description = lowercase(c.description.as_str());
            let command = lowercase(c.command.as_str());
            let hit = contains_text(description.as_str(), q.as_str()) || contains_text(
                command.as_str(),
                q.as_str(),
            );
            proof {
                assert(entries@.subrange(0, i + 1).drop_last() =~= entries@.subrange(0, i as int));
            }
            if hit {
                found.push(c.clone());
            }
            i = i + 1;
        }
        assert(entries@.subrange(0, entries@.len() as int) =~= entries@);
        proof {
            lemma_newest_first_is_ordered(found@);
        }
        sort_newest_first(&found)
    }
}

} // verus!
