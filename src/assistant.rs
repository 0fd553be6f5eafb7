//! What the library makes of the language model's replies: the command in a
//! suggestion reply, the JSON text in a metadata reply, and the rounds of
//! requests that gather several suggestions.
use vstd::prelude::*;
use crate::command::Suggestion;
use crate::text::{
    CharClass, chars_of, drop_leading, drop_repeated_prefix, has_prefix_at, skip_leading,
    skip_trailing, substring, trim_class,
};

verus! {

/// The name, description and tags that the language model proposes for a
/// command being bookmarked.
#[derive(Debug)]
pub struct BookmarkMetadata {
    pub name: String,
    pub description: String,
    pub tags: Vec<String>,
}

/// The label that a suggestion reply puts before its command.
pub open spec fn command_label() -> Seq<char> {
    seq!['c', 'o', 'm', 'm', 'a', 'n', 'd', ':', ' ']
}

/// `s` without a leading command label, if it has one.
pub open spec fn strip_label(s: Seq<char>) -> Seq<char> {
    let n = command_label().len();
    if n <= s.len() && s.subrange(0, n as int) == command_label() {
        s.subrange(n as int, s.len() as int)
    } else {
        s
    }
}

/// The command that a raw suggestion reply carries: white space trimmed,
/// then code-fence characters trimmed, then the command label and the
/// white space after it removed.
pub open spec fn normalized(raw: Seq<char>) -> Seq<char> {
    drop_leading(
        strip_label(trim_class(trim_class(raw, CharClass::Whitespace), CharClass::Fence)),
        CharClass::Whitespace,
    )
}

/// The word that may open a fenced JSON block.
pub open spec fn json_word() -> Seq<char> {
    seq!['j', 's', 'o', 'n']
}

/// The JSON text of a metadata reply: white space trimmed, backticks trimmed,
/// leading `json` words removed, and white space trimmed again.
pub open spec fn metadata_text(reply: Seq<char>) -> Seq<char> {
    trim_class(
        drop_repeated_prefix(
            trim_class(trim_class(reply, CharClass::Whitespace), CharClass::Backtick),
            json_word(),
        ),
        CharClass::Whitespace,
    )
}

proof fn lemma_split_slice(v: Seq<char>, from: int, to: int, n: int)
    requires
        0 <= from <= to <= v.len(),
        0 <= n <= to - from,
    ensures
        v.subrange(from, to).subrange(0, n) == v.subrange(from, from + n),
        v.subrange(from, to).subrange(n, to - from) == v.subrange(from + n, to),
{
    assert(v.subrange(from, to).subrange(0, n) =~= v.subrange(from, from + n));
    assert(v.subrange(from, to).subrange(n, to - from) =~= v.subrange(from + n, to));
}

proof fn lemma_whole(v: Seq<char>)
    ensures
        v.subrange(0, v.len() as int) == v,
{
    assert(v.subrange(0, v.len() as int) =~= v);
}

/// The bounds of `v[from..to]` once the characters of `cls` are trimmed from both ends.
fn trim_bounds(v: &Vec<char>, from: usize, to: usize, cls: &CharClass) -> (r: (usize, usize))
    requires
        from <= to <= v@.len(),
    ensures
        from <= r.0 <= r.1 <= to,
        trim_class(v@.subrange(from as int, to as int), *cls) == v@.subrange(r.0 as int, r.1 as int),
{
    let a = skip_leading(v, from, to, cls);
    let b = skip_trailing(v, a, to, cls);
    (a, b)
}

/// The command carried by a raw suggestion reply; empty when it carries none.
pub fn normalize_suggestion(raw: &str) -> (r: String)
    ensures
        r@ == normalized(raw@),
{
    let v = chars_of(raw);
    proof {
        lemma_whole(v@);
    }
    let (a, b) = trim_bounds(&v, 0, v.len(), &CharClass::Whitespace);
    let (c, d) = trim_bounds(&v, a, b, &CharClass::Fence);
    let label = vec!['c', 'o', 'm', 'm', 'a', 'n', 'd', ':', ' '];
    assert(label@ == command_label());
    let e = if has_prefix_at(&v, c, d, &label) {
        proof {
            lemma_split_slice(v@, c as int, d as int, 9);
        }
        c + 9
    } else {
        proof {
            if 9 <= d - c {
                lemma_split_slice(v@, c as int, d as int, 9);
            }
        }
        c
    };
    let f = skip_leading(&v, e, d, &CharClass::Whitespace);
    substring(raw, f, d)
}

/// The JSON text inside a metadata reply that may be wrapped in a code fence.
pub fn clean_metadata_reply(reply: &str) -> (r: String)
    ensures
        r@ == metadata_text(reply@),
{
    let v = chars_of(reply);
    proof {
        lemma_whole(v@);
    }
    let (a, b) = trim_bounds(&v, 0, v.len(), &CharClass::Whitespace);
    let (c, d) = trim_bounds(&v, a, b, &CharClass::Backtick);
    let word = vec!['j', 's', 'o', 'n'];
    assert(word@ == json_word());
    let mut k = c;
    while has_prefix_at(&v, k, d, &word)
        invariant
            c <= k <= d <= v@.len(),
            word@ == json_word(),
            drop_repeated_prefix(v@.subrange(c as int, d as int), json_word())
                == drop_repeated_prefix(v@.subrange(k as int, d as int), json_word()),
        decreases d - k,
    {
        proof {
            lemma_split_slice(v@, k as int, d as int, 4);
        }
        k = k + 4;
    }
    proof {
        if 4 <= d - k {
            lemma_split_slice(v@, k as int, d as int, 4);
        }
    }
    let (g, h) = trim_bounds(&v, k, d, &CharClass::Whitespace);
    substring(reply, g, h)
}

/// How many replies one round asks for before it gives up.
pub const ATTEMPTS_PER_ROUND: u32 = 3;

/// A suggestion pipeline as plain values: the rounds asked for, the rounds
/// finished, the attempts left in the current round, and the commands found.
pub struct PipelineState {
    pub rounds: nat,
    pub round: nat,
    pub attempts_left: nat,
    pub found: Seq<Seq<char>>,
}

impl PipelineState {
    /// The state after the provider answered `raw`: a reply that carries a
    /// command ends the round with that command; an empty one uses up an
    /// attempt, and the last attempt ends the round with nothing. Once every
    /// round is finished a reply changes nothing.
    pub open spec fn after_reply(self, raw: Seq<char>) -> PipelineState {
        let c = normalized(raw);
        if self.round >= self.rounds {
            self
        } else if c.len() > 0 {
            PipelineState {
                round: self.round + 1,
                attempts_left: ATTEMPTS_PER_ROUND as nat,
                found: self.found.push(c),
                ..self
            }
        } else if self.attempts_left <= 1 {
            PipelineState { round: self.round + 1, attempts_left: ATTEMPTS_PER_ROUND as nat, ..self }
        } else {
            PipelineState { attempts_left: (self.attempts_left - 1) as nat, ..self }
        }
    }
}

/// What the pipeline wants next.
pub enum PipelineStep {
    /// Ask the provider for one more reply and hand it to `on_reply`.
    Request,
    /// Every round is finished.
    Done,
}

/// Gathers up to a given number of suggestions, one per round, each round
/// asking the provider at most `ATTEMPTS_PER_ROUND` times.
pub struct SuggestionPipeline {
    rounds: u32,
    round: u32,
    attempts_left: u32,
    found: Vec<Suggestion>,
}

/// The command texts of a sequence of suggestions.
pub open spec fn commands_of(s: Seq<Suggestion>) -> Seq<Seq<char>> {
    s.map_values(|x: Suggestion| x.command@)
}

impl View for SuggestionPipeline {
    type V = PipelineState;

    closed spec fn view(&self) -> PipelineState {
        PipelineState {
            rounds: self.rounds as nat,
            round: self.round as nat,
            attempts_left: self.attempts_left as nat,
            found: commands_of(self.found@),
        }
    }
}

impl SuggestionPipeline {
    /// The pipeline's state is consistent: no more rounds finished than asked
    /// for, at most one suggestion per finished round, none of them empty.
    pub closed spec fn wf(&self) -> bool {
        &&& self.round <= self.rounds
        &&& 1 <= self.attempts_left <= ATTEMPTS_PER_ROUND
        &&& self.found@.len() <= self.round
        &&& forall|i: int| 0 <= i < self.found@.len() ==> self.found@[i].command@.len() > 0
    }

    /// A pipeline of `suggestion_count` rounds; a count below one asks for none.
    pub fn new(suggestion_count: i32) -> (r: Self)
        ensures
            r.wf(),
            r@ == (PipelineState {
                rounds: if suggestion_count > 0 {
                    suggestion_count as nat
                } else {
                    0
                },
                round: 0,
                attempts_left: ATTEMPTS_PER_ROUND as nat,
                found: Seq::empty(),
            }),
    {
        let rounds: u32 = if suggestion_count > 0 {
            suggestion_count as u32
        } else {
            0
        };
        let r = SuggestionPipeline {
            rounds,
            round: 0,
            attempts_left: ATTEMPTS_PER_ROUND,
            found: Vec::new(),
        };
        assert(commands_of(r.found@) =~= Seq::<Seq<char>>::empty());
        r
    }

    /// Whether another reply is wanted.
    pub fn next_step(&self) -> (r: PipelineStep)
        ensures
            r is Request <==> self@.round < self@.rounds,
    {
        if self.round < self.rounds {
            PipelineStep::Request
        } else {
            PipelineStep::Done
        }
    }

    /// Takes the provider's reply `raw` for the current round.
    pub fn on_reply(&mut self, raw: &str)
        requires
            old(self).wf(),
        ensures
            final(self).wf(),
            final(self)@ == old(self)@.after_reply(raw@),
            final(self)@.found.len() <= final(self)@.round <= final(self)@.rounds,
    {
        if self.round >= self.rounds {
            return;
        }
        let command = normalize_suggestion(raw);
        if !command.as_str().is_empty() {
            let ghost before = self.found@;
            self.found.push(Suggestion::new(command));
            assert(commands_of(self.found@) =~= commands_of(before).push(normalized(raw@)));
            self.round = self.round + 1;
            self.attempts_left = ATTEMPTS_PER_ROUND;
        } else if self.attempts_left <= 1 {
            self.round = self.round + 1;
            self.attempts_left = ATTEMPTS_PER_ROUND;
        } else {
            self.attempts_left = self.attempts_left - 1;
        }
    }

    /// The suggestions found so far, one per successful round, in round order.
    pub fn into_suggestions(self) -> (r: Vec<Suggestion>)
        requires
            self.wf(),
        ensures
            commands_of(r@) == self@.found,
            r@.len() <= self@.rounds,
            forall|i: int| 0 <= i < r@.len() ==> r@[i].command@.len() > 0,
    {
        self.found
    }
}

} // verus!
