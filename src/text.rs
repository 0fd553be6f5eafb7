//! Character-level text helpers, each stated over `Seq<char>`.
use vstd::prelude::*;
use vstd::string::StringExecFns;

verus! {

/// Unicode `White_Space` code points, the set that `char::is_whitespace` tests.
pub open spec fn is_ws(c: char) -> bool {
    ||| '\u{9}' <= c <= '\u{d}'
    ||| c == ' '
    ||| c == '\u{85}'
    ||| c == '\u{a0}'
    ||| c == '\u{1680}'
    ||| '\u{2000}' <= c <= '\u{200a}'
    ||| c == '\u{2028}'
    ||| c == '\u{2029}'
    ||| c == '\u{202f}'
    ||| c == '\u{205f}'
    ||| c == '\u{3000}'
}

/// Relies on `char::is_whitespace`: true exactly for the `White_Space` code points.
#[verifier::external_body]
fn char_is_whitespace(c: char) -> (r: bool)
    ensures
        r == is_ws(c),
{
    c.is_whitespace()
}

/// The characters of `s`, in order.
pub fn chars_of(s: &str) -> (v: Vec<char>)
    ensures
        v@ == s@,
{
    let mut v: Vec<char> = Vec::new();
    for c in it: s.chars()
        invariant
            v@ == it.seq().subrange(0, it.index()),
    {
        v.push(c);
    }
    v
}


/// A set of characters that a trimming step removes.
pub enum CharClass {
    /// Unicode white space.
    Whitespace,
    /// Backticks and line breaks, the characters of a markdown code fence.
    Fence,
    /// The backtick alone.
    Backtick,
}

impl CharClass {
    pub open spec fn holds(self, c: char) -> bool {
        match self {
            CharClass::Whitespace => is_ws(c),
            CharClass::Fence => c == '`' || c == '\n' || c == '\r',
            CharClass::Backtick => c == '`',
        }
    }

    pub fn contains(&self, c: char) -> (r: bool)
        ensures
            r == self.holds(c),
    {
        match self {
            CharClass::Whitespace => char_is_whitespace(c),
            CharClass::Fence => c == '`' || c == '\n' || c == '\r',
            CharClass::Backtick => c == '`',
        }
    }
}

/// `s` without the characters of `cls` that lead it.
pub open spec fn drop_leading(s: Seq<char>, cls: CharClass) -> Seq<char>
    decreases s.len(),
{
    if s.len() > 0 && cls.holds(s[0]) {
        drop_leading(s.drop_first(), cls)
    } else {
        s
    }
}

/// `s` without the characters of `cls` that end it.
pub open spec fn drop_trailing(s: Seq<char>, cls: CharClass) -> Seq<char>
    decreases s.len(),
{
    if s.len() > 0 && cls.holds(s.last()) {
        drop_trailing(s.drop_last(), cls)
    } else {
        s
    }
}

/// `s` without the characters of `cls` at either end.
pub open spec fn trim_class(s: Seq<char>, cls: CharClass) -> Seq<char> {
    drop_trailing(drop_leading(s, cls), cls)
}

/// `s` with every repetition of `p` at its front removed.
pub open spec fn drop_repeated_prefix(s: Seq<char>, p: Seq<char>) -> Seq<char>
    decreases s.len(),
{
    if p.len() > 0 && p.len() <= s.len() && s.subrange(0, p.len() as int) == p {
        drop_repeated_prefix(s.subrange(p.len() as int, s.len() as int), p)
    } else {
        s
    }
}

/// `p` occurs in `t` starting at position `i`.
pub open spec fn occurs_at(t: Seq<char>, p: Seq<char>, i: int) -> bool {
    0 <= i && i + p.len() <= t.len() && t.subrange(i, i + p.len()) == p
}

/// `p` occurs somewhere in `t` (the empty sequence occurs in every `t`).
pub open spec fn is_substring(p: Seq<char>, t: Seq<char>) -> bool {
    exists|i: int| #[trigger] occurs_at(t, p, i)
}

/// The first position in `from..to` whose character is not in `cls`, or `to`.
pub fn skip_leading(v: &Vec<char>, from: usize, to: usize, cls: &CharClass) -> (k: usize)
    requires
        from <= to <= v@.len(),
    ensures
        from <= k <= to,
        drop_leading(v@.subrange(from as int, to as int), *cls) == v@.subrange(k as int, to as int),
{
    let mut k = from;
    while k < to && cls.contains(v[k])
        invariant
            from <= k <= to <= v@.len(),
            drop_leading(v@.subrange(from as int, to as int), *cls) == drop_leading(
                v@.subrange(k as int, to as int),
                *cls,
            ),
        decreases to - k,
    {
        assert(v@.subrange(k as int, to as int).drop_first() =~= v@.subrange(k + 1, to as int));
        k = k + 1;
    }
    k
}

/// The end of `from..to` once the trailing characters of `cls` are cut off.
pub fn skip_trailing(v: &Vec<char>, from: usize, to: usize, cls: &CharClass) -> (k: usize)
    requires
        from <= to <= v@.len(),
    ensures
        from <= k <= to,
        drop_trailing(v@.subrange(from as int, to as int), *cls) == v@.subrange(from as int, k as int),
{
    let mut k = to;
    while k > from && cls.contains(v[k - 1])
        invariant
            from <= k <= to <= v@.len(),
            drop_trailing(v@.subrange(from as int, to as int), *cls) == drop_trailing(
                v@.subrange(from as int, k as int),
                *cls,
            ),
        decreases k - from,
    {
        assert(v@.subrange(from as int, k as int).drop_last() =~= v@.subrange(from as int, k - 1));
        k = k - 1;
    }
    k
}

/// The lower-case form of `s`, as `str::to_lowercase` gives it.
pub uninterp spec fn lower_of(s: Seq<char>) -> Seq<char>;

/// Relies on `str::to_lowercase`: the result depends on the characters of `s` alone.
#[verifier::external_body]
pub(crate) fn lowercase(s: &str) -> (r: String)
    ensures
        r@ == lower_of(s@),
{
    s.to_lowercase()
}

/// `p` stands in `v` at position `at`, within the bound `end`.
pub fn has_prefix_at(v: &Vec<char>, at: usize, end: usize, p: &Vec<char>) -> (r: bool)
    requires
        at <= end <= v@.len(),
    ensures
        r == (p@.len() <= end - at && v@.subrange(at as int, at + p@.len()) == p@),
{
    if p.len() > end - at {
        return false;
    }
    let mut j: usize = 0;
    while j < p.len()
        invariant
            at <= end <= v@.len(),
            p@.len() <= end - at,
            j <= p@.len(),
            forall|l: int| 0 <= l < j ==> v@[at + l] == p@[l],
        decreases p@.len() - j,
    {
        if v[at + j] != p[j] {
            assert(v@.subrange(at as int, at + p@.len())[j as int] != p@[j as int]);
            return false;
        }
        j = j + 1;
    }
    assert(v@.subrange(at as int, at + p@.len()) =~= p@);
    true
}

/// The characters of `s` from position `from` up to `to`, as a new string.
pub fn substring(s: &str, from: usize, to: usize) -> (r: String)
    requires
        from <= to <= s@.len(),
    ensures
        r@ == s@.subrange(from as int, to as int),
{
    s.substring_char(from, to).to_owned()
}

/// `s` cut to its first `max` characters and marked with `...` when it is
/// longer than that; otherwise `s` itself.
pub open spec fn ellipsized(s: Seq<char>, max: nat) -> Seq<char> {
    if s.len() > max {
        s.subrange(0, max as int) + seq!['.', '.', '.']
    } else {
        s
    }
}

/// `s` shortened for a fixed-width column of `max` characters plus the mark.
pub fn ellipsize(s: &str, max: usize) -> (r: String)
    ensures
        r@ == ellipsized(s@, max as nat),
{
    let n = s.unicode_len();
    if n > max {
        let head = substring(s, 0, max);
        let r = head.concat("...");
        proof {
            reveal_strlit("...");
        }
        assert(r@ =~= ellipsized(s@, max as nat));
        r
    } else {
        s.to_owned()
    }
}

/// Whether `pattern` occurs in `text`, compared character by character.
pub fn contains_text(text: &str, pattern: &str) -> (r: bool)
    ensures
        r == is_substring(pattern@, text@),
{
    let t = chars_of(text);
    let p = chars_of(pattern);
    if p.len() > t.len() {
        assert forall|i: int| !occurs_at(t@, p@, i) by {}
        return false;
    }
    if p.len() == 0 {
        assert(t@.subrange(0, 0) =~= p@);
        assert(occurs_at(t@, p@, 0));
        return true;
    }
    let last = t.len() - p.len();
    let mut i: usize = 0;
    while i <= last
        invariant
            t@ == text@,
            p@ == pattern@,
            0 < p@.len() <= t@.len() <= usize::MAX,
            last == t@.len() - p@.len(),
            i <= last + 1,
            forall|k: int| 0 <= k < i ==> !#[trigger] occurs_at(t@, p@, k),
        decreases last + 1 - i,
    {
        let mut j: usize = 0;
        let mut same = true;
        while j < p.len() && same
            invariant
                i <= last,
                0 < p@.len() <= t@.len() <= usize::MAX,
                last == t@.len() - p@.len(),
                j <= p@.len(),
                same ==> forall|l: int| 0 <= l < j ==> t@[i + l] == p@[l],
                !same ==> j > 0 && t@[i + j - 1] != p@[j - 1],
            decreases p@.len() - j,
        {
            if t[i + j] != p[j] {
                same = false;
            }
            j = j + 1;
        }
        if same {
            assert(t@.subrange(i as int, i + p@.len()) =~= p@);
            assert(occurs_at(t@, p@, i as int));
            return true;
        }
        assert(t@.subrange(i as int, i + p@.len())[j - 1] != p@[j - 1]);
        i = i + 1;
    }
    assert forall|k: int| !occurs_at(t@, p@, k) by {
        if 0 <= k < i {
        }
    }
    false
}

} // verus!
