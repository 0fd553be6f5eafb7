//! The bookmark catalog: named, tagged commands with unique names.
use vstd::prelude::*;
use crate::text::{contains_text, is_substring, lower_of, lowercase};

verus! {

/// A saved command under a name of its own.
#[derive(Debug, PartialEq, Eq)]
pub struct BookmarkItem {
    pub name: String,
    pub command: String,
    pub description: String,
    pub tags: Vec<String>,
    pub created_at: i64,
}

/// A bookmark as plain values.
pub struct BookmarkView {
    pub name: Seq<char>,
    pub command: Seq<char>,
    pub description: Seq<char>,
    pub tags: Seq<Seq<char>>,
    pub created_at: i64,
}

/// The texts of a sequence of strings.
pub open spec fn texts(s: Seq<String>) -> Seq<Seq<char>> {
    s.map_values(|t: String| t@)
}

impl View for BookmarkItem {
    type V = BookmarkView;

    open spec fn view(&self) -> BookmarkView {
        BookmarkView {
            name: self.name@,
            command: self.command@,
            description: self.description@,
            tags: texts(self.tags@),
            created_at: self.created_at,
        }
    }
}

/// The views of a sequence of bookmarks.
pub open spec fn views(s: Seq<BookmarkItem>) -> Seq<BookmarkView> {
    s.map_values(|b: BookmarkItem| b@)
}

proof fn lemma_views_push(s: Seq<BookmarkItem>, b: BookmarkItem)
    ensures
        views(s.push(b)) == views(s).push(b@),
{
    assert(views(s.push(b)) =~= views(s).push(b@));
}

proof fn lemma_views_prefix(s: Seq<BookmarkItem>, i: int)
    requires
        0 <= i < s.len(),
    ensures
        views(s.subrange(0, i + 1)).drop_last() == views(s.subrange(0, i)),
        views(s.subrange(0, i + 1)).last() == s[i]@,
        views(s.subrange(0, s.len() as int)) == views(s),
{
    assert(views(s.subrange(0, i + 1)).drop_last() =~= views(s.subrange(0, i)));
    assert(s.subrange(0, s.len() as int) =~= s);
}

impl Clone for BookmarkItem {
    fn clone(&self) -> (r: Self)
        ensures
            r@ == self@,
    {
        let tags = self.tags.clone();
        assert(texts(tags@) =~= texts(self.tags@));
        BookmarkItem {
            name: self.name.clone(),
            command: self.command.clone(),
            description: self.description.clone(),
            tags,
            created_at: self.created_at,
        }
    }
}

/// The bookmark document: its entries in the order they were added.
#[derive(Debug)]
pub struct BookmarkData {
    pub bookmarks: Vec<BookmarkItem>,
}

impl Default for BookmarkData {
    fn default() -> (r: Self)
        ensures
            r.bookmarks@ == Seq::<BookmarkItem>::empty(),
    {
        BookmarkData { bookmarks: Vec::new() }
    }
}

/// Why a change to the catalog was refused.
#[derive(Debug, PartialEq, Eq)]
pub enum BookmarkError {
    /// An entry with this name is already in the catalog.
    Conflict(String),
}

/// Some entry of `s` is named `name`.
pub open spec fn has_name(s: Seq<BookmarkView>, name: Seq<char>) -> bool {
    exists|i: int| 0 <= i < s.len() && #[trigger] s[i].name == name
}

/// No two entries of `s` share a name.
pub open spec fn names_unique(s: Seq<BookmarkView>) -> bool {
    forall|i: int, j: int| 0 <= i < j < s.len() ==> s[i].name != s[j].name
}

/// One of the tags of `b` is exactly `tag`.
pub open spec fn has_tag(b: BookmarkView, tag: Seq<char>) -> bool {
    b.tags.contains(tag)
}

/// The entries of `s` that carry `tag`, in order.
pub open spec fn tagged(s: Seq<BookmarkView>, tag: Seq<char>) -> Seq<BookmarkView>
    decreases s.len(),
{
    if s.len() == 0 {
        s
    } else if has_tag(s.last(), tag) {
        tagged(s.drop_last(), tag).push(s.last())
    } else {
        tagged(s.drop_last(), tag)
    }
}

/// The entries of `s` not named `name`, in order.
pub open spec fn without_name(s: Seq<BookmarkView>, name: Seq<char>) -> Seq<BookmarkView>
    decreases s.len(),
{
    if s.len() == 0 {
        s
    } else if s.last().name == name {
        without_name(s.drop_last(), name)
    } else {
        without_name(s.drop_last(), name).push(s.last())
    }
}

/// The first entry of `s` named `name`, if any.
pub open spec fn first_named(s: Seq<BookmarkView>, name: Seq<char>) -> Option<BookmarkView>
    decreases s.len(),
{
    if s.len() == 0 {
        None
    } else if s[0].name == name {
        Some(s[0])
    } else {
        first_named(s.drop_first(), name)
    }
}

/// `q`, already lower-cased, occurs in the lower-cased name, command,
/// description or one of the tags of `b`.
pub open spec fn bookmark_hit(b: BookmarkView, q: Seq<char>) -> bool {
    ||| is_substring(q, lower_of(b.name))
    ||| is_substring(q, lower_of(b.command))
    ||| is_substring(q, lower_of(b.description))
    ||| exists|j: int| 0 <= j < b.tags.len() && is_substring(q, #[trigger] lower_of(b.tags[j]))
}

/// The entries of `s` that `q` hits, in order.
pub open spec fn bookmark_hits(s: Seq<BookmarkView>, q: Seq<char>) -> Seq<BookmarkView>
    decreases s.len(),
{
    if s.len() == 0 {
        s
    } else if bookmark_hit(s.last(), q) {
        bookmark_hits(s.drop_last(), q).push(s.last())
    } else {
        bookmark_hits(s.drop_last(), q)
    }
}

/// A successful add keeps the names of a catalog unique: the new name was
/// absent, and the entries before it already had distinct names.
pub proof fn lemma_add_keeps_names_unique(s: Seq<BookmarkView>, item: BookmarkView)
    requires
        names_unique(s),
        !has_name(s, item.name),
    ensures
        names_unique(s.push(item)),
{
    let t = s.push(item);
    assert forall|i: int, j: int| 0 <= i < j < t.len() implies t[i].name != t[j].name by {
        if j == s.len() {
            assert(t[i] == s[i]);
        }
    }
}

/// Removing a name that no entry has leaves the catalog as it was.
pub proof fn lemma_remove_absent_is_identity(s: Seq<BookmarkView>, name: Seq<char>)
    requires
        !has_name(s, name),
    ensures
        without_name(s, name) == s,
    decreases s.len(),
{
    if s.len() > 0 {
        let rest = s.drop_last();
        assert(s[s.len() - 1].name != name);
        assert forall|i: int| 0 <= i < rest.len() implies rest[i].name != name by {
            assert(rest[i] == s[i]);
        }
        lemma_remove_absent_is_identity(rest, name);
        assert(rest.push(s.last()) =~= s);
    }
}

/// The bookmark catalog, held as its document.
pub struct Bookmark {
    data: BookmarkData,
}

impl View for Bookmark {
    type V = Seq<BookmarkView>;

    closed spec fn view(&self) -> Seq<BookmarkView> {
        views(self.data.bookmarks@)
    }
}

impl Bookmark {
    /// An empty catalog.
    pub fn new() -> (r: Self)
        ensures
            r@ == Seq::<BookmarkView>::empty(),
    {
        let r = Bookmark { data: BookmarkData::default() };
        assert(r@ =~= Seq::<BookmarkView>::empty());
        r
    }

    /// The catalog that a load produced, or an empty one where the document
    /// could not be read.
    pub fn from_loaded(loaded: Option<BookmarkData>) -> (r: Self)
        ensures
            r@ == match loaded {
                Some(d) => views(d.bookmarks@),
                None => Seq::<BookmarkView>::empty(),
            },
    {
        match loaded {
            Some(data) => Bookmark { data },
            None => Bookmark::new(),
        }
    }

    /// The document to store.
    pub fn data(&self) -> (r: &BookmarkData)
        ensures
            views(r.bookmarks@) == self@,
    {
        &self.data
    }

    /// Whether some entry is named `name`.
    fn contains_name(&self, name: &String) -> (r: bool)
        ensures
            r == has_name(self@, name@),
    {
        let entries = &self.data.bookmarks;
        let mut i: usize = 0;
        while i < entries.len()
            invariant
                i <= entries@.len(),
                self@ == views(entries@),
                forall|k: int| 0 <= k < i ==> self@[k].name != name@,
            decreases entries@.len() - i,
        {
            if entries[i].name == *name {
                assert(self@[i as int].name == name@);
                return true;
            }
            i = i + 1;
        }
        false
    }

    /// Appends `item` unless its name is taken; a taken name leaves the
    /// catalog unchanged.
    pub fn add(&mut self, item: BookmarkItem) -> (r: Result<(), BookmarkError>)
        ensures
            r is Ok <==> !has_name(old(self)@, item.name@),
            r is Ok ==> final(self)@ == old(self)@.push(item@),
            r is Err ==> final(self)@ == old(self)@ && r == Err::<(), BookmarkError>(
                BookmarkError::Conflict(item.name),
            ),
    {
        if self.contains_name(&item.name) {
            return Err(BookmarkError::Conflict(item.name));
        }
        proof {
            lemma_views_push(self.data.bookmarks@, item);
        }
        self.data.bookmarks.push(item);
        Ok(())
    }

    /// All entries in stored order, or those carrying exactly `tag`.
    pub fn list(&self, tag: Option<String>) -> (r: Vec<BookmarkItem>)
        ensures
            views(r@) == match tag {
                Some(t) => tagged(self@, t@),
                None => self@,
            },
    {
        let entries = &self.data.bookmarks;
        match tag {
            None => {
                let all = entries.clone();
                assert(views(all@) =~= views(entries@));
                all
            },
            Some(t) => {
                let mut found: Vec<BookmarkItem> = Vec::new();
                let mut i: usize = 0;
                while i < entries.len()
                    invariant
                        i <= entries@.len(),
                        views(found@) == tagged(views(entries@.subrange(0, i as int)), t@),
                    decreases entries@.len() - i,
                {
                    let b = &entries[i];
                    let mut carries = false;
                    let mut j: usize = 0;
                    while j < b.tags.len() && !carries
                        invariant
                            j <= b.tags@.len(),
                            carries == (exists|l: int| 0 <= l < j && #[trigger] b.tags@[l]@ == t@),
                            b@.tags == texts(b.tags@),
                        decreases b.tags@.len() - j,
                    {
                        if b.tags[j] == t {
                            carries = true;
                        }
                        j = j + 1;
                    }
                    proof {
                        lemma_views_prefix(entries@, i as int);
                        if carries {
                            let l = choose|l: int| 0 <= l < j && #[trigger] b.tags@[l]@ == t@;
                            assert(b@.tags[l] == t@);
                        } else {
                            assert forall|l: int| 0 <= l < b@.tags.len() implies b@.tags[l] != t@ by {
                                assert(b.tags@[l]@ == b@.tags[l]);
                            }
                        }
                    }
                    if carries {
                        let c = b.clone();
                        proof {
                            lemma_views_push(found@, c);
                        }
                        found.push(c);
                    }
                    i = i + 1;
                }
                assert(entries@.subrange(0, entries@.len() as int) =~= entries@);
                found
            },
        }
    }

    /// The first entry named `name`, if any.
    pub fn get(&self, name: &str) -> (r: Option<BookmarkItem>)
        ensures
            match r {
                Some(b) => Some(b@),
                None => None,
            } == first_named(self@, name@),
    {
        let wanted = name.to_owned();
        let entries = &self.data.bookmarks;
        assert(self@.subrange(0, self@.len() as int) =~= self@);
        let mut i: usize = 0;
        while i < entries.len()
            invariant
                i <= entries@.len(),
                wanted@ == name@,
                self@ == views(entries@),
                first_named(self@, name@) == first_named(
                    self@.subrange(i as int, self@.len() as int),
                    name@,
                ),
            decreases entries@.len() - i,
        {
            let ghost rest = self@.subrange(i as int, self@.len() as int);
            assert(rest[0] == entries@[i as int]@);
            if entries[i].name == wanted {
                return Some(entries[i].clone());
            }
            assert(rest.drop_first() =~= self@.subrange(i + 1, self@.len() as int));
            i = i + 1;
        }
        None
    }

    /// Drops every entry named `name`; a name that no entry has changes nothing.
    pub fn remove(&mut self, name: &str)
        ensures
            final(self)@ == without_name(old(self)@, name@),
    {
        let unwanted = name.to_owned();
        let entries = &self.data.bookmarks;
        let mut kept: Vec<BookmarkItem> = Vec::new();
        let mut i: usize = 0;
        while i < entries.len()
            invariant
                i <= entries@.len(),
                unwanted@ == name@,
                views(kept@) == without_name(views(entries@.subrange(0, i as int)), name@),
            decreases entries@.len() - i,
        {
            proof {
                lemma_views_prefix(entries@, i as int);
            }
            if entries[i].name != unwanted {
                let b = entries[i].clone();
                proof {
                    lemma_views_push(kept@, b);
                }
                kept.push(b);
            }
            i = i + 1;
        }
        proof {
            assert(entries@.subrange(0, entries@.len() as int) =~= entries@);
        }
        self.data.bookmarks = kept;
    }

    /// Whether the lower-cased `q` occurs in the lower-cased name, command,
    /// description or one of the tags of `b`.
    fn matches(b: &BookmarkItem, q: &String) -> (r: bool)
        ensures
            r == bookmark_hit(b@, q@),
    {
        let name = lowercase(b.name.as_str());
        let command = lowercase(b.command.as_str());
        let description = lowercase(b.description.as_str());
        if contains_text(name.as_str(), q.as_str()) || contains_text(command.as_str(), q.as_str())
            || contains_text(description.as_str(), q.as_str()) {
            return true;
        }
        let mut j: usize = 0;
        while j < b.tags.len()
            invariant
                j <= b.tags@.len(),
                b@.tags == texts(b.tags@),
                forall|l: int| 0 <= l < j ==> !is_substring(q@, #[trigger] lower_of(b@.tags[l])),
            decreases b.tags@.len() - j,
        {
            let tag = lowercase(b.tags[j].as_str());
            if contains_text(tag.as_str(), q.as_str()) {
                assert(is_substring(q@, lower_of(b@.tags[j as int])));
                return true;
            }
            j = j + 1;
        }
        false
    }

    /// The entries whose name, command, description or a tag holds `query`,
    /// ignoring case, in stored order.
    pub fn search(&self, query: &str) -> (r: Vec<BookmarkItem>)
        ensures
            views(r@) == bookmark_hits(self@, lower_of(query@)),
    {
        let q = lowercase(query);
        let entries = &self.data.bookmarks;
        let mut found: Vec<BookmarkItem> = Vec::new();
        let mut i: usize = 0;
        while i < entries.len()
            invariant
                i <= entries@.len(),
                q@ == lower_of(query@),
                views(found@) == bookmark_hits(views(entries@.subrange(0, i as int)), q@),
            decreases entries@.len() - i,
        {
            proof {
                lemma_views_prefix(entries@, i as int);
            }
            if Bookmark::matches(&entries[i], &q) {
                let b = entries[i].clone();
                proof {
                    lemma_views_push(found@, b);
                }
                found.push(b);
            }
            i = i + 1;
        }
        proof {
            assert(entries@.subrange(0, entries@.len() as int) =~= entries@);
        }
        found
    }
}

} // verus!
