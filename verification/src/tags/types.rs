//! The entities of the store and the filter that a query parses to, each
//! with the mathematical value that contracts speak of.

use vstd::prelude::*;

verus! {

/// What a [`StoredFile`] stands for.
pub struct StoredFileView {
    pub name: Seq<char>,
    pub path: Seq<char>,
    pub last_used: u64,
}

/// A file that the store tracks, whatever its place on disk.
#[derive(Debug)]
pub struct StoredFile {
    pub name: String,
    pub path: String,
    /// Seconds since the epoch.
    pub last_used: u64,
}

impl View for StoredFile {
    type V = StoredFileView;

    open spec fn view(&self) -> StoredFileView {
        StoredFileView { name: self.name@, path: self.path@, last_used: self.last_used }
    }
}

impl DeepView for StoredFile {
    type V = StoredFileView;

    open spec fn deep_view(&self) -> StoredFileView {
        self@
    }
}

impl StoredFile {
    /// How the file is shown in a listing or a prompt: by its name.
    pub fn to_string(&self) -> (res: String)
        ensures
            res@ == self@.name,
    {
        self.name.clone()
    }
}

impl Clone for StoredFile {
    fn clone(&self) -> (res: Self)
        ensures
            res@ == self@,
    {
        StoredFile {
            name: self.name.clone(),
            path: self.path.clone(),
            last_used: self.last_used,
        }
    }
}

/// A refinement of a tag, meaningful only under that tag.
#[derive(Debug)]
pub struct ChildTag {
    pub name: String,
}

impl View for ChildTag {
    type V = Seq<char>;

    open spec fn view(&self) -> Seq<char> {
        self.name@
    }
}

impl DeepView for ChildTag {
    type V = Seq<char>;

    open spec fn deep_view(&self) -> Seq<char> {
        self@
    }
}

impl Clone for ChildTag {
    fn clone(&self) -> (res: Self)
        ensures
            res@ == self@,
    {
        ChildTag { name: self.name.clone() }
    }
}

/// What a [`Tag`] stands for: its name and the names of its children.
pub struct TagView {
    pub name: Seq<char>,
    pub children: Seq<Seq<char>>,
}

/// A label that files can carry.
#[derive(Debug)]
pub struct Tag {
    pub name: String,
    pub children: Vec<ChildTag>,
}

impl View for Tag {
    type V = TagView;

    open spec fn view(&self) -> TagView {
        TagView { name: self.name@, children: self.children.deep_view() }
    }
}

impl DeepView for Tag {
    type V = TagView;

    open spec fn deep_view(&self) -> TagView {
        self@
    }
}

impl Clone for Tag {
    fn clone(&self) -> (res: Self)
        ensures
            res@ == self@,
    {
        let res = Tag { name: self.name.clone(), children: self.children.clone() };
        assert(res@.children =~= self@.children);
        res
    }
}

/// What a [`FileTagConnection`] stands for.
pub struct ConnectionView {
    pub file_name: Seq<char>,
    pub tag_name: Seq<char>,
}

/// The fact that a file carries a tag.
#[derive(Debug)]
pub struct FileTagConnection {
    pub file_name: String,
    pub tag_name: String,
}

impl View for FileTagConnection {
    type V = ConnectionView;

    open spec fn view(&self) -> ConnectionView {
        ConnectionView { file_name: self.file_name@, tag_name: self.tag_name@ }
    }
}

impl DeepView for FileTagConnection {
    type V = ConnectionView;

    open spec fn deep_view(&self) -> ConnectionView {
        self@
    }
}

impl Clone for FileTagConnection {
    fn clone(&self) -> (res: Self)
        ensures
            res@ == self@,
    {
        FileTagConnection { file_name: self.file_name.clone(), tag_name: self.tag_name.clone() }
    }
}

/// What a [`TagFilter`] stands for. A pair is a parent tag and a child of it.
pub struct TagFilterView {
    pub allowed_tags: Seq<Seq<char>>,
    pub denied_tags: Seq<Seq<char>>,
    pub allowed_child_tags: Seq<(Seq<char>, Seq<char>)>,
    pub denied_child_tags: Seq<(Seq<char>, Seq<char>)>,
}

/// Some pair of `pairs` has `tag` as its parent.
pub open spec fn has_parent(pairs: Seq<(Seq<char>, Seq<char>)>, tag: Seq<char>) -> bool {
    exists|i: int| 0 <= i < pairs.len() && (#[trigger] pairs[i]).0 == tag
}

impl TagFilterView {
    /// The filter that constrains nothing.
    pub open spec fn empty() -> TagFilterView {
        TagFilterView {
            allowed_tags: Seq::empty(),
            denied_tags: Seq::empty(),
            allowed_child_tags: Seq::empty(),
            denied_child_tags: Seq::empty(),
        }
    }

    /// All four collections are empty.
    pub open spec fn is_empty(self) -> bool {
        &&& self.allowed_tags.len() == 0
        &&& self.denied_tags.len() == 0
        &&& self.allowed_child_tags.len() == 0
        &&& self.denied_child_tags.len() == 0
    }

    /// `tag` is the parent of some pair, allowed or denied.
    pub open spec fn refines(self, tag: Seq<char>) -> bool {
        has_parent(self.allowed_child_tags, tag) || has_parent(self.denied_child_tags, tag)
    }

    /// No tag is denied outright and refined by a child at once.
    pub open spec fn consistent(self) -> bool {
        forall|i: int|
            0 <= i < self.denied_tags.len() ==> !self.refines(#[trigger] self.denied_tags[i])
    }

    /// `tag` is asked for and not excluded. Where a tag is both allowed and
    /// denied, the denial wins.
    pub open spec fn selects(self, tag: Seq<char>) -> bool {
        self.allowed_tags.contains(tag) && !self.denied_tags.contains(tag)
    }
}

/// A copy of `pairs`.
fn clone_pairs(pairs: &Vec<(String, String)>) -> (res: Vec<(String, String)>)
    ensures
        res.deep_view() == pairs.deep_view(),
{
    let mut res: Vec<(String, String)> = Vec::new();
    let mut i: usize = 0;
    while i < pairs.len()
        invariant
            i <= pairs.len(),
            res.deep_view() == pairs.deep_view().take(i as int),
        decreases pairs.len() - i,
    {
        let ghost before = res.deep_view();
        let parent = pairs[i].0.clone();
        let child = pairs[i].1.clone();
        assert(pairs.deep_view()[i as int] == (parent@, child@));
        res.push((parent, child));
        assert(res.deep_view() =~= before.push((parent@, child@)));
        i += 1;
    }
    assert(pairs.deep_view().take(i as int) =~= pairs.deep_view());
    res
}

/// Whether some pair of `pairs` has `tag` as its parent.
fn names_parent(pairs: &Vec<(String, String)>, tag: &String) -> (res: bool)
    ensures
        res == has_parent(pairs.deep_view(), tag@),
{
    let mut j: usize = 0;
    while j < pairs.len()
        invariant
            j <= pairs.len(),
            forall|k: int| 0 <= k < j ==> (#[trigger] pairs.deep_view()[k]).0 != tag@,
        decreases pairs.len() - j,
    {
        assert(pairs.deep_view()[j as int].0 == pairs[j as int].0@);
        if pairs[j].0 == *tag {
            return true;
        }
        j += 1;
    }
    false
}

/// A parsed query: the tags to look for, the tags to leave out, and the
/// children asked for or refused under a parent tag.
#[derive(Debug)]
pub struct TagFilter {
    pub allowed_tags: Vec<String>,
    pub denied_tags: Vec<String>,
    pub allowed_child_tags: Vec<(String, String)>,
    pub denied_child_tags: Vec<(String, String)>,
}

impl View for TagFilter {
    type V = TagFilterView;

    open spec fn view(&self) -> TagFilterView {
        TagFilterView {
            allowed_tags: self.allowed_tags.deep_view(),
            denied_tags: self.denied_tags.deep_view(),
            allowed_child_tags: self.allowed_child_tags.deep_view(),
            denied_child_tags: self.denied_child_tags.deep_view(),
        }
    }
}

impl Clone for TagFilter {
    fn clone(&self) -> (res: Self)
        ensures
            res@ == self@,
    {
        let res = TagFilter {
            allowed_tags: self.allowed_tags.clone(),
            denied_tags: self.denied_tags.clone(),
            allowed_child_tags: clone_pairs(&self.allowed_child_tags),
            denied_child_tags: clone_pairs(&self.denied_child_tags),
        };
        assert(res@.allowed_tags =~= self@.allowed_tags);
        assert(res@.denied_tags =~= self@.denied_tags);
        res
    }
}

impl TagFilter {
    /// The filter that constrains nothing.
    pub fn new() -> (res: TagFilter)
        ensures
            res@ == TagFilterView::empty(),
    {
        let res = TagFilter {
            allowed_tags: Vec::new(),
            denied_tags: Vec::new(),
            allowed_child_tags: Vec::new(),
            denied_child_tags: Vec::new(),
        };
        assert(res@.allowed_tags =~= Seq::empty());
        assert(res@.denied_tags =~= Seq::empty());
        assert(res@.allowed_child_tags =~= Seq::empty());
        assert(res@.denied_child_tags =~= Seq::empty());
        res
    }

    /// Whether no tag is denied outright and refined by a child at once.
    pub fn is_consistent(&self) -> (res: bool)
        ensures
            res == self@.consistent(),
    {
        let mut i: usize = 0;
        while i < self.denied_tags.len()
            invariant
                i <= self.denied_tags.len(),
                forall|k: int| 0 <= k < i ==> !self@.refines(#[trigger] self@.denied_tags[k]),
            decreases self.denied_tags.len() - i,
        {
            let tag = &self.denied_tags[i];
            assert(tag@ == self@.denied_tags[i as int]);
            if names_parent(&self.allowed_child_tags, tag) || names_parent(
                &self.denied_child_tags,
                tag,
            ) {
                return false;
            }
            i += 1;
        }
        true
    }

    /// Whether the filter constrains nothing, in which case it matches
    /// every file.
    pub fn is_empty(&self) -> (res: bool)
        ensures
            res == self@.is_empty(),
    {
        self.allowed_tags.is_empty() && self.denied_tags.is_empty()
            && self.allowed_child_tags.is_empty() && self.denied_child_tags.is_empty()
    }
}

} // verus!
