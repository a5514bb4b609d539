//! The store of files, tags and the connections between them.
//!
//! The store is a value in memory. Reading it from disk and writing it back
//! is the caller's part.

use super::resolve::{carries_selected, file_names, is_matched, resolve};
use super::types::{
    ChildTag, ConnectionView, FileTagConnection, StoredFile, StoredFileView, Tag, TagFilter,
    TagView,
};
use vstd::prelude::*;

verus! {

/// What a [`Database`] stands for: its listings, each in store order.
pub struct DatabaseView {
    pub files: Seq<StoredFileView>,
    pub connections: Seq<ConnectionView>,
    pub tags: Seq<TagView>,
    pub child_tags: Seq<Seq<char>>,
}

/// The files, the tags, and which file carries which tag.
#[derive(Debug)]
pub struct Database {
    pub files: Vec<StoredFile>,
    pub connections: Vec<FileTagConnection>,
    pub tags: Vec<Tag>,
    pub child_tags: Vec<ChildTag>,
}

impl View for Database {
    type V = DatabaseView;

    open spec fn view(&self) -> DatabaseView {
        DatabaseView {
            files: self.files.deep_view(),
            connections: self.connections.deep_view(),
            tags: self.tags.deep_view(),
            child_tags: self.child_tags.deep_view(),
        }
    }
}

/// The first position at or after `from` at which `names` holds `name`, or
/// the length of `names` where it holds it nowhere from there on.
pub open spec fn first_position(names: Seq<Seq<char>>, name: Seq<char>, from: int) -> int
    recommends
        0 <= from,
    decreases names.len() - from,
{
    if from >= names.len() {
        names.len() as int
    } else if names[from] == name {
        from
    } else {
        first_position(names, name, from + 1)
    }
}

/// `first_position` finds the first such position, and stays inside
/// `names` exactly where `names` holds `name` from `from` on.
pub proof fn lemma_first_position(names: Seq<Seq<char>>, name: Seq<char>, from: int)
    requires
        0 <= from <= names.len(),
    ensures
        from <= first_position(names, name, from) <= names.len(),
        forall|j: int| from <= j < first_position(names, name, from) ==> names[j] != name,
        first_position(names, name, from) < names.len() ==> names[first_position(
            names,
            name,
            from,
        )] == name,
    decreases names.len() - from,
{
    if from < names.len() && names[from] != name {
        lemma_first_position(names, name, from + 1);
    }
}

/// The names of the tags, in store order.
pub open spec fn tag_names(tags: Seq<TagView>) -> Seq<Seq<char>> {
    tags.map_values(|tag: TagView| tag.name)
}

/// Some tag of the store has this name.
pub open spec fn knows_tag(tags: Seq<TagView>, name: Seq<char>) -> bool {
    tag_names(tags).contains(name)
}

/// The connection of a file to a tag.
pub open spec fn tie(file: Seq<char>, tag: Seq<char>) -> ConnectionView {
    ConnectionView { file_name: file, tag_name: tag }
}

/// The connections with the file tied to the tag. A tie that is there
/// already is not made twice.
pub open spec fn connect(connections: Seq<ConnectionView>, file: Seq<char>, tag: Seq<char>) -> Seq<
    ConnectionView,
> {
    if connections.contains(tie(file, tag)) {
        connections
    } else {
        connections.push(tie(file, tag))
    }
}

/// The connections with the file tied to each of the `wanted` tags that
/// the store knows, taken in order. A tag that it does not know is passed
/// over.
pub open spec fn connect_known(
    connections: Seq<ConnectionView>,
    tags: Seq<TagView>,
    file: Seq<char>,
    wanted: Seq<Seq<char>>,
) -> Seq<ConnectionView>
    decreases wanted.len(),
{
    if wanted.len() == 0 {
        connections
    } else {
        let sofar = connect_known(connections, tags, file, wanted.drop_last());
        if knows_tag(tags, wanted.last()) {
            connect(sofar, file, wanted.last())
        } else {
            sofar
        }
    }
}

/// The test of a connection that does not tie `file` to one of `tags`.
pub open spec fn not_tied(file: Seq<char>, tags: Seq<Seq<char>>) -> spec_fn(ConnectionView) -> bool {
    |connection: ConnectionView| !(connection.file_name == file && tags.contains(connection.tag_name))
}

/// The test of a connection to another tag than `tag`.
pub open spec fn other_tag(tag: Seq<char>) -> spec_fn(ConnectionView) -> bool {
    |connection: ConnectionView| connection.tag_name != tag
}

/// The test of a connection of another file than `file`.
pub open spec fn other_file(file: Seq<char>) -> spec_fn(ConnectionView) -> bool {
    |connection: ConnectionView| connection.file_name != file
}

/// The test of an allowed tag that the store does not know.
pub open spec fn unknown_to(tags: Seq<TagView>) -> spec_fn(Seq<char>) -> bool {
    |name: Seq<char>| !knows_tag(tags, name)
}

/// What is reported where a query for a file matches none.
pub open spec fn no_match_message() -> Seq<char> {
    "no files match"@
}

/// What is reported for a tag that is not there to delete.
pub open spec fn missing_tag_message(name: Seq<char>) -> Seq<char> {
    "Couldnt find tag with name: "@ + name
}

/// What is reported for a file that is not there to delete.
pub open spec fn missing_file_message(name: Seq<char>) -> Seq<char> {
    "Couldnt find file with name: "@ + name
}

/// Once a tag is deleted, no connection names it.
pub proof fn lemma_deleted_tag_has_no_ties(connections: Seq<ConnectionView>, tag: Seq<char>)
    ensures
        forall|i: int|
            0 <= i < connections.filter(other_tag(tag)).len() ==> (#[trigger] connections.filter(
                other_tag(tag),
            )[i]).tag_name != tag,
{
    let kept = connections.filter(other_tag(tag));
    assert forall|i: int| 0 <= i < kept.len() implies (#[trigger] kept[i]).tag_name != tag by {
        connections.lemma_filter_pred(other_tag(tag), i);
    }
}

/// Once a file is deleted, no connection names it.
pub proof fn lemma_deleted_file_has_no_ties(connections: Seq<ConnectionView>, file: Seq<char>)
    ensures
        forall|i: int|
            0 <= i < connections.filter(other_file(file)).len() ==> (#[trigger] connections.filter(
                other_file(file),
            )[i]).file_name != file,
{
    let kept = connections.filter(other_file(file));
    assert forall|i: int| 0 <= i < kept.len() implies (#[trigger] kept[i]).file_name != file by {
        connections.lemma_filter_pred(other_file(file), i);
    }
}

/// Once tags are set, the file is tied to none of the denied tags,
/// allowed or not.
pub proof fn lemma_denied_ties_are_gone(
    connections: Seq<ConnectionView>,
    file: Seq<char>,
    denied: Seq<Seq<char>>,
    tag: Seq<char>,
)
    requires
        denied.contains(tag),
    ensures
        !connections.filter(not_tied(file, denied)).contains(tie(file, tag)),
{
    let kept = connections.filter(not_tied(file, denied));
    if kept.contains(tie(file, tag)) {
        let i = choose|i: int| 0 <= i < kept.len() && kept[i] == tie(file, tag);
        connections.lemma_filter_pred(not_tied(file, denied), i);
    }
}

/// The position of the first tag named `name`, or the number of tags.
fn find_tag(tags: &Vec<Tag>, name: &String) -> (at: usize)
    ensures
        at == first_position(tag_names(tags.deep_view()), name@, 0),
        at <= tags.len(),
        at < tags.len() <==> knows_tag(tags.deep_view(), name@),
{
    let ghost names = tag_names(tags.deep_view());
    let mut i: usize = 0;
    proof {
        lemma_first_position(names, name@, 0);
    }
    while i < tags.len()
        invariant
            i <= tags.len(),
            names == tag_names(tags.deep_view()),
            first_position(names, name@, 0) == first_position(names, name@, i as int),
        decreases tags.len() - i,
    {
        assert(names[i as int] == tags[i as int].name@);
        if tags[i].name == *name {
            return i;
        }
        i += 1;
    }
    i
}

/// The position of the first file named `name`, or the number of files.
fn find_file(files: &Vec<StoredFile>, name: &String) -> (at: usize)
    ensures
        at == first_position(file_names(files.deep_view()), name@, 0),
        at <= files.len(),
{
    let ghost names = file_names(files.deep_view());
    let mut i: usize = 0;
    while i < files.len()
        invariant
            i <= files.len(),
            names == file_names(files.deep_view()),
            first_position(names, name@, 0) == first_position(names, name@, i as int),
        decreases files.len() - i,
    {
        assert(names[i as int] == files[i as int].name@);
        if files[i].name == *name {
            return i;
        }
        i += 1;
    }
    i
}

/// Whether the file is tied to the tag.
fn has_connection(connections: &Vec<FileTagConnection>, file: &String, tag: &String) -> (res: bool)
    ensures
        res == connections.deep_view().contains(tie(file@, tag@)),
{
    let mut i: usize = 0;
    while i < connections.len()
        invariant
            i <= connections.len(),
            forall|k: int| 0 <= k < i ==> #[trigger] connections.deep_view()[k] != tie(file@, tag@),
        decreases connections.len() - i,
    {
        assert(connections.deep_view()[i as int] == connections[i as int]@);
        if connections[i].file_name == *file && connections[i].tag_name == *tag {
            return true;
        }
        i += 1;
    }
    false
}

/// The connections but those that tie `file` to one of `tags`.
fn without_ties(connections: &Vec<FileTagConnection>, file: &String, tags: &Vec<String>) -> (kept:
    Vec<FileTagConnection>)
    ensures
        kept.deep_view() == connections.deep_view().filter(not_tied(file@, tags.deep_view())),
{
    let ghost all = connections.deep_view();
    let ghost test = not_tied(file@, tags.deep_view());
    let mut kept: Vec<FileTagConnection> = Vec::new();
    let mut i: usize = 0;
    assert(all.take(0).filter(test) =~= Seq::empty()) by {
        reveal(Seq::filter);
    }
    while i < connections.len()
        invariant
            i <= connections.len(),
            all == connections.deep_view(),
            test == not_tied(file@, tags.deep_view()),
            kept.deep_view() == all.take(i as int).filter(test),
        decreases connections.len() - i,
    {
        let connection = &connections[i];
        let ghost before = kept.deep_view();
        assert(all[i as int] == connection@);
        proof {
            all.take(i as int).lemma_filter_push(all[i as int], test);
            assert(all.take(i as int).push(all[i as int]) =~= all.take(i + 1));
        }
        if !(connection.file_name == *file && contains_name(tags, &connection.tag_name)) {
            kept.push(connection.clone());
            assert(kept.deep_view() =~= before.push(connection@));
        }
        i += 1;
    }
    assert(all.take(i as int) =~= all);
    kept
}

/// The connections to other tags than `tag`.
fn without_tag(connections: &Vec<FileTagConnection>, tag: &String) -> (kept: Vec<FileTagConnection>)
    ensures
        kept.deep_view() == connections.deep_view().filter(other_tag(tag@)),
{
    let ghost all = connections.deep_view();
    let ghost test = other_tag(tag@);
    let mut kept: Vec<FileTagConnection> = Vec::new();
    let mut i: usize = 0;
    assert(all.take(0).filter(test) =~= Seq::empty()) by {
        reveal(Seq::filter);
    }
    while i < connections.len()
        invariant
            i <= connections.len(),
            all == connections.deep_view(),
            test == other_tag(tag@),
            kept.deep_view() == all.take(i as int).filter(test),
        decreases connections.len() - i,
    {
        let connection = &connections[i];
        let ghost before = kept.deep_view();
        assert(all[i as int] == connection@);
        proof {
            all.take(i as int).lemma_filter_push(all[i as int], test);
            assert(all.take(i as int).push(all[i as int]) =~= all.take(i + 1));
        }
        if connection.tag_name != *tag {
            kept.push(connection.clone());
            assert(kept.deep_view() =~= before.push(connection@));
        }
        i += 1;
    }
    assert(all.take(i as int) =~= all);
    kept
}

/// The connections of other files than `file`.
fn without_file(connections: &Vec<FileTagConnection>, file: &String) -> (kept: Vec<
    FileTagConnection,
>)
    ensures
        kept.deep_view() == connections.deep_view().filter(other_file(file@)),
{
    let ghost all = connections.deep_view();
    let ghost test = other_file(file@);
    let mut kept: Vec<FileTagConnection> = Vec::new();
    let mut i: usize = 0;
    assert(all.take(0).filter(test) =~= Seq::empty()) by {
        reveal(Seq::filter);
    }
    while i < connections.len()
        invariant
            i <= connections.len(),
            all == connections.deep_view(),
            test == other_file(file@),
            kept.deep_view() == all.take(i as int).filter(test),
        decreases connections.len() - i,
    {
        let connection = &connections[i];
        let ghost before = kept.deep_view();
        assert(all[i as int] == connection@);
        proof {
            all.take(i as int).lemma_filter_push(all[i as int], test);
            assert(all.take(i as int).push(all[i as int]) =~= all.take(i + 1));
        }
        if connection.file_name != *file {
            kept.push(connection.clone());
            assert(kept.deep_view() =~= before.push(connection@));
        }
        i += 1;
    }
    assert(all.take(i as int) =~= all);
    kept
}

/// Whether `names` holds `name`.
fn contains_name(names: &Vec<String>, name: &String) -> (res: bool)
    ensures
        res == names.deep_view().contains(name@),
{
    let mut i: usize = 0;
    while i < names.len()
        invariant
            i <= names.len(),
            forall|k: int| 0 <= k < i ==> #[trigger] names.deep_view()[k] != name@,
        decreases names.len() - i,
    {
        assert(names.deep_view()[i as int] == names[i as int]@);
        if names[i] == *name {
            return true;
        }
        i += 1;
    }
    false
}

/// The names of the files tied to a tag that the filter selects.
fn selected_files(filter: &TagFilter, connections: &Vec<FileTagConnection>) -> (names: Vec<String>)
    ensures
        forall|file: Seq<char>|
            names.deep_view().contains(file) <==> carries_selected(
                filter@,
                connections.deep_view(),
                file,
            ),
{
    let ghost all = connections.deep_view();
    let mut names: Vec<String> = Vec::new();
    let mut i: usize = 0;
    while i < connections.len()
        invariant
            i <= connections.len(),
            all == connections.deep_view(),
            forall|file: Seq<char>|
                names.deep_view().contains(file) <==> carries_selected(
                    filter@,
                    all.take(i as int),
                    file,
                ),
        decreases connections.len() - i,
    {
        let connection = &connections[i];
        let ghost before = names.deep_view();
        let ghost here = all[i as int];
        assert(here == connection@);
        let selected = contains_name(&filter.allowed_tags, &connection.tag_name) && !contains_name(
            &filter.denied_tags,
            &connection.tag_name,
        );
        if selected {
            names.push(connection.file_name.clone());
            assert(names.deep_view() =~= before.push(here.file_name));
        }
        i += 1;
        assert forall|file: Seq<char>|
            names.deep_view().contains(file) <==> carries_selected(
                filter@,
                all.take(i as int),
                file,
            ) by {
            let wider = all.take(i as int);
            let narrower = all.take(i - 1);
            if carries_selected(filter@, wider, file) {
                let k = choose|k: int|
                    0 <= k < wider.len() && (#[trigger] wider[k]).file_name == file
                        && filter@.selects(wider[k].tag_name);
                if k < i - 1 {
                    assert(narrower[k] == wider[k]);
                    assert(before.contains(file));
                    let at = choose|at: int| 0 <= at < before.len() && before[at] == file;
                    assert(names.deep_view()[at] == file);
                } else {
                    assert(names.deep_view()[before.len() as int] == file);
                }
            }
            if names.deep_view().contains(file) {
                if before.contains(file) {
                    let k = choose|k: int|
                        0 <= k < narrower.len() && (#[trigger] narrower[k]).file_name == file
                            && filter@.selects(narrower[k].tag_name);
                    assert(wider[k] == narrower[k]);
                } else {
                    assert(wider[i - 1] == here);
                }
            }
        }
    }
    assert(all.take(i as int) =~= all);
    names
}

impl Database {
    /// A store that holds nothing.
    pub fn new() -> (res: Database)
        ensures
            res@.files.len() == 0,
            res@.connections.len() == 0,
            res@.tags.len() == 0,
            res@.child_tags.len() == 0,
    {
        Database {
            files: Vec::new(),
            connections: Vec::new(),
            tags: Vec::new(),
            child_tags: Vec::new(),
        }
    }

    /// Every file, in store order.
    pub fn list_files(self) -> (res: Result<Vec<StoredFile>, String>)
        ensures
            res matches Ok(files) && files.deep_view() == self@.files,
    {
        Ok(self.files)
    }

    /// Every tag, in store order.
    pub fn list_tags(self) -> (res: Result<Vec<Tag>, String>)
        ensures
            res matches Ok(tags) && tags.deep_view() == self@.tags,
    {
        Ok(self.tags)
    }

    /// Every connection, in store order.
    pub fn list_connections(self) -> (res: Result<Vec<FileTagConnection>, String>)
        ensures
            res matches Ok(connections) && connections.deep_view() == self@.connections,
    {
        Ok(self.connections)
    }

    /// The files that `filter` matches, in store order.
    pub fn get_files(self, filter: TagFilter) -> (res: Result<Vec<StoredFile>, String>)
        ensures
            res matches Ok(found) && found.deep_view() == resolve(
                filter@,
                self@.files,
                self@.connections,
            ),
    {
        if filter.is_empty() {
            return Ok(self.files);
        }
        let names = selected_files(&filter, &self.connections);
        let ghost all = self.files.deep_view();
        let ghost test = is_matched(filter@, self@.connections);
        let mut found: Vec<StoredFile> = Vec::new();
        let mut i: usize = 0;
        assert(all.take(0).filter(test) =~= Seq::empty()) by {
            reveal(Seq::filter);
        }
        while i < self.files.len()
            invariant
                i <= self.files.len(),
                all == self.files.deep_view(),
                test == is_matched(filter@, self@.connections),
                forall|file: Seq<char>|
                    names.deep_view().contains(file) <==> carries_selected(
                        filter@,
                        self@.connections,
                        file,
                    ),
                found.deep_view() == all.take(i as int).filter(test),
            decreases self.files.len() - i,
        {
            let file = &self.files[i];
            let ghost before = found.deep_view();
            assert(all[i as int] == file@);
            proof {
                all.take(i as int).lemma_filter_push(all[i as int], test);
                assert(all.take(i as int).push(all[i as int]) =~= all.take(i + 1));
            }
            if contains_name(&names, &file.name) {
                found.push(file.clone());
                assert(found.deep_view() =~= before.push(file@));
            }
            i += 1;
        }
        assert(all.take(i as int) =~= all);
        Ok(found)
    }

    /// The files that `filter` matches, in store order, for a caller that
    /// needs one at least: that it matches none is reported.
    pub fn matching_files(self, filter: TagFilter) -> (res: Result<Vec<StoredFile>, String>)
        ensures
            match res {
                Ok(found) => found.len() > 0 && found.deep_view() == resolve(
                    filter@,
                    self@.files,
                    self@.connections,
                ),
                Err(message) => resolve(filter@, self@.files, self@.connections).len() == 0
                    && message@ == no_match_message(),
            },
    {
        match self.get_files(filter) {
            Ok(found) => {
                if found.is_empty() {
                    Err("no files match".to_owned())
                } else {
                    Ok(found)
                }
            },
            Err(message) => Err(message),
        }
    }

    /// The allowed tags of `filter` that the store does not know, in
    /// order: those that `set_tags` passes over.
    pub fn unknown_tags(&self, filter: &TagFilter) -> (unknown: Vec<String>)
        ensures
            unknown.deep_view() == filter@.allowed_tags.filter(unknown_to(self@.tags)),
    {
        let ghost all = filter@.allowed_tags;
        let ghost test = unknown_to(self@.tags);
        let mut unknown: Vec<String> = Vec::new();
        let mut i: usize = 0;
        assert(all.take(0).filter(test) =~= Seq::empty()) by {
            reveal(Seq::filter);
        }
        while i < filter.allowed_tags.len()
            invariant
                i <= filter.allowed_tags.len(),
                all == filter@.allowed_tags,
                test == unknown_to(self@.tags),
                unknown.deep_view() == all.take(i as int).filter(test),
            decreases filter.allowed_tags.len() - i,
        {
            let tag = &filter.allowed_tags[i];
            let ghost before = unknown.deep_view();
            assert(all[i as int] == tag@);
            proof {
                all.take(i as int).lemma_filter_push(all[i as int], test);
                assert(all.take(i as int).push(all[i as int]) =~= all.take(i + 1));
            }
            if find_tag(&self.tags, tag) >= self.tags.len() {
                unknown.push(tag.clone());
                assert(unknown.deep_view() =~= before.push(tag@));
            }
            i += 1;
        }
        assert(all.take(i as int) =~= all);
        unknown
    }

    /// Adds a tag without children, behind the others.
    pub fn add_tag(&mut self, name: String) -> (res: Result<(), String>)
        ensures
            res is Ok,
            final(self)@ == (DatabaseView {
                tags: old(self)@.tags.push(TagView { name: name@, children: Seq::empty() }),
                ..old(self)@
            }),
    {
        let new_tag = Tag { name, children: Vec::new() };
        assert(new_tag@.children =~= Seq::empty());
        self.tags.push(new_tag);
        assert(self@.tags =~= old(self)@.tags.push(new_tag@));
        Ok(())
    }

    /// Adds a file, behind the others.
    pub fn add_file(&mut self, name: String, path: String, last_used: u64) -> (res: Result<
        (),
        String,
    >)
        ensures
            res is Ok,
            final(self)@ == (DatabaseView {
                files: old(self)@.files.push(
                    StoredFileView { name: name@, path: path@, last_used },
                ),
                ..old(self)@
            }),
    {
        let new_file = StoredFile { name, path, last_used };
        self.files.push(new_file);
        assert(self@.files =~= old(self)@.files.push(new_file@));
        Ok(())
    }

    /// Ties the file to the tag, unless it is tied to it already.
    pub fn assign(&mut self, tag_name: String, file_name: String) -> (res: Result<(), String>)
        ensures
            res is Ok,
            final(self)@ == (DatabaseView {
                connections: connect(old(self)@.connections, file_name@, tag_name@),
                ..old(self)@
            }),
    {
        if !has_connection(&self.connections, &file_name, &tag_name) {
            let connection = FileTagConnection { file_name, tag_name };
            self.connections.push(connection);
            assert(self@.connections =~= old(self)@.connections.push(connection@));
        }
        Ok(())
    }

    /// Removes every tie of the file to the tag.
    pub fn unassign(&mut self, tag_name: String, file_name: String) -> (res: Result<(), String>)
        ensures
            res is Ok,
            final(self)@ == (DatabaseView {
                connections: old(self)@.connections.filter(not_tied(file_name@, seq![tag_name@])),
                ..old(self)@
            }),
    {
        let mut tags: Vec<String> = Vec::new();
        tags.push(tag_name);
        assert(tags.deep_view() =~= seq![tag_name@]);
        self.connections = without_ties(&self.connections, &file_name, &tags);
        Ok(())
    }

    /// Applies a filter to one file as a change. The file is tied to each
    /// allowed tag that the store knows; an allowed tag that it does not
    /// know is passed over (see `unknown_tags`). Then every tie of the file
    /// to a denied tag is removed, one made by this call too. Pairs of
    /// parent and child change nothing.
    pub fn set_tags(&mut self, file_name: String, tag_filter: TagFilter) -> (res: Result<
        (),
        String,
    >)
        ensures
            res is Ok,
            final(self)@ == (DatabaseView {
                connections: connect_known(
                    old(self)@.connections,
                    old(self)@.tags,
                    file_name@,
                    tag_filter@.allowed_tags,
                ).filter(not_tied(file_name@, tag_filter@.denied_tags)),
                ..old(self)@
            }),
    {
        let ghost before = self@;
        let ghost wanted = tag_filter@.allowed_tags;
        let mut i: usize = 0;
        assert(wanted.take(0) =~= Seq::empty());
        while i < tag_filter.allowed_tags.len()
            invariant
                i <= tag_filter.allowed_tags.len(),
                wanted == tag_filter@.allowed_tags,
                self@ == (DatabaseView {
                    connections: connect_known(
                        before.connections,
                        before.tags,
                        file_name@,
                        wanted.take(i as int),
                    ),
                    ..before
                }),
            decreases tag_filter.allowed_tags.len() - i,
        {
            let tag = &tag_filter.allowed_tags[i];
            let ghost sofar = self@.connections;
            assert(wanted.take(i + 1).drop_last() =~= wanted.take(i as int));
            assert(wanted.take(i + 1).last() == tag@);
            if find_tag(&self.tags, tag) < self.tags.len() {
                if !has_connection(&self.connections, &file_name, tag) {
                    let connection = FileTagConnection {
                        file_name: file_name.clone(),
                        tag_name: tag.clone(),
                    };
                    self.connections.push(connection);
                    assert(self@.connections =~= sofar.push(tie(file_name@, tag@)));
                }
            }
            i += 1;
        }
        assert(wanted.take(i as int) =~= wanted);
        self.connections = without_ties(&self.connections, &file_name, &tag_filter.denied_tags);
        Ok(())
    }

    /// Deletes the first tag named `tag_name`, and with it every connection
    /// to a tag of that name. Where the store has no such tag, it stays as
    /// it is and the name is reported.
    pub fn delete_tag(&mut self, tag_name: String) -> (res: Result<(), String>)
        ensures
            res is Ok <==> knows_tag(old(self)@.tags, tag_name@),
            res is Ok ==> final(self)@ == (DatabaseView {
                tags: old(self)@.tags.remove(
                    first_position(tag_names(old(self)@.tags), tag_name@, 0),
                ),
                connections: old(self)@.connections.filter(other_tag(tag_name@)),
                ..old(self)@
            }),
            res matches Err(message) ==> final(self)@ == old(self)@ && message@
                == missing_tag_message(tag_name@),
    {
        let at = find_tag(&self.tags, &tag_name);
        if at < self.tags.len() {
            self.tags.remove(at);
            assert(self@.tags =~= old(self)@.tags.remove(at as int));
            self.connections = without_tag(&self.connections, &tag_name);
            Ok(())
        } else {
            Err("Couldnt find tag with name: ".to_owned().concat(tag_name.as_str()))
        }
    }

    /// Deletes the first file named `file_name`, and with it every
    /// connection of a file of that name. Where the store has no such file,
    /// it stays as it is and the name is reported.
    pub fn delete_file(&mut self, file_name: String) -> (res: Result<(), String>)
        ensures
            res is Ok <==> file_names(old(self)@.files).contains(file_name@),
            res is Ok ==> final(self)@ == (DatabaseView {
                files: old(self)@.files.remove(
                    first_position(file_names(old(self)@.files), file_name@, 0),
                ),
                connections: old(self)@.connections.filter(other_file(file_name@)),
                ..old(self)@
            }),
            res matches Err(message) ==> final(self)@ == old(self)@ && message@
                == missing_file_message(file_name@),
    {
        let at = find_file(&self.files, &file_name);
        proof {
            lemma_first_position(file_names(self@.files), file_name@, 0);
        }
        if at < self.files.len() {
            self.files.remove(at);
            assert(self@.files =~= old(self)@.files.remove(at as int));
            self.connections = without_file(&self.connections, &file_name);
            Ok(())
        } else {
            Err("Couldnt find file with name: ".to_owned().concat(file_name.as_str()))
        }
    }
}

} // verus!
