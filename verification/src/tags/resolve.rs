//! What a filter matches: the files of a store that it selects, and what
//! holds of them.

use super::db::DatabaseView;
use super::grammar::{lemma_no_tokens, parse_outcome};
use super::types::{ConnectionView, StoredFileView, TagFilterView};
use vstd::prelude::*;

verus! {

/// The names of the files, in store order.
pub open spec fn file_names(files: Seq<StoredFileView>) -> Seq<Seq<char>> {
    files.map_values(|file: StoredFileView| file.name)
}

/// Some connection ties the file named `file` to a tag that the filter
/// selects.
pub open spec fn carries_selected(
    filter: TagFilterView,
    connections: Seq<ConnectionView>,
    file: Seq<char>,
) -> bool {
    exists|i: int|
        0 <= i < connections.len() && (#[trigger] connections[i]).file_name == file
            && filter.selects(connections[i].tag_name)
}

/// The test that a filter which is not empty puts to each file.
pub open spec fn is_matched(filter: TagFilterView, connections: Seq<ConnectionView>) -> spec_fn(
    StoredFileView,
) -> bool {
    |file: StoredFileView| carries_selected(filter, connections, file.name)
}

/// The files that a filter matches, in store order. An empty filter
/// matches every file. Any other matches the files tied to a tag that is
/// allowed and not denied. The pairs of parent and child do not narrow the
/// result: a connection names a tag only, so the store holds nothing to
/// hold a child against.
pub open spec fn resolve(
    filter: TagFilterView,
    files: Seq<StoredFileView>,
    connections: Seq<ConnectionView>,
) -> Seq<StoredFileView> {
    if filter.is_empty() {
        files
    } else {
        files.filter(is_matched(filter, connections))
    }
}

/// An empty filter matches every file, in store order.
pub proof fn lemma_empty_filter_matches_all(
    filter: TagFilterView,
    files: Seq<StoredFileView>,
    connections: Seq<ConnectionView>,
)
    requires
        filter.is_empty(),
    ensures
        resolve(filter, files, connections) == files,
{
}

/// A query without tokens parses to a filter that matches every file, in
/// store order.
pub proof fn lemma_empty_query_matches_all(
    files: Seq<StoredFileView>,
    connections: Seq<ConnectionView>,
)
    ensures
        parse_outcome(Seq::empty()) matches Ok(filter) && filter.is_empty() && resolve(
            filter,
            files,
            connections,
        ) == files,
{
    lemma_no_tokens(Seq::empty());
}

/// What a filter that is not empty matches, exactly: the files of the
/// store that are tied to a tag that is allowed and not denied.
pub proof fn lemma_matched_exactly(
    filter: TagFilterView,
    files: Seq<StoredFileView>,
    connections: Seq<ConnectionView>,
    file: StoredFileView,
)
    requires
        !filter.is_empty(),
    ensures
        resolve(filter, files, connections).contains(file) <==> files.contains(file)
            && carries_selected(filter, connections, file.name),
{
    let test = is_matched(filter, connections);
    let found = files.filter(test);
    if found.contains(file) {
        let k = choose|k: int| 0 <= k < found.len() && found[k] == file;
        files.lemma_filter_pred(test, k);
        files.lemma_filter_contains_rev(test, file);
    }
    if files.contains(file) && carries_selected(filter, connections, file.name) {
        let k = choose|k: int| 0 <= k < files.len() && files[k] == file;
        files.lemma_filter_contains(test, k);
    }
}

/// A filter that is not empty and allows no tag matches no file.
pub proof fn lemma_nothing_allowed_matches_nothing(
    filter: TagFilterView,
    files: Seq<StoredFileView>,
    connections: Seq<ConnectionView>,
)
    requires
        !filter.is_empty(),
        filter.allowed_tags.len() == 0,
    ensures
        resolve(filter, files, connections).len() == 0,
{
    if resolve(filter, files, connections).len() > 0 {
        files.lemma_filter_pred(is_matched(filter, connections), 0);
    }
}

/// A filter that is not empty matches a file of the store that is tied to
/// an allowed tag and to no denied tag.
pub proof fn lemma_allowed_file_matched(
    filter: TagFilterView,
    files: Seq<StoredFileView>,
    connections: Seq<ConnectionView>,
    at: int,
)
    requires
        !filter.is_empty(),
        0 <= at < files.len(),
        exists|i: int|
            0 <= i < connections.len() && (#[trigger] connections[i]).file_name == files[at].name
                && filter.allowed_tags.contains(connections[i].tag_name),
        forall|i: int|
            0 <= i < connections.len() && (#[trigger] connections[i]).file_name == files[at].name
                ==> !filter.denied_tags.contains(connections[i].tag_name),
    ensures
        resolve(filter, files, connections).contains(files[at]),
{
    let i = choose|i: int|
        0 <= i < connections.len() && (#[trigger] connections[i]).file_name == files[at].name
            && filter.allowed_tags.contains(connections[i].tag_name);
    assert(filter.selects(connections[i].tag_name));
    assert(carries_selected(filter, connections, files[at].name));
    files.lemma_filter_contains(is_matched(filter, connections), at);
}

/// Denial wins. A filter that is not empty matches no file of a name that
/// is tied to a denied tag, and to an allowed tag only where that tag is
/// denied too.
pub proof fn lemma_denied_file_left_out(
    filter: TagFilterView,
    files: Seq<StoredFileView>,
    connections: Seq<ConnectionView>,
    file: Seq<char>,
)
    requires
        !filter.is_empty(),
        exists|i: int|
            0 <= i < connections.len() && (#[trigger] connections[i]).file_name == file
                && filter.denied_tags.contains(connections[i].tag_name),
        forall|i: int|
            0 <= i < connections.len() && (#[trigger] connections[i]).file_name == file
                && filter.allowed_tags.contains(connections[i].tag_name)
                ==> filter.denied_tags.contains(connections[i].tag_name),
    ensures
        !file_names(resolve(filter, files, connections)).contains(file),
{
    let found = resolve(filter, files, connections);
    if file_names(found).contains(file) {
        let k = choose|k: int| 0 <= k < found.len() && file_names(found)[k] == file;
        files.lemma_filter_pred(is_matched(filter, connections), k);
        assert(carries_selected(filter, connections, found[k].name));
    }
}

/// The pairs of parent and child do not narrow a match: two filters that
/// are not empty and agree on the allowed and on the denied tags match the
/// same files.
pub proof fn lemma_children_do_not_narrow(
    filter: TagFilterView,
    other: TagFilterView,
    files: Seq<StoredFileView>,
    connections: Seq<ConnectionView>,
)
    requires
        !filter.is_empty(),
        !other.is_empty(),
        filter.allowed_tags == other.allowed_tags,
        filter.denied_tags == other.denied_tags,
    ensures
        resolve(filter, files, connections) == resolve(other, files, connections),
{
    assert forall|file: StoredFileView|
        #[trigger] carries_selected(filter, connections, file.name) == carries_selected(
            other,
            connections,
            file.name,
        ) by {
        if carries_selected(filter, connections, file.name) {
            let i = choose|i: int|
                0 <= i < connections.len() && (#[trigger] connections[i]).file_name == file.name
                    && filter.selects(connections[i].tag_name);
            assert(other.selects(connections[i].tag_name));
        }
        if carries_selected(other, connections, file.name) {
            let i = choose|i: int|
                0 <= i < connections.len() && (#[trigger] connections[i]).file_name == file.name
                    && other.selects(connections[i].tag_name);
            assert(filter.selects(connections[i].tag_name));
        }
    }
    assert(is_matched(filter, connections) =~= is_matched(other, connections));
}

/// A tag that is denied is not selected, allowed or not.
pub proof fn lemma_denial_wins(filter: TagFilterView, tag: Seq<char>)
    requires
        filter.denied_tags.contains(tag),
    ensures
        !filter.selects(tag),
{
}

/// What passes a test once passes it again.
proof fn lemma_filter_twice<A>(items: Seq<A>, test: spec_fn(A) -> bool)
    ensures
        items.filter(test).filter(test) == items.filter(test),
    decreases items.len(),
{
    if items.len() == 0 {
        reveal(Seq::filter);
    } else {
        let rest = items.drop_last();
        let last = items.last();
        assert(items =~= rest.push(last));
        lemma_filter_twice(rest, test);
        rest.lemma_filter_push(last, test);
        if test(last) {
            rest.filter(test).lemma_filter_push(last, test);
        }
    }
}

/// Resolving a filter twice against one store gives the same files in the
/// same order both times.
pub proof fn lemma_resolve_repeats(
    filter: TagFilterView,
    store: DatabaseView,
    first: Seq<StoredFileView>,
    second: Seq<StoredFileView>,
)
    requires
        first == resolve(filter, store.files, store.connections),
        second == resolve(filter, store.files, store.connections),
    ensures
        first == second,
{
}

/// Resolving a filter against the files that it matched, with the same
/// connections, gives all of them back in the same order.
pub proof fn lemma_resolve_again(
    filter: TagFilterView,
    files: Seq<StoredFileView>,
    connections: Seq<ConnectionView>,
)
    ensures
        resolve(filter, resolve(filter, files, connections), connections) == resolve(
            filter,
            files,
            connections,
        ),
{
    if !filter.is_empty() {
        lemma_filter_twice(files, is_matched(filter, connections));
    }
}

} // verus!
