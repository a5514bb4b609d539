//! The parser of queries: from the strings of a query to a filter, as the
//! grammar says.

use super::grammar::{
    add_token, child_chain, child_entries, child_pairs, first_entry, first_index, first_slash,
    is_denied, is_reserved, is_sign, lemma_child_pairs_concat, lemma_child_pairs_none,
    lemma_child_pairs_single, lemma_entry_bounds, lemma_fault_stays, merge_tokens, next_sign,
    parent_segment, parse_outcome, parse_token, reserved_character_message, strip_sign,
    with_children, ParseFault,
};
use super::types::{TagFilter, TagFilterView};
use vstd::prelude::*;

verus! {

/// The characters of `s`, in order.
fn chars_of(s: &str) -> (out: Vec<char>)
    ensures
        out@ == s@,
{
    broadcast use vstd::string::group_string_axioms;

    let mut out: Vec<char> = Vec::new();
    for c in it: s.chars()
        invariant
            it.seq() == s@,
            out@ == s@.take(it.index() as int),
    {
        out.push(c);
        assert(out@ =~= s@.take(it.index() + 1));
    }
    assert(out@ =~= s@);
    out
}

fn find_slash(chars: &Vec<char>) -> (at: usize)
    ensures
        at == first_slash(chars@),
        at <= chars.len(),
{
    let mut i: usize = 0;
    while i < chars.len()
        invariant
            i <= chars.len(),
            first_slash(chars@) == first_index(chars@, i as int, |c: char| c == '/'),
        decreases chars.len() - i,
    {
        if chars[i] == '/' {
            return i;
        }
        i += 1;
    }
    i
}

fn find_sign(chars: &Vec<char>, from: usize) -> (at: usize)
    requires
        from <= chars.len(),
    ensures
        at == next_sign(chars@, from as int),
        from <= at <= chars.len(),
{
    let mut i: usize = from;
    while i < chars.len()
        invariant
            from <= i <= chars.len(),
            next_sign(chars@, from as int) == first_index(chars@, i as int, |c: char| is_sign(c)),
        decreases chars.len() - i,
    {
        if chars[i] == '+' || chars[i] == '=' {
            return i;
        }
        i += 1;
    }
    i
}

/// Adds the entries of the child chain `children_tag_string` to `filter`, as
/// pairs with `parent_tag_string`. An empty chain is a fault, and leaves
/// the filter as it was.
pub fn do_child_tags_recursive(
    filter: &mut TagFilter,
    children_tag_string: &str,
    parent_tag_string: &str,
) -> (res: Result<(), ParseFault>)
    ensures
        children_tag_string@.len() == 0 ==> final(filter)@ == old(filter)@ && res == Err::<
            (),
            ParseFault,
        >(ParseFault::MissingChild),
        children_tag_string@.len() > 0 ==> res is Ok && final(filter)@ == with_children(
            old(filter)@,
            parent_tag_string@,
            child_entries(children_tag_string@),
        ),
    decreases children_tag_string@.len(),
{
    let chars = chars_of(children_tag_string);
    let n = chars.len();
    if n == 0 {
        return Err(ParseFault::MissingChild);
    }
    let ghost chain = children_tag_string@;
    let ghost before = filter@;
    let positive = chars[0] != '=';
    let start: usize = if chars[0] == '+' || chars[0] == '=' {
        1
    } else {
        0
    };
    let end = find_sign(&chars, start);
    let name = children_tag_string.substring_char(start, end).to_owned();
    let parent = parent_tag_string.to_owned();
    proof {
        lemma_entry_bounds(chain);
        lemma_child_pairs_single(parent_tag_string@, first_entry(chain), true);
        lemma_child_pairs_single(parent_tag_string@, first_entry(chain), false);
    }
    if positive {
        filter.allowed_child_tags.push((parent, name));
    } else {
        filter.denied_child_tags.push((parent, name));
    }
    let ghost middle = filter@;
    assert(middle == with_children(before, parent_tag_string@, seq![first_entry(chain)])) by {
        assert(middle.allowed_child_tags =~= before.allowed_child_tags
            + child_pairs(parent_tag_string@, seq![first_entry(chain)], true));
        assert(middle.denied_child_tags =~= before.denied_child_tags
            + child_pairs(parent_tag_string@, seq![first_entry(chain)], false));
    }
    let ghost rest = chain.skip(end as int);
    proof {
        lemma_child_pairs_concat(
            parent_tag_string@,
            seq![first_entry(chain)],
            child_entries(rest),
            true,
        );
        lemma_child_pairs_concat(
            parent_tag_string@,
            seq![first_entry(chain)],
            child_entries(rest),
            false,
        );
    }
    if end < n {
        let remainder = children_tag_string.substring_char(end, n);
        assert(remainder@ == rest);
        let _ = do_child_tags_recursive(filter, remainder, parent_tag_string);
        assert(filter@.allowed_child_tags =~= before.allowed_child_tags + child_pairs(
            parent_tag_string@,
            child_entries(chain),
            true,
        ));
        assert(filter@.denied_child_tags =~= before.denied_child_tags + child_pairs(
            parent_tag_string@,
            child_entries(chain),
            false,
        ));
    } else {
        assert(child_entries(rest) =~= Seq::empty());
        assert(child_entries(chain) =~= seq![first_entry(chain)]);
    }
    Ok(())
}

/// Adds what the token `tag_string` says to `filter`. A token that is
/// refused leaves the filter as it was.
pub fn do_tag_parsing(filter: &mut TagFilter, tag_string: &String) -> (res: Result<
    (),
    ParseFault,
>)
    ensures
        match parse_token(tag_string@) {
            Ok(parts) => res is Ok && final(filter)@ == add_token(old(filter)@, parts),
            Err(fault) => final(filter)@ == old(filter)@ && res == Err::<(), ParseFault>(fault),
        },
{
    let text = tag_string.as_str();
    let chars = chars_of(text);
    let n = chars.len();
    let slash = find_slash(&chars);
    let ghost token = tag_string@;
    let ghost before = filter@;
    let denied = slash > 0 && chars[0] == '=';
    let name_start: usize = if slash > 0 && (chars[0] == '+' || chars[0] == '=') {
        1
    } else {
        0
    };
    let parent = text.substring_char(name_start, slash);
    assert(parent@ =~= strip_sign(parent_segment(token)));
    assert(denied == is_denied(parent_segment(token)));
    if slash < n {
        if slash + 1 == n {
            return Err(ParseFault::MissingChild);
        }
        if denied {
            return Err(ParseFault::DeniedParent);
        }
        let chain = text.substring_char(slash + 1, n);
        assert(chain@ =~= child_chain(token));
        let _ = do_child_tags_recursive(filter, chain, parent);
    } else {
        proof {
            lemma_child_pairs_none(parent@, true);
            lemma_child_pairs_none(parent@, false);
            assert(filter@.allowed_child_tags + Seq::empty() =~= filter@.allowed_child_tags);
            assert(filter@.denied_child_tags + Seq::empty() =~= filter@.denied_child_tags);
        }
    }
    if denied {
        filter.denied_tags.push(parent.to_owned());
        assert(filter@.denied_tags =~= before.denied_tags.push(parent@));
    } else {
        filter.allowed_tags.push(parent.to_owned());
        assert(filter@.allowed_tags =~= before.allowed_tags.push(parent@));
    }
    Ok(())
}

/// Parses a query, one token per string, into a filter. The tokens are
/// parsed one by one and merged in order. The query is refused, without a
/// filter, where a token is refused or where the merged filter denies a
/// tag that it also refines.
pub fn parse_filter(tags: &Vec<String>) -> (res: Result<TagFilter, ParseFault>)
    ensures
        match parse_outcome(tags.deep_view()) {
            Ok(filter) => res matches Ok(parsed) && parsed@ == filter,
            Err(fault) => res matches Err(found) && found == fault,
        },
        res matches Ok(parsed) ==> parsed@.consistent(),
{
    let ghost tokens = tags.deep_view();
    let mut filter = TagFilter::new();
    let mut i: usize = 0;
    assert(tokens.take(0) =~= Seq::empty());
    while i < tags.len()
        invariant
            i <= tags.len(),
            tokens == tags.deep_view(),
            merge_tokens(tokens.take(i as int)) == Ok::<TagFilterView, ParseFault>(filter@),
        decreases tags.len() - i,
    {
        assert(tokens.take(i + 1).drop_last() =~= tokens.take(i as int));
        assert(tokens.take(i + 1).last() == tags[i as int]@);
        if let Err(fault) = do_tag_parsing(&mut filter, &tags[i]) {
            proof {
                lemma_fault_stays(tokens, i + 1);
            }
            return Err(fault);
        }
        i += 1;
    }
    assert(tokens.take(i as int) =~= tokens);
    if !filter.is_consistent() {
        return Err(ParseFault::DeniedParent);
    }
    Ok(filter)
}

/// Parses a query as `parse_filter` does, and reports a fault in words.
pub fn parse_tags(tags: &Vec<String>) -> (res: Result<TagFilter, String>)
    ensures
        match parse_outcome(tags.deep_view()) {
            Ok(filter) => res matches Ok(parsed) && parsed@ == filter,
            Err(fault) => res matches Err(message) && message@ == fault.message(),
        },
        res matches Ok(parsed) ==> parsed@.consistent(),
{
    match parse_filter(tags) {
        Ok(filter) => Ok(filter),
        Err(fault) => Err(fault.describe()),
    }
}

/// Accepts the name of a new tag where it holds no reserved character.
pub fn check_tag_name(name: &str) -> (res: Result<(), String>)
    ensures
        res is Ok <==> forall|i: int| 0 <= i < name@.len() ==> !is_reserved(#[trigger] name@[i]),
        res matches Err(message) ==> message@ == reserved_character_message(),
{
    let chars = chars_of(name);
    let mut i: usize = 0;
    while i < chars.len()
        invariant
            i <= chars.len(),
            chars@ == name@,
            forall|k: int| 0 <= k < i ==> !is_reserved(#[trigger] name@[k]),
        decreases chars.len() - i,
    {
        let c = chars[i];
        if c == '/' || c == '+' || c == '-' || c == ' ' {
            return Err("tag names cannot contain '/', '+', '-' or whitespace".to_owned());
        }
        i += 1;
    }
    Ok(())
}

} // verus!
