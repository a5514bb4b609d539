//! The query language, as a function from the characters of a query to
//! the filter that it stands for.
//!
//! ```text
//! token       := [ "+" | "=" ] parent-name [ "/" child-entry+ ]
//! child-entry := [ "+" | "=" ] child-name
//! ```
//!
//! `+` allows and `=` denies; a name without a sign is allowed. The parent
//! ends at the first `/`. A child name ends at the next sign, which
//! belongs to the entry behind it, or at the end of the token.

use super::types::TagFilterView;
use vstd::prelude::*;

verus! {

/// One of the two characters that give a name its sign.
pub open spec fn is_sign(c: char) -> bool {
    c == '+' || c == '='
}

/// The first position at or after `from` whose character meets `stop`, or
/// the length of `s` where none does.
pub open spec fn first_index(s: Seq<char>, from: int, stop: spec_fn(char) -> bool) -> int
    recommends
        0 <= from,
    decreases s.len() - from,
{
    if from >= s.len() {
        s.len() as int
    } else if stop(s[from]) {
        from
    } else {
        first_index(s, from + 1, stop)
    }
}

/// `first_index` finds the first such position: nothing before it meets
/// `stop`, and the character at it does, unless it is the end.
pub proof fn lemma_first_index(s: Seq<char>, from: int, stop: spec_fn(char) -> bool)
    requires
        0 <= from <= s.len(),
    ensures
        from <= first_index(s, from, stop) <= s.len(),
        forall|j: int| from <= j < first_index(s, from, stop) ==> !stop(#[trigger] s[j]),
        first_index(s, from, stop) < s.len() ==> stop(s[first_index(s, from, stop)]),
    decreases s.len() - from,
{
    if from < s.len() && !stop(s[from]) {
        lemma_first_index(s, from + 1, stop);
    }
}

/// The position of the first `/` of a token, or its length.
pub open spec fn first_slash(token: Seq<char>) -> int {
    first_index(token, 0, |c: char| c == '/')
}

/// The position of the first sign at or after `from`, or the length.
pub open spec fn next_sign(chain: Seq<char>, from: int) -> int {
    first_index(chain, from, |c: char| is_sign(c))
}

/// One entry of a child chain: its sign and its name.
pub struct ChildEntry {
    pub allowed: bool,
    pub name: Seq<char>,
}

/// Where the name of a chain's first entry starts: behind its sign, if it
/// has one.
pub open spec fn entry_start(chain: Seq<char>) -> int {
    if chain.len() > 0 && is_sign(chain[0]) {
        1
    } else {
        0
    }
}

/// Where the name of a chain's first entry ends: at the next sign, or at
/// the end of the chain.
pub open spec fn entry_end(chain: Seq<char>) -> int {
    next_sign(chain, entry_start(chain))
}

/// The first entry of a chain that is not empty. It is denied only where
/// the chain begins with `=`.
pub open spec fn first_entry(chain: Seq<char>) -> ChildEntry
    recommends
        chain.len() > 0,
{
    ChildEntry {
        allowed: chain[0] != '=',
        name: chain.subrange(entry_start(chain), entry_end(chain)),
    }
}

/// The entries of a child chain, in order. The sign that ends one name
/// belongs to the next entry.
pub open spec fn child_entries(chain: Seq<char>) -> Seq<ChildEntry>
    decreases chain.len(),
    via child_entries_decreases
{
    if chain.len() == 0 {
        Seq::empty()
    } else {
        seq![first_entry(chain)] + child_entries(chain.skip(entry_end(chain)))
    }
}

#[via_fn]
proof fn child_entries_decreases(chain: Seq<char>) {
    if chain.len() > 0 {
        lemma_entry_bounds(chain);
    }
}

/// The first entry of a chain that is not empty takes at least one
/// character of it.
pub proof fn lemma_entry_bounds(chain: Seq<char>)
    requires
        chain.len() > 0,
    ensures
        0 <= entry_start(chain) <= entry_end(chain) <= chain.len(),
        0 < entry_end(chain),
{
    lemma_first_index(chain, entry_start(chain), |c: char| is_sign(c));
}

/// The pairs that the entries of one sign make with their parent, in order.
pub open spec fn child_pairs(parent: Seq<char>, entries: Seq<ChildEntry>, allowed: bool) -> Seq<
    (Seq<char>, Seq<char>),
> {
    entries.filter(|e: ChildEntry| e.allowed == allowed).map_values(
        |e: ChildEntry| (parent, e.name),
    )
}

/// The pairs of two runs of entries are those of the first run, then
/// those of the second.
pub proof fn lemma_child_pairs_concat(
    parent: Seq<char>,
    first: Seq<ChildEntry>,
    second: Seq<ChildEntry>,
    allowed: bool,
)
    ensures
        child_pairs(parent, first + second, allowed) == child_pairs(parent, first, allowed)
            + child_pairs(parent, second, allowed),
{
    Seq::filter_distributes_over_add(first, second, |e: ChildEntry| e.allowed == allowed);
    assert(child_pairs(parent, first + second, allowed) =~= child_pairs(parent, first, allowed)
        + child_pairs(parent, second, allowed));
}

/// The pairs of a single entry: itself under its parent where its sign is
/// the one asked for, nothing otherwise.
pub proof fn lemma_child_pairs_single(parent: Seq<char>, entry: ChildEntry, allowed: bool)
    ensures
        child_pairs(parent, seq![entry], allowed) == if entry.allowed == allowed {
            seq![(parent, entry.name)]
        } else {
            Seq::empty()
        },
{
    let keep = |e: ChildEntry| e.allowed == allowed;
    Seq::<ChildEntry>::empty().lemma_filter_push(entry, keep);
    assert(Seq::<ChildEntry>::empty().push(entry) =~= seq![entry]);
    assert(Seq::<ChildEntry>::empty().filter(keep) =~= Seq::empty()) by {
        reveal(Seq::filter);
    }
    assert(child_pairs(parent, seq![entry], allowed) =~= if entry.allowed == allowed {
        seq![(parent, entry.name)]
    } else {
        Seq::empty()
    });
}

/// A filter to which the entries of a child chain under `parent` were added.
pub open spec fn with_children(
    filter: TagFilterView,
    parent: Seq<char>,
    entries: Seq<ChildEntry>,
) -> TagFilterView {
    TagFilterView {
        allowed_tags: filter.allowed_tags,
        denied_tags: filter.denied_tags,
        allowed_child_tags: filter.allowed_child_tags + child_pairs(parent, entries, true),
        denied_child_tags: filter.denied_child_tags + child_pairs(parent, entries, false),
    }
}

/// No entries make no pairs.
pub proof fn lemma_child_pairs_none(parent: Seq<char>, allowed: bool)
    ensures
        child_pairs(parent, Seq::empty(), allowed) == Seq::<(Seq<char>, Seq<char>)>::empty(),
{
    reveal(Seq::filter);
    assert(child_pairs(parent, Seq::empty(), allowed) =~= Seq::empty());
}

/// What is reported for a `/` that no child follows.
pub open spec fn missing_child_message() -> Seq<char> {
    "Expected another child tag"@
}

/// What is reported for a denied parent tag that has children.
pub open spec fn denied_parent_message() -> Seq<char> {
    "having a denied parent tag with child tags to check for is kind of useless/contradictory"@
}

/// Why a query is refused.
#[derive(Debug, Clone, Copy, PartialEq, Eq)]
pub enum ParseFault {
    /// A token ends in `/`, with no child behind it.
    MissingChild,
    /// A tag is denied outright and refined by children at once.
    DeniedParent,
}

impl ParseFault {
    /// The words in which the fault is reported.
    pub open spec fn message(self) -> Seq<char> {
        match self {
            ParseFault::MissingChild => missing_child_message(),
            ParseFault::DeniedParent => denied_parent_message(),
        }
    }

    /// The words in which the fault is reported, as a string.
    pub fn describe(&self) -> (res: String)
        ensures
            res@ == self.message(),
    {
        match self {
            ParseFault::MissingChild => "Expected another child tag".to_owned(),
            ParseFault::DeniedParent => "having a denied parent tag with child tags to check for is kind of useless/contradictory".to_owned(),
        }
    }
}

/// What one token says: its parent tag, whether that tag is denied, and
/// the entries of its child chain.
pub struct TokenParts {
    pub denied: bool,
    pub parent: Seq<char>,
    pub children: Seq<ChildEntry>,
}

/// Whether a token holds a `/`, and with it a child chain.
pub open spec fn has_slash(token: Seq<char>) -> bool {
    first_slash(token) < token.len()
}

/// The part of a token before its first `/`: the parent tag with its sign.
pub open spec fn parent_segment(token: Seq<char>) -> Seq<char> {
    token.subrange(0, first_slash(token))
}

/// The part of a token behind its first `/`.
pub open spec fn child_chain(token: Seq<char>) -> Seq<char>
    recommends
        has_slash(token),
{
    token.skip(first_slash(token) + 1)
}

/// A parent segment denies its tag where it begins with `=`.
pub open spec fn is_denied(segment: Seq<char>) -> bool {
    segment.len() > 0 && segment[0] == '='
}

/// A name without the sign in front of it, if it has one.
pub open spec fn strip_sign(segment: Seq<char>) -> Seq<char> {
    if segment.len() > 0 && is_sign(segment[0]) {
        segment.skip(1)
    } else {
        segment
    }
}

/// What one token says, or why it is refused. A `/` that nothing follows
/// is reported before a denied parent with children is.
pub open spec fn parse_token(token: Seq<char>) -> Result<TokenParts, ParseFault> {
    let segment = parent_segment(token);
    if !has_slash(token) {
        Ok(
            TokenParts {
                denied: is_denied(segment),
                parent: strip_sign(segment),
                children: Seq::empty(),
            },
        )
    } else if child_chain(token).len() == 0 {
        Err(ParseFault::MissingChild)
    } else if is_denied(segment) {
        Err(ParseFault::DeniedParent)
    } else {
        Ok(
            TokenParts {
                denied: false,
                parent: strip_sign(segment),
                children: child_entries(child_chain(token)),
            },
        )
    }
}

/// A filter to which what one token says was added: its parent to the
/// allowed or the denied tags, its children to the pairs.
pub open spec fn add_token(filter: TagFilterView, parts: TokenParts) -> TagFilterView {
    let refined = with_children(filter, parts.parent, parts.children);
    TagFilterView {
        allowed_tags: if parts.denied {
            filter.allowed_tags
        } else {
            filter.allowed_tags.push(parts.parent)
        },
        denied_tags: if parts.denied {
            filter.denied_tags.push(parts.parent)
        } else {
            filter.denied_tags
        },
        allowed_child_tags: refined.allowed_child_tags,
        denied_child_tags: refined.denied_child_tags,
    }
}

/// The tokens of a query merged into one filter, in order, or the fault of
/// the first token that has one.
pub open spec fn merge_tokens(tokens: Seq<Seq<char>>) -> Result<TagFilterView, ParseFault>
    decreases tokens.len(),
{
    if tokens.len() == 0 {
        Ok(TagFilterView::empty())
    } else {
        match merge_tokens(tokens.drop_last()) {
            Err(fault) => Err(fault),
            Ok(filter) => match parse_token(tokens.last()) {
                Err(fault) => Err(fault),
                Ok(parts) => Ok(add_token(filter, parts)),
            },
        }
    }
}

/// What a query parses to: the merged filter where every token is well
/// formed and no tag is both denied and refined, else the fault.
pub open spec fn parse_outcome(tokens: Seq<Seq<char>>) -> Result<TagFilterView, ParseFault> {
    match merge_tokens(tokens) {
        Err(fault) => Err(fault),
        Ok(filter) => if filter.consistent() {
            Ok(filter)
        } else {
            Err(ParseFault::DeniedParent)
        },
    }
}

/// A fault among the first tokens of a query is the fault of the query.
pub proof fn lemma_fault_stays(tokens: Seq<Seq<char>>, upto: int)
    requires
        0 <= upto <= tokens.len(),
        merge_tokens(tokens.take(upto)) is Err,
    ensures
        merge_tokens(tokens) == merge_tokens(tokens.take(upto)),
    decreases tokens.len() - upto,
{
    if upto < tokens.len() {
        assert(tokens.take(upto + 1).drop_last() =~= tokens.take(upto));
        lemma_fault_stays(tokens, upto + 1);
    } else {
        assert(tokens.take(upto) =~= tokens);
    }
}

/// A query without tokens parses to the empty filter.
pub proof fn lemma_no_tokens(tokens: Seq<Seq<char>>)
    requires
        tokens.len() == 0,
    ensures
        parse_outcome(tokens) == Ok::<TagFilterView, ParseFault>(TagFilterView::empty()),
{
}

/// A filter that a query parses to denies no tag that it refines.
pub proof fn lemma_parsed_is_consistent(tokens: Seq<Seq<char>>)
    ensures
        parse_outcome(tokens) matches Ok(filter) ==> filter.consistent(),
{
}

/// A query with a token that is refused is refused as a whole.
pub proof fn lemma_refused_token(tokens: Seq<Seq<char>>, at: int)
    requires
        0 <= at < tokens.len(),
        parse_token(tokens[at]) is Err,
    ensures
        parse_outcome(tokens) is Err,
{
    assert(tokens.take(at + 1).last() == tokens[at]);
    lemma_fault_stays(tokens, at + 1);
}

/// A token whose first `/` is its last character is refused for want of a
/// child, whatever its parent.
pub proof fn lemma_trailing_slash(token: Seq<char>)
    requires
        token.len() > 0,
        first_slash(token) == token.len() - 1,
    ensures
        parse_token(token) == Err::<TokenParts, ParseFault>(ParseFault::MissingChild),
{
}

/// A token that denies its parent and has a child behind its `/` is
/// refused.
pub proof fn lemma_denied_parent_with_child(token: Seq<char>)
    requires
        token.len() > 0,
        token[0] == '=',
        first_slash(token) < token.len() - 1,
    ensures
        parse_token(token) == Err::<TokenParts, ParseFault>(ParseFault::DeniedParent),
{
    lemma_first_index(token, 0, |c: char| c == '/');
}

/// The sign that allows or denies.
pub open spec fn sign_of(allowed: bool) -> char {
    if allowed {
        '+'
    } else {
        '='
    }
}

/// A chain written out: each entry as its sign and its name, one behind
/// the other.
pub open spec fn render_chain(entries: Seq<ChildEntry>) -> Seq<char>
    decreases entries.len(),
{
    if entries.len() == 0 {
        Seq::empty()
    } else {
        seq![sign_of(entries.first().allowed)] + entries.first().name + render_chain(
            entries.drop_first(),
        )
    }
}

/// What a token says, written out with every sign: the parent, and behind
/// a `/` its children, if it has any.
pub open spec fn render_token(parts: TokenParts) -> Seq<char> {
    let parent = seq![sign_of(!parts.denied)] + parts.parent;
    if parts.children.len() == 0 {
        parent
    } else {
        parent + seq!['/'] + render_chain(parts.children)
    }
}

/// No name of these entries holds a sign.
pub open spec fn names_hold_no_sign(entries: Seq<ChildEntry>) -> bool {
    forall|k: int, i: int|
        0 <= k < entries.len() && 0 <= i < entries[k].name.len() ==> !is_sign(
            #[trigger] entries[k].name[i],
        )
}

/// What a token can say: a parent without `/`, children whose names hold
/// no sign, and no children under a denied parent.
pub open spec fn is_sayable(parts: TokenParts) -> bool {
    &&& forall|i: int| 0 <= i < parts.parent.len() ==> parts.parent[i] != '/'
    &&& names_hold_no_sign(parts.children)
    &&& parts.denied ==> parts.children.len() == 0
}

/// Where nothing from `from` up to `to` meets `stop`, the search from
/// `from` finds what the search from `to` finds.
pub proof fn lemma_first_index_skips(
    s: Seq<char>,
    from: int,
    to: int,
    stop: spec_fn(char) -> bool,
)
    requires
        0 <= from <= to <= s.len(),
        forall|j: int| from <= j < to ==> !stop(#[trigger] s[j]),
    ensures
        first_index(s, from, stop) == first_index(s, to, stop),
    decreases to - from,
{
    if from < to {
        lemma_first_index_skips(s, from + 1, to, stop);
    }
}

/// A chain that is written out and read again gives the entries it was
/// written from.
pub proof fn lemma_chain_round_trip(entries: Seq<ChildEntry>)
    requires
        names_hold_no_sign(entries),
    ensures
        child_entries(render_chain(entries)) == entries,
    decreases entries.len(),
{
    if entries.len() > 0 {
        let head = entries.first();
        let tail = entries.drop_first();
        let rest = render_chain(tail);
        let chain = render_chain(entries);
        let end: int = head.name.len() as int + 1;
        assert(chain =~= seq![sign_of(head.allowed)] + head.name + rest);
        assert forall|j: int| 1 <= j < end implies !is_sign(#[trigger] chain[j]) by {
            assert(chain[j] == entries[0].name[j - 1]);
        }
        lemma_first_index_skips(chain, 1, end, |c: char| is_sign(c));
        if tail.len() > 0 {
            assert(rest[0] == sign_of(tail.first().allowed));
            assert(chain[end] == rest[0]);
        }
        assert(entry_end(chain) == end);
        assert(first_entry(chain).name =~= head.name);
        assert(first_entry(chain) == head);
        assert(chain.skip(end) =~= rest);
        assert(names_hold_no_sign(tail)) by {
            assert forall|k: int, i: int|
                0 <= k < tail.len() && 0 <= i < tail[k].name.len() implies !is_sign(
                #[trigger] tail[k].name[i],
            ) by {
                assert(tail[k] == entries[k + 1]);
                assert(!is_sign(entries[k + 1].name[i]));
            }
        }
        lemma_chain_round_trip(tail);
        assert(seq![head] + tail =~= entries);
    }
}

/// Whatever a token can say can be written as a token, and that token
/// says it again.
pub proof fn lemma_token_round_trip(parts: TokenParts)
    requires
        is_sayable(parts),
    ensures
        parse_token(render_token(parts)) == Ok::<TokenParts, ParseFault>(parts),
{
    let token = render_token(parts);
    let slash: int = parts.parent.len() as int + 1;
    let is_slash = |c: char| c == '/';
    assert forall|j: int| 0 <= j < slash implies !is_slash(#[trigger] token[j]) by {
        if j > 0 {
            assert(token[j] == parts.parent[j - 1]);
        }
    }
    lemma_first_index_skips(token, 0, slash, is_slash);
    let segment = parent_segment(token);
    if parts.children.len() == 0 {
        assert(first_slash(token) == token.len());
        assert(segment =~= token);
        assert(strip_sign(segment) =~= parts.parent);
        assert(parts.children =~= Seq::empty());
    } else {
        let chain = render_chain(parts.children);
        assert(token[slash] == '/');
        assert(first_slash(token) == slash);
        assert(segment =~= seq![sign_of(!parts.denied)] + parts.parent);
        assert(strip_sign(segment) =~= parts.parent);
        assert(child_chain(token) =~= chain);
        assert(chain.len() > 0);
        lemma_chain_round_trip(parts.children);
    }
}

/// No name of the entries of a chain holds a sign.
pub proof fn lemma_entries_hold_no_sign(chain: Seq<char>)
    ensures
        names_hold_no_sign(child_entries(chain)),
    decreases chain.len(),
{
    if chain.len() > 0 {
        let head = first_entry(chain);
        let rest = child_entries(chain.skip(entry_end(chain)));
        let all = child_entries(chain);
        lemma_entry_bounds(chain);
        lemma_first_index(chain, entry_start(chain), |c: char| is_sign(c));
        lemma_entries_hold_no_sign(chain.skip(entry_end(chain)));
        assert(all =~= seq![head] + rest);
        assert forall|k: int, i: int|
            0 <= k < all.len() && 0 <= i < all[k].name.len() implies !is_sign(
            #[trigger] all[k].name[i],
        ) by {
            if k == 0 {
                assert(all[0].name[i] == chain[entry_start(chain) + i]);
            } else {
                assert(all[k] == rest[k - 1]);
                assert(!is_sign(rest[k - 1].name[i]));
            }
        }
    }
}

/// What a token says is something that a token can say.
pub proof fn lemma_parsed_is_sayable(token: Seq<char>)
    ensures
        parse_token(token) matches Ok(parts) ==> is_sayable(parts),
{
    lemma_first_index(token, 0, |c: char| c == '/');
    if has_slash(token) {
        lemma_entries_hold_no_sign(child_chain(token));
    }
}

/// A token that is read, written out with every sign and read again says
/// the same, though it need not be written the same.
pub proof fn lemma_token_reads_back(token: Seq<char>)
    ensures
        parse_token(token) matches Ok(parts) ==> parse_token(render_token(parts)) == Ok::<
            TokenParts,
            ParseFault,
        >(parts),
{
    lemma_parsed_is_sayable(token);
    if let Ok(parts) = parse_token(token) {
        lemma_token_round_trip(parts);
    }
}

/// The token written out, with every sign, from what `token` says; the
/// token itself where it says nothing.
pub open spec fn normal_form(token: Seq<char>) -> Seq<char> {
    match parse_token(token) {
        Ok(parts) => render_token(parts),
        Err(_) => token,
    }
}

/// A query whose tokens are written out in normal form parses to what the
/// query parses to.
pub proof fn lemma_query_reads_back(tokens: Seq<Seq<char>>)
    ensures
        merge_tokens(tokens.map_values(|token: Seq<char>| normal_form(token))) == merge_tokens(
            tokens,
        ),
        parse_outcome(tokens.map_values(|token: Seq<char>| normal_form(token))) == parse_outcome(
            tokens,
        ),
    decreases tokens.len(),
{
    let written = tokens.map_values(|token: Seq<char>| normal_form(token));
    if tokens.len() > 0 {
        lemma_query_reads_back(tokens.drop_last());
        assert(written.drop_last() =~= tokens.drop_last().map_values(
            |token: Seq<char>| normal_form(token),
        ));
        assert(written.last() == normal_form(tokens.last()));
        lemma_token_reads_back(tokens.last());
    }
}

/// A character that the name of a new tag may not hold.
pub open spec fn is_reserved(c: char) -> bool {
    c == '/' || c == '+' || c == '-' || c == ' '
}

/// What is reported for a tag name that holds a reserved character.
pub open spec fn reserved_character_message() -> Seq<char> {
    "tag names cannot contain '/', '+', '-' or whitespace"@
}

} // verus!
