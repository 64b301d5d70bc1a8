//! The extractor: a recursive walk of a parsed page that decides, per node,
//! whether its text is translatable prose, honoring an allow-list of tags and
//! a blacklist that overrides it.

use vstd::prelude::*;
use vstd::string::StrSliceExecFns;
use vstd::string::StringExecFns;

verus! {

/// A parsed page: elements carry a tag name and ordered children, text leaves
/// carry raw character data, and every other node kind (document root,
/// comments, doctype remnants) only passes its children through.
pub enum Node {
    Element { tag: String, children: Vec<Node> },
    Text { content: String },
    Other { children: Vec<Node> },
}

/// Whether `tag` occurs in the tag list.
pub open spec fn tag_in_list(list: Seq<Seq<char>>, tag: Seq<char>) -> bool {
    exists|i: int| 0 <= i < list.len() && list[i] == tag
}

/// Whether `s` holds a newline character.
pub open spec fn has_newline(s: Seq<char>) -> bool {
    exists|i: int| 0 <= i < s.len() && s[i] == '\n'
}

/// The text that visiting `n` appends to the buffer, given the scope context
/// the ancestor chain derived: `included` (an ancestor or this node matched
/// the allow-list, not overridden) and `blacklisted` (an ancestor matched the
/// blacklist). A text node contributes its content when the context includes
/// it, or when the content holds a newline (the block-separation safety net).
/// An element derives its children's context so that a blacklist match forces
/// `included` to false for the whole subtree.
pub open spec fn extracted(
    n: Node,
    included: bool,
    blacklisted: bool,
    allow: Seq<Seq<char>>,
    black: Seq<Seq<char>>,
) -> Seq<char>
    decreases n,
{
    match n {
        Node::Text { content } => {
            if included || has_newline(content@) {
                content@
            } else {
                Seq::<char>::empty()
            }
        },
        Node::Element { tag, children } => {
            let matches_black = tag_in_list(black, tag@);
            let child_included = (included || tag_in_list(allow, tag@)) && !(blacklisted
                || matches_black);
            let child_blacklisted = blacklisted || matches_black;
            extracted_children(children@, child_included, child_blacklisted, allow, black)
        },
        Node::Other { children } => extracted_children(
            children@,
            included,
            blacklisted,
            allow,
            black,
        ),
    }
}

/// The text that visiting each of `cs` in order appends, under one context.
pub open spec fn extracted_children(
    cs: Seq<Node>,
    included: bool,
    blacklisted: bool,
    allow: Seq<Seq<char>>,
    black: Seq<Seq<char>>,
) -> Seq<char>
    decreases cs,
{
    if cs.len() == 0 {
        Seq::<char>::empty()
    } else {
        extracted_children(cs.drop_last(), included, blacklisted, allow, black) + extracted(
            cs.last(),
            included,
            blacklisted,
            allow,
            black,
        )
    }
}

/// Whether `tag` occurs in the list, on the executable side.
fn list_contains(list: &Vec<String>, tag: &String) -> (r: bool)
    ensures
        r == tag_in_list(list.deep_view(), tag@),
{
    let mut i: usize = 0;
    while i < list.len()
        invariant
            i <= list.len(),
            forall|j: int| 0 <= j < i ==> list.deep_view()[j] != tag@,
        decreases list.len() - i,
    {
        proof {
            assert(list.deep_view()[i as int] == list@[i as int]@);
        }
        if list[i] == *tag {
            return true;
        }
        i += 1;
    }
    false
}

/// Whether `s` holds a newline character, on the executable side.
fn contains_newline(s: &str) -> (r: bool)
    ensures
        r == has_newline(s@),
{
    let len = s.unicode_len();
    let mut i: usize = 0;
    while i < len
        invariant
            i <= len,
            len == s@.len(),
            forall|j: int| 0 <= j < i ==> s@[j] != '\n',
        decreases len - i,
    {
        if s.get_char(i) == '\n' {
            return true;
        }
        i += 1;
    }
    false
}

/// Walks `n` and appends every piece of text that is in scope to `buf`, in
/// document order.
#[verifier::loop_isolation(false)]
pub fn extract_into(
    n: &Node,
    included: bool,
    blacklisted: bool,
    allow: &Vec<String>,
    black: &Vec<String>,
    buf: &mut String,
)
    ensures
        final (buf)@ == old(buf)@ + extracted(
            *n,
            included,
            blacklisted,
            allow.deep_view(),
            black.deep_view(),
        ),
    decreases *n,
{
    match n {
        Node::Text { content } => {
            if included || contains_newline(content.as_str()) {
                buf.append(content.as_str());
            }
        },
        Node::Element { tag, children } => {
            let matches_black = list_contains(black, tag);
            let child_included = (included || list_contains(allow, tag)) && !(blacklisted
                || matches_black);
            let child_blacklisted = blacklisted || matches_black;
            let mut i: usize = 0;
            while i < children.len()
                invariant
                    i <= children.len(),
                    buf@ == old(buf)@ + extracted_children(
                        children@.take(i as int),
                        child_included,
                        child_blacklisted,
                        allow.deep_view(),
                        black.deep_view(),
                    ),
                decreases children.len() - i,
            {
                proof {
                    assert(children@.take(i + 1).drop_last() =~= children@.take(i as int));
                    assert(children@.take(i + 1).last() == children@[i as int]);
                    assert(decreases_to!(*n => children@[i as int]));
                }
                extract_into(&children[i], child_included, child_blacklisted, allow, black, buf);
                i += 1;
            }
            proof {
                assert(children@.take(children@.len() as int) =~= children@);
            }
        },
        Node::Other { children } => {
            let mut i: usize = 0;
            while i < children.len()
                invariant
                    i <= children.len(),
                    buf@ == old(buf)@ + extracted_children(
                        children@.take(i as int),
                        included,
                        blacklisted,
                        allow.deep_view(),
                        black.deep_view(),
                    ),
                decreases children.len() - i,
            {
                proof {
                    assert(children@.take(i + 1).drop_last() =~= children@.take(i as int));
                    assert(children@.take(i + 1).last() == children@[i as int]);
                    assert(decreases_to!(*n => children@[i as int]));
                }
                extract_into(&children[i], included, blacklisted, allow, black, buf);
                i += 1;
            }
            proof {
                assert(children@.take(children@.len() as int) =~= children@);
            }
        },
    }
}

/// The text of every text node with a newline under `n`, in document order:
/// what the block-separation safety net keeps regardless of context.
pub open spec fn newline_texts(n: Node) -> Seq<char>
    decreases n,
{
    match n {
        Node::Text { content } => {
            if has_newline(content@) {
                content@
            } else {
                Seq::<char>::empty()
            }
        },
        Node::Element { tag, children } => newline_texts_children(children@),
        Node::Other { children } => newline_texts_children(children@),
    }
}

pub open spec fn newline_texts_children(cs: Seq<Node>) -> Seq<char>
    decreases cs,
{
    if cs.len() == 0 {
        Seq::<char>::empty()
    } else {
        newline_texts_children(cs.drop_last()) + newline_texts(cs.last())
    }
}

/// The text of every text node under `n`, in document order.
pub open spec fn all_texts(n: Node) -> Seq<char>
    decreases n,
{
    match n {
        Node::Text { content } => content@,
        Node::Element { tag, children } => all_texts_children(children@),
        Node::Other { children } => all_texts_children(children@),
    }
}

pub open spec fn all_texts_children(cs: Seq<Node>) -> Seq<char>
    decreases cs,
{
    if cs.len() == 0 {
        Seq::<char>::empty()
    } else {
        all_texts_children(cs.drop_last()) + all_texts(cs.last())
    }
}

/// Whether some text node under `n` holds a newline.
pub open spec fn has_newline_text(n: Node) -> bool
    decreases n,
{
    match n {
        Node::Text { content } => has_newline(content@),
        Node::Element { tag, children } => has_newline_text_children(children@),
        Node::Other { children } => has_newline_text_children(children@),
    }
}

pub open spec fn has_newline_text_children(cs: Seq<Node>) -> bool
    decreases cs,
{
    if cs.len() == 0 {
        false
    } else {
        has_newline_text_children(cs.drop_last()) || has_newline_text(cs.last())
    }
}

/// The blacklist strictly dominates the allow-list: in the context a
/// blacklisted ancestor derives for its subtree (`included` forced false,
/// `blacklisted` true), only the newline safety net contributes text — the
/// allow-list has no effect at all.
pub proof fn lemma_blacklist_dominates(n: Node, allow: Seq<Seq<char>>, black: Seq<Seq<char>>)
    ensures
        extracted(n, false, true, allow, black) == newline_texts(n),
    decreases n,
{
    match n {
        Node::Text { content } => {},
        Node::Element { tag, children } => {
            lemma_blacklist_dominates_children(children@, allow, black);
        },
        Node::Other { children } => {
            lemma_blacklist_dominates_children(children@, allow, black);
        },
    }
}

proof fn lemma_blacklist_dominates_children(
    cs: Seq<Node>,
    allow: Seq<Seq<char>>,
    black: Seq<Seq<char>>,
)
    ensures
        extracted_children(cs, false, true, allow, black) == newline_texts_children(cs),
    decreases cs,
{
    if cs.len() > 0 {
        lemma_blacklist_dominates_children(cs.drop_last(), allow, black);
        lemma_blacklist_dominates(cs.last(), allow, black);
    }
}

/// A subtree under a blacklisted ancestor contributes no text, even where it
/// matches the allow-list — as long as none of its text nodes carries a
/// newline, the one rule that overrides every context.
pub proof fn lemma_blacklisted_subtree_silent(
    n: Node,
    allow: Seq<Seq<char>>,
    black: Seq<Seq<char>>,
)
    requires
        !has_newline_text(n),
    ensures
        extracted(n, false, true, allow, black).len() == 0,
{
    lemma_blacklist_dominates(n, allow, black);
    lemma_no_newline_texts_empty(n);
}

proof fn lemma_no_newline_texts_empty(n: Node)
    requires
        !has_newline_text(n),
    ensures
        newline_texts(n).len() == 0,
    decreases n,
{
    match n {
        Node::Text { content } => {},
        Node::Element { tag, children } => {
            lemma_no_newline_texts_empty_children(children@);
        },
        Node::Other { children } => {
            lemma_no_newline_texts_empty_children(children@);
        },
    }
}

proof fn lemma_no_newline_texts_empty_children(cs: Seq<Node>)
    requires
        !has_newline_text_children(cs),
    ensures
        newline_texts_children(cs).len() == 0,
    decreases cs,
{
    if cs.len() > 0 {
        lemma_no_newline_texts_empty_children(cs.drop_last());
        lemma_no_newline_texts_empty(cs.last());
    }
}

/// With an inclusion context already established and no blacklist in play,
/// every descendant text node contributes.
pub proof fn lemma_included_takes_all(n: Node, allow: Seq<Seq<char>>)
    ensures
        extracted(n, true, false, allow, Seq::<Seq<char>>::empty()) == all_texts(n),
    decreases n,
{
    match n {
        Node::Text { content } => {},
        Node::Element { tag, children } => {
            lemma_included_takes_all_children(children@, allow);
        },
        Node::Other { children } => {
            lemma_included_takes_all_children(children@, allow);
        },
    }
}

proof fn lemma_included_takes_all_children(cs: Seq<Node>, allow: Seq<Seq<char>>)
    ensures
        extracted_children(cs, true, false, allow, Seq::<Seq<char>>::empty())
            == all_texts_children(cs),
    decreases cs,
{
    if cs.len() > 0 {
        lemma_included_takes_all_children(cs.drop_last(), allow);
        lemma_included_takes_all(cs.last(), allow);
    }
}

/// With no blacklist applied, an element that matches the allow-list includes
/// the text of all its descendants, whatever the context above it was.
pub proof fn lemma_allow_match_includes_descendants(
    tag: String,
    children: Vec<Node>,
    included: bool,
    allow: Seq<Seq<char>>,
)
    requires
        tag_in_list(allow, tag@),
    ensures
        extracted(
            Node::Element { tag, children },
            included,
            false,
            allow,
            Seq::<Seq<char>>::empty(),
        ) == all_texts(Node::Element { tag, children }),
{
    lemma_included_takes_all_children(children@, allow);
}

/// A text node whose content holds a newline is always included, whatever the
/// allow/blacklist context says.
pub proof fn lemma_newline_text_always_included(
    content: String,
    included: bool,
    blacklisted: bool,
    allow: Seq<Seq<char>>,
    black: Seq<Seq<char>>,
)
    requires
        has_newline(content@),
    ensures
        extracted(Node::Text { content }, included, blacklisted, allow, black) == content@,
{
}

/// Extracts the translatable prose of the whole tree under `root` as one
/// buffer, starting outside any allow-listed or blacklisted ancestor.
pub fn extract(root: &Node, allow: &Vec<String>, black: &Vec<String>) -> (r: String)
    ensures
        r@ == extracted(*root, false, false, allow.deep_view(), black.deep_view()),
{
    let mut buf = String::new();
    extract_into(root, false, false, allow, black, &mut buf);
    buf
}

} // verus!
