//! Finds the main text of a page: the container with the most text wins, and
//! its text is collected without the parts that look like navigation,
//! advertising or script.

use crate::dom::{
    lemma_subtree_end, lemma_subtree_nested, parse_document, parseable, parsed_nodes, subtree_end,
    Document, Node, NodeModel,
};
use crate::text::{
    all_whitespace, contains, has_part, join, joined, lemma_join_edges, lemma_trim_edges,
    lemma_trim_empty, lemma_trim_fixed, lemma_trim_idempotent, occurs_at, optional_view,
    same_text, to_chars, trim, trimmed, views,
};
use vstd::prelude::*;

verus! {

/// The number of bytes that the text of a text node takes in UTF-8; zero for any other node.
pub open spec fn text_weight(n: NodeModel) -> nat {
    match n {
        NodeModel::Text { text, .. } => vstd::utf8::encode_utf8(text).len(),
        _ => 0,
    }
}

/// The bytes of text in the nodes `from..to`.
pub open spec fn text_len(d: Seq<NodeModel>, from: int, to: int) -> nat
    decreases to - from,
{
    if from < to {
        text_len(d, from, to - 1) + text_weight(d[to - 1])
    } else {
        0
    }
}

/// The bytes of text below node `i`, boilerplate included.
pub open spec fn score(d: Seq<NodeModel>, i: int) -> nat {
    text_len(d, i + 1, subtree_end(d, i))
}

/// Whether a node may be the container of the main content.
pub open spec fn is_candidate(n: NodeModel) -> bool {
    n matches NodeModel::Element { tag, .. } && (tag == "main"@ || tag == "div"@ || tag == "span"@
        || tag == "article"@)
}

/// Node `w` is the first candidate with the greatest score, and that score is not zero.
pub open spec fn is_winner(d: Seq<NodeModel>, w: int) -> bool {
    &&& 0 <= w < d.len()
    &&& is_candidate(d[w])
    &&& score(d, w) > 0
    &&& forall|j: int| 0 <= j < d.len() && is_candidate(#[trigger] d[j]) ==> score(d, j) <= score(d, w)
    &&& forall|j: int| 0 <= j < w && is_candidate(#[trigger] d[j]) ==> score(d, j) < score(d, w)
}

/// The winner, where there is one.
pub open spec fn winner(d: Seq<NodeModel>) -> Option<int> {
    if exists|w: int| is_winner(d, w) {
        Some(choose|w: int| is_winner(d, w))
    } else {
        None
    }
}

/// Whether an attribute value holds one of the excluded tokens as a raw substring.
pub open spec fn mentions_excluded(value: Seq<char>) -> bool {
    ||| contains(value, "nav"@)
    ||| contains(value, "footer"@)
    ||| contains(value, "header"@)
    ||| contains(value, "sidebar"@)
    ||| contains(value, "ad"@)
    ||| contains(value, "advertisement"@)
    ||| contains(value, "script"@)
    ||| contains(value, "style"@)
}

/// The value of an attribute, empty where the attribute is absent.
pub open spec fn or_empty(value: Option<Seq<char>>) -> Seq<char> {
    match value {
        Some(v) => v,
        None => Seq::empty(),
    }
}

/// Whether a node is an element whose subtree is left out of the text: a
/// `script` element, or one whose `class` or `id` mentions an excluded token.
pub open spec fn is_boilerplate(n: NodeModel) -> bool {
    n matches NodeModel::Element { tag, class, id, .. } && (tag == "script"@ || mentions_excluded(
        or_empty(class),
    ) || mentions_excluded(or_empty(id)))
}

/// Whether what lies below a node is left out of the text: the node is
/// boilerplate, or it is no element. Only an element that is kept is entered.
pub open spec fn is_closed(n: NodeModel) -> bool {
    !(n is Element) || is_boilerplate(n)
}

/// Node `k` lies below a closed node that stands at or after `from`.
pub open spec fn dropped(d: Seq<NodeModel>, from: int, k: int) -> bool {
    exists|a: int| from <= a < k && #[trigger] is_closed(d[a]) && k < subtree_end(d, a)
}

/// What a node adds to the text when it is kept: its trimmed text, unless that is empty.
pub open spec fn fragment_of(n: NodeModel) -> Seq<Seq<char>> {
    match n {
        NodeModel::Text { text, .. } => if trim(text).len() > 0 {
            seq![trim(text)]
        } else {
            Seq::empty()
        },
        _ => Seq::empty(),
    }
}

/// The fragments of the nodes `from..to` that are not dropped, in document order.
pub open spec fn fragments(d: Seq<NodeModel>, from: int, to: int) -> Seq<Seq<char>>
    decreases to - from,
{
    if from < to {
        fragments(d, from, to - 1) + (if dropped(d, from, to - 1) {
            Seq::empty()
        } else {
            fragment_of(d[to - 1])
        })
    } else {
        Seq::empty()
    }
}

/// The joined text, trimmed; nothing where no visible character is left.
pub open spec fn normalized(text: Seq<char>) -> Option<Seq<char>> {
    if trim(text).len() == 0 {
        None
    } else {
        Some(trim(text))
    }
}

/// The main text of a page: the fragments below the winner, joined by single spaces.
pub open spec fn extraction(d: Seq<NodeModel>) -> Option<Seq<char>> {
    match winner(d) {
        Some(w) => normalized(join(fragments(d, w + 1, subtree_end(d, w)), " "@)),
        None => None,
    }
}

/// The main text of the page that the markup `html` parses into.
pub open spec fn extracted(html: Seq<char>) -> Option<Seq<char>> {
    extraction(parsed_nodes(html))
}

/// There is at most one winner.
pub proof fn lemma_winner_unique(d: Seq<NodeModel>, a: int, b: int)
    requires
        is_winner(d, a),
        is_winner(d, b),
    ensures
        a == b,
{
    if a < b {
        assert(is_candidate(d[a]));
        assert(score(d, a) < score(d, b));
        assert(is_candidate(d[b]));
        assert(score(d, b) <= score(d, a));
    } else if b < a {
        assert(is_candidate(d[b]));
        assert(score(d, b) < score(d, a));
        assert(is_candidate(d[a]));
        assert(score(d, a) <= score(d, b));
    }
}

/// A node that meets `is_winner` is the winner.
pub proof fn lemma_winner_found(d: Seq<NodeModel>, w: int)
    requires
        is_winner(d, w),
    ensures
        winner(d) == Some(w),
{
    let chosen = choose|x: int| is_winner(d, x);
    lemma_winner_unique(d, chosen, w);
}

/// A page whose candidates all have score zero has no winner.
pub proof fn lemma_no_winner(d: Seq<NodeModel>)
    requires
        forall|j: int| 0 <= j < d.len() && is_candidate(#[trigger] d[j]) ==> score(d, j) == 0,
    ensures
        winner(d) is None,
{
    assert forall|w: int| !is_winner(d, w) by {
        if 0 <= w < d.len() && is_candidate(d[w]) {
            assert(score(d, w) == 0);
        }
    }
}

/// No candidate has more text than the winner, and none before the winner has as much.
pub proof fn lemma_winner_beats(d: Seq<NodeModel>, w: int, j: int)
    requires
        winner(d) == Some(w),
        0 <= j < d.len(),
        is_candidate(d[j]),
    ensures
        score(d, j) <= score(d, w),
        score(d, j) == score(d, w) ==> w <= j,
{
    let chosen = choose|x: int| is_winner(d, x);
    assert(is_winner(d, chosen));
}

/// Where a page has two candidates, the one with strictly more text wins
/// whichever comes first, and the first one wins where both have as much.
pub proof fn lemma_two_candidates(d: Seq<NodeModel>, a: int, b: int)
    requires
        0 <= a < b < d.len(),
        forall|j: int| 0 <= j < d.len() ==> (is_candidate(#[trigger] d[j]) <==> j == a || j == b),
        score(d, a) > 0 || score(d, b) > 0,
    ensures
        score(d, a) > score(d, b) ==> winner(d) == Some(a),
        score(d, b) > score(d, a) ==> winner(d) == Some(b),
        score(d, a) == score(d, b) ==> winner(d) == Some(a),
{
    assert(is_candidate(d[a]));
    assert(is_candidate(d[b]));
    if score(d, b) > score(d, a) {
        assert(is_winner(d, b));
        lemma_winner_found(d, b);
    } else {
        assert(is_winner(d, a));
        lemma_winner_found(d, a);
    }
}

/// Node `w` is the first candidate with the greatest score among the first
/// `n` nodes, and that score is not zero.
pub open spec fn is_winner_among(d: Seq<NodeModel>, n: int, w: int) -> bool {
    &&& 0 <= w < n <= d.len()
    &&& is_candidate(d[w])
    &&& score(d, w) > 0
    &&& forall|j: int| 0 <= j < n && is_candidate(#[trigger] d[j]) ==> score(d, j) <= score(d, w)
    &&& forall|j: int| 0 <= j < w && is_candidate(#[trigger] d[j]) ==> score(d, j) < score(d, w)
}

/// Among the first `n` nodes there is a winner, unless their candidates hold no text.
pub proof fn lemma_winner_among(d: Seq<NodeModel>, n: int) -> (w: Option<int>)
    requires
        0 <= n <= d.len(),
    ensures
        match w {
            Some(w) => is_winner_among(d, n, w),
            None => forall|j: int|
                0 <= j < n && is_candidate(#[trigger] d[j]) ==> score(d, j) == 0,
        },
    decreases n,
{
    if n == 0 {
        None
    } else {
        let before = lemma_winner_among(d, n - 1);
        let most = match before {
            Some(b) => score(d, b),
            None => 0,
        };
        if is_candidate(d[n - 1]) && score(d, n - 1) > most {
            Some(n - 1)
        } else {
            before
        }
    }
}

/// Where a candidate holds text the page has a winner, and the candidate with
/// most text wins wherever it stands: no candidate holds more text than the
/// winner, and none that holds as much stands before it.
pub proof fn lemma_most_text_wins(d: Seq<NodeModel>, c: int)
    requires
        0 <= c < d.len(),
        is_candidate(d[c]),
        score(d, c) > 0,
    ensures
        winner(d) matches Some(w) && is_winner(d, w) && score(d, c) <= score(d, w) && (score(d, c)
            == score(d, w) ==> w <= c),
{
    match lemma_winner_among(d, d.len() as int) {
        Some(w) => {
            assert(is_winner(d, w));
            lemma_winner_found(d, w);
        },
        None => {
            assert(score(d, c) == 0);
        },
    }
}

/// The same markup has the same main text, whenever and however often it is read.
pub proof fn lemma_extraction_repeatable(first: Seq<char>, second: Seq<char>)
    requires
        first == second,
    ensures
        extracted(first) == extracted(second),
{
}

/// A page whose candidates hold no text has no main text.
pub proof fn lemma_no_text_no_content(d: Seq<NodeModel>)
    requires
        forall|j: int| 0 <= j < d.len() && is_candidate(#[trigger] d[j]) ==> score(d, j) == 0,
    ensures
        extraction(d) is None,
{
    lemma_no_winner(d);
}

/// A value that holds an excluded token anywhere in it counts as boilerplate,
/// whatever stands before and after the token.
pub proof fn lemma_token_anywhere(before: Seq<char>, token: Seq<char>, after: Seq<char>)
    ensures
        contains(before + token + after, token),
        mentions_excluded(token) ==> mentions_excluded(before + token + after),
{
    let whole = before + token + after;
    let start = before.len() as int;
    assert(whole.subrange(start, start + token.len()) =~= token);
    assert(occurs_at(whole, token, start));
    assert forall|part: Seq<char>| contains(token, part) implies contains(whole, part) by {
        let at = choose|at: int| occurs_at(token, part, at);
        assert(whole.subrange(start + at, start + at + part.len()) =~= token.subrange(
            at,
            at + part.len(),
        ));
        assert(occurs_at(whole, part, start + at));
    }
}

/// What lies below a closed node adds nothing to the fragments.
pub proof fn lemma_closed_adds_nothing(d: Seq<NodeModel>, from: int, a: int)
    requires
        0 <= from <= a < d.len(),
        is_closed(d[a]),
    ensures
        fragments(d, from, subtree_end(d, a)) == fragments(d, from, a + 1),
{
    lemma_subtree_end(d, a);
    assert forall|k: int| a + 1 <= k < subtree_end(d, a) implies dropped(d, from, k) by {
        assert(is_closed(d[a]));
    }
    lemma_fragments_skip(d, from, a + 1, subtree_end(d, a));
}

/// A boilerplate element and all that is below it add nothing to the fragments.
pub proof fn lemma_boilerplate_adds_nothing(d: Seq<NodeModel>, from: int, a: int)
    requires
        0 <= from <= a < d.len(),
        is_boilerplate(d[a]),
    ensures
        fragments(d, from, subtree_end(d, a)) == fragments(d, from, a),
{
    lemma_closed_adds_nothing(d, from, a);
    assert(fragment_of(d[a]) =~= Seq::<Seq<char>>::empty());
    assert(fragments(d, from, a) + Seq::<Seq<char>>::empty() =~= fragments(d, from, a));
}

/// A `script` element and all that is below it add nothing to the fragments,
/// whatever its `class` and `id` say.
pub proof fn lemma_script_adds_nothing(d: Seq<NodeModel>, from: int, a: int)
    requires
        0 <= from <= a < d.len(),
        d[a] matches NodeModel::Element { tag, .. } && tag == "script"@,
    ensures
        is_boilerplate(d[a]),
        fragments(d, from, subtree_end(d, a)) == fragments(d, from, a),
{
    lemma_boilerplate_adds_nothing(d, from, a);
}

/// Text nodes that hold nothing but whitespace add no fragment.
pub proof fn lemma_whitespace_adds_nothing(d: Seq<NodeModel>, from: int, to: int)
    requires
        0 <= from <= to <= d.len(),
        forall|k: int|
            from <= k < to ==> (#[trigger] d[k] matches NodeModel::Text { text, .. }
                ==> all_whitespace(text)),
    ensures
        fragments(d, from, to).len() == 0,
    decreases to - from,
{
    if from < to {
        lemma_whitespace_adds_nothing(d, from, to - 1);
        match d[to - 1] {
            NodeModel::Text { text, .. } => {
                lemma_trim_empty(text);
            },
            _ => {},
        }
    }
}

/// A page whose winner holds nothing but whitespace has no main text.
pub proof fn lemma_whitespace_no_content(d: Seq<NodeModel>, w: int)
    requires
        winner(d) == Some(w),
        forall|k: int|
            w < k < subtree_end(d, w) ==> (#[trigger] d[k] matches NodeModel::Text { text, .. }
                ==> all_whitespace(text)),
    ensures
        extraction(d) is None,
{
    let chosen = choose|x: int| is_winner(d, x);
    assert(is_winner(d, chosen));
    lemma_subtree_end(d, w);
    lemma_whitespace_adds_nothing(d, w + 1, subtree_end(d, w));
    lemma_normalized_fragments(d, w + 1, subtree_end(d, w));
}

/// The main text of a page is never empty and has no whitespace at its ends.
pub proof fn lemma_extraction_trimmed(d: Seq<NodeModel>)
    ensures
        extraction(d) matches Some(text) ==> text.len() > 0 && trim(text) == text,
{
    if let Some(w) = winner(d) {
        lemma_trim_idempotent(join(fragments(d, w + 1, subtree_end(d, w)), " "@));
    }
}

/// Nodes that are all dropped add no fragment.
pub proof fn lemma_fragments_skip(d: Seq<NodeModel>, from: int, mid: int, to: int)
    requires
        from <= mid <= to,
        forall|k: int| mid <= k < to ==> dropped(d, from, k),
    ensures
        fragments(d, from, to) == fragments(d, from, mid),
    decreases to - mid,
{
    if mid < to {
        lemma_fragments_skip(d, from, mid, to - 1);
        assert(dropped(d, from, to - 1));
        assert(fragments(d, from, to - 1) + Seq::<Seq<char>>::empty() =~= fragments(
            d,
            from,
            to - 1,
        ));
    }
}

/// Every fragment is trimmed text that is not empty.
pub proof fn lemma_fragments_trimmed(d: Seq<NodeModel>, from: int, to: int)
    ensures
        forall|i: int|
            0 <= i < fragments(d, from, to).len() ==> {
                let f = #[trigger] fragments(d, from, to)[i];
                f.len() > 0 && trim(f) == f
            },
    decreases to - from,
{
    if from < to {
        lemma_fragments_trimmed(d, from, to - 1);
        let before = fragments(d, from, to - 1);
        let all = fragments(d, from, to);
        assert forall|i: int| 0 <= i < all.len() implies {
            let f = #[trigger] all[i];
            f.len() > 0 && trim(f) == f
        } by {
            if i < before.len() {
                assert(all[i] == before[i]);
            } else {
                let f = all[i];
                assert(fragment_of(d[to - 1]) == seq![f]);
                match d[to - 1] {
                    NodeModel::Text { text, .. } => {
                        lemma_trim_edges(text);
                        lemma_trim_fixed(trim(text));
                    },
                    _ => {},
                }
            }
        }
    }
}

/// Joined fragments need no further trimming: where there is a fragment the
/// joined text is the result, and where there is none there is no result.
pub proof fn lemma_normalized_fragments(d: Seq<NodeModel>, from: int, to: int)
    ensures
        normalized(join(fragments(d, from, to), " "@)) == if fragments(d, from, to).len() == 0 {
            None
        } else {
            Some(join(fragments(d, from, to), " "@))
        },
{
    let parts = fragments(d, from, to);
    lemma_fragments_trimmed(d, from, to);
    if parts.len() > 0 {
        assert forall|i: int| 0 <= i < parts.len() implies (#[trigger] parts[i]).len() > 0 by {}
        lemma_join_edges(parts, " "@);
        let text = join(parts, " "@);
        let head = parts.first();
        let tail = parts.last();
        assert(trim(head) == head && head.len() > 0);
        assert(trim(tail) == tail && tail.len() > 0);
        lemma_trim_edges(head);
        lemma_trim_edges(tail);
        lemma_trim_fixed(text);
    }
}

/// The value of an attribute, empty where the attribute is absent.
fn attribute_or_empty(value: &Option<String>) -> (out: &str)
    ensures
        out@ == or_empty(optional_view(*value)),
{
    proof {
        reveal_strlit("");
        assert(""@ =~= Seq::<char>::empty());
    }
    match value {
        Some(v) => v.as_str(),
        None => "",
    }
}

/// Whether an attribute value holds one of the excluded tokens as a raw substring.
pub fn names_boilerplate(value: &str) -> (out: bool)
    ensures
        out == mentions_excluded(value@),
{
    let hay = to_chars(value);
    has_part(hay.as_slice(), to_chars("nav").as_slice()) || has_part(
        hay.as_slice(),
        to_chars("footer").as_slice(),
    ) || has_part(hay.as_slice(), to_chars("header").as_slice()) || has_part(
        hay.as_slice(),
        to_chars("sidebar").as_slice(),
    ) || has_part(hay.as_slice(), to_chars("ad").as_slice()) || has_part(
        hay.as_slice(),
        to_chars("advertisement").as_slice(),
    ) || has_part(hay.as_slice(), to_chars("script").as_slice()) || has_part(
        hay.as_slice(),
        to_chars("style").as_slice(),
    )
}

impl Node {
    /// Whether the node may be the container of the main content.
    pub fn is_candidate(&self) -> (out: bool)
        ensures
            out == is_candidate(self@),
    {
        match self {
            Node::Element { tag, .. } => {
                let tag = tag.as_str();
                same_text(tag, "main") || same_text(tag, "div") || same_text(tag, "span")
                    || same_text(tag, "article")
            },
            _ => false,
        }
    }

    /// Whether the node is an element whose subtree is left out of the text.
    pub fn is_boilerplate(&self) -> (out: bool)
        ensures
            out == is_boilerplate(self@),
    {
        match self {
            Node::Element { tag, class, id, .. } => {
                same_text(tag.as_str(), "script") || names_boilerplate(attribute_or_empty(class))
                    || names_boilerplate(attribute_or_empty(id))
            },
            _ => false,
        }
    }

    /// Whether what lies below the node is left out of the text.
    pub fn is_closed(&self) -> (out: bool)
        ensures
            out == is_closed(self@),
    {
        match self {
            Node::Element { .. } => self.is_boilerplate(),
            _ => true,
        }
    }

    /// The number of bytes of the node's text; zero for a node that is not text.
    pub fn text_weight(&self) -> (out: usize)
        ensures
            out == text_weight(self@),
    {
        match self {
            Node::Text { text, .. } => text.as_str().as_bytes().len(),
            _ => 0,
        }
    }
}

impl Document {
    /// The bytes of text below node `i`, boilerplate included.
    pub fn score(&self, i: usize) -> (out: u128)
        requires
            i < self@.len(),
        ensures
            out == score(self@, i as int),
    {
        let end = self.subtree_end(i);
        let mut total: u128 = 0;
        let mut at: usize = i + 1;
        while at < end
            invariant
                i < at <= end <= self@.len(),
                end <= usize::MAX,
                total == text_len(self@, i + 1, at as int),
                total <= (at - i - 1) * usize::MAX,
            decreases end - at,
        {
            let weight = self.node(at).text_weight();
            proof {
                let seen = at - i - 1;
                assert(seen * usize::MAX + usize::MAX == (seen + 1) * usize::MAX) by (nonlinear_arith);
                assert((seen + 1) * usize::MAX <= 0xffff_ffff_ffff_ffff * 0xffff_ffff_ffff_ffff)
                    by (nonlinear_arith)
                    requires
                        0 <= seen + 1 <= 0xffff_ffff_ffff_ffff,
                        0 <= usize::MAX <= 0xffff_ffff_ffff_ffff,
                ;
            }
            total = total + weight as u128;
            at = at + 1;
        }
        total
    }

    /// The container of the main content: the first candidate with the
    /// greatest score, unless no candidate holds any text.
    pub fn winner(&self) -> (out: Option<usize>)
        ensures
            match out {
                Some(w) => is_winner(self@, w as int) && winner(self@) == Some(w as int),
                None => winner(self@) is None && forall|j: int|
                    0 <= j < self@.len() && is_candidate(#[trigger] self@[j]) ==> score(self@, j)
                        == 0,
            },
    {
        let mut best: Option<usize> = None;
        let mut most: u128 = 0;
        let mut i: usize = 0;
        while i < self.len()
            invariant
                i <= self@.len(),
                forall|j: int| 0 <= j < i && is_candidate(#[trigger] self@[j]) ==> score(self@, j) <= most,
                match best {
                    Some(b) => {
                        &&& b < i
                        &&& is_candidate(self@[b as int])
                        &&& most == score(self@, b as int)
                        &&& most > 0
                        &&& forall|j: int|
                            0 <= j < b && is_candidate(#[trigger] self@[j]) ==> score(self@, j)
                                < most
                    },
                    None => most == 0,
                },
            decreases self@.len() - i,
        {
            if self.node(i).is_candidate() {
                let found = self.score(i);
                if found > most {
                    best = Some(i);
                    most = found;
                }
            }
            i = i + 1;
        }
        proof {
            match best {
                Some(b) => {
                    lemma_winner_found(self@, b as int);
                },
                None => {
                    lemma_no_winner(self@);
                },
            }
        }
        best
    }

    /// The fragments below node `w` that are not dropped, in document order.
    pub fn fragments(&self, w: usize) -> (out: Vec<String>)
        requires
            w < self@.len(),
        ensures
            views(out@) == fragments(self@, w + 1, subtree_end(self@, w as int)),
    {
        let end = self.subtree_end(w);
        let ghost d = self@;
        let ghost from = w + 1;
        let mut out: Vec<String> = Vec::new();
        let mut at: usize = w + 1;
        proof {
            assert(views(out@) =~= fragments(d, from, from));
        }
        while at < end
            invariant
                d == self@,
                from == w + 1,
                w < at <= end <= d.len(),
                end == subtree_end(d, w as int),
                views(out@) == fragments(d, from, at as int),
                forall|a: int|
                    from <= a < at && #[trigger] is_closed(d[a]) ==> subtree_end(d, a) <= at,
            decreases end - at,
        {
            let node = self.node(at);
            proof {
                if dropped(d, from, at as int) {
                    let a = choose|a: int|
                        from <= a < at && #[trigger] is_closed(d[a]) && at < subtree_end(d, a);
                    assert(subtree_end(d, a) <= at);
                }
                lemma_subtree_end(d, at as int);
                lemma_subtree_nested(d, w as int, at as int);
            }
            let ghost before = out@;
            match node {
                Node::Text { text, .. } => {
                    let fragment = trimmed(text.as_str());
                    if fragment.as_str().is_empty() {
                        proof {
                            assert(views(out@) + Seq::<Seq<char>>::empty() =~= views(out@));
                        }
                    } else {
                        out.push(fragment);
                        proof {
                            assert(views(out@) =~= views(before) + seq![fragment@]);
                        }
                    }
                },
                _ => {
                    proof {
                        assert(views(out@) + Seq::<Seq<char>>::empty() =~= views(out@));
                    }
                },
            }
            if node.is_closed() {
                let next = self.subtree_end(at);
                proof {
                    lemma_closed_adds_nothing(d, from, at as int);
                    assert forall|a: int|
                        from <= a < next && #[trigger] is_closed(d[a]) implies subtree_end(d, a)
                        <= next by {
                        if a > at {
                            lemma_subtree_nested(d, at as int, a);
                        }
                    }
                }
                at = next;
            } else {
                at = at + 1;
            }
        }
        out
    }

    /// The main text of the page, or nothing where no container holds text or
    /// no visible text is left in the winner.
    pub fn main_text(&self) -> (out: Option<String>)
        ensures
            optional_view(out) == extraction(self@),
            out is None <==> (winner(self@) matches Some(w) ==> fragments(
                self@,
                w + 1,
                subtree_end(self@, w),
            ).len() == 0),
    {
        match self.winner() {
            Some(w) => {
                let parts = self.fragments(w);
                proof {
                    lemma_normalized_fragments(self@, w + 1, subtree_end(self@, w as int));
                }
                if parts.len() == 0 {
                    None
                } else {
                    Some(joined(&parts, " "))
                }
            },
            None => None,
        }
    }
}

/// The main text of the page that `html` parses into. Markup that is not
/// well formed is read as far as it can be; the result is nothing where no
/// container holds text or no visible text is left in the winner. The markup
/// must be short enough for the parser: see `parseable`.
pub fn extract_content(html: &str) -> (out: Option<String>)
    requires
        parseable(html@),
    ensures
        optional_view(out) == extracted(html@),
{
    parse_document(html).main_text()
}

} // verus!
