use chatgpt_notes::content::{extract_content, names_boilerplate};
use chatgpt_notes::dom::{is_parseable, Document, Node};

fn element(depth: usize, tag: &str, class: Option<&str>, id: Option<&str>) -> Node {
    Node::Element {
        depth,
        tag: tag.to_string(),
        class: class.map(|c| c.to_string()),
        id: id.map(|i| i.to_string()),
    }
}

fn text(depth: usize, text: &str) -> Node {
    Node::Text { depth, text: text.to_string() }
}

#[test]
fn article_text_without_nav_and_footer() {
    let html = "<html><body><nav>Menu</nav><article>Hello world. <p>More text.</p></article>\
                <footer>Foot</footer></body></html>";
    assert_eq!(extract_content(html), Some("Hello world. More text.".to_string()));
}

#[test]
fn longer_div_wins_when_it_comes_second() {
    let html = "<div>short</div><div>much longer text</div>";
    assert_eq!(extract_content(html), Some("much longer text".to_string()));
}

#[test]
fn longer_div_wins_when_it_comes_first() {
    let html = "<div>much longer text</div><div>short</div>";
    assert_eq!(extract_content(html), Some("much longer text".to_string()));
}

#[test]
fn first_of_two_equal_divs_wins() {
    let html = "<div>aaaa</div><div>bbbb</div>";
    assert_eq!(extract_content(html), Some("aaaa".to_string()));
}

#[test]
fn sidebar_widget_is_left_out() {
    let html = "<div>Main text here<div class=\"sidebar-widget\">Side</div></div>";
    assert_eq!(extract_content(html), Some("Main text here".to_string()));
}

#[test]
fn script_text_is_left_out() {
    let html = "<div>Visible<script>var x = 1;</script></div>";
    assert_eq!(extract_content(html), Some("Visible".to_string()));
}

#[test]
fn script_text_is_left_out_whatever_its_class() {
    let html = "<div>Visible<script class=\"content\" id=\"body\">var x = 1;</script></div>";
    assert_eq!(extract_content(html), Some("Visible".to_string()));
}

#[test]
fn empty_candidates_give_nothing() {
    let html = "<main></main><div></div><span></span><article></article>";
    assert_eq!(extract_content(html), None);
}

#[test]
fn whitespace_only_main_gives_nothing() {
    let html = "<main>   \n\t  </main>";
    assert_eq!(extract_content(html), None);
}

#[test]
fn page_without_candidates_gives_nothing() {
    assert_eq!(extract_content("<p>Hello</p>"), None);
    assert_eq!(extract_content(""), None);
}

#[test]
fn extraction_is_repeatable() {
    let html = "<div id=\"page\"><span>One</span> two <div class=\"ad\">three</div></div>";
    let first = extract_content(html);
    assert_eq!(first, Some("One two".to_string()));
    assert_eq!(extract_content(html), first);
    assert_eq!(extract_content(html), first);
}

#[test]
fn text_is_scored_by_its_bytes() {
    // Two letters of two bytes each weigh more than three letters of one byte.
    let html = "<div>\u{e9}\u{e9}</div><div>abc</div>";
    assert_eq!(extract_content(html), Some("\u{e9}\u{e9}".to_string()));
}

#[test]
fn text_of_dropped_parts_counts_for_the_score() {
    // The first div holds 3 + 20 bytes, the second 10; only 3 bytes of the first are kept.
    let html = "<div>abc<p class=\"nav\">01234567890123456789</p></div><div>0123456789</div>";
    assert_eq!(extract_content(html), Some("abc".to_string()));
}

#[test]
fn winner_is_kept_whatever_its_own_class() {
    let html = "<div class=\"nav\" id=\"footer\">Only text</div>";
    assert_eq!(extract_content(html), Some("Only text".to_string()));
}

#[test]
fn text_after_a_dropped_subtree_is_kept() {
    let html = "<article>One<div id=\"footer\">Two<span>Three</span></div>Four</article>";
    assert_eq!(extract_content(html), Some("One Four".to_string()));
}

#[test]
fn fragments_are_trimmed_and_joined_by_one_space() {
    let html = "<div>  Hello \n <p>\n</p> World  </div>";
    assert_eq!(extract_content(html), Some("Hello World".to_string()));
}

#[test]
fn fragments_come_in_document_order() {
    let html = "<div>a<p>b<i>c</i>d</p>e<p>f</p>g</div>";
    assert_eq!(extract_content(html), Some("a b c d e f g".to_string()));
}

#[test]
fn tokens_match_as_raw_substrings() {
    let html = "<div>Keep<p class=\"shadow\">one</p><p id=\"headerboard\">two</p>\
                <p class=\"big advertisement\">three</p><p class=\"plain\">four</p></div>";
    assert_eq!(extract_content(html), Some("Keep four".to_string()));
}

#[test]
fn each_excluded_token_is_found() {
    for value in
        ["nav", "footer", "header", "sidebar", "ad", "advertisement", "script", "style"]
    {
        assert!(names_boilerplate(value));
        assert!(names_boilerplate(&format!("x-{value}-y")));
    }
    assert!(names_boilerplate("nav-bar"));
    assert!(names_boilerplate("header-main"));
    assert!(!names_boilerplate(""));
    assert!(!names_boilerplate("content"));
    assert!(!names_boilerplate("handle"));
    assert!(!names_boilerplate("NAV"));
}

#[test]
fn unclosed_markup_is_read_as_far_as_it_goes() {
    let html = "<div><p>Unclosed <b>bold";
    assert_eq!(extract_content(html), Some("Unclosed bold".to_string()));
}

#[test]
fn span_and_main_are_candidates_outside_each_other() {
    assert_eq!(extract_content("<p><span>in a span</span></p>"), Some("in a span".to_string()));
    assert_eq!(extract_content("<main>in main</main>"), Some("in main".to_string()));
}

#[test]
fn document_by_hand_gives_the_winner_and_its_text() {
    let doc = Document {
        nodes: vec![
            Node::Other { depth: 0 },
            element(1, "body", None, None),
            element(2, "div", None, None),
            text(3, "short"),
            element(2, "article", Some("post"), None),
            text(3, " The body "),
            element(3, "p", Some("footer-links"), None),
            text(4, "links"),
            element(3, "p", None, Some("intro")),
            text(4, "of text"),
        ],
    };
    assert_eq!(doc.len(), 10);
    assert_eq!(doc.subtree_end(0), 10);
    assert_eq!(doc.subtree_end(2), 4);
    assert_eq!(doc.subtree_end(4), 10);
    assert_eq!(doc.subtree_end(6), 8);
    assert_eq!(doc.score(1), 5 + 10 + 5 + 7);
    assert_eq!(doc.score(2), 5);
    assert_eq!(doc.score(4), 10 + 5 + 7);
    assert_eq!(doc.winner(), Some(4));
    assert_eq!(doc.fragments(4), vec!["The body".to_string(), "of text".to_string()]);
    assert_eq!(doc.fragments(2), vec!["short".to_string()]);
    assert_eq!(doc.main_text(), Some("The body of text".to_string()));
}

#[test]
fn document_without_text_has_no_winner() {
    let doc = Document {
        nodes: vec![Node::Other { depth: 0 }, element(1, "div", None, None), element(2, "span", None, None)],
    };
    assert_eq!(doc.winner(), None);
    assert_eq!(doc.main_text(), None);
    let empty = Document { nodes: vec![] };
    assert_eq!(empty.winner(), None);
    assert_eq!(empty.main_text(), None);
}

#[test]
fn node_kinds_are_told_apart() {
    let div = element(1, "div", Some("story"), None);
    assert!(div.is_candidate());
    assert!(!div.is_boilerplate());
    assert_eq!(div.text_weight(), 0);
    assert_eq!(div.depth(), 1);
    let script = element(2, "script", None, None);
    assert!(!script.is_candidate());
    assert!(script.is_boilerplate());
    let aside = element(2, "p", None, Some("sidebar"));
    assert!(aside.is_boilerplate());
    let run = text(3, "h\u{e9}");
    assert!(!run.is_candidate());
    assert!(!run.is_boilerplate());
    assert_eq!(run.text_weight(), 3);
    assert_eq!(run.depth(), 3);
    assert!(!element(1, "DIV", None, None).is_candidate());
}

#[test]
fn template_contents_count_for_the_score_but_are_left_out() {
    // The second div holds 4 + 20 bytes and wins; what the template holds is not read.
    let html = "<div>0123456789</div><div>Keep<template>01234567890123456789</template></div>";
    assert_eq!(extract_content(html), Some("Keep".to_string()));
    assert_eq!(extract_content("<div><template>only this</template></div>"), None);
}

#[test]
fn what_lies_below_a_node_that_is_no_element_is_left_out() {
    let doc = Document {
        nodes: vec![
            element(0, "div", None, None),
            text(1, "one"),
            text(2, "below text"),
            Node::Other { depth: 1 },
            text(2, "below other"),
            element(3, "p", None, None),
            text(4, "deeper"),
            element(1, "p", None, None),
            text(2, "two"),
        ],
    };
    assert_eq!(doc.score(0), 3 + 10 + 11 + 6 + 3);
    assert_eq!(doc.winner(), Some(0));
    assert_eq!(doc.fragments(0), vec!["one".to_string(), "two".to_string()]);
    assert_eq!(doc.main_text(), Some("one two".to_string()));
    assert!(Node::Other { depth: 1 }.is_closed());
    assert!(text(1, "one").is_closed());
    assert!(!element(1, "p", None, None).is_closed());
    assert!(element(1, "p", Some("nav"), None).is_closed());
}

#[test]
fn markup_of_ordinary_length_is_parseable() {
    assert!(is_parseable(""));
    assert!(is_parseable("<div>text</div>"));
    assert!(is_parseable(&"a".repeat(1 << 20)));
}
