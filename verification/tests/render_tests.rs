use kami::lexer::tokenize;
use kami::multiline_lexer::block_lexer;
use kami::syntax::{parse, parse_attr, parse_line, render};
use kami::text::{chars_of, split_lines, string_of};
use kami::token::{Token, TokenType};

fn chars(s: &str) -> Vec<char> {
    s.chars().collect()
}

fn text(v: &Vec<char>) -> String {
    v.iter().collect()
}

fn attr(s: &str) -> String {
    text(&parse_attr(&chars(s)))
}

fn inline(s: &str) -> String {
    text(&parse_line(&tokenize(&chars(s)).0))
}

fn html(s: &str) -> String {
    parse(s).0
}

#[test]
fn empty_attribute_spans() {
    assert_eq!(attr(""), "");
    assert_eq!(attr("{}"), "");
    assert_eq!(attr("{"), "");
}

#[test]
fn class_id_and_free_text() {
    assert_eq!(attr("{.a}"), "class=\"a\" ");
    assert_eq!(attr("{#i}"), "id=\"i\" ");
    assert_eq!(attr("{x=1}"), "x=1");
    assert_eq!(attr("{#i .a b}"), "id=\"i\" class=\"a \" b");
}

#[test]
fn classes_accumulate_and_last_id_wins() {
    assert_eq!(attr("{.a .b}"), "class=\"a b\" ");
    assert_eq!(attr("{#a #b}"), "id=\"b\" ");
    assert_eq!(attr("{.a #i}"), "id=\"i\" class=\"a \" ");
}

#[test]
fn inline_elements() {
    assert_eq!(inline("*b*"), "<b >b</b>");
    assert_eq!(inline("_i_"), "<i >i</i>");
    assert_eq!(inline("**s**"), "<strong >s</strong>");
    assert_eq!(inline("__e__"), "<em >e</em>");
    assert_eq!(inline("~x~"), "<sub >x</sub>");
    assert_eq!(inline("^x^"), "<sup >x</sup>");
    assert_eq!(inline("@x@"), "<span >x</span>");
    assert_eq!(inline("~~s~~"), "<s >s</s>");
    assert_eq!(inline("--u--"), "<u >u</u>");
}

#[test]
fn inline_element_with_attributes() {
    assert_eq!(inline("*b*{.x #y}"), "<b id=\"y\" class=\"x \" >b</b>");
}

#[test]
fn code_is_escaped_and_not_markup() {
    assert_eq!(inline("`a<b`"), "<code >a&lt;b</code>");
    assert_eq!(inline("`*a*`"), "<code >*a*</code>");
}

#[test]
fn line_break() {
    assert_eq!(inline("a\\nb"), "a<br>b");
}

#[test]
fn links() {
    assert_eq!(inline("[n](u)"), "<a href=\"u\" >n</a>");
    assert_eq!(inline("[n]"), "<a href=\"n\" >n</a>");
    assert_eq!(inline("[n] x"), "<a href=\"n\" >n</a> x");
    assert_eq!(inline("[n](u){.x}"), "<a href=\"u\" class=\"x\" >n</a>");
    assert_eq!(inline("[*n*](u)"), "<a href=\"u\" ><b >n</b></a>");
}

#[test]
fn raw_html_and_images_pass_through() {
    assert_eq!(inline("a <b>c</b>"), "a <b>c</b>");
    assert_eq!(inline("!pic!"), "!pic!");
}

#[test]
fn plain_text_escapes() {
    assert_eq!(inline("a > b & c"), "a &gt; b &amp; c");
    assert_eq!(inline("it's \"x\""), "it&apos;s &quot;x&quot;");
    assert_eq!(inline("\u{4e16}"), "&#x4e16;");
    assert_eq!(inline("\u{a0}"), "&nbsp;");
    assert_eq!(inline("\\<"), "&lt;");
}

#[test]
fn escaping_safe_text_twice_changes_nothing() {
    let once = parse_line(&vec![Token::init(TokenType::Put, chars("plain text 123"))]);
    let twice = parse_line(&vec![Token::init(TokenType::Put, once.clone())]);
    assert_eq!(text(&once), "plain text 123");
    assert_eq!(text(&twice), "plain text 123");
}

#[test]
fn list_items() {
    let item = Token::init_sub(
        TokenType::ListEl,
        vec![Token::init(TokenType::Put, chars("a"))],
        chars("* "),
    );
    assert_eq!(text(&parse_line(&vec![item])), "<li >a</li>\n");
}

#[test]
fn headers_by_level() {
    assert_eq!(html("# T"), "<h1 >T</h1>\n");
    assert_eq!(html("## T"), "<h2 >T</h2>\n");
    assert_eq!(html("########## T"), "<h10 >T</h10>\n");
    assert_eq!(html("#{#top} T"), "<h1 id=\"top\" > T</h1>\n");
}

#[test]
fn paragraph_with_soft_break() {
    assert_eq!(html("one\n two"), "<p >one<br>two</p>\n");
}

#[test]
fn paragraph_with_attribute() {
    assert_eq!(html("{.x}text"), "<p class=\"x\" >text</p>\n");
}

#[test]
fn list_kinds_at_one_depth() {
    assert_eq!(
        html("* a\n#. b"),
        "<ul >\n<li >a</li>\n</ul>\n<ol >\n<li >b</li>\n</ol>\n"
    );
    assert_eq!(
        html("#. a\n* b"),
        "<ol >\n<li >a</li>\n</ol>\n<ul >\n<li >b</li>\n</ul>\n"
    );
}

#[test]
fn ordered_list_nested_in_unordered() {
    assert_eq!(
        html("* a\n##. b\n* c"),
        "<ul >\n<li >a</li>\n<ol >\n<li >b</li>\n</ol>\n<li >c</li>\n</ul>\n"
    );
}

#[test]
fn list_that_jumps_depths() {
    assert_eq!(
        html("** a\n**** b\n* c"),
        "<ul >\n<li >a</li>\n<ul >\n<li >b</li>\n</ul>\n</ul>\n<ul >\n<li >c</li>\n</ul>\n"
    );
}

#[test]
fn list_with_attribute() {
    assert_eq!(html("{.l}\n* a"), "<ul class=\"l\" >\n<li >a</li>\n</ul>\n");
}

#[test]
fn list_tags_are_balanced() {
    let out = html("* a\n*** b\n##. c\n* d\n#. e\n** f");
    assert_eq!(out.matches("<ul ").count(), out.matches("</ul>").count());
    assert_eq!(out.matches("<ol ").count(), out.matches("</ol>").count());
    assert_eq!(out.matches("<li ").count(), 6);
}

#[test]
fn table_tags_are_balanced() {
    let out = html("|a|\n\n|b|\ntext\n|x|");
    assert_eq!(out.matches("<table ").count(), 3);
    assert_eq!(out.matches("</table>").count(), 3);
}

#[test]
fn table_with_spans() {
    assert_eq!(
        html("|r2 a|b|\n| c|"),
        "<table >\n<tr ><td  rowspan=\"2\">a</td><td >b</td></tr>\n<tr ><td >c</td></tr>\n</table>\n"
    );
}

#[test]
fn table_with_attribute_and_row_attribute() {
    assert_eq!(
        html("{.t}\n|a|{.r}"),
        "<table class=\"t\" >\n<tr class=\"r\" ><td >a</td></tr>\n</table>\n"
    );
}

#[test]
fn raw_html_block() {
    assert_eq!(html("<div>\ntext\n</div>"), "<div>\n<p >text</p>\n</div>\n");
    assert_eq!(html("<hr> *x*"), "<hr> <b >x</b>\n");
}

#[test]
fn image_alone_writes_nothing() {
    assert_eq!(html("!pic!"), "");
    assert_eq!(html("!pic! text"), "<p >!pic! text</p>\n");
}

#[test]
fn line_endings() {
    assert_eq!(html("a\r\nb\n"), "<p >a</p>\n<p >b</p>\n");
    assert_eq!(html(""), "");
    assert_eq!(html("\n\n"), "");
}

#[test]
fn split_lines_like_a_text_file() {
    let lines = split_lines(&chars("a\n\nb\r\nc\r"));
    let lines: Vec<String> = lines.iter().map(text).collect();
    assert_eq!(lines, vec!["a", "", "b", "c\r"]);
    assert_eq!(split_lines(&chars("")).len(), 0);
    assert_eq!(split_lines(&chars("\n")).len(), 1);
}

#[test]
fn warnings_come_in_line_order() {
    let (_, warnings) = parse("*a\nok\n_b");
    assert_eq!(warnings, vec!["Unclosed Bold token at *a", "Unclosed Italic token at _b"]);
}

#[test]
fn render_takes_any_blocks() {
    let para = Token::init_sub(
        TokenType::Para,
        vec![Token::init(TokenType::Put, chars("x"))],
        Vec::new(),
    );
    let other = Token::init(TokenType::Put, chars("ignored"));
    assert_eq!(text(&render(&vec![para, other])), "<p >x</p>\n");
    assert_eq!(text(&render(&block_lexer(&Vec::new()))), "");
}

#[test]
fn text_conversions() {
    assert_eq!(chars_of("h\u{e9}"), vec!['h', '\u{e9}']);
    assert_eq!(string_of(&vec!['h', '\u{e9}']), "h\u{e9}");
}
