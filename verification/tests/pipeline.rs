use kami::syntax::parse;

fn html(input: &str) -> String {
    parse(input).0
}

#[test]
fn plain_text_is_a_paragraph() {
    assert_eq!(html("hello world"), "<p >hello world</p>\n");
    assert_eq!(parse("hello world").1.len(), 0);
}

#[test]
fn plain_text_is_escaped() {
    assert_eq!(html("a & b"), "<p >a &amp; b</p>\n");
    assert_eq!(html("say \"hi\""), "<p >say &quot;hi&quot;</p>\n");
    assert_eq!(html("caf\u{e9}"), "<p >caf&eacute;</p>\n");
}

#[test]
fn bold_and_strong() {
    assert_eq!(html("a *text* b"), "<p >a <b >text</b> b</p>\n");
    assert_eq!(html("a **text** b"), "<p >a <strong >text</strong> b</p>\n");
}

#[test]
fn unterminated_bold_is_literal() {
    let (out, warnings) = parse("*hello");
    assert_eq!(out, "<p >*hello</p>\n");
    assert_eq!(warnings, vec!["Unclosed Bold token at *hello".to_string()]);
}

#[test]
fn nested_lists() {
    assert_eq!(
        html("* a\n** b\n* c"),
        "<ul >\n<li >a</li>\n<ul >\n<li >b</li>\n</ul>\n<li >c</li>\n</ul>\n"
    );
}

#[test]
fn table_header_cell() {
    assert_eq!(
        html("|*h1|h2|"),
        "<table >\n<tr ><th >h1</th><td >h2</td></tr>\n</table>\n"
    );
}

#[test]
fn deferred_attribute_goes_to_next_block() {
    assert_eq!(html("{.cls}\n# Title"), "<h1 class=\"cls\" >Title</h1>\n");
}
