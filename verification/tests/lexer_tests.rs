use kami::lexer::{tokenize, tokenize_line};
use kami::token::{push_token, Token, TokenType};

fn chars(s: &str) -> Vec<char> {
    s.chars().collect()
}

fn text(v: &Vec<char>) -> String {
    v.iter().collect()
}

fn show(t: &Token) -> String {
    let mut s = format!("{:?}({})", t.class, text(&t.content));
    if !t.attributes.is_empty() {
        s += &format!("<{}>", text(&t.attributes));
    }
    if !t.subtokens.is_empty() {
        s += &format!("[{}]", show_all(&t.subtokens));
    }
    s
}

fn show_all(ts: &Vec<Token>) -> String {
    let parts: Vec<String> = ts.iter().map(show).collect();
    parts.join(" ")
}

fn lexed(s: &str) -> String {
    show_all(&tokenize(&chars(s)).0)
}

fn warned(s: &str) -> String {
    text(&tokenize(&chars(s)).1)
}

#[test]
fn empty_line_has_no_tokens() {
    assert_eq!(lexed(""), "");
    assert_eq!(warned(""), "");
}

#[test]
fn plain_text_is_one_token() {
    assert_eq!(lexed("hello world"), "Put(hello world)");
    assert_eq!(warned("hello world"), "");
}

#[test]
fn single_sigil_spans() {
    assert_eq!(lexed("*b*"), "Bold(*b*)[Put(b)]");
    assert_eq!(lexed("_i_"), "Italic(_i_)[Put(i)]");
    assert_eq!(lexed("~x~"), "Sub(~x~)[Put(x)]");
    assert_eq!(lexed("^x^"), "Sup(^x^)[Put(x)]");
    assert_eq!(lexed("@x@"), "Span(@x@)[Put(x)]");
    assert_eq!(lexed("<b>"), "Html(<b>)[Put(b)]");
    assert_eq!(lexed("[n]"), "LinkName([n])[Put(n)]");
}

#[test]
fn doubled_sigil_spans() {
    assert_eq!(lexed("**s**"), "Strong(**s**)[Put(s)]");
    assert_eq!(lexed("__e__"), "Emphasis(__e__)[Put(e)]");
    assert_eq!(lexed("~~s~~"), "Strike(~~s~~)[Put(s)]");
    assert_eq!(lexed("--u--"), "Under(--u--)[Put(u)]");
}

#[test]
fn text_around_a_span() {
    assert_eq!(lexed("a *b* c"), "Put(a ) Bold(*b*)[Put(b)] Put( c)");
}

#[test]
fn spans_nest() {
    assert_eq!(lexed("*a _b_*"), "Bold(*a _b_*)[Put(a ) Italic(_b_)[Put(b)]]");
}

#[test]
fn single_then_content_then_single() {
    assert_eq!(lexed("*a*b*"), "Bold(*a*)[Put(a)] Put(b) Put(*)");
    assert_eq!(warned("*a*b*"), "Unclosed Bold token at *");
}

#[test]
fn pending_close_needs_two_sigils() {
    assert_eq!(lexed("**a*b**"), "Strong(**a*b*)[Put(a) Put(*)] Put(*)");
}

#[test]
fn escaped_sigil_is_literal() {
    assert_eq!(lexed("a\\*b"), "Put(a*b)");
    assert_eq!(lexed("\\\\"), "Put(\\)");
    assert_eq!(lexed("*a\\*b*"), "Bold(*a\\*b*)[Put(a*b)]");
}

#[test]
fn escaped_n_is_a_line_break() {
    assert_eq!(lexed("a\\nb"), "Put(a) LineBreak(BR) Put(b)");
    assert_eq!(lexed("anb"), "Put(anb)");
}

#[test]
fn list_markers() {
    assert_eq!(lexed("* item"), "ListEl(* ) Put(item)");
    assert_eq!(lexed("** item"), "ListEl(** ) Put(item)");
    assert_eq!(lexed("*** item"), "ListEl(*** ) Put(item)");
    assert_eq!(lexed("**** item"), "ListEl(**** ) Put(item)");
}

#[test]
fn sigil_and_space_inside_a_line_is_text() {
    assert_eq!(lexed("a * b"), "Put(a ) Put(* b)");
    assert_eq!(lexed("a _ b"), "Put(a ) Put(_ b)");
    assert_eq!(lexed("a < b"), "Put(a ) Put(< b)");
}

#[test]
fn header_markers() {
    assert_eq!(lexed("# Title"), "Header(#) Put(Title)");
    assert_eq!(lexed("### Title"), "Header(###) Put(Title)");
    assert_eq!(lexed("#Title"), "Header(#) Put(Title)");
    assert_eq!(lexed("a # b"), "Put(a # b)");
}

#[test]
fn header_with_attributes() {
    assert_eq!(lexed("#{.x} T"), "Header(#)<{.x}> Put( T)");
}

#[test]
fn numbered_list_markers() {
    assert_eq!(lexed("#. one"), "NumberedListEl(# ) Put(one)");
    assert_eq!(lexed("##. one"), "NumberedListEl(## ) Put(one)");
}

#[test]
fn dot_without_space_stays_in_the_text() {
    assert_eq!(lexed("#.x"), "Header(#) Put(.x)");
    assert_eq!(lexed("#.."), "Header(#) Put(..)");
    assert_eq!(warned("#.x"), "");
}

#[test]
fn header_marker_alone_is_left_open() {
    assert_eq!(lexed("##"), "Header(##)");
    assert_eq!(warned("##"), "Unclosed Header token at ##");
    assert_eq!(lexed("#."), "Header(#) Put(.)");
}

#[test]
fn attribute_decorates_the_previous_token() {
    assert_eq!(lexed("*b*{.x}"), "Bold(*b*)<{.x}>[Put(b)]");
    assert_eq!(lexed("*b*{.x} c"), "Bold(*b*)<{.x}>[Put(b)] Put( c)");
}

#[test]
fn attribute_alone_is_a_token() {
    assert_eq!(lexed("{.x}"), "Attr({.x})");
    assert_eq!(lexed("{.x}text"), "Attr({.x}) Put(text)");
}

#[test]
fn brace_inside_a_word_is_text() {
    assert_eq!(lexed("a{b}"), "Put(a{b})");
}

#[test]
fn link_with_destination() {
    assert_eq!(lexed("[n](u)"), "LinkName([n])[Put(n)] LinkDir((u))");
    assert_eq!(lexed("[n](u){.x}"), "LinkName([n])[Put(n)] LinkDir((u))<{.x}>");
}

#[test]
fn parenthesis_elsewhere_is_text() {
    assert_eq!(lexed("a (b)"), "Put(a (b))");
    assert_eq!(lexed("[n]x(u)"), "LinkName([n])[Put(n)] Put(x(u))");
}

#[test]
fn image_spans() {
    assert_eq!(lexed("!pic!"), "Image(!pic!)");
    assert_eq!(lexed("a!! b"), "Put(a) Put(!! b)");
    assert_eq!(lexed("hi! there"), "Put(hi) Put(! there)");
}

#[test]
fn single_dash_is_text() {
    assert_eq!(lexed("a-b"), "Put(a) Put(-b)");
    assert_eq!(warned("a-b"), "");
}

#[test]
fn code_keeps_its_raw_text() {
    assert_eq!(lexed("`x`"), "Code(`x`)[Put(x)]");
}

#[test]
fn unterminated_single_delimiters() {
    assert_eq!(lexed("*hello"), "Put(*) Put(hello)");
    assert_eq!(warned("*hello"), "Unclosed Bold token at *hello");
    assert_eq!(lexed("a _b"), "Put(a ) Put(_) Put(b)");
    assert_eq!(warned("a _b"), "Unclosed Italic token at _b");
    assert_eq!(warned("~b"), "Unclosed Sub token at ~b");
    assert_eq!(warned("^b"), "Unclosed Sup token at ^b");
    assert_eq!(warned("[b"), "Unclosed LinkName token at [b");
    assert_eq!(warned("[a](b"), "Unclosed LinkDir token at (b");
    assert_eq!(warned("*a*{b"), "Unclosed Attr token at {b");
    assert_eq!(warned("!b"), "Unclosed Image token at !b");
    assert_eq!(warned("<b"), "Unclosed Html token at <b");
    assert_eq!(warned("`b"), "Unclosed Code token at `b");
    assert_eq!(warned("@b"), "Unclosed Span token at @b");
}

#[test]
fn unterminated_doubled_delimiters() {
    assert_eq!(lexed("**hello"), "Put(**) Put(hello)");
    assert_eq!(warned("**hello"), "Unclosed Strong token at **hello");
    assert_eq!(warned("__b"), "Unclosed Emphasis token at __b");
    assert_eq!(warned("~~b"), "Unclosed Strike token at ~~b");
    assert_eq!(warned("--b"), "Unclosed Under token at --b");
}

#[test]
fn dash_at_the_end_of_a_line() {
    assert_eq!(lexed("a-"), "Put(a) Put(-)");
    assert_eq!(warned("a-"), "Unclosed Under token at -");
}

#[test]
fn recovery_reads_the_rest_as_markup() {
    assert_eq!(lexed("*a _b_"), "Put(*) Put(a ) Italic(_b_)[Put(b)]");
}

#[test]
fn inner_warnings_are_not_reported() {
    assert_eq!(lexed("*a_b*"), "Bold(*a_b*)[Put(a) Put(_) Put(b)]");
    assert_eq!(warned("*a_b*"), "");
}

#[test]
fn non_ascii_delimiters_content() {
    assert_eq!(lexed("**a*\u{e9}*"), "Strong(**a*\u{e9}*)[Put(a) Put(*)]");
}

#[test]
fn table_row_line_is_one_token() {
    let (tokens, warning) = tokenize_line(&chars("|*h1|h2|"));
    assert_eq!(show_all(&tokens), "TableRow(|*h1|h2|)");
    assert_eq!(text(&warning), "");
    let (tokens, _) = tokenize_line(&chars("a|b"));
    assert_eq!(show_all(&tokens), "Put(a|b)");
}

#[test]
fn constructors() {
    assert_eq!(show(&Token::new()), "Put()");
    assert_eq!(show(&Token::n_para()), "Para()");
    assert_eq!(show(&Token::init(TokenType::Bold, chars("*x*"))), "Bold(*x*)");
    let kids = vec![Token::init(TokenType::Put, chars("x"))];
    assert_eq!(
        show(&Token::init_sub(TokenType::UList, kids, chars("* "))),
        "UList(* )[Put(x)]"
    );
}

#[test]
fn tokenize_content_strips_both_ends() {
    let mut t = Token::init(TokenType::Bold, chars("*x _y_*"));
    t.tokenize_content(1);
    assert_eq!(show(&t), "Bold(*x _y_*)[Put(x ) Italic(_y_)[Put(y)]]");
    let mut t = Token::init(TokenType::Strong, chars("**x**"));
    t.tokenize_content(2);
    assert_eq!(show(&t), "Strong(**x**)[Put(x)]");
}

#[test]
fn tokenize_unclosed_strips_the_start() {
    let mut t = Token::init(TokenType::Bold, chars("*xy"));
    t.tokenize_unclosed(1);
    assert_eq!(show(&t), "Bold(*xy)[Put(xy)]");
}

#[test]
fn push_token_skips_blank_tokens() {
    let mut list: Vec<Token> = Vec::new();
    push_token(&mut list, &Token::new());
    assert_eq!(list.len(), 0);
    push_token(&mut list, &Token::init(TokenType::Put, chars("a")));
    push_token(&mut list, &Token::init_sub(TokenType::Para, vec![Token::init(TokenType::Put, chars("b"))], Vec::new()));
    assert_eq!(show_all(&list), "Put(a) Para()[Put(b)]");
}

#[test]
fn clone_copies_the_tree() {
    let (tokens, _) = tokenize(&chars("*a _b_*{.x}"));
    let copy = tokens[0].clone();
    assert_eq!(show(&copy), show(&tokens[0]));
    assert_eq!(show(&copy), "Bold(*a _b_*)<{.x}>[Put(a ) Italic(_b_)[Put(b)]]");
}
