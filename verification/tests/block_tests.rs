use kami::lexer::tokenize_line;
use kami::multiline_lexer::{add_table, block_lexer, get_list_depth, marker_depth, table_parse};
use kami::token::{Token, TokenType};

fn chars(s: &str) -> Vec<char> {
    s.chars().collect()
}

fn text(v: &Vec<char>) -> String {
    v.iter().collect()
}

fn show(t: &Token) -> String {
    let mut s = format!("{:?}({})", t.class, text(&t.content));
    if !t.attributes.is_empty() {
        s += &format!("<{}>", text(&t.attributes));
    }
    if !t.subtokens.is_empty() {
        s += &format!("[{}]", show_all(&t.subtokens));
    }
    s
}

fn show_all(ts: &Vec<Token>) -> String {
    let parts: Vec<String> = ts.iter().map(show).collect();
    parts.join(" ")
}

fn row(s: &str) -> String {
    show(&table_parse(&chars(s)))
}

fn blocks(lines: &[&str]) -> String {
    let tokens: Vec<Vec<Token>> = lines.iter().map(|l| tokenize_line(&chars(l)).0).collect();
    show_all(&block_lexer(&tokens))
}

#[test]
fn row_with_header_marker() {
    assert_eq!(
        row("|*h1|h2|"),
        "TableRow()[TableHeader(h1)[Put(h1)] TableCell(h2)[Put(h2)]]"
    );
}

#[test]
fn row_with_spaced_cells() {
    assert_eq!(
        row("| a | b |"),
        "TableRow()[TableCell(a )[Put(a )] TableCell(b )[Put(b )]]"
    );
}

#[test]
fn row_and_column_spans() {
    assert_eq!(
        row("|r2c3 x|"),
        "TableRow()[TableCell(x)<{ rowspan=\"2\" colspan=\"3\"}>[Put(x)]]"
    );
    assert_eq!(row("|c12 x|"), "TableRow()[TableCell(x)<{ colspan=\"12\"}>[Put(x)]]");
}

#[test]
fn cell_attributes() {
    assert_eq!(row("|{.a} x|"), "TableRow()[TableCell(x)<{.a}>[Put(x)]]");
    assert_eq!(
        row("|*{.a-b}r2 x|"),
        "TableRow()[TableHeader(x)<{.a-b rowspan=\"2\"}>[Put(x)]]"
    );
}

#[test]
fn merged_cell_yields_no_cell() {
    assert_eq!(row("|- x|y|"), "TableRow()[TableCell(y)[Put(y)]]");
    assert_eq!(row("|-|y|"), "TableRow()[TableCell(y)[Put(y)]]");
}

#[test]
fn row_attributes_follow_the_last_cell() {
    assert_eq!(
        row("|a|b|{.r}"),
        "TableRow()<{.r}>[TableCell(a)[Put(a)] TableCell(b)[Put(b)]]"
    );
}

#[test]
fn escaped_pipe_stays_in_the_cell() {
    assert_eq!(row("|a\\|b|"), "TableRow()[TableCell(a\\|b)[Put(a|b)]]");
}

#[test]
fn tabs_at_the_end_of_a_cell_are_not_tokenized() {
    assert_eq!(row("|a\t\t|"), "TableRow()[TableCell(a\t\t)[Put(a)]]");
}

#[test]
fn digit_outside_a_span_starts_the_text() {
    assert_eq!(row("|5x|"), "TableRow()[TableCell(5x)[Put(5x)]]");
    assert_eq!(row("|}x|"), "TableRow()[TableCell(}x)[Put(}x)]]");
}

#[test]
fn cell_content_is_markup() {
    assert_eq!(row("| *b* |"), "TableRow()[TableCell(*b* )[Bold(*b*)[Put(b)] Put( )]]");
}

#[test]
fn rows_without_cells() {
    assert_eq!(row(""), "TableRow()");
    assert_eq!(row("|"), "TableRow()");
    assert_eq!(row("|x"), "TableRow()");
    assert_eq!(row("|*|"), "TableRow()");
}

#[test]
fn list_with_nested_list() {
    assert_eq!(
        blocks(&["* a", "** b", "* c"]),
        "ListBlock()[UList(* )[ListEl(* )[Put(a)]] UList(** )[ListEl(** )[Put(b)]] UList(* )[ListEl(* )[Put(c)]]]"
    );
}

#[test]
fn items_of_one_depth_share_a_node() {
    assert_eq!(
        blocks(&["* a", "* b"]),
        "ListBlock()[UList(* )[ListEl(* )[Put(a)] ListEl(* )[Put(b)]]]"
    );
}

#[test]
fn kinds_of_list_alternate() {
    assert_eq!(
        blocks(&["* a", "#. b", "#. c"]),
        "ListBlock()[UList(* )[ListEl(* )[Put(a)]] OList(# )[NumberedListEl(# )[Put(b)] NumberedListEl(# )[Put(c)]]]"
    );
}

#[test]
fn deferred_attribute_on_each_kind_of_block() {
    assert_eq!(blocks(&["{.x}", "* a"]), "ListBlock()[UList(* )<{.x}>[ListEl(* )[Put(a)]]]");
    assert_eq!(blocks(&["{.x}", "para"]), "Para()<{.x}>[Put(para)]");
    assert_eq!(blocks(&["{.x}", "# T"]), "Header(#)<{.x}>[Put(T)]");
    assert_eq!(
        blocks(&["{.x}", "|a|"]),
        "Table()<{.x}>[TableRow()[TableCell(a)[Put(a)]]]"
    );
}

#[test]
fn deferred_attribute_is_used_once() {
    assert_eq!(blocks(&["{.x}", "a", "", "b"]), "Para()<{.x}>[Put(a)] Para()[Put(b)]");
    assert_eq!(blocks(&["{.x}"]), "");
}

#[test]
fn own_attribute_comes_first() {
    assert_eq!(
        blocks(&["{.x}", "#{.y} T", "p"]),
        "Header(#)<{.y}>[Put( T)] Para()<{.x}>[Put(p)]"
    );
}

#[test]
fn attribute_and_text_on_one_line() {
    assert_eq!(blocks(&["{.x}rest"]), "Para()<{.x}>[Put(rest)]");
}

#[test]
fn leading_space_continues_the_paragraph() {
    assert_eq!(blocks(&["one", " two"]), "Para()[Put(one) LineBreak(\n) Put(two)]");
    assert_eq!(blocks(&["one", "", " two"]), "Para()[Put(one) LineBreak(\n) Put(two)]");
    assert_eq!(blocks(&["one", " "]), "Para()[Put(one) LineBreak(\n)]");
}

#[test]
fn leading_space_after_another_block_starts_a_paragraph() {
    assert_eq!(blocks(&["# T", " x"]), "Header(#)[Put(T)] Para()[Put( x)]");
    assert_eq!(blocks(&[" x"]), "Para()[Put( x)]");
}

#[test]
fn lines_without_leading_space_are_paragraphs() {
    assert_eq!(blocks(&["one", "two"]), "Para()[Put(one)] Para()[Put(two)]");
}

#[test]
fn rows_share_a_table_while_contiguous() {
    assert_eq!(
        blocks(&["|a|", "|b|", "", "|x|"]),
        "Table()[TableRow()[TableCell(a)[Put(a)]] TableRow()[TableCell(b)[Put(b)]]] Table()[TableRow()[TableCell(x)[Put(x)]]]"
    );
    assert_eq!(
        blocks(&["|a|", "text"]),
        "Table()[TableRow()[TableCell(a)[Put(a)]]] Para()[Put(text)]"
    );
}

#[test]
fn blocks_keep_document_order() {
    assert_eq!(
        blocks(&["* a", "|x|", "* b"]),
        "ListBlock()[UList(* )[ListEl(* )[Put(a)]]] Table()[TableRow()[TableCell(x)[Put(x)]]] ListBlock()[UList(* )[ListEl(* )[Put(b)]]]"
    );
    assert_eq!(
        blocks(&["* a", "text", "* b"]),
        "ListBlock()[UList(* )[ListEl(* )[Put(a)]]] Para()[Put(text)] ListBlock()[UList(* )[ListEl(* )[Put(b)]]]"
    );
}

#[test]
fn blank_line_does_not_close_a_list() {
    assert_eq!(
        blocks(&["* a", "", "* b"]),
        "ListBlock()[UList(* )[ListEl(* )[Put(a)] ListEl(* )[Put(b)]]]"
    );
}

#[test]
fn raw_html_line() {
    assert_eq!(blocks(&["<div>", "hi"]), "Html(<div>) Para()[Put(hi)]");
    assert_eq!(blocks(&["<div> hi"]), "Html(<div>)[Put( hi)]");
}

#[test]
fn image_lines() {
    assert_eq!(blocks(&["!pic!"]), "Image(!pic!)");
    assert_eq!(blocks(&["!pic! caption"]), "Para()[Image(!pic!) Put( caption)]");
}

#[test]
fn no_lines_no_blocks() {
    assert_eq!(blocks(&[]), "");
    assert_eq!(blocks(&["", ""]), "");
}

#[test]
fn depth_is_marker_run_less_one() {
    assert_eq!(get_list_depth(&Token::init(TokenType::ListEl, chars("* "))), 0);
    assert_eq!(get_list_depth(&Token::init(TokenType::ListEl, chars("** "))), 1);
    assert_eq!(get_list_depth(&Token::init(TokenType::NumberedListEl, chars("# "))), 0);
    assert_eq!(get_list_depth(&Token::init(TokenType::OList, chars("### "))), 2);
    assert_eq!(marker_depth(&chars("")), 0);
    assert_eq!(marker_depth(&chars("****")), 3);
}

#[test]
fn add_table_moves_a_table_with_rows() {
    let mut out: Vec<Token> = Vec::new();
    let mut table = Token::init(TokenType::Table, Vec::new());
    add_table(&mut out, &mut table);
    assert_eq!(out.len(), 0);
    table.subtokens.push(table_parse(&chars("|a|")));
    add_table(&mut out, &mut table);
    assert_eq!(show_all(&out), "Table()[TableRow()[TableCell(a)[Put(a)]]]");
    assert_eq!(show(&table), "Table()");
}

#[test]
fn span_letters_are_markers() {
    assert_eq!(row("|c|"), "TableRow()");
    assert_eq!(row("| c|"), "TableRow()[TableCell(c)[Put(c)]]");
    assert_eq!(row("|cat|"), "TableRow()[TableCell(at)[Put(at)]]");
}
