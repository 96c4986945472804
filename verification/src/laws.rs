//! Laws of the library: what holds of every text and of every token tree.

use vstd::prelude::*;
use crate::lexer::{
    interior, lex, lex_interior, lex_line, lex_run, lex_step, opener, step_char, step_put, LexState,
};
use crate::multiline_lexer::{list_depth, structure, BlockState};
use crate::syntax::{
    attributes, block_layout, closed, document_blocks, document_html, document_warnings, element, header_html,
    html_of, inline_html, inline_prefix, inline_token, layout, lines_tokens, lines_warnings,
    list_layout, opened, para_html, pieces_html, raw_html, rows_html, tag_name, ListState, Piece,
    Scope, Tag,
};
use crate::text::{escaped, escaped_ascii, lines_of, lines_run, LineState};
use crate::token::{TokenType, TokenView};

verus! {

/// A character that escaping leaves as it is.
pub open spec fn is_safe(c: char) -> bool {
    c as u32 <= 0x80 && c != '<' && c != '>' && c != '&' && c != '"' && c != '\''
}

/// Every character of `text` is left as it is by escaping.
pub open spec fn is_safe_text(text: Seq<char>) -> bool {
    forall|i: int| 0 <= i < text.len() ==> is_safe(#[trigger] text[i])
}

/// Escaping leaves safe text unchanged, and so does escaping it again.
pub proof fn law_escape_safe_text(text: Seq<char>)
    requires
        is_safe_text(text),
    ensures
        escaped(text) == text,
        escaped(escaped(text)) == escaped(text),
    decreases text.len(),
{
    if text.len() > 0 {
        law_escape_safe_text(text.drop_last());
        assert(is_safe(text[text.len() - 1]));
        assert(escaped_ascii(text.last()) == seq![text.last()]);
        assert(text.drop_last() + seq![text.last()] =~= text);
    } else {
        assert(text =~= Seq::empty());
    }
}

/// The number of opening tags of `tag` in `pieces`.
pub open spec fn opens(pieces: Seq<Piece>, tag: Tag) -> nat {
    opened(pieces, tag, pieces.len())
}

/// The number of closing tags of `tag` in `pieces`.
pub open spec fn closes(pieces: Seq<Piece>, tag: Tag) -> nat {
    closed(pieces, tag, pieces.len())
}

/// The number of open lists of kind `tag` in `stack`.
pub open spec fn open_lists(stack: Seq<Scope>, tag: Tag) -> nat
    decreases stack.len(),
{
    if stack.len() == 0 {
        0
    } else {
        open_lists(stack.drop_last(), tag) + (if stack.last().tag == tag {
            1nat
        } else {
            0nat
        })
    }
}

proof fn lemma_count_prefix(pieces: Seq<Piece>, more: Seq<Piece>, tag: Tag, n: nat)
    requires
        n <= pieces.len(),
    ensures
        opened(pieces + more, tag, n) == opened(pieces, tag, n),
        closed(pieces + more, tag, n) == closed(pieces, tag, n),
    decreases n,
{
    if n > 0 {
        lemma_count_prefix(pieces, more, tag, (n - 1) as nat);
    }
}

proof fn lemma_count_push(pieces: Seq<Piece>, piece: Piece, tag: Tag)
    ensures
        opens(pieces.push(piece), tag) == opens(pieces, tag) + (if piece matches Piece::Open {
            tag: t,
            ..
        } && t == tag {
            1nat
        } else {
            0nat
        }),
        closes(pieces.push(piece), tag) == closes(pieces, tag) + (if piece matches Piece::Close {
            tag: t,
        } && t == tag {
            1nat
        } else {
            0nat
        }),
{
    assert(pieces.push(piece) =~= pieces + seq![piece]);
    lemma_count_prefix(pieces, seq![piece], tag, pieces.len());
}

/// In the state `st` every opening tag of `tag` has its closing tag or its open list.
pub open spec fn accounted(st: ListState, tag: Tag) -> bool {
    opens(st.pieces, tag) == closes(st.pieces, tag) + open_lists(st.stack, tag)
}

proof fn lemma_close_top(st: ListState, tag: Tag)
    requires
        accounted(st, tag),
        st.stack.len() > 0,
    ensures
        accounted(st.close_top(), tag),
{
    lemma_count_push(st.pieces, Piece::Close { tag: st.stack.last().tag }, tag);
}

proof fn lemma_open(st: ListState, kind: Tag, depth: nat, attrs: Seq<char>, tag: Tag)
    requires
        accounted(st, tag),
    ensures
        accounted(st.open(kind, depth, attrs), tag),
{
    lemma_count_push(st.pieces, Piece::Open { tag: kind, attrs }, tag);
    assert(st.stack.push(Scope { tag: kind, depth }).drop_last() =~= st.stack);
}

proof fn lemma_close_deeper(st: ListState, depth: nat, tag: Tag)
    requires
        accounted(st, tag),
    ensures
        accounted(st.close_deeper(depth), tag),
    decreases st.stack.len(),
{
    if st.stack.len() > 0 && st.stack.last().depth > depth {
        lemma_close_top(st, tag);
        lemma_close_deeper(st.close_top(), depth, tag);
    }
}

proof fn lemma_close_all(st: ListState, tag: Tag)
    requires
        accounted(st, tag),
    ensures
        accounted(st.close_all(), tag),
        st.close_all().stack.len() == 0,
    decreases st.stack.len(),
{
    if st.stack.len() > 0 {
        lemma_close_top(st, tag);
        lemma_close_all(st.close_top(), tag);
    }
}

proof fn lemma_step(st: ListState, node: TokenView, tag: Tag)
    requires
        accounted(st, tag),
    ensures
        accounted(st.step(node), tag),
{
    if node.class == TokenType::UList || node.class
        == TokenType::OList {
        let kind = if node.class == TokenType::OList {
            Tag::Ol
        } else {
            Tag::Ul
        };
        let depth = list_depth(node.content);
        let s = st.close_deeper(depth);
        lemma_close_deeper(st, depth, tag);
        let t = if s.stack.len() > 0 && s.stack.last().depth == depth {
            if s.stack.last().tag == kind {
                s
            } else {
                lemma_close_top(s, tag);
                lemma_open(s.close_top(), kind, depth, node.attributes, tag);
                s.close_top().open(kind, depth, node.attributes)
            }
        } else {
            lemma_open(s, kind, depth, node.attributes, tag);
            s.open(kind, depth, node.attributes)
        };
        lemma_count_push(
            t.pieces,
            Piece::Text { html: inline_html(node.subtokens) },
            tag,
        );
    }
}

proof fn lemma_run(st: ListState, nodes: Seq<TokenView>, n: nat, tag: Tag)
    requires
        accounted(st, tag),
    ensures
        accounted(st.run(nodes, n), tag),
    decreases n,
{
    if n > 0 && n <= nodes.len() {
        lemma_run(st, nodes, (n - 1) as nat, tag);
        lemma_step(st.run(nodes, (n - 1) as nat), nodes[n - 1], tag);
    }
}

/// A list block adds as many closing tags as opening tags of each kind.
pub proof fn law_list_balanced(pieces: Seq<Piece>, nodes: Seq<TokenView>, tag: Tag)
    requires
        opens(pieces, tag) == closes(pieces, tag),
    ensures
        opens(list_layout(pieces, nodes), tag) == closes(list_layout(pieces, nodes), tag),
{
    let st = ListState { pieces, stack: Seq::empty() };
    lemma_run(st, nodes, nodes.len(), tag);
    lemma_close_all(st.run(nodes, nodes.len()), tag);
}

proof fn lemma_block_balanced(pieces: Seq<Piece>, block: TokenView, tag: Tag)
    requires
        opens(pieces, tag) == closes(pieces, tag),
    ensures
        opens(block_layout(pieces, block), tag) == closes(block_layout(pieces, block), tag),
{
    match block.class {
        TokenType::Para => {
            lemma_count_push(pieces, Piece::Text { html: para_html(block) }, tag);
        },
        TokenType::Header => {
            lemma_count_push(pieces, Piece::Text { html: header_html(block) }, tag);
        },
        TokenType::Html => {
            lemma_count_push(pieces, Piece::Text { html: raw_html(block) }, tag);
        },
        TokenType::ListBlock => {
            law_list_balanced(pieces, block.subtokens, tag);
        },
        TokenType::Table => {
            let p1 = pieces.push(Piece::Open { tag: Tag::Table, attrs: block.attributes });
            let text = Piece::Text {
                html: rows_html(block.subtokens, block.subtokens.len()),
            };
            let p2 = p1.push(text);
            lemma_count_push(pieces, Piece::Open { tag: Tag::Table, attrs: block.attributes }, tag);
            lemma_count_push(p1, text, tag);
            lemma_count_push(p2, Piece::Close { tag: Tag::Table }, tag);
        },
        _ => {},
    }
}

/// The renderer closes every list and every table that it opens: in the
/// output for any blocks, the opening tags and the closing tags of each of
/// `ul`, `ol` and `table` are equal in number.
pub proof fn law_tags_balanced(blocks: Seq<TokenView>, n: nat, tag: Tag)
    ensures
        opens(layout(blocks, n), tag) == closes(layout(blocks, n), tag),
    decreases n,
{
    if n > 0 && n <= blocks.len() {
        law_tags_balanced(blocks, (n - 1) as nat, tag);
        lemma_block_balanced(layout(blocks, (n - 1) as nat), blocks[n - 1], tag);
    }
}

/// A character that the inline lexer reads as plain text wherever it stands.
pub open spec fn is_plain(c: char) -> bool {
    c != '\\' && opener(c) is None && c != '#' && c != '(' && c != '{' && c != '\n'
}

/// Every character of `text` is plain.
pub open spec fn is_plain_text(text: Seq<char>) -> bool {
    forall|i: int| 0 <= i < text.len() ==> is_plain(#[trigger] text[i])
}

proof fn lemma_plain_run(text: Seq<char>, n: nat)
    requires
        is_plain_text(text),
        n <= text.len(),
    ensures
        lex_run(text, n) == (LexState {
            tokens: Seq::empty(),
            cur: TokenView::put(text.take(n as int)),
            escaping: false,
            pending: false,
            dot: false,
        }),
    decreases n,
{
    if n == 0 {
        assert(text.take(0) =~= Seq::empty());
    } else {
        lemma_plain_run(text, (n - 1) as nat);
        let c = text[n - 1];
        let prev = lex_run(text, (n - 1) as nat);
        assert(is_plain(c));
        assert(text.take(n - 1).push(c) =~= text.take(n as int));
        assert(lex_run(text, n) == lex_step(text.len(), prev, n - 1, c));
        let raw = prev.cur.content.push(c);
        let k1 = lex_interior(text.len(), interior(raw, 1));
        let k2 = lex_interior(text.len(), interior(raw, 2));
        assert(lex_step(text.len(), prev, n - 1, c) == step_char(prev, n - 1, c, k1, k2));
        assert(step_put(prev, n - 1, c) == prev.grow(c));
        assert(step_char(prev, n - 1, c, k1, k2) == prev.grow(c));
    }
}

/// Plain text is one plain token, and leaves no warning.
pub proof fn law_plain_tokens(text: Seq<char>)
    requires
        is_plain_text(text),
        text.len() > 0,
    ensures
        lex(text) == (seq![TokenView::put(text)], Seq::<char>::empty()),
{
    lemma_plain_run(text, text.len());
    assert(text.take(text.len() as int) =~= text);
    assert(Seq::<TokenView>::empty().push(TokenView::put(text)) =~= seq![TokenView::put(text)]);
}

proof fn lemma_one_line(text: Seq<char>, n: nat)
    requires
        is_plain_text(text),
        n <= text.len(),
    ensures
        lines_run(text, n) == (LineState { lines: Seq::empty(), cur: text.take(n as int) }),
    decreases n,
{
    if n == 0 {
        assert(text.take(0) =~= Seq::empty());
    } else {
        lemma_one_line(text, (n - 1) as nat);
        assert(is_plain(text[n - 1]));
        assert(text.take(n - 1).push(text[n - 1]) =~= text.take(n as int));
    }
}

/// A document of one line of plain text is one paragraph that holds the text,
/// escaped and otherwise unchanged, and it has no warnings.
pub proof fn law_plain_paragraph(text: Seq<char>)
    requires
        is_plain_text(text),
        text.len() > 0,
        text[0] != '|',
    ensures
        document_html(text) == "<p >"@ + escaped(text) + "</p>\n"@,
        document_warnings(text) == Seq::<Seq<char>>::empty(),
{
    lemma_one_line(text, text.len());
    assert(text.take(text.len() as int) =~= text);
    let lines = lines_of(text);
    assert(lines =~= seq![text]);
    law_plain_tokens(text);
    let line = seq![TokenView::put(text)];
    assert(lex_line(text) == lex(text));
    assert(lines_tokens(lines) =~= seq![line]);
    assert(lines_warnings(lines, 0) =~= Seq::empty());
    assert(lines_warnings(lines, 1) =~= Seq::empty());
    let para = TokenView::node(TokenType::Para, Seq::empty(), line);
    let start = BlockState::start();
    assert(BlockState::run(seq![line], 0) == start);
    assert(BlockState::run(seq![line], 1) == start.step(line));
    assert(start.flush() == start);
    assert(!start.continues(line));
    assert(start.step(line) == start.add_text(line));
    assert(start.add_text(line).blocks =~= seq![para]);
    assert(start.add_text(line).flush().blocks =~= seq![para]);
    assert(structure(seq![line]) == seq![para]);
    let blocks = seq![para];
    assert(layout(blocks, 0) =~= Seq::empty());
    let pieces = seq![Piece::Text { html: para_html(para) }];
    assert(layout(blocks, 1) =~= pieces);
    assert(pieces_html(pieces, 0) =~= Seq::empty());
    assert(html_of(pieces) =~= para_html(para));
    assert(inline_prefix(line, 0) =~= Seq::empty());
    assert(inline_html(line) =~= escaped(text));
    assert(attributes(Seq::empty()) =~= Seq::empty());
    reveal_strlit("<p ");
    reveal_strlit(">");
    reveal_strlit("<p >");
    assert("<p "@ + Seq::<char>::empty() + ">"@ =~= "<p >"@);
    assert(para_html(para) =~= "<p >"@ + escaped(text) + "</p>\n"@);
}

/// `text` between two `*`.
pub open spec fn in_stars(text: Seq<char>) -> Seq<char> {
    seq!['*'] + text + seq!['*']
}

/// The token of class `class` with the raw text `raw` around the plain text `text`.
pub open spec fn span_of(class: TokenType, raw: Seq<char>, text: Seq<char>) -> TokenView {
    TokenView::node(class, raw, seq![TokenView::put(text)])
}

proof fn lemma_step_unfold(input: Seq<char>, n: nat)
    requires
        0 < n <= input.len(),
        input[n - 1] != '\\',
    ensures
        lex_run(input, n) == step_char(
            lex_run(input, (n - 1) as nat),
            n - 1,
            input[n - 1],
            lex_interior(
                input.len(),
                interior(lex_run(input, (n - 1) as nat).cur.content.push(input[n - 1]), 1),
            ),
            lex_interior(
                input.len(),
                interior(lex_run(input, (n - 1) as nat).cur.content.push(input[n - 1]), 2),
            ),
        ),
{
    let prev = lex_run(input, (n - 1) as nat);
    assert(lex_run(input, n) == lex_step(input.len(), prev, n - 1, input[n - 1]));
}

proof fn lemma_bold_run(text: Seq<char>, j: nat)
    requires
        is_plain_text(text),
        text.len() > 0,
        text[0] != ' ',
        j <= text.len(),
    ensures
        lex_run(in_stars(text), j + 1) == (LexState {
            tokens: Seq::empty(),
            cur: TokenView::leaf(TokenType::Bold, seq!['*'] + text.take(j as int)),
            escaping: false,
            pending: false,
            dot: false,
        }),
    decreases j,
{
    let input = in_stars(text);
    lemma_step_unfold(input, j + 1);
    if j == 0 {
        assert(lex_run(input, 0) == LexState::start());
        assert(seq!['*'] + text.take(0) =~= seq!['*']);
    } else {
        lemma_bold_run(text, (j - 1) as nat);
        let c = text[j - 1];
        assert(input[j as int] == c);
        assert(is_plain(c));
        let prev = lex_run(input, j);
        let g = prev.grow(c);
        assert(g.cur.content =~= seq!['*'] + text.take(j as int));
        assert(g.cur.content.len() == j + 1);
        if c == ' ' {
            assert(j != 1);
        }
    }
}

/// A bold span around plain text: `*text*` is one bold token whose only child
/// is the text, it leaves no warning, and it renders as a `b` element around
/// the escaped text.
pub proof fn law_bold_span(text: Seq<char>)
    requires
        is_plain_text(text),
        text.len() > 0,
        text[0] != ' ',
    ensures
        lex(in_stars(text)) == (
            seq![span_of(TokenType::Bold, in_stars(text), text)],
            Seq::<char>::empty(),
        ),
        inline_html(seq![span_of(TokenType::Bold, in_stars(text), text)]) == element(
            "b"@,
            Seq::empty(),
            escaped(text),
        ),
{
    let input = in_stars(text);
    let k = text.len();
    lemma_bold_run(text, k);
    lemma_step_unfold(input, k + 2);
    law_plain_tokens(text);
    let prev = lex_run(input, k + 1);
    let g = prev.grow('*');
    assert(text.take(k as int) =~= text);
    assert(g.cur.content =~= input);
    assert(interior(input, 1) =~= text);
    assert(lex_interior(input.len(), text) == lex(text).0);
    let token = span_of(TokenType::Bold, input, text);
    assert(lex_run(input, k + 2).tokens =~= seq![token]);
    lemma_span_html(token, text);
}

proof fn lemma_span_html(token: TokenView, text: Seq<char>)
    requires
        token.subtokens == seq![TokenView::put(text)],
        token.attributes == Seq::<char>::empty(),
        token.class == TokenType::Bold || token.class == TokenType::Strong,
    ensures
        inline_html(seq![token]) == element(tag_name(token.class), Seq::empty(), escaped(text)),
{
    let kids = seq![TokenView::put(text)];
    assert(inline_prefix(kids, 0) =~= Seq::empty());
    assert(inline_html(kids) =~= escaped(text));
    let tokens = seq![token];
    assert(inline_prefix(tokens, 0) =~= Seq::empty());
    assert(inline_html(tokens) =~= inline_token(tokens, 0));
}

/// `text` between two `**`.
pub open spec fn in_double_stars(text: Seq<char>) -> Seq<char> {
    seq!['*', '*'] + text + seq!['*', '*']
}

proof fn lemma_strong_run(text: Seq<char>, j: nat)
    requires
        is_plain_text(text),
        text.len() > 0,
        text[0] != ' ',
        j <= text.len(),
    ensures
        lex_run(in_double_stars(text), j + 2) == (LexState {
            tokens: Seq::empty(),
            cur: TokenView::leaf(TokenType::Strong, seq!['*', '*'] + text.take(j as int)),
            escaping: false,
            pending: false,
            dot: false,
        }),
    decreases j,
{
    let input = in_double_stars(text);
    lemma_step_unfold(input, j + 2);
    if j == 0 {
        lemma_step_unfold(input, 1);
        assert(lex_run(input, 0) == LexState::start());
        let first = lex_run(input, 1);
        assert(first.cur == TokenView::leaf(TokenType::Bold, seq!['*']));
        assert(first.tokens =~= Seq::empty());
        let g = first.grow('*');
        assert(g.cur.content =~= seq!['*', '*']);
        assert(seq!['*', '*'] + text.take(0) =~= seq!['*', '*']);
    } else {
        lemma_strong_run(text, (j - 1) as nat);
        let c = text[j - 1];
        assert(input[j as int + 1] == c);
        assert(is_plain(c));
        let prev = lex_run(input, j + 1);
        let g = prev.grow(c);
        assert(g.cur.content =~= seq!['*', '*'] + text.take(j as int));
        assert(g.cur.content.len() == j + 2);
        if c == ' ' {
            assert(j != 1);
        }
    }
}

/// A strong span around plain text: `**text**` is one strong token whose only
/// child is the text, it leaves no warning, and it renders as a `strong`
/// element around the escaped text.
pub proof fn law_strong_span(text: Seq<char>)
    requires
        is_plain_text(text),
        text.len() > 0,
        text[0] != ' ',
    ensures
        lex(in_double_stars(text)) == (
            seq![span_of(TokenType::Strong, in_double_stars(text), text)],
            Seq::<char>::empty(),
        ),
        inline_html(seq![span_of(TokenType::Strong, in_double_stars(text), text)]) == element(
            "strong"@,
            Seq::empty(),
            escaped(text),
        ),
{
    let input = in_double_stars(text);
    let k = text.len();
    lemma_strong_run(text, k);
    lemma_step_unfold(input, k + 3);
    lemma_step_unfold(input, k + 4);
    law_plain_tokens(text);
    assert(text.take(k as int) =~= text);
    let prev = lex_run(input, k + 2);
    let g = prev.grow('*');
    assert(g.cur.content.len() == k + 3);
    let waiting = lex_run(input, k + 3);
    assert(waiting == LexState { pending: true, ..g });
    let h = waiting.grow('*');
    assert(h.cur.content =~= input);
    assert(interior(input, 2) =~= text);
    assert(lex_interior(input.len(), text) == lex(text).0);
    let token = span_of(TokenType::Strong, input, text);
    assert(lex_run(input, k + 4).tokens =~= seq![token]);
    lemma_span_html(token, text);
}

/// The renderer closes every list and every table that it opens, whatever the
/// document: in the pieces written for `text`, the opening tags and the
/// closing tags of each of `ul`, `ol` and `table` are equal in number.
pub proof fn law_document_balanced(text: Seq<char>, tag: Tag)
    ensures
        opens(layout(document_blocks(text), document_blocks(text).len()), tag) == closes(
            layout(document_blocks(text), document_blocks(text).len()),
            tag,
        ),
{
    law_tags_balanced(document_blocks(text), document_blocks(text).len(), tag);
}

} // verus!
