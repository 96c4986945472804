//! The renderer: attribute spans, inline tokens and blocks become HTML.

use vstd::prelude::*;
use crate::lexer::{interior, lex_line, tokenize_line};
use crate::multiline_lexer::{
    block_lexer, line_views, list_depth, marker_depth, structure,
};
use crate::text::{
    append, append_str, chars_of, escape, escaped, line_seqs, lines_of, slice_of, split_lines,
    string_of,
};
use crate::token::{lemma_view, views, Token, TokenType, TokenView};

verus! {

/// What the characters inside an attribute span are collected into.
#[derive(Clone, Copy, Debug, PartialEq, Eq, Structural)]
pub enum AttrMode {
    /// Free-form text.
    Rest,
    /// A class name, after a `.`.
    Class,
    /// An id, after a `#`.
    Id,
}

/// The state of the scan of an attribute span.
#[verifier::ext_equal]
pub ghost struct AttrState {
    pub mode: AttrMode,
    pub id: Seq<char>,
    pub class: Seq<char>,
    pub rest: Seq<char>,
}

impl AttrState {
    /// The state before the first character.
    pub open spec fn start() -> AttrState {
        AttrState {
            mode: AttrMode::Rest,
            id: Seq::empty(),
            class: Seq::empty(),
            rest: Seq::empty(),
        }
    }

    /// The state after the character `c`. A `.` starts a class name and a `#`
    /// starts the id anew; a space ends either and stays in the class text.
    pub open spec fn step(self, c: char) -> AttrState {
        match self.mode {
            AttrMode::Rest => if c == '.' {
                AttrState { mode: AttrMode::Class, ..self }
            } else if c == '#' {
                AttrState { mode: AttrMode::Id, id: Seq::empty(), ..self }
            } else {
                AttrState { rest: self.rest.push(c), ..self }
            },
            AttrMode::Class => if c == ' ' {
                AttrState { mode: AttrMode::Rest, class: self.class.push(c), ..self }
            } else {
                AttrState { class: self.class.push(c), ..self }
            },
            AttrMode::Id => if c == ' ' {
                AttrState { mode: AttrMode::Rest, ..self }
            } else {
                AttrState { id: self.id.push(c), ..self }
            },
        }
    }

    /// The state after the first `n` characters of `text`.
    pub open spec fn run(text: Seq<char>, n: nat) -> AttrState
        decreases n,
    {
        if n == 0 || n > text.len() {
            AttrState::start()
        } else {
            AttrState::run(text, (n - 1) as nat).step(text[n - 1])
        }
    }

    /// The HTML attribute text: the id, the classes, then the free-form text.
    pub open spec fn html(self) -> Seq<char> {
        let id = if self.id.len() > 0 {
            "id=\""@ + self.id + "\" "@
        } else {
            Seq::empty()
        };
        let class = if self.class.len() > 0 {
            "class=\""@ + self.class + "\" "@
        } else {
            Seq::empty()
        };
        id + class + self.rest
    }
}

/// The HTML attribute text of the attribute span `raw`, braces included. An
/// empty span, `{}` and anything shorter than two characters give no text.
pub open spec fn attributes(raw: Seq<char>) -> Seq<char> {
    if raw.len() < 2 || (raw.len() == 2 && raw[0] == '{' && raw[1] == '}') {
        Seq::empty()
    } else {
        AttrState::run(interior(raw, 1), (raw.len() - 2) as nat).html()
    }
}

/// Renders an attribute span as HTML attribute text.
pub fn parse_attr(inp: &Vec<char>) -> (out: Vec<char>)
    ensures
        out@ == attributes(inp@),
{
    let n = inp.len();
    if n < 2 || (n == 2 && inp[0] == '{' && inp[1] == '}') {
        return Vec::new();
    }
    let input = slice_of(inp, 1, n - 1);
    let mut mode = AttrMode::Rest;
    let mut id: Vec<char> = Vec::new();
    let mut class: Vec<char> = Vec::new();
    let mut rest: Vec<char> = Vec::new();
    let mut i: usize = 0;
    while i < input.len()
        invariant
            i <= input.len(),
            AttrState::run(input@, i as nat) == (AttrState {
                mode,
                id: id@,
                class: class@,
                rest: rest@,
            }),
        decreases input.len() - i,
    {
        let c = input[i];
        match mode {
            AttrMode::Rest => {
                if c == '.' {
                    mode = AttrMode::Class;
                } else if c == '#' {
                    id = Vec::new();
                    mode = AttrMode::Id;
                } else {
                    rest.push(c);
                }
            },
            AttrMode::Class => {
                class.push(c);
                if c == ' ' {
                    mode = AttrMode::Rest;
                }
            },
            AttrMode::Id => {
                if c == ' ' {
                    mode = AttrMode::Rest;
                } else {
                    id.push(c);
                }
            },
        }
        i += 1;
    }
    let mut out: Vec<char> = Vec::new();
    if id.len() > 0 {
        append_str(&mut out, "id=\"");
        append(&mut out, &id);
        append_str(&mut out, "\" ");
    }
    if class.len() > 0 {
        append_str(&mut out, "class=\"");
        append(&mut out, &class);
        append_str(&mut out, "\" ");
    }
    append(&mut out, &rest);
    assert(out@ =~= AttrState::run(input@, input@.len()).html());
    out
}

/// The HTML element name of an inline class that wraps its children.
pub open spec fn tag_name(class: TokenType) -> Seq<char> {
    match class {
        TokenType::Bold => "b"@,
        TokenType::Italic => "i"@,
        TokenType::Emphasis => "em"@,
        TokenType::Strong => "strong"@,
        TokenType::Sub => "sub"@,
        TokenType::Sup => "sup"@,
        TokenType::Span => "span"@,
        TokenType::Strike => "s"@,
        TokenType::Under => "u"@,
        TokenType::Code => "code"@,
        _ => Seq::empty(),
    }
}

/// The element `tag` with the attribute span `attrs` around `body`.
pub open spec fn element(tag: Seq<char>, attrs: Seq<char>, body: Seq<char>) -> Seq<char> {
    "<"@ + tag + " "@ + attributes(attrs) + ">"@ + body + "</"@ + tag + ">"@
}

/// The anchor to `href` with the attribute span `attrs` around `name`.
pub open spec fn anchor(href: Seq<char>, attrs: Seq<char>, name: Seq<char>) -> Seq<char> {
    "<a href=\""@ + href + "\" "@ + attributes(attrs) + ">"@ + name + "</a>"@
}

/// The HTML of the inline tokens `tokens`.
pub open spec fn inline_html(tokens: Seq<TokenView>) -> Seq<char>
    decreases tokens, tokens.len() + 1,
{
    inline_prefix(tokens, tokens.len())
}

/// The HTML of the first `n` tokens of `tokens`.
pub open spec fn inline_prefix(tokens: Seq<TokenView>, n: nat) -> Seq<char>
    decreases tokens, n,
{
    if n == 0 || n > tokens.len() {
        Seq::empty()
    } else {
        inline_prefix(tokens, (n - 1) as nat) + inline_token(tokens, n - 1)
    }
}

/// The HTML of the token at index `i` of `tokens`. Plain text is escaped; a
/// span wraps the HTML of its children in its element; code is escaped and
/// not read as markup; a link name takes its address from a link destination
/// that follows it at once, and from its own text otherwise; any other token
/// gives its raw text.
pub open spec fn inline_token(tokens: Seq<TokenView>, i: int) -> Seq<char>
    decreases tokens, 0nat,
{
    if 0 <= i < tokens.len() {
        let t = tokens[i];
        match t.class {
            TokenType::Put => escaped(t.content),
            TokenType::Bold | TokenType::Italic | TokenType::Emphasis | TokenType::Strong
            | TokenType::Sub | TokenType::Sup | TokenType::Span | TokenType::Strike
            | TokenType::Under => element(
                tag_name(t.class),
                t.attributes,
                inline_html(t.subtokens),
            ),
            TokenType::Code => element(
                tag_name(t.class),
                t.attributes,
                escaped(interior(t.content, 1)),
            ),
            TokenType::LineBreak => "<br>"@,
            TokenType::LinkName => {
                let name = inline_html(t.subtokens);
                if i + 1 < tokens.len() && tokens[i + 1].class == TokenType::LinkDir {
                    anchor(interior(tokens[i + 1].content, 1), tokens[i + 1].attributes, name)
                } else {
                    anchor(name, t.attributes, name)
                }
            },
            TokenType::ListEl | TokenType::NumberedListEl => "<li "@ + attributes(t.attributes)
                + ">"@ + inline_html(t.subtokens) + "</li>\n"@,
            TokenType::LinkDir => Seq::empty(),
            _ => t.content,
        }
    } else {
        Seq::empty()
    }
}

/// The HTML element name of an inline class that wraps its children.
fn tag_text(class: TokenType) -> (name: &'static str)
    ensures
        name@ == tag_name(class),
{
    match class {
        TokenType::Bold => "b",
        TokenType::Italic => "i",
        TokenType::Emphasis => "em",
        TokenType::Strong => "strong",
        TokenType::Sub => "sub",
        TokenType::Sup => "sup",
        TokenType::Span => "span",
        TokenType::Strike => "s",
        TokenType::Under => "u",
        TokenType::Code => "code",
        _ => {
            let name = "";
            proof {
                reveal_strlit("");
                assert(name@ =~= Seq::empty());
            }
            name
        },
    }
}

/// Appends the element `tag` with the attribute span `attrs` around `body`.
fn push_element(out: &mut Vec<char>, tag: &str, attrs: &Vec<char>, body: &Vec<char>)
    ensures
        final(out)@ == old(out)@ + element(tag@, attrs@, body@),
{
    append_str(out, "<");
    append_str(out, tag);
    append_str(out, " ");
    let a = parse_attr(attrs);
    append(out, &a);
    append_str(out, ">");
    append(out, body);
    append_str(out, "</");
    append_str(out, tag);
    append_str(out, ">");
    assert(out@ =~= old(out)@ + element(tag@, attrs@, body@));
}

/// Appends the anchor to `href` with the attribute span `attrs` around `name`.
fn push_anchor(out: &mut Vec<char>, href: &Vec<char>, attrs: &Vec<char>, name: &Vec<char>)
    ensures
        final(out)@ == old(out)@ + anchor(href@, attrs@, name@),
{
    append_str(out, "<a href=\"");
    append(out, href);
    append_str(out, "\" ");
    let a = parse_attr(attrs);
    append(out, &a);
    append_str(out, ">");
    append(out, name);
    append_str(out, "</a>");
    assert(out@ =~= old(out)@ + anchor(href@, attrs@, name@));
}

/// The raw text `raw` without its first and last character; empty where it
/// has fewer than two.
fn inner(raw: &Vec<char>) -> (r: Vec<char>)
    ensures
        r@ == interior(raw@, 1),
{
    if raw.len() >= 2 {
        slice_of(raw, 1, raw.len() - 1)
    } else {
        Vec::new()
    }
}

/// Renders inline tokens as HTML.
pub fn parse_line(input: &Vec<Token>) -> (out: Vec<char>)
    ensures
        out@ == inline_html(views(input@)),
    decreases input,
{
    let mut out: Vec<char> = Vec::new();
    let mut i: usize = 0;
    while i < input.len()
        invariant
            i <= input.len(),
            out@ == inline_prefix(views(input@), i as nat),
        decreases input.len() - i,
    {
        let t = &input[i];
        let ghost before = out@;
        proof {
            lemma_view(*t);
        }
        match t.class {
            TokenType::Put => {
                let e = escape(&t.content);
                append(&mut out, &e);
            },
            TokenType::Bold | TokenType::Italic | TokenType::Emphasis | TokenType::Strong
            | TokenType::Sub | TokenType::Sup | TokenType::Span | TokenType::Strike
            | TokenType::Under => {
                let body = parse_line(&t.subtokens);
                push_element(&mut out, tag_text(t.class), &t.attributes, &body);
            },
            TokenType::Code => {
                let body = escape(&inner(&t.content));
                push_element(&mut out, tag_text(t.class), &t.attributes, &body);
            },
            TokenType::LineBreak => {
                append_str(&mut out, "<br>");
            },
            TokenType::LinkName => {
                let name = parse_line(&t.subtokens);
                if i + 1 < input.len() && input[i + 1].class == TokenType::LinkDir {
                    let next = &input[i + 1];
                    proof {
                        lemma_view(*next);
                    }
                    push_anchor(&mut out, &inner(&next.content), &next.attributes, &name);
                } else {
                    push_anchor(&mut out, &name, &t.attributes, &name);
                }
            },
            TokenType::ListEl | TokenType::NumberedListEl => {
                let body = parse_line(&t.subtokens);
                append_str(&mut out, "<li ");
                let a = parse_attr(&t.attributes);
                append(&mut out, &a);
                append_str(&mut out, ">");
                append(&mut out, &body);
                append_str(&mut out, "</li>\n");
            },
            TokenType::LinkDir => {},
            _ => {
                append(&mut out, &t.content);
            },
        }
        assert(out@ =~= before + inline_token(views(input@), i as int));
        i += 1;
    }
    out
}

/// An element whose opening and closing tags the block renderer writes apart.
#[derive(Clone, Copy, Debug, PartialEq, Eq, Structural)]
pub enum Tag {
    /// An unordered list.
    Ul,
    /// An ordered list.
    Ol,
    /// A table.
    Table,
}

/// One piece of the output of the block renderer.
pub ghost enum Piece {
    /// The opening tag of `tag`, with the attribute span `attrs`.
    Open { tag: Tag, attrs: Seq<char> },
    /// The closing tag of `tag`.
    Close { tag: Tag },
    /// Any other text.
    Text { html: Seq<char> },
}

/// The element name of `tag`.
pub open spec fn tag_html(tag: Tag) -> Seq<char> {
    match tag {
        Tag::Ul => "ul"@,
        Tag::Ol => "ol"@,
        Tag::Table => "table"@,
    }
}

/// The text of one piece.
pub open spec fn piece_html(piece: Piece) -> Seq<char> {
    match piece {
        Piece::Open { tag, attrs } => "<"@ + tag_html(tag) + " "@ + attributes(attrs) + ">\n"@,
        Piece::Close { tag } => "</"@ + tag_html(tag) + ">\n"@,
        Piece::Text { html } => html,
    }
}

/// The text of the first `n` pieces of `pieces`.
pub open spec fn pieces_html(pieces: Seq<Piece>, n: nat) -> Seq<char>
    decreases n,
{
    if n == 0 || n > pieces.len() {
        Seq::empty()
    } else {
        pieces_html(pieces, (n - 1) as nat) + piece_html(pieces[n - 1])
    }
}

/// The number of opening tags of `tag` among the first `n` pieces of `pieces`.
pub open spec fn opened(pieces: Seq<Piece>, tag: Tag, n: nat) -> nat
    decreases n,
{
    if n == 0 || n > pieces.len() {
        0
    } else {
        opened(pieces, tag, (n - 1) as nat) + (if pieces[n - 1] matches Piece::Open { tag: t, .. }
            && t == tag {
            1nat
        } else {
            0nat
        })
    }
}

/// The number of closing tags of `tag` among the first `n` pieces of `pieces`.
pub open spec fn closed(pieces: Seq<Piece>, tag: Tag, n: nat) -> nat
    decreases n,
{
    if n == 0 || n > pieces.len() {
        0
    } else {
        closed(pieces, tag, (n - 1) as nat) + (if pieces[n - 1] matches Piece::Close { tag: t }
            && t == tag {
            1nat
        } else {
            0nat
        })
    }
}

/// A list that the renderer has opened and not yet closed.
pub ghost struct Scope {
    pub tag: Tag,
    pub depth: nat,
}

/// The state of the renderer inside a list block.
pub ghost struct ListState {
    /// The pieces written so far.
    pub pieces: Seq<Piece>,
    /// The lists that are open, the innermost last.
    pub stack: Seq<Scope>,
}

impl ListState {
    /// The innermost open list is closed.
    pub open spec fn close_top(self) -> ListState {
        ListState {
            pieces: self.pieces.push(Piece::Close { tag: self.stack.last().tag }),
            stack: self.stack.drop_last(),
        }
    }

    /// The open lists that lie deeper than `depth` are closed, the innermost first.
    pub open spec fn close_deeper(self, depth: nat) -> ListState
        decreases self.stack.len(),
    {
        if self.stack.len() > 0 && self.stack.last().depth > depth {
            self.close_top().close_deeper(depth)
        } else {
            self
        }
    }

    /// All open lists are closed, the innermost first.
    pub open spec fn close_all(self) -> ListState
        decreases self.stack.len(),
    {
        if self.stack.len() > 0 {
            self.close_top().close_all()
        } else {
            self
        }
    }

    /// A list of kind `tag` at depth `depth` is opened.
    pub open spec fn open(self, tag: Tag, depth: nat, attrs: Seq<char>) -> ListState {
        ListState {
            pieces: self.pieces.push(Piece::Open { tag, attrs }),
            stack: self.stack.push(Scope { tag, depth }),
        }
    }

    /// The list node `node` is rendered. Open lists deeper than the node are
    /// closed. The node then goes on in the open list of its depth if that has
    /// its kind, takes its place after closing it if not, and opens a nested
    /// list where the innermost open one is shallower. Its items follow.
    pub open spec fn enter(self, node: TokenView) -> ListState {
        let tag = if node.class == TokenType::OList {
            Tag::Ol
        } else {
            Tag::Ul
        };
        let depth = list_depth(node.content);
        let s = self.close_deeper(depth);
        let t = if s.stack.len() > 0 && s.stack.last().depth == depth {
            if s.stack.last().tag == tag {
                s
            } else {
                s.close_top().open(tag, depth, node.attributes)
            }
        } else {
            s.open(tag, depth, node.attributes)
        };
        ListState {
            pieces: t.pieces.push(Piece::Text { html: inline_html(node.subtokens) }),
            ..t
        }
    }

    /// The state after the child `node` of a list block; only list nodes count.
    pub open spec fn step(self, node: TokenView) -> ListState {
        if node.class == TokenType::UList || node.class == TokenType::OList {
            self.enter(node)
        } else {
            self
        }
    }

    /// The state after the first `n` of the nodes `nodes`, from the state `self`.
    pub open spec fn run(self, nodes: Seq<TokenView>, n: nat) -> ListState
        decreases n,
    {
        if n == 0 || n > nodes.len() {
            self
        } else {
            self.run(nodes, (n - 1) as nat).step(nodes[n - 1])
        }
    }
}

/// The pieces of a list block with the list nodes `nodes`, after `pieces`.
pub open spec fn list_layout(pieces: Seq<Piece>, nodes: Seq<TokenView>) -> Seq<Piece> {
    (ListState { pieces, stack: Seq::empty() }).run(nodes, nodes.len()).close_all().pieces
}

/// The text of all of `pieces`.
pub open spec fn html_of(pieces: Seq<Piece>) -> Seq<char> {
    pieces_html(pieces, pieces.len())
}

/// The decimal digit for `d`, which is below ten.
pub open spec fn digit(d: nat) -> char {
    if d == 0 {
        '0'
    } else if d == 1 {
        '1'
    } else if d == 2 {
        '2'
    } else if d == 3 {
        '3'
    } else if d == 4 {
        '4'
    } else if d == 5 {
        '5'
    } else if d == 6 {
        '6'
    } else if d == 7 {
        '7'
    } else if d == 8 {
        '8'
    } else {
        '9'
    }
}

/// The decimal numeral of `n`.
pub open spec fn decimal(n: nat) -> Seq<char>
    decreases n,
{
    if n < 10 {
        seq![digit(n)]
    } else {
        decimal(n / 10).push(digit(n % 10))
    }
}

/// The HTML of a table cell: a `th` element for a header cell, a `td` element otherwise.
pub open spec fn cell_html(cell: TokenView) -> Seq<char> {
    element(
        if cell.class == TokenType::TableHeader {
            "th"@
        } else {
            "td"@
        },
        cell.attributes,
        inline_html(cell.subtokens),
    )
}

/// The HTML of the first `n` cells of `cells`.
pub open spec fn cells_html(cells: Seq<TokenView>, n: nat) -> Seq<char>
    decreases n,
{
    if n == 0 || n > cells.len() {
        Seq::empty()
    } else {
        cells_html(cells, (n - 1) as nat) + cell_html(cells[n - 1])
    }
}

/// The HTML of a table row.
pub open spec fn row_html(row: TokenView) -> Seq<char> {
    "<tr "@ + attributes(row.attributes) + ">"@ + cells_html(row.subtokens, row.subtokens.len())
        + "</tr>\n"@
}

/// The HTML of the first `n` rows of `rows`.
pub open spec fn rows_html(rows: Seq<TokenView>, n: nat) -> Seq<char>
    decreases n,
{
    if n == 0 || n > rows.len() {
        Seq::empty()
    } else {
        rows_html(rows, (n - 1) as nat) + row_html(rows[n - 1])
    }
}

/// The HTML of a paragraph.
pub open spec fn para_html(block: TokenView) -> Seq<char> {
    "<p "@ + attributes(block.attributes) + ">"@ + inline_html(block.subtokens) + "</p>\n"@
}

/// The HTML of a header; its level is the length of its marker.
pub open spec fn header_html(block: TokenView) -> Seq<char> {
    "<h"@ + decimal(block.content.len()) + " "@ + attributes(block.attributes) + ">"@
        + inline_html(block.subtokens) + "</h"@ + decimal(block.content.len()) + ">\n"@
}

/// The HTML of a line of raw HTML: its first tag as it stands, then the rest of the line.
pub open spec fn raw_html(block: TokenView) -> Seq<char> {
    block.content + inline_html(block.subtokens) + "\n"@
}

/// The pieces written so far, `pieces`, and those of the block `block`. Blocks
/// other than paragraphs, headers, raw HTML, list blocks and tables write nothing.
pub open spec fn block_layout(pieces: Seq<Piece>, block: TokenView) -> Seq<Piece> {
    match block.class {
        TokenType::Para => pieces.push(Piece::Text { html: para_html(block) }),
        TokenType::Header => pieces.push(Piece::Text { html: header_html(block) }),
        TokenType::Html => pieces.push(Piece::Text { html: raw_html(block) }),
        TokenType::ListBlock => list_layout(pieces, block.subtokens),
        TokenType::Table => pieces.push(
            Piece::Open { tag: Tag::Table, attrs: block.attributes },
        ).push(Piece::Text { html: rows_html(block.subtokens, block.subtokens.len()) }).push(
            Piece::Close { tag: Tag::Table },
        ),
        _ => pieces,
    }
}

/// The pieces of the first `n` blocks of `blocks`.
pub open spec fn layout(blocks: Seq<TokenView>, n: nat) -> Seq<Piece>
    decreases n,
{
    if n == 0 || n > blocks.len() {
        Seq::empty()
    } else {
        block_layout(layout(blocks, (n - 1) as nat), blocks[n - 1])
    }
}

/// The HTML of the blocks `blocks`.
pub open spec fn blocks_html(blocks: Seq<TokenView>) -> Seq<char> {
    html_of(layout(blocks, blocks.len()))
}

/// The text of the first pieces of a sequence does not depend on the pieces after them.
proof fn lemma_pieces_prefix(pieces: Seq<Piece>, more: Seq<Piece>, n: nat)
    requires
        n <= pieces.len(),
    ensures
        pieces_html(pieces + more, n) == pieces_html(pieces, n),
    decreases n,
{
    if n > 0 {
        lemma_pieces_prefix(pieces, more, (n - 1) as nat);
    }
}

/// The text of a sequence with one more piece.
proof fn lemma_html_push(pieces: Seq<Piece>, piece: Piece)
    ensures
        html_of(pieces.push(piece)) == html_of(pieces) + piece_html(piece),
{
    assert(pieces.push(piece) =~= pieces + seq![piece]);
    lemma_pieces_prefix(pieces, seq![piece], pieces.len());
}

/// The open lists that a stack of kinds and depths stands for.
pub open spec fn scopes(stack: Seq<(Tag, usize)>) -> Seq<Scope> {
    Seq::new(stack.len(), |i: int| Scope { tag: stack[i].0, depth: stack[i].1 as nat })
}

/// The element name of `tag`.
fn tag_str(tag: Tag) -> (name: &'static str)
    ensures
        name@ == tag_html(tag),
{
    match tag {
        Tag::Ul => "ul",
        Tag::Ol => "ol",
        Tag::Table => "table",
    }
}

/// Writes the opening tag of `tag`.
fn push_open(out: &mut Vec<char>, tag: Tag, attrs: &Vec<char>, Ghost(pieces): Ghost<Seq<Piece>>)
    requires
        old(out)@ == html_of(pieces),
    ensures
        final(out)@ == html_of(pieces.push(Piece::Open { tag, attrs: attrs@ })),
{
    append_str(out, "<");
    append_str(out, tag_str(tag));
    append_str(out, " ");
    let a = parse_attr(attrs);
    append(out, &a);
    append_str(out, ">\n");
    proof {
        lemma_html_push(pieces, Piece::Open { tag, attrs: attrs@ });
        assert(out@ =~= html_of(pieces) + piece_html(Piece::Open { tag, attrs: attrs@ }));
    }
}

/// Writes the closing tag of `tag`.
fn push_close(out: &mut Vec<char>, tag: Tag, Ghost(pieces): Ghost<Seq<Piece>>)
    requires
        old(out)@ == html_of(pieces),
    ensures
        final(out)@ == html_of(pieces.push(Piece::Close { tag })),
{
    append_str(out, "</");
    append_str(out, tag_str(tag));
    append_str(out, ">\n");
    proof {
        lemma_html_push(pieces, Piece::Close { tag });
        assert(out@ =~= html_of(pieces) + piece_html(Piece::Close { tag }));
    }
}

/// Writes the text `html`.
fn push_text(out: &mut Vec<char>, html: &Vec<char>, Ghost(pieces): Ghost<Seq<Piece>>)
    requires
        old(out)@ == html_of(pieces),
    ensures
        final(out)@ == html_of(pieces.push(Piece::Text { html: html@ })),
{
    append(out, html);
    proof {
        lemma_html_push(pieces, Piece::Text { html: html@ });
    }
}

/// Closes the innermost open list.
fn close_top(out: &mut Vec<char>, stack: &mut Vec<(Tag, usize)>, Ghost(st): Ghost<ListState>)
    requires
        old(out)@ == html_of(st.pieces),
        scopes(old(stack)@) == st.stack,
        old(stack)@.len() > 0,
    ensures
        final(out)@ == html_of(st.close_top().pieces),
        scopes(final(stack)@) == st.close_top().stack,
        final(stack)@.len() + 1 == old(stack)@.len(),
{
    let top = stack.pop().unwrap();
    push_close(out, top.0, Ghost(st.pieces));
    assert(scopes(stack@) =~= st.stack.drop_last());
}

/// Writes the list block with the list nodes `nodes`.
fn render_list(out: &mut Vec<char>, nodes: &Vec<Token>, Ghost(pieces): Ghost<Seq<Piece>>)
    requires
        old(out)@ == html_of(pieces),
    ensures
        final(out)@ == html_of(list_layout(pieces, views(nodes@))),
{
    let mut stack: Vec<(Tag, usize)> = Vec::new();
    let ghost start = ListState { pieces, stack: Seq::empty() };
    let ghost mut st = start;
    assert(scopes(stack@) =~= st.stack);
    let mut i: usize = 0;
    while i < nodes.len()
        invariant
            i <= nodes.len(),
            out@ == html_of(st.pieces),
            scopes(stack@) == st.stack,
            st == start.run(views(nodes@), i as nat),
        decreases nodes.len() - i,
    {
        let node = &nodes[i];
        proof {
            lemma_view(*node);
        }
        if node.class == TokenType::UList || node.class == TokenType::OList {
            let tag = if node.class == TokenType::OList {
                Tag::Ol
            } else {
                Tag::Ul
            };
            let depth = marker_depth(&node.content);
            let ghost entry = st;
            while stack.len() > 0 && stack[stack.len() - 1].1 > depth
                invariant
                    out@ == html_of(st.pieces),
                    scopes(stack@) == st.stack,
                    st.close_deeper(depth as nat) == entry.close_deeper(depth as nat),
                decreases stack.len(),
            {
                close_top(out, &mut stack, Ghost(st));
                proof {
                    st = st.close_top();
                }
            }
            let n = stack.len();
            if n > 0 && stack[n - 1].1 == depth {
                if stack[n - 1].0 != tag {
                    close_top(out, &mut stack, Ghost(st));
                    proof {
                        st = st.close_top();
                    }
                    push_open(out, tag, &node.attributes, Ghost(st.pieces));
                    stack.push((tag, depth));
                    proof {
                        st = st.open(tag, depth as nat, node.attributes@);
                        assert(scopes(stack@) =~= st.stack);
                    }
                }
            } else {
                push_open(out, tag, &node.attributes, Ghost(st.pieces));
                stack.push((tag, depth));
                proof {
                    st = st.open(tag, depth as nat, node.attributes@);
                    assert(scopes(stack@) =~= st.stack);
                }
            }
            let items = parse_line(&node.subtokens);
            push_text(out, &items, Ghost(st.pieces));
            proof {
                st = ListState { pieces: st.pieces.push(Piece::Text { html: items@ }), ..st };
            }
        }
        i += 1;
    }
    let ghost done = st;
    while stack.len() > 0
        invariant
            out@ == html_of(st.pieces),
            scopes(stack@) == st.stack,
            st.close_all() == done.close_all(),
        decreases stack.len(),
    {
        close_top(out, &mut stack, Ghost(st));
        proof {
            st = st.close_top();
        }
    }
}

/// The decimal digit for `d`.
fn digit_of(d: usize) -> (c: char)
    requires
        d < 10,
    ensures
        c == digit(d as nat),
{
    if d == 0 {
        '0'
    } else if d == 1 {
        '1'
    } else if d == 2 {
        '2'
    } else if d == 3 {
        '3'
    } else if d == 4 {
        '4'
    } else if d == 5 {
        '5'
    } else if d == 6 {
        '6'
    } else if d == 7 {
        '7'
    } else if d == 8 {
        '8'
    } else {
        '9'
    }
}

/// The decimal numeral of `n`.
fn decimal_of(n: usize) -> (r: Vec<char>)
    ensures
        r@ == decimal(n as nat),
    decreases n,
{
    if n < 10 {
        let mut r: Vec<char> = Vec::new();
        r.push(digit_of(n));
        assert(r@ =~= seq![digit(n as nat)]);
        r
    } else {
        let mut r = decimal_of(n / 10);
        r.push(digit_of(n % 10));
        r
    }
}

/// The HTML of the rows `rows` of a table.
fn render_rows(rows: &Vec<Token>) -> (out: Vec<char>)
    ensures
        out@ == rows_html(views(rows@), rows@.len()),
{
    let mut out: Vec<char> = Vec::new();
    let mut i: usize = 0;
    while i < rows.len()
        invariant
            i <= rows.len(),
            out@ == rows_html(views(rows@), i as nat),
        decreases rows.len() - i,
    {
        let row = &rows[i];
        let ghost before = out@;
        proof {
            lemma_view(*row);
        }
        append_str(&mut out, "<tr ");
        let a = parse_attr(&row.attributes);
        append(&mut out, &a);
        append_str(&mut out, ">");
        let ghost head = out@;
        let mut j: usize = 0;
        while j < row.subtokens.len()
            invariant
                j <= row.subtokens.len(),
                out@ == head + cells_html(views(row.subtokens@), j as nat),
            decreases row.subtokens.len() - j,
        {
            let cell = &row.subtokens[j];
            proof {
                lemma_view(*cell);
            }
            let body = parse_line(&cell.subtokens);
            let tag = if cell.class == TokenType::TableHeader {
                "th"
            } else {
                "td"
            };
            let ghost so_far = out@;
            push_element(&mut out, tag, &cell.attributes, &body);
            assert(out@ =~= head + (cells_html(views(row.subtokens@), j as nat) + cell_html(
                views(row.subtokens@)[j as int],
            )));
            j += 1;
        }
        append_str(&mut out, "</tr>\n");
        assert(out@ =~= before + row_html(views(rows@)[i as int]));
        i += 1;
    }
    out
}

/// Renders blocks as HTML.
pub fn render(blocks: &Vec<Token>) -> (out: Vec<char>)
    ensures
        out@ == blocks_html(views(blocks@)),
{
    let mut out: Vec<char> = Vec::new();
    let ghost mut pieces: Seq<Piece> = Seq::empty();
    let mut i: usize = 0;
    while i < blocks.len()
        invariant
            i <= blocks.len(),
            out@ == html_of(pieces),
            pieces == layout(views(blocks@), i as nat),
        decreases blocks.len() - i,
    {
        let block = &blocks[i];
        proof {
            lemma_view(*block);
        }
        match block.class {
            TokenType::Para => {
                let mut html: Vec<char> = Vec::new();
                append_str(&mut html, "<p ");
                let a = parse_attr(&block.attributes);
                append(&mut html, &a);
                append_str(&mut html, ">");
                let body = parse_line(&block.subtokens);
                append(&mut html, &body);
                append_str(&mut html, "</p>\n");
                assert(html@ =~= para_html(block@));
                push_text(&mut out, &html, Ghost(pieces));
                proof {
                    pieces = pieces.push(Piece::Text { html: html@ });
                }
            },
            TokenType::Header => {
                let level = decimal_of(block.content.len());
                let mut html: Vec<char> = Vec::new();
                append_str(&mut html, "<h");
                append(&mut html, &level);
                append_str(&mut html, " ");
                let a = parse_attr(&block.attributes);
                append(&mut html, &a);
                append_str(&mut html, ">");
                let body = parse_line(&block.subtokens);
                append(&mut html, &body);
                append_str(&mut html, "</h");
                append(&mut html, &level);
                append_str(&mut html, ">\n");
                assert(html@ =~= header_html(block@));
                push_text(&mut out, &html, Ghost(pieces));
                proof {
                    pieces = pieces.push(Piece::Text { html: html@ });
                }
            },
            TokenType::Html => {
                let mut html: Vec<char> = Vec::new();
                append(&mut html, &block.content);
                let body = parse_line(&block.subtokens);
                append(&mut html, &body);
                append_str(&mut html, "\n");
                assert(html@ =~= raw_html(block@));
                push_text(&mut out, &html, Ghost(pieces));
                proof {
                    pieces = pieces.push(Piece::Text { html: html@ });
                }
            },
            TokenType::ListBlock => {
                render_list(&mut out, &block.subtokens, Ghost(pieces));
                proof {
                    pieces = list_layout(pieces, views(block.subtokens@));
                }
            },
            TokenType::Table => {
                push_open(&mut out, Tag::Table, &block.attributes, Ghost(pieces));
                proof {
                    pieces = pieces.push(Piece::Open { tag: Tag::Table, attrs: block.attributes@ });
                }
                let rows = render_rows(&block.subtokens);
                push_text(&mut out, &rows, Ghost(pieces));
                proof {
                    pieces = pieces.push(Piece::Text { html: rows@ });
                }
                push_close(&mut out, Tag::Table, Ghost(pieces));
                proof {
                    pieces = pieces.push(Piece::Close { tag: Tag::Table });
                }
            },
            _ => {},
        }
        i += 1;
    }
    out
}

/// The inline tokens of each line of `lines`.
pub open spec fn lines_tokens(lines: Seq<Seq<char>>) -> Seq<Seq<TokenView>> {
    Seq::new(lines.len(), |i: int| lex_line(lines[i]).0)
}

/// The warnings of the first `n` lines of `lines`, in order.
pub open spec fn lines_warnings(lines: Seq<Seq<char>>, n: nat) -> Seq<Seq<char>>
    decreases n,
{
    if n == 0 || n > lines.len() {
        Seq::empty()
    } else if lex_line(lines[n - 1]).1.len() > 0 {
        lines_warnings(lines, (n - 1) as nat).push(lex_line(lines[n - 1]).1)
    } else {
        lines_warnings(lines, (n - 1) as nat)
    }
}

/// The blocks of the document `text`.
pub open spec fn document_blocks(text: Seq<char>) -> Seq<TokenView> {
    structure(lines_tokens(lines_of(text)))
}

/// The HTML of the document `text`.
pub open spec fn document_html(text: Seq<char>) -> Seq<char> {
    blocks_html(document_blocks(text))
}

/// The warnings of the document `text`: one for each line that left a token open.
pub open spec fn document_warnings(text: Seq<char>) -> Seq<Seq<char>> {
    lines_warnings(lines_of(text), lines_of(text).len())
}

/// The character sequences that the strings of `v` hold.
pub open spec fn strings(v: Seq<String>) -> Seq<Seq<char>> {
    Seq::new(v.len(), |i: int| v[i]@)
}

/// Compiles the document `input` to HTML. Returns the HTML and the warnings.
pub fn parse(input: &str) -> (out: (String, Vec<String>))
    ensures
        out.0@ == document_html(input@),
        strings(out.1@) == document_warnings(input@),
{
    let text = chars_of(input);
    let lines = split_lines(&text);
    let mut tokens: Vec<Vec<Token>> = Vec::new();
    let mut warnings: Vec<String> = Vec::new();
    let mut i: usize = 0;
    assert(strings(warnings@) =~= Seq::empty());
    while i < lines.len()
        invariant
            i <= lines.len(),
            line_seqs(lines@) == lines_of(text@),
            tokens@.len() == i,
            forall|j: int| 0 <= j < i ==> views(#[trigger] tokens@[j]@) == lex_line(lines@[j]@).0,
            strings(warnings@) == lines_warnings(lines_of(text@), i as nat),
        decreases lines.len() - i,
    {
        let (line, warning) = tokenize_line(&lines[i]);
        assert(line_seqs(lines@)[i as int] == lines@[i as int]@);
        tokens.push(line);
        if warning.len() > 0 {
            let w = string_of(&warning);
            let ghost before = strings(warnings@);
            warnings.push(w);
            assert(strings(warnings@) =~= before.push(w@));
        }
        i += 1;
    }
    assert(line_views(tokens@) =~= lines_tokens(lines_of(text@))) by {
        assert forall|j: int| 0 <= j < tokens@.len() implies line_views(tokens@)[j]
            == lines_tokens(lines_of(text@))[j] by {
            assert(line_seqs(lines@)[j] == lines@[j]@);
        }
    }
    let blocks = block_lexer(&tokens);
    let html = render(&blocks);
    (string_of(&html), warnings)
}

} // verus!
