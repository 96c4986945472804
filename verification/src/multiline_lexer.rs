//! The block structurer: the token sequences of the lines of a document become
//! paragraphs, headers, lists and tables.

use vstd::prelude::*;
use crate::lexer::{lex, tokenize};
use crate::text::{append, append_str, copy_chars, slice_of};
use crate::token::{
    lemma_view, lemma_views_add, lemma_views_push, pushed, push_token, views, Token, TokenType,
    TokenView,
};

verus! {

/// What the marker characters at the head of a table cell are read as.
#[derive(Clone, Copy, Debug, PartialEq, Eq, Structural)]
pub enum CellMode {
    /// Single markers.
    Plain,
    /// The digits of a column span, after `c`.
    Column,
    /// The digits of a row span, after `r`.
    Row,
    /// The text of an attribute span, after `{`.
    Attr,
}

/// The state of the scan of a table row.
#[verifier::ext_equal]
pub ghost struct RowState {
    /// The cells completed so far.
    pub cells: Seq<TokenView>,
    /// The scan is in the marker run at the head of a cell.
    pub in_head: bool,
    /// The cell is merged into a spanning one and yields no cell.
    pub nullify: bool,
    /// The cell is a header cell.
    pub header: bool,
    /// The inline text of the cell.
    pub content: Seq<char>,
    /// The attribute span of the cell.
    pub attributes: Seq<char>,
    pub mode: CellMode,
    /// The digits of the column span.
    pub col: Seq<char>,
    /// The digits of the row span.
    pub row: Seq<char>,
    /// The previous character of the cell text was an unescaped backslash.
    pub escaping: bool,
}

/// `c` is a decimal digit.
pub open spec fn is_digit(c: char) -> bool {
    '0' <= c <= '9'
}

/// `text` without the tabs at its end.
pub open spec fn trim_tabs(text: Seq<char>) -> Seq<char>
    decreases text.len(),
{
    if text.len() > 0 && text.last() == '\t' {
        trim_tabs(text.drop_last())
    } else {
        text
    }
}

impl RowState {
    /// The state before the first character.
    pub open spec fn start() -> RowState {
        RowState {
            cells: Seq::empty(),
            in_head: true,
            nullify: false,
            header: false,
            content: Seq::empty(),
            attributes: Seq::empty(),
            mode: CellMode::Plain,
            col: Seq::empty(),
            row: Seq::empty(),
            escaping: false,
        }
    }

    /// A new cell starts.
    pub open spec fn reset(self) -> RowState {
        RowState { cells: self.cells, ..RowState::start() }
    }

    /// The attribute span of the cell once its marker run has ended: the
    /// attribute text, then the row span and the column span as HTML attributes.
    pub open spec fn head_attributes(self) -> Seq<char> {
        let spans = self.col.len() > 0 || self.row.len() > 0;
        let open = if self.attributes.len() == 0 && spans {
            seq!['{']
        } else {
            self.attributes
        };
        let row = if self.row.len() > 0 {
            " rowspan=\""@ + self.row + "\""@
        } else {
            Seq::empty()
        };
        let col = if self.col.len() > 0 {
            " colspan=\""@ + self.col + "\""@
        } else {
            Seq::empty()
        };
        if self.attributes.len() > 0 || spans {
            (open + row + col).push('}')
        } else {
            open
        }
    }

    /// The marker run ends.
    pub open spec fn end_head(self) -> RowState {
        RowState { in_head: false, attributes: self.head_attributes(), ..self }
    }

    /// The cell that the state holds.
    pub open spec fn cell(self) -> TokenView {
        TokenView {
            class: if self.header {
                TokenType::TableHeader
            } else {
                TokenType::TableCell
            },
            content: self.content,
            subtokens: lex(trim_tabs(self.content)).0,
            attributes: self.attributes,
        }
    }

    /// The character `c` arrives in the text of a cell. An unescaped `|` ends the cell.
    pub open spec fn take(self, c: char) -> RowState {
        if c == '\\' {
            RowState { content: self.content.push(c), escaping: !self.escaping, ..self }
        } else if c == '|' && !self.escaping {
            if self.nullify {
                self.reset()
            } else {
                RowState { cells: self.cells.push(self.cell()), ..RowState::start() }
            }
        } else {
            RowState { content: self.content.push(c), escaping: false, ..self }
        }
    }

    /// The character `c` arrives. In the marker run `*` marks a header cell,
    /// `r` and `c` start the digits of a span, `{` and `}` hold attribute text,
    /// `-` merges the cell away, `|` starts the next cell and a space ends the
    /// run. Any other character ends the run too and starts the cell text.
    pub open spec fn step(self, c: char) -> RowState {
        if !self.in_head {
            self.take(c)
        } else if c == '|' {
            self.reset()
        } else if self.mode == CellMode::Attr {
            if c == '}' {
                RowState { mode: CellMode::Plain, ..self }
            } else {
                RowState { attributes: self.attributes.push(c), ..self }
            }
        } else if c == '*' {
            RowState { header: true, ..self }
        } else if c == 'r' {
            RowState { mode: CellMode::Row, ..self }
        } else if c == 'c' {
            RowState { mode: CellMode::Column, ..self }
        } else if is_digit(c) && self.mode == CellMode::Row {
            RowState { row: self.row.push(c), ..self }
        } else if is_digit(c) && self.mode == CellMode::Column {
            RowState { col: self.col.push(c), ..self }
        } else if c == '{' {
            RowState { mode: CellMode::Attr, attributes: self.attributes.push(c), ..self }
        } else if c == '-' {
            RowState { nullify: true, ..self }
        } else if c == ' ' {
            self.end_head()
        } else {
            self.end_head().take(c)
        }
    }

    /// The state after the first `n` characters of `input`.
    pub open spec fn run(input: Seq<char>, n: nat) -> RowState
        decreases n,
    {
        if n == 0 || n > input.len() {
            RowState::start()
        } else {
            RowState::run(input, (n - 1) as nat).step(input[n - 1])
        }
    }

    /// The row at the end of the line. What follows the last `|` yields no
    /// cell; where it is an attribute span alone, the row takes it.
    pub open spec fn finish(self) -> TokenView {
        TokenView {
            class: TokenType::TableRow,
            content: Seq::empty(),
            subtokens: self.cells,
            attributes: if self.attributes.len() > 0 && self.content.len() == 0 {
                if self.in_head {
                    self.attributes.push('}')
                } else {
                    self.attributes
                }
            } else {
                Seq::empty()
            },
        }
    }
}

/// The table row that the line `input` holds.
pub open spec fn table_row(input: Seq<char>) -> TokenView {
    RowState::run(input, input.len()).finish()
}

/// The scan state of a table row.
pub struct RowScan {
    pub cells: Vec<Token>,
    pub in_head: bool,
    pub nullify: bool,
    pub header: bool,
    pub content: Vec<char>,
    pub attributes: Vec<char>,
    pub mode: CellMode,
    pub col: Vec<char>,
    pub row: Vec<char>,
    pub escaping: bool,
}

impl View for RowScan {
    type V = RowState;

    open spec fn view(&self) -> RowState {
        RowState {
            cells: views(self.cells@),
            in_head: self.in_head,
            nullify: self.nullify,
            header: self.header,
            content: self.content@,
            attributes: self.attributes@,
            mode: self.mode,
            col: self.col@,
            row: self.row@,
            escaping: self.escaping,
        }
    }
}

/// `text` without the tabs at its end.
fn without_tabs(text: &Vec<char>) -> (r: Vec<char>)
    ensures
        r@ == trim_tabs(text@),
{
    let mut n: usize = text.len();
    assert(text@.take(n as int) =~= text@);
    while n > 0 && text[n - 1] == '\t'
        invariant
            n <= text.len(),
            trim_tabs(text@) == trim_tabs(text@.take(n as int)),
        decreases n,
    {
        assert(text@.take(n as int).drop_last() =~= text@.take(n - 1));
        n -= 1;
    }
    let r = slice_of(text, 0, n);
    assert(r@ =~= text@.take(n as int));
    r
}

impl RowScan {
    fn start() -> (s: RowScan)
        ensures
            s@ == RowState::start(),
    {
        let s = RowScan {
            cells: Vec::new(),
            in_head: true,
            nullify: false,
            header: false,
            content: Vec::new(),
            attributes: Vec::new(),
            mode: CellMode::Plain,
            col: Vec::new(),
            row: Vec::new(),
            escaping: false,
        };
        assert(views(s.cells@) =~= Seq::empty());
        s
    }

    fn reset(&mut self)
        ensures
            final(self)@ == old(self)@.reset(),
    {
        self.in_head = true;
        self.nullify = false;
        self.header = false;
        self.content = Vec::new();
        self.attributes = Vec::new();
        self.mode = CellMode::Plain;
        self.col = Vec::new();
        self.row = Vec::new();
        self.escaping = false;
    }

    fn end_head(&mut self)
        ensures
            final(self)@ == old(self)@.end_head(),
    {
        let spans = self.col.len() > 0 || self.row.len() > 0;
        let close = self.attributes.len() > 0 || spans;
        if self.attributes.len() == 0 && spans {
            self.attributes.push('{');
            assert(self.attributes@ =~= seq!['{']);
        }
        if self.row.len() > 0 {
            append_str(&mut self.attributes, " rowspan=\"");
            append(&mut self.attributes, &self.row);
            append_str(&mut self.attributes, "\"");
        }
        if self.col.len() > 0 {
            append_str(&mut self.attributes, " colspan=\"");
            append(&mut self.attributes, &self.col);
            append_str(&mut self.attributes, "\"");
        }
        if close {
            self.attributes.push('}');
        }
        self.in_head = false;
        assert(self.attributes@ =~= old(self)@.head_attributes());
    }

    fn take(&mut self, c: char)
        ensures
            final(self)@ == old(self)@.take(c),
    {
        if c == '\\' {
            self.content.push(c);
            self.escaping = !self.escaping;
        } else if c == '|' && !self.escaping {
            if !self.nullify {
                let (kids, _) = tokenize(&without_tabs(&self.content));
                let cell = Token {
                    class: if self.header {
                        TokenType::TableHeader
                    } else {
                        TokenType::TableCell
                    },
                    content: copy_chars(&self.content),
                    subtokens: kids,
                    attributes: copy_chars(&self.attributes),
                };
                proof {
                    lemma_view(cell);
                    lemma_views_push(self.cells@, cell);
                }
                self.cells.push(cell);
            }
            self.reset();
        } else {
            self.content.push(c);
            self.escaping = false;
        }
    }

    fn step(&mut self, c: char)
        ensures
            final(self)@ == old(self)@.step(c),
    {
        if !self.in_head {
            self.take(c);
        } else if c == '|' {
            self.reset();
        } else if self.mode == CellMode::Attr {
            if c == '}' {
                self.mode = CellMode::Plain;
            } else {
                self.attributes.push(c);
            }
        } else if c == '*' {
            self.header = true;
        } else if c == 'r' {
            self.mode = CellMode::Row;
        } else if c == 'c' {
            self.mode = CellMode::Column;
        } else if '0' <= c && c <= '9' && self.mode == CellMode::Row {
            self.row.push(c);
        } else if '0' <= c && c <= '9' && self.mode == CellMode::Column {
            self.col.push(c);
        } else if c == '{' {
            self.mode = CellMode::Attr;
            self.attributes.push(c);
        } else if c == '-' {
            self.nullify = true;
        } else if c == ' ' {
            self.end_head();
        } else {
            self.end_head();
            self.take(c);
        }
    }
}

/// Reads the line `input` as a table row: its cells, split at each unescaped
/// `|`, with the inline tokens of each cell's text.
pub fn table_parse(input: &Vec<char>) -> (row: Token)
    ensures
        row@ == table_row(input@),
{
    let mut scan = RowScan::start();
    let mut i: usize = 0;
    while i < input.len()
        invariant
            i <= input.len(),
            scan@ == RowState::run(input@, i as nat),
        decreases input.len() - i,
    {
        scan.step(input[i]);
        i += 1;
    }
    let mut attributes: Vec<char> = Vec::new();
    if scan.attributes.len() > 0 && scan.content.len() == 0 {
        attributes = scan.attributes;
        if scan.in_head {
            attributes.push('}');
        }
    }
    let row = Token {
        class: TokenType::TableRow,
        content: Vec::new(),
        subtokens: scan.cells,
        attributes,
    };
    proof {
        lemma_view(row);
    }
    row
}

/// The state of the block structurer between two lines.
#[verifier::ext_equal]
pub ghost struct BlockState {
    /// The blocks completed so far.
    pub blocks: Seq<TokenView>,
    /// The list nodes of the list under construction, in document order.
    pub lists: Seq<TokenView>,
    /// The table under construction; its children are its rows.
    pub table: TokenView,
    /// The attribute span that waits for the next block.
    pub deferred: Seq<char>,
}

/// The classes of list nodes and list items.
pub open spec fn is_list_class(class: TokenType) -> bool {
    class == TokenType::UList || class == TokenType::ListEl || class == TokenType::OList || class
        == TokenType::NumberedListEl
}

/// The end of the run of characters equal to the first one, looked for from index `i`.
pub open spec fn run_from(s: Seq<char>, i: nat) -> nat
    decreases s.len() - i,
{
    if i < s.len() && s[i as int] == s[0] {
        run_from(s, i + 1)
    } else {
        i
    }
}

/// The nesting depth that the marker text `content` stands for: the length of
/// its marker run, less one. `* ` is depth 0, `** ` depth 1.
pub open spec fn list_depth(content: Seq<char>) -> nat {
    let run = run_from(content, 0);
    if run == 0 {
        0
    } else {
        (run - 1) as nat
    }
}

impl BlockState {
    /// The state before the first line.
    pub open spec fn start() -> BlockState {
        BlockState {
            blocks: Seq::empty(),
            lists: Seq::empty(),
            table: TokenView::leaf(TokenType::Table, Seq::empty()),
            deferred: Seq::empty(),
        }
    }

    /// The table under construction, if it has a row, becomes a block.
    pub open spec fn flush_table(self) -> BlockState {
        if self.table.subtokens.len() > 0 {
            BlockState {
                blocks: self.blocks.push(self.table),
                table: TokenView::leaf(TokenType::Table, Seq::empty()),
                ..self
            }
        } else {
            self
        }
    }

    /// The list under construction, if there is one, becomes a list block.
    pub open spec fn flush_lists(self) -> BlockState {
        if self.lists.len() > 0 {
            BlockState {
                blocks: self.blocks.push(
                    TokenView::node(TokenType::ListBlock, Seq::empty(), self.lists),
                ),
                lists: Seq::empty(),
                ..self
            }
        } else {
            self
        }
    }

    /// Table and list under construction become blocks, the table first.
    pub open spec fn flush(self) -> BlockState {
        self.flush_table().flush_lists()
    }

    /// `block` joins the blocks as it is, unless it is blank.
    pub open spec fn emit_plain(self, block: TokenView) -> BlockState {
        BlockState { blocks: pushed(self.blocks, block), ..self }
    }

    /// `block` joins the blocks, unless it is blank. A block without
    /// attributes of its own takes the waiting attribute span.
    pub open spec fn emit(self, block: TokenView) -> BlockState {
        if block.is_blank() {
            self
        } else if block.attributes.len() == 0 {
            BlockState {
                blocks: self.blocks.push(TokenView { attributes: self.deferred, ..block }),
                deferred: Seq::empty(),
                ..self
            }
        } else {
            BlockState { blocks: self.blocks.push(block), ..self }
        }
    }

    /// A table row with the raw text `raw` joins the table under
    /// construction. A table that starts here takes the waiting attribute span.
    pub open spec fn add_row(self, raw: Seq<char>) -> BlockState {
        let s = self.flush_lists();
        if s.table.subtokens.len() == 0 {
            BlockState {
                table: TokenView {
                    subtokens: seq![table_row(raw)],
                    attributes: s.deferred,
                    ..s.table
                },
                deferred: Seq::empty(),
                ..s
            }
        } else {
            BlockState {
                table: TokenView { subtokens: s.table.subtokens.push(table_row(raw)), ..s.table },
                ..s
            }
        }
    }

    /// The list item `item` joins the list under construction. It joins the
    /// last list node where that has its depth and kind. Otherwise it starts a
    /// list node of its own, which takes the waiting attribute span where it is
    /// the first or lies deeper than the last one.
    pub open spec fn add_item(self, item: TokenView, ordered: bool) -> BlockState {
        let fresh = TokenView {
            class: if ordered {
                TokenType::OList
            } else {
                TokenType::UList
            },
            content: item.content,
            subtokens: seq![item],
            attributes: Seq::empty(),
        };
        if self.lists.len() == 0 || list_depth(self.lists.last().content) < list_depth(
            item.content,
        ) {
            BlockState {
                lists: self.lists.push(TokenView { attributes: self.deferred, ..fresh }),
                deferred: Seq::empty(),
                ..self
            }
        } else if self.lists.last().class == fresh.class && list_depth(self.lists.last().content)
            == list_depth(item.content) {
            BlockState {
                lists: self.lists.update(
                    self.lists.len() - 1,
                    TokenView {
                        subtokens: self.lists.last().subtokens.push(item),
                        ..self.lists.last()
                    },
                ),
                ..self
            }
        } else {
            BlockState { lists: self.lists.push(fresh), ..self }
        }
    }

    /// The line `line` continues the paragraph that is the last block: it is
    /// plain text that starts with a space.
    pub open spec fn continues(self, line: Seq<TokenView>) -> bool {
        self.blocks.len() > 0 && self.blocks.last().class == TokenType::Para && line.len() > 0
            && line[0].class == TokenType::Put && line[0].content.len() > 0 && line[0].content[0]
            == ' '
    }

    /// A line of text. Where it continues the last paragraph, a line break and
    /// its tokens, without the leading space, join that paragraph. Otherwise it
    /// is a paragraph of its own.
    pub open spec fn add_text(self, line: Seq<TokenView>) -> BlockState {
        if self.continues(line) {
            let last = self.blocks.last();
            let head = TokenView { content: line[0].content.skip(1), ..line[0] };
            let more = pushed(
                last.subtokens.push(TokenView::leaf(TokenType::LineBreak, seq!['\n'])),
                head,
            ) + line.skip(1);
            BlockState {
                blocks: self.blocks.update(
                    self.blocks.len() - 1,
                    TokenView { subtokens: more, ..last },
                ),
                ..self
            }
        } else {
            self.emit(TokenView::node(TokenType::Para, Seq::empty(), line))
        }
    }

    /// The state after the line `line`, by the class of its first token.
    pub open spec fn step(self, line: Seq<TokenView>) -> BlockState {
        if line.len() == 0 {
            self.flush_table()
        } else {
            let first = line[0];
            let rest = line.skip(1);
            match first.class {
                TokenType::TableRow => self.add_row(first.content),
                TokenType::ListEl => self.flush_table().add_item(
                    TokenView { subtokens: rest, ..first },
                    false,
                ),
                TokenType::NumberedListEl => self.flush_table().add_item(
                    TokenView { subtokens: rest, ..first },
                    true,
                ),
                TokenType::Html => self.flush().emit_plain(TokenView { subtokens: rest, ..first }),
                TokenType::Attr => if line.len() > 1 {
                    self.flush().emit(
                        TokenView {
                            class: TokenType::Para,
                            content: Seq::empty(),
                            subtokens: rest,
                            attributes: first.content,
                        },
                    )
                } else {
                    BlockState { deferred: first.content, ..self.flush() }
                },
                TokenType::Header => self.flush().emit(TokenView { subtokens: rest, ..first }),
                TokenType::Image => if line.len() > 1 {
                    self.flush().emit(TokenView::node(TokenType::Para, Seq::empty(), line))
                } else {
                    self.flush().emit_plain(first)
                },
                _ => self.flush().add_text(line),
            }
        }
    }

    /// The state after the first `n` lines of `lines`.
    pub open spec fn run(lines: Seq<Seq<TokenView>>, n: nat) -> BlockState
        decreases n,
    {
        if n == 0 || n > lines.len() {
            BlockState::start()
        } else {
            BlockState::run(lines, (n - 1) as nat).step(lines[n - 1])
        }
    }
}

/// The blocks of a document, given the inline tokens of each of its lines.
pub open spec fn structure(lines: Seq<Seq<TokenView>>) -> Seq<TokenView> {
    BlockState::run(lines, lines.len()).flush().blocks
}

/// The views of the token sequences of the lines of a document.
pub open spec fn line_views(lines: Seq<Vec<Token>>) -> Seq<Seq<TokenView>> {
    Seq::new(lines.len(), |i: int| views(lines[i]@))
}

/// Moves the table `table` to the end of `tokens` and leaves an empty table in
/// its place, if it has a row; does nothing otherwise.
pub fn add_table(tokens: &mut Vec<Token>, table: &mut Token)
    ensures
        old(table)@.subtokens.len() > 0 ==> views(final(tokens)@) == views(old(tokens)@).push(
            old(table)@,
        ) && final(table)@ == TokenView::leaf(TokenType::Table, Seq::empty()),
        old(table)@.subtokens.len() == 0 ==> views(final(tokens)@) == views(old(tokens)@)
            && final(table)@ == old(table)@,
{
    proof {
        lemma_view(*table);
    }
    if table.subtokens.len() > 0 {
        let t = table.clone();
        proof {
            lemma_views_push(tokens@, t);
        }
        tokens.push(t);
        *table = Token::init(TokenType::Table, Vec::new());
    }
}

/// The depth that the marker text `content` stands for.
pub fn marker_depth(content: &Vec<char>) -> (depth: usize)
    ensures
        depth == list_depth(content@),
{
    let mut i: usize = 0;
    while i < content.len() && content[i] == content[0]
        invariant
            i <= content.len(),
            run_from(content@, 0) == run_from(content@, i as nat),
        decreases content.len() - i,
    {
        i += 1;
    }
    if i == 0 {
        0
    } else {
        i - 1
    }
}

/// The nesting depth of a list node or list item: the length of its marker run, less one.
pub fn get_list_depth(token: &Token) -> (depth: usize)
    requires
        is_list_class(token@.class),
        token@.content.len() > 0,
    ensures
        depth == list_depth(token@.content),
{
    proof {
        lemma_view(*token);
    }
    marker_depth(&token.content)
}

/// Copies of the tokens of `line` from index `from` on.
fn tail_of(line: &Vec<Token>, from: usize) -> (r: Vec<Token>)
    requires
        from <= line.len(),
    ensures
        views(r@) == views(line@).skip(from as int),
{
    let mut r: Vec<Token> = Vec::new();
    let mut i: usize = from;
    while i < line.len()
        invariant
            from <= i <= line.len(),
            views(r@) == views(line@).subrange(from as int, i as int),
        decreases line.len() - i,
    {
        let t = line[i].clone();
        proof {
            lemma_views_push(r@, t);
            assert(views(r@).push(t@) =~= views(line@).subrange(from as int, i + 1));
        }
        r.push(t);
        i += 1;
    }
    assert(views(line@).subrange(from as int, line.len() as int) =~= views(line@).skip(
        from as int,
    ));
    r
}

/// A copy of `first` with the children `kids`.
fn with_children(first: &Token, kids: Vec<Token>) -> (t: Token)
    ensures
        t@ == (TokenView { subtokens: views(kids@), ..first@ }),
{
    let t = Token {
        class: first.class,
        content: copy_chars(&first.content),
        subtokens: kids,
        attributes: copy_chars(&first.attributes),
    };
    proof {
        lemma_view(*first);
        lemma_view(t);
    }
    t
}

/// The state of the block structurer.
pub struct Blocks {
    pub blocks: Vec<Token>,
    pub lists: Vec<Token>,
    pub table: Token,
    pub deferred: Vec<char>,
}

impl View for Blocks {
    type V = BlockState;

    open spec fn view(&self) -> BlockState {
        BlockState {
            blocks: views(self.blocks@),
            lists: views(self.lists@),
            table: self.table@,
            deferred: self.deferred@,
        }
    }
}

impl Blocks {
    fn start() -> (s: Blocks)
        ensures
            s@ == BlockState::start(),
    {
        let s = Blocks {
            blocks: Vec::new(),
            lists: Vec::new(),
            table: Token::init(TokenType::Table, Vec::new()),
            deferred: Vec::new(),
        };
        assert(views(s.blocks@) =~= Seq::empty());
        assert(views(s.lists@) =~= Seq::empty());
        s
    }

    fn flush_table(&mut self)
        ensures
            final(self)@ == old(self)@.flush_table(),
    {
        add_table(&mut self.blocks, &mut self.table);
    }

    fn flush_lists(&mut self)
        ensures
            final(self)@ == old(self)@.flush_lists(),
    {
        if self.lists.len() > 0 {
            let mut lists: Vec<Token> = Vec::new();
            std::mem::swap(&mut lists, &mut self.lists);
            let block = Token::init_sub(TokenType::ListBlock, lists, Vec::new());
            proof {
                lemma_views_push(self.blocks@, block);
                assert(views(self.lists@) =~= Seq::empty());
            }
            self.blocks.push(block);
        }
    }

    fn flush(&mut self)
        ensures
            final(self)@ == old(self)@.flush(),
    {
        self.flush_table();
        self.flush_lists();
    }

    fn emit_plain(&mut self, block: Token)
        ensures
            final(self)@ == old(self)@.emit_plain(block@),
    {
        push_token(&mut self.blocks, &block);
    }

    fn emit(&mut self, block: Token)
        ensures
            final(self)@ == old(self)@.emit(block@),
    {
        let mut block = block;
        proof {
            lemma_view(block);
        }
        if block.content.len() == 0 && block.subtokens.len() == 0 {
            return ;
        }
        if block.attributes.len() == 0 {
            let mut deferred: Vec<char> = Vec::new();
            std::mem::swap(&mut deferred, &mut self.deferred);
            block.attributes = deferred;
        }
        proof {
            lemma_view(block);
            lemma_views_push(self.blocks@, block);
        }
        self.blocks.push(block);
    }

    fn add_row(&mut self, raw: &Vec<char>)
        ensures
            final(self)@ == old(self)@.add_row(raw@),
    {
        self.flush_lists();
        let row = table_parse(raw);
        proof {
            lemma_view(self.table);
            lemma_views_push(self.table.subtokens@, row);
        }
        if self.table.subtokens.len() == 0 {
            let mut deferred: Vec<char> = Vec::new();
            std::mem::swap(&mut deferred, &mut self.deferred);
            self.table.attributes = deferred;
            assert(views(self.table.subtokens@).push(row@) =~= seq![table_row(raw@)]);
        }
        self.table.subtokens.push(row);
        proof {
            lemma_view(self.table);
        }
    }

    fn add_item(&mut self, item: Token, ordered: bool)
        ensures
            final(self)@ == old(self)@.add_item(item@, ordered),
    {
        let class = if ordered {
            TokenType::OList
        } else {
            TokenType::UList
        };
        let depth = marker_depth(&item.content);
        proof {
            lemma_view(item);
        }
        let n = self.lists.len();
        if n > 0 {
            proof {
                lemma_view(self.lists@[n - 1]);
            }
            let top_depth = marker_depth(&self.lists[n - 1].content);
            if top_depth >= depth {
                if self.lists[n - 1].class == class && top_depth == depth {
                    let mut top = self.lists.pop().unwrap();
                    let ghost before = top;
                    proof {
                        lemma_views_push(top.subtokens@, item);
                    }
                    top.subtokens.push(item);
                    proof {
                        lemma_view(top);
                        lemma_views_push(self.lists@, top);
                        assert(views(self.lists@.push(top)) =~= old(self)@.lists.update(
                            n - 1,
                            TokenView {
                                subtokens: old(self)@.lists.last().subtokens.push(item@),
                                ..old(self)@.lists.last()
                            },
                        ));
                    }
                    self.lists.push(top);
                } else {
                    let raw = copy_chars(&item.content);
                    let mut kids: Vec<Token> = Vec::new();
                    proof {
                        lemma_views_push(kids@, item);
                        assert(views(kids@).push(item@) =~= seq![item@]);
                    }
                    kids.push(item);
                    let fresh = Token::init_sub(class, kids, raw);
                    proof {
                        lemma_views_push(self.lists@, fresh);
                    }
                    self.lists.push(fresh);
                }
                return ;
            }
        }
        let raw = copy_chars(&item.content);
        let mut kids: Vec<Token> = Vec::new();
        proof {
            lemma_views_push(kids@, item);
            assert(views(kids@).push(item@) =~= seq![item@]);
        }
        kids.push(item);
        let mut fresh = Token::init_sub(class, kids, raw);
        let mut deferred: Vec<char> = Vec::new();
        std::mem::swap(&mut deferred, &mut self.deferred);
        proof {
            lemma_view(fresh);
        }
        fresh.attributes = deferred;
        proof {
            lemma_view(fresh);
            lemma_views_push(self.lists@, fresh);
        }
        self.lists.push(fresh);
    }

    fn add_text(&mut self, line: &Vec<Token>)
        requires
            line@.len() > 0,
        ensures
            final(self)@ == old(self)@.add_text(views(line@)),
    {
        let n = self.blocks.len();
        proof {
            lemma_view(line@[0]);
        }
        if n > 0 && self.blocks[n - 1].class == TokenType::Para && line[0].class
            == TokenType::Put && line[0].content.len() > 0 && line[0].content[0] == ' ' {
            let mut last = self.blocks.pop().unwrap();
            let ghost before = last;
            let mut raw: Vec<char> = Vec::new();
            raw.push('\n');
            assert(raw@ =~= seq!['\n']);
            let br = Token::init(TokenType::LineBreak, raw);
            proof {
                lemma_view(before);
                lemma_views_push(last.subtokens@, br);
            }
            last.subtokens.push(br);
            let first = &line[0];
            let head = Token {
                class: first.class,
                content: slice_of(&first.content, 1, first.content.len()),
                subtokens: tail_of(&first.subtokens, 0),
                attributes: copy_chars(&first.attributes),
            };
            proof {
                lemma_view(head);
                assert(views(first.subtokens@).skip(0) =~= views(first.subtokens@));
                assert(first.content@.subrange(1, first.content@.len() as int)
                    =~= first.content@.skip(1));
            }
            push_token(&mut last.subtokens, &head);
            let mut rest = tail_of(line, 1);
            proof {
                lemma_views_add(last.subtokens@, rest@);
            }
            last.subtokens.append(&mut rest);
            proof {
                lemma_view(last);
                lemma_views_push(self.blocks@, last);
                assert(views(self.blocks@.push(last)) =~= old(self)@.blocks.update(
                    n - 1,
                    TokenView { subtokens: last@.subtokens, ..old(self)@.blocks.last() },
                ));
            }
            self.blocks.push(last);
        } else {
            let kids = tail_of(line, 0);
            assert(views(line@).skip(0) =~= views(line@));
            self.emit(Token::init_sub(TokenType::Para, kids, Vec::new()));
        }
    }

    fn step(&mut self, line: &Vec<Token>)
        ensures
            final(self)@ == old(self)@.step(views(line@)),
    {
        if line.len() == 0 {
            self.flush_table();
            return ;
        }
        let first = &line[0];
        proof {
            lemma_view(*first);
        }
        match first.class {
            TokenType::TableRow => self.add_row(&first.content),
            TokenType::ListEl => {
                self.flush_table();
                self.add_item(with_children(first, tail_of(line, 1)), false);
            },
            TokenType::NumberedListEl => {
                self.flush_table();
                self.add_item(with_children(first, tail_of(line, 1)), true);
            },
            TokenType::Html => {
                self.flush();
                self.emit_plain(with_children(first, tail_of(line, 1)));
            },
            TokenType::Attr => {
                self.flush();
                if line.len() > 1 {
                    let block = Token {
                        class: TokenType::Para,
                        content: Vec::new(),
                        subtokens: tail_of(line, 1),
                        attributes: copy_chars(&first.content),
                    };
                    proof {
                        lemma_view(block);
                    }
                    self.emit(block);
                } else {
                    self.deferred = copy_chars(&first.content);
                }
            },
            TokenType::Header => {
                self.flush();
                self.emit(with_children(first, tail_of(line, 1)));
            },
            TokenType::Image => {
                self.flush();
                if line.len() > 1 {
                    let kids = tail_of(line, 0);
                    assert(views(line@).skip(0) =~= views(line@));
                    self.emit(Token::init_sub(TokenType::Para, kids, Vec::new()));
                } else {
                    self.emit_plain(first.clone());
                }
            },
            _ => {
                self.flush();
                self.add_text(line);
            },
        }
    }
}

/// Groups the inline tokens of the lines of a document into blocks.
pub fn block_lexer(lines: &Vec<Vec<Token>>) -> (blocks: Vec<Token>)
    ensures
        views(blocks@) == structure(line_views(lines@)),
{
    let mut state = Blocks::start();
    let mut i: usize = 0;
    while i < lines.len()
        invariant
            i <= lines.len(),
            state@ == BlockState::run(line_views(lines@), i as nat),
        decreases lines.len() - i,
    {
        state.step(&lines[i]);
        i += 1;
    }
    state.flush();
    state.blocks
}

} // verus!
