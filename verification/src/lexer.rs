//! The inline lexer: one line of markup becomes a sequence of inline tokens.
//!
//! The lexer is a state machine over the characters of the line. Its
//! mathematical definition is [`lex`]: the fold of [`lex_step`] over the line,
//! followed by [`lex_finish`]. The executable [`tokenize`] is proved to compute
//! exactly that.

use vstd::prelude::*;
use crate::text::{append, append_str, copy_chars, slice_of};
use crate::token::{
    lemma_view, lemma_views_add, lemma_views_push, pushed, push_token, views, Token, TokenType,
    TokenView,
};

verus! {

/// The state of the scan between two characters.
#[verifier::ext_equal]
pub ghost struct LexState {
    /// The tokens completed so far.
    pub tokens: Seq<TokenView>,
    /// The token being built.
    pub cur: TokenView,
    /// The previous character was an unescaped backslash.
    pub escaping: bool,
    /// A doubled delimiter has seen the first sigil of its closing pair.
    pub pending: bool,
    /// A `.` followed the header marker and waits for a space.
    pub dot: bool,
}

/// `raw` is the two characters `a`, `b`.
pub open spec fn is2(raw: Seq<char>, a: char, b: char) -> bool {
    raw.len() == 2 && raw[0] == a && raw[1] == b
}

/// `raw` is the three characters `a`, `b`, `c`.
pub open spec fn is3(raw: Seq<char>, a: char, b: char, c: char) -> bool {
    raw.len() == 3 && raw[0] == a && raw[1] == b && raw[2] == c
}

/// `raw` without `width` characters at each end; empty where `raw` is too short.
pub open spec fn interior(raw: Seq<char>, width: nat) -> Seq<char> {
    if raw.len() >= 2 * width {
        raw.subrange(width as int, raw.len() - width)
    } else {
        Seq::empty()
    }
}

/// The class that an unescaped sigil opens in plain text.
pub open spec fn opener(c: char) -> Option<TokenType> {
    if c == '*' {
        Some(TokenType::Bold)
    } else if c == '_' {
        Some(TokenType::Italic)
    } else if c == '[' {
        Some(TokenType::LinkName)
    } else if c == '~' {
        Some(TokenType::Sub)
    } else if c == '^' {
        Some(TokenType::Sup)
    } else if c == '!' {
        Some(TokenType::Image)
    } else if c == '`' {
        Some(TokenType::Code)
    } else if c == '@' {
        Some(TokenType::Span)
    } else if c == '-' {
        Some(TokenType::Under)
    } else if c == '<' {
        Some(TokenType::Html)
    } else {
        None
    }
}

/// The classes in which an unescaped backslash is kept in the raw text, so that
/// the interior sees it again when it is tokenized in its turn.
pub open spec fn keeps_backslash(class: TokenType) -> bool {
    class == TokenType::Bold || class == TokenType::Italic || class == TokenType::Strong
        || class == TokenType::Emphasis || class == TokenType::LinkName || class
        == TokenType::Sub || class == TokenType::Sup || class == TokenType::Code || class
        == TokenType::Span || class == TokenType::Under || class == TokenType::Strike
}

/// The length of the opening delimiter of a class that can be left unterminated
/// at the end of the line and then falls back to plain text; 0 for other classes.
pub open spec fn recovery_width(class: TokenType) -> nat {
    if class == TokenType::Bold || class == TokenType::Italic || class == TokenType::Sub || class
        == TokenType::Sup || class == TokenType::LinkName || class == TokenType::LinkDir || class
        == TokenType::Attr || class == TokenType::Image || class == TokenType::Html || class
        == TokenType::Code || class == TokenType::Span {
        1
    } else if class == TokenType::Strong || class == TokenType::Emphasis || class
        == TokenType::Under || class == TokenType::Strike {
        2
    } else {
        0
    }
}

/// The name of a class as it appears in a warning.
pub open spec fn class_name(class: TokenType) -> Seq<char> {
    match class {
        TokenType::Put => "Put"@,
        TokenType::Bold => "Bold"@,
        TokenType::Strong => "Strong"@,
        TokenType::Italic => "Italic"@,
        TokenType::Emphasis => "Emphasis"@,
        TokenType::LinkName => "LinkName"@,
        TokenType::LinkDir => "LinkDir"@,
        TokenType::Attr => "Attr"@,
        TokenType::Sub => "Sub"@,
        TokenType::Sup => "Sup"@,
        TokenType::Span => "Span"@,
        TokenType::Code => "Code"@,
        TokenType::Strike => "Strike"@,
        TokenType::Under => "Under"@,
        TokenType::Header => "Header"@,
        TokenType::Html => "Html"@,
        TokenType::ListEl => "ListEl"@,
        TokenType::NumberedListEl => "NumberedListEl"@,
        TokenType::LineBreak => "LineBreak"@,
        TokenType::Para => "Para"@,
        TokenType::UList => "UList"@,
        TokenType::OList => "OList"@,
        TokenType::ListBlock => "ListBlock"@,
        TokenType::Image => "Image"@,
        TokenType::Table => "Table"@,
        TokenType::TableRow => "TableRow"@,
        TokenType::TableCell => "TableCell"@,
        TokenType::TableHeader => "TableHeader"@,
    }
}

/// The warning for a token left unterminated at the end of the line.
pub open spec fn warning(t: TokenView) -> Seq<char> {
    "Unclosed "@ + class_name(t.class) + " token at "@ + t.content
}

impl LexState {
    /// The state before the first character.
    pub open spec fn start() -> LexState {
        LexState {
            tokens: Seq::empty(),
            cur: TokenView::blank(),
            escaping: false,
            pending: false,
            dot: false,
        }
    }

    /// `c` joins the raw text of the token being built.
    pub open spec fn grow(self, c: char) -> LexState {
        LexState { cur: TokenView { content: self.cur.content.push(c), ..self.cur }, ..self }
    }

    /// The token being built changes class.
    pub open spec fn retag(self, class: TokenType) -> LexState {
        LexState { cur: TokenView { class, ..self.cur }, ..self }
    }

    /// The token being built goes to the output as it is.
    pub open spec fn emit(self) -> LexState {
        LexState { tokens: pushed(self.tokens, self.cur), cur: TokenView::blank(), ..self }
    }

    /// The token being built goes to the output and a token of class `class`
    /// starts with the character `c`.
    pub open spec fn open(self, class: TokenType, c: char) -> LexState {
        LexState {
            tokens: pushed(self.tokens, self.cur),
            cur: TokenView::leaf(class, seq![c]),
            ..self
        }
    }

    /// The token being built is complete: it takes `kids` as its children and
    /// goes to the output.
    pub open spec fn close(self, kids: Seq<TokenView>) -> LexState {
        LexState {
            tokens: pushed(self.tokens, TokenView { subtokens: kids, ..self.cur }),
            cur: TokenView::blank(),
            ..self
        }
    }

    /// The sigil of a doubled delimiter arrives. Escaped, it cancels a pending
    /// close; otherwise the first one makes the close pending and the next one
    /// closes the token over `kids`.
    pub open spec fn knock(self, kids: Seq<TokenView>) -> LexState {
        if self.escaping {
            LexState { pending: false, ..self }
        } else if !self.pending {
            LexState { pending: true, ..self }
        } else {
            LexState { pending: false, ..self.close(kids) }
        }
    }

    /// An attribute span is complete: it decorates the last token of the
    /// output, or goes to the output itself where there is none.
    pub open spec fn attach(self) -> LexState {
        if self.tokens.len() == 0 {
            self.emit()
        } else {
            LexState {
                tokens: self.tokens.update(
                    self.tokens.len() - 1,
                    TokenView { attributes: self.cur.content, ..self.tokens.last() },
                ),
                cur: TokenView::blank(),
                ..self
            }
        }
    }

    /// An escaped `n` in plain text: the text so far and a line break go to the output.
    pub open spec fn line_break(self) -> LexState {
        LexState {
            tokens: pushed(self.tokens, self.cur).push(
                TokenView::leaf(TokenType::LineBreak, seq!['B', 'R']),
            ),
            cur: TokenView::blank(),
            ..self
        }
    }
}

/// A backslash arrives: it escapes the next character, or is itself the escaped one.
pub open spec fn step_backslash(st: LexState) -> LexState {
    if st.escaping {
        LexState { escaping: false, ..st.grow('\\') }
    } else if keeps_backslash(st.cur.class) {
        LexState { escaping: true, ..st.grow('\\') }
    } else {
        LexState { escaping: true, ..st }
    }
}

/// A character other than a backslash arrives in plain text at column `pos`.
pub open spec fn step_put(st: LexState, pos: int, c: char) -> LexState {
    if st.escaping {
        if c == 'n' {
            st.line_break()
        } else {
            st.grow(c)
        }
    } else if opener(c) is Some {
        st.open(opener(c)->0, c)
    } else if c == '#' && pos == 0 {
        st.open(TokenType::Header, c)
    } else if c == '(' && st.cur.is_blank() && st.tokens.len() > 0 && st.tokens.last().class
        == TokenType::LinkName {
        st.open(TokenType::LinkDir, c)
    } else if c == '{' && st.cur.is_blank() && (st.tokens.len() == 0 || st.tokens.last().class
        != TokenType::Put) {
        st.open(TokenType::Attr, c)
    } else {
        st.grow(c)
    }
}

/// A span with a one-character delimiter `sigil` that doubles into the class
/// `double`. `g` is the state with `c` already in the raw text.
pub open spec fn step_paired(
    g: LexState,
    c: char,
    sigil: char,
    double: TokenType,
    kids: Seq<TokenView>,
) -> LexState {
    if c == sigil {
        if g.escaping {
            g
        } else if is2(g.cur.content, sigil, sigil) {
            g.retag(double)
        } else {
            g.close(kids)
        }
    } else if c == ' ' && !g.escaping && is2(g.cur.content, sigil, ' ') {
        g.retag(TokenType::Put)
    } else {
        g
    }
}

/// A span with the two-character delimiter `sigil sigil`.
pub open spec fn step_doubled(g: LexState, c: char, sigil: char, kids: Seq<TokenView>) -> LexState {
    if c == sigil {
        g.knock(kids)
    } else if c == ' ' && !g.escaping && is3(g.cur.content, sigil, sigil, ' ') {
        g.retag(TokenType::Put)
    } else {
        g
    }
}

/// A span opened by `sigil` and closed by `closer`, which a space right after
/// the sigil turns back into plain text.
pub open spec fn step_single(
    g: LexState,
    c: char,
    sigil: char,
    closer: char,
    kids: Seq<TokenView>,
) -> LexState {
    if c == closer {
        if g.escaping {
            g
        } else {
            g.close(kids)
        }
    } else if c == ' ' && !g.escaping && is2(g.cur.content, sigil, ' ') {
        g.retag(TokenType::Put)
    } else {
        g
    }
}

/// A span that only its closer ends.
pub open spec fn step_verbatim(g: LexState, c: char, closer: char, kids: Seq<TokenView>) -> LexState {
    if c == closer && !g.escaping {
        g.close(kids)
    } else {
        g
    }
}

/// A character arrives in a bold span. At column 1 a space after the sigil
/// makes the sigil a list marker.
pub open spec fn step_bold(g: LexState, pos: int, c: char, kids: Seq<TokenView>) -> LexState {
    if c == ' ' && !g.escaping && is2(g.cur.content, '*', ' ') && pos == 1 {
        g.retag(TokenType::ListEl).emit()
    } else {
        step_paired(g, c, '*', TokenType::Strong, kids)
    }
}

/// A character arrives in a strong span. At column 2 a third sigil or a space
/// makes the sigils a list marker.
pub open spec fn step_strong(g: LexState, pos: int, c: char, kids: Seq<TokenView>) -> LexState {
    if c == '*' && pos == 2 && is3(g.cur.content, '*', '*', '*') {
        g.retag(TokenType::ListEl)
    } else if c == ' ' && !g.escaping && is3(g.cur.content, '*', '*', ' ') && pos == 2 {
        g.retag(TokenType::ListEl).emit()
    } else {
        step_doubled(g, c, '*', kids)
    }
}

/// A character arrives in a list marker of three sigils or more.
pub open spec fn step_list_el(g: LexState, c: char) -> LexState {
    if c == '*' {
        g
    } else if c == ' ' {
        g.emit()
    } else {
        g.retag(TokenType::Put)
    }
}

/// A character arrives in an image span.
pub open spec fn step_image(g: LexState, c: char) -> LexState {
    if c == '!' {
        if g.escaping {
            g
        } else if is2(g.cur.content, '!', '!') {
            g.retag(TokenType::Put)
        } else {
            g.emit()
        }
    } else if c == ' ' && !g.escaping && is2(g.cur.content, '!', ' ') {
        g.retag(TokenType::Put)
    } else {
        g
    }
}

/// A character arrives after one or more `-`. A single `-` is plain text unless
/// a second one follows it at once.
pub open spec fn step_under(st: LexState, c: char, kids: Seq<TokenView>) -> LexState {
    let g = st.grow(c);
    if st.cur.content.len() == 1 && st.cur.content[0] == '-' {
        if c == '-' {
            g
        } else {
            g.retag(TokenType::Put)
        }
    } else {
        step_doubled(g, c, '-', kids)
    }
}

/// A character arrives in a link destination.
pub open spec fn step_link_dir(g: LexState, c: char) -> LexState {
    if c == ')' && !g.escaping {
        g.emit()
    } else {
        g
    }
}

/// A character arrives in an attribute span.
pub open spec fn step_attr(g: LexState, c: char) -> LexState {
    if c == '}' && !g.escaping {
        g.attach()
    } else {
        g
    }
}

/// A character arrives after the header marker. `#` lengthens the marker, `{`
/// opens the header's attributes, `.` followed by a space makes the marker a
/// numbered list marker. Anything else ends the marker and is plain text, with
/// the `.` before it where one was waiting.
pub open spec fn step_header(st: LexState, c: char) -> LexState {
    if st.dot {
        if c == ' ' {
            LexState { dot: false, ..st.grow(' ').retag(TokenType::NumberedListEl).emit() }
        } else {
            LexState {
                tokens: pushed(st.tokens, st.cur),
                cur: TokenView::put(seq!['.', c]),
                dot: false,
                ..st
            }
        }
    } else if c == '#' {
        st.grow(c)
    } else if c == '{' {
        st.open(TokenType::Attr, c)
    } else if c == ' ' {
        st.emit()
    } else if c == '.' {
        LexState { dot: true, ..st }
    } else {
        st.open(TokenType::Put, c)
    }
}

/// A character other than a backslash arrives at column `pos`. `kids1` and
/// `kids2` are the tokens of the interior of the raw text with `c`, taken
/// without one and without two characters at each end.
pub open spec fn step_char(
    st: LexState,
    pos: int,
    c: char,
    kids1: Seq<TokenView>,
    kids2: Seq<TokenView>,
) -> LexState {
    let g = st.grow(c);
    let next = match st.cur.class {
        TokenType::Put => step_put(st, pos, c),
        TokenType::Bold => step_bold(g, pos, c, kids1),
        TokenType::Strong => step_strong(g, pos, c, kids2),
        TokenType::ListEl => step_list_el(g, c),
        TokenType::Italic => step_paired(g, c, '_', TokenType::Emphasis, kids1),
        TokenType::Emphasis => step_doubled(g, c, '_', kids2),
        TokenType::Sub => step_paired(g, c, '~', TokenType::Strike, kids1),
        TokenType::Strike => step_doubled(g, c, '~', kids2),
        TokenType::Image => step_image(g, c),
        TokenType::Sup => step_single(g, c, '^', '^', kids1),
        TokenType::Span => step_single(g, c, '@', '@', kids1),
        TokenType::Html => step_single(g, c, '<', '>', kids1),
        TokenType::Code => step_verbatim(g, c, '`', kids1),
        TokenType::LinkName => step_verbatim(g, c, ']', kids1),
        TokenType::Under => step_under(st, c, kids2),
        TokenType::LinkDir => step_link_dir(g, c),
        TokenType::Attr => step_attr(g, c),
        TokenType::Header => step_header(st, c),
        _ => st,
    };
    LexState { escaping: false, ..next }
}

/// The tokens of `text`, which is part of a line of `bound` characters.
pub open spec fn lex_interior(bound: nat, text: Seq<char>) -> Seq<TokenView>
    decreases bound, 0nat, 0nat,
{
    if text.len() < bound {
        lex(text).0
    } else {
        Seq::empty()
    }
}

/// The state after the character `c` at column `pos` of a line of `bound` characters.
pub open spec fn lex_step(bound: nat, st: LexState, pos: int, c: char) -> LexState
    decreases bound, 0nat, 1nat,
{
    if c == '\\' {
        step_backslash(st)
    } else {
        let raw = st.cur.content.push(c);
        step_char(
            st,
            pos,
            c,
            lex_interior(bound, interior(raw, 1)),
            lex_interior(bound, interior(raw, 2)),
        )
    }
}

/// The state after the first `n` characters of `input`.
pub open spec fn lex_run(input: Seq<char>, n: nat) -> LexState
    decreases input.len(), 1nat, n,
{
    if n == 0 || n > input.len() {
        LexState::start()
    } else {
        lex_step(input.len(), lex_run(input, (n - 1) as nat), n - 1, input[n - 1])
    }
}

/// The end of the line: the tokens and the warning text that the state `st`
/// leaves. A token still open falls back to plain text: its delimiter becomes a
/// plain token, the rest is tokenized in its turn, and the warning names it.
pub open spec fn lex_finish(bound: nat, st: LexState) -> (Seq<TokenView>, Seq<char>)
    decreases bound, 0nat, 1nat,
{
    let raw = st.cur.content;
    let width = recovery_width(st.cur.class);
    if raw.len() == 0 {
        (st.tokens, Seq::empty())
    } else if st.cur.class == TokenType::Put {
        (st.tokens.push(st.cur), Seq::empty())
    } else if width > 0 {
        let d = if width <= raw.len() {
            width as int
        } else {
            raw.len() as int
        };
        (
            st.tokens.push(TokenView::put(raw.take(d))) + lex_interior(bound, raw.skip(d)),
            warning(st.cur),
        )
    } else if st.dot {
        (st.tokens.push(st.cur).push(TokenView::put(seq!['.'])), warning(st.cur))
    } else {
        (st.tokens.push(st.cur), warning(st.cur))
    }
}

/// The inline tokens of the line `input`, and the warning text: empty, or the
/// one warning for the token that the line left open.
pub open spec fn lex(input: Seq<char>) -> (Seq<TokenView>, Seq<char>)
    decreases input.len(), 2nat, 0nat,
{
    lex_finish(input.len(), lex_run(input, input.len()))
}

/// The scan state of the lexer.
pub struct Lexer {
    pub tokens: Vec<Token>,
    pub cur: Token,
    pub escaping: bool,
    pub pending: bool,
    pub dot: bool,
}

impl View for Lexer {
    type V = LexState;

    open spec fn view(&self) -> LexState {
        LexState {
            tokens: views(self.tokens@),
            cur: self.cur@,
            escaping: self.escaping,
            pending: self.pending,
            dot: self.dot,
        }
    }
}

impl Lexer {
    /// The raw text of the token being built, and one more where a `.` waits,
    /// take no more than `n` characters.
    pub open spec fn within(&self, n: int) -> bool {
        self.cur.content@.len() + (if self.dot { 1int } else { 0int }) <= n
    }

    fn start() -> (l: Lexer)
        ensures
            l@ == LexState::start(),
            l.within(0),
    {
        let l = Lexer {
            tokens: Vec::new(),
            cur: Token::new(),
            escaping: false,
            pending: false,
            dot: false,
        };
        assert(views(l.tokens@) =~= Seq::empty());
        l
    }

    fn grow(&mut self, c: char)
        ensures
            final(self)@ == old(self)@.grow(c),
            final(self).dot == old(self).dot,
            final(self).cur.content@.len() == old(self).cur.content@.len() + 1,
    {
        proof {
            lemma_view(self.cur);
        }
        self.cur.content.push(c);
        proof {
            lemma_view(self.cur);
        }
    }

    fn retag(&mut self, class: TokenType)
        ensures
            final(self)@ == old(self)@.retag(class),
            final(self).dot == old(self).dot,
            final(self).cur.content@ == old(self).cur.content@,
    {
        proof {
            lemma_view(self.cur);
        }
        self.cur.class = class;
        proof {
            lemma_view(self.cur);
        }
    }

    fn emit(&mut self)
        ensures
            final(self)@ == old(self)@.emit(),
            final(self).dot == old(self).dot,
            final(self).cur.content@.len() == 0,
    {
        push_token(&mut self.tokens, &self.cur);
        self.cur = Token::new();
    }

    fn open(&mut self, class: TokenType, c: char)
        ensures
            final(self)@ == old(self)@.open(class, c),
            final(self).dot == old(self).dot,
            final(self).cur.content@.len() == 1,
    {
        push_token(&mut self.tokens, &self.cur);
        let mut raw: Vec<char> = Vec::new();
        raw.push(c);
        assert(raw@ =~= seq![c]);
        self.cur = Token::init(class, raw);
    }

    fn line_break(&mut self)
        ensures
            final(self)@ == old(self)@.line_break(),
            final(self).dot == old(self).dot,
            final(self).cur.content@.len() == 0,
    {
        push_token(&mut self.tokens, &self.cur);
        let mut raw: Vec<char> = Vec::new();
        raw.push('B');
        raw.push('R');
        assert(raw@ =~= seq!['B', 'R']);
        let br = Token::init(TokenType::LineBreak, raw);
        proof {
            lemma_views_push(self.tokens@, br);
        }
        self.tokens.push(br);
        self.cur = Token::new();
    }

    fn attach(&mut self)
        ensures
            final(self)@ == old(self)@.attach(),
            final(self).dot == old(self).dot,
            final(self).cur.content@.len() == 0,
    {
        match self.tokens.pop() {
            None => {
                self.emit();
            },
            Some(last) => {
                let mut last = last;
                let ghost before = last;
                last.attributes = copy_chars(&self.cur.content);
                proof {
                    lemma_view(before);
                    lemma_view(last);
                    lemma_view(self.cur);
                    lemma_views_push(self.tokens@, last);
                    assert(views(self.tokens@.push(last)) =~= old(self)@.tokens.update(
                        old(self)@.tokens.len() - 1,
                        TokenView { attributes: old(self)@.cur.content, ..old(self)@.tokens.last() },
                    ));
                }
                self.tokens.push(last);
                self.cur = Token::new();
            },
        }
    }

    /// Closes the token being built over the tokens of its interior.
    fn close(&mut self, width: usize, Ghost(bound): Ghost<nat>)
        requires
            1 <= width <= 2,
            old(self).cur.content@.len() <= bound,
        ensures
            final(self)@ == old(self)@.close(
                lex_interior(bound, interior(old(self)@.cur.content, width as nat)),
            ),
            final(self).dot == old(self).dot,
            final(self).cur.content@.len() == 0,
        decreases bound, 6nat,
    {
        proof {
            lemma_view(self.cur);
        }
        if self.cur.content.len() >= 2 * width {
            self.cur.tokenize_content(width);
        } else {
            self.cur.subtokens = Vec::new();
            proof {
                lemma_view(self.cur);
                assert(views(self.cur.subtokens@) =~= Seq::empty());
                assert(lex(Seq::<char>::empty()).0 =~= Seq::empty());
            }
        }
        push_token(&mut self.tokens, &self.cur);
        self.cur = Token::new();
    }

    fn knock(&mut self, Ghost(bound): Ghost<nat>)
        requires
            old(self).cur.content@.len() <= bound,
        ensures
            final(self)@ == old(self)@.knock(
                lex_interior(bound, interior(old(self)@.cur.content, 2)),
            ),
            final(self).dot == old(self).dot,
            final(self).cur.content@.len() <= old(self).cur.content@.len(),
        decreases bound, 7nat,
    {
        if self.escaping {
            self.pending = false;
        } else if !self.pending {
            self.pending = true;
        } else {
            self.close(2, Ghost(bound));
            self.pending = false;
        }
    }

    fn raw_is2(&self, a: char, b: char) -> (r: bool)
        ensures
            r == is2(self@.cur.content, a, b),
    {
        proof {
            lemma_view(self.cur);
        }
        self.cur.content.len() == 2 && self.cur.content[0] == a && self.cur.content[1] == b
    }

    fn raw_is3(&self, a: char, b: char, c: char) -> (r: bool)
        ensures
            r == is3(self@.cur.content, a, b, c),
    {
        proof {
            lemma_view(self.cur);
        }
        self.cur.content.len() == 3 && self.cur.content[0] == a && self.cur.content[1] == b
            && self.cur.content[2] == c
    }

    fn backslash(&mut self)
        ensures
            final(self)@ == step_backslash(old(self)@),
            final(self).dot == old(self).dot,
            final(self).cur.content@.len() <= old(self).cur.content@.len() + 1,
    {
        proof {
            lemma_view(self.cur);
        }
        if self.escaping {
            self.grow('\\');
            self.escaping = false;
        } else {
            let keeps = match self.cur.class {
                TokenType::Bold | TokenType::Italic | TokenType::Strong | TokenType::Emphasis
                | TokenType::LinkName | TokenType::Sub | TokenType::Sup | TokenType::Code
                | TokenType::Span | TokenType::Under | TokenType::Strike => true,
                _ => false,
            };
            if keeps {
                self.grow('\\');
            }
            self.escaping = true;
        }
    }

    fn put(&mut self, pos: usize, c: char)
        requires
            c != '\\',
        ensures
            final(self)@ == step_put(old(self)@, pos as int, c),
            final(self).dot == old(self).dot,
            final(self).cur.content@.len() <= old(self).cur.content@.len() + 1,
    {
        proof {
            lemma_view(self.cur);
        }
        if self.escaping {
            if c == 'n' {
                self.line_break();
            } else {
                self.grow(c);
            }
            return ;
        }
        let blank = self.cur.content.len() == 0 && self.cur.subtokens.len() == 0;
        match c {
            '*' => self.open(TokenType::Bold, c),
            '_' => self.open(TokenType::Italic, c),
            '[' => self.open(TokenType::LinkName, c),
            '~' => self.open(TokenType::Sub, c),
            '^' => self.open(TokenType::Sup, c),
            '!' => self.open(TokenType::Image, c),
            '`' => self.open(TokenType::Code, c),
            '@' => self.open(TokenType::Span, c),
            '-' => self.open(TokenType::Under, c),
            '<' => self.open(TokenType::Html, c),
            '#' => {
                if pos == 0 {
                    self.open(TokenType::Header, c);
                } else {
                    self.grow(c);
                }
            },
            '(' => {
                let n = self.tokens.len();
                if blank && n > 0 && self.tokens[n - 1].class == TokenType::LinkName {
                    self.open(TokenType::LinkDir, c);
                } else {
                    self.grow(c);
                }
            },
            '{' => {
                let n = self.tokens.len();
                if blank && (n == 0 || self.tokens[n - 1].class != TokenType::Put) {
                    self.open(TokenType::Attr, c);
                } else {
                    self.grow(c);
                }
            },
            _ => self.grow(c),
        }
    }

    fn paired(&mut self, c: char, sigil: char, double: TokenType, Ghost(bound): Ghost<nat>)
        requires
            old(self).cur.content@.len() <= bound,
        ensures
            final(self)@ == step_paired(
                old(self)@,
                c,
                sigil,
                double,
                lex_interior(bound, interior(old(self)@.cur.content, 1)),
            ),
            final(self).dot == old(self).dot,
            final(self).cur.content@.len() <= old(self).cur.content@.len(),
        decreases bound, 8nat,
    {
        if c == sigil {
            if self.escaping {
            } else if self.raw_is2(sigil, sigil) {
                self.retag(double);
            } else {
                self.close(1, Ghost(bound));
            }
        } else if c == ' ' && !self.escaping && self.raw_is2(sigil, ' ') {
            self.retag(TokenType::Put);
        }
    }

    fn doubled(&mut self, c: char, sigil: char, Ghost(bound): Ghost<nat>)
        requires
            old(self).cur.content@.len() <= bound,
        ensures
            final(self)@ == step_doubled(
                old(self)@,
                c,
                sigil,
                lex_interior(bound, interior(old(self)@.cur.content, 2)),
            ),
            final(self).dot == old(self).dot,
            final(self).cur.content@.len() <= old(self).cur.content@.len(),
        decreases bound, 8nat,
    {
        if c == sigil {
            self.knock(Ghost(bound));
        } else if c == ' ' && !self.escaping && self.raw_is3(sigil, sigil, ' ') {
            self.retag(TokenType::Put);
        }
    }

    fn single(&mut self, c: char, sigil: char, closer: char, Ghost(bound): Ghost<nat>)
        requires
            old(self).cur.content@.len() <= bound,
        ensures
            final(self)@ == step_single(
                old(self)@,
                c,
                sigil,
                closer,
                lex_interior(bound, interior(old(self)@.cur.content, 1)),
            ),
            final(self).dot == old(self).dot,
            final(self).cur.content@.len() <= old(self).cur.content@.len(),
        decreases bound, 8nat,
    {
        if c == closer {
            if !self.escaping {
                self.close(1, Ghost(bound));
            }
        } else if c == ' ' && !self.escaping && self.raw_is2(sigil, ' ') {
            self.retag(TokenType::Put);
        }
    }

    fn verbatim(&mut self, c: char, closer: char, Ghost(bound): Ghost<nat>)
        requires
            old(self).cur.content@.len() <= bound,
        ensures
            final(self)@ == step_verbatim(
                old(self)@,
                c,
                closer,
                lex_interior(bound, interior(old(self)@.cur.content, 1)),
            ),
            final(self).dot == old(self).dot,
            final(self).cur.content@.len() <= old(self).cur.content@.len(),
        decreases bound, 8nat,
    {
        if c == closer && !self.escaping {
            self.close(1, Ghost(bound));
        }
    }

    fn bold(&mut self, pos: usize, c: char, Ghost(bound): Ghost<nat>)
        requires
            old(self).cur.content@.len() <= bound,
        ensures
            final(self)@ == step_bold(
                old(self)@,
                pos as int,
                c,
                lex_interior(bound, interior(old(self)@.cur.content, 1)),
            ),
            final(self).dot == old(self).dot,
            final(self).cur.content@.len() <= old(self).cur.content@.len(),
        decreases bound, 9nat,
    {
        if c == ' ' && !self.escaping && pos == 1 && self.raw_is2('*', ' ') {
            self.retag(TokenType::ListEl);
            self.emit();
        } else {
            self.paired(c, '*', TokenType::Strong, Ghost(bound));
        }
    }

    fn strong(&mut self, pos: usize, c: char, Ghost(bound): Ghost<nat>)
        requires
            old(self).cur.content@.len() <= bound,
        ensures
            final(self)@ == step_strong(
                old(self)@,
                pos as int,
                c,
                lex_interior(bound, interior(old(self)@.cur.content, 2)),
            ),
            final(self).dot == old(self).dot,
            final(self).cur.content@.len() <= old(self).cur.content@.len(),
        decreases bound, 9nat,
    {
        if c == '*' && pos == 2 && self.raw_is3('*', '*', '*') {
            self.retag(TokenType::ListEl);
        } else if c == ' ' && !self.escaping && pos == 2 && self.raw_is3('*', '*', ' ') {
            self.retag(TokenType::ListEl);
            self.emit();
        } else {
            self.doubled(c, '*', Ghost(bound));
        }
    }

    fn list_el(&mut self, c: char)
        ensures
            final(self)@ == step_list_el(old(self)@, c),
            final(self).dot == old(self).dot,
            final(self).cur.content@.len() <= old(self).cur.content@.len(),
    {
        if c == '*' {
        } else if c == ' ' {
            self.emit();
        } else {
            self.retag(TokenType::Put);
        }
    }

    fn image(&mut self, c: char)
        ensures
            final(self)@ == step_image(old(self)@, c),
            final(self).dot == old(self).dot,
            final(self).cur.content@.len() <= old(self).cur.content@.len(),
    {
        if c == '!' {
            if self.escaping {
            } else if self.raw_is2('!', '!') {
                self.retag(TokenType::Put);
            } else {
                self.emit();
            }
        } else if c == ' ' && !self.escaping && self.raw_is2('!', ' ') {
            self.retag(TokenType::Put);
        }
    }

    fn under(&mut self, c: char, Ghost(bound): Ghost<nat>)
        requires
            old(self).cur.content@.len() + 1 <= bound,
        ensures
            final(self)@ == step_under(
                old(self)@,
                c,
                lex_interior(bound, interior(old(self)@.cur.content.push(c), 2)),
            ),
            final(self).dot == old(self).dot,
            final(self).cur.content@.len() <= old(self).cur.content@.len() + 1,
        decreases bound, 9nat,
    {
        proof {
            lemma_view(self.cur);
        }
        let lone = self.cur.content.len() == 1 && self.cur.content[0] == '-';
        self.grow(c);
        if lone {
            if c != '-' {
                self.retag(TokenType::Put);
            }
        } else {
            self.doubled(c, '-', Ghost(bound));
        }
    }

    fn link_dir(&mut self, c: char)
        ensures
            final(self)@ == step_link_dir(old(self)@, c),
            final(self).dot == old(self).dot,
            final(self).cur.content@.len() <= old(self).cur.content@.len(),
    {
        if c == ')' && !self.escaping {
            self.emit();
        }
    }

    fn attr(&mut self, c: char)
        ensures
            final(self)@ == step_attr(old(self)@, c),
            final(self).dot == old(self).dot,
            final(self).cur.content@.len() <= old(self).cur.content@.len(),
    {
        if c == '}' && !self.escaping {
            self.attach();
        }
    }

    fn header(&mut self, c: char)
        ensures
            final(self)@ == step_header(old(self)@, c),
            final(self).cur.content@.len() + (if final(self).dot { 1int } else { 0int })
                <= old(self).cur.content@.len() + (if old(self).dot { 1int } else { 0int }) + 1,
    {
        if self.dot {
            if c == ' ' {
                self.grow(' ');
                self.retag(TokenType::NumberedListEl);
                self.emit();
                self.dot = false;
            } else {
                push_token(&mut self.tokens, &self.cur);
                let mut raw: Vec<char> = Vec::new();
                raw.push('.');
                raw.push(c);
                assert(raw@ =~= seq!['.', c]);
                self.cur = Token::init(TokenType::Put, raw);
                self.dot = false;
            }
        } else if c == '#' {
            self.grow(c);
        } else if c == '{' {
            self.open(TokenType::Attr, c);
        } else if c == ' ' {
            self.emit();
        } else if c == '.' {
            self.dot = true;
        } else {
            self.open(TokenType::Put, c);
        }
    }

    /// Takes the character at column `pos` of `input`.
    fn step(&mut self, input: &Vec<char>, pos: usize)
        requires
            pos < input.len(),
            old(self).within(pos as int),
        ensures
            final(self)@ == lex_step(input@.len(), old(self)@, pos as int, input@[pos as int]),
            final(self).within(pos + 1),
        decreases input@.len(), 10nat,
    {
        let c = input[pos];
        let ghost bound = input@.len();
        if c == '\\' {
            self.backslash();
            return ;
        }
        proof {
            lemma_view(self.cur);
        }
        match self.cur.class {
            TokenType::Put => self.put(pos, c),
            TokenType::Bold => {
                self.grow(c);
                self.bold(pos, c, Ghost(bound));
            },
            TokenType::Strong => {
                self.grow(c);
                self.strong(pos, c, Ghost(bound));
            },
            TokenType::ListEl => {
                self.grow(c);
                self.list_el(c);
            },
            TokenType::Italic => {
                self.grow(c);
                self.paired(c, '_', TokenType::Emphasis, Ghost(bound));
            },
            TokenType::Emphasis => {
                self.grow(c);
                self.doubled(c, '_', Ghost(bound));
            },
            TokenType::Sub => {
                self.grow(c);
                self.paired(c, '~', TokenType::Strike, Ghost(bound));
            },
            TokenType::Strike => {
                self.grow(c);
                self.doubled(c, '~', Ghost(bound));
            },
            TokenType::Image => {
                self.grow(c);
                self.image(c);
            },
            TokenType::Sup => {
                self.grow(c);
                self.single(c, '^', '^', Ghost(bound));
            },
            TokenType::Span => {
                self.grow(c);
                self.single(c, '@', '@', Ghost(bound));
            },
            TokenType::Html => {
                self.grow(c);
                self.single(c, '<', '>', Ghost(bound));
            },
            TokenType::Code => {
                self.grow(c);
                self.verbatim(c, '`', Ghost(bound));
            },
            TokenType::LinkName => {
                self.grow(c);
                self.verbatim(c, ']', Ghost(bound));
            },
            TokenType::Under => self.under(c, Ghost(bound)),
            TokenType::LinkDir => {
                self.grow(c);
                self.link_dir(c);
            },
            TokenType::Attr => {
                self.grow(c);
                self.attr(c);
            },
            TokenType::Header => self.header(c),
            _ => {},
        }
        self.escaping = false;
    }

    /// Ends the line: hands out the tokens and the warning text.
    fn finish(self, Ghost(bound): Ghost<nat>) -> (out: (Vec<Token>, Vec<char>))
        requires
            self.cur.content@.len() <= bound,
        ensures
            views(out.0@) == lex_finish(bound, self@).0,
            out.1@ == lex_finish(bound, self@).1,
        decreases bound, 10nat,
    {
        let mut tokens = self.tokens;
        let mut cur = self.cur;
        let mut warnings: Vec<char> = Vec::new();
        proof {
            lemma_view(cur);
        }
        if cur.content.len() == 0 {
            return (tokens, warnings);
        }
        let width: usize = match cur.class {
            TokenType::Put => {
                proof {
                    lemma_views_push(tokens@, cur);
                }
                tokens.push(cur);
                return (tokens, warnings);
            },
            TokenType::Bold | TokenType::Italic | TokenType::Sub | TokenType::Sup
            | TokenType::LinkName | TokenType::LinkDir | TokenType::Attr | TokenType::Image
            | TokenType::Html | TokenType::Code | TokenType::Span => 1,
            TokenType::Strong | TokenType::Emphasis | TokenType::Under | TokenType::Strike => 2,
            _ => 0,
        };
        append_str(&mut warnings, "Unclosed ");
        append_str(&mut warnings, class_text(cur.class));
        append_str(&mut warnings, " token at ");
        append(&mut warnings, &cur.content);
        if width > 0 {
            let d: usize = if width <= cur.content.len() {
                width
            } else {
                cur.content.len()
            };
            let head = Token::init(TokenType::Put, slice_of(&cur.content, 0, d));
            proof {
                lemma_views_push(tokens@, head);
            }
            tokens.push(head);
            cur.tokenize_unclosed(d);
            proof {
                lemma_view(cur);
                lemma_views_add(tokens@, cur.subtokens@);
            }
            tokens.append(&mut cur.subtokens);
        } else {
            proof {
                lemma_views_push(tokens@, cur);
            }
            tokens.push(cur);
            if self.dot {
                let mut raw: Vec<char> = Vec::new();
                raw.push('.');
                assert(raw@ =~= seq!['.']);
                let t = Token::init(TokenType::Put, raw);
                proof {
                    lemma_views_push(tokens@, t);
                }
                tokens.push(t);
            }
        }
        (tokens, warnings)
    }
}

/// The name of a class as it appears in a warning.
fn class_text(class: TokenType) -> (name: &'static str)
    ensures
        name@ == class_name(class),
{
    match class {
        TokenType::Put => "Put",
        TokenType::Bold => "Bold",
        TokenType::Strong => "Strong",
        TokenType::Italic => "Italic",
        TokenType::Emphasis => "Emphasis",
        TokenType::LinkName => "LinkName",
        TokenType::LinkDir => "LinkDir",
        TokenType::Attr => "Attr",
        TokenType::Sub => "Sub",
        TokenType::Sup => "Sup",
        TokenType::Span => "Span",
        TokenType::Code => "Code",
        TokenType::Strike => "Strike",
        TokenType::Under => "Under",
        TokenType::Header => "Header",
        TokenType::Html => "Html",
        TokenType::ListEl => "ListEl",
        TokenType::NumberedListEl => "NumberedListEl",
        TokenType::LineBreak => "LineBreak",
        TokenType::Para => "Para",
        TokenType::UList => "UList",
        TokenType::OList => "OList",
        TokenType::ListBlock => "ListBlock",
        TokenType::Image => "Image",
        TokenType::Table => "Table",
        TokenType::TableRow => "TableRow",
        TokenType::TableCell => "TableCell",
        TokenType::TableHeader => "TableHeader",
    }
}

impl Token {
    /// Replaces the children by the tokens of the raw text taken without
    /// `borders` characters at each end.
    pub fn tokenize_content(&mut self, borders: usize)
        requires
            2 * borders <= old(self).content@.len(),
        ensures
            final(self)@ == (TokenView {
                subtokens: lex(interior(old(self)@.content, borders as nat)).0,
                ..old(self)@
            }),
            final(self).content@ == old(self).content@,
        decreases old(self).content@.len() - 2 * borders, 12nat,
    {
        proof {
            lemma_view(*self);
        }
        let inner = slice_of(&self.content, borders, self.content.len() - borders);
        let (kids, _) = tokenize(&inner);
        self.subtokens = kids;
        proof {
            lemma_view(*self);
        }
    }

    /// Replaces the children by the tokens of the raw text taken without its
    /// first `borders` characters.
    pub fn tokenize_unclosed(&mut self, borders: usize)
        requires
            borders <= old(self).content@.len(),
        ensures
            final(self)@ == (TokenView {
                subtokens: lex(old(self)@.content.skip(borders as int)).0,
                ..old(self)@
            }),
            final(self).content@ == old(self).content@,
        decreases old(self).content@.len() - borders, 12nat,
    {
        proof {
            lemma_view(*self);
        }
        let inner = slice_of(&self.content, borders, self.content.len());
        let (kids, _) = tokenize(&inner);
        self.subtokens = kids;
        proof {
            lemma_view(*self);
        }
    }
}

/// Tokenizes one line. Returns the inline tokens and the warning text, which is
/// empty unless the line left a token open.
pub fn tokenize(input: &Vec<char>) -> (out: (Vec<Token>, Vec<char>))
    ensures
        views(out.0@) == lex(input@).0,
        out.1@ == lex(input@).1,
    decreases input@.len(), 11nat,
{
    let mut lexer = Lexer::start();
    let mut pos: usize = 0;
    while pos < input.len()
        invariant
            pos <= input.len(),
            lexer@ == lex_run(input@, pos as nat),
            lexer.within(pos as int),
        decreases input.len() - pos,
    {
        lexer.step(input, pos);
        pos += 1;
    }
    lexer.finish(Ghost(input@.len()))
}

/// The tokens and the warning text of one line of a document. A line that
/// starts with `|` is a table row: it is one token that holds the line as it stands.
pub open spec fn lex_line(line: Seq<char>) -> (Seq<TokenView>, Seq<char>) {
    if line.len() > 0 && line[0] == '|' {
        (seq![TokenView::leaf(TokenType::TableRow, line)], Seq::empty())
    } else {
        lex(line)
    }
}

/// Tokenizes one line of a document: a table row as one token, any other line
/// by [`tokenize`].
pub fn tokenize_line(line: &Vec<char>) -> (out: (Vec<Token>, Vec<char>))
    ensures
        views(out.0@) == lex_line(line@).0,
        out.1@ == lex_line(line@).1,
{
    if line.len() > 0 && line[0] == '|' {
        let row = Token::init(TokenType::TableRow, copy_chars(line));
        let mut tokens: Vec<Token> = Vec::new();
        proof {
            lemma_views_push(tokens@, row);
            assert(views(tokens@).push(row@) =~= seq![row@]);
        }
        tokens.push(row);
        (tokens, Vec::new())
    } else {
        tokenize(line)
    }
}

} // verus!
