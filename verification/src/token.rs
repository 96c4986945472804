//! The token tree shared by the inline lexer, the block structurer and the renderer.

use vstd::prelude::*;
use crate::text::copy_chars;

verus! {

/// The syntactic class of a token.
#[derive(Clone, Copy, Debug, PartialEq, Eq, Structural)]
pub enum TokenType {
    Put,
    Bold,
    Strong,
    Italic,
    Emphasis,
    LinkName,
    LinkDir,
    Attr,
    Sub,
    Sup,
    Span,
    Code,
    Strike,
    Under,
    Header,
    Html,
    ListEl,
    NumberedListEl,
    LineBreak,
    Para,
    UList,
    OList,
    ListBlock,
    Image,
    Table,
    TableRow,
    TableCell,
    TableHeader,
}

/// One node of the token tree.
#[derive(Debug)]
pub struct Token {
    pub class: TokenType,
    pub content: Vec<char>,
    pub subtokens: Vec<Token>,
    pub attributes: Vec<char>,
}

/// The mathematical value of a [`Token`].
#[verifier::ext_equal]
pub ghost struct TokenView {
    pub class: TokenType,
    pub content: Seq<char>,
    pub subtokens: Seq<TokenView>,
    pub attributes: Seq<char>,
}

impl TokenView {
    /// A token of class `class` with raw text `content`, no children and no attributes.
    pub open spec fn leaf(class: TokenType, content: Seq<char>) -> TokenView {
        TokenView { class, content, subtokens: Seq::empty(), attributes: Seq::empty() }
    }

    /// A token of class `class` with raw text `content` and children `subtokens`.
    pub open spec fn node(
        class: TokenType,
        content: Seq<char>,
        subtokens: Seq<TokenView>,
    ) -> TokenView {
        TokenView { class, content, subtokens, attributes: Seq::empty() }
    }

    /// The empty plain-text token.
    pub open spec fn blank() -> TokenView {
        TokenView::leaf(TokenType::Put, Seq::empty())
    }

    /// A plain-text token.
    pub open spec fn put(content: Seq<char>) -> TokenView {
        TokenView::leaf(TokenType::Put, content)
    }

    /// A token with neither text nor children.
    pub open spec fn is_blank(self) -> bool {
        self.content.len() == 0 && self.subtokens.len() == 0
    }
}

/// `tokens` with `t` appended, unless `t` is blank.
pub open spec fn pushed(tokens: Seq<TokenView>, t: TokenView) -> Seq<TokenView> {
    if t.is_blank() {
        tokens
    } else {
        tokens.push(t)
    }
}

impl Token {
    /// The value of the tree rooted at this token.
    pub open spec fn model(self) -> TokenView
        decreases self,
    {
        TokenView {
            class: self.class,
            content: self.content@,
            subtokens: Seq::new(
                self.subtokens@.len(),
                |i: int|
                    if 0 <= i < self.subtokens@.len() {
                        self.subtokens@[i].model()
                    } else {
                        arbitrary()
                    },
            ),
            attributes: self.attributes@,
        }
    }
}

impl View for Token {
    type V = TokenView;

    open spec fn view(&self) -> TokenView {
        self.model()
    }
}

/// The views of a sequence of tokens, in order.
pub open spec fn views(tokens: Seq<Token>) -> Seq<TokenView> {
    Seq::new(tokens.len(), |i: int| tokens[i]@)
}

/// The view of a token, field by field.
pub proof fn lemma_view(t: Token)
    ensures
        t@ == (TokenView {
            class: t.class,
            content: t.content@,
            subtokens: views(t.subtokens@),
            attributes: t.attributes@,
        }),
{
    assert(t@.subtokens =~= views(t.subtokens@));
}

/// The views of a sequence with one more token.
pub proof fn lemma_views_push(s: Seq<Token>, t: Token)
    ensures
        views(s.push(t)) == views(s).push(t@),
{
    assert(views(s.push(t)) =~= views(s).push(t@));
}

/// The views of a concatenation.
pub proof fn lemma_views_add(s: Seq<Token>, t: Seq<Token>)
    ensures
        views(s + t) == views(s) + views(t),
{
    assert(views(s + t) =~= views(s) + views(t));
}

impl Clone for Token {
    fn clone(&self) -> (r: Self)
        ensures
            r@ == self@,
        decreases self,
    {
        let mut subs: Vec<Token> = Vec::new();
        let mut i: usize = 0;
        while i < self.subtokens.len()
            invariant
                i <= self.subtokens.len(),
                subs@.len() == i,
                forall|j: int| 0 <= j < i ==> subs@[j]@ == self.subtokens@[j]@,
            decreases self.subtokens.len() - i,
        {
            let c = self.subtokens[i].clone();
            subs.push(c);
            i += 1;
        }
        let r = Token {
            class: self.class,
            content: copy_chars(&self.content),
            subtokens: subs,
            attributes: copy_chars(&self.attributes),
        };
        assert(r@.subtokens =~= self@.subtokens);
        r
    }
}

impl Token {
    /// The empty plain-text token.
    pub fn new() -> (t: Self)
        ensures
            t@ == TokenView::blank(),
    {
        let t = Token {
            class: TokenType::Put,
            content: Vec::new(),
            subtokens: Vec::new(),
            attributes: Vec::new(),
        };
        proof {
            lemma_view(t);
            assert(views(t.subtokens@) =~= Seq::empty());
        }
        t
    }

    /// The empty paragraph.
    pub fn n_para() -> (t: Self)
        ensures
            t@ == TokenView::leaf(TokenType::Para, Seq::empty()),
    {
        let t = Token {
            class: TokenType::Para,
            content: Vec::new(),
            subtokens: Vec::new(),
            attributes: Vec::new(),
        };
        proof {
            lemma_view(t);
            assert(views(t.subtokens@) =~= Seq::empty());
        }
        t
    }

    /// A token of class `class` with raw text `content`.
    pub fn init(class: TokenType, content: Vec<char>) -> (t: Self)
        ensures
            t@ == TokenView::leaf(class, content@),
    {
        let t = Token { class, content, subtokens: Vec::new(), attributes: Vec::new() };
        proof {
            lemma_view(t);
            assert(views(t.subtokens@) =~= Seq::empty());
        }
        t
    }

    /// A token of class `class` with raw text `content` and children `tcontent`.
    pub fn init_sub(class: TokenType, tcontent: Vec<Token>, content: Vec<char>) -> (t: Self)
        ensures
            t@ == TokenView::node(class, content@, views(tcontent@)),
    {
        let t = Token { class, content, subtokens: tcontent, attributes: Vec::new() };
        proof {
            lemma_view(t);
        }
        t
    }
}

/// Appends a copy of `token` to `list`, unless the token has neither text nor children.
pub fn push_token(list: &mut Vec<Token>, token: &Token)
    ensures
        views(final(list)@) == pushed(views(old(list)@), token@),
{
    if token.content.len() != 0 || token.subtokens.len() != 0 {
        let t = token.clone();
        proof {
            lemma_views_push(list@, t);
        }
        list.push(t);
    }
}

} // verus!
