//! Tokens produced by the scanner.

use vstd::prelude::*;

verus! {

/// A scanned token. Text-carrying variants hold the exact source run they
/// were scanned from, so that a token stream re-encodes its source.
#[derive(Debug)]
pub enum Token {
    Dot,
    Equal,
    /// Newlines act as statement terminators.
    NewLine,
    /// Semicolons are explicit statement terminators.
    Semicolon,
    IgnoreBegin,
    IgnoreEnd,
    DeformatBegin,
    DeformatEnd,
    Symbol(String),
    OpenBracket(String),
    CloseBracket(String),
    Literal(String),
    Identifier(String),
    /// A line comment; its extent relies on the newline that follows it.
    ShortComment(String),
    LongComment(String),
    /// A run of horizontal whitespace, preserved exactly.
    Whitespace(String),
}

/// The mathematical model of a token: the same shape over character
/// sequences.
pub enum TokenModel {
    Dot,
    Equal,
    NewLine,
    Semicolon,
    IgnoreBegin,
    IgnoreEnd,
    DeformatBegin,
    DeformatEnd,
    Symbol(Seq<char>),
    OpenBracket(Seq<char>),
    CloseBracket(Seq<char>),
    Literal(Seq<char>),
    Identifier(Seq<char>),
    ShortComment(Seq<char>),
    LongComment(Seq<char>),
    Whitespace(Seq<char>),
}

impl View for Token {
    type V = TokenModel;

    open spec fn view(&self) -> TokenModel {
        match self {
            Token::Dot => TokenModel::Dot,
            Token::Equal => TokenModel::Equal,
            Token::NewLine => TokenModel::NewLine,
            Token::Semicolon => TokenModel::Semicolon,
            Token::IgnoreBegin => TokenModel::IgnoreBegin,
            Token::IgnoreEnd => TokenModel::IgnoreEnd,
            Token::DeformatBegin => TokenModel::DeformatBegin,
            Token::DeformatEnd => TokenModel::DeformatEnd,
            Token::Symbol(s) => TokenModel::Symbol(s@),
            Token::OpenBracket(s) => TokenModel::OpenBracket(s@),
            Token::CloseBracket(s) => TokenModel::CloseBracket(s@),
            Token::Literal(s) => TokenModel::Literal(s@),
            Token::Identifier(s) => TokenModel::Identifier(s@),
            Token::ShortComment(s) => TokenModel::ShortComment(s@),
            Token::LongComment(s) => TokenModel::LongComment(s@),
            Token::Whitespace(s) => TokenModel::Whitespace(s@),
        }
    }
}

impl DeepView for Token {
    type V = TokenModel;

    open spec fn deep_view(&self) -> TokenModel {
        self.view()
    }
}

/// The textual form of a token: the characters it stands for in source text.
pub open spec fn token_text(t: TokenModel) -> Seq<char> {
    match t {
        TokenModel::Dot => "."@,
        TokenModel::Equal => "="@,
        TokenModel::NewLine => "\n"@,
        TokenModel::Semicolon => ";"@,
        TokenModel::IgnoreBegin => "//#RCFBEGINIGNORE"@,
        TokenModel::IgnoreEnd => "//#RCFENDIGNORE"@,
        TokenModel::DeformatBegin => "//#RCFBEGINDEFORMAT"@,
        TokenModel::DeformatEnd => "//#RCFENDDEFORMAT"@,
        TokenModel::Symbol(s) => s,
        TokenModel::OpenBracket(s) => s,
        TokenModel::CloseBracket(s) => s,
        TokenModel::Literal(s) => s,
        TokenModel::Identifier(s) => s,
        TokenModel::ShortComment(s) => s,
        TokenModel::LongComment(s) => s,
        TokenModel::Whitespace(s) => s,
    }
}

impl Token {
    /// The textual form of this token.
    pub fn get_string(&self) -> (r: String)
        ensures
            r@ == token_text(self@),
    {
        match self {
            Token::Dot => ".".to_owned(),
            Token::Equal => "=".to_owned(),
            Token::NewLine => "\n".to_owned(),
            Token::Semicolon => ";".to_owned(),
            Token::IgnoreBegin => "//#RCFBEGINIGNORE".to_owned(),
            Token::IgnoreEnd => "//#RCFENDIGNORE".to_owned(),
            Token::DeformatBegin => "//#RCFBEGINDEFORMAT".to_owned(),
            Token::DeformatEnd => "//#RCFENDDEFORMAT".to_owned(),
            Token::Symbol(s) => s.clone(),
            Token::OpenBracket(s) => s.clone(),
            Token::CloseBracket(s) => s.clone(),
            Token::Literal(s) => s.clone(),
            Token::Identifier(s) => s.clone(),
            Token::ShortComment(s) => s.clone(),
            Token::LongComment(s) => s.clone(),
            Token::Whitespace(s) => s.clone(),
        }
    }
}

impl Clone for Token {
    fn clone(&self) -> (r: Self)
        ensures
            r == *self,
    {
        match self {
            Token::Dot => Token::Dot,
            Token::Equal => Token::Equal,
            Token::NewLine => Token::NewLine,
            Token::Semicolon => Token::Semicolon,
            Token::IgnoreBegin => Token::IgnoreBegin,
            Token::IgnoreEnd => Token::IgnoreEnd,
            Token::DeformatBegin => Token::DeformatBegin,
            Token::DeformatEnd => Token::DeformatEnd,
            Token::Symbol(s) => Token::Symbol(s.clone()),
            Token::OpenBracket(s) => Token::OpenBracket(s.clone()),
            Token::CloseBracket(s) => Token::CloseBracket(s.clone()),
            Token::Literal(s) => Token::Literal(s.clone()),
            Token::Identifier(s) => Token::Identifier(s.clone()),
            Token::ShortComment(s) => Token::ShortComment(s.clone()),
            Token::LongComment(s) => Token::LongComment(s.clone()),
            Token::Whitespace(s) => Token::Whitespace(s.clone()),
        }
    }
}

/// The concatenated textual form of a token sequence.
pub open spec fn tokens_text(ts: Seq<TokenModel>) -> Seq<char>
    decreases ts.len(),
{
    if ts.len() == 0 {
        Seq::empty()
    } else {
        tokens_text(ts.drop_last()) + token_text(ts.last())
    }
}

pub proof fn lemma_tokens_text_cons(t: TokenModel, ts: Seq<TokenModel>)
    ensures
        tokens_text(seq![t] + ts) == token_text(t) + tokens_text(ts),
    decreases ts.len(),
{
    if ts.len() == 0 {
        assert(seq![t] + ts =~= seq![t]);
        assert(seq![t].drop_last() =~= Seq::<TokenModel>::empty());
        assert(seq![t].last() == t);
        assert(tokens_text(Seq::<TokenModel>::empty()) == Seq::<char>::empty());
        assert(tokens_text(seq![t]) == tokens_text(Seq::<TokenModel>::empty()) + token_text(t));
        assert(tokens_text(seq![t]) =~= token_text(t));
        assert(token_text(t) + tokens_text(ts) =~= token_text(t));
    } else {
        assert((seq![t] + ts).drop_last() =~= seq![t] + ts.drop_last());
        assert((seq![t] + ts).last() == ts.last());
        lemma_tokens_text_cons(t, ts.drop_last());
        assert(tokens_text(seq![t] + ts)
            == (token_text(t) + tokens_text(ts.drop_last())) + token_text(ts.last()));
        assert((token_text(t) + tokens_text(ts.drop_last())) + token_text(ts.last())
            =~= token_text(t) + (tokens_text(ts.drop_last()) + token_text(ts.last())));
    }
}

/// Whether a token is one of the four reserved directive-comment tokens.
pub open spec fn is_directive(t: TokenModel) -> bool {
    t is IgnoreBegin || t is IgnoreEnd || t is DeformatBegin || t is DeformatEnd
}

} // verus!
