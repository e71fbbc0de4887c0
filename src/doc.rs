use vstd::prelude::*;

verus! {

/// The mathematical form of a layout token.
pub ghost enum Tok {
    Text(Seq<char>),
    Verbatim(Seq<char>),
    Line,
    SoftLine,
    Alt(Seq<char>, Seq<char>),
    Note(Seq<char>),
    Style(Seq<char>),
    GroupStart,
    GroupEnd,
    NestStart,
    NestEnd,
}

/// One element of a layout document.
///
/// A document is a sequence of tokens in which `GroupStart` / `GroupEnd`
/// and `NestStart` / `NestEnd` bracket the tree structure: a group is the
/// unit that is rendered either entirely flat or entirely broken, and a nest
/// raises the indentation of the line breaks inside it by one level.
pub enum Token {
    /// Atomic text; its width is its number of characters.
    Text(String),
    /// Raw text that may hold line breaks; a group holding a line break
    /// this way never renders flat.
    Verbatim(String),
    /// A space when the enclosing group is flat, else a line break.
    Line,
    /// Nothing when the enclosing group is flat, else a line break.
    SoftLine,
    /// The first text when the enclosing group is flat, else the second.
    Alt(String, String),
    /// Text that shows only in broken form; its group always breaks.
    Note(String),
    /// A terminal control sequence: written as it is, of no width.
    Style(String),
    GroupStart,
    GroupEnd,
    NestStart,
    NestEnd,
}

impl View for Token {
    type V = Tok;

    open spec fn view(&self) -> Tok {
        match self {
            Token::Text(s) => Tok::Text(s@),
            Token::Verbatim(s) => Tok::Verbatim(s@),
            Token::Line => Tok::Line,
            Token::SoftLine => Tok::SoftLine,
            Token::Alt(f, b) => Tok::Alt(f@, b@),
            Token::Note(s) => Tok::Note(s@),
            Token::Style(s) => Tok::Style(s@),
            Token::GroupStart => Tok::GroupStart,
            Token::GroupEnd => Tok::GroupEnd,
            Token::NestStart => Tok::NestStart,
            Token::NestEnd => Tok::NestEnd,
        }
    }
}

/// A layout document under construction.
pub struct Doc {
    pub tokens: Vec<Token>,
}

impl View for Doc {
    type V = Seq<Tok>;

    open spec fn view(&self) -> Seq<Tok> {
        self.tokens@.map_values(|t: Token| t@)
    }
}

impl Doc {
    pub fn new() -> (d: Doc)
        ensures
            d@ == Seq::<Tok>::empty(),
    {
        let d = Doc { tokens: Vec::new() };
        assert(d@ =~= Seq::<Tok>::empty());
        d
    }

    /// Appends one token.
    pub fn push(&mut self, t: Token)
        ensures
            final(self)@ == old(self)@.push(t@),
    {
        self.tokens.push(t);
        assert(self@ =~= old(self)@.push(t@));
    }

    /// Appends atomic text.
    pub fn text(&mut self, s: &str)
        ensures
            final(self)@ == old(self)@.push(Tok::Text(s@)),
    {
        self.push(Token::Text(String::from_str(s)));
    }
}

} // verus!
