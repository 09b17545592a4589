use vstd::prelude::*;

verus! {

/// Every kind of token the scanner produces.
#[derive(Clone, Copy, Debug, PartialEq, Eq, Structural)]
pub enum TokenType {
    LeftParen,
    RightParen,
    LeftBrace,
    RightBrace,
    Comma,
    Dot,
    Minus,
    Plus,
    Semicolon,
    Slash,
    Star,
    Bang,
    BangEqual,
    Equal,
    EqualEqual,
    Greater,
    GreaterEqual,
    Less,
    LessEqual,
    Identifier,
    Str,
    Number,
    And,
    Break,
    Class,
    Else,
    False,
    Fun,
    For,
    If,
    Nil,
    Or,
    Print,
    Return,
    Super,
    This,
    True,
    Var,
    While,
    EOF,
}

/// The value a token carries besides its kind: an identifier's name, a string's
/// contents (without the quotes) or a number's digits as written.
#[derive(Clone, Debug)]
pub enum Literal {
    Identifier(String),
    Str(String),
    Number(String),
}

/// A token: its kind, the source text it was scanned from, its value where it has
/// one, and the line and column of its last character.
#[derive(Clone, Debug)]
pub struct Token {
    pub ty: TokenType,
    pub lexeme: String,
    pub literal: Option<Literal>,
    pub line: usize,
    pub col: i64,
}

/// The mathematical content of a [`Literal`].
pub enum LiteralView {
    Identifier(Seq<char>),
    Str(Seq<char>),
    Number(Seq<char>),
}

/// The mathematical content of a [`Token`].
pub struct TokenView {
    pub ty: TokenType,
    pub lexeme: Seq<char>,
    pub literal: Option<LiteralView>,
    pub line: usize,
    pub col: i64,
}

impl View for Literal {
    type V = LiteralView;

    open spec fn view(&self) -> LiteralView {
        match self {
            Literal::Identifier(s) => LiteralView::Identifier(s@),
            Literal::Str(s) => LiteralView::Str(s@),
            Literal::Number(s) => LiteralView::Number(s@),
        }
    }
}

pub open spec fn literal_view_opt(l: Option<Literal>) -> Option<LiteralView> {
    match l {
        Some(v) => Some(v@),
        None => None,
    }
}

impl View for Token {
    type V = TokenView;

    open spec fn view(&self) -> TokenView {
        TokenView {
            ty: self.ty,
            lexeme: self.lexeme@,
            literal: literal_view_opt(self.literal),
            line: self.line,
            col: self.col,
        }
    }
}

/// The views of a sequence of tokens.
pub open spec fn token_views(ts: Seq<Token>) -> Seq<TokenView> {
    ts.map_values(|t: Token| t@)
}

/// Viewing a sequence with one more token adds that token's view.
pub proof fn lemma_token_views_push(s: Seq<Token>, x: Token)
    ensures
        token_views(s.push(x)) == token_views(s).push(x@),
{
    assert(token_views(s.push(x)) =~= token_views(s).push(x@));
}

impl Literal {
    /// A copy with the same content.
    pub fn duplicate(&self) -> (r: Literal)
        ensures
            r@ == self@,
    {
        match self {
            Literal::Identifier(s) => Literal::Identifier(s.clone()),
            Literal::Str(s) => Literal::Str(s.clone()),
            Literal::Number(s) => Literal::Number(s.clone()),
        }
    }
}

impl Token {
    /// A copy with the same content.
    pub fn duplicate(&self) -> (r: Token)
        ensures
            r@ == self@,
    {
        let literal = match &self.literal {
            Some(l) => Some(l.duplicate()),
            None => None,
        };
        Token { ty: self.ty, lexeme: self.lexeme.clone(), literal, line: self.line, col: self.col }
    }
}

/// Checks two byte slices for equality, element by element.
pub fn bytes_equal(a: &[u8], b: &[u8]) -> (r: bool)
    ensures
        r == (a@ == b@),
{
    if a.len() != b.len() {
        return false;
    }
    let mut i: usize = 0;
    while i < a.len()
        invariant
            a@.len() == b@.len(),
            0 <= i <= a@.len(),
            forall|j: int| 0 <= j < i ==> a@[j] == b@[j],
        decreases a@.len() - i,
    {
        if a[i] != b[i] {
            return false;
        }
        i = i + 1;
    }
    assert(a@ =~= b@);
    true
}

/// The reserved word spelled by the given bytes, if they spell one.
pub open spec fn spec_keyword(w: Seq<u8>) -> Option<TokenType> {
    if w == seq!['a' as u8, 'n' as u8, 'd' as u8] {
        Some(TokenType::And)
    } else if w == seq!['b' as u8, 'r' as u8, 'e' as u8, 'a' as u8, 'k' as u8] {
        Some(TokenType::Break)
    } else if w == seq!['c' as u8, 'l' as u8, 'a' as u8, 's' as u8, 's' as u8] {
        Some(TokenType::Class)
    } else if w == seq!['e' as u8, 'l' as u8, 's' as u8, 'e' as u8] {
        Some(TokenType::Else)
    } else if w == seq!['f' as u8, 'a' as u8, 'l' as u8, 's' as u8, 'e' as u8] {
        Some(TokenType::False)
    } else if w == seq!['f' as u8, 'o' as u8, 'r' as u8] {
        Some(TokenType::For)
    } else if w == seq!['f' as u8, 'u' as u8, 'n' as u8] {
        Some(TokenType::Fun)
    } else if w == seq!['i' as u8, 'f' as u8] {
        Some(TokenType::If)
    } else if w == seq!['n' as u8, 'i' as u8, 'l' as u8] {
        Some(TokenType::Nil)
    } else if w == seq!['o' as u8, 'r' as u8] {
        Some(TokenType::Or)
    } else if w == seq!['p' as u8, 'r' as u8, 'i' as u8, 'n' as u8, 't' as u8] {
        Some(TokenType::Print)
    } else if w == seq!['r' as u8, 'e' as u8, 't' as u8, 'u' as u8, 'r' as u8, 'n' as u8] {
        Some(TokenType::Return)
    } else if w == seq!['s' as u8, 'u' as u8, 'p' as u8, 'e' as u8, 'r' as u8] {
        Some(TokenType::Super)
    } else if w == seq!['t' as u8, 'h' as u8, 'i' as u8, 's' as u8] {
        Some(TokenType::This)
    } else if w == seq!['t' as u8, 'r' as u8, 'u' as u8, 'e' as u8] {
        Some(TokenType::True)
    } else if w == seq!['v' as u8, 'a' as u8, 'r' as u8] {
        Some(TokenType::Var)
    } else if w == seq!['w' as u8, 'h' as u8, 'i' as u8, 'l' as u8, 'e' as u8] {
        Some(TokenType::While)
    } else {
        None
    }
}

/// Looks up the reserved word spelled by `w`.
pub fn keyword(w: &[u8]) -> (r: Option<TokenType>)
    ensures
        r == spec_keyword(w@),
{
    let and: [u8; 3] = ['a' as u8, 'n' as u8, 'd' as u8];
    let brk: [u8; 5] = ['b' as u8, 'r' as u8, 'e' as u8, 'a' as u8, 'k' as u8];
    let class: [u8; 5] = ['c' as u8, 'l' as u8, 'a' as u8, 's' as u8, 's' as u8];
    let els: [u8; 4] = ['e' as u8, 'l' as u8, 's' as u8, 'e' as u8];
    let fals: [u8; 5] = ['f' as u8, 'a' as u8, 'l' as u8, 's' as u8, 'e' as u8];
    let fo: [u8; 3] = ['f' as u8, 'o' as u8, 'r' as u8];
    let fun: [u8; 3] = ['f' as u8, 'u' as u8, 'n' as u8];
    let i: [u8; 2] = ['i' as u8, 'f' as u8];
    let nil: [u8; 3] = ['n' as u8, 'i' as u8, 'l' as u8];
    let or: [u8; 2] = ['o' as u8, 'r' as u8];
    let print: [u8; 5] = ['p' as u8, 'r' as u8, 'i' as u8, 'n' as u8, 't' as u8];
    let ret: [u8; 6] = ['r' as u8, 'e' as u8, 't' as u8, 'u' as u8, 'r' as u8, 'n' as u8];
    let sup: [u8; 5] = ['s' as u8, 'u' as u8, 'p' as u8, 'e' as u8, 'r' as u8];
    let this: [u8; 4] = ['t' as u8, 'h' as u8, 'i' as u8, 's' as u8];
    let tru: [u8; 4] = ['t' as u8, 'r' as u8, 'u' as u8, 'e' as u8];
    let var: [u8; 3] = ['v' as u8, 'a' as u8, 'r' as u8];
    let whil: [u8; 5] = ['w' as u8, 'h' as u8, 'i' as u8, 'l' as u8, 'e' as u8];
    if bytes_equal(w, &and) {
        Some(TokenType::And)
    } else if bytes_equal(w, &brk) {
        Some(TokenType::Break)
    } else if bytes_equal(w, &class) {
        Some(TokenType::Class)
    } else if bytes_equal(w, &els) {
        Some(TokenType::Else)
    } else if bytes_equal(w, &fals) {
        Some(TokenType::False)
    } else if bytes_equal(w, &fo) {
        Some(TokenType::For)
    } else if bytes_equal(w, &fun) {
        Some(TokenType::Fun)
    } else if bytes_equal(w, &i) {
        Some(TokenType::If)
    } else if bytes_equal(w, &nil) {
        Some(TokenType::Nil)
    } else if bytes_equal(w, &or) {
        Some(TokenType::Or)
    } else if bytes_equal(w, &print) {
        Some(TokenType::Print)
    } else if bytes_equal(w, &ret) {
        Some(TokenType::Return)
    } else if bytes_equal(w, &sup) {
        Some(TokenType::Super)
    } else if bytes_equal(w, &this) {
        Some(TokenType::This)
    } else if bytes_equal(w, &tru) {
        Some(TokenType::True)
    } else if bytes_equal(w, &var) {
        Some(TokenType::Var)
    } else if bytes_equal(w, &whil) {
        Some(TokenType::While)
    } else {
        None
    }
}

/// How a token kind is written in diagnostics and in the printed syntax tree.
pub open spec fn spec_type_text(ty: TokenType) -> Seq<char> {
    match ty {
        TokenType::LeftParen => "("@,
        TokenType::RightParen => ")"@,
        TokenType::LeftBrace => "{"@,
        TokenType::RightBrace => "}"@,
        TokenType::Comma => ","@,
        TokenType::Dot => "."@,
        TokenType::Minus => "-"@,
        TokenType::Plus => "+"@,
        TokenType::Semicolon => ";"@,
        TokenType::Slash => "/"@,
        TokenType::Star => "*"@,
        TokenType::Bang => "!"@,
        TokenType::BangEqual => "!="@,
        TokenType::Equal => "="@,
        TokenType::EqualEqual => "=="@,
        TokenType::Greater => ">"@,
        TokenType::GreaterEqual => ">="@,
        TokenType::Less => "<"@,
        TokenType::LessEqual => "<="@,
        TokenType::Identifier => "Identifier"@,
        TokenType::Str => "String"@,
        TokenType::Number => "Number"@,
        TokenType::And => "and"@,
        TokenType::Break => "break"@,
        TokenType::Class => "class"@,
        TokenType::Else => "else"@,
        TokenType::False => "false"@,
        TokenType::Fun => "fun"@,
        TokenType::For => "for"@,
        TokenType::If => "if"@,
        TokenType::Nil => "nil"@,
        TokenType::Or => "or"@,
        TokenType::Print => "print"@,
        TokenType::Return => "return"@,
        TokenType::Super => "super"@,
        TokenType::This => "this"@,
        TokenType::True => "true"@,
        TokenType::Var => "var"@,
        TokenType::While => "while"@,
        TokenType::EOF => "EOF"@,
    }
}

impl TokenType {
    /// How this token kind is written in diagnostics and in the printed syntax tree.
    pub fn text(&self) -> (r: String)
        ensures
            r@ == spec_type_text(*self),
    {
        let s: &str = match self {
            TokenType::LeftParen => "(",
            TokenType::RightParen => ")",
            TokenType::LeftBrace => "{",
            TokenType::RightBrace => "}",
            TokenType::Comma => ",",
            TokenType::Dot => ".",
            TokenType::Minus => "-",
            TokenType::Plus => "+",
            TokenType::Semicolon => ";",
            TokenType::Slash => "/",
            TokenType::Star => "*",
            TokenType::Bang => "!",
            TokenType::BangEqual => "!=",
            TokenType::Equal => "=",
            TokenType::EqualEqual => "==",
            TokenType::Greater => ">",
            TokenType::GreaterEqual => ">=",
            TokenType::Less => "<",
            TokenType::LessEqual => "<=",
            TokenType::Identifier => "Identifier",
            TokenType::Str => "String",
            TokenType::Number => "Number",
            TokenType::And => "and",
            TokenType::Break => "break",
            TokenType::Class => "class",
            TokenType::Else => "else",
            TokenType::False => "false",
            TokenType::Fun => "fun",
            TokenType::For => "for",
            TokenType::If => "if",
            TokenType::Nil => "nil",
            TokenType::Or => "or",
            TokenType::Print => "print",
            TokenType::Return => "return",
            TokenType::Super => "super",
            TokenType::This => "this",
            TokenType::True => "true",
            TokenType::Var => "var",
            TokenType::While => "while",
            TokenType::EOF => "EOF",
        };
        String::from_str(s)
    }
}

/// How a token is written in the printed syntax tree: identifiers, strings and
/// numbers show their text inside their kind's name, other tokens show their kind.
pub open spec fn spec_token_text(t: TokenView) -> Seq<char> {
    match t.ty {
        TokenType::Identifier => "Identifier(\""@ + t.lexeme + "\")"@,
        TokenType::Str => "Str("@ + t.lexeme + ")"@,
        TokenType::Number => "Num("@ + t.lexeme + ")"@,
        _ => spec_type_text(t.ty),
    }
}

impl Token {
    /// How this token is written in the printed syntax tree.
    pub fn text(&self) -> (r: String)
        ensures
            r@ == spec_token_text(self@),
    {
        match self.ty {
            TokenType::Identifier => {
                let mut r = String::from_str("Identifier(\"");
                r.append(self.lexeme.as_str());
                r.append("\")");
                r
            },
            TokenType::Str => {
                let mut r = String::from_str("Str(");
                r.append(self.lexeme.as_str());
                r.append(")");
                r
            },
            TokenType::Number => {
                let mut r = String::from_str("Num(");
                r.append(self.lexeme.as_str());
                r.append(")");
                r
            },
            _ => self.ty.text(),
        }
    }
}

} // verus!
