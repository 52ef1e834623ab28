//! The tokenizer: from characters to tokens, one token per call.
use vstd::prelude::*;
use crate::chars::{
    ident_part, ident_start, is_ident_part, is_ident_start, is_numeral, is_space, numeral,
    same_text, whitespace,
};

verus! {

/// The smallest unit of a program's text.
#[derive(Debug, PartialEq)]
pub enum Token {
    Illegal,
    EOF,
    // Identifiers and literals
    Ident(String),
    Number(String),
    // Keywords
    Let,
    Fn,
    Return,
    True,
    False,
    If,
    Else,
    // Operators
    Assign,
    Plus,
    Minus,
    Asterisk,
    Slash,
    Bang,
    LessThan,
    GreaterThan,
    Equal,
    NotEqual,
    // Delimiters
    Comma,
    Semicolon,
    LParen,
    RParen,
    LBrace,
    RBrace,
}

/// A token as a mathematical value: the text of an identifier or a number
/// is a sequence of characters.
pub enum SpecToken {
    Illegal,
    EOF,
    Ident(Seq<char>),
    Number(Seq<char>),
    Let,
    Fn,
    Return,
    True,
    False,
    If,
    Else,
    Assign,
    Plus,
    Minus,
    Asterisk,
    Slash,
    Bang,
    LessThan,
    GreaterThan,
    Equal,
    NotEqual,
    Comma,
    Semicolon,
    LParen,
    RParen,
    LBrace,
    RBrace,
}

impl View for Token {
    type V = SpecToken;

    open spec fn view(&self) -> SpecToken {
        match self {
            Token::Illegal => SpecToken::Illegal,
            Token::EOF => SpecToken::EOF,
            Token::Ident(text) => SpecToken::Ident(text@),
            Token::Number(text) => SpecToken::Number(text@),
            Token::Let => SpecToken::Let,
            Token::Fn => SpecToken::Fn,
            Token::Return => SpecToken::Return,
            Token::True => SpecToken::True,
            Token::False => SpecToken::False,
            Token::If => SpecToken::If,
            Token::Else => SpecToken::Else,
            Token::Assign => SpecToken::Assign,
            Token::Plus => SpecToken::Plus,
            Token::Minus => SpecToken::Minus,
            Token::Asterisk => SpecToken::Asterisk,
            Token::Slash => SpecToken::Slash,
            Token::Bang => SpecToken::Bang,
            Token::LessThan => SpecToken::LessThan,
            Token::GreaterThan => SpecToken::GreaterThan,
            Token::Equal => SpecToken::Equal,
            Token::NotEqual => SpecToken::NotEqual,
            Token::Comma => SpecToken::Comma,
            Token::Semicolon => SpecToken::Semicolon,
            Token::LParen => SpecToken::LParen,
            Token::RParen => SpecToken::RParen,
            Token::LBrace => SpecToken::LBrace,
            Token::RBrace => SpecToken::RBrace,
        }
    }
}

impl Clone for Token {
    fn clone(&self) -> (copy: Self)
        ensures
            copy@ == self@,
    {
        match self {
            Token::Illegal => Token::Illegal,
            Token::EOF => Token::EOF,
            Token::Ident(text) => Token::Ident(text.clone()),
            Token::Number(text) => Token::Number(text.clone()),
            Token::Let => Token::Let,
            Token::Fn => Token::Fn,
            Token::Return => Token::Return,
            Token::True => Token::True,
            Token::False => Token::False,
            Token::If => Token::If,
            Token::Else => Token::Else,
            Token::Assign => Token::Assign,
            Token::Plus => Token::Plus,
            Token::Minus => Token::Minus,
            Token::Asterisk => Token::Asterisk,
            Token::Slash => Token::Slash,
            Token::Bang => Token::Bang,
            Token::LessThan => Token::LessThan,
            Token::GreaterThan => Token::GreaterThan,
            Token::Equal => Token::Equal,
            Token::NotEqual => Token::NotEqual,
            Token::Comma => Token::Comma,
            Token::Semicolon => Token::Semicolon,
            Token::LParen => Token::LParen,
            Token::RParen => Token::RParen,
            Token::LBrace => Token::LBrace,
            Token::RBrace => Token::RBrace,
        }
    }
}

/// The character at `pos`, or the end-of-input character past the end.
pub open spec fn char_at(input: Seq<char>, pos: int) -> char {
    if 0 <= pos < input.len() {
        input[pos]
    } else {
        '\0'
    }
}

/// The first offset from `pos` on whose character is not skipped.
pub open spec fn skip_spaces(input: Seq<char>, pos: int) -> int
    decreases input.len() - pos,
{
    if is_space(char_at(input, pos)) {
        skip_spaces(input, pos + 1)
    } else {
        pos
    }
}

/// The first offset from `pos` on whose character cannot continue an
/// identifier.
pub open spec fn identifier_end(input: Seq<char>, pos: int) -> int
    decreases input.len() - pos,
{
    if is_ident_part(char_at(input, pos)) {
        identifier_end(input, pos + 1)
    } else {
        pos
    }
}

/// The first offset from `pos` on whose character is not numeric.
pub open spec fn number_end(input: Seq<char>, pos: int) -> int
    decreases input.len() - pos,
{
    if is_numeral(char_at(input, pos)) {
        number_end(input, pos + 1)
    } else {
        pos
    }
}

/// The keyword that `word` spells, if it spells one.
pub open spec fn keyword(word: Seq<char>) -> Option<SpecToken> {
    if word == "let"@ {
        Some(SpecToken::Let)
    } else if word == "fn"@ {
        Some(SpecToken::Fn)
    } else if word == "return"@ {
        Some(SpecToken::Return)
    } else if word == "true"@ {
        Some(SpecToken::True)
    } else if word == "false"@ {
        Some(SpecToken::False)
    } else if word == "if"@ {
        Some(SpecToken::If)
    } else if word == "else"@ {
        Some(SpecToken::Else)
    } else {
        None
    }
}

/// The token for a word: its keyword, or an identifier with the word as its
/// text.
pub open spec fn word_token(word: Seq<char>) -> SpecToken {
    match keyword(word) {
        Some(token) => token,
        None => SpecToken::Ident(word),
    }
}

/// The token of an operator or delimiter that is one character long whatever
/// follows it.
pub open spec fn symbol(c: char) -> Option<SpecToken> {
    if c == '+' {
        Some(SpecToken::Plus)
    } else if c == '-' {
        Some(SpecToken::Minus)
    } else if c == '*' {
        Some(SpecToken::Asterisk)
    } else if c == '/' {
        Some(SpecToken::Slash)
    } else if c == '<' {
        Some(SpecToken::LessThan)
    } else if c == '>' {
        Some(SpecToken::GreaterThan)
    } else if c == '(' {
        Some(SpecToken::LParen)
    } else if c == ')' {
        Some(SpecToken::RParen)
    } else if c == '{' {
        Some(SpecToken::LBrace)
    } else if c == '}' {
        Some(SpecToken::RBrace)
    } else if c == ',' {
        Some(SpecToken::Comma)
    } else if c == ';' {
        Some(SpecToken::Semicolon)
    } else {
        None
    }
}

/// The token that starts at `pos`, and the offset behind it. Nothing is
/// skipped: `pos` is where the token starts. At the end-of-input character
/// the token is `EOF` and the offset stays.
pub open spec fn token_at(input: Seq<char>, pos: int) -> (SpecToken, int) {
    let c = char_at(input, pos);
    if c == '=' {
        if char_at(input, pos + 1) == '=' {
            (SpecToken::Equal, pos + 2)
        } else {
            (SpecToken::Assign, pos + 1)
        }
    } else if c == '!' {
        if char_at(input, pos + 1) == '=' {
            (SpecToken::NotEqual, pos + 2)
        } else {
            (SpecToken::Bang, pos + 1)
        }
    } else if symbol(c) is Some {
        (symbol(c)->0, pos + 1)
    } else if c == '\0' {
        (SpecToken::EOF, pos)
    } else if is_ident_start(c) {
        let end = identifier_end(input, pos);
        (word_token(input.subrange(pos, end)), end)
    } else if is_numeral(c) {
        let end = number_end(input, pos);
        (SpecToken::Number(input.subrange(pos, end)), end)
    } else {
        (SpecToken::Illegal, pos + 1)
    }
}

/// The next token from `pos` on, after what is skipped, and the offset
/// behind it.
pub open spec fn next_token_at(input: Seq<char>, pos: int) -> (SpecToken, int) {
    token_at(input, skip_spaces(input, pos))
}

/// The tokens from `pos` on, up to the end of input. `EOF` itself is not
/// among them.
pub open spec fn tokens_from(input: Seq<char>, pos: int) -> Seq<SpecToken>
    decreases input.len() - pos,
{
    let (token, end) = next_token_at(input, pos);
    if token is EOF {
        Seq::empty()
    } else {
        proof {
            lemma_next_token_bounds(input, pos);
        }
        seq![token] + tokens_from(input, end)
    }
}

/// The tokens of a whole text.
pub open spec fn tokenize(input: Seq<char>) -> Seq<SpecToken> {
    tokens_from(input, 0)
}

/// Skipping moves forward, stays within the text, and ends at a character
/// that is not skipped.
pub proof fn lemma_skip_spaces_bounds(input: Seq<char>, pos: int)
    requires
        0 <= pos <= input.len(),
    ensures
        pos <= skip_spaces(input, pos) <= input.len(),
        !is_space(char_at(input, skip_spaces(input, pos))),
    decreases input.len() - pos,
{
    if is_space(char_at(input, pos)) {
        lemma_skip_spaces_bounds(input, pos + 1);
    }
}

/// An identifier ends within the text, and behind its first character.
pub proof fn lemma_identifier_end_bounds(input: Seq<char>, pos: int)
    requires
        0 <= pos <= input.len(),
    ensures
        pos <= identifier_end(input, pos) <= input.len(),
        is_ident_part(char_at(input, pos)) ==> pos < identifier_end(input, pos),
    decreases input.len() - pos,
{
    if is_ident_part(char_at(input, pos)) {
        lemma_identifier_end_bounds(input, pos + 1);
    }
}

/// A number ends within the text, and behind its first character.
pub proof fn lemma_number_end_bounds(input: Seq<char>, pos: int)
    requires
        0 <= pos <= input.len(),
    ensures
        pos <= number_end(input, pos) <= input.len(),
        is_numeral(char_at(input, pos)) ==> pos < number_end(input, pos),
    decreases input.len() - pos,
{
    if is_numeral(char_at(input, pos)) {
        lemma_number_end_bounds(input, pos + 1);
    }
}

/// Every token but `EOF` takes at least one character, and none reaches
/// past the end of the text.
pub proof fn lemma_next_token_bounds(input: Seq<char>, pos: int)
    requires
        0 <= pos <= input.len(),
    ensures
        pos <= next_token_at(input, pos).1 <= input.len(),
        !(next_token_at(input, pos).0 is EOF) ==> pos < next_token_at(input, pos).1,
{
    lemma_skip_spaces_bounds(input, pos);
    let start = skip_spaces(input, pos);
    lemma_identifier_end_bounds(input, start);
    lemma_number_end_bounds(input, start);
}

/// At the end of input the tokenizer stays: the token is `EOF` again, from
/// the same offset, and no token is left. Before the end, the token is the
/// first of those that are left.
pub proof fn lemma_tokens_from_step(input: Seq<char>, pos: int)
    requires
        0 <= pos <= input.len(),
    ensures
        ({
            let (token, end) = next_token_at(input, pos);
            if token is EOF {
                &&& tokens_from(input, pos) == Seq::<SpecToken>::empty()
                &&& next_token_at(input, end) == (token, end)
                &&& tokens_from(input, end) == Seq::<SpecToken>::empty()
            } else {
                tokens_from(input, pos) == seq![token] + tokens_from(input, end)
            }
        }),
{
    lemma_skip_spaces_bounds(input, pos);
    let end = next_token_at(input, pos).1;
    if next_token_at(input, pos).0 is EOF {
        assert(end == skip_spaces(input, pos));
        assert(skip_spaces(input, end) == end);
    }
}

/// The token for a word that the tokenizer has read.
pub fn lookup_word(word: String) -> (token: Token)
    ensures
        token@ == word_token(word@),
{
    let text = word.as_str();
    if same_text(text, "let") {
        Token::Let
    } else if same_text(text, "fn") {
        Token::Fn
    } else if same_text(text, "return") {
        Token::Return
    } else if same_text(text, "true") {
        Token::True
    } else if same_text(text, "false") {
        Token::False
    } else if same_text(text, "if") {
        Token::If
    } else if same_text(text, "else") {
        Token::Else
    } else {
        Token::Ident(word)
    }
}

/// A tokenizer over one text. It moves forward only, and hands out one
/// token per call.
pub struct Lexer {
    input: Vec<char>,
    position: usize,
    read_position: usize,
    ch: char,
}

impl Lexer {
    /// The text being tokenized.
    pub closed spec fn source(&self) -> Seq<char> {
        self.input@
    }

    /// The offset of the current character.
    pub closed spec fn offset(&self) -> int {
        self.position as int
    }

    /// The offset is within the text or at its end, the next-read offset is
    /// one further unless that is past the end, and the current character is
    /// the one at the offset.
    pub closed spec fn wf(&self) -> bool {
        &&& self.position <= self.input.len()
        &&& self.read_position == if self.position < self.input.len() {
            self.position + 1
        } else {
            self.position as int
        }
        &&& self.ch == char_at(self.input@, self.position as int)
    }

    /// The tokens that are still to come, `EOF` not among them.
    pub open spec fn remaining(&self) -> Seq<SpecToken> {
        tokens_from(self.source(), self.offset())
    }

    /// A tokenizer at the start of `input`.
    pub fn new(input: &str) -> (lexer: Lexer)
        ensures
            lexer.wf(),
            lexer.source() == input@,
            lexer.offset() == 0,
    {
        let mut chars: Vec<char> = Vec::new();
        for c in it: input.chars()
            invariant
                it.seq() == input@,
                chars@ == it.seq().take(it.index() as int),
        {
            chars.push(c);
        }
        let ch = if chars.len() > 0 {
            chars[0]
        } else {
            '\0'
        };
        let read_position: usize = if chars.len() > 0 {
            1
        } else {
            0
        };
        Lexer { input: chars, position: 0, read_position, ch }
    }

    /// Moves to the next character. At the end of the text nothing moves.
    fn read_char(&mut self)
        requires
            old(self).wf(),
        ensures
            final(self).wf(),
            final(self).source() == old(self).source(),
            final(self).offset() == if old(self).offset() < old(self).source().len() {
                old(self).offset() + 1
            } else {
                old(self).offset()
            },
    {
        if self.read_position >= self.input.len() {
            self.ch = '\0';
        } else {
            self.ch = self.input[self.read_position];
        }
        self.position = self.read_position;
        if self.read_position < self.input.len() {
            self.read_position += 1;
        }
    }

    /// The character after the current one.
    fn peek_char(&self) -> (c: char)
        requires
            self.wf(),
        ensures
            c == char_at(self.source(), self.offset() + 1),
    {
        if self.position >= self.input.len() || self.read_position >= self.input.len() {
            '\0'
        } else {
            self.input[self.read_position]
        }
    }

    /// Moves to the first character that is not skipped.
    fn skip_whitespace(&mut self)
        requires
            old(self).wf(),
        ensures
            final(self).wf(),
            final(self).source() == old(self).source(),
            final(self).offset() == skip_spaces(old(self).source(), old(self).offset()),
    {
        while whitespace(self.ch)
            invariant
                self.wf(),
                self.source() == old(self).source(),
                skip_spaces(self.source(), self.offset()) == skip_spaces(
                    old(self).source(),
                    old(self).offset(),
                ),
            decreases self.source().len() - self.offset(),
        {
            self.read_char();
        }
    }

    /// Reads the characters of an identifier or keyword.
    fn read_identifier(&mut self) -> (word: String)
        requires
            old(self).wf(),
        ensures
            final(self).wf(),
            final(self).source() == old(self).source(),
            final(self).offset() == identifier_end(old(self).source(), old(self).offset()),
            word@ == old(self).source().subrange(old(self).offset(), final(self).offset()),
    {
        let mut word = String::new();
        while ident_part(self.ch)
            invariant
                self.wf(),
                self.source() == old(self).source(),
                old(self).offset() <= self.offset(),
                identifier_end(self.source(), self.offset()) == identifier_end(
                    old(self).source(),
                    old(self).offset(),
                ),
                word@ == self.source().subrange(old(self).offset(), self.offset()),
            decreases self.source().len() - self.offset(),
        {
            word.push(self.ch);
            self.read_char();
        }
        word
    }

    /// Reads the characters of a number.
    fn read_number(&mut self) -> (digits: String)
        requires
            old(self).wf(),
        ensures
            final(self).wf(),
            final(self).source() == old(self).source(),
            final(self).offset() == number_end(old(self).source(), old(self).offset()),
            digits@ == old(self).source().subrange(old(self).offset(), final(self).offset()),
    {
        let mut digits = String::new();
        while numeral(self.ch)
            invariant
                self.wf(),
                self.source() == old(self).source(),
                old(self).offset() <= self.offset(),
                number_end(self.source(), self.offset()) == number_end(
                    old(self).source(),
                    old(self).offset(),
                ),
                digits@ == self.source().subrange(old(self).offset(), self.offset()),
            decreases self.source().len() - self.offset(),
        {
            digits.push(self.ch);
            self.read_char();
        }
        digits
    }

    /// Skips what is between tokens and reads one token. At the end of the
    /// text the token is `EOF`, and stays so however often this is called.
    pub fn next_token(&mut self) -> (token: Token)
        requires
            old(self).wf(),
        ensures
            final(self).wf(),
            final(self).source() == old(self).source(),
            (token@, final(self).offset()) == next_token_at(
                old(self).source(),
                old(self).offset(),
            ),
            old(self).offset() <= final(self).offset() <= final(self).source().len(),
            token@ is EOF ==> old(self).remaining().len() == 0 && final(self).remaining().len()
                == 0,
            !(token@ is EOF) ==> old(self).remaining() == seq![token@] + final(self).remaining(),
    {
        proof {
            lemma_tokens_from_step(self.source(), self.offset());
            lemma_next_token_bounds(self.source(), self.offset());
        }
        self.skip_whitespace();
        match self.ch {
            '=' => {
                if self.peek_char() == '=' {
                    self.read_char();
                    self.read_char();
                    Token::Equal
                } else {
                    self.read_char();
                    Token::Assign
                }
            },
            '+' => {
                self.read_char();
                Token::Plus
            },
            '-' => {
                self.read_char();
                Token::Minus
            },
            '*' => {
                self.read_char();
                Token::Asterisk
            },
            '/' => {
                self.read_char();
                Token::Slash
            },
            '!' => {
                if self.peek_char() == '=' {
                    self.read_char();
                    self.read_char();
                    Token::NotEqual
                } else {
                    self.read_char();
                    Token::Bang
                }
            },
            '<' => {
                self.read_char();
                Token::LessThan
            },
            '>' => {
                self.read_char();
                Token::GreaterThan
            },
            '(' => {
                self.read_char();
                Token::LParen
            },
            ')' => {
                self.read_char();
                Token::RParen
            },
            '{' => {
                self.read_char();
                Token::LBrace
            },
            '}' => {
                self.read_char();
                Token::RBrace
            },
            ',' => {
                self.read_char();
                Token::Comma
            },
            ';' => {
                self.read_char();
                Token::Semicolon
            },
            '\0' => Token::EOF,
            _ => {
                if ident_start(self.ch) {
                    let word = self.read_identifier();
                    lookup_word(word)
                } else if numeral(self.ch) {
                    Token::Number(self.read_number())
                } else {
                    self.read_char();
                    Token::Illegal
                }
            },
        }
    }
}

} // verus!
