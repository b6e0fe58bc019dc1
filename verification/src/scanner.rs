//! Splits source text into tokens.

use vstd::prelude::*;
use vstd::string::{StrSliceExecFns, StringExecFns};
use crate::text::{decimal, decimal_text};

verus! {

/// The kinds of tokens.
#[derive(Clone, Copy, PartialEq, Eq, Structural, Debug)]
pub enum TokenType {
    // Single-character tokens.
    LeftParen,
    RightParen,
    LeftBrace,
    RightBrace,
    Comma,
    Dot,
    Minus,
    Plus,
    Semicolon,
    Slash,
    Star,
    // One or two character tokens.
    Bang,
    BangEqual,
    Equal,
    EqualEqual,
    Greater,
    GreaterEqual,
    Less,
    LessEqual,
    Comment,
    // Literals.
    Identifier,
    String,
    Number,
    // Keywords.
    And,
    Class,
    Else,
    False,
    Fun,
    For,
    If,
    Nil,
    Or,
    Print,
    Return,
    Super,
    This,
    True,
    Var,
    While,
    Eof,
}

/// A token with the text it was read from and the line it ends on.
/// The text of a string token excludes the surrounding quotes.
#[derive(Debug)]
pub struct Token {
    pub typ: TokenType,
    pub lexeme: String,
    pub line: usize,
}

impl Clone for Token {
    fn clone(&self) -> (copy: Self)
        ensures
            copy == *self,
    {
        Token { typ: self.typ, lexeme: self.lexeme.clone(), line: self.line }
    }
}

impl Token {
    /// A token of type `typ` with text `lexeme` that ends on line `line`.
    pub fn new(typ: TokenType, lexeme: &str, line: usize) -> (token: Token)
        ensures
            token.typ == typ,
            token.lexeme@ == lexeme@,
            token.line == line,
    {
        Token { typ, lexeme: String::from_str(lexeme), line }
    }
}

/// The keyword that `word` spells, if it spells one.
pub open spec fn reserved(word: Seq<char>) -> Option<TokenType> {
    if word == "and"@ {
        Some(TokenType::And)
    } else if word == "class"@ {
        Some(TokenType::Class)
    } else if word == "else"@ {
        Some(TokenType::Else)
    } else if word == "false"@ {
        Some(TokenType::False)
    } else if word == "for"@ {
        Some(TokenType::For)
    } else if word == "fun"@ {
        Some(TokenType::Fun)
    } else if word == "if"@ {
        Some(TokenType::If)
    } else if word == "nil"@ {
        Some(TokenType::Nil)
    } else if word == "or"@ {
        Some(TokenType::Or)
    } else if word == "print"@ {
        Some(TokenType::Print)
    } else if word == "return"@ {
        Some(TokenType::Return)
    } else if word == "super"@ {
        Some(TokenType::Super)
    } else if word == "this"@ {
        Some(TokenType::This)
    } else if word == "true"@ {
        Some(TokenType::True)
    } else if word == "var"@ {
        Some(TokenType::Var)
    } else if word == "while"@ {
        Some(TokenType::While)
    } else {
        None
    }
}

fn spells(word: &String, keyword: &str) -> (r: bool)
    ensures
        r == (word@ == keyword@),
{
    let other = String::from_str(keyword);
    *word == other
}

/// The keyword that `word` spells, or `None` for any other word.
pub fn try_reserved(word: &str) -> (r: Option<TokenType>)
    ensures
        r == reserved(word@),
{
    let w = String::from_str(word);
    if spells(&w, "and") {
        Some(TokenType::And)
    } else if spells(&w, "class") {
        Some(TokenType::Class)
    } else if spells(&w, "else") {
        Some(TokenType::Else)
    } else if spells(&w, "false") {
        Some(TokenType::False)
    } else if spells(&w, "for") {
        Some(TokenType::For)
    } else if spells(&w, "fun") {
        Some(TokenType::Fun)
    } else if spells(&w, "if") {
        Some(TokenType::If)
    } else if spells(&w, "nil") {
        Some(TokenType::Nil)
    } else if spells(&w, "or") {
        Some(TokenType::Or)
    } else if spells(&w, "print") {
        Some(TokenType::Print)
    } else if spells(&w, "return") {
        Some(TokenType::Return)
    } else if spells(&w, "super") {
        Some(TokenType::Super)
    } else if spells(&w, "this") {
        Some(TokenType::This)
    } else if spells(&w, "true") {
        Some(TokenType::True)
    } else if spells(&w, "var") {
        Some(TokenType::Var)
    } else if spells(&w, "while") {
        Some(TokenType::While)
    } else {
        None
    }
}


/// The characters of `text`, in order.
pub fn chars_of(text: &str) -> (chars: Vec<char>)
    ensures
        chars@ == text@,
{
    broadcast use vstd::string::group_string_axioms;

    let count = text.unicode_len();
    let mut rest = text.chars();
    let mut chars: Vec<char> = Vec::new();
    let mut i: usize = 0;
    while i < count
        invariant
            i <= count,
            count == text@.len(),
            chars@.len() == i,
            chars@ + vstd::std_specs::iter::IteratorSpec::remaining(&rest) == text@,
        decreases count - i,
    {
        match rest.next() {
            Some(c) => {
                chars.push(c);
                assert(chars@ + vstd::std_specs::iter::IteratorSpec::remaining(&rest) =~= text@);
            },
            None => {},
        }
        i += 1;
    }
    assert(chars@ =~= text@);
    chars
}


/// Why the scanner rejected a piece of the source text: the line, the text
/// read so far, and a message.
#[derive(Debug)]
pub enum ParserError {
    UnexpectedToken { line: usize, loc: String, msg: String },
    UnterminatedString { line: usize, loc: String, msg: String },
}

impl ParserError {
    /// The line that the error was found on.
    pub open spec fn spec_line(&self) -> usize {
        match self {
            ParserError::UnexpectedToken { line, .. } => *line,
            ParserError::UnterminatedString { line, .. } => *line,
        }
    }

    /// The text read when the error was found.
    pub open spec fn spec_loc(&self) -> Seq<char> {
        match self {
            ParserError::UnexpectedToken { loc, .. } => loc@,
            ParserError::UnterminatedString { loc, .. } => loc@,
        }
    }

    /// What is wrong.
    pub open spec fn spec_msg(&self) -> Seq<char> {
        match self {
            ParserError::UnexpectedToken { msg, .. } => msg@,
            ParserError::UnterminatedString { msg, .. } => msg@,
        }
    }

    /// The error as one line of text: `[line N] Error LOC: MSG`.
    pub fn message(&self) -> (text: String)
        ensures
            text@ == "[line "@ + decimal_text(self.spec_line() as nat) + "] Error "@
                + self.spec_loc() + ": "@ + self.spec_msg(),
    {
        let (line, loc, msg) = match self {
            ParserError::UnexpectedToken { line, loc, msg } => (*line, loc, msg),
            ParserError::UnterminatedString { line, loc, msg } => (*line, loc, msg),
        };
        let mut text = String::from_str("[line ");
        text.append(decimal(line).as_str());
        text.append("] Error ");
        text.append(loc.as_str());
        text.append(": ");
        text.append(msg.as_str());
        text
    }
}

/// Whether Unicode classes `c` as alphabetic, as `char::is_alphabetic`
/// tells.
pub uninterp spec fn alphabetic(c: char) -> bool;

/// Whether Unicode classes `c` as alphabetic or numeric, as
/// `char::is_alphanumeric` tells.
pub uninterp spec fn alphanumeric(c: char) -> bool;

/// Whether `c` is one of the 52 letters of ASCII.
pub open spec fn ascii_letter(c: char) -> bool {
    ('a' <= c && c <= 'z') || ('A' <= c && c <= 'Z')
}

/// Whether a word can start with `c`: with a letter of ASCII or any other
/// character that Unicode classes as alphabetic.
pub open spec fn word_start(c: char) -> bool {
    ascii_letter(c) || alphabetic(c)
}

/// Whether a word can go on with `c`: with a letter or digit of ASCII or
/// any other character that Unicode classes as alphabetic or numeric.
pub open spec fn word_part(c: char) -> bool {
    ascii_letter(c) || digit(c) || alphanumeric(c)
}

/// Calls `char::is_alphabetic`. The result depends on the character alone.
/// Of its value only this is claimed: the letters of ASCII are alphabetic.
#[verifier::external_body]
fn is_alphabetic(c: char) -> (r: bool)
    ensures
        r == alphabetic(c),
        ascii_letter(c) ==> r,
{
    c.is_alphabetic()
}

/// Calls `char::is_alphanumeric`. The result depends on the character
/// alone. Of its value only this is claimed: the letters and the digits of
/// ASCII are alphanumeric.
#[verifier::external_body]
fn is_alphanumeric(c: char) -> (r: bool)
    ensures
        r == alphanumeric(c),
        ascii_letter(c) || digit(c) ==> r,
{
    c.is_alphanumeric()
}

/// Whether `c` is one of the ten decimal digits.
pub open spec fn digit(c: char) -> bool {
    '0' <= c && c <= '9'
}

fn is_digit(c: char) -> (r: bool)
    ensures
        r == digit(c),
{
    '0' <= c && c <= '9'
}

/// The classes of characters that the scanner reads runs of.
#[derive(Clone, Copy, PartialEq, Eq, Structural, Debug)]
pub enum CharClass {
    /// Anything but a line feed: the rest of a comment.
    NotNewline,
    /// Anything but a double quote: the inside of a string.
    NotQuote,
    Digit,
    AlphaNumeric,
}

impl CharClass {
    /// Whether `c` is of the class.
    pub open spec fn holds(self, c: char) -> bool {
        match self {
            CharClass::NotNewline => c != '\n',
            CharClass::NotQuote => c != '"',
            CharClass::Digit => digit(c),
            CharClass::AlphaNumeric => word_part(c),
        }
    }

    /// Whether `c` is of the class.
    pub fn test(&self, c: char) -> (r: bool)
        ensures
            r == self.holds(c),
    {
        match self {
            CharClass::NotNewline => c != '\n',
            CharClass::NotQuote => c != '"',
            CharClass::Digit => is_digit(c),
            CharClass::AlphaNumeric => is_alphanumeric(c),
        }
    }
}

/// Where the longest run of characters of `class` that starts at `from`
/// ends.
pub open spec fn run_end(chars: Seq<char>, from: nat, class: CharClass) -> nat
    decreases chars.len() - from,
{
    if from < chars.len() && class.holds(chars[from as int]) {
        run_end(chars, from + 1, class)
    } else {
        from
    }
}

/// Number of line feeds among the characters from `from` up to `to`.
pub open spec fn newlines(chars: Seq<char>, from: nat, to: nat) -> nat
    decreases to,
{
    if to <= from {
        0
    } else {
        newlines(chars, from, (to - 1) as nat) + if chars[to - 1] == '\n' {
            1nat
        } else {
            0nat
        }
    }
}

/// The token that a character is by itself.
pub open spec fn single(c: char) -> Option<TokenType> {
    if c == '(' {
        Some(TokenType::LeftParen)
    } else if c == ')' {
        Some(TokenType::RightParen)
    } else if c == '{' {
        Some(TokenType::LeftBrace)
    } else if c == '}' {
        Some(TokenType::RightBrace)
    } else if c == ',' {
        Some(TokenType::Comma)
    } else if c == '.' {
        Some(TokenType::Dot)
    } else if c == '-' {
        Some(TokenType::Minus)
    } else if c == '+' {
        Some(TokenType::Plus)
    } else if c == ';' {
        Some(TokenType::Semicolon)
    } else if c == '*' {
        Some(TokenType::Star)
    } else {
        None
    }
}

/// The token that a character is when no `=` follows it, for the
/// characters that form another token with `=`.
pub open spec fn paired(c: char) -> Option<TokenType> {
    if c == '!' {
        Some(TokenType::Bang)
    } else if c == '=' {
        Some(TokenType::Equal)
    } else if c == '<' {
        Some(TokenType::Less)
    } else if c == '>' {
        Some(TokenType::Greater)
    } else {
        None
    }
}

/// The token that a character is together with the `=` that follows it.
pub open spec fn with_equal(c: char) -> TokenType {
    if c == '!' {
        TokenType::BangEqual
    } else if c == '=' {
        TokenType::EqualEqual
    } else if c == '<' {
        TokenType::LessEqual
    } else {
        TokenType::GreaterEqual
    }
}

/// Whether `c` separates tokens without ending a line.
pub open spec fn blank(c: char) -> bool {
    c == ' ' || c == '\r' || c == '\t'
}

/// What the scanner finds next.
pub enum Lexed {
    /// Nothing but blanks and line ends up to the end of the text.
    End { line: nat },
    /// A token whose text are the characters from `start` up to `end`; the
    /// scanner goes on at `cursor`, in line `line`.
    Token { typ: TokenType, start: nat, end: nat, cursor: nat, line: nat },
    /// A string without its closing quote (`unterminated`) or a character
    /// that starts no token. The characters read are those from `start` up
    /// to `cursor`, where the scanner goes on.
    Error { unterminated: bool, start: nat, cursor: nat, line: nat },
}

/// What the scanner finds in `chars` from `cursor` on, when `line` lines
/// have ended before.
///
/// Blanks are skipped and line ends counted. A comment runs from `//` to
/// the end of the line and is a token. A string runs to the next double
/// quote, over line ends if need be, and its text excludes the quotes. A
/// number is a run of digits, then possibly a dot and another run of digits.
/// A word starts with an alphabetic character and goes on with alphanumeric
/// ones; it is a keyword or an identifier.
pub open spec fn lex(chars: Seq<char>, cursor: nat, line: nat) -> Lexed
    decreases chars.len() - cursor,
{
    if cursor >= chars.len() {
        Lexed::End { line }
    } else {
        let c = chars[cursor as int];
        let next = cursor + 1;
        if blank(c) {
            lex(chars, next, line)
        } else if c == '\n' {
            lex(chars, next, line + 1)
        } else {
            lex_token(chars, cursor, line)
        }
    }
}

/// What the scanner finds at `cursor`, where a character stands that is
/// neither a blank nor a line end.
pub open spec fn lex_token(chars: Seq<char>, cursor: nat, line: nat) -> Lexed {
    let c = chars[cursor as int];
    let next = cursor + 1;
    let followed = next < chars.len() && chars[next as int] == '=';
    if single(c) is Some {
        Lexed::Token { typ: single(c)->0, start: cursor, end: next, cursor: next, line }
    } else if paired(c) is Some {
        if followed {
            Lexed::Token { typ: with_equal(c), start: cursor, end: next + 1, cursor: next + 1, line }
        } else {
            Lexed::Token { typ: paired(c)->0, start: cursor, end: next, cursor: next, line }
        }
    } else if c == '/' {
        if next < chars.len() && chars[next as int] == '/' {
            let end = run_end(chars, next + 1, CharClass::NotNewline);
            Lexed::Token { typ: TokenType::Comment, start: cursor, end, cursor: end, line }
        } else {
            Lexed::Token { typ: TokenType::Slash, start: cursor, end: next, cursor: next, line }
        }
    } else if c == '"' {
        let end = run_end(chars, next, CharClass::NotQuote);
        let ended = line + newlines(chars, next, end);
        if end < chars.len() {
            Lexed::Token { typ: TokenType::String, start: next, end, cursor: end + 1, line: ended }
        } else {
            Lexed::Error { unterminated: true, start: cursor, cursor: end, line: ended }
        }
    } else if digit(c) {
        let end = run_end(chars, next, CharClass::Digit);
        if end + 1 < chars.len() && chars[end as int] == '.' && digit(chars[(end + 1) as int]) {
            let fraction = run_end(chars, end + 1, CharClass::Digit);
            Lexed::Token {
                typ: TokenType::Number,
                start: cursor,
                end: fraction,
                cursor: fraction,
                line,
            }
        } else {
            Lexed::Token { typ: TokenType::Number, start: cursor, end, cursor: end, line }
        }
    } else if word_start(c) {
        let end = run_end(chars, next, CharClass::AlphaNumeric);
        let typ = match reserved(chars.subrange(cursor as int, end as int)) {
            Some(keyword) => keyword,
            None => TokenType::Identifier,
        };
        Lexed::Token { typ, start: cursor, end, cursor: end, line }
    } else {
        Lexed::Error { unterminated: false, start: cursor, cursor: next, line }
    }
}

/// Whether what `next` returned is what the scanner found.
pub open spec fn reports(
    result: Option<Result<Token, ParserError>>,
    chars: Seq<char>,
    lexed: Lexed,
) -> bool {
    match lexed {
        Lexed::End { .. } => result is None,
        Lexed::Token { typ, start, end, line, .. } => {
            &&& result matches Some(Ok(token))
            &&& token.typ == typ
            &&& token.lexeme@ == chars.subrange(start as int, end as int)
            &&& token.line == line
        },
        Lexed::Error { unterminated, start, cursor, line } => {
            &&& result matches Some(Err(error))
            &&& error is UnterminatedString == unterminated
            &&& error.spec_line() == line
            &&& error.spec_loc() == chars.subrange(start as int, cursor as int)
            &&& error.spec_msg() == if unterminated {
                "Unterminated string"@
            } else {
                "Unexpected token"@
            }
        },
    }
}

impl Lexed {
    /// Where the scanner goes on.
    pub open spec fn cursor(self, chars: Seq<char>) -> nat {
        match self {
            Lexed::End { .. } => chars.len(),
            Lexed::Token { cursor, .. } => cursor,
            Lexed::Error { cursor, .. } => cursor,
        }
    }

    /// How many lines have ended where the scanner goes on.
    pub open spec fn line(self) -> nat {
        match self {
            Lexed::End { line } => line,
            Lexed::Token { line, .. } => line,
            Lexed::Error { line, .. } => line,
        }
    }
}

/// What the scanner finds in turn in `chars` from `cursor` on, up to the
/// end of the text.
pub open spec fn lex_all(chars: Seq<char>, cursor: nat, line: nat) -> Seq<Lexed>
    decreases chars.len() - cursor,
{
    let found = lex(chars, cursor, line);
    if found is End || found.cursor(chars) <= cursor || found.cursor(chars) > chars.len() {
        Seq::empty()
    } else {
        seq![found] + lex_all(chars, found.cursor(chars), found.line())
    }
}

/// A run of letters and digits of ASCII is a run of word characters.
pub proof fn lemma_word_run(chars: Seq<char>, from: nat, end: nat)
    requires
        from <= end <= chars.len(),
        forall|i: int| from <= i < end ==> ascii_letter(chars[i]) || digit(chars[i]),
        end < chars.len() ==> !word_part(chars[end as int]),
    ensures
        run_end(chars, from, CharClass::AlphaNumeric) == end,
    decreases end - from,
{
    if from < end {
        lemma_word_run(chars, from + 1, end);
    }
}

/// A word of ASCII is scanned as the keyword it spells, or else as an
/// identifier.
///
/// Let a letter of ASCII stand at `cursor`, followed up to `end` by letters
/// and digits of ASCII only, and let the text end there or go on with a
/// character that no word goes on with. Then the scanner finds one token
/// there, whose text is the whole word.
pub proof fn theorem_word_is_scanned(chars: Seq<char>, cursor: nat, end: nat, line: nat)
    requires
        cursor < end <= chars.len(),
        ascii_letter(chars[cursor as int]),
        forall|i: int| cursor < i < end ==> ascii_letter(chars[i]) || digit(chars[i]),
        end < chars.len() ==> !word_part(chars[end as int]),
    ensures
        lex(chars, cursor, line) == (Lexed::Token {
            typ: match reserved(chars.subrange(cursor as int, end as int)) {
                Some(keyword) => keyword,
                None => TokenType::Identifier,
            },
            start: cursor,
            end,
            cursor: end,
            line,
        }),
{
    lemma_word_run(chars, cursor + 1, end);
}

/// The text `true` is scanned as the keyword.
pub proof fn theorem_true_is_a_keyword()
    ensures
        lex("true"@, 0, 0) == (Lexed::Token {
            typ: TokenType::True,
            start: 0,
            end: 4,
            cursor: 4,
            line: 0,
        }),
{
    reveal_strlit("true");
    reveal_strlit("and");
    reveal_strlit("class");
    reveal_strlit("else");
    reveal_strlit("false");
    reveal_strlit("for");
    reveal_strlit("fun");
    reveal_strlit("if");
    reveal_strlit("nil");
    reveal_strlit("or");
    reveal_strlit("print");
    reveal_strlit("return");
    reveal_strlit("super");
    reveal_strlit("this");
    let chars = "true"@;
    assert(chars.subrange(0, 4) =~= chars);
    assert(chars[0] == 't' && chars[1] == 'r' && chars[2] == 'u' && chars[3] == 'e');
    assert("and"@[0] == 'a');
    assert("else"@[0] == 'e');
    assert("this"@[1] == 'h');
    theorem_word_is_scanned(chars, 0, 4, 0);
}

/// A source text to scan.
pub struct Scanner<'a> {
    pub contents: &'a str,
}

impl<'a> Scanner<'a> {
    /// A scanner of the text `c`.
    pub fn new(c: &'a str) -> (scanner: Self)
        ensures
            scanner.contents@ == c@,
    {
        Scanner { contents: c }
    }

    /// The tokens of the text, to be read one by one from its start.
    pub fn scan_tokens(&self) -> (tokens: Tokens<'a>)
        ensures
            tokens.wf(),
            tokens.chars@ == self.contents@,
            tokens.cursor == 0,
            tokens.line == 0,
    {
        Tokens { contents: self.contents, chars: chars_of(self.contents), cursor: 0, line: 0 }
    }
}

/// A position in a source text: `cursor` characters have been read and
/// `line` lines have ended.
pub struct Tokens<'a> {
    pub contents: &'a str,
    pub chars: Vec<char>,
    pub cursor: usize,
    pub line: usize,
}

impl<'a> Tokens<'a> {
    /// Whether the position lies in the text and no more lines have ended
    /// than characters were read.
    pub open spec fn wf(&self) -> bool {
        &&& self.chars@ == self.contents@
        &&& self.cursor <= self.chars@.len()
        &&& self.line <= self.cursor
    }

    /// Whether every character has been read.
    pub fn is_at_end(&self) -> (r: bool)
        ensures
            r == (self.cursor >= self.chars@.len()),
    {
        self.cursor >= self.chars.len()
    }

    /// Reads one character, if any is left.
    pub fn advance(&mut self) -> (c: Option<char>)
        requires
            old(self).wf(),
        ensures
            final(self).wf(),
            final(self).chars == old(self).chars,
            final(self).line == old(self).line,
            old(self).cursor < old(self).chars@.len() ==> c == Some(
                old(self).chars@[old(self).cursor as int],
            ) && final(self).cursor == old(self).cursor + 1,
            old(self).cursor >= old(self).chars@.len() ==> c is None && final(self).cursor
                == old(self).cursor,
    {
        if self.cursor < self.chars.len() {
            let c = self.chars[self.cursor];
            self.cursor = self.cursor + 1;
            Some(c)
        } else {
            None
        }
    }

    /// Reads the next character if it is `c`, and tells whether it did.
    pub fn matches(&mut self, c: char) -> (r: bool)
        requires
            old(self).wf(),
        ensures
            final(self).wf(),
            final(self).chars == old(self).chars,
            final(self).line == old(self).line,
            r == (old(self).cursor < old(self).chars@.len() && old(self).chars@[old(
                self,
            ).cursor as int] == c),
            final(self).cursor == if r {
                old(self).cursor + 1
            } else {
                old(self).cursor as int
            },
    {
        if self.cursor < self.chars.len() && self.chars[self.cursor] == c {
            self.cursor = self.cursor + 1;
            true
        } else {
            false
        }
    }

    /// Reads the next character if it is of `class`.
    pub fn next_if(&mut self, class: CharClass) -> (c: Option<char>)
        requires
            old(self).wf(),
        ensures
            final(self).wf(),
            final(self).chars == old(self).chars,
            final(self).line == old(self).line,
            c is Some == (old(self).cursor < old(self).chars@.len() && class.holds(
                old(self).chars@[old(self).cursor as int],
            )),
            c matches Some(x) ==> x == old(self).chars@[old(self).cursor as int],
            final(self).cursor == if c is Some {
                old(self).cursor + 1
            } else {
                old(self).cursor as int
            },
    {
        if self.cursor < self.chars.len() && class.test(self.chars[self.cursor]) {
            let c = self.chars[self.cursor];
            self.cursor = self.cursor + 1;
            Some(c)
        } else {
            None
        }
    }

    /// Reads the longest run of characters of `class`.
    fn skip(&mut self, class: CharClass)
        requires
            old(self).wf(),
        ensures
            final(self).wf(),
            final(self).chars == old(self).chars,
            final(self).line == old(self).line,
            final(self).cursor == run_end(old(self).chars@, old(self).cursor as nat, class),
            final(self).cursor >= old(self).cursor,
    {
        loop
            invariant
                self.wf(),
                self.chars == old(self).chars,
                self.line == old(self).line,
                old(self).cursor <= self.cursor,
                run_end(self.chars@, self.cursor as nat, class) == run_end(
                    old(self).chars@,
                    old(self).cursor as nat,
                    class,
                ),
            ensures
                self.wf(),
                self.chars == old(self).chars,
                self.line == old(self).line,
                old(self).cursor <= self.cursor,
                self.cursor == run_end(old(self).chars@, old(self).cursor as nat, class),
            decreases self.chars@.len() - self.cursor,
        {
            if self.next_if(class).is_none() {
                break ;
            }
        }
    }

    /// Reads the inside of a string, counting the lines that end in it.
    fn skip_string(&mut self)
        requires
            old(self).wf(),
        ensures
            final(self).wf(),
            final(self).chars == old(self).chars,
            final(self).cursor == run_end(
                old(self).chars@,
                old(self).cursor as nat,
                CharClass::NotQuote,
            ),
            final(self).line == old(self).line + newlines(
                old(self).chars@,
                old(self).cursor as nat,
                final(self).cursor as nat,
            ),
            final(self).cursor >= old(self).cursor,
    {
        loop
            invariant
                self.wf(),
                self.chars == old(self).chars,
                old(self).cursor <= self.cursor,
                self.line == old(self).line + newlines(
                    self.chars@,
                    old(self).cursor as nat,
                    self.cursor as nat,
                ),
                run_end(self.chars@, self.cursor as nat, CharClass::NotQuote) == run_end(
                    old(self).chars@,
                    old(self).cursor as nat,
                    CharClass::NotQuote,
                ),
            ensures
                self.wf(),
                self.chars == old(self).chars,
                old(self).cursor <= self.cursor,
                self.cursor == run_end(
                    old(self).chars@,
                    old(self).cursor as nat,
                    CharClass::NotQuote,
                ),
                self.line == old(self).line + newlines(
                    self.chars@,
                    old(self).cursor as nat,
                    self.cursor as nat,
                ),
            decreases self.chars@.len() - self.cursor,
        {
            match self.next_if(CharClass::NotQuote) {
                Some(c) => {
                    if c == '\n' {
                        self.line = self.line + 1;
                    }
                },
                None => {
                    break ;
                },
            }
        }
    }

    /// The characters from position `start` up to position `end`, as a text.
    fn text(&self, start: usize, end: usize) -> (text: String)
        requires
            self.wf(),
            start <= end <= self.chars@.len(),
        ensures
            text@ == self.chars@.subrange(start as int, end as int),
    {
        String::from_str(self.contents.substring_char(start, end))
    }

    fn token(&self, typ: TokenType, start: usize, end: usize) -> (token: Token)
        requires
            self.wf(),
            start <= end <= self.chars@.len(),
        ensures
            token.typ == typ,
            token.lexeme@ == self.chars@.subrange(start as int, end as int),
            token.line == self.line,
    {
        Token { typ, lexeme: self.text(start, end), line: self.line }
    }

    /// Reads the token that starts with `c`, the character just read from
    /// position `start`.
    fn scan_token(&mut self, c: char, start: usize) -> (result: Result<Token, ParserError>)
        requires
            old(self).wf(),
            start < old(self).chars@.len(),
            old(self).cursor == start + 1,
            old(self).line <= start,
            c == old(self).chars@[start as int],
            !blank(c),
            c != '\n',
        ensures
            final(self).wf(),
            final(self).chars == old(self).chars,
            reports(
                Some(result),
                old(self).chars@,
                lex_token(old(self).chars@, start as nat, old(self).line as nat),
            ),
            final(self).cursor == lex_token(
                old(self).chars@,
                start as nat,
                old(self).line as nat,
            ).cursor(old(self).chars@),
            final(self).line == lex_token(old(self).chars@, start as nat, old(self).line as nat).line(),
            final(self).cursor > start,
    {
        let simple = if c == '(' {
            Some(TokenType::LeftParen)
        } else if c == ')' {
            Some(TokenType::RightParen)
        } else if c == '{' {
            Some(TokenType::LeftBrace)
        } else if c == '}' {
            Some(TokenType::RightBrace)
        } else if c == ',' {
            Some(TokenType::Comma)
        } else if c == '.' {
            Some(TokenType::Dot)
        } else if c == '-' {
            Some(TokenType::Minus)
        } else if c == '+' {
            Some(TokenType::Plus)
        } else if c == ';' {
            Some(TokenType::Semicolon)
        } else if c == '*' {
            Some(TokenType::Star)
        } else if c == '!' {
            if self.matches('=') {
                Some(TokenType::BangEqual)
            } else {
                Some(TokenType::Bang)
            }
        } else if c == '=' {
            if self.matches('=') {
                Some(TokenType::EqualEqual)
            } else {
                Some(TokenType::Equal)
            }
        } else if c == '<' {
            if self.matches('=') {
                Some(TokenType::LessEqual)
            } else {
                Some(TokenType::Less)
            }
        } else if c == '>' {
            if self.matches('=') {
                Some(TokenType::GreaterEqual)
            } else {
                Some(TokenType::Greater)
            }
        } else {
            None
        };
        match simple {
            Some(typ) => {
                return Ok(self.token(typ, start, self.cursor));
            },
            None => {},
        }
        if c == '/' {
            if self.matches('/') {
                self.skip(CharClass::NotNewline);
                Ok(self.token(TokenType::Comment, start, self.cursor))
            } else {
                Ok(self.token(TokenType::Slash, start, self.cursor))
            }
        } else if c == '"' {
            self.skip_string();
            if self.advance().is_none() {
                Err(
                    ParserError::UnterminatedString {
                        line: self.line,
                        loc: self.text(start, self.cursor),
                        msg: String::from_str("Unterminated string"),
                    },
                )
            } else {
                Ok(self.token(TokenType::String, start + 1, self.cursor - 1))
            }
        } else if is_digit(c) {
            self.skip(CharClass::Digit);
            if self.cursor < self.chars.len() && self.chars[self.cursor] == '.' && self.cursor + 1
                < self.chars.len() && is_digit(self.chars[self.cursor + 1]) {
                let _ = self.advance();
                self.skip(CharClass::Digit);
            }
            Ok(self.token(TokenType::Number, start, self.cursor))
        } else if is_alphabetic(c) {
            self.skip(CharClass::AlphaNumeric);
            let word = self.text(start, self.cursor);
            match try_reserved(word.as_str()) {
                Some(keyword) => Ok(self.token(keyword, start, self.cursor)),
                None => Ok(self.token(TokenType::Identifier, start, self.cursor)),
            }
        } else {
            Err(
                ParserError::UnexpectedToken {
                    line: self.line,
                    loc: self.text(start, self.cursor),
                    msg: String::from_str("Unexpected token"),
                },
            )
        }
    }

    /// Reads the next token. `None` means that the text has no more.
    pub fn next(&mut self) -> (result: Option<Result<Token, ParserError>>)
        requires
            old(self).wf(),
        ensures
            final(self).wf(),
            final(self).chars == old(self).chars,
            reports(
                result,
                old(self).chars@,
                lex(old(self).chars@, old(self).cursor as nat, old(self).line as nat),
            ),
            final(self).cursor == lex(
                old(self).chars@,
                old(self).cursor as nat,
                old(self).line as nat,
            ).cursor(old(self).chars@),
            final(self).line == lex(
                old(self).chars@,
                old(self).cursor as nat,
                old(self).line as nat,
            ).line(),
            result is Some ==> final(self).cursor > old(self).cursor,
    {
        loop
            invariant
                self.wf(),
                self.chars == old(self).chars,
                self.cursor >= old(self).cursor,
                lex(self.chars@, self.cursor as nat, self.line as nat) == lex(
                    old(self).chars@,
                    old(self).cursor as nat,
                    old(self).line as nat,
                ),
            decreases self.chars@.len() - self.cursor,
        {
            let start = self.cursor;
            let c = match self.advance() {
                Some(c) => c,
                None => {
                    return None;
                },
            };
            if c == ' ' || c == '\r' || c == '\t' {
                continue ;
            }
            if c == '\n' {
                self.line = self.line + 1;
                continue ;
            }
            return Some(self.scan_token(c, start));
        }
    }

    /// Reads all the tokens that are left, in order. A piece of text that is
    /// no token is reported in its place and the scanner goes on behind it.
    pub fn collect(&mut self) -> (found: Vec<Result<Token, ParserError>>)
        requires
            old(self).wf(),
        ensures
            final(self).wf(),
            final(self).chars == old(self).chars,
            final(self).cursor == final(self).chars@.len(),
            found@.len() == lex_all(
                old(self).chars@,
                old(self).cursor as nat,
                old(self).line as nat,
            ).len(),
            forall|i: int|
                0 <= i < found@.len() ==> reports(
                    Some(#[trigger] found@[i]),
                    old(self).chars@,
                    lex_all(old(self).chars@, old(self).cursor as nat, old(self).line as nat)[i],
                ),
    {
        let mut found: Vec<Result<Token, ParserError>> = Vec::new();
        let ghost total = lex_all(self.chars@, self.cursor as nat, self.line as nat);
        let ghost mut done: Seq<Lexed> = Seq::empty();
        loop
            invariant
                self.wf(),
                self.chars == old(self).chars,
                total == lex_all(old(self).chars@, old(self).cursor as nat, old(self).line as nat),
                total == done + lex_all(self.chars@, self.cursor as nat, self.line as nat),
                done.len() == found@.len(),
                forall|i: int|
                    0 <= i < found@.len() ==> reports(
                        Some(#[trigger] found@[i]),
                        self.chars@,
                        done[i],
                    ),
            decreases self.chars@.len() - self.cursor,
        {
            let ghost before = lex(self.chars@, self.cursor as nat, self.line as nat);
            let ghost rest = lex_all(self.chars@, self.cursor as nat, self.line as nat);
            match self.next() {
                Some(item) => {
                    found.push(item);
                    proof {
                        let after = lex_all(self.chars@, self.cursor as nat, self.line as nat);
                        assert(rest == seq![before] + after);
                        assert(done + rest =~= done.push(before) + after);
                        done = done.push(before);
                    }
                },
                None => {
                    proof {
                        assert(rest =~= Seq::empty());
                        assert(done + rest =~= done);
                    }
                    return found;
                },
            }
        }
    }
}

} // verus!
