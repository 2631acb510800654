use vstd::prelude::*;
use vstd::string::StrSliceExecFns;
use vstd::utf8::encode_utf8;

verus! {

/// One lexeme of the source language. Every token is self-contained:
/// the payload-carrying variants own their text, copied out of the
/// input buffer at scan time.
#[derive(Debug, PartialEq)]
pub enum Token {
    Assign,
    Plus,
    Minus,
    Asterisk,
    ForwardSlash,
    Bang,
    LessThan,
    GreaterThan,
    Equal,
    NotEqual,

    LParen,
    RParen,
    LBrace,
    RBrace,

    Comma,
    Semicolon,

    Let,
    Function,
    If,
    Else,
    True,
    False,
    Return,
    Ident(String),

    Int(String),

    Eof,
    Illegal(String),
}

/// The mathematical shape of a token: the same variants as `Token`,
/// with text payloads abstracted to character sequences.
pub enum TokenView {
    Assign,
    Plus,
    Minus,
    Asterisk,
    ForwardSlash,
    Bang,
    LessThan,
    GreaterThan,
    Equal,
    NotEqual,

    LParen,
    RParen,
    LBrace,
    RBrace,

    Comma,
    Semicolon,

    Let,
    Function,
    If,
    Else,
    True,
    False,
    Return,
    Ident(Seq<char>),

    Int(Seq<char>),

    Eof,
    Illegal(Seq<char>),
}

impl View for Token {
    type V = TokenView;

    open spec fn view(&self) -> TokenView {
        match self {
            Token::Assign => TokenView::Assign,
            Token::Plus => TokenView::Plus,
            Token::Minus => TokenView::Minus,
            Token::Asterisk => TokenView::Asterisk,
            Token::ForwardSlash => TokenView::ForwardSlash,
            Token::Bang => TokenView::Bang,
            Token::LessThan => TokenView::LessThan,
            Token::GreaterThan => TokenView::GreaterThan,
            Token::Equal => TokenView::Equal,
            Token::NotEqual => TokenView::NotEqual,
            Token::LParen => TokenView::LParen,
            Token::RParen => TokenView::RParen,
            Token::LBrace => TokenView::LBrace,
            Token::RBrace => TokenView::RBrace,
            Token::Comma => TokenView::Comma,
            Token::Semicolon => TokenView::Semicolon,
            Token::Let => TokenView::Let,
            Token::Function => TokenView::Function,
            Token::If => TokenView::If,
            Token::Else => TokenView::Else,
            Token::True => TokenView::True,
            Token::False => TokenView::False,
            Token::Return => TokenView::Return,
            Token::Ident(s) => TokenView::Ident(s@),
            Token::Int(s) => TokenView::Int(s@),
            Token::Eof => TokenView::Eof,
            Token::Illegal(s) => TokenView::Illegal(s@),
        }
    }
}

/// The byte the scanner sees at `pos`: the buffer's byte while in
/// bounds, and the zero sentinel past the end.
pub open spec fn byte_at(input: Seq<u8>, pos: int) -> u8 {
    if 0 <= pos < input.len() {
        input[pos]
    } else {
        0
    }
}

/// The four whitespace bytes the scanner skips: space, tab, newline,
/// carriage return.
pub open spec fn is_ws(b: u8) -> bool {
    b as char == ' ' || b as char == '\t' || b as char == '\n' || b as char == '\r'
}

/// An ASCII decimal digit.
pub open spec fn is_digit(b: u8) -> bool {
    '0' <= b as char && b as char <= '9'
}

/// An ASCII letter or underscore: the bytes an identifier is made of.
pub open spec fn is_letter(b: u8) -> bool {
    ('a' <= b as char && b as char <= 'z') || ('A' <= b as char && b as char <= 'Z')
        || b as char == '_'
}

/// The first position at or after `pos` that does not hold whitespace.
pub open spec fn skip_ws(input: Seq<u8>, pos: int) -> int
    decreases input.len() - pos,
{
    if pos < input.len() && is_ws(byte_at(input, pos)) {
        skip_ws(input, pos + 1)
    } else {
        pos
    }
}

/// The end of the maximal digit run starting at `pos`.
pub open spec fn digit_run_end(input: Seq<u8>, pos: int) -> int
    decreases input.len() - pos,
{
    if pos < input.len() && is_digit(byte_at(input, pos)) {
        digit_run_end(input, pos + 1)
    } else {
        pos
    }
}

/// The end of the maximal letter/underscore run starting at `pos`.
pub open spec fn letter_run_end(input: Seq<u8>, pos: int) -> int
    decreases input.len() - pos,
{
    if pos < input.len() && is_letter(byte_at(input, pos)) {
        letter_run_end(input, pos + 1)
    } else {
        pos
    }
}

/// The characters spelled by a run of bytes, one character per byte.
pub open spec fn chars_of(bytes: Seq<u8>) -> Seq<char> {
    bytes.map_values(|b: u8| b as char)
}

/// A run of bytes spells the given characters, one character per
/// byte.
pub open spec fn spells(w: Seq<u8>, s: Seq<char>) -> bool {
    chars_of(w) == s
}

/// Classifies a maximal letter/underscore run: exactly the seven fixed
/// keyword spellings become keyword tokens; every other run is an
/// identifier carrying its own spelling.
pub open spec fn word_token(w: Seq<u8>) -> TokenView {
    if w.len() == 3 && w[0] as char == 'l' && w[1] as char == 'e' && w[2] as char == 't' {
        TokenView::Let
    } else if w.len() == 2 && w[0] as char == 'f' && w[1] as char == 'n' {
        TokenView::Function
    } else if w.len() == 2 && w[0] as char == 'i' && w[1] as char == 'f' {
        TokenView::If
    } else if w.len() == 4 && w[0] as char == 'e' && w[1] as char == 'l' && w[2] as char == 's'
        && w[3] as char == 'e' {
        TokenView::Else
    } else if w.len() == 6 && w[0] as char == 'r' && w[1] as char == 'e' && w[2] as char == 't'
        && w[3] as char == 'u' && w[4] as char == 'r' && w[5] as char == 'n' {
        TokenView::Return
    } else if w.len() == 4 && w[0] as char == 't' && w[1] as char == 'r' && w[2] as char == 'u'
        && w[3] as char == 'e' {
        TokenView::True
    } else if w.len() == 5 && w[0] as char == 'f' && w[1] as char == 'a' && w[2] as char == 'l'
        && w[3] as char == 's' && w[4] as char == 'e' {
        TokenView::False
    } else {
        TokenView::Ident(chars_of(w))
    }
}

/// The scanner's step function: from a buffer and a scan position to
/// the next token and the position just past its lexeme. Whitespace is
/// skipped first; `!` and `=` look one byte ahead; digit and letter
/// runs are consumed maximally; the zero sentinel yields `Eof`; any
/// other byte is one `Illegal` token.
pub open spec fn next_token_spec(input: Seq<u8>, pos: int) -> (TokenView, int) {
    let p = skip_ws(input, pos);
    let c = byte_at(input, p);
    if c as char == '!' {
        if byte_at(input, p + 1) as char == '=' {
            (TokenView::NotEqual, p + 2)
        } else {
            (TokenView::Bang, p + 1)
        }
    } else if c as char == '=' {
        if byte_at(input, p + 1) as char == '=' {
            (TokenView::Equal, p + 2)
        } else {
            (TokenView::Assign, p + 1)
        }
    } else if c as char == '+' {
        (TokenView::Plus, p + 1)
    } else if c as char == '(' {
        (TokenView::LParen, p + 1)
    } else if c as char == ')' {
        (TokenView::RParen, p + 1)
    } else if c as char == '{' {
        (TokenView::LBrace, p + 1)
    } else if c as char == '}' {
        (TokenView::RBrace, p + 1)
    } else if c as char == ',' {
        (TokenView::Comma, p + 1)
    } else if c as char == ';' {
        (TokenView::Semicolon, p + 1)
    } else if c as char == '-' {
        (TokenView::Minus, p + 1)
    } else if c as char == '*' {
        (TokenView::Asterisk, p + 1)
    } else if c as char == '/' {
        (TokenView::ForwardSlash, p + 1)
    } else if c as char == '<' {
        (TokenView::LessThan, p + 1)
    } else if c as char == '>' {
        (TokenView::GreaterThan, p + 1)
    } else if is_digit(c) {
        let e = digit_run_end(input, p);
        (TokenView::Int(chars_of(input.subrange(p, e))), e)
    } else if is_letter(c) {
        let e = letter_run_end(input, p);
        (word_token(input.subrange(p, e)), e)
    } else if c == 0 {
        (TokenView::Eof, if p < input.len() {
            p + 1
        } else {
            p
        })
    } else {
        (TokenView::Illegal(seq![c as char]), p + 1)
    }
}

/// Skipping whitespace never moves backwards, never runs past the end
/// of the buffer, and stops on the first non-whitespace byte.
pub proof fn lemma_skip_ws_bounds(input: Seq<u8>, pos: int)
    requires
        0 <= pos,
    ensures
        pos <= skip_ws(input, pos),
        pos <= input.len() ==> skip_ws(input, pos) <= input.len(),
        input.len() <= pos ==> skip_ws(input, pos) == pos,
        !is_ws(byte_at(input, skip_ws(input, pos))),
        forall|i: int| pos <= i < skip_ws(input, pos) ==> is_ws(byte_at(input, i)),
    decreases input.len() - pos,
{
    if pos < input.len() && is_ws(byte_at(input, pos)) {
        lemma_skip_ws_bounds(input, pos + 1);
    }
}

/// The digit run from `pos` covers only digits, stays inside the
/// buffer, and ends right before the first non-digit.
pub proof fn lemma_digit_run_bounds(input: Seq<u8>, pos: int)
    requires
        0 <= pos,
    ensures
        pos <= digit_run_end(input, pos),
        pos <= input.len() ==> digit_run_end(input, pos) <= input.len(),
        input.len() <= pos ==> digit_run_end(input, pos) == pos,
        !is_digit(byte_at(input, digit_run_end(input, pos))),
        forall|i: int| pos <= i < digit_run_end(input, pos) ==> is_digit(byte_at(input, i)),
    decreases input.len() - pos,
{
    if pos < input.len() && is_digit(byte_at(input, pos)) {
        lemma_digit_run_bounds(input, pos + 1);
    }
}

/// The letter/underscore run from `pos` covers only letters and
/// underscores, stays inside the buffer, and ends right before the
/// first byte of another class.
pub proof fn lemma_letter_run_bounds(input: Seq<u8>, pos: int)
    requires
        0 <= pos,
    ensures
        pos <= letter_run_end(input, pos),
        pos <= input.len() ==> letter_run_end(input, pos) <= input.len(),
        input.len() <= pos ==> letter_run_end(input, pos) == pos,
        !is_letter(byte_at(input, letter_run_end(input, pos))),
        forall|i: int| pos <= i < letter_run_end(input, pos) ==> is_letter(byte_at(input, i)),
    decreases input.len() - pos,
{
    if pos < input.len() && is_letter(byte_at(input, pos)) {
        lemma_letter_run_bounds(input, pos + 1);
    }
}

/// One scanning step always lands at or after where it started and
/// never leaves the buffer; it moves strictly forward whenever it
/// found a token other than `Eof`, and past the end it stands still
/// and yields `Eof`.
pub proof fn lemma_next_token_bounds(input: Seq<u8>, pos: int)
    requires
        0 <= pos,
    ensures
        pos <= next_token_spec(input, pos).1,
        pos <= input.len() ==> next_token_spec(input, pos).1 <= input.len(),
        !(next_token_spec(input, pos).0 is Eof) ==> pos < next_token_spec(input, pos).1
            <= input.len(),
        input.len() <= pos ==> next_token_spec(input, pos).0 is Eof && next_token_spec(
            input,
            pos,
        ).1 == pos,
{
    lemma_skip_ws_bounds(input, pos);
    let p = skip_ws(input, pos);
    let c = byte_at(input, p);
    if c != 0 {
        assert(p < input.len());
    }
    if is_digit(c) {
        lemma_digit_run_bounds(input, p);
        assert(digit_run_end(input, p) == digit_run_end(input, p + 1));
        lemma_digit_run_bounds(input, p + 1);
    } else if is_letter(c) {
        lemma_letter_run_bounds(input, p);
        assert(letter_run_end(input, p) == letter_run_end(input, p + 1));
        lemma_letter_run_bounds(input, p + 1);
    }
}

/// The whole token stream of a buffer, scanned from `pos`: every token
/// the scanner yields before its first `Eof`, in order.
pub open spec fn token_stream(input: Seq<u8>, pos: int) -> Seq<TokenView>
    decreases input.len() - pos,
    when 0 <= pos
{
    let r = next_token_spec(input, pos);
    if r.0 is Eof {
        Seq::empty()
    } else {
        proof {
            lemma_next_token_bounds(input, pos);
        }
        seq![r.0] + token_stream(input, r.1)
    }
}

/// The scanner over one input buffer: the buffer itself, the index of
/// the byte under scan, the index of the next byte to load, and the
/// byte under scan (zero once past the end).
pub struct Lexer {
    input: Vec<u8>,
    position: usize,
    read_position: usize,
    ch: u8,
}

/// The abstract state of a scanner: the input buffer and the index of
/// the byte under scan.
pub struct LexerView {
    pub input: Seq<u8>,
    pub pos: int,
}

impl View for Lexer {
    type V = LexerView;

    closed spec fn view(&self) -> LexerView {
        LexerView { input: self.input@, pos: self.position as int }
    }
}

/// A well-formed scanner stands inside its buffer or just past its
/// end.
pub proof fn lemma_wf_pos_in_range(lexer: &Lexer)
    requires
        lexer.wf(),
    ensures
        0 <= lexer@.pos <= lexer@.input.len(),
{
}

/// Relies on `String::push` from std: it appends exactly the given
/// character to the end of the string.
#[verifier::external_body]
fn push_char(s: &mut String, c: char)
    ensures
        final(s)@ == old(s)@.push(c),
{
    s.push(c);
}

fn is_ws_byte(b: u8) -> (r: bool)
    ensures
        r == is_ws(b),
{
    b as char == ' ' || b as char == '\t' || b as char == '\n' || b as char == '\r'
}

fn is_digit_byte(b: u8) -> (r: bool)
    ensures
        r == is_digit(b),
{
    '0' <= b as char && b as char <= '9'
}

fn is_letter_byte(b: u8) -> (r: bool)
    ensures
        r == is_letter(b),
{
    ('a' <= b as char && b as char <= 'z') || ('A' <= b as char && b as char <= 'Z')
        || b as char == '_'
}

impl Lexer {
    /// The cursor invariant: the scan position never leaves the
    /// buffer, the read position trails it by exactly one until the
    /// end is reached and then stands on it, and the byte under scan
    /// mirrors the buffer.
    pub closed spec fn wf(&self) -> bool {
        &&& self.position <= self.input@.len()
        &&& (if (self.position as int) < self.input@.len() {
            self.read_position == self.position + 1
        } else {
            self.read_position == self.position
        })
        &&& self.ch == byte_at(self.input@, self.position as int)
    }

    /// Builds a scanner over the UTF-8 bytes of `input`, with the
    /// first byte already loaded and the scan position at the start.
    pub fn new(input: String) -> (lexer: Lexer)
        ensures
            lexer.wf(),
            lexer@.input == encode_utf8(input@),
            lexer@.pos == 0,
    {
        let buf = input.as_str().as_bytes_vec();
        let mut lexer = Lexer { input: buf, position: 0, read_position: 0, ch: 0 };

        lexer.read_char();
        lexer
    }

    /// Loads the byte at the read position (or the zero sentinel past
    /// the end), moves the scan position onto it, and moves the read
    /// position one further while still inside the buffer.
    fn read_char(&mut self)
        requires
            old(self).read_position as int <= old(self).input@.len(),
        ensures
            final(self).input == old(self).input,
            final(self).position == old(self).read_position,
            final(self).ch == byte_at(final(self).input@, final(self).position as int),
            (old(self).read_position as int) < old(self).input@.len()
                ==> final(self).read_position == old(self).read_position + 1,
            old(self).input@.len() <= old(self).read_position as int
                ==> final(self).read_position == old(self).read_position,
            old(self).wf() ==> final(self).wf(),
            old(self).wf() ==> final(self)@.pos == (if old(self)@.pos < old(self)@.input.len() {
                old(self)@.pos + 1
            } else {
                old(self)@.pos
            }),
    {
        if self.read_position >= self.input.len() {
            self.ch = 0;
            self.position = self.read_position;
        } else {
            self.ch = self.input[self.read_position];
            self.position = self.read_position;
            self.read_position = self.read_position + 1;
        }
    }

    /// The byte one past the scan position, without consuming it.
    fn peek(&self) -> (b: u8)
        requires
            self.wf(),
        ensures
            b == byte_at(self@.input, self@.pos + 1),
    {
        if self.read_position < self.input.len() {
            self.input[self.read_position]
        } else {
            0
        }
    }

    /// Advances the scan position to the first non-whitespace byte.
    fn skip_whitespace(&mut self)
        requires
            old(self).wf(),
        ensures
            final(self).wf(),
            final(self)@.input == old(self)@.input,
            final(self)@.pos == skip_ws(old(self)@.input, old(self)@.pos),
    {
        while is_ws_byte(self.ch)
            invariant
                self.wf(),
                self@.input == old(self)@.input,
                skip_ws(self@.input, self@.pos) == skip_ws(old(self)@.input, old(self)@.pos),
            decreases self@.input.len() - self@.pos,
        {
            proof {
                assert(self@.pos < self@.input.len());
            }
            self.read_char();
        }
    }

    /// Consumes the maximal digit run at the scan position and returns
    /// its exact spelling.
    fn read_int(&mut self) -> (r: String)
        requires
            old(self).wf(),
        ensures
            final(self).wf(),
            final(self)@.input == old(self)@.input,
            final(self)@.pos == digit_run_end(old(self)@.input, old(self)@.pos),
            r@ == chars_of(old(self)@.input.subrange(old(self)@.pos, final(self)@.pos)),
    {
        let mut r = String::new();

        while is_digit_byte(self.ch)
            invariant
                self.wf(),
                self@.input == old(self)@.input,
                old(self)@.pos <= self@.pos,
                digit_run_end(self@.input, self@.pos) == digit_run_end(
                    old(self)@.input,
                    old(self)@.pos,
                ),
                r@ == chars_of(self@.input.subrange(old(self)@.pos, self@.pos)),
            decreases self@.input.len() - self@.pos,
        {
            proof {
                assert(self@.pos < self@.input.len());
            }
            push_char(&mut r, self.ch as char);
            self.read_char();
            proof {
                assert(r@ =~= chars_of(self@.input.subrange(old(self)@.pos, self@.pos)));
            }
        }
        r
    }

    /// Consumes the maximal letter/underscore run at the scan position
    /// and returns its exact spelling.
    fn read_ident(&mut self) -> (r: String)
        requires
            old(self).wf(),
        ensures
            final(self).wf(),
            final(self)@.input == old(self)@.input,
            final(self)@.pos == letter_run_end(old(self)@.input, old(self)@.pos),
            r@ == chars_of(old(self)@.input.subrange(old(self)@.pos, final(self)@.pos)),
    {
        let mut r = String::new();

        while is_letter_byte(self.ch)
            invariant
                self.wf(),
                self@.input == old(self)@.input,
                old(self)@.pos <= self@.pos,
                letter_run_end(self@.input, self@.pos) == letter_run_end(
                    old(self)@.input,
                    old(self)@.pos,
                ),
                r@ == chars_of(self@.input.subrange(old(self)@.pos, self@.pos)),
            decreases self@.input.len() - self@.pos,
        {
            proof {
                assert(self@.pos < self@.input.len());
            }
            push_char(&mut r, self.ch as char);
            self.read_char();
            proof {
                assert(r@ =~= chars_of(self@.input.subrange(old(self)@.pos, self@.pos)));
            }
        }
        r
    }

    /// Classifies the letter/underscore run spelled by `word` (the
    /// bytes of the buffer between `start` and `end`): a keyword token
    /// for the seven fixed spellings, an identifier otherwise.
    fn keyword_or_ident(&self, start: usize, end: usize, word: String) -> (t: Token)
        requires
            self.wf(),
            start <= end,
            end as int <= self@.input.len(),
            word@ == chars_of(self@.input.subrange(start as int, end as int)),
        ensures
            t@ == word_token(self@.input.subrange(start as int, end as int)),
    {
        let n = end - start;
        let ghost w = self@.input.subrange(start as int, end as int);
        proof {
            assert(w.len() == n);
            assert(forall|i: int| 0 <= i < w.len() ==> chars_of(w)[i] == w[i] as char);
        }
        if n == 3 && self.input[start] as char == 'l' && self.input[start + 1] as char == 'e'
            && self.input[start + 2] as char == 't' {
            Token::Let
        } else if n == 2 && self.input[start] as char == 'f' && self.input[start + 1] as char
            == 'n' {
            Token::Function
        } else if n == 2 && self.input[start] as char == 'i' && self.input[start + 1] as char
            == 'f' {
            Token::If
        } else if n == 4 && self.input[start] as char == 'e' && self.input[start + 1] as char
            == 'l' && self.input[start + 2] as char == 's' && self.input[start + 3] as char
            == 'e' {
            Token::Else
        } else if n == 6 && self.input[start] as char == 'r' && self.input[start + 1] as char
            == 'e' && self.input[start + 2] as char == 't' && self.input[start + 3] as char
            == 'u' && self.input[start + 4] as char == 'r' && self.input[start + 5] as char
            == 'n' {
            Token::Return
        } else if n == 4 && self.input[start] as char == 't' && self.input[start + 1] as char
            == 'r' && self.input[start + 2] as char == 'u' && self.input[start + 3] as char
            == 'e' {
            Token::True
        } else if n == 5 && self.input[start] as char == 'f' && self.input[start + 1] as char
            == 'a' && self.input[start + 2] as char == 'l' && self.input[start + 3] as char
            == 's' && self.input[start + 4] as char == 'e' {
            Token::False
        } else {
            Token::Ident(word)
        }
    }

    /// Yields the next token and advances the scan position just past
    /// its lexeme, exactly as the scanner's step function says. It
    /// never fails: an unrecognized byte comes back as an `Illegal`
    /// token, and at the end of the buffer every further call yields
    /// `Eof` again.
    pub fn next_token(&mut self) -> (t: Token)
        requires
            old(self).wf(),
        ensures
            final(self).wf(),
            final(self)@.input == old(self)@.input,
            t@ == next_token_spec(old(self)@.input, old(self)@.pos).0,
            final(self)@.pos == next_token_spec(old(self)@.input, old(self)@.pos).1,
    {
        self.skip_whitespace();

        let c = self.ch;
        if c as char == '!' {
            let token = if self.peek() as char == '=' {
                self.read_char();
                Token::NotEqual
            } else {
                Token::Bang
            };
            self.read_char();
            token
        } else if c as char == '=' {
            let token = if self.peek() as char == '=' {
                self.read_char();
                Token::Equal
            } else {
                Token::Assign
            };
            self.read_char();
            token
        } else if c as char == '+' {
            self.read_char();
            Token::Plus
        } else if c as char == '(' {
            self.read_char();
            Token::LParen
        } else if c as char == ')' {
            self.read_char();
            Token::RParen
        } else if c as char == '{' {
            self.read_char();
            Token::LBrace
        } else if c as char == '}' {
            self.read_char();
            Token::RBrace
        } else if c as char == ',' {
            self.read_char();
            Token::Comma
        } else if c as char == ';' {
            self.read_char();
            Token::Semicolon
        } else if c as char == '-' {
            self.read_char();
            Token::Minus
        } else if c as char == '*' {
            self.read_char();
            Token::Asterisk
        } else if c as char == '/' {
            self.read_char();
            Token::ForwardSlash
        } else if c as char == '<' {
            self.read_char();
            Token::LessThan
        } else if c as char == '>' {
            self.read_char();
            Token::GreaterThan
        } else if is_digit_byte(c) {
            Token::Int(self.read_int())
        } else if is_letter_byte(c) {
            let start = self.position;
            let word = self.read_ident();
            let end = self.position;
            proof {
                lemma_letter_run_bounds(self@.input, start as int);
            }
            self.keyword_or_ident(start, end, word)
        } else if c == 0 {
            self.read_char();
            Token::Eof
        } else {
            let mut s = String::new();
            push_char(&mut s, c as char);
            proof {
                assert(s@ =~= seq![c as char]);
            }
            self.read_char();
            Token::Illegal(s)
        }
    }
}

} // verus!
