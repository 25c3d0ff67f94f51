//! The scanner: a character buffer with a cursor, read one token at a time.
use vstd::prelude::*;

verus! {

/// One lexical unit of the input.
#[derive(Debug, PartialEq, Eq, Clone)]
pub enum Token {
    Ilegal,
    EOF,
    WS,
    Ident(String),
    Asterisk,
    Comma,
    ParLeft,
    ParRight,
    Select,
    From,
    Insert,
    Into,
    Values,
}

/// The mathematical value of a [`Token`]: an identifier carries its text as a
/// sequence of characters.
pub enum TokenView {
    Ilegal,
    EOF,
    WS,
    Ident(Seq<char>),
    Asterisk,
    Comma,
    ParLeft,
    ParRight,
    Select,
    From,
    Insert,
    Into,
    Values,
}

impl View for Token {
    type V = TokenView;

    open spec fn view(&self) -> TokenView {
        match *self {
            Token::Ilegal => TokenView::Ilegal,
            Token::EOF => TokenView::EOF,
            Token::WS => TokenView::WS,
            Token::Ident(text) => TokenView::Ident(text@),
            Token::Asterisk => TokenView::Asterisk,
            Token::Comma => TokenView::Comma,
            Token::ParLeft => TokenView::ParLeft,
            Token::ParRight => TokenView::ParRight,
            Token::Select => TokenView::Select,
            Token::From => TokenView::From,
            Token::Insert => TokenView::Insert,
            Token::Into => TokenView::Into,
            Token::Values => TokenView::Values,
        }
    }
}

/// Space, tab and newline are whitespace.
pub open spec fn whitespace(ch: char) -> bool {
    ch == ' ' || ch == '\t' || ch == '\n'
}

/// The ASCII letters of both cases.
pub open spec fn letter(ch: char) -> bool {
    ('a' <= ch && ch <= 'z') || ('A' <= ch && ch <= 'Z')
}

/// The ASCII digits.
pub open spec fn digit(ch: char) -> bool {
    '0' <= ch && ch <= '9'
}

/// The characters that may continue an identifier.
pub open spec fn ident_char(ch: char) -> bool {
    letter(ch) || digit(ch) || ch == '_'
}

/// The token that a single character stands for when it starts neither
/// whitespace nor an identifier.
pub open spec fn punctuation(ch: char) -> TokenView {
    if ch == '*' {
        TokenView::Asterisk
    } else if ch == ',' {
        TokenView::Comma
    } else if ch == '(' {
        TokenView::ParLeft
    } else if ch == ')' {
        TokenView::ParRight
    } else {
        TokenView::Ilegal
    }
}

/// The first index at or after `pos` that holds no whitespace; `pos` itself
/// at or beyond the end of `buf`.
pub open spec fn whitespace_end(buf: Seq<char>, pos: nat) -> nat
    decreases buf.len() - pos,
{
    if pos < buf.len() && whitespace(buf[pos as int]) {
        whitespace_end(buf, pos + 1)
    } else {
        pos
    }
}

/// The longest run of identifier characters that starts at `pos`.
pub open spec fn ident_run(buf: Seq<char>, pos: nat) -> Seq<char>
    decreases buf.len() - pos,
{
    if pos < buf.len() && ident_char(buf[pos as int]) {
        seq![buf[pos as int]] + ident_run(buf, pos + 1)
    } else {
        Seq::empty()
    }
}

/// The token that starts at `pos`, and the index just behind it.
pub open spec fn scan_at(buf: Seq<char>, pos: nat) -> (TokenView, nat) {
    if pos >= buf.len() {
        (TokenView::EOF, pos)
    } else if whitespace(buf[pos as int]) {
        (TokenView::WS, whitespace_end(buf, pos))
    } else if letter(buf[pos as int]) {
        (TokenView::Ident(ident_run(buf, pos)), pos + ident_run(buf, pos).len())
    } else {
        (punctuation(buf[pos as int]), pos + 1)
    }
}

/// Every token from `pos` on, up to and including the end-of-input token.
pub open spec fn tokens_from(buf: Seq<char>, pos: nat) -> Seq<TokenView>
    decreases buf.len() - pos,
    via tokens_from_decreases
{
    if pos >= buf.len() {
        seq![TokenView::EOF]
    } else {
        seq![scan_at(buf, pos).0] + tokens_from(buf, scan_at(buf, pos).1)
    }
}

#[via_fn]
proof fn tokens_from_decreases(buf: Seq<char>, pos: nat) {
    if pos < buf.len() {
        lemma_scan_advances(buf, pos);
    }
}

/// A run of whitespace ends at or after its start, and within the input when
/// it starts there.
pub proof fn lemma_whitespace_end_bounds(buf: Seq<char>, pos: nat)
    ensures
        pos <= whitespace_end(buf, pos),
        pos <= buf.len() ==> whitespace_end(buf, pos) <= buf.len(),
        pos < buf.len() && whitespace(buf[pos as int]) ==> pos < whitespace_end(buf, pos),
        whitespace_end(buf, pos) < buf.len() ==> !whitespace(
            buf[whitespace_end(buf, pos) as int],
        ),
    decreases buf.len() - pos,
{
    if pos < buf.len() && whitespace(buf[pos as int]) {
        lemma_whitespace_end_bounds(buf, pos + 1);
    }
}

/// An identifier run stays within the input, and is not empty where an
/// identifier character stands at its start.
pub proof fn lemma_ident_run_bounds(buf: Seq<char>, pos: nat)
    ensures
        pos <= buf.len() ==> pos + ident_run(buf, pos).len() <= buf.len(),
        pos < buf.len() && ident_char(buf[pos as int]) ==> ident_run(buf, pos).len() > 0,
        pos >= buf.len() ==> ident_run(buf, pos).len() == 0,
    decreases buf.len() - pos,
{
    if pos < buf.len() && ident_char(buf[pos as int]) {
        lemma_ident_run_bounds(buf, pos + 1);
    }
}

/// A token that starts inside the input is not empty and ends inside it; at
/// the end of the input the scanner stays where it is.
pub proof fn lemma_scan_advances(buf: Seq<char>, pos: nat)
    ensures
        pos < buf.len() ==> pos < scan_at(buf, pos).1 <= buf.len(),
        pos >= buf.len() ==> scan_at(buf, pos) == (TokenView::EOF, pos),
        scan_at(buf, pos).0 is EOF <==> pos >= buf.len(),
{
    lemma_whitespace_end_bounds(buf, pos);
    lemma_ident_run_bounds(buf, pos);
}

/// The tokens of an input end with the end-of-input token, and hold it
/// nowhere else.
pub proof fn lemma_tokens_end_once(buf: Seq<char>, pos: nat)
    ensures
        tokens_from(buf, pos).len() > 0,
        tokens_from(buf, pos).last() is EOF,
        forall|i: int| 0 <= i < tokens_from(buf, pos).len() - 1 ==> !(tokens_from(buf, pos)[i] is EOF),
    decreases buf.len() - pos,
{
    lemma_scan_advances(buf, pos);
    if pos < buf.len() {
        lemma_tokens_end_once(buf, scan_at(buf, pos).1);
    }
}

/// Alone in the input, a character that is neither whitespace nor a letter
/// scans as its punctuation token: `*`, `,`, `(` and `)` as themselves, and
/// every other such character, a digit too, as the illegal token.
pub proof fn lemma_scan_single_char(ch: char)
    requires
        !whitespace(ch),
        !letter(ch),
    ensures
        scan_at(seq![ch], 0) == (punctuation(ch), 1nat),
        ch == '*' ==> punctuation(ch) is Asterisk,
        ch == ',' ==> punctuation(ch) is Comma,
        ch == '(' ==> punctuation(ch) is ParLeft,
        ch == ')' ==> punctuation(ch) is ParRight,
        ch != '*' && ch != ',' && ch != '(' && ch != ')' ==> punctuation(ch) is Ilegal,
{
}

/// Whether `ch` is whitespace.
pub fn is_whitespace(ch: char) -> (r: bool)
    ensures
        r == whitespace(ch),
{
    ch == ' ' || ch == '\t' || ch == '\n'
}

/// Whether `ch` is an ASCII letter.
pub fn is_letter(ch: char) -> (r: bool)
    ensures
        r == letter(ch),
{
    (ch >= 'a' && ch <= 'z') || (ch >= 'A' && ch <= 'Z')
}

/// Whether `ch` is an ASCII digit.
pub fn is_digit(ch: char) -> (r: bool)
    ensures
        r == digit(ch),
{
    ch >= '0' && ch <= '9'
}

/// Taken on trust, not proved: std's `String::push` appends `ch` to the end
/// of the string and leaves the characters before it as they were.
pub assume_specification[ String::push ](s: &mut String, ch: char)
    ensures
        final(s)@ == old(s)@.push(ch),
;

/// The scanner's state: the characters of the input and a cursor into them.
#[derive(Debug, Clone)]
pub struct Lexer {
    pos: usize,
    buffer: Vec<char>,
}

impl Lexer {
    /// The characters of the input, which never change.
    pub closed spec fn text(&self) -> Seq<char> {
        self.buffer@
    }

    /// The index of the next character to read.
    pub closed spec fn cursor(&self) -> nat {
        self.pos as nat
    }

    /// A scanner at the start of `s`.
    pub fn new(s: String) -> (l: Lexer)
        ensures
            l.text() == s@,
            l.cursor() == 0,
    {
        broadcast use vstd::string::group_string_axioms;

        let mut buffer: Vec<char> = Vec::new();
        let text = s.as_str();
        for ch in it: text.chars()
            invariant
                it.seq() == s@,
                buffer@ == s@.take(it.index() as int),
        {
            buffer.push(ch);
        }
        Lexer { pos: 0, buffer }
    }

    /// The cursor, to be handed to [`Lexer::reset`] later.
    pub fn pos(&self) -> (pos: usize)
        ensures
            pos == self.cursor(),
    {
        self.pos
    }

    /// Moves the cursor to `pos`, most often a value that [`Lexer::pos`] gave
    /// earlier. A cursor beyond the end of the input reads as its end.
    pub fn reset(&mut self, pos: usize)
        ensures
            final(self).cursor() == pos,
            final(self).text() == old(self).text(),
    {
        self.pos = pos;
    }

    /// Reads the character under the cursor and steps over it; reads nothing
    /// at the end of the input.
    pub fn read(&mut self) -> (r: Option<char>)
        ensures
            final(self).text() == old(self).text(),
            old(self).cursor() < old(self).text().len() ==> r == Some(
                old(self).text()[old(self).cursor() as int],
            ) && final(self).cursor() == old(self).cursor() + 1,
            old(self).cursor() >= old(self).text().len() ==> r.is_none() && final(self).cursor()
                == old(self).cursor(),
    {
        let pos = self.pos;
        if self.buffer.len() > pos {
            self.pos += 1;
            Some(self.buffer[pos])
        } else {
            None
        }
    }

    /// Steps back over one character; stays at the start of the input.
    pub fn unread(&mut self)
        ensures
            final(self).text() == old(self).text(),
            old(self).cursor() > 0 ==> final(self).cursor() == old(self).cursor() - 1,
            old(self).cursor() == 0 ==> final(self).cursor() == 0,
    {
        if self.pos > 0 {
            self.pos -= 1;
        }
    }

    /// Scans token after token, up to and including the end of the input.
    pub fn scan_text(&mut self) -> (tokens: Vec<Token>)
        ensures
            final(self).text() == old(self).text(),
            token_views(tokens@) == tokens_from(old(self).text(), old(self).cursor()),
            final(self).cursor() == if old(self).cursor() <= old(self).text().len() {
                old(self).text().len()
            } else {
                old(self).cursor()
            },
    {
        let mut tokens: Vec<Token> = Vec::new();
        let ghost buf = self.text();
        let ghost start = self.cursor();
        loop
            invariant_except_break
                tokens_from(buf, start) == token_views(tokens@) + tokens_from(buf, self.cursor()),
            invariant
                self.text() == buf,
                start <= buf.len() ==> self.cursor() <= buf.len(),
                start > buf.len() ==> self.cursor() == start,
            ensures
                self.text() == buf,
                token_views(tokens@) == tokens_from(buf, start),
                self.cursor() == if start <= buf.len() {
                    buf.len()
                } else {
                    start
                },
            decreases buf.len() - self.cursor(),
        {
            let ghost before = self.cursor();
            let ghost sofar = token_views(tokens@);
            proof {
                lemma_scan_advances(buf, before);
            }
            let token = self.scan();
            let done = matches!(token, Token::EOF);
            tokens.push(token);
            proof {
                assert(token_views(tokens@) =~= sofar.push(token@));
                if done {
                    assert(tokens_from(buf, before) =~= seq![TokenView::EOF]);
                    assert(sofar + seq![TokenView::EOF] =~= sofar.push(token@));
                } else {
                    assert(sofar + (seq![token@] + tokens_from(buf, self.cursor())) =~= sofar.push(
                        token@,
                    ) + tokens_from(buf, self.cursor()));
                }
            }
            if done {
                break ;
            }
        }
        tokens
    }

    /// Scans the token under the cursor and steps over it.
    pub fn scan(&mut self) -> (token: Token)
        ensures
            final(self).text() == old(self).text(),
            (token@, final(self).cursor()) == scan_at(old(self).text(), old(self).cursor()),
    {
        let opt_ch = self.read();
        match opt_ch {
            Some(ch) => {
                if is_whitespace(ch) {
                    self.unread();
                    return self.scan_whitespace();
                }
                if is_letter(ch) {
                    self.unread();
                    return self.scan_ident();
                }
                match ch {
                    '*' => Token::Asterisk,
                    ',' => Token::Comma,
                    '(' => Token::ParLeft,
                    ')' => Token::ParRight,
                    _ => Token::Ilegal,
                }
            },
            None => Token::EOF,
        }
    }

    /// Steps over the whitespace under the cursor, all of it, and returns the
    /// whitespace token whether or not there was any.
    pub fn scan_whitespace(&mut self) -> (token: Token)
        ensures
            final(self).text() == old(self).text(),
            token == Token::WS,
            final(self).cursor() == whitespace_end(old(self).text(), old(self).cursor()),
    {
        let ghost buf = self.text();
        let ghost start = self.cursor();
        loop
            invariant
                self.text() == buf,
                whitespace_end(buf, self.cursor()) == whitespace_end(buf, start),
            ensures
                self.text() == buf,
                self.cursor() == whitespace_end(buf, start),
            decreases buf.len() - self.cursor(),
        {
            let opt_ch = self.read();
            match opt_ch {
                Some(ch) => {
                    if !is_whitespace(ch) {
                        self.unread();
                        break ;
                    }
                },
                None => {
                    break ;
                },
            }
        }
        Token::WS
    }

    /// Steps over the identifier characters under the cursor, all of them,
    /// and returns them as an identifier, which is empty where none stands
    /// there.
    pub fn scan_ident(&mut self) -> (token: Token)
        ensures
            final(self).text() == old(self).text(),
            token@ == TokenView::Ident(ident_run(old(self).text(), old(self).cursor())),
            final(self).cursor() == old(self).cursor() + ident_run(
                old(self).text(),
                old(self).cursor(),
            ).len(),
    {
        let ghost buf = self.text();
        let ghost start = self.cursor();
        let mut buff = String::new();
        loop
            invariant
                self.text() == buf,
                self.cursor() == start + buff@.len(),
                ident_run(buf, start) == buff@ + ident_run(buf, self.cursor()),
            ensures
                self.text() == buf,
                self.cursor() == start + buff@.len(),
                ident_run(buf, start) == buff@,
            decreases buf.len() - self.cursor(),
        {
            let ghost sofar = buff@;
            let ghost here = self.cursor();
            let opt_ch = self.read();
            match opt_ch {
                Some(ch) => {
                    if !is_letter(ch) && !is_digit(ch) && ch != '_' {
                        self.unread();
                        assert(sofar + Seq::<char>::empty() =~= sofar);
                        break ;
                    }
                    buff.push(ch);
                    assert(sofar + (seq![ch] + ident_run(buf, here + 1)) =~= sofar.push(ch)
                        + ident_run(buf, here + 1));
                },
                None => {
                    assert(sofar + Seq::<char>::empty() =~= sofar);
                    break ;
                },
            }
        }
        Token::Ident(buff)
    }
}

/// The values of a sequence of tokens, in the same order.
pub open spec fn token_views(tokens: Seq<Token>) -> Seq<TokenView> {
    tokens.map_values(|t: Token| t@)
}

} // verus!
