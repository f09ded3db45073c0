use vstd::prelude::*;
use vstd::string::StringExecFns;
use crate::error::{Fault, LexError};
use crate::scan::{
    blanks_end, comment_end, digits_end, e_before_digit, is_blank, is_digit, is_letter, keyword,
    lemma_digits_end, lemma_name_end, lemma_scan_advances, lemma_trivia_after_blanks,
    lemma_trivia_after_comment, line_end, name_end, numeral_end, scan, scan_all, symbol,
    trivia_end, Scanned,
};
use crate::text::characters;
use crate::token::{views, Tok, Token};

verus! {

/// A lexer over the characters of one input text.
pub struct Tokenizer {
    charvec: Vec<char>,
    ptr: usize,
}

/// The token that was read, or the fault met in its place.
pub open spec fn token_read(r: Result<Token, LexError>) -> Result<Tok, Fault> {
    match r {
        Ok(token) => Ok(token@),
        Err(e) => Err(e@),
    }
}

/// The tokens that were read, or the fault that ended the reading.
pub open spec fn tokens_read(r: Result<Vec<Token>, LexError>) -> Result<Seq<Tok>, Fault> {
    match r {
        Ok(tokens) => Ok(views(tokens@)),
        Err(e) => Err(e@),
    }
}

/// The tokens `done`, followed by what `rest` gives.
pub open spec fn followed_by(done: Seq<Tok>, rest: Result<Seq<Tok>, Fault>) -> Result<
    Seq<Tok>,
    Fault,
> {
    match rest {
        Ok(more) => Ok(done + more),
        Err(fault) => Err(fault),
    }
}

fn blank(c: char) -> (r: bool)
    ensures
        r == is_blank(c),
{
    c == ' ' || c == '\t' || c == '\n' || c == '\u{c}' || c == '\r'
}

fn digit(c: char) -> (r: bool)
    ensures
        r == is_digit(c),
{
    '0' <= c && c <= '9'
}

fn letter(c: char) -> (r: bool)
    ensures
        r == is_letter(c),
{
    ('a' <= c && c <= 'z') || ('A' <= c && c <= 'Z')
}

fn symbol_token(c: char) -> (r: Option<Token>)
    ensures
        match r {
            Some(token) => symbol(c) == Some(token@),
            None => symbol(c) is None,
        },
{
    match c {
        '+' => Some(Token::PLUS),
        '-' => Some(Token::MINUS),
        '*' => Some(Token::MUL),
        '/' => Some(Token::DIV),
        '(' => Some(Token::LPAREN),
        ')' => Some(Token::RPAREN),
        ',' => Some(Token::COMMA),
        '.' => Some(Token::DOT),
        '=' => Some(Token::ASSIGN),
        ';' => Some(Token::SEMI),
        _ => None,
    }
}

impl Tokenizer {
    /// The characters of the text.
    pub closed spec fn chars(&self) -> Seq<char> {
        self.charvec@
    }

    /// How many characters have been passed.
    pub closed spec fn position(&self) -> nat {
        self.ptr as nat
    }

    /// A lexer before the first character of `text`.
    pub fn new(text: &str) -> (r: Tokenizer)
        ensures
            r.chars() == text@,
            r.position() == 0,
    {
        Tokenizer { charvec: characters(text), ptr: 0 }
    }

    /// How many characters have been passed.
    pub fn passed(&self) -> (r: usize)
        ensures
            r == self.position(),
    {
        self.ptr
    }

    /// Reads all tokens up to the end of the text. The end marker is not
    /// among them.
    pub fn try_collect(&mut self) -> (r: Result<Vec<Token>, LexError>)
        ensures
            final(self).chars() == old(self).chars(),
            scan_all(old(self).chars(), old(self).position()) == tokens_read(r),
            r is Ok ==> final(self).position() >= final(self).chars().len(),
    {
        let ghost s = self.chars();
        let ghost goal = scan_all(s, self.position());
        let mut tokens: Vec<Token> = Vec::new();
        assert(views(tokens@) =~= Seq::<Tok>::empty());
        loop
            invariant
                self.chars() == s,
                s == old(self).chars(),
                goal == scan_all(s, old(self).position()),
                followed_by(views(tokens@), scan_all(s, self.position())) == goal,
            decreases s.len() - self.position(),
        {
            let ghost here = self.position();
            let ghost done = views(tokens@);
            proof {
                if here <= s.len() {
                    lemma_scan_advances(s, here);
                } else {
                    assert(trivia_end(s, here, false) == here);
                }
            }
            match self.next() {
                Err(e) => {
                    return Err(e);
                },
                Ok(Token::EOF) => {
                    assert(done + Seq::<Tok>::empty() =~= done);
                    return Ok(tokens);
                },
                Ok(token) => {
                    let ghost t = token@;
                    tokens.push(token);
                    proof {
                        assert(views(tokens@) =~= done.push(t));
                        match scan_all(s, self.position()) {
                            Ok(rest) => {
                                assert(done + (seq![t] + rest) =~= done.push(t) + rest);
                            },
                            Err(_) => {},
                        }
                    }
                },
            }
        }
    }

    /// Reads the next token. Blanks and comments before it are passed
    /// over. At the end of the text the end marker is given, each time.
    pub fn next(&mut self) -> (r: Result<Token, LexError>)
        ensures
            final(self).chars() == old(self).chars(),
            scan(old(self).chars(), old(self).position()) == (Scanned {
                result: token_read(r),
                next: final(self).position(),
            }),
    {
        let ghost s = self.chars();
        let ghost start = self.position();
        loop
            invariant
                self.chars() == s,
                s == old(self).chars(),
                start == old(self).position(),
                trivia_end(s, self.position(), false) == trivia_end(s, start, false),
            ensures
                self.position() < s.len() ==> !is_blank(s[self.position() as int])
                    && s[self.position() as int] != '#',
            decreases s.len() - self.position(),
        {
            proof {
                lemma_trivia_after_blanks(s, self.position());
            }
            self.skip_char();
            proof {
                lemma_trivia_after_comment(s, self.position());
            }
            match self.peek_char() {
                Some('#') => {
                    self.skip_comment();
                },
                _ => {
                    break ;
                },
            }
        }
        match self.peek_char() {
            None => Ok(Token::EOF),
            Some(ch) => {
                if digit(ch) {
                    Ok(self.next_number())
                } else if letter(ch) || ch == '_' {
                    Ok(self.next_identity())
                } else {
                    self.next_char();
                    match symbol_token(ch) {
                        Some(token) => Ok(token),
                        None => Err(LexError::InvalidSyntax(ch)),
                    }
                }
            },
        }
    }

    /// Appends to `cur` the digits at the current position.
    fn take_digits(&mut self, cur: &mut String)
        requires
            old(self).position() <= old(self).chars().len(),
        ensures
            final(self).chars() == old(self).chars(),
            final(self).position() == digits_end(old(self).chars(), old(self).position()),
            final(cur)@ == old(cur)@ + old(self).chars().subrange(
                old(self).position() as int,
                final(self).position() as int,
            ),
    {
        let ghost s = self.chars();
        let ghost start = self.position();
        proof {
            lemma_digits_end(s, start);
            assert(old(cur)@ + s.subrange(start as int, start as int) =~= old(cur)@);
        }
        while self.ptr < self.charvec.len() && digit(self.charvec[self.ptr])
            invariant
                self.chars() == s,
                start <= self.position() <= s.len(),
                digits_end(s, self.position()) == digits_end(s, start),
                cur@ == old(cur)@ + s.subrange(start as int, self.position() as int),
            decreases s.len() - self.position(),
        {
            let ghost before = self.position();
            cur.push(self.charvec[self.ptr]);
            self.ptr = self.ptr + 1;
            proof {
                assert(s.subrange(start as int, before as int).push(s[before as int])
                    =~= s.subrange(start as int, before as int + 1));
                assert((old(cur)@ + s.subrange(start as int, before as int)).push(
                    s[before as int],
                ) =~= old(cur)@ + s.subrange(start as int, before as int + 1));
            }
        }
    }

    /// Reads the numeral at the current position.
    fn next_number(&mut self) -> (r: Token)
        requires
            old(self).position() < old(self).chars().len(),
        ensures
            final(self).chars() == old(self).chars(),
            final(self).position() == numeral_end(old(self).chars(), old(self).position()),
            r@ == Tok::Number(
                old(self).chars().subrange(
                    old(self).position() as int,
                    final(self).position() as int,
                ),
            ),
    {
        let ghost s = self.chars();
        let ghost start = self.position();
        let mut cur = String::new();
        self.take_digits(&mut cur);
        let ghost whole = self.position();
        proof {
            lemma_digits_end(s, start);
            assert(cur@ =~= s.subrange(start as int, whole as int));
        }
        match self.peek_char() {
            Some('.') => {
                cur.push('.');
                self.next_char();
                proof {
                    lemma_digits_end(s, whole + 1);
                    assert(cur@ =~= s.subrange(start as int, whole as int + 1));
                }
                self.take_digits(&mut cur);
                proof {
                    assert(cur@ =~= s.subrange(start as int, self.position() as int));
                }
            },
            _ => {},
        }
        Token::NUMBER(cur)
    }

    /// Reads the name at the current position.
    fn next_identity(&mut self) -> (r: Token)
        requires
            old(self).position() < old(self).chars().len(),
        ensures
            final(self).chars() == old(self).chars(),
            e_before_digit(old(self).chars(), old(self).position()) ==> r@ == Tok::E
                && final(self).position() == old(self).position() + 1,
            !e_before_digit(old(self).chars(), old(self).position()) ==> final(self).position()
                == name_end(old(self).chars(), old(self).position()) && r@ == keyword(
                old(self).chars().subrange(
                    old(self).position() as int,
                    final(self).position() as int,
                ),
            ),
    {
        let ghost s = self.chars();
        let ghost start = self.position();
        let len = self.charvec.len();
        if self.charvec[self.ptr] == 'e' && self.ptr + 1 < len && digit(
            self.charvec[self.ptr + 1],
        ) {
            self.ptr = self.ptr + 1;
            return Token::E;
        }
        let mut cur = String::new();
        proof {
            lemma_name_end(s, start);
            assert(cur@ =~= s.subrange(start as int, start as int));
        }
        while self.ptr < self.charvec.len() && (letter(self.charvec[self.ptr]) || digit(
            self.charvec[self.ptr],
        ) || self.charvec[self.ptr] == '_')
            invariant
                self.chars() == s,
                start <= self.position() <= s.len(),
                name_end(s, self.position()) == name_end(s, start),
                cur@ == s.subrange(start as int, self.position() as int),
            decreases s.len() - self.position(),
        {
            let ghost before = self.position();
            cur.push(self.charvec[self.ptr]);
            self.ptr = self.ptr + 1;
            proof {
                assert(s.subrange(start as int, before as int).push(s[before as int])
                    =~= s.subrange(start as int, before as int + 1));
            }
        }
        proof {
            reveal_strlit("e");
            reveal_strlit("pi");
            assert("e"@ =~= seq!['e']);
            assert("pi"@ =~= seq!['p', 'i']);
        }
        if cur == String::from_str("e") {
            Token::E
        } else if cur == String::from_str("pi") {
            Token::PI
        } else {
            Token::ID(cur)
        }
    }

    /// Passes over the blanks at the current position.
    fn skip_char(&mut self)
        ensures
            final(self).chars() == old(self).chars(),
            final(self).position() == blanks_end(old(self).chars(), old(self).position()),
    {
        let ghost s = self.chars();
        let ghost start = self.position();
        while self.ptr < self.charvec.len() && blank(self.charvec[self.ptr])
            invariant
                self.chars() == s,
                blanks_end(s, self.position()) == blanks_end(s, start),
            decreases s.len() - self.position(),
        {
            self.ptr = self.ptr + 1;
        }
    }

    /// Passes over the comment that starts at the current position, if one
    /// does, and the line feed that ends it.
    fn skip_comment(&mut self)
        ensures
            final(self).chars() == old(self).chars(),
            final(self).position() == comment_end(old(self).chars(), old(self).position()),
    {
        let ghost s = self.chars();
        let ghost start = self.position();
        match self.peek_char() {
            Some('#') => {
                self.next_char();
                while self.ptr < self.charvec.len() && self.charvec[self.ptr] != '\n'
                    invariant
                        self.chars() == s,
                        line_end(s, self.position()) == line_end(s, start + 1),
                    decreases s.len() - self.position(),
                {
                    self.ptr = self.ptr + 1;
                }
                self.next_char();
            },
            _ => {},
        }
    }

    /// Passes the character at the current position, if the text reaches
    /// that far, and returns it.
    fn next_char(&mut self) -> (r: Option<char>)
        ensures
            final(self).chars() == old(self).chars(),
            r == if old(self).position() < old(self).chars().len() {
                Some(old(self).chars()[old(self).position() as int])
            } else {
                None
            },
            final(self).position() == if r is Some {
                old(self).position() + 1
            } else {
                old(self).position()
            },
    {
        if self.ptr < self.charvec.len() {
            let ch = self.charvec[self.ptr];
            self.ptr = self.ptr + 1;
            Some(ch)
        } else {
            None
        }
    }

    /// The character at the current position, if the text reaches that far.
    fn peek_char(&self) -> (r: Option<char>)
        ensures
            r == if self.position() < self.chars().len() {
                Some(self.chars()[self.position() as int])
            } else {
                None
            },
    {
        if self.ptr < self.charvec.len() {
            Some(self.charvec[self.ptr])
        } else {
            None
        }
    }
}

} // verus!
