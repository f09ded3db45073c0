//! The shape of the source text: which characters belong to which kind of
//! token, and where a token that starts at a given place ends.

use vstd::prelude::*;
use crate::error::Fault;
use crate::token::Tok;

verus! {

/// Blank characters: the space, the tab, the line feed, the form feed and
/// the carriage return.
pub open spec fn is_blank(c: char) -> bool {
    c == ' ' || c == '\t' || c == '\n' || c == '\u{c}' || c == '\r'
}

/// The ASCII digits.
pub open spec fn is_digit(c: char) -> bool {
    '0' <= c <= '9'
}

/// The ASCII letters.
pub open spec fn is_letter(c: char) -> bool {
    'a' <= c <= 'z' || 'A' <= c <= 'Z'
}

/// What may start an identifier: a letter or the underscore.
pub open spec fn starts_name(c: char) -> bool {
    is_letter(c) || c == '_'
}

/// What may continue an identifier: a letter, a digit or the underscore.
pub open spec fn continues_name(c: char) -> bool {
    is_letter(c) || is_digit(c) || c == '_'
}

/// The end of the longest run of digits that starts at `pos`.
pub open spec fn digits_end(s: Seq<char>, pos: nat) -> nat
    decreases s.len() - pos,
{
    if pos < s.len() && is_digit(s[pos as int]) {
        digits_end(s, pos + 1)
    } else {
        pos
    }
}

/// The end of the longest run of identifier characters that starts at `pos`.
pub open spec fn name_end(s: Seq<char>, pos: nat) -> nat
    decreases s.len() - pos,
{
    if pos < s.len() && continues_name(s[pos as int]) {
        name_end(s, pos + 1)
    } else {
        pos
    }
}

/// The end of the longest run of blanks that starts at `pos`.
pub open spec fn blanks_end(s: Seq<char>, pos: nat) -> nat
    decreases s.len() - pos,
{
    if pos < s.len() && is_blank(s[pos as int]) {
        blanks_end(s, pos + 1)
    } else {
        pos
    }
}

/// The position of the first line feed at or after `pos`, or the length of
/// the text if there is none.
pub open spec fn line_end(s: Seq<char>, pos: nat) -> nat
    decreases s.len() - pos,
{
    if pos < s.len() && s[pos as int] != '\n' {
        line_end(s, pos + 1)
    } else {
        pos
    }
}

/// Where the comment that starts at `pos` ends: behind the line feed that
/// closes it, or at the end of the text. Where no comment starts at `pos`,
/// this is `pos`.
pub open spec fn comment_end(s: Seq<char>, pos: nat) -> nat {
    if pos < s.len() && s[pos as int] == '#' {
        let stop = line_end(s, pos + 1);
        if stop < s.len() {
            stop + 1
        } else {
            stop
        }
    } else {
        pos
    }
}

/// The first position at or after `pos` that is neither blank nor inside a
/// comment, or the length of the text if there is none. A comment starts at
/// `#` and ends with the line; `in_comment` says whether `pos` lies in one.
pub open spec fn trivia_end(s: Seq<char>, pos: nat, in_comment: bool) -> nat
    decreases s.len() - pos,
{
    if pos >= s.len() {
        pos
    } else if in_comment {
        trivia_end(s, pos + 1, s[pos as int] != '\n')
    } else if is_blank(s[pos as int]) {
        trivia_end(s, pos + 1, false)
    } else if s[pos as int] == '#' {
        trivia_end(s, pos + 1, true)
    } else {
        pos
    }
}

/// The token that a name stands for: one of the two reserved names, or an
/// identifier.
pub open spec fn keyword(name: Seq<char>) -> Tok {
    if name == seq!['e'] {
        Tok::E
    } else if name == seq!['p', 'i'] {
        Tok::Pi
    } else {
        Tok::Id(name)
    }
}

/// The token that a single character makes, if it makes one.
pub open spec fn symbol(c: char) -> Option<Tok> {
    if c == '+' {
        Some(Tok::Plus)
    } else if c == '-' {
        Some(Tok::Minus)
    } else if c == '*' {
        Some(Tok::Mul)
    } else if c == '/' {
        Some(Tok::Div)
    } else if c == '(' {
        Some(Tok::LParen)
    } else if c == ')' {
        Some(Tok::RParen)
    } else if c == ',' {
        Some(Tok::Comma)
    } else if c == '.' {
        Some(Tok::Dot)
    } else if c == '=' {
        Some(Tok::Assign)
    } else if c == ';' {
        Some(Tok::Semi)
    } else {
        None
    }
}

/// A token, or the fault met in its place, and the position after it.
pub ghost struct Scanned {
    pub result: Result<Tok, Fault>,
    pub next: nat,
}

/// Where the numeral that starts at `pos` ends: after its digits, and after
/// a point and the digits behind it where a point follows.
pub open spec fn numeral_end(s: Seq<char>, pos: nat) -> nat {
    let whole = digits_end(s, pos);
    if whole < s.len() && s[whole as int] == '.' {
        digits_end(s, whole + 1)
    } else {
        whole
    }
}

/// Whether the character at `pos` is an `e` with a digit directly behind
/// it. Such an `e` is the reserved name by itself, whatever follows the
/// digit: `e5` reads as `e` and `5`.
pub open spec fn e_before_digit(s: Seq<char>, pos: nat) -> bool {
    &&& pos + 1 < s.len()
    &&& s[pos as int] == 'e'
    &&& is_digit(s[pos as int + 1])
}

/// The token that starts at `pos`, where `pos` is inside the text and
/// neither blank nor in a comment.
pub open spec fn token_here(s: Seq<char>, pos: nat) -> Scanned {
    let c = s[pos as int];
    if is_digit(c) {
        let end = numeral_end(s, pos);
        Scanned { result: Ok(Tok::Number(s.subrange(pos as int, end as int))), next: end }
    } else if starts_name(c) {
        if e_before_digit(s, pos) {
            Scanned { result: Ok(Tok::E), next: pos + 1 }
        } else {
            let end = name_end(s, pos);
            Scanned { result: Ok(keyword(s.subrange(pos as int, end as int))), next: end }
        }
    } else {
        match symbol(c) {
            Some(t) => Scanned { result: Ok(t), next: pos + 1 },
            None => Scanned { result: Err(Fault::InvalidSyntax(c)), next: pos + 1 },
        }
    }
}

/// The next token at or after `pos`: blanks and comments are passed over,
/// and the end of the text gives the end marker.
pub open spec fn scan(s: Seq<char>, pos: nat) -> Scanned {
    let start = trivia_end(s, pos, false);
    if start < s.len() {
        token_here(s, start)
    } else {
        Scanned { result: Ok(Tok::Eof), next: start }
    }
}

/// All tokens from `pos` to the end of the text, the end marker left out,
/// or the first fault.
///
/// The test `pos < one.next` always holds ([`lemma_scan_advances`]); it is
/// there for the recursion to be evidently well-founded.
pub open spec fn scan_all(s: Seq<char>, pos: nat) -> Result<Seq<Tok>, Fault>
    decreases s.len() - pos,
{
    let one = scan(s, pos);
    match one.result {
        Err(fault) => Err(fault),
        Ok(Tok::Eof) => Ok(Seq::empty()),
        Ok(t) => if pos < one.next <= s.len() {
            match scan_all(s, one.next) {
                Ok(rest) => Ok(seq![t] + rest),
                Err(fault) => Err(fault),
            }
        } else {
            Ok(seq![t])
        },
    }
}

/// A run of digits ends inside the text, on something that is no digit,
/// and holds digits only.
pub proof fn lemma_digits_end(s: Seq<char>, pos: nat)
    requires
        pos <= s.len(),
    ensures
        pos <= digits_end(s, pos) <= s.len(),
        digits_end(s, pos) < s.len() ==> !is_digit(s[digits_end(s, pos) as int]),
        forall|i: int| pos <= i < digits_end(s, pos) ==> is_digit(#[trigger] s[i]),
    decreases s.len() - pos,
{
    if pos < s.len() && is_digit(s[pos as int]) {
        lemma_digits_end(s, pos + 1);
    }
}

/// A run of identifier characters ends inside the text, on something that
/// continues no name, and holds identifier characters only.
pub proof fn lemma_name_end(s: Seq<char>, pos: nat)
    requires
        pos <= s.len(),
    ensures
        pos <= name_end(s, pos) <= s.len(),
        name_end(s, pos) < s.len() ==> !continues_name(s[name_end(s, pos) as int]),
        forall|i: int| pos <= i < name_end(s, pos) ==> continues_name(#[trigger] s[i]),
    decreases s.len() - pos,
{
    if pos < s.len() && continues_name(s[pos as int]) {
        lemma_name_end(s, pos + 1);
    }
}

/// Blanks and comments end inside the text, and outside a comment they end
/// on a character that is neither blank nor the start of a comment.
pub proof fn lemma_trivia_end(s: Seq<char>, pos: nat, in_comment: bool)
    requires
        pos <= s.len(),
    ensures
        pos <= trivia_end(s, pos, in_comment) <= s.len(),
        trivia_end(s, pos, in_comment) < s.len() ==> {
            let c = s[trivia_end(s, pos, in_comment) as int];
            !is_blank(c) && c != '#'
        },
    decreases s.len() - pos,
{
    if pos < s.len() {
        if in_comment {
            lemma_trivia_end(s, pos + 1, s[pos as int] != '\n');
        } else if is_blank(s[pos as int]) {
            lemma_trivia_end(s, pos + 1, false);
        } else if s[pos as int] == '#' {
            lemma_trivia_end(s, pos + 1, true);
        }
    }
}

/// Passing over a run of blanks does not change where blanks and comments
/// end.
pub proof fn lemma_trivia_after_blanks(s: Seq<char>, pos: nat)
    ensures
        pos <= blanks_end(s, pos),
        pos <= s.len() ==> blanks_end(s, pos) <= s.len(),
        blanks_end(s, pos) < s.len() ==> !is_blank(s[blanks_end(s, pos) as int]),
        trivia_end(s, blanks_end(s, pos), false) == trivia_end(s, pos, false),
    decreases s.len() - pos,
{
    if pos < s.len() && is_blank(s[pos as int]) {
        lemma_trivia_after_blanks(s, pos + 1);
    }
}

proof fn lemma_trivia_in_comment(s: Seq<char>, pos: nat)
    requires
        pos <= s.len(),
    ensures
        pos <= line_end(s, pos) <= s.len(),
        line_end(s, pos) < s.len() ==> s[line_end(s, pos) as int] == '\n',
        trivia_end(s, pos, true) == if line_end(s, pos) < s.len() {
            trivia_end(s, line_end(s, pos) + 1, false)
        } else {
            line_end(s, pos)
        },
    decreases s.len() - pos,
{
    if pos < s.len() && s[pos as int] != '\n' {
        lemma_trivia_in_comment(s, pos + 1);
    }
}

/// Passing over a comment does not change where blanks and comments end.
pub proof fn lemma_trivia_after_comment(s: Seq<char>, pos: nat)
    ensures
        pos <= comment_end(s, pos),
        pos <= s.len() ==> comment_end(s, pos) <= s.len(),
        pos < s.len() && s[pos as int] == '#' ==> pos < comment_end(s, pos),
        trivia_end(s, comment_end(s, pos), false) == trivia_end(s, pos, false),
{
    if pos < s.len() && s[pos as int] == '#' {
        lemma_trivia_in_comment(s, pos + 1);
    }
}

/// A token other than the end marker takes at least one character, and no
/// token reaches beyond the text.
pub proof fn lemma_scan_advances(s: Seq<char>, pos: nat)
    requires
        pos <= s.len(),
    ensures
        pos <= scan(s, pos).next <= s.len(),
        scan(s, pos).result != Ok::<Tok, Fault>(Tok::Eof) ==> pos < scan(s, pos).next,
        scan(s, pos).result == Ok::<Tok, Fault>(Tok::Eof) ==> scan(s, pos).next == s.len(),
{
    lemma_trivia_end(s, pos, false);
    let start = trivia_end(s, pos, false);
    if start < s.len() {
        lemma_digits_end(s, start);
        let whole = digits_end(s, start);
        if whole < s.len() {
            lemma_digits_end(s, whole + 1);
        }
        lemma_name_end(s, start);
    }
}

/// Whether the text is made of `k` digits, at least one, and then of
/// nothing, or of a point and digits, which may be none.
pub open spec fn is_numeral_of(text: Seq<char>, k: int) -> bool {
    &&& 1 <= k <= text.len()
    &&& forall|i: int| 0 <= i < k ==> is_digit(#[trigger] text[i])
    &&& k < text.len() ==> text[k] == '.'
    &&& forall|i: int| k < i < text.len() ==> is_digit(#[trigger] text[i])
}

/// Whether the text is a numeral: digits, at least one, and then nothing, or
/// a point and digits, which may be none.
pub open spec fn is_numeral(text: Seq<char>) -> bool {
    exists|k: int| #[trigger] is_numeral_of(text, k)
}

/// Whether the text is a name: a letter or an underscore, and then letters,
/// digits and underscores.
pub open spec fn is_name(text: Seq<char>) -> bool {
    &&& text.len() >= 1
    &&& starts_name(text[0])
    &&& forall|i: int| 0 <= i < text.len() ==> continues_name(#[trigger] text[i])
}

/// The text of a numeral token is a numeral, and the text of an identifier
/// token is a name that is not reserved.
pub proof fn lemma_token_shapes(s: Seq<char>, pos: nat)
    requires
        pos <= s.len(),
    ensures
        scan(s, pos).result matches Ok(Tok::Number(text)) ==> is_numeral(text),
        scan(s, pos).result matches Ok(Tok::Id(name)) ==> is_name(name) && name != seq!['e']
            && name != seq!['p', 'i'],
{
    lemma_trivia_end(s, pos, false);
    let start = trivia_end(s, pos, false);
    if start < s.len() {
        let c = s[start as int];
        if is_digit(c) {
            lemma_digits_end(s, start);
            let whole = digits_end(s, start);
            if whole < s.len() {
                lemma_digits_end(s, whole + 1);
            }
            let end = numeral_end(s, start);
            let text = s.subrange(start as int, end as int);
            let k = whole - start;
            assert forall|i: int| 0 <= i < k implies is_digit(#[trigger] text[i]) by {
                assert(text[i] == s[start + i]);
            }
            assert forall|i: int| k < i < text.len() implies is_digit(#[trigger] text[i]) by {
                assert(text[i] == s[start + i]);
            }
            if k < text.len() {
                assert(text[k] == s[whole as int]);
            }
            assert(is_numeral_of(text, k));
        } else if starts_name(c) && !e_before_digit(s, start) {
            lemma_name_end(s, start);
            let end = name_end(s, start);
            let name = s.subrange(start as int, end as int);
            assert forall|i: int| 0 <= i < name.len() implies continues_name(
                #[trigger] name[i],
            ) by {
                assert(name[i] == s[start + i]);
            }
            assert(name[0] == c);
        }
    }
}

/// Once the end marker has been given, it is given again from where the
/// scan stopped, and from every position behind the text.
pub proof fn lemma_end_is_final(s: Seq<char>, pos: nat)
    ensures
        scan(s, pos).result == Ok::<Tok, Fault>(Tok::Eof) ==> scan(s, scan(s, pos).next) == scan(
            s,
            pos,
        ),
        pos >= s.len() ==> scan(s, pos) == (Scanned { result: Ok(Tok::Eof), next: pos }),
{
    if pos <= s.len() {
        lemma_scan_advances(s, pos);
    }
}

} // verus!
