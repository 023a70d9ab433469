//! Lexical scanning of Nova source text.
use vstd::prelude::*;
use crate::token::{Span, Token, TokenKind};
use crate::text::{concat, position_text, push_position};

verus! {

/// A token kind as plain values.
pub enum KindView {
    /// A kind that carries no value.
    Simple(TokenKind),
    Ident(Seq<char>),
    Int(i64),
    Float(Seq<char>),
    Str(Seq<char>),
}

/// The plain-value view of a token kind.
pub open spec fn kind_view(k: TokenKind) -> KindView {
    match k {
        TokenKind::Ident(s) => KindView::Ident(s@),
        TokenKind::Int(v) => KindView::Int(v),
        TokenKind::Float(s) => KindView::Float(s@),
        TokenKind::Str(s) => KindView::Str(s@),
        _ => KindView::Simple(k),
    }
}

/// The plain-value view of a token.
pub open spec fn token_view(t: Token) -> (KindView, Span) {
    (kind_view(t.kind), t.span)
}

/// Line and column (both from 1) after reading the first `i` characters:
/// a newline starts the next line at column 1, any other character moves
/// one column on.
pub open spec fn lc_at(cs: Seq<char>, i: nat) -> (nat, nat)
    decreases i,
{
    if i == 0 {
        (1, 1)
    } else {
        let (l, c) = lc_at(cs, (i - 1) as nat);
        if cs[i - 1] == '\n' { (l + 1, 1) } else { (l, c + 1) }
    }
}

/// Line and column never exceed the characters read, plus one.
pub proof fn lemma_lc_bounds(cs: Seq<char>, i: nat)
    ensures
        1 <= lc_at(cs, i).0 <= i + 1,
        1 <= lc_at(cs, i).1 <= i + 1,
    decreases i,
{
    if i > 0 {
        lemma_lc_bounds(cs, (i - 1) as nat);
    }
}

/// The span of a token starting after `i` characters, of length `len`.
/// The position `line:col` of character `i`, as messages give it.
pub open spec fn pos_at(cs: Seq<char>, i: nat) -> Seq<char> {
    position_text(lc_at(cs, i).0, lc_at(cs, i).1)
}

/// The message for a character that starts no token.
pub open spec fn unexpected_char_msg(cs: Seq<char>, i: nat) -> Seq<char> {
    "Unexpected character '"@ + seq![cs[i as int]] + "' at "@ + pos_at(cs, i)
}

/// The message for a block comment that starts at `i` and never ends.
pub open spec fn unterminated_comment_msg(cs: Seq<char>, i: nat) -> Seq<char> {
    "Unterminated block comment starting at "@ + pos_at(cs, i)
}

/// The message for a hexadecimal or binary literal at `i` without digits
/// or too large.
pub open spec fn radix_literal_msg(cs: Seq<char>, i: nat, hex: bool, no_digits: bool) -> Seq<char> {
    (if hex { "Invalid hex literal at "@ } else { "Invalid binary literal at "@ }) + pos_at(cs, i) + if no_digits {
        ": cannot parse integer from empty string"@
    } else {
        ": number too large to fit in target type"@
    }
}

/// The message for a decimal integer at `i` too large for `i64`.
pub open spec fn invalid_int_msg(cs: Seq<char>, i: nat) -> Seq<char> {
    "Invalid integer at "@ + pos_at(cs, i) + ": number too large to fit in target type"@
}

/// The message for a number at `i` that does not scan.
pub open spec fn number_error(cs: Seq<char>, i: nat) -> Seq<char> {
    if cs[i as int] == '0' && i + 1 < cs.len() && (cs[i + 1 as int] == 'x' || cs[i + 1 as int] == 'X' || cs[i + 1 as int] == 'b' || cs[i + 1 as int] == 'B') {
        let hex = cs[i + 1 as int] == 'x' || cs[i + 1 as int] == 'X';
        radix_literal_msg(cs, i, hex, radix_digits(cs, i + 2, if hex { 16 } else { 2 }).0.len() == 0)
    } else {
        invalid_int_msg(cs, i)
    }
}

/// Whether a string literal whose content starts at `j` fails because the
/// text ends right after a backslash.
pub open spec fn str_escape_fails(cs: Seq<char>, j: nat) -> bool
    decreases cs.len() - j,
{
    if j >= cs.len() || cs[j as int] == '"' {
        false
    } else if cs[j as int] == '\\' {
        if j + 1 >= cs.len() { true } else { str_escape_fails(cs, j + 2) }
    } else {
        str_escape_fails(cs, j + 1)
    }
}

/// The message for a string literal opening at `i` that does not close.
pub open spec fn string_error(cs: Seq<char>, i: nat) -> Seq<char> {
    if str_escape_fails(cs, i + 1) {
        "Unterminated escape at "@ + pos_at(cs, cs.len())
    } else {
        "Unterminated string literal starting at "@ + pos_at(cs, i)
    }
}

pub open spec fn span_at(cs: Seq<char>, i: nat, len: nat) -> Span {
    Span { line: lc_at(cs, i).0 as usize, col: lc_at(cs, i).1 as usize, len: len as usize }
}

/// Unicode white space (the `White_Space` property, as `char::is_whitespace`
/// documents it).
pub open spec fn is_ws(c: char) -> bool {
    let u = c as u32;
    (0x09 <= u <= 0x0D) || u == 0x20 || u == 0x85 || u == 0xA0 || u == 0x1680
        || (0x2000 <= u <= 0x200A) || u == 0x2028 || u == 0x2029 || u == 0x202F
        || u == 0x205F || u == 0x3000
}

pub open spec fn is_alpha(c: char) -> bool {
    ('a' <= c <= 'z') || ('A' <= c <= 'Z')
}

pub open spec fn is_digit(c: char) -> bool {
    '0' <= c <= '9'
}

pub open spec fn is_hex_digit(c: char) -> bool {
    is_digit(c) || ('a' <= c <= 'f') || ('A' <= c <= 'F')
}

/// Characters that may continue an identifier.
pub open spec fn is_ident_char(c: char) -> bool {
    is_alpha(c) || is_digit(c) || c == '_'
}

/// The value of a decimal or hexadecimal digit.
pub open spec fn digit_val(c: char) -> nat {
    if is_digit(c) {
        (c as u32 - '0' as u32) as nat
    } else if 'a' <= c <= 'f' {
        (c as u32 - 'a' as u32 + 10) as nat
    } else {
        (c as u32 - 'A' as u32 + 10) as nat
    }
}

/// The value of digits in the given radix, most significant first.
pub open spec fn digits_value(ds: Seq<char>, radix: nat) -> nat
    decreases ds.len(),
{
    if ds.len() == 0 {
        0
    } else {
        digits_value(ds.drop_last(), radix) * radix + digit_val(ds.last())
    }
}

/// The index of the first character from `j` on that is not an identifier
/// character.
pub open spec fn ident_end(cs: Seq<char>, j: nat) -> nat
    decreases cs.len() - j,
{
    if j < cs.len() && is_ident_char(cs[j as int]) { ident_end(cs, j + 1) } else { j }
}

/// The index of the first newline from `j` on, or the end.
pub open spec fn line_end(cs: Seq<char>, j: nat) -> nat
    decreases cs.len() - j,
{
    if j < cs.len() && cs[j as int] != '\n' { line_end(cs, j + 1) } else { j }
}

/// The index just after the first `*/` from `j` on, if any.
pub open spec fn block_comment_end(cs: Seq<char>, j: nat) -> Option<nat>
    decreases cs.len() - j,
{
    if j >= cs.len() {
        None
    } else if cs[j as int] == '*' && j + 1 < cs.len() && cs[j + 1 as int] == '/' {
        Some(j + 2)
    } else {
        block_comment_end(cs, j + 1)
    }
}

/// Whether `c` is a digit of the radix (16 or 2).
pub open spec fn is_radix_digit(c: char, radix: nat) -> bool {
    if radix == 16 { is_hex_digit(c) } else { c == '0' || c == '1' }
}

/// The digits from `j` on in the radix, `_` separators allowed and left
/// out, and where they end.
pub open spec fn radix_digits(cs: Seq<char>, j: nat, radix: nat) -> (Seq<char>, nat)
    decreases cs.len() - j,
{
    if j < cs.len() && (is_radix_digit(cs[j as int], radix) || cs[j as int] == '_') {
        let (d, e) = radix_digits(cs, j + 1, radix);
        (if cs[j as int] == '_' { d } else { seq![cs[j as int]] + d }, e)
    } else {
        (Seq::empty(), j)
    }
}

/// The text of a decimal literal from `j` on: digits, at most one `.` that
/// a digit follows, `_` separators left out; whether it has a `.`, and
/// where it ends.
pub open spec fn dec_scan(cs: Seq<char>, j: nat, is_float: bool) -> (Seq<char>, bool, nat)
    decreases cs.len() - j,
{
    if j >= cs.len() {
        (Seq::empty(), is_float, j)
    } else if is_digit(cs[j as int]) {
        let (t, f, e) = dec_scan(cs, j + 1, is_float);
        (seq![cs[j as int]] + t, f, e)
    } else if cs[j as int] == '.' && !is_float && j + 1 < cs.len() && is_digit(cs[j + 1 as int]) {
        let (t, f, e) = dec_scan(cs, j + 1, true);
        (seq!['.'] + t, f, e)
    } else if cs[j as int] == '_' {
        dec_scan(cs, j + 1, is_float)
    } else {
        (Seq::empty(), is_float, j)
    }
}

/// The number token at `i` (a digit): its kind, the length its span gives
/// and where it ends; nothing when the literal is empty (`0x` with no digit)
/// or does not fit in `i64`. `0x`/`0X` starts hexadecimal and `0b`/`0B`
/// binary; otherwise a decimal with a `.` is a float.
pub open spec fn number_token(cs: Seq<char>, i: nat) -> Option<(KindView, nat, nat)> {
    if cs[i as int] == '0' && i + 1 < cs.len() && (cs[i + 1 as int] == 'x' || cs[i + 1 as int] == 'X' || cs[i + 1 as int] == 'b' || cs[i + 1 as int] == 'B') {
        let radix: nat = if cs[i + 1 as int] == 'x' || cs[i + 1 as int] == 'X' { 16 } else { 2 };
        let (ds, e) = radix_digits(cs, i + 2, radix);
        if ds.len() == 0 || digits_value(ds, radix) > i64::MAX {
            None
        } else {
            Some((KindView::Int(digits_value(ds, radix) as i64), ds.len() + 2, e))
        }
    } else {
        let (t, f, e) = dec_scan(cs, i, false);
        if f {
            Some((KindView::Float(t), t.len(), e))
        } else if digits_value(t, 10) > i64::MAX {
            None
        } else {
            Some((KindView::Int(digits_value(t, 10) as i64), t.len(), e))
        }
    }
}

/// The character an escape `\c` stands for.
pub open spec fn escape_char(c: char) -> char {
    if c == 'n' { '\n' } else if c == 't' { '\t' } else if c == 'r' { '\r' } else if c == '0' { '\0' } else { c }
}

/// The escapes of string literals stand for the characters of the same
/// name: `\n` line feed (10), `\t` tab (9), `\r` carriage return (13), `\0`
/// the null character; any other escaped character stands for itself.
pub proof fn lemma_escape_meaning(c: char)
    ensures
        c == 'n' ==> escape_char(c) as u32 == 10,
        c == 't' ==> escape_char(c) as u32 == 9,
        c == 'r' ==> escape_char(c) as u32 == 13,
        c == '0' ==> escape_char(c) as u32 == 0,
        c != 'n' && c != 't' && c != 'r' && c != '0' ==> escape_char(c) == c,
{
}

/// The content of a string literal whose opening quote precedes `j`, and
/// the index just after its closing quote; nothing when it is unterminated.
pub open spec fn str_scan(cs: Seq<char>, j: nat) -> Option<(Seq<char>, nat)>
    decreases cs.len() - j,
{
    if j >= cs.len() {
        None
    } else if cs[j as int] == '"' {
        Some((Seq::empty(), j + 1))
    } else if cs[j as int] == '\\' {
        if j + 1 >= cs.len() {
            None
        } else {
            match str_scan(cs, j + 2) {
                Some((t, e)) => Some((seq![escape_char(cs[j + 1 as int])] + t, e)),
                None => None,
            }
        }
    } else {
        match str_scan(cs, j + 1) {
            Some((t, e)) => Some((seq![cs[j as int]] + t, e)),
            None => None,
        }
    }
}

/// The number of bytes of the UTF-8 encoding of a character.
pub open spec fn utf8_width(c: char) -> nat {
    let u = c as u32;
    if u < 0x80 { 1 } else if u < 0x800 { 2 } else if u < 0x10000 { 3 } else { 4 }
}

/// The number of bytes of the UTF-8 encoding of characters.
pub open spec fn utf8_len(s: Seq<char>) -> nat
    decreases s.len(),
{
    if s.len() == 0 { 0 } else { utf8_len(s.drop_last()) + utf8_width(s.last()) }
}

/// The operator or delimiter at `i` and its length in characters, if any.
pub open spec fn op_token(cs: Seq<char>, i: nat) -> Option<(TokenKind, nat)> {
    let c = cs[i as int];
    let nx = if i + 1 < cs.len() { Some(cs[i + 1 as int]) } else { None };
    if c == '+' {
        if nx == Some('=') { Some((TokenKind::PlusEq, 2)) } else { Some((TokenKind::Plus, 1)) }
    } else if c == '-' {
        if nx == Some('>') { Some((TokenKind::Arrow, 2)) } else if nx == Some('=') { Some((TokenKind::MinusEq, 2)) } else { Some((TokenKind::Minus, 1)) }
    } else if c == '*' {
        if nx == Some('=') { Some((TokenKind::StarEq, 2)) } else { Some((TokenKind::Star, 1)) }
    } else if c == '/' {
        if nx == Some('=') { Some((TokenKind::SlashEq, 2)) } else { Some((TokenKind::Slash, 1)) }
    }
    else if c == '%' { Some((TokenKind::Percent, 1)) }
    else if c == '=' {
        if nx == Some('=') { Some((TokenKind::EqEq, 2)) } else { Some((TokenKind::Eq, 1)) }
    } else if c == '!' {
        if nx == Some('=') { Some((TokenKind::BangEq, 2)) } else { Some((TokenKind::Bang, 1)) }
    } else if c == '<' {
        if nx == Some('=') { Some((TokenKind::LtEq, 2)) } else if nx == Some('<') { Some((TokenKind::Shl, 2)) } else { Some((TokenKind::Lt, 1)) }
    } else if c == '>' {
        if nx == Some('=') { Some((TokenKind::GtEq, 2)) } else if nx == Some('>') { Some((TokenKind::Shr, 2)) } else { Some((TokenKind::Gt, 1)) }
    } else if c == '&' {
        if nx == Some('&') { Some((TokenKind::AndAnd, 2)) } else { Some((TokenKind::Amp, 1)) }
    } else if c == '|' {
        if nx == Some('|') { Some((TokenKind::OrOr, 2)) } else { Some((TokenKind::Pipe, 1)) }
    }
    else if c == '^' { Some((TokenKind::Caret, 1)) }
    else if c == '(' { Some((TokenKind::LParen, 1)) }
    else if c == ')' { Some((TokenKind::RParen, 1)) }
    else if c == '{' { Some((TokenKind::LBrace, 1)) }
    else if c == '}' { Some((TokenKind::RBrace, 1)) }
    else if c == '[' { Some((TokenKind::LBracket, 1)) }
    else if c == ']' { Some((TokenKind::RBracket, 1)) }
    else if c == ';' { Some((TokenKind::Semicolon, 1)) }
    else if c == ':' { Some((TokenKind::Colon, 1)) }
    else if c == ',' { Some((TokenKind::Comma, 1)) }
    else if c == '@' { Some((TokenKind::At, 1)) }
    else { None }
}

/// The keyword a word spells, if any.
pub open spec fn keyword_kind(w: Seq<char>) -> Option<TokenKind> {
    if w == seq!['f', 'n'] { Some(TokenKind::Fn) }
    else if w == seq!['l', 'e', 't'] { Some(TokenKind::Let) }
    else if w == seq!['m', 'u', 't'] { Some(TokenKind::Mut) }
    else if w == seq!['i', 'f'] { Some(TokenKind::If) }
    else if w == seq!['e', 'l', 's', 'e'] { Some(TokenKind::Else) }
    else if w == seq!['w', 'h', 'i', 'l', 'e'] { Some(TokenKind::While) }
    else if w == seq!['r', 'e', 't', 'u', 'r', 'n'] { Some(TokenKind::Return) }
    else if w == seq!['e', 'x', 'p', 'o', 'r', 't'] { Some(TokenKind::Export) }
    else if w == seq!['i', 'm', 'p', 'o', 'r', 't'] { Some(TokenKind::Import) }
    else if w == seq!['m', 'e', 'm', 'o', 'r', 'y'] { Some(TokenKind::Memory) }
    else if w == seq!['t', 'r', 'u', 'e'] { Some(TokenKind::True) }
    else if w == seq!['f', 'a', 'l', 's', 'e'] { Some(TokenKind::False) }
    else if w == seq!['b', 'r', 'e', 'a', 'k'] { Some(TokenKind::Break) }
    else if w == seq!['i', '3', '2'] { Some(TokenKind::TypeI32) }
    else if w == seq!['i', '6', '4'] { Some(TokenKind::TypeI64) }
    else if w == seq!['f', '3', '2'] { Some(TokenKind::TypeF32) }
    else if w == seq!['f', '6', '4'] { Some(TokenKind::TypeF64) }
    else if w == seq!['b', 'o', 'o', 'l'] { Some(TokenKind::TypeBool) }
    else if w == seq!['v', 'o', 'i', 'd'] { Some(TokenKind::TypeVoid) }
    else { None }
}

/// The kind of the word token `w`: a keyword or an identifier.
pub open spec fn word_kind(w: Seq<char>) -> KindView {
    match keyword_kind(w) {
        Some(k) => KindView::Simple(k),
        None => KindView::Ident(w),
    }
}

pub proof fn lemma_ident_end(cs: Seq<char>, j: nat)
    ensures
        j <= ident_end(cs, j) <= if j <= cs.len() { cs.len() } else { j },
        forall|k: int| j <= k < ident_end(cs, j) ==> is_ident_char(#[trigger] cs[k]),
        ident_end(cs, j) < cs.len() ==> !is_ident_char(cs[ident_end(cs, j) as int]),
    decreases cs.len() - j,
{
    if j < cs.len() && is_ident_char(cs[j as int]) {
        lemma_ident_end(cs, j + 1);
    }
}

pub proof fn lemma_line_end(cs: Seq<char>, j: nat)
    ensures
        j <= line_end(cs, j),
        j <= cs.len() ==> line_end(cs, j) <= cs.len(),
    decreases cs.len() - j,
{
    if j < cs.len() && cs[j as int] != '\n' {
        lemma_line_end(cs, j + 1);
    }
}

pub proof fn lemma_block_comment_end(cs: Seq<char>, j: nat)
    ensures
        block_comment_end(cs, j) matches Some(e) ==> j + 2 <= e <= cs.len(),
    decreases cs.len() - j,
{
    if j < cs.len() && !(cs[j as int] == '*' && j + 1 < cs.len() && cs[j + 1 as int] == '/') {
        lemma_block_comment_end(cs, j + 1);
    }
}

pub proof fn lemma_radix_digits(cs: Seq<char>, j: nat, radix: nat)
    ensures
        j <= radix_digits(cs, j, radix).1,
        j <= cs.len() ==> radix_digits(cs, j, radix).1 <= cs.len(),
        radix_digits(cs, j, radix).0.len() <= radix_digits(cs, j, radix).1 - j,
    decreases cs.len() - j,
{
    if j < cs.len() && (is_radix_digit(cs[j as int], radix) || cs[j as int] == '_') {
        lemma_radix_digits(cs, j + 1, radix);
    }
}

pub proof fn lemma_dec_scan(cs: Seq<char>, j: nat, f: bool)
    ensures
        j <= dec_scan(cs, j, f).2,
        j <= cs.len() ==> dec_scan(cs, j, f).2 <= cs.len(),
        dec_scan(cs, j, f).0.len() <= dec_scan(cs, j, f).2 - j,
        j < cs.len() && is_digit(cs[j as int]) ==> j < dec_scan(cs, j, f).2 && dec_scan(cs, j, f).0.len() > 0,
    decreases cs.len() - j,
{
    if j < cs.len() {
        if is_digit(cs[j as int]) {
            lemma_dec_scan(cs, j + 1, f);
        } else if cs[j as int] == '.' && !f && j + 1 < cs.len() && is_digit(cs[j + 1 as int]) {
            lemma_dec_scan(cs, j + 1, true);
        } else if cs[j as int] == '_' {
            lemma_dec_scan(cs, j + 1, f);
        }
    }
}

pub proof fn lemma_str_scan(cs: Seq<char>, j: nat)
    ensures
        str_scan(cs, j) matches Some((t, e)) ==> j < e <= cs.len() && t.len() <= e - j,
    decreases cs.len() - j,
{
    if j < cs.len() && cs[j as int] != '"' {
        if cs[j as int] == '\\' {
            if j + 1 < cs.len() {
                lemma_str_scan(cs, j + 2);
            }
        } else {
            lemma_str_scan(cs, j + 1);
        }
    }
}

pub proof fn lemma_number_token(cs: Seq<char>, i: nat)
    requires
        i < cs.len(),
        is_digit(cs[i as int]),
    ensures
        number_token(cs, i) matches Some((k, n, e)) ==> i < e <= cs.len() && n <= e - i,
{
    lemma_dec_scan(cs, i, false);
    lemma_radix_digits(cs, i + 2, 16);
    lemma_radix_digits(cs, i + 2, 2);
}

/// Prepending a token to a scan result.
pub open spec fn cons_token(t: (KindView, Span), rest: Option<Seq<(KindView, Span)>>) -> Option<Seq<(KindView, Span)>> {
    match rest {
        Some(r) => Some(seq![t] + r),
        None => None,
    }
}

/// The tokens of the characters from `i` on, ending with `Eof`, or nothing
/// when the text holds an error (an unterminated comment or string, an
/// invalid number, an unexpected character). White space and comments
/// separate tokens; identifiers, numbers and operators take the longest
/// match.
pub open spec fn lex_from(cs: Seq<char>, i: nat) -> Option<Seq<(KindView, Span)>>
    decreases cs.len() - i,
{
    if i >= cs.len() {
        Some(seq![(KindView::Simple(TokenKind::Eof), span_at(cs, i, 0))])
    } else {
        let c = cs[i as int];
        let nx = if i + 1 < cs.len() { Some(cs[i + 1 as int]) } else { None };
        if is_ws(c) {
            lex_from(cs, i + 1)
        } else if c == '/' && nx == Some('/') {
            proof { lemma_line_end(cs, i + 2); }
            lex_from(cs, line_end(cs, i + 2))
        } else if c == '/' && nx == Some('*') {
            proof { lemma_block_comment_end(cs, i + 2); }
            match block_comment_end(cs, i + 2) {
                Some(e) => lex_from(cs, e),
                None => None,
            }
        } else if is_alpha(c) || c == '_' {
            proof { lemma_ident_end(cs, i); }
            let e = ident_end(cs, i);
            let w = cs.subrange(i as int, e as int);
            cons_token((word_kind(w), span_at(cs, i, w.len())), lex_from(cs, e))
        } else if is_digit(c) {
            proof { lemma_number_token(cs, i); }
            match number_token(cs, i) {
                Some((k, n, e)) => cons_token((k, span_at(cs, i, n)), lex_from(cs, e)),
                None => None,
            }
        } else if c == '"' {
            proof { lemma_str_scan(cs, i + 1); }
            match str_scan(cs, i + 1) {
                Some((t, e)) => cons_token((KindView::Str(t), span_at(cs, i, utf8_len(t) + 2)), lex_from(cs, e)),
                None => None,
            }
        } else {
            match op_token(cs, i) {
                Some((k, n)) => cons_token((KindView::Simple(k), span_at(cs, i, n)), lex_from(cs, i + n)),
                None => None,
            }
        }
    }
}

/// The message scanning from `i` fails with: that of the first error, as
/// `lex_from` meets it.
pub open spec fn lex_error(cs: Seq<char>, i: nat) -> Seq<char>
    decreases cs.len() - i,
{
    if i >= cs.len() {
        Seq::empty()
    } else {
        let c = cs[i as int];
        let nx = if i + 1 < cs.len() { Some(cs[i + 1 as int]) } else { None };
        if is_ws(c) {
            lex_error(cs, i + 1)
        } else if c == '/' && nx == Some('/') {
            proof { lemma_line_end(cs, i + 2); }
            lex_error(cs, line_end(cs, i + 2))
        } else if c == '/' && nx == Some('*') {
            proof { lemma_block_comment_end(cs, i + 2); }
            match block_comment_end(cs, i + 2) {
                Some(e) => lex_error(cs, e),
                None => unterminated_comment_msg(cs, i),
            }
        } else if is_alpha(c) || c == '_' {
            proof { lemma_ident_end(cs, i); }
            lex_error(cs, ident_end(cs, i))
        } else if is_digit(c) {
            proof { lemma_number_token(cs, i); }
            match number_token(cs, i) {
                Some((k, n, e)) => lex_error(cs, e),
                None => number_error(cs, i),
            }
        } else if c == '"' {
            proof { lemma_str_scan(cs, i + 1); }
            match str_scan(cs, i + 1) {
                Some((t, e)) => lex_error(cs, e),
                None => string_error(cs, i),
            }
        } else {
            match op_token(cs, i) {
                Some((k, n)) => lex_error(cs, i + n),
                None => unexpected_char_msg(cs, i),
            }
        }
    }
}

/// `a` starts before `b` in the text: on an earlier line, or on the same
/// line at an earlier column.
pub open spec fn span_before(a: Span, b: Span) -> bool {
    a.line < b.line || (a.line == b.line && a.col < b.col)
}

/// Reading more characters moves the position strictly on.
proof fn lemma_lc_increasing(cs: Seq<char>, i: nat, j: nat)
    requires
        i < j <= cs.len(),
    ensures
        lc_at(cs, i).0 < lc_at(cs, j).0 || (lc_at(cs, i).0 == lc_at(cs, j).0 && lc_at(cs, i).1 < lc_at(cs, j).1),
    decreases j,
{
    if j > i + 1 {
        lemma_lc_increasing(cs, i, (j - 1) as nat);
    }
}

proof fn lemma_op_token_len(cs: Seq<char>, i: nat)
    requires
        i < cs.len(),
    ensures
        op_token(cs, i) matches Some((k, n)) ==> 1 <= n && i + n <= cs.len(),
{
}

/// The tokens of a successful scan start at strictly increasing positions,
/// the first of them no earlier than where the scan starts.
pub proof fn lemma_token_starts_increase(cs: Seq<char>, i: nat)
    requires
        cs.len() < usize::MAX,
        i <= cs.len(),
    ensures
        lex_from(cs, i) matches Some(s) ==> {
            &&& s.len() > 0
            &&& !span_before(s[0].1, span_at(cs, i, 0))
            &&& forall|k: int| 0 <= k < s.len() - 1 ==> span_before(#[trigger] s[k].1, s[k + 1].1)
        },
    decreases cs.len() - i,
{
    lemma_lc_bounds(cs, i);
    if i < cs.len() {
        let c = cs[i as int];
        let nx = if i + 1 < cs.len() { Some(cs[i + 1 as int]) } else { None };
        let mut e: nat = i + 1;
        let mut tok: Option<(KindView, Span)> = None;
        if is_ws(c) {
            e = i + 1;
        } else if c == '/' && nx == Some('/') {
            lemma_line_end(cs, i + 2);
            e = line_end(cs, i + 2);
        } else if c == '/' && nx == Some('*') {
            lemma_block_comment_end(cs, i + 2);
            match block_comment_end(cs, i + 2) {
                Some(x) => { e = x; },
                None => { return; },
            }
        } else if is_alpha(c) || c == '_' {
            lemma_ident_end(cs, i);
            e = ident_end(cs, i);
            let w = cs.subrange(i as int, e as int);
            tok = Some((word_kind(w), span_at(cs, i, w.len())));
        } else if is_digit(c) {
            lemma_number_token(cs, i);
            match number_token(cs, i) {
                Some((k, n, x)) => {
                    e = x;
                    tok = Some((k, span_at(cs, i, n)));
                },
                None => { return; },
            }
        } else if c == '"' {
            lemma_str_scan(cs, i + 1);
            match str_scan(cs, i + 1) {
                Some((t, x)) => {
                    e = x;
                    tok = Some((KindView::Str(t), span_at(cs, i, utf8_len(t) + 2)));
                },
                None => { return; },
            }
        } else {
            lemma_op_token_len(cs, i);
            match op_token(cs, i) {
                Some((k, n)) => {
                    e = i + n;
                    tok = Some((KindView::Simple(k), span_at(cs, i, n)));
                },
                None => { return; },
            }
        }
        assert(i < e <= cs.len());
        lemma_token_starts_increase(cs, e);
        lemma_lc_increasing(cs, i, e);
        lemma_lc_bounds(cs, e);
        match tok {
            Some(t) => {
                assert(lex_from(cs, i) == cons_token(t, lex_from(cs, e)));
                if let Some(r) = lex_from(cs, e) {
                    let s = seq![t] + r;
                    assert forall|k: int| 0 <= k < s.len() - 1 implies span_before(#[trigger] s[k].1, s[k + 1].1) by {
                        if k > 0 {
                            assert(s[k] == r[k - 1]);
                            assert(s[k + 1] == r[k]);
                        }
                    }
                }
            },
            None => {
                assert(lex_from(cs, i) == lex_from(cs, e));
            },
        }
    }
}

/// A successful scan ends with `Eof`, and no other token of it is `Eof`.
pub proof fn lemma_lex_ends_with_eof(cs: Seq<char>, i: nat)
    ensures
        lex_from(cs, i) matches Some(s) ==> {
            &&& s.len() > 0
            &&& s.last().0 == KindView::Simple(TokenKind::Eof)
            &&& forall|k: int| 0 <= k < s.len() - 1 ==> s[k].0 != KindView::Simple(TokenKind::Eof)
        },
    decreases cs.len() - i,
{
    if i < cs.len() {
        let c = cs[i as int];
        let nx = if i + 1 < cs.len() { Some(cs[i + 1 as int]) } else { None };
        if is_ws(c) {
            lemma_lex_ends_with_eof(cs, i + 1);
        } else if c == '/' && nx == Some('/') {
            lemma_line_end(cs, i + 2);
            lemma_lex_ends_with_eof(cs, line_end(cs, i + 2));
        } else if c == '/' && nx == Some('*') {
            lemma_block_comment_end(cs, i + 2);
            if let Some(e) = block_comment_end(cs, i + 2) {
                lemma_lex_ends_with_eof(cs, e);
            }
        } else {
            let next: Option<(KindView, nat)> = if is_alpha(c) || c == '_' {
                lemma_ident_end(cs, i);
                let e = ident_end(cs, i);
                Some((word_kind(cs.subrange(i as int, e as int)), e))
            } else if is_digit(c) {
                lemma_number_token(cs, i);
                match number_token(cs, i) {
                    Some((k, n, e)) => Some((k, e)),
                    None => None,
                }
            } else if c == '"' {
                lemma_str_scan(cs, i + 1);
                match str_scan(cs, i + 1) {
                    Some((t, e)) => Some((KindView::Str(t), e)),
                    None => None,
                }
            } else {
                match op_token(cs, i) {
                    Some((k, n)) => Some((KindView::Simple(k), i + n)),
                    None => None,
                }
            };
            if let Some((k, e)) = next {
                assert(e > i);
                lemma_lex_ends_with_eof(cs, e);
                assert(k != KindView::Simple(TokenKind::Eof));
                if let Some(rest) = lex_from(cs, e) {
                    let s = lex_from(cs, i)->0;
                    assert(s == seq![s[0]] + rest);
                    assert forall|q: int| 0 <= q < s.len() - 1 implies s[q].0 != KindView::Simple(TokenKind::Eof) by {
                        if q > 0 {
                            assert(s[q] == rest[q - 1]);
                        }
                    }
                }
            }
        }
    }
}

fn is_whitespace(c: char) -> (r: bool)
    ensures
        r == is_ws(c),
{
    let u = c as u32;
    (0x09 <= u && u <= 0x0D) || u == 0x20 || u == 0x85 || u == 0xA0 || u == 0x1680
        || (0x2000 <= u && u <= 0x200A) || u == 0x2028 || u == 0x2029 || u == 0x202F
        || u == 0x205F || u == 0x3000
}

fn is_ascii_alphabetic(c: char) -> (r: bool)
    ensures
        r == is_alpha(c),
{
    ('a' <= c && c <= 'z') || ('A' <= c && c <= 'Z')
}

fn is_ascii_digit(c: char) -> (r: bool)
    ensures
        r == is_digit(c),
{
    '0' <= c && c <= '9'
}

fn is_ascii_hexdigit(c: char) -> (r: bool)
    ensures
        r == is_hex_digit(c),
{
    ('0' <= c && c <= '9') || ('a' <= c && c <= 'f') || ('A' <= c && c <= 'F')
}

fn char_width(c: char) -> (r: usize)
    ensures
        r == utf8_width(c),
        1 <= r <= 4,
{
    let u = c as u32;
    if u < 0x80 { 1 } else if u < 0x800 { 2 } else if u < 0x10000 { 3 } else { 4 }
}

fn digit_value(c: char) -> (r: u64)
    requires
        is_hex_digit(c),
    ensures
        r == digit_val(c),
        r < 16,
{
    let u = c as u32;
    if '0' <= c && c <= '9' {
        (u - 48) as u64
    } else if 'a' <= c && c <= 'f' {
        (u - 97 + 10) as u64
    } else {
        (u - 65 + 10) as u64
    }
}

/// Appending a digit never makes the value smaller.
proof fn lemma_digits_value_prefix(ds: Seq<char>, k: nat, radix: nat)
    requires
        k <= ds.len(),
        radix >= 1,
    ensures
        digits_value(ds.take(k as int), radix) <= digits_value(ds, radix),
    decreases ds.len() - k,
{
    if k < ds.len() {
        lemma_digits_value_prefix(ds, k + 1, radix);
        assert(ds.take(k as int + 1).drop_last() =~= ds.take(k as int));
        let a = digits_value(ds.take(k as int), radix);
        assert(a * radix >= a) by (nonlinear_arith) requires radix >= 1, a >= 0;
    } else {
        assert(ds.take(k as int) =~= ds);
    }
}

/// The value of digits in a radix, when it fits in `i64`.
fn parse_digits(ds: &Vec<char>, radix: u64) -> (r: Option<i64>)
    requires
        radix == 2 || radix == 10 || radix == 16,
        forall|k: int| 0 <= k < ds@.len() ==> is_hex_digit(#[trigger] ds@[k]) && digit_val(ds@[k]) < radix,
    ensures
        r is Some <==> (ds@.len() > 0 && digits_value(ds@, radix as nat) <= i64::MAX),
        r matches Some(v) ==> v == digits_value(ds@, radix as nat),
{
    if ds.len() == 0 {
        return None;
    }
    let mut acc: u64 = 0;
    let mut k: usize = 0;
    while k < ds.len()
        invariant
            k <= ds@.len(),
            radix == 2 || radix == 10 || radix == 16,
            forall|q: int| 0 <= q < ds@.len() ==> is_hex_digit(#[trigger] ds@[q]) && digit_val(ds@[q]) < radix,
            acc == digits_value(ds@.take(k as int), radix as nat),
            acc <= i64::MAX,
        decreases ds@.len() - k,
    {
        assert(is_hex_digit(ds@[k as int]));
        let d = digit_value(ds[k]);
        assert(ds@.take(k + 1).drop_last() =~= ds@.take(k as int));
        assert((acc as u128) * (radix as u128) <= 0x7fff_ffff_ffff_ffff * 16) by (nonlinear_arith)
            requires acc <= 0x7fff_ffff_ffff_ffff, radix <= 16;
        let next: u128 = (acc as u128) * (radix as u128) + (d as u128);
        if next > 0x7fff_ffff_ffff_ffff {
            proof { lemma_digits_value_prefix(ds@, (k + 1) as nat, radix as nat); }
            return None;
        }
        acc = next as u64;
        k = k + 1;
    }
    assert(ds@.take(k as int) =~= ds@);
    Some(acc as i64)
}

fn vec_to_string(v: &Vec<char>) -> (r: String)
    ensures
        r@ == v@,
{
    let mut s = String::new();
    let mut k: usize = 0;
    while k < v.len()
        invariant
            k <= v@.len(),
            s@ == v@.take(k as int),
        decreases v@.len() - k,
    {
        s.push(v[k]);
        assert(v@.take(k + 1) =~= v@.take(k as int).push(v@[k as int]));
        k = k + 1;
    }
    assert(v@.take(k as int) =~= v@);
    s
}

fn eq_word(w: &Vec<char>, k: &[char]) -> (r: bool)
    ensures
        r == (w@ == k@),
{
    if w.len() != k.len() {
        return false;
    }
    let mut i: usize = 0;
    while i < w.len()
        invariant
            i <= w@.len(),
            w@.len() == k@.len(),
            forall|q: int| 0 <= q < i ==> w@[q] == k@[q],
        decreases w@.len() - i,
    {
        if w[i] != k[i] {
            return false;
        }
        i = i + 1;
    }
    assert(w@ =~= k@);
    true
}

fn keyword(w: &Vec<char>) -> (r: Option<TokenKind>)
    ensures
        r == keyword_kind(w@),
{
    let fn_: [char; 2] = ['f', 'n'];
    assert(fn_@ =~= seq!['f', 'n']);
    if eq_word(w, &fn_) { return Some(TokenKind::Fn); }
    let let_: [char; 3] = ['l', 'e', 't'];
    assert(let_@ =~= seq!['l', 'e', 't']);
    if eq_word(w, &let_) { return Some(TokenKind::Let); }
    let mut_: [char; 3] = ['m', 'u', 't'];
    assert(mut_@ =~= seq!['m', 'u', 't']);
    if eq_word(w, &mut_) { return Some(TokenKind::Mut); }
    let if_: [char; 2] = ['i', 'f'];
    assert(if_@ =~= seq!['i', 'f']);
    if eq_word(w, &if_) { return Some(TokenKind::If); }
    let else_: [char; 4] = ['e', 'l', 's', 'e'];
    assert(else_@ =~= seq!['e', 'l', 's', 'e']);
    if eq_word(w, &else_) { return Some(TokenKind::Else); }
    let while_: [char; 5] = ['w', 'h', 'i', 'l', 'e'];
    assert(while_@ =~= seq!['w', 'h', 'i', 'l', 'e']);
    if eq_word(w, &while_) { return Some(TokenKind::While); }
    let return_: [char; 6] = ['r', 'e', 't', 'u', 'r', 'n'];
    assert(return_@ =~= seq!['r', 'e', 't', 'u', 'r', 'n']);
    if eq_word(w, &return_) { return Some(TokenKind::Return); }
    let export_: [char; 6] = ['e', 'x', 'p', 'o', 'r', 't'];
    assert(export_@ =~= seq!['e', 'x', 'p', 'o', 'r', 't']);
    if eq_word(w, &export_) { return Some(TokenKind::Export); }
    let import_: [char; 6] = ['i', 'm', 'p', 'o', 'r', 't'];
    assert(import_@ =~= seq!['i', 'm', 'p', 'o', 'r', 't']);
    if eq_word(w, &import_) { return Some(TokenKind::Import); }
    let memory_: [char; 6] = ['m', 'e', 'm', 'o', 'r', 'y'];
    assert(memory_@ =~= seq!['m', 'e', 'm', 'o', 'r', 'y']);
    if eq_word(w, &memory_) { return Some(TokenKind::Memory); }
    let true_: [char; 4] = ['t', 'r', 'u', 'e'];
    assert(true_@ =~= seq!['t', 'r', 'u', 'e']);
    if eq_word(w, &true_) { return Some(TokenKind::True); }
    let false_: [char; 5] = ['f', 'a', 'l', 's', 'e'];
    assert(false_@ =~= seq!['f', 'a', 'l', 's', 'e']);
    if eq_word(w, &false_) { return Some(TokenKind::False); }
    let break_: [char; 5] = ['b', 'r', 'e', 'a', 'k'];
    assert(break_@ =~= seq!['b', 'r', 'e', 'a', 'k']);
    if eq_word(w, &break_) { return Some(TokenKind::Break); }
    let i32_: [char; 3] = ['i', '3', '2'];
    assert(i32_@ =~= seq!['i', '3', '2']);
    if eq_word(w, &i32_) { return Some(TokenKind::TypeI32); }
    let i64_: [char; 3] = ['i', '6', '4'];
    assert(i64_@ =~= seq!['i', '6', '4']);
    if eq_word(w, &i64_) { return Some(TokenKind::TypeI64); }
    let f32_: [char; 3] = ['f', '3', '2'];
    assert(f32_@ =~= seq!['f', '3', '2']);
    if eq_word(w, &f32_) { return Some(TokenKind::TypeF32); }
    let f64_: [char; 3] = ['f', '6', '4'];
    assert(f64_@ =~= seq!['f', '6', '4']);
    if eq_word(w, &f64_) { return Some(TokenKind::TypeF64); }
    let bool_: [char; 4] = ['b', 'o', 'o', 'l'];
    assert(bool_@ =~= seq!['b', 'o', 'o', 'l']);
    if eq_word(w, &bool_) { return Some(TokenKind::TypeBool); }
    let void_: [char; 4] = ['v', 'o', 'i', 'd'];
    assert(void_@ =~= seq!['v', 'o', 'i', 'd']);
    if eq_word(w, &void_) { return Some(TokenKind::TypeVoid); }
    None
}


/// The UTF-8 length of two texts one after the other is the sum of theirs.
proof fn lemma_utf8_len_concat(s: Seq<char>, t: Seq<char>)
    ensures
        utf8_len(s + t) == utf8_len(s) + utf8_len(t),
    decreases t.len(),
{
    if t.len() == 0 {
        assert(s + t =~= s);
    } else {
        lemma_utf8_len_concat(s, t.drop_last());
        assert((s + t).drop_last() =~= s + t.drop_last());
    }
}

/// Every character takes at least one byte.
proof fn lemma_len_le_utf8(s: Seq<char>)
    ensures
        s.len() <= utf8_len(s),
    decreases s.len(),
{
    if s.len() > 0 {
        lemma_len_le_utf8(s.drop_last());
    }
}

/// The UTF-8 length of a piece of a text is the sum of its two parts, and
/// at most that of the whole text.
proof fn lemma_utf8_len_split(cs: Seq<char>, a: int, b: int, c: int)
    requires
        0 <= a <= b <= c <= cs.len(),
    ensures
        utf8_len(cs.subrange(a, c)) == utf8_len(cs.subrange(a, b)) + utf8_len(cs.subrange(b, c)),
        utf8_len(cs.subrange(a, c)) <= utf8_len(cs),
{
    assert(cs.subrange(a, c) =~= cs.subrange(a, b) + cs.subrange(b, c));
    lemma_utf8_len_concat(cs.subrange(a, b), cs.subrange(b, c));
    assert(cs =~= cs.subrange(0, a) + cs.subrange(a, c) + cs.subrange(c, cs.len() as int));
    lemma_utf8_len_concat(cs.subrange(0, a), cs.subrange(a, c));
    lemma_utf8_len_concat(cs.subrange(0, a) + cs.subrange(a, c), cs.subrange(c, cs.len() as int));
}

fn is_ascii_alphanumeric(c: char) -> (r: bool)
    ensures
        r == (is_alpha(c) || is_digit(c)),
{
    is_ascii_alphabetic(c) || is_ascii_digit(c)
}

fn unescape(c: char) -> (r: char)
    ensures
        r == escape_char(c),
{
    match c {
        'n' => '\n',
        't' => '\t',
        'r' => '\r',
        '0' => '\0',
        _ => c,
    }
}

/// The UTF-8 length of a piece of text grows by the width of each
/// character added at its end.
proof fn lemma_utf8_len_step(cs: Seq<char>, a: int, b: int)
    requires
        0 <= a <= b < cs.len(),
    ensures
        utf8_len(cs.subrange(a, b + 1)) == utf8_len(cs.subrange(a, b)) + utf8_width(cs[b]),
{
    assert(cs.subrange(a, b + 1).drop_last() =~= cs.subrange(a, b));
}

/// A string literal's content, prepended to the rest of a scan.
pub open spec fn cons_str(v: Seq<char>, rest: Option<(Seq<char>, nat)>) -> Option<(Seq<char>, nat)> {
    match rest {
        Some((t, e)) => Some((v + t, e)),
        None => None,
    }
}

/// Tokens already read, prepended to the scan of the rest.
pub open spec fn prepend_tokens(p: Seq<(KindView, Span)>, rest: Option<Seq<(KindView, Span)>>) -> Option<Seq<(KindView, Span)>> {
    match rest {
        Some(r) => Some(p + r),
        None => None,
    }
}

/// A scanner over the characters of a Nova source text.
pub struct Lexer<'a> {
    _source: &'a str,
    chars: Vec<char>,
    cursor: usize,
    line: usize,
    col: usize,
}

impl<'a> Lexer<'a> {
    /// The characters of the source.
    pub closed spec fn chars(&self) -> Seq<char> {
        self.chars@
    }

    /// How many characters have been read.
    pub closed spec fn cursor(&self) -> nat {
        self.cursor as nat
    }

    /// The cursor stands within the text, the text's UTF-8 length fits in
    /// `usize` (as that of every `str` does), and line and column are those
    /// of the cursor.
    pub closed spec fn wf(&self) -> bool {
        &&& self.cursor <= self.chars@.len()
        &&& utf8_len(self.chars@) < usize::MAX
        &&& self.line == lc_at(self.chars@, self.cursor as nat).0
        &&& self.col == lc_at(self.chars@, self.cursor as nat).1
    }

    /// A scanner at the start of `source`.
    pub fn new(source: &'a str) -> (r: Self)
        requires
            utf8_len(source@) < usize::MAX,
        ensures
            r.wf(),
            r.chars() == source@,
            r.cursor() == 0,
    {
        let mut chars: Vec<char> = Vec::new();
        for c in it: source.chars()
            invariant
                chars@ == it.seq().take(it.index() as int),
        {
            chars.push(c);
        }
        assert(chars@ =~= source@);
        Self { _source: source, chars, cursor: 0, line: 1, col: 1 }
    }

    fn peek_char(&self) -> (r: Option<char>)
        ensures
            r == (if self.cursor() < self.chars().len() { Some(self.chars()[self.cursor() as int]) } else { None }),
    {
        if self.cursor < self.chars.len() {
            Some(self.chars[self.cursor])
        } else {
            None
        }
    }

    fn peek_next_char(&self) -> (r: Option<char>)
        requires
            self.wf(),
        ensures
            r == (if self.cursor() + 1 < self.chars().len() { Some(self.chars()[self.cursor() + 1int]) } else { None }),
    {
        proof { lemma_len_le_utf8(self.chars@); }
        if self.cursor + 1 < self.chars.len() {
            Some(self.chars[self.cursor + 1])
        } else {
            None
        }
    }

    fn advance(&mut self) -> (r: Option<char>)
        requires
            old(self).wf(),
        ensures
            final(self).wf(),
            final(self).chars() == old(self).chars(),
            old(self).cursor() < old(self).chars().len() ==> r == Some(old(self).chars()[old(self).cursor() as int])
                && final(self).cursor() == old(self).cursor() + 1,
            old(self).cursor() >= old(self).chars().len() ==> r is None && final(self).cursor() == old(self).cursor(),
    {
        if self.cursor < self.chars.len() {
            let c = self.chars[self.cursor];
            proof {
                lemma_lc_bounds(self.chars@, self.cursor as nat);
                lemma_len_le_utf8(self.chars@);
            }
            self.cursor = self.cursor + 1;
            if c == '\n' {
                self.line = self.line + 1;
                self.col = 1;
            } else {
                self.col = self.col + 1;
            }
            Some(c)
        } else {
            None
        }
    }

    fn skip_line_comment(&mut self)
        requires
            old(self).wf(),
            old(self).cursor() + 2 <= old(self).chars().len(),
        ensures
            final(self).wf(),
            final(self).chars() == old(self).chars(),
            final(self).cursor() == line_end(old(self).chars(), old(self).cursor() + 2),
    {
        let ghost cs = self.chars@;
        let ghost start = self.cursor() + 2;
        self.advance();
        self.advance();
        loop
            invariant
                self.wf(),
                self.chars() == cs,
                start <= self.cursor() <= cs.len(),
                line_end(cs, self.cursor()) == line_end(cs, start),
            ensures
                self.wf(),
                self.chars() == cs,
                self.cursor() == line_end(cs, start),
            decreases cs.len() - self.cursor(),
        {
            match self.peek_char() {
                Some(c) => {
                    if c == '\n' {
                        break;
                    }
                    self.advance();
                },
                None => {
                    break;
                },
            }
        }
    }

    fn skip_block_comment(&mut self) -> (r: Result<(), String>)
        requires
            old(self).wf(),
            old(self).cursor() + 2 <= old(self).chars().len(),
        ensures
            final(self).wf(),
            final(self).chars() == old(self).chars(),
            match block_comment_end(old(self).chars(), old(self).cursor() + 2) {
                Some(e) => r is Ok && final(self).cursor() == e,
                None => r matches Err(m) && m@ == unterminated_comment_msg(old(self).chars(), old(self).cursor()),
            },
    {
        let ghost cs = self.chars@;
        let ghost start = self.cursor() + 2;
        let start_line = self.line;
        let start_col = self.col;
        self.advance();
        self.advance();
        loop
            invariant
                self.wf(),
                self.chars() == cs,
                start <= self.cursor() <= cs.len(),
                block_comment_end(cs, self.cursor()) == block_comment_end(cs, start),
                cs == old(self).chars(),
                start == old(self).cursor() + 2,
            ensures
                self.wf(),
                self.chars() == cs,
                block_comment_end(cs, start) is None,
            decreases cs.len() - self.cursor(),
        {
            match self.peek_char() {
                Some(c) => {
                    if c == '*' && matches!(self.peek_next_char(), Some('/')) {
                        self.advance();
                        self.advance();
                        return Ok(());
                    }
                    self.advance();
                },
                None => {
                    break;
                },
            }
        }
        let mut m = String::from_str("Unterminated block comment starting at ");
        push_position(&mut m, start_line, start_col);
        Err(m)
    }

    fn lex_identifier_or_keyword(&mut self) -> (t: Token)
        requires
            old(self).wf(),
            old(self).cursor() < old(self).chars().len(),
        ensures
            final(self).wf(),
            final(self).chars() == old(self).chars(),
            final(self).cursor() == ident_end(old(self).chars(), old(self).cursor()),
            token_view(t) == ({
                let cs = old(self).chars();
                let e = ident_end(cs, old(self).cursor());
                let w = cs.subrange(old(self).cursor() as int, e as int);
                (word_kind(w), span_at(cs, old(self).cursor(), w.len()))
            }),
    {
        let ghost cs = self.chars@;
        let ghost c0 = self.cursor();
        let start_col = self.col;
        let start_line = self.line;
        let mut ident: Vec<char> = Vec::new();
        proof { lemma_ident_end(cs, c0); }
        loop
            invariant
                self.wf(),
                self.chars() == cs,
                c0 <= self.cursor() <= cs.len(),
                ident@ == cs.subrange(c0 as int, self.cursor() as int),
                ident_end(cs, self.cursor()) == ident_end(cs, c0),
            ensures
                self.wf(),
                self.chars() == cs,
                ident@ == cs.subrange(c0 as int, self.cursor() as int),
                self.cursor() == ident_end(cs, c0),
            decreases cs.len() - self.cursor(),
        {
            match self.peek_char() {
                Some(c) => {
                    if is_ascii_alphanumeric(c) || c == '_' {
                        ident.push(c);
                        self.advance();
                        assert(ident@ =~= cs.subrange(c0 as int, self.cursor() as int));
                    } else {
                        break;
                    }
                },
                None => {
                    break;
                },
            }
        }
        let len = ident.len();
        let span = Span::new(start_line, start_col, len);
        let kind = match keyword(&ident) {
            Some(k) => k,
            None => TokenKind::Ident(vec_to_string(&ident)),
        };
        Token::new(kind, span)
    }

    fn lex_number(&mut self) -> (r: Result<Token, String>)
        requires
            old(self).wf(),
            old(self).cursor() < old(self).chars().len(),
            is_digit(old(self).chars()[old(self).cursor() as int]),
        ensures
            final(self).wf(),
            final(self).chars() == old(self).chars(),
            match number_token(old(self).chars(), old(self).cursor()) {
                Some((k, n, e)) => r matches Ok(t) && token_view(t) == (k, span_at(old(self).chars(), old(self).cursor(), n))
                    && final(self).cursor() == e,
                None => r is Err,
            },
            number_token(old(self).chars(), old(self).cursor()) is None
                ==> (r matches Err(m) && m@ == number_error(old(self).chars(), old(self).cursor())),
    {
        let ghost cs = self.chars@;
        let ghost c0 = self.cursor();
        let start_col = self.col;
        let start_line = self.line;
        if matches!(self.peek_char(), Some('0')) {
            let radix: u64 = match self.peek_next_char() {
                Some('x') | Some('X') => 16,
                Some('b') | Some('B') => 2,
                _ => 0,
            };
            if radix != 0 {
                self.advance();
                self.advance();
                let mut digits: Vec<char> = Vec::new();
                proof { lemma_radix_digits(cs, c0 + 2, radix as nat); }
                loop
                    invariant
                        self.wf(),
                        self.chars() == cs,
                        c0 + 2 <= self.cursor() <= cs.len(),
                        radix == 16 || radix == 2,
                        radix_digits(cs, c0 + 2, radix as nat) == (digits@ + radix_digits(cs, self.cursor(), radix as nat).0,
                            radix_digits(cs, self.cursor(), radix as nat).1),
                        forall|k: int| 0 <= k < digits@.len() ==> is_hex_digit(#[trigger] digits@[k]) && digit_val(digits@[k]) < radix,
                        digits@.len() <= self.cursor() - (c0 + 2),
                    ensures
                        self.wf(),
                        self.chars() == cs,
                        radix_digits(cs, c0 + 2, radix as nat) == (digits@, self.cursor()),
                        forall|k: int| 0 <= k < digits@.len() ==> is_hex_digit(#[trigger] digits@[k]) && digit_val(digits@[k]) < radix,
                        digits@.len() + 2 <= cs.len(),
                    decreases cs.len() - self.cursor(),
                {
                    match self.peek_char() {
                        Some(c) => {
                            let is_radix_digit = if radix == 16 { is_ascii_hexdigit(c) } else { c == '0' || c == '1' };
                            if is_radix_digit || c == '_' {
                                let ghost before = digits@;
                                let ghost cur = self.cursor();
                                if c != '_' {
                                    digits.push(c);
                                }
                                self.advance();
                                proof {
                                    let rest = radix_digits(cs, cur + 1, radix as nat);
                                    if c != '_' {
                                        assert(before + (seq![c] + rest.0) =~= digits@ + rest.0);
                                    }
                                }
                            } else {
                                break;
                            }
                        },
                        None => {
                            break;
                        },
                    }
                }
                match parse_digits(&digits, radix) {
                    Some(val) => {
                        let n = digits.len() + 2;
                        return Ok(Token::new(TokenKind::Int(val), Span::new(start_line, start_col, n)));
                    },
                    None => {
                        let mut m = if radix == 16 {
                            String::from_str("Invalid hex literal at ")
                        } else {
                            String::from_str("Invalid binary literal at ")
                        };
                        push_position(&mut m, start_line, start_col);
                        if digits.len() == 0 {
                            m.append(": cannot parse integer from empty string");
                        } else {
                            m.append(": number too large to fit in target type");
                        }
                        return Err(m);
                    },
                }
            }
        }
        let mut text: Vec<char> = Vec::new();
        let mut is_float = false;
        proof { lemma_dec_scan(cs, c0, false); }
        loop
            invariant
                self.wf(),
                self.chars() == cs,
                c0 <= self.cursor() <= cs.len(),
                c0 < cs.len(),
                is_digit(cs[c0 as int]),
                dec_scan(cs, c0, false) == (text@ + dec_scan(cs, self.cursor(), is_float).0,
                    dec_scan(cs, self.cursor(), is_float).1, dec_scan(cs, self.cursor(), is_float).2),
                !is_float ==> forall|k: int| 0 <= k < text@.len() ==> is_digit(#[trigger] text@[k]),
                text@.len() <= self.cursor() - c0,
            ensures
                self.wf(),
                self.chars() == cs,
                dec_scan(cs, c0, false) == (text@, is_float, self.cursor()),
                !is_float ==> forall|k: int| 0 <= k < text@.len() ==> is_digit(#[trigger] text@[k]),
                text@.len() <= cs.len(),
            decreases cs.len() - self.cursor(),
        {
            let ghost before = text@;
            let ghost cur = self.cursor();
            let ghost f0 = is_float;
            match self.peek_char() {
                Some(c) => {
                    let next_is_digit = match self.peek_next_char() {
                        Some(nc) => is_ascii_digit(nc),
                        None => false,
                    };
                    if is_ascii_digit(c) {
                        text.push(c);
                        self.advance();
                        proof {
                            let rest = dec_scan(cs, cur + 1, f0);
                            assert(before + (seq![c] + rest.0) =~= text@ + rest.0);
                        }
                    } else if c == '.' && !is_float && next_is_digit {
                        is_float = true;
                        text.push(c);
                        self.advance();
                        proof {
                            let rest = dec_scan(cs, cur + 1, true);
                            assert(before + (seq!['.'] + rest.0) =~= text@ + rest.0);
                        }
                    } else if c == '_' {
                        self.advance();
                    } else {
                        break;
                    }
                },
                None => {
                    break;
                },
            }
        }
        let len = text.len();
        let span = Span::new(start_line, start_col, len);
        if is_float {
            Ok(Token::new(TokenKind::Float(vec_to_string(&text)), span))
        } else {
            match parse_digits(&text, 10) {
                Some(val) => Ok(Token::new(TokenKind::Int(val), span)),
                None => {
                    let mut m = String::from_str("Invalid integer at ");
                    push_position(&mut m, start_line, start_col);
                    m.append(": number too large to fit in target type");
                    Err(m)
                },
            }
        }
    }

    fn lex_string(&mut self) -> (r: Result<Token, String>)
        requires
            old(self).wf(),
            old(self).cursor() < old(self).chars().len(),
            old(self).chars()[old(self).cursor() as int] == '"',
        ensures
            final(self).wf(),
            final(self).chars() == old(self).chars(),
            match str_scan(old(self).chars(), old(self).cursor() + 1) {
                Some((t, e)) => r matches Ok(tok) && token_view(tok) == (KindView::Str(t), span_at(old(self).chars(), old(self).cursor(), utf8_len(t) + 2))
                    && final(self).cursor() == e,
                None => r matches Err(m) && m@ == string_error(old(self).chars(), old(self).cursor()),
            },
    {
        let ghost cs = self.chars@;
        let ghost c0 = self.cursor();
        let start_col = self.col;
        let start_line = self.line;
        self.advance();
        let mut str_val = String::new();
        let mut nbytes: usize = 0;
        proof {
            lemma_utf8_len_step(cs, c0 as int, c0 as int);
            assert(cs.subrange(c0 as int, c0 as int) =~= Seq::<char>::empty());
            assert(str_val@ + Seq::<char>::empty() =~= str_val@);
        }
        loop
            invariant
                self.wf(),
                self.chars() == cs,
                c0 + 1 <= self.cursor() <= cs.len(),
                c0 < cs.len(),
                cs[c0 as int] == '"',
                cs == old(self).chars(),
                c0 == old(self).cursor(),
                start_line == lc_at(cs, c0).0,
                start_col == lc_at(cs, c0).1,
                str_scan(cs, c0 + 1) == cons_str(str_val@, str_scan(cs, self.cursor())),
                str_escape_fails(cs, c0 + 1) == str_escape_fails(cs, self.cursor()),
                nbytes == utf8_len(str_val@),
                nbytes + 1 <= utf8_len(cs.subrange(c0 as int, self.cursor() as int)),
            ensures
                self.wf(),
                self.chars() == cs,
                str_scan(cs, c0 + 1) is None,
                !str_escape_fails(cs, c0 + 1),
            decreases cs.len() - self.cursor(),
        {
            let ghost before = str_val@;
            let ghost cur: int = self.cursor() as int;
            match self.peek_char() {
                Some(c) => {
                    if c == '"' {
                        self.advance();
                        proof {
                            lemma_utf8_len_step(cs, c0 as int, cur);
                            lemma_utf8_len_split(cs, c0 as int, cur + 1, cur + 1);
                            assert(str_val@ + Seq::<char>::empty() =~= str_val@);
                        }
                        let len = nbytes + 2;
                        return Ok(Token::new(TokenKind::Str(str_val), Span::new(start_line, start_col, len)));
                    } else if c == '\\' {
                        self.advance();
                        match self.advance() {
                            Some(e) => {
                                let ch = unescape(e);
                                proof {
                                    lemma_utf8_len_step(cs, c0 as int, cur);
                                    lemma_utf8_len_step(cs, c0 as int, cur + 1);
                                    lemma_utf8_len_split(cs, c0 as int, cur + 2, cur + 2);
                                }
                                let w = char_width(ch);
                                str_val.push(ch);
                                nbytes = nbytes + w;
                                proof {
                                    assert(str_val@.drop_last() =~= before);
                                    let rest = str_scan(cs, (cur + 2) as nat);
                                    if let Some((t, en)) = rest {
                                        assert(before + (seq![ch] + t) =~= str_val@ + t);
                                    }
                                }
                            },
                            None => {
                                let mut m = String::from_str("Unterminated escape at ");
                                push_position(&mut m, self.line, self.col);
                                return Err(m);
                            },
                        }
                    } else {
                        proof {
                            lemma_utf8_len_step(cs, c0 as int, cur);
                            lemma_utf8_len_split(cs, c0 as int, cur + 1, cur + 1);
                        }
                        let w = char_width(c);
                        str_val.push(c);
                        nbytes = nbytes + w;
                        self.advance();
                        proof {
                            assert(str_val@.drop_last() =~= before);
                            let rest = str_scan(cs, (cur + 1) as nat);
                            if let Some((t, en)) = rest {
                                assert(before + (seq![c] + t) =~= str_val@ + t);
                            }
                        }
                    }
                },
                None => {
                    break;
                },
            }
        }
        let mut m = String::from_str("Unterminated string literal starting at ");
        push_position(&mut m, start_line, start_col);
        Err(m)
    }

    fn lex_operator_or_delimiter(&mut self) -> (r: Result<Token, String>)
        requires
            old(self).wf(),
            old(self).cursor() < old(self).chars().len(),
        ensures
            final(self).wf(),
            final(self).chars() == old(self).chars(),
            match op_token(old(self).chars(), old(self).cursor()) {
                Some((k, n)) => r matches Ok(t) && token_view(t) == (KindView::Simple(k), span_at(old(self).chars(), old(self).cursor(), n))
                    && final(self).cursor() == old(self).cursor() + n,
                None => r matches Err(m) && m@ == unexpected_char_msg(old(self).chars(), old(self).cursor()),
            },
    {
        let start_col = self.col;
        let start_line = self.line;
        let c = self.advance().unwrap();
        let (kind, len): (TokenKind, usize) = match c {
            '+' => {
                if matches!(self.peek_char(), Some('=')) {
                    self.advance();
                    (TokenKind::PlusEq, 2)
                } else {
                    (TokenKind::Plus, 1)
                }
            },
            '-' => {
                if matches!(self.peek_char(), Some('>')) {
                    self.advance();
                    (TokenKind::Arrow, 2)
                } else if matches!(self.peek_char(), Some('=')) {
                    self.advance();
                    (TokenKind::MinusEq, 2)
                } else {
                    (TokenKind::Minus, 1)
                }
            },
            '*' => {
                if matches!(self.peek_char(), Some('=')) {
                    self.advance();
                    (TokenKind::StarEq, 2)
                } else {
                    (TokenKind::Star, 1)
                }
            },
            '/' => {
                if matches!(self.peek_char(), Some('=')) {
                    self.advance();
                    (TokenKind::SlashEq, 2)
                } else {
                    (TokenKind::Slash, 1)
                }
            },
            '%' => (TokenKind::Percent, 1),
            '=' => {
                if matches!(self.peek_char(), Some('=')) {
                    self.advance();
                    (TokenKind::EqEq, 2)
                } else {
                    (TokenKind::Eq, 1)
                }
            },
            '!' => {
                if matches!(self.peek_char(), Some('=')) {
                    self.advance();
                    (TokenKind::BangEq, 2)
                } else {
                    (TokenKind::Bang, 1)
                }
            },
            '<' => {
                if matches!(self.peek_char(), Some('=')) {
                    self.advance();
                    (TokenKind::LtEq, 2)
                } else if matches!(self.peek_char(), Some('<')) {
                    self.advance();
                    (TokenKind::Shl, 2)
                } else {
                    (TokenKind::Lt, 1)
                }
            },
            '>' => {
                if matches!(self.peek_char(), Some('=')) {
                    self.advance();
                    (TokenKind::GtEq, 2)
                } else if matches!(self.peek_char(), Some('>')) {
                    self.advance();
                    (TokenKind::Shr, 2)
                } else {
                    (TokenKind::Gt, 1)
                }
            },
            '&' => {
                if matches!(self.peek_char(), Some('&')) {
                    self.advance();
                    (TokenKind::AndAnd, 2)
                } else {
                    (TokenKind::Amp, 1)
                }
            },
            '|' => {
                if matches!(self.peek_char(), Some('|')) {
                    self.advance();
                    (TokenKind::OrOr, 2)
                } else {
                    (TokenKind::Pipe, 1)
                }
            },
            '^' => (TokenKind::Caret, 1),
            '(' => (TokenKind::LParen, 1),
            ')' => (TokenKind::RParen, 1),
            '{' => (TokenKind::LBrace, 1),
            '}' => (TokenKind::RBrace, 1),
            '[' => (TokenKind::LBracket, 1),
            ']' => (TokenKind::RBracket, 1),
            ';' => (TokenKind::Semicolon, 1),
            ':' => (TokenKind::Colon, 1),
            ',' => (TokenKind::Comma, 1),
            '@' => (TokenKind::At, 1),
            unknown => {
                let mut m = String::from_str("Unexpected character '");
                m.push(unknown);
                m.append("' at ");
                push_position(&mut m, start_line, start_col);
                return Err(m);
            },
        };
        Ok(Token::new(kind, Span::new(start_line, start_col, len)))
    }

    /// Reads the tokens from the cursor to the end of the text, ending with
    /// `Eof`, or fails on the first lexical error.
    #[verifier::spinoff_prover]
    #[verifier::rlimit(40)]
    pub fn tokenize(&mut self) -> (r: Result<Vec<Token>, String>)
        requires
            old(self).wf(),
        ensures
            final(self).wf(),
            final(self).chars() == old(self).chars(),
            r is Ok ==> final(self).cursor() == final(self).chars().len(),
            match lex_from(old(self).chars(), old(self).cursor()) {
                Some(s) => r matches Ok(v) && v@.map_values(|t: Token| token_view(t)) == s,
                None => r matches Err(m) && m@ == lex_error(old(self).chars(), old(self).cursor()),
            },
            r matches Ok(v) ==> {
                &&& v@.len() > 0
                &&& v@.last().kind == TokenKind::Eof
                &&& forall|k: int| 0 <= k < v@.len() - 1 ==> !(#[trigger] v@[k].kind is Eof)
                &&& forall|k: int| 0 <= k < v@.len() - 1 ==> span_before(#[trigger] v@[k].span, v@[k + 1].span)
            },
    {
        let ghost cs = self.chars@;
        let ghost c_start = self.cursor();
        let mut tokens: Vec<Token> = Vec::new();
        assert(tokens@.map_values(|t: Token| token_view(t)) + Seq::<(KindView, Span)>::empty() =~= Seq::<(KindView, Span)>::empty());
        loop
            invariant
                self.wf(),
                self.chars() == cs,
                cs == old(self).chars(),
                c_start == old(self).cursor(),
                lex_from(cs, c_start) == prepend_tokens(tokens@.map_values(|t: Token| token_view(t)), lex_from(cs, self.cursor())),
                lex_error(cs, c_start) == lex_error(cs, self.cursor()),
            ensures
                self.wf(),
                self.chars() == cs,
                self.cursor() >= cs.len(),
                lex_from(cs, c_start) == prepend_tokens(tokens@.map_values(|t: Token| token_view(t)), lex_from(cs, self.cursor())),
                lex_error(cs, c_start) == lex_error(cs, self.cursor()),
            decreases cs.len() - self.cursor(),
        {
            let ghost before = tokens@.map_values(|t: Token| token_view(t));
            let ghost cur = self.cursor();
            let c = match self.peek_char() {
                Some(c) => c,
                None => {
                    break;
                },
            };
            let nx = self.peek_next_char();
            proof {
                lemma_line_end(cs, cur + 2);
                lemma_block_comment_end(cs, cur + 2);
                lemma_ident_end(cs, cur);
                lemma_str_scan(cs, cur + 1);
                if is_digit(c) {
                    lemma_number_token(cs, cur);
                }
            }
            if is_whitespace(c) {
                self.advance();
            } else if c == '/' && matches!(nx, Some('/')) {
                self.skip_line_comment();
            } else if c == '/' && matches!(nx, Some('*')) {
                match self.skip_block_comment() {
                    Ok(()) => {},
                    Err(m) => {
                        return Err(m);
                    },
                }
            } else {
                let t = if is_ascii_alphabetic(c) || c == '_' {
                    self.lex_identifier_or_keyword()
                } else if is_ascii_digit(c) {
                    match self.lex_number() {
                        Ok(t) => t,
                        Err(m) => {
                            return Err(m);
                        },
                    }
                } else if c == '"' {
                    match self.lex_string() {
                        Ok(t) => t,
                        Err(m) => {
                            return Err(m);
                        },
                    }
                } else {
                    match self.lex_operator_or_delimiter() {
                        Ok(t) => t,
                        Err(m) => {
                            return Err(m);
                        },
                    }
                };
                tokens.push(t);
                proof {
                    let after = tokens@.map_values(|t: Token| token_view(t));
                    assert(after =~= before.push(token_view(t)));
                    if let Some(rest) = lex_from(cs, self.cursor()) {
                        assert(before + (seq![token_view(t)] + rest) =~= after + rest);
                    }
                }
            }
        }
        let eof = Token::new(TokenKind::Eof, Span::new(self.line, self.col, 0));
        let ghost before = tokens@.map_values(|t: Token| token_view(t));
        tokens.push(eof);
        proof {
            let after = tokens@.map_values(|t: Token| token_view(t));
            assert(after =~= before.push(token_view(eof)));
            assert(after =~= before + seq![(KindView::Simple(TokenKind::Eof), span_at(cs, self.cursor(), 0))]);
            lemma_len_le_utf8(cs);
            lemma_lex_ends_with_eof(cs, c_start);
            lemma_token_starts_increase(cs, c_start);
            assert forall|k: int| 0 <= k < after.len() implies #[trigger] after[k] == token_view(tokens@[k]) by {}
            assert forall|k: int| 0 <= k < tokens@.len() - 1 implies !(#[trigger] tokens@[k].kind is Eof) by {
                assert(after[k] == token_view(tokens@[k]));
            }
            assert forall|k: int| 0 <= k < tokens@.len() - 1 implies span_before(#[trigger] tokens@[k].span, tokens@[k + 1].span) by {
                assert(after[k] == token_view(tokens@[k]));
                assert(after[k + 1] == token_view(tokens@[k + 1]));
                assert(span_before(after[k].1, after[k + 1].1));
            }
            assert(after[after.len() - 1] == token_view(tokens@[tokens@.len() - 1]));
        }
        Ok(tokens)
    }
}

} // verus!
