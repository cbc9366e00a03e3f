use vstd::prelude::*;
use vstd::std_specs::iter::IteratorSpec;
use vstd::utf8::{char_is_scalar, encode_scalar, encode_utf8};

verus! {

/// Tokens.
#[allow(non_camel_case_types)]
#[derive(Debug, PartialEq, Eq)]
pub enum Token {
    LBRACE,
    RBRACE,
    LPAREN,
    RPAREN,
    SEMICOLON,
    IF,
    ELSE,
    WHILE,
    ASGN,
    PRINT,
    SKIP,
    OR,
    AND,
    EQ,
    LT,
    ADD,
    SUB,
    MUL,
    BOOL(bool),
    NUM(i32),
    VAR(String),
}

/// A token with the byte offsets, in the UTF-8 source, of its first
/// character and of the character just after it.
pub type Spanned = (usize, Token, usize);

/// Lexical errors.
#[derive(Debug)]
pub enum BadLex {
    /// No token starts with this character.
    NonTokenChar(char),
    /// The first character of a two-character token was not followed by the
    /// second one.
    ExpectedChar(char, char),
    /// An integer literal, with these digits, that does not fit in 32 bits.
    Internal(String),
}

/// Whether `c` has Unicode's White_Space property, for `c` outside ASCII.
pub uninterp spec fn unicode_space(c: char) -> bool;

/// Whether `c` has Unicode's Alphabetic property, for `c` outside ASCII.
pub uninterp spec fn unicode_alphabetic(c: char) -> bool;

/// Whether `c` is Alphabetic or Numeric in Unicode, for `c` outside ASCII.
pub uninterp spec fn unicode_alphanumeric(c: char) -> bool;

pub open spec fn is_ascii_char(c: char) -> bool {
    (c as u32) < 128
}

/// Whitespace: in ASCII a space, tab, line feed, vertical tab, form feed or
/// carriage return.
pub open spec fn is_space(c: char) -> bool {
    if is_ascii_char(c) {
        c == ' ' || ('\t' <= c && c <= '\r')
    } else {
        unicode_space(c)
    }
}

pub open spec fn is_digit(c: char) -> bool {
    '0' <= c && c <= '9'
}

/// A letter, which may start an identifier.
pub open spec fn is_letter(c: char) -> bool {
    if is_ascii_char(c) {
        ('a' <= c && c <= 'z') || ('A' <= c && c <= 'Z')
    } else {
        unicode_alphabetic(c)
    }
}

/// A letter or digit, which may continue an identifier.
pub open spec fn is_alnum(c: char) -> bool {
    if is_ascii_char(c) {
        is_letter(c) || is_digit(c)
    } else {
        unicode_alphanumeric(c)
    }
}

/// Relies on `char::is_whitespace` (White_Space property).
#[verifier::external_body]
fn std_is_whitespace(c: char) -> (r: bool)
    ensures
        r == unicode_space(c),
{
    c.is_whitespace()
}

/// Relies on `char::is_alphabetic` (Alphabetic property).
#[verifier::external_body]
fn std_is_alphabetic(c: char) -> (r: bool)
    ensures
        r == unicode_alphabetic(c),
{
    c.is_alphabetic()
}

/// Relies on `char::is_alphanumeric` (Alphabetic or Numeric).
#[verifier::external_body]
fn std_is_alphanumeric(c: char) -> (r: bool)
    ensures
        r == unicode_alphanumeric(c),
{
    c.is_alphanumeric()
}

/// The characters of `s`, in order.
pub(crate) fn chars_of(s: &str) -> (r: Vec<char>)
    ensures
        r@ == s@,
{
    broadcast use vstd::string::axiom_spec_iter, vstd::string::next_postcondition;

    let mut it = s.chars();
    let mut r: Vec<char> = Vec::new();
    loop
        invariant
            it.obeys_prophetic_iter_laws(),
            it.decrease() is Some,
            r@ + it.remaining() == s@,
        decreases it.decrease()->0,
    {
        match it.next() {
            Some(c) => {
                let ghost rest = it.remaining();
                r.push(c);
                assert(r@ + rest =~= s@);
            },
            None => {
                assert(r@ + Seq::<char>::empty() =~= r@);
                return r;
            },
        }
    }
}

/// Relies on `String: FromIterator<char>`: the characters in order.
#[verifier::external_body]
pub(crate) fn string_of(v: &Vec<char>) -> (r: String)
    ensures
        r@ == v@,
{
    v.iter().collect()
}

fn space(c: char) -> (r: bool)
    ensures
        r == is_space(c),
{
    if (c as u32) < 128 {
        c == ' ' || ('\t' <= c && c <= '\r')
    } else {
        std_is_whitespace(c)
    }
}

fn letter(c: char) -> (r: bool)
    ensures
        r == is_letter(c),
{
    if (c as u32) < 128 {
        ('a' <= c && c <= 'z') || ('A' <= c && c <= 'Z')
    } else {
        std_is_alphabetic(c)
    }
}

fn alnum(c: char) -> (r: bool)
    ensures
        r == is_alnum(c),
{
    if (c as u32) < 128 {
        ('a' <= c && c <= 'z') || ('A' <= c && c <= 'Z') || ('0' <= c && c <= '9')
    } else {
        std_is_alphanumeric(c)
    }
}

/// The value of a decimal digit.
pub open spec fn digit_value(c: char) -> int {
    (c as u32) as int - ('0' as u32) as int
}

/// The value of a string of decimal digits, most significant first.
pub open spec fn digits_value(w: Seq<char>) -> int
    decreases w.len(),
{
    if w.len() == 0 {
        0
    } else {
        digits_value(w.drop_last()) * 10 + digit_value(w.last())
    }
}

/// The first position at or after `i` that holds no whitespace.
pub open spec fn skip_space(s: Seq<char>, i: int) -> int
    decreases s.len() - i,
{
    if 0 <= i < s.len() && is_space(s[i]) {
        skip_space(s, i + 1)
    } else {
        i
    }
}

/// The end of the run of digits that starts at `i`.
pub open spec fn digits_end(s: Seq<char>, i: int) -> int
    decreases s.len() - i,
{
    if 0 <= i < s.len() && is_digit(s[i]) {
        digits_end(s, i + 1)
    } else {
        i
    }
}

/// The end of the run of letters and digits that starts at `i`.
pub open spec fn alnum_end(s: Seq<char>, i: int) -> int
    decreases s.len() - i,
{
    if 0 <= i < s.len() && is_alnum(s[i]) {
        alnum_end(s, i + 1)
    } else {
        i
    }
}

/// The token of a one-character symbol.
pub open spec fn symbol_token(c: char) -> Option<Token> {
    if c == '{' {
        Some(Token::LBRACE)
    } else if c == '}' {
        Some(Token::RBRACE)
    } else if c == '(' {
        Some(Token::LPAREN)
    } else if c == ')' {
        Some(Token::RPAREN)
    } else if c == ';' {
        Some(Token::SEMICOLON)
    } else if c == '+' {
        Some(Token::ADD)
    } else if c == '*' {
        Some(Token::MUL)
    } else if c == '-' {
        Some(Token::SUB)
    } else {
        None
    }
}

/// The second character of the two-character token that starts with `c`.
pub open spec fn pair_second(c: char) -> Option<char> {
    if c == ':' {
        Some('=')
    } else if c == '<' || c == '=' {
        Some('?')
    } else {
        None
    }
}

/// The two-character token that starts with `c`.
pub open spec fn pair_token(c: char) -> Token {
    if c == ':' {
        Token::ASGN
    } else if c == '<' {
        Token::LT
    } else {
        Token::EQ
    }
}

/// The keyword or boolean literal that a word spells, if any.
pub open spec fn keyword(w: Seq<char>) -> Option<Token> {
    if w =~= seq!['i', 'f'] {
        Some(Token::IF)
    } else if w =~= seq!['e', 'l', 's', 'e'] {
        Some(Token::ELSE)
    } else if w =~= seq!['w', 'h', 'i', 'l', 'e'] {
        Some(Token::WHILE)
    } else if w =~= seq!['p', 'r', 'i', 'n', 't'] {
        Some(Token::PRINT)
    } else if w =~= seq!['s', 'k', 'i', 'p'] {
        Some(Token::SKIP)
    } else if w =~= seq!['a', 'n', 'd'] {
        Some(Token::AND)
    } else if w =~= seq!['o', 'r'] {
        Some(Token::OR)
    } else if w =~= seq!['t', 'r', 'u', 'e'] {
        Some(Token::BOOL(true))
    } else if w =~= seq!['f', 'a', 'l', 's', 'e'] {
        Some(Token::BOOL(false))
    } else {
        None
    }
}

/// Where the token that starts at `a` ends, or `None` where no token can
/// start there.
pub open spec fn scan_end(s: Seq<char>, a: int) -> Option<int> {
    let c = s[a];
    if symbol_token(c) is Some {
        Some(a + 1)
    } else if pair_second(c) is Some {
        if a + 1 < s.len() && s[a + 1] == pair_second(c)->Some_0 {
            Some(a + 2)
        } else {
            None
        }
    } else if is_digit(c) {
        let b = digits_end(s, a + 1);
        if digits_value(s.subrange(a, b)) <= i32::MAX {
            Some(b)
        } else {
            None
        }
    } else if is_letter(c) {
        Some(alnum_end(s, a + 1))
    } else {
        None
    }
}

/// `t` is the token that the characters `w` spell.
pub open spec fn denotes(t: Token, w: Seq<char>) -> bool {
    let c = w[0];
    if symbol_token(c) is Some {
        t == symbol_token(c)->Some_0
    } else if pair_second(c) is Some {
        t == pair_token(c)
    } else if is_digit(c) {
        t == Token::NUM(digits_value(w) as i32)
    } else {
        match keyword(w) {
            Some(k) => t == k,
            None => t matches Token::VAR(x) && x@ == w,
        }
    }
}

/// `e` is the error for the character at `a`, where no token can start.
pub open spec fn reports(e: BadLex, s: Seq<char>, a: int) -> bool {
    let c = s[a];
    if pair_second(c) is Some {
        e == BadLex::ExpectedChar(c, pair_second(c)->Some_0)
    } else if is_digit(c) {
        e matches BadLex::Internal(d) && d@ == s.subrange(a, digits_end(s, a + 1))
    } else {
        e == BadLex::NonTokenChar(c)
    }
}

/// Each run ends at or after its start, and within the text.
pub proof fn lemma_run_ends(s: Seq<char>, i: int)
    ensures
        skip_space(s, i) >= i,
        digits_end(s, i) >= i,
        alnum_end(s, i) >= i,
        0 <= i <= s.len() ==> skip_space(s, i) <= s.len(),
        0 <= i <= s.len() ==> digits_end(s, i) <= s.len(),
        0 <= i <= s.len() ==> alnum_end(s, i) <= s.len(),
    decreases s.len() - i,
{
    if 0 <= i < s.len() {
        lemma_run_ends(s, i + 1);
    }
}

/// The spans of the tokens of `s` from position `p` on, or the position of
/// the first character where no token can start.
pub open spec fn lex_spans(s: Seq<char>, p: int) -> Result<Seq<(int, int)>, int>
    decreases s.len() - p,
{
    let a = skip_space(s, p);
    if p < 0 || a >= s.len() {
        Ok(Seq::empty())
    } else {
        match scan_end(s, a) {
            None => Err(a),
            Some(b) => {
                proof {
                    lemma_run_ends(s, p);
                    lemma_run_ends(s, a + 1);
                }
                match lex_spans(s, b) {
                    Ok(rest) => Ok(seq![(a, b)] + rest),
                    Err(e) => Err(e),
                }
            },
        }
    }
}

impl Token {
    /// A copy of the token.
    pub fn copy(&self) -> (r: Token)
        ensures
            r == *self,
    {
        match self {
            Token::LBRACE => Token::LBRACE,
            Token::RBRACE => Token::RBRACE,
            Token::LPAREN => Token::LPAREN,
            Token::RPAREN => Token::RPAREN,
            Token::SEMICOLON => Token::SEMICOLON,
            Token::IF => Token::IF,
            Token::ELSE => Token::ELSE,
            Token::WHILE => Token::WHILE,
            Token::ASGN => Token::ASGN,
            Token::PRINT => Token::PRINT,
            Token::SKIP => Token::SKIP,
            Token::OR => Token::OR,
            Token::AND => Token::AND,
            Token::EQ => Token::EQ,
            Token::LT => Token::LT,
            Token::ADD => Token::ADD,
            Token::SUB => Token::SUB,
            Token::MUL => Token::MUL,
            Token::BOOL(b) => Token::BOOL(*b),
            Token::NUM(z) => Token::NUM(*z),
            Token::VAR(x) => Token::VAR(x.clone()),
        }
    }
}

impl Clone for Token {
    fn clone(&self) -> Token {
        self.copy()
    }
}

/// The token of a word that starts with a letter: a keyword, a boolean
/// literal, or else an identifier.
fn token_of_string(w: &Vec<char>) -> (t: Token)
    ensures
        match keyword(w@) {
            Some(k) => t == k,
            None => t matches Token::VAR(x) && x@ == w@,
        },
{
    let n = w.len();
    if n == 2 && w[0] == 'i' && w[1] == 'f' {
        assert(w@ =~= seq!['i', 'f']);
        return Token::IF;
    }
    if n == 4 && w[0] == 'e' && w[1] == 'l' && w[2] == 's' && w[3] == 'e' {
        assert(w@ =~= seq!['e', 'l', 's', 'e']);
        return Token::ELSE;
    }
    if n == 5 && w[0] == 'w' && w[1] == 'h' && w[2] == 'i' && w[3] == 'l' && w[4] == 'e' {
        assert(w@ =~= seq!['w', 'h', 'i', 'l', 'e']);
        return Token::WHILE;
    }
    if n == 5 && w[0] == 'p' && w[1] == 'r' && w[2] == 'i' && w[3] == 'n' && w[4] == 't' {
        assert(w@ =~= seq!['p', 'r', 'i', 'n', 't']);
        return Token::PRINT;
    }
    if n == 4 && w[0] == 's' && w[1] == 'k' && w[2] == 'i' && w[3] == 'p' {
        assert(w@ =~= seq!['s', 'k', 'i', 'p']);
        return Token::SKIP;
    }
    if n == 3 && w[0] == 'a' && w[1] == 'n' && w[2] == 'd' {
        assert(w@ =~= seq!['a', 'n', 'd']);
        return Token::AND;
    }
    if n == 2 && w[0] == 'o' && w[1] == 'r' {
        assert(w@ =~= seq!['o', 'r']);
        return Token::OR;
    }
    if n == 4 && w[0] == 't' && w[1] == 'r' && w[2] == 'u' && w[3] == 'e' {
        assert(w@ =~= seq!['t', 'r', 'u', 'e']);
        return Token::BOOL(true);
    }
    if n == 5 && w[0] == 'f' && w[1] == 'a' && w[2] == 'l' && w[3] == 's' && w[4] == 'e' {
        assert(w@ =~= seq!['f', 'a', 'l', 's', 'e']);
        return Token::BOOL(false);
    }
    Token::VAR(string_of(w))
}

fn copy_range(v: &Vec<char>, a: usize, b: usize) -> (r: Vec<char>)
    requires
        a <= b <= v@.len(),
    ensures
        r@ == v@.subrange(a as int, b as int),
{
    let mut r: Vec<char> = Vec::new();
    let mut i: usize = a;
    while i < b
        invariant
            a <= i <= b <= v@.len(),
            r@ == v@.subrange(a as int, i as int),
        decreases b - i,
    {
        r.push(v[i]);
        i = i + 1;
        assert(r@ =~= v@.subrange(a as int, i as int));
    }
    r
}

proof fn lemma_digits_nonneg(w: Seq<char>)
    requires
        forall|i: int| 0 <= i < w.len() ==> is_digit(#[trigger] w[i]),
    ensures
        digits_value(w) >= 0,
    decreases w.len(),
{
    if w.len() > 0 {
        lemma_digits_nonneg(w.drop_last());
    }
}

/// The number of bytes of the UTF-8 encoding of `s`.
pub open spec fn byte_len(s: Seq<char>) -> int {
    encode_utf8(s).len() as int
}

/// The byte offset, in the UTF-8 encoding of `s`, of the character at index `i`.
pub open spec fn byte_offset(s: Seq<char>, i: int) -> int {
    byte_len(s.subrange(0, i))
}

proof fn lemma_encode_concat(a: Seq<char>, b: Seq<char>)
    ensures
        encode_utf8(a + b) == encode_utf8(a) + encode_utf8(b),
    decreases a.len(),
{
    if a.len() == 0 {
        assert(a + b =~= b);
        assert(encode_utf8(a) + encode_utf8(b) =~= encode_utf8(b));
    } else {
        assert((a + b).drop_first() =~= a.drop_first() + b);
        assert((a + b)[0] == a[0]);
        lemma_encode_concat(a.drop_first(), b);
        assert(encode_utf8(a + b) =~= encode_utf8(a) + encode_utf8(b));
    }
}

/// Each character adds the length of its own encoding to the byte offset.
pub proof fn lemma_byte_step(s: Seq<char>, i: int)
    requires
        0 <= i < s.len(),
    ensures
        byte_offset(s, i + 1) == byte_offset(s, i) + encode_scalar(s[i] as u32).len(),
{
    let a = s.subrange(0, i);
    let c = seq![s[i]];
    assert(s.subrange(0, i + 1) =~= a + c);
    lemma_encode_concat(a, c);
    assert(c.drop_first() =~= Seq::<char>::empty());
    assert(c[0] == s[i]);
    assert(encode_utf8(c.drop_first()) =~= Seq::<u8>::empty());
    assert(encode_utf8(c) =~= encode_scalar(s[i] as u32));
}

/// Byte offsets grow with the index, up to the length of the whole encoding.
pub proof fn lemma_byte_mono(s: Seq<char>, i: int, j: int)
    requires
        0 <= i <= j <= s.len(),
    ensures
        byte_offset(s, i) <= byte_offset(s, j),
        byte_offset(s, s.len() as int) == byte_len(s),
    decreases j - i,
{
    assert(s.subrange(0, s.len() as int) =~= s);
    if i < j {
        lemma_byte_step(s, j - 1);
        lemma_byte_mono(s, i, j - 1);
    }
}

/// The length of the UTF-8 encoding of `c`.
fn utf8_width(c: char) -> (r: usize)
    ensures
        r == encode_scalar(c as u32).len(),
        1 <= r <= 4,
{
    proof {
        char_is_scalar(c);
    }
    let u = c as u32;
    if u < 0x80 {
        1
    } else if u < 0x800 {
        2
    } else if u < 0x10000 {
        3
    } else {
        4
    }
}

/// The byte offset of the character at `to`, from that of the one at `from`.
fn advance(chars: &Vec<char>, from: usize, to: usize, base: usize) -> (r: usize)
    requires
        from <= to <= chars@.len(),
        base == byte_offset(chars@, from as int),
        byte_len(chars@) <= usize::MAX,
    ensures
        r == byte_offset(chars@, to as int),
{
    let mut i = from;
    let mut b = base;
    while i < to
        invariant
            from <= i <= to <= chars@.len(),
            b == byte_offset(chars@, i as int),
            byte_len(chars@) <= usize::MAX,
        decreases to - i,
    {
        proof {
            lemma_byte_step(chars@, i as int);
            lemma_byte_mono(chars@, i + 1, chars@.len() as int);
        }
        b = b + utf8_width(chars[i]);
        i = i + 1;
    }
    b
}

/// A lexer over a source text: produces its tokens one by one.
pub struct Lexer {
    chars: Vec<char>,
    pos: usize,
    byte: usize,
}

impl Lexer {
    /// The source text.
    pub closed spec fn text(&self) -> Seq<char> {
        self.chars@
    }

    /// The index, in characters, of where the next token is looked for.
    pub closed spec fn position(&self) -> int {
        self.pos as int
    }

    /// The lexer's position is within the text, its byte offset is that of
    /// the position, and the text's encoding fits in memory offsets.
    pub closed spec fn wf(&self) -> bool {
        &&& self.pos <= self.chars@.len()
        &&& self.byte == byte_offset(self.chars@, self.pos as int)
        &&& byte_len(self.chars@) <= usize::MAX
    }

    /// A lexer at the start of `source`.
    pub fn new(source: &str) -> (r: Lexer)
        requires
            byte_len(source@) <= usize::MAX,
        ensures
            r.wf(),
            r.text() == source@,
            r.position() == 0,
    {
        let r = Lexer { chars: chars_of(source), pos: 0, byte: 0 };
        assert(r.chars@.subrange(0, 0) =~= Seq::<char>::empty());
        r
    }

    /// The next token and its byte span, or the error, with its byte offset,
    /// at the first place where no token can start, or `None` at the end of
    /// the text. Whitespace between tokens is skipped.
    pub fn next(&mut self) -> (r: Option<Result<Spanned, (usize, BadLex)>>)
        requires
            old(self).wf(),
        ensures
            final(self).wf(),
            final(self).text() == old(self).text(),
            ({
                let s = old(self).text();
                let a = skip_space(s, old(self).position());
                match r {
                    None => a >= s.len(),
                    Some(Ok((i, t, j))) => {
                        &&& a < s.len()
                        &&& scan_end(s, a) matches Some(b)
                        &&& i == byte_offset(s, a)
                        &&& j == byte_offset(s, b)
                        &&& denotes(t, s.subrange(a, b))
                        &&& final(self).position() == b
                    },
                    Some(Err((i, e))) => {
                        &&& a < s.len()
                        &&& scan_end(s, a) is None
                        &&& i == byte_offset(s, a)
                        &&& reports(e, s, a)
                    },
                }
            }),
    {
        let p0 = self.pos;
        let b0 = self.byte;
        let ghost s = self.chars@;
        proof {
            lemma_run_ends(s, p0 as int);
        }
        match self.scan() {
            None => None,
            Some(Ok((a, t, b))) => {
                proof {
                    lemma_run_ends(s, a + 1);
                }
                let ba = advance(&self.chars, p0, a, b0);
                let bb = advance(&self.chars, a, b, ba);
                self.byte = bb;
                Some(Ok((ba, t, bb)))
            },
            Some(Err((a, e))) => {
                let ba = advance(&self.chars, p0, a, b0);
                self.byte = advance(&self.chars, a, self.pos, ba);
                Some(Err((ba, e)))
            },
        }
    }

    /// The next token and its span in characters, or the error at the first
    /// place where no token can start, or `None` at the end of the text.
    fn scan(&mut self) -> (r: Option<Result<(usize, Token, usize), (usize, BadLex)>>)
        requires
            old(self).pos <= old(self).chars@.len(),
        ensures
            final(self).chars == old(self).chars,
            final(self).byte == old(self).byte,
            final(self).pos <= final(self).chars@.len(),
            ({
                let s = old(self).text();
                let a = skip_space(s, old(self).position());
                match r {
                    None => a >= s.len() && final(self).pos == old(self).pos,
                    Some(Ok((i, t, j))) => {
                        &&& i == a < s.len()
                        &&& scan_end(s, a) == Some(j as int)
                        &&& denotes(t, s.subrange(a, j as int))
                        &&& final(self).position() == j
                    },
                    Some(Err((i, e))) => {
                        &&& i == a < s.len()
                        &&& scan_end(s, a) is None
                        &&& reports(e, s, a)
                        &&& final(self).pos == s.len()
                    },
                }
            }),
    {
        let n = self.chars.len();
        let ghost s = self.chars@;
        let mut a = self.pos;
        while a < n && space(self.chars[a])
            invariant
                n == s.len(),
                s == self.chars@,
                a >= self.pos,
                skip_space(s, a as int) == skip_space(s, self.pos as int),
            decreases n - a,
        {
            a = a + 1;
        }
        if a >= n {
            return None;
        }
        let c = self.chars[a];
        let single = if c == '{' {
            Some(Token::LBRACE)
        } else if c == '}' {
            Some(Token::RBRACE)
        } else if c == '(' {
            Some(Token::LPAREN)
        } else if c == ')' {
            Some(Token::RPAREN)
        } else if c == ';' {
            Some(Token::SEMICOLON)
        } else if c == '+' {
            Some(Token::ADD)
        } else if c == '*' {
            Some(Token::MUL)
        } else if c == '-' {
            Some(Token::SUB)
        } else {
            None
        };
        if let Some(t) = single {
            self.pos = a + 1;
            assert(s.subrange(a as int, a + 1)[0] == c);
            return Some(Ok((a, t, a + 1)));
        }
        if c == ':' || c == '<' || c == '=' {
            let second = if c == ':' {
                '='
            } else {
                '?'
            };
            if a + 1 < n && self.chars[a + 1] == second {
                let t = if c == ':' {
                    Token::ASGN
                } else if c == '<' {
                    Token::LT
                } else {
                    Token::EQ
                };
                self.pos = a + 2;
                assert(s.subrange(a as int, a + 2)[0] == c);
                return Some(Ok((a, t, a + 2)));
            }
            self.pos = n;
            return Some(Err((a, BadLex::ExpectedChar(c, second))));
        }
        if '0' <= c && c <= '9' {
            let mut b = a + 1;
            let mut v: i64 = (c as u32 - '0' as u32) as i64;
            let mut over = false;
            assert(s.subrange(a as int, b as int).drop_last() =~= Seq::<char>::empty());
            assert(s.subrange(a as int, b as int).last() == c);
            assert(digits_value(Seq::<char>::empty()) == 0);
            assert(digits_value(s.subrange(a as int, b as int)) == digit_value(c));
            while b < n && '0' <= self.chars[b] && self.chars[b] <= '9'
                invariant
                    n == s.len(),
                    s == self.chars@,
                    a < b <= n,
                    digits_end(s, b as int) == digits_end(s, a + 1),
                    forall|i: int| a <= i < b ==> is_digit(#[trigger] s[i]),
                    !over ==> v == digits_value(s.subrange(a as int, b as int)) && 0 <= v <= i32::MAX,
                    over ==> digits_value(s.subrange(a as int, b as int)) > i32::MAX,
                decreases n - b,
            {
                let d = (self.chars[b] as u32 - '0' as u32) as i64;
                let ghost w = s.subrange(a as int, b as int);
                assert(s.subrange(a as int, b + 1).drop_last() =~= w);
                proof {
                    lemma_digits_nonneg(w);
                }
                if !over {
                    v = v * 10 + d;
                    if v > i32::MAX as i64 {
                        over = true;
                    }
                }
                b = b + 1;
            }
            self.pos = b;
            if over {
                self.pos = n;
                let digits = copy_range(&self.chars, a, b);
                return Some(Err((a, BadLex::Internal(string_of(&digits)))));
            }
            return Some(Ok((a, Token::NUM(v as i32), b)));
        }
        if letter(c) {
            let mut b = a + 1;
            while b < n && alnum(self.chars[b])
                invariant
                    n == s.len(),
                    s == self.chars@,
                    a < b <= n,
                    alnum_end(s, b as int) == alnum_end(s, a + 1),
                decreases n - b,
            {
                b = b + 1;
            }
            let word = copy_range(&self.chars, a, b);
            let t = token_of_string(&word);
            self.pos = b;
            return Some(Ok((a, t, b)));
        }
        self.pos = n;
        Some(Err((a, BadLex::NonTokenChar(c))))
    }
}

/// Spans already found, followed by the result of lexing the rest.
pub open spec fn glue(done: Seq<(int, int)>, rest: Result<Seq<(int, int)>, int>) -> Result<Seq<(int, int)>, int> {
    match rest {
        Ok(r) => Ok(done + r),
        Err(e) => Err(e),
    }
}

/// The tokens `toks` of the text `s` lie at the character spans `sp`: each
/// token's byte span is that of its characters, which spell it.
pub open spec fn spans_agree(s: Seq<char>, sp: Seq<(int, int)>, toks: Seq<Spanned>) -> bool {
    &&& sp.len() == toks.len()
    &&& forall|k: int|
        0 <= k < toks.len() ==> {
            &&& (#[trigger] toks[k]).0 == byte_offset(s, sp[k].0)
            &&& toks[k].2 == byte_offset(s, sp[k].1)
            &&& denotes(toks[k].1, s.subrange(sp[k].0, sp[k].1))
        }
}

/// Splits `src` into tokens. On success the tokens lie at the spans that
/// `lex_spans` gives, reported as byte offsets, and each is the token that
/// its characters spell; otherwise the error is for the first position where
/// no token can start, again as a byte offset.
pub fn tokenize(src: &str) -> (r: Result<Vec<Spanned>, (usize, BadLex)>)
    requires
        byte_len(src@) <= usize::MAX,
    ensures
        match r {
            Ok(toks) => lex_spans(src@, 0) matches Ok(sp) && spans_agree(src@, sp, toks@),
            Err((i, e)) => lex_spans(src@, 0) matches Err(a) && i == byte_offset(src@, a) && reports(
                e,
                src@,
                a,
            ),
        },
{
    let mut tokens: Vec<Spanned> = Vec::new();
    let mut lexer = Lexer::new(src);
    let ghost s = src@;
    let ghost mut csp: Seq<(int, int)> = Seq::empty();
    assert(glue(Seq::empty(), lex_spans(s, 0)) =~= lex_spans(s, 0));
    loop
        invariant
            s == src@,
            lexer.wf(),
            lexer.text() == s,
            0 <= lexer.position(),
            glue(csp, lex_spans(s, lexer.position())) == lex_spans(s, 0),
            spans_agree(s, csp, tokens@),
        decreases s.len() - lexer.position(),
    {
        let ghost p = lexer.position();
        let ghost before = tokens@;
        let ghost csp0 = csp;
        proof {
            lemma_run_ends(s, p);
        }
        match lexer.next() {
            None => {
                assert(lex_spans(s, p) == Ok::<Seq<(int, int)>, int>(Seq::empty()));
                assert(csp + Seq::<(int, int)>::empty() =~= csp);
                return Ok(tokens);
            },
            Some(Ok(sp)) => {
                let ghost a = skip_space(s, p);
                let ghost b = scan_end(s, a)->Some_0;
                proof {
                    lemma_run_ends(s, a + 1);
                }
                assert(lex_spans(s, p) == glue(seq![(a, b)], lex_spans(s, b)));
                tokens.push(sp);
                proof {
                    csp = csp0.push((a, b));
                    if let Ok(rest) = lex_spans(s, b) {
                        assert(csp0 + (seq![(a, b)] + rest) =~= csp + rest);
                    }
                    assert forall|k: int| 0 <= k < tokens@.len() implies {
                        &&& (#[trigger] tokens@[k]).0 == byte_offset(s, csp[k].0)
                        &&& tokens@[k].2 == byte_offset(s, csp[k].1)
                        &&& denotes(tokens@[k].1, s.subrange(csp[k].0, csp[k].1))
                    } by {
                        if k < before.len() {
                            assert(tokens@[k] == before[k]);
                            assert(csp[k] == csp0[k]);
                        }
                    }
                }
            },
            Some(Err(err)) => {
                let ghost a = skip_space(s, p);
                assert(lex_spans(s, p) == Err::<Seq<(int, int)>, int>(a));
                return Err(err);
            },
        }
    }
}

/// The character of a decimal digit.
pub open spec fn digit_char(d: nat) -> char {
    if d == 0 {
        '0'
    } else if d == 1 {
        '1'
    } else if d == 2 {
        '2'
    } else if d == 3 {
        '3'
    } else if d == 4 {
        '4'
    } else if d == 5 {
        '5'
    } else if d == 6 {
        '6'
    } else if d == 7 {
        '7'
    } else if d == 8 {
        '8'
    } else {
        '9'
    }
}

/// The decimal digits of `n`, without leading zeros.
pub open spec fn nat_text(n: nat) -> Seq<char>
    decreases n,
{
    if n < 10 {
        seq![digit_char(n)]
    } else {
        nat_text(n / 10).push(digit_char(n % 10))
    }
}

/// The decimal text of an integer, with a leading `-` when it is negative.
pub open spec fn int_text(z: int) -> Seq<char> {
    if z < 0 {
        seq!['-'] + nat_text((-z) as nat)
    } else {
        nat_text(z as nat)
    }
}

/// How a token is written.
pub open spec fn token_text(t: Token) -> Seq<char> {
    match t {
        Token::LBRACE => seq!['{'],
        Token::RBRACE => seq!['}'],
        Token::LPAREN => seq!['('],
        Token::RPAREN => seq![')'],
        Token::SEMICOLON => seq![';'],
        Token::IF => seq!['i', 'f'],
        Token::ELSE => seq!['e', 'l', 's', 'e'],
        Token::WHILE => seq!['w', 'h', 'i', 'l', 'e'],
        Token::ASGN => seq![':', '='],
        Token::PRINT => seq!['p', 'r', 'i', 'n', 't'],
        Token::SKIP => seq!['s', 'k', 'i', 'p'],
        Token::OR => seq!['o', 'r'],
        Token::AND => seq!['a', 'n', 'd'],
        Token::EQ => seq!['=', '?'],
        Token::LT => seq!['<', '?'],
        Token::ADD => seq!['+'],
        Token::SUB => seq!['-'],
        Token::MUL => seq!['*'],
        Token::BOOL(b) => if b {
            seq!['t', 'r', 'u', 'e']
        } else {
            seq!['f', 'a', 'l', 's', 'e']
        },
        Token::NUM(z) => int_text(z as int),
        Token::VAR(x) => x@,
    }
}

fn digit_of(d: u64) -> (c: char)
    requires
        d < 10,
    ensures
        c == digit_char(d as nat),
{
    if d == 0 {
        '0'
    } else if d == 1 {
        '1'
    } else if d == 2 {
        '2'
    } else if d == 3 {
        '3'
    } else if d == 4 {
        '4'
    } else if d == 5 {
        '5'
    } else if d == 6 {
        '6'
    } else if d == 7 {
        '7'
    } else if d == 8 {
        '8'
    } else {
        '9'
    }
}

/// Appends the decimal digits of `n` to `out`.
fn push_digits(n: u64, out: &mut Vec<char>)
    ensures
        final(out)@ == old(out)@ + nat_text(n as nat),
    decreases n,
{
    if n >= 10 {
        push_digits(n / 10, out);
        out.push(digit_of(n % 10));
        assert(final(out)@ =~= old(out)@ + nat_text(n as nat));
    } else {
        out.push(digit_of(n));
        assert(final(out)@ =~= old(out)@ + nat_text(n as nat));
    }
}

/// Appends the decimal text of `z` to `out`.
pub(crate) fn push_int(z: i32, out: &mut Vec<char>)
    ensures
        final(out)@ == old(out)@ + int_text(z as int),
{
    if z < 0 {
        out.push('-');
        let m: i64 = -(z as i64);
        push_digits(m as u64, out);
        assert(final(out)@ =~= old(out)@ + int_text(z as int));
    } else {
        push_digits(z as u64, out);
    }
}

pub(crate) fn push_str_chars(out: &mut Vec<char>, w: &[char])
    ensures
        final(out)@ == old(out)@ + w@,
{
    let mut i: usize = 0;
    let ghost start = out@;
    while i < w.len()
        invariant
            i <= w@.len(),
            out@ == start + w@.subrange(0, i as int),
        decreases w@.len() - i,
    {
        out.push(w[i]);
        i = i + 1;
        assert(out@ =~= start + w@.subrange(0, i as int));
    }
    assert(w@.subrange(0, w@.len() as int) =~= w@);
}

impl Token {
    /// How the token is written in source text.
    pub fn text(&self) -> (r: String)
        ensures
            r@ == token_text(*self),
    {
        let mut out: Vec<char> = Vec::new();
        match self {
            Token::LBRACE => out.push('{'),
            Token::RBRACE => out.push('}'),
            Token::LPAREN => out.push('('),
            Token::RPAREN => out.push(')'),
            Token::SEMICOLON => out.push(';'),
            Token::IF => push_str_chars(&mut out, &['i', 'f']),
            Token::ELSE => push_str_chars(&mut out, &['e', 'l', 's', 'e']),
            Token::WHILE => push_str_chars(&mut out, &['w', 'h', 'i', 'l', 'e']),
            Token::ASGN => push_str_chars(&mut out, &[':', '=']),
            Token::PRINT => push_str_chars(&mut out, &['p', 'r', 'i', 'n', 't']),
            Token::SKIP => push_str_chars(&mut out, &['s', 'k', 'i', 'p']),
            Token::OR => push_str_chars(&mut out, &['o', 'r']),
            Token::AND => push_str_chars(&mut out, &['a', 'n', 'd']),
            Token::EQ => push_str_chars(&mut out, &['=', '?']),
            Token::LT => push_str_chars(&mut out, &['<', '?']),
            Token::ADD => out.push('+'),
            Token::SUB => out.push('-'),
            Token::MUL => out.push('*'),
            Token::BOOL(b) => if *b {
                push_str_chars(&mut out, &['t', 'r', 'u', 'e'])
            } else {
                push_str_chars(&mut out, &['f', 'a', 'l', 's', 'e'])
            },
            Token::NUM(z) => push_int(*z, &mut out),
            Token::VAR(x) => {
                return x.clone();
            },
        }
        let r = string_of(&out);
        assert(r@ =~= token_text(*self));
        r
    }
}

proof fn lemma_ascii_bytes(w: Seq<char>)
    requires
        forall|i: int| 0 <= i < w.len() ==> is_ascii_char(#[trigger] w[i]),
    ensures
        byte_len(w) == w.len(),
    decreases w.len(),
{
    if w.len() > 0 {
        assert(is_ascii_char(w[0]));
        assert forall|i: int| 0 <= i < w.drop_first().len() implies is_ascii_char(#[trigger] w.drop_first()[i]) by {
            assert(w.drop_first()[i] == w[i + 1]);
        }
        lemma_ascii_bytes(w.drop_first());
    }
}

proof fn lemma_text_ascii(t: Token)
    requires
        !(t is VAR),
    ensures
        forall|i: int| 0 <= i < token_text(t).len() ==> is_ascii_char(#[trigger] token_text(t)[i]),
{
    let w = token_text(t);
    if let Token::NUM(z) = t {
        let n: nat = if z < 0 {
            (-z) as nat
        } else {
            z as nat
        };
        lemma_nat_text(n);
        assert forall|i: int| 0 <= i < w.len() implies is_ascii_char(#[trigger] w[i]) by {
            if z < 0 {
                if i > 0 {
                    assert(w[i] == nat_text(n)[i - 1]);
                }
            } else {
                assert(w[i] == nat_text(n)[i]);
            }
        }
    } else {
        assert forall|i: int| 0 <= i < w.len() implies is_ascii_char(#[trigger] w[i]) by {
            assert(0 <= i < 5);
            if i == 0 {
            } else if i == 1 {
            } else if i == 2 {
            } else if i == 3 {
            } else {
            }
        }
    }
}

impl Token {
    /// The length of the token's text in bytes.
    pub fn len(&self) -> (r: usize)
        requires
            byte_len(token_text(*self)) <= usize::MAX,
        ensures
            r == byte_len(token_text(*self)),
    {
        match self {
            Token::VAR(x) => x.as_str().len(),
            _ => {
                let mut out: Vec<char> = Vec::new();
                match self {
                    Token::NUM(z) => push_int(*z, &mut out),
                    _ => {
                        let w = self.text();
                        out = chars_of(w.as_str());
                    },
                }
                proof {
                    lemma_text_ascii(*self);
                    assert(out@ =~= token_text(*self));
                    lemma_ascii_bytes(out@);
                }
                out.len()
            },
        }
    }
}

/// The token with its byte span, for a token whose text starts at byte
/// offset `i`.
pub fn spanned(i: usize, token: Token) -> (r: Spanned)
    requires
        i + byte_len(token_text(token)) <= usize::MAX,
    ensures
        r.0 == i,
        r.1 == token,
        r.2 == i + byte_len(token_text(token)),
{
    let n = token.len();
    (i, token, i + n)
}

/// A token written without a name of the user's choosing and without a
/// sign: a symbol, keyword, boolean literal or non-negative integer literal.
pub open spec fn plain(t: Token) -> bool {
    match t {
        Token::VAR(_) => false,
        Token::NUM(z) => z >= 0,
        _ => true,
    }
}

/// The tokens written out one after the other, separated by single spaces.
pub open spec fn render(ts: Seq<Token>) -> Seq<char>
    decreases ts.len(),
{
    if ts.len() == 0 {
        Seq::empty()
    } else if ts.len() == 1 {
        token_text(ts[0])
    } else {
        token_text(ts[0]) + seq![' '] + render(ts.subrange(1, ts.len() as int))
    }
}

proof fn lemma_digit_char(d: nat)
    requires
        d < 10,
    ensures
        digit_value(digit_char(d)) == d,
        is_digit(digit_char(d)),
{
    assert(('0' as u32) == 48);
    assert(('9' as u32) == 57);
}

proof fn lemma_nat_text(n: nat)
    ensures
        nat_text(n).len() >= 1,
        forall|i: int| 0 <= i < nat_text(n).len() ==> is_digit(#[trigger] nat_text(n)[i]),
        digits_value(nat_text(n)) == n,
    decreases n,
{
    if n >= 10 {
        lemma_nat_text(n / 10);
        lemma_digit_char(n % 10);
        let w = nat_text(n / 10).push(digit_char(n % 10));
        assert(nat_text(n) == w);
        assert(w.drop_last() == nat_text(n / 10));
        assert(w.last() == digit_char(n % 10));
        assert(digits_value(w) == digits_value(w.drop_last()) * 10 + digit_value(w.last()));
        assert((n / 10) * 10 + n % 10 == n);
        assert forall|i: int| 0 <= i < w.len() implies is_digit(#[trigger] w[i]) by {
            if i < w.len() - 1 {
                assert(w[i] == nat_text(n / 10)[i]);
            }
        }
    } else {
        lemma_digit_char(n);
        let w = seq![digit_char(n)];
        assert(nat_text(n) == w);
        assert(w.drop_last() =~= Seq::<char>::empty());
        assert(digits_value(w) == digits_value(w.drop_last()) * 10 + digit_value(w.last()));
    }
}

proof fn lemma_alnum_run(s: Seq<char>, a: int, b: int)
    requires
        0 <= a <= b <= s.len(),
        forall|i: int| a <= i < b ==> is_alnum(#[trigger] s[i]),
        b == s.len() || s[b] == ' ',
    ensures
        alnum_end(s, a) == b,
    decreases b - a,
{
    if a < b {
        lemma_alnum_run(s, a + 1, b);
    }
}

proof fn lemma_digit_run(s: Seq<char>, a: int, b: int)
    requires
        0 <= a <= b <= s.len(),
        forall|i: int| a <= i < b ==> is_digit(#[trigger] s[i]),
        b == s.len() || s[b] == ' ',
    ensures
        digits_end(s, a) == b,
    decreases b - a,
{
    if a < b {
        lemma_digit_run(s, a + 1, b);
    }
}

proof fn lemma_word(s: Seq<char>, p: int, w: Seq<char>)
    requires
        0 <= p,
        p + w.len() <= s.len(),
        s.subrange(p, p + w.len()) == w,
        p + w.len() == s.len() || s[p + w.len()] == ' ',
        w.len() >= 1,
        forall|i: int| 0 <= i < w.len() ==> is_ascii_char(#[trigger] w[i]) && is_letter(w[i]),
    ensures
        scan_end(s, p) == Some(p + w.len()),
{
    assert forall|i: int| p + 1 <= i < p + w.len() implies is_alnum(#[trigger] s[i]) by {
        assert(s[i] == w[i - p]);
    }
    assert(s[p] == w[0]);
    lemma_alnum_run(s, p + 1, p + w.len());
}

proof fn lemma_scan_text(s: Seq<char>, p: int, t: Token)
    requires
        plain(t),
        0 <= p,
        p + token_text(t).len() <= s.len(),
        s.subrange(p, p + token_text(t).len()) == token_text(t),
        p + token_text(t).len() == s.len() || s[p + token_text(t).len()] == ' ',
    ensures
        token_text(t).len() >= 1,
        !is_space(s[p]),
        scan_end(s, p) == Some(p + token_text(t).len()),
{
    let w = token_text(t);
    let n = w.len();
    match t {
        Token::NUM(z) => {
            lemma_nat_text(z as nat);
            assert(s[p] == w[0]);
            assert forall|i: int| p + 1 <= i < p + n implies is_digit(#[trigger] s[i]) by {
                assert(s[i] == w[i - p]);
            }
            lemma_digit_run(s, p + 1, p + n);
        },
        Token::IF => lemma_word(s, p, w),
        Token::ELSE => lemma_word(s, p, w),
        Token::WHILE => lemma_word(s, p, w),
        Token::PRINT => lemma_word(s, p, w),
        Token::SKIP => lemma_word(s, p, w),
        Token::OR => lemma_word(s, p, w),
        Token::AND => lemma_word(s, p, w),
        Token::BOOL(b) => lemma_word(s, p, w),
        Token::ASGN => {
            assert(s[p] == w[0] && s[p + 1] == w[1]);
        },
        Token::EQ => {
            assert(s[p] == w[0] && s[p + 1] == w[1]);
        },
        Token::LT => {
            assert(s[p] == w[0] && s[p + 1] == w[1]);
        },
        _ => {
            assert(s[p] == w[0]);
        },
    }
}

proof fn lemma_denotes_text(t: Token)
    requires
        plain(t),
    ensures
        denotes(t, token_text(t)),
        forall|u: Token| denotes(u, token_text(t)) ==> u == t,
{
    if let Token::NUM(z) = t {
        lemma_nat_text(z as nat);
    }
}

proof fn lemma_lex_render(pre: Seq<char>, ts: Seq<Token>)
    requires
        forall|k: int| 0 <= k < ts.len() ==> plain(#[trigger] ts[k]),
    ensures
        ({
            let s = pre + render(ts);
            lex_spans(s, pre.len() as int) matches Ok(sp) && sp.len() == ts.len() && forall|k: int|
                0 <= k < ts.len() ==> s.subrange((#[trigger] sp[k]).0, sp[k].1) == token_text(ts[k])
        }),
    decreases ts.len(),
{
    let s = pre + render(ts);
    let p = pre.len() as int;
    if ts.len() == 0 {
        assert(s =~= pre);
    } else if ts.len() == 1 {
        let t = ts[0];
        let w = token_text(t);
        assert(s =~= pre + w);
        assert(s.subrange(p, p + w.len()) =~= w);
        lemma_scan_text(s, p, t);
        let q = p + w.len();
        assert(lex_spans(s, q) == Ok::<Seq<(int, int)>, int>(Seq::empty()));
        assert(lex_spans(s, p) == Ok::<Seq<(int, int)>, int>(seq![(p, q)]));
    } else {
        let t = ts[0];
        let w = token_text(t);
        let tail = ts.subrange(1, ts.len() as int);
        let pre2 = pre + w + seq![' '];
        assert(s =~= pre2 + render(tail));
        assert(s.subrange(p, p + w.len()) =~= w);
        assert(s[p + w.len()] == ' ');
        lemma_scan_text(s, p, t);
        assert forall|k: int| 0 <= k < tail.len() implies plain(#[trigger] tail[k]) by {
            assert(tail[k] == ts[k + 1]);
        }
        lemma_lex_render(pre2, tail);
        let q = p + w.len();
        assert(is_space(s[q]));
        assert(skip_space(s, q) == skip_space(s, q + 1));
        assert(lex_spans(s, q) == lex_spans(s, q + 1));
        let sp_tail = lex_spans(s, q + 1)->Ok_0;
        let sp = seq![(p, q)] + sp_tail;
        assert(lex_spans(s, p) == Ok::<Seq<(int, int)>, int>(sp));
        assert forall|k: int| 0 <= k < ts.len() implies s.subrange((#[trigger] sp[k]).0, sp[k].1) == token_text(ts[k]) by {
            if k > 0 {
                assert(sp[k] == sp_tail[k - 1]);
                assert(ts[k] == tail[k - 1]);
            }
        }
    }
}

/// Lexing what the tokens display as gives them back: writing plain tokens
/// (symbols, keywords, boolean and non-negative integer literals) one after
/// the other, separated by single spaces, and splitting the text again yields
/// one span per token, and the only token that each span's characters spell
/// is the token written there.
pub proof fn lemma_lex_round_trip(ts: Seq<Token>)
    requires
        forall|k: int| 0 <= k < ts.len() ==> plain(#[trigger] ts[k]),
    ensures
        lex_spans(render(ts), 0) matches Ok(sp) && sp.len() == ts.len() && forall|k: int, u: Token|
            0 <= k < ts.len() ==> (#[trigger] denotes(u, render(ts).subrange(sp[k].0, sp[k].1)) <==> u
                == ts[k]),
{
    lemma_lex_render(Seq::empty(), ts);
    assert(Seq::<char>::empty() + render(ts) =~= render(ts));
    let sp = lex_spans(render(ts), 0)->Ok_0;
    assert forall|k: int, u: Token|
        0 <= k < ts.len() implies (#[trigger] denotes(u, render(ts).subrange(sp[k].0, sp[k].1)) <==> u == ts[k]) by {
        lemma_denotes_text(ts[k]);
    }
}

/// What `tokenize` returns for the space-separated text of plain tokens
/// is those tokens, in order.
pub proof fn lemma_tokenize_round_trip(ts: Seq<Token>, toks: Seq<Spanned>)
    requires
        forall|k: int| 0 <= k < ts.len() ==> plain(#[trigger] ts[k]),
        lex_spans(render(ts), 0) matches Ok(sp) && spans_agree(render(ts), sp, toks),
    ensures
        toks.len() == ts.len(),
        forall|k: int| 0 <= k < ts.len() ==> (#[trigger] toks[k]).1 == ts[k],
{
    lemma_lex_round_trip(ts);
    let sp = lex_spans(render(ts), 0)->Ok_0;
    assert forall|k: int| 0 <= k < ts.len() implies (#[trigger] toks[k]).1 == ts[k] by {
        assert(denotes(toks[k].1, render(ts).subrange(sp[k].0, sp[k].1)));
    }
}

} // verus!
