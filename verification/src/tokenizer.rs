use vstd::prelude::*;
use crate::token::{LexError, Token, TokenV};
use crate::types::{Type, TypeV};

verus! {

// ---------------------------------------------------------------------------
// Character classes
// ---------------------------------------------------------------------------

/// Whitespace characters that separate tokens.
pub open spec fn is_space_char(c: char) -> bool {
    c == ' ' || c == '\t' || c == '\n' || c == '\r' || c == '\u{b}' || c == '\u{c}'
}

/// Characters that may form words: ASCII letters, digits and underscore.
pub open spec fn is_word_char(c: char) -> bool {
    ('a' <= c && c <= 'z') || ('A' <= c && c <= 'Z') || ('0' <= c && c <= '9') || c == '_'
}

/// Characters that may form symbol runs: anything that is not a word
/// character, not whitespace and not a double quote.
pub open spec fn is_symbol_char(c: char) -> bool {
    !is_word_char(c) && !is_space_char(c) && c != '"'
}

pub open spec fn is_digit_char(c: char) -> bool {
    '0' <= c && c <= '9'
}

pub open spec fn digit_val(c: char) -> int {
    c as int - '0' as int
}

// ---------------------------------------------------------------------------
// Scanning boundaries
// ---------------------------------------------------------------------------

/// Index of the first non-whitespace character at or after `i`.
pub open spec fn ws_end(s: Seq<char>, i: int) -> int
    decreases s.len() - i,
{
    if i < 0 || i >= s.len() {
        i
    } else if is_space_char(s[i]) {
        ws_end(s, i + 1)
    } else {
        i
    }
}

/// Index just past the maximal run of word characters starting at `i`.
pub open spec fn word_end(s: Seq<char>, i: int) -> int
    decreases s.len() - i,
{
    if i < 0 || i >= s.len() {
        i
    } else if is_word_char(s[i]) {
        word_end(s, i + 1)
    } else {
        i
    }
}

/// Index just past the run of at most two symbol characters starting at `i`.
pub open spec fn symbol_end(s: Seq<char>, i: int) -> int {
    if 0 <= i < s.len() && is_symbol_char(s[i]) {
        if i + 1 < s.len() && is_symbol_char(s[i + 1]) {
            i + 2
        } else {
            i + 1
        }
    } else {
        i
    }
}

/// Index of the first double quote at or after `i`, or `s.len()` if none.
pub open spec fn quote_index(s: Seq<char>, i: int) -> int
    decreases s.len() - i,
{
    if i < 0 || i >= s.len() {
        s.len() as int
    } else if s[i] == '"' {
        i
    } else {
        quote_index(s, i + 1)
    }
}

pub proof fn lemma_ws_end(s: Seq<char>, i: int)
    requires
        0 <= i <= s.len(),
    ensures
        i <= ws_end(s, i) <= s.len(),
        forall|j: int| i <= j < ws_end(s, i) ==> is_space_char(s[j]),
        ws_end(s, i) < s.len() ==> !is_space_char(s[ws_end(s, i)]),
    decreases s.len() - i,
{
    if i < s.len() && is_space_char(s[i]) {
        lemma_ws_end(s, i + 1);
    }
}

pub proof fn lemma_word_end(s: Seq<char>, i: int)
    requires
        0 <= i <= s.len(),
    ensures
        i <= word_end(s, i) <= s.len(),
        forall|j: int| i <= j < word_end(s, i) ==> is_word_char(s[j]),
        word_end(s, i) < s.len() ==> !is_word_char(s[word_end(s, i)]),
    decreases s.len() - i,
{
    if i < s.len() && is_word_char(s[i]) {
        lemma_word_end(s, i + 1);
    }
}

pub proof fn lemma_quote_index(s: Seq<char>, i: int)
    requires
        0 <= i <= s.len(),
    ensures
        i <= quote_index(s, i) <= s.len(),
        forall|j: int| i <= j < quote_index(s, i) ==> s[j] != '"',
        quote_index(s, i) < s.len() ==> s[quote_index(s, i)] == '"',
    decreases s.len() - i,
{
    if i < s.len() && s[i] != '"' {
        lemma_quote_index(s, i + 1);
    }
}

// ---------------------------------------------------------------------------
// Word classification
// ---------------------------------------------------------------------------

/// Value of a run of digits and underscores, scanned left to right with the
/// accumulator `acc`; `seen` records whether a digit has appeared yet.
/// `None` when a character is neither digit nor underscore, or no digit
/// appears at all.
pub open spec fn int_scan(w: Seq<char>, i: int, acc: int, seen: bool) -> Option<int>
    decreases w.len() - i,
{
    if i < 0 || i >= w.len() {
        if seen {
            Some(acc)
        } else {
            None
        }
    } else if w[i] == '_' {
        int_scan(w, i + 1, acc, seen)
    } else if is_digit_char(w[i]) {
        int_scan(w, i + 1, acc * 10 + digit_val(w[i]), true)
    } else {
        None
    }
}

/// Index of the first character at or after `i` that is not an underscore.
pub open spec fn underscores_end(w: Seq<char>, i: int) -> int
    decreases w.len() - i,
{
    if i < 0 || i >= w.len() {
        i
    } else if w[i] == '_' {
        underscores_end(w, i + 1)
    } else {
        i
    }
}

/// The numeric value of a word read as a base-ten integer with its
/// underscores stripped: an optional sign may follow leading underscores,
/// and at least one digit must appear.
pub open spec fn spec_int_value(w: Seq<char>) -> Option<int> {
    let j = underscores_end(w, 0);
    if 0 <= j < w.len() && (w[j] == '-' || w[j] == '+') {
        match int_scan(w, j + 1, 0, false) {
            Some(v) => if w[j] == '-' {
                Some(-v)
            } else {
                Some(v)
            },
            None => None,
        }
    } else {
        int_scan(w, 0, 0, false)
    }
}

/// An integer token for a word: its digits with underscores stripped, read in
/// base ten, provided the value fits in a signed 32-bit integer.
pub open spec fn spec_int_token(w: Seq<char>) -> Option<TokenV> {
    match spec_int_value(w) {
        Some(v) => if -0x8000_0000 <= v <= 0x7fff_ffff {
            Some(TokenV::Int(v))
        } else {
            None
        },
        None => None,
    }
}

/// The fixed keyword and type-name table.
pub open spec fn spec_keyword_token(w: Seq<char>) -> Option<TokenV> {
    if w == "if"@ {
        Some(TokenV::If)
    } else if w == "elif"@ {
        Some(TokenV::Elif)
    } else if w == "else"@ {
        Some(TokenV::Else)
    } else if w == "for"@ {
        Some(TokenV::For)
    } else if w == "in"@ {
        Some(TokenV::In)
    } else if w == "while"@ {
        Some(TokenV::While)
    } else if w == "func"@ {
        Some(TokenV::Function)
    } else if w == "return"@ {
        Some(TokenV::Return)
    } else if w == "let"@ {
        Some(TokenV::Let)
    } else if w == "struct"@ {
        Some(TokenV::Struct)
    } else if w == "true"@ {
        Some(TokenV::Bool(true))
    } else if w == "false"@ {
        Some(TokenV::Bool(false))
    } else if w == "int"@ {
        Some(TokenV::TypeName(TypeV::Int))
    } else if w == "str"@ {
        Some(TokenV::TypeName(TypeV::Str))
    } else if w == "bool"@ {
        Some(TokenV::TypeName(TypeV::Bool))
    } else if w == "void"@ {
        Some(TokenV::TypeName(TypeV::Void))
    } else {
        None
    }
}

/// The token of a nonempty word: an integer literal if the digits parse,
/// else a keyword, else an identifier.
pub open spec fn spec_word_token(w: Seq<char>) -> TokenV {
    match spec_int_token(w) {
        Some(t) => t,
        None => match spec_keyword_token(w) {
            Some(t) => t,
            None => TokenV::Var(w),
        },
    }
}

// ---------------------------------------------------------------------------
// Symbol classification
// ---------------------------------------------------------------------------

/// The one- and two-character operator tables.
pub open spec fn spec_symbol_token(w: Seq<char>) -> Option<TokenV> {
    if w.len() == 1 {
        let c = w[0];
        if c == '=' {
            Some(TokenV::Assign)
        } else if c == '{' {
            Some(TokenV::LeftCurly)
        } else if c == '[' {
            Some(TokenV::LeftBrace)
        } else if c == '(' {
            Some(TokenV::LeftParen)
        } else if c == '}' {
            Some(TokenV::RightCurly)
        } else if c == ']' {
            Some(TokenV::RightBrace)
        } else if c == ')' {
            Some(TokenV::RightParen)
        } else if c == '.' {
            Some(TokenV::Dot)
        } else if c == ',' {
            Some(TokenV::Comma)
        } else if c == ':' {
            Some(TokenV::Colon)
        } else if c == ';' {
            Some(TokenV::Semicolon)
        } else if c == '-' {
            Some(TokenV::Minus)
        } else if c == '+' {
            Some(TokenV::Plus)
        } else if c == '/' {
            Some(TokenV::Divide)
        } else if c == '*' {
            Some(TokenV::Multiply)
        } else if c == '%' {
            Some(TokenV::Modulo)
        } else if c == '!' {
            Some(TokenV::Not)
        } else if c == '>' {
            Some(TokenV::GreaterThan)
        } else if c == '<' {
            Some(TokenV::LessThan)
        } else {
            None
        }
    } else if w.len() == 2 {
        let c0 = w[0];
        let c1 = w[1];
        if c0 == '-' && c1 == '>' {
            Some(TokenV::Output)
        } else if c0 == '&' && c1 == '&' {
            Some(TokenV::And)
        } else if c0 == '|' && c1 == '|' {
            Some(TokenV::Or)
        } else if c0 == '>' && c1 == '=' {
            Some(TokenV::GreaterEqual)
        } else if c0 == '<' && c1 == '=' {
            Some(TokenV::LessEqual)
        } else if c0 == '=' && c1 == '=' {
            Some(TokenV::Equal)
        } else if c0 == '!' && c1 == '=' {
            Some(TokenV::NotEqual)
        } else {
            None
        }
    } else {
        None
    }
}

// ---------------------------------------------------------------------------
// The lexing function, mathematically
// ---------------------------------------------------------------------------

/// Tokens of `s` from position `i` on.  One step skips whitespace and then
/// reads a single token: the maximal word run, a string literal when a
/// double quote opens one, or a symbol, trying the two-character operator
/// table first and the one-character table second; then it continues after
/// what it consumed.
pub open spec fn spec_tokenize_at(s: Seq<char>, i: int) -> Result<Seq<TokenV>, LexError>
    decreases s.len() - i,
{
    if i < 0 {
        Ok(seq![])
    } else {
        let w0 = ws_end(s, i);
        if w0 >= s.len() {
            Ok(seq![])
        } else if is_word_char(s[w0]) {
            let w1 = word_end(s, w0);
            proof {
                lemma_ws_end(s, i);
                lemma_word_end(s, w0 + 1);
            }
            match spec_tokenize_at(s, w1) {
                Ok(rest) => Ok(seq![spec_word_token(s.subrange(w0, w1))] + rest),
                Err(e) => Err(e),
            }
        } else if s[w0] == '"' {
            let q = quote_index(s, w0 + 1);
            if q >= s.len() {
                Err(LexError::UnterminatedString)
            } else {
                proof {
                    lemma_ws_end(s, i);
                    lemma_quote_index(s, w0 + 1);
                }
                match spec_tokenize_at(s, q + 1) {
                    Ok(rest) => Ok(seq![TokenV::Str(s.subrange(w0 + 1, q))] + rest),
                    Err(e) => Err(e),
                }
            }
        } else if w0 + 1 < s.len() && spec_symbol_token(s.subrange(w0, w0 + 2)) is Some {
            proof {
                lemma_ws_end(s, i);
            }
            match spec_tokenize_at(s, w0 + 2) {
                Ok(rest) => Ok(seq![spec_symbol_token(s.subrange(w0, w0 + 2))->Some_0] + rest),
                Err(e) => Err(e),
            }
        } else if spec_symbol_token(s.subrange(w0, w0 + 1)) is Some {
            proof {
                lemma_ws_end(s, i);
            }
            match spec_tokenize_at(s, w0 + 1) {
                Ok(rest) => Ok(seq![spec_symbol_token(s.subrange(w0, w0 + 1))->Some_0] + rest),
                Err(e) => Err(e),
            }
        } else {
            Err(LexError::UnrecognizedSymbol)
        }
    }
}

/// The tokens of a whole input text, or the lexing error it dies with.
pub open spec fn spec_tokenize(s: Seq<char>) -> Result<Seq<TokenV>, LexError> {
    spec_tokenize_at(s, 0)
}

/// The token of a nonempty word that is not an integer literal: a keyword,
/// or else an identifier.
pub open spec fn spec_alpha_token(w: Seq<char>) -> Option<TokenV> {
    if w.len() == 0 {
        None
    } else {
        match spec_keyword_token(w) {
            Some(t) => Some(t),
            None => Some(TokenV::Var(w)),
        }
    }
}

// ---------------------------------------------------------------------------
// Executable character classes
// ---------------------------------------------------------------------------

fn is_space(c: char) -> (r: bool)
    ensures
        r == is_space_char(c),
{
    c == ' ' || c == '\t' || c == '\n' || c == '\r' || c == '\u{b}' || c == '\u{c}'
}

fn is_word(c: char) -> (r: bool)
    ensures
        r == is_word_char(c),
{
    (c >= 'a' && c <= 'z') || (c >= 'A' && c <= 'Z') || (c >= '0' && c <= '9') || c == '_'
}

fn is_symbol(c: char) -> (r: bool)
    ensures
        r == is_symbol_char(c),
{
    !is_word(c) && !is_space(c) && c != '"'
}

/// Character-wise equality of two string slices.
pub fn str_eq(a: &str, b: &str) -> (r: bool)
    ensures
        r == (a@ == b@),
{
    let n = a.unicode_len();
    let m = b.unicode_len();
    if n != m {
        return false;
    }
    let mut i: usize = 0;
    while i < n
        invariant
            i <= n,
            n == a@.len(),
            n == b@.len(),
            forall|j: int| 0 <= j < i ==> a@[j] == b@[j],
        decreases n - i,
    {
        if a.get_char(i) != b.get_char(i) {
            return false;
        }
        i += 1;
    }
    proof {
        assert(a@ =~= b@);
    }
    true
}

// ---------------------------------------------------------------------------
// Scanning helpers
// ---------------------------------------------------------------------------

fn scan_ws(s: &str, from: usize) -> (r: usize)
    requires
        from <= s@.len(),
    ensures
        r == ws_end(s@, from as int),
        from <= r <= s@.len(),
    decreases s@.len() - from,
{
    let n = s.unicode_len();
    let mut i: usize = from;
    while i < n && is_space(s.get_char(i))
        invariant
            from <= i <= n,
            n == s@.len(),
            ws_end(s@, from as int) == ws_end(s@, i as int),
        decreases n - i,
    {
        i += 1;
    }
    proof {
        lemma_ws_end(s@, from as int);
    }
    i
}

fn scan_word(s: &str, from: usize) -> (r: usize)
    requires
        from <= s@.len(),
    ensures
        r == word_end(s@, from as int),
        from <= r <= s@.len(),
    decreases s@.len() - from,
{
    let n = s.unicode_len();
    let mut i: usize = from;
    while i < n && is_word(s.get_char(i))
        invariant
            from <= i <= n,
            n == s@.len(),
            word_end(s@, from as int) == word_end(s@, i as int),
        decreases n - i,
    {
        i += 1;
    }
    proof {
        lemma_word_end(s@, from as int);
    }
    i
}

fn scan_quote(s: &str, from: usize) -> (r: usize)
    requires
        from <= s@.len(),
    ensures
        r == quote_index(s@, from as int),
        from <= r <= s@.len(),
    decreases s@.len() - from,
{
    let n = s.unicode_len();
    let mut i: usize = from;
    while i < n && s.get_char(i) != '"'
        invariant
            from <= i <= n,
            n == s@.len(),
            quote_index(s@, from as int) == quote_index(s@, i as int),
        decreases n - i,
    {
        i += 1;
    }
    proof {
        lemma_quote_index(s@, from as int);
    }
    i
}

// ---------------------------------------------------------------------------
// Token builders
// ---------------------------------------------------------------------------

proof fn lemma_int_scan_min(w: Seq<char>, i: int, acc: int, seen: bool)
    requires
        0 <= i <= w.len(),
        0 <= acc,
    ensures
        match int_scan(w, i, acc, seen) {
            Some(v) => v >= acc,
            None => true,
        },
    decreases w.len() - i,
{
    if i < w.len() {
        if w[i] == '_' {
            lemma_int_scan_min(w, i + 1, acc, seen);
        } else if is_digit_char(w[i]) {
            lemma_int_scan_min(w, i + 1, acc * 10 + digit_val(w[i]), true);
        }
    }
}

/// The integer token of a word: after any leading underscores an optional
/// sign, then digits and underscores, read in base ten, provided the value
/// fits in a signed 32-bit integer.
#[verifier::loop_isolation(false)]
pub fn tokenize_int(word: &str) -> (r: Option<Token>)
    ensures
        match r {
            Some(t) => spec_int_token(word@) == Some(t@),
            None => spec_int_token(word@) is None,
        },
{
    let n = word.unicode_len();
    let mut j: usize = 0;
    while j < n && word.get_char(j) == '_'
        invariant
            j <= n,
            underscores_end(word@, 0) == underscores_end(word@, j as int),
        decreases n - j,
    {
        j += 1;
    }
    let has_sign = if j < n {
        let c = word.get_char(j);
        c == '-' || c == '+'
    } else {
        false
    };
    let neg = if has_sign {
        word.get_char(j) == '-'
    } else {
        false
    };
    let start: usize = if has_sign {
        j + 1
    } else {
        0
    };
    let limit: u64 = if neg {
        0x8000_0000
    } else {
        0x7fff_ffff
    };
    let mut i: usize = start;
    let mut acc: u64 = 0;
    let mut seen = false;
    while i < n
        invariant
            start <= i <= n,
            acc <= limit,
            int_scan(word@, start as int, 0, false) == int_scan(word@, i as int, acc as int, seen),
        decreases n - i,
    {
        let c = word.get_char(i);
        if c == '_' {
            i += 1;
        } else if c >= '0' && c <= '9' {
            let d: u64 = (c as u32 - '0' as u32) as u64;
            let acc2: u64 = acc * 10 + d;
            if acc2 > limit {
                proof {
                    lemma_int_scan_min(word@, i as int + 1, acc2 as int, true);
                }
                return None;
            }
            acc = acc2;
            seen = true;
            i += 1;
        } else {
            return None;
        }
    }
    if seen {
        if neg {
            Some(Token::Int((-(acc as i64)) as i32))
        } else {
            Some(Token::Int(acc as i32))
        }
    } else {
        None
    }
}

/// The rest of the input after its leading whitespace.
pub fn skip_whitespace<'a>(s: &'a str) -> (r: &'a str)
    ensures
        r@ == s@.subrange(ws_end(s@, 0), s@.len() as int),
{
    let n = s.unicode_len();
    let w0 = scan_ws(s, 0);
    s.substring_char(w0, n)
}

/// Splits the input into its leading run of word characters and the rest.
pub fn split_first_word<'a>(s: &'a str) -> (r: (&'a str, &'a str))
    ensures
        r.0@ == s@.subrange(0, word_end(s@, 0)),
        r.1@ == s@.subrange(word_end(s@, 0), s@.len() as int),
{
    let n = s.unicode_len();
    let w1 = scan_word(s, 0);
    (s.substring_char(0, w1), s.substring_char(w1, n))
}

/// The keyword or identifier token of a nonempty word; integer literals are
/// not considered here.
pub fn tokenize_word(word: &str) -> (r: Option<Token>)
    ensures
        match r {
            Some(t) => spec_alpha_token(word@) == Some(t@),
            None => spec_alpha_token(word@) is None,
        },
{
    if word.unicode_len() == 0 {
        return None;
    }
    if str_eq(word, "if") {
        Some(Token::If)
    } else if str_eq(word, "elif") {
        Some(Token::Elif)
    } else if str_eq(word, "else") {
        Some(Token::Else)
    } else if str_eq(word, "for") {
        Some(Token::For)
    } else if str_eq(word, "in") {
        Some(Token::In)
    } else if str_eq(word, "while") {
        Some(Token::While)
    } else if str_eq(word, "func") {
        Some(Token::Function)
    } else if str_eq(word, "return") {
        Some(Token::Return)
    } else if str_eq(word, "let") {
        Some(Token::Let)
    } else if str_eq(word, "struct") {
        Some(Token::Struct)
    } else if str_eq(word, "true") {
        Some(Token::Bool(true))
    } else if str_eq(word, "false") {
        Some(Token::Bool(false))
    } else if str_eq(word, "int") {
        Some(Token::TypeName(Type::Int))
    } else if str_eq(word, "str") {
        Some(Token::TypeName(Type::Str))
    } else if str_eq(word, "bool") {
        Some(Token::TypeName(Type::Bool))
    } else if str_eq(word, "void") {
        Some(Token::TypeName(Type::Void))
    } else {
        Some(Token::Var(word.to_owned()))
    }
}

/// The operator token of a one- or two-character symbol run, if the run
/// stands in the operator tables.
pub fn tokenize_symbol(sym: &str) -> (r: Option<Token>)
    ensures
        match r {
            Some(t) => spec_symbol_token(sym@) == Some(t@),
            None => spec_symbol_token(sym@) is None,
        },
{
    let n = sym.unicode_len();
    if n == 1 {
        let c = sym.get_char(0);
        if c == '=' {
            Some(Token::Assign)
        } else if c == '{' {
            Some(Token::LeftCurly)
        } else if c == '[' {
            Some(Token::LeftBrace)
        } else if c == '(' {
            Some(Token::LeftParen)
        } else if c == '}' {
            Some(Token::RightCurly)
        } else if c == ']' {
            Some(Token::RightBrace)
        } else if c == ')' {
            Some(Token::RightParen)
        } else if c == '.' {
            Some(Token::Dot)
        } else if c == ',' {
            Some(Token::Comma)
        } else if c == ':' {
            Some(Token::Colon)
        } else if c == ';' {
            Some(Token::Semicolon)
        } else if c == '-' {
            Some(Token::Minus)
        } else if c == '+' {
            Some(Token::Plus)
        } else if c == '/' {
            Some(Token::Divide)
        } else if c == '*' {
            Some(Token::Multiply)
        } else if c == '%' {
            Some(Token::Modulo)
        } else if c == '!' {
            Some(Token::Not)
        } else if c == '>' {
            Some(Token::GreaterThan)
        } else if c == '<' {
            Some(Token::LessThan)
        } else {
            None
        }
    } else if n == 2 {
        let c0 = sym.get_char(0);
        let c1 = sym.get_char(1);
        if c0 == '-' && c1 == '>' {
            Some(Token::Output)
        } else if c0 == '&' && c1 == '&' {
            Some(Token::And)
        } else if c0 == '|' && c1 == '|' {
            Some(Token::Or)
        } else if c0 == '>' && c1 == '=' {
            Some(Token::GreaterEqual)
        } else if c0 == '<' && c1 == '=' {
            Some(Token::LessEqual)
        } else if c0 == '=' && c1 == '=' {
            Some(Token::Equal)
        } else if c0 == '!' && c1 == '=' {
            Some(Token::NotEqual)
        } else {
            None
        }
    } else {
        None
    }
}

/// Scans a string literal whose opening quote was already consumed: the token
/// holds the text up to the next double quote, and the rest of the input
/// after that quote is handed back.  `None` when no closing quote exists.
pub fn tokenize_str<'a>(input: &'a str) -> (r: Option<(Token, &'a str)>)
    ensures
        match r {
            Some(t_rem) => {
                let q = quote_index(input@, 0);
                &&& q < input@.len()
                &&& t_rem.0@ == TokenV::Str(input@.subrange(0, q))
                &&& t_rem.1@ == input@.subrange(q + 1, input@.len() as int)
            },
            None => quote_index(input@, 0) >= input@.len(),
        },
{
    let n = input.unicode_len();
    let q = scan_quote(input, 0);
    if q >= n {
        return None;
    }
    let content = input.substring_char(0, q);
    let rem = input.substring_char(q + 1, n);
    Some((Token::Str(content.to_owned()), rem))
}

// ---------------------------------------------------------------------------
// Chunking
// ---------------------------------------------------------------------------

/// One step of scanning: the text after any leading whitespace, split into a
/// maximal run of word characters, then a run of at most two symbol
/// characters, then everything that remains.
#[derive(Debug, PartialEq, Eq)]
pub struct OrderedChunk<'a> {
    pub alphanumerics: &'a str,
    pub symbols: &'a str,
    pub remainder: &'a str,
}

/// Where the symbol run of a chunk ends.  Normally it is the run of at most
/// two symbol characters, in which a double quote never takes part.  When no
/// symbol character follows the word run but a double quote does, the quote
/// itself stands alone as a one-character symbol run: the chunk thereby
/// tells its caller that a string literal follows, instead of burying the
/// quote at the head of the remainder.  This is a deliberate choice for
/// `make_chunk` only; `tokenize` itself never treats a quote as a symbol.
pub open spec fn chunk_symbol_end(s: Seq<char>, i: int) -> int {
    if symbol_end(s, i) > i {
        symbol_end(s, i)
    } else if 0 <= i < s.len() && s[i] == '"' {
        i + 1
    } else {
        i
    }
}

/// Splits off the first chunk of `input`: `None` when only whitespace is
/// left, else the leading word run, the symbol run after it (per
/// `chunk_symbol_end`, a lone opening quote counts as the symbol run), and
/// the rest.
pub fn make_chunk<'a>(input: &'a str) -> (r: Option<OrderedChunk<'a>>)
    ensures
        match r {
            None => ws_end(input@, 0) == input@.len(),
            Some(ch) => {
                let w0 = ws_end(input@, 0);
                let w1 = word_end(input@, w0);
                let s1 = chunk_symbol_end(input@, w1);
                &&& w0 < input@.len()
                &&& ch.alphanumerics@ == input@.subrange(w0, w1)
                &&& ch.symbols@ == input@.subrange(w1, s1)
                &&& ch.remainder@ == input@.subrange(s1, input@.len() as int)
            },
        },
{
    let n = input.unicode_len();
    let w0 = scan_ws(input, 0);
    if w0 >= n {
        return None;
    }
    let w1 = scan_word(input, w0);
    let s1: usize = if w1 < n && is_symbol(input.get_char(w1)) {
        if w1 + 1 < n && is_symbol(input.get_char(w1 + 1)) {
            w1 + 2
        } else {
            w1 + 1
        }
    } else if w1 < n && input.get_char(w1) == '"' {
        w1 + 1
    } else {
        w1
    };
    Some(
        OrderedChunk {
            alphanumerics: input.substring_char(w0, w1),
            symbols: input.substring_char(w1, s1),
            remainder: input.substring_char(s1, n),
        },
    )
}

// ---------------------------------------------------------------------------
// The lexer
// ---------------------------------------------------------------------------

// ---------------------------------------------------------------------------
// The lexer
// ---------------------------------------------------------------------------

/// Lexes one token starting at `i` (which must not point into trailing
/// whitespace only), pushes it, and returns the position where the next
/// token begins.
#[verifier::rlimit(50)]
fn lex_step(input: &str, i: usize, toks: &mut Vec<Token>) -> (r: Result<usize, LexError>)
    requires
        i <= input@.len(),
        ws_end(input@, i as int) < input@.len(),
    ensures
        match r {
            Ok(j) => {
                let s = input@;
                let prev = old(toks).deep_view();
                let dv = final(toks).deep_view();
                &&& i < j <= s.len()
                &&& prev.len() <= dv.len()
                &&& dv.subrange(0, prev.len() as int) == prev
                &&& match spec_tokenize_at(s, j as int) {
                    Ok(rest) => spec_tokenize_at(s, i as int) == Ok::<Seq<TokenV>, LexError>(
                        dv.subrange(prev.len() as int, dv.len() as int) + rest,
                    ),
                    Err(e) => spec_tokenize_at(s, i as int) == Err::<Seq<TokenV>, LexError>(e),
                }
            },
            Err(e) => spec_tokenize_at(input@, i as int) == Err::<Seq<TokenV>, LexError>(e),
        },
{
    let ghost s = input@;
    let ghost i0 = i as int;
    let ghost prev = toks.deep_view();
    let n = input.unicode_len();
    let w0 = scan_ws(input, i);
    proof {
        lemma_ws_end(s, i0);
    }
    let c = input.get_char(w0);
    if is_word(c) {
        let w1 = scan_word(input, w0);
        proof {
            lemma_word_end(s, w0 as int + 1);
        }
        let word = input.substring_char(w0, w1);
        let t = match tokenize_int(word) {
            Some(t) => t,
            None => match tokenize_word(word) {
                Some(t) => t,
                None => {
                    // never reached: a nonempty word always yields a token
                    proof {
                        assert(false);
                    }
                    Token::If
                },
            },
        };
        let ghost tv = spec_word_token(s.subrange(w0 as int, w1 as int));
        toks.push(t);
        proof {
            assert(toks.deep_view() =~= prev.push(tv));
            let dv = toks.deep_view();
            assert(dv.subrange(0, prev.len() as int) =~= prev);
            assert(dv.subrange(prev.len() as int, dv.len() as int) =~= seq![tv]);
            match spec_tokenize_at(s, w1 as int) {
                Ok(rest) => {
                    assert(seq![tv] + rest =~= seq![tv] + rest);
                },
                Err(e) => {},
            }
        }
        Ok(w1)
    } else if c == '"' {
        let q = scan_quote(input, w0 + 1);
        proof {
            lemma_quote_index(s, w0 as int + 1);
        }
        if q >= n {
            return Err(LexError::UnterminatedString);
        }
        let content = input.substring_char(w0 + 1, q);
        let ghost str_tok = TokenV::Str(s.subrange(w0 as int + 1, q as int));
        toks.push(Token::Str(content.to_owned()));
        proof {
            assert(toks.deep_view() =~= prev.push(str_tok));
            let dv = toks.deep_view();
            assert(dv.subrange(0, prev.len() as int) =~= prev);
            assert(dv.subrange(prev.len() as int, dv.len() as int) =~= seq![str_tok]);
        }
        Ok(q + 1)
    } else {
        if w0 + 1 < n {
            let sym2 = input.substring_char(w0, w0 + 2);
            match tokenize_symbol(sym2) {
                Some(t) => {
                    let ghost tv = t@;
                    toks.push(t);
                    proof {
                        assert(sym2@ == s.subrange(w0 as int, w0 as int + 2));
                        assert(toks.deep_view() =~= prev.push(tv));
                        let dv = toks.deep_view();
                        assert(dv.subrange(0, prev.len() as int) =~= prev);
                        assert(dv.subrange(prev.len() as int, dv.len() as int) =~= seq![tv]);
                    }
                    return Ok(w0 + 2);
                },
                None => {
                    proof {
                        assert(sym2@ == s.subrange(w0 as int, w0 as int + 2));
                    }
                },
            }
        }
        let sym1 = input.substring_char(w0, w0 + 1);
        match tokenize_symbol(sym1) {
            Some(t) => {
                let ghost tv = t@;
                toks.push(t);
                proof {
                    assert(sym1@ == s.subrange(w0 as int, w0 as int + 1));
                    assert(toks.deep_view() =~= prev.push(tv));
                    let dv = toks.deep_view();
                    assert(dv.subrange(0, prev.len() as int) =~= prev);
                    assert(dv.subrange(prev.len() as int, dv.len() as int) =~= seq![tv]);
                }
                Ok(w0 + 1)
            },
            None => {
                proof {
                    assert(sym1@ == s.subrange(w0 as int, w0 as int + 1));
                }
                Err(LexError::UnrecognizedSymbol)
            },
        }
    }
}

/// Turns source text into its token sequence.  Lexing is total: every input
/// yields either the tokens that `spec_tokenize` describes or the lexing
/// error it pins, never a partial sequence.
pub fn tokenize(input: &str) -> (r: Result<Vec<Token>, LexError>)
    ensures
        match r {
            Ok(toks) => spec_tokenize(input@) == Ok::<Seq<TokenV>, LexError>(toks.deep_view()),
            Err(e) => spec_tokenize(input@) == Err::<Seq<TokenV>, LexError>(e),
        },
{
    let ghost s = input@;
    let n = input.unicode_len();
    let mut toks: Vec<Token> = Vec::new();
    let mut i: usize = 0;
    loop
        invariant
            i <= n,
            n == s.len(),
            s == input@,
            match spec_tokenize_at(s, i as int) {
                Ok(rest) => spec_tokenize_at(s, 0) == Ok::<Seq<TokenV>, LexError>(
                    toks.deep_view() + rest,
                ),
                Err(e) => spec_tokenize_at(s, 0) == Err::<Seq<TokenV>, LexError>(e),
            },
        decreases n - i,
    {
        let ghost i0 = i as int;
        let ghost prev = toks.deep_view();
        let w0 = scan_ws(input, i);
        proof {
            lemma_ws_end(s, i0);
        }
        if w0 >= n {
            proof {
                assert(prev + Seq::<TokenV>::empty() =~= prev);
            }
            return Ok(toks);
        }
        match lex_step(input, i, &mut toks) {
            Ok(j) => {
                proof {
                    let dv = toks.deep_view();
                    let delta = dv.subrange(prev.len() as int, dv.len() as int);
                    assert(dv =~= prev + delta);
                    match spec_tokenize_at(s, j as int) {
                        Ok(rest) => {
                            assert(spec_tokenize_at(s, i0) == Ok::<Seq<TokenV>, LexError>(
                                delta + rest,
                            ));
                            assert(prev + (delta + rest) =~= dv + rest);
                        },
                        Err(e) => {},
                    }
                }
                i = j;
            },
            Err(e) => {
                return Err(e);
            },
        }
    }
}

// ---------------------------------------------------------------------------
// The round trip: canonical text of a token, lexed again, gives it back
// ---------------------------------------------------------------------------

/// The decimal digit character of a value between zero and nine.
pub open spec fn digit_char(d: int) -> char {
    (('0' as int) + d) as char
}

/// The decimal digits of a nonnegative number, most significant first.
pub open spec fn dec_digits(n: int) -> Seq<char>
    decreases n,
{
    if n <= 9 {
        seq![digit_char(if n < 0 { 0 } else { n })]
    } else {
        dec_digits(n / 10).push(digit_char(n % 10))
    }
}

/// The canonical text of a token.
pub open spec fn render_token(t: TokenV) -> Seq<char> {
    match t {
        TokenV::If => "if"@,
        TokenV::Elif => "elif"@,
        TokenV::Else => "else"@,
        TokenV::For => "for"@,
        TokenV::In => "in"@,
        TokenV::While => "while"@,
        TokenV::Function => "func"@,
        TokenV::Return => "return"@,
        TokenV::Let => "let"@,
        TokenV::Struct => "struct"@,
        TokenV::Output => "->"@,
        TokenV::Assign => "="@,
        TokenV::TypeName(tv) => match tv {
            TypeV::Int => "int"@,
            TypeV::Str => "str"@,
            TypeV::Bool => "bool"@,
            _ => "void"@,
        },
        TokenV::Int(n) => dec_digits(n),
        TokenV::Bool(b) => if b {
            "true"@
        } else {
            "false"@
        },
        TokenV::Str(s) => seq!['"'] + s + seq!['"'],
        TokenV::Var(s) => s,
        TokenV::LeftCurly => "{"@,
        TokenV::LeftBrace => "["@,
        TokenV::LeftParen => "("@,
        TokenV::RightCurly => "}"@,
        TokenV::RightBrace => "]"@,
        TokenV::RightParen => ")"@,
        TokenV::Dot => "."@,
        TokenV::Comma => ","@,
        TokenV::Colon => ":"@,
        TokenV::Semicolon => ";"@,
        TokenV::Minus => "-"@,
        TokenV::Plus => "+"@,
        TokenV::Divide => "/"@,
        TokenV::Multiply => "*"@,
        TokenV::Modulo => "%"@,
        TokenV::And => "&&"@,
        TokenV::Or => "||"@,
        TokenV::Not => "!"@,
        TokenV::GreaterThan => ">"@,
        TokenV::LessThan => "<"@,
        TokenV::GreaterEqual => ">="@,
        TokenV::LessEqual => "<="@,
        TokenV::Equal => "=="@,
        TokenV::NotEqual => "!="@,
    }
}

/// The tokens the lexer can produce: integer literals are nonnegative and
/// fit their type, string payloads hold no double quote, identifiers are
/// nonempty word-character runs that read neither as a number nor as a
/// keyword, and type-name tokens name a primitive type.
pub open spec fn wf_token(t: TokenV) -> bool {
    match t {
        TokenV::Int(n) => 0 <= n <= 0x7fff_ffff,
        TokenV::Str(s) => forall|i: int| 0 <= i < s.len() ==> s[i] != '"',
        TokenV::Var(w) => {
            &&& w.len() > 0
            &&& forall|i: int| 0 <= i < w.len() ==> is_word_char(w[i])
            &&& spec_int_token(w) is None
            &&& spec_keyword_token(w) is None
        },
        TokenV::TypeName(tv) => tv == TypeV::Int || tv == TypeV::Str || tv == TypeV::Bool || tv
            == TypeV::Void,
        _ => true,
    }
}

proof fn lemma_word_end_all(s: Seq<char>, i: int)
    requires
        0 <= i <= s.len(),
        forall|j: int| i <= j < s.len() ==> is_word_char(s[j]),
    ensures
        word_end(s, i) == s.len(),
    decreases s.len() - i,
{
    if i < s.len() {
        lemma_word_end_all(s, i + 1);
    }
}

/// A nonempty run of word characters lexes to exactly its word token.
proof fn lemma_tokenize_single_word(w: Seq<char>)
    requires
        w.len() > 0,
        forall|i: int| 0 <= i < w.len() ==> is_word_char(w[i]),
    ensures
        spec_tokenize(w) == Ok::<Seq<TokenV>, LexError>(seq![spec_word_token(w)]),
{
    assert(!is_space_char(w[0]));
    assert(ws_end(w, 0) == 0);
    lemma_word_end_all(w, 0);
    let n = w.len() as int;
    assert(w.subrange(0, n) =~= w);
    assert(ws_end(w, n) == n);
    assert(spec_tokenize_at(w, n) == Ok::<Seq<TokenV>, LexError>(seq![]));
    assert(seq![spec_word_token(w)] + Seq::<TokenV>::empty() =~= seq![spec_word_token(w)]);
}

/// A known symbol of one or two characters lexes to exactly its token.
proof fn lemma_tokenize_single_symbol(w: Seq<char>)
    requires
        1 <= w.len() <= 2,
        forall|i: int| 0 <= i < w.len() ==> is_symbol_char(w[i]),
        spec_symbol_token(w) is Some,
    ensures
        spec_tokenize(w) == Ok::<Seq<TokenV>, LexError>(seq![spec_symbol_token(w)->Some_0]),
{
    assert(!is_space_char(w[0]));
    assert(!is_word_char(w[0]));
    assert(ws_end(w, 0) == 0);
    assert(w[0] != '"');
    let n = w.len() as int;
    assert(ws_end(w, n) == n);
    assert(spec_tokenize_at(w, n) == Ok::<Seq<TokenV>, LexError>(seq![]));
    if w.len() == 2 {
        assert(w.subrange(0, 2) =~= w);
    } else {
        assert(w.subrange(0, 1) =~= w);
    }
    assert(seq![spec_symbol_token(w)->Some_0] + Seq::<TokenV>::empty()
        =~= seq![spec_symbol_token(w)->Some_0]);
}

/// A quoted text without inner quotes lexes to exactly its string token.
proof fn lemma_tokenize_string_literal(s: Seq<char>)
    requires
        forall|i: int| 0 <= i < s.len() ==> s[i] != '"',
    ensures
        spec_tokenize(seq!['"'] + s + seq!['"']) == Ok::<Seq<TokenV>, LexError>(
            seq![TokenV::Str(s)],
        ),
{
    let r = seq!['"'] + s + seq!['"'];
    let n = r.len() as int;
    assert(r[0] == '"');
    assert(!is_space_char(r[0]));
    assert(!is_word_char(r[0]));
    assert(ws_end(r, 0) == 0);
    let q = quote_index(r, 1);
    lemma_quote_index(r, 1);
    assert(forall|j: int| 1 <= j < 1 + s.len() ==> r[j] == s[j - 1]);
    assert(r[s.len() as int + 1] == '"');
    if q < s.len() + 1 {
        assert(r[q] == '"');
        assert(false);
    }
    if q > s.len() + 1 {
        assert(r[s.len() as int + 1] != '"');
        assert(false);
    }
    assert(q == s.len() + 1);
    assert(r.subrange(1, q) =~= s);
    assert(q + 1 == n);
    assert(ws_end(r, n) == n);
    assert(spec_tokenize_at(r, n) == Ok::<Seq<TokenV>, LexError>(seq![]));
    assert(seq![TokenV::Str(s)] + Seq::<TokenV>::empty() =~= seq![TokenV::Str(s)]);
}

proof fn lemma_dec_digits_are_digits(n: int)
    requires
        0 <= n,
    ensures
        dec_digits(n).len() >= 1,
        forall|i: int| 0 <= i < dec_digits(n).len() ==> is_digit_char(#[trigger] dec_digits(n)[i]),
    decreases n,
{
    if n > 9 {
        lemma_dec_digits_are_digits(n / 10);
    }
}

proof fn lemma_int_scan_push_digit(w: Seq<char>, d: char, i: int, acc: int, seen: bool, v: int)
    requires
        0 <= i <= w.len(),
        is_digit_char(d),
        int_scan(w, i, acc, seen) == Some(v),
    ensures
        int_scan(w.push(d), i, acc, seen) == Some(v * 10 + digit_val(d)),
    decreases w.len() - i,
{
    assert(w.push(d).len() == w.len() + 1);
    if i >= w.len() {
        assert(seen && v == acc);
        assert(w.push(d)[i] == d);
        assert(int_scan(w.push(d), i + 1, acc * 10 + digit_val(d), true) == Some(
            acc * 10 + digit_val(d),
        ));
    } else {
        assert(w.push(d)[i] == w[i]);
        if w[i] == '_' {
            lemma_int_scan_push_digit(w, d, i + 1, acc, seen, v);
        } else if is_digit_char(w[i]) {
            lemma_int_scan_push_digit(w, d, i + 1, acc * 10 + digit_val(w[i]), true, v);
        } else {
            assert(false);
        }
    }
}

proof fn lemma_int_scan_digits(n: int)
    requires
        0 <= n,
    ensures
        int_scan(dec_digits(n), 0, 0, false) == Some(n),
    decreases n,
{
    if n <= 9 {
        let w = dec_digits(n);
        assert(w[0] == digit_char(n));
        assert(digit_val(digit_char(n)) == n);
        assert(int_scan(w, 1, n, true) == Some(n));
    } else {
        lemma_int_scan_digits(n / 10);
        lemma_dec_digits_are_digits(n / 10);
        lemma_int_scan_push_digit(dec_digits(n / 10), digit_char(n % 10), 0, 0, false, n / 10);
        assert(digit_val(digit_char(n % 10)) == n % 10);
        assert((n / 10) * 10 + n % 10 == n);
    }
}

/// A word made of word characters carries a well-formed token.
proof fn lemma_word_token_wf(w: Seq<char>)
    requires
        w.len() > 0,
        forall|i: int| 0 <= i < w.len() ==> is_word_char(w[i]),
    ensures
        wf_token(spec_word_token(w)),
{
    match spec_int_token(w) {
        Some(t) => {
            let j = underscores_end(w, 0);
            lemma_underscores_end_word(w);
            assert(spec_int_value(w) == int_scan(w, 0, 0, false));
            lemma_int_scan_min(w, 0, 0, false);
        },
        None => {},
    }
}

proof fn lemma_underscores_end_word(w: Seq<char>)
    requires
        forall|i: int| 0 <= i < w.len() ==> is_word_char(w[i]),
    ensures
        ({
            let j = underscores_end(w, 0);
            0 <= j <= w.len() && (j < w.len() ==> (w[j] != '-' && w[j] != '+'))
        }),
{
    lemma_underscores_end_bounds(w, 0);
}

proof fn lemma_underscores_end_bounds(w: Seq<char>, i: int)
    requires
        0 <= i <= w.len(),
    ensures
        i <= underscores_end(w, i) <= w.len(),
        underscores_end(w, i) < w.len() ==> w[underscores_end(w, i)] != '_',
    decreases w.len() - i,
{
    if i < w.len() && w[i] == '_' {
        lemma_underscores_end_bounds(w, i + 1);
    }
}

/// A token from the operator tables is well formed: none carries a payload.
proof fn lemma_symbol_token_wf(w: Seq<char>)
    ensures
        match spec_symbol_token(w) {
            Some(t) => wf_token(t),
            None => true,
        },
{
}

/// The lexer hands out well-formed tokens only.
proof fn lemma_tokens_wf_at(s: Seq<char>, i: int)
    requires
        0 <= i <= s.len(),
    ensures
        match spec_tokenize_at(s, i) {
            Ok(toks) => forall|k: int| 0 <= k < toks.len() ==> wf_token(#[trigger] toks[k]),
            Err(_) => true,
        },
    decreases s.len() - i,
{
    let w0 = ws_end(s, i);
    lemma_ws_end(s, i);
    if w0 >= s.len() {
    } else if is_word_char(s[w0]) {
        let w1 = word_end(s, w0);
        lemma_word_end(s, w0);
        lemma_word_end(s, w0 + 1);
        let w = s.subrange(w0, w1);
        assert(forall|j: int| 0 <= j < w.len() ==> is_word_char(w[j]));
        lemma_word_token_wf(w);
        lemma_tokens_wf_at(s, w1);
        match spec_tokenize_at(s, w1) {
            Ok(rest) => {
                let all = seq![spec_word_token(w)] + rest;
                assert(spec_tokenize_at(s, i) == Ok::<Seq<TokenV>, LexError>(all));
                assert forall|k: int| 0 <= k < all.len() implies wf_token(#[trigger] all[k]) by {
                    if k > 0 {
                        assert(all[k] == rest[k - 1]);
                    }
                }
            },
            Err(_) => {},
        }
    } else if s[w0] == '"' {
        let q = quote_index(s, w0 + 1);
        lemma_quote_index(s, w0 + 1);
        if q < s.len() {
            let content = s.subrange(w0 + 1, q);
            assert(forall|j: int| 0 <= j < content.len() ==> content[j] != '"');
            let str_tok = TokenV::Str(content);
            assert(wf_token(str_tok));
            lemma_tokens_wf_at(s, q + 1);
            match spec_tokenize_at(s, q + 1) {
                Ok(rest) => {
                    let all = seq![str_tok] + rest;
                    assert(spec_tokenize_at(s, i) == Ok::<Seq<TokenV>, LexError>(all));
                    assert forall|k: int| 0 <= k < all.len() implies wf_token(
                        #[trigger] all[k],
                    ) by {
                        if k > 0 {
                            assert(all[k] == rest[k - 1]);
                        }
                    }
                },
                Err(_) => {},
            }
        }
    } else if w0 + 1 < s.len() && spec_symbol_token(s.subrange(w0, w0 + 2)) is Some {
        lemma_symbol_token_wf(s.subrange(w0, w0 + 2));
        lemma_tokens_wf_at(s, w0 + 2);
        match spec_tokenize_at(s, w0 + 2) {
            Ok(rest) => {
                let all = seq![spec_symbol_token(s.subrange(w0, w0 + 2))->Some_0] + rest;
                assert(spec_tokenize_at(s, i) == Ok::<Seq<TokenV>, LexError>(all));
                assert forall|k: int| 0 <= k < all.len() implies wf_token(#[trigger] all[k]) by {
                    if k > 0 {
                        assert(all[k] == rest[k - 1]);
                    }
                }
            },
            Err(_) => {},
        }
    } else if spec_symbol_token(s.subrange(w0, w0 + 1)) is Some {
        lemma_symbol_token_wf(s.subrange(w0, w0 + 1));
        lemma_tokens_wf_at(s, w0 + 1);
        match spec_tokenize_at(s, w0 + 1) {
            Ok(rest) => {
                let all = seq![spec_symbol_token(s.subrange(w0, w0 + 1))->Some_0] + rest;
                assert(spec_tokenize_at(s, i) == Ok::<Seq<TokenV>, LexError>(all));
                assert forall|k: int| 0 <= k < all.len() implies wf_token(#[trigger] all[k]) by {
                    if k > 0 {
                        assert(all[k] == rest[k - 1]);
                    }
                }
            },
            Err(_) => {},
        }
    }
}

/// One well-formed keyword, type-name or boolean token, rendered and
/// lexed again, yields exactly itself.
#[verifier::rlimit(50)]
proof fn lemma_round_trip_word_tokens(t: TokenV)
    requires
        wf_token(t),
        t is If || t is Elif || t is Else || t is For || t is In || t is While || t is Function
            || t is Return || t is Let || t is Struct || t is TypeName || t is Bool,
    ensures
        spec_tokenize(render_token(t)) == Ok::<Seq<TokenV>, LexError>(seq![t]),
{
    // the keyword table compares against every keyword, so each one's
    // characters must be known to tell the words apart
    reveal_strlit("if");
    reveal_strlit("elif");
    reveal_strlit("else");
    reveal_strlit("for");
    reveal_strlit("in");
    reveal_strlit("while");
    reveal_strlit("func");
    reveal_strlit("return");
    reveal_strlit("let");
    reveal_strlit("struct");
    reveal_strlit("true");
    reveal_strlit("false");
    reveal_strlit("int");
    reveal_strlit("str");
    reveal_strlit("bool");
    reveal_strlit("void");
    match t {
        TokenV::If => {
            lemma_tokenize_single_word("if"@);
            assert(spec_tokenize(render_token(t)) == Ok::<Seq<TokenV>, LexError>(seq![t]));
        },
        TokenV::Elif => {
            lemma_tokenize_single_word("elif"@);
            assert(spec_tokenize(render_token(t)) == Ok::<Seq<TokenV>, LexError>(seq![t]));
        },
        TokenV::Else => {
            lemma_tokenize_single_word("else"@);
            assert(("else"@) != ("elif"@)) by {
                assert(("else"@)[2] == 's');
                assert(("elif"@)[2] == 'i');
            }
            assert(spec_tokenize(render_token(t)) == Ok::<Seq<TokenV>, LexError>(seq![t]));
        },
        TokenV::For => {
            lemma_tokenize_single_word("for"@);
            assert(spec_tokenize(render_token(t)) == Ok::<Seq<TokenV>, LexError>(seq![t]));
        },
        TokenV::In => {
            lemma_tokenize_single_word("in"@);
            assert(("in"@) != ("if"@)) by {
                assert(("in"@)[1] == 'n');
                assert(("if"@)[1] == 'f');
            }
            assert(spec_tokenize(render_token(t)) == Ok::<Seq<TokenV>, LexError>(seq![t]));
        },
        TokenV::While => {
            lemma_tokenize_single_word("while"@);
            assert(spec_tokenize(render_token(t)) == Ok::<Seq<TokenV>, LexError>(seq![t]));
        },
        TokenV::Function => {
            lemma_tokenize_single_word("func"@);
            assert(("func"@) != ("elif"@)) by {
                assert(("func"@)[0] == 'f');
                assert(("elif"@)[0] == 'e');
            }
            assert(("func"@) != ("else"@)) by {
                assert(("func"@)[0] == 'f');
                assert(("else"@)[0] == 'e');
            }
            assert(spec_tokenize(render_token(t)) == Ok::<Seq<TokenV>, LexError>(seq![t]));
        },
        TokenV::Return => {
            lemma_tokenize_single_word("return"@);
            assert(spec_tokenize(render_token(t)) == Ok::<Seq<TokenV>, LexError>(seq![t]));
        },
        TokenV::Let => {
            lemma_tokenize_single_word("let"@);
            assert(("let"@) != ("for"@)) by {
                assert(("let"@)[0] == 'l');
                assert(("for"@)[0] == 'f');
            }
            assert(spec_tokenize(render_token(t)) == Ok::<Seq<TokenV>, LexError>(seq![t]));
        },
        TokenV::Struct => {
            lemma_tokenize_single_word("struct"@);
            assert(("struct"@) != ("return"@)) by {
                assert(("struct"@)[0] == 's');
                assert(("return"@)[0] == 'r');
            }
            assert(spec_tokenize(render_token(t)) == Ok::<Seq<TokenV>, LexError>(seq![t]));
        },
        TokenV::TypeName(tv) => {
            if tv == TypeV::Int {
                lemma_tokenize_single_word("int"@);
            assert(("int"@) != ("for"@)) by {
                assert(("int"@)[0] == 'i');
                assert(("for"@)[0] == 'f');
            }
            assert(("int"@) != ("let"@)) by {
                assert(("int"@)[0] == 'i');
                assert(("let"@)[0] == 'l');
            }
            } else if tv == TypeV::Str {
                lemma_tokenize_single_word("str"@);
            assert(("str"@) != ("for"@)) by {
                assert(("str"@)[0] == 's');
                assert(("for"@)[0] == 'f');
            }
            assert(("str"@) != ("let"@)) by {
                assert(("str"@)[0] == 's');
                assert(("let"@)[0] == 'l');
            }
            assert(("str"@) != ("int"@)) by {
                assert(("str"@)[0] == 's');
                assert(("int"@)[0] == 'i');
            }
            } else if tv == TypeV::Bool {
                lemma_tokenize_single_word("bool"@);
            assert(("bool"@) != ("elif"@)) by {
                assert(("bool"@)[0] == 'b');
                assert(("elif"@)[0] == 'e');
            }
            assert(("bool"@) != ("else"@)) by {
                assert(("bool"@)[0] == 'b');
                assert(("else"@)[0] == 'e');
            }
            assert(("bool"@) != ("func"@)) by {
                assert(("bool"@)[0] == 'b');
                assert(("func"@)[0] == 'f');
            }
            assert(("bool"@) != ("true"@)) by {
                assert(("bool"@)[0] == 'b');
                assert(("true"@)[0] == 't');
            }
            } else {
                lemma_tokenize_single_word("void"@);
            assert(("void"@) != ("elif"@)) by {
                assert(("void"@)[0] == 'v');
                assert(("elif"@)[0] == 'e');
            }
            assert(("void"@) != ("else"@)) by {
                assert(("void"@)[0] == 'v');
                assert(("else"@)[0] == 'e');
            }
            assert(("void"@) != ("func"@)) by {
                assert(("void"@)[0] == 'v');
                assert(("func"@)[0] == 'f');
            }
            assert(("void"@) != ("true"@)) by {
                assert(("void"@)[0] == 'v');
                assert(("true"@)[0] == 't');
            }
            assert(("void"@) != ("bool"@)) by {
                assert(("void"@)[0] == 'v');
                assert(("bool"@)[0] == 'b');
            }
            }
            assert(spec_tokenize(render_token(t)) == Ok::<Seq<TokenV>, LexError>(seq![t]));
        },
        TokenV::Bool(b) => {
            if b {
                lemma_tokenize_single_word("true"@);
            assert(("true"@) != ("elif"@)) by {
                assert(("true"@)[0] == 't');
                assert(("elif"@)[0] == 'e');
            }
            assert(("true"@) != ("else"@)) by {
                assert(("true"@)[0] == 't');
                assert(("else"@)[0] == 'e');
            }
            assert(("true"@) != ("func"@)) by {
                assert(("true"@)[0] == 't');
                assert(("func"@)[0] == 'f');
            }
            } else {
                lemma_tokenize_single_word("false"@);
            assert(("false"@) != ("while"@)) by {
                assert(("false"@)[0] == 'f');
                assert(("while"@)[0] == 'w');
            }
            }
            assert(spec_tokenize(render_token(t)) == Ok::<Seq<TokenV>, LexError>(seq![t]));
        },
        _ => {},
    }
}

/// One operator or punctuation token, rendered and lexed again, yields
/// exactly itself.
#[verifier::rlimit(50)]
proof fn lemma_round_trip_symbol_tokens(t: TokenV)
    requires
        wf_token(t),
        t is And || t is Assign || t is Colon || t is Comma || t is Divide || t is Dot || t is Equal || t is GreaterEqual || t is GreaterThan || t is LeftBrace || t is LeftCurly || t is LeftParen || t is LessEqual || t is LessThan || t is Minus || t is Modulo || t is Multiply || t is Not || t is NotEqual || t is Or || t is Output || t is Plus || t is RightBrace || t is RightCurly || t is RightParen || t is Semicolon,
    ensures
        spec_tokenize(render_token(t)) == Ok::<Seq<TokenV>, LexError>(seq![t]),
{
    match t {
        TokenV::Output => {
            reveal_strlit("->");
            lemma_tokenize_single_symbol("->"@);
            assert(spec_tokenize(render_token(t)) == Ok::<Seq<TokenV>, LexError>(seq![t]));
        },
        TokenV::Assign => {
            reveal_strlit("=");
            lemma_tokenize_single_symbol("="@);
            assert(spec_tokenize(render_token(t)) == Ok::<Seq<TokenV>, LexError>(seq![t]));
        },
        TokenV::LeftCurly => {
            reveal_strlit("{");
            lemma_tokenize_single_symbol("{"@);
            assert(spec_tokenize(render_token(t)) == Ok::<Seq<TokenV>, LexError>(seq![t]));
        },
        TokenV::LeftBrace => {
            reveal_strlit("[");
            lemma_tokenize_single_symbol("["@);
            assert(spec_tokenize(render_token(t)) == Ok::<Seq<TokenV>, LexError>(seq![t]));
        },
        TokenV::LeftParen => {
            reveal_strlit("(");
            lemma_tokenize_single_symbol("("@);
            assert(spec_tokenize(render_token(t)) == Ok::<Seq<TokenV>, LexError>(seq![t]));
        },
        TokenV::RightCurly => {
            reveal_strlit("}");
            lemma_tokenize_single_symbol("}"@);
            assert(spec_tokenize(render_token(t)) == Ok::<Seq<TokenV>, LexError>(seq![t]));
        },
        TokenV::RightBrace => {
            reveal_strlit("]");
            lemma_tokenize_single_symbol("]"@);
            assert(spec_tokenize(render_token(t)) == Ok::<Seq<TokenV>, LexError>(seq![t]));
        },
        TokenV::RightParen => {
            reveal_strlit(")");
            lemma_tokenize_single_symbol(")"@);
            assert(spec_tokenize(render_token(t)) == Ok::<Seq<TokenV>, LexError>(seq![t]));
        },
        TokenV::Dot => {
            reveal_strlit(".");
            lemma_tokenize_single_symbol("."@);
            assert(spec_tokenize(render_token(t)) == Ok::<Seq<TokenV>, LexError>(seq![t]));
        },
        TokenV::Comma => {
            reveal_strlit(",");
            lemma_tokenize_single_symbol(","@);
            assert(spec_tokenize(render_token(t)) == Ok::<Seq<TokenV>, LexError>(seq![t]));
        },
        TokenV::Colon => {
            reveal_strlit(":");
            lemma_tokenize_single_symbol(":"@);
            assert(spec_tokenize(render_token(t)) == Ok::<Seq<TokenV>, LexError>(seq![t]));
        },
        TokenV::Semicolon => {
            reveal_strlit(";");
            lemma_tokenize_single_symbol(";"@);
            assert(spec_tokenize(render_token(t)) == Ok::<Seq<TokenV>, LexError>(seq![t]));
        },
        TokenV::Minus => {
            reveal_strlit("-");
            lemma_tokenize_single_symbol("-"@);
            assert(spec_tokenize(render_token(t)) == Ok::<Seq<TokenV>, LexError>(seq![t]));
        },
        TokenV::Plus => {
            reveal_strlit("+");
            lemma_tokenize_single_symbol("+"@);
            assert(spec_tokenize(render_token(t)) == Ok::<Seq<TokenV>, LexError>(seq![t]));
        },
        TokenV::Divide => {
            reveal_strlit("/");
            lemma_tokenize_single_symbol("/"@);
            assert(spec_tokenize(render_token(t)) == Ok::<Seq<TokenV>, LexError>(seq![t]));
        },
        TokenV::Multiply => {
            reveal_strlit("*");
            lemma_tokenize_single_symbol("*"@);
            assert(spec_tokenize(render_token(t)) == Ok::<Seq<TokenV>, LexError>(seq![t]));
        },
        TokenV::Modulo => {
            reveal_strlit("%");
            lemma_tokenize_single_symbol("%"@);
            assert(spec_tokenize(render_token(t)) == Ok::<Seq<TokenV>, LexError>(seq![t]));
        },
        TokenV::And => {
            reveal_strlit("&&");
            lemma_tokenize_single_symbol("&&"@);
            assert(spec_tokenize(render_token(t)) == Ok::<Seq<TokenV>, LexError>(seq![t]));
        },
        TokenV::Or => {
            reveal_strlit("||");
            lemma_tokenize_single_symbol("||"@);
            assert(spec_tokenize(render_token(t)) == Ok::<Seq<TokenV>, LexError>(seq![t]));
        },
        TokenV::Not => {
            reveal_strlit("!");
            lemma_tokenize_single_symbol("!"@);
            assert(spec_tokenize(render_token(t)) == Ok::<Seq<TokenV>, LexError>(seq![t]));
        },
        TokenV::GreaterThan => {
            reveal_strlit(">");
            lemma_tokenize_single_symbol(">"@);
            assert(spec_tokenize(render_token(t)) == Ok::<Seq<TokenV>, LexError>(seq![t]));
        },
        TokenV::LessThan => {
            reveal_strlit("<");
            lemma_tokenize_single_symbol("<"@);
            assert(spec_tokenize(render_token(t)) == Ok::<Seq<TokenV>, LexError>(seq![t]));
        },
        TokenV::GreaterEqual => {
            reveal_strlit(">=");
            lemma_tokenize_single_symbol(">="@);
            assert(spec_tokenize(render_token(t)) == Ok::<Seq<TokenV>, LexError>(seq![t]));
        },
        TokenV::LessEqual => {
            reveal_strlit("<=");
            lemma_tokenize_single_symbol("<="@);
            assert(spec_tokenize(render_token(t)) == Ok::<Seq<TokenV>, LexError>(seq![t]));
        },
        TokenV::Equal => {
            reveal_strlit("==");
            lemma_tokenize_single_symbol("=="@);
            assert(spec_tokenize(render_token(t)) == Ok::<Seq<TokenV>, LexError>(seq![t]));
        },
        TokenV::NotEqual => {
            reveal_strlit("!=");
            lemma_tokenize_single_symbol("!="@);
            assert(spec_tokenize(render_token(t)) == Ok::<Seq<TokenV>, LexError>(seq![t]));
        },
        _ => {},
    }
}

/// One literal or identifier token, rendered and lexed again, yields
/// exactly itself.
#[verifier::rlimit(50)]
proof fn lemma_round_trip_payload_tokens(t: TokenV)
    requires
        wf_token(t),
        t is Int || t is Str || t is Var,
    ensures
        spec_tokenize(render_token(t)) == Ok::<Seq<TokenV>, LexError>(seq![t]),
{
    match t {
        TokenV::Int(n) => {
            lemma_dec_digits_are_digits(n);
            lemma_int_scan_digits(n);
            let w = dec_digits(n);
            assert(forall|i: int| 0 <= i < w.len() ==> is_word_char(w[i]));
            lemma_tokenize_single_word(w);
            lemma_underscores_end_bounds(w, 0);
            assert(underscores_end(w, 0) == 0);
            assert(spec_int_value(w) == Some(n));
            assert(spec_word_token(w) == TokenV::Int(n));
            assert(spec_tokenize(render_token(t)) == Ok::<Seq<TokenV>, LexError>(seq![t]));
        },
        TokenV::Str(s) => {
            lemma_tokenize_string_literal(s);
            assert(spec_tokenize(render_token(t)) == Ok::<Seq<TokenV>, LexError>(seq![t]));
        },
        TokenV::Var(w) => {
            lemma_tokenize_single_word(w);
            assert(spec_tokenize(render_token(t)) == Ok::<Seq<TokenV>, LexError>(seq![t]));
        },
        _ => {},
    }
}

/// One well-formed token, rendered to its canonical text and lexed again,
/// yields exactly that token.
proof fn lemma_token_round_trip(t: TokenV)
    requires
        wf_token(t),
    ensures
        spec_tokenize(render_token(t)) == Ok::<Seq<TokenV>, LexError>(seq![t]),
{
    match t {
        TokenV::Int(_) => lemma_round_trip_payload_tokens(t),
        TokenV::Str(_) => lemma_round_trip_payload_tokens(t),
        TokenV::Var(_) => lemma_round_trip_payload_tokens(t),
        TokenV::If => lemma_round_trip_word_tokens(t),
        TokenV::Elif => lemma_round_trip_word_tokens(t),
        TokenV::Else => lemma_round_trip_word_tokens(t),
        TokenV::For => lemma_round_trip_word_tokens(t),
        TokenV::In => lemma_round_trip_word_tokens(t),
        TokenV::While => lemma_round_trip_word_tokens(t),
        TokenV::Function => lemma_round_trip_word_tokens(t),
        TokenV::Return => lemma_round_trip_word_tokens(t),
        TokenV::Let => lemma_round_trip_word_tokens(t),
        TokenV::Struct => lemma_round_trip_word_tokens(t),
        TokenV::TypeName(_) => lemma_round_trip_word_tokens(t),
        TokenV::Bool(_) => lemma_round_trip_word_tokens(t),
        _ => lemma_round_trip_symbol_tokens(t),
    }
}

/// Law: an input that opens a string literal and never closes it is a
/// fatal lexing error: the lexer reports the unterminated string and hands
/// back no tokens at all.
pub proof fn lemma_unterminated_string(s: Seq<char>)
    requires
        s.len() > 0,
        s[0] == '"',
        forall|j: int| 1 <= j < s.len() ==> s[j] != '"',
    ensures
        spec_tokenize(s) == Err::<Seq<TokenV>, LexError>(LexError::UnterminatedString),
{
    assert(!is_space_char(s[0]));
    assert(!is_word_char(s[0]));
    assert(ws_end(s, 0) == 0);
    lemma_quote_index(s, 1);
    if quote_index(s, 1) < s.len() {
        assert(s[quote_index(s, 1)] == '"');
        assert(false);
    }
}

/// How many double quotes stand at or after `i`./// How many double quotes stand at or after `i`.
pub open spec fn quote_count(s: Seq<char>, i: int) -> int
    decreases s.len() - i,
{
    if i < 0 || i >= s.len() {
        0
    } else if s[i] == '"' {
        1 + quote_count(s, i + 1)
    } else {
        quote_count(s, i + 1)
    }
}

proof fn lemma_quote_count_skip(s: Seq<char>, i: int, j: int)
    requires
        0 <= i <= j <= s.len(),
        forall|m: int| i <= m < j ==> s[m] != '"',
    ensures
        quote_count(s, i) == quote_count(s, j),
    decreases j - i,
{
    if i < j {
        lemma_quote_count_skip(s, i + 1, j);
    }
}

/// A successful lex consumes double quotes in pairs: every string literal
/// has its opener and its closer, and a quote stands nowhere else.
proof fn lemma_tokenize_even_quotes(s: Seq<char>, i: int)
    requires
        0 <= i <= s.len(),
    ensures
        spec_tokenize_at(s, i) is Ok ==> quote_count(s, i) % 2 == 0,
    decreases s.len() - i,
{
    let w0 = ws_end(s, i);
    lemma_ws_end(s, i);
    if w0 >= s.len() {
        lemma_quote_count_skip(s, i, s.len() as int);
    } else if is_word_char(s[w0]) {
        let w1 = word_end(s, w0);
        lemma_word_end(s, w0);
        lemma_word_end(s, w0 + 1);
        assert(forall|m: int| i <= m < w1 ==> s[m] != '"');
        lemma_quote_count_skip(s, i, w1);
        lemma_tokenize_even_quotes(s, w1);
    } else if s[w0] == '"' {
        let q = quote_index(s, w0 + 1);
        lemma_quote_index(s, w0 + 1);
        if q < s.len() {
            lemma_tokenize_even_quotes(s, q + 1);
            lemma_quote_count_skip(s, i, w0);
            lemma_quote_count_skip(s, w0 + 1, q);
            assert(quote_count(s, w0) == 2 + quote_count(s, q + 1));
        }
    } else if w0 + 1 < s.len() && spec_symbol_token(s.subrange(w0, w0 + 2)) is Some {
        // the two-character operators contain no double quote
        assert(s.subrange(w0, w0 + 2)[0] == s[w0]);
        assert(s.subrange(w0, w0 + 2)[1] == s[w0 + 1]);
        assert(s[w0] != '"' && s[w0 + 1] != '"');
        lemma_quote_count_skip(s, i, w0 + 2);
        lemma_tokenize_even_quotes(s, w0 + 2);
    } else if spec_symbol_token(s.subrange(w0, w0 + 1)) is Some {
        lemma_quote_count_skip(s, i, w0 + 1);
        lemma_tokenize_even_quotes(s, w0 + 1);
    }
}

/// Law: an input with an odd number of double quotes opens a string literal
/// that never closes; lexing it is a fatal error, and the caller receives
/// no token sequence at all.
pub proof fn lemma_odd_quotes_never_lex(s: Seq<char>)
    requires
        quote_count(s, 0) % 2 == 1,
    ensures
        spec_tokenize(s) is Err,
{
    lemma_tokenize_even_quotes(s, 0);
}

/// Law: rendering each token the lexer produced to its canonical text and
/// lexing that text again yields exactly that token, for every token of
/// every successfully lexed input.
pub proof fn lemma_tokenize_round_trip(s: Seq<char>, toks: Seq<TokenV>)
    requires
        spec_tokenize(s) == Ok::<Seq<TokenV>, LexError>(toks),
    ensures
        forall|k: int|
            0 <= k < toks.len() ==> spec_tokenize(render_token(#[trigger] toks[k])) == Ok::<
                Seq<TokenV>,
                LexError,
            >(seq![toks[k]]),
{
    lemma_tokens_wf_at(s, 0);
    assert forall|k: int| 0 <= k < toks.len() implies spec_tokenize(
        render_token(#[trigger] toks[k]),
    ) == Ok::<Seq<TokenV>, LexError>(seq![toks[k]]) by {
        match spec_tokenize_at(s, 0) {
            Ok(t2) => {
                assert(t2 == toks);
                assert(wf_token(t2[k]));
            },
            Err(_) => {
                assert(false);
            },
        }
        lemma_token_round_trip(toks[k]);
    }
}

} // verus!
