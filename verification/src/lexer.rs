//! Source text of a script, cut into the tokens that export analysis looks
//! at: names, string literals, and single characters of punctuation.
use vstd::prelude::*;
use vstd::string::*;
use crate::text::{chars_of, substring};

verus! {

/// A token of a script.
pub enum Token {
    /// A name or keyword.
    Ident(String),
    /// A string literal, by what stands between its quotes.
    Text(String),
    /// Any other character that is no white space.
    Punct(char),
}

pub enum TokenView {
    Ident(Seq<char>),
    Text(Seq<char>),
    Punct(char),
}

impl View for Token {
    type V = TokenView;

    open spec fn view(&self) -> TokenView {
        match self {
            Token::Ident(name) => TokenView::Ident(name@),
            Token::Text(text) => TokenView::Text(text@),
            Token::Punct(c) => TokenView::Punct(*c),
        }
    }
}

impl DeepView for Token {
    type V = TokenView;

    open spec fn deep_view(&self) -> TokenView {
        self@
    }
}

pub open spec fn is_space(c: char) -> bool {
    c == ' ' || c == '\t' || c == '\n' || c == '\r'
}

pub open spec fn is_ident_start(c: char) -> bool {
    ('a' <= c && c <= 'z') || ('A' <= c && c <= 'Z') || c == '_' || c == '$'
}

pub open spec fn is_ident_char(c: char) -> bool {
    is_ident_start(c) || ('0' <= c && c <= '9')
}

/// Where the name that holds position `j - 1` ends: the first position from
/// `j` on that holds no character of a name.
pub open spec fn ident_end(s: Seq<char>, j: int) -> int
    decreases s.len() - j,
{
    if j < 0 || j >= s.len() || !is_ident_char(s[j]) {
        j
    } else {
        ident_end(s, j + 1)
    }
}

/// Where the line ends that holds position `j`: behind the first line feed
/// from `j` on, or at the end.
pub open spec fn line_end(s: Seq<char>, j: int) -> int
    decreases s.len() - j,
{
    if j < 0 || j >= s.len() {
        j
    } else if s[j] == '\n' {
        j + 1
    } else {
        line_end(s, j + 1)
    }
}

/// Where the comment ends that is open at position `j`: behind the first
/// `*/` from `j` on, or at the end.
pub open spec fn block_end(s: Seq<char>, j: int) -> int
    decreases s.len() - j,
{
    if j < 0 || j >= s.len() {
        j
    } else if s[j] == '*' && j + 1 < s.len() && s[j + 1] == '/' {
        j + 2
    } else {
        block_end(s, j + 1)
    }
}

/// Where the string literal closes that is open at position `j`: at the
/// first `quote` from `j` on that no backslash stands in front of, or at the
/// end.
pub open spec fn string_end(s: Seq<char>, j: int, quote: char) -> int
    decreases s.len() - j,
{
    if j < 0 || j >= s.len() {
        j
    } else if s[j] == quote {
        j
    } else if s[j] == '\\' && j + 1 < s.len() {
        string_end(s, j + 2, quote)
    } else {
        string_end(s, j + 1, quote)
    }
}

/// The scans end at or behind where they begin, and within the text.
pub proof fn lemma_scan_ends(s: Seq<char>, j: int, quote: char)
    requires
        0 <= j <= s.len(),
    ensures
        j <= ident_end(s, j) <= s.len(),
        j <= line_end(s, j) <= s.len(),
        j <= block_end(s, j) <= s.len(),
        j <= string_end(s, j, quote) <= s.len(),
    decreases s.len() - j,
{
    if j < s.len() {
        lemma_scan_ends(s, j + 1, quote);
        if j + 2 <= s.len() {
            lemma_scan_ends(s, j + 2, quote);
        }
    }
}

/// The character at position `i`, as a token.
pub open spec fn punct_at(s: Seq<char>, i: int) -> TokenView {
    TokenView::Punct(s[i])
}

/// The tokens of `s` from position `i` on. White space and comments part
/// tokens and are none themselves.
pub open spec fn tokens_from(s: Seq<char>, i: int) -> Seq<TokenView>
    decreases s.len() - i,
    via tokens_from_decreases
{
    if i < 0 || i >= s.len() {
        Seq::empty()
    } else if is_space(s[i]) {
        tokens_from(s, i + 1)
    } else if s[i] == '/' && i + 1 < s.len() && s[i + 1] == '/' {
        tokens_from(s, line_end(s, i + 2))
    } else if s[i] == '/' && i + 1 < s.len() && s[i + 1] == '*' {
        tokens_from(s, block_end(s, i + 2))
    } else if is_ident_start(s[i]) {
        let end = ident_end(s, i + 1);
        seq![TokenView::Ident(s.subrange(i, end))] + tokens_from(s, end)
    } else if s[i] == '\'' || s[i] == '"' {
        let end = string_end(s, i + 1, s[i]);
        seq![TokenView::Text(s.subrange(i + 1, end))] + tokens_from(
            s,
            if end < s.len() {
                end + 1
            } else {
                end
            },
        )
    } else {
        seq![punct_at(s, i)] + tokens_from(s, i + 1)
    }
}

#[via_fn]
proof fn tokens_from_decreases(s: Seq<char>, i: int) {
    if 0 <= i < s.len() {
        lemma_scan_ends(s, i + 1, s[i]);
        if i + 2 <= s.len() {
            lemma_scan_ends(s, i + 2, s[i]);
        }
    }
}

/// The tokens of a script.
pub open spec fn tokens_of(s: Seq<char>) -> Seq<TokenView> {
    tokens_from(s, 0)
}

fn ident_char(c: char) -> (b: bool)
    ensures
        b == is_ident_char(c),
{
    (c >= 'a' && c <= 'z') || (c >= 'A' && c <= 'Z') || c == '_' || c == '$' || (c >= '0' && c
        <= '9')
}

fn scan_ident(chars: &Vec<char>, from: usize) -> (end: usize)
    requires
        from <= chars@.len(),
    ensures
        end == ident_end(chars@, from as int),
        from <= end <= chars@.len(),
{
    let mut j = from;
    while j < chars.len() && ident_char(chars[j])
        invariant
            from <= j <= chars@.len(),
            ident_end(chars@, from as int) == ident_end(chars@, j as int),
        decreases chars.len() - j,
    {
        j += 1;
    }
    j
}

fn scan_line(chars: &Vec<char>, from: usize) -> (end: usize)
    requires
        from <= chars@.len(),
    ensures
        end == line_end(chars@, from as int),
        from <= end <= chars@.len(),
{
    let mut j = from;
    while j < chars.len()
        invariant
            from <= j <= chars@.len(),
            line_end(chars@, from as int) == line_end(chars@, j as int),
        decreases chars.len() - j,
    {
        if chars[j] == '\n' {
            return j + 1;
        }
        j += 1;
    }
    j
}

fn scan_block(chars: &Vec<char>, from: usize) -> (end: usize)
    requires
        from <= chars@.len(),
    ensures
        end == block_end(chars@, from as int),
        from <= end <= chars@.len(),
{
    let mut j = from;
    while j < chars.len()
        invariant
            from <= j <= chars@.len(),
            block_end(chars@, from as int) == block_end(chars@, j as int),
        decreases chars.len() - j,
    {
        if chars[j] == '*' && j + 1 < chars.len() && chars[j + 1] == '/' {
            return j + 2;
        }
        j += 1;
    }
    j
}

fn scan_string(chars: &Vec<char>, from: usize, quote: char) -> (end: usize)
    requires
        from <= chars@.len(),
    ensures
        end == string_end(chars@, from as int, quote),
        from <= end <= chars@.len(),
{
    let mut j = from;
    while j < chars.len()
        invariant
            from <= j <= chars@.len(),
            string_end(chars@, from as int, quote) == string_end(chars@, j as int, quote),
        decreases chars.len() - j,
    {
        if chars[j] == quote {
            return j;
        }
        if chars[j] == '\\' && j + 1 < chars.len() {
            j += 2;
        } else {
            j += 1;
        }
    }
    j
}

/// The token that begins at position `i`, if one does, and where the next
/// may begin.
fn next_token(source: &str, chars: &Vec<char>, i: usize) -> (r: (Option<Token>, usize))
    requires
        chars@ == source@,
        i < chars@.len(),
    ensures
        i < r.1 <= chars@.len(),
        tokens_from(source@, i as int) == (match r.0 {
            Some(token) => seq![token@],
            None => Seq::empty(),
        }) + tokens_from(source@, r.1 as int),
{
    let n = chars.len();
    let c = chars[i];
    if c == ' ' || c == '\t' || c == '\n' || c == '\r' {
        assert(Seq::<TokenView>::empty() + tokens_from(source@, i + 1) =~= tokens_from(
            source@,
            i + 1,
        ));
        (None, i + 1)
    } else if c == '/' && i + 1 < n && chars[i + 1] == '/' {
        let end = scan_line(chars, i + 2);
        assert(Seq::<TokenView>::empty() + tokens_from(source@, end as int) =~= tokens_from(
            source@,
            end as int,
        ));
        (None, end)
    } else if c == '/' && i + 1 < n && chars[i + 1] == '*' {
        let end = scan_block(chars, i + 2);
        assert(Seq::<TokenView>::empty() + tokens_from(source@, end as int) =~= tokens_from(
            source@,
            end as int,
        ));
        (None, end)
    } else if (c >= 'a' && c <= 'z') || (c >= 'A' && c <= 'Z') || c == '_' || c == '$' {
        let end = scan_ident(chars, i + 1);
        let token = Token::Ident(substring(source, i, end));
        assert(tokens_from(source@, i as int) == seq![token@] + tokens_from(source@, end as int));
        (Some(token), end)
    } else if c == '\'' || c == '"' {
        let end = scan_string(chars, i + 1, c);
        let next = if end < n {
            end + 1
        } else {
            n
        };
        let token = Token::Text(substring(source, i + 1, end));
        assert(tokens_from(source@, i as int) == seq![token@] + tokens_from(source@, next as int));
        (Some(token), next)
    } else {
        let token = Token::Punct(c);
        assert(token@ == punct_at(source@, i as int));
        (Some(token), i + 1)
    }
}

/// Cuts a script into tokens.
pub fn tokenize(source: &str) -> (tokens: Vec<Token>)
    ensures
        tokens.deep_view() == tokens_of(source@),
{
    let chars = chars_of(source);
    let n = chars.len();
    let mut tokens: Vec<Token> = Vec::new();
    let mut i: usize = 0;
    assert(tokens.deep_view() + tokens_from(source@, 0) =~= tokens_of(source@));
    while i < n
        invariant
            i <= n == chars@.len(),
            chars@ == source@,
            tokens.deep_view() + tokens_from(source@, i as int) == tokens_of(source@),
        decreases n - i,
    {
        let ghost before = tokens.deep_view();
        let (token, next) = next_token(source, &chars, i);
        match token {
            Some(token) => {
                tokens.push(token);
                proof {
                    assert(tokens.deep_view() =~= before.push(token@));
                    assert(before.push(token@) + tokens_from(source@, next as int) =~= before + (
                    seq![token@] + tokens_from(source@, next as int)));
                }
            },
            None => {
                assert(before + (Seq::<TokenView>::empty() + tokens_from(source@, next as int))
                    =~= before + tokens_from(source@, next as int));
            },
        }
        i = next;
    }
    assert(tokens.deep_view() + Seq::<TokenView>::empty() =~= tokens.deep_view());
    tokens
}

} // verus!
