//! Which names a CommonJS module exports, as far as its text shows it:
//! assignments to `module.exports` and `exports`, and re-exports of what
//! `require` hands back. What the text does not show in one of these forms is
//! not seen.
use vstd::prelude::*;
use vstd::string::*;
use crate::lexer::{tokenize, tokens_of, Token, TokenView};

verus! {

/// What a statement of a module contributes to its exports.
pub enum Item {
    /// A name that the module exports.
    Export(String),
    /// A module whose exports this module hands on, by the specifier it is
    /// required with.
    Reexport(String),
}

pub enum ItemView {
    Export(Seq<char>),
    Reexport(Seq<char>),
}

impl View for Item {
    type V = ItemView;

    open spec fn view(&self) -> ItemView {
        match self {
            Item::Export(name) => ItemView::Export(name@),
            Item::Reexport(specifier) => ItemView::Reexport(specifier@),
        }
    }
}

impl DeepView for Item {
    type V = ItemView;

    open spec fn deep_view(&self) -> ItemView {
        self@
    }
}

/// Whether the token at place `i` is the name.
pub open spec fn is_word(t: Seq<TokenView>, i: int, word: Seq<char>) -> bool {
    0 <= i < t.len() && t[i] == TokenView::Ident(word)
}

/// Whether the token at place `i` is the character.
pub open spec fn is_punct(t: Seq<TokenView>, i: int, c: char) -> bool {
    0 <= i < t.len() && t[i] == TokenView::Punct(c)
}

/// The name at place `i`, if a name stands there.
pub open spec fn word_at(t: Seq<TokenView>, i: int) -> Option<Seq<char>> {
    if 0 <= i < t.len() {
        match t[i] {
            TokenView::Ident(name) => Some(name),
            _ => None,
        }
    } else {
        None
    }
}

/// The string literal at place `i`, if one stands there.
pub open spec fn text_at(t: Seq<TokenView>, i: int) -> Option<Seq<char>> {
    if 0 <= i < t.len() {
        match t[i] {
            TokenView::Text(text) => Some(text),
            _ => None,
        }
    } else {
        None
    }
}

/// The key of an entry of an object literal at place `i`: a name or a string
/// literal.
pub open spec fn key_at(t: Seq<TokenView>, i: int) -> Option<Seq<char>> {
    match word_at(t, i) {
        Some(name) => Some(name),
        None => text_at(t, i),
    }
}

/// The specifier of `require('...')` at place `i`, if that stands there.
pub open spec fn require_at(t: Seq<TokenView>, i: int) -> Option<Seq<char>> {
    if is_word(t, i, "require"@) && is_punct(t, i + 1, '(') && is_punct(t, i + 3, ')') {
        text_at(t, i + 2)
    } else {
        None
    }
}

/// How many tokens the reference to the exports object at place `i` takes:
/// three for `module.exports`, one for `exports`, none where neither stands.
pub open spec fn exports_ref(t: Seq<TokenView>, i: int) -> int {
    if is_word(t, i, "module"@) && is_punct(t, i + 1, '.') && is_word(t, i + 2, "exports"@) {
        3
    } else if is_word(t, i, "exports"@) {
        1
    } else {
        0
    }
}

/// Whether an assignment stands at place `i`: `=`, but not `==`.
pub open spec fn assigns_at(t: Seq<TokenView>, i: int) -> bool {
    is_punct(t, i, '=') && !is_punct(t, i + 1, '=')
}

pub open spec fn opens(t: Seq<TokenView>, i: int) -> bool {
    is_punct(t, i, '(') || is_punct(t, i, '[') || is_punct(t, i, '{')
}

pub open spec fn closes(t: Seq<TokenView>, i: int) -> bool {
    is_punct(t, i, ')') || is_punct(t, i, ']') || is_punct(t, i, '}')
}

/// Whether what follows a key at place `i` shows that an entry begins there.
pub open spec fn ends_key(t: Seq<TokenView>, i: int) -> bool {
    is_punct(t, i, ':') || is_punct(t, i, ',') || is_punct(t, i, '}') || is_punct(t, i, '(')
}

/// What the entries of an object literal contribute, read from place `j`
/// with `depth` brackets open within the literal, and where the literal
/// ends. At the start of an entry, `...require('x')` re-exports `x`, and a
/// key exports its name. What stands in brackets is passed over.
pub open spec fn object_items(t: Seq<TokenView>, j: int, depth: nat, at_start: bool) -> (
    Seq<ItemView>,
    int,
)
    decreases t.len() - j,
{
    if j < 0 || j >= t.len() {
        (Seq::empty(), j)
    } else if depth == 0 && is_punct(t, j, '}') {
        (Seq::empty(), j + 1)
    } else if depth == 0 && at_start && is_punct(t, j, '.') && is_punct(t, j + 1, '.') && is_punct(
        t,
        j + 2,
        '.',
    ) && require_at(t, j + 3) is Some {
        let rest = object_items(t, j + 7, 0, false);
        (seq![ItemView::Reexport(require_at(t, j + 3).unwrap())] + rest.0, rest.1)
    } else if depth == 0 && at_start && key_at(t, j) is Some && ends_key(t, j + 1) {
        let rest = object_items(t, j + 1, 0, false);
        (seq![ItemView::Export(key_at(t, j).unwrap())] + rest.0, rest.1)
    } else if opens(t, j) {
        object_items(t, j + 1, depth + 1, false)
    } else if depth > 0 && closes(t, j) {
        object_items(t, j + 1, (depth - 1) as nat, false)
    } else if depth == 0 && is_punct(t, j, ',') {
        object_items(t, j + 1, 0, true)
    } else {
        object_items(t, j + 1, depth, false)
    }
}

/// An object literal ends behind where it is read from, and within the
/// tokens.
pub proof fn lemma_object_end(t: Seq<TokenView>, j: int, depth: nat, at_start: bool)
    requires
        0 <= j <= t.len(),
    ensures
        j <= object_items(t, j, depth, at_start).1 <= t.len(),
    decreases t.len() - j,
{
    if j < t.len() {
        if depth == 0 && is_punct(t, j, '}') {
        } else if depth == 0 && at_start && is_punct(t, j, '.') && is_punct(t, j + 1, '.')
            && is_punct(t, j + 2, '.') && require_at(t, j + 3) is Some {
            lemma_object_end(t, j + 7, 0, false);
        } else if depth == 0 && at_start && key_at(t, j) is Some && ends_key(t, j + 1) {
            lemma_object_end(t, j + 1, 0, false);
        } else if opens(t, j) {
            lemma_object_end(t, j + 1, depth + 1, false);
        } else if depth > 0 && closes(t, j) {
            lemma_object_end(t, j + 1, (depth - 1) as nat, false);
        } else if depth == 0 && is_punct(t, j, ',') {
            lemma_object_end(t, j + 1, 0, true);
        } else {
            lemma_object_end(t, j + 1, depth, false);
        }
    }
}

/// Whether `Object.assign(E,` stands at place `i`, with `E` for
/// `module.exports` or `exports`.
pub open spec fn assign_at(t: Seq<TokenView>, i: int) -> bool {
    &&& is_word(t, i, "Object"@)
    &&& is_punct(t, i + 1, '.')
    &&& is_word(t, i + 2, "assign"@)
    &&& is_punct(t, i + 3, '(')
    &&& exports_ref(t, i + 4) > 0
    &&& is_punct(t, i + 4 + exports_ref(t, i + 4), ',')
}

/// What the statement that begins at place `i` contributes, and where what
/// follows it begins; nothing where no statement of a known form begins
/// there. The forms, with `E` for `module.exports` or `exports`:
/// `E.name =`, `E['name'] =`, `module.exports = require('x')`,
/// `module.exports = { ... }`, `Object.defineProperty(E, 'name'`,
/// `Object.assign(E, require('x')`, `Object.assign(E, { ... }`,
/// `__exportStar(require('x')` and `__export(require('x')`.
pub open spec fn statement_at(t: Seq<TokenView>, i: int) -> Option<(Seq<ItemView>, int)> {
    let r = exports_ref(t, i);
    let b = i + r;
    if r > 0 && is_punct(t, b, '.') && word_at(t, b + 1) is Some && assigns_at(t, b + 2) {
        Some((seq![ItemView::Export(word_at(t, b + 1).unwrap())], b + 3))
    } else if r > 0 && is_punct(t, b, '[') && text_at(t, b + 1) is Some && is_punct(t, b + 2, ']')
        && assigns_at(t, b + 3) {
        Some((seq![ItemView::Export(text_at(t, b + 1).unwrap())], b + 4))
    } else if r == 3 && assigns_at(t, b) && require_at(t, b + 1) is Some {
        Some((seq![ItemView::Reexport(require_at(t, b + 1).unwrap())], b + 5))
    } else if r == 3 && assigns_at(t, b) && is_punct(t, b + 1, '{') {
        Some(object_items(t, b + 2, 0, true))
    } else if is_word(t, i, "Object"@) && is_punct(t, i + 1, '.') && is_word(
        t,
        i + 2,
        "defineProperty"@,
    ) && is_punct(t, i + 3, '(') && exports_ref(t, i + 4) > 0 && is_punct(
        t,
        i + 4 + exports_ref(t, i + 4),
        ',',
    ) && text_at(t, i + 5 + exports_ref(t, i + 4)) is Some {
        Some(
            (
                seq![ItemView::Export(text_at(t, i + 5 + exports_ref(t, i + 4)).unwrap())],
                i + 6 + exports_ref(t, i + 4),
            ),
        )
    } else if assign_at(t, i) && require_at(t, i + 5 + exports_ref(t, i + 4)) is Some {
        Some(
            (
                seq![ItemView::Reexport(require_at(t, i + 5 + exports_ref(t, i + 4)).unwrap())],
                i + 9 + exports_ref(t, i + 4),
            ),
        )
    } else if assign_at(t, i) && is_punct(t, i + 5 + exports_ref(t, i + 4), '{') {
        Some(object_items(t, i + 6 + exports_ref(t, i + 4), 0, true))
    } else if (is_word(t, i, "__exportStar"@) || is_word(t, i, "__export"@)) && is_punct(
        t,
        i + 1,
        '(',
    ) && require_at(t, i + 2) is Some {
        Some((seq![ItemView::Reexport(require_at(t, i + 2).unwrap())], i + 6))
    } else {
        None
    }
}

/// A statement ends behind where it begins, and within the tokens.
pub proof fn lemma_statement_end(t: Seq<TokenView>, i: int)
    requires
        0 <= i < t.len(),
        statement_at(t, i) is Some,
    ensures
        i < statement_at(t, i).unwrap().1 <= t.len(),
{
    let r = exports_ref(t, i);
    if r == 3 && assigns_at(t, i + r) && is_punct(t, i + r + 1, '{') {
        lemma_object_end(t, i + r + 2, 0, true);
    }
    let inner = exports_ref(t, i + 4);
    if assign_at(t, i) && is_punct(t, i + 5 + inner, '{') {
        lemma_object_end(t, i + 6 + inner, 0, true);
    }
}

/// What the tokens from place `i` on contribute: what each statement of a
/// known form contributes, in the order of the text.
pub open spec fn items_from(t: Seq<TokenView>, i: int) -> Seq<ItemView>
    decreases t.len() - i,
{
    if i < 0 || i >= t.len() {
        Seq::empty()
    } else {
        match statement_at(t, i) {
            Some((items, next)) => if i < next <= t.len() {
                items + items_from(t, next)
            } else {
                items_from(t, i + 1)
            },
            None => items_from(t, i + 1),
        }
    }
}

/// What the text of a module shows of its exports.
pub open spec fn items_of(source: Seq<char>) -> Seq<ItemView> {
    items_from(tokens_of(source), 0)
}

fn token_at(tokens: &Vec<Token>, i: usize, k: usize) -> (r: Option<&Token>)
    requires
        i <= tokens@.len(),
    ensures
        match r {
            Some(token) => i + k < tokens@.len() && token@ == tokens.deep_view()[i + k],
            None => i + k >= tokens@.len(),
        },
{
    if k < tokens.len() - i {
        assert(tokens.deep_view()[i + k] == tokens@[i + k]@);
        Some(&tokens[i + k])
    } else {
        None
    }
}

fn word_is(tokens: &Vec<Token>, i: usize, k: usize, word: &str) -> (b: bool)
    requires
        i <= tokens@.len(),
    ensures
        b == is_word(tokens.deep_view(), i + k, word@),
{
    match token_at(tokens, i, k) {
        Some(Token::Ident(name)) => *name == String::from_str(word),
        _ => false,
    }
}

fn punct_is(tokens: &Vec<Token>, i: usize, k: usize, c: char) -> (b: bool)
    requires
        i <= tokens@.len(),
    ensures
        b == is_punct(tokens.deep_view(), i + k, c),
{
    match token_at(tokens, i, k) {
        Some(Token::Punct(found)) => *found == c,
        _ => false,
    }
}

fn word(tokens: &Vec<Token>, i: usize, k: usize) -> (r: Option<String>)
    requires
        i <= tokens@.len(),
    ensures
        r.deep_view() == word_at(tokens.deep_view(), i + k),
{
    match token_at(tokens, i, k) {
        Some(Token::Ident(name)) => Some(name.clone()),
        _ => None,
    }
}

fn text(tokens: &Vec<Token>, i: usize, k: usize) -> (r: Option<String>)
    requires
        i <= tokens@.len(),
    ensures
        r.deep_view() == text_at(tokens.deep_view(), i + k),
{
    match token_at(tokens, i, k) {
        Some(Token::Text(text)) => Some(text.clone()),
        _ => None,
    }
}

fn key(tokens: &Vec<Token>, i: usize, k: usize) -> (r: Option<String>)
    requires
        i <= tokens@.len(),
    ensures
        r.deep_view() == key_at(tokens.deep_view(), i + k),
{
    match word(tokens, i, k) {
        Some(name) => Some(name),
        None => text(tokens, i, k),
    }
}

fn required(tokens: &Vec<Token>, i: usize, k: usize) -> (r: Option<String>)
    requires
        i <= tokens@.len(),
        k <= 100,
    ensures
        r.deep_view() == require_at(tokens.deep_view(), i + k),
{
    if word_is(tokens, i, k, "require") && punct_is(tokens, i, k + 1, '(') && punct_is(
        tokens,
        i,
        k + 3,
        ')',
    ) {
        text(tokens, i, k + 2)
    } else {
        None
    }
}

fn exports_reference(tokens: &Vec<Token>, i: usize, k: usize) -> (r: usize)
    requires
        i <= tokens@.len(),
        k <= 100,
    ensures
        r == exports_ref(tokens.deep_view(), i + k),
        r <= 3,
{
    if word_is(tokens, i, k, "module") && punct_is(tokens, i, k + 1, '.') && word_is(
        tokens,
        i,
        k + 2,
        "exports",
    ) {
        3
    } else if word_is(tokens, i, k, "exports") {
        1
    } else {
        0
    }
}

fn assigns(tokens: &Vec<Token>, i: usize, k: usize) -> (b: bool)
    requires
        i <= tokens@.len(),
        k <= 100,
    ensures
        b == assigns_at(tokens.deep_view(), i + k),
{
    punct_is(tokens, i, k, '=') && !punct_is(tokens, i, k + 1, '=')
}

/// What the entries of the object literal that is open at place `from`
/// contribute, and where the literal ends.
#[verifier::loop_isolation(false)]
fn object(tokens: &Vec<Token>, from: usize) -> (r: (Vec<Item>, usize))
    requires
        from <= tokens@.len(),
    ensures
        r.0.deep_view() == object_items(tokens.deep_view(), from as int, 0, true).0,
        r.1 == object_items(tokens.deep_view(), from as int, 0, true).1,
        from <= r.1 <= tokens@.len(),
{
    let ghost t = tokens.deep_view();
    let ghost whole = object_items(t, from as int, 0, true);
    let n = tokens.len();
    let mut items: Vec<Item> = Vec::new();
    let mut j: usize = from;
    let mut depth: usize = 0;
    let mut at_start = true;
    proof {
        assert(items.deep_view() + whole.0 =~= whole.0);
        lemma_object_end(t, from as int, 0, true);
    }
    while j < n
        invariant
            from <= j <= n == tokens@.len(),
            t == tokens.deep_view(),
            depth <= j,
            items.deep_view() + object_items(t, j as int, depth as nat, at_start).0 == whole.0,
            object_items(t, j as int, depth as nat, at_start).1 == whole.1,
            from <= whole.1 <= n,
        decreases n - j,
    {
        let ghost before = items.deep_view();
        let ghost here = object_items(t, j as int, depth as nat, at_start);
        if depth == 0 && punct_is(tokens, j, 0, '}') {
            assert(before + Seq::<ItemView>::empty() =~= before);
            return (items, j + 1);
        }
        if depth == 0 && at_start && punct_is(tokens, j, 0, '.') && punct_is(tokens, j, 1, '.')
            && punct_is(tokens, j, 2, '.') {
            match required(tokens, j, 3) {
                Some(specifier) => {
                    let item = Item::Reexport(specifier);
                    items.push(item);
                    proof {
                        let rest = object_items(t, j + 7, 0, false);
                        assert(items.deep_view() =~= before.push(item@));
                        assert(before.push(item@) + rest.0 =~= before + (seq![item@] + rest.0));
                    }
                    j += 7;
                    at_start = false;
                    continue ;
                },
                None => {},
            }
        }
        if depth == 0 && at_start && (punct_is(tokens, j, 1, ':') || punct_is(tokens, j, 1, ',')
            || punct_is(tokens, j, 1, '}') || punct_is(tokens, j, 1, '(')) {
            match key(tokens, j, 0) {
                Some(name) => {
                    let item = Item::Export(name);
                    items.push(item);
                    proof {
                        let rest = object_items(t, j + 1, 0, false);
                        assert(items.deep_view() =~= before.push(item@));
                        assert(before.push(item@) + rest.0 =~= before + (seq![item@] + rest.0));
                    }
                    j += 1;
                    at_start = false;
                    continue ;
                },
                None => {},
            }
        }
        if punct_is(tokens, j, 0, '(') || punct_is(tokens, j, 0, '[') || punct_is(
            tokens,
            j,
            0,
            '{',
        ) {
            depth += 1;
            at_start = false;
        } else if depth > 0 && (punct_is(tokens, j, 0, ')') || punct_is(tokens, j, 0, ']')
            || punct_is(tokens, j, 0, '}')) {
            depth -= 1;
            at_start = false;
        } else if depth == 0 && punct_is(tokens, j, 0, ',') {
            at_start = true;
        } else {
            at_start = false;
        }
        j += 1;
    }
    assert(items.deep_view() + Seq::<ItemView>::empty() =~= items.deep_view());
    (items, j)
}

fn one(item: Item) -> (items: Vec<Item>)
    ensures
        items.deep_view() == seq![item@],
{
    let mut items: Vec<Item> = Vec::new();
    items.push(item);
    assert(items.deep_view() =~= seq![item@]);
    items
}

/// What the statement that begins at place `i` contributes, and where what
/// follows it begins.
fn statement(tokens: &Vec<Token>, i: usize) -> (r: Option<(Vec<Item>, usize)>)
    requires
        i < tokens@.len(),
    ensures
        match r {
            Some((items, next)) => statement_at(tokens.deep_view(), i as int) == Some(
                (items.deep_view(), next as int),
            ) && i < next <= tokens@.len(),
            None => statement_at(tokens.deep_view(), i as int) is None,
        },
{
    let ghost t = tokens.deep_view();
    proof {
        if statement_at(t, i as int) is Some {
            lemma_statement_end(t, i as int);
        }
    }
    let n = tokens.len();
    assert(t.len() == n);
    let r = exports_reference(tokens, i, 0);
    if r > 0 && punct_is(tokens, i, r, '.') && assigns(tokens, i, r + 2) {
        match word(tokens, i, r + 1) {
            Some(name) => {
                return Some((one(Item::Export(name)), i + r + 3));
            },
            None => {},
        }
    }
    if r > 0 && punct_is(tokens, i, r, '[') && punct_is(tokens, i, r + 2, ']') && assigns(
        tokens,
        i,
        r + 3,
    ) {
        match text(tokens, i, r + 1) {
            Some(name) => {
                return Some((one(Item::Export(name)), i + r + 4));
            },
            None => {},
        }
    }
    if r == 3 && assigns(tokens, i, r) {
        match required(tokens, i, r + 1) {
            Some(specifier) => {
                return Some((one(Item::Reexport(specifier)), i + r + 5));
            },
            None => {},
        }
        if punct_is(tokens, i, r + 1, '{') {
            let (items, end) = object(tokens, i + r + 2);
            return Some((items, end));
        }
    }
    if word_is(tokens, i, 0, "Object") && punct_is(tokens, i, 1, '.') && word_is(
        tokens,
        i,
        2,
        "defineProperty",
    ) && punct_is(tokens, i, 3, '(') {
        let inner = exports_reference(tokens, i, 4);
        if inner > 0 && punct_is(tokens, i, 4 + inner, ',') {
            match text(tokens, i, 5 + inner) {
                Some(name) => {
                    return Some((one(Item::Export(name)), i + 6 + inner));
                },
                None => {},
            }
        }
    }
    if word_is(tokens, i, 0, "Object") && punct_is(tokens, i, 1, '.') && word_is(
        tokens,
        i,
        2,
        "assign",
    ) && punct_is(tokens, i, 3, '(') {
        let inner = exports_reference(tokens, i, 4);
        if inner > 0 && punct_is(tokens, i, 4 + inner, ',') {
            match required(tokens, i, 5 + inner) {
                Some(specifier) => {
                    return Some((one(Item::Reexport(specifier)), i + 9 + inner));
                },
                None => {},
            }
            if punct_is(tokens, i, 5 + inner, '{') {
                let (items, end) = object(tokens, i + 6 + inner);
                return Some((items, end));
            }
        }
    }
    if (word_is(tokens, i, 0, "__exportStar") || word_is(tokens, i, 0, "__export")) && punct_is(
        tokens,
        i,
        1,
        '(',
    ) {
        match required(tokens, i, 2) {
            Some(specifier) => {
                return Some((one(Item::Reexport(specifier)), i + 6));
            },
            None => {},
        }
    }
    None
}

/// What the tokens of a module show of its exports.
pub fn analyze_tokens(tokens: &Vec<Token>) -> (items: Vec<Item>)
    ensures
        items.deep_view() == items_from(tokens.deep_view(), 0),
{
    let ghost t = tokens.deep_view();
    let n = tokens.len();
    let mut items: Vec<Item> = Vec::new();
    let mut i: usize = 0;
    assert(items.deep_view() + items_from(t, 0) =~= items_from(t, 0));
    while i < n
        invariant
            i <= n == tokens@.len(),
            t == tokens.deep_view(),
            items.deep_view() + items_from(t, i as int) == items_from(t, 0),
        decreases n - i,
    {
        let ghost before = items.deep_view();
        match statement(tokens, i) {
            Some((found, next)) => {
                let mut found = found;
                let ghost added = found.deep_view();
                items.append(&mut found);
                proof {
                    assert(items.deep_view() =~= before + added);
                    assert((before + added) + items_from(t, next as int) =~= before + (added
                        + items_from(t, next as int)));
                }
                i = next;
            },
            None => {
                i += 1;
            },
        }
    }
    assert(items.deep_view() + Seq::<ItemView>::empty() =~= items.deep_view());
    items
}

/// What the text of a module shows of its exports.
pub fn analyze_cjs(source: &str) -> (items: Vec<Item>)
    ensures
        items.deep_view() == items_of(source@),
{
    let tokens = tokenize(source);
    analyze_tokens(&tokens)
}

} // verus!
